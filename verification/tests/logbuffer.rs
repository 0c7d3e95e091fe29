use depot::logger::logbuffer::{LogBuffer, DEFAULT_LOG_CAPACITY};
use depot::logger::Logger;

fn contents(buffer: &LogBuffer) -> Vec<u8> {
    let (l, r) = buffer.contents();
    (l.iter().chain(r.iter())).copied().collect::<Vec<_>>()
}

#[test]
fn logbuffer_test_log_buffer() {
    let mut buffer = LogBuffer::with_max_capacity(4);

    buffer.push(&[0, 1]);
    assert_eq!(contents(&buffer), vec![0, 1]);

    buffer.push(&[2]);
    assert_eq!(contents(&buffer), vec![0, 1, 2]);

    buffer.push(&[3, 4]);
    assert_eq!(contents(&buffer), vec![1, 2, 3, 4]);

    buffer.push(&[5, 6]);
    assert_eq!(contents(&buffer), vec![3, 4, 5, 6]);

    buffer.push(&[7, 8, 9, 10, 11]);
    assert_eq!(contents(&buffer), vec![8, 9, 10, 11])
}

#[test]
fn logbuffer_default_capacity_keeps_the_newest_bytes() {
    assert_eq!(DEFAULT_LOG_CAPACITY, 2048);
    let mut buffer = LogBuffer::new();
    let bytes: Vec<u8> = (0..5000u32).map(|i| (i % 251) as u8).collect();
    buffer.push(&bytes[..3000]);
    buffer.push(&bytes[3000..]);
    assert_eq!(contents(&buffer), bytes[5000 - 2048..].to_vec());
}

#[test]
fn logbuffer_of_no_capacity_stays_empty() {
    let mut buffer = LogBuffer::with_max_capacity(0);
    buffer.push(&[1, 2, 3]);
    assert_eq!(contents(&buffer), Vec::<u8>::new());
    buffer.push(&[]);
    assert_eq!(contents(&buffer), Vec::<u8>::new());
}

#[test]
fn logger_keeps_one_log_for_each_program_of_a_package() {
    let mut logger = Logger::new();
    logger.register_log(0, "tsc");
    logger.register_log(1, "tsc");
    logger.register_log(0, "vite");
    logger.logger(0, "tsc").push("a".to_string());
    logger.logger(1, "tsc").push("b".to_string());
    logger.logger(0, "tsc").push("c".to_string());
    let lines = |l: &mut Logger, i: usize, p: &str| l.logger(i, p).iter().cloned().collect::<Vec<_>>();
    assert_eq!(lines(&mut logger, 0, "tsc"), vec!["a", "c"]);
    assert_eq!(lines(&mut logger, 1, "tsc"), vec!["b"]);
    assert_eq!(lines(&mut logger, 0, "vite"), Vec::<String>::new());
    logger.register_log(0, "tsc");
    assert_eq!(lines(&mut logger, 0, "tsc"), Vec::<String>::new());
    assert_eq!(lines(&mut logger, 1, "tsc"), vec!["b"]);
}
