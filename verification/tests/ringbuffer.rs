use depot::logger::ringbuffer::{RingBuffer, DEFAULT_MAX_CAPACITY};

fn contents(buffer: &RingBuffer<i32>) -> Vec<i32> {
    buffer.iter().copied().collect::<Vec<_>>()
}

fn extend(buffer: &mut RingBuffer<i32>, items: &[i32]) {
    for x in items {
        buffer.push(*x);
    }
}

#[test]
fn ringbuffer_test_log_buffer() {
    let mut buffer = RingBuffer::with_max_capacity(4);

    extend(&mut buffer, &[0, 1]);
    assert_eq!(contents(&buffer), vec![0, 1]);

    extend(&mut buffer, &[2]);
    assert_eq!(contents(&buffer), vec![0, 1, 2]);

    extend(&mut buffer, &[3, 4]);
    assert_eq!(contents(&buffer), vec![1, 2, 3, 4]);

    extend(&mut buffer, &[5, 6]);
    assert_eq!(contents(&buffer), vec![3, 4, 5, 6]);

    extend(&mut buffer, &[7, 8, 9, 10, 11]);
    assert_eq!(contents(&buffer), vec![8, 9, 10, 11])
}

fn lines(buffer: &RingBuffer<i32>) -> Vec<i32> {
    buffer.lines().copied().collect::<Vec<_>>()
}

#[test]
fn ringbuffer_test_log_buffer_through_lines() {
    let mut buffer = RingBuffer::with_max_capacity(4);

    extend(&mut buffer, &[0, 1]);
    assert_eq!(lines(&buffer), vec![0, 1]);

    extend(&mut buffer, &[2]);
    assert_eq!(lines(&buffer), vec![0, 1, 2]);

    extend(&mut buffer, &[3, 4]);
    assert_eq!(lines(&buffer), vec![1, 2, 3, 4]);

    extend(&mut buffer, &[5, 6]);
    assert_eq!(lines(&buffer), vec![3, 4, 5, 6]);

    extend(&mut buffer, &[7, 8, 9, 10, 11]);
    assert_eq!(lines(&buffer), vec![8, 9, 10, 11])
}

#[test]
fn ringbuffer_lines_match_iter() {
    let mut buffer = RingBuffer::with_max_capacity(3);
    extend(&mut buffer, &[1, 2, 3, 4]);
    assert_eq!(buffer.lines().copied().collect::<Vec<_>>(), vec![2, 3, 4]);
    assert_eq!(buffer.len(), 3);
    assert_eq!(*buffer.get(0), 2);
}

#[test]
fn ringbuffer_default_capacity_bounds_length() {
    let mut buffer = RingBuffer::new();
    assert_eq!(buffer.max_capacity(), DEFAULT_MAX_CAPACITY);
    assert_eq!(DEFAULT_MAX_CAPACITY, 1024);
    for x in 0..3000 {
        buffer.push(x);
        assert!(buffer.len() <= 1024);
    }
    assert_eq!(buffer.len(), 1024);
    assert_eq!(*buffer.get(0), 3000 - 1024);
    assert_eq!(*buffer.get(1023), 2999);
}

#[test]
fn ringbuffer_clear_empties() {
    let mut buffer = RingBuffer::with_max_capacity(2);
    extend(&mut buffer, &[1, 2, 3]);
    buffer.clear();
    assert_eq!(buffer.len(), 0);
    assert_eq!(buffer.max_capacity(), 2);
    buffer.push(9);
    assert_eq!(contents(&buffer), vec![9]);
}

#[test]
fn ringbuffer_zero_capacity_grows() {
    let mut buffer = RingBuffer::with_max_capacity(0);
    extend(&mut buffer, &[1, 2, 3]);
    assert_eq!(contents(&buffer), vec![1, 2, 3]);
}

#[test]
fn ringbuffer_tail_takes_newest() {
    let mut buffer = RingBuffer::with_max_capacity(8);
    extend(&mut buffer, &[1, 2, 3, 4, 5]);
    let tail: Vec<i32> = buffer.tail(2).into_iter().copied().collect();
    assert_eq!(tail, vec![4, 5]);
    let all: Vec<i32> = buffer.tail(10).into_iter().copied().collect();
    assert_eq!(all, vec![1, 2, 3, 4, 5]);
    assert!(buffer.tail(0).is_empty());
}
