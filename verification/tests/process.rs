use depot::workspace::process::{ExitStatus, OutputChannel, Process, ProcessError};

fn lines(process: &Process) -> Vec<String> {
    process.stdout().iter().map(|l| l.line.clone()).collect()
}

#[test]
fn process_keeps_the_lines_it_is_told() {
    let mut process = Process::new("echo".to_string());
    assert_eq!(process.script(), "echo");
    assert!(!process.finished());
    process.push_line("Hello world".into(), OutputChannel::Stdout);
    process.push_line("oops".into(), OutputChannel::Stderr);
    assert_eq!(lines(&process).join("\n"), "Hello world\noops");
    let channels: Vec<OutputChannel> = process.stdout().iter().map(|l| l.channel).collect();
    assert_eq!(channels, vec![OutputChannel::Stdout, OutputChannel::Stderr]);
}

#[test]
fn process_clears_its_log_on_request() {
    let mut process = Process::new("vite".to_string());
    process.push_line("one".into(), OutputChannel::Stdout);
    process.push_line("two".into(), OutputChannel::Stdout);
    process.push_line("\u{1b}cfresh".into(), OutputChannel::Stdout);
    assert_eq!(lines(&process), vec!["fresh"]);
    process.push_line("next".into(), OutputChannel::Stdout);
    assert_eq!(lines(&process), vec!["fresh", "next"]);
    process.push_line("\u{1b}c".into(), OutputChannel::Stderr);
    assert_eq!(lines(&process), vec![""]);
}

#[test]
fn process_does_not_clear_on_a_request_that_is_not_in_front() {
    let mut process = Process::new("vite".to_string());
    process.push_line("one".into(), OutputChannel::Stdout);
    process.push_line("x\u{1b}c".into(), OutputChannel::Stdout);
    process.push_line("\u{1b}".into(), OutputChannel::Stdout);
    process.push_line("\u{1b}[0m".into(), OutputChannel::Stdout);
    process.push_line("c".into(), OutputChannel::Stdout);
    assert_eq!(lines(&process), vec!["one", "x\u{1b}c", "\u{1b}", "\u{1b}[0m", "c"]);
}

#[test]
fn process_log_holds_at_most_its_capacity() {
    let mut process = Process::new("tsc".to_string());
    for i in 0..1500 {
        process.push_line(format!("line {i}"), OutputChannel::Stdout);
        assert!(process.stdout().len() <= 1024);
    }
    let kept = lines(&process);
    assert_eq!(kept.len(), 1024);
    assert_eq!(kept[0], "line 476");
    assert_eq!(kept[1023], "line 1499");
}

#[test]
fn process_ok() {
    let mut process = Process::new("echo".to_string());
    let status = process.wait(Some(ExitStatus { code: Some(0) })).unwrap();
    assert!(status.success());
    assert!(process.finished());
}

#[test]
fn process_fail() {
    let mut process = Process::new("false".to_string());
    let status = process.wait(Some(ExitStatus { code: Some(1) })).unwrap();
    assert!(!status.success());
    assert!(process.finished());
}

#[test]
fn process_wait_finishes_whatever_happened() {
    let mut process = Process::new("x".to_string());
    assert_eq!(process.wait(None), Err(ProcessError::WaitFailed { script: "x".into() }));
    assert!(process.finished());
}

#[test]
fn process_success_needs_exit_code_zero() {
    let run = |waited| Process::new("tool".to_string()).wait_for_success(waited);
    assert_eq!(run(Some(ExitStatus { code: Some(0) })), Ok(()));
    assert_eq!(
        run(Some(ExitStatus { code: Some(2) })),
        Err(ProcessError::NonZeroExit { script: "tool".into(), code: 2 })
    );
    assert_eq!(
        run(Some(ExitStatus { code: Some(-1) })),
        Err(ProcessError::NonZeroExit { script: "tool".into(), code: -1 })
    );
    assert_eq!(run(Some(ExitStatus { code: None })), Err(ProcessError::Signal { script: "tool".into() }));
    assert_eq!(run(None), Err(ProcessError::WaitFailed { script: "tool".into() }));
    assert!(!ExitStatus { code: None }.success());
}
