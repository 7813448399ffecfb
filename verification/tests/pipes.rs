use tsgo_wasm::error::ApiError;
use tsgo_wasm::pipe::{Drain, HostStdin, HostStdout, ReadOutcome};

#[test]
fn bytes_are_read_in_order() {
    let mut stdin: HostStdin<u32> = HostStdin::new();
    stdin.push(&[1, 2, 3]).unwrap();
    assert_eq!(stdin.read(2), ReadOutcome::Bytes(vec![1, 2]));
    stdin.push(&[4]).unwrap();
    assert_eq!(stdin.read(9), ReadOutcome::Bytes(vec![3, 4]));
    assert_eq!(stdin.read(9), ReadOutcome::Bytes(vec![]));
}

#[test]
fn readers_are_woken_once() {
    let mut stdin: HostStdin<u32> = HostStdin::new();
    assert!(!stdin.ready(7));
    assert_eq!(stdin.poll_read(4, 8), None);
    assert_eq!(stdin.push(&[1]).unwrap(), vec![7, 8]);
    assert_eq!(stdin.push(&[2]).unwrap(), Vec::<u32>::new());
    assert!(stdin.ready(9));
    assert_eq!(stdin.poll_read(1, 9), Some(vec![1]));
    assert_eq!(stdin.poll_read(5, 9), Some(vec![2]));
    assert_eq!(stdin.poll_read(5, 10), None);
    assert_eq!(stdin.close(), vec![10]);
}

#[test]
fn closed_pipe_is_read_to_its_end() {
    let mut stdin: HostStdin<u32> = HostStdin::new();
    stdin.push(&[1]).unwrap();
    assert!(stdin.close().is_empty());
    assert!(matches!(stdin.push(&[2]), Err(ApiError::Closed)));
    assert!(stdin.ready(1));
    assert_eq!(stdin.read(4), ReadOutcome::Bytes(vec![1]));
    assert_eq!(stdin.read(4), ReadOutcome::Closed);
    assert_eq!(stdin.poll_read(4, 1), Some(vec![]));
}

#[test]
fn output_is_drained_before_the_end_and_the_deadline() {
    let mut stdout = HostStdout::new();
    assert_eq!(stdout.drain_deadline(5, 9), Drain::Wait(4));
    stdout.write(&[1, 2]);
    stdout.write(&[3]);
    stdout.close();
    assert_eq!(stdout.drain_deadline(9, 9), Drain::Data(vec![1, 2, 3]));
    assert_eq!(stdout.drain_deadline(9, 9), Drain::Closed);
}

#[test]
fn deadline_passes() {
    let mut stdout = HostStdout::new();
    assert_eq!(stdout.drain_deadline(9, 9), Drain::TimedOut);
    assert_eq!(stdout.drain_deadline(10, 9), Drain::TimedOut);
    assert_eq!(stdout.drain_deadline(8, 9), Drain::Wait(1));
}
