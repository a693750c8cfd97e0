use resumable_read::{read_n, try_read_full, ReadN, ReadOutcome, Step, TryReadFull};
use std::io::{self, Read};

/// One answer of a scripted stream.
#[derive(Debug)]
enum Turn {
    Give(Vec<u8>),
    Block,
    Fail(io::ErrorKind, &'static str),
}

/// A stream that answers its reads from a script and reports end of input
/// once the script is used up.
#[derive(Debug)]
struct Scripted {
    turns: Vec<Turn>,
    reads: usize,
}

impl Scripted {
    fn new(mut turns: Vec<Turn>) -> Scripted {
        turns.reverse();
        Scripted { turns, reads: 0 }
    }
}

impl Read for Scripted {
    fn read(&mut self, buf: &mut [u8]) -> io::Result<usize> {
        self.reads += 1;
        match self.turns.pop() {
            None => Ok(0),
            Some(Turn::Block) => Err(io::Error::new(io::ErrorKind::WouldBlock, "not ready")),
            Some(Turn::Fail(kind, text)) => Err(io::Error::new(kind, text)),
            Some(Turn::Give(bytes)) => {
                let k = bytes.len().min(buf.len());
                buf[..k].copy_from_slice(&bytes[..k]);
                if k < bytes.len() {
                    self.turns.push(Turn::Give(bytes[k..].to_vec()));
                }
                Ok(k)
            }
        }
    }
}

/// A stream that must never be read.
#[derive(Debug)]
struct Untouchable;

impl Read for Untouchable {
    fn read(&mut self, _buf: &mut [u8]) -> io::Result<usize> {
        panic!("the stream was read");
    }
}

fn attempt<A: Read>(stream: &mut A, window: &mut [u8]) -> ReadOutcome<io::Error> {
    match stream.read(window) {
        Ok(k) => {
            assert!(k <= window.len());
            ReadOutcome::Placed(k)
        }
        Err(ref e) if e.kind() == io::ErrorKind::WouldBlock => ReadOutcome::NotReady,
        Err(e) => ReadOutcome::Failed(e),
    }
}

/// One poll of a scheduler: reads until the operation stops asking.
fn poll_read_n<A: Read>(op: &mut ReadN<A>) -> Step<(A, Vec<u8>), io::Error> {
    assert!(op.is_active());
    let mut outcome = None;
    loop {
        match op.poll(outcome) {
            Step::Read => {
                let (stream, window) = op.window();
                outcome = Some(attempt(stream, window));
            }
            step => return step,
        }
    }
}

fn poll_try_read_full<A: Read>(op: &mut TryReadFull<A>) -> Step<(A, Vec<u8>, usize), io::Error> {
    assert!(op.is_active());
    let mut outcome = None;
    loop {
        match op.poll(outcome) {
            Step::Read => {
                let (stream, window) = op.window();
                outcome = Some(attempt(stream, window));
            }
            step => return step,
        }
    }
}

/// Polls until the operation completes; returns what it handed back and how
/// many polls found the stream not ready.
fn complete_read_n<A: Read>(op: &mut ReadN<A>) -> ((A, Vec<u8>), usize) {
    let mut suspensions = 0;
    loop {
        match poll_read_n(op) {
            Step::NotReady => suspensions += 1,
            Step::Ready(item) => return (item, suspensions),
            Step::Read => unreachable!(),
            Step::Failed(e) => panic!("the read failed: {}", e),
        }
    }
}

fn complete_try_read_full<A: Read>(op: &mut TryReadFull<A>) -> ((A, Vec<u8>, usize), usize) {
    let mut suspensions = 0;
    loop {
        match poll_try_read_full(op) {
            Step::NotReady => suspensions += 1,
            Step::Ready(item) => return (item, suspensions),
            Step::Read => unreachable!(),
            Step::Failed(e) => panic!("the read failed: {}", e),
        }
    }
}

#[test]
fn read_n_stops_short_at_end_of_input() {
    let data: &[u8] = &[1, 2, 3];
    let mut op = read_n(data, vec![0u8; 5], 5);
    let ((rest, buf), suspensions) = complete_read_n(&mut op);
    assert_eq!(suspensions, 0);
    assert!(rest.is_empty());
    assert_eq!(&buf[..3], &[1, 2, 3]);
    assert_eq!(buf, vec![1, 2, 3, 0, 0]);
    assert!(!op.is_active());
}

#[test]
fn try_read_full_counts_a_short_stream() {
    let data: &[u8] = &[1, 2, 3];
    let mut op = try_read_full(data, vec![0u8; 5]);
    let ((rest, buf, count), suspensions) = complete_try_read_full(&mut op);
    assert_eq!(suspensions, 0);
    assert!(rest.is_empty());
    assert_eq!(count, 3);
    assert_eq!(&buf[..3], &[1, 2, 3]);
    assert_eq!(buf.len(), 5);
    assert!(!op.is_active());
}

#[test]
fn read_n_fills_the_whole_buffer() {
    let data: &[u8] = &[1, 2, 3, 4, 5];
    let mut op = read_n(data, vec![0u8; 5], 5);
    let ((rest, buf), _) = complete_read_n(&mut op);
    assert!(rest.is_empty());
    assert_eq!(buf, vec![1, 2, 3, 4, 5]);
}

#[test]
fn read_n_takes_exactly_n_from_a_longer_stream() {
    let stream = Scripted::new(vec![
        Turn::Give(vec![10]),
        Turn::Give(vec![20, 30]),
        Turn::Give(vec![40, 50, 60]),
    ]);
    let mut op = read_n(stream, vec![7u8; 6], 4);
    let ((mut stream, buf), _) = complete_read_n(&mut op);
    // The first four bytes of the stream, in order; the tail of the buffer as it was.
    assert_eq!(buf, vec![10, 20, 30, 40, 7, 7]);
    assert_eq!(stream.reads, 3);
    // What was not asked for is still in the stream.
    let mut left = Vec::new();
    stream.read_to_end(&mut left).unwrap();
    assert_eq!(left, vec![50, 60]);
}

#[test]
fn read_n_with_a_stream_ending_after_k_bytes_returns_stream_and_buffer() {
    let stream = Scripted::new(vec![Turn::Give(vec![9, 8])]);
    let mut op = read_n(stream, vec![0u8; 4], 4);
    match poll_read_n(&mut op) {
        Step::Ready((stream, buf)) => {
            // Two reads gave the two bytes and the end of input.
            assert_eq!(stream.reads, 2);
            assert_eq!(buf, vec![9, 8, 0, 0]);
        }
        other => panic!("unexpected step: {:?}", other),
    }
    assert!(!op.is_active());
}

#[test]
fn read_n_of_zero_bytes_completes_without_reading() {
    let mut op = read_n(Untouchable, vec![5u8; 3], 0);
    match op.poll::<io::Error>(None) {
        Step::Ready((_, buf)) => assert_eq!(buf, vec![5, 5, 5]),
        other => panic!("unexpected step: {:?}", other),
    }
    assert!(!op.is_active());
}

#[test]
fn try_read_full_of_an_empty_buffer_completes_without_reading() {
    let mut op = try_read_full(Untouchable, Vec::new());
    match op.poll::<io::Error>(None) {
        Step::Ready((_, buf, count)) => {
            assert_eq!(count, 0);
            assert!(buf.is_empty());
        }
        other => panic!("unexpected step: {:?}", other),
    }
}

#[test]
fn try_read_full_on_an_empty_stream_counts_zero() {
    let data: &[u8] = &[];
    let mut op = try_read_full(data, vec![3u8; 2]);
    let ((_, buf, count), _) = complete_try_read_full(&mut op);
    assert_eq!(count, 0);
    assert_eq!(buf, vec![3, 3]);
}

#[test]
fn try_read_full_is_capped_at_the_buffer() {
    let data: &[u8] = &[1, 2, 3, 4, 5, 6, 7];
    let mut op = try_read_full(data, vec![0u8; 4]);
    let ((rest, buf, count), _) = complete_try_read_full(&mut op);
    assert_eq!(count, 4);
    assert_eq!(buf, vec![1, 2, 3, 4]);
    assert_eq!(rest, &[5, 6, 7]);
}

#[test]
fn try_read_full_adds_up_the_chunks() {
    let stream = Scripted::new(vec![
        Turn::Give(vec![1, 2]),
        Turn::Give(vec![3]),
        Turn::Give(vec![4, 5, 6]),
    ]);
    let mut op = try_read_full(stream, vec![0u8; 10]);
    let ((stream, buf, count), _) = complete_try_read_full(&mut op);
    assert_eq!(count, 6);
    assert_eq!(&buf[..6], &[1, 2, 3, 4, 5, 6]);
    assert_eq!(&buf[6..], &[0, 0, 0, 0]);
    // Three chunks and the end of input.
    assert_eq!(stream.reads, 4);
}

#[test]
fn not_ready_suspends_and_keeps_the_bytes() {
    let stream = Scripted::new(vec![
        Turn::Give(vec![1, 2]),
        Turn::Block,
        Turn::Give(vec![3]),
    ]);
    let mut op = read_n(stream, vec![0u8; 3], 3);
    assert!(matches!(poll_read_n(&mut op), Step::NotReady));
    assert!(op.is_active());
    // Two bytes are in; only the third is still wanted.
    {
        let (_, window) = op.window();
        assert_eq!(window.len(), 1);
    }
    match poll_read_n(&mut op) {
        Step::Ready((_, buf)) => assert_eq!(buf, vec![1, 2, 3]),
        other => panic!("unexpected step: {:?}", other),
    }
}

#[test]
fn interruptions_do_not_change_the_result_of_read_n() {
    let plain = Scripted::new(vec![
        Turn::Give(vec![1]),
        Turn::Give(vec![2, 3]),
        Turn::Give(vec![4]),
    ]);
    let flaky = Scripted::new(vec![
        Turn::Block,
        Turn::Give(vec![1]),
        Turn::Block,
        Turn::Block,
        Turn::Give(vec![2, 3]),
        Turn::Block,
        Turn::Give(vec![4]),
    ]);
    let mut smooth = read_n(plain, vec![0u8; 6], 4);
    let mut bumpy = read_n(flaky, vec![0u8; 6], 4);
    let ((_, expected), none) = complete_read_n(&mut smooth);
    let ((_, got), suspensions) = complete_read_n(&mut bumpy);
    assert_eq!(none, 0);
    assert_eq!(suspensions, 4);
    assert_eq!(expected, vec![1, 2, 3, 4, 0, 0]);
    assert_eq!(got, expected);
}

#[test]
fn interruptions_do_not_change_the_result_of_try_read_full() {
    let plain = Scripted::new(vec![Turn::Give(vec![1, 2]), Turn::Give(vec![3])]);
    let flaky = Scripted::new(vec![
        Turn::Give(vec![1, 2]),
        Turn::Block,
        Turn::Give(vec![3]),
        Turn::Block,
    ]);
    let mut smooth = try_read_full(plain, vec![0u8; 5]);
    let mut bumpy = try_read_full(flaky, vec![0u8; 5]);
    let ((_, expected, expected_count), _) = complete_try_read_full(&mut smooth);
    let ((_, got, count), suspensions) = complete_try_read_full(&mut bumpy);
    assert_eq!(suspensions, 2);
    assert_eq!(expected_count, 3);
    assert_eq!(count, 3);
    assert_eq!(got, expected);
    assert_eq!(got, vec![1, 2, 3, 0, 0]);
}

#[test]
fn a_failure_is_passed_on_and_consumes_read_n() {
    let stream = Scripted::new(vec![
        Turn::Give(vec![1, 2]),
        Turn::Fail(io::ErrorKind::ConnectionReset, "reset by peer"),
        Turn::Give(vec![3]),
    ]);
    let mut op = read_n(stream, vec![0u8; 3], 3);
    match poll_read_n(&mut op) {
        Step::Failed(e) => {
            assert_eq!(e.kind(), io::ErrorKind::ConnectionReset);
            assert_eq!(e.to_string(), "reset by peer");
        }
        other => panic!("unexpected step: {:?}", other),
    }
    assert!(!op.is_active());
}

#[test]
fn a_failure_is_passed_on_and_consumes_try_read_full() {
    let stream = Scripted::new(vec![Turn::Fail(io::ErrorKind::BrokenPipe, "broken")]);
    let mut op = try_read_full(stream, vec![0u8; 3]);
    match poll_try_read_full(&mut op) {
        Step::Failed(e) => {
            assert_eq!(e.kind(), io::ErrorKind::BrokenPipe);
            assert_eq!(e.to_string(), "broken");
        }
        other => panic!("unexpected step: {:?}", other),
    }
    assert!(!op.is_active());
}

#[test]
fn bytes_placed_before_a_failure_stand_until_it_is_reported() {
    let stream = Scripted::new(vec![
        Turn::Give(vec![1, 2]),
        Turn::Fail(io::ErrorKind::Other, "boom"),
    ]);
    let mut op = try_read_full(stream, vec![0u8; 4]);
    assert!(matches!(op.poll::<io::Error>(None), Step::Read));
    let first = {
        let (stream, window) = op.window();
        attempt(stream, window)
    };
    assert!(matches!(first, ReadOutcome::Placed(2)));
    assert!(matches!(op.poll(Some(first)), Step::Read));
    let second = {
        let (stream, window) = op.window();
        // The failing attempt is lent the unfilled part only.
        assert_eq!(window.len(), 2);
        attempt(stream, window)
    };
    assert!(matches!(second, ReadOutcome::Failed(_)));
    assert!(op.is_active());
    assert!(matches!(op.poll(Some(second)), Step::Failed(_)));
    assert!(!op.is_active());
}
