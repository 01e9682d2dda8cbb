use log_nonblock::channel::{Channel, EnqueueOutcome, OverflowPolicy};
use log_nonblock::record::{Record, StreamSelector};
use log_nonblock::retry::{
    retry_step, write_all_with_retry, MockStream, RetryAction, WriteOutcome,
};

#[test]
fn zero_accept_twice_then_completes() {
    let mut stream = MockStream::new(vec![WriteOutcome::Accepted(0), WriteOutcome::Accepted(0)]);
    let bytes = b"hello".to_vec();
    let report = write_all_with_retry(&mut stream, &bytes);
    assert!(!report.abandoned);
    assert_eq!(report.delivered, 5);
    // Exactly one readiness wait per zero-byte acceptance, no busy retries.
    assert_eq!(stream.wait_count(), 2);
    assert_eq!(stream.attempts_consumed(), 2);
    assert_eq!(stream.received().as_slice(), &b"hello"[..]);
}

#[test]
fn would_block_then_partial_writes() {
    let mut stream = MockStream::new(vec![
        WriteOutcome::WouldBlock,
        WriteOutcome::Accepted(2),
        WriteOutcome::WouldBlock,
    ]);
    let bytes = b"12345".to_vec();
    let report = write_all_with_retry(&mut stream, &bytes);
    assert!(!report.abandoned);
    assert_eq!(report.delivered, 5);
    assert_eq!(stream.wait_count(), 2);
    assert_eq!(stream.received().as_slice(), &b"12345"[..]);
}

#[test]
fn hard_error_abandons_immediately() {
    let mut stream = MockStream::new(vec![WriteOutcome::HardError]);
    let bytes = b"discarded".to_vec();
    let report = write_all_with_retry(&mut stream, &bytes);
    assert!(report.abandoned);
    assert_eq!(report.delivered, 0);
    assert_eq!(stream.wait_count(), 0);
    assert_eq!(stream.received().as_slice(), &b""[..]);
}

#[test]
fn hard_error_after_partial_write_keeps_prefix() {
    let mut stream = MockStream::new(vec![WriteOutcome::Accepted(3), WriteOutcome::HardError]);
    let bytes = b"abcdef".to_vec();
    let report = write_all_with_retry(&mut stream, &bytes);
    assert!(report.abandoned);
    assert_eq!(report.delivered, 3);
    assert_eq!(stream.received().as_slice(), &b"abc"[..]);
}

#[test]
fn unscripted_stream_accepts_everything() {
    let mut stream = MockStream::new(Vec::new());
    let bytes = b"straight through".to_vec();
    let report = write_all_with_retry(&mut stream, &bytes);
    assert!(!report.abandoned);
    assert_eq!(report.delivered, bytes.len());
    assert_eq!(stream.wait_count(), 0);
    assert_eq!(stream.received().as_slice(), &b"straight through"[..]);
}

#[test]
fn retry_step_decisions() {
    assert_eq!(retry_step(WriteOutcome::Accepted(0), 5), RetryAction::Wait);
    assert_eq!(retry_step(WriteOutcome::WouldBlock, 5), RetryAction::Wait);
    assert_eq!(retry_step(WriteOutcome::HardError, 5), RetryAction::Abandon);
    assert_eq!(retry_step(WriteOutcome::Accepted(3), 5), RetryAction::Advance(3));
    // An acceptance never advances past what is left of the record.
    assert_eq!(retry_step(WriteOutcome::Accepted(7), 5), RetryAction::Advance(5));
}

#[test]
fn channel_is_fifo() {
    let mut chan = Channel::new(4, OverflowPolicy::Block);
    assert_eq!(
        chan.enqueue(Record::new(StreamSelector::Stdout, b"1".to_vec())),
        EnqueueOutcome::Enqueued
    );
    assert_eq!(
        chan.enqueue(Record::new(StreamSelector::Stderr, b"2".to_vec())),
        EnqueueOutcome::Enqueued
    );
    assert_eq!(
        chan.enqueue(Record::new(StreamSelector::Stdout, b"3".to_vec())),
        EnqueueOutcome::Enqueued
    );
    assert_eq!(chan.len(), 3);
    assert_eq!(chan.dequeue().unwrap().payload, b"1".to_vec());
    assert_eq!(chan.dequeue().unwrap().payload, b"2".to_vec());
    assert_eq!(chan.dequeue().unwrap().payload, b"3".to_vec());
    assert!(chan.dequeue().is_none());
}

#[test]
fn full_block_channel_asks_caller_to_wait() {
    let mut chan = Channel::new(1, OverflowPolicy::Block);
    assert_eq!(
        chan.enqueue(Record::new(StreamSelector::Stdout, b"kept".to_vec())),
        EnqueueOutcome::Enqueued
    );
    assert_eq!(
        chan.enqueue(Record::new(StreamSelector::Stdout, b"waits".to_vec())),
        EnqueueOutcome::MustWait
    );
    // Nothing was lost and nothing was counted as dropped.
    assert_eq!(chan.len(), 1);
    assert_eq!(chan.drop_count(), 0);
}

#[test]
fn full_drop_channel_counts_drops() {
    let mut chan = Channel::new(1, OverflowPolicy::Drop);
    assert_eq!(
        chan.enqueue(Record::new(StreamSelector::Stdout, b"kept".to_vec())),
        EnqueueOutcome::Enqueued
    );
    assert_eq!(
        chan.enqueue(Record::new(StreamSelector::Stdout, b"lost".to_vec())),
        EnqueueOutcome::Dropped
    );
    assert_eq!(
        chan.enqueue(Record::new(StreamSelector::Stdout, b"also lost".to_vec())),
        EnqueueOutcome::Dropped
    );
    assert_eq!(chan.drop_count(), 2);
    assert_eq!(chan.len(), 1);
    assert_eq!(chan.dequeue().unwrap().payload, b"kept".to_vec());
}

#[test]
fn closed_channel_refuses_but_drains() {
    let mut chan = Channel::new(2, OverflowPolicy::Block);
    chan.enqueue(Record::new(StreamSelector::Stdout, b"pending".to_vec()));
    chan.close();
    assert!(chan.is_closed());
    assert_eq!(
        chan.enqueue(Record::new(StreamSelector::Stdout, b"late".to_vec())),
        EnqueueOutcome::Closed
    );
    // Closing does not lose what was already accepted.
    assert_eq!(chan.dequeue().unwrap().payload, b"pending".to_vec());
    assert!(chan.dequeue().is_none());
}
