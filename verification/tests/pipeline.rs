use log_nonblock::channel::OverflowPolicy;
use log_nonblock::install::{InstallError, InstallGuard};
use log_nonblock::logger::{Logger, SubmitResult};
use log_nonblock::record::{Record, StreamSelector};
use log_nonblock::retry::{MockStream, WriteOutcome};

fn fully_writable_logger(capacity: usize, policy: OverflowPolicy) -> Logger {
    Logger::new(capacity, policy, MockStream::new(Vec::new()), MockStream::new(Vec::new()))
}

#[test]
fn three_records_in_order() {
    let mut logger = fully_writable_logger(10, OverflowPolicy::Block);
    assert_eq!(
        logger.submit(Record::new(StreamSelector::Stdout, b"a".to_vec())),
        SubmitResult::Enqueued
    );
    assert_eq!(
        logger.submit(Record::new(StreamSelector::Stdout, b"b".to_vec())),
        SubmitResult::Enqueued
    );
    assert_eq!(
        logger.submit(Record::new(StreamSelector::Stdout, b"c".to_vec())),
        SubmitResult::Enqueued
    );
    logger.flush();
    assert_eq!(logger.stdout_stream().received().as_slice(), &b"abc"[..]);
    assert_eq!(logger.stderr_stream().received().as_slice(), &b""[..]);
    assert_eq!(logger.drop_count(), 0);
}

#[test]
fn drop_policy_counts_second_submit() {
    let mut logger = fully_writable_logger(1, OverflowPolicy::Drop);
    assert_eq!(
        logger.submit(Record::new(StreamSelector::Stdout, b"first".to_vec())),
        SubmitResult::Enqueued
    );
    assert_eq!(
        logger.submit(Record::new(StreamSelector::Stdout, b"second".to_vec())),
        SubmitResult::Dropped
    );
    assert_eq!(logger.drop_count(), 1);
    logger.flush();
    assert_eq!(logger.stdout_stream().received().as_slice(), &b"first"[..]);
    assert_eq!(logger.drop_count(), 1);
}

#[test]
fn hard_error_abandons_then_next_record_delivered() {
    let stdout = MockStream::new(vec![WriteOutcome::Accepted(4), WriteOutcome::HardError]);
    let mut logger =
        Logger::new(8, OverflowPolicy::Block, stdout, MockStream::new(Vec::new()));
    logger.submit(Record::new(StreamSelector::Stdout, b"abandon!".to_vec()));
    logger.submit(Record::new(StreamSelector::Stdout, b"second".to_vec()));
    logger.flush();
    // Half of the first record, then the whole second one, in order.
    assert_eq!(logger.stdout_stream().received().as_slice(), &b"abansecond"[..]);
}

#[test]
fn shutdown_drains_all_queued_records() {
    let mut logger = fully_writable_logger(100, OverflowPolicy::Block);
    let mut expected: Vec<u8> = Vec::new();
    for i in 0..100u8 {
        let payload = vec![i];
        expected.push(i);
        assert_eq!(
            logger.submit(Record::new(StreamSelector::Stdout, payload)),
            SubmitResult::Enqueued
        );
    }
    assert_eq!(logger.queued(), 100);
    logger.shutdown();
    assert_eq!(logger.queued(), 0);
    assert_eq!(logger.stdout_stream().received().as_slice(), expected.as_slice());
    assert_eq!(
        logger.submit(Record::new(StreamSelector::Stdout, b"late".to_vec())),
        SubmitResult::LoggerClosed
    );
}

#[test]
fn shutdown_is_terminal_and_idempotent() {
    let mut logger = fully_writable_logger(4, OverflowPolicy::Block);
    logger.submit(Record::new(StreamSelector::Stdout, b"x".to_vec()));
    logger.shutdown();
    assert!(logger.is_shut_down());
    assert_eq!(
        logger.submit(Record::new(StreamSelector::Stdout, b"y".to_vec())),
        SubmitResult::LoggerClosed
    );
    logger.shutdown();
    assert!(logger.is_shut_down());
    assert_eq!(
        logger.submit(Record::new(StreamSelector::Stderr, b"z".to_vec())),
        SubmitResult::LoggerClosed
    );
    assert_eq!(logger.stdout_stream().received().as_slice(), &b"x"[..]);
    assert_eq!(logger.stderr_stream().received().as_slice(), &b""[..]);
}

#[test]
fn block_policy_full_channel_drains_oldest() {
    let mut logger = fully_writable_logger(1, OverflowPolicy::Block);
    assert_eq!(
        logger.submit(Record::new(StreamSelector::Stdout, b"one".to_vec())),
        SubmitResult::Enqueued
    );
    // The channel is full: the producer waits while the writer drains "one".
    assert_eq!(
        logger.submit(Record::new(StreamSelector::Stdout, b"two".to_vec())),
        SubmitResult::Enqueued
    );
    assert_eq!(logger.stdout_stream().received().as_slice(), &b"one"[..]);
    assert_eq!(logger.queued(), 1);
    logger.flush();
    assert_eq!(logger.stdout_stream().received().as_slice(), &b"onetwo"[..]);
    assert_eq!(logger.drop_count(), 0);
}

#[test]
fn records_routed_to_their_streams() {
    let mut logger = fully_writable_logger(8, OverflowPolicy::Block);
    logger.submit(Record::new(StreamSelector::Stdout, b"out1 ".to_vec()));
    logger.submit(Record::new(StreamSelector::Stderr, b"err1 ".to_vec()));
    logger.submit(Record::new(StreamSelector::Stdout, b"out2".to_vec()));
    logger.submit(Record::new(StreamSelector::Stderr, b"err2".to_vec()));
    logger.flush();
    assert_eq!(logger.stdout_stream().received().as_slice(), &b"out1 out2"[..]);
    assert_eq!(logger.stderr_stream().received().as_slice(), &b"err1 err2"[..]);
}

#[test]
fn empty_payload_is_delivered_as_nothing() {
    let mut logger = fully_writable_logger(2, OverflowPolicy::Block);
    assert_eq!(
        logger.submit(Record::new(StreamSelector::Stdout, Vec::new())),
        SubmitResult::Enqueued
    );
    logger.flush();
    assert_eq!(logger.stdout_stream().received().as_slice(), &b""[..]);
    assert_eq!(logger.queued(), 0);
}

#[test]
fn flush_on_empty_queue_changes_nothing() {
    let mut logger = fully_writable_logger(2, OverflowPolicy::Drop);
    logger.flush();
    assert_eq!(logger.stdout_stream().received().as_slice(), &b""[..]);
    assert_eq!(logger.stderr_stream().received().as_slice(), &b""[..]);
    assert_eq!(logger.drop_count(), 0);
    assert!(!logger.is_shut_down());
}

#[test]
fn stalling_stream_still_gets_everything() {
    // The stream stalls twice, takes one byte, stalls again, then opens up:
    // Block policy plus a responsive stream loses nothing.
    let stdout = MockStream::new(vec![
        WriteOutcome::WouldBlock,
        WriteOutcome::Accepted(0),
        WriteOutcome::Accepted(1),
        WriteOutcome::WouldBlock,
    ]);
    let mut logger =
        Logger::new(4, OverflowPolicy::Block, stdout, MockStream::new(Vec::new()));
    logger.submit(Record::new(StreamSelector::Stdout, b"payload".to_vec()));
    logger.flush();
    assert_eq!(logger.stdout_stream().received().as_slice(), &b"payload"[..]);
    assert_eq!(logger.stdout_stream().wait_count(), 3);
}

#[test]
fn second_installation_fails() {
    let mut slot = InstallGuard::new();
    assert!(!slot.is_installed());
    assert_eq!(slot.install(), Ok(()));
    assert!(slot.is_installed());
    assert_eq!(slot.install(), Err(InstallError::AlreadyInstalled));
    assert!(slot.is_installed());
    slot.uninstall();
    assert!(!slot.is_installed());
    assert_eq!(slot.install(), Ok(()));
}

#[test]
fn drop_counter_is_exact_across_flushes() {
    let mut logger = fully_writable_logger(1, OverflowPolicy::Drop);
    assert_eq!(
        logger.submit(Record::new(StreamSelector::Stdout, b"a".to_vec())),
        SubmitResult::Enqueued
    );
    assert_eq!(
        logger.submit(Record::new(StreamSelector::Stdout, b"b".to_vec())),
        SubmitResult::Dropped
    );
    logger.flush();
    assert_eq!(
        logger.submit(Record::new(StreamSelector::Stdout, b"c".to_vec())),
        SubmitResult::Enqueued
    );
    assert_eq!(
        logger.submit(Record::new(StreamSelector::Stdout, b"d".to_vec())),
        SubmitResult::Dropped
    );
    assert_eq!(
        logger.submit(Record::new(StreamSelector::Stdout, b"e".to_vec())),
        SubmitResult::Dropped
    );
    logger.shutdown();
    // Exactly the three calls that answered Dropped are counted, and no
    // delivered record is among them.
    assert_eq!(logger.drop_count(), 3);
    assert_eq!(logger.stdout_stream().received().as_slice(), &b"ac"[..]);
}
