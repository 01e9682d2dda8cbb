use vstd::prelude::*;
use vstd::pervasive::unreached;
use crate::channel::{
    Channel, ChannelModel, EnqueueOutcome, OverflowPolicy, spec_close, spec_dequeue, spec_enqueue,
};
use crate::record::{Record, RecordView, StreamSelector};
use crate::retry::{
    MockStream, StreamModel, WriteOutcome, lemma_responsive_stream_completes,
    lemma_retry_run_bounds, spec_deliver, write_all_with_retry,
};

verus! {

/// What a producer's `submit` call comes back with. `Dropped` is a
/// non-fatal status, not an error: emission must never destabilize the
/// caller. `LoggerClosed` is terminal.
#[derive(Clone, Copy, PartialEq, Eq, Structural, Debug)]
pub enum SubmitResult {
    Enqueued,
    Dropped,
    LoggerClosed,
}

/// The two destination streams of a logger, at the model level.
#[verifier::ext_equal]
pub ghost struct StreamPair {
    pub out: StreamModel,
    pub err: StreamModel,
}

/// Mathematical image of the whole pipeline: the dispatch channel plus the
/// two destination streams.
#[verifier::ext_equal]
pub ghost struct LoggerModel {
    pub chan: ChannelModel,
    pub out: StreamModel,
    pub err: StreamModel,
}

impl LoggerModel {
    pub open spec fn wf(self) -> bool {
        self.chan.wf() && self.out.wf() && self.err.wf()
    }

    pub open spec fn streams(self) -> StreamPair {
        StreamPair { out: self.out, err: self.err }
    }
}

/// Delivering one record sends its payload through the retry-write loop
/// against the stream its selector names; the other stream is untouched.
pub open spec fn spec_deliver_record(p: StreamPair, r: RecordView) -> StreamPair {
    match r.selector {
        StreamSelector::Stdout => StreamPair { out: spec_deliver(p.out, r.payload), ..p },
        StreamSelector::Stderr => StreamPair { err: spec_deliver(p.err, r.payload), ..p },
    }
}

/// Delivering a sequence of records, oldest first.
pub open spec fn spec_deliver_all(p: StreamPair, rs: Seq<RecordView>) -> StreamPair
    decreases rs.len(),
{
    if rs.len() == 0 {
        p
    } else {
        spec_deliver_all(spec_deliver_record(p, rs[0]), rs.skip(1))
    }
}

/// One writer step: the oldest queued record leaves the channel and its
/// bytes go through the retry-write loop; an empty channel changes nothing.
pub open spec fn spec_drain_one(m: LoggerModel) -> LoggerModel {
    if m.chan.queue.len() == 0 {
        m
    } else {
        let p = spec_deliver_record(m.streams(), m.chan.queue[0]);
        LoggerModel { chan: spec_dequeue(m.chan).chan, out: p.out, err: p.err }
    }
}

/// `flush`: every record in the channel at the time of the call is
/// delivered (written in full, or abandoned on a hard error — never left
/// pending), oldest first, and the channel is left empty. Nothing else
/// about the channel changes.
pub open spec fn spec_logger_flush(m: LoggerModel) -> LoggerModel {
    let p = spec_deliver_all(m.streams(), m.chan.queue);
    LoggerModel {
        chan: ChannelModel { queue: Seq::<RecordView>::empty(), ..m.chan },
        out: p.out,
        err: p.err,
    }
}

/// What one `submit` call does and answers. A closed logger refuses
/// terminally; a channel with room accepts; a full channel drops (counted)
/// under `Drop` policy; under `Block` policy the producer waits while the
/// writer drains the oldest record, after which the new record is accepted.
#[verifier::ext_equal]
pub ghost struct SubmitStep {
    pub logger: LoggerModel,
    pub result: SubmitResult,
}

pub open spec fn spec_logger_submit(m: LoggerModel, r: RecordView) -> SubmitStep {
    if m.chan.closed {
        SubmitStep { logger: m, result: SubmitResult::LoggerClosed }
    } else if m.chan.queue.len() < m.chan.capacity {
        SubmitStep {
            logger: LoggerModel { chan: spec_enqueue(m.chan, r).chan, ..m },
            result: SubmitResult::Enqueued,
        }
    } else if m.chan.policy == OverflowPolicy::Drop {
        SubmitStep {
            logger: LoggerModel { chan: spec_enqueue(m.chan, r).chan, ..m },
            result: SubmitResult::Dropped,
        }
    } else {
        let d = spec_drain_one(m);
        SubmitStep {
            logger: LoggerModel { chan: spec_enqueue(d.chan, r).chan, ..d },
            result: SubmitResult::Enqueued,
        }
    }
}

/// `shutdown`: closing is terminal and carries an implicit flush; a second
/// call is a no-op.
pub open spec fn spec_logger_shutdown(m: LoggerModel) -> LoggerModel {
    if m.chan.closed {
        m
    } else {
        spec_logger_flush(LoggerModel { chan: spec_close(m.chan), ..m })
    }
}

/// A stream whose remaining script holds no hard error: it may stall or
/// accept partially as much as it likes, but it keeps accepting writes.
pub open spec fn stream_responsive(s: StreamModel) -> bool {
    forall|i: int| s.next <= i < s.script.len() ==> s.script[i] != WriteOutcome::HardError
}

/// The payloads of the records destined for `sel`, concatenated oldest
/// first.
pub open spec fn payload_concat(rs: Seq<RecordView>, sel: StreamSelector) -> Seq<u8>
    decreases rs.len(),
{
    if rs.len() == 0 {
        Seq::<u8>::empty()
    } else if rs[0].selector == sel {
        rs[0].payload + payload_concat(rs.skip(1), sel)
    } else {
        payload_concat(rs.skip(1), sel)
    }
}

/// No data loss on responsive streams, in order: delivering a sequence of
/// records appends to each stream exactly the concatenation, oldest first,
/// of the payloads destined for it — nothing missing, nothing duplicated,
/// nothing reordered.
pub proof fn lemma_deliver_all_responsive(p: StreamPair, rs: Seq<RecordView>)
    requires
        p.out.wf(),
        p.err.wf(),
        stream_responsive(p.out),
        stream_responsive(p.err),
    ensures
        spec_deliver_all(p, rs).out.received == p.out.received + payload_concat(
            rs,
            StreamSelector::Stdout,
        ),
        spec_deliver_all(p, rs).err.received == p.err.received + payload_concat(
            rs,
            StreamSelector::Stderr,
        ),
        spec_deliver_all(p, rs).out.wf(),
        spec_deliver_all(p, rs).err.wf(),
        stream_responsive(spec_deliver_all(p, rs).out),
        stream_responsive(spec_deliver_all(p, rs).err),
        spec_deliver_all(p, rs).out.script == p.out.script,
        spec_deliver_all(p, rs).err.script == p.err.script,
    decreases rs.len(),
{
    if rs.len() == 0 {
        assert(p.out.received + payload_concat(rs, StreamSelector::Stdout) =~= p.out.received);
        assert(p.err.received + payload_concat(rs, StreamSelector::Stderr) =~= p.err.received);
    } else {
        let r = rs[0];
        let stepped = spec_deliver_record(p, r);
        let s = if r.selector == StreamSelector::Stdout {
            p.out
        } else {
            p.err
        };
        let suffix = s.script.skip(s.next as int);
        assert(forall|i: int| 0 <= i < suffix.len() ==> suffix[i] == s.script[i + s.next]);
        lemma_responsive_stream_completes(suffix, r.payload.len());
        lemma_retry_run_bounds(suffix, r.payload.len());
        let delivered = spec_deliver(s, r.payload);
        assert(delivered.received =~= s.received + r.payload) by {
            assert(r.payload.take(r.payload.len() as int) =~= r.payload);
        }
        lemma_deliver_all_responsive(stepped, rs.skip(1));
        if r.selector == StreamSelector::Stdout {
            assert(p.out.received + (r.payload + payload_concat(rs.skip(1), StreamSelector::Stdout))
                =~= (p.out.received + r.payload) + payload_concat(
                    rs.skip(1),
                    StreamSelector::Stdout,
                ));
        } else {
            assert(p.err.received + (r.payload + payload_concat(rs.skip(1), StreamSelector::Stderr))
                =~= (p.err.received + r.payload) + payload_concat(
                    rs.skip(1),
                    StreamSelector::Stderr,
                ));
        }
    }
}

/// Flush completeness on responsive streams: after a flush every record
/// that was in the channel has its bytes on its stream, in FIFO order, and
/// the channel is empty. Only the streams' contents and the queue change.
pub proof fn lemma_flush_responsive(m: LoggerModel)
    requires
        m.wf(),
        stream_responsive(m.out),
        stream_responsive(m.err),
    ensures
        spec_logger_flush(m).out.received == m.out.received + payload_concat(
            m.chan.queue,
            StreamSelector::Stdout,
        ),
        spec_logger_flush(m).err.received == m.err.received + payload_concat(
            m.chan.queue,
            StreamSelector::Stderr,
        ),
        spec_logger_flush(m).chan.queue.len() == 0,
        spec_logger_flush(m).chan.dropped == m.chan.dropped,
{
    lemma_deliver_all_responsive(m.streams(), m.chan.queue);
}

/// Shutdown terminality: once `shutdown` has run, every later `submit`
/// answers `LoggerClosed` and changes nothing, and a second `shutdown` is
/// a no-op.
pub proof fn lemma_shutdown_terminal(m: LoggerModel, r: RecordView)
    ensures
        spec_logger_shutdown(m).chan.closed,
        spec_logger_submit(spec_logger_shutdown(m), r).result == SubmitResult::LoggerClosed,
        spec_logger_submit(spec_logger_shutdown(m), r).logger == spec_logger_shutdown(m),
        spec_logger_shutdown(spec_logger_shutdown(m)) == spec_logger_shutdown(m),
{
}

/// One front-door operation, as the model sees it.
pub ghost enum LoggerOp {
    Submit(RecordView),
    Flush,
    Shutdown,
}

/// The pipeline after one front-door operation.
pub open spec fn step_logger_op(m: LoggerModel, op: LoggerOp) -> LoggerModel {
    match op {
        LoggerOp::Submit(r) => spec_logger_submit(m, r).logger,
        LoggerOp::Flush => spec_logger_flush(m),
        LoggerOp::Shutdown => spec_logger_shutdown(m),
    }
}

/// The pipeline after a whole sequence of front-door operations.
pub open spec fn run_logger_trace(m: LoggerModel, t: Seq<LoggerOp>) -> LoggerModel
    decreases t.len(),
{
    if t.len() == 0 {
        m
    } else {
        run_logger_trace(step_logger_op(m, t[0]), t.skip(1))
    }
}

/// How many `submit` calls along the trace answered `Dropped`.
pub open spec fn dropped_results_along(m: LoggerModel, t: Seq<LoggerOp>) -> nat
    decreases t.len(),
{
    if t.len() == 0 {
        0
    } else {
        let rest = dropped_results_along(step_logger_op(m, t[0]), t.skip(1));
        match t[0] {
            LoggerOp::Submit(r) => if spec_logger_submit(m, r).result == SubmitResult::Dropped {
                1 + rest
            } else {
                rest
            },
            _ => rest,
        }
    }
}

/// Bounded loss under `Drop` policy, made exact: over any sequence of
/// front-door calls, the drop counter grows by precisely the number of
/// `submit` calls that answered `Dropped` — no loss goes uncounted, and no
/// delivered record is counted.
pub proof fn lemma_logger_drop_count(m: LoggerModel, t: Seq<LoggerOp>)
    ensures
        run_logger_trace(m, t).chan.dropped == m.chan.dropped + dropped_results_along(m, t),
    decreases t.len(),
{
    if t.len() > 0 {
        lemma_logger_drop_count(step_logger_op(m, t[0]), t.skip(1));
    }
}

/// What one record contributes to the stream `sel`: its payload if that is
/// where it was destined, nothing otherwise.
pub open spec fn payload_for(r: RecordView, sel: StreamSelector) -> Seq<u8> {
    if r.selector == sel {
        r.payload
    } else {
        Seq::<u8>::empty()
    }
}

proof fn lemma_payload_concat_push(q: Seq<RecordView>, r: RecordView, sel: StreamSelector)
    ensures
        payload_concat(q.push(r), sel) == payload_concat(q, sel) + payload_for(r, sel),
    decreases q.len(),
{
    if q.len() == 0 {
        assert(q.push(r)[0] == r);
        assert(q.push(r).skip(1) =~= Seq::<RecordView>::empty());
        assert(payload_concat(q.push(r).skip(1), sel) == Seq::<u8>::empty());
        assert(payload_concat(q, sel) == Seq::<u8>::empty());
        assert(payload_concat(q.push(r), sel) =~= payload_concat(q, sel) + payload_for(r, sel));
    } else {
        assert(q.push(r)[0] == q[0]);
        assert(q.push(r).skip(1) =~= q.skip(1).push(r));
        lemma_payload_concat_push(q.skip(1), r, sel);
        if q[0].selector == sel {
            assert(payload_concat(q.push(r), sel)
                == q[0].payload + payload_concat(q.skip(1).push(r), sel));
            assert(payload_concat(q, sel) == q[0].payload + payload_concat(q.skip(1), sel));
            assert(q[0].payload + (payload_concat(q.skip(1), sel) + payload_for(r, sel))
                =~= (q[0].payload + payload_concat(q.skip(1), sel)) + payload_for(r, sel));
        } else {
            assert(payload_concat(q.push(r), sel) == payload_concat(q.skip(1).push(r), sel));
            assert(payload_concat(q, sel) == payload_concat(q.skip(1), sel));
        }
    }
}

proof fn lemma_payload_concat_cons(r: RecordView, rest: Seq<RecordView>, sel: StreamSelector)
    ensures
        payload_concat(seq![r] + rest, sel) == payload_for(r, sel) + payload_concat(rest, sel),
{
    let q = seq![r] + rest;
    assert(q[0] == r);
    assert(q.skip(1) =~= rest);
    assert(payload_concat(q, sel) =~= payload_for(r, sel) + payload_concat(rest, sel));
}

proof fn lemma_deliver_record_preserves(p: StreamPair, r: RecordView)
    requires
        p.out.wf(),
        p.err.wf(),
        stream_responsive(p.out),
        stream_responsive(p.err),
    ensures
        spec_deliver_record(p, r).out.wf(),
        spec_deliver_record(p, r).err.wf(),
        stream_responsive(spec_deliver_record(p, r).out),
        stream_responsive(spec_deliver_record(p, r).err),
        spec_deliver_record(p, r).out.script == p.out.script,
        spec_deliver_record(p, r).err.script == p.err.script,
{
    match r.selector {
        StreamSelector::Stdout => {
            lemma_retry_run_bounds(p.out.script.skip(p.out.next as int), r.payload.len());
        }
        StreamSelector::Stderr => {
            lemma_retry_run_bounds(p.err.script.skip(p.err.next as int), r.payload.len());
        }
    }
}

/// One front-door operation keeps the pipeline well-formed and leaves the
/// streams' scripts — and their responsiveness — as they were.
pub proof fn lemma_logger_step_preserves(m: LoggerModel, op: LoggerOp)
    requires
        m.wf(),
        stream_responsive(m.out),
        stream_responsive(m.err),
    ensures
        step_logger_op(m, op).wf(),
        stream_responsive(step_logger_op(m, op).out),
        stream_responsive(step_logger_op(m, op).err),
        step_logger_op(m, op).out.script == m.out.script,
        step_logger_op(m, op).err.script == m.err.script,
{
    match op {
        LoggerOp::Submit(r) => {
            if !m.chan.closed && m.chan.queue.len() >= m.chan.capacity && m.chan.policy
                == OverflowPolicy::Block {
                lemma_deliver_record_preserves(m.streams(), m.chan.queue[0]);
            }
        }
        LoggerOp::Flush => {
            lemma_deliver_all_responsive(m.streams(), m.chan.queue);
        }
        LoggerOp::Shutdown => {
            if !m.chan.closed {
                lemma_deliver_all_responsive(m.streams(), m.chan.queue);
            }
        }
    }
}

proof fn lemma_logger_trace_preserves(m: LoggerModel, t: Seq<LoggerOp>)
    requires
        m.wf(),
        stream_responsive(m.out),
        stream_responsive(m.err),
    ensures
        run_logger_trace(m, t).wf(),
        stream_responsive(run_logger_trace(m, t).out),
        stream_responsive(run_logger_trace(m, t).err),
        run_logger_trace(m, t).out.script == m.out.script,
        run_logger_trace(m, t).err.script == m.err.script,
    decreases t.len(),
{
    if t.len() > 0 {
        lemma_logger_step_preserves(m, t[0]);
        lemma_logger_trace_preserves(step_logger_op(m, t[0]), t.skip(1));
    }
}

/// The records whose `submit` along the trace was accepted (`Enqueued`),
/// in the order they were accepted.
pub open spec fn accepted_records(m: LoggerModel, t: Seq<LoggerOp>) -> Seq<RecordView>
    decreases t.len(),
{
    if t.len() == 0 {
        Seq::<RecordView>::empty()
    } else {
        let rest = accepted_records(step_logger_op(m, t[0]), t.skip(1));
        match t[0] {
            LoggerOp::Submit(r) => if spec_logger_submit(m, r).result == SubmitResult::Enqueued {
                seq![r] + rest
            } else {
                rest
            },
            _ => rest,
        }
    }
}

/// No accepted record is lost under responsive streams: over any sequence
/// of front-door calls, what has reached a stream plus what is still
/// queued for it accounts, in order, for every record the channel accepted
/// for it.
pub proof fn lemma_no_accepted_record_lost(m: LoggerModel, t: Seq<LoggerOp>)
    requires
        m.wf(),
        stream_responsive(m.out),
        stream_responsive(m.err),
    ensures
        run_logger_trace(m, t).out.received + payload_concat(
            run_logger_trace(m, t).chan.queue,
            StreamSelector::Stdout,
        ) == m.out.received + payload_concat(m.chan.queue, StreamSelector::Stdout)
            + payload_concat(accepted_records(m, t), StreamSelector::Stdout),
        run_logger_trace(m, t).err.received + payload_concat(
            run_logger_trace(m, t).chan.queue,
            StreamSelector::Stderr,
        ) == m.err.received + payload_concat(m.chan.queue, StreamSelector::Stderr)
            + payload_concat(accepted_records(m, t), StreamSelector::Stderr),
    decreases t.len(),
{
    let fin = run_logger_trace(m, t);
    if t.len() == 0 {
        assert(fin.out.received + payload_concat(fin.chan.queue, StreamSelector::Stdout)
            =~= m.out.received + payload_concat(m.chan.queue, StreamSelector::Stdout)
                + payload_concat(accepted_records(m, t), StreamSelector::Stdout));
        assert(fin.err.received + payload_concat(fin.chan.queue, StreamSelector::Stderr)
            =~= m.err.received + payload_concat(m.chan.queue, StreamSelector::Stderr)
                + payload_concat(accepted_records(m, t), StreamSelector::Stderr));
    } else {
        let m1 = step_logger_op(m, t[0]);
        let acc1 = accepted_records(m1, t.skip(1));
        lemma_logger_step_preserves(m, t[0]);
        lemma_no_accepted_record_lost(m1, t.skip(1));
        match t[0] {
            LoggerOp::Submit(r) => {
                if m.chan.closed {
                } else if m.chan.queue.len() < m.chan.capacity {
                    lemma_payload_concat_push(m.chan.queue, r, StreamSelector::Stdout);
                    lemma_payload_concat_push(m.chan.queue, r, StreamSelector::Stderr);
                    lemma_payload_concat_cons(r, acc1, StreamSelector::Stdout);
                    lemma_payload_concat_cons(r, acc1, StreamSelector::Stderr);
                } else if m.chan.policy == OverflowPolicy::Drop {
                } else {
                    let h = m.chan.queue[0];
                    assert(m.chan.queue =~= seq![h] + m.chan.queue.skip(1));
                    lemma_payload_concat_cons(h, m.chan.queue.skip(1), StreamSelector::Stdout);
                    lemma_payload_concat_cons(h, m.chan.queue.skip(1), StreamSelector::Stderr);
                    lemma_payload_concat_push(m.chan.queue.skip(1), r, StreamSelector::Stdout);
                    lemma_payload_concat_push(m.chan.queue.skip(1), r, StreamSelector::Stderr);
                    lemma_payload_concat_cons(r, acc1, StreamSelector::Stdout);
                    lemma_payload_concat_cons(r, acc1, StreamSelector::Stderr);
                    match h.selector {
                        StreamSelector::Stdout => {
                            lemma_responsive_stream_completes(
                                m.out.script.skip(m.out.next as int),
                                h.payload.len(),
                            );
                            assert(spec_deliver(m.out, h.payload).received
                                =~= m.out.received + h.payload) by {
                                assert(h.payload.take(h.payload.len() as int) =~= h.payload);
                            }
                        }
                        StreamSelector::Stderr => {
                            lemma_responsive_stream_completes(
                                m.err.script.skip(m.err.next as int),
                                h.payload.len(),
                            );
                            assert(spec_deliver(m.err, h.payload).received
                                =~= m.err.received + h.payload) by {
                                assert(h.payload.take(h.payload.len() as int) =~= h.payload);
                            }
                        }
                    }
                }
                assert(fin.out.received + payload_concat(fin.chan.queue, StreamSelector::Stdout)
                    =~= m.out.received + payload_concat(m.chan.queue, StreamSelector::Stdout)
                        + payload_concat(accepted_records(m, t), StreamSelector::Stdout));
                assert(fin.err.received + payload_concat(fin.chan.queue, StreamSelector::Stderr)
                    =~= m.err.received + payload_concat(m.chan.queue, StreamSelector::Stderr)
                        + payload_concat(accepted_records(m, t), StreamSelector::Stderr));
            }
            LoggerOp::Flush => {
                lemma_deliver_all_responsive(m.streams(), m.chan.queue);
                assert(payload_concat(m1.chan.queue, StreamSelector::Stdout)
                    =~= Seq::<u8>::empty());
                assert(payload_concat(m1.chan.queue, StreamSelector::Stderr)
                    =~= Seq::<u8>::empty());
                assert(fin.out.received + payload_concat(fin.chan.queue, StreamSelector::Stdout)
                    =~= m.out.received + payload_concat(m.chan.queue, StreamSelector::Stdout)
                        + payload_concat(accepted_records(m, t), StreamSelector::Stdout));
                assert(fin.err.received + payload_concat(fin.chan.queue, StreamSelector::Stderr)
                    =~= m.err.received + payload_concat(m.chan.queue, StreamSelector::Stderr)
                        + payload_concat(accepted_records(m, t), StreamSelector::Stderr));
            }
            LoggerOp::Shutdown => {
                if !m.chan.closed {
                    lemma_deliver_all_responsive(m.streams(), m.chan.queue);
                    assert(payload_concat(m1.chan.queue, StreamSelector::Stdout)
                        =~= Seq::<u8>::empty());
                    assert(payload_concat(m1.chan.queue, StreamSelector::Stderr)
                        =~= Seq::<u8>::empty());
                }
                assert(fin.out.received + payload_concat(fin.chan.queue, StreamSelector::Stdout)
                    =~= m.out.received + payload_concat(m.chan.queue, StreamSelector::Stdout)
                        + payload_concat(accepted_records(m, t), StreamSelector::Stdout));
                assert(fin.err.received + payload_concat(fin.chan.queue, StreamSelector::Stderr)
                    =~= m.err.received + payload_concat(m.chan.queue, StreamSelector::Stderr)
                        + payload_concat(accepted_records(m, t), StreamSelector::Stderr));
            }
        }
    }
}

/// Flush completeness over any history: flushing after any sequence of
/// front-door calls leaves the channel empty, and each stream then holds —
/// in order — the bytes of every record ever accepted for it.
pub proof fn lemma_flush_completeness(m: LoggerModel, t: Seq<LoggerOp>)
    requires
        m.wf(),
        m.chan.queue.len() == 0,
        stream_responsive(m.out),
        stream_responsive(m.err),
    ensures
        spec_logger_flush(run_logger_trace(m, t)).chan.queue.len() == 0,
        spec_logger_flush(run_logger_trace(m, t)).out.received == m.out.received
            + payload_concat(accepted_records(m, t), StreamSelector::Stdout),
        spec_logger_flush(run_logger_trace(m, t)).err.received == m.err.received
            + payload_concat(accepted_records(m, t), StreamSelector::Stderr),
{
    let fin = run_logger_trace(m, t);
    lemma_no_accepted_record_lost(m, t);
    lemma_logger_trace_preserves(m, t);
    lemma_flush_responsive(fin);
    assert(payload_concat(m.chan.queue, StreamSelector::Stdout) =~= Seq::<u8>::empty());
    assert(payload_concat(m.chan.queue, StreamSelector::Stderr) =~= Seq::<u8>::empty());
    assert(spec_logger_flush(fin).out.received =~= m.out.received + payload_concat(
        accepted_records(m, t),
        StreamSelector::Stdout,
    ));
    assert(spec_logger_flush(fin).err.received =~= m.err.received + payload_concat(
        accepted_records(m, t),
        StreamSelector::Stderr,
    ));
}

/// The front door of the pipeline, driving the dispatch channel and the
/// retry-write layer against two scripted streams.
pub struct Logger {
    channel: Channel,
    out: MockStream,
    err: MockStream,
}

impl View for Logger {
    type V = LoggerModel;

    closed spec fn view(&self) -> LoggerModel {
        LoggerModel { chan: self.channel@, out: self.out@, err: self.err@ }
    }
}

impl Logger {
    pub fn new(
        capacity: usize,
        policy: OverflowPolicy,
        stdout: MockStream,
        stderr: MockStream,
    ) -> (l: Logger)
        requires
            capacity >= 1,
            stdout@.wf(),
            stderr@.wf(),
        ensures
            l@.wf(),
            l@ == (LoggerModel {
                chan: ChannelModel {
                    queue: Seq::<RecordView>::empty(),
                    capacity: capacity as nat,
                    policy,
                    dropped: 0,
                    closed: false,
                },
                out: stdout@,
                err: stderr@,
            }),
    {
        let channel = Channel::new(capacity, policy);
        Logger { channel, out: stdout, err: stderr }
    }

    /// One writer step: dequeue the oldest record, if any, and deliver it.
    fn drain_one(&mut self)
        requires
            old(self)@.wf(),
        ensures
            final(self)@.wf(),
            final(self)@ == spec_drain_one(old(self)@),
    {
        let taken = self.channel.dequeue();
        match taken {
            None => {}
            Some(r) => {
                match r.selector {
                    StreamSelector::Stdout => {
                        write_all_with_retry(&mut self.out, &r.payload);
                    }
                    StreamSelector::Stderr => {
                        write_all_with_retry(&mut self.err, &r.payload);
                    }
                }
                proof {
                    assert(self@ =~= spec_drain_one(old(self)@));
                }
            }
        }
    }

    /// Hands the record to the dispatch channel and answers per the
    /// overflow policy; never writes to a stream itself, except that under
    /// `Block` policy on a full channel the call suspends until the writer
    /// has freed space by draining the oldest record.
    pub fn submit(&mut self, r: Record) -> (res: SubmitResult)
        requires
            old(self)@.wf(),
            old(self)@.chan.dropped < u64::MAX,
        ensures
            final(self)@.wf(),
            final(self)@ == spec_logger_submit(old(self)@, r@).logger,
            res == spec_logger_submit(old(self)@, r@).result,
    {
        if self.channel.is_closed() {
            return SubmitResult::LoggerClosed;
        }
        let full = self.channel.len() == self.channel.capacity();
        if full {
            match self.channel.policy() {
                OverflowPolicy::Block => {
                    self.drain_one();
                }
                OverflowPolicy::Drop => {}
            }
        }
        let outcome = self.channel.enqueue(r);
        proof {
            assert(self@ =~= spec_logger_submit(old(self)@, r@).logger);
        }
        match outcome {
            EnqueueOutcome::Enqueued => SubmitResult::Enqueued,
            EnqueueOutcome::Dropped => SubmitResult::Dropped,
            EnqueueOutcome::MustWait => unreached(),
            EnqueueOutcome::Closed => unreached(),
        }
    }

    /// Suspends until every record enqueued strictly before the call has
    /// been handed to the retry-write layer and its write attempt has
    /// completed — success or abandonment, never left half-pending.
    pub fn flush(&mut self)
        requires
            old(self)@.wf(),
        ensures
            final(self)@.wf(),
            final(self)@ == spec_logger_flush(old(self)@),
    {
        let ghost orig = self@;
        while !self.channel.is_empty()
            invariant
                self@.wf(),
                self@.chan.capacity == orig.chan.capacity,
                self@.chan.policy == orig.chan.policy,
                self@.chan.dropped == orig.chan.dropped,
                self@.chan.closed == orig.chan.closed,
                spec_deliver_all(self@.streams(), self@.chan.queue)
                    == spec_deliver_all(orig.streams(), orig.chan.queue),
            decreases self@.chan.queue.len(),
        {
            self.drain_one();
        }
        proof {
            assert(self@.chan.queue =~= Seq::<RecordView>::empty());
            assert(self@ =~= spec_logger_flush(orig));
        }
    }

    /// Disables further `submit` terminally, performs the implicit flush,
    /// and lets the writer go. Idempotent.
    pub fn shutdown(&mut self)
        requires
            old(self)@.wf(),
        ensures
            final(self)@.wf(),
            final(self)@ == spec_logger_shutdown(old(self)@),
            final(self)@.chan.closed,
    {
        if !self.channel.is_closed() {
            self.channel.close();
            self.flush();
        }
    }

    pub fn drop_count(&self) -> (n: u64)
        ensures
            n == self@.chan.dropped,
    {
        self.channel.drop_count()
    }

    pub fn is_shut_down(&self) -> (b: bool)
        ensures
            b == self@.chan.closed,
    {
        self.channel.is_closed()
    }

    pub fn queued(&self) -> (n: usize)
        ensures
            n == self@.chan.queue.len(),
    {
        self.channel.len()
    }

    pub fn stdout_stream(&self) -> (s: &MockStream)
        ensures
            s@ == self@.out,
    {
        &self.out
    }

    pub fn stderr_stream(&self) -> (s: &MockStream)
        ensures
            s@ == self@.err,
    {
        &self.err
    }
}

} // verus!
