use vstd::prelude::*;
use crate::record::{Record, RecordView};

verus! {

/// What an enqueue does when the channel is already full.
#[derive(Clone, Copy, PartialEq, Eq, Structural, Debug)]
pub enum OverflowPolicy {
    /// The producer is expected to wait until the consumer frees space.
    Block,
    /// The new record is discarded and the drop counter is incremented.
    Drop,
}

/// Outcome of one enqueue attempt. `MustWait` arises only under
/// [`OverflowPolicy::Block`] on a full channel: the channel is left
/// unchanged and the caller must let the consumer drain before retrying.
#[derive(Clone, Copy, PartialEq, Eq, Structural, Debug)]
pub enum EnqueueOutcome {
    Enqueued,
    Dropped,
    MustWait,
    Closed,
}

/// Mathematical image of the dispatch channel.
#[verifier::ext_equal]
pub ghost struct ChannelModel {
    pub queue: Seq<RecordView>,
    pub capacity: nat,
    pub policy: OverflowPolicy,
    pub dropped: nat,
    pub closed: bool,
}

impl ChannelModel {
    /// A channel never holds more records than its capacity, and the
    /// capacity is positive.
    pub open spec fn wf(self) -> bool {
        1 <= self.capacity && self.queue.len() <= self.capacity
    }
}

/// Result of one enqueue step at the model level.
#[verifier::ext_equal]
pub ghost struct EnqueueStep {
    pub chan: ChannelModel,
    pub outcome: EnqueueOutcome,
}

/// Result of one dequeue step at the model level.
#[verifier::ext_equal]
pub ghost struct DequeueStep {
    pub chan: ChannelModel,
    pub taken: Option<RecordView>,
}

/// What enqueueing `r` does to channel `c`: refused when closed; appended
/// when there is room; otherwise dropped (counted) or left to wait,
/// according to the overflow policy.
pub open spec fn spec_enqueue(c: ChannelModel, r: RecordView) -> EnqueueStep {
    if c.closed {
        EnqueueStep { chan: c, outcome: EnqueueOutcome::Closed }
    } else if c.queue.len() < c.capacity {
        EnqueueStep {
            chan: ChannelModel { queue: c.queue.push(r), ..c },
            outcome: EnqueueOutcome::Enqueued,
        }
    } else if c.policy == OverflowPolicy::Drop {
        EnqueueStep {
            chan: ChannelModel { dropped: c.dropped + 1, ..c },
            outcome: EnqueueOutcome::Dropped,
        }
    } else {
        EnqueueStep { chan: c, outcome: EnqueueOutcome::MustWait }
    }
}

/// What dequeueing does to channel `c`: the oldest record leaves, in FIFO
/// order; an empty channel is left unchanged. Draining is allowed after
/// close, so `closed` plays no part here.
pub open spec fn spec_dequeue(c: ChannelModel) -> DequeueStep {
    if c.queue.len() == 0 {
        DequeueStep { chan: c, taken: None }
    } else {
        DequeueStep {
            chan: ChannelModel { queue: c.queue.skip(1), ..c },
            taken: Some(c.queue[0]),
        }
    }
}

/// Closing is terminal: only the flag changes, pending records stay.
pub open spec fn spec_close(c: ChannelModel) -> ChannelModel {
    ChannelModel { closed: true, ..c }
}

/// The view of an optional record.
pub open spec fn view_of_taken(taken: Option<Record>) -> Option<RecordView> {
    match taken {
        Some(r) => Some(r@),
        None => None,
    }
}

/// One operation against the channel, as the model sees it.
pub ghost enum ChannelOp {
    Enqueue(RecordView),
    Dequeue,
    Close,
}

/// The channel after one operation.
pub open spec fn step_op(c: ChannelModel, op: ChannelOp) -> ChannelModel {
    match op {
        ChannelOp::Enqueue(r) => spec_enqueue(c, r).chan,
        ChannelOp::Dequeue => spec_dequeue(c).chan,
        ChannelOp::Close => spec_close(c),
    }
}

/// The channel after a whole sequence of operations.
pub open spec fn run_trace(c: ChannelModel, t: Seq<ChannelOp>) -> ChannelModel
    decreases t.len(),
{
    if t.len() == 0 {
        c
    } else {
        run_trace(step_op(c, t[0]), t.skip(1))
    }
}

/// The records the channel accepted along the trace (enqueue attempts whose
/// outcome was `Enqueued`), in the order they were accepted.
pub open spec fn accepted_along(c: ChannelModel, t: Seq<ChannelOp>) -> Seq<RecordView>
    decreases t.len(),
{
    if t.len() == 0 {
        Seq::<RecordView>::empty()
    } else {
        let rest = accepted_along(step_op(c, t[0]), t.skip(1));
        match t[0] {
            ChannelOp::Enqueue(r) => if spec_enqueue(c, r).outcome == EnqueueOutcome::Enqueued {
                seq![r] + rest
            } else {
                rest
            },
            _ => rest,
        }
    }
}

/// The records the consumer took along the trace, in the order taken.
pub open spec fn dequeued_along(c: ChannelModel, t: Seq<ChannelOp>) -> Seq<RecordView>
    decreases t.len(),
{
    if t.len() == 0 {
        Seq::<RecordView>::empty()
    } else {
        let rest = dequeued_along(step_op(c, t[0]), t.skip(1));
        match t[0] {
            ChannelOp::Dequeue => match spec_dequeue(c).taken {
                Some(r) => seq![r] + rest,
                None => rest,
            },
            _ => rest,
        }
    }
}

/// How many enqueue attempts along the trace came back `Dropped`.
pub open spec fn dropped_along(c: ChannelModel, t: Seq<ChannelOp>) -> nat
    decreases t.len(),
{
    if t.len() == 0 {
        0
    } else {
        let rest = dropped_along(step_op(c, t[0]), t.skip(1));
        match t[0] {
            ChannelOp::Enqueue(r) => if spec_enqueue(c, r).outcome == EnqueueOutcome::Dropped {
                1 + rest
            } else {
                rest
            },
            _ => rest,
        }
    }
}

/// FIFO conservation: over any sequence of operations, what was in the
/// channel plus what it accepted is exactly what the consumer took plus
/// what is still queued — same records, same order. No record is lost,
/// duplicated or reordered between acceptance and dequeue; in particular,
/// the records a single producer gets accepted come out in the order it
/// submitted them.
pub proof fn lemma_fifo_conservation(c: ChannelModel, t: Seq<ChannelOp>)
    ensures
        c.queue + accepted_along(c, t) == dequeued_along(c, t) + run_trace(c, t).queue,
    decreases t.len(),
{
    if t.len() == 0 {
        assert(c.queue + accepted_along(c, t) =~= dequeued_along(c, t) + run_trace(c, t).queue);
    } else {
        let c1 = step_op(c, t[0]);
        let rest = t.skip(1);
        lemma_fifo_conservation(c1, rest);
        match t[0] {
            ChannelOp::Enqueue(r) => {
                if spec_enqueue(c, r).outcome == EnqueueOutcome::Enqueued {
                    assert(c1.queue =~= c.queue.push(r));
                    assert(c.queue + (seq![r] + accepted_along(c1, rest))
                        =~= c.queue.push(r) + accepted_along(c1, rest));
                } else {
                    assert(c1.queue =~= c.queue);
                }
            }
            ChannelOp::Dequeue => {
                if c.queue.len() > 0 {
                    assert(c1.queue =~= c.queue.skip(1));
                    assert(c.queue + accepted_along(c1, rest)
                        =~= seq![c.queue[0]] + (c.queue.skip(1) + accepted_along(c1, rest)));
                }
            }
            ChannelOp::Close => {
                assert(c1.queue =~= c.queue);
            }
        }
    }
}

/// Taken in order: starting from an empty channel, the sequence of records
/// the consumer has taken is a prefix of the sequence of records the
/// channel accepted.
pub proof fn lemma_fifo_prefix(c: ChannelModel, t: Seq<ChannelOp>)
    requires
        c.queue.len() == 0,
    ensures
        dequeued_along(c, t)
            == accepted_along(c, t).take(dequeued_along(c, t).len() as int),
{
    lemma_fifo_conservation(c, t);
    assert(c.queue + accepted_along(c, t) =~= accepted_along(c, t));
    assert(dequeued_along(c, t)
        =~= accepted_along(c, t).take(dequeued_along(c, t).len() as int));
}

/// The drop counter is exact: over any sequence of operations it grows by
/// precisely the number of enqueue attempts that came back `Dropped`.
pub proof fn lemma_drop_count(c: ChannelModel, t: Seq<ChannelOp>)
    ensures
        run_trace(c, t).dropped == c.dropped + dropped_along(c, t),
    decreases t.len(),
{
    if t.len() > 0 {
        lemma_drop_count(step_op(c, t[0]), t.skip(1));
    }
}

/// Under `Block` policy nothing is ever dropped: the policy is fixed at
/// construction, and a full channel makes the producer wait instead.
pub proof fn lemma_block_policy_never_drops(c: ChannelModel, t: Seq<ChannelOp>)
    requires
        c.policy == OverflowPolicy::Block,
    ensures
        run_trace(c, t).policy == OverflowPolicy::Block,
        dropped_along(c, t) == 0,
        run_trace(c, t).dropped == c.dropped,
    decreases t.len(),
{
    if t.len() > 0 {
        lemma_block_policy_never_drops(step_op(c, t[0]), t.skip(1));
    }
}

/// Bounded FIFO hand-off between producers and the single consumer.
pub struct Channel {
    records: Vec<Record>,
    capacity: usize,
    policy: OverflowPolicy,
    dropped: u64,
    closed: bool,
}

impl View for Channel {
    type V = ChannelModel;

    closed spec fn view(&self) -> ChannelModel {
        ChannelModel {
            queue: self.records@.map_values(|r: Record| r@),
            capacity: self.capacity as nat,
            policy: self.policy,
            dropped: self.dropped as nat,
            closed: self.closed,
        }
    }
}

impl Channel {
    pub fn new(capacity: usize, policy: OverflowPolicy) -> (c: Channel)
        requires
            capacity >= 1,
        ensures
            c@.wf(),
            c@ == (ChannelModel {
                queue: Seq::<RecordView>::empty(),
                capacity: capacity as nat,
                policy,
                dropped: 0,
                closed: false,
            }),
    {
        let c = Channel { records: Vec::new(), capacity, policy, dropped: 0, closed: false };
        proof {
            assert(c@.queue =~= Seq::<RecordView>::empty());
            assert(c@ =~= (ChannelModel {
                queue: Seq::<RecordView>::empty(),
                capacity: capacity as nat,
                policy,
                dropped: 0,
                closed: false,
            }));
        }
        c
    }

    pub fn enqueue(&mut self, r: Record) -> (o: EnqueueOutcome)
        requires
            old(self)@.wf(),
            old(self)@.dropped < u64::MAX,
        ensures
            final(self)@.wf(),
            final(self)@ == spec_enqueue(old(self)@, r@).chan,
            o == spec_enqueue(old(self)@, r@).outcome,
    {
        if self.closed {
            EnqueueOutcome::Closed
        } else if self.records.len() < self.capacity {
            let ghost prev = self@;
            let ghost rv = r@;
            self.records.push(r);
            proof {
                assert(self@.queue =~= prev.queue.push(rv));
                assert(self@ =~= spec_enqueue(prev, rv).chan);
            }
            EnqueueOutcome::Enqueued
        } else {
            match self.policy {
                OverflowPolicy::Drop => {
                    let ghost prev = self@;
                    self.dropped = self.dropped + 1;
                    proof {
                        assert(self@ =~= spec_enqueue(prev, r@).chan);
                    }
                    EnqueueOutcome::Dropped
                }
                OverflowPolicy::Block => EnqueueOutcome::MustWait,
            }
        }
    }

    pub fn dequeue(&mut self) -> (taken: Option<Record>)
        requires
            old(self)@.wf(),
        ensures
            final(self)@.wf(),
            final(self)@ == spec_dequeue(old(self)@).chan,
            view_of_taken(taken) == spec_dequeue(old(self)@).taken,
    {
        if self.records.len() == 0 {
            None
        } else {
            let ghost prev = self@;
            let r = self.records.remove(0);
            proof {
                assert(self@.queue =~= prev.queue.skip(1));
                assert(self@ =~= spec_dequeue(prev).chan);
            }
            Some(r)
        }
    }

    pub fn close(&mut self)
        requires
            old(self)@.wf(),
        ensures
            final(self)@.wf(),
            final(self)@ == spec_close(old(self)@),
    {
        let ghost prev = self@;
        self.closed = true;
        proof {
            assert(self@ =~= spec_close(prev));
        }
    }

    pub fn len(&self) -> (n: usize)
        ensures
            n == self@.queue.len(),
    {
        self.records.len()
    }

    pub fn is_empty(&self) -> (b: bool)
        ensures
            b == (self@.queue.len() == 0),
    {
        self.records.len() == 0
    }

    pub fn is_closed(&self) -> (b: bool)
        ensures
            b == self@.closed,
    {
        self.closed
    }

    pub fn drop_count(&self) -> (n: u64)
        ensures
            n == self@.dropped,
    {
        self.dropped
    }

    pub fn capacity(&self) -> (n: usize)
        ensures
            n == self@.capacity,
    {
        self.capacity
    }

    pub fn policy(&self) -> (p: OverflowPolicy)
        ensures
            p == self@.policy,
    {
        self.policy
    }
}

} // verus!
