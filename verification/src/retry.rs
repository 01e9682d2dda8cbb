use vstd::prelude::*;

verus! {

/// What one write attempt against a non-blocking stream came back with.
/// `Accepted(0)` means the stream took nothing without reporting an error,
/// which the retry layer treats exactly like a would-block signal.
#[derive(Clone, Copy, PartialEq, Eq, Structural, Debug)]
pub enum WriteOutcome {
    Accepted(usize),
    WouldBlock,
    HardError,
}

/// What the retry layer does next after one write attempt.
#[derive(Clone, Copy, PartialEq, Eq, Structural, Debug)]
pub enum RetryAction {
    /// The stream took this many bytes; move past them and go on.
    Advance(usize),
    /// Nothing was taken: wait until the stream is writable, then retry.
    Wait,
    /// Hard error: discard the rest of the record, silently.
    Abandon,
}

/// The retry decision: a zero-byte acceptance or a would-block error means
/// wait-then-retry; progress means advance; any other error abandons the
/// record. `remaining` bounds how far an acceptance can advance.
pub open spec fn spec_retry_step(outcome: WriteOutcome, remaining: nat) -> RetryAction {
    match outcome {
        WriteOutcome::Accepted(n) => {
            let k: nat = if n <= remaining { n as nat } else { remaining };
            if k == 0 {
                RetryAction::Wait
            } else {
                RetryAction::Advance(k as usize)
            }
        }
        WriteOutcome::WouldBlock => RetryAction::Wait,
        WriteOutcome::HardError => RetryAction::Abandon,
    }
}

/// Executable form of the retry decision, shared by every driver of the
/// retry-write loop.
pub fn retry_step(outcome: WriteOutcome, remaining: usize) -> (a: RetryAction)
    requires
        remaining > 0,
    ensures
        a == spec_retry_step(outcome, remaining as nat),
{
    match outcome {
        WriteOutcome::Accepted(n) => {
            let k = if n <= remaining { n } else { remaining };
            if k == 0 {
                RetryAction::Wait
            } else {
                RetryAction::Advance(k)
            }
        }
        WriteOutcome::WouldBlock => RetryAction::Wait,
        WriteOutcome::HardError => RetryAction::Abandon,
    }
}

/// What one whole run of the retry-write loop amounts to, at the model
/// level: how many bytes reached the stream, how often the loop waited for
/// writability, how many scripted attempts it consumed, and whether it
/// abandoned the record.
#[verifier::ext_equal]
pub ghost struct RunResult {
    pub delivered: nat,
    pub waits: nat,
    pub consumed: nat,
    pub abandoned: bool,
}

/// The retry-write loop as a mathematical function of the stream's scripted
/// behaviour. Each scripted entry answers one write attempt; once the
/// script is exhausted the stream accepts everything that is left.
pub open spec fn retry_run(script: Seq<WriteOutcome>, remaining: nat) -> RunResult
    decreases script.len(),
{
    if remaining == 0 {
        RunResult { delivered: 0, waits: 0, consumed: 0, abandoned: false }
    } else if script.len() == 0 {
        RunResult { delivered: remaining, waits: 0, consumed: 0, abandoned: false }
    } else {
        match script[0] {
            WriteOutcome::Accepted(n) => {
                let k: nat = if n <= remaining { n as nat } else { remaining };
                if k == 0 {
                    let rest = retry_run(script.skip(1), remaining);
                    RunResult {
                        delivered: rest.delivered,
                        waits: rest.waits + 1,
                        consumed: rest.consumed + 1,
                        abandoned: rest.abandoned,
                    }
                } else {
                    let rest = retry_run(script.skip(1), (remaining - k) as nat);
                    RunResult {
                        delivered: k + rest.delivered,
                        waits: rest.waits,
                        consumed: rest.consumed + 1,
                        abandoned: rest.abandoned,
                    }
                }
            }
            WriteOutcome::WouldBlock => {
                let rest = retry_run(script.skip(1), remaining);
                RunResult {
                    delivered: rest.delivered,
                    waits: rest.waits + 1,
                    consumed: rest.consumed + 1,
                    abandoned: rest.abandoned,
                }
            }
            WriteOutcome::HardError => RunResult {
                delivered: 0,
                waits: 0,
                consumed: 1,
                abandoned: true,
            },
        }
    }
}

/// Mathematical image of a scripted stream: its script, how far the script
/// has been consumed, the bytes that have reached it, and how often a
/// writer waited on it.
#[verifier::ext_equal]
pub ghost struct StreamModel {
    pub script: Seq<WriteOutcome>,
    pub next: nat,
    pub received: Seq<u8>,
    pub waits: nat,
}

impl StreamModel {
    /// The script position never runs past the script, and waits only ever
    /// follow consumed attempts, so they are bounded by the position.
    pub open spec fn wf(self) -> bool {
        self.next <= self.script.len() && self.waits <= self.next
    }
}

/// What delivering `bytes` through the retry-write loop does to a stream:
/// the prefix the run managed to deliver is appended, the script position
/// advances by the consumed attempts, and the waits are added.
pub open spec fn spec_deliver(s: StreamModel, bytes: Seq<u8>) -> StreamModel {
    let run = retry_run(s.script.skip(s.next as int), bytes.len());
    StreamModel {
        script: s.script,
        next: s.next + run.consumed,
        received: s.received + bytes.take(run.delivered as int),
        waits: s.waits + run.waits,
    }
}

/// A stream with scripted write behaviour, for driving the retry-write
/// loop deterministically. Entries of the script answer write attempts in
/// order; after the script is exhausted the stream accepts everything.
pub struct MockStream {
    script: Vec<WriteOutcome>,
    next: usize,
    received: Vec<u8>,
    waits: usize,
}

impl View for MockStream {
    type V = StreamModel;

    closed spec fn view(&self) -> StreamModel {
        StreamModel {
            script: self.script@,
            next: self.next as nat,
            received: self.received@,
            waits: self.waits as nat,
        }
    }
}

impl MockStream {
    pub fn new(script: Vec<WriteOutcome>) -> (s: MockStream)
        ensures
            s@.wf(),
            s@ == (StreamModel {
                script: script@,
                next: 0,
                received: Seq::<u8>::empty(),
                waits: 0,
            }),
    {
        let s = MockStream { script, next: 0, received: Vec::new(), waits: 0 };
        proof {
            assert(s@.received =~= Seq::<u8>::empty());
            assert(s@ =~= (StreamModel {
                script: s.script@,
                next: 0,
                received: Seq::<u8>::empty(),
                waits: 0,
            }));
        }
        s
    }

    /// The bytes that have reached the stream so far.
    pub fn received(&self) -> (r: &Vec<u8>)
        ensures
            r@ == self@.received,
    {
        &self.received
    }

    /// How often a writer has waited for this stream to become writable.
    pub fn wait_count(&self) -> (n: usize)
        ensures
            n == self@.waits,
    {
        self.waits
    }

    /// How many scripted write attempts have been consumed.
    pub fn attempts_consumed(&self) -> (n: usize)
        ensures
            n == self@.next,
    {
        self.next
    }

    /// Appends `bytes[from .. from + count]` to the received bytes.
    fn push_range(&mut self, bytes: &Vec<u8>, from: usize, count: usize)
        requires
            from + count <= bytes@.len(),
        ensures
            final(self)@ == (StreamModel {
                received: old(self)@.received + bytes@.subrange(
                    from as int,
                    from + count,
                ),
                ..old(self)@
            }),
    {
        let ghost pre = self@;
        let n = bytes.len();
        proof {
            assert(from + count <= n);
        }
        let end = from + count;
        let mut idx = from;
        proof {
            assert(pre.received + bytes@.subrange(from as int, from as int) =~= pre.received);
        }
        while idx < end
            invariant
                from <= idx && idx <= end,
                end == from + count,
                end <= bytes@.len(),
                self@.script == pre.script,
                self@.next == pre.next,
                self@.waits == pre.waits,
                self@.received == pre.received + bytes@.subrange(from as int, idx as int),
            decreases end - idx,
        {
            self.received.push(bytes[idx]);
            idx = idx + 1;
            proof {
                assert(self@.received =~= pre.received + bytes@.subrange(from as int, idx as int));
            }
        }
        proof {
            assert(self@ =~= (StreamModel {
                received: pre.received + bytes@.subrange(from as int, from + count),
                ..pre
            }));
        }
    }
}

/// Everything a caller of the retry-write layer learns back: how many of
/// the record's bytes reached the stream, and whether the rest of the
/// record was abandoned on a hard error.
#[derive(Clone, Copy, PartialEq, Eq, Structural, Debug)]
pub struct WriteReport {
    pub delivered: usize,
    pub abandoned: bool,
}

/// Facts that hold of every run of the retry-write loop: it never delivers
/// more than it was given, consumes no more attempts than the script holds,
/// waits at most once per consumed attempt, and — unless it abandoned on a
/// hard error — delivers everything.
pub proof fn lemma_retry_run_bounds(script: Seq<WriteOutcome>, remaining: nat)
    ensures
        retry_run(script, remaining).delivered <= remaining,
        retry_run(script, remaining).consumed <= script.len(),
        retry_run(script, remaining).waits <= retry_run(script, remaining).consumed,
        !retry_run(script, remaining).abandoned ==> retry_run(script, remaining).delivered
            == remaining,
    decreases script.len(),
{
    if remaining == 0 || script.len() == 0 {
    } else {
        match script[0] {
            WriteOutcome::Accepted(n) => {
                let k: nat = if n <= remaining { n as nat } else { remaining };
                if k == 0 {
                    lemma_retry_run_bounds(script.skip(1), remaining);
                } else {
                    lemma_retry_run_bounds(script.skip(1), (remaining - k) as nat);
                }
            }
            WriteOutcome::WouldBlock => {
                lemma_retry_run_bounds(script.skip(1), remaining);
            }
            WriteOutcome::HardError => {}
        }
    }
}

/// A responsive stream never makes the retry-write loop abandon: as long
/// as the script holds no hard error — partial writes, zero-byte
/// acceptances and would-block signals are all allowed — every byte is
/// delivered.
pub proof fn lemma_responsive_stream_completes(script: Seq<WriteOutcome>, remaining: nat)
    requires
        forall|i: int| 0 <= i < script.len() ==> script[i] != WriteOutcome::HardError,
    ensures
        !retry_run(script, remaining).abandoned,
        retry_run(script, remaining).delivered == remaining,
    decreases script.len(),
{
    lemma_retry_run_bounds(script, remaining);
    if remaining == 0 || script.len() == 0 {
    } else {
        assert(forall|i: int| 0 <= i < script.skip(1).len()
            ==> script.skip(1)[i] == script[i + 1]);
        match script[0] {
            WriteOutcome::Accepted(n) => {
                let k: nat = if n <= remaining { n as nat } else { remaining };
                if k == 0 {
                    lemma_responsive_stream_completes(script.skip(1), remaining);
                } else {
                    lemma_responsive_stream_completes(script.skip(1), (remaining - k) as nat);
                }
            }
            WriteOutcome::WouldBlock => {
                lemma_responsive_stream_completes(script.skip(1), remaining);
            }
            WriteOutcome::HardError => {
                assert(false);
            }
        }
    }
}

/// A scripted answer that makes the retry-write loop wait: the stream took
/// nothing, either silently or with a would-block error.
pub open spec fn is_block_signal(o: WriteOutcome) -> bool {
    o == WriteOutcome::WouldBlock || o == WriteOutcome::Accepted(0usize)
}

/// How many entries of a script are block signals.
pub open spec fn count_block_signals(s: Seq<WriteOutcome>) -> nat
    decreases s.len(),
{
    if s.len() == 0 {
        0
    } else {
        (if is_block_signal(s[0]) { 1nat } else { 0nat }) + count_block_signals(s.skip(1))
    }
}

/// No busy-waiting: the retry-write loop waits for writability exactly
/// once per block signal it consumed — never more, never less — and makes
/// exactly one write attempt per consumed scripted answer in between.
pub proof fn lemma_one_wait_per_block_signal(script: Seq<WriteOutcome>, remaining: nat)
    ensures
        retry_run(script, remaining).waits == count_block_signals(
            script.take(retry_run(script, remaining).consumed as int),
        ),
    decreases script.len(),
{
    let run = retry_run(script, remaining);
    if remaining == 0 || script.len() == 0 {
        assert(script.take(0) =~= Seq::<WriteOutcome>::empty());
    } else {
        let tail = script.skip(1);
        match script[0] {
            WriteOutcome::Accepted(n) => {
                let k: nat = if n <= remaining { n as nat } else { remaining };
                let rest = if k == 0 {
                    retry_run(tail, remaining)
                } else {
                    retry_run(tail, (remaining - k) as nat)
                };
                if k == 0 {
                    lemma_one_wait_per_block_signal(tail, remaining);
                } else {
                    lemma_one_wait_per_block_signal(tail, (remaining - k) as nat);
                }
                lemma_retry_run_bounds(tail, if k == 0 { remaining } else { (remaining - k) as nat });
                let taken = script.take(rest.consumed as int + 1);
                assert(rest.consumed + 1 <= script.len());
                assert(taken.len() == rest.consumed + 1);
                assert(taken[0] == script[0]);
                assert(taken.skip(1) =~= tail.take(rest.consumed as int));
                assert(is_block_signal(script[0]) == (k == 0));
                assert(count_block_signals(taken) == (if is_block_signal(taken[0]) { 1nat } else { 0nat })
                    + count_block_signals(taken.skip(1)));
                assert(rest.waits == count_block_signals(tail.take(rest.consumed as int)));
                assert(run.consumed == rest.consumed + 1);
                assert(run.waits == count_block_signals(taken));
            }
            WriteOutcome::WouldBlock => {
                let rest = retry_run(tail, remaining);
                lemma_one_wait_per_block_signal(tail, remaining);
                lemma_retry_run_bounds(tail, remaining);
                let taken = script.take(rest.consumed as int + 1);
                assert(rest.consumed + 1 <= script.len());
                assert(taken.len() == rest.consumed + 1);
                assert(taken[0] == script[0]);
                assert(taken.skip(1) =~= tail.take(rest.consumed as int));
                assert(count_block_signals(taken) == 1nat + count_block_signals(taken.skip(1)));
                assert(run.consumed == rest.consumed + 1);
                assert(run.waits == count_block_signals(taken));
            }
            WriteOutcome::HardError => {
                let taken = script.take(1);
                assert(taken.len() == 1);
                assert(taken[0] == script[0]);
                assert(taken.skip(1) =~= Seq::<WriteOutcome>::empty());
                assert(!is_block_signal(script[0]));
                assert(count_block_signals(taken.skip(1)) == 0);
                assert(count_block_signals(taken) == 0);
                assert(run.consumed == 1 && run.waits == 0);
                assert(run.waits == count_block_signals(taken));
            }
        }
    }
}

/// Writes all of `bytes` to the stream, retrying on partial writes, on
/// zero-byte acceptances and on would-block signals — waiting for
/// writability before each retry — and abandoning the rest of the record
/// on a hard error. The stream receives exactly a prefix of `bytes`: the
/// whole record unless it was abandoned, and never anything out of order.
pub fn write_all_with_retry(stream: &mut MockStream, bytes: &Vec<u8>) -> (r: WriteReport)
    requires
        old(stream)@.wf(),
    ensures
        final(stream)@.wf(),
        final(stream)@ == spec_deliver(old(stream)@, bytes@),
        r.delivered == retry_run(
            old(stream)@.script.skip(old(stream)@.next as int),
            bytes@.len(),
        ).delivered,
        r.abandoned == retry_run(
            old(stream)@.script.skip(old(stream)@.next as int),
            bytes@.len(),
        ).abandoned,
        !r.abandoned ==> r.delivered == bytes@.len(),
{
    let ghost orig = stream@;
    let ghost run0 = retry_run(orig.script.skip(orig.next as int), bytes@.len());
    proof {
        lemma_retry_run_bounds(orig.script.skip(orig.next as int), bytes@.len());
    }
    let mut written: usize = 0;
    let mut abandoned = false;
    proof {
        assert(orig.received + bytes@.take(0) =~= orig.received);
    }
    while written < bytes.len()
        invariant_except_break
            !abandoned,
            run0.delivered == written + retry_run(
                stream@.script.skip(stream@.next as int),
                (bytes@.len() - written) as nat,
            ).delivered,
            run0.waits == (stream@.waits - orig.waits) + retry_run(
                stream@.script.skip(stream@.next as int),
                (bytes@.len() - written) as nat,
            ).waits,
            run0.consumed == (stream@.next - orig.next) + retry_run(
                stream@.script.skip(stream@.next as int),
                (bytes@.len() - written) as nat,
            ).consumed,
            run0.abandoned == retry_run(
                stream@.script.skip(stream@.next as int),
                (bytes@.len() - written) as nat,
            ).abandoned,
        invariant
            written <= bytes@.len(),
            stream@.wf(),
            stream@.script == orig.script,
            orig.next <= stream@.next,
            orig.waits <= stream@.waits,
            stream@.received == orig.received + bytes@.take(written as int),
        ensures
            stream@.wf(),
            stream@.script == orig.script,
            stream@.received == orig.received + bytes@.take(written as int),
            run0.delivered == written,
            run0.waits == stream@.waits - orig.waits,
            run0.consumed == stream@.next - orig.next,
            run0.abandoned == abandoned,
        decreases
            stream@.script.len() - stream@.next,
            bytes@.len() - written,
    {
        let ghost pre = stream@;
        let ghost rem: nat = (bytes@.len() - written) as nat;
        let ghost suffix = pre.script.skip(pre.next as int);
        if stream.next < stream.script.len() {
            proof {
                assert(suffix.len() > 0);
                assert(suffix[0] == pre.script[pre.next as int]);
                assert(suffix.skip(1) =~= pre.script.skip(pre.next as int + 1));
            }
            let outcome = stream.script[stream.next];
            stream.next = stream.next + 1;
            match retry_step(outcome, bytes.len() - written) {
                RetryAction::Advance(k) => {
                    proof {
                        assert(k <= bytes@.len() - written);
                        assert(retry_run(suffix, rem) == (RunResult {
                            delivered: k as nat + retry_run(
                                suffix.skip(1),
                                (rem - k) as nat,
                            ).delivered,
                            waits: retry_run(suffix.skip(1), (rem - k) as nat).waits,
                            consumed: retry_run(suffix.skip(1), (rem - k) as nat).consumed + 1,
                            abandoned: retry_run(suffix.skip(1), (rem - k) as nat).abandoned,
                        }));
                    }
                    stream.push_range(bytes, written, k);
                    written = written + k;
                    proof {
                        assert(stream@.received =~= orig.received + bytes@.take(written as int));
                    }
                }
                RetryAction::Wait => {
                    proof {
                        assert(retry_run(suffix, rem) == (RunResult {
                            delivered: retry_run(suffix.skip(1), rem).delivered,
                            waits: retry_run(suffix.skip(1), rem).waits + 1,
                            consumed: retry_run(suffix.skip(1), rem).consumed + 1,
                            abandoned: retry_run(suffix.skip(1), rem).abandoned,
                        }));
                    }
                    stream.waits = stream.waits + 1;
                }
                RetryAction::Abandon => {
                    proof {
                        assert(retry_run(suffix, rem) == (RunResult {
                            delivered: 0,
                            waits: 0,
                            consumed: 1,
                            abandoned: true,
                        }));
                    }
                    abandoned = true;
                    break;
                }
            }
        } else {
            proof {
                assert(suffix.len() == 0);
                assert(retry_run(suffix, rem) == (RunResult {
                    delivered: rem,
                    waits: 0,
                    consumed: 0,
                    abandoned: false,
                }));
            }
            let count = bytes.len() - written;
            stream.push_range(bytes, written, count);
            written = bytes.len();
            proof {
                assert(stream@.received =~= orig.received + bytes@.take(written as int));
                assert(retry_run(stream@.script.skip(stream@.next as int), 0) == (RunResult {
                    delivered: 0,
                    waits: 0,
                    consumed: 0,
                    abandoned: false,
                }));
            }
        }
    }
    proof {
        assert(stream@ =~= spec_deliver(orig, bytes@));
    }
    WriteReport { delivered: written, abandoned }
}

} // verus!
