//! Measuring latency: a series of one-byte downloads, each timed.

use crate::config::SpeedTestConfig;
use crate::failure::Failure;
use crate::request::{download_request, is_success, is_success_spec, Request};
use vstd::prelude::*;

verus! {

/// How long to wait between two probes.
pub const LATENCY_PAUSE_MS: u64 = 50;

/// What came of a probe.
#[derive(Clone, Copy, Debug, PartialEq, Eq, Structural)]
pub enum LatencyReply {
    /// An answer, and how long it took to come.
    Answered { status: u16, elapsed_ms: u64 },
    /// The request could not be sent, or no answer came.
    SendFailed,
}

/// What to do after a reply.
#[derive(Clone, Copy, Debug, PartialEq, Eq, Structural)]
pub enum Step {
    /// Count the probe as done, wait, and go on.
    Continue { pause_ms: u64 },
    /// Give up the whole test.
    Stop(Failure),
}

/// The state of a latency measurement.
pub struct LatencyModel {
    /// How many probes to make.
    pub tests: nat,
    /// How many probes were answered.
    pub done: nat,
    /// The times of the successful ones, in order.
    pub samples: Seq<u64>,
}

/// A latency measurement under way.
pub struct LatencyMeasurement {
    tests: usize,
    done: usize,
    samples: Vec<u64>,
}

impl View for LatencyMeasurement {
    type V = LatencyModel;

    closed spec fn view(&self) -> LatencyModel {
        LatencyModel { tests: self.tests as nat, done: self.done as nat, samples: self.samples@ }
    }
}

/// The state before the first probe.
pub open spec fn latency_start(tests: nat) -> LatencyModel {
    LatencyModel { tests, done: 0, samples: seq![] }
}

/// The state after a reply: an answer counts, and its time is kept if its status
/// is one of success; without an answer the measurement fails.
pub open spec fn latency_step(m: LatencyModel, reply: LatencyReply) -> Result<
    LatencyModel,
    Failure,
> {
    match reply {
        LatencyReply::Answered { status, elapsed_ms } => Ok(
            LatencyModel {
                tests: m.tests,
                done: m.done + 1,
                samples: if is_success_spec(status) {
                    m.samples.push(elapsed_ms)
                } else {
                    m.samples
                },
            },
        ),
        LatencyReply::SendFailed => Err(Failure::SendLatencyProbe),
    }
}

impl LatencyMeasurement {
    /// No more probes were answered than planned.
    #[verifier::type_invariant]
    spec fn counts_in_order(self) -> bool {
        self.done <= self.tests
    }

    /// Starts a measurement of as many probes as are configured.
    pub fn new(config: &SpeedTestConfig) -> (m: LatencyMeasurement)
        ensures
            m@ == latency_start(config.latency_tests as nat),
    {
        LatencyMeasurement { tests: config.latency_tests, done: 0, samples: Vec::new() }
    }

    /// The next probe, if one is left to make.
    pub fn next_request(&self) -> (r: Option<Request>)
        ensures
            match r {
                Some(request) => self@.done < self@.tests && request.asks_for(1),
                None => self@.done == self@.tests,
            },
    {
        proof {
            use_type_invariant(self);
        }
        if self.done < self.tests {
            Some(download_request(1))
        } else {
            None
        }
    }

    /// Takes the reply to a probe.
    pub fn on_reply(&mut self, reply: LatencyReply) -> (step: Step)
        requires
            old(self)@.done < old(self)@.tests,
        ensures
            match latency_step(old(self)@, reply) {
                Ok(next) => final(self)@ == next && step == (Step::Continue {
                    pause_ms: LATENCY_PAUSE_MS,
                }),
                Err(failure) => final(self)@ == old(self)@ && step == Step::Stop(failure),
            },
    {
        match reply {
            LatencyReply::Answered { status, elapsed_ms } => {
                if is_success(status) {
                    let mut samples: Vec<u64> = Vec::new();
                    std::mem::swap(&mut samples, &mut self.samples);
                    samples.push(elapsed_ms);
                    self.samples = samples;
                }
                self.done += 1;
                Step::Continue { pause_ms: LATENCY_PAUSE_MS }
            },
            LatencyReply::SendFailed => Step::Stop(Failure::SendLatencyProbe),
        }
    }

    /// The times of the successful probes, in order.
    pub fn into_samples(self) -> (samples: Vec<u64>)
        ensures
            samples@ == self@.samples,
    {
        self.samples
    }
}

/// The sum of the samples.
pub open spec fn total(samples: Seq<u64>) -> nat
    decreases samples.len(),
{
    if samples.len() == 0 {
        0
    } else {
        total(samples.drop_last()) + samples.last() as nat
    }
}

/// Adds up the samples.
pub fn total_ms(samples: &Vec<u64>) -> (sum: u128)
    ensures
        sum == total(samples@),
{
    let mut sum: u128 = 0;
    for i in 0..samples.len()
        invariant
            sum == total(samples@.take(i as int)),
            sum <= i * u64::MAX,
    {
        assert(samples@.take(i + 1).drop_last() == samples@.take(i as int));
        assert(i * u64::MAX + u64::MAX <= u128::MAX) by (nonlinear_arith)
            requires
                i < usize::MAX,
        ;
        sum = sum + samples[i] as u128;
        assert(i * u64::MAX + u64::MAX == (i + 1) * u64::MAX) by (nonlinear_arith);
    }
    assert(samples@.take(samples@.len() as int) == samples@);
    sum
}

/// The state after a series of replies, or the failure that ended it.
pub open spec fn latency_replay(m: LatencyModel, replies: Seq<LatencyReply>) -> Result<
    LatencyModel,
    Failure,
>
    decreases replies.len(),
{
    if replies.len() == 0 {
        Ok(m)
    } else {
        match latency_replay(m, replies.drop_last()) {
            Ok(next) => latency_step(next, replies.last()),
            Err(failure) => Err(failure),
        }
    }
}

/// The times of the successful replies, in order.
pub open spec fn successful_times(replies: Seq<LatencyReply>) -> Seq<u64>
    decreases replies.len(),
{
    if replies.len() == 0 {
        seq![]
    } else {
        let before = successful_times(replies.drop_last());
        match replies.last() {
            LatencyReply::Answered { status, elapsed_ms } => if is_success_spec(status) {
                before.push(elapsed_ms)
            } else {
                before
            },
            LatencyReply::SendFailed => before,
        }
    }
}

/// If every probe is answered, the measurement has counted them all and holds
/// exactly the times of the successful ones, in order.
pub proof fn latency_keeps_successful_times(tests: nat, replies: Seq<LatencyReply>)
    requires
        forall|i: int| 0 <= i < replies.len() ==> replies[i] is Answered,
    ensures
        latency_replay(latency_start(tests), replies) == Ok::<LatencyModel, Failure>(
            LatencyModel { tests, done: replies.len(), samples: successful_times(replies) },
        ),
        successful_times(replies).len() <= replies.len(),
    decreases replies.len(),
{
    if replies.len() > 0 {
        latency_keeps_successful_times(tests, replies.drop_last());
        assert(replies[replies.len() - 1] is Answered);
    }
}

/// One probe without an answer fails the measurement, whatever else came back.
pub proof fn latency_fails_on_lost_probe(tests: nat, replies: Seq<LatencyReply>, lost: int)
    requires
        0 <= lost < replies.len(),
        replies[lost] is SendFailed,
    ensures
        latency_replay(latency_start(tests), replies) == Err::<LatencyModel, Failure>(
            Failure::SendLatencyProbe,
        ),
    decreases replies.len(),
{
    lemma_latency_failure(tests, replies.drop_last());
    if lost < replies.len() - 1 {
        latency_fails_on_lost_probe(tests, replies.drop_last(), lost);
    }
}

/// The only way for the measurement to fail is a lost probe.
proof fn lemma_latency_failure(tests: nat, replies: Seq<LatencyReply>)
    ensures
        latency_replay(latency_start(tests), replies) matches Err(failure) ==> failure
            == Failure::SendLatencyProbe,
    decreases replies.len(),
{
    if replies.len() > 0 {
        lemma_latency_failure(tests, replies.drop_last());
    }
}

/// The samples of answered probes are the times of exactly the replies with a
/// status from 200 to 299, as they were measured and in their order; there are as
/// many of them as such replies.
pub proof fn samples_are_times_of_successes(tests: nat, replies: Seq<LatencyReply>)
    requires
        forall|i: int| 0 <= i < replies.len() ==> replies[i] is Answered,
    ensures
        latency_replay(latency_start(tests), replies) matches Ok(m) && m.tests == tests && m.done
            == replies.len() && m.samples == replies.filter(
            |r: LatencyReply| r is Answered && 200 <= r->status <= 299,
        ).map_values(|r: LatencyReply| r->elapsed_ms) && m.samples.len() == replies.filter(
            |r: LatencyReply| r is Answered && 200 <= r->status <= 299,
        ).len(),
    decreases replies.len(),
{
    reveal(Seq::filter);
    if replies.len() > 0 {
        assert(replies[replies.len() - 1] is Answered);
        samples_are_times_of_successes(tests, replies.drop_last());
    }
    let m = latency_replay(latency_start(tests), replies)->Ok_0;
    assert(m.samples =~= replies.filter(
        |r: LatencyReply| r is Answered && 200 <= r->status <= 299,
    ).map_values(|r: LatencyReply| r->elapsed_ms));
}

/// If every probe is successful, there is a sample for each, which is its time.
pub proof fn successful_probes_all_count(tests: nat, replies: Seq<LatencyReply>)
    requires
        forall|i: int|
            0 <= i < replies.len() ==> (#[trigger] replies[i] matches LatencyReply::Answered {
                status,
                ..
            } && 200 <= status <= 299),
    ensures
        latency_replay(latency_start(tests), replies) matches Ok(m) && m.samples.len()
            == replies.len() && (forall|i: int|
            0 <= i < replies.len() ==> #[trigger] m.samples[i] == replies[i]->elapsed_ms),
    decreases replies.len(),
{
    if replies.len() > 0 {
        let n = replies.len() - 1;
        assert(replies[n] is Answered);
        assert(forall|i: int| 0 <= i < n ==> #[trigger] replies.drop_last()[i] == replies[i]);
        successful_probes_all_count(tests, replies.drop_last());
        assert(replies.last() == replies[n]);
    }
}

/// The sum of one sample is that sample, and the sum of two lists together is the
/// sum of their sums.
pub proof fn total_adds_up(a: Seq<u64>, b: Seq<u64>, x: u64)
    ensures
        total(seq![x]) == x,
        total(a + b) == total(a) + total(b),
    decreases b.len(),
{
    assert(seq![x].drop_last() == Seq::<u64>::empty());
    assert(total(Seq::<u64>::empty()) == 0);
    if b.len() == 0 {
        assert(a + b == a);
    } else {
        total_adds_up(a, b.drop_last(), x);
        assert((a + b).drop_last() == a + b.drop_last());
    }
}

} // verus!
