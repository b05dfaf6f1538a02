//! Measuring packet loss: a series of one-byte downloads, of which the failed
//! ones are counted.

use crate::config::SpeedTestConfig;
use crate::request::{download_request, is_success, is_success_spec, Request};
use vstd::prelude::*;

verus! {

/// How long to wait between two probes.
pub const PACKET_LOSS_PAUSE_MS: u64 = 20;

/// What came of a probe.
#[derive(Clone, Copy, Debug, PartialEq, Eq, Structural)]
pub enum LossReply {
    /// An answer with this status.
    Answered { status: u16 },
    /// The request could not be sent, or no answer came.
    SendFailed,
}

/// Whether a reply counts as a loss: no answer, or one without success.
pub open spec fn is_loss(reply: LossReply) -> bool {
    match reply {
        LossReply::Answered { status } => !is_success_spec(status),
        LossReply::SendFailed => true,
    }
}

/// The state of a packet loss measurement.
pub struct LossModel {
    /// How many probes to make.
    pub tests: nat,
    /// How many probes were made.
    pub done: nat,
    /// How many of them were lost.
    pub failed: nat,
}

/// A packet loss measurement under way.
pub struct LossMeasurement {
    tests: usize,
    done: usize,
    failed: usize,
}

impl View for LossMeasurement {
    type V = LossModel;

    closed spec fn view(&self) -> LossModel {
        LossModel { tests: self.tests as nat, done: self.done as nat, failed: self.failed as nat }
    }
}

/// The state before the first probe.
pub open spec fn loss_start(tests: nat) -> LossModel {
    LossModel { tests, done: 0, failed: 0 }
}

/// The state after a reply.
pub open spec fn loss_step(m: LossModel, reply: LossReply) -> LossModel {
    LossModel {
        tests: m.tests,
        done: m.done + 1,
        failed: if is_loss(reply) {
            m.failed + 1
        } else {
            m.failed
        },
    }
}

impl LossMeasurement {
    /// No more probes were made than planned, and no more lost than made.
    #[verifier::type_invariant]
    spec fn counts_in_order(self) -> bool {
        self.failed <= self.done <= self.tests
    }

    /// Starts a measurement of as many probes as are configured.
    pub fn new(config: &SpeedTestConfig) -> (m: LossMeasurement)
        ensures
            m@ == loss_start(config.packet_loss_tests as nat),
    {
        LossMeasurement { tests: config.packet_loss_tests, done: 0, failed: 0 }
    }

    /// The next probe, if one is left to make.
    pub fn next_request(&self) -> (r: Option<Request>)
        ensures
            match r {
                Some(request) => self@.done < self@.tests && request.asks_for(1),
                None => self@.done == self@.tests,
            },
    {
        proof {
            use_type_invariant(self);
        }
        if self.done < self.tests {
            Some(download_request(1))
        } else {
            None
        }
    }

    /// Takes the reply to a probe and says how long to wait before the next.
    pub fn on_reply(&mut self, reply: LossReply) -> (pause_ms: u64)
        requires
            old(self)@.done < old(self)@.tests,
        ensures
            final(self)@ == loss_step(old(self)@, reply),
            pause_ms == PACKET_LOSS_PAUSE_MS,
    {
        proof {
            use_type_invariant(&*self);
        }
        let lost = match reply {
            LossReply::Answered { status } => !is_success(status),
            LossReply::SendFailed => true,
        };
        self.done = self.done + 1;
        if lost {
            self.failed = self.failed + 1;
        }
        PACKET_LOSS_PAUSE_MS
    }

    /// How many probes were lost, of how many planned.
    pub fn counts(&self) -> (c: (usize, usize))
        ensures
            c.0 == self@.failed,
            c.1 == self@.tests,
            c.0 <= c.1,
    {
        proof {
            use_type_invariant(self);
        }
        (self.failed, self.tests)
    }
}

/// The state after a series of replies.
pub open spec fn loss_replay(m: LossModel, replies: Seq<LossReply>) -> LossModel
    decreases replies.len(),
{
    if replies.len() == 0 {
        m
    } else {
        loss_step(loss_replay(m, replies.drop_last()), replies.last())
    }
}

/// After any series of replies the measurement has counted exactly the losses
/// among them.
pub proof fn loss_counts_lost_replies(tests: nat, replies: Seq<LossReply>)
    ensures
        loss_replay(loss_start(tests), replies) == (LossModel {
            tests,
            done: replies.len(),
            failed: replies.filter(|r: LossReply| is_loss(r)).len(),
        }),
        replies.filter(|r: LossReply| is_loss(r)).len() <= replies.len(),
    decreases replies.len(),
{
    reveal(Seq::filter);
    if replies.len() > 0 {
        loss_counts_lost_replies(tests, replies.drop_last());
    }
}

/// The losses among the replies are exactly those without an answer with a status
/// from 200 to 299.
pub proof fn losses_are_replies_without_success(tests: nat, replies: Seq<LossReply>)
    ensures
        loss_replay(loss_start(tests), replies) == (LossModel {
            tests,
            done: replies.len(),
            failed: (replies.len() - replies.filter(
                |r: LossReply| r is Answered && 200 <= r->status <= 299,
            ).len()) as nat,
        }),
        replies.filter(|r: LossReply| r is Answered && 200 <= r->status <= 299).len()
            <= replies.len(),
    decreases replies.len(),
{
    reveal(Seq::filter);
    if replies.len() > 0 {
        losses_are_replies_without_success(tests, replies.drop_last());
    }
}

} // verus!
