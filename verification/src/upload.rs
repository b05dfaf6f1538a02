//! Measuring upload speed.

use crate::config::SpeedTestConfig;
use crate::double::Double;
use crate::failure::Failure;
use crate::request::{is_success, is_success_spec, random_upload_request, Request};
use crate::transfer::{mode_of, speeds_in_order, upload_mode, Outcome, TransferMode};
use vstd::prelude::*;

verus! {

/// What came of an upload.
#[derive(Clone, Copy, Debug, PartialEq, Eq, Structural)]
pub enum UploadReply {
    /// An answer with this status, and the speed at which it was reached.
    Answered { status: u16, speed: Double },
    /// The request could not be sent, or no answer came.
    SendFailed,
}

/// What to do after a reply.
#[derive(Clone, Copy, Debug, PartialEq, Eq, Structural)]
pub enum UploadStep {
    /// Count the transfer as done and go on.
    Next,
    /// Give up the whole test.
    Stop(Failure),
}

/// The state of an upload measurement.
pub struct UploadModel {
    /// The sizes to transfer.
    pub sizes: Seq<usize>,
    /// How many of them are dealt with.
    pub done: nat,
    /// The speeds of the successful ones, in order.
    pub speeds: Seq<Double>,
}

/// An upload measurement under way, one transfer after the other.
pub struct UploadMeasurement {
    sizes: Vec<usize>,
    done: usize,
    speeds: Vec<Double>,
}

impl View for UploadMeasurement {
    type V = UploadModel;

    closed spec fn view(&self) -> UploadModel {
        UploadModel { sizes: self.sizes@, done: self.done as nat, speeds: self.speeds@ }
    }
}

/// The state before the first transfer.
pub open spec fn upload_start(sizes: Seq<usize>) -> UploadModel {
    UploadModel { sizes, done: 0, speeds: seq![] }
}

/// The state after a reply: an answer counts, and its speed is kept if its
/// status is one of success; without an answer the measurement fails.
pub open spec fn upload_step(m: UploadModel, reply: UploadReply) -> Result<UploadModel, Failure> {
    match reply {
        UploadReply::Answered { status, speed } => Ok(
            UploadModel {
                done: m.done + 1,
                speeds: if is_success_spec(status) {
                    m.speeds.push(speed)
                } else {
                    m.speeds
                },
                ..m
            },
        ),
        UploadReply::SendFailed => Err(Failure::SendUpload),
    }
}

impl UploadMeasurement {
    /// No more transfers are dealt with than planned.
    #[verifier::type_invariant]
    spec fn counts_in_order(self) -> bool {
        self.done <= self.sizes@.len()
    }

    /// Starts a measurement of the configured sizes.
    pub fn new(config: &SpeedTestConfig) -> (m: UploadMeasurement)
        ensures
            m@ == upload_start(config.upload_bytes@),
    {
        let sizes = config.upload_bytes.clone();
        assert(sizes@ == config.upload_bytes@);
        UploadMeasurement { sizes, done: 0, speeds: Vec::new() }
    }

    /// The size of the next transfer, if one is left.
    pub fn next_size(&self) -> (size: Option<usize>)
        ensures
            size == (if self@.done < self@.sizes.len() {
                Some(self@.sizes[self@.done as int])
            } else {
                None
            }),
            size is None ==> self@.done == self@.sizes.len(),
    {
        proof {
            use_type_invariant(self);
        }
        if self.done < self.sizes.len() {
            Some(self.sizes[self.done])
        } else {
            None
        }
    }

    /// The next request and its size, if a size is left. The size must be one
    /// that a vector of bytes can have.
    pub fn next_request(&self) -> (r: Option<(usize, Request)>)
        requires
            self@.done < self@.sizes.len() ==> self@.sizes[self@.done as int] <= isize::MAX,
        ensures
            match r {
                Some((size, request)) => self@.done < self@.sizes.len() && size
                    == self@.sizes[self@.done as int] && request.sends(size),
                None => self@.done == self@.sizes.len(),
            },
    {
        match self.next_size() {
            Some(size) => Some((size, random_upload_request(size))),
            None => None,
        }
    }

    /// Takes the reply to the transfer under way.
    pub fn on_reply(&mut self, reply: UploadReply) -> (step: UploadStep)
        requires
            old(self)@.done < old(self)@.sizes.len(),
        ensures
            match upload_step(old(self)@, reply) {
                Ok(next) => final(self)@ == next && step == UploadStep::Next,
                Err(failure) => final(self)@ == old(self)@ && step == UploadStep::Stop(failure),
            },
    {
        let planned = self.sizes.len();
        assert(self.done < planned);
        match reply {
            UploadReply::Answered { status, speed } => {
                if is_success(status) {
                    let mut speeds: Vec<Double> = Vec::new();
                    std::mem::swap(&mut speeds, &mut self.speeds);
                    speeds.push(speed);
                    self.speeds = speeds;
                }
                self.done = self.done + 1;
                UploadStep::Next
            },
            UploadReply::SendFailed => UploadStep::Stop(Failure::SendUpload),
        }
    }

    /// The speeds of the successful transfers, in order.
    pub fn into_speeds(self) -> (speeds: Vec<Double>)
        ensures
            speeds@ == self@.speeds,
    {
        self.speeds
    }
}

/// How an upload measurement begins.
pub enum UploadStart {
    /// One transfer after the other.
    InTurn(UploadMeasurement),
    /// Transfers of all these sizes at once.
    SideBySide(Vec<usize>),
}

/// Begins a measurement of the configured sizes, in the mode that the
/// configuration and the option for sequential uploads ask for.
pub fn start_uploads(config: &SpeedTestConfig, sequential_upload: bool) -> (s: UploadStart)
    ensures
        match s {
            UploadStart::InTurn(m) => {
                &&& mode_of(config.single_threaded, sequential_upload) == TransferMode::InTurn
                &&& m@ == upload_start(config.upload_bytes@)
            },
            UploadStart::SideBySide(sizes) => {
                &&& mode_of(config.single_threaded, sequential_upload) == TransferMode::SideBySide
                &&& sizes@ == config.upload_bytes@
            },
        },
{
    match upload_mode(config, sequential_upload) {
        TransferMode::InTurn => UploadStart::InTurn(UploadMeasurement::new(config)),
        TransferMode::SideBySide => {
            let sizes = config.upload_bytes.clone();
            assert(sizes@ == config.upload_bytes@);
            UploadStart::SideBySide(sizes)
        },
    }
}

/// The state after a series of replies, or the failure that ended it.
pub open spec fn upload_replay(m: UploadModel, replies: Seq<UploadReply>) -> Result<
    UploadModel,
    Failure,
>
    decreases replies.len(),
{
    if replies.len() == 0 {
        Ok(m)
    } else {
        match upload_replay(m, replies.drop_last()) {
            Ok(next) => upload_step(next, replies.last()),
            Err(failure) => Err(failure),
        }
    }
}

/// Whether outcomes are those of the uploads if they had run side by side:
/// completed if the answer was one of success, else not completed.
pub open spec fn matching(replies: Seq<UploadReply>, outcomes: Seq<Outcome>) -> bool {
    &&& replies.len() == outcomes.len()
    &&& forall|i: int|
        0 <= i < replies.len() ==> match #[trigger] replies[i] {
            UploadReply::Answered { status, speed } => if is_success_spec(status) {
                outcomes[i] matches Outcome::Completed { size, speed: s } && s == speed
            } else {
                !(outcomes[i] is Completed)
            },
            UploadReply::SendFailed => false,
        }
}

/// If every upload is answered, it makes no difference to the speeds whether
/// they ran one after the other or side by side.
pub proof fn upload_modes_agree(
    sizes: Seq<usize>,
    replies: Seq<UploadReply>,
    outcomes: Seq<Outcome>,
)
    requires
        matching(replies, outcomes),
    ensures
        upload_replay(upload_start(sizes), replies) == Ok::<UploadModel, Failure>(
            UploadModel { sizes, done: replies.len(), speeds: speeds_in_order(outcomes) },
        ),
        speeds_in_order(outcomes).len() <= replies.len(),
    decreases replies.len(),
{
    if replies.len() > 0 {
        let n = replies.len() - 1;
        assert(forall|i: int| 0 <= i < n ==> #[trigger] replies.drop_last()[i] == replies[i]);
        upload_modes_agree(sizes, replies.drop_last(), outcomes.drop_last());
        assert(replies[n] == replies.last());
    }
}

/// Transfers that run in turn wait for each other: the number of transfers dealt
/// with, which is the place of the next one to be requested, is the number of
/// replies.
pub proof fn upload_waits_for_completion(sizes: Seq<usize>, replies: Seq<UploadReply>)
    ensures
        upload_replay(upload_start(sizes), replies) matches Ok(m) ==> m.done == replies.len()
            && m.sizes == sizes,
    decreases replies.len(),
{
    if replies.len() > 0 {
        upload_waits_for_completion(sizes, replies.drop_last());
    }
}

/// One upload without an answer fails the measurement when they run one after
/// the other, whatever else came back.
pub proof fn upload_fails_on_lost_request(sizes: Seq<usize>, replies: Seq<UploadReply>, lost: int)
    requires
        0 <= lost < replies.len(),
        replies[lost] is SendFailed,
    ensures
        upload_replay(upload_start(sizes), replies) == Err::<UploadModel, Failure>(
            Failure::SendUpload,
        ),
    decreases replies.len(),
{
    lemma_upload_failure(sizes, replies.drop_last());
    if lost < replies.len() - 1 {
        upload_fails_on_lost_request(sizes, replies.drop_last(), lost);
    }
}

/// The only way for a sequential measurement to fail is a lost request.
proof fn lemma_upload_failure(sizes: Seq<usize>, replies: Seq<UploadReply>)
    ensures
        upload_replay(upload_start(sizes), replies) matches Err(failure) ==> failure
            == Failure::SendUpload,
    decreases replies.len(),
{
    if replies.len() > 0 {
        lemma_upload_failure(sizes, replies.drop_last());
    }
}

/// The speeds after answered uploads are those of exactly the replies with a
/// status from 200 to 299, as they were measured and in their order.
pub proof fn upload_speeds_are_of_successes(sizes: Seq<usize>, replies: Seq<UploadReply>)
    requires
        forall|i: int| 0 <= i < replies.len() ==> replies[i] is Answered,
    ensures
        upload_replay(upload_start(sizes), replies) matches Ok(m) && m.sizes == sizes && m.done
            == replies.len() && m.speeds == replies.filter(
            |r: UploadReply| r is Answered && 200 <= r->status <= 299,
        ).map_values(|r: UploadReply| r->speed),
    decreases replies.len(),
{
    reveal(Seq::filter);
    if replies.len() > 0 {
        assert(replies[replies.len() - 1] is Answered);
        upload_speeds_are_of_successes(sizes, replies.drop_last());
    }
    let m = upload_replay(upload_start(sizes), replies)->Ok_0;
    assert(m.speeds =~= replies.filter(
        |r: UploadReply| r is Answered && 200 <= r->status <= 299,
    ).map_values(|r: UploadReply| r->speed));
}

} // verus!
