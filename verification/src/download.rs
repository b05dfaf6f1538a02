//! Measuring download speed.

use crate::config::SpeedTestConfig;
use crate::double::Double;
use crate::failure::Failure;
use crate::request::{download_request, is_success, is_success_spec, Request};
use crate::transfer::{download_mode, mode_of, speeds_by_size, Outcome, TransferMode};
use std::collections::HashMap;
use vstd::prelude::*;

verus! {

broadcast use vstd::std_specs::hash::group_hash_axioms;

/// What happened to the transfer under way.
#[derive(Clone, Copy, Debug, PartialEq, Eq, Structural)]
pub enum DownloadEvent {
    /// The request could not be sent, or no answer came.
    SendFailed,
    /// An answer with this status came.
    Answered { status: u16 },
    /// The body of the answer could not be read.
    ReadFailed,
    /// The body was read, at this speed.
    Received { speed: Double },
}

/// What to do after an event.
#[derive(Clone, Copy, Debug, PartialEq, Eq, Structural)]
pub enum DownloadStep {
    /// Read the body of the answer.
    ReadBody,
    /// Count the transfer as done and go on.
    Next,
    /// Give up the whole test.
    Stop(Failure),
}

/// The state of a download measurement.
pub struct DownloadModel {
    /// The sizes to transfer.
    pub sizes: Seq<usize>,
    /// How many of them are dealt with.
    pub done: nat,
    /// Whether the body of the current one is being read.
    pub reading: bool,
    /// The speeds so far, by size.
    pub speeds: Map<usize, Double>,
}

/// A download measurement under way, one transfer after the other.
pub struct DownloadMeasurement {
    sizes: Vec<usize>,
    done: usize,
    reading: bool,
    speeds: HashMap<usize, Double>,
}

impl View for DownloadMeasurement {
    type V = DownloadModel;

    closed spec fn view(&self) -> DownloadModel {
        DownloadModel {
            sizes: self.sizes@,
            done: self.done as nat,
            reading: self.reading,
            speeds: self.speeds@,
        }
    }
}

/// The state before the first transfer.
pub open spec fn download_start(sizes: Seq<usize>) -> DownloadModel {
    DownloadModel { sizes, done: 0, reading: false, speeds: Map::empty() }
}

/// Whether an event can happen: a body is read only of an answer that was
/// successful, and a request is made only while sizes are left.
pub open spec fn download_expects(m: DownloadModel, event: DownloadEvent) -> bool {
    &&& m.done < m.sizes.len()
    &&& m.reading == (event is ReadFailed || event is Received)
}

/// The state after an event, or the failure that ends the measurement.
///
/// An answer without success is passed over. A request or a body that fails ends
/// the measurement. A body that was read adds a speed for the size asked for.
pub open spec fn download_step(m: DownloadModel, event: DownloadEvent) -> Result<
    DownloadModel,
    Failure,
> {
    match event {
        DownloadEvent::SendFailed => Err(Failure::SendDownload),
        DownloadEvent::Answered { status } => if is_success_spec(status) {
            Ok(DownloadModel { reading: true, ..m })
        } else {
            Ok(DownloadModel { done: m.done + 1, ..m })
        },
        DownloadEvent::ReadFailed => Err(Failure::ReadDownload),
        DownloadEvent::Received { speed } => Ok(
            DownloadModel {
                done: m.done + 1,
                reading: false,
                speeds: m.speeds.insert(m.sizes[m.done as int], speed),
                ..m
            },
        ),
    }
}

impl DownloadMeasurement {
    /// No more transfers are dealt with than planned.
    #[verifier::type_invariant]
    spec fn counts_in_order(self) -> bool {
        self.done <= self.sizes@.len()
    }

    /// Starts a measurement of the configured sizes.
    pub fn new(config: &SpeedTestConfig) -> (m: DownloadMeasurement)
        ensures
            m@ == download_start(config.download_bytes@),
    {
        let sizes = config.download_bytes.clone();
        assert(sizes@ == config.download_bytes@);
        DownloadMeasurement { sizes, done: 0, reading: false, speeds: HashMap::new() }
    }

    /// The next request and its size, if a size is left.
    pub fn next_request(&self) -> (r: Option<(usize, Request)>)
        requires
            !self@.reading,
        ensures
            match r {
                Some((size, request)) => self@.done < self@.sizes.len() && size
                    == self@.sizes[self@.done as int] && request.asks_for(size),
                None => self@.done == self@.sizes.len(),
            },
    {
        proof {
            use_type_invariant(self);
        }
        if self.done < self.sizes.len() {
            let size = self.sizes[self.done];
            Some((size, download_request(size)))
        } else {
            None
        }
    }

    /// Takes what happened to the transfer under way.
    pub fn on_event(&mut self, event: DownloadEvent) -> (step: DownloadStep)
        requires
            download_expects(old(self)@, event),
        ensures
            match download_step(old(self)@, event) {
                Ok(next) => final(self)@ == next && step == (if next.reading {
                    DownloadStep::ReadBody
                } else {
                    DownloadStep::Next
                }),
                Err(failure) => final(self)@ == old(self)@ && step == DownloadStep::Stop(failure),
            },
    {
        let planned = self.sizes.len();
        assert(self.done < planned);
        match event {
            DownloadEvent::SendFailed => DownloadStep::Stop(Failure::SendDownload),
            DownloadEvent::Answered { status } => {
                if is_success(status) {
                    self.reading = true;
                    DownloadStep::ReadBody
                } else {
                    self.done = self.done + 1;
                    DownloadStep::Next
                }
            },
            DownloadEvent::ReadFailed => DownloadStep::Stop(Failure::ReadDownload),
            DownloadEvent::Received { speed } => {
                let size = self.sizes[self.done];
                let mut speeds: HashMap<usize, Double> = HashMap::new();
                std::mem::swap(&mut speeds, &mut self.speeds);
                speeds.insert(size, speed);
                self.speeds = speeds;
                self.reading = false;
                self.done = self.done + 1;
                DownloadStep::Next
            },
        }
    }

    /// The speeds, by size.
    pub fn into_speeds(self) -> (speeds: HashMap<usize, Double>)
        ensures
            speeds@ == self@.speeds,
    {
        self.speeds
    }
}

/// How a download measurement begins.
pub enum DownloadStart {
    /// One transfer after the other.
    InTurn(DownloadMeasurement),
    /// Transfers of all these sizes at once.
    SideBySide(Vec<usize>),
}

/// Begins a measurement of the configured sizes, in the mode that the
/// configuration and the option for sequential downloads ask for.
pub fn start_downloads(config: &SpeedTestConfig, sequential_download: bool) -> (s: DownloadStart)
    ensures
        match s {
            DownloadStart::InTurn(m) => {
                &&& mode_of(config.single_threaded, sequential_download) == TransferMode::InTurn
                &&& m@ == download_start(config.download_bytes@)
            },
            DownloadStart::SideBySide(sizes) => {
                &&& mode_of(config.single_threaded, sequential_download)
                    == TransferMode::SideBySide
                &&& sizes@ == config.download_bytes@
            },
        },
{
    match download_mode(config, sequential_download) {
        TransferMode::InTurn => DownloadStart::InTurn(DownloadMeasurement::new(config)),
        TransferMode::SideBySide => {
            let sizes = config.download_bytes.clone();
            assert(sizes@ == config.download_bytes@);
            DownloadStart::SideBySide(sizes)
        },
    }
}

/// The state after a series of events, or the failure that ended it.
pub open spec fn download_replay(m: DownloadModel, events: Seq<DownloadEvent>) -> Result<
    DownloadModel,
    Failure,
>
    decreases events.len(),
{
    if events.len() == 0 {
        Ok(m)
    } else {
        match download_replay(m, events.drop_last()) {
            Ok(next) => download_step(next, events.last()),
            Err(failure) => Err(failure),
        }
    }
}

/// Whether each event of a series can happen when it does.
pub open spec fn download_plausible(m: DownloadModel, events: Seq<DownloadEvent>) -> bool
    decreases events.len(),
{
    events.len() == 0 || {
        &&& download_plausible(m, events.drop_last())
        &&& match download_replay(m, events.drop_last()) {
            Ok(next) => download_expects(next, events.last()),
            Err(failure) => false,
        }
    }
}

/// Whether an event is the last of its transfer: the body was read, or the
/// answer was not one of success.
pub open spec fn completes(event: DownloadEvent) -> bool {
    match event {
        DownloadEvent::Answered { status } => !is_success_spec(status),
        DownloadEvent::Received { .. } => true,
        _ => false,
    }
}

/// The events of transfers that are all answered: the answer and, if its status
/// is one of success, the body.
pub open spec fn all_answered(statuses: Seq<u16>, speeds: Seq<Double>) -> Seq<DownloadEvent>
    decreases speeds.len(),
{
    if speeds.len() == 0 {
        seq![]
    } else {
        let answered = all_answered(statuses.drop_last(), speeds.drop_last()).push(
            DownloadEvent::Answered { status: statuses.last() },
        );
        if is_success_spec(statuses.last()) {
            answered.push(DownloadEvent::Received { speed: speeds.last() })
        } else {
            answered
        }
    }
}

/// Whether outcomes are those of transfers with these answers: completed at the
/// given speed if the status is one of success, else not completed.
pub open spec fn outcomes_match(
    sizes: Seq<usize>,
    statuses: Seq<u16>,
    speeds: Seq<Double>,
    outcomes: Seq<Outcome>,
) -> bool {
    &&& statuses.len() == outcomes.len()
    &&& speeds.len() == outcomes.len()
    &&& forall|i: int|
        0 <= i < outcomes.len() ==> if is_success_spec(statuses[i]) {
            #[trigger] outcomes[i] == (Outcome::Completed { size: sizes[i], speed: speeds[i] })
        } else {
            !(outcomes[i] is Completed)
        }
}

/// Speeds are only recorded for sizes that were asked for, no more transfers are
/// dealt with than planned, and the plan stays as it was.
pub proof fn download_speeds_are_of_planned_sizes(sizes: Seq<usize>, events: Seq<DownloadEvent>)
    requires
        download_plausible(download_start(sizes), events),
    ensures
        match download_replay(download_start(sizes), events) {
            Ok(m) => {
                &&& m.sizes == sizes
                &&& m.done <= sizes.len()
                &&& m.reading ==> m.done < sizes.len()
                &&& forall|size: usize| m.speeds.contains_key(size) ==> sizes.contains(size)
            },
            Err(failure) => failure == Failure::SendDownload || failure == Failure::ReadDownload,
        },
    decreases events.len(),
{
    if events.len() > 0 {
        download_speeds_are_of_planned_sizes(sizes, events.drop_last());
    }
}

/// A request or a body that fails ends the measurement with its failure: nothing
/// can happen after it.
pub proof fn download_ends_with_failure(sizes: Seq<usize>, events: Seq<DownloadEvent>, at: int)
    requires
        download_plausible(download_start(sizes), events),
        0 <= at < events.len(),
        events[at] is SendFailed || events[at] is ReadFailed,
    ensures
        at == events.len() - 1,
        download_replay(download_start(sizes), events) == Err::<DownloadModel, Failure>(
            if events[at] is SendFailed {
                Failure::SendDownload
            } else {
                Failure::ReadDownload
            },
        ),
    decreases events.len(),
{
    if at < events.len() - 1 {
        download_ends_with_failure(sizes, events.drop_last(), at);
    }
}

/// Transfers that run in turn wait for each other: the number of transfers dealt
/// with, which is the place of the next one to be requested, is the number of
/// those that were completed.
pub proof fn download_waits_for_completion(sizes: Seq<usize>, events: Seq<DownloadEvent>)
    requires
        download_plausible(download_start(sizes), events),
    ensures
        download_replay(download_start(sizes), events) matches Ok(m) ==> m.done == events.filter(
            |e: DownloadEvent| completes(e),
        ).len(),
    decreases events.len(),
{
    reveal(Seq::filter);
    if events.len() > 0 {
        download_waits_for_completion(sizes, events.drop_last());
    }
}

/// If every request is answered and every body of a successful answer is read,
/// it makes no difference to the speeds whether the transfers ran one after the
/// other or side by side.
pub proof fn download_modes_agree(
    sizes: Seq<usize>,
    statuses: Seq<u16>,
    speeds: Seq<Double>,
    outcomes: Seq<Outcome>,
)
    requires
        outcomes_match(sizes, statuses, speeds, outcomes),
        outcomes.len() <= sizes.len(),
    ensures
        download_plausible(download_start(sizes), all_answered(statuses, speeds)),
        download_replay(download_start(sizes), all_answered(statuses, speeds)) == Ok::<
            DownloadModel,
            Failure,
        >(
            DownloadModel {
                sizes,
                done: outcomes.len(),
                reading: false,
                speeds: speeds_by_size(outcomes),
            },
        ),
    decreases outcomes.len(),
{
    if outcomes.len() > 0 {
        let n = outcomes.len() - 1;
        let earlier = outcomes.drop_last();
        assert(forall|i: int| 0 <= i < n ==> #[trigger] earlier[i] == outcomes[i]);
        download_modes_agree(sizes, statuses.drop_last(), speeds.drop_last(), earlier);
        let before = all_answered(statuses.drop_last(), speeds.drop_last());
        let answered = before.push(DownloadEvent::Answered { status: statuses.last() });
        let events = all_answered(statuses, speeds);
        let m = download_start(sizes);
        assert(answered.drop_last() == before);
        assert(outcomes[n] == outcomes.last());
        assert(download_plausible(m, answered));
        if is_success_spec(statuses.last()) {
            assert(events.drop_last() == answered);
            assert(download_replay(m, answered) is Ok);
        }
    }
}

/// How many of the first `n` events were the last of their transfer: a body that
/// was read, or an answer with a status outside 200 to 299.
pub open spec fn transfers_ended(events: Seq<DownloadEvent>, n: int) -> nat {
    events.take(n).filter(
        |e: DownloadEvent| e is Received || e is Answered && !(200 <= e->status <= 299),
    ).len()
}

/// Whether the event at `e` is a body that was read, of a transfer of `size`: the
/// size asked for after as many as had ended before it.
pub open spec fn received_at(
    sizes: Seq<usize>,
    events: Seq<DownloadEvent>,
    e: int,
    size: usize,
) -> bool {
    &&& 0 <= e < events.len()
    &&& events[e] is Received
    &&& sizes[transfers_ended(events, e) as int] == size
}

proof fn lemma_transfers_ended(events: Seq<DownloadEvent>)
    requires
        events.len() > 0,
    ensures
        transfers_ended(events, events.len() as int) == transfers_ended(
            events.drop_last(),
            events.len() - 1,
        ) + (if events.last() is Received || events.last() is Answered && !(200
            <= events.last()->status <= 299) {
            1nat
        } else {
            0nat
        }),
        forall|n: int|
            0 <= n < events.len() ==> #[trigger] transfers_ended(events, n) == transfers_ended(
                events.drop_last(),
                n,
            ),
{
    reveal(Seq::filter);
    let n = events.len() as int;
    assert(events.take(n) == events);
    assert(events.drop_last().take(n - 1) == events.drop_last());
    assert forall|k: int| 0 <= k < events.len() implies #[trigger] transfers_ended(events, k)
        == transfers_ended(events.drop_last(), k) by {
        assert(events.take(k) == events.drop_last().take(k));
    }
}

/// A size is in the speeds if and only if a body of it was read, and its speed is
/// that of the last such body, as it was measured. As many transfers are dealt
/// with as have ended.
pub proof fn received_downloads_are_recorded(sizes: Seq<usize>, events: Seq<DownloadEvent>)
    requires
        download_plausible(download_start(sizes), events),
    ensures
        download_replay(download_start(sizes), events) matches Ok(m) ==> {
            &&& m.sizes == sizes
            &&& m.done == transfers_ended(events, events.len() as int)
            &&& forall|size: usize|
                #[trigger] m.speeds.contains_key(size) <==> exists|e: int| #[trigger]
                    received_at(sizes, events, e, size)
            &&& forall|e: int, size: usize|
                #[trigger] received_at(sizes, events, e, size) && (forall|f: int|
                    e < f ==> !#[trigger] received_at(sizes, events, f, size))
                    ==> m.speeds[size] == events[e]->speed
        },
    decreases events.len(),
{
    if events.len() == 0 {
        reveal(Seq::filter);
        assert(events.take(0) == events);
    } else {
        let n = events.len() - 1;
        let before = events.drop_last();
        received_downloads_are_recorded(sizes, before);
        lemma_transfers_ended(events);
        assert(events[n] == events.last());
        assert(forall|i: int| 0 <= i < n ==> #[trigger] before[i] == events[i]);
        let prior = download_replay(download_start(sizes), before)->Ok_0;
        assert forall|e: int, size: usize| #[trigger]
            received_at(sizes, before, e, size) implies received_at(sizes, events, e, size) by {
            assert(before[e] == events[e]);
        }
        assert forall|e: int, size: usize| #[trigger]
            received_at(sizes, events, e, size) && e < n implies received_at(
            sizes,
            before,
            e,
            size,
        ) by {
            assert(before[e] == events[e]);
        }
        if let Ok(m) = download_replay(download_start(sizes), events) {
            let current = sizes[prior.done as int];
            assert(transfers_ended(events, n) == prior.done);
            if events.last() is Received {
                assert(received_at(sizes, events, n, current));
                assert(m.speeds == prior.speeds.insert(current, events[n]->speed));
            } else {
                assert(m.speeds == prior.speeds);
            }
            assert forall|size: usize|
                #[trigger] m.speeds.contains_key(size) <==> exists|e: int| #[trigger]
                    received_at(sizes, events, e, size) by {
                if prior.speeds.contains_key(size) {
                    let e = choose|e: int| received_at(sizes, before, e, size);
                    assert(received_at(sizes, events, e, size));
                }
                if exists|e: int| #[trigger] received_at(sizes, events, e, size) {
                    let e = choose|e: int| received_at(sizes, events, e, size);
                    if e < n {
                        assert(received_at(sizes, before, e, size));
                    }
                }
            }
            assert forall|e: int, size: usize|
                #[trigger] received_at(sizes, events, e, size) && (forall|f: int|
                    e < f ==> !#[trigger] received_at(sizes, events, f, size)) implies m.speeds[size]
                == events[e]->speed by {
                if e < n {
                    assert(received_at(sizes, before, e, size));
                    assert(!received_at(sizes, events, n, size));
                    assert forall|f: int| e < f implies !#[trigger] received_at(
                        sizes,
                        before,
                        f,
                        size,
                    ) by {
                        if received_at(sizes, before, f, size) {
                            assert(received_at(sizes, events, f, size));
                        }
                    }
                    assert(prior.speeds[size] == events[e]->speed);
                }
            }
        }
    }
}

/// A body is read of exactly the answers with a status from 200 to 299; any other
/// answer only moves the measurement on. Reading it records its speed for the
/// size under way and leaves all other speeds as they were.
pub proof fn one_transfer_at_a_time(m: DownloadModel, status: u16, speed: Double, other: usize)
    ensures
        download_step(m, DownloadEvent::Answered { status }) matches Ok(n) && n.sizes == m.sizes
            && n.speeds == m.speeds && (if 200 <= status <= 299 {
            n.reading && n.done == m.done
        } else {
            n.reading == m.reading && n.done == m.done + 1
        }),
        download_step(m, DownloadEvent::Received { speed }) matches Ok(n) && n.sizes == m.sizes
            && !n.reading && n.done == m.done + 1 && n.speeds.contains_key(m.sizes[m.done as int])
            && n.speeds[m.sizes[m.done as int]] == speed && (other != m.sizes[m.done as int] ==> (
        n.speeds.contains_key(other) <==> m.speeds.contains_key(other)) && n.speeds[other]
            == m.speeds[other]),
{
}

} // verus!
