//! Transfers that run side by side, and what is collected from them.

use crate::config::SpeedTestConfig;
use crate::double::Double;
use crate::download::DownloadEvent;
use crate::failure::Failure;
use crate::request::{is_success, is_success_spec};
use crate::text;
use crate::upload::UploadReply;
use std::collections::HashMap;
use vstd::prelude::*;

verus! {

broadcast use vstd::std_specs::hash::group_hash_axioms;

/// The direction of a transfer.
#[derive(Clone, Copy, Debug, PartialEq, Eq, Structural)]
pub enum Direction {
    Download,
    Upload,
}

/// How the transfers of one direction run.
#[derive(Clone, Copy, Debug, PartialEq, Eq, Structural)]
pub enum TransferMode {
    /// One after the other: each begins when the one before it is dealt with.
    InTurn,
    /// All at once.
    SideBySide,
}

/// The mode of transfers: in turn if the whole test is single-threaded or if
/// this direction was asked to be sequential.
pub open spec fn mode_of(single_threaded: bool, sequential: bool) -> TransferMode {
    if single_threaded || sequential {
        TransferMode::InTurn
    } else {
        TransferMode::SideBySide
    }
}

/// How the downloads of a test run.
pub fn download_mode(config: &SpeedTestConfig, sequential_download: bool) -> (m: TransferMode)
    ensures
        m == mode_of(config.single_threaded, sequential_download),
        m == TransferMode::InTurn <==> (config.single_threaded || sequential_download),
{
    if config.single_threaded || sequential_download {
        TransferMode::InTurn
    } else {
        TransferMode::SideBySide
    }
}

/// How the uploads of a test run.
pub fn upload_mode(config: &SpeedTestConfig, sequential_upload: bool) -> (m: TransferMode)
    ensures
        m == mode_of(config.single_threaded, sequential_upload),
        m == TransferMode::InTurn <==> (config.single_threaded || sequential_upload),
{
    if config.single_threaded || sequential_upload {
        TransferMode::InTurn
    } else {
        TransferMode::SideBySide
    }
}

/// What came of one of several transfers that ran side by side.
#[derive(Debug)]
pub enum Outcome {
    /// `size` bytes went through at this speed.
    Completed { size: usize, speed: Double },
    /// The transfer ended in an error with this description.
    Failed { reason: String },
    /// The task that ran the transfer ended abnormally, as described.
    Crashed { reason: String },
}

/// How a refused request is described, before its status.
pub open spec fn refusal_prefix(direction: Direction) -> Seq<char> {
    match direction {
        Direction::Download => "Download request failed with status: "@,
        Direction::Upload => "Upload request failed with status: "@,
    }
}

/// How a failed transfer is reported, before its description.
pub open spec fn failure_prefix(direction: Direction) -> Seq<char> {
    match direction {
        Direction::Download => "Download failed: "@,
        Direction::Upload => "Upload failed: "@,
    }
}

/// The description of a request that was answered with `status`, if that is not
/// one of success.
pub fn refusal(direction: Direction, status: u16, status_text: &str) -> (r: Option<String>)
    ensures
        match r {
            Some(reason) => !is_success_spec(status) && reason@ == refusal_prefix(direction)
                + status_text@,
            None => is_success_spec(status),
        },
{
    if is_success(status) {
        None
    } else {
        let prefix = match direction {
            Direction::Download => "Download request failed with status: ",
            Direction::Upload => "Upload request failed with status: ",
        };
        Some(text::join(prefix, status_text))
    }
}

/// What an event makes of a download of `size` bytes that runs beside others;
/// none if the body is still to be read. `status_text` describes the status of
/// the answer.
pub fn download_outcome(size: usize, event: DownloadEvent, status_text: &str) -> (o: Option<
    Outcome,
>)
    ensures
        match event {
            DownloadEvent::SendFailed => o matches Some(Outcome::Failed { reason }) && reason@
                == Failure::SendDownload.wording(),
            DownloadEvent::Answered { status } => if is_success_spec(status) {
                o is None
            } else {
                o matches Some(Outcome::Failed { reason }) && reason@ == refusal_prefix(
                    Direction::Download,
                ) + status_text@
            },
            DownloadEvent::ReadFailed => o matches Some(Outcome::Failed { reason }) && reason@
                == Failure::ReadDownload.wording(),
            DownloadEvent::Received { speed } => o == Some(Outcome::Completed { size, speed }),
        },
{
    match event {
        DownloadEvent::SendFailed => Some(
            Outcome::Failed { reason: Failure::SendDownload.message().to_string() },
        ),
        DownloadEvent::Answered { status } => {
            match refusal(Direction::Download, status, status_text) {
                Some(reason) => Some(Outcome::Failed { reason }),
                None => None,
            }
        },
        DownloadEvent::ReadFailed => Some(
            Outcome::Failed { reason: Failure::ReadDownload.message().to_string() },
        ),
        DownloadEvent::Received { speed } => Some(Outcome::Completed { size, speed }),
    }
}

/// What a reply makes of an upload of `size` bytes that runs beside others.
/// `status_text` describes the status of the answer.
pub fn upload_outcome(size: usize, reply: UploadReply, status_text: &str) -> (o: Outcome)
    ensures
        match reply {
            UploadReply::SendFailed => o matches Outcome::Failed { reason } && reason@
                == Failure::SendUpload.wording(),
            UploadReply::Answered { status, speed } => if is_success_spec(status) {
                o == (Outcome::Completed { size, speed })
            } else {
                o matches Outcome::Failed { reason } && reason@ == refusal_prefix(
                    Direction::Upload,
                ) + status_text@
            },
        },
{
    match reply {
        UploadReply::SendFailed => Outcome::Failed {
            reason: Failure::SendUpload.message().to_string(),
        },
        UploadReply::Answered { status, speed } => {
            match refusal(Direction::Upload, status, status_text) {
                Some(reason) => Outcome::Failed { reason },
                None => Outcome::Completed { size, speed },
            }
        },
    }
}

/// What is reported of an outcome: nothing if it completed.
pub open spec fn notice_of(direction: Direction, outcome: Outcome) -> Option<Seq<char>> {
    match outcome {
        Outcome::Completed { .. } => None,
        Outcome::Failed { reason } => Some(failure_prefix(direction) + reason@),
        Outcome::Crashed { reason } => Some("Task failed: "@ + reason@),
    }
}

/// The report on an outcome, if there is one.
pub fn notice(direction: Direction, outcome: &Outcome) -> (n: Option<String>)
    ensures
        match n {
            Some(t) => notice_of(direction, *outcome) == Some(t@),
            None => notice_of(direction, *outcome) is None,
        },
{
    match outcome {
        Outcome::Completed { .. } => None,
        Outcome::Failed { reason } => {
            let prefix = match direction {
                Direction::Download => "Download failed: ",
                Direction::Upload => "Upload failed: ",
            };
            Some(text::join(prefix, reason.as_str()))
        },
        Outcome::Crashed { reason } => Some(text::join("Task failed: ", reason.as_str())),
    }
}

/// The reports on a series of outcomes, in order.
pub open spec fn notices_of(direction: Direction, outcomes: Seq<Outcome>) -> Seq<Seq<char>>
    decreases outcomes.len(),
{
    if outcomes.len() == 0 {
        seq![]
    } else {
        let before = notices_of(direction, outcomes.drop_last());
        match notice_of(direction, outcomes.last()) {
            Some(t) => before.push(t),
            None => before,
        }
    }
}

/// The speed by size of the completed outcomes; of two of one size the later
/// counts.
pub open spec fn speeds_by_size(outcomes: Seq<Outcome>) -> Map<usize, Double>
    decreases outcomes.len(),
{
    if outcomes.len() == 0 {
        Map::empty()
    } else {
        let before = speeds_by_size(outcomes.drop_last());
        match outcomes.last() {
            Outcome::Completed { size, speed } => before.insert(size, speed),
            _ => before,
        }
    }
}

/// The speeds of the completed outcomes, in order.
pub open spec fn speeds_in_order(outcomes: Seq<Outcome>) -> Seq<Double>
    decreases outcomes.len(),
{
    if outcomes.len() == 0 {
        seq![]
    } else {
        let before = speeds_in_order(outcomes.drop_last());
        match outcomes.last() {
            Outcome::Completed { size, speed } => before.push(speed),
            _ => before,
        }
    }
}

/// What is collected from downloads that ran side by side.
pub struct Downloads {
    pub speeds: HashMap<usize, Double>,
    pub notices: Vec<String>,
}

/// What is collected from uploads that ran side by side.
pub struct Uploads {
    pub speeds: Vec<Double>,
    pub notices: Vec<String>,
}

/// Collects downloads that ran side by side. None of them fails the others.
pub fn collect_downloads(outcomes: &Vec<Outcome>) -> (d: Downloads)
    ensures
        d.speeds@ == speeds_by_size(outcomes@),
        text::texts(d.notices@) == notices_of(Direction::Download, outcomes@),
{
    let mut speeds: HashMap<usize, Double> = HashMap::new();
    let mut notices: Vec<String> = Vec::new();
    assert(outcomes@.take(0) == Seq::<Outcome>::empty());
    for i in 0..outcomes.len()
        invariant
            speeds@ == speeds_by_size(outcomes@.take(i as int)),
            text::texts(notices@) == notices_of(Direction::Download, outcomes@.take(i as int)),
    {
        let outcome = &outcomes[i];
        assert(outcomes@.take(i + 1).drop_last() == outcomes@.take(i as int));
        let ghost before = notices@;
        if let Outcome::Completed { size, speed } = outcome {
            speeds.insert(*size, *speed);
        }
        if let Some(t) = notice(Direction::Download, outcome) {
            notices.push(t);
            assert(text::texts(notices@) == text::texts(before).push(t@));
        }
    }
    assert(outcomes@.take(outcomes@.len() as int) == outcomes@);
    Downloads { speeds, notices }
}

/// Collects uploads that ran side by side. None of them fails the others.
pub fn collect_uploads(outcomes: &Vec<Outcome>) -> (u: Uploads)
    ensures
        u.speeds@ == speeds_in_order(outcomes@),
        text::texts(u.notices@) == notices_of(Direction::Upload, outcomes@),
{
    let mut speeds: Vec<Double> = Vec::new();
    let mut notices: Vec<String> = Vec::new();
    assert(outcomes@.take(0) == Seq::<Outcome>::empty());
    for i in 0..outcomes.len()
        invariant
            speeds@ == speeds_in_order(outcomes@.take(i as int)),
            text::texts(notices@) == notices_of(Direction::Upload, outcomes@.take(i as int)),
    {
        let outcome = &outcomes[i];
        assert(outcomes@.take(i + 1).drop_last() == outcomes@.take(i as int));
        let ghost before = notices@;
        if let Outcome::Completed { size, speed } = outcome {
            speeds.push(*speed);
        }
        if let Some(t) = notice(Direction::Upload, outcome) {
            notices.push(t);
            assert(text::texts(notices@) == text::texts(before).push(t@));
        }
    }
    assert(outcomes@.take(outcomes@.len() as int) == outcomes@);
    Uploads { speeds, notices }
}

/// Every outcome is accounted for once: it either adds a speed or is reported.
pub proof fn outcomes_are_accounted_for(direction: Direction, outcomes: Seq<Outcome>)
    ensures
        speeds_in_order(outcomes).len() + notices_of(direction, outcomes).len() == outcomes.len(),
    decreases outcomes.len(),
{
    if outcomes.len() > 0 {
        outcomes_are_accounted_for(direction, outcomes.drop_last());
    }
}

/// Whether the outcome at `i` is that of a completed transfer of `size` bytes.
pub open spec fn completed_at(outcomes: Seq<Outcome>, i: int, size: usize) -> bool {
    0 <= i < outcomes.len() && outcomes[i] is Completed && outcomes[i]->size == size
}

/// A size is in the collected speeds if and only if a download of it completed,
/// and its speed is that of the last such download, as it was measured.
pub proof fn completed_downloads_are_recorded(outcomes: Seq<Outcome>)
    ensures
        forall|size: usize|
            #[trigger] speeds_by_size(outcomes).contains_key(size) <==> exists|i: int| #[trigger]
                completed_at(outcomes, i, size),
        forall|i: int, size: usize|
            #[trigger] completed_at(outcomes, i, size) && (forall|j: int|
                i < j ==> !#[trigger] completed_at(outcomes, j, size)) ==> speeds_by_size(
                outcomes,
            )[size] == outcomes[i]->speed,
    decreases outcomes.len(),
{
    if outcomes.len() > 0 {
        let before = outcomes.drop_last();
        let n = outcomes.len() - 1;
        completed_downloads_are_recorded(before);
        assert forall|i: int, size: usize| i != n implies #[trigger] completed_at(outcomes, i, size)
            == completed_at(before, i, size) by {
            if 0 <= i < n {
                assert(before[i] == outcomes[i]);
            }
        }
        assert(forall|size: usize| !completed_at(before, n, size));
        assert forall|size: usize|
            #[trigger] speeds_by_size(outcomes).contains_key(size) <==> exists|i: int| #[trigger]
                completed_at(outcomes, i, size) by {
            if speeds_by_size(before).contains_key(size) {
                let i = choose|i: int| completed_at(before, i, size);
                assert(completed_at(outcomes, i, size));
            }
            if speeds_by_size(outcomes).contains_key(size) && !speeds_by_size(before).contains_key(
                size,
            ) {
                assert(completed_at(outcomes, n, size));
            }
        }
        assert forall|i: int, size: usize|
            #[trigger] completed_at(outcomes, i, size) && (forall|j: int|
                i < j ==> !#[trigger] completed_at(outcomes, j, size)) implies speeds_by_size(
            outcomes,
        )[size] == outcomes[i]->speed by {
            if i < n {
                assert(completed_at(before, i, size));
                assert(!completed_at(outcomes, n, size));
                assert forall|j: int| i < j implies !#[trigger] completed_at(before, j, size) by {
                    assert(!completed_at(outcomes, j, size));
                }
                assert(before[i] == outcomes[i]);
            }
        }
    }
}

/// The collected upload speeds are those of the completed uploads, as they were
/// measured and in their order.
pub proof fn completed_uploads_keep_their_speeds(outcomes: Seq<Outcome>)
    ensures
        speeds_in_order(outcomes) == outcomes.filter(|o: Outcome| o is Completed).map_values(
            |o: Outcome| o->speed,
        ),
    decreases outcomes.len(),
{
    reveal(Seq::filter);
    if outcomes.len() > 0 {
        completed_uploads_keep_their_speeds(outcomes.drop_last());
    }
    assert(speeds_in_order(outcomes) =~= outcomes.filter(
        |o: Outcome| o is Completed,
    ).map_values(|o: Outcome| o->speed));
}

/// Every transfer that did not complete is reported, in order, with its reason
/// at the end of a line that says whether the transfer or its task failed.
pub proof fn other_outcomes_are_reported(direction: Direction, outcomes: Seq<Outcome>)
    ensures
        notices_of(direction, outcomes) == outcomes.filter(
            |o: Outcome| !(o is Completed),
        ).map_values(
            |o: Outcome|
                match o {
                    Outcome::Failed { reason } => (if direction == Direction::Download {
                        "Download failed: "@
                    } else {
                        "Upload failed: "@
                    }) + reason@,
                    Outcome::Crashed { reason } => "Task failed: "@ + reason@,
                    Outcome::Completed { .. } => ""@,
                },
        ),
    decreases outcomes.len(),
{
    reveal(Seq::filter);
    let text = |o: Outcome|
        match o {
            Outcome::Failed { reason } => (if direction == Direction::Download {
                "Download failed: "@
            } else {
                "Upload failed: "@
            }) + reason@,
            Outcome::Crashed { reason } => "Task failed: "@ + reason@,
            Outcome::Completed { .. } => ""@,
        };
    let others = outcomes.filter(|o: Outcome| !(o is Completed));
    if outcomes.len() > 0 {
        other_outcomes_are_reported(direction, outcomes.drop_last());
        let before = outcomes.drop_last().filter(|o: Outcome| !(o is Completed));
        if !(outcomes.last() is Completed) {
            assert(others.map_values(text) =~= before.map_values(text).push(text(outcomes.last())));
        }
    }
    assert(notices_of(direction, outcomes) =~= others.map_values(text));
}

} // verus!
