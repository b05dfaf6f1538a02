//! The course of a speed test, and what is said along the way.

use crate::config::SpeedTestConfig;
use crate::download::{download_replay, download_start, DownloadEvent};
use crate::failure::Failure;
use crate::latency::{
    latency_fails_on_lost_probe, latency_keeps_successful_times, latency_replay, latency_start,
    LatencyReply,
};
use crate::packet_loss::{loss_start, LossReply};
use crate::style::{appears, clean_text_is_kept_whole, opening, paint, reset, Colour};
use crate::text;
use crate::text::decimal_spec;
use crate::trace::{trace_failure, TraceReply};
use crate::transfer::{mode_of, Outcome, TransferMode};
use crate::upload::{upload_replay, upload_start, UploadReply};
use vstd::prelude::*;

verus! {

/// The measurements of a speed test.
#[derive(Clone, Copy, Debug, PartialEq, Eq, Structural)]
pub enum Measurement {
    Latency,
    PacketLoss,
    Download,
    Upload,
}

impl Measurement {
    /// What is announced when the measurement begins.
    pub open spec fn announcement(self) -> Seq<char> {
        match self {
            Measurement::Latency => "Measuring latency..."@,
            Measurement::PacketLoss => "Measuring packet loss..."@,
            Measurement::Download => "Measuring download speed..."@,
            Measurement::Upload => "Measuring upload speed..."@,
        }
    }

    /// What is said when the measurement is over.
    pub open spec fn conclusion(self) -> Seq<char> {
        match self {
            Measurement::Latency => "Latency measurement complete"@,
            Measurement::PacketLoss => "Packet loss measurement complete"@,
            Measurement::Download => "Download speed measurement complete"@,
            Measurement::Upload => "Upload speed measurement complete"@,
        }
    }

    /// How many steps the progress of the measurement is counted in.
    pub open spec fn steps_spec(self, config: SpeedTestConfig) -> nat {
        match self {
            Measurement::Latency => config.latency_tests as nat,
            Measurement::PacketLoss => config.packet_loss_tests as nat,
            Measurement::Download => config.download_bytes@.len(),
            Measurement::Upload => config.upload_bytes@.len(),
        }
    }

    /// The announcement of the measurement, in yellow where colours are on.
    pub fn announce(self) -> (t: String)
        ensures
            appears(t@, self.announcement(), Colour::Yellow, false),
    {
        match self {
            Measurement::Latency => paint("Measuring latency...", Colour::Yellow),
            Measurement::PacketLoss => paint("Measuring packet loss...", Colour::Yellow),
            Measurement::Download => paint("Measuring download speed...", Colour::Yellow),
            Measurement::Upload => paint("Measuring upload speed...", Colour::Yellow),
        }
    }

    /// What is said when the measurement is over.
    pub fn conclude(self) -> (t: &'static str)
        ensures
            t@ == self.conclusion(),
    {
        match self {
            Measurement::Latency => "Latency measurement complete",
            Measurement::PacketLoss => "Packet loss measurement complete",
            Measurement::Download => "Download speed measurement complete",
            Measurement::Upload => "Upload speed measurement complete",
        }
    }

    /// How many steps the progress of the measurement is counted in.
    pub fn steps(self, config: &SpeedTestConfig) -> (n: usize)
        ensures
            n == self.steps_spec(*config),
    {
        match self {
            Measurement::Latency => config.latency_tests,
            Measurement::PacketLoss => config.packet_loss_tests,
            Measurement::Download => config.download_bytes.len(),
            Measurement::Upload => config.upload_bytes.len(),
        }
    }
}

/// The phases of a speed test.
#[derive(Clone, Copy, Debug, PartialEq, Eq, Structural)]
pub enum Phase {
    /// Asking the server about the connection.
    ServerInfo,
    /// Measuring.
    Measure(Measurement),
}

/// How a phase ended.
#[derive(Clone, Copy, Debug, PartialEq, Eq, Structural)]
pub enum PhaseOutcome {
    /// It found out what it was to find out.
    Done,
    /// It failed.
    Failed(Failure),
}

/// Where a test stands.
#[derive(Clone, Copy, Debug, PartialEq, Eq, Structural)]
pub enum Course {
    /// This phase is to be carried out.
    Go(Phase),
    /// A phase failed; no other is carried out.
    Stopped(Failure),
    /// All phases are over.
    Finished,
}

/// The phases, in order.
pub open spec fn course() -> Seq<Phase> {
    seq![
        Phase::ServerInfo,
        Phase::Measure(Measurement::Latency),
        Phase::Measure(Measurement::PacketLoss),
        Phase::Measure(Measurement::Download),
        Phase::Measure(Measurement::Upload),
    ]
}

impl Phase {
    /// The phase that comes after this one; none after the last.
    pub open spec fn successor(self) -> Option<Phase> {
        match self {
            Phase::ServerInfo => Some(Phase::Measure(Measurement::Latency)),
            Phase::Measure(Measurement::Latency) => Some(Phase::Measure(Measurement::PacketLoss)),
            Phase::Measure(Measurement::PacketLoss) => Some(Phase::Measure(Measurement::Download)),
            Phase::Measure(Measurement::Download) => Some(Phase::Measure(Measurement::Upload)),
            Phase::Measure(Measurement::Upload) => None,
        }
    }

    /// The phase that a test begins with.
    pub fn first() -> (p: Phase)
        ensures
            p == course()[0],
    {
        Phase::ServerInfo
    }

    /// The phase that comes after this one.
    pub fn next(self) -> (p: Option<Phase>)
        ensures
            p == self.successor(),
    {
        match self {
            Phase::ServerInfo => Some(Phase::Measure(Measurement::Latency)),
            Phase::Measure(Measurement::Latency) => Some(Phase::Measure(Measurement::PacketLoss)),
            Phase::Measure(Measurement::PacketLoss) => Some(Phase::Measure(Measurement::Download)),
            Phase::Measure(Measurement::Download) => Some(Phase::Measure(Measurement::Upload)),
            Phase::Measure(Measurement::Upload) => None,
        }
    }
}

impl Phase {
    /// Where a test stands after this phase: a failure stops it, else the next
    /// phase follows, and after the last one the test is finished.
    pub open spec fn course_after(self, outcome: PhaseOutcome) -> Course {
        match outcome {
            PhaseOutcome::Failed(f) => Course::Stopped(f),
            PhaseOutcome::Done => match self.successor() {
                Some(p) => Course::Go(p),
                None => Course::Finished,
            },
        }
    }

    /// Takes how the phase ended.
    pub fn after(self, outcome: PhaseOutcome) -> (c: Course)
        ensures
            c == self.course_after(outcome),
    {
        match outcome {
            PhaseOutcome::Failed(f) => Course::Stopped(f),
            PhaseOutcome::Done => match self.next() {
                Some(p) => Course::Go(p),
                None => Course::Finished,
            },
        }
    }
}

/// Where a test stands after phases with these outcomes, from the first phase
/// on. Once it is stopped or finished it stays so.
pub open spec fn course_of(outcomes: Seq<PhaseOutcome>) -> Course
    decreases outcomes.len(),
{
    if outcomes.len() == 0 {
        Course::Go(course()[0])
    } else {
        match course_of(outcomes.drop_last()) {
            Course::Go(p) => p.course_after(outcomes.last()),
            ended => ended,
        }
    }
}

/// Whether the first `n` of the outcomes are all without a failure.
pub open spec fn done_before(outcomes: Seq<PhaseOutcome>, n: int) -> bool {
    forall|i: int| 0 <= i < n ==> #[trigger] outcomes[i] is Done
}

/// Whether the first failure among the outcomes is the one at `k`.
pub open spec fn first_failure_at(outcomes: Seq<PhaseOutcome>, k: int, f: Failure) -> bool {
    &&& 0 <= k < outcomes.len()
    &&& k < course().len()
    &&& outcomes[k] == PhaseOutcome::Failed(f)
    &&& done_before(outcomes, k)
}

/// A test is finished if and only if all five phases are done. It is stopped if
/// and only if one of them failed, with the first failure. Else the phase that
/// follows those that are done is to be carried out.
pub proof fn course_is_decided_by_outcomes(outcomes: Seq<PhaseOutcome>)
    ensures
        course_of(outcomes) == Course::Finished <==> (outcomes.len() >= course().len()
            && done_before(outcomes, course().len() as int)),
        forall|f: Failure|
            course_of(outcomes) == Course::Stopped(f) <==> exists|k: int|
                #[trigger] first_failure_at(outcomes, k, f),
        forall|p: Phase|
            course_of(outcomes) == Course::Go(p) <==> (outcomes.len() < course().len() && p
                == course()[outcomes.len() as int] && done_before(outcomes, outcomes.len() as int)),
{
    lemma_course(outcomes);
    assert forall|f: Failure, k: int| #[trigger] first_failure_at(outcomes, k, f) implies course_of(
        outcomes,
    ) == Course::Stopped(f) by {
        assert(!(outcomes[k] is Done));
        if let Course::Stopped(g) = course_of(outcomes) {
            let j = choose|j: int| first_failure_at(outcomes, j, g);
            assert(outcomes[j] is Failed);
            if j < k {
                assert(outcomes[j] is Done);
            } else if k < j {
                assert(outcomes[k] is Done);
            }
        }
    }
    if course_of(outcomes) is Stopped {
        let g = course_of(outcomes)->Stopped_0;
        let j = choose|j: int| first_failure_at(outcomes, j, g);
        assert(!(outcomes[j] is Done));
    }
}

proof fn lemma_course(outcomes: Seq<PhaseOutcome>)
    ensures
        match course_of(outcomes) {
            Course::Go(p) => outcomes.len() < course().len() && p == course()[outcomes.len() as int]
                && done_before(outcomes, outcomes.len() as int),
            Course::Finished => outcomes.len() >= course().len() && done_before(
                outcomes,
                course().len() as int,
            ),
            Course::Stopped(f) => exists|k: int| #[trigger] first_failure_at(outcomes, k, f),
        },
    decreases outcomes.len(),
{
    if outcomes.len() > 0 {
        let before = outcomes.drop_last();
        let n = before.len() as int;
        lemma_course(before);
        course_visits_every_phase(Phase::ServerInfo);
        assert(forall|i: int| 0 <= i < n ==> #[trigger] outcomes[i] == before[i]);
        match course_of(before) {
            Course::Go(p) => {
                assert(outcomes[n] == outcomes.last());
                assert(done_before(outcomes, n)) by {
                    assert forall|i: int| 0 <= i < n implies #[trigger] outcomes[i] is Done by {
                        assert(before[i] is Done);
                    }
                }
                assert(course()[n].successor() == p.successor());
                if let PhaseOutcome::Failed(f) = outcomes.last() {
                    assert(first_failure_at(outcomes, n, f));
                }
            },
            Course::Finished => {
                assert forall|i: int|
                    0 <= i < course().len() implies #[trigger] outcomes[i] is Done by {
                    assert(before[i] is Done);
                }
            },
            Course::Stopped(f) => {
                let k = choose|k: int| first_failure_at(before, k, f);
                assert forall|i: int| 0 <= i < k implies #[trigger] outcomes[i] is Done by {
                    assert(before[i] is Done);
                }
                assert(first_failure_at(outcomes, k, f));
            },
        }
    }
}

/// What happened to the downloads of a test.
pub enum DownloadRecord {
    InTurn(Seq<DownloadEvent>),
    SideBySide(Seq<Outcome>),
}

/// What happened to the uploads of a test.
pub enum UploadRecord {
    InTurn(Seq<UploadReply>),
    SideBySide(Seq<Outcome>),
}

/// What happened in each phase of a test.
pub struct RunRecord {
    pub server: TraceReply,
    pub latency: Seq<LatencyReply>,
    pub packet_loss: Seq<LossReply>,
    pub download: DownloadRecord,
    pub upload: UploadRecord,
}

/// Whether a record is one of transfers in the modes asked for.
pub open spec fn in_modes(
    record: RunRecord,
    config: SpeedTestConfig,
    sequential_download: bool,
    sequential_upload: bool,
) -> bool {
    &&& record.download is InTurn <==> mode_of(config.single_threaded, sequential_download)
        == TransferMode::InTurn
    &&& record.upload is InTurn <==> mode_of(config.single_threaded, sequential_upload)
        == TransferMode::InTurn
}

/// How a phase ends, given all that happened in it: a measurement fails with the
/// failure of its replay. Packet loss, and transfers side by side, cannot fail.
pub open spec fn outcome_of(
    config: SpeedTestConfig,
    record: RunRecord,
    phase: Phase,
) -> PhaseOutcome {
    match phase {
        Phase::ServerInfo => match trace_failure(record.server) {
            Some(f) => PhaseOutcome::Failed(f),
            None => PhaseOutcome::Done,
        },
        Phase::Measure(Measurement::Latency) => match latency_replay(
            latency_start(config.latency_tests as nat),
            record.latency,
        ) {
            Ok(m) => PhaseOutcome::Done,
            Err(f) => PhaseOutcome::Failed(f),
        },
        Phase::Measure(Measurement::PacketLoss) => PhaseOutcome::Done,
        Phase::Measure(Measurement::Download) => match record.download {
            DownloadRecord::InTurn(events) => match download_replay(
                download_start(config.download_bytes@),
                events,
            ) {
                Ok(m) => PhaseOutcome::Done,
                Err(f) => PhaseOutcome::Failed(f),
            },
            DownloadRecord::SideBySide(outcomes) => PhaseOutcome::Done,
        },
        Phase::Measure(Measurement::Upload) => match record.upload {
            UploadRecord::InTurn(replies) => match upload_replay(
                upload_start(config.upload_bytes@),
                replies,
            ) {
                Ok(m) => PhaseOutcome::Done,
                Err(f) => PhaseOutcome::Failed(f),
            },
            UploadRecord::SideBySide(outcomes) => PhaseOutcome::Done,
        },
    }
}

/// How a test ends, given what happened in its phases.
pub open spec fn end_of(config: SpeedTestConfig, record: RunRecord) -> Course {
    course_of(course().map_values(|p: Phase| outcome_of(config, record, p)))
}

/// A test finishes if and only if every phase is done; else it stops with the
/// failure of the first phase that failed.
pub proof fn test_finishes_if_every_phase_does(config: SpeedTestConfig, record: RunRecord)
    ensures
        end_of(config, record) == Course::Finished <==> forall|p: Phase| #[trigger]
            outcome_of(config, record, p) is Done,
        forall|f: Failure|
            end_of(config, record) == Course::Stopped(f) <==> exists|k: int|
                0 <= k < course().len() && outcome_of(config, record, #[trigger] course()[k])
                    == PhaseOutcome::Failed(f) && (forall|i: int|
                    0 <= i < k ==> outcome_of(config, record, #[trigger] course()[i]) is Done),
        !(end_of(config, record) is Go),
{
    let outcomes = course().map_values(|p: Phase| outcome_of(config, record, p));
    let n = course().len() as int;
    assert(forall|i: int|
        0 <= i < n ==> #[trigger] outcomes[i] == outcome_of(config, record, course()[i]));
    course_is_decided_by_outcomes(outcomes);
    lemma_course(outcomes);
    assert forall|p: Phase| done_before(outcomes, n) implies #[trigger] outcome_of(
        config,
        record,
        p,
    ) is Done by {
        course_visits_every_phase(p);
        let i = choose|i: int| 0 <= i < course().len() && course()[i] == p;
        assert(outcomes[i] is Done);
    }
    assert forall|f: Failure, k: int| #[trigger] first_failure_at(outcomes, k, f) implies 0 <= k < n
        && outcome_of(config, record, course()[k]) == PhaseOutcome::Failed(f) && (forall|i: int|
        0 <= i < k ==> outcome_of(config, record, #[trigger] course()[i]) is Done) by {
        assert forall|i: int| 0 <= i < k implies outcome_of(
            config,
            record,
            #[trigger] course()[i],
        ) is Done by {
            assert(outcomes[i] is Done);
        }
    }
    assert forall|f: Failure, k: int|
        0 <= k < n && outcome_of(config, record, #[trigger] course()[k]) == PhaseOutcome::Failed(f)
            && (forall|i: int|
            0 <= i < k ==> outcome_of(config, record, #[trigger] course()[i]) is Done)
        implies #[trigger] first_failure_at(outcomes, k, f) by {
        assert forall|i: int| 0 <= i < k implies #[trigger] outcomes[i] is Done by {
            assert(outcome_of(config, record, course()[i]) is Done);
        }
    }
}

/// Whether a latency probe went without an answer.
pub open spec fn lost_probe(replies: Seq<LatencyReply>) -> bool {
    exists|i: int| 0 <= i < replies.len() && #[trigger] replies[i] is SendFailed
}

/// A test whose transfers run side by side ends as its request for the server's
/// description and its latency probes do. No failure of a packet loss probe, a
/// download or an upload ends it.
pub proof fn side_by_side_test_fails_early_only(config: SpeedTestConfig, record: RunRecord)
    requires
        in_modes(record, config, false, false),
        !config.single_threaded,
    ensures
        end_of(config, record) == (match trace_failure(record.server) {
            Some(f) => Course::Stopped(f),
            None => if lost_probe(record.latency) {
                Course::Stopped(Failure::SendLatencyProbe)
            } else {
                Course::Finished
            },
        }),
        end_of(config, record) == Course::Finished <==> (record.server is Body && !lost_probe(
            record.latency,
        )),
{
    if lost_probe(record.latency) {
        let lost = choose|i: int|
            0 <= i < record.latency.len() && #[trigger] record.latency[i] is SendFailed;
        latency_fails_on_lost_probe(config.latency_tests as nat, record.latency, lost);
    } else {
        assert forall|i: int| 0 <= i < record.latency.len() implies record.latency[
            i
        ] is Answered by {
            assert(!(record.latency[i] is SendFailed));
        }
        latency_keeps_successful_times(config.latency_tests as nat, record.latency);
    }
    let c = course();
    let outcomes = c.map_values(|p: Phase| outcome_of(config, record, p));
    assert(outcomes[0] == outcome_of(config, record, Phase::ServerInfo));
    assert(outcomes[1] == outcome_of(config, record, Phase::Measure(Measurement::Latency)));
    assert(outcomes[2] is Done && outcomes[3] is Done && outcomes[4] is Done);
    lemma_course(outcomes);
    if let Course::Stopped(f) = course_of(outcomes) {
        let k = choose|k: int| first_failure_at(outcomes, k, f);
        assert(k == 0 || k == 1);
        assert(k == 1 ==> outcomes[0] is Done);
    }
}

/// Going from the first phase to its successors visits every phase once, in
/// order, and then ends.
pub proof fn course_visits_every_phase(p: Phase)
    ensures
        course().contains(p),
        course().no_duplicates(),
        forall|i: int|
            0 <= i < course().len() ==> (#[trigger] course()[i]).successor() == (if i + 1
                < course().len() {
                Some(course()[i + 1])
            } else {
                None
            }),
{
    let c = course();
    assert(c[0] == Phase::ServerInfo);
    assert(c[1] == Phase::Measure(Measurement::Latency));
    assert(c[2] == Phase::Measure(Measurement::PacketLoss));
    assert(c[3] == Phase::Measure(Measurement::Download));
    assert(c[4] == Phase::Measure(Measurement::Upload));
}

/// The announcement of a test, in bright cyan where colours are on.
pub fn opening_line() -> (t: String)
    ensures
        appears(t@, "Starting Cloudflare Speed Test..."@, Colour::BrightCyan, false),
{
    paint("Starting Cloudflare Speed Test...", Colour::BrightCyan)
}

/// How the transfers will run, in yellow where colours are on.
pub fn mode_line(single_threaded: bool) -> (t: String)
    ensures
        appears(
            t@,
            if single_threaded {
                "Running in single-threaded mode"@
            } else {
                "Running in multi-threaded mode"@
            },
            Colour::Yellow,
            false,
        ),
{
    if single_threaded {
        paint("Running in single-threaded mode", Colour::Yellow)
    } else {
        paint("Running in multi-threaded mode", Colour::Yellow)
    }
}

/// The text that numbers one of several tests.
pub open spec fn numbering(i: nat, count: nat) -> Seq<char> {
    "Running test "@ + decimal_spec(i) + " of "@ + decimal_spec(count)
}

/// The line that numbers a test, in bright yellow where colours are on; none if
/// there is only one test.
pub fn numbering_line(i: usize, count: usize) -> (t: Option<String>)
    ensures
        match t {
            Some(shown) => count > 1 && appears(
                shown@,
                numbering(i as nat, count as nat),
                Colour::BrightYellow,
                false,
            ),
            None => count <= 1,
        },
{
    if count > 1 {
        let mut line = text::join("Running test ", text::decimal(i).as_str());
        line.append(" of ");
        line.append(text::decimal(count).as_str());
        Some(paint(line.as_str(), Colour::BrightYellow))
    } else {
        None
    }
}

/// The number of the test that follows test `i` of `count`; none after the last
/// one or after a failure.
pub open spec fn successor_of_run(i: usize, count: usize, failed: bool) -> Option<usize> {
    if failed || i >= count {
        None
    } else {
        Some((i + 1) as usize)
    }
}

/// The number of the test that follows test `i` of `count`, where 0 stands for
/// the time before the first.
pub fn next_run(i: usize, count: usize, failed: bool) -> (r: Option<usize>)
    ensures
        r == successor_of_run(i, count, failed),
        r == (if failed || i >= count {
            None
        } else {
            Some((i + 1) as usize)
        }),
{
    if failed || i >= count {
        None
    } else {
        Some(i + 1)
    }
}

/// The numbers of the tests that follow test `i` of `count`, where `failed` tells
/// which tests fail.
pub open spec fn runs_after(i: usize, count: usize, failed: spec_fn(usize) -> bool) -> Seq<usize>
    decreases count - i,
{
    match successor_of_run(i, count, i > 0 && failed(i)) {
        Some(next) => seq![next] + runs_after(next, count, failed),
        None => seq![],
    }
}

/// If none of them fails, exactly `count` tests run, numbered from 1 on.
pub proof fn all_runs_follow(count: usize, failed: spec_fn(usize) -> bool)
    requires
        forall|i: usize| 1 <= i <= count ==> !#[trigger] failed(i),
    ensures
        runs_after(0, count, failed) == Seq::new(count as nat, |k: int| (k + 1) as usize),
{
    lemma_runs(0, count, count, failed);
}

/// The first test that fails is the last that runs.
pub proof fn failed_run_is_the_last(count: usize, failed: spec_fn(usize) -> bool, first: usize)
    requires
        1 <= first <= count,
        failed(first),
        forall|i: usize| 1 <= i < first ==> !#[trigger] failed(i),
    ensures
        runs_after(0, count, failed) == Seq::new(first as nat, |k: int| (k + 1) as usize),
{
    lemma_runs(0, first, count, failed);
}

/// Tests run up to `last`, if that is the last one or the first one to fail.
proof fn lemma_runs(i: usize, last: usize, count: usize, failed: spec_fn(usize) -> bool)
    requires
        i <= last <= count,
        last == count || (last > 0 && failed(last)),
        forall|k: usize| 1 <= k < last ==> !#[trigger] failed(k),
    ensures
        runs_after(i, count, failed) == Seq::new(
            (last - i) as nat,
            |k: int| (i + k + 1) as usize,
        ),
    decreases last - i,
{
    let expected = Seq::new((last - i) as nat, |k: int| (i + k + 1) as usize);
    if i < last {
        let next = (i + 1) as usize;
        lemma_runs(next, last, count, failed);
        let rest = Seq::new((last - next) as nat, |k: int| (next + k + 1) as usize);
        assert(i > 0 ==> !failed(i));
        assert(expected == seq![next] + rest);
    } else {
        assert(expected == Seq::<usize>::empty());
    }
}

/// Whether `line` reports `message` as an error, with the word before it in
/// bright red where colours are on.
pub open spec fn reports_error(line: Seq<char>, message: Seq<char>) -> bool {
    exists|word: Seq<char>|
        #![trigger appears(word, "Error"@, Colour::BrightRed, false)]
        appears(word, "Error"@, Colour::BrightRed, false) && line == word + ": "@ + message
}

/// The line that reports an error.
pub fn error_line(message: &str) -> (t: String)
    ensures
        reports_error(t@, message@),
{
    let word = paint("Error", Colour::BrightRed);
    let ghost w = word@;
    let mut line = text::join(word.as_str(), ": ");
    line.append(message);
    assert(appears(w, "Error"@, Colour::BrightRed, false));
    line
}

/// The line that reports an error ends with a colon and the whole message, and
/// what stands before them is the word, with or without colours.
pub proof fn error_line_repeats_the_message(line: Seq<char>, message: Seq<char>)
    requires
        reports_error(line, message),
    ensures
        ({
            let tail = ": "@ + message;
            let n = line.len() - tail.len();
            &&& n >= 0
            &&& line.skip(n) == tail
            &&& line.take(n) == "Error"@ || line.take(n) == opening(Colour::BrightRed, false)
                + "Error"@ + reset()
        }),
{
    let tail = ": "@ + message;
    let word = choose|word: Seq<char>|
        #![trigger appears(word, "Error"@, Colour::BrightRed, false)]
        appears(word, "Error"@, Colour::BrightRed, false) && line == word + ": "@ + message;
    reveal_strlit("Error");
    assert(!"Error"@.contains('\x1b'));
    clean_text_is_kept_whole(word, "Error"@, Colour::BrightRed, false);
    let n = word.len() as int;
    assert(line == word + tail);
    assert(line.take(n) == word);
    assert(line.skip(n) == tail);
}

/// What is said when the IP version is none of the known ones.
pub fn ip_version_hint() -> (t: &'static str)
    ensures
        t@ == "Invalid IP version. Use 4, 6, or auto."@,
{
    "Invalid IP version. Use 4, 6, or auto."
}

/// The progress of a measurement is counted in as many steps as it has probes to
/// send or sizes to transfer.
pub proof fn steps_are_requests(config: SpeedTestConfig)
    ensures
        Measurement::Latency.steps_spec(config) == latency_start(config.latency_tests as nat).tests,
        Measurement::PacketLoss.steps_spec(config) == loss_start(
            config.packet_loss_tests as nat,
        ).tests,
        Measurement::Download.steps_spec(config) == download_start(
            config.download_bytes@,
        ).sizes.len(),
        Measurement::Upload.steps_spec(config) == upload_start(config.upload_bytes@).sizes.len(),
{
}

/// The text that numbers a test has the number of the test and that of all tests
/// in it, in decimal.
pub proof fn numbering_denotes(i: nat, count: nat)
    ensures
        exists|a: Seq<char>, b: Seq<char>|
            #![trigger text::numeral_value(a), text::numeral_value(b)]
            text::numeral_value(a) == i && text::numeral_value(b) == count && numbering(i, count)
                == "Running test "@ + a + " of "@ + b,
{
    text::decimal_denotes(i);
    text::decimal_denotes(count);
    let a = decimal_spec(i);
    let b = decimal_spec(count);
    assert(text::numeral_value(a) == i && text::numeral_value(b) == count);
}

} // verus!
