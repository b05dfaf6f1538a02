use speed_cloudflare_cli::config::{IpVersion, SpeedTestConfig};
use speed_cloudflare_cli::double::Double;
use speed_cloudflare_cli::download::{
    start_downloads, DownloadEvent, DownloadMeasurement, DownloadStart, DownloadStep,
};
use speed_cloudflare_cli::failure::Failure;
use speed_cloudflare_cli::latency::{total_ms, LatencyMeasurement, LatencyReply, Step};
use speed_cloudflare_cli::packet_loss::{LossMeasurement, LossReply};
use speed_cloudflare_cli::request::Request;
use speed_cloudflare_cli::transfer::{
    collect_downloads, collect_uploads, download_mode, download_outcome, notice, refusal,
    upload_mode, upload_outcome, Direction, Outcome, TransferMode,
};
use speed_cloudflare_cli::upload::{
    start_uploads, UploadMeasurement, UploadReply, UploadStart, UploadStep,
};

fn d(x: f64) -> Double {
    Double::from_bits(x.to_bits())
}

fn config(tests: usize, sizes: Vec<usize>) -> SpeedTestConfig {
    SpeedTestConfig {
        download_bytes: sizes.clone(),
        upload_bytes: sizes,
        latency_tests: tests,
        packet_loss_tests: tests,
        ip_version: IpVersion::Auto,
        single_threaded: true,
    }
}

fn is_probe(request: Option<Request>) -> bool {
    match request {
        Some(Request::GetWith { url, name, value }) => {
            url == "https://speed.cloudflare.com/__down" && name == "bytes" && value == "1"
        }
        _ => false,
    }
}

#[test]
fn latency_keeps_the_times_of_successes() {
    let mut m = LatencyMeasurement::new(&config(4, vec![]));
    for (status, elapsed_ms) in [(200, 12), (500, 99), (204, 30), (200, 0)] {
        assert!(is_probe(m.next_request()));
        assert_eq!(
            m.on_reply(LatencyReply::Answered { status, elapsed_ms }),
            Step::Continue { pause_ms: 50 }
        );
    }
    assert!(m.next_request().is_none());
    let samples = m.into_samples();
    assert_eq!(samples, vec![12, 30, 0]);
    assert_eq!(total_ms(&samples), 42);
    assert_eq!(total_ms(&vec![u64::MAX, u64::MAX]), 2 * (u64::MAX as u128));
}

#[test]
fn a_lost_probe_ends_the_latency_measurement() {
    let mut m = LatencyMeasurement::new(&config(3, vec![]));
    m.on_reply(LatencyReply::Answered { status: 200, elapsed_ms: 5 });
    assert_eq!(m.on_reply(LatencyReply::SendFailed), Step::Stop(Failure::SendLatencyProbe));
    assert_eq!(m.into_samples(), vec![5]);
}

#[test]
fn no_probes_no_samples() {
    let m = LatencyMeasurement::new(&config(0, vec![]));
    assert!(m.next_request().is_none());
    assert_eq!(total_ms(&m.into_samples()), 0);
}

#[test]
fn packet_loss_counts_failures_of_both_kinds() {
    let mut m = LossMeasurement::new(&config(5, vec![]));
    let replies = [
        LossReply::Answered { status: 200 },
        LossReply::SendFailed,
        LossReply::Answered { status: 429 },
        LossReply::Answered { status: 299 },
        LossReply::Answered { status: 200 },
    ];
    for reply in replies {
        assert!(is_probe(m.next_request()));
        assert_eq!(m.on_reply(reply), 20);
    }
    assert!(m.next_request().is_none());
    assert_eq!(m.counts(), (2, 5));
}

#[test]
fn downloads_in_turn_pass_over_refusals() {
    let mut m = DownloadMeasurement::new(&config(0, vec![100, 200, 300]));
    let (size, request) = m.next_request().unwrap();
    assert_eq!(size, 100);
    assert!(matches!(request, Request::GetWith { value, .. } if value == "100"));
    assert_eq!(m.on_event(DownloadEvent::Answered { status: 200 }), DownloadStep::ReadBody);
    assert_eq!(m.on_event(DownloadEvent::Received { speed: d(1.5) }), DownloadStep::Next);
    assert_eq!(m.next_request().unwrap().0, 200);
    assert_eq!(m.on_event(DownloadEvent::Answered { status: 503 }), DownloadStep::Next);
    assert_eq!(m.next_request().unwrap().0, 300);
    assert_eq!(m.on_event(DownloadEvent::Answered { status: 200 }), DownloadStep::ReadBody);
    assert_eq!(m.on_event(DownloadEvent::Received { speed: d(7.0) }), DownloadStep::Next);
    assert!(m.next_request().is_none());
    let speeds = m.into_speeds();
    assert_eq!(speeds.len(), 2);
    assert_eq!(speeds[&100], d(1.5));
    assert_eq!(speeds[&300], d(7.0));
}

#[test]
fn downloads_in_turn_stop_on_errors() {
    let mut m = DownloadMeasurement::new(&config(0, vec![100]));
    assert_eq!(m.on_event(DownloadEvent::SendFailed), DownloadStep::Stop(Failure::SendDownload));
    let mut m = DownloadMeasurement::new(&config(0, vec![100]));
    m.on_event(DownloadEvent::Answered { status: 200 });
    assert_eq!(m.on_event(DownloadEvent::ReadFailed), DownloadStep::Stop(Failure::ReadDownload));
}

#[test]
fn download_modes_agree_when_all_go_through() {
    let sizes = vec![100, 200, 100];
    let speeds = [1.0, 2.0, 3.0];
    let mut m = DownloadMeasurement::new(&config(0, sizes.clone()));
    let mut outcomes = Vec::new();
    for i in 0..3 {
        m.on_event(DownloadEvent::Answered { status: 200 });
        m.on_event(DownloadEvent::Received { speed: d(speeds[i]) });
        outcomes.push(Outcome::Completed { size: sizes[i], speed: d(speeds[i]) });
    }
    let collected = collect_downloads(&outcomes);
    assert!(collected.notices.is_empty());
    assert_eq!(m.into_speeds(), collected.speeds);
    assert_eq!(collected.speeds[&100], d(3.0));
}

#[test]
fn download_modes_agree_on_refusals() {
    let sizes = vec![100, 200, 300];
    let mut m = DownloadMeasurement::new(&config(0, sizes));
    m.on_event(DownloadEvent::Answered { status: 503 });
    m.on_event(DownloadEvent::Answered { status: 200 });
    m.on_event(DownloadEvent::Received { speed: d(2.0) });
    m.on_event(DownloadEvent::Answered { status: 404 });
    assert!(m.next_request().is_none());
    let collected = collect_downloads(&vec![
        Outcome::Failed { reason: "503".to_string() },
        Outcome::Completed { size: 200, speed: d(2.0) },
        Outcome::Crashed { reason: "404".to_string() },
    ]);
    assert_eq!(m.into_speeds(), collected.speeds);
}

#[test]
fn the_next_download_waits_for_the_one_before() {
    let mut m = DownloadMeasurement::new(&config(0, vec![100, 200]));
    assert_eq!(m.next_request().unwrap().0, 100);
    assert_eq!(m.next_request().unwrap().0, 100);
    m.on_event(DownloadEvent::Answered { status: 200 });
    m.on_event(DownloadEvent::Received { speed: d(1.0) });
    assert_eq!(m.next_request().unwrap().0, 200);
}

#[test]
fn the_next_upload_waits_for_the_one_before() {
    let mut m = UploadMeasurement::new(&config(0, vec![10, 20]));
    assert_eq!(m.next_size(), Some(10));
    assert_eq!(m.next_size(), Some(10));
    m.on_reply(UploadReply::Answered { status: 500, speed: d(1.0) });
    assert_eq!(m.next_size(), Some(20));
}

#[test]
fn transfers_run_in_turn_if_asked_to() {
    for single_threaded in [false, true] {
        for sequential in [false, true] {
            let config = SpeedTestConfig::with_options(IpVersion::Auto, single_threaded);
            let expected = if single_threaded || sequential {
                TransferMode::InTurn
            } else {
                TransferMode::SideBySide
            };
            assert_eq!(download_mode(&config, sequential), expected);
            assert_eq!(upload_mode(&config, sequential), expected);
            match start_downloads(&config, sequential) {
                DownloadStart::InTurn(m) => {
                    assert_eq!(expected, TransferMode::InTurn);
                    assert_eq!(m.next_request().unwrap().0, 100_000);
                }
                DownloadStart::SideBySide(sizes) => {
                    assert_eq!(expected, TransferMode::SideBySide);
                    assert_eq!(sizes, config.download_bytes);
                }
            }
            match start_uploads(&config, sequential) {
                UploadStart::InTurn(m) => {
                    assert_eq!(expected, TransferMode::InTurn);
                    assert_eq!(m.next_size(), Some(1_000));
                }
                UploadStart::SideBySide(sizes) => {
                    assert_eq!(expected, TransferMode::SideBySide);
                    assert_eq!(sizes, config.upload_bytes);
                }
            }
        }
    }
}

#[test]
fn downloads_side_by_side_report_failures() {
    let outcomes = vec![
        Outcome::Completed { size: 100, speed: d(4.0) },
        Outcome::Failed { reason: "Download request failed with status: 404 Not Found".to_string() },
        Outcome::Crashed { reason: "task 3 panicked".to_string() },
    ];
    let collected = collect_downloads(&outcomes);
    assert_eq!(collected.speeds.len(), 1);
    assert_eq!(
        collected.notices,
        vec![
            "Download failed: Download request failed with status: 404 Not Found",
            "Task failed: task 3 panicked",
        ]
    );
}

#[test]
fn uploads_in_turn_keep_the_speeds_of_successes() {
    let mut m = UploadMeasurement::new(&config(0, vec![10, 20]));
    assert_eq!(m.next_size(), Some(10));
    let (size, request) = m.next_request().unwrap();
    assert_eq!(size, 10);
    assert!(matches!(request, Request::Post { body, .. } if body.len() == 10));
    assert_eq!(
        m.on_reply(UploadReply::Answered { status: 200, speed: d(3.0) }),
        UploadStep::Next
    );
    assert_eq!(
        m.on_reply(UploadReply::Answered { status: 400, speed: d(9.0) }),
        UploadStep::Next
    );
    assert_eq!(m.next_size(), None);
    assert!(m.next_request().is_none());
    assert_eq!(m.into_speeds(), vec![d(3.0)]);
}

#[test]
fn a_lost_upload_ends_the_measurement() {
    let mut m = UploadMeasurement::new(&config(0, vec![10, 20]));
    assert_eq!(m.on_reply(UploadReply::SendFailed), UploadStep::Stop(Failure::SendUpload));
}

#[test]
fn uploads_side_by_side_report_failures() {
    let outcomes = vec![
        Outcome::Failed { reason: "Failed to send upload test request".to_string() },
        Outcome::Completed { size: 20, speed: d(2.0) },
        Outcome::Completed { size: 10, speed: d(1.0) },
        Outcome::Crashed { reason: "cancelled".to_string() },
    ];
    let collected = collect_uploads(&outcomes);
    assert_eq!(collected.speeds, vec![d(2.0), d(1.0)]);
    assert_eq!(
        collected.notices,
        vec!["Upload failed: Failed to send upload test request", "Task failed: cancelled"]
    );
    assert_eq!(collected.speeds.len() + collected.notices.len(), outcomes.len());
    assert_eq!(notice(Direction::Upload, &outcomes[1]), None);
}

#[test]
fn refusals_are_described_with_their_status() {
    assert_eq!(refusal(Direction::Download, 200, "200 OK"), None);
    assert_eq!(
        refusal(Direction::Download, 404, "404 Not Found"),
        Some("Download request failed with status: 404 Not Found".to_string())
    );
    assert_eq!(
        refusal(Direction::Upload, 500, "500 Internal Server Error"),
        Some("Upload request failed with status: 500 Internal Server Error".to_string())
    );
}

fn reason(outcome: Option<Outcome>) -> String {
    match outcome {
        Some(Outcome::Failed { reason }) => reason,
        _ => panic!("not a failure"),
    }
}

#[test]
fn outcomes_of_single_downloads() {
    assert_eq!(
        reason(download_outcome(10, DownloadEvent::SendFailed, "")),
        "Failed to send download test request"
    );
    assert_eq!(
        reason(download_outcome(10, DownloadEvent::ReadFailed, "200 OK")),
        "Failed to read download response"
    );
    assert_eq!(
        reason(download_outcome(10, DownloadEvent::Answered { status: 404 }, "404 Not Found")),
        "Download request failed with status: 404 Not Found"
    );
    assert!(download_outcome(10, DownloadEvent::Answered { status: 200 }, "200 OK").is_none());
    match download_outcome(10, DownloadEvent::Received { speed: d(2.5) }, "200 OK") {
        Some(Outcome::Completed { size, speed }) => {
            assert_eq!(size, 10);
            assert_eq!(speed, d(2.5));
        }
        _ => panic!("not completed"),
    }
}

#[test]
fn outcomes_of_single_uploads() {
    assert_eq!(
        reason(Some(upload_outcome(10, UploadReply::SendFailed, ""))),
        "Failed to send upload test request"
    );
    let refused = UploadReply::Answered { status: 500, speed: d(1.0) };
    assert_eq!(
        reason(Some(upload_outcome(10, refused, "500 Internal Server Error"))),
        "Upload request failed with status: 500 Internal Server Error"
    );
    match upload_outcome(10, UploadReply::Answered { status: 201, speed: d(1.0) }, "201 Created") {
        Outcome::Completed { size, speed } => {
            assert_eq!(size, 10);
            assert_eq!(speed, d(1.0));
        }
        _ => panic!("not completed"),
    }
}
