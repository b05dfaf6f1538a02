use speed_cloudflare_cli::double::Double;
use speed_cloudflare_cli::failure::Failure;
use speed_cloudflare_cli::rating::{latency_rating, packet_loss_rating, speed_rating, Rating};
use speed_cloudflare_cli::report::mask_ip;
use speed_cloudflare_cli::results::{fastest, SpeedTestResults};
use speed_cloudflare_cli::session::{next_run, Course, Measurement, Phase, PhaseOutcome};
use speed_cloudflare_cli::trace::{parse_server_info, server_info, ServerInfo, TraceReply};
use std::collections::HashMap;

fn d(x: f64) -> Double {
    Double::from_bits(x.to_bits())
}

#[test]
fn server_info_is_read_from_the_trace() {
    let info = parse_server_info("fl=1\nip=2001:db8::1\nts=17.5\ncolo=AMS\r\nhttp=http/2\n");
    assert_eq!(info.location, "AMS");
    assert_eq!(info.ip, "2001:db8::1");
    let info = parse_server_info("");
    assert_eq!(info.location, "Unknown");
    assert_eq!(info.ip, "Unknown");
    let info = parse_server_info("colo\nip=\nxip=3\n colo=X\n");
    assert_eq!(info.location, "Unknown");
    assert_eq!(info.ip, "");
}

#[test]
fn the_last_line_decides() {
    let info = parse_server_info("colo=A\ncolo=B=C\nip=1\nip=2");
    assert_eq!(info.location, "B=C");
    assert_eq!(info.ip, "2");
}

#[test]
fn addresses_are_masked() {
    assert_eq!(mask_ip("192.0.2.17"), "192.0.2.***");
    assert_eq!(mask_ip("192.0.2.99"), mask_ip("192.0.2.17"));
    assert_eq!(mask_ip("1.2.3"), "***.***.***.***");
    assert_eq!(mask_ip("1.2.3.4.5"), "***.***.***.***");
    assert_eq!(mask_ip("::ffff:1.2.3.4"), "::ffff:1.2.3.***");
    assert_eq!(mask_ip("2001:db8::1"), "2001:db8:****");
    assert_eq!(mask_ip("2001:db8:5::7"), mask_ip("2001:db8::1"));
    assert_eq!(mask_ip("::1"), "::****");
    assert_eq!(mask_ip("a:b"), "****:****:****");
    assert_eq!(mask_ip("Unknown"), "****:****:****");
    assert_eq!(mask_ip(""), "****:****:****");
}

#[test]
fn masking_twice_is_masking_once() {
    for ip in ["192.0.2.17", "1.2.3", "::ffff:1.2.3.4", "2001:db8::1", "::1", "a:b", "", "...."] {
        assert_eq!(mask_ip(&mask_ip(ip)), mask_ip(ip));
    }
}

#[test]
fn as_many_tests_run_as_asked_for() {
    for count in [0usize, 1, 2, 7] {
        let mut seen = Vec::new();
        let mut run = next_run(0, count, false);
        while let Some(i) = run {
            seen.push(i);
            run = next_run(i, count, false);
        }
        let expected: Vec<usize> = (1..=count).collect();
        assert_eq!(seen, expected);
    }
    assert_eq!(next_run(1, 3, true), None);
    assert_eq!(next_run(usize::MAX, usize::MAX, false), None);
}

#[test]
fn speeds_are_rated() {
    for (mbps, rating) in [
        (f64::INFINITY, Rating::Excellent),
        (100.0, Rating::Excellent),
        (99.99999999999999, Rating::Good),
        (50.0, Rating::Good),
        (49.99999999999999, Rating::Fair),
        (25.0, Rating::Fair),
        (24.999999999999996, Rating::Poor),
        (10.0, Rating::Poor),
        (9.999999999999998, Rating::VeryPoor),
        (0.0, Rating::VeryPoor),
        (f64::NEG_INFINITY, Rating::VeryPoor),
        (f64::NAN, Rating::VeryPoor),
    ] {
        assert_eq!(speed_rating(d(mbps)), rating, "{}", mbps);
    }
}

#[test]
fn latencies_are_rated() {
    for (ms, rating) in [
        (0.0, Rating::Excellent),
        (20.0, Rating::Excellent),
        (20.000000000000004, Rating::Good),
        (50.0, Rating::Good),
        (50.00000000000001, Rating::Fair),
        (100.0, Rating::Fair),
        (100.00000000000001, Rating::Poor),
        (200.0, Rating::Poor),
        (200.00000000000003, Rating::VeryPoor),
        (f64::NAN, Rating::VeryPoor),
    ] {
        assert_eq!(latency_rating(d(ms)), rating, "{}", ms);
    }
}

#[test]
fn packet_losses_are_rated() {
    for (percent, rating) in [
        (0.0, Rating::Excellent),
        (0.5, Rating::Excellent),
        (0.5000000000000001, Rating::Good),
        (1.0, Rating::Good),
        (1.0000000000000002, Rating::Fair),
        (2.0, Rating::Fair),
        (2.0000000000000004, Rating::Poor),
        (5.0, Rating::Poor),
        (5.000000000000001, Rating::VeryPoor),
        (f64::NAN, Rating::VeryPoor),
    ] {
        assert_eq!(packet_loss_rating(d(percent)), rating, "{}", percent);
    }
}

#[test]
fn results_are_assembled() {
    let mut speeds = HashMap::new();
    speeds.insert(100_000, d(10.0));
    speeds.insert(10_000_000, d(80.0));
    speeds.insert(100_000_000, d(60.0));
    speeds.insert(5, d(f64::NAN));
    let server = ServerInfo { location: "FRA".to_string(), ip: "192.0.2.1".to_string() };
    let r = SpeedTestResults::assemble(server, d(1.0), d(2.0), d(3.0), &speeds, d(4.0));
    assert_eq!(r.server_location, "FRA");
    assert_eq!(r.your_ip, "192.0.2.1");
    assert_eq!(r.latency_ms, d(1.0));
    assert_eq!(r.jitter_ms, d(2.0));
    assert_eq!(r.packet_loss_pct, d(3.0));
    assert_eq!(r.speed_100kb, d(10.0));
    assert_eq!(r.speed_1mb, d(0.0));
    assert_eq!(r.speed_10mb, d(80.0));
    assert_eq!(r.speed_25mb, d(0.0));
    assert_eq!(r.speed_100mb, d(60.0));
    assert_eq!(r.download_mbps, d(80.0));
    assert_eq!(r.upload_mbps, d(4.0));
}

#[test]
fn without_downloads_the_fastest_is_negative_infinity() {
    assert_eq!(fastest(&HashMap::new()), d(f64::NEG_INFINITY));
    let mut speeds = HashMap::new();
    speeds.insert(1, d(f64::NAN));
    assert_eq!(fastest(&speeds), d(f64::NEG_INFINITY));
    speeds.insert(2, d(-3.0));
    speeds.insert(3, d(-7.0));
    assert_eq!(fastest(&speeds), d(-3.0));
}

#[test]
fn phases_follow_each_other() {
    let mut seen = Vec::new();
    let mut phase = Some(Phase::first());
    while let Some(p) = phase {
        seen.push(p);
        phase = p.next();
    }
    assert_eq!(
        seen,
        vec![
            Phase::ServerInfo,
            Phase::Measure(Measurement::Latency),
            Phase::Measure(Measurement::PacketLoss),
            Phase::Measure(Measurement::Download),
            Phase::Measure(Measurement::Upload),
        ]
    );
}

fn carried_out(outcomes: &[PhaseOutcome]) -> (Vec<Phase>, Course) {
    let mut seen = Vec::new();
    let mut course = Course::Go(Phase::first());
    for outcome in outcomes {
        if let Course::Go(phase) = course {
            seen.push(phase);
            course = phase.after(*outcome);
        }
    }
    (seen, course)
}

#[test]
fn a_test_finishes_after_five_phases() {
    let (seen, course) = carried_out(&[PhaseOutcome::Done; 5]);
    assert_eq!(seen.len(), 5);
    assert_eq!(course, Course::Finished);
    let (seen, course) = carried_out(&[PhaseOutcome::Done; 4]);
    assert_eq!(seen.len(), 4);
    assert_eq!(course, Course::Go(Phase::Measure(Measurement::Upload)));
}

#[test]
fn a_failed_phase_ends_the_test() {
    let (seen, course) = carried_out(&[
        PhaseOutcome::Done,
        PhaseOutcome::Failed(Failure::SendLatencyProbe),
        PhaseOutcome::Done,
        PhaseOutcome::Failed(Failure::SendDownload),
    ]);
    assert_eq!(seen, vec![Phase::ServerInfo, Phase::Measure(Measurement::Latency)]);
    assert_eq!(course, Course::Stopped(Failure::SendLatencyProbe));
    let upload = Phase::Measure(Measurement::Upload);
    assert_eq!(
        upload.after(PhaseOutcome::Failed(Failure::SendUpload)),
        Course::Stopped(Failure::SendUpload)
    );
}

#[test]
fn server_info_needs_an_answer_and_its_body() {
    assert_eq!(server_info(&TraceReply::SendFailed).err(), Some(Failure::GetServerInfo));
    assert_eq!(server_info(&TraceReply::ReadFailed).err(), Some(Failure::ReadServerInfo));
    let info = server_info(&TraceReply::Body { text: "ip=::1\ncolo=VIE\n".to_string() }).unwrap();
    assert_eq!(info.location, "VIE");
    assert_eq!(info.ip, "::1");
}

#[test]
fn one_measured_download_is_the_download_speed() {
    let mut speeds = HashMap::new();
    speeds.insert(25_000_000, d(17.5));
    let server = ServerInfo { location: "FRA".to_string(), ip: "192.0.2.1".to_string() };
    let r = SpeedTestResults::assemble(server, d(1.0), d(2.0), d(3.0), &speeds, d(4.0));
    assert_eq!(r.download_mbps, r.speed_25mb);
    for shown in [r.speed_100kb, r.speed_1mb, r.speed_10mb, r.speed_25mb, r.speed_100mb] {
        assert!(shown.le(r.download_mbps));
    }
}

