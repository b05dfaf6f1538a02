//! Output with colours on. Every test in this file switches them on.

use speed_cloudflare_cli::config::SpeedTestConfig;
use speed_cloudflare_cli::double::Double;
use speed_cloudflare_cli::rating::{get_latency_rating, get_packet_loss_rating, get_speed_rating};
use speed_cloudflare_cli::report::{display_results, Piece};
use speed_cloudflare_cli::results::SpeedTestResults;
use speed_cloudflare_cli::session::{
    error_line, ip_version_hint, mode_line, numbering_line, opening_line, Measurement,
};

fn d(x: f64) -> Double {
    Double::from_bits(x.to_bits())
}

fn printed(pieces: Vec<Piece>) -> String {
    let mut out = String::new();
    for piece in pieces {
        match piece {
            Piece::Text(t) => out.push_str(&t),
            Piece::Number(v) => out.push_str(&format!("{:.2}", f64::from_bits(v.to_bits()))),
        }
    }
    out
}

fn results() -> SpeedTestResults {
    SpeedTestResults {
        server_location: "FRA".to_string(),
        your_ip: "192.0.2.17".to_string(),
        latency_ms: d(21.456),
        packet_loss_pct: d(0.0),
        speed_100kb: d(12.0),
        speed_1mb: d(0.0),
        speed_10mb: d(-0.0),
        speed_25mb: d(f64::NAN),
        speed_100mb: d(240.126),
        download_mbps: d(240.126),
        upload_mbps: d(31.5),
        jitter_ms: d(1.25),
    }
}

#[test]
fn ratings_are_coloured() {
    colored::control::set_override(true);
    assert_eq!(get_speed_rating(d(150.0)), "\x1b[92mExcellent\x1b[0m");
    assert_eq!(get_speed_rating(d(60.0)), "\x1b[32mGood\x1b[0m");
    assert_eq!(get_latency_rating(d(70.0)), "\x1b[33mFair\x1b[0m");
    assert_eq!(get_latency_rating(d(150.0)), "\x1b[31mPoor\x1b[0m");
    assert_eq!(get_packet_loss_rating(d(6.0)), "\x1b[91mVery Poor\x1b[0m");
}

#[test]
fn report_with_colours() {
    colored::control::set_override(true);
    let out = printed(display_results(&results()));
    assert!(out.contains("\x1b[1;96m           CLOUDFLARE SPEED TEST RESULTS\x1b[0m\n"));
    assert!(out.contains("\x1b[97mServer location:    \x1b[0m \x1b[92mFRA\x1b[0m\n"));
    assert!(out.contains("\x1b[97mLatency:            \x1b[0m 21.46 \x1b[93mms\x1b[0m\n"));
    assert!(out.contains("\x1b[97mPacket Loss:        \x1b[0m 0.00 \x1b[91m%\x1b[0m\n"));
    assert!(out.contains("\x1b[97m100kB speed:        \x1b[0m 12.00 \x1b[96mMbps\x1b[0m\n"));
    assert!(out.contains("\x1b[1;97mConnection Quality:\x1b[0m\n"));
    assert!(out.contains("  Latency:   \x1b[32mGood\x1b[0m\n"));
}

#[test]
fn colours_are_reopened_after_a_reset() {
    colored::control::set_override(true);
    let mut r = results();
    r.server_location = "a\x1b[0mb\x1b[0m".to_string();
    let out = printed(display_results(&r));
    assert!(out.contains(" \x1b[92ma\x1b[0m\x1b[92mb\x1b[0m\x1b[92m\x1b[0m\n"));
}

#[test]
fn measurements_announce_themselves() {
    colored::control::set_override(true);
    let config = SpeedTestConfig::default();
    assert_eq!(Measurement::Latency.announce(), "\x1b[33mMeasuring latency...\x1b[0m");
    assert_eq!(Measurement::PacketLoss.announce(), "\x1b[33mMeasuring packet loss...\x1b[0m");
    assert_eq!(Measurement::Download.announce(), "\x1b[33mMeasuring download speed...\x1b[0m");
    assert_eq!(Measurement::Upload.announce(), "\x1b[33mMeasuring upload speed...\x1b[0m");
    assert_eq!(Measurement::Latency.conclude(), "Latency measurement complete");
    assert_eq!(Measurement::PacketLoss.conclude(), "Packet loss measurement complete");
    assert_eq!(Measurement::Download.conclude(), "Download speed measurement complete");
    assert_eq!(Measurement::Upload.conclude(), "Upload speed measurement complete");
    assert_eq!(Measurement::Latency.steps(&config), 20);
    assert_eq!(Measurement::PacketLoss.steps(&config), 50);
    assert_eq!(Measurement::Download.steps(&config), 5);
    assert_eq!(Measurement::Upload.steps(&config), 6);
}

#[test]
fn lines_along_the_way() {
    colored::control::set_override(true);
    assert_eq!(opening_line(), "\x1b[96mStarting Cloudflare Speed Test...\x1b[0m");
    assert_eq!(mode_line(true), "\x1b[33mRunning in single-threaded mode\x1b[0m");
    assert_eq!(mode_line(false), "\x1b[33mRunning in multi-threaded mode\x1b[0m");
    assert_eq!(numbering_line(1, 1), None);
    assert_eq!(numbering_line(1, 0), None);
    assert_eq!(numbering_line(2, 10).unwrap(), "\x1b[93mRunning test 2 of 10\x1b[0m");
    assert_eq!(error_line("no route"), "\x1b[91mError\x1b[0m: no route");
    assert_eq!(ip_version_hint(), "Invalid IP version. Use 4, 6, or auto.");
}
