//! Output with colours off. Every test in this file switches them off.

use speed_cloudflare_cli::double::Double;
use speed_cloudflare_cli::rating::{get_latency_rating, get_packet_loss_rating, get_speed_rating};
use speed_cloudflare_cli::report::{display_results, Piece};
use speed_cloudflare_cli::results::SpeedTestResults;

fn d(x: f64) -> Double {
    Double::from_bits(x.to_bits())
}

fn printed(pieces: Vec<Piece>) -> String {
    let mut out = String::new();
    for piece in pieces {
        match piece {
            Piece::Text(t) => out.push_str(&t),
            Piece::Number(v) => out.push_str(&format!("{:.2}", f64::from_bits(v.to_bits()))),
        }
    }
    out
}

fn results() -> SpeedTestResults {
    SpeedTestResults {
        server_location: "FRA".to_string(),
        your_ip: "192.0.2.17".to_string(),
        latency_ms: d(21.456),
        packet_loss_pct: d(0.0),
        speed_100kb: d(12.0),
        speed_1mb: d(0.0),
        speed_10mb: d(-0.0),
        speed_25mb: d(f64::NAN),
        speed_100mb: d(240.126),
        download_mbps: d(240.126),
        upload_mbps: d(31.5),
        jitter_ms: d(1.25),
    }
}

#[test]
fn ratings_are_plain_without_colours() {
    colored::control::set_override(false);
    assert_eq!(get_speed_rating(d(150.0)), "Excellent");
    assert_eq!(get_latency_rating(d(250.0)), "Very Poor");
    assert_eq!(get_packet_loss_rating(d(0.7)), "Good");
}

#[test]
fn report_without_colours() {
    colored::control::set_override(false);
    let rule = "═".repeat(60);
    let expected = format!(
        "\n{rule}\n           CLOUDFLARE SPEED TEST RESULTS\n{rule}\n\
Server location:     FRA\n\
Your IP:             192.0.2.***\n\
Latency:             21.46 ms\n\
Packet Loss:         0.00 %\n\
100kB speed:         12.00 Mbps\n\
100MB speed:         240.13 Mbps\n\
Download speed:      240.13 Mbps\n\
Upload speed:        31.50 Mbps\n\
{rule}\n\
\nConnection Quality:\n\
\x20 Download:  Excellent\n\
\x20 Latency:   Good\n\
\x20 Packet Loss: Excellent\n",
        rule = rule
    );
    assert_eq!(printed(display_results(&results())), expected);
}
