use speed_cloudflare_cli::config::{client_settings, IpVersion, SpeedTestConfig};
use speed_cloudflare_cli::failure::Failure;
use speed_cloudflare_cli::request::{
    download_request, generate_random_data, is_success, payload, random_upload_request,
    trace_request, upload_request, Request,
};
use std::str::FromStr;

#[test]
fn ip_versions_by_name() {
    assert_eq!(IpVersion::from_str("4"), Ok(IpVersion::V4));
    assert_eq!(IpVersion::from_str("6"), Ok(IpVersion::V6));
    assert_eq!(IpVersion::from_str("auto"), Ok(IpVersion::Auto));
    for name in ["", "5", "46", "Auto", "auto "] {
        assert_eq!(IpVersion::from_str(name), Err(format!("Invalid IP version: {}", name)));
    }
}

#[test]
fn default_configuration() {
    let config = SpeedTestConfig::default();
    assert_eq!(
        config.download_bytes,
        vec![100_000, 1_000_000, 10_000_000, 25_000_000, 100_000_000]
    );
    assert_eq!(
        config.upload_bytes,
        vec![1_000, 10_000, 100_000, 1_000_000, 10_000_000, 25_000_000]
    );
    assert_eq!(config.latency_tests, 20);
    assert_eq!(config.packet_loss_tests, 50);
    assert_eq!(config.ip_version, IpVersion::Auto);
    assert!(!config.single_threaded);
    let copy = config.clone();
    assert_eq!(copy.download_bytes, config.download_bytes);
    assert_eq!(copy.upload_bytes, config.upload_bytes);
}

#[test]
fn chosen_options_replace_the_defaults() {
    let config = SpeedTestConfig::with_options(IpVersion::V6, true);
    assert_eq!(config.ip_version, IpVersion::V6);
    assert!(config.single_threaded);
    assert_eq!(config.latency_tests, 20);
    assert_eq!(config.download_bytes.len(), 5);
}

#[test]
fn client_settings_by_version() {
    let v4 = client_settings(IpVersion::V4);
    assert_eq!(v4.timeout_secs, 30);
    let address = v4.local_address.unwrap();
    assert_eq!(address.text, "0.0.0.0");
    assert_eq!(address.failure.message(), "Failed to parse IPv4 address");
    let address = client_settings(IpVersion::V6).local_address.unwrap();
    assert_eq!(address.text, "::");
    assert_eq!(address.failure.message(), "Failed to parse IPv6 address");
    let auto = client_settings(IpVersion::Auto);
    assert_eq!(auto.timeout_secs, 30);
    assert!(auto.local_address.is_none());
}

#[test]
fn failures_are_worded() {
    let expected = [
        (Failure::BuildClient, "Failed to build HTTP client"),
        (Failure::SendLatencyProbe, "Failed to send latency test request"),
        (Failure::GetServerInfo, "Failed to get server info"),
        (Failure::ReadServerInfo, "Failed to read server info response"),
        (Failure::SendDownload, "Failed to send download test request"),
        (Failure::ReadDownload, "Failed to read download response"),
        (Failure::SendUpload, "Failed to send upload test request"),
        (Failure::ParseCount, "Failed to parse count value"),
        (Failure::SerializeResults, "Failed to serialize results"),
    ];
    for (failure, message) in expected {
        assert_eq!(failure.message(), message);
    }
}

#[test]
fn requests_go_to_cloudflare() {
    match trace_request() {
        Request::Get { url } => assert_eq!(url, "https://www.cloudflare.com/cdn-cgi/trace"),
        _ => panic!("not a plain request"),
    }
    match download_request(25_000_000) {
        Request::GetWith { url, name, value } => {
            assert_eq!(url, "https://speed.cloudflare.com/__down");
            assert_eq!(name, "bytes");
            assert_eq!(value, "25000000");
        }
        _ => panic!("not a request with a parameter"),
    }
    match upload_request(payload(vec![1, 2, 3])) {
        Request::Post { url, body } => {
            assert_eq!(url, "https://speed.cloudflare.com/__up");
            assert_eq!(&body[..], &[1u8, 2, 3]);
        }
        _ => panic!("not a request with a body"),
    }
    match random_upload_request(1_000) {
        Request::Post { url, body } => {
            assert_eq!(url, "https://speed.cloudflare.com/__up");
            assert_eq!(body.len(), 1_000);
        }
        _ => panic!("not a request with a body"),
    }
}

#[test]
fn random_data_has_the_size_and_varies() {
    assert_eq!(generate_random_data(0).len(), 0);
    let data = generate_random_data(4_096);
    assert_eq!(data.len(), 4_096);
    let first = data[0];
    assert!(data.iter().any(|&b| b != first));
    assert!(generate_random_data(4_096) != data);
}

#[test]
fn payload_keeps_the_bytes() {
    let data: Vec<u8> = (0..=255).collect();
    assert_eq!(payload(data.clone()).to_vec(), data);
    let mut roomy: Vec<u8> = Vec::with_capacity(100);
    roomy.push(9);
    assert_eq!(payload(roomy).to_vec(), vec![9]);
}

#[test]
fn success_is_two_hundred_something() {
    for (status, success) in
        [(100, false), (199, false), (200, true), (204, true), (299, true), (300, false), (404, false), (503, false)]
    {
        assert_eq!(is_success(status), success);
    }
}
