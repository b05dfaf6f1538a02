//! What a speed test is configured with.

use crate::failure::Failure;
use crate::text;
use std::str::FromStr;
use vstd::prelude::*;

verus! {

/// Which IP version the test connects over.
#[derive(Clone, Copy, Debug, PartialEq, Eq, Structural)]
pub enum IpVersion {
    V4,
    V6,
    Auto,
}

/// The version that a name stands for.
pub open spec fn ip_version_named(name: Seq<char>) -> Option<IpVersion> {
    if name == "4"@ {
        Some(IpVersion::V4)
    } else if name == "6"@ {
        Some(IpVersion::V6)
    } else if name == "auto"@ {
        Some(IpVersion::Auto)
    } else {
        None
    }
}

impl FromStr for IpVersion {
    type Err = String;

    /// Reads `4`, `6` or `auto`; any other name is refused with a message that
    /// repeats it.
    fn from_str(s: &str) -> (r: Result<IpVersion, String>)
        ensures
            match r {
                Ok(version) => ip_version_named(s@) == Some(version),
                Err(message) => ip_version_named(s@) is None && message@ == "Invalid IP version: "@
                    + s@,
            },
    {
        if text::same(s, "4") {
            Ok(IpVersion::V4)
        } else if text::same(s, "6") {
            Ok(IpVersion::V6)
        } else if text::same(s, "auto") {
            Ok(IpVersion::Auto)
        } else {
            Err(text::join("Invalid IP version: ", s))
        }
    }
}

/// What a speed test is configured with.
#[derive(Debug)]
pub struct SpeedTestConfig {
    pub download_bytes: Vec<usize>,
    pub upload_bytes: Vec<usize>,
    pub latency_tests: usize,
    pub packet_loss_tests: usize,
    pub ip_version: IpVersion,
    pub single_threaded: bool,
}

/// The sizes of the default downloads.
pub open spec fn default_download_bytes() -> Seq<usize> {
    seq![100_000, 1_000_000, 10_000_000, 25_000_000, 100_000_000]
}

/// The sizes of the default uploads.
pub open spec fn default_upload_bytes() -> Seq<usize> {
    seq![1_000, 10_000, 100_000, 1_000_000, 10_000_000, 25_000_000]
}

impl Clone for SpeedTestConfig {
    fn clone(&self) -> (copy: SpeedTestConfig)
        ensures
            copy.download_bytes@ == self.download_bytes@,
            copy.upload_bytes@ == self.upload_bytes@,
            copy.latency_tests == self.latency_tests,
            copy.packet_loss_tests == self.packet_loss_tests,
            copy.ip_version == self.ip_version,
            copy.single_threaded == self.single_threaded,
    {
        let download_bytes = self.download_bytes.clone();
        let upload_bytes = self.upload_bytes.clone();
        assert(download_bytes@ == self.download_bytes@);
        assert(upload_bytes@ == self.upload_bytes@);
        SpeedTestConfig {
            download_bytes,
            upload_bytes,
            latency_tests: self.latency_tests,
            packet_loss_tests: self.packet_loss_tests,
            ip_version: self.ip_version,
            single_threaded: self.single_threaded,
        }
    }
}

impl Default for SpeedTestConfig {
    fn default() -> (config: SpeedTestConfig)
        ensures
            config.download_bytes@ == default_download_bytes(),
            config.upload_bytes@ == default_upload_bytes(),
            config.latency_tests == 20,
            config.packet_loss_tests == 50,
            config.ip_version == IpVersion::Auto,
            config.single_threaded == false,
    {
        SpeedTestConfig {
            download_bytes: vec![100_000, 1_000_000, 10_000_000, 25_000_000, 100_000_000],
            upload_bytes: vec![1_000, 10_000, 100_000, 1_000_000, 10_000_000, 25_000_000],
            latency_tests: 20,
            packet_loss_tests: 50,
            ip_version: IpVersion::Auto,
            single_threaded: false,
        }
    }
}

impl SpeedTestConfig {
    /// The default configuration with the given IP version and threading. Whether
    /// only one direction is to be sequential is no part of the configuration: see
    /// [`crate::transfer::download_mode`] and [`crate::transfer::upload_mode`].
    pub fn with_options(ip_version: IpVersion, single_threaded: bool) -> (config: SpeedTestConfig)
        ensures
            config.download_bytes@ == default_download_bytes(),
            config.upload_bytes@ == default_upload_bytes(),
            config.latency_tests == 20,
            config.packet_loss_tests == 50,
            config.ip_version == ip_version,
            config.single_threaded == single_threaded,
    {
        let mut config = SpeedTestConfig::default();
        config.ip_version = ip_version;
        config.single_threaded = single_threaded;
        config
    }
}

/// A local address to bind to, and the failure to report if it cannot be read.
#[derive(Debug)]
pub struct LocalAddress {
    pub text: String,
    pub failure: Failure,
}

/// How the HTTP client is set up.
#[derive(Debug)]
pub struct ClientSettings {
    /// How long a request may take.
    pub timeout_secs: u64,
    /// The local address to bind to, if one is forced.
    pub local_address: Option<LocalAddress>,
}

/// The local address that forces an IP version, which is the unspecified one of
/// that version, and the failure to report if it cannot be read.
pub open spec fn local_address_of(version: IpVersion) -> Option<(Seq<char>, Failure)> {
    match version {
        IpVersion::V4 => Some(("0.0.0.0"@, Failure::ParseIpv4Address)),
        IpVersion::V6 => Some(("::"@, Failure::ParseIpv6Address)),
        IpVersion::Auto => None,
    }
}

/// The client settings for an IP version.
pub fn client_settings(version: IpVersion) -> (settings: ClientSettings)
    ensures
        settings.timeout_secs == 30,
        match settings.local_address {
            Some(address) => local_address_of(version) == Some((address.text@, address.failure)),
            None => local_address_of(version) is None,
        },
{
    let local_address = match version {
        IpVersion::V4 => Some(
            LocalAddress { text: "0.0.0.0".to_string(), failure: Failure::ParseIpv4Address },
        ),
        IpVersion::V6 => Some(
            LocalAddress { text: "::".to_string(), failure: Failure::ParseIpv6Address },
        ),
        IpVersion::Auto => None,
    };
    ClientSettings { timeout_secs: 30, local_address }
}

/// Every version has one name, `4`, `6` or `auto`, and no other text names one.
pub proof fn each_version_has_one_name(a: Seq<char>, b: Seq<char>)
    ensures
        ip_version_named(a) is Some && ip_version_named(a) == ip_version_named(b) ==> a == b,
        ip_version_named(a) == Some(IpVersion::V4) <==> a == seq!['4'],
        ip_version_named(a) == Some(IpVersion::V6) <==> a == seq!['6'],
        ip_version_named(a) == Some(IpVersion::Auto) <==> a == seq!['a', 'u', 't', 'o'],
{
    reveal_strlit("4");
    reveal_strlit("6");
    reveal_strlit("auto");
    assert("4"@ == seq!['4']);
    assert("6"@ == seq!['6']);
    assert("auto"@ == seq!['a', 'u', 't', 'o']);
    assert("4"@[0] == '4' && "6"@[0] == '6' && "auto"@[0] == 'a');
}

} // verus!
