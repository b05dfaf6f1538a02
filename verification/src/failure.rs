//! Failures that end a speed test, and how they are worded.

use vstd::prelude::*;

verus! {

/// What went wrong.
#[derive(Clone, Copy, Debug, PartialEq, Eq, Structural)]
pub enum Failure {
    ParseIpv4Address,
    ParseIpv6Address,
    BuildClient,
    SendLatencyProbe,
    GetServerInfo,
    ReadServerInfo,
    SendDownload,
    ReadDownload,
    SendUpload,
    ParseCount,
    SerializeResults,
}

impl Failure {
    /// The wording of the failure.
    pub open spec fn wording(self) -> Seq<char> {
        match self {
            Failure::ParseIpv4Address => "Failed to parse IPv4 address"@,
            Failure::ParseIpv6Address => "Failed to parse IPv6 address"@,
            Failure::BuildClient => "Failed to build HTTP client"@,
            Failure::SendLatencyProbe => "Failed to send latency test request"@,
            Failure::GetServerInfo => "Failed to get server info"@,
            Failure::ReadServerInfo => "Failed to read server info response"@,
            Failure::SendDownload => "Failed to send download test request"@,
            Failure::ReadDownload => "Failed to read download response"@,
            Failure::SendUpload => "Failed to send upload test request"@,
            Failure::ParseCount => "Failed to parse count value"@,
            Failure::SerializeResults => "Failed to serialize results"@,
        }
    }

    /// The wording of the failure.
    pub fn message(self) -> (m: &'static str)
        ensures
            m@ == self.wording(),
    {
        match self {
            Failure::ParseIpv4Address => "Failed to parse IPv4 address",
            Failure::ParseIpv6Address => "Failed to parse IPv6 address",
            Failure::BuildClient => "Failed to build HTTP client",
            Failure::SendLatencyProbe => "Failed to send latency test request",
            Failure::GetServerInfo => "Failed to get server info",
            Failure::ReadServerInfo => "Failed to read server info response",
            Failure::SendDownload => "Failed to send download test request",
            Failure::ReadDownload => "Failed to read download response",
            Failure::SendUpload => "Failed to send upload test request",
            Failure::ParseCount => "Failed to parse count value",
            Failure::SerializeResults => "Failed to serialize results",
        }
    }
}

} // verus!
