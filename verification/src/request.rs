//! The HTTP requests that a speed test makes.

use crate::text;
use bytes::Bytes;
use vstd::prelude::*;

verus! {

/// Where downloads and probes go.
pub const CLOUDFLARE_DOWNLOAD_URL: &'static str = "https://speed.cloudflare.com/__down";

/// Where uploads go.
pub const CLOUDFLARE_UPLOAD_URL: &'static str = "https://speed.cloudflare.com/__up";

/// Where the server describes the connection.
pub const CLOUDFLARE_TRACE_URL: &'static str = "https://www.cloudflare.com/cdn-cgi/trace";

/// A byte buffer of the `bytes` crate.
#[verifier::external_type_specification]
#[verifier::external_body]
pub struct ExBytes(Bytes);

/// The bytes that a buffer holds.
pub uninterp spec fn contents(buffer: Bytes) -> Seq<u8>;

/// Calls `bytes::Bytes::from` on a vector.
///
/// Believed of it: the buffer holds the bytes of the vector, in order.
#[verifier::external_body]
fn into_bytes(data: Vec<u8>) -> (buffer: Bytes)
    ensures
        contents(buffer) == data@,
{
    Bytes::from(data)
}

/// Calls `rand::random` for one byte. Nothing is believed of the result.
#[verifier::external_body]
fn random_byte() -> u8 {
    rand::random::<u8>()
}

/// A request without a body, with at most one query parameter, or one with a body.
pub enum Request {
    Get { url: &'static str },
    GetWith { url: &'static str, name: &'static str, value: String },
    Post { url: &'static str, body: Bytes },
}

impl Request {
    /// Whether this asks the download address for `size` bytes.
    pub open spec fn asks_for(self, size: usize) -> bool {
        self matches Request::GetWith { url, name, value } && url@ == CLOUDFLARE_DOWNLOAD_URL@
            && name@ == "bytes"@ && value@ == text::decimal_spec(size as nat)
    }

    /// Whether this sends `size` bytes to the upload address.
    pub open spec fn sends(self, size: usize) -> bool {
        self matches Request::Post { url, body } && url@ == CLOUDFLARE_UPLOAD_URL@
            && contents(body).len() == size
    }
}

/// The request for the connection's description.
pub fn trace_request() -> (r: Request)
    ensures
        r matches Request::Get { url } && url@ == CLOUDFLARE_TRACE_URL@,
{
    Request::Get { url: CLOUDFLARE_TRACE_URL }
}

/// The request for a download of `size` bytes.
pub fn download_request(size: usize) -> (r: Request)
    ensures
        r.asks_for(size),
{
    Request::GetWith { url: CLOUDFLARE_DOWNLOAD_URL, name: "bytes", value: text::decimal(size) }
}

/// The request for an upload of `body`.
pub fn upload_request(body: Bytes) -> (r: Request)
    ensures
        r matches Request::Post { url, body: sent } && url@ == CLOUDFLARE_UPLOAD_URL@ && sent
            == body,
{
    Request::Post { url: CLOUDFLARE_UPLOAD_URL, body }
}

/// A buffer of the given bytes.
pub fn payload(data: Vec<u8>) -> (buffer: Bytes)
    ensures
        contents(buffer) == data@,
{
    into_bytes(data)
}

/// `size` random bytes.
fn random_bytes(size: usize) -> (data: Vec<u8>)
    requires
        size <= isize::MAX,
    ensures
        data@.len() == size,
{
    let mut data: Vec<u8> = Vec::with_capacity(size);
    for i in 0..size
        invariant
            data@.len() == i,
    {
        data.push(random_byte());
    }
    data
}

/// A buffer of `size` random bytes. A vector holds no more than `isize::MAX`
/// bytes.
pub fn generate_random_data(size: usize) -> (buffer: Bytes)
    requires
        size <= isize::MAX,
    ensures
        contents(buffer).len() == size,
{
    payload(random_bytes(size))
}

/// The request for an upload of `size` random bytes.
pub fn random_upload_request(size: usize) -> (r: Request)
    requires
        size <= isize::MAX,
    ensures
        r.sends(size),
{
    upload_request(generate_random_data(size))
}

/// Whether an HTTP status is one of success.
pub open spec fn is_success_spec(status: u16) -> bool {
    200 <= status < 300
}

/// Whether an HTTP status is one of success.
pub fn is_success(status: u16) -> (r: bool)
    ensures
        r == is_success_spec(status),
{
    200 <= status && status < 300
}

/// Distinct sizes are asked for by distinct requests.
pub proof fn requests_tell_sizes_apart(r: Request, a: usize, b: usize)
    requires
        r.asks_for(a),
        r.asks_for(b),
    ensures
        a == b,
{
    text::decimal_injective(a as nat, b as nat);
}

/// The statuses of success are those whose first of three digits is a 2.
pub proof fn success_begins_with_two(status: u16)
    ensures
        is_success_spec(status) <==> status / 100 == 2,
{
}

/// A request for a download goes to the download address and names its size in
/// decimal.
pub proof fn download_request_names_its_size(r: Request, size: usize)
    requires
        r.asks_for(size),
    ensures
        r matches Request::GetWith { url, name, value } && url@
            == "https://speed.cloudflare.com/__down"@ && name@ == "bytes"@ && text::numeral_value(
            value@,
        ) == size && (forall|i: int| 0 <= i < value@.len() ==> '0' <= #[trigger] value@[i] <= '9'),
{
    text::decimal_denotes(size as nat);
    text::decimal_is_written_in_digits(size as nat);
}

/// A request for an upload goes to the upload address with as many bytes as
/// asked for.
pub proof fn upload_request_carries_its_size(r: Request, size: usize)
    requires
        r.sends(size),
    ensures
        r matches Request::Post { url, body } && url@ == "https://speed.cloudflare.com/__up"@
            && contents(body).len() == size,
{
}

} // verus!
