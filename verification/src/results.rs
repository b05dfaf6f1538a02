//! The results of a speed test.

use crate::config::default_download_bytes;
use crate::double::Double;
use crate::trace::ServerInfo;
use std::collections::HashMap;
use vstd::prelude::*;
use vstd::std_specs::iter::IteratorSpec;

verus! {

broadcast use vstd::std_specs::hash::group_hash_axioms;

/// What a speed test has found out.
#[derive(Debug)]
pub struct SpeedTestResults {
    pub server_location: String,
    pub your_ip: String,
    pub latency_ms: Double,
    pub packet_loss_pct: Double,
    pub speed_100kb: Double,
    pub speed_1mb: Double,
    pub speed_10mb: Double,
    pub speed_25mb: Double,
    pub speed_100mb: Double,
    pub download_mbps: Double,
    pub upload_mbps: Double,
    pub jitter_ms: Double,
}

/// Negative infinity.
pub open spec fn negative_infinity() -> Double {
    Double { bits: 0xfff0_0000_0000_0000 }
}

/// The speed measured for `size`; zero if there is none.
pub open spec fn speed_for(speeds: Map<usize, Double>, size: usize) -> Double {
    if speeds.contains_key(size) {
        speeds[size]
    } else {
        Double::zero()
    }
}

/// Whether `d` is the largest of the speeds: a number that none of the speeds
/// exceeds, and one of them unless it is negative infinity. Speeds that are not
/// numbers do not count.
pub open spec fn is_fastest(speeds: Map<usize, Double>, d: Double) -> bool {
    &&& !d.is_nan_spec()
    &&& forall|size: usize|
        speeds.contains_key(size) && !(#[trigger] speeds[size]).is_nan_spec()
            ==> speeds[size].at_most(d)
    &&& d == negative_infinity() || exists|size: usize|
        speeds.contains_key(size) && #[trigger] speeds[size] == d
}

/// The speed measured for `size`.
fn lookup(speeds: &HashMap<usize, Double>, size: usize) -> (d: Double)
    ensures
        d == speed_for(speeds@, size),
{
    match speeds.get(&size) {
        Some(d) => *d,
        None => Double::zero(),
    }
}

/// The largest of the speeds.
pub fn fastest(speeds: &HashMap<usize, Double>) -> (d: Double)
    ensures
        is_fastest(speeds@, d),
{
    let mut d = Double::from_bits(0xfff0_0000_0000_0000);
    let values = speeds.values();
    let ghost all: Seq<&Double> = IteratorSpec::remaining(&values);
    for speed in iter: values
        invariant
            iter.seq() == all,
            !d.is_nan_spec(),
            forall|i: int|
                0 <= i < iter.index() && !(*#[trigger] all[i]).is_nan_spec() ==> (
                *all[i]).at_most(d),
            d == negative_infinity() || exists|i: int|
                0 <= i < iter.index() && *(#[trigger] all[i]) == d,
    {
        d = d.max(*speed);
    }
    proof {
        let numbers = all.unref();
        assert(numbers.to_set() == speeds@.values());
        assert forall|size: usize|
            speeds@.contains_key(size) && !(
            #[trigger] speeds@[size]).is_nan_spec() implies speeds@[size].at_most(d) by {
            assert(speeds@.values().contains(speeds@[size]));
            assert(numbers.contains(speeds@[size]));
            let i = choose|i: int| 0 <= i < numbers.len() && numbers[i] == speeds@[size];
            assert(*all[i] == speeds@[size]);
        }
        if d != negative_infinity() {
            let i = choose|i: int| 0 <= i < all.len() && *(#[trigger] all[i]) == d;
            assert(numbers[i] == d);
            assert(numbers.to_set().contains(d));
            assert(speeds@.values().contains(d));
        }
    }
    d
}

impl SpeedTestResults {
    /// Puts the measurements together.
    pub fn assemble(
        server: ServerInfo,
        latency_ms: Double,
        jitter_ms: Double,
        packet_loss_pct: Double,
        download_speeds: &HashMap<usize, Double>,
        upload_mbps: Double,
    ) -> (r: SpeedTestResults)
        ensures
            r.server_location@ == server.location@,
            r.your_ip@ == server.ip@,
            r.latency_ms == latency_ms,
            r.packet_loss_pct == packet_loss_pct,
            r.speed_100kb == speed_for(download_speeds@, 100_000),
            r.speed_1mb == speed_for(download_speeds@, 1_000_000),
            r.speed_10mb == speed_for(download_speeds@, 10_000_000),
            r.speed_25mb == speed_for(download_speeds@, 25_000_000),
            r.speed_100mb == speed_for(download_speeds@, 100_000_000),
            is_fastest(download_speeds@, r.download_mbps),
            r.upload_mbps == upload_mbps,
            r.jitter_ms == jitter_ms,
            forall|size: usize|
                default_download_bytes().contains(size) ==> #[trigger] r.speed_shown(size) == Some(
                    speed_for(download_speeds@, size),
                ),
    {
        SpeedTestResults {
            server_location: server.location,
            your_ip: server.ip,
            latency_ms,
            packet_loss_pct,
            speed_100kb: lookup(download_speeds, 100_000),
            speed_1mb: lookup(download_speeds, 1_000_000),
            speed_10mb: lookup(download_speeds, 10_000_000),
            speed_25mb: lookup(download_speeds, 25_000_000),
            speed_100mb: lookup(download_speeds, 100_000_000),
            download_mbps: fastest(download_speeds),
            upload_mbps,
            jitter_ms,
        }
    }

    /// The speed shown for a download size, if that size has a place in the
    /// results.
    pub open spec fn speed_shown(self, size: usize) -> Option<Double> {
        if size == 100_000 {
            Some(self.speed_100kb)
        } else if size == 1_000_000 {
            Some(self.speed_1mb)
        } else if size == 10_000_000 {
            Some(self.speed_10mb)
        } else if size == 25_000_000 {
            Some(self.speed_25mb)
        } else if size == 100_000_000 {
            Some(self.speed_100mb)
        } else {
            None
        }
    }
}

/// The download sizes with a place in the results are exactly the default ones.
pub proof fn default_sizes_are_shown(r: SpeedTestResults, size: usize)
    ensures
        r.speed_shown(size) is Some <==> default_download_bytes().contains(size),
{
    let sizes = default_download_bytes();
    assert(sizes[0] == 100_000 && sizes[1] == 1_000_000 && sizes[2] == 10_000_000 && sizes[3]
        == 25_000_000 && sizes[4] == 100_000_000);
}

/// Two largest speeds of the same measurements are the same number, so the
/// order in which the speeds are looked at does not matter.
pub proof fn fastest_is_one_number(speeds: Map<usize, Double>, a: Double, b: Double)
    requires
        is_fastest(speeds, a),
        is_fastest(speeds, b),
    ensures
        a.value() == b.value(),
{
    crate::double::lemma_negative_infinity_is_least(a);
    crate::double::lemma_negative_infinity_is_least(b);
}

/// If some default download was measured above zero, the measured sizes are
/// among the default ones and all speeds are numbers, then the download speed is
/// the largest of the five that are shown.
pub proof fn download_speed_is_largest_shown(
    speeds: Map<usize, Double>,
    r: SpeedTestResults,
    measured: usize,
    size: usize,
)
    requires
        is_fastest(speeds, r.download_mbps),
        forall|s: usize| speeds.contains_key(s) ==> default_download_bytes().contains(s),
        forall|s: usize| speeds.contains_key(s) ==> !(#[trigger] speeds[s]).is_nan_spec(),
        speeds.contains_key(measured),
        speeds[measured].value() > 0,
        forall|s: usize|
            default_download_bytes().contains(s) ==> #[trigger] r.speed_shown(s) == Some(
                speed_for(speeds, s),
            ),
        default_download_bytes().contains(size),
    ensures
        r.speed_shown(size) matches Some(d) && d.at_most(r.download_mbps),
        exists|s: usize|
            default_download_bytes().contains(s) && #[trigger] r.speed_shown(s) == Some(
                r.download_mbps,
            ),
{
    assert(r.speed_shown(size) == Some(speed_for(speeds, size)));
    assert(speeds[measured].at_most(r.download_mbps));
    if speeds.contains_key(size) {
        assert(speeds[size].at_most(r.download_mbps));
    }
    let s = choose|s: usize| speeds.contains_key(s) && #[trigger] speeds[s] == r.download_mbps;
    assert(r.speed_shown(s) == Some(r.download_mbps));
}

/// The speed measured for a size is the one recorded for it, whatever was recorded
/// before and whatever is recorded for other sizes. Without one it is zero.
pub proof fn recorded_speed_is_found(
    speeds: Map<usize, Double>,
    size: usize,
    speed: Double,
    other: usize,
)
    ensures
        speed_for(speeds.insert(size, speed), size) == speed,
        other != size ==> speed_for(speeds.insert(size, speed), other) == speed_for(speeds, other),
        !speed_for(speeds.remove(size), size).is_nan_spec(),
        speed_for(speeds.remove(size), size).value() == 0,
{
}

/// The largest speed is one of those measured, and none of them exceeds it, as
/// soon as one of them is a number.
pub proof fn fastest_is_measured(speeds: Map<usize, Double>, d: Double, size: usize)
    requires
        is_fastest(speeds, d),
        speeds.contains_key(size),
        !speeds[size].is_nan_spec(),
    ensures
        !d.is_nan_spec(),
        speeds[size].value() <= d.value(),
        speeds.values().contains(d),
{
    crate::double::lemma_negative_infinity_is_least(speeds[size]);
    let s = choose|s: usize| speeds.contains_key(s) && #[trigger] speeds[s] == d;
    assert(speeds[size] == d || speeds.contains_key(s) && speeds[s] == d);
}

/// One more download changes the largest speed only if it is faster, and then its
/// speed is the largest.
pub proof fn faster_download_takes_the_lead(
    speeds: Map<usize, Double>,
    size: usize,
    speed: Double,
    before: Double,
    after: Double,
)
    requires
        !speeds.contains_key(size),
        is_fastest(speeds, before),
        is_fastest(speeds.insert(size, speed), after),
    ensures
        speed.is_nan_spec() ==> after.value() == before.value(),
        speed.at_most(before) ==> after.value() == before.value(),
        before.at_most(speed) ==> after.value() == speed.value(),
{
    let more = speeds.insert(size, speed);
    crate::double::lemma_negative_infinity_is_least(before);
    crate::double::lemma_negative_infinity_is_least(after);
    assert(more[size] == speed);
    if !speed.is_nan_spec() {
        crate::double::lemma_negative_infinity_is_least(speed);
        assert(more[size].at_most(after));
    }
    if before != negative_infinity() {
        let s = choose|s: usize| speeds.contains_key(s) && #[trigger] speeds[s] == before;
        assert(more.contains_key(s) && more[s] == before);
        assert(more[s].at_most(after));
    }
    if after != negative_infinity() {
        let s = choose|s: usize| more.contains_key(s) && #[trigger] more[s] == after;
        if s != size {
            assert(speeds.contains_key(s) && speeds[s] == after);
            assert(speeds[s].at_most(before));
        }
    }
}

} // verus!
