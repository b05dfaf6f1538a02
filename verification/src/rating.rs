//! Rating the measured values.

use crate::double::{half, lemma_whole, whole, Double};
use crate::style::{appears, paint, Colour};
use vstd::arithmetic::power2::{lemma2_to64, lemma2_to64_rest, pow2};
use vstd::prelude::*;

verus! {

/// The bits of 0.5.
const HALF: u64 = 0x3fe0_0000_0000_0000;

/// The bits of 1.
const ONE: u64 = 0x3ff0_0000_0000_0000;

/// The bits of 2.
const TWO: u64 = 0x4000_0000_0000_0000;

/// The bits of 5.
const FIVE: u64 = 0x4014_0000_0000_0000;

/// The bits of 10.
const TEN: u64 = 0x4024_0000_0000_0000;

/// The bits of 20.
const TWENTY: u64 = 0x4034_0000_0000_0000;

/// The bits of 25.
const TWENTY_FIVE: u64 = 0x4039_0000_0000_0000;

/// The bits of 50.
const FIFTY: u64 = 0x4049_0000_0000_0000;

/// The bits of 100.
const HUNDRED: u64 = 0x4059_0000_0000_0000;

/// The bits of 200.
const TWO_HUNDRED: u64 = 0x4069_0000_0000_0000;

/// How good a value is.
#[derive(Clone, Copy, Debug, PartialEq, Eq, Structural)]
pub enum Rating {
    Excellent,
    Good,
    Fair,
    Poor,
    VeryPoor,
}

impl Rating {
    /// The place of the rating, the best first.
    pub open spec fn place(self) -> int {
        match self {
            Rating::Excellent => 0,
            Rating::Good => 1,
            Rating::Fair => 2,
            Rating::Poor => 3,
            Rating::VeryPoor => 4,
        }
    }

    /// The name of the rating.
    pub open spec fn label_spec(self) -> Seq<char> {
        match self {
            Rating::Excellent => "Excellent"@,
            Rating::Good => "Good"@,
            Rating::Fair => "Fair"@,
            Rating::Poor => "Poor"@,
            Rating::VeryPoor => "Very Poor"@,
        }
    }

    /// The colour that the rating is shown in.
    pub open spec fn colour_spec(self) -> Colour {
        match self {
            Rating::Excellent => Colour::BrightGreen,
            Rating::Good => Colour::Green,
            Rating::Fair => Colour::Yellow,
            Rating::Poor => Colour::Red,
            Rating::VeryPoor => Colour::BrightRed,
        }
    }

    /// The name of the rating.
    pub fn label(self) -> (t: &'static str)
        ensures
            t@ == self.label_spec(),
    {
        match self {
            Rating::Excellent => "Excellent",
            Rating::Good => "Good",
            Rating::Fair => "Fair",
            Rating::Poor => "Poor",
            Rating::VeryPoor => "Very Poor",
        }
    }

    /// The colour that the rating is shown in.
    pub fn colour(self) -> (c: Colour)
        ensures
            c == self.colour_spec(),
    {
        match self {
            Rating::Excellent => Colour::BrightGreen,
            Rating::Good => Colour::Green,
            Rating::Fair => Colour::Yellow,
            Rating::Poor => Colour::Red,
            Rating::VeryPoor => Colour::BrightRed,
        }
    }

    /// The name of the rating, in its colour where colours are on.
    pub fn show(self) -> (t: String)
        ensures
            appears(t@, self.label_spec(), self.colour_spec(), false),
    {
        paint(self.label(), self.colour())
    }
}

/// The rating of a speed in Mbps: from 100, 50, 25 and 10 on. What is not a
/// number is rated worst.
pub open spec fn speed_rating_of(mbps: Double) -> Rating {
    if mbps.is_nan_spec() {
        Rating::VeryPoor
    } else if mbps.value() >= whole(100) {
        Rating::Excellent
    } else if mbps.value() >= whole(50) {
        Rating::Good
    } else if mbps.value() >= whole(25) {
        Rating::Fair
    } else if mbps.value() >= whole(10) {
        Rating::Poor
    } else {
        Rating::VeryPoor
    }
}

/// The rating of a latency in milliseconds: up to 20, 50, 100 and 200. What is
/// not a number is rated worst.
pub open spec fn latency_rating_of(ms: Double) -> Rating {
    if ms.is_nan_spec() {
        Rating::VeryPoor
    } else if ms.value() <= whole(20) {
        Rating::Excellent
    } else if ms.value() <= whole(50) {
        Rating::Good
    } else if ms.value() <= whole(100) {
        Rating::Fair
    } else if ms.value() <= whole(200) {
        Rating::Poor
    } else {
        Rating::VeryPoor
    }
}

/// The rating of a packet loss in percent: up to 0.5, 1, 2 and 5. What is not a
/// number is rated worst.
pub open spec fn packet_loss_rating_of(percent: Double) -> Rating {
    if percent.is_nan_spec() {
        Rating::VeryPoor
    } else if percent.value() <= half() {
        Rating::Excellent
    } else if percent.value() <= whole(1) {
        Rating::Good
    } else if percent.value() <= whole(2) {
        Rating::Fair
    } else if percent.value() <= whole(5) {
        Rating::Poor
    } else {
        Rating::VeryPoor
    }
}

/// The bits of the thresholds encode the numbers that they are named after.
proof fn lemma_thresholds()
    ensures
        ({
            let d = |bits: u64| Double { bits };
            &&& d(HALF).value() == half()
            &&& d(ONE).value() == whole(1)
            &&& d(TWO).value() == whole(2)
            &&& d(FIVE).value() == whole(5)
            &&& d(TEN).value() == whole(10)
            &&& d(TWENTY).value() == whole(20)
            &&& d(TWENTY_FIVE).value() == whole(25)
            &&& d(FIFTY).value() == whole(50)
            &&& d(HUNDRED).value() == whole(100)
            &&& d(TWO_HUNDRED).value() == whole(200)
        }),
{
    lemma2_to64();
    lemma2_to64_rest();
    lemma_whole(Double { bits: ONE }, 1, 52);
    lemma_whole(Double { bits: TWO }, 2, 51);
    lemma_whole(Double { bits: FIVE }, 5, 50);
    lemma_whole(Double { bits: TEN }, 10, 49);
    lemma_whole(Double { bits: TWENTY }, 20, 48);
    lemma_whole(Double { bits: TWENTY_FIVE }, 25, 48);
    lemma_whole(Double { bits: FIFTY }, 50, 47);
    lemma_whole(Double { bits: HUNDRED }, 100, 46);
    lemma_whole(Double { bits: TWO_HUNDRED }, 200, 45);
    let d = Double { bits: HALF };
    assert(d.value() == pow2(52) * pow2(1021));
    vstd::arithmetic::power2::lemma_pow2_adds(52, 1021);
}

/// Rates a speed in Mbps.
pub fn speed_rating(mbps: Double) -> (r: Rating)
    ensures
        r == speed_rating_of(mbps),
{
    proof {
        lemma_thresholds();
    }
    if Double::from_bits(HUNDRED).le(mbps) {
        Rating::Excellent
    } else if Double::from_bits(FIFTY).le(mbps) {
        Rating::Good
    } else if Double::from_bits(TWENTY_FIVE).le(mbps) {
        Rating::Fair
    } else if Double::from_bits(TEN).le(mbps) {
        Rating::Poor
    } else {
        Rating::VeryPoor
    }
}

/// Rates a latency in milliseconds.
pub fn latency_rating(ms: Double) -> (r: Rating)
    ensures
        r == latency_rating_of(ms),
{
    proof {
        lemma_thresholds();
    }
    if ms.le(Double::from_bits(TWENTY)) {
        Rating::Excellent
    } else if ms.le(Double::from_bits(FIFTY)) {
        Rating::Good
    } else if ms.le(Double::from_bits(HUNDRED)) {
        Rating::Fair
    } else if ms.le(Double::from_bits(TWO_HUNDRED)) {
        Rating::Poor
    } else {
        Rating::VeryPoor
    }
}

/// Rates a packet loss in percent.
pub fn packet_loss_rating(percent: Double) -> (r: Rating)
    ensures
        r == packet_loss_rating_of(percent),
{
    proof {
        lemma_thresholds();
    }
    if percent.le(Double::from_bits(HALF)) {
        Rating::Excellent
    } else if percent.le(Double::from_bits(ONE)) {
        Rating::Good
    } else if percent.le(Double::from_bits(TWO)) {
        Rating::Fair
    } else if percent.le(Double::from_bits(FIVE)) {
        Rating::Poor
    } else {
        Rating::VeryPoor
    }
}

/// The rating of a speed in Mbps, in its colour where colours are on.
pub fn get_speed_rating(mbps: Double) -> (t: String)
    ensures
        appears(
            t@,
            speed_rating_of(mbps).label_spec(),
            speed_rating_of(mbps).colour_spec(),
            false,
        ),
{
    speed_rating(mbps).show()
}

/// The rating of a latency in milliseconds, in its colour where colours are on.
pub fn get_latency_rating(ms: Double) -> (t: String)
    ensures
        appears(
            t@,
            latency_rating_of(ms).label_spec(),
            latency_rating_of(ms).colour_spec(),
            false,
        ),
{
    latency_rating(ms).show()
}

/// The rating of a packet loss in percent, in its colour where colours are on.
pub fn get_packet_loss_rating(percent: Double) -> (t: String)
    ensures
        appears(
            t@,
            packet_loss_rating_of(percent).label_spec(),
            packet_loss_rating_of(percent).colour_spec(),
            false,
        ),
{
    packet_loss_rating(percent).show()
}

/// A faster connection is never rated worse.
pub proof fn faster_is_no_worse(slow: Double, fast: Double)
    requires
        slow.at_most(fast),
    ensures
        speed_rating_of(fast).place() <= speed_rating_of(slow).place(),
{
}

/// A shorter latency is never rated worse.
pub proof fn shorter_is_no_worse(short: Double, long: Double)
    requires
        short.at_most(long),
    ensures
        latency_rating_of(short).place() <= latency_rating_of(long).place(),
{
}

/// A smaller loss is never rated worse.
pub proof fn smaller_loss_is_no_worse(small: Double, large: Double)
    requires
        small.at_most(large),
    ensures
        packet_loss_rating_of(small).place() <= packet_loss_rating_of(large).place(),
{
}

/// A speed is rated at least so well exactly if it reaches the mark for that: 100
/// for the best rating, then 50, 25 and 10. What is not a number reaches none.
pub proof fn speed_marks(mbps: Double)
    ensures
        ({
            let place = speed_rating_of(mbps).place();
            let reaches = |n: int| !mbps.is_nan_spec() && mbps.value() >= whole(n);
            &&& 0 <= place <= 4
            &&& place <= 0 <==> reaches(100)
            &&& place <= 1 <==> reaches(50)
            &&& place <= 2 <==> reaches(25)
            &&& place <= 3 <==> reaches(10)
        }),
{
    vstd::arithmetic::power2::lemma_pow2_pos(1074);
}

/// A latency is rated at least so well exactly if it keeps within the limit for
/// that: 20 for the best rating, then 50, 100 and 200. What is not a number keeps
/// within none.
pub proof fn latency_limits(ms: Double)
    ensures
        ({
            let place = latency_rating_of(ms).place();
            let within = |n: int| !ms.is_nan_spec() && ms.value() <= whole(n);
            &&& 0 <= place <= 4
            &&& place <= 0 <==> within(20)
            &&& place <= 1 <==> within(50)
            &&& place <= 2 <==> within(100)
            &&& place <= 3 <==> within(200)
        }),
{
    vstd::arithmetic::power2::lemma_pow2_pos(1074);
}

/// A packet loss is rated at least so well exactly if it keeps within the limit
/// for that: a half for the best rating, then 1, 2 and 5. What is not a number
/// keeps within none.
pub proof fn packet_loss_limits(percent: Double)
    ensures
        ({
            let place = packet_loss_rating_of(percent).place();
            let within = |n: int| !percent.is_nan_spec() && percent.value() <= whole(n);
            &&& 0 <= place <= 4
            &&& place <= 0 <==> !percent.is_nan_spec() && 2 * percent.value() <= whole(1)
            &&& place <= 1 <==> within(1)
            &&& place <= 2 <==> within(2)
            &&& place <= 3 <==> within(5)
        }),
{
    vstd::arithmetic::power2::lemma_pow2_pos(1073);
    vstd::arithmetic::power2::lemma_pow2_unfold(1074);
}

/// Different ratings have different places, names and colours.
pub proof fn ratings_are_told_apart(a: Rating, b: Rating)
    ensures
        a.place() == b.place() ==> a == b,
        a.label_spec() == b.label_spec() ==> a == b,
        a.colour_spec() == b.colour_spec() ==> a == b,
{
    reveal_strlit("Excellent");
    reveal_strlit("Good");
    reveal_strlit("Fair");
    reveal_strlit("Poor");
    reveal_strlit("Very Poor");
    assert("Excellent"@[0] == 'E' && "Good"@[0] == 'G' && "Fair"@[0] == 'F' && "Poor"@[0] == 'P'
        && "Very Poor"@[0] == 'V');
}

} // verus!
