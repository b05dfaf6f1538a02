//! What a reader finds in the report: which value stands behind which label.

use crate::double::{whole, Double};
use crate::rating::{
    faster_is_no_worse, latency_limits, latency_rating_of, packet_loss_limits,
    packet_loss_rating_of, ratings_are_told_apart, shorter_is_no_worse, smaller_loss_is_no_worse,
    speed_marks, speed_rating_of, Rating,
};
use crate::report::{
    heading, masked, number_line, quality, rating_line, report, rule, shows, size_line, text_line,
    Piece, SegmentModel,
};
use crate::results::SpeedTestResults;
use crate::style::{clean_text_is_kept_whole, opening, reset, Colour};
use crate::text::{decimal_spec, padded};
use vstd::prelude::*;

verus! {

/// Whether a line of the report begins at `k` with the label `name`.
pub open spec fn label_at(segments: Seq<SegmentModel>, name: Seq<char>, k: int) -> bool {
    &&& 0 <= k < segments.len()
    &&& segments[k] == (SegmentModel::Styled {
        text: padded(name, 20),
        colour: Colour::BrightWhite,
        bold: false,
    })
}

/// Whether exactly one line of the report has the label `name`, and goes on with
/// `rest`.
pub open spec fn labels(
    segments: Seq<SegmentModel>,
    name: Seq<char>,
    rest: Seq<SegmentModel>,
) -> bool {
    &&& exists|k: int| #[trigger] label_at(segments, name, k)
    &&& forall|k: int|
        #[trigger] label_at(segments, name, k) ==> k + 1 + rest.len() <= segments.len()
            && segments.subrange(k + 1, k + 1 + rest.len()) == rest
    &&& forall|j: int, k: int|
        #[trigger] label_at(segments, name, j) && #[trigger] label_at(segments, name, k) ==> j == k
}

/// The rest of a line behind its label: a text.
pub open spec fn with_text(value: Seq<char>) -> Seq<SegmentModel> {
    seq![
        SegmentModel::Plain(" "@),
        SegmentModel::Styled { text: value, colour: Colour::BrightGreen, bold: false },
        SegmentModel::Plain("\n"@),
    ]
}

/// The rest of a line behind its label: a number and its unit.
pub open spec fn with_number(value: Double, unit: Seq<char>, colour: Colour) -> Seq<SegmentModel> {
    seq![
        SegmentModel::Plain(" "@),
        SegmentModel::Number(value),
        SegmentModel::Plain(" "@),
        SegmentModel::Styled { text: unit, colour, bold: false },
        SegmentModel::Plain("\n"@),
    ]
}

/// The label for a download size, which names the size in kilobytes or, from a
/// million bytes on, in megabytes.
pub open spec fn size_name(size: usize) -> Seq<char> {
    if size < 1_000_000 {
        decimal_spec((size / 1_000) as nat) + "kB speed:"@
    } else {
        decimal_spec((size / 1_000_000) as nat) + "MB speed:"@
    }
}

/// Whether exactly one line of the report begins with `name`, and the rest of that
/// line is the name of the rating, in its colour.
pub open spec fn rates(segments: Seq<SegmentModel>, name: Seq<char>, rating: Rating) -> bool {
    &&& exists|k: int| #[trigger] plain_at(segments, name, k)
    &&& forall|k: int|
        #[trigger] plain_at(segments, name, k) ==> k + 2 < segments.len() && segments[k + 1] == (
        SegmentModel::Styled {
            text: rating.label_spec(),
            colour: rating.colour_spec(),
            bold: false,
        }) && segments[k + 2] == SegmentModel::Plain("\n"@)
    &&& forall|j: int, k: int|
        #[trigger] plain_at(segments, name, j) && #[trigger] plain_at(segments, name, k) ==> j == k
}

/// Whether the report has the plain text `name` at `k`.
pub open spec fn plain_at(segments: Seq<SegmentModel>, name: Seq<char>, k: int) -> bool {
    0 <= k < segments.len() && segments[k] == SegmentModel::Plain(name)
}

/// All parts, one after the other.
spec fn flat(parts: Seq<Seq<SegmentModel>>) -> Seq<SegmentModel>
    decreases parts.len(),
{
    if parts.len() == 0 {
        seq![]
    } else {
        flat(parts.drop_last()) + parts.last()
    }
}

/// Where the part with the number `j` begins.
spec fn start(parts: Seq<Seq<SegmentModel>>, j: int) -> int {
    flat(parts.take(j)).len() as int
}

proof fn lemma_next_part(parts: Seq<Seq<SegmentModel>>, j: int)
    requires
        0 <= j < parts.len(),
    ensures
        flat(parts.take(j + 1)) == flat(parts.take(j)) + parts[j],
{
    assert(parts.take(j + 1).drop_last() == parts.take(j));
}

/// Every position lies in one of the parts.
proof fn lemma_locate(parts: Seq<Seq<SegmentModel>>, k: int) -> (j: int)
    requires
        0 <= k < flat(parts).len(),
    ensures
        0 <= j < parts.len(),
        start(parts, j) <= k < start(parts, j) + parts[j].len(),
        flat(parts)[k] == parts[j][k - start(parts, j)],
    decreases parts.len(),
{
    let before = parts.drop_last();
    let n = parts.len() - 1;
    assert(parts.take(n) == before);
    if k >= flat(before).len() {
        n
    } else {
        let j = lemma_locate(before, k);
        assert(parts.take(j) == before.take(j));
        j
    }
}

/// A part stands where it begins, and the parts before it end there at the latest.
proof fn lemma_part(parts: Seq<Seq<SegmentModel>>, j: int)
    requires
        0 <= j < parts.len(),
    ensures
        start(parts, j) >= 0,
        start(parts, j) + parts[j].len() <= flat(parts).len(),
        flat(parts).subrange(start(parts, j), start(parts, j) + parts[j].len()) == parts[j],
        forall|i: int|
            0 <= i < j ==> #[trigger] start(parts, i) + parts[i].len() <= start(parts, j),
    decreases parts.len(),
{
    let before = parts.drop_last();
    let n = parts.len() - 1;
    assert(parts.take(n) == before);
    if j < n {
        lemma_part(before, j);
        assert(parts.take(j) == before.take(j));
        assert(flat(parts).subrange(start(parts, j), start(parts, j) + parts[j].len())
            == flat(before).subrange(start(parts, j), start(parts, j) + parts[j].len()));
        assert forall|i: int| 0 <= i < j implies #[trigger] start(parts, i) + parts[i].len()
            <= start(parts, j) by {
            assert(parts.take(i) == before.take(i));
            assert(start(before, i) + before[i].len() <= start(before, j));
        }
    } else {
        assert forall|i: int| 0 <= i < j implies #[trigger] start(parts, i) + parts[i].len()
            <= start(parts, j) by {
            lemma_part(before, i);
            assert(parts.take(i) == before.take(i));
        }
    }
}

/// The labels, in order, each at the number of its part.
spec fn names() -> Seq<Seq<char>> {
    seq![
        ""@,
        "Server location:"@,
        "Your IP:"@,
        "Latency:"@,
        "Packet Loss:"@,
        "100kB speed:"@,
        "1MB speed:"@,
        "10MB speed:"@,
        "25MB speed:"@,
        "100MB speed:"@,
        "Download speed:"@,
        "Upload speed:"@,
        ""@,
        ""@,
        "  Download:  "@,
        "  Latency:   "@,
        "  Packet Loss: "@,
    ]
}

/// The characters of a label that tell it from every other one.
spec fn mark(name: Seq<char>) -> (char, char, char) {
    (name[0], name[1], name[3])
}

/// The report in parts: the heading, the eleven lines of values, the rule below
/// them, the heading of the ratings, and the three ratings.
spec fn parts_of(r: SpeedTestResults) -> Seq<Seq<SegmentModel>> {
    let n = names();
    seq![
        heading(),
        text_line(n[1], r.server_location@),
        text_line(n[2], masked(r.your_ip@)),
        number_line(n[3], r.latency_ms, "ms"@, Colour::BrightYellow),
        number_line(n[4], r.packet_loss_pct, "%"@, Colour::BrightRed),
        size_line(n[5], r.speed_100kb),
        size_line(n[6], r.speed_1mb),
        size_line(n[7], r.speed_10mb),
        size_line(n[8], r.speed_25mb),
        size_line(n[9], r.speed_100mb),
        number_line(n[10], r.download_mbps, "Mbps"@, Colour::BrightGreen),
        number_line(n[11], r.upload_mbps, "Mbps"@, Colour::BrightGreen),
        seq![rule(), SegmentModel::Plain("\n"@)],
        quality(r).take(3),
        rating_line(n[14], speed_rating_of(r.download_mbps)),
        rating_line(n[15], latency_rating_of(r.latency_ms)),
        rating_line(n[16], packet_loss_rating_of(r.packet_loss_pct)),
    ]
}

proof fn lemma_parts(r: SpeedTestResults)
    ensures
        flat(parts_of(r)) == report(r),
{
    let p = parts_of(r);
    lemma_next_part(p, 0);
    lemma_next_part(p, 1);
    lemma_next_part(p, 2);
    lemma_next_part(p, 3);
    lemma_next_part(p, 4);
    lemma_next_part(p, 5);
    lemma_next_part(p, 6);
    lemma_next_part(p, 7);
    lemma_next_part(p, 8);
    lemma_next_part(p, 9);
    lemma_next_part(p, 10);
    lemma_next_part(p, 11);
    lemma_next_part(p, 12);
    lemma_next_part(p, 13);
    lemma_next_part(p, 14);
    lemma_next_part(p, 15);
    lemma_next_part(p, 16);
    let values = heading() + p[1] + p[2] + p[3] + p[4] + p[5] + p[6] + p[7] + p[8] + p[9] + p[10]
        + p[11] + p[12];
    assert(p.take(0) == Seq::<Seq<SegmentModel>>::empty());
    assert(flat(p.take(1)) == heading());
    assert(flat(p.take(2)) == heading() + p[1]);
    assert(flat(p.take(3)) == heading() + p[1] + p[2]);
    assert(flat(p.take(4)) == heading() + p[1] + p[2] + p[3]);
    assert(flat(p.take(5)) == heading() + p[1] + p[2] + p[3] + p[4]);
    assert(flat(p.take(6)) == heading() + p[1] + p[2] + p[3] + p[4] + p[5]);
    let some = flat(p.take(6));
    assert(flat(p.take(7)) == some + p[6]);
    assert(flat(p.take(8)) == some + p[6] + p[7]);
    assert(flat(p.take(9)) == some + p[6] + p[7] + p[8]);
    assert(flat(p.take(10)) == some + p[6] + p[7] + p[8] + p[9]);
    assert(flat(p.take(11)) == some + p[6] + p[7] + p[8] + p[9] + p[10]);
    assert(flat(p.take(12)) == some + p[6] + p[7] + p[8] + p[9] + p[10] + p[11]);
    assert(flat(p.take(13)) == values);
    assert(flat(p.take(14)) == values + p[13]);
    assert(flat(p.take(15)) == values + p[13] + p[14]);
    assert(flat(p.take(16)) == values + p[13] + p[14] + p[15]);
    assert(flat(p.take(17)) == values + p[13] + p[14] + p[15] + p[16]);
    assert(p.take(17) == p);
    assert(quality(r) == p[13] + p[14] + p[15] + p[16]);
    assert(report(r) == values + quality(r));
    assert(values + (p[13] + p[14] + p[15] + p[16]) == values + p[13] + p[14] + p[15] + p[16]);
}

/// The names are told apart by three of their characters.
proof fn lemma_names()
    ensures
        forall|j: int|
            1 <= j <= 11 ==> 4 <= (#[trigger] names()[j]).len() <= 20 && mark(
                padded(names()[j], 20),
            ) == mark(names()[j]),
        forall|i: int, j: int|
            1 <= i <= 11 && 1 <= j <= 11 && mark(#[trigger] names()[i]) == mark(
                #[trigger] names()[j],
            ) ==> i == j,
        forall|i: int, j: int|
            14 <= i <= 16 && 14 <= j <= 16 && #[trigger] names()[i] == #[trigger] names()[j] ==> i
                == j,
        forall|i: int| 14 <= i <= 16 ==> (#[trigger] names()[i]).len() > 1,
        " "@.len() == 1,
        "\n"@.len() == 1,
{
    reveal_strlit("Server location:");
    reveal_strlit("Your IP:");
    reveal_strlit("Latency:");
    reveal_strlit("Packet Loss:");
    reveal_strlit("100kB speed:");
    reveal_strlit("1MB speed:");
    reveal_strlit("10MB speed:");
    reveal_strlit("25MB speed:");
    reveal_strlit("100MB speed:");
    reveal_strlit("Download speed:");
    reveal_strlit("Upload speed:");
    reveal_strlit("  Download:  ");
    reveal_strlit("  Latency:   ");
    reveal_strlit("  Packet Loss: ");
    reveal_strlit(" ");
    reveal_strlit("\n");
    let n = names();
    assert(mark(n[1]) == ('S', 'e', 'v'));
    assert(mark(n[2]) == ('Y', 'o', 'r'));
    assert(mark(n[3]) == ('L', 'a', 'e'));
    assert(mark(n[4]) == ('P', 'a', 'k'));
    assert(mark(n[5]) == ('1', '0', 'k'));
    assert(mark(n[6]) == ('1', 'M', ' '));
    assert(mark(n[7]) == ('1', '0', 'B'));
    assert(mark(n[8]) == ('2', '5', 'B'));
    assert(mark(n[9]) == ('1', '0', 'M'));
    assert(mark(n[10]) == ('D', 'o', 'n'));
    assert(mark(n[11]) == ('U', 'p', 'o'));
    assert(n[14][2] == 'D' && n[15][2] == 'L' && n[16][2] == 'P');
}

/// A label stands only at the beginning of a part, which is that of its name.
proof fn lemma_label(r: SpeedTestResults, j: int, k: int)
    requires
        1 <= j <= 11,
        label_at(report(r), names()[j], k),
    ensures
        k == start(parts_of(r), j),
        parts_of(r)[j].len() > 0,
{
    let p = parts_of(r);
    lemma_parts(r);
    lemma_names();
    let i = lemma_locate(p, k);
    let at = k - start(p, i);
    let segment = p[i][at];
    assert(segment == report(r)[k]);
    assert(i != 0 && i != 12 && i != 13);
    assert(i < 14) by {
        if i >= 14 {
            assert(segment is Styled ==> at == 1);
        }
    }
    assert(at == 0 && segment == (SegmentModel::Styled {
        text: padded(names()[i], 20),
        colour: Colour::BrightWhite,
        bold: false,
    }));
    assert(mark(padded(names()[i], 20)) == mark(padded(names()[j], 20)));
    assert(mark(names()[i]) == mark(names()[j]));
}

/// The line with a name is the only one with its label.
proof fn lemma_line(r: SpeedTestResults, j: int, rest: Seq<SegmentModel>)
    requires
        1 <= j <= 11,
        parts_of(r)[j].len() == 1 + rest.len(),
        parts_of(r)[j][0] == (SegmentModel::Styled {
            text: padded(names()[j], 20),
            colour: Colour::BrightWhite,
            bold: false,
        }),
        parts_of(r)[j].skip(1) == rest,
    ensures
        labels(report(r), names()[j], rest),
{
    let p = parts_of(r);
    let s = start(p, j);
    let all = report(r);
    lemma_parts(r);
    lemma_part(p, j);
    assert(all.subrange(s, s + p[j].len())[0] == all[s]);
    assert(label_at(all, names()[j], s));
    assert forall|k: int| #[trigger] label_at(all, names()[j], k) implies k == s by {
        lemma_label(r, j, k);
    }
    assert(all.subrange(s + 1, s + 1 + rest.len()) == p[j].skip(1)) by {
        assert(all.subrange(s + 1, s + 1 + rest.len()) == all.subrange(s, s + p[j].len()).skip(1));
    }
}

proof fn lemma_text_line(r: SpeedTestResults, j: int, value: Seq<char>)
    requires
        1 <= j <= 11,
        parts_of(r)[j] == text_line(names()[j], value),
    ensures
        labels(report(r), names()[j], with_text(value)),
{
    assert(text_line(names()[j], value).skip(1) == with_text(value));
    lemma_line(r, j, with_text(value));
}

proof fn lemma_number_line(
    r: SpeedTestResults,
    j: int,
    value: Double,
    unit: Seq<char>,
    colour: Colour,
)
    requires
        1 <= j <= 11,
        parts_of(r)[j] == number_line(names()[j], value, unit, colour),
    ensures
        labels(report(r), names()[j], with_number(value, unit, colour)),
{
    assert(number_line(names()[j], value, unit, colour).skip(1) == with_number(
        value,
        unit,
        colour,
    ));
    lemma_line(r, j, with_number(value, unit, colour));
}

/// The report shows each value once, behind its own label and on the same line.
pub proof fn values_stand_behind_their_labels(r: SpeedTestResults)
    ensures
        labels(report(r), "Server location:"@, with_text(r.server_location@)),
        labels(report(r), "Your IP:"@, with_text(masked(r.your_ip@))),
        labels(report(r), "Latency:"@, with_number(r.latency_ms, "ms"@, Colour::BrightYellow)),
        labels(report(r), "Packet Loss:"@, with_number(r.packet_loss_pct, "%"@, Colour::BrightRed)),
        labels(
            report(r),
            "Download speed:"@,
            with_number(r.download_mbps, "Mbps"@, Colour::BrightGreen),
        ),
        labels(
            report(r),
            "Upload speed:"@,
            with_number(r.upload_mbps, "Mbps"@, Colour::BrightGreen),
        ),
{
    let n = names();
    assert(n[1] == "Server location:"@ && n[2] == "Your IP:"@ && n[3] == "Latency:"@ && n[4]
        == "Packet Loss:"@ && n[10] == "Download speed:"@ && n[11] == "Upload speed:"@);
    lemma_text_line(r, 1, r.server_location@);
    lemma_text_line(r, 2, masked(r.your_ip@));
    lemma_number_line(r, 3, r.latency_ms, "ms"@, Colour::BrightYellow);
    lemma_number_line(r, 4, r.packet_loss_pct, "%"@, Colour::BrightRed);
    lemma_number_line(r, 10, r.download_mbps, "Mbps"@, Colour::BrightGreen);
    lemma_number_line(r, 11, r.upload_mbps, "Mbps"@, Colour::BrightGreen);
}

/// The number of the part with the speed of a size.
spec fn part_of_size(size: usize) -> int {
    if size == 100_000 {
        5
    } else if size == 1_000_000 {
        6
    } else if size == 10_000_000 {
        7
    } else if size == 25_000_000 {
        8
    } else {
        9
    }
}

/// The labels of the sizes with a place in the results name these sizes.
proof fn lemma_size_name(r: SpeedTestResults, size: usize)
    requires
        r.speed_shown(size) is Some,
    ensures
        names()[part_of_size(size)] == size_name(size),
{
    reveal_with_fuel(decimal_spec, 3);
    reveal_strlit("kB speed:");
    reveal_strlit("MB speed:");
    reveal_strlit("100kB speed:");
    reveal_strlit("1MB speed:");
    reveal_strlit("10MB speed:");
    reveal_strlit("25MB speed:");
    reveal_strlit("100MB speed:");
    assert(names()[part_of_size(size)] =~= size_name(size));
}

/// The report shows the speed of a size, behind a label that names that size and
/// on the same line, exactly if the speed is above zero.
pub proof fn speeds_stand_behind_their_sizes(r: SpeedTestResults, size: usize, speed: Double)
    requires
        r.speed_shown(size) == Some(speed),
    ensures
        !speed.is_nan_spec() && speed.value() > 0 ==> labels(
            report(r),
            size_name(size),
            with_number(speed, "Mbps"@, Colour::BrightCyan),
        ),
        speed.is_nan_spec() || speed.value() <= 0 ==> forall|k: int|
            !#[trigger] label_at(report(r), size_name(size), k),
{
    let j = part_of_size(size);
    let p = parts_of(r);
    lemma_size_name(r, size);
    if !speed.is_nan_spec() && speed.value() > 0 {
        let rest = with_number(speed, "Mbps"@, Colour::BrightCyan);
        assert(p[j].skip(1) == rest);
        lemma_line(r, j, rest);
    } else {
        assert(p[j].len() == 0);
        assert forall|k: int| !#[trigger] label_at(report(r), size_name(size), k) by {
            if label_at(report(r), size_name(size), k) {
                lemma_label(r, j, k);
            }
        }
    }
}

/// The speeds of smaller downloads stand above those of larger ones.
pub proof fn sizes_are_listed_in_order(
    r: SpeedTestResults,
    small: usize,
    large: usize,
    j: int,
    k: int,
)
    requires
        r.speed_shown(small) is Some,
        r.speed_shown(large) is Some,
        small < large,
        label_at(report(r), size_name(small), j),
        label_at(report(r), size_name(large), k),
    ensures
        j < k,
{
    lemma_size_name(r, small);
    lemma_size_name(r, large);
    lemma_label(r, part_of_size(small), j);
    lemma_label(r, part_of_size(large), k);
    lemma_part(parts_of(r), part_of_size(large));
}

/// The first words of a rating stand only at the beginning of its part.
proof fn lemma_plain(r: SpeedTestResults, j: int, k: int)
    requires
        14 <= j <= 16,
        plain_at(report(r), names()[j], k),
    ensures
        k == start(parts_of(r), j),
{
    let p = parts_of(r);
    lemma_parts(r);
    lemma_names();
    let i = lemma_locate(p, k);
    let at = k - start(p, i);
    assert(p[i][at] == SegmentModel::Plain(names()[j]));
    assert(names()[j].len() > 1);
    assert(i >= 14);
    assert(at == 0);
    assert(p[i][0] == SegmentModel::Plain(names()[i]));
}

/// The line that begins with a name is the only one that does.
proof fn lemma_rating(r: SpeedTestResults, j: int, rating: Rating)
    requires
        14 <= j <= 16,
        parts_of(r)[j] == rating_line(names()[j], rating),
    ensures
        rates(report(r), names()[j], rating),
{
    let p = parts_of(r);
    let s = start(p, j);
    let all = report(r);
    let line = rating_line(names()[j], rating);
    assert(s >= 0 && s + 3 <= all.len() && all.subrange(s, s + 3) == line) by {
        lemma_parts(r);
        lemma_part(p, j);
    }
    assert(all[s] == all.subrange(s, s + 3)[0]);
    assert(all[s + 1] == all.subrange(s, s + 3)[1]);
    assert(all[s + 2] == all.subrange(s, s + 3)[2]);
    assert(plain_at(all, names()[j], s));
    assert forall|k: int| #[trigger] plain_at(all, names()[j], k) implies k == s by {
        lemma_plain(r, j, k);
    }
}

/// The rating of the download speed is that of the overall download speed, the
/// rating of the latency that of the latency, and the rating of the packet loss
/// that of the packet loss.
proof fn lemma_ratings(r: SpeedTestResults)
    ensures
        rates(report(r), "  Download:  "@, speed_rating_of(r.download_mbps)),
        rates(report(r), "  Latency:   "@, latency_rating_of(r.latency_ms)),
        rates(report(r), "  Packet Loss: "@, packet_loss_rating_of(r.packet_loss_pct)),
{
    lemma_rating(r, 14, speed_rating_of(r.download_mbps));
    lemma_rating(r, 15, latency_rating_of(r.latency_ms));
    lemma_rating(r, 16, packet_loss_rating_of(r.packet_loss_pct));
}

/// Behind `  Download:  ` stands what the overall download speed amounts to,
/// whatever the other results are: from 100, 50, 25 and 10 Mbps on it is
/// excellent, good, fair and poor.
pub proof fn download_rating_follows_download_speed(r: SpeedTestResults)
    ensures
        ({
            let reaches = |n: int|
                !r.download_mbps.is_nan_spec() && r.download_mbps.value() >= whole(n);
            exists|rating: Rating|
                {
                    &&& #[trigger] rates(report(r), "  Download:  "@, rating)
                    &&& rating.label_spec() == (if reaches(100) {
                        "Excellent"@
                    } else if reaches(50) {
                        "Good"@
                    } else if reaches(25) {
                        "Fair"@
                    } else if reaches(10) {
                        "Poor"@
                    } else {
                        "Very Poor"@
                    })
                }
        }),
{
    lemma_ratings(r);
    speed_marks(r.download_mbps);
    assert(rates(report(r), "  Download:  "@, speed_rating_of(r.download_mbps)));
}

/// Behind `  Latency:   ` stands what the latency amounts to, whatever the other
/// results are: up to 20, 50, 100 and 200 ms it is excellent, good, fair and poor.
pub proof fn latency_rating_follows_latency(r: SpeedTestResults)
    ensures
        ({
            let within = |n: int| !r.latency_ms.is_nan_spec() && r.latency_ms.value() <= whole(n);
            exists|rating: Rating|
                {
                    &&& #[trigger] rates(report(r), "  Latency:   "@, rating)
                    &&& rating.label_spec() == (if within(20) {
                        "Excellent"@
                    } else if within(50) {
                        "Good"@
                    } else if within(100) {
                        "Fair"@
                    } else if within(200) {
                        "Poor"@
                    } else {
                        "Very Poor"@
                    })
                }
        }),
{
    lemma_ratings(r);
    latency_limits(r.latency_ms);
    assert(rates(report(r), "  Latency:   "@, latency_rating_of(r.latency_ms)));
}

/// Behind `  Packet Loss: ` stands what the packet loss amounts to, whatever the
/// other results are: up to a half, 1, 2 and 5 percent it is excellent, good, fair
/// and poor.
pub proof fn packet_loss_rating_follows_packet_loss(r: SpeedTestResults)
    ensures
        ({
            let loss = r.packet_loss_pct;
            let within = |n: int| !loss.is_nan_spec() && loss.value() <= whole(n);
            exists|rating: Rating|
                {
                    &&& #[trigger] rates(report(r), "  Packet Loss: "@, rating)
                    &&& rating.label_spec() == (if !loss.is_nan_spec() && 2 * loss.value() <= whole(
                        1,
                    ) {
                        "Excellent"@
                    } else if within(1) {
                        "Good"@
                    } else if within(2) {
                        "Fair"@
                    } else if within(5) {
                        "Poor"@
                    } else {
                        "Very Poor"@
                    })
                }
        }),
{
    lemma_ratings(r);
    packet_loss_limits(r.packet_loss_pct);
    assert(rates(report(r), "  Packet Loss: "@, packet_loss_rating_of(r.packet_loss_pct)));
}

/// A report has only one rating behind a name.
proof fn lemma_one_rating(segments: Seq<SegmentModel>, name: Seq<char>, a: Rating, b: Rating)
    requires
        rates(segments, name, a),
        rates(segments, name, b),
    ensures
        a == b,
{
    let k = choose|k: int| plain_at(segments, name, k);
    ratings_are_told_apart(a, b);
    assert(segments[k + 1]->Styled_text == a.label_spec());
    assert(segments[k + 1]->Styled_text == b.label_spec());
}

/// Each rating depends on its own value alone, and a better value never shows a
/// worse rating: neither a higher download speed, nor a shorter latency, nor a
/// smaller packet loss.
pub proof fn ratings_follow_their_own_values(
    a: SpeedTestResults,
    b: SpeedTestResults,
    p: Rating,
    q: Rating,
)
    ensures
        rates(report(a), "  Download:  "@, p) && rates(report(b), "  Download:  "@, q) ==> {
            &&& a.download_mbps == b.download_mbps ==> p == q
            &&& a.download_mbps.at_most(b.download_mbps) ==> q.place() <= p.place()
        },
        rates(report(a), "  Latency:   "@, p) && rates(report(b), "  Latency:   "@, q) ==> {
            &&& a.latency_ms == b.latency_ms ==> p == q
            &&& a.latency_ms.at_most(b.latency_ms) ==> p.place() <= q.place()
        },
        rates(report(a), "  Packet Loss: "@, p) && rates(report(b), "  Packet Loss: "@, q) ==> {
            &&& a.packet_loss_pct == b.packet_loss_pct ==> p == q
            &&& a.packet_loss_pct.at_most(b.packet_loss_pct) ==> p.place() <= q.place()
        },
{
    lemma_ratings(a);
    lemma_ratings(b);
    if rates(report(a), "  Download:  "@, p) && rates(report(b), "  Download:  "@, q) {
        lemma_one_rating(report(a), "  Download:  "@, p, speed_rating_of(a.download_mbps));
        lemma_one_rating(report(b), "  Download:  "@, q, speed_rating_of(b.download_mbps));
        if a.download_mbps.at_most(b.download_mbps) {
            faster_is_no_worse(a.download_mbps, b.download_mbps);
        }
    }
    if rates(report(a), "  Latency:   "@, p) && rates(report(b), "  Latency:   "@, q) {
        lemma_one_rating(report(a), "  Latency:   "@, p, latency_rating_of(a.latency_ms));
        lemma_one_rating(report(b), "  Latency:   "@, q, latency_rating_of(b.latency_ms));
        if a.latency_ms.at_most(b.latency_ms) {
            shorter_is_no_worse(a.latency_ms, b.latency_ms);
        }
    }
    if rates(report(a), "  Packet Loss: "@, p) && rates(report(b), "  Packet Loss: "@, q) {
        lemma_one_rating(report(a), "  Packet Loss: "@, p, packet_loss_rating_of(a.packet_loss_pct));
        lemma_one_rating(report(b), "  Packet Loss: "@, q, packet_loss_rating_of(b.packet_loss_pct));
        if a.packet_loss_pct.at_most(b.packet_loss_pct) {
            smaller_loss_is_no_worse(a.packet_loss_pct, b.packet_loss_pct);
        }
    }
}

/// What is printed is what the report says: a number is that number, a text that
/// text, and a styled text without control characters that text, alone or between
/// two control sequences.
pub proof fn pieces_say_what_the_report_says(piece: Piece, segment: SegmentModel)
    requires
        shows(piece, segment),
    ensures
        match segment {
            SegmentModel::Number(value) => piece == Piece::Number(value),
            SegmentModel::Plain(text) => piece matches Piece::Text(t) && t@ == text,
            SegmentModel::Styled { text, colour, bold } => !text.contains('\x1b') ==> (
            piece matches Piece::Text(t) && (t@ == text || t@ == opening(colour, bold) + text
                + reset())),
        },
{
    if let SegmentModel::Styled { text, colour, bold } = segment {
        if !text.contains('\x1b') {
            if let Piece::Text(t) = piece {
                clean_text_is_kept_whole(t@, text, colour, bold);
            }
        }
    }
}

} // verus!
