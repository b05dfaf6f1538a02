//! Showing the results of a speed test.

use crate::double::Double;
use crate::rating::{
    latency_rating, latency_rating_of, packet_loss_rating, packet_loss_rating_of, speed_rating,
    speed_rating_of, Rating,
};
use crate::results::SpeedTestResults;
use crate::style::{appears, paint, paint_bold, Colour};
use crate::text;
use crate::text::{padded, repeated, split_spec};
use vstd::prelude::*;

verus! {

/// How wide the labels are.
pub const LABEL_WIDTH: usize = 20;

/// How wide the rules are.
pub const RULE_WIDTH: usize = 60;

/// A part of the report, before colours are applied.
#[derive(Debug)]
pub enum Segment {
    /// Text to show as it is.
    Plain(String),
    /// Text to show in a style.
    Styled { text: String, colour: Colour, bold: bool },
    /// A number to show with two decimals.
    Number(Double),
}

/// A part of the report, ready to be printed.
#[derive(Debug)]
pub enum Piece {
    Text(String),
    /// A number to print with two decimals.
    Number(Double),
}

/// What a part of the report says.
pub enum SegmentModel {
    Plain(Seq<char>),
    Styled { text: Seq<char>, colour: Colour, bold: bool },
    Number(Double),
}

impl View for Segment {
    type V = SegmentModel;

    open spec fn view(&self) -> SegmentModel {
        match self {
            Segment::Plain(text) => SegmentModel::Plain(text@),
            Segment::Styled { text, colour, bold } => SegmentModel::Styled {
                text: text@,
                colour: *colour,
                bold: *bold,
            },
            Segment::Number(value) => SegmentModel::Number(*value),
        }
    }
}

/// What a series of parts says.
pub open spec fn models(segments: Seq<Segment>) -> Seq<SegmentModel> {
    segments.map_values(|s: Segment| s@)
}

/// An address with its last part hidden: of four parts between dots the last is
/// starred out, of three or more between colons all but the first two. Of an
/// address with another number of parts nothing is shown.
pub open spec fn masked(ip: Seq<char>) -> Seq<char> {
    if ip.contains('.') {
        let parts = split_spec(ip, '.');
        if parts.len() == 4 {
            parts[0] + "."@ + parts[1] + "."@ + parts[2] + ".***"@
        } else {
            "***.***.***.***"@
        }
    } else {
        let parts = split_spec(ip, ':');
        if parts.len() > 2 {
            parts[0] + ":"@ + parts[1] + ":****"@
        } else {
            "****:****:****"@
        }
    }
}

/// Hides the last part of an address.
pub fn mask_ip(ip: &str) -> (t: String)
    ensures
        t@ == masked(ip@),
{
    if text::contains(ip, '.') {
        let parts = text::split(ip, '.');
        let ghost pieces = split_spec(ip@, '.');
        assert(parts@.len() == pieces.len());
        if parts.len() == 4 {
            assert(parts@[0]@ == pieces[0] && parts@[1]@ == pieces[1] && parts@[2]@ == pieces[2])
                by {
                assert(text::texts(parts@)[0] == pieces[0]);
                assert(text::texts(parts@)[1] == pieces[1]);
                assert(text::texts(parts@)[2] == pieces[2]);
            }
            let mut t = text::join(parts[0].as_str(), ".");
            t.append(parts[1].as_str());
            t.append(".");
            t.append(parts[2].as_str());
            t.append(".***");
            t
        } else {
            "***.***.***.***".to_string()
        }
    } else {
        let parts = text::split(ip, ':');
        let ghost pieces = split_spec(ip@, ':');
        assert(parts@.len() == pieces.len());
        if parts.len() > 2 {
            assert(parts@[0]@ == pieces[0] && parts@[1]@ == pieces[1]) by {
                assert(text::texts(parts@)[0] == pieces[0]);
                assert(text::texts(parts@)[1] == pieces[1]);
            }
            let mut t = text::join(parts[0].as_str(), ":");
            t.append(parts[1].as_str());
            t.append(":****");
            t
        } else {
            "****:****:****".to_string()
        }
    }
}

/// Two addresses of four parts between dots that differ in the last part only
/// are shown alike.
pub proof fn last_octet_is_hidden(a: Seq<char>, b: Seq<char>)
    requires
        split_spec(a, '.').len() == 4,
        split_spec(b, '.').len() == 4,
        split_spec(a, '.').drop_last() == split_spec(b, '.').drop_last(),
    ensures
        masked(a) == masked(b),
{
    lemma_several_parts(a, '.');
    lemma_several_parts(b, '.');
    let p = split_spec(a, '.');
    let q = split_spec(b, '.');
    assert(p.drop_last()[0] == p[0] && p.drop_last()[1] == p[1] && p.drop_last()[2] == p[2]);
    assert(q.drop_last()[0] == q[0] && q.drop_last()[1] == q[1] && q.drop_last()[2] == q[2]);
}

/// Two addresses of three or more parts between colons, and without dots, that
/// agree in the first two parts are shown alike.
pub proof fn later_groups_are_hidden(a: Seq<char>, b: Seq<char>)
    requires
        !a.contains('.'),
        !b.contains('.'),
        split_spec(a, ':').len() > 2,
        split_spec(b, ':').len() > 2,
        split_spec(a, ':').take(2) == split_spec(b, ':').take(2),
    ensures
        masked(a) == masked(b),
{
    let p = split_spec(a, ':');
    let q = split_spec(b, ':');
    assert(p.take(2)[0] == p[0] && p.take(2)[1] == p[1]);
    assert(q.take(2)[0] == q[0] && q.take(2)[1] == q[1]);
}

/// Hiding the last part of an address that has it hidden changes nothing.
pub proof fn masking_twice_is_masking_once(ip: Seq<char>)
    ensures
        masked(masked(ip)) == masked(ip),
{
    reveal_strlit(".");
    reveal_strlit(":");
    reveal_strlit(".***");
    reveal_strlit(":****");
    reveal_strlit("***.***.***.***");
    reveal_strlit("****:****:****");
    let three = seq!['*', '*', '*'];
    let four = seq!['*', '*', '*', '*'];
    if ip.contains('.') {
        let parts = split_spec(ip, '.');
        text::split_joins_back(ip, '.');
        if parts.len() == 4 {
            lemma_masked_quad(parts[0], parts[1], parts[2]);
            assert(masked(ip) == quad(parts[0], parts[1], parts[2]));
        } else {
            lemma_masked_quad(three, three, three);
            assert("***.***.***.***"@ == quad(three, three, three));
        }
    } else {
        let parts = split_spec(ip, ':');
        text::split_joins_back(ip, ':');
        text::lemma_pieces_of(ip, ':', '.');
        if parts.len() > 2 {
            lemma_masked_groups(parts[0], parts[1]);
            assert(masked(ip) == groups(parts[0], parts[1]));
        } else {
            lemma_masked_groups(four, four);
            assert("****:****:****"@ == groups(four, four));
        }
    }
}

/// Of four parts between dots the first three are shown as they are and the last
/// as three stars. Of three or more between colons the first two are shown as they
/// are and the rest as four stars. Of any other address nothing but stars and
/// separators is shown.
pub proof fn first_parts_are_shown(ip: Seq<char>)
    ensures
        split_spec(ip, '.').len() == 4 ==> split_spec(masked(ip), '.') == split_spec(ip, '.').take(
            3,
        ).push(seq!['*', '*', '*']),
        !ip.contains('.') && split_spec(ip, ':').len() > 2 ==> split_spec(masked(ip), ':')
            == split_spec(ip, ':').take(2).push(seq!['*', '*', '*', '*']),
        ip.contains('.') && split_spec(ip, '.').len() != 4 ==> forall|i: int|
            0 <= i < masked(ip).len() ==> #[trigger] masked(ip)[i] == '*' || masked(ip)[i] == '.',
        !ip.contains('.') && split_spec(ip, ':').len() <= 2 ==> forall|i: int|
            0 <= i < masked(ip).len() ==> #[trigger] masked(ip)[i] == '*' || masked(ip)[i] == ':',
{
    reveal_strlit(".");
    reveal_strlit(":");
    reveal_strlit(".***");
    reveal_strlit(":****");
    reveal_strlit("***.***.***.***");
    reveal_strlit("****:****:****");
    let dotted = split_spec(ip, '.');
    let grouped = split_spec(ip, ':');
    text::split_joins_back(ip, '.');
    text::split_joins_back(ip, ':');
    if dotted.len() == 4 {
        lemma_several_parts(ip, '.');
        lemma_masked_quad(dotted[0], dotted[1], dotted[2]);
        assert(masked(ip) == quad(dotted[0], dotted[1], dotted[2]));
        assert(split_spec(masked(ip), '.') == dotted.take(3).push(seq!['*', '*', '*']));
    }
    if !ip.contains('.') && grouped.len() > 2 {
        text::lemma_pieces_of(ip, ':', '.');
        lemma_masked_groups(grouped[0], grouped[1]);
        assert(masked(ip) == groups(grouped[0], grouped[1]));
        assert(split_spec(masked(ip), ':') == grouped.take(2).push(seq!['*', '*', '*', '*']));
    }
}

/// Three parts between dots and a hidden one.
spec fn quad(a: Seq<char>, b: Seq<char>, c: Seq<char>) -> Seq<char> {
    a.push('.') + (b.push('.') + (c.push('.') + seq!['*', '*', '*']))
}

/// Two parts between colons and a hidden rest.
spec fn groups(a: Seq<char>, b: Seq<char>) -> Seq<char> {
    a.push(':') + (b.push(':') + seq!['*', '*', '*', '*'])
}

proof fn lemma_masked_quad(a: Seq<char>, b: Seq<char>, c: Seq<char>)
    requires
        !a.contains('.'),
        !b.contains('.'),
        !c.contains('.'),
    ensures
        masked(quad(a, b, c)) == quad(a, b, c),
        split_spec(quad(a, b, c), '.') == seq![a, b, c, seq!['*', '*', '*']],
{
    reveal_strlit(".");
    reveal_strlit(".***");
    let hidden = seq!['*', '*', '*'];
    let last = c.push('.') + hidden;
    let s = quad(a, b, c);
    text::lemma_split_whole(hidden, '.');
    text::lemma_split_first(c, hidden, '.');
    text::lemma_split_first(b, last, '.');
    text::lemma_split_first(a, b.push('.') + last, '.');
    let parts = split_spec(s, '.');
    assert(parts == seq![a, b, c, hidden]);
    lemma_several_parts(s, '.');
    assert(masked(s) == a + "."@ + b + "."@ + c + ".***"@);
    assert(masked(s) == s);
}

proof fn lemma_masked_groups(a: Seq<char>, b: Seq<char>)
    requires
        !a.contains(':'),
        !b.contains(':'),
        !a.contains('.'),
        !b.contains('.'),
    ensures
        masked(groups(a, b)) == groups(a, b),
        split_spec(groups(a, b), ':') == seq![a, b, seq!['*', '*', '*', '*']],
{
    reveal_strlit(":");
    reveal_strlit(":****");
    let hidden = seq!['*', '*', '*', '*'];
    let s = groups(a, b);
    text::lemma_split_whole(hidden, ':');
    text::lemma_split_first(b, hidden, ':');
    text::lemma_split_first(a, b.push(':') + hidden, ':');
    assert(split_spec(s, ':') == seq![a, b, hidden]);
    assert(!s.contains('.')) by {
        assert forall|i: int| 0 <= i < s.len() implies s[i] != '.' by {
            let n = a.len() as int;
            let m = b.len() as int;
            if i < n {
                assert(s[i] == a[i]);
            } else if n < i <= n + m {
                assert(s[i] == b[i - n - 1]);
            }
        }
    }
    assert(masked(s) == a + ":"@ + b + ":****"@);
    assert(masked(s) == s);
}

/// A text in several parts holds the separator.
proof fn lemma_several_parts(s: Seq<char>, sep: char)
    requires
        split_spec(s, sep).len() > 1,
    ensures
        s.contains(sep),
{
    text::lemma_find(s, sep);
    assert(s[text::find(s, sep) as int] == sep);
}

/// A rule across the report.
pub open spec fn rule() -> SegmentModel {
    SegmentModel::Styled {
        text: repeated('═', RULE_WIDTH as nat),
        colour: Colour::BrightCyan,
        bold: false,
    }
}

/// The label at the start of a line.
pub open spec fn label(name: Seq<char>) -> SegmentModel {
    SegmentModel::Styled {
        text: padded(name, LABEL_WIDTH as nat),
        colour: Colour::BrightWhite,
        bold: false,
    }
}

/// A line with a text.
pub open spec fn text_line(name: Seq<char>, value: Seq<char>) -> Seq<SegmentModel> {
    seq![
        label(name),
        SegmentModel::Plain(" "@),
        SegmentModel::Styled { text: value, colour: Colour::BrightGreen, bold: false },
        SegmentModel::Plain("\n"@),
    ]
}

/// A line with a number and its unit.
pub open spec fn number_line(
    name: Seq<char>,
    value: Double,
    unit: Seq<char>,
    colour: Colour,
) -> Seq<SegmentModel> {
    seq![
        label(name),
        SegmentModel::Plain(" "@),
        SegmentModel::Number(value),
        SegmentModel::Plain(" "@),
        SegmentModel::Styled { text: unit, colour, bold: false },
        SegmentModel::Plain("\n"@),
    ]
}

/// Whether a speed is shown at all: only one above zero is.
pub open spec fn is_shown(speed: Double) -> bool {
    !speed.is_nan_spec() && speed.value() > 0
}

/// A line with the speed of one download size, if it is to be shown.
pub open spec fn size_line(name: Seq<char>, speed: Double) -> Seq<SegmentModel> {
    if is_shown(speed) {
        number_line(name, speed, "Mbps"@, Colour::BrightCyan)
    } else {
        seq![]
    }
}

/// A line with a rating.
pub open spec fn rating_line(name: Seq<char>, rating: Rating) -> Seq<SegmentModel> {
    seq![
        SegmentModel::Plain(name),
        SegmentModel::Styled {
            text: rating.label_spec(),
            colour: rating.colour_spec(),
            bold: false,
        },
        SegmentModel::Plain("\n"@),
    ]
}

/// The heading of the report.
pub open spec fn heading() -> Seq<SegmentModel> {
    seq![
        SegmentModel::Plain("\n"@),
        rule(),
        SegmentModel::Plain("\n"@),
        SegmentModel::Styled {
            text: "           CLOUDFLARE SPEED TEST RESULTS"@,
            colour: Colour::BrightCyan,
            bold: true,
        },
        SegmentModel::Plain("\n"@),
        rule(),
        SegmentModel::Plain("\n"@),
    ]
}

/// The part of the report that rates the connection.
pub open spec fn quality(r: SpeedTestResults) -> Seq<SegmentModel> {
    seq![
        SegmentModel::Plain("\n"@),
        SegmentModel::Styled {
            text: "Connection Quality:"@,
            colour: Colour::BrightWhite,
            bold: true,
        },
        SegmentModel::Plain("\n"@),
    ] + rating_line("  Download:  "@, speed_rating_of(r.download_mbps)) + rating_line(
        "  Latency:   "@,
        latency_rating_of(r.latency_ms),
    ) + rating_line("  Packet Loss: "@, packet_loss_rating_of(r.packet_loss_pct))
}

/// The whole report.
pub open spec fn report(r: SpeedTestResults) -> Seq<SegmentModel> {
    heading() + text_line("Server location:"@, r.server_location@) + text_line(
        "Your IP:"@,
        masked(r.your_ip@),
    ) + number_line("Latency:"@, r.latency_ms, "ms"@, Colour::BrightYellow) + number_line(
        "Packet Loss:"@,
        r.packet_loss_pct,
        "%"@,
        Colour::BrightRed,
    ) + size_line("100kB speed:"@, r.speed_100kb) + size_line("1MB speed:"@, r.speed_1mb)
        + size_line("10MB speed:"@, r.speed_10mb) + size_line("25MB speed:"@, r.speed_25mb)
        + size_line("100MB speed:"@, r.speed_100mb) + number_line(
        "Download speed:"@,
        r.download_mbps,
        "Mbps"@,
        Colour::BrightGreen,
    ) + number_line("Upload speed:"@, r.upload_mbps, "Mbps"@, Colour::BrightGreen) + seq![
        rule(),
        SegmentModel::Plain("\n"@),
    ] + quality(r)
}

/// A report being written.
struct Draft {
    segments: Vec<Segment>,
}

impl Draft {
    spec fn says(self) -> Seq<SegmentModel> {
        models(self.segments@)
    }

    fn plain(&mut self, t: &str)
        ensures
            final(self).says() == old(self).says().push(SegmentModel::Plain(t@)),
    {
        self.segments.push(Segment::Plain(t.to_string()));
        assert(self.says() == old(self).says().push(SegmentModel::Plain(t@)));
    }

    fn styled(&mut self, text: String, colour: Colour, bold: bool)
        ensures
            final(self).says() == old(self).says().push(
                SegmentModel::Styled { text: text@, colour, bold },
            ),
    {
        let ghost t = text@;
        self.segments.push(Segment::Styled { text, colour, bold });
        assert(self.says() == old(self).says().push(
            SegmentModel::Styled { text: t, colour, bold },
        ));
    }

    fn number(&mut self, value: Double)
        ensures
            final(self).says() == old(self).says().push(SegmentModel::Number(value)),
    {
        self.segments.push(Segment::Number(value));
        assert(self.says() == old(self).says().push(SegmentModel::Number(value)));
    }

    fn rule(&mut self)
        ensures
            final(self).says() == old(self).says().push(rule()),
    {
        proof {
            reveal_strlit("═");
        }
        self.styled(text::repeat("═", RULE_WIDTH), Colour::BrightCyan, false);
    }

    fn text_line(&mut self, name: &str, value: &str)
        ensures
            final(self).says() == old(self).says() + text_line(name@, value@),
    {
        self.styled(text::pad(name, LABEL_WIDTH), Colour::BrightWhite, false);
        self.plain(" ");
        self.styled(value.to_string(), Colour::BrightGreen, false);
        self.plain("\n");
        assert(self.says() == old(self).says() + text_line(name@, value@));
    }

    fn number_line(&mut self, name: &str, value: Double, unit: &str, colour: Colour)
        ensures
            final(self).says() == old(self).says() + number_line(name@, value, unit@, colour),
    {
        self.styled(text::pad(name, LABEL_WIDTH), Colour::BrightWhite, false);
        self.plain(" ");
        self.number(value);
        self.plain(" ");
        self.styled(unit.to_string(), colour, false);
        self.plain("\n");
        assert(self.says() == old(self).says() + number_line(name@, value, unit@, colour));
    }

    fn size_line(&mut self, name: &str, speed: Double)
        ensures
            final(self).says() == old(self).says() + size_line(name@, speed),
    {
        if speed.gt(Double::zero()) {
            self.number_line(name, speed, "Mbps", Colour::BrightCyan);
        } else {
            assert(self.says() == old(self).says() + size_line(name@, speed));
        }
    }

    fn rating_line(&mut self, name: &str, rating: Rating)
        ensures
            final(self).says() == old(self).says() + rating_line(name@, rating),
    {
        self.plain(name);
        self.styled(rating.label().to_string(), rating.colour(), false);
        self.plain("\n");
        assert(self.says() == old(self).says() + rating_line(name@, rating));
    }

    fn heading(&mut self)
        ensures
            final(self).says() == old(self).says() + heading(),
    {
        self.plain("\n");
        self.rule();
        self.plain("\n");
        self.styled(
            "           CLOUDFLARE SPEED TEST RESULTS".to_string(),
            Colour::BrightCyan,
            true,
        );
        self.plain("\n");
        self.rule();
        self.plain("\n");
        assert(self.says() == old(self).says() + heading());
    }

    fn quality(&mut self, r: &SpeedTestResults)
        ensures
            final(self).says() == old(self).says() + quality(*r),
    {
        self.plain("\n");
        self.styled("Connection Quality:".to_string(), Colour::BrightWhite, true);
        self.plain("\n");
        self.rating_line("  Download:  ", speed_rating(r.download_mbps));
        self.rating_line("  Latency:   ", latency_rating(r.latency_ms));
        self.rating_line("  Packet Loss: ", packet_loss_rating(r.packet_loss_pct));
        assert(self.says() == old(self).says() + quality(*r));
    }
}

/// Writes the report on the results.
pub fn write_report(r: &SpeedTestResults) -> (segments: Vec<Segment>)
    ensures
        models(segments@) == report(*r),
{
    let mut draft = Draft { segments: Vec::new() };
    assert(draft.says() == Seq::<SegmentModel>::empty());
    draft.heading();
    assert(draft.says() == heading());
    draft.text_line("Server location:", r.server_location.as_str());
    draft.text_line("Your IP:", mask_ip(r.your_ip.as_str()).as_str());
    draft.number_line("Latency:", r.latency_ms, "ms", Colour::BrightYellow);
    draft.number_line("Packet Loss:", r.packet_loss_pct, "%", Colour::BrightRed);
    draft.size_line("100kB speed:", r.speed_100kb);
    draft.size_line("1MB speed:", r.speed_1mb);
    draft.size_line("10MB speed:", r.speed_10mb);
    draft.size_line("25MB speed:", r.speed_25mb);
    draft.size_line("100MB speed:", r.speed_100mb);
    draft.number_line("Download speed:", r.download_mbps, "Mbps", Colour::BrightGreen);
    draft.number_line("Upload speed:", r.upload_mbps, "Mbps", Colour::BrightGreen);
    let ghost before = draft.says();
    draft.rule();
    draft.plain("\n");
    assert(draft.says() == before + seq![rule(), SegmentModel::Plain("\n"@)]);
    draft.quality(r);
    draft.segments
}

/// Whether a piece is how a part of the report appears.
pub open spec fn shows(piece: Piece, segment: SegmentModel) -> bool {
    match segment {
        SegmentModel::Plain(text) => piece matches Piece::Text(t) && t@ == text,
        SegmentModel::Styled { text, colour, bold } => piece matches Piece::Text(t) && appears(
            t@,
            text,
            colour,
            bold,
        ),
        SegmentModel::Number(value) => piece matches Piece::Number(v) && v == value,
    }
}

/// Applies the colours to a part of the report.
pub fn render(segment: Segment) -> (piece: Piece)
    ensures
        shows(piece, segment@),
{
    match segment {
        Segment::Plain(text) => Piece::Text(text),
        Segment::Styled { text, colour, bold } => {
            if bold {
                Piece::Text(paint_bold(text.as_str(), colour))
            } else {
                Piece::Text(paint(text.as_str(), colour))
            }
        },
        Segment::Number(value) => Piece::Number(value),
    }
}

/// Writes the report on the results and applies the colours.
pub fn display_results(r: &SpeedTestResults) -> (pieces: Vec<Piece>)
    ensures
        pieces@.len() == report(*r).len(),
        forall|i: int| 0 <= i < pieces@.len() ==> shows(#[trigger] pieces@[i], report(*r)[i]),
{
    let segments = write_report(r);
    let ghost all = segments@;
    let mut pieces: Vec<Piece> = Vec::new();
    for segment in iter: segments
        invariant
            iter.seq() == all,
            models(all) == report(*r),
            pieces@.len() == iter.index(),
            forall|i: int| 0 <= i < pieces@.len() ==> shows(#[trigger] pieces@[i], report(*r)[i]),
    {
        assert(models(all)[iter.index() as int] == segment@);
        pieces.push(render(segment));
    }
    pieces
}

} // verus!
