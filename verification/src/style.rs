//! Terminal colours.

use colored::Colorize;
use vstd::prelude::*;

verus! {

/// The foreground colours in use.
#[derive(Clone, Copy, Debug, PartialEq, Eq, Structural)]
pub enum Colour {
    Red,
    Green,
    Yellow,
    BrightRed,
    BrightGreen,
    BrightYellow,
    BrightCyan,
    BrightWhite,
}

/// The control sequence that ends all styling.
pub open spec fn reset() -> Seq<char> {
    seq!['\x1b', '[', '0', 'm']
}

/// The two digits that select a foreground colour.
pub open spec fn code(colour: Colour) -> Seq<char> {
    match colour {
        Colour::Red => seq!['3', '1'],
        Colour::Green => seq!['3', '2'],
        Colour::Yellow => seq!['3', '3'],
        Colour::BrightRed => seq!['9', '1'],
        Colour::BrightGreen => seq!['9', '2'],
        Colour::BrightYellow => seq!['9', '3'],
        Colour::BrightCyan => seq!['9', '6'],
        Colour::BrightWhite => seq!['9', '7'],
    }
}

/// The control sequence that starts a style.
pub open spec fn opening(colour: Colour, bold: bool) -> Seq<char> {
    let weight = if bold {
        seq!['1', ';']
    } else {
        seq![]
    };
    seq!['\x1b', '['] + weight + code(colour) + seq!['m']
}

/// `text` with `open` after every reset sequence in it.
pub open spec fn reopened(text: Seq<char>, open: Seq<char>) -> Seq<char>
    decreases text.len(),
{
    if text.len() < 4 {
        text
    } else if text.take(4) == reset() {
        reset() + open + reopened(text.skip(4), open)
    } else {
        seq![text[0]] + reopened(text.skip(1), open)
    }
}

/// Whether `shown` is how `text` appears in a style: as it is where colours are
/// off, else between the style's control sequence and a reset.
pub open spec fn appears(shown: Seq<char>, text: Seq<char>, colour: Colour, bold: bool) -> bool {
    let open = opening(colour, bold);
    shown == text || shown == open + reopened(text, open) + reset()
}

/// A text without control characters appears as it is, or as it is between the
/// two control sequences.
pub proof fn clean_text_is_kept_whole(shown: Seq<char>, text: Seq<char>, colour: Colour, bold: bool)
    requires
        !text.contains('\x1b'),
    ensures
        appears(shown, text, colour, bold) <==> (shown == text || shown == opening(colour, bold)
            + text + reset()),
{
    lemma_clean_text(text, opening(colour, bold));
}

proof fn lemma_clean_text(text: Seq<char>, open: Seq<char>)
    requires
        !text.contains('\x1b'),
    ensures
        reopened(text, open) == text,
    decreases text.len(),
{
    if text.len() >= 4 {
        assert(text[0] != '\x1b') by {
            assert(text.contains(text[0]));
        }
        assert(text.take(4)[0] == text[0]);
        assert(reset()[0] == '\x1b');
        let rest = text.skip(1);
        assert(!rest.contains('\x1b')) by {
            if rest.contains('\x1b') {
                let i = choose|i: int| 0 <= i < rest.len() && rest[i] == '\x1b';
                assert(text[i + 1] == '\x1b');
            }
        }
        lemma_clean_text(rest, open);
        assert(seq![text[0]] + rest == text);
    }
}

/// Calls `colored::Colorize::color` and formats the result.
///
/// Believed of it: the text comes back as it was where the crate has colours
/// switched off, else between the foreground's control sequence and the reset
/// sequence, with the former repeated after each reset inside the text. Which
/// of the two it is depends on the environment and the terminal.
#[verifier::external_body]
pub(crate) fn paint(text: &str, colour: Colour) -> (shown: String)
    ensures
        appears(shown@, text@, colour, false),
{
    let foreground = match colour {
        Colour::Red => colored::Color::Red,
        Colour::Green => colored::Color::Green,
        Colour::Yellow => colored::Color::Yellow,
        Colour::BrightRed => colored::Color::BrightRed,
        Colour::BrightGreen => colored::Color::BrightGreen,
        Colour::BrightYellow => colored::Color::BrightYellow,
        Colour::BrightCyan => colored::Color::BrightCyan,
        Colour::BrightWhite => colored::Color::BrightWhite,
    };
    text.color(foreground).to_string()
}

/// Calls `colored::Colorize::color` and `colored::Colorize::bold` and formats
/// the result.
///
/// Believed of it: what is believed of [`paint`], with the bold attribute in
/// front of the colour in the control sequence.
#[verifier::external_body]
pub(crate) fn paint_bold(text: &str, colour: Colour) -> (shown: String)
    ensures
        appears(shown@, text@, colour, true),
{
    let foreground = match colour {
        Colour::Red => colored::Color::Red,
        Colour::Green => colored::Color::Green,
        Colour::Yellow => colored::Color::Yellow,
        Colour::BrightRed => colored::Color::BrightRed,
        Colour::BrightGreen => colored::Color::BrightGreen,
        Colour::BrightYellow => colored::Color::BrightYellow,
        Colour::BrightCyan => colored::Color::BrightCyan,
        Colour::BrightWhite => colored::Color::BrightWhite,
    };
    text.color(foreground).bold().to_string()
}

} // verus!
