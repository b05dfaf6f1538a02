//! Text operations: cutting at separators, into lines, and composing output.

use vstd::prelude::*;

verus! {

/// The index of the first `c` in `s`, or the length of `s` if there is none.
pub open spec fn find(s: Seq<char>, c: char) -> nat
    decreases s.len(),
{
    if s.len() == 0 || s[0] == c {
        0
    } else {
        1 + find(s.skip(1), c)
    }
}

/// The pieces of `s` between the occurrences of `sep`; always at least one.
pub open spec fn split_spec(s: Seq<char>, sep: char) -> Seq<Seq<char>>
    decreases s.len(),
{
    let i = find(s, sep) as int;
    if i >= s.len() {
        seq![s]
    } else {
        seq![s.take(i)] + split_spec(s.skip(i + 1), sep)
    }
}

/// `line` without a carriage return at its end.
pub open spec fn chomp(line: Seq<char>) -> Seq<char> {
    if line.len() > 0 && line.last() == '\r' {
        line.drop_last()
    } else {
        line
    }
}

/// The lines of `s`: each ends at a line feed, which is dropped together with a
/// carriage return before it. A rest without a line feed is a line as it is,
/// unless it is empty.
pub open spec fn lines_spec(s: Seq<char>) -> Seq<Seq<char>>
    decreases s.len(),
{
    let i = find(s, '\n') as int;
    if s.len() == 0 {
        seq![]
    } else if i >= s.len() {
        seq![s]
    } else {
        seq![chomp(s.take(i))] + lines_spec(s.skip(i + 1))
    }
}

/// `s` cut at its first `sep`, which belongs to neither part.
pub open spec fn split_once_spec(s: Seq<char>, sep: char) -> Option<(Seq<char>, Seq<char>)> {
    let i = find(s, sep) as int;
    if i >= s.len() {
        None
    } else {
        Some((s.take(i), s.skip(i + 1)))
    }
}

/// The texts held by a sequence of strings.
pub open spec fn texts(strings: Seq<String>) -> Seq<Seq<char>> {
    strings.map_values(|s: String| s@)
}

/// The digit character of `d`.
pub open spec fn digit(d: nat) -> char {
    ('0' as int + d as int) as char
}

/// The decimal numeral of `n`, without leading zeros.
pub open spec fn decimal_spec(n: nat) -> Seq<char>
    decreases n,
{
    if n < 10 {
        seq![digit(n)]
    } else {
        decimal_spec(n / 10).push(digit(n % 10))
    }
}

/// The number that a sequence of decimal digits denotes.
pub open spec fn numeral_value(s: Seq<char>) -> int
    decreases s.len(),
{
    if s.len() == 0 {
        0
    } else {
        10 * numeral_value(s.drop_last()) + (s.last() as int - '0' as int)
    }
}

/// `c` written `count` times.
pub open spec fn repeated(c: char, count: nat) -> Seq<char> {
    Seq::new(count, |i: int| c)
}

/// `s` followed by spaces up to `width` characters; `s` itself if it is no shorter.
pub open spec fn padded(s: Seq<char>, width: nat) -> Seq<char> {
    if s.len() >= width {
        s
    } else {
        s + repeated(' ', (width - s.len()) as nat)
    }
}

pub(crate) proof fn lemma_find(s: Seq<char>, c: char)
    ensures
        0 <= find(s, c) <= s.len(),
        find(s, c) < s.len() ==> s[find(s, c) as int] == c,
        forall|i: int| 0 <= i < find(s, c) ==> s[i] != c,
    decreases s.len(),
{
    if s.len() > 0 && s[0] != c {
        lemma_find(s.skip(1), c);
        assert forall|i: int| 0 <= i < find(s, c) implies s[i] != c by {
            if i > 0 {
                assert(s.skip(1)[i - 1] == s[i]);
            }
        }
    }
}

pub(crate) proof fn lemma_find_is(s: Seq<char>, c: char, at: int)
    requires
        0 <= at <= s.len(),
        at < s.len() ==> s[at] == c,
        forall|i: int| 0 <= i < at ==> s[i] != c,
    ensures
        find(s, c) == at,
{
    lemma_find(s, c);
    let f = find(s, c) as int;
    if f < at {
        assert(s[f] != c);
    } else if at < f {
        assert(s[at] != c);
    }
}

/// The characters of `text`.
fn collect(text: &str) -> (chars: Vec<char>)
    ensures
        chars@ == text@,
{
    let mut chars: Vec<char> = Vec::new();
    for c in iter: text.chars()
        invariant
            chars@ == text@.take(iter.index() as int),
            iter.seq() == text@,
    {
        chars.push(c);
    }
    assert(text@.take(text@.len() as int) == text@);
    chars
}


/// The index of the first `c` at or after `from`, or the number of characters.
fn find_from(chars: &Vec<char>, from: usize, c: char) -> (at: usize)
    requires
        from <= chars@.len(),
    ensures
        from <= at <= chars@.len(),
        at - from == find(chars@.skip(from as int), c),
{
    let mut at: usize = from;
    while at < chars.len() && chars[at] != c
        invariant
            from <= at <= chars@.len(),
            forall|i: int| from <= i < at ==> chars@[i] != c,
        decreases chars@.len() - at,
    {
        at += 1;
    }
    proof {
        lemma_find_is(chars@.skip(from as int), c, at - from);
    }
    at
}

/// Cuts `text` at every `sep`.
pub fn split(text: &str, sep: char) -> (parts: Vec<String>)
    ensures
        texts(parts@) == split_spec(text@, sep),
{
    let chars = collect(text);
    let mut parts: Vec<String> = Vec::new();
    let mut start: usize = 0;
    assert(text@.skip(0) == text@);
    assert(texts(parts@) + split_spec(text@, sep) == split_spec(text@, sep));
    loop
        invariant
            chars@ == text@,
            start <= chars@.len(),
            split_spec(text@, sep) == texts(parts@) + split_spec(text@.skip(start as int), sep),
        decreases chars@.len() - start,
    {
        let end = find_from(&chars, start, sep);
        let ghost before = parts@;
        let ghost rest = text@.skip(start as int);
        parts.push(text.substring_char(start, end).to_string());
        assert(text@.subrange(start as int, end as int) == rest.take(end - start));
        assert(texts(parts@) == texts(before).push(rest.take(end - start)));
        if end == chars.len() {
            assert(rest.take(end - start) == rest);
            return parts;
        }
        assert(rest.skip(end - start + 1) == text@.skip(end + 1));
        start = end + 1;
    }
}

/// Cuts `text` into lines.
pub fn lines(text: &str) -> (parts: Vec<String>)
    ensures
        texts(parts@) == lines_spec(text@),
{
    let chars = collect(text);
    let mut parts: Vec<String> = Vec::new();
    let mut start: usize = 0;
    assert(text@.skip(0) == text@);
    assert(texts(parts@) + lines_spec(text@) == lines_spec(text@));
    while start < chars.len()
        invariant
            chars@ == text@,
            start <= chars@.len(),
            lines_spec(text@) == texts(parts@) + lines_spec(text@.skip(start as int)),
        decreases chars@.len() - start,
    {
        let end = find_from(&chars, start, '\n');
        let ghost before = parts@;
        let ghost rest = text@.skip(start as int);
        if end == chars.len() {
            parts.push(text.substring_char(start, end).to_string());
            assert(texts(parts@) == texts(before).push(rest));
            start = end;
        } else {
            let stop = if end > start && chars[end - 1] == '\r' {
                end - 1
            } else {
                end
            };
            parts.push(text.substring_char(start, stop).to_string());
            assert(text@.subrange(start as int, stop as int) == chomp(rest.take(end - start)));
            assert(texts(parts@) == texts(before).push(chomp(rest.take(end - start))));
            assert(rest.skip(end - start + 1) == text@.skip(end + 1));
            start = end + 1;
        }
    }
    assert(texts(parts@) + lines_spec(text@.skip(start as int)) == texts(parts@));
    parts
}

/// Cuts `text` at its first `sep`, if it has one.
pub fn split_once(text: &str, sep: char) -> (parts: Option<(String, String)>)
    ensures
        match parts {
            Some((left, right)) => split_once_spec(text@, sep) == Some((left@, right@)),
            None => split_once_spec(text@, sep) is None,
        },
{
    let chars = collect(text);
    assert(text@.skip(0) == text@);
    let at = find_from(&chars, 0, sep);
    if at == chars.len() {
        None
    } else {
        let left = text.substring_char(0, at).to_string();
        let right = text.substring_char(at + 1, chars.len()).to_string();
        assert(left@ == text@.take(at as int));
        assert(right@ == text@.skip(at + 1));
        Some((left, right))
    }
}

/// Whether two texts are the same.
pub fn same(a: &str, b: &str) -> (r: bool)
    ensures
        r == (a@ == b@),
{
    let x = collect(a);
    let y = collect(b);
    if x.len() != y.len() {
        return false;
    }
    for i in 0..x.len()
        invariant
            x@ == a@,
            y@ == b@,
            x@.len() == y@.len(),
            forall|j: int| 0 <= j < i ==> x@[j] == y@[j],
    {
        if x[i] != y[i] {
            return false;
        }
    }
    assert(a@ == b@);
    true
}

/// Whether `c` occurs in `text`.
pub fn contains(text: &str, c: char) -> (r: bool)
    ensures
        r == text@.contains(c),
{
    let chars = collect(text);
    assert(text@.skip(0) == text@);
    let at = find_from(&chars, 0, c);
    proof {
        lemma_find(text@, c);
    }
    at < chars.len()
}

/// The numeral of a single digit.
fn digit_text(d: usize) -> (t: &'static str)
    requires
        d < 10,
    ensures
        t@ == seq![digit(d as nat)],
{
    proof {
        reveal_strlit("0");
        reveal_strlit("1");
        reveal_strlit("2");
        reveal_strlit("3");
        reveal_strlit("4");
        reveal_strlit("5");
        reveal_strlit("6");
        reveal_strlit("7");
        reveal_strlit("8");
        reveal_strlit("9");
    }
    match d {
        0 => "0",
        1 => "1",
        2 => "2",
        3 => "3",
        4 => "4",
        5 => "5",
        6 => "6",
        7 => "7",
        8 => "8",
        _ => "9",
    }
}

/// Writes `n` in decimal.
pub fn decimal(n: usize) -> (t: String)
    ensures
        t@ == decimal_spec(n as nat),
    decreases n,
{
    if n < 10 {
        digit_text(n).to_string()
    } else {
        let mut t = decimal(n / 10);
        t.append(digit_text(n % 10));
        t
    }
}

/// Writes the one character of `unit` `count` times.
pub fn repeat(unit: &str, count: usize) -> (t: String)
    requires
        unit@.len() == 1,
    ensures
        t@ == repeated(unit@[0], count as nat),
{
    let mut t = String::new();
    for i in 0..count
        invariant
            unit@.len() == 1,
            t@ == repeated(unit@[0], i as nat),
    {
        t.append(unit);
        assert(t@ == repeated(unit@[0], (i + 1) as nat));
    }
    t
}

/// Appends spaces to `text` up to `width` characters.
pub fn pad(text: &str, width: usize) -> (t: String)
    ensures
        t@ == padded(text@, width as nat),
{
    let len = text.unicode_len();
    let mut t = text.to_string();
    if len < width {
        proof {
            reveal_strlit(" ");
        }
        t.append(repeat(" ", width - len).as_str());
    }
    t
}

/// Joins two texts.
pub fn join(a: &str, b: &str) -> (t: String)
    ensures
        t@ == a@ + b@,
{
    let mut t = a.to_string();
    t.append(b);
    t
}

/// A decimal numeral denotes the number that it was written for.
pub proof fn decimal_denotes(n: nat)
    ensures
        numeral_value(decimal_spec(n)) == n,
    decreases n,
{
    let s = decimal_spec(n);
    if n < 10 {
        assert(s.drop_last() == Seq::<char>::empty());
        assert(numeral_value(s.drop_last()) == 0);
    } else {
        decimal_denotes(n / 10);
        assert(s.drop_last() == decimal_spec(n / 10));
    }
}

/// Different numbers have different decimal numerals.
pub proof fn decimal_injective(a: nat, b: nat)
    requires
        decimal_spec(a) == decimal_spec(b),
    ensures
        a == b,
{
    decimal_denotes(a);
    decimal_denotes(b);
}

/// `parts` with `sep` between each two of them.
pub open spec fn joined(parts: Seq<Seq<char>>, sep: char) -> Seq<char>
    decreases parts.len(),
{
    if parts.len() == 0 {
        seq![]
    } else if parts.len() == 1 {
        parts[0]
    } else {
        parts[0].push(sep) + joined(parts.skip(1), sep)
    }
}

/// Cutting a text at a separator loses nothing: the pieces, with the separator
/// put back between them, are the text, and no piece holds the separator.
pub proof fn split_joins_back(s: Seq<char>, sep: char)
    ensures
        split_spec(s, sep).len() >= 1,
        joined(split_spec(s, sep), sep) == s,
        forall|i: int|
            0 <= i < split_spec(s, sep).len() ==> !(#[trigger] split_spec(s, sep)[i]).contains(sep),
    decreases s.len(),
{
    let i = find(s, sep) as int;
    lemma_find(s, sep);
    let parts = split_spec(s, sep);
    if i < s.len() {
        let rest = s.skip(i + 1);
        split_joins_back(rest, sep);
        assert(parts.skip(1) == split_spec(rest, sep));
        assert(s.take(i).push(sep) + rest == s);
        assert forall|k: int| 0 <= k < parts.len() implies !(#[trigger] parts[k]).contains(sep) by {
            if k > 0 {
                assert(parts[k] == split_spec(rest, sep)[k - 1]);
            }
        }
    }
}

/// A text without the separator is its only piece.
pub(crate) proof fn lemma_split_whole(s: Seq<char>, sep: char)
    requires
        !s.contains(sep),
    ensures
        split_spec(s, sep) == seq![s],
{
    lemma_find(s, sep);
    if find(s, sep) < s.len() {
        assert(s[find(s, sep) as int] == sep);
    }
}

/// What stands before the first separator is the first piece.
pub(crate) proof fn lemma_split_first(first: Seq<char>, rest: Seq<char>, sep: char)
    requires
        !first.contains(sep),
    ensures
        split_spec(first.push(sep) + rest, sep) == seq![first] + split_spec(rest, sep),
{
    let s = first.push(sep) + rest;
    let n = first.len() as int;
    assert forall|i: int| 0 <= i < n implies s[i] != sep by {
        assert(s[i] == first[i]);
        assert(first.contains(first[i]));
    }
    lemma_find_is(s, sep, n);
    assert(s.take(n) == first);
    assert(s.skip(n + 1) == rest);
}

/// The pieces of a text hold no character that the text does not hold.
pub(crate) proof fn lemma_pieces_of(s: Seq<char>, sep: char, c: char)
    requires
        !s.contains(c),
    ensures
        forall|i: int|
            0 <= i < split_spec(s, sep).len() ==> !(#[trigger] split_spec(s, sep)[i]).contains(c),
    decreases s.len(),
{
    let n = find(s, sep) as int;
    lemma_find(s, sep);
    if n < s.len() {
        let rest = s.skip(n + 1);
        let head = s.take(n);
        assert(forall|i: int| 0 <= i < rest.len() ==> rest[i] == s[n + 1 + i]);
        assert(forall|i: int| 0 <= i < head.len() ==> head[i] == s[i]);
        assert(!rest.contains(c));
        assert(!head.contains(c));
        lemma_pieces_of(rest, sep, c);
        let parts = split_spec(s, sep);
        assert forall|i: int| 0 <= i < parts.len() implies !(#[trigger] parts[i]).contains(c) by {
            if i > 0 {
                assert(parts[i] == split_spec(rest, sep)[i - 1]);
            }
        }
    }
}

/// A decimal numeral consists of digits, the first of which is a zero only for
/// the number zero.
pub proof fn decimal_is_written_in_digits(n: nat)
    ensures
        decimal_spec(n).len() > 0,
        forall|i: int|
            0 <= i < decimal_spec(n).len() ==> '0' <= #[trigger] decimal_spec(n)[i] <= '9',
        decimal_spec(n)[0] == '0' ==> n == 0 && decimal_spec(n).len() == 1,
    decreases n,
{
    if n >= 10 {
        decimal_is_written_in_digits(n / 10);
        assert(decimal_spec(n)[0] == decimal_spec(n / 10)[0]);
    }
}

/// Padding keeps the text, adds nothing but spaces, and adds no more of them than
/// the width asks for.
pub proof fn padding_adds_spaces_only(s: Seq<char>, width: nat)
    ensures
        padded(s, width).len() == (if s.len() >= width {
            s.len()
        } else {
            width
        }),
        padded(s, width).take(s.len() as int) == s,
        forall|i: int| s.len() <= i < padded(s, width).len() ==> #[trigger] padded(s, width)[i] == ' ',
{
}

/// A repeated character is there as often as asked for, and nothing else is.
pub proof fn repetition_is_of_one_character(c: char, count: nat)
    ensures
        repeated(c, count).len() == count,
        forall|i: int| 0 <= i < count ==> #[trigger] repeated(c, count)[i] == c,
{
}

/// A cut at the first separator loses nothing: the two parts, with the separator
/// between them, are the text, and the first part does not hold the separator.
/// There is none only if the text does not hold the separator.
pub proof fn split_once_joins_back(s: Seq<char>, sep: char)
    ensures
        match split_once_spec(s, sep) {
            Some((left, right)) => left.push(sep) + right == s && !left.contains(sep),
            None => !s.contains(sep),
        },
{
    let i = find(s, sep) as int;
    lemma_find(s, sep);
    if i < s.len() {
        assert(s.take(i).push(sep) + s.skip(i + 1) == s);
    }
}

} // verus!
