//! Reading the server's description of the connection: lines of the form
//! `key=value`.

use crate::failure::Failure;
use crate::text;
use crate::text::{lines_spec, split_once_spec};
use vstd::prelude::*;

verus! {

/// Which server answers, and under which address it sees the client.
#[derive(Debug)]
pub struct ServerInfo {
    pub location: String,
    pub ip: String,
}

/// The value that a line gives to `key`, if it gives one.
pub open spec fn line_value(line: Seq<char>, key: Seq<char>) -> Option<Seq<char>> {
    match split_once_spec(line, '=') {
        Some((k, v)) => if k == key {
            Some(v)
        } else {
            None
        },
        None => None,
    }
}

/// The value that the last line to name `key` gives to it, or `default` if no
/// line does.
pub open spec fn last_value(lines: Seq<Seq<char>>, key: Seq<char>, default: Seq<char>) -> Seq<char>
    decreases lines.len(),
{
    if lines.len() == 0 {
        default
    } else {
        match line_value(lines.last(), key) {
            Some(v) => v,
            None => last_value(lines.drop_last(), key, default),
        }
    }
}

/// The value of `key` in a description; `Unknown` if it is not there.
pub open spec fn trace_value(description: Seq<char>, key: Seq<char>) -> Seq<char> {
    last_value(lines_spec(description), key, "Unknown"@)
}

/// Reads the location and the address out of a description.
pub fn parse_server_info(description: &str) -> (info: ServerInfo)
    ensures
        info.location@ == trace_value(description@, "colo"@),
        info.ip@ == trace_value(description@, "ip"@),
{
    let mut location = "Unknown".to_string();
    let mut ip = "Unknown".to_string();
    let lines = text::lines(description);
    let ghost all = lines_spec(description@);
    proof {
        reveal_strlit("colo");
        reveal_strlit("ip");
    }
    assert("colo"@ != "ip"@) by {
        assert("colo"@.len() == 4 && "ip"@.len() == 2);
    }
    assert(all.take(0) == Seq::<Seq<char>>::empty());
    for i in 0..lines.len()
        invariant
            text::texts(lines@) == all,
            "colo"@ != "ip"@,
            location@ == last_value(all.take(i as int), "colo"@, "Unknown"@),
            ip@ == last_value(all.take(i as int), "ip"@, "Unknown"@),
    {
        assert(all.take(i + 1).drop_last() == all.take(i as int));
        assert(all[i as int] == lines@[i as int]@);
        if let Some((key, value)) = text::split_once(lines[i].as_str(), '=') {
            if text::same(key.as_str(), "colo") {
                location = value;
            } else if text::same(key.as_str(), "ip") {
                ip = value;
            }
        }
    }
    assert(all.take(all.len() as int) == all);
    ServerInfo { location, ip }
}

/// What came of the request for the description.
#[derive(Debug)]
pub enum TraceReply {
    /// The request could not be sent, or no answer came.
    SendFailed,
    /// The body of the answer could not be read.
    ReadFailed,
    /// The body of the answer.
    Body { text: String },
}

/// The failure that a reply amounts to, if it is one.
pub open spec fn trace_failure(reply: TraceReply) -> Option<Failure> {
    match reply {
        TraceReply::SendFailed => Some(Failure::GetServerInfo),
        TraceReply::ReadFailed => Some(Failure::ReadServerInfo),
        TraceReply::Body { .. } => None,
    }
}

/// Takes the reply to the request for the description.
pub fn server_info(reply: &TraceReply) -> (r: Result<ServerInfo, Failure>)
    ensures
        match r {
            Ok(info) => *reply matches TraceReply::Body { text } && info.location@ == trace_value(
                text@,
                "colo"@,
            ) && info.ip@ == trace_value(text@, "ip"@),
            Err(failure) => trace_failure(*reply) == Some(failure),
        },
{
    match reply {
        TraceReply::SendFailed => Err(Failure::GetServerInfo),
        TraceReply::ReadFailed => Err(Failure::ReadServerInfo),
        TraceReply::Body { text } => Ok(parse_server_info(text.as_str())),
    }
}

/// A line that is appended to complete lines is the last of the lines.
pub proof fn appended_line_is_last(before: Seq<char>, line: Seq<char>)
    requires
        before.len() == 0 || before.last() == '\n',
        !line.contains('\n'),
        line.len() > 0 ==> line.last() != '\r',
    ensures
        lines_spec(before + line.push('\n')) == lines_spec(before).push(line),
    decreases before.len(),
{
    let s = before + line.push('\n');
    if before.len() == 0 {
        assert(s == line.push('\n'));
        text::lemma_find_is(s, '\n', line.len() as int);
        assert(s.take(line.len() as int) == line);
        assert(s.skip(line.len() as int + 1) == Seq::<char>::empty());
        assert(lines_spec(s) == seq![line] + lines_spec(s.skip(line.len() as int + 1)));
        assert(lines_spec(before) == Seq::<Seq<char>>::empty());
    } else {
        let i = text::find(before, '\n') as int;
        text::lemma_find(before, '\n');
        if i == before.len() {
            assert(before[before.len() - 1] == '\n');
            assert(before[before.len() - 1] != '\n');
        }
        text::lemma_find_is(s, '\n', i);
        let rest = before.skip(i + 1);
        if rest.len() > 0 {
            assert(rest.last() == before.last());
        }
        appended_line_is_last(rest, line);
        assert(s.take(i) == before.take(i));
        assert(s.skip(i + 1) == rest + line.push('\n'));
        let head = seq![text::chomp(before.take(i))];
        assert(head + lines_spec(rest).push(line) == (head + lines_spec(rest)).push(line));
    }
}

/// The last word counts: after a line that gives `key` a value, the description
/// has that value for it, and every other key has the value that it had.
pub proof fn last_line_decides(
    before: Seq<char>,
    key: Seq<char>,
    value: Seq<char>,
    other: Seq<char>,
)
    requires
        before.len() == 0 || before.last() == '\n',
        !key.contains('='),
        !key.contains('\n'),
        !value.contains('\n'),
        value.len() > 0 ==> value.last() != '\r',
        other != key,
    ensures
        trace_value(before + (key.push('=') + value).push('\n'), key) == value,
        trace_value(before + (key.push('=') + value).push('\n'), other) == trace_value(
            before,
            other,
        ),
{
    let line = key.push('=') + value;
    assert(line[key.len() as int] == '=');
    if line.contains('\n') {
        let k = choose|k: int| 0 <= k < line.len() && line[k] == '\n';
        if k < key.len() {
            assert(key[k] == '\n');
        } else if k > key.len() {
            assert(value[k - key.len() - 1] == '\n');
        }
    }
    assert(line.last() != '\r') by {
        if value.len() > 0 {
            assert(line.last() == value.last());
        } else {
            assert(line.last() == '=');
        }
    }
    appended_line_is_last(before, line);
    text::lemma_find_is(line, '=', key.len() as int);
    assert(line.take(key.len() as int) == key);
    assert(line.skip(key.len() as int + 1) == value);
    let lines = lines_spec(before).push(line);
    assert(lines.drop_last() == lines_spec(before));
}

/// A line with a carriage return and a line feed at its end is that line without
/// them, and a last line needs no line feed.
pub proof fn line_endings_are_dropped(before: Seq<char>, line: Seq<char>)
    requires
        before.len() == 0 || before.last() == '\n',
        !line.contains('\n'),
    ensures
        lines_spec(before + line.push('\r').push('\n')) == lines_spec(before).push(line),
        line.len() > 0 ==> lines_spec(before + line) == lines_spec(before).push(line),
    decreases before.len(),
{
    let ending = line.push('\r').push('\n');
    let s = before + ending;
    let u = before + line;
    if before.len() == 0 {
        assert(s == ending && u == line);
        let n = line.len() as int + 1;
        assert forall|i: int| 0 <= i < n implies s[i] != '\n' by {
            if i < line.len() {
                assert(s[i] == line[i]);
                assert(line.contains(line[i]));
            }
        }
        text::lemma_find_is(s, '\n', n);
        assert(s.take(n) == line.push('\r'));
        assert(text::chomp(line.push('\r')) == line) by {
            assert(line.push('\r').drop_last() == line);
        }
        assert(s.skip(n + 1) == Seq::<char>::empty());
        assert(lines_spec(s) == seq![line] + lines_spec(s.skip(n + 1)));
        assert(lines_spec(before) == Seq::<Seq<char>>::empty());
        assert forall|i: int| 0 <= i < line.len() implies line[i] != '\n' by {
            assert(line.contains(line[i]));
        }
        text::lemma_find_is(line, '\n', line.len() as int);
    } else {
        let i = text::find(before, '\n') as int;
        text::lemma_find(before, '\n');
        if i == before.len() {
            assert(before[before.len() - 1] == '\n');
            assert(before[before.len() - 1] != '\n');
        }
        text::lemma_find_is(s, '\n', i);
        text::lemma_find_is(u, '\n', i);
        let rest = before.skip(i + 1);
        if rest.len() > 0 {
            assert(rest.last() == before.last());
        }
        line_endings_are_dropped(rest, line);
        assert(s.take(i) == before.take(i) && u.take(i) == before.take(i));
        assert(s.skip(i + 1) == rest + ending);
        assert(u.skip(i + 1) == rest + line);
        let head = seq![text::chomp(before.take(i))];
        assert(head + lines_spec(rest).push(line) == (head + lines_spec(rest)).push(line));
    }
}

/// A description in which no line begins with a key and an equals sign has no
/// value for that key.
pub proof fn unnamed_key_is_unknown(description: Seq<char>, key: Seq<char>)
    requires
        forall|i: int|
            0 <= i < lines_spec(description).len() ==> !key.push('=').is_prefix_of(
                #[trigger] lines_spec(description)[i],
            ),
    ensures
        trace_value(description, key) == "Unknown"@,
{
    lemma_unnamed(lines_spec(description), key, "Unknown"@);
}

proof fn lemma_unnamed(lines: Seq<Seq<char>>, key: Seq<char>, default: Seq<char>)
    requires
        forall|i: int|
            0 <= i < lines.len() ==> !key.push('=').is_prefix_of(#[trigger] lines[i]),
    ensures
        last_value(lines, key, default) == default,
    decreases lines.len(),
{
    if lines.len() > 0 {
        let n = lines.len() - 1;
        assert(forall|i: int| 0 <= i < n ==> #[trigger] lines.drop_last()[i] == lines[i]);
        lemma_unnamed(lines.drop_last(), key, default);
        text::split_once_joins_back(lines[n], '=');
        if let Some((k, v)) = split_once_spec(lines[n], '=') {
            assert(k.push('=').is_prefix_of(k.push('=') + v));
        }
    }
}

} // verus!
