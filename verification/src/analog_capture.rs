//! The analog-capture view's own logic: which capture file a `stream:`
//! query picks, how the pane's commands read, and the byte codec of its
//! session state (the pinned stream and the manually entered points,
//! their coordinates kept as the bit patterns of the numbers typed).

use vstd::prelude::*;
use crate::text::{
    chars_of, debug_list, debug_strings, debug_str, push_debug_str, push_str, span_is, span_starts_with, span_texts, spans_equal, string_of,
    token_spans, tokens, trim, trim_span,
};
use crate::text::lit;
use crate::view::{is_tick, opt_text, le_bytes, le_value, le_at, lemma_le_round_trip, pow256, push_le_bytes, tick_command};
use vstd::utf8::{decode_utf8, encode_utf8, valid_utf8};

verus! {

// ---------------------------------------------------------------------
// Stream selection.
// ---------------------------------------------------------------------

/// The extension of capture files.
pub open spec fn capture_extension() -> Seq<char> {
    ".analog-capture"@
}

/// Whether `s` ends with `suffix`.
pub open spec fn ends_with(s: Seq<char>, suffix: Seq<char>) -> bool {
    suffix.len() <= s.len() && s.skip(s.len() - suffix.len()) == suffix
}

/// Index of the last `/` of `s`, or -1.
pub open spec fn last_slash(s: Seq<char>) -> int
    decreases s.len(),
{
    if s.len() == 0 {
        -1
    } else if s.last() == '/' {
        s.len() - 1
    } else {
        last_slash(s.drop_last())
    }
}

/// The file name of `path` without directories and without the capture
/// extension.
pub open spec fn file_stem(path: Seq<char>) -> Seq<char> {
    let stem = if ends_with(path, capture_extension()) {
        path.take(path.len() - capture_extension().len())
    } else {
        path
    };
    stem.skip(last_slash(stem) + 1)
}

/// A `stream:` query names `path` when it is the whole path, the path's
/// final components after a `/`, or its bare file stem.
pub open spec fn stream_matches(path: Seq<char>, query: Seq<char>) -> bool {
    path == query || ends_with(path, seq!['/'] + query) || file_stem(path) == query
}

proof fn lemma_last_slash_bounds(s: Seq<char>)
    ensures
        -1 <= last_slash(s) < s.len(),
        last_slash(s) >= 0 ==> s[last_slash(s)] == '/',
        forall|j: int| last_slash(s) < j < s.len() ==> s[j] != '/',
    decreases s.len(),
{
    if s.len() > 0 && s.last() != '/' {
        lemma_last_slash_bounds(s.drop_last());
        assert forall|j: int| last_slash(s) < j < s.len() implies s[j] != '/' by {
            if j < s.len() - 1 {
                assert(s[j] == s.drop_last()[j]);
            }
        }
    }
}

/// Whether the `stream:` query `query` picks the capture at `path`.
pub fn stream_query_matches(path: &str, query: &str) -> (b: bool)
    ensures
        b == stream_matches(path@, query@),
{
    let p = chars_of(path);
    let q = chars_of(query);
    let n = p.len();
    if spans_equal(&p, 0, n, &q, 0, q.len()) {
        assert(p@.subrange(0, n as int) =~= p@);
        assert(q@.subrange(0, q@.len() as int) =~= q@);
        return true;
    }
    assert(p@.subrange(0, n as int) =~= p@);
    assert(q@.subrange(0, q@.len() as int) =~= q@);
    if q.len() < n && p[n - q.len() - 1] == '/' && spans_equal(&p, n - q.len(), n, &q, 0, q.len()) {
        assert(p@.skip(n - (q@.len() + 1)) =~= seq!['/'] + q@);
        return true;
    }
    proof {
        if ends_with(p@, seq!['/'] + q@) {
            let s = p@.skip(n - (q@.len() + 1));
            assert(s[0] == '/');
            assert(p@[n - q@.len() - 1] == s[0]);
            assert(p@.subrange(n - q@.len(), n as int) =~= s.skip(1));
            assert(s.skip(1) =~= q@);
        }
    }
    let mut stem_end = n;
    if span_is(&p, 0, n, "") {
    }
    proof {
        reveal_strlit(".analog-capture");
    }
    if n >= 15 && span_is(&p, n - 15, n, ".analog-capture") {
        stem_end = n - 15;
        assert(p@.skip(n - 15) =~= p@.subrange(n - 15, n as int));
    } else {
        proof {
            if ends_with(p@, capture_extension()) {
                assert(p@.skip(n - 15) =~= p@.subrange(n - 15, n as int));
            }
        }
    }
    let ghost stem = p@.take(stem_end as int);
    assert(stem =~= if ends_with(p@, capture_extension()) {
        p@.take(p@.len() - capture_extension().len())
    } else {
        p@
    });
    let mut start = stem_end;
    while start > 0 && p[start - 1] != '/'
        invariant
            start <= stem_end <= n == p@.len(),
            stem == p@.take(stem_end as int),
            forall|j: int| start <= j < stem_end ==> p@[j] != '/',
        decreases start,
    {
        start = start - 1;
    }
    proof {
        lemma_last_slash_bounds(stem);
        if start > 0 {
            assert(stem[start - 1] == '/');
            assert(last_slash(stem) >= start - 1);
            if last_slash(stem) > start - 1 {
                assert(stem[last_slash(stem)] == '/');
            }
        } else {
            if last_slash(stem) >= 0 {
                assert(stem[last_slash(stem)] == '/');
            }
        }
        assert(last_slash(stem) + 1 == start);
        assert(p@.subrange(start as int, stem_end as int) =~= stem.skip(start as int));
    }
    spans_equal(&p, start, stem_end, &q, 0, q.len())
}

/// The capture a pane reads, among the `paths` the host lists: the first
/// path the pinned stream query names, or with no pin the first path;
/// `Ok(None)` when there is no capture at all.
pub open spec fn selected(paths: Seq<Seq<char>>, filter: Option<Seq<char>>) -> Result<Option<Seq<char>>, Seq<char>> {
    match filter {
        Some(name) => if exists|i: int| 0 <= i < paths.len() && stream_matches(paths[i], name) {
            Ok(Some(paths[first_match(paths, name)]))
        } else {
            Err("stream "@ + debug_str(name) + " not found among current .analog-capture files: "@ + debug_list(paths))
        },
        None => if paths.len() == 0 {
            Ok(None)
        } else {
            Ok(Some(paths[0]))
        },
    }
}

/// Index of the first path `name` matches, or the number of paths.
pub open spec fn first_match(paths: Seq<Seq<char>>, name: Seq<char>) -> int
    decreases paths.len(),
{
    if paths.len() == 0 {
        0
    } else if stream_matches(paths[0], name) {
        0
    } else {
        1 + first_match(paths.drop_first(), name)
    }
}

proof fn lemma_first_match(paths: Seq<Seq<char>>, name: Seq<char>)
    ensures
        0 <= first_match(paths, name) <= paths.len(),
        forall|j: int| 0 <= j < first_match(paths, name) ==> !stream_matches(#[trigger] paths[j], name),
        first_match(paths, name) < paths.len() ==> stream_matches(paths[first_match(paths, name)], name),
    decreases paths.len(),
{
    if paths.len() > 0 && !stream_matches(paths[0], name) {
        lemma_first_match(paths.drop_first(), name);
        assert forall|j: int| 0 <= j < first_match(paths, name) implies !stream_matches(
            #[trigger] paths[j],
            name,
        ) by {
            if j > 0 {
                assert(paths[j] == paths.drop_first()[j - 1]);
            }
        }
    }
}

/// Picks the capture file a pane reads (see [`selected`]).
pub fn select_stream(paths: &[String], filter: Option<&str>) -> (r: Result<Option<String>, String>)
    ensures
        match (
            r,
            selected(
                paths@.map_values(|s: String| s@),
                match filter {
                    Some(f) => Some(f@),
                    None => None,
                },
            ),
        ) {
            (Ok(Some(p)), Ok(Some(q))) => p@ == q,
            (Ok(None), Ok(None)) => true,
            (Err(e), Err(m)) => e@ == m,
            _ => false,
        },
{
    let ghost ps = paths@.map_values(|s: String| s@);
    match filter {
        Some(name) => {
            proof {
                lemma_first_match(ps, name@);
            }
            let mut i: usize = 0;
            while i < paths.len()
                invariant
                    i <= paths@.len(),
                    filter == Some(name),
                    ps == paths@.map_values(|s: String| s@),
                    forall|j: int| 0 <= j < i ==> !stream_matches(#[trigger] ps[j], name@),
                    0 <= first_match(ps, name@) <= ps.len(),
                    forall|j: int| 0 <= j < first_match(ps, name@) ==> !stream_matches(#[trigger] ps[j], name@),
                    first_match(ps, name@) < ps.len() ==> stream_matches(ps[first_match(ps, name@)], name@),
                decreases paths.len() - i,
            {
                assert(ps[i as int] == paths@[i as int]@);
                if stream_query_matches(paths[i].as_str(), name) {
                    assert(first_match(ps, name@) == i);
                    assert(stream_matches(ps[i as int], name@));
                    assert(exists|k: int| 0 <= k < ps.len() && stream_matches(ps[k], name@));
                    return Ok(Some(lit(paths[i].as_str())));
                }
                i = i + 1;
            }
            let mut e = lit("stream ");
            push_debug_str(&mut e, name);
            push_str(&mut e, " not found among current .analog-capture files: ");
            let listed = debug_strings(paths);
            push_str(&mut e, listed.as_str());
            Err(e)
        },
        None => {
            if paths.len() == 0 {
                Ok(None)
            } else {
                Ok(Some(lit(paths[0].as_str())))
            }
        },
    }
}

/// The placeholder text when no capture file is found, naming the pinned
/// stream if there is one.
pub fn missing_capture_text(filter: Option<&str>) -> (t: String)
    ensures
        t@ == match filter {
            Some(name) => "no .analog-capture file matching "@ + debug_str(name@) + " found in this project"@,
            None => "no .analog-capture file found in this project"@,
        },
{
    match filter {
        Some(name) => {
            let mut t = lit("no .analog-capture file matching ");
            push_debug_str(&mut t, name);
            push_str(&mut t, " found in this project");
            t
        },
        None => lit("no .analog-capture file found in this project"),
    }
}

// ---------------------------------------------------------------------
// Commands.
// ---------------------------------------------------------------------

/// A pane command.
#[derive(Debug, Clone, PartialEq, Eq)]
pub enum PaneCommand {
    /// The live-refresh tick: read the capture again.
    Tick,
    /// `stream: <name>` pins the pane to a capture; an empty name or `-`
    /// unpins it.
    Stream(Option<String>),
    /// `value: <channel> <x> <y>`, the coordinates still as typed.
    Value(String, String, String),
}

/// A pane command as plain values.
pub enum CommandView {
    Tick,
    Stream(Option<Seq<char>>),
    Value(Seq<char>, Seq<char>, Seq<char>),
}

pub open spec fn command_view(c: PaneCommand) -> CommandView {
    match c {
        PaneCommand::Tick => CommandView::Tick,
        PaneCommand::Stream(Some(n)) => CommandView::Stream(Some(n@)),
        PaneCommand::Stream(None) => CommandView::Stream(None),
        PaneCommand::Value(ch, x, y) => CommandView::Value(ch@, x@, y@),
    }
}

/// How a command reads, or why it is refused.
pub open spec fn command_spec(c: Seq<char>) -> Result<CommandView, Seq<char>> {
    if c == tick_command() {
        Ok(CommandView::Tick)
    } else if c.len() >= 7 && c.take(7) == "stream:"@ {
        let name = trim(c.skip(7));
        Ok(CommandView::Stream(if name.len() == 0 || name == seq!['-'] { None } else { Some(name) }))
    } else if c.len() >= 6 && c.take(6) == "value:"@ {
        let parts = tokens(c.skip(6));
        if parts.len() == 3 {
            Ok(CommandView::Value(parts[0], parts[1], parts[2]))
        } else {
            Err("usage: value: <channel> <x> <y>"@)
        }
    } else {
        Err(
            "unknown command: "@ + debug_str(c)
                + " (try the tick, \"stream: <filename>\", or \"value: <channel> <x> <y>\")"@,
        )
    }
}

/// Reads a pane command.
pub fn parse_command(command: &str) -> (r: Result<PaneCommand, String>)
    ensures
        match (r, command_spec(command@)) {
            (Ok(c), Ok(v)) => command_view(c) == v,
            (Err(e), Err(m)) => e@ == m,
            _ => false,
        },
{
    if is_tick(command) {
        return Ok(PaneCommand::Tick);
    }
    let cs = chars_of(command);
    let n = cs.len();
    proof {
        reveal_strlit("stream:");
        reveal_strlit("value:");
    }
    if span_starts_with(&cs, 0, n, "stream:") {
        assert(cs@.subrange(0, 7) =~= cs@.take(7));
        let (a, b) = trim_span(&cs, 7, n);
        assert(cs@.subrange(7, n as int) =~= cs@.skip(7));
        let empty = a == b;
        let dash = b > a && b - a == 1 && cs[a] == '-';
        proof {
            let name = trim(cs@.skip(7));
            assert(name == cs@.subrange(a as int, b as int));
            if dash {
                assert(name =~= seq!['-']);
            }
            if name == seq!['-'] {
                assert(name.len() == 1);
                assert(b - a == 1);
                assert(name[0] == cs@.subrange(a as int, b as int)[0]);
            }
        }
        if empty || dash {
            return Ok(PaneCommand::Stream(None));
        }
        return Ok(PaneCommand::Stream(Some(string_of(&cs, a, b))));
    }
    assert(!(cs@.len() >= 7 && cs@.take(7) == "stream:"@)) by {
        if cs@.len() >= 7 && cs@.take(7) == "stream:"@ {
            assert(cs@.subrange(0, 7) =~= cs@.take(7));
        }
    }
    if span_starts_with(&cs, 0, n, "value:") {
        assert(cs@.subrange(0, 6) =~= cs@.take(6));
        let rest = string_of(&cs, 6, n);
        let rc = chars_of(rest.as_str());
        assert(rc@ =~= cs@.skip(6));
        let spans = token_spans(&rc);
        if spans.len() != 3 {
            return Err(lit("usage: value: <channel> <x> <y>"));
        }
        let (c0, c1) = spans[0];
        let (x0, x1) = spans[1];
        let (y0, y1) = spans[2];
        let channel = string_of(&rc, c0, c1);
        let x = string_of(&rc, x0, x1);
        let y = string_of(&rc, y0, y1);
        return Ok(PaneCommand::Value(channel, x, y));
    }
    assert(!(cs@.len() >= 6 && cs@.take(6) == "value:"@)) by {
        if cs@.len() >= 6 && cs@.take(6) == "value:"@ {
            assert(cs@.subrange(0, 6) =~= cs@.take(6));
        }
    }
    let mut e = lit("unknown command: ");
    push_debug_str(&mut e, command);
    push_str(&mut e, " (try the tick, \"stream: <filename>\", or \"value: <channel> <x> <y>\")");
    Err(e)
}

// ---------------------------------------------------------------------
// The session state.
// ---------------------------------------------------------------------

/// A manually typed point: its channel and the bit patterns of its two
/// coordinates (as `f64::to_bits` gives them).
#[derive(Debug, Clone, PartialEq, Eq)]
pub struct ManualPoint {
    pub channel: String,
    pub x_bits: u64,
    pub y_bits: u64,
}

/// A pane's session state: the stream it is pinned to, if any, and the
/// points typed into it.
#[derive(Debug, Clone, PartialEq, Eq)]
pub struct ViewState {
    pub stream_filter: Option<String>,
    pub manual: Vec<ManualPoint>,
}

/// A manual point as plain values: channel, x bits, y bits.
pub type PointView = (Seq<char>, u64, u64);

pub open spec fn point_view(p: ManualPoint) -> PointView {
    (p.channel@, p.x_bits, p.y_bits)
}

/// A state as plain values: the pinned stream and the points.
pub open spec fn state_view(s: ViewState) -> (Option<Seq<char>>, Seq<PointView>) {
    (opt_text(s.stream_filter), s.manual@.map_values(|p: ManualPoint| point_view(p)))
}

/// A string as stored: its UTF-8 length (four bytes, little-endian) and
/// its UTF-8 bytes.
pub open spec fn string_bytes(s: Seq<char>) -> Seq<u8> {
    le_bytes(encode_utf8(s).len(), 4) + encode_utf8(s)
}

/// A point as stored: its channel, then x and y (eight bytes each).
pub open spec fn point_bytes(p: PointView) -> Seq<u8> {
    string_bytes(p.0) + le_bytes(p.1 as nat, 8) + le_bytes(p.2 as nat, 8)
}

/// The points as stored, one after the other.
pub open spec fn points_bytes(ps: Seq<PointView>) -> Seq<u8>
    decreases ps.len(),
{
    if ps.len() == 0 {
        Seq::empty()
    } else {
        points_bytes(ps.drop_last()) + point_bytes(ps.last())
    }
}

/// A state as stored: a flag byte (1 with the pinned stream after it, 0
/// without), the number of points (four bytes) and the points.
pub open spec fn encode_spec(v: (Option<Seq<char>>, Seq<PointView>)) -> Seq<u8> {
    (match v.0 {
        Some(n) => seq![1u8] + string_bytes(n),
        None => seq![0u8],
    }) + le_bytes(v.1.len(), 4) + points_bytes(v.1)
}

/// The error for a state that ends too early.
pub open spec fn truncated() -> Seq<char> {
    "corrupt view-state: truncated"@
}

/// The four-byte number at `pos`, if the state is long enough.
pub open spec fn read_u32_spec(b: Seq<u8>, pos: int) -> Option<nat> {
    if 0 <= pos && pos + 4 <= b.len() {
        Some(le_value(b.subrange(pos, pos + 4)))
    } else {
        None
    }
}

/// The string stored at `pos` and where it ends, or why it cannot be
/// read.
pub open spec fn read_string_spec(b: Seq<u8>, pos: int) -> Result<(Seq<char>, int), Seq<char>> {
    match read_u32_spec(b, pos) {
        None => Err(truncated()),
        Some(n) => if pos + 4 + n > b.len() {
            Err("corrupt view-state: truncated string"@)
        } else if !valid_utf8(b.subrange(pos + 4, pos + 4 + n)) {
            Err("corrupt view-state: invalid utf8"@)
        } else {
            Ok((decode_utf8(b.subrange(pos + 4, pos + 4 + n)), pos + 4 + n))
        },
    }
}

/// The point stored at `pos` and where it ends, or why it cannot be read.
pub open spec fn read_point_spec(b: Seq<u8>, pos: int) -> Result<(PointView, int), Seq<char>> {
    match read_string_spec(b, pos) {
        Err(e) => Err(e),
        Ok((ch, p)) => if p + 16 > b.len() {
            Err(truncated())
        } else {
            Ok(
                (
                    (ch, le_value(b.subrange(p, p + 8)) as u64, le_value(b.subrange(p + 8, p + 16)) as u64),
                    p + 16,
                ),
            )
        },
    }
}

/// The first `k` points stored from `pos` and where they end, or why
/// they cannot be read.
pub open spec fn read_points_spec(b: Seq<u8>, pos: int, k: nat) -> Result<(Seq<PointView>, int), Seq<char>>
    decreases k,
{
    if k == 0 {
        Ok((Seq::empty(), pos))
    } else {
        match read_points_spec(b, pos, (k - 1) as nat) {
            Err(e) => Err(e),
            Ok((ps, p)) => match read_point_spec(b, p) {
                Err(e) => Err(e),
                Ok((pt, p2)) => Ok((ps.push(pt), p2)),
            },
        }
    }
}

/// The state stored in `b` (an empty state holds nothing), or why it
/// cannot be read; bytes after the last point are ignored.
pub open spec fn decode_spec(b: Seq<u8>) -> Result<(Option<Seq<char>>, Seq<PointView>), Seq<char>> {
    if b.len() == 0 {
        Ok((None, Seq::empty()))
    } else {
        let head: Result<(Option<Seq<char>>, int), Seq<char>> = if b[0] == 1 {
            match read_string_spec(b, 1) {
                Err(e) => Err(e),
                Ok((n, p)) => Ok((Some(n), p)),
            }
        } else {
            Ok((None, 1))
        };
        match head {
            Err(e) => Err(e),
            Ok((f, p)) => match read_u32_spec(b, p) {
                None => Err(truncated()),
                Some(count) => match read_points_spec(b, p + 4, count) {
                    Err(e) => Err(e),
                    Ok((ps, _)) => Ok((f, ps)),
                },
            },
        }
    }
}

/// Decodes UTF-8 bytes into a string, if they are valid UTF-8
/// (`String::from_utf8`): the characters are the ones the bytes encode.
#[verifier::external_body]
fn utf8_string(bytes: Vec<u8>) -> (r: Option<String>)
    ensures
        r is Some <==> valid_utf8(bytes@),
        r matches Some(s) ==> s@ == decode_utf8(bytes@),
{
    String::from_utf8(bytes).ok()
}

/// Appends `s` as stored: its UTF-8 length, then its UTF-8 bytes.
pub fn write_string(bytes: &mut Vec<u8>, s: &str)
    ensures
        final(bytes)@ == old(bytes)@ + string_bytes(s@),
{
    let b = s.as_bytes();
    let ghost start = bytes@;
    push_le_bytes(bytes, b.len() as u64, 4);
    let ghost mid = bytes@;
    let mut i: usize = 0;
    while i < b.len()
        invariant
            i <= b@.len(),
            b@ == encode_utf8(s@),
            mid == start + le_bytes(b@.len() as nat, 4),
            bytes@ == mid + b@.take(i as int),
        decreases b.len() - i,
    {
        bytes.push(b[i]);
        i = i + 1;
        assert(bytes@ =~= mid + b@.take(i as int));
    }
    assert(b@.take(i as int) =~= b@);
    assert(bytes@ =~= start + string_bytes(s@));
}

/// Reads the four-byte number at `*pos` and moves past it.
pub fn read_u32(bytes: &[u8], pos: &mut usize) -> (r: Result<u32, String>)
    ensures
        *old(pos) <= bytes@.len() ==> *final(pos) <= bytes@.len(),
        match read_u32_spec(bytes@, *old(pos) as int) {
            None => r matches Err(e) && e@ == truncated(),
            Some(n) => r == Ok::<u32, String>(n as u32) && n <= u32::MAX && *final(pos) == *old(pos) + 4,
        },
{
    let len = bytes.len();
    if *pos > len || len - *pos < 4 {
        return Err(lit("corrupt view-state: truncated"));
    }
    let v = le_at(bytes, *pos, 4);
    proof {
        crate::view::lemma_le_value_round_trip(bytes@.subrange(*old(pos) as int, *old(pos) + 4));
        reveal_with_fuel(pow256, 5);
    }
    *pos = *pos + 4;
    Ok(v as u32)
}

/// Reads the eight-byte number at `*pos` and moves past it.
pub fn read_u64(bytes: &[u8], pos: &mut usize) -> (r: Result<u64, String>)
    ensures
        *old(pos) <= bytes@.len() ==> *final(pos) <= bytes@.len(),
        *old(pos) + 8 > bytes@.len() ==> (r matches Err(e) && e@ == truncated()),
        *old(pos) + 8 <= bytes@.len() ==> r == Ok::<u64, String>(
            le_value(bytes@.subrange(*old(pos) as int, *old(pos) + 8)) as u64,
        ) && *final(pos) == *old(pos) + 8,
{
    let len = bytes.len();
    if *pos > len || len - *pos < 8 {
        return Err(lit("corrupt view-state: truncated"));
    }
    let v = le_at(bytes, *pos, 8);
    *pos = *pos + 8;
    Ok(v)
}

/// Reads the string stored at `*pos` and moves past it.
pub fn read_string(bytes: &[u8], pos: &mut usize) -> (r: Result<String, String>)
    ensures
        *old(pos) <= bytes@.len() ==> *final(pos) <= bytes@.len(),
        match read_string_spec(bytes@, *old(pos) as int) {
            Err(m) => r matches Err(e) && e@ == m,
            Ok((s, p)) => r matches Ok(t) && t@ == s && *final(pos) == p,
        },
{
    let n = read_u32(bytes, pos)?;
    let len = bytes.len();
    if (n as usize) > len - *pos {
        return Err(lit("corrupt view-state: truncated string"));
    }
    let start = *pos;
    let end = start + n as usize;
    let mut v: Vec<u8> = Vec::new();
    let mut i = start;
    while i < end
        invariant
            start <= i <= end <= bytes@.len(),
            v@ == bytes@.subrange(start as int, i as int),
        decreases end - i,
    {
        v.push(bytes[i]);
        i = i + 1;
        assert(v@ =~= bytes@.subrange(start as int, i as int));
    }
    *pos = end;
    match utf8_string(v) {
        Some(s) => Ok(s),
        None => Err(lit("corrupt view-state: invalid utf8")),
    }
}

/// Stores a pane's state.
pub fn encode_state(state: &ViewState) -> (bytes: Vec<u8>)
    ensures
        bytes@ == encode_spec(state_view(*state)),
{
    let mut bytes: Vec<u8> = Vec::new();
    match &state.stream_filter {
        Some(name) => {
            bytes.push(1);
            write_string(&mut bytes, name.as_str());
        },
        None => {
            bytes.push(0);
        },
    }
    let ghost head = bytes@;
    push_le_bytes(&mut bytes, state.manual.len() as u64, 4);
    let ghost counted = bytes@;
    let ghost ps = state.manual@.map_values(|p: ManualPoint| point_view(p));
    let mut i: usize = 0;
    while i < state.manual.len()
        invariant
            i <= state.manual@.len(),
            ps == state.manual@.map_values(|p: ManualPoint| point_view(p)),
            bytes@ == counted + points_bytes(ps.take(i as int)),
        decreases state.manual.len() - i,
    {
        let p = &state.manual[i];
        let ghost before = bytes@;
        write_string(&mut bytes, p.channel.as_str());
        push_le_bytes(&mut bytes, p.x_bits, 8);
        push_le_bytes(&mut bytes, p.y_bits, 8);
        assert(ps.take(i + 1).drop_last() =~= ps.take(i as int));
        assert(bytes@ =~= counted + points_bytes(ps.take(i + 1)));
        i = i + 1;
    }
    assert(ps.take(i as int) =~= ps);
    assert(bytes@ =~= encode_spec(state_view(*state)));
    bytes
}

/// Reads a pane's state back (see [`decode_spec`]).
pub fn decode_state(state: &[u8]) -> (r: Result<ViewState, String>)
    ensures
        match (r, decode_spec(state@)) {
            (Ok(s), Ok(v)) => state_view(s) == v,
            (Err(e), Err(m)) => e@ == m,
            _ => false,
        },
{
    if state.len() == 0 {
        let s = ViewState { stream_filter: None, manual: Vec::new() };
        assert(state_view(s).1 =~= Seq::<PointView>::empty());
        return Ok(s);
    }
    let mut pos: usize = 1;
    let stream_filter = if state[0] == 1 {
        match read_string(state, &mut pos) {
            Ok(s) => Some(s),
            Err(e) => {
                return Err(e);
            },
        }
    } else {
        None
    };
    let count = match read_u32(state, &mut pos) {
        Ok(c) => c,
        Err(e) => {
            return Err(e);
        },
    };
    let ghost start = pos as int;
    let ghost fv = opt_text(stream_filter);
    let ghost whole = match read_points_spec(state@, start, count as nat) {
        Err(e) => Err(e),
        Ok((ps, _)) => Ok((fv, ps)),
    };
    assert(decode_spec(state@) == whole);
    let mut manual: Vec<ManualPoint> = Vec::new();
    assert(manual@.map_values(|p: ManualPoint| point_view(p)) =~= Seq::<PointView>::empty());
    let mut k: u32 = 0;
    while k < count
        invariant
            k <= count,
            pos <= state@.len(),
            fv == opt_text(stream_filter),
            decode_spec(state@) == whole,
            whole == match read_points_spec(state@, start, count as nat) {
                Err(e) => Err(e),
                Ok((ps, _)) => Ok::<(Option<Seq<char>>, Seq<PointView>), Seq<char>>((fv, ps)),
            },
            read_points_spec(state@, start, k as nat) == Ok::<(Seq<PointView>, int), Seq<char>>(
                (manual@.map_values(|p: ManualPoint| point_view(p)), pos as int),
            ),
        decreases count - k,
    {
        let ghost before = manual@.map_values(|p: ManualPoint| point_view(p));
        let ghost p0 = pos;
        let channel = match read_string(state, &mut pos) {
            Ok(c) => c,
            Err(e) => {
                proof {
                    lemma_read_points_stops(state@, start, (k + 1) as nat, count as nat);
                }
                return Err(e);
            },
        };
        let x_bits = match read_u64(state, &mut pos) {
            Ok(x) => x,
            Err(e) => {
                proof {
                    lemma_read_points_stops(state@, start, (k + 1) as nat, count as nat);
                }
                return Err(e);
            },
        };
        let y_bits = match read_u64(state, &mut pos) {
            Ok(y) => y,
            Err(e) => {
                proof {
                    lemma_read_points_stops(state@, start, (k + 1) as nat, count as nat);
                }
                return Err(e);
            },
        };
        let pt = ManualPoint { channel, x_bits, y_bits };
        manual.push(pt);
        assert(manual@.map_values(|p: ManualPoint| point_view(p)) =~= before.push(point_view(pt)));
        k = k + 1;
    }
    let s = ViewState { stream_filter, manual };
    assert(state_view(s).0 == fv);
    Ok(s)
}

/// Every string in `v` fits the four-byte length it is stored with, and
/// so does the number of points.
pub open spec fn storable(v: (Option<Seq<char>>, Seq<PointView>)) -> bool {
    &&& v.0 matches Some(n) ==> encode_utf8(n).len() <= u32::MAX
    &&& forall|i: int| 0 <= i < v.1.len() ==> encode_utf8(#[trigger] v.1[i].0).len() <= u32::MAX
    &&& v.1.len() <= u32::MAX
}

proof fn lemma_pow256_four_eight()
    ensures
        pow256(4) == 0x1_0000_0000,
        pow256(8) == 0x1_0000_0000_0000_0000,
{
    reveal_with_fuel(pow256, 9);
}

proof fn lemma_read_string_at(b: Seq<u8>, pos: int, s: Seq<char>)
    requires
        0 <= pos,
        encode_utf8(s).len() <= u32::MAX,
        pos + string_bytes(s).len() <= b.len(),
        b.subrange(pos, pos + string_bytes(s).len()) == string_bytes(s),
    ensures
        read_string_spec(b, pos) == Ok::<(Seq<char>, int), Seq<char>>((s, pos + string_bytes(s).len())),
{
    let e = encode_utf8(s);
    let l = e.len();
    lemma_pow256_four_eight();
    lemma_le_round_trip(l, 4);
    let sb = string_bytes(s);
    assert(b.subrange(pos, pos + 4) =~= sb.subrange(0, 4));
    assert(sb.subrange(0, 4) =~= le_bytes(l, 4));
    assert(b.subrange(pos + 4, pos + 4 + l) =~= sb.subrange(4, 4 + l as int));
    assert(sb.subrange(4, 4 + l as int) =~= e);
    vstd::utf8::encode_utf8_valid_utf8(s);
    vstd::utf8::encode_utf8_decode_utf8(s);
}

proof fn lemma_read_point_at(b: Seq<u8>, pos: int, p: PointView)
    requires
        0 <= pos,
        encode_utf8(p.0).len() <= u32::MAX,
        pos + point_bytes(p).len() <= b.len(),
        b.subrange(pos, pos + point_bytes(p).len()) == point_bytes(p),
    ensures
        read_point_spec(b, pos) == Ok::<(PointView, int), Seq<char>>((p, pos + point_bytes(p).len())),
{
    let sb = string_bytes(p.0);
    let pb = point_bytes(p);
    lemma_pow256_four_eight();
    lemma_le_round_trip(p.1 as nat, 8);
    lemma_le_round_trip(p.2 as nat, 8);
    assert(b.subrange(pos, pos + sb.len()) =~= pb.subrange(0, sb.len() as int));
    assert(pb.subrange(0, sb.len() as int) =~= sb);
    lemma_read_string_at(b, pos, p.0);
    let q = pos + sb.len();
    assert(b.subrange(q, q + 8) =~= pb.subrange(sb.len() as int, sb.len() as int + 8));
    assert(pb.subrange(sb.len() as int, sb.len() as int + 8) =~= le_bytes(p.1 as nat, 8));
    assert(b.subrange(q + 8, q + 16) =~= pb.subrange(sb.len() as int + 8, sb.len() as int + 16));
    assert(pb.subrange(sb.len() as int + 8, sb.len() as int + 16) =~= le_bytes(p.2 as nat, 8));
}

proof fn lemma_points_prefix(ps: Seq<PointView>, k: int)
    requires
        0 <= k <= ps.len(),
    ensures
        points_bytes(ps.take(k)).len() <= points_bytes(ps).len(),
        points_bytes(ps).take(points_bytes(ps.take(k)).len() as int) == points_bytes(ps.take(k)),
    decreases ps.len() - k,
{
    if k < ps.len() {
        lemma_points_prefix(ps, k + 1);
        assert(ps.take(k + 1).drop_last() =~= ps.take(k));
        let a = points_bytes(ps.take(k));
        let c = points_bytes(ps.take(k + 1));
        assert(c.take(a.len() as int) =~= a);
        assert(points_bytes(ps).take(a.len() as int) =~= points_bytes(ps).take(c.len() as int).take(
            a.len() as int,
        ));
    } else {
        assert(ps.take(k) =~= ps);
        assert(points_bytes(ps).take(points_bytes(ps).len() as int) =~= points_bytes(ps));
    }
}

proof fn lemma_read_points_at(b: Seq<u8>, pos: int, ps: Seq<PointView>, k: nat)
    requires
        0 <= pos,
        k <= ps.len(),
        forall|i: int| 0 <= i < ps.len() ==> encode_utf8(#[trigger] ps[i].0).len() <= u32::MAX,
        pos + points_bytes(ps).len() <= b.len(),
        b.subrange(pos, pos + points_bytes(ps).len()) == points_bytes(ps),
    ensures
        read_points_spec(b, pos, k) == Ok::<(Seq<PointView>, int), Seq<char>>(
            (ps.take(k as int), pos + points_bytes(ps.take(k as int)).len()),
        ),
    decreases k,
{
    if k == 0 {
        assert(ps.take(0) =~= Seq::<PointView>::empty());
    } else {
        lemma_read_points_at(b, pos, ps, (k - 1) as nat);
        let before = ps.take(k - 1);
        let upto = ps.take(k as int);
        assert(upto.drop_last() =~= before);
        lemma_points_prefix(ps, k as int);
        let q = pos + points_bytes(before).len();
        let pt = ps[k - 1];
        let all = points_bytes(ps);
        let pre = points_bytes(upto);
        assert(pre == points_bytes(before) + point_bytes(pt));
        assert(b.subrange(q, q + point_bytes(pt).len()) =~= pre.subrange(
            points_bytes(before).len() as int,
            pre.len() as int,
        )) by {
            assert forall|i: int| 0 <= i < point_bytes(pt).len() implies #[trigger] b.subrange(
                q,
                q + point_bytes(pt).len(),
            )[i] == pre[points_bytes(before).len() + i] by {
                assert(b.subrange(pos, pos + all.len())[points_bytes(before).len() + i] == all[points_bytes(
                    before,
                ).len() + i]);
                assert(all.take(pre.len() as int)[points_bytes(before).len() + i] == pre[points_bytes(
                    before,
                ).len() + i]);
            }
        }
        assert(pre.subrange(points_bytes(before).len() as int, pre.len() as int) =~= point_bytes(pt));
        lemma_read_point_at(b, q, pt);
        assert(before.push(pt) =~= upto);
    }
}

/// Reading back a stored state gives the state, whenever its strings and
/// its number of points fit the lengths they are stored with.
pub proof fn state_codec_round_trip(v: (Option<Seq<char>>, Seq<PointView>))
    requires
        storable(v),
    ensures
        decode_spec(encode_spec(v)) == Ok::<(Option<Seq<char>>, Seq<PointView>), Seq<char>>(v),
{
    let b = encode_spec(v);
    let head = match v.0 {
        Some(n) => seq![1u8] + string_bytes(n),
        None => seq![0u8],
    };
    let n = v.1.len();
    let ps = v.1;
    lemma_pow256_four_eight();
    lemma_le_round_trip(n, 4);
    assert(b == head + le_bytes(n, 4) + points_bytes(ps));
    if let Some(name) = v.0 {
        let sb = string_bytes(name);
        assert(b.subrange(1, 1 + sb.len() as int) =~= sb);
        lemma_read_string_at(b, 1, name);
    }
    let p = head.len() as int;
    assert(b.subrange(p, p + 4) =~= le_bytes(n, 4));
    assert(b.subrange(p + 4, p + 4 + points_bytes(ps).len()) =~= points_bytes(ps));
    lemma_read_points_at(b, p + 4, ps, n);
    assert(ps.take(n as int) =~= ps);
}

/// Once reading a point fails, reading more points fails the same way.
proof fn lemma_read_points_stops(b: Seq<u8>, pos: int, k: nat, n: nat)
    requires
        1 <= k <= n,
        read_points_spec(b, pos, k) is Err,
    ensures
        read_points_spec(b, pos, n) == read_points_spec(b, pos, k),
    decreases n - k,
{
    if n > k {
        lemma_read_points_stops(b, pos, k, (n - 1) as nat);
    }
}

} // verus!
