//! Character-level text handling shared by the line-oriented parsers:
//! line splitting, whitespace trimming, unsigned number syntax, decimal
//! rendering and message building.

use vstd::prelude::*;

verus! {

// ---------------------------------------------------------------------
// Specifications.
// ---------------------------------------------------------------------

/// Unicode `White_Space`, the set `char::is_whitespace` tests for.
pub open spec fn is_ws(c: char) -> bool {
    let v = c as u32;
    (0x09 <= v <= 0x0D) || v == 0x20 || v == 0x85 || v == 0xA0 || v == 0x1680 || (0x2000 <= v
        <= 0x200A) || v == 0x2028 || v == 0x2029 || v == 0x202F || v == 0x205F || v == 0x3000
}

/// `s` without its leading whitespace.
pub open spec fn trim_start(s: Seq<char>) -> Seq<char>
    decreases s.len(),
{
    if s.len() > 0 && is_ws(s[0]) {
        trim_start(s.drop_first())
    } else {
        s
    }
}

/// `s` without its trailing whitespace.
pub open spec fn trim_end(s: Seq<char>) -> Seq<char>
    decreases s.len(),
{
    if s.len() > 0 && is_ws(s.last()) {
        trim_end(s.drop_last())
    } else {
        s
    }
}

/// `s` without leading or trailing whitespace.
pub open spec fn trim(s: Seq<char>) -> Seq<char> {
    trim_end(trim_start(s))
}

/// Index of the first `c` in `s` at or after `i`, or `s.len()` if none.
pub open spec fn find_from(s: Seq<char>, c: char, i: int) -> int
    decreases s.len() - i,
{
    if i >= s.len() {
        s.len() as int
    } else if s[i] == c {
        i
    } else {
        find_from(s, c, i + 1)
    }
}

/// `find_from` lands on the first `c` at or after `i`, or at the end.
pub proof fn lemma_find_from_bounds(s: Seq<char>, c: char, i: int)
    requires
        0 <= i <= s.len(),
    ensures
        i <= find_from(s, c, i) <= s.len(),
        find_from(s, c, i) < s.len() ==> s[find_from(s, c, i)] == c,
        forall|j: int| i <= j < find_from(s, c, i) ==> s[j] != c,
    decreases s.len() - i,
{
    if i < s.len() && s[i] != c {
        lemma_find_from_bounds(s, c, i + 1);
    }
}

/// `l` without one trailing carriage return.
pub open spec fn strip_cr(l: Seq<char>) -> Seq<char> {
    if l.len() > 0 && l.last() == '\r' {
        l.drop_last()
    } else {
        l
    }
}

/// The lines of `s` from index `i` on: split at `\n`, a `\r` right before
/// the `\n` dropped, no empty line after a final `\n`.
pub open spec fn lines_from(s: Seq<char>, i: int) -> Seq<Seq<char>>
    decreases s.len() - i,
{
    if i < 0 || i >= s.len() {
        Seq::empty()
    } else {
        let k = find_from(s, '\n', i);
        proof {
            lemma_find_from_bounds(s, '\n', i);
        }
        if k >= s.len() {
            seq![s.subrange(i, s.len() as int)]
        } else {
            seq![strip_cr(s.subrange(i, k))] + lines_from(s, k + 1)
        }
    }
}

/// The lines of `s`, as `str::lines` yields them.
pub open spec fn lines(s: Seq<char>) -> Seq<Seq<char>> {
    lines_from(s, 0)
}

/// The character ranges `spans` of `s`, as character sequences.
pub open spec fn span_texts(s: Seq<char>, spans: Seq<(usize, usize)>) -> Seq<Seq<char>> {
    Seq::new(spans.len(), |k: int| s.subrange(spans[k].0 as int, spans[k].1 as int))
}

pub open spec fn is_digit(c: char) -> bool {
    '0' <= c && c <= '9'
}

pub open spec fn all_digits(s: Seq<char>) -> bool {
    forall|i: int| 0 <= i < s.len() ==> #[trigger] is_digit(s[i])
}

/// Value of the decimal digit string `s`.
pub open spec fn decimal_value(s: Seq<char>) -> nat
    decreases s.len(),
{
    if s.len() == 0 {
        0
    } else {
        decimal_value(s.drop_last()) * 10 + ((s.last() as u32) - 48) as nat
    }
}

/// `s` without one leading `+`.
pub open spec fn strip_plus(s: Seq<char>) -> Seq<char> {
    if s.len() > 0 && s[0] == '+' {
        s.drop_first()
    } else {
        s
    }
}

/// What `str::parse` gives for an unsigned integer type whose largest
/// value is `max`: an optional `+`, then one or more decimal digits whose
/// value is at most `max`.
pub open spec fn parse_unsigned(s: Seq<char>, max: nat) -> Option<nat> {
    let body = strip_plus(s);
    if body.len() == 0 || !all_digits(body) || decimal_value(body) > max {
        None
    } else {
        Some(decimal_value(body))
    }
}

pub open spec fn is_hex_digit(c: char) -> bool {
    ('0' <= c && c <= '9') || ('a' <= c && c <= 'f') || ('A' <= c && c <= 'F')
}

pub open spec fn all_hex_digits(s: Seq<char>) -> bool {
    forall|i: int| 0 <= i < s.len() ==> #[trigger] is_hex_digit(s[i])
}

pub open spec fn hex_digit_value(c: char) -> nat {
    if '0' <= c && c <= '9' {
        ((c as u32) - 48) as nat
    } else if 'a' <= c && c <= 'f' {
        ((c as u32) - 87) as nat
    } else {
        ((c as u32) - 55) as nat
    }
}

/// Value of the hexadecimal digit string `s`.
pub open spec fn hex_value(s: Seq<char>) -> nat
    decreases s.len(),
{
    if s.len() == 0 {
        0
    } else {
        hex_value(s.drop_last()) * 16 + hex_digit_value(s.last())
    }
}

/// What `from_str_radix(s, 16)` gives for an unsigned integer type whose
/// largest value is `max`.
pub open spec fn parse_hex(s: Seq<char>, max: nat) -> Option<nat> {
    let body = strip_plus(s);
    if body.len() == 0 || !all_hex_digits(body) || hex_value(body) > max {
        None
    } else {
        Some(hex_value(body))
    }
}

pub open spec fn digit_char(d: nat) -> char {
    ((d + 48) as u32) as char
}

/// Decimal digits of `n`, most significant first.
pub open spec fn decimal(n: nat) -> Seq<char>
    decreases n,
{
    if n < 10 {
        seq![digit_char(n)]
    } else {
        decimal(n / 10).push(digit_char(n % 10))
    }
}

/// What `{:?}` prints for a string with the characters `s`: the text in
/// double quotes with special characters escaped.
pub uninterp spec fn debug_str(s: Seq<char>) -> Seq<char>;

// ---------------------------------------------------------------------
// Trusted std calls.
// ---------------------------------------------------------------------

/// Calls `String::push`, which appends one character.
#[verifier::external_body]
pub(crate) fn push_char(s: &mut String, c: char)
    ensures
        final(s)@ == old(s)@.push(c),
{
    s.push(c);
}

/// Formats a string with `{:?}`, the quoted and escaped form; what that
/// form is is named, not stated.
#[verifier::external_body]
pub(crate) fn debug_quoted(s: &str) -> (d: String)
    ensures
        d@ == debug_str(s@),
{
    format!("{:?}", s)
}

/// The `{:?}` forms of `items`, separated by `", "`.
pub open spec fn debug_joined(items: Seq<Seq<char>>) -> Seq<char>
    decreases items.len(),
{
    if items.len() == 0 {
        Seq::empty()
    } else if items.len() == 1 {
        debug_str(items[0])
    } else {
        debug_joined(items.drop_last()) + ", "@ + debug_str(items.last())
    }
}

/// What `{:?}` prints for a list of strings: each string's `{:?}` form,
/// separated by `", "`, in square brackets.
pub open spec fn debug_list(items: Seq<Seq<char>>) -> Seq<char> {
    "["@ + debug_joined(items) + "]"@
}

/// Formats a list of strings with `{:?}`: each string's own `{:?}` form,
/// separated by `", "`, in square brackets.
#[verifier::external_body]
pub(crate) fn debug_strings(items: &[String]) -> (d: String)
    ensures
        d@ == debug_list(items@.map_values(|s: String| s@)),
{
    format!("{:?}", items)
}

// ---------------------------------------------------------------------
// Executable helpers.
// ---------------------------------------------------------------------

/// The characters of `s`.
pub fn chars_of(s: &str) -> (v: Vec<char>)
    ensures
        v@ == s@,
{
    let mut v: Vec<char> = Vec::new();
    for c in it: s.chars()
        invariant
            v@ == it.seq().take(it.index() as int),
    {
        v.push(c);
    }
    v
}

/// Whether `c` is Unicode whitespace.
pub fn is_whitespace(c: char) -> (b: bool)
    ensures
        b == is_ws(c),
{
    let v = c as u32;
    (0x09 <= v && v <= 0x0D) || v == 0x20 || v == 0x85 || v == 0xA0 || v == 0x1680 || (0x2000 <= v
        && v <= 0x200A) || v == 0x2028 || v == 0x2029 || v == 0x202F || v == 0x205F || v == 0x3000
}

/// A new string holding `cs[from..to]`.
pub fn string_of(cs: &Vec<char>, from: usize, to: usize) -> (s: String)
    requires
        from <= to <= cs@.len(),
    ensures
        s@ == cs@.subrange(from as int, to as int),
{
    let mut s = String::new();
    let mut i = from;
    while i < to
        invariant
            from <= i <= to <= cs@.len(),
            s@ == cs@.subrange(from as int, i as int),
        decreases to - i,
    {
        push_char(&mut s, cs[i]);
        i = i + 1;
        assert(s@ =~= cs@.subrange(from as int, i as int));
    }
    s
}

/// Appends `t` to `s`.
pub fn push_str(s: &mut String, t: &str)
    ensures
        final(s)@ == old(s)@ + t@,
{
    let cs = chars_of(t);
    let mut i: usize = 0;
    while i < cs.len()
        invariant
            i <= cs@.len(),
            cs@ == t@,
            s@ == old(s)@ + cs@.subrange(0, i as int),
        decreases cs.len() - i,
    {
        push_char(s, cs[i]);
        i = i + 1;
        assert(s@ =~= old(s)@ + cs@.subrange(0, i as int));
    }
    assert(cs@.subrange(0, i as int) =~= cs@);
}

/// A new string holding `t`.
pub fn lit(t: &str) -> (s: String)
    ensures
        s@ == t@,
{
    let mut s = String::new();
    push_str(&mut s, t);
    s
}

/// Appends the characters `cs[from..to]` to `s`.
pub fn push_chars(s: &mut String, cs: &Vec<char>, from: usize, to: usize)
    requires
        from <= to <= cs@.len(),
    ensures
        final(s)@ == old(s)@ + cs@.subrange(from as int, to as int),
{
    let mut i = from;
    while i < to
        invariant
            from <= i <= to <= cs@.len(),
            s@ == old(s)@ + cs@.subrange(from as int, i as int),
        decreases to - i,
    {
        push_char(s, cs[i]);
        i = i + 1;
        assert(s@ =~= old(s)@ + cs@.subrange(from as int, i as int));
    }
}

/// Appends the `{:?}` form of the characters `cs[from..to]` to `s`.
pub fn push_debug(s: &mut String, cs: &Vec<char>, from: usize, to: usize)
    requires
        from <= to <= cs@.len(),
    ensures
        final(s)@ == old(s)@ + debug_str(cs@.subrange(from as int, to as int)),
{
    let t = string_of(cs, from, to);
    let d = debug_quoted(t.as_str());
    push_str(s, d.as_str());
}

/// Two lowercase hex digits per byte, separated by single spaces.
pub open spec fn spaced_hex(b: Seq<u8>) -> Seq<char>
    decreases b.len(),
{
    if b.len() == 0 {
        Seq::empty()
    } else if b.len() == 1 {
        hex_fixed(b[0] as nat, 2)
    } else {
        spaced_hex(b.drop_last()) + seq![' '] + hex_fixed(b.last() as nat, 2)
    }
}

/// `bytes` as space-separated two-digit lowercase hex.
pub fn hex_bytes(bytes: &[u8]) -> (s: String)
    ensures
        s@ == spaced_hex(bytes@),
{
    let mut s = String::new();
    let mut i: usize = 0;
    while i < bytes.len()
        invariant
            i <= bytes@.len(),
            s@ == spaced_hex(bytes@.take(i as int)),
        decreases bytes.len() - i,
    {
        assert(bytes@.take(i + 1).drop_last() =~= bytes@.take(i as int));
        if i > 0 {
            push_char(&mut s, ' ');
        }
        push_hex_fixed(&mut s, bytes[i] as u64, 2);
        proof {
            if i == 0 {
                assert(s@ =~= spaced_hex(bytes@.take(1)));
            }
        }
        i = i + 1;
    }
    assert(bytes@.take(i as int) =~= bytes@);
    s
}

/// Whether `a[af..at]` and `b[bf..bt]` hold the same characters.
pub fn spans_equal(a: &Vec<char>, af: usize, at: usize, b: &Vec<char>, bf: usize, bt: usize) -> (same: bool)
    requires
        af <= at <= a@.len(),
        bf <= bt <= b@.len(),
    ensures
        same == (a@.subrange(af as int, at as int) == b@.subrange(bf as int, bt as int)),
{
    if at - af != bt - bf {
        assert(a@.subrange(af as int, at as int).len() != b@.subrange(bf as int, bt as int).len());
        return false;
    }
    let n = at - af;
    let mut k: usize = 0;
    while k < n
        invariant
            n == at - af,
            n == bt - bf,
            af <= at <= a@.len(),
            bf <= bt <= b@.len(),
            k <= n,
            a@.subrange(af as int, af + k) == b@.subrange(bf as int, bf + k),
        decreases n - k,
    {
        if a[af + k] != b[bf + k] {
            assert(a@.subrange(af as int, at as int)[k as int] != b@.subrange(bf as int, bt as int)[k as int]);
            return false;
        }
        assert(a@.subrange(af as int, af + k + 1) =~= a@.subrange(af as int, af + k).push(a@[af + k]));
        assert(b@.subrange(bf as int, bf + k + 1) =~= b@.subrange(bf as int, bf + k).push(b@[bf + k]));
        k = k + 1;
    }
    assert(a@.subrange(af as int, at as int) =~= b@.subrange(bf as int, bt as int));
    true
}

/// Appends the `{:?}` form of `t` to `s`.
pub fn push_debug_str(s: &mut String, t: &str)
    ensures
        final(s)@ == old(s)@ + debug_str(t@),
{
    let d = debug_quoted(t);
    push_str(s, d.as_str());
}

/// Appends the decimal digits of `n` to `s`.
pub fn push_decimal(s: &mut String, n: u128)
    ensures
        final(s)@ == old(s)@ + decimal(n as nat),
    decreases n,
{
    if n >= 10 {
        push_decimal(s, n / 10);
    }
    let d = (n % 10) as u32;
    let c = char_from_digit(d);
    push_char(s, c);
    assert(s@ =~= old(s)@ + decimal(n as nat));
}

/// The character of decimal digit `d`.
pub fn char_from_digit(d: u32) -> (c: char)
    requires
        d < 10,
    ensures
        c == digit_char(d as nat),
{
    if d == 0 {
        '0'
    } else if d == 1 {
        '1'
    } else if d == 2 {
        '2'
    } else if d == 3 {
        '3'
    } else if d == 4 {
        '4'
    } else if d == 5 {
        '5'
    } else if d == 6 {
        '6'
    } else if d == 7 {
        '7'
    } else if d == 8 {
        '8'
    } else {
        '9'
    }
}

/// The span `[from, to)` of `cs` with surrounding whitespace removed.
pub fn trim_span(cs: &Vec<char>, from: usize, to: usize) -> (r: (usize, usize))
    requires
        from <= to <= cs@.len(),
    ensures
        from <= r.0 <= r.1 <= to,
        cs@.subrange(r.0 as int, r.1 as int) == trim(cs@.subrange(from as int, to as int)),
{
    let mut a = from;
    while a < to && is_whitespace(cs[a])
        invariant
            from <= a <= to <= cs@.len(),
            trim_start(cs@.subrange(from as int, to as int)) == trim_start(
                cs@.subrange(a as int, to as int),
            ),
        decreases to - a,
    {
        assert(cs@.subrange(a as int, to as int).drop_first() =~= cs@.subrange(
            a + 1,
            to as int,
        ));
        a = a + 1;
    }
    let ghost started = cs@.subrange(a as int, to as int);
    assert(trim_start(started) == started);
    let mut b = to;
    while b > a && is_whitespace(cs[b - 1])
        invariant
            from <= a <= b <= to <= cs@.len(),
            trim_end(started) == trim_end(cs@.subrange(a as int, b as int)),
        decreases b - a,
    {
        assert(cs@.subrange(a as int, b as int).drop_last() =~= cs@.subrange(a as int, b - 1));
        b = b - 1;
    }
    (a, b)
}

/// The lines of `cs`, as character spans.
pub fn line_spans(cs: &Vec<char>) -> (spans: Vec<(usize, usize)>)
    ensures
        span_texts(cs@, spans@) == lines(cs@),
        forall|k: int|
            #![trigger spans@[k]] 0 <= k < spans@.len() ==> spans@[k].0 <= spans@[k].1 <= cs@.len(),
{
    let mut spans: Vec<(usize, usize)> = Vec::new();
    let mut i: usize = 0;
    while i < cs.len()
        invariant
            i <= cs@.len(),
            span_texts(cs@, spans@) + lines_from(cs@, i as int) == lines(cs@),
            forall|k: int|
                #![trigger spans@[k]] 0 <= k < spans@.len() ==> spans@[k].0 <= spans@[k].1 <= cs@.len(),
        decreases cs.len() - i,
    {
        let mut k = i;
        while k < cs.len() && cs[k] != '\n'
            invariant
                i <= k <= cs@.len(),
                find_from(cs@, '\n', i as int) == find_from(cs@, '\n', k as int),
            decreases cs.len() - k,
        {
            k = k + 1;
        }
        let ghost old_spans = spans@;
        if k == cs.len() {
            spans.push((i, k));
            assert(span_texts(cs@, spans@) =~= span_texts(cs@, old_spans) + seq![
                cs@.subrange(i as int, k as int),
            ]);
            assert(lines_from(cs@, k as int) =~= Seq::<Seq<char>>::empty());
            assert(span_texts(cs@, spans@) + lines_from(cs@, k as int) =~= span_texts(
                cs@,
                old_spans,
            ) + lines_from(cs@, i as int));
            i = k;
        } else {
            let mut end = k;
            if end > i && cs[end - 1] == '\r' {
                end = end - 1;
            }
            assert(cs@.subrange(i as int, end as int) =~= strip_cr(cs@.subrange(i as int, k as int)));
            spans.push((i, end));
            assert(span_texts(cs@, spans@) =~= span_texts(cs@, old_spans) + seq![
                cs@.subrange(i as int, end as int),
            ]);
            assert(span_texts(cs@, spans@) + lines_from(cs@, k + 1) =~= span_texts(
                cs@,
                old_spans,
            ) + lines_from(cs@, i as int));
            i = k + 1;
        }
    }
    assert(lines_from(cs@, i as int) =~= Seq::<Seq<char>>::empty());
    assert(span_texts(cs@, spans@) + lines_from(cs@, i as int) =~= span_texts(cs@, spans@));
    spans
}

/// First index at or after `i` that is not whitespace, or the end.
pub open spec fn skip_ws(s: Seq<char>, i: int) -> int
    decreases s.len() - i,
{
    if i >= s.len() {
        s.len() as int
    } else if is_ws(s[i]) {
        skip_ws(s, i + 1)
    } else {
        i
    }
}

/// First index at or after `i` that is whitespace, or the end.
pub open spec fn token_end(s: Seq<char>, i: int) -> int
    decreases s.len() - i,
{
    if i >= s.len() {
        s.len() as int
    } else if is_ws(s[i]) {
        i
    } else {
        token_end(s, i + 1)
    }
}

pub proof fn lemma_skip_ws_bounds(s: Seq<char>, i: int)
    requires
        0 <= i <= s.len(),
    ensures
        i <= skip_ws(s, i) <= s.len(),
        skip_ws(s, i) < s.len() ==> !is_ws(s[skip_ws(s, i)]),
    decreases s.len() - i,
{
    if i < s.len() && is_ws(s[i]) {
        lemma_skip_ws_bounds(s, i + 1);
    }
}

pub proof fn lemma_token_end_bounds(s: Seq<char>, i: int)
    requires
        0 <= i <= s.len(),
    ensures
        i <= token_end(s, i) <= s.len(),
        i < s.len() && !is_ws(s[i]) ==> i < token_end(s, i),
    decreases s.len() - i,
{
    if i < s.len() && !is_ws(s[i]) {
        lemma_token_end_bounds(s, i + 1);
    }
}

/// The whitespace-separated tokens of `s` from index `i` on.
pub open spec fn tokens_from(s: Seq<char>, i: int) -> Seq<Seq<char>>
    decreases s.len() - i,
{
    if i < 0 || i > s.len() {
        Seq::empty()
    } else {
        let j = skip_ws(s, i);
        proof {
            lemma_skip_ws_bounds(s, i);
        }
        if j >= s.len() {
            Seq::empty()
        } else {
            let k = token_end(s, j);
            proof {
                lemma_token_end_bounds(s, j);
            }
            seq![s.subrange(j, k)] + tokens_from(s, k)
        }
    }
}

/// The tokens of `s` as `str::split_whitespace` yields them.
pub open spec fn tokens(s: Seq<char>) -> Seq<Seq<char>> {
    tokens_from(s, 0)
}

/// The whitespace-separated tokens of `cs`, as non-empty character spans.
pub fn token_spans(cs: &Vec<char>) -> (spans: Vec<(usize, usize)>)
    ensures
        span_texts(cs@, spans@) == tokens(cs@),
        forall|k: int|
            #![trigger spans@[k]]
            0 <= k < spans@.len() ==> spans@[k].0 < spans@[k].1 <= cs@.len(),
{
    let mut spans: Vec<(usize, usize)> = Vec::new();
    let mut i: usize = 0;
    loop
        invariant
            i <= cs@.len(),
            span_texts(cs@, spans@) + tokens_from(cs@, i as int) == tokens(cs@),
            forall|k: int|
                #![trigger spans@[k]]
                0 <= k < spans@.len() ==> spans@[k].0 < spans@[k].1 <= cs@.len(),
        decreases cs.len() - i,
    {
        let mut j = i;
        while j < cs.len() && is_whitespace(cs[j])
            invariant
                i <= j <= cs@.len(),
                skip_ws(cs@, i as int) == skip_ws(cs@, j as int),
            decreases cs.len() - j,
        {
            j = j + 1;
        }
        if j == cs.len() {
            assert(tokens_from(cs@, i as int) =~= Seq::<Seq<char>>::empty());
            assert(span_texts(cs@, spans@) + tokens_from(cs@, i as int) =~= span_texts(
                cs@,
                spans@,
            ));
            return spans;
        }
        let mut k = j;
        while k < cs.len() && !is_whitespace(cs[k])
            invariant
                j <= k <= cs@.len(),
                token_end(cs@, j as int) == token_end(cs@, k as int),
            decreases cs.len() - k,
        {
            k = k + 1;
        }
        proof {
            lemma_token_end_bounds(cs@, j as int);
        }
        let ghost old_spans = spans@;
        spans.push((j, k));
        assert(span_texts(cs@, spans@) =~= span_texts(cs@, old_spans) + seq![
            cs@.subrange(j as int, k as int),
        ]);
        assert(span_texts(cs@, spans@) + tokens_from(cs@, k as int) =~= span_texts(
            cs@,
            old_spans,
        ) + tokens_from(cs@, i as int));
        i = k;
    }
}

/// Whether `cs[from..to]` equals `t`.
pub fn span_is(cs: &Vec<char>, from: usize, to: usize, t: &str) -> (b: bool)
    requires
        from <= to <= cs@.len(),
    ensures
        b == (cs@.subrange(from as int, to as int) == t@),
{
    let tc = chars_of(t);
    if to - from != tc.len() {
        return false;
    }
    let mut i: usize = 0;
    while i < tc.len()
        invariant
            tc@ == t@,
            to - from == tc@.len(),
            from <= to <= cs@.len(),
            i <= tc@.len(),
            forall|j: int| 0 <= j < i ==> cs@[from + j] == tc@[j],
        decreases tc.len() - i,
    {
        if cs[from + i] != tc[i] {
            assert(cs@.subrange(from as int, to as int)[i as int] != t@[i as int]);
            return false;
        }
        i = i + 1;
    }
    assert(cs@.subrange(from as int, to as int) =~= t@);
    true
}

/// Whether `cs[from..to]` starts with `t`.
pub fn span_starts_with(cs: &Vec<char>, from: usize, to: usize, t: &str) -> (b: bool)
    requires
        from <= to <= cs@.len(),
    ensures
        b == (t@.len() <= to - from && cs@.subrange(from as int, from + t@.len()) == t@),
{
    let tc = chars_of(t);
    if to - from < tc.len() {
        return false;
    }
    span_is(cs, from, from + tc.len(), t)
}

proof fn lemma_decimal_value_monotone(s: Seq<char>, i: int)
    requires
        0 <= i <= s.len(),
        all_digits(s),
    ensures
        decimal_value(s.take(i)) <= decimal_value(s),
        i < s.len() ==> decimal_value(s.take(i)) * 10 + ((s[i] as u32) - 48) as nat <= decimal_value(s),
    decreases s.len() - i,
{
    if i < s.len() {
        assert(s.take(i + 1).drop_last() =~= s.take(i));
        assert(is_digit(s[i]));
        lemma_decimal_value_monotone(s, i + 1);
    } else {
        assert(s.take(i) =~= s);
    }
}

proof fn lemma_hex_value_monotone(s: Seq<char>, i: int)
    requires
        0 <= i <= s.len(),
        all_hex_digits(s),
    ensures
        hex_value(s.take(i)) <= hex_value(s),
        i < s.len() ==> hex_value(s.take(i)) * 16 + hex_digit_value(s[i]) <= hex_value(s),
    decreases s.len() - i,
{
    if i < s.len() {
        assert(s.take(i + 1).drop_last() =~= s.take(i));
        lemma_hex_value_monotone(s, i + 1);
    } else {
        assert(s.take(i) =~= s);
    }
}

/// `str::parse` for an unsigned integer no larger than `max`, on the
/// characters `cs[from..to]`.
pub fn parse_unsigned_span(cs: &Vec<char>, from: usize, to: usize, max: u64) -> (r: Option<u64>)
    requires
        from <= to <= cs@.len(),
    ensures
        r matches Some(v) ==> parse_unsigned(cs@.subrange(from as int, to as int), max as nat) == Some(
            v as nat,
        ),
        r is None ==> parse_unsigned(cs@.subrange(from as int, to as int), max as nat) is None,
{
    let ghost s = cs@.subrange(from as int, to as int);
    let mut a = from;
    if a < to && cs[a] == '+' {
        a = a + 1;
    }
    let ghost body = cs@.subrange(a as int, to as int);
    assert(body =~= strip_plus(s));
    if a == to {
        return None;
    }
    let mut v: u64 = 0;
    let mut i = a;
    while i < to
        invariant
            from <= a <= i <= to <= cs@.len(),
            a < to,
            s == cs@.subrange(from as int, to as int),
            body == strip_plus(s),
            body == cs@.subrange(a as int, to as int),
            forall|j: int| 0 <= j < i - a ==> #[trigger] is_digit(body[j]),
            v as nat == decimal_value(body.take(i - a)),
            v <= max,
        decreases to - i,
    {
        let c = cs[i];
        if !('0' <= c && c <= '9') {
            assert(!is_digit(body[i - a]));
            return None;
        }
        let d = (c as u32 - 48) as u64;
        assert(body.take(i - a + 1).drop_last() =~= body.take(i - a));
        if d > max || v > (max - d) / 10 {
            proof {
                assert(v * 10 + d > max) by (nonlinear_arith)
                    requires
                        d > max || v > (max - d) / 10,
                        v >= 0,
                        d >= 0,
                ;
                if all_digits(body) {
                    lemma_decimal_value_monotone(body, i - a);
                }
            }
            return None;
        }
        proof {
            assert(v * 10 + d <= max) by (nonlinear_arith)
                requires
                    v <= (max - d) / 10,
                    d <= max,
            ;
        }
        v = v * 10 + d;
        i = i + 1;
    }
    assert(body.take(i - a) =~= body);
    Some(v)
}

/// `from_str_radix(_, 16)` for an unsigned integer no larger than `max`,
/// on the characters `cs[from..to]`.
pub fn parse_hex_span(cs: &Vec<char>, from: usize, to: usize, max: u64) -> (r: Option<u64>)
    requires
        from <= to <= cs@.len(),
    ensures
        r matches Some(v) ==> parse_hex(cs@.subrange(from as int, to as int), max as nat) == Some(
            v as nat,
        ),
        r is None ==> parse_hex(cs@.subrange(from as int, to as int), max as nat) is None,
{
    let ghost s = cs@.subrange(from as int, to as int);
    let mut a = from;
    if a < to && cs[a] == '+' {
        a = a + 1;
    }
    let ghost body = cs@.subrange(a as int, to as int);
    assert(body =~= strip_plus(s));
    if a == to {
        return None;
    }
    let mut v: u64 = 0;
    let mut i = a;
    while i < to
        invariant
            from <= a <= i <= to <= cs@.len(),
            a < to,
            s == cs@.subrange(from as int, to as int),
            body == strip_plus(s),
            body == cs@.subrange(a as int, to as int),
            forall|j: int| 0 <= j < i - a ==> #[trigger] is_hex_digit(body[j]),
            v as nat == hex_value(body.take(i - a)),
            v <= max,
        decreases to - i,
    {
        let c = cs[i];
        let d: u64 = if '0' <= c && c <= '9' {
            (c as u32 - 48) as u64
        } else if 'a' <= c && c <= 'f' {
            (c as u32 - 87) as u64
        } else if 'A' <= c && c <= 'F' {
            (c as u32 - 55) as u64
        } else {
            assert(!is_hex_digit(body[i - a]));
            return None;
        };
        assert(d == hex_digit_value(c));
        assert(body.take(i - a + 1).drop_last() =~= body.take(i - a));
        if d > max || v > (max - d) / 16 {
            proof {
                assert(v * 16 + d > max) by (nonlinear_arith)
                    requires
                        d > max || v > (max - d) / 16,
                        v >= 0,
                        d >= 0,
                ;
                if all_hex_digits(body) {
                    lemma_hex_value_monotone(body, i - a);
                }
            }
            return None;
        }
        proof {
            assert(v * 16 + d <= max) by (nonlinear_arith)
                requires
                    v <= (max - d) / 16,
                    d <= max,
            ;
        }
        v = v * 16 + d;
        i = i + 1;
    }
    assert(body.take(i - a) =~= body);
    Some(v)
}

/// Lowercase hexadecimal digit `d`.
pub open spec fn hex_char(d: nat) -> char {
    if d < 10 {
        ((d + 48) as u32) as char
    } else {
        ((d + 87) as u32) as char
    }
}

/// The low `width` hexadecimal digits of `v`, lowercase, most significant
/// first (`{:0width$x}` for a value that fits).
pub open spec fn hex_fixed(v: nat, width: nat) -> Seq<char>
    decreases width,
{
    if width == 0 {
        Seq::empty()
    } else {
        hex_fixed(v / 16, (width - 1) as nat).push(hex_char(v % 16))
    }
}

/// `s` padded on the left with `'0'` up to `width` characters.
pub open spec fn zero_pad(s: Seq<char>, width: nat) -> Seq<char> {
    if s.len() >= width {
        s
    } else {
        Seq::new((width - s.len()) as nat, |i: int| '0') + s
    }
}

/// The character of lowercase hexadecimal digit `d`.
pub fn char_from_hex_digit(d: u32) -> (c: char)
    requires
        d < 16,
    ensures
        c == hex_char(d as nat),
{
    if d < 10 {
        char_from_digit(d)
    } else if d == 10 {
        'a'
    } else if d == 11 {
        'b'
    } else if d == 12 {
        'c'
    } else if d == 13 {
        'd'
    } else if d == 14 {
        'e'
    } else {
        'f'
    }
}

/// Appends the low `width` hexadecimal digits of `v` to `s`.
pub fn push_hex_fixed(s: &mut String, v: u64, width: u32)
    ensures
        final(s)@ == old(s)@ + hex_fixed(v as nat, width as nat),
    decreases width,
{
    if width == 0 {
        assert(s@ =~= old(s)@ + hex_fixed(v as nat, width as nat));
        return;
    }
    push_hex_fixed(s, v / 16, width - 1);
    let c = char_from_hex_digit((v % 16) as u32);
    push_char(s, c);
    assert(s@ =~= old(s)@ + hex_fixed(v as nat, width as nat));
}

/// Appends `n` in decimal, zero-padded to at least `width` digits.
pub fn push_decimal_padded(s: &mut String, n: u128, width: usize)
    ensures
        final(s)@ == old(s)@ + zero_pad(decimal(n as nat), width as nat),
{
    let mut digits = String::new();
    push_decimal(&mut digits, n);
    let dc = chars_of(digits.as_str());
    let mut k = dc.len();
    while k < width
        invariant
            dc.len() <= k <= width || (k == dc.len() && dc.len() >= width),
            s@ == old(s)@ + Seq::new((k - dc.len()) as nat, |i: int| '0'),
        decreases width - k,
    {
        let ghost before = s@;
        push_char(s, '0');
        k = k + 1;
        assert(s@ =~= old(s)@ + Seq::new((k - dc.len()) as nat, |i: int| '0'));
    }
    push_chars(s, &dc, 0, dc.len());
    assert(dc@.subrange(0, dc@.len() as int) =~= dc@);
    assert(s@ =~= old(s)@ + zero_pad(decimal(n as nat), width as nat));
}

} // verus!
