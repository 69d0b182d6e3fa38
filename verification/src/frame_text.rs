//! The `.frame-format` declaration: `field,<kind>,<name>` lines, one
//! `checksum,<kind>` line, then `frame,<label>` blocks of `name=value`
//! lines.

use vstd::prelude::*;
use crate::frame::{
    ChecksumKind, FieldKind, FieldSpec, FieldValue, FrameSpec, ValueView, be_bytes_u32, pack_spec, trailer_spec,
    value_view,
};
use crate::checksums::{be_bytes_u16, crc16_modbus_spec, crc16_xmodem_spec, crc32_spec, internet_checksum_spec};
use crate::invariant_report::{line_prefix, push_line_prefix};
use crate::text::{
    chars_of, debug_str, decimal, find_from, line_spans, lines, parse_hex, parse_hex_span, parse_unsigned,
    parse_unsigned_span, push_chars, push_debug, push_decimal, push_str, span_is, span_starts_with,
    span_texts, string_of, trim, trim_span,
};
use crate::text::lit;

verus! {

/// Bytes the UTF-8 encoding of `c` takes.
pub open spec fn utf8_width(c: char) -> nat {
    let v = c as u32;
    if v < 0x80 {
        1
    } else if v < 0x800 {
        2
    } else if v < 0x1_0000 {
        3
    } else {
        4
    }
}

/// Bytes the UTF-8 encoding of `s` takes.
pub open spec fn utf8_len(s: Seq<char>) -> nat
    decreases s.len(),
{
    if s.len() == 0 {
        0
    } else {
        utf8_len(s.drop_last()) + utf8_width(s.last())
    }
}

/// Reading `s` as hex byte pairs taken two UTF-8 bytes at a time: the
/// bytes, or the first pair that is not a hex byte. A pair that would
/// take part of a character is not one: the characters it touches are
/// quoted.
pub open spec fn hex_pairs(s: Seq<char>) -> Result<Seq<u8>, Seq<char>>
    decreases s.len(),
{
    if s.len() == 0 {
        Ok(Seq::empty())
    } else if utf8_width(s[0]) == 1 {
        if s.len() < 2 {
            Err("invalid hex byte "@ + debug_str(s))
        } else if utf8_width(s[1]) != 1 {
            Err("invalid hex byte "@ + debug_str(s.take(2)))
        } else {
            match parse_hex(s.take(2), 0xFF) {
                None => Err("invalid hex byte "@ + debug_str(s.take(2))),
                Some(b) => match hex_pairs(s.skip(2)) {
                    Err(e) => Err(e),
                    Ok(rest) => Ok(seq![b as u8] + rest),
                },
            }
        }
    } else {
        Err("invalid hex byte "@ + debug_str(s.take(1)))
    }
}

pub open spec fn starts_with(s: Seq<char>, p: Seq<char>) -> bool {
    p.len() <= s.len() && s.take(p.len() as int) == p
}

/// The value `raw` declares for a `kind` field, or why it is invalid: a
/// `bytesN` value is exactly `2*N` bytes of hex pairs, a number is decimal
/// or `0x` hex.
pub open spec fn field_value_spec(kind: FieldKind, raw: Seq<char>) -> Result<ValueView, Seq<char>> {
    match kind {
        FieldKind::Bytes(w) => if utf8_len(raw) != 2 * w {
            Err(
                "expected "@ + decimal(2 * w as nat) + " hex chars for a "@ + decimal(w as nat)
                    + "-byte field, got "@ + decimal(utf8_len(raw)),
            )
        } else {
            match hex_pairs(raw) {
                Err(e) => Err(e),
                Ok(b) => Ok(ValueView::Bytes(b)),
            }
        },
        _ => if starts_with(raw, "0x"@) {
            match parse_hex(raw.skip(2), u64::MAX as nat) {
                None => Err("invalid hex number "@ + debug_str(raw)),
                Some(n) => Ok(ValueView::Number(n as u64)),
            }
        } else {
            match parse_unsigned(raw, u64::MAX as nat) {
                None => Err("invalid number "@ + debug_str(raw)),
                Some(n) => Ok(ValueView::Number(n as u64)),
            }
        },
    }
}

/// The field kind `s` names.
pub open spec fn kind_spec(s: Seq<char>) -> Result<FieldKind, Seq<char>> {
    if s == "u8"@ {
        Ok(FieldKind::U8)
    } else if s == "u16le"@ {
        Ok(FieldKind::U16Le)
    } else if s == "u16be"@ {
        Ok(FieldKind::U16Be)
    } else if s == "u32le"@ {
        Ok(FieldKind::U32Le)
    } else if s == "u32be"@ {
        Ok(FieldKind::U32Be)
    } else if starts_with(s, "bytes"@) {
        match parse_unsigned(s.skip(5), usize::MAX as nat) {
            Some(n) => Ok(FieldKind::Bytes(n as usize)),
            None => Err("invalid field kind "@ + debug_str(s)),
        }
    } else {
        Err("unknown field kind "@ + debug_str(s))
    }
}

/// Four bytes, least significant first, put back together.
pub open spec fn weigh4(b0: int, b1: int, b2: int, b3: int) -> int {
    b0 + 0x100 * b1 + 0x1_0000 * b2 + 0x100_0000 * b3
}

/// Splitting a 32-bit number into its four bytes loses nothing.
proof fn lemma_four_bytes(n: u64)
    requires
        n <= 0xFFFF_FFFF,
    ensures
        weigh4((n % 256) as int, ((n / 256) % 256) as int, ((n / 0x1_0000) % 256) as int, (n / 0x100_0000) as int) == n,
        n / 0x100_0000 < 256,
{
    assert(weigh4((n % 256) as int, ((n / 256) % 256) as int, ((n / 0x1_0000) % 256) as int, (n / 0x100_0000) as int) == n && n / 0x100_0000
        < 256) by (nonlinear_arith)
        requires
            n <= 0xFFFF_FFFF,
    {
        assert(n % 256 + 256 * (n / 256) == n);
        assert((n / 256) % 256 + 256 * (n / 0x1_0000) == n / 256);
        assert((n / 0x1_0000) % 256 + 256 * (n / 0x100_0000) == n / 0x1_0000);
    }
}

/// A field kind's name says how wide it is and in which byte order a
/// number is laid out: `u8` is the number's one byte; `u16le`/`u32le` put
/// its least significant byte first and `u16be`/`u32be` its most
/// significant byte first, in two or four bytes; every number that fits
/// is packed that way.
pub proof fn field_kind_names_give_width_and_byte_order(s: Seq<char>, n: u64)
    ensures
        s == "u8"@ ==> (kind_spec(s) matches Ok(k) && (n <= 0xFF ==> (pack_spec(k, ValueView::Number(n)) matches Ok(
            b,
        ) && b.len() == 1 && b[0] == n))),
        s == "u16le"@ ==> (kind_spec(s) matches Ok(k) && (n <= 0xFFFF ==> (pack_spec(k, ValueView::Number(n))
            matches Ok(b) && b.len() == 2 && b[0] + 0x100 * b[1] == n))),
        s == "u16be"@ ==> (kind_spec(s) matches Ok(k) && (n <= 0xFFFF ==> (pack_spec(k, ValueView::Number(n))
            matches Ok(b) && b.len() == 2 && b[1] + 0x100 * b[0] == n))),
        s == "u32le"@ ==> (kind_spec(s) matches Ok(k) && (n <= 0xFFFF_FFFF ==> (pack_spec(
            k,
            ValueView::Number(n),
        ) matches Ok(b) && b.len() == 4 && weigh4(b[0] as int, b[1] as int, b[2] as int, b[3] as int) == n))),
        s == "u32be"@ ==> (kind_spec(s) matches Ok(k) && (n <= 0xFFFF_FFFF ==> (pack_spec(
            k,
            ValueView::Number(n),
        ) matches Ok(b) && b.len() == 4 && weigh4(b[3] as int, b[2] as int, b[1] as int, b[0] as int) == n))),
{
    reveal_strlit("u8");
    reveal_strlit("u16le");
    reveal_strlit("u16be");
    reveal_strlit("u32le");
    reveal_strlit("u32be");
    assert("u8"@.len() == 2 && "u16le"@.len() == 5 && "u16be"@.len() == 5 && "u32le"@.len() == 5
        && "u32be"@.len() == 5);
    assert("u16le"@[1] == '1' && "u16be"@[1] == '1' && "u32le"@[1] == '3' && "u32be"@[1] == '3');
    assert("u16le"@[3] == 'l' && "u16be"@[3] == 'b' && "u32le"@[3] == 'l' && "u32be"@[3] == 'b');
    if n <= 0xFFFF {
        assert(n % 256 + 0x100 * (n / 256) == n);
    }
    if n <= 0xFFFF_FFFF {
        lemma_four_bytes(n);
    }
}

/// A checksum's name says which checksum a frame's trailer holds: for
/// every payload, `crc32` gives the payload's CRC-32 in four bytes and
/// `crc16-xmodem`, `crc16-modbus` and `internet-checksum` give its
/// CRC-16/XMODEM, CRC-16/MODBUS and RFC 1071 checksum in two, most
/// significant byte first; no other name is accepted.
pub proof fn checksum_names_give_their_checksums(s: Seq<char>, payload: Seq<u8>)
    ensures
        s == "crc32"@ ==> (checksum_spec(s) matches Ok(k) && trailer_spec(k, payload) == be_bytes_u32(
            crc32_spec(payload),
        )),
        s == "crc16-xmodem"@ ==> (checksum_spec(s) matches Ok(k) && trailer_spec(k, payload) == be_bytes_u16(
            crc16_xmodem_spec(payload),
        )),
        s == "crc16-modbus"@ ==> (checksum_spec(s) matches Ok(k) && trailer_spec(k, payload) == be_bytes_u16(
            crc16_modbus_spec(payload),
        )),
        s == "internet-checksum"@ ==> (checksum_spec(s) matches Ok(k) && trailer_spec(k, payload)
            == be_bytes_u16(internet_checksum_spec(payload))),
        checksum_spec(s) is Ok ==> s == "crc32"@ || s == "crc16-xmodem"@ || s == "crc16-modbus"@ || s
            == "internet-checksum"@,
{
    reveal_strlit("crc32");
    reveal_strlit("crc16-xmodem");
    reveal_strlit("crc16-modbus");
    reveal_strlit("internet-checksum");
    assert("crc32"@.len() == 5 && "crc16-xmodem"@.len() == 12 && "crc16-modbus"@.len() == 12
        && "internet-checksum"@.len() == 17);
    assert("crc16-xmodem"@[6] != "crc16-modbus"@[6]);
    assert("crc16-modbus"@ != "crc16-xmodem"@);
}

/// The checksum kind `s` names.
pub open spec fn checksum_spec(s: Seq<char>) -> Result<ChecksumKind, Seq<char>> {
    if s == "crc32"@ {
        Ok(ChecksumKind::Crc32)
    } else if s == "crc16-xmodem"@ {
        Ok(ChecksumKind::Crc16Xmodem)
    } else if s == "crc16-modbus"@ {
        Ok(ChecksumKind::Crc16Modbus)
    } else if s == "internet-checksum"@ {
        Ok(ChecksumKind::InternetChecksum)
    } else {
        Err("unknown checksum kind "@ + debug_str(s))
    }
}

/// A declared field as plain values: name and kind.
pub type FieldDecl = (Seq<char>, FieldKind);

/// The value of the first pair whose key is `key`.
pub open spec fn find_pair(pairs: Seq<(Seq<char>, Seq<char>)>, key: Seq<char>) -> Option<Seq<char>>
    decreases pairs.len(),
{
    if pairs.len() == 0 {
        None
    } else if pairs[0].0 == key {
        Some(pairs[0].1)
    } else {
        find_pair(pairs.drop_first(), key)
    }
}

/// The values of frame `label` for the first `k` fields, read from its
/// `key=value` pairs.
pub open spec fn finish_prefix(
    label: Seq<char>,
    pairs: Seq<(Seq<char>, Seq<char>)>,
    fields: Seq<FieldDecl>,
    k: int,
) -> Result<Seq<ValueView>, Seq<char>>
    decreases k,
{
    if k <= 0 {
        Ok(Seq::empty())
    } else {
        match finish_prefix(label, pairs, fields, k - 1) {
            Err(e) => Err(e),
            Ok(vs) => match find_pair(pairs, fields[k - 1].0) {
                None => Err(
                    "frame "@ + debug_str(label) + ": missing value for field "@ + debug_str(fields[k - 1].0),
                ),
                Some(raw) => match field_value_spec(fields[k - 1].1, raw) {
                    Err(e) => Err(
                        "frame "@ + debug_str(label) + ", field "@ + debug_str(fields[k - 1].0) + ": "@ + e,
                    ),
                    Ok(v) => Ok(vs.push(v)),
                },
            },
        }
    }
}

/// The values of frame `label` for every field.
pub open spec fn finish_spec(
    label: Seq<char>,
    pairs: Seq<(Seq<char>, Seq<char>)>,
    fields: Seq<FieldDecl>,
) -> Result<Seq<ValueView>, Seq<char>> {
    finish_prefix(label, pairs, fields, fields.len() as int)
}

/// What has been read of a declaration so far.
pub struct FormatScan {
    pub fields: Seq<FieldDecl>,
    pub checksum: Option<ChecksumKind>,
    pub declared: Seq<(Seq<char>, Seq<ValueView>)>,
    pub label: Option<Seq<char>>,
    pub pairs: Seq<(Seq<char>, Seq<char>)>,
}

/// The scan after line `line` (numbered `n`), or the error it raises.
pub open spec fn format_line(st: FormatScan, line: Seq<char>, n: nat) -> Result<FormatScan, Seq<char>> {
    let t = trim(line);
    if t.len() == 0 || t[0] == '#' {
        Ok(st)
    } else if starts_with(t, "field,"@) {
        let rest = t.skip(6);
        let c = find_from(rest, ',', 0);
        if c >= rest.len() {
            Err(line_prefix(n) + "expected \"field,kind,name\", got "@ + debug_str(t))
        } else {
            match kind_spec(rest.take(c)) {
                Err(e) => Err(line_prefix(n) + e),
                Ok(k) => Ok(FormatScan { fields: st.fields.push((rest.skip(c + 1), k)), ..st }),
            }
        }
    } else if starts_with(t, "checksum,"@) {
        if st.checksum is Some {
            Err(line_prefix(n) + "checksum declared more than once"@)
        } else {
            match checksum_spec(t.skip(9)) {
                Err(e) => Err(line_prefix(n) + e),
                Ok(c) => Ok(FormatScan { checksum: Some(c), ..st }),
            }
        }
    } else if starts_with(t, "frame,"@) {
        let label = t.skip(6);
        match st.label {
            Some(prev) => match finish_spec(prev, st.pairs, st.fields) {
                Err(e) => Err(e),
                Ok(vals) => Ok(
                    FormatScan {
                        declared: st.declared.push((prev, vals)),
                        pairs: Seq::empty(),
                        label: Some(label),
                        ..st
                    },
                ),
            },
            None => Ok(FormatScan { label: Some(label), ..st }),
        }
    } else if st.label is None {
        Err(line_prefix(n) + debug_str(t) + " outside any \"frame,<label>\" block"@)
    } else {
        let e = find_from(t, '=', 0);
        if e >= t.len() {
            Err(line_prefix(n) + "expected \"key=value\", got "@ + debug_str(t))
        } else {
            Ok(FormatScan { pairs: st.pairs.push((trim(t.take(e)), trim(t.skip(e + 1)))), ..st })
        }
    }
}

pub open spec fn empty_scan() -> FormatScan {
    FormatScan {
        fields: Seq::empty(),
        checksum: None,
        declared: Seq::empty(),
        label: None,
        pairs: Seq::empty(),
    }
}

/// The scan after the first `k` lines.
pub open spec fn format_prefix(ls: Seq<Seq<char>>, k: int) -> Result<FormatScan, Seq<char>>
    decreases k,
{
    if k <= 0 {
        Ok(empty_scan())
    } else {
        match format_prefix(ls, k - 1) {
            Err(e) => Err(e),
            Ok(st) => format_line(st, ls[k - 1], k as nat),
        }
    }
}

/// A parsed declaration as plain values: the fields, the checksum and the
/// declared frames.
pub type FormatView = (Seq<FieldDecl>, ChecksumKind, Seq<(Seq<char>, Seq<ValueView>)>);

/// The end of the declaration: the last open frame is finished, then the
/// checksum line and at least one field are required.
pub open spec fn format_end(st: FormatScan) -> Result<FormatView, Seq<char>> {
    let done = match st.label {
        Some(l) => match finish_spec(l, st.pairs, st.fields) {
            Err(e) => Err(e),
            Ok(vals) => Ok(st.declared.push((l, vals))),
        },
        None => Ok(st.declared),
    };
    match done {
        Err(e) => Err(e),
        Ok(declared) => match st.checksum {
            None => Err("missing \"checksum,<kind>\" line"@),
            Some(c) => if st.fields.len() == 0 {
                Err("no \"field,...\" lines declared"@)
            } else {
                Ok((st.fields, c, declared))
            },
        },
    }
}

/// The declaration read from `text`, or the error that rejects it.
pub open spec fn frame_format_spec(text: Seq<char>) -> Result<FormatView, Seq<char>> {
    match format_prefix(lines(text), lines(text).len() as int) {
        Err(e) => Err(e),
        Ok(st) => format_end(st),
    }
}

/// A `frame,<label>` block: its label and one value per declared field.
#[derive(Debug, Clone, PartialEq, Eq)]
pub struct DeclaredFrame {
    pub label: String,
    pub values: Vec<FieldValue>,
}

pub open spec fn decl_view(f: FieldSpec) -> FieldDecl {
    (f.name@, f.kind)
}

pub open spec fn declared_view(d: DeclaredFrame) -> (Seq<char>, Seq<ValueView>) {
    (d.label@, d.values@.map_values(|v: FieldValue| value_view(v)))
}

pub open spec fn pair_view(p: (String, String)) -> (Seq<char>, Seq<char>) {
    (p.0@, p.1@)
}

/// Bytes the UTF-8 encoding of `c` takes.
fn char_utf8_width(c: char) -> (w: usize)
    ensures
        w == utf8_width(c),
{
    let v = c as u32;
    if v < 0x80 {
        1
    } else if v < 0x800 {
        2
    } else if v < 0x1_0000 {
        3
    } else {
        4
    }
}

pub open spec fn hex_join(prefix: Seq<u8>, r: Result<Seq<u8>, Seq<char>>) -> Result<Seq<u8>, Seq<char>> {
    match r {
        Err(e) => Err(e),
        Ok(rest) => Ok(prefix + rest),
    }
}

/// The field kind named by `cs[a..b]`.
fn parse_kind(cs: &Vec<char>, a: usize, b: usize) -> (r: Result<FieldKind, String>)
    requires
        a <= b <= cs@.len(),
    ensures
        match (r, kind_spec(cs@.subrange(a as int, b as int))) {
            (Ok(k), Ok(k2)) => k == k2,
            (Err(e), Err(m)) => e@ == m,
            _ => false,
        },
{
    let ghost s = cs@.subrange(a as int, b as int);
    if span_is(cs, a, b, "u8") {
        Ok(FieldKind::U8)
    } else if span_is(cs, a, b, "u16le") {
        Ok(FieldKind::U16Le)
    } else if span_is(cs, a, b, "u16be") {
        Ok(FieldKind::U16Be)
    } else if span_is(cs, a, b, "u32le") {
        Ok(FieldKind::U32Le)
    } else if span_is(cs, a, b, "u32be") {
        Ok(FieldKind::U32Be)
    } else if span_starts_with(cs, a, b, "bytes") {
        proof {
            reveal_strlit("bytes");
            assert(s.take(5) =~= cs@.subrange(a as int, a + 5));
            assert(s.skip(5) =~= cs@.subrange(a + 5, b as int));
        }
        match parse_unsigned_span(cs, a + 5, b, usize::MAX as u64) {
            Some(n) => Ok(FieldKind::Bytes(n as usize)),
            None => {
                let mut e = lit("invalid field kind ");
                push_debug(&mut e, cs, a, b);
                Err(e)
            },
        }
    } else {
        proof {
            reveal_strlit("bytes");
            if starts_with(s, "bytes"@) {
                assert(s.take(5) =~= cs@.subrange(a as int, a + 5));
            }
        }
        let mut e = lit("unknown field kind ");
        push_debug(&mut e, cs, a, b);
        Err(e)
    }
}

/// The checksum kind named by `cs[a..b]`.
fn parse_checksum_kind(cs: &Vec<char>, a: usize, b: usize) -> (r: Result<ChecksumKind, String>)
    requires
        a <= b <= cs@.len(),
    ensures
        match (r, checksum_spec(cs@.subrange(a as int, b as int))) {
            (Ok(k), Ok(k2)) => k == k2,
            (Err(e), Err(m)) => e@ == m,
            _ => false,
        },
{
    if span_is(cs, a, b, "crc32") {
        Ok(ChecksumKind::Crc32)
    } else if span_is(cs, a, b, "crc16-xmodem") {
        Ok(ChecksumKind::Crc16Xmodem)
    } else if span_is(cs, a, b, "crc16-modbus") {
        Ok(ChecksumKind::Crc16Modbus)
    } else if span_is(cs, a, b, "internet-checksum") {
        Ok(ChecksumKind::InternetChecksum)
    } else {
        let mut e = lit("unknown checksum kind ");
        push_debug(&mut e, cs, a, b);
        Err(e)
    }
}

/// The value `cs[a..b]` declares for a `kind` field.
fn parse_field_value(kind: FieldKind, cs: &Vec<char>, a: usize, b: usize) -> (r: Result<FieldValue, String>)
    requires
        a <= b <= cs@.len(),
    ensures
        match (r, field_value_spec(kind, cs@.subrange(a as int, b as int))) {
            (Ok(v), Ok(w)) => value_view(v) == w,
            (Err(e), Err(m)) => e@ == m,
            _ => false,
        },
{
    let ghost raw = cs@.subrange(a as int, b as int);
    match kind {
        FieldKind::Bytes(width) => {
            let twice: u128 = width as u128 * 2;
            let mut len: u128 = 0;
            let mut i = a;
            while i < b
                invariant
                    a <= i <= b <= cs@.len(),
                    len == utf8_len(cs@.subrange(a as int, i as int)),
                    len <= 4 * (i - a),
                decreases b - i,
            {
                assert(cs@.subrange(a as int, i + 1).drop_last() =~= cs@.subrange(a as int, i as int));
                len = len + char_utf8_width(cs[i]) as u128;
                i = i + 1;
            }
            assert(cs@.subrange(a as int, i as int) =~= raw);
            if len != twice {
                let mut e = lit("expected ");
                push_decimal(&mut e, twice);
                push_str(&mut e, " hex chars for a ");
                push_decimal(&mut e, width as u128);
                push_str(&mut e, "-byte field, got ");
                push_decimal(&mut e, len);
                return Err(e);
            }
            let mut bytes: Vec<u8> = Vec::new();
            let mut i = a;
            assert(cs@.subrange(a as int, a as int) =~= Seq::<char>::empty());
            assert(bytes@ + Seq::<u8>::empty() =~= bytes@);
            while i < b
                invariant
                    a <= i <= b <= cs@.len(),
                    raw == cs@.subrange(a as int, b as int),
                    hex_pairs(raw) == hex_join(bytes@, hex_pairs(cs@.subrange(i as int, b as int))),
                    kind == FieldKind::Bytes(width),
                    utf8_len(raw) == 2 * width,
                decreases b - i,
            {
                let ghost rest = cs@.subrange(i as int, b as int);
                let w0 = char_utf8_width(cs[i]);
                if w0 == 1 {
                    if b - i < 2 {
                        let mut e = lit("invalid hex byte ");
                        push_debug(&mut e, cs, i, b);
                        return Err(e);
                    }
                    if char_utf8_width(cs[i + 1]) != 1 {
                        assert(rest.take(2) =~= cs@.subrange(i as int, i + 2));
                        let mut e = lit("invalid hex byte ");
                        push_debug(&mut e, cs, i, i + 2);
                        return Err(e);
                    }
                    assert(rest.take(2) =~= cs@.subrange(i as int, i + 2));
                    assert(rest.skip(2) =~= cs@.subrange(i + 2, b as int));
                    match parse_hex_span(cs, i, i + 2, 0xFF) {
                        Some(v) => {
                            let ghost before = bytes@;
                            bytes.push(v as u8);
                            proof {
                                let tail = hex_pairs(cs@.subrange(i + 2, b as int));
                                if let Ok(t) = tail {
                                    assert(before + (seq![v as u8] + t) =~= bytes@ + t);
                                }
                            }
                            i = i + 2;
                        },
                        None => {
                            let mut e = lit("invalid hex byte ");
                            push_debug(&mut e, cs, i, i + 2);
                            return Err(e);
                        },
                    }
                } else {
                    assert(rest.take(1) =~= cs@.subrange(i as int, i + 1));
                    let mut e = lit("invalid hex byte ");
                    push_debug(&mut e, cs, i, i + 1);
                    return Err(e);
                }
            }
            assert(cs@.subrange(i as int, b as int) =~= Seq::<char>::empty());
            assert(bytes@ + Seq::<u8>::empty() =~= bytes@);
            Ok(FieldValue::Bytes(bytes))
        },
        _ => {
            if span_starts_with(cs, a, b, "0x") {
                proof {
                    reveal_strlit("0x");
                    assert(raw.skip(2) =~= cs@.subrange(a + 2, b as int));
                    assert(raw.take(2) =~= cs@.subrange(a as int, a + 2));
                }
                match parse_hex_span(cs, a + 2, b, u64::MAX) {
                    Some(n) => Ok(FieldValue::Number(n)),
                    None => {
                        let mut e = lit("invalid hex number ");
                        push_debug(&mut e, cs, a, b);
                        Err(e)
                    },
                }
            } else {
                proof {
                    reveal_strlit("0x");
                    if starts_with(raw, "0x"@) {
                        assert(raw.take(2) =~= cs@.subrange(a as int, a + 2));
                    }
                }
                match parse_unsigned_span(cs, a, b, u64::MAX) {
                    Some(n) => Ok(FieldValue::Number(n)),
                    None => {
                        let mut e = lit("invalid number ");
                        push_debug(&mut e, cs, a, b);
                        Err(e)
                    },
                }
            }
        },
    }
}

pub open spec fn pairs_view(pairs: Seq<(String, String)>) -> Seq<(Seq<char>, Seq<char>)> {
    pairs.map_values(|p: (String, String)| pair_view(p))
}

pub open spec fn fields_view(fields: Seq<FieldSpec>) -> Seq<FieldDecl> {
    fields.map_values(|f: FieldSpec| decl_view(f))
}

/// Index of the first pair whose key is `key`.
fn find_value(pairs: &Vec<(String, String)>, key: &String) -> (r: Option<usize>)
    ensures
        match find_pair(pairs_view(pairs@), key@) {
            None => r is None,
            Some(v) => r matches Some(j) && j < pairs@.len() && pairs@[j as int].1@ == v,
        },
{
    let ghost pv = pairs_view(pairs@);
    let mut j: usize = 0;
    assert(pv.skip(0) =~= pv);
    while j < pairs.len()
        invariant
            j <= pairs@.len(),
            pv == pairs_view(pairs@),
            find_pair(pv, key@) == find_pair(pv.skip(j as int), key@),
        decreases pairs.len() - j,
    {
        assert(pv.skip(j as int)[0] == pair_view(pairs@[j as int]));
        if pairs[j].0 == *key {
            return Some(j);
        }
        assert(pv.skip(j as int).drop_first() =~= pv.skip(j + 1));
        j = j + 1;
    }
    assert(pv.skip(j as int).len() == 0);
    None
}

/// The values of frame `label`, one per field, from its `key=value` pairs:
/// the first pair naming a field gives its value.
fn finish_frame(label: String, pairs: &Vec<(String, String)>, fields: &Vec<FieldSpec>) -> (r: Result<DeclaredFrame, String>)
    ensures
        match (r, finish_spec(label@, pairs_view(pairs@), fields_view(fields@))) {
            (Ok(d), Ok(vals)) => declared_view(d) == (label@, vals),
            (Err(e), Err(m)) => e@ == m,
            _ => false,
        },
{
    let ghost pv = pairs_view(pairs@);
    let ghost fv = fields_view(fields@);
    let label_chars = chars_of(label.as_str());
    assert(label_chars@.subrange(0, label_chars@.len() as int) =~= label@);
    let mut values: Vec<FieldValue> = Vec::new();
    let mut k: usize = 0;
    assert(values@.map_values(|v: FieldValue| value_view(v)) =~= Seq::<ValueView>::empty());
    while k < fields.len()
        invariant
            k <= fields@.len(),
            pv == pairs_view(pairs@),
            fv == fields_view(fields@),
            label_chars@ == label@,
            finish_prefix(label@, pv, fv, k as int) == Ok::<Seq<ValueView>, Seq<char>>(
                values@.map_values(|v: FieldValue| value_view(v)),
            ),
        decreases fields.len() - k,
    {
        let field = &fields[k];
        assert(fv[k as int] == decl_view(fields@[k as int]));
        assert(label_chars@.subrange(0, label_chars@.len() as int) =~= label@);
        let name_chars = chars_of(field.name.as_str());
        assert(name_chars@.subrange(0, name_chars@.len() as int) =~= field.name@);
        match find_value(pairs, &field.name) {
            None => {
                let mut e = lit("frame ");
                push_debug(&mut e, &label_chars, 0, label_chars.len());
                push_str(&mut e, ": missing value for field ");
                push_debug(&mut e, &name_chars, 0, name_chars.len());
                proof {
                    assert(finish_prefix(label@, pv, fv, k as int + 1) == Err::<Seq<ValueView>, Seq<char>>(e@));
                    lemma_finish_stops(label@, pv, fv, k as int + 1, fv.len() as int);
                }
                return Err(e);
            },
            Some(j) => {
                let raw = chars_of(pairs[j].1.as_str());
                assert(raw@.subrange(0, raw@.len() as int) =~= raw@);
                match parse_field_value(field.kind, &raw, 0, raw.len()) {
                    Ok(v) => {
                        let ghost before = values@;
                        values.push(v);
                        assert(values@.map_values(|v: FieldValue| value_view(v)) =~= before.map_values(
                            |v: FieldValue| value_view(v),
                        ).push(value_view(v)));
                    },
                    Err(inner) => {
                        let mut e = lit("frame ");
                        push_debug(&mut e, &label_chars, 0, label_chars.len());
                        push_str(&mut e, ", field ");
                        push_debug(&mut e, &name_chars, 0, name_chars.len());
                        push_str(&mut e, ": ");
                        push_str(&mut e, inner.as_str());
                        proof {
                            assert(finish_prefix(label@, pv, fv, k as int + 1) == Err::<Seq<ValueView>, Seq<char>>(
                                e@,
                            ));
                            lemma_finish_stops(label@, pv, fv, k as int + 1, fv.len() as int);
                        }
                        return Err(e);
                    },
                }
            },
        }
        k = k + 1;
    }
    Ok(DeclaredFrame { label, values })
}

/// Once a field's value is missing or invalid, every longer prefix ends
/// the same way.
pub proof fn lemma_finish_stops(
    label: Seq<char>,
    pairs: Seq<(Seq<char>, Seq<char>)>,
    fields: Seq<FieldDecl>,
    k: int,
    n: int,
)
    requires
        1 <= k <= n,
        finish_prefix(label, pairs, fields, k) is Err,
    ensures
        finish_prefix(label, pairs, fields, n) == finish_prefix(label, pairs, fields, k),
    decreases n - k,
{
    if n > k {
        lemma_finish_stops(label, pairs, fields, k, n - 1);
    }
}

/// Once a line is rejected, every longer prefix ends the same way.
pub proof fn lemma_format_stops(ls: Seq<Seq<char>>, k: int, n: int)
    requires
        1 <= k <= n,
        format_prefix(ls, k) is Err,
    ensures
        format_prefix(ls, n) == format_prefix(ls, k),
    decreases n - k,
{
    if n > k {
        lemma_format_stops(ls, k, n - 1);
    }
}

/// Declaration reading state.
struct Scanner {
    fields: Vec<FieldSpec>,
    checksum: Option<ChecksumKind>,
    declared: Vec<DeclaredFrame>,
    label: Option<String>,
    pairs: Vec<(String, String)>,
}

impl Scanner {
    closed spec fn view(&self) -> FormatScan {
        FormatScan {
            fields: fields_view(self.fields@),
            checksum: self.checksum,
            declared: self.declared@.map_values(|d: DeclaredFrame| declared_view(d)),
            label: match self.label {
                Some(l) => Some(l@),
                None => None,
            },
            pairs: pairs_view(self.pairs@),
        }
    }

    fn new() -> (sc: Scanner)
        ensures
            sc.view() == empty_scan(),
    {
        let sc = Scanner {
            fields: Vec::new(),
            checksum: None,
            declared: Vec::new(),
            label: None,
            pairs: Vec::new(),
        };
        assert(sc.view().fields =~= Seq::<FieldDecl>::empty());
        assert(sc.view().declared =~= Seq::<(Seq<char>, Seq<ValueView>)>::empty());
        assert(sc.view().pairs =~= Seq::<(Seq<char>, Seq<char>)>::empty());
        sc
    }

    /// Reads line `cs[ls0..le0]`, numbered `line_no`.
    fn scan_line(&mut self, cs: &Vec<char>, ls0: usize, le0: usize, line_no: usize) -> (r: Result<(), String>)
        requires
            ls0 <= le0 <= cs@.len(),
        ensures
            match format_line(old(self).view(), cs@.subrange(ls0 as int, le0 as int), line_no as nat) {
                Ok(st) => r is Ok && final(self).view() == st,
                Err(m) => r matches Err(e) && e@ == m,
            },
    {
        let ghost line = cs@.subrange(ls0 as int, le0 as int);
        let (a, b) = trim_span(cs, ls0, le0);
        let ghost t = cs@.subrange(a as int, b as int);
        if a == b || cs[a] == '#' {
            return Ok(());
        }
        if span_starts_with(cs, a, b, "field,") {
            proof {
                reveal_strlit("field,");
                assert(t.take(6) =~= cs@.subrange(a as int, a + 6));
            }
            let r0 = a + 6;
            let ghost rest = cs@.subrange(r0 as int, b as int);
            assert(rest =~= t.skip(6));
            let mut c = r0;
            while c < b && cs[c] != ','
                invariant
                    r0 <= c <= b <= cs@.len(),
                    rest == cs@.subrange(r0 as int, b as int),
                    find_from(rest, ',', 0) == find_from(rest, ',', c - r0),
                decreases b - c,
            {
                c = c + 1;
            }
            if c == b {
                let mut e = String::new();
                push_line_prefix(&mut e, line_no);
                push_str(&mut e, "expected \"field,kind,name\", got ");
                push_debug(&mut e, cs, a, b);
                return Err(e);
            }
            assert(rest.take(c - r0) =~= cs@.subrange(r0 as int, c as int));
            assert(rest.skip(c - r0 + 1) =~= cs@.subrange(c + 1, b as int));
            match parse_kind(cs, r0, c) {
                Ok(kind) => {
                    let f = FieldSpec { name: string_of(cs, c + 1, b), kind };
                    let ghost before = self.fields@;
                    self.fields.push(f);
                    assert(fields_view(self.fields@) =~= fields_view(before).push(decl_view(f)));
                    return Ok(());
                },
                Err(inner) => {
                    let mut e = String::new();
                    push_line_prefix(&mut e, line_no);
                    push_str(&mut e, inner.as_str());
                    return Err(e);
                },
            }
        }
        proof {
            reveal_strlit("field,");
            if starts_with(t, "field,"@) {
                assert(t.take(6) =~= cs@.subrange(a as int, a + 6));
            }
        }
        if span_starts_with(cs, a, b, "checksum,") {
            proof {
                reveal_strlit("checksum,");
                assert(t.take(9) =~= cs@.subrange(a as int, a + 9));
                assert(t.skip(9) =~= cs@.subrange(a + 9, b as int));
            }
            if self.checksum.is_some() {
                let mut e = String::new();
                push_line_prefix(&mut e, line_no);
                push_str(&mut e, "checksum declared more than once");
                return Err(e);
            }
            match parse_checksum_kind(cs, a + 9, b) {
                Ok(c) => {
                    self.checksum = Some(c);
                    return Ok(());
                },
                Err(inner) => {
                    let mut e = String::new();
                    push_line_prefix(&mut e, line_no);
                    push_str(&mut e, inner.as_str());
                    return Err(e);
                },
            }
        }
        proof {
            reveal_strlit("checksum,");
            if starts_with(t, "checksum,"@) {
                assert(t.take(9) =~= cs@.subrange(a as int, a + 9));
            }
        }
        if span_starts_with(cs, a, b, "frame,") {
            proof {
                reveal_strlit("frame,");
                assert(t.take(6) =~= cs@.subrange(a as int, a + 6));
                assert(t.skip(6) =~= cs@.subrange(a + 6, b as int));
            }
            let new_label = string_of(cs, a + 6, b);
            let prev = self.label.take();
            match prev {
                Some(prev) => {
                    match finish_frame(prev, &self.pairs, &self.fields) {
                        Ok(d) => {
                            let ghost before = self.declared@;
                            self.declared.push(d);
                            assert(self.declared@.map_values(|d: DeclaredFrame| declared_view(d))
                                =~= before.map_values(|d: DeclaredFrame| declared_view(d)).push(
                                declared_view(d),
                            ));
                        },
                        Err(e) => {
                            return Err(e);
                        },
                    }
                    self.pairs = Vec::new();
                    assert(pairs_view(self.pairs@) =~= Seq::<(Seq<char>, Seq<char>)>::empty());
                },
                None => {},
            }
            self.label = Some(new_label);
            return Ok(());
        }
        proof {
            reveal_strlit("frame,");
            if starts_with(t, "frame,"@) {
                assert(t.take(6) =~= cs@.subrange(a as int, a + 6));
            }
        }
        if self.label.is_none() {
            let mut e = String::new();
            push_line_prefix(&mut e, line_no);
            push_debug(&mut e, cs, a, b);
            push_str(&mut e, " outside any \"frame,<label>\" block");
            return Err(e);
        }
        let mut q = a;
        while q < b && cs[q] != '='
            invariant
                a <= q <= b <= cs@.len(),
                t == cs@.subrange(a as int, b as int),
                find_from(t, '=', 0) == find_from(t, '=', q - a),
            decreases b - q,
        {
            q = q + 1;
        }
        if q == b {
            let mut e = String::new();
            push_line_prefix(&mut e, line_no);
            push_str(&mut e, "expected \"key=value\", got ");
            push_debug(&mut e, cs, a, b);
            return Err(e);
        }
        let (ka, kb) = trim_span(cs, a, q);
        let (va, vb) = trim_span(cs, q + 1, b);
        assert(t.take(q - a) =~= cs@.subrange(a as int, q as int));
        assert(t.skip(q - a + 1) =~= cs@.subrange(q + 1, b as int));
        let pair = (string_of(cs, ka, kb), string_of(cs, va, vb));
        let ghost before = self.pairs@;
        self.pairs.push(pair);
        assert(pairs_view(self.pairs@) =~= pairs_view(before).push(pair_view(pair)));
        Ok(())
    }
}

/// Reads a `.frame-format` declaration: `field,<kind>,<name>` lines, one
/// `checksum,<kind>` line, then `frame,<label>` blocks of `name=value`
/// lines (numbers in decimal or `0x` hex, `bytesN` values as `2*N` hex
/// characters). `#` comments and blank lines are skipped.
pub fn parse_frame_format(text: &str) -> (r: Result<(FrameSpec, Vec<DeclaredFrame>), String>)
    ensures
        match (r, frame_format_spec(text@)) {
            (Ok((spec, frames)), Ok(v)) => fields_view(spec.fields@) == v.0 && spec.checksum == v.1
                && frames@.map_values(|d: DeclaredFrame| declared_view(d)) == v.2,
            (Err(e), Err(m)) => e@ == m,
            _ => false,
        },
{
    let cs = chars_of(text);
    let spans = line_spans(&cs);
    let ghost ls = lines(cs@);
    let mut sc = Scanner::new();
    let mut k: usize = 0;
    while k < spans.len()
        invariant
            cs@ == text@,
            ls == lines(cs@),
            span_texts(cs@, spans@) == ls,
            forall|j: int|
                #![trigger spans@[j]]
                0 <= j < spans@.len() ==> spans@[j].0 <= spans@[j].1 <= cs@.len(),
            k <= spans@.len(),
            format_prefix(ls, k as int) == Ok::<FormatScan, Seq<char>>(sc.view()),
        decreases spans.len() - k,
    {
        let (ls0, le0) = spans[k];
        let ghost line = cs@.subrange(ls0 as int, le0 as int);
        assert(ls[k as int] == line);
        proof {
            if format_line(sc.view(), line, (k + 1) as nat) is Err {
                lemma_format_stops(ls, k as int + 1, ls.len() as int);
            }
        }
        match sc.scan_line(&cs, ls0, le0, k + 1) {
            Ok(()) => {},
            Err(e) => {
                return Err(e);
            },
        }
        k = k + 1;
    }
    let Scanner { fields, checksum, mut declared, label, pairs } = sc;
    match label {
        Some(l) => {
            match finish_frame(l, &pairs, &fields) {
                Ok(d) => {
                    let ghost before = declared@;
                    declared.push(d);
                    assert(declared@.map_values(|d: DeclaredFrame| declared_view(d)) =~= before.map_values(
                        |d: DeclaredFrame| declared_view(d),
                    ).push(declared_view(d)));
                },
                Err(e) => {
                    return Err(e);
                },
            }
        },
        None => {},
    }
    let checksum = match checksum {
        Some(c) => c,
        None => {
            return Err(lit("missing \"checksum,<kind>\" line"));
        },
    };
    if fields.len() == 0 {
        return Err(lit("no \"field,...\" lines declared"));
    }
    Ok((FrameSpec { fields, checksum }, declared))
}

} // verus!
