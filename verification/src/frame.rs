//! Frame builder and inspector: a declared, ordered list of fixed-width
//! fields (numbers with explicit endianness, or raw byte runs) followed by
//! a trailing checksum over them.

use vstd::prelude::*;
use crate::checksums::{
    be_bytes_u16, crc16_modbus, crc16_modbus_spec, crc16_xmodem, crc16_xmodem_spec, crc32, crc32_spec,
    internet_checksum, internet_checksum_spec,
};
use crate::text::{decimal, debug_str, push_debug, push_decimal, push_str, chars_of};

verus! {

/// How one field is laid out on the wire.
#[derive(Debug, Clone, Copy, PartialEq, Eq)]
pub enum FieldKind {
    U8,
    U16Le,
    U16Be,
    U32Le,
    U32Be,
    Bytes(usize),
}

/// Bytes a field of kind `k` occupies.
pub open spec fn kind_width(k: FieldKind) -> nat {
    match k {
        FieldKind::U8 => 1,
        FieldKind::U16Le | FieldKind::U16Be => 2,
        FieldKind::U32Le | FieldKind::U32Be => 4,
        FieldKind::Bytes(n) => n as nat,
    }
}

impl FieldKind {
    /// Bytes a field of this kind occupies on the wire.
    pub fn byte_width(self) -> (w: usize)
        ensures
            w == kind_width(self),
    {
        match self {
            FieldKind::U8 => 1,
            FieldKind::U16Le | FieldKind::U16Be => 2,
            FieldKind::U32Le | FieldKind::U32Be => 4,
            FieldKind::Bytes(n) => n,
        }
    }
}

/// One declared field.
#[derive(Debug, Clone, PartialEq, Eq)]
pub struct FieldSpec {
    pub name: String,
    pub kind: FieldKind,
}

/// The checksum a frame ends with.
#[derive(Debug, Clone, Copy, PartialEq, Eq)]
pub enum ChecksumKind {
    Crc32,
    Crc16Xmodem,
    Crc16Modbus,
    InternetChecksum,
}

/// The four bytes of `v`, most significant first.
pub open spec fn be_bytes_u32(v: u32) -> Seq<u8> {
    seq![
        (v / 0x100_0000) as u8,
        ((v / 0x1_0000) % 256) as u8,
        ((v / 256) % 256) as u8,
        (v % 256) as u8,
    ]
}

/// The trailer of a `kind` checksum over `payload`, most significant byte
/// first.
pub open spec fn trailer_spec(kind: ChecksumKind, payload: Seq<u8>) -> Seq<u8> {
    match kind {
        ChecksumKind::Crc32 => be_bytes_u32(crc32_spec(payload)),
        ChecksumKind::Crc16Xmodem => be_bytes_u16(crc16_xmodem_spec(payload)),
        ChecksumKind::Crc16Modbus => be_bytes_u16(crc16_modbus_spec(payload)),
        ChecksumKind::InternetChecksum => be_bytes_u16(internet_checksum_spec(payload)),
    }
}

pub open spec fn trailer_len(kind: ChecksumKind) -> nat {
    match kind {
        ChecksumKind::Crc32 => 4,
        _ => 2,
    }
}

/// Every trailer a checksum kind computes, over any payload, has the
/// width that kind declares.
pub proof fn trailer_has_its_width(kind: ChecksumKind, payload: Seq<u8>)
    ensures
        trailer_spec(kind, payload).len() == trailer_len(kind),
{
}

fn be_u32(v: u32) -> (b: Vec<u8>)
    ensures
        b@ == be_bytes_u32(v),
{
    let mut b = Vec::new();
    b.push((v / 0x100_0000) as u8);
    b.push(((v / 0x1_0000) % 256) as u8);
    b.push(((v / 256) % 256) as u8);
    b.push((v % 256) as u8);
    assert(b@ =~= be_bytes_u32(v));
    b
}

fn be_u16(v: u16) -> (b: Vec<u8>)
    ensures
        b@ == be_bytes_u16(v),
{
    let mut b = Vec::new();
    b.push((v / 256) as u8);
    b.push((v % 256) as u8);
    assert(b@ =~= be_bytes_u16(v));
    b
}

impl ChecksumKind {
    /// Bytes the trailer takes.
    pub fn trailer_width(self) -> (w: usize)
        ensures
            w == trailer_len(self),
    {
        match self {
            ChecksumKind::Crc32 => 4,
            ChecksumKind::Crc16Xmodem | ChecksumKind::Crc16Modbus | ChecksumKind::InternetChecksum => 2,
        }
    }

    /// The trailer bytes over `payload`, big-endian on the wire.
    pub fn compute(self, payload: &[u8]) -> (trailer: Vec<u8>)
        ensures
            trailer@ == trailer_spec(self, payload@),
            trailer@.len() == trailer_len(self),
    {
        match self {
            ChecksumKind::Crc32 => be_u32(crc32(payload)),
            ChecksumKind::Crc16Xmodem => be_u16(crc16_xmodem(payload)),
            ChecksumKind::Crc16Modbus => be_u16(crc16_modbus(payload)),
            ChecksumKind::InternetChecksum => be_u16(internet_checksum(payload)),
        }
    }
}

/// A frame layout: its fields in wire order, then its checksum.
#[derive(Debug, Clone, PartialEq, Eq)]
pub struct FrameSpec {
    pub fields: Vec<FieldSpec>,
    pub checksum: ChecksumKind,
}

/// Sum of the widths of `fields`.
pub open spec fn fields_width(fields: Seq<FieldSpec>) -> nat
    decreases fields.len(),
{
    if fields.len() == 0 {
        0
    } else {
        fields_width(fields.drop_last()) + kind_width(fields.last().kind)
    }
}

impl FrameSpec {
    /// Bytes the fields take together, which must fit in a `usize`.
    pub fn payload_width(&self) -> (w: usize)
        requires
            fields_width(self.fields@) <= usize::MAX,
        ensures
            w == fields_width(self.fields@),
    {
        let mut w: usize = 0;
        let mut i: usize = 0;
        while i < self.fields.len()
            invariant
                i <= self.fields@.len(),
                w == fields_width(self.fields@.take(i as int)),
                fields_width(self.fields@) <= usize::MAX,
            decreases self.fields.len() - i,
        {
            assert(self.fields@.take(i + 1).drop_last() =~= self.fields@.take(i as int));
            proof {
                lemma_fields_width_prefix(self.fields@, i as int + 1);
            }
            w = w + self.fields[i].kind.byte_width();
            i = i + 1;
        }
        assert(self.fields@.take(i as int) =~= self.fields@);
        w
    }
}

/// A prefix of the fields is no wider than all of them.
pub proof fn lemma_fields_width_prefix(fields: Seq<FieldSpec>, k: int)
    requires
        0 <= k <= fields.len(),
    ensures
        fields_width(fields.take(k)) <= fields_width(fields),
    decreases fields.len() - k,
{
    if k < fields.len() {
        lemma_fields_width_prefix(fields, k + 1);
        assert(fields.take(k + 1).drop_last() =~= fields.take(k));
    } else {
        assert(fields.take(k) =~= fields);
    }
}

/// A field's value: a number for the numeric kinds, raw bytes for a
/// `Bytes` field.
#[derive(Debug, Clone, PartialEq, Eq)]
pub enum FieldValue {
    Number(u64),
    Bytes(Vec<u8>),
}

/// A field value as plain values.
pub enum ValueView {
    Number(u64),
    Bytes(Seq<u8>),
}

pub open spec fn value_view(v: FieldValue) -> ValueView {
    match v {
        FieldValue::Number(n) => ValueView::Number(n),
        FieldValue::Bytes(b) => ValueView::Bytes(b@),
    }
}

/// `{:?}` of a field kind.
pub open spec fn kind_debug(k: FieldKind) -> Seq<char> {
    match k {
        FieldKind::U8 => "U8"@,
        FieldKind::U16Le => "U16Le"@,
        FieldKind::U16Be => "U16Be"@,
        FieldKind::U32Le => "U32Le"@,
        FieldKind::U32Be => "U32Be"@,
        FieldKind::Bytes(n) => "Bytes("@ + decimal(n as nat) + ")"@,
    }
}

/// The items of `{:?}` of a byte list, separated by `, `.
pub open spec fn bytes_items(b: Seq<u8>) -> Seq<char>
    decreases b.len(),
{
    if b.len() == 0 {
        Seq::empty()
    } else if b.len() == 1 {
        decimal(b[0] as nat)
    } else {
        bytes_items(b.drop_last()) + ", "@ + decimal(b.last() as nat)
    }
}

/// `{:?}` of a field value.
pub open spec fn value_debug(v: ValueView) -> Seq<char> {
    match v {
        ValueView::Number(n) => "Number("@ + decimal(n as nat) + ")"@,
        ValueView::Bytes(b) => "Bytes(["@ + bytes_items(b) + "])"@,
    }
}

/// The two bytes of `n`, least significant first.
pub open spec fn le2(n: nat) -> Seq<u8> {
    seq![(n % 256) as u8, (n / 256) as u8]
}

/// The two bytes of `n`, most significant first.
pub open spec fn be2(n: nat) -> Seq<u8> {
    seq![(n / 256) as u8, (n % 256) as u8]
}

/// The four bytes of `n`, least significant first.
pub open spec fn le4(n: nat) -> Seq<u8> {
    seq![(n % 256) as u8, ((n / 256) % 256) as u8, ((n / 0x1_0000) % 256) as u8, (n / 0x100_0000) as u8]
}

/// The four bytes of `n`, most significant first.
pub open spec fn be4(n: nat) -> Seq<u8> {
    seq![(n / 0x100_0000) as u8, ((n / 0x1_0000) % 256) as u8, ((n / 256) % 256) as u8, (n % 256) as u8]
}

/// The wire bytes of value `v` in a field of kind `k`, or why it does not
/// fit.
pub open spec fn pack_spec(k: FieldKind, v: ValueView) -> Result<Seq<u8>, Seq<char>> {
    match (k, v) {
        (FieldKind::U8, ValueView::Number(n)) => if n <= 0xFF {
            Ok(seq![n as u8])
        } else {
            Err(decimal(n as nat) + " doesn't fit in u8"@)
        },
        (FieldKind::U16Le, ValueView::Number(n)) => if n <= 0xFFFF {
            Ok(le2(n as nat))
        } else {
            Err(decimal(n as nat) + " doesn't fit in u16"@)
        },
        (FieldKind::U16Be, ValueView::Number(n)) => if n <= 0xFFFF {
            Ok(be2(n as nat))
        } else {
            Err(decimal(n as nat) + " doesn't fit in u16"@)
        },
        (FieldKind::U32Le, ValueView::Number(n)) => if n <= 0xFFFF_FFFF {
            Ok(le4(n as nat))
        } else {
            Err(decimal(n as nat) + " doesn't fit in u32"@)
        },
        (FieldKind::U32Be, ValueView::Number(n)) => if n <= 0xFFFF_FFFF {
            Ok(be4(n as nat))
        } else {
            Err(decimal(n as nat) + " doesn't fit in u32"@)
        },
        (FieldKind::Bytes(w), ValueView::Bytes(b)) => if b.len() == w {
            Ok(b)
        } else {
            Err("expected "@ + decimal(w as nat) + " byte(s), got "@ + decimal(b.len()))
        },
        _ => Err("field kind "@ + kind_debug(k) + " can't hold value "@ + value_debug(v)),
    }
}

/// Appends the `{:?}` form of `k` to `s`.
fn push_kind_debug(s: &mut String, k: FieldKind)
    ensures
        final(s)@ == old(s)@ + kind_debug(k),
{
    match k {
        FieldKind::U8 => push_str(s, "U8"),
        FieldKind::U16Le => push_str(s, "U16Le"),
        FieldKind::U16Be => push_str(s, "U16Be"),
        FieldKind::U32Le => push_str(s, "U32Le"),
        FieldKind::U32Be => push_str(s, "U32Be"),
        FieldKind::Bytes(n) => {
            push_str(s, "Bytes(");
            push_decimal(s, n as u128);
            push_str(s, ")");
            assert(s@ =~= old(s)@ + kind_debug(k));
        },
    }
}

/// Appends the `{:?}` form of `v` to `s`.
fn push_value_debug(s: &mut String, v: &FieldValue)
    ensures
        final(s)@ == old(s)@ + value_debug(value_view(*v)),
{
    match v {
        FieldValue::Number(n) => {
            push_str(s, "Number(");
            push_decimal(s, *n as u128);
            push_str(s, ")");
            assert(s@ =~= old(s)@ + value_debug(value_view(*v)));
        },
        FieldValue::Bytes(b) => {
            push_str(s, "Bytes([");
            let ghost start = s@;
            let mut i: usize = 0;
            while i < b.len()
                invariant
                    i <= b@.len(),
                    s@ == start + bytes_items(b@.take(i as int)),
                decreases b.len() - i,
            {
                assert(b@.take(i + 1).drop_last() =~= b@.take(i as int));
                if i > 0 {
                    push_str(s, ", ");
                }
                push_decimal(s, b[i] as u128);
                proof {
                    if i == 0 {
                        assert(b@.take(i as int) =~= Seq::<u8>::empty());
                    }
                }
                assert(s@ =~= start + bytes_items(b@.take(i + 1)));
                i = i + 1;
            }
            assert(b@.take(i as int) =~= b@);
            push_str(s, "])");
            assert(s@ =~= old(s)@ + value_debug(value_view(*v)));
        },
    }
}

/// Appends the wire bytes of `value` in a `kind` field to `out`; on an
/// error `out` is unchanged.
pub fn pack_field(kind: FieldKind, value: &FieldValue, out: &mut Vec<u8>) -> (r: Result<(), String>)
    ensures
        match pack_spec(kind, value_view(*value)) {
            Ok(bytes) => r is Ok && final(out)@ == old(out)@ + bytes,
            Err(msg) => r matches Err(e) && e@ == msg && final(out)@ == old(out)@,
        },
{
    match (kind, value) {
        (FieldKind::U8, FieldValue::Number(n)) => {
            if *n > 0xFF {
                let mut e = String::new();
                push_decimal(&mut e, *n as u128);
                push_str(&mut e, " doesn't fit in u8");
                return Err(e);
            }
            out.push(*n as u8);
            assert(out@ =~= old(out)@ + seq![*n as u8]);
        },
        (FieldKind::U16Le, FieldValue::Number(n)) | (FieldKind::U16Be, FieldValue::Number(n)) => {
            if *n > 0xFFFF {
                let mut e = String::new();
                push_decimal(&mut e, *n as u128);
                push_str(&mut e, " doesn't fit in u16");
                return Err(e);
            }
            if matches!(kind, FieldKind::U16Le) {
                out.push((*n % 256) as u8);
                out.push((*n / 256) as u8);
                assert(out@ =~= old(out)@ + le2(*n as nat));
            } else {
                out.push((*n / 256) as u8);
                out.push((*n % 256) as u8);
                assert(out@ =~= old(out)@ + be2(*n as nat));
            }
        },
        (FieldKind::U32Le, FieldValue::Number(n)) | (FieldKind::U32Be, FieldValue::Number(n)) => {
            if *n > 0xFFFF_FFFF {
                let mut e = String::new();
                push_decimal(&mut e, *n as u128);
                push_str(&mut e, " doesn't fit in u32");
                return Err(e);
            }
            if matches!(kind, FieldKind::U32Le) {
                out.push((*n % 256) as u8);
                out.push(((*n / 256) % 256) as u8);
                out.push(((*n / 0x1_0000) % 256) as u8);
                out.push((*n / 0x100_0000) as u8);
                assert(out@ =~= old(out)@ + le4(*n as nat));
            } else {
                out.push((*n / 0x100_0000) as u8);
                out.push(((*n / 0x1_0000) % 256) as u8);
                out.push(((*n / 256) % 256) as u8);
                out.push((*n % 256) as u8);
                assert(out@ =~= old(out)@ + be4(*n as nat));
            }
        },
        (FieldKind::Bytes(width), FieldValue::Bytes(bytes)) => {
            if bytes.len() != width {
                let mut e = String::new();
                push_str(&mut e, "expected ");
                push_decimal(&mut e, width as u128);
                push_str(&mut e, " byte(s), got ");
                push_decimal(&mut e, bytes.len() as u128);
                assert(e@ =~= "expected "@ + decimal(width as nat) + " byte(s), got "@ + decimal(
                    bytes@.len(),
                ));
                return Err(e);
            }
            let mut i: usize = 0;
            while i < bytes.len()
                invariant
                    i <= bytes@.len(),
                    out@ == old(out)@ + bytes@.take(i as int),
                decreases bytes.len() - i,
            {
                out.push(bytes[i]);
                i = i + 1;
                assert(out@ =~= old(out)@ + bytes@.take(i as int));
            }
            assert(bytes@.take(i as int) =~= bytes@);
        },
        _ => {
            let mut e = String::new();
            push_str(&mut e, "field kind ");
            push_kind_debug(&mut e, kind);
            push_str(&mut e, " can't hold value ");
            push_value_debug(&mut e, value);
            assert(e@ =~= "field kind "@ + kind_debug(kind) + " can't hold value "@ + value_debug(
                value_view(*value),
            ));
            return Err(e);
        },
    }
    Ok(())
}

/// The value a `k` field holds in `bytes` (its own wire bytes).
pub open spec fn unpack_spec(k: FieldKind, bytes: Seq<u8>) -> ValueView {
    match k {
        FieldKind::U8 => ValueView::Number(bytes[0] as u64),
        FieldKind::U16Le => ValueView::Number((bytes[0] + bytes[1] * 256) as u64),
        FieldKind::U16Be => ValueView::Number((bytes[0] * 256 + bytes[1]) as u64),
        FieldKind::U32Le => ValueView::Number(
            (bytes[0] + bytes[1] * 256 + bytes[2] * 0x1_0000 + bytes[3] * 0x100_0000) as u64,
        ),
        FieldKind::U32Be => ValueView::Number(
            (bytes[0] * 0x100_0000 + bytes[1] * 0x1_0000 + bytes[2] * 256 + bytes[3]) as u64,
        ),
        FieldKind::Bytes(_) => ValueView::Bytes(bytes),
    }
}

/// Reads the value of a `kind` field from its wire bytes.
fn unpack_field(kind: FieldKind, bytes: &[u8]) -> (v: FieldValue)
    requires
        bytes@.len() == kind_width(kind),
    ensures
        value_view(v) == unpack_spec(kind, bytes@),
{
    match kind {
        FieldKind::U8 => FieldValue::Number(bytes[0] as u64),
        FieldKind::U16Le => FieldValue::Number(bytes[0] as u64 + (bytes[1] as u64) * 256),
        FieldKind::U16Be => FieldValue::Number((bytes[0] as u64) * 256 + bytes[1] as u64),
        FieldKind::U32Le => FieldValue::Number(
            bytes[0] as u64 + (bytes[1] as u64) * 256 + (bytes[2] as u64) * 0x1_0000 + (bytes[3] as u64)
                * 0x100_0000,
        ),
        FieldKind::U32Be => FieldValue::Number(
            (bytes[0] as u64) * 0x100_0000 + (bytes[1] as u64) * 0x1_0000 + (bytes[2] as u64) * 256
                + bytes[3] as u64,
        ),
        FieldKind::Bytes(_) => {
            let mut v: Vec<u8> = Vec::new();
            let mut i: usize = 0;
            while i < bytes.len()
                invariant
                    i <= bytes@.len(),
                    v@ == bytes@.take(i as int),
                decreases bytes.len() - i,
            {
                v.push(bytes[i]);
                i = i + 1;
                assert(v@ =~= bytes@.take(i as int));
            }
            assert(bytes@.take(i as int) =~= bytes@);
            FieldValue::Bytes(v)
        },
    }
}

/// The payload the first `k` fields pack `values` into, or the first
/// field's error, prefixed by that field's quoted name.
pub open spec fn pack_all(fields: Seq<FieldSpec>, values: Seq<ValueView>, k: int) -> Result<Seq<u8>, Seq<char>>
    decreases k,
{
    if k <= 0 {
        Ok(Seq::empty())
    } else {
        match pack_all(fields, values, k - 1) {
            Err(e) => Err(e),
            Ok(p) => match pack_spec(fields[k - 1].kind, values[k - 1]) {
                Ok(b) => Ok(p + b),
                Err(e) => Err("field "@ + debug_str(fields[k - 1].name@) + ": "@ + e),
            },
        }
    }
}

/// The values as plain values.
pub open spec fn values_view(values: Seq<FieldValue>) -> Seq<ValueView> {
    values.map_values(|v: FieldValue| value_view(v))
}

/// The frame `values` build into under `fields` and `checksum`: the packed
/// payload then its trailer, or why it cannot be built.
pub open spec fn build_spec(fields: Seq<FieldSpec>, checksum: ChecksumKind, values: Seq<ValueView>) -> Result<Seq<u8>, Seq<char>> {
    if values.len() != fields.len() {
        Err("expected "@ + decimal(fields.len()) + " field value(s), got "@ + decimal(values.len()))
    } else {
        match pack_all(fields, values, fields.len() as int) {
            Err(e) => Err(e),
            Ok(p) => Ok(p + trailer_spec(checksum, p)),
        }
    }
}

/// What building a frame demands beyond what it checks: with one value per
/// field, the payload width must be allocatable.
pub open spec fn build_requires(fields: Seq<FieldSpec>, checksum: ChecksumKind, values: Seq<ValueView>) -> bool {
    values.len() == fields.len() ==> fields_width(fields) <= isize::MAX
}

/// Packs `values` (one per field of `spec`, in order) into wire bytes and
/// appends the checksum trailer computed over them.
pub fn build_frame(spec: &FrameSpec, values: &[FieldValue]) -> (r: Result<Vec<u8>, String>)
    requires
        build_requires(spec.fields@, spec.checksum, values_view(values@)),
    ensures
        match (r, build_spec(spec.fields@, spec.checksum, values_view(values@))) {
            (Ok(frame), Ok(bytes)) => frame@ == bytes,
            (Err(e), Err(msg)) => e@ == msg,
            _ => false,
        },
{
    let ghost vals = values_view(values@);
    if values.len() != spec.fields.len() {
        let mut e = String::new();
        push_str(&mut e, "expected ");
        push_decimal(&mut e, spec.fields.len() as u128);
        push_str(&mut e, " field value(s), got ");
        push_decimal(&mut e, values.len() as u128);
        assert(e@ =~= "expected "@ + decimal(spec.fields@.len()) + " field value(s), got "@ + decimal(
            vals.len(),
        ));
        return Err(e);
    }
    let mut payload: Vec<u8> = Vec::with_capacity(spec.payload_width());
    let mut i: usize = 0;
    while i < spec.fields.len()
        invariant
            i <= spec.fields@.len(),
            values@.len() == spec.fields@.len(),
            vals == values_view(values@),
            pack_all(spec.fields@, vals, i as int) == Ok::<Seq<u8>, Seq<char>>(payload@),
        decreases spec.fields.len() - i,
    {
        let field = &spec.fields[i];
        let ghost before = payload@;
        match pack_field(field.kind, &values[i], &mut payload) {
            Ok(()) => {},
            Err(inner) => {
                let mut e = String::new();
                push_str(&mut e, "field ");
                let name_chars = chars_of(field.name.as_str());
                push_debug(&mut e, &name_chars, 0, name_chars.len());
                push_str(&mut e, ": ");
                push_str(&mut e, inner.as_str());
                proof {
                    assert(name_chars@.subrange(0, name_chars@.len() as int) =~= field.name@);
                    lemma_pack_error_sticks(spec.fields@, vals, i as int + 1, spec.fields@.len() as int);
                }
                return Err(e);
            },
        }
        i = i + 1;
    }
    let trailer = spec.checksum.compute(payload.as_slice());
    let ghost p = payload@;
    let mut j: usize = 0;
    while j < trailer.len()
        invariant
            j <= trailer@.len(),
            payload@ == p + trailer@.take(j as int),
        decreases trailer.len() - j,
    {
        payload.push(trailer[j]);
        j = j + 1;
        assert(payload@ =~= p + trailer@.take(j as int));
    }
    assert(trailer@.take(j as int) =~= trailer@);
    Ok(payload)
}

/// Whether [`build_frame`] can build `values`: with one value per field,
/// the fields together take a width an allocation can hold.
pub fn can_build(spec: &FrameSpec, values: &[FieldValue]) -> (b: bool)
    ensures
        b == build_requires(spec.fields@, spec.checksum, values_view(values@)),
{
    let ghost vals = values_view(values@);
    if values.len() != spec.fields.len() {
        return true;
    }
    let mut w: u128 = 0;
    let mut i: usize = 0;
    while i < spec.fields.len()
        invariant
            i <= spec.fields@.len(),
            w == fields_width(spec.fields@.take(i as int)),
            w <= isize::MAX,
            values@.len() == spec.fields@.len(),
            vals == values_view(values@),
        decreases spec.fields.len() - i,
    {
        assert(spec.fields@.take(i + 1).drop_last() =~= spec.fields@.take(i as int));
        w = w + spec.fields[i].kind.byte_width() as u128;
        i = i + 1;
        if w > isize::MAX as u128 {
            proof {
                lemma_fields_width_prefix(spec.fields@, i as int);
            }
            return false;
        }
    }
    assert(spec.fields@.take(i as int) =~= spec.fields@);
    true
}

/// Fields of the same kinds, whatever their names, take the same width and
/// pack the same values into the same payload.
proof fn lemma_same_kinds_pack_alike(f1: Seq<FieldSpec>, f2: Seq<FieldSpec>, values: Seq<ValueView>, k: int)
    requires
        f1.len() == f2.len(),
        forall|i: int| 0 <= i < f1.len() ==> #[trigger] f1[i].kind == f2[i].kind,
        k <= f1.len(),
    ensures
        fields_width(f1) == fields_width(f2),
        pack_all(f1, values, k) is Ok <==> pack_all(f2, values, k) is Ok,
        pack_all(f1, values, k) is Ok ==> pack_all(f1, values, k) == pack_all(f2, values, k),
    decreases f1.len(), k,
{
    if f1.len() > 0 {
        let (g1, g2) = (f1.drop_last(), f2.drop_last());
        assert forall|i: int| 0 <= i < g1.len() implies #[trigger] g1[i].kind == g2[i].kind by {
            assert(f1[i].kind == f2[i].kind);
        }
        assert(f1.last().kind == f2.last().kind);
        lemma_same_kinds_pack_alike(g1, g2, values, 0);
    }
    if k > 0 {
        lemma_same_kinds_pack_alike(f1, f2, values, k - 1);
        assert(f1[k - 1].kind == f2[k - 1].kind);
    }
}

/// Whether `build_frame` may be called on `values` depends on the fields
/// only through their kinds.
pub(crate) proof fn lemma_build_requires_by_kinds(
    f1: Seq<FieldSpec>,
    f2: Seq<FieldSpec>,
    checksum: ChecksumKind,
    values: Seq<ValueView>,
)
    requires
        f1.len() == f2.len(),
        forall|i: int| 0 <= i < f1.len() ==> #[trigger] f1[i].kind == f2[i].kind,
    ensures
        build_requires(f1, checksum, values) == build_requires(f2, checksum, values),
{
    lemma_same_kinds_pack_alike(f1, f2, values, f1.len() as int);
}

/// Once a field fails to pack, every longer prefix fails the same way.
pub proof fn lemma_pack_error_sticks(fields: Seq<FieldSpec>, values: Seq<ValueView>, k: int, n: int)
    requires
        1 <= k <= n,
        pack_all(fields, values, k) is Err,
    ensures
        pack_all(fields, values, n) == pack_all(fields, values, k),
    decreases n - k,
{
    if n > k {
        lemma_pack_error_sticks(fields, values, k, n - 1);
    }
}

/// A frame read back: each field's name and value, and whether the
/// trailer matches the payload.
#[derive(Debug, Clone, PartialEq, Eq)]
pub struct InspectedFrame {
    pub fields: Vec<(String, FieldValue)>,
    pub checksum_ok: bool,
    pub expected_trailer: Vec<u8>,
    pub actual_trailer: Vec<u8>,
}

/// An inspected frame as plain values.
pub struct InspectView {
    pub fields: Seq<(Seq<char>, ValueView)>,
    pub checksum_ok: bool,
    pub expected_trailer: Seq<u8>,
    pub actual_trailer: Seq<u8>,
}

pub open spec fn inspected_view(f: InspectedFrame) -> InspectView {
    InspectView {
        fields: f.fields@.map_values(|p: (String, FieldValue)| (p.0@, value_view(p.1))),
        checksum_ok: f.checksum_ok,
        expected_trailer: f.expected_trailer@,
        actual_trailer: f.actual_trailer@,
    }
}

/// The first `k` fields read from `payload`, each from its own bytes at
/// the offset the fields before it take.
pub open spec fn unpack_all(fields: Seq<FieldSpec>, payload: Seq<u8>, k: int) -> Seq<(Seq<char>, ValueView)>
    decreases k,
{
    if k <= 0 {
        Seq::empty()
    } else {
        let off = fields_width(fields.take(k - 1)) as int;
        let w = kind_width(fields[k - 1].kind) as int;
        unpack_all(fields, payload, k - 1).push(
            (fields[k - 1].name@, unpack_spec(fields[k - 1].kind, payload.subrange(off, off + w))),
        )
    }
}

/// What inspecting `bytes` under `fields` and `checksum` gives: an error
/// only when the total length is wrong; a checksum mismatch is reported,
/// not refused.
pub open spec fn inspect_spec(fields: Seq<FieldSpec>, checksum: ChecksumKind, bytes: Seq<u8>) -> Result<InspectView, Seq<char>> {
    let w = fields_width(fields);
    let expected_len = w + trailer_len(checksum);
    if bytes.len() != expected_len {
        Err("expected "@ + decimal(expected_len) + " byte(s), got "@ + decimal(bytes.len()))
    } else {
        let payload = bytes.take(w as int);
        let actual = bytes.skip(w as int);
        let expected = trailer_spec(checksum, payload);
        Ok(
            InspectView {
                fields: unpack_all(fields, payload, fields.len() as int),
                checksum_ok: expected == actual,
                expected_trailer: expected,
                actual_trailer: actual,
            },
        )
    }
}

/// What inspecting demands beyond what it checks: the expected length fits
/// a `usize`.
pub open spec fn inspect_requires(fields: Seq<FieldSpec>, checksum: ChecksumKind, bytes: Seq<u8>) -> bool {
    fields_width(fields) + trailer_len(checksum) <= usize::MAX
}

/// Unpacks the wire `bytes` per `spec` and checks the trailing checksum.
/// Fails only on a wrong total length; a bad checksum is reported in
/// `checksum_ok`.
pub fn inspect_frame(spec: &FrameSpec, bytes: &[u8]) -> (r: Result<InspectedFrame, String>)
    requires
        inspect_requires(spec.fields@, spec.checksum, bytes@),
    ensures
        match (r, inspect_spec(spec.fields@, spec.checksum, bytes@)) {
            (Ok(f), Ok(v)) => inspected_view(f) == v,
            (Err(e), Err(msg)) => e@ == msg,
            _ => false,
        },
{
    let w = spec.payload_width();
    let expected_len = w + spec.checksum.trailer_width();
    if bytes.len() != expected_len {
        let mut e = String::new();
        push_str(&mut e, "expected ");
        push_decimal(&mut e, expected_len as u128);
        push_str(&mut e, " byte(s), got ");
        push_decimal(&mut e, bytes.len() as u128);
        assert(e@ =~= "expected "@ + decimal(expected_len as nat) + " byte(s), got "@ + decimal(
            bytes@.len(),
        ));
        return Err(e);
    }
    let (payload, actual_trailer) = bytes.split_at(w);
    assert(payload@ =~= bytes@.take(w as int));
    assert(actual_trailer@ =~= bytes@.skip(w as int));
    let mut fields: Vec<(String, FieldValue)> = Vec::new();
    let mut offset: usize = 0;
    let mut i: usize = 0;
    while i < spec.fields.len()
        invariant
            i <= spec.fields@.len(),
            w == fields_width(spec.fields@),
            payload@.len() == w,
            offset == fields_width(spec.fields@.take(i as int)),
            fields@.map_values(|p: (String, FieldValue)| (p.0@, value_view(p.1))) == unpack_all(
                spec.fields@,
                payload@,
                i as int,
            ),
        decreases spec.fields.len() - i,
    {
        let field = &spec.fields[i];
        let width = field.kind.byte_width();
        proof {
            lemma_fields_width_prefix(spec.fields@, i as int + 1);
            assert(spec.fields@.take(i + 1).drop_last() =~= spec.fields@.take(i as int));
        }
        let v = unpack_field(field.kind, &payload[offset..offset + width]);
        let entry = (field.name.clone(), v);
        let ghost before = fields@;
        fields.push(entry);
        assert(fields@.map_values(|p: (String, FieldValue)| (p.0@, value_view(p.1))) =~= before.map_values(
            |p: (String, FieldValue)| (p.0@, value_view(p.1)),
        ).push((field.name@, value_view(v))));
        offset = offset + width;
        i = i + 1;
    }
    let expected_trailer = spec.checksum.compute(payload);
    let mut actual: Vec<u8> = Vec::new();
    let mut j: usize = 0;
    while j < actual_trailer.len()
        invariant
            j <= actual_trailer@.len(),
            actual@ == actual_trailer@.take(j as int),
        decreases actual_trailer.len() - j,
    {
        actual.push(actual_trailer[j]);
        j = j + 1;
        assert(actual@ =~= actual_trailer@.take(j as int));
    }
    assert(actual_trailer@.take(j as int) =~= actual_trailer@);
    let checksum_ok = same_bytes(&expected_trailer, &actual);
    Ok(InspectedFrame { fields, checksum_ok, expected_trailer, actual_trailer: actual })
}

/// Whether two byte vectors hold the same bytes.
pub fn same_bytes(a: &Vec<u8>, b: &Vec<u8>) -> (same: bool)
    ensures
        same == (a@ == b@),
{
    if a.len() != b.len() {
        return false;
    }
    let mut i: usize = 0;
    while i < a.len()
        invariant
            a@.len() == b@.len(),
            i <= a@.len(),
            forall|j: int| 0 <= j < i ==> a@[j] == b@[j],
        decreases a.len() - i,
    {
        if a[i] != b[i] {
            return false;
        }
        i = i + 1;
    }
    assert(a@ =~= b@);
    true
}

/// Each field's name paired with the value given for it.
pub open spec fn named_values(fields: Seq<FieldSpec>, values: Seq<ValueView>, k: int) -> Seq<(Seq<char>, ValueView)> {
    Seq::new(k as nat, |i: int| (fields[i].name@, values[i]))
}

/// A packed value has its field's width and reads back as itself.
pub proof fn lemma_pack_unpack(k: FieldKind, v: ValueView)
    requires
        pack_spec(k, v) is Ok,
    ensures
        pack_spec(k, v)->Ok_0.len() == kind_width(k),
        unpack_spec(k, pack_spec(k, v)->Ok_0) == v,
{
    match (k, v) {
        (FieldKind::U8, ValueView::Number(n)) => {},
        (FieldKind::U16Le, ValueView::Number(n)) => {
            assert((n % 256) + (n / 256) * 256 == n);
        },
        (FieldKind::U16Be, ValueView::Number(n)) => {
            assert((n / 256) * 256 + (n % 256) == n);
        },
        (FieldKind::U32Le, ValueView::Number(n)) => {
            let b = le4(n as nat);
            assert(b[0] + b[1] * 256 + b[2] * 0x1_0000 + b[3] * 0x100_0000 == n) by (nonlinear_arith)
                requires
                    n <= 0xFFFF_FFFF,
                    b[0] == n % 256,
                    b[1] == (n / 256) % 256,
                    b[2] == (n / 0x1_0000) % 256,
                    b[3] == n / 0x100_0000,
            ;
        },
        (FieldKind::U32Be, ValueView::Number(n)) => {
            let b = be4(n as nat);
            assert(b[0] * 0x100_0000 + b[1] * 0x1_0000 + b[2] * 256 + b[3] == n) by (nonlinear_arith)
                requires
                    n <= 0xFFFF_FFFF,
                    b[3] == n % 256,
                    b[2] == (n / 256) % 256,
                    b[1] == (n / 0x1_0000) % 256,
                    b[0] == n / 0x100_0000,
            ;
        },
        _ => {},
    }
}

/// The first `k` fields, packed, take exactly their widths and read back
/// as the values packed, from any byte string that starts with them.
pub proof fn lemma_pack_all_unpack_all(
    fields: Seq<FieldSpec>,
    values: Seq<ValueView>,
    k: int,
    q: Seq<u8>,
)
    requires
        0 <= k <= fields.len(),
        k <= values.len(),
        pack_all(fields, values, k) is Ok,
        pack_all(fields, values, k)->Ok_0.len() <= q.len(),
        q.take(pack_all(fields, values, k)->Ok_0.len() as int) == pack_all(fields, values, k)->Ok_0,
    ensures
        pack_all(fields, values, k)->Ok_0.len() == fields_width(fields.take(k)),
        unpack_all(fields, q, k) == named_values(fields, values, k),
    decreases k,
{
    if k == 0 {
        assert(fields.take(0) =~= Seq::<FieldSpec>::empty());
        assert(named_values(fields, values, 0) =~= Seq::<(Seq<char>, ValueView)>::empty());
    } else {
        let p = pack_all(fields, values, k)->Ok_0;
        let p1 = pack_all(fields, values, k - 1)->Ok_0;
        let b = pack_spec(fields[k - 1].kind, values[k - 1])->Ok_0;
        assert(p == p1 + b);
        lemma_pack_unpack(fields[k - 1].kind, values[k - 1]);
        assert(q.take(p1.len() as int) =~= p1) by {
            assert forall|i: int| 0 <= i < p1.len() implies q.take(p1.len() as int)[i] == p1[i] by {
                assert(q.take(p.len() as int)[i] == p[i]);
            }
        }
        lemma_pack_all_unpack_all(fields, values, k - 1, q);
        assert(fields.take(k).drop_last() =~= fields.take(k - 1));
        let off = fields_width(fields.take(k - 1)) as int;
        let w = kind_width(fields[k - 1].kind) as int;
        assert(q.subrange(off, off + w) =~= b) by {
            assert forall|i: int| 0 <= i < w implies q.subrange(off, off + w)[i] == b[i] by {
                assert(q.take(p.len() as int)[off + i] == p[off + i]);
            }
        }
        assert(named_values(fields, values, k) =~= named_values(fields, values, k - 1).push(
            (fields[k - 1].name@, values[k - 1]),
        ));
    }
}

/// A built frame inspects back to the values it was built from, with a
/// matching checksum.
pub proof fn built_frame_inspects_back(fields: Seq<FieldSpec>, checksum: ChecksumKind, values: Seq<ValueView>)
    requires
        build_spec(fields, checksum, values) is Ok,
    ensures
        inspect_spec(fields, checksum, build_spec(fields, checksum, values)->Ok_0) matches Ok(v) && v.checksum_ok
            && v.fields == named_values(fields, values, fields.len() as int),
{
    let frame = build_spec(fields, checksum, values)->Ok_0;
    let p = pack_all(fields, values, fields.len() as int)->Ok_0;
    assert(frame == p + trailer_spec(checksum, p));
    assert(frame.take(p.len() as int) =~= p);
    assert(p.take(p.len() as int) =~= p);
    lemma_pack_all_unpack_all(fields, values, fields.len() as int, p);
    assert(fields.take(fields.len() as int) =~= fields);
    assert(frame.skip(p.len() as int) =~= trailer_spec(checksum, p));
}

/// Flipping any bits of any one trailer byte of a built frame is caught
/// as a checksum mismatch, while the fields still read back unchanged.
pub proof fn corrupted_trailer_is_caught(
    fields: Seq<FieldSpec>,
    checksum: ChecksumKind,
    values: Seq<ValueView>,
    j: int,
    b: u8,
)
    requires
        build_spec(fields, checksum, values) is Ok,
        fields_width(fields) <= j < build_spec(fields, checksum, values)->Ok_0.len(),
        b != build_spec(fields, checksum, values)->Ok_0[j],
    ensures
        inspect_spec(fields, checksum, build_spec(fields, checksum, values)->Ok_0.update(j, b)) matches Ok(
            v,
        ) && !v.checksum_ok && v.fields == named_values(fields, values, fields.len() as int),
{
    let frame = build_spec(fields, checksum, values)->Ok_0;
    let bad = frame.update(j, b);
    let p = pack_all(fields, values, fields.len() as int)->Ok_0;
    assert(frame == p + trailer_spec(checksum, p));
    assert(p.take(p.len() as int) =~= p);
    lemma_pack_all_unpack_all(fields, values, fields.len() as int, p);
    assert(fields.take(fields.len() as int) =~= fields);
    assert(bad.take(p.len() as int) =~= p);
    assert(bad.skip(p.len() as int)[j - p.len()] == b);
    assert(trailer_spec(checksum, p)[j - p.len()] == frame[j]);
}

} // verus!
