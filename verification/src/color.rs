//! Colour swatches as shown: each swatch's 8-bit sRGB colour as a band
//! of heatmap cells and as `#RRGGBB` text.

use vstd::prelude::*;
use crate::text::push_char;
use crate::view::{HeatmapCells, HeatmapView, ViewPrimitive};

verus! {

/// An 8-bit sRGB colour.
#[derive(Debug, Clone, Copy, PartialEq, Eq)]
pub struct Rgb {
    pub r: u8,
    pub g: u8,
    pub b: u8,
}

/// Heatmap cells per swatch row.
pub const SWATCH_WIDTH: u32 = 8;

/// The bytes of one swatch row: its colour in every cell.
pub open spec fn swatch_row(c: Rgb) -> Seq<u8> {
    Seq::new(24, |i: int| if i % 3 == 0 { c.r } else if i % 3 == 1 { c.g } else { c.b })
}

/// The bytes of the rows of `colors`, in order.
pub open spec fn swatch_bytes(colors: Seq<Rgb>) -> Seq<u8>
    decreases colors.len(),
{
    if colors.len() == 0 {
        Seq::empty()
    } else {
        swatch_bytes(colors.drop_last()) + swatch_row(colors.last())
    }
}

/// One row of `SWATCH_WIDTH` cells per colour.
pub fn swatch_heatmap(colors: &[Rgb]) -> (p: ViewPrimitive)
    ensures
        p matches ViewPrimitive::Heatmap(h) && h.width == 8 && h.height == colors@.len() as u32 && (h.cells matches HeatmapCells::Rgb(
            b,
        ) && b@ == swatch_bytes(colors@)),
{
    let mut bytes: Vec<u8> = Vec::new();
    let mut i: usize = 0;
    while i < colors.len()
        invariant
            i <= colors@.len(),
            bytes@ == swatch_bytes(colors@.take(i as int)),
        decreases colors.len() - i,
    {
        let c = colors[i];
        let ghost before = bytes@;
        let mut k: u32 = 0;
        while k < SWATCH_WIDTH
            invariant
                k <= 8,
                bytes@ == before + swatch_row(c).take(3 * k),
            decreases 8 - k,
        {
            bytes.push(c.r);
            bytes.push(c.g);
            bytes.push(c.b);
            assert(bytes@ =~= before + swatch_row(c).take(3 * k + 3));
            k = k + 1;
        }
        assert(swatch_row(c).take(24) =~= swatch_row(c));
        assert(colors@.take(i + 1).drop_last() =~= colors@.take(i as int));
        i = i + 1;
    }
    assert(colors@.take(i as int) =~= colors@);
    ViewPrimitive::Heatmap(
        HeatmapView {
            width: SWATCH_WIDTH,
            height: #[verifier::truncate] (colors.len() as u32),
            cells: HeatmapCells::Rgb(bytes),
        },
    )
}

/// The uppercase hex digit of `d` (below 16).
pub open spec fn upper_hex_char(d: nat) -> char {
    if d < 10 {
        (48 + d) as char
    } else {
        (55 + d) as char
    }
}

/// Two uppercase hex digits of a byte.
pub open spec fn upper_hex2(b: u8) -> Seq<char> {
    seq![upper_hex_char(b as nat / 16), upper_hex_char(b as nat % 16)]
}

fn push_upper_hex2(s: &mut String, b: u8)
    ensures
        final(s)@ == old(s)@ + upper_hex2(b),
{
    let hi = (b / 16) as u32;
    let lo = (b % 16) as u32;
    let ch = if hi < 10 { char_of(48 + hi) } else { char_of(55 + hi) };
    let cl = if lo < 10 { char_of(48 + lo) } else { char_of(55 + lo) };
    push_char(s, ch);
    push_char(s, cl);
    assert(s@ =~= old(s)@ + upper_hex2(b));
}

fn char_of(v: u32) -> (c: char)
    requires
        48 <= v <= 57 || 65 <= v <= 70,
    ensures
        c == v as char,
{
    if v == 48 { '0' } else if v == 49 { '1' } else if v == 50 { '2' } else if v == 51 { '3' } else if v == 52 { '4' }
    else if v == 53 { '5' } else if v == 54 { '6' } else if v == 55 { '7' } else if v == 56 { '8' } else if v == 57 { '9' }
    else if v == 65 { 'A' } else if v == 66 { 'B' } else if v == 67 { 'C' } else if v == 68 { 'D' } else if v == 69 { 'E' }
    else if v == 70 { 'F' } else { '?' }
}

/// A colour as `#RRGGBB`, uppercase.
pub fn hex_color(c: Rgb) -> (s: String)
    ensures
        s@ == seq!['#'] + upper_hex2(c.r) + upper_hex2(c.g) + upper_hex2(c.b),
{
    let mut s = String::new();
    push_char(&mut s, '#');
    push_upper_hex2(&mut s, c.r);
    push_upper_hex2(&mut s, c.g);
    push_upper_hex2(&mut s, c.b);
    assert(s@ =~= seq!['#'] + upper_hex2(c.r) + upper_hex2(c.g) + upper_hex2(c.b));
    s
}

} // verus!
