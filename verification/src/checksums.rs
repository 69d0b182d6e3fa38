//! Bit-by-bit CRC and ones-complement checksums, each stated as the shift
//! register it is defined by and proved against that definition.

use vstd::prelude::*;
use vstd::arithmetic::div_mod::lemma_fundamental_div_mod;
use vstd::arithmetic::div_mod::lemma_mod_multiples_vanish;

verus! {

// ---------------------------------------------------------------------
// CRC-32/ISO-HDLC: reflected polynomial 0xEDB88320, init and final xor
// 0xFFFFFFFF.
// ---------------------------------------------------------------------

/// One clock of the reflected CRC-32 shift register.
pub open spec fn crc32_step(c: u32) -> u32 {
    if c & 1 != 0 { (c >> 1u32) ^ 0xEDB8_8320u32 } else { c >> 1u32 }
}

/// `n` clocks of the CRC-32 register.
pub open spec fn crc32_clock(c: u32, n: nat) -> u32
    decreases n,
{
    if n == 0 { c } else { crc32_step(crc32_clock(c, (n - 1) as nat)) }
}

/// The CRC-32 register after absorbing one byte.
pub open spec fn crc32_byte(c: u32, b: u8) -> u32 {
    crc32_clock(c ^ (b as u32), 8)
}

/// The CRC-32 register, started at `reg`, after absorbing `data` in order.
pub open spec fn crc32_feed(reg: u32, data: Seq<u8>) -> u32
    decreases data.len(),
{
    if data.len() == 0 { reg } else { crc32_byte(crc32_feed(reg, data.drop_last()), data.last()) }
}

/// CRC-32/ISO-HDLC of `data`.
pub open spec fn crc32_spec(data: Seq<u8>) -> u32 {
    crc32_feed(0xFFFF_FFFFu32, data) ^ 0xFFFF_FFFFu32
}

// ---------------------------------------------------------------------
// CRC-16/XMODEM: polynomial 0x1021, MSB first, init 0, no final xor.
// ---------------------------------------------------------------------

/// One clock of the MSB-first CRC-16 register with polynomial 0x1021.
pub open spec fn xmodem_step(c: u16) -> u16 {
    if c & 0x8000 != 0 { (c << 1u16) ^ 0x1021u16 } else { c << 1u16 }
}

pub open spec fn xmodem_clock(c: u16, n: nat) -> u16
    decreases n,
{
    if n == 0 { c } else { xmodem_step(xmodem_clock(c, (n - 1) as nat)) }
}

pub open spec fn xmodem_byte(c: u16, b: u8) -> u16 {
    xmodem_clock(c ^ ((b as u16) << 8u16), 8)
}

pub open spec fn xmodem_feed(reg: u16, data: Seq<u8>) -> u16
    decreases data.len(),
{
    if data.len() == 0 { reg } else { xmodem_byte(xmodem_feed(reg, data.drop_last()), data.last()) }
}

/// CRC-16/XMODEM of `data`.
pub open spec fn crc16_xmodem_spec(data: Seq<u8>) -> u16 {
    xmodem_feed(0u16, data)
}

// ---------------------------------------------------------------------
// CRC-16/MODBUS: reflected polynomial 0xA001, init 0xFFFF, no final xor.
// ---------------------------------------------------------------------

/// One clock of the reflected CRC-16 register with polynomial 0xA001.
pub open spec fn modbus_step(c: u16) -> u16 {
    if c & 1 != 0 { (c >> 1u16) ^ 0xA001u16 } else { c >> 1u16 }
}

pub open spec fn modbus_clock(c: u16, n: nat) -> u16
    decreases n,
{
    if n == 0 { c } else { modbus_step(modbus_clock(c, (n - 1) as nat)) }
}

pub open spec fn modbus_byte(c: u16, b: u8) -> u16 {
    modbus_clock(c ^ (b as u16), 8)
}

pub open spec fn modbus_feed(reg: u16, data: Seq<u8>) -> u16
    decreases data.len(),
{
    if data.len() == 0 { reg } else { modbus_byte(modbus_feed(reg, data.drop_last()), data.last()) }
}

/// CRC-16/MODBUS of `data`.
pub open spec fn crc16_modbus_spec(data: Seq<u8>) -> u16 {
    modbus_feed(0xFFFFu16, data)
}

// ---------------------------------------------------------------------
// RFC 1071 Internet checksum.
// ---------------------------------------------------------------------

/// Sum of the big-endian 16-bit words of `data` from byte `i` on; a
/// trailing odd byte counts as the high byte of a word whose low byte is 0.
pub open spec fn word_sum_from(data: Seq<u8>, i: int) -> nat
    decreases data.len() - i,
{
    if i < 0 || i >= data.len() {
        0
    } else if i + 1 == data.len() {
        (data[i] as nat) * 256
    } else {
        (data[i] as nat) * 256 + (data[i + 1] as nat) + word_sum_from(data, i + 2)
    }
}

/// Sum of all the big-endian 16-bit words of `data`.
pub open spec fn word_sum(data: Seq<u8>) -> nat {
    word_sum_from(data, 0)
}

/// Folds the carries above bit 16 back into the low 16 bits until none
/// are left (end-around carry).
pub open spec fn ones_fold(s: nat) -> nat
    decreases s,
{
    if s < 0x10000 {
        s
    } else {
        proof {
            lemma_fold_shrinks(s);
        }
        ones_fold(s % 0x10000 + s / 0x10000)
    }
}

/// RFC 1071 Internet checksum of `data`: the ones complement of the
/// ones-complement sum of its words.
pub open spec fn internet_checksum_spec(data: Seq<u8>) -> u16 {
    (0xFFFF - ones_fold(word_sum(data))) as u16
}

/// The two bytes of `v`, most significant first.
pub open spec fn be_bytes_u16(v: u16) -> Seq<u8> {
    seq![(v / 256) as u8, (v % 256) as u8]
}

/// One end-around-carry fold strictly shrinks a sum of 17 bits or more.
pub proof fn lemma_fold_shrinks(s: nat)
    requires
        s >= 0x10000,
    ensures
        s % 0x10000 + s / 0x10000 < s,
        s % 0x10000 + s / 0x10000 > 0,
{
    lemma_fundamental_div_mod(s as int, 0x10000);
}

// ---------------------------------------------------------------------
// Executable checksums.
// ---------------------------------------------------------------------

/// CRC-32/ISO-HDLC (zlib, gzip, PNG, Ethernet): reflected polynomial
/// `0xEDB88320`, init `0xFFFFFFFF`, final xor `0xFFFFFFFF`.
pub fn crc32(data: &[u8]) -> (crc: u32)
    ensures
        crc == crc32_spec(data@),
{
    let mut crc: u32 = 0xFFFF_FFFF;
    let mut i: usize = 0;
    while i < data.len()
        invariant
            i <= data.len(),
            crc == crc32_feed(0xFFFF_FFFFu32, data@.take(i as int)),
        decreases data.len() - i,
    {
        let byte = data[i];
        crc = crc ^ (byte as u32);
        let ghost start = crc;
        let mut k: u32 = 0;
        while k < 8
            invariant
                k <= 8,
                crc == crc32_clock(start, k as nat),
            decreases 8 - k,
        {
            crc = if crc & 1 != 0 { (crc >> 1) ^ 0xEDB8_8320 } else { crc >> 1 };
            k = k + 1;
        }
        assert(data@.take(i + 1).drop_last() =~= data@.take(i as int));
        i = i + 1;
    }
    assert(data@.take(data.len() as int) =~= data@);
    crc ^ 0xFFFF_FFFF
}

/// CRC-16/XMODEM: polynomial `0x1021`, init `0x0000`, MSB first, no
/// reflection, no final xor.
pub fn crc16_xmodem(data: &[u8]) -> (crc: u16)
    ensures
        crc == crc16_xmodem_spec(data@),
{
    let mut crc: u16 = 0;
    let mut i: usize = 0;
    while i < data.len()
        invariant
            i <= data.len(),
            crc == xmodem_feed(0u16, data@.take(i as int)),
        decreases data.len() - i,
    {
        let byte = data[i];
        crc = crc ^ ((byte as u16) << 8);
        let ghost start = crc;
        let mut k: u32 = 0;
        while k < 8
            invariant
                k <= 8,
                crc == xmodem_clock(start, k as nat),
            decreases 8 - k,
        {
            crc = if crc & 0x8000 != 0 { (crc << 1) ^ 0x1021 } else { crc << 1 };
            k = k + 1;
        }
        assert(data@.take(i + 1).drop_last() =~= data@.take(i as int));
        i = i + 1;
    }
    assert(data@.take(data.len() as int) =~= data@);
    crc
}

/// CRC-16/MODBUS: reflected polynomial `0xA001`, init `0xFFFF`, LSB
/// first, no final xor.
pub fn crc16_modbus(data: &[u8]) -> (crc: u16)
    ensures
        crc == crc16_modbus_spec(data@),
{
    let mut crc: u16 = 0xFFFF;
    let mut i: usize = 0;
    while i < data.len()
        invariant
            i <= data.len(),
            crc == modbus_feed(0xFFFFu16, data@.take(i as int)),
        decreases data.len() - i,
    {
        let byte = data[i];
        crc = crc ^ (byte as u16);
        let ghost start = crc;
        let mut k: u32 = 0;
        while k < 8
            invariant
                k <= 8,
                crc == modbus_clock(start, k as nat),
            decreases 8 - k,
        {
            crc = if crc & 1 != 0 { (crc >> 1) ^ 0xA001 } else { crc >> 1 };
            k = k + 1;
        }
        assert(data@.take(i + 1).drop_last() =~= data@.take(i as int));
        i = i + 1;
    }
    assert(data@.take(data.len() as int) =~= data@);
    crc
}

/// RFC 1071 Internet checksum: ones complement of the ones-complement sum
/// of the big-endian 16-bit words, an odd trailing byte padded with a zero
/// low byte. Carries are folded back in as the words are added, so input
/// of any length is summed without overflow.
pub fn internet_checksum(data: &[u8]) -> (sum: u16)
    ensures
        sum == internet_checksum_spec(data@),
{
    let mut sum: u32 = 0;
    let mut i: usize = 0;
    while i < data.len()
        invariant
            i <= data.len(),
            sum <= 0xFFFF,
            ones_fold(sum as nat + word_sum_from(data@, i as int)) == ones_fold(word_sum(data@)),
        decreases data.len() - i,
    {
        let ghost rest_before = word_sum_from(data@, i as int);
        let word: u32 = if data.len() - i >= 2 {
            (data[i] as u32) * 256 + (data[i + 1] as u32)
        } else {
            (data[i] as u32) * 256
        };
        i = if data.len() - i >= 2 { i + 2 } else { i + 1 };
        assert(rest_before == word + word_sum_from(data@, i as int));
        let added = sum + word;
        if added > 0xFFFF {
            sum = added - 0xFFFF;
            proof {
                lemma_fold_drops_modulus(sum as nat + word_sum_from(data@, i as int));
            }
        } else {
            sum = added;
        }
    }
    assert(ones_fold(sum as nat) == sum);
    let low = sum as u16;
    assert(!low == 0xFFFF - low) by (bit_vector);
    !low
}

/// Adding 0xFFFF to a non-zero sum leaves its ones-complement fold as it
/// was.
proof fn lemma_fold_drops_modulus(x: nat)
    requires
        x > 0,
    ensures
        ones_fold(x + 0xFFFF) == ones_fold(x),
{
    let y = x + 0xFFFF;
    lemma_ones_fold(x);
    lemma_ones_fold(y);
    lemma_mod_multiples_vanish(1, x as int, 0xFFFF);
    let a = ones_fold(x);
    let b = ones_fold(y);
    assert(y % 0xFFFF == x % 0xFFFF);
    if a < 0xFFFF && b < 0xFFFF {
        assert(a % 0xFFFF == a);
        assert(b % 0xFFFF == b);
    } else if a == 0xFFFF {
        assert(b % 0xFFFF == 0);
        if b < 0xFFFF {
            assert(b % 0xFFFF == b);
        }
    } else {
        assert(a % 0xFFFF == 0);
        if a < 0xFFFF {
            assert(a % 0xFFFF == a);
        }
    }
}

// ---------------------------------------------------------------------
// Laws.
// ---------------------------------------------------------------------

proof fn lemma_crc32_step_injective(a: u32, b: u32)
    ensures
        crc32_step(a) == crc32_step(b) ==> a == b,
{
    assert(((if a & 1 != 0 { (a >> 1u32) ^ 0xEDB8_8320u32 } else { a >> 1u32 }) == (if b & 1 != 0 {
        (b >> 1u32) ^ 0xEDB8_8320u32
    } else {
        b >> 1u32
    })) ==> a == b) by (bit_vector);
}

proof fn lemma_crc32_clock_injective(a: u32, b: u32, n: nat)
    ensures
        crc32_clock(a, n) == crc32_clock(b, n) ==> a == b,
    decreases n,
{
    if n > 0 {
        lemma_crc32_step_injective(crc32_clock(a, (n - 1) as nat), crc32_clock(b, (n - 1) as nat));
        lemma_crc32_clock_injective(a, b, (n - 1) as nat);
    }
}

proof fn lemma_crc32_feed_append(reg: u32, a: Seq<u8>, b: Seq<u8>)
    ensures
        crc32_feed(reg, a + b) == crc32_feed(crc32_feed(reg, a), b),
    decreases b.len(),
{
    if b.len() == 0 {
        assert(a + b =~= a);
    } else {
        assert((a + b).drop_last() =~= a + b.drop_last());
        lemma_crc32_feed_append(reg, a, b.drop_last());
    }
}

proof fn lemma_crc32_feed_injective(r1: u32, r2: u32, s: Seq<u8>)
    ensures
        crc32_feed(r1, s) == crc32_feed(r2, s) ==> r1 == r2,
    decreases s.len(),
{
    if s.len() > 0 {
        let c1 = crc32_feed(r1, s.drop_last());
        let c2 = crc32_feed(r2, s.drop_last());
        let x = s.last();
        lemma_crc32_clock_injective(c1 ^ (x as u32), c2 ^ (x as u32), 8);
        assert((c1 ^ (x as u32)) == (c2 ^ (x as u32)) ==> c1 == c2) by (bit_vector);
        lemma_crc32_feed_injective(r1, r2, s.drop_last());
    }
}

/// Changing any single byte of the input changes its CRC-32: the register
/// update is a bijection in both the register and the incoming byte.
pub proof fn crc32_detects_any_single_byte_change(data: Seq<u8>, i: int, b: u8)
    requires
        0 <= i < data.len(),
        b != data[i],
    ensures
        crc32_spec(data.update(i, b)) != crc32_spec(data),
{
    let d2 = data.update(i, b);
    let p = data.take(i);
    let s = data.skip(i + 1);
    assert(data =~= p + seq![data[i]] + s);
    assert(d2 =~= p + seq![b] + s);
    let r = crc32_feed(0xFFFF_FFFFu32, p);
    lemma_crc32_feed_append(0xFFFF_FFFFu32, p + seq![data[i]], s);
    lemma_crc32_feed_append(0xFFFF_FFFFu32, p + seq![b], s);
    assert((p + seq![data[i]]).drop_last() =~= p);
    assert((p + seq![b]).drop_last() =~= p);
    let x = data[i];
    assert((r ^ (x as u32)) != (r ^ (b as u32))) by (bit_vector)
        requires
            x != b,
    ;
    lemma_crc32_clock_injective(r ^ (x as u32), r ^ (b as u32), 8);
    lemma_crc32_feed_injective(crc32_byte(r, x), crc32_byte(r, b), s);
    let f1 = crc32_feed(0xFFFF_FFFFu32, data);
    let f2 = crc32_feed(0xFFFF_FFFFu32, d2);
    assert(f1 != f2 ==> (f1 ^ 0xFFFF_FFFFu32) != (f2 ^ 0xFFFF_FFFFu32)) by (bit_vector);
}

proof fn lemma_xmodem_clock_injective(a: u16, b: u16, n: nat)
    ensures
        xmodem_clock(a, n) == xmodem_clock(b, n) ==> a == b,
    decreases n,
{
    if n > 0 {
        let x = xmodem_clock(a, (n - 1) as nat);
        let y = xmodem_clock(b, (n - 1) as nat);
        assert(((if x & 0x8000 != 0 { (x << 1u16) ^ 0x1021u16 } else { x << 1u16 }) == (if y
            & 0x8000 != 0 {
            (y << 1u16) ^ 0x1021u16
        } else {
            y << 1u16
        })) ==> x == y) by (bit_vector);
        lemma_xmodem_clock_injective(a, b, (n - 1) as nat);
    }
}

proof fn lemma_xmodem_feed_append(reg: u16, a: Seq<u8>, b: Seq<u8>)
    ensures
        xmodem_feed(reg, a + b) == xmodem_feed(xmodem_feed(reg, a), b),
    decreases b.len(),
{
    if b.len() == 0 {
        assert(a + b =~= a);
    } else {
        assert((a + b).drop_last() =~= a + b.drop_last());
        lemma_xmodem_feed_append(reg, a, b.drop_last());
    }
}

proof fn lemma_xmodem_feed_injective(r1: u16, r2: u16, s: Seq<u8>)
    ensures
        xmodem_feed(r1, s) == xmodem_feed(r2, s) ==> r1 == r2,
    decreases s.len(),
{
    if s.len() > 0 {
        let c1 = xmodem_feed(r1, s.drop_last());
        let c2 = xmodem_feed(r2, s.drop_last());
        let x = s.last();
        lemma_xmodem_clock_injective(c1 ^ ((x as u16) << 8u16), c2 ^ ((x as u16) << 8u16), 8);
        assert((c1 ^ ((x as u16) << 8u16)) == (c2 ^ ((x as u16) << 8u16)) ==> c1 == c2)
            by (bit_vector);
        lemma_xmodem_feed_injective(r1, r2, s.drop_last());
    }
}

/// Changing any single byte of the input changes its CRC-16/XMODEM.
pub proof fn crc16_xmodem_detects_any_single_byte_change(data: Seq<u8>, i: int, b: u8)
    requires
        0 <= i < data.len(),
        b != data[i],
    ensures
        crc16_xmodem_spec(data.update(i, b)) != crc16_xmodem_spec(data),
{
    let d2 = data.update(i, b);
    let p = data.take(i);
    let s = data.skip(i + 1);
    assert(data =~= p + seq![data[i]] + s);
    assert(d2 =~= p + seq![b] + s);
    let r = xmodem_feed(0u16, p);
    lemma_xmodem_feed_append(0u16, p + seq![data[i]], s);
    lemma_xmodem_feed_append(0u16, p + seq![b], s);
    assert((p + seq![data[i]]).drop_last() =~= p);
    assert((p + seq![b]).drop_last() =~= p);
    let x = data[i];
    assert((r ^ ((x as u16) << 8u16)) != (r ^ ((b as u16) << 8u16))) by (bit_vector)
        requires
            x != b,
    ;
    lemma_xmodem_clock_injective(r ^ ((x as u16) << 8u16), r ^ ((b as u16) << 8u16), 8);
    lemma_xmodem_feed_injective(xmodem_byte(r, x), xmodem_byte(r, b), s);
}

proof fn lemma_modbus_clock_injective(a: u16, b: u16, n: nat)
    ensures
        modbus_clock(a, n) == modbus_clock(b, n) ==> a == b,
    decreases n,
{
    if n > 0 {
        let x = modbus_clock(a, (n - 1) as nat);
        let y = modbus_clock(b, (n - 1) as nat);
        assert(((if x & 1 != 0 { (x >> 1u16) ^ 0xA001u16 } else { x >> 1u16 }) == (if y & 1
            != 0 {
            (y >> 1u16) ^ 0xA001u16
        } else {
            y >> 1u16
        })) ==> x == y) by (bit_vector);
        lemma_modbus_clock_injective(a, b, (n - 1) as nat);
    }
}

proof fn lemma_modbus_feed_append(reg: u16, a: Seq<u8>, b: Seq<u8>)
    ensures
        modbus_feed(reg, a + b) == modbus_feed(modbus_feed(reg, a), b),
    decreases b.len(),
{
    if b.len() == 0 {
        assert(a + b =~= a);
    } else {
        assert((a + b).drop_last() =~= a + b.drop_last());
        lemma_modbus_feed_append(reg, a, b.drop_last());
    }
}

proof fn lemma_modbus_feed_injective(r1: u16, r2: u16, s: Seq<u8>)
    ensures
        modbus_feed(r1, s) == modbus_feed(r2, s) ==> r1 == r2,
    decreases s.len(),
{
    if s.len() > 0 {
        let c1 = modbus_feed(r1, s.drop_last());
        let c2 = modbus_feed(r2, s.drop_last());
        let x = s.last();
        lemma_modbus_clock_injective(c1 ^ (x as u16), c2 ^ (x as u16), 8);
        assert((c1 ^ (x as u16)) == (c2 ^ (x as u16)) ==> c1 == c2) by (bit_vector);
        lemma_modbus_feed_injective(r1, r2, s.drop_last());
    }
}

/// Changing any single byte of the input changes its CRC-16/MODBUS.
pub proof fn crc16_modbus_detects_any_single_byte_change(data: Seq<u8>, i: int, b: u8)
    requires
        0 <= i < data.len(),
        b != data[i],
    ensures
        crc16_modbus_spec(data.update(i, b)) != crc16_modbus_spec(data),
{
    let d2 = data.update(i, b);
    let p = data.take(i);
    let s = data.skip(i + 1);
    assert(data =~= p + seq![data[i]] + s);
    assert(d2 =~= p + seq![b] + s);
    let r = modbus_feed(0xFFFFu16, p);
    lemma_modbus_feed_append(0xFFFFu16, p + seq![data[i]], s);
    lemma_modbus_feed_append(0xFFFFu16, p + seq![b], s);
    assert((p + seq![data[i]]).drop_last() =~= p);
    assert((p + seq![b]).drop_last() =~= p);
    let x = data[i];
    assert((r ^ (x as u16)) != (r ^ (b as u16))) by (bit_vector)
        requires
            x != b,
    ;
    lemma_modbus_clock_injective(r ^ (x as u16), r ^ (b as u16), 8);
    lemma_modbus_feed_injective(modbus_byte(r, x), modbus_byte(r, b), s);
}

/// An XMODEM register holding only a low byte moves it to the high byte
/// in eight clocks, the polynomial never firing.
proof fn lemma_xmodem_low_byte(x: u16, k: u16)
    requires
        x < 256,
        k <= 8,
    ensures
        xmodem_clock(x, k as nat) == x << k,
    decreases k,
{
    if k > 0 {
        let j = (k - 1) as u16;
        lemma_xmodem_low_byte(x, j);
        assert(xmodem_step(x << j) == x << k) by (bit_vector)
            requires
                x < 256,
                j < 8,
                k == j + 1,
        ;
    } else {
        assert(x << k == x) by (bit_vector)
            requires
                k == 0,
        ;
    }
}

/// A MODBUS register holding only a high byte moves it to the low byte in
/// eight clocks, the polynomial never firing.
proof fn lemma_modbus_high_byte(x: u16, k: u16)
    requires
        x & 0xFF == 0,
        k <= 8,
    ensures
        modbus_clock(x, k as nat) == x >> k,
    decreases k,
{
    if k > 0 {
        let j = (k - 1) as u16;
        lemma_modbus_high_byte(x, j);
        assert(modbus_step(x >> j) == x >> k) by (bit_vector)
            requires
                x & 0xFF == 0,
                j < 8,
                k == j + 1,
        ;
    } else {
        assert(x >> k == x) by (bit_vector)
            requires
                k == 0,
        ;
    }
}

/// A register of zero stays zero, however many clocks.
proof fn lemma_zero_clocks(n: nat)
    ensures
        xmodem_clock(0, n) == 0,
        modbus_clock(0, n) == 0,
    decreases n,
{
    if n > 0 {
        lemma_zero_clocks((n - 1) as nat);
        assert(xmodem_step(0) == 0) by (bit_vector);
        assert(modbus_step(0) == 0) by (bit_vector);
    }
}

/// CRC-16/XMODEM residue: `data` followed by its CRC, high byte first,
/// has a CRC of zero.
pub proof fn crc16_xmodem_of_data_and_its_crc_is_zero(data: Seq<u8>)
    ensures
        crc16_xmodem_spec(data + be_bytes_u16(crc16_xmodem_spec(data))) == 0,
{
    let c = crc16_xmodem_spec(data);
    let hi = (c / 256) as u8;
    let lo = (c % 256) as u8;
    let framed = data + be_bytes_u16(c);
    assert(framed.drop_last().drop_last() =~= data);
    assert(framed.drop_last().last() == hi);
    assert(framed.last() == lo);
    let hi16 = hi as u16;
    let lo16 = lo as u16;
    assert(hi16 == c / 256 && lo16 == c % 256);
    let a = c ^ (hi16 << 8u16);
    assert(a == c % 256) by (bit_vector)
        requires
            hi16 == c / 256,
            a == c ^ (hi16 << 8u16),
    ;
    lemma_xmodem_low_byte(a, 8);
    let r = xmodem_byte(c, hi);
    assert(r == a << 8u16);
    assert(r ^ (lo16 << 8u16) == 0) by (bit_vector)
        requires
            r == (c % 256) << 8u16,
            lo16 == c % 256,
    ;
    lemma_zero_clocks(8);
    assert(xmodem_feed(0, framed.drop_last()) == r);
    assert(xmodem_byte(r, lo) == xmodem_clock(0, 8));
    assert(xmodem_feed(0, framed) == xmodem_byte(r, lo));
}

/// CRC-16/MODBUS residue: `data` followed by its CRC, low byte first, has
/// a CRC of zero.
pub proof fn crc16_modbus_of_data_and_its_crc_is_zero(data: Seq<u8>)
    ensures
        crc16_modbus_spec(data + seq![(crc16_modbus_spec(data) % 256) as u8, (crc16_modbus_spec(data) / 256) as u8])
            == 0,
{
    let c = crc16_modbus_spec(data);
    let lo = (c % 256) as u8;
    let hi = (c / 256) as u8;
    let framed = data + seq![lo, hi];
    assert(framed.drop_last().drop_last() =~= data);
    assert(framed.drop_last().last() == lo);
    assert(framed.last() == hi);
    let hi16 = hi as u16;
    let lo16 = lo as u16;
    assert(hi16 == c / 256 && lo16 == c % 256);
    let a = c ^ lo16;
    assert(a & 0xFF == 0 && a >> 8u16 == c / 256) by (bit_vector)
        requires
            lo16 == c % 256,
            a == c ^ lo16,
    ;
    lemma_modbus_high_byte(a, 8);
    let r = modbus_byte(c, lo);
    assert(r == a >> 8u16);
    assert(r ^ hi16 == 0) by (bit_vector)
        requires
            r == c / 256,
            hi16 == c / 256,
    ;
    lemma_zero_clocks(8);
    assert(modbus_feed(0xFFFF, framed.drop_last()) == r);
    assert(modbus_byte(r, hi) == modbus_clock(0, 8));
    assert(modbus_feed(0xFFFF, framed) == modbus_byte(r, hi));
}

/// The folded sum stays within 16 bits, agrees with the plain sum modulo
/// 0xFFFF, and is zero only for a zero sum.
pub proof fn lemma_ones_fold(s: nat)
    ensures
        ones_fold(s) <= 0xFFFF,
        ones_fold(s) % 0xFFFF == s % 0xFFFF,
        (ones_fold(s) == 0) == (s == 0),
    decreases s,
{
    if s >= 0x10000 {
        lemma_fold_shrinks(s);
        let q = s / 0x10000;
        let r = s % 0x10000;
        lemma_fundamental_div_mod(s as int, 0x10000);
        lemma_ones_fold(r + q);
        assert(s == 0xFFFF * q + (q + r));
        lemma_mod_multiples_vanish(q as int, (q + r) as int, 0xFFFF);
    }
}

proof fn lemma_word_sum_append_word(data: Seq<u8>, hi: u8, lo: u8, i: int)
    requires
        data.len() % 2 == 0,
        0 <= i <= data.len(),
        i % 2 == 0,
    ensures
        word_sum_from(data + seq![hi, lo], i) == word_sum_from(data, i) + (hi as nat) * 256
            + (lo as nat),
    decreases data.len() - i,
{
    let d2 = data + seq![hi, lo];
    if i == data.len() {
        assert(d2[i] == hi);
        assert(d2[i + 1] == lo);
        assert(word_sum_from(d2, i + 2) == 0);
    } else {
        assert(d2[i] == data[i]);
        assert(d2[i + 1] == data[i + 1]);
        lemma_word_sum_append_word(data, hi, lo, i + 2);
    }
}

/// RFC 1071 section 4.1: recomputing the checksum over an even-length
/// payload followed by its own checksum (big-endian) gives zero.
pub proof fn internet_checksum_of_checksummed_payload_is_zero(data: Seq<u8>)
    requires
        data.len() % 2 == 0,
    ensures
        internet_checksum_spec(data + be_bytes_u16(internet_checksum_spec(data))) == 0,
{
    let s = word_sum(data);
    lemma_ones_fold(s);
    let c = internet_checksum_spec(data);
    assert(c == 0xFFFF - ones_fold(s));
    let hi = (c / 256) as u8;
    let lo = (c % 256) as u8;
    assert(be_bytes_u16(c) == seq![hi, lo]);
    lemma_word_sum_append_word(data, hi, lo, 0);
    let s2 = word_sum(data + be_bytes_u16(c));
    assert(s2 == s + c);
    lemma_ones_fold(s2);
    lemma_mod_multiples_vanish(1, s2 as int - 0xFFFF, 0xFFFF);
    assert(s2 % 0xFFFF == 0) by {
        lemma_fundamental_div_mod(s as int, 0xFFFF);
        lemma_fundamental_div_mod(ones_fold(s) as int, 0xFFFF);
        let k = s as int / 0xFFFF;
        let m = ones_fold(s) as int / 0xFFFF;
        assert(s2 == 0xFFFF * (k - m + 1) + 0);
        lemma_mod_multiples_vanish(k - m + 1, 0, 0xFFFF);
    }
    assert(ones_fold(s2) == 0xFFFF);
}

} // verus!
