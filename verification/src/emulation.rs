//! The decisions of the test-bench emulators that stand in for real
//! capture sources: a seeded xorshift64 generator, the frame blocks the
//! frame-source emulator appends to a `.frame-format` file, and the
//! three-wire bus the logic-analyzer emulator records as VCD. Writing,
//! sleeping and looping are the caller's.

use vstd::prelude::*;
use crate::frame::{FieldKind, FieldSpec, FrameSpec, kind_width};
use crate::text::{decimal, hex_fixed, push_char, push_decimal, push_hex_fixed, push_str};
use crate::text::lit;

verus! {

/// One xorshift64 step (shifts 13, 7, 17).
pub open spec fn xorshift(s: u64) -> u64 {
    let a = s ^ (s << 13u64);
    let b = a ^ (a >> 7u64);
    b ^ (b << 17u64)
}

/// The generator's state after `n` steps from `s`.
pub open spec fn xorshift_n(s: u64, n: nat) -> u64
    decreases n,
{
    if n == 0 {
        s
    } else {
        xorshift(xorshift_n(s, (n - 1) as nat))
    }
}

/// Advances the generator one step and returns the new state.
pub fn next_u64(state: &mut u64) -> (v: u64)
    ensures
        v == xorshift(*old(state)),
        *final(state) == v,
{
    *state = *state ^ (*state << 13u64);
    *state = *state ^ (*state >> 7u64);
    *state = *state ^ (*state << 17u64);
    *state
}

/// The largest value a numeric field `width` bytes wide holds.
pub open spec fn max_spec(width: nat) -> u64 {
    if width == 1 {
        0xFF
    } else if width == 2 {
        0xFFFF
    } else if width == 4 {
        0xFFFF_FFFF
    } else {
        u64::MAX
    }
}

/// The largest value a numeric field `width_bytes` wide holds.
pub fn max_for_width(width_bytes: usize) -> (m: u64)
    ensures
        m == max_spec(width_bytes as nat),
{
    match width_bytes {
        1 => 0xFF,
        2 => 0xFFFF,
        4 => 0xFFFF_FFFF,
        _ => u64::MAX,
    }
}

/// The hex text of `n` random bytes drawn from state `s`: one two-digit
/// byte per step.
pub open spec fn random_hex(s: u64, n: nat) -> Seq<char>
    decreases n,
{
    if n == 0 {
        Seq::empty()
    } else {
        random_hex(s, (n - 1) as nat) + hex_fixed((xorshift_n(s, n) % 256) as nat, 2)
    }
}

/// The text a field of `kind` gets from state `s`: hex bytes for a bytes
/// field, else a decimal value within the field's width, pushed just past
/// it when `overflow`.
pub open spec fn field_text_spec(kind: FieldKind, s: u64, overflow: bool) -> Seq<char> {
    match kind {
        FieldKind::Bytes(w) => random_hex(s, w as nat),
        _ => {
            let max = max_spec(kind_width(kind));
            let value = (xorshift(s) as int) % (max as int + 1);
            if overflow {
                decimal((value + max as int + 1) as nat)
            } else {
                decimal(value as nat)
            }
        },
    }
}

/// Steps the generator uses for a field of `kind`.
pub open spec fn field_steps(kind: FieldKind) -> nat {
    match kind {
        FieldKind::Bytes(w) => w as nat,
        _ => 1,
    }
}

fn random_hex_text(start: u64, width: usize) -> (r: (String, u64))
    ensures
        r.0@ == random_hex(start, width as nat),
        r.1 == xorshift_n(start, width as nat),
{
    let mut st = start;
    let mut t = String::new();
    let mut k: usize = 0;
    while k < width
        invariant
            k <= width,
            t@ == random_hex(start, k as nat),
            st == xorshift_n(start, k as nat),
        decreases width - k,
    {
        let v = next_u64(&mut st);
        push_hex_fixed(&mut t, v % 256, 2);
        k = k + 1;
    }
    (t, st)
}

/// The value text of one generated field (see [`field_text_spec`]).
pub fn random_field_text(kind: FieldKind, rng_state: &mut u64, overflow: bool) -> (t: String)
    ensures
        t@ == field_text_spec(kind, *old(rng_state), overflow),
        *final(rng_state) == xorshift_n(*old(rng_state), field_steps(kind)),
{
    match kind {
        FieldKind::Bytes(width) => {
            let (t, st) = random_hex_text(*rng_state, width);
            *rng_state = st;
            t
        },
        _ => {
            let width = kind.byte_width();
            let max = max_for_width(width);
            assert(xorshift_n(*old(rng_state), 1) == xorshift(*old(rng_state))) by {
                reveal_with_fuel(xorshift_n, 2);
            }
            let v = next_u64(rng_state);
            let value = v % (max + 1);
            let mut t = String::new();
            if overflow {
                push_decimal(&mut t, (value + max + 1) as u128);
            } else {
                push_decimal(&mut t, value as u128);
            }
            t
        },
    }
}

/// The generator's first state in the frame-source emulator.
pub open spec fn frame_seed() -> u64 {
    0x6672_616d_655f
}

/// The first state of the frame-source emulator's generator.
pub fn frame_emulator_seed() -> (s: u64)
    ensures
        s == frame_seed(),
{
    0x6672_616d_655f
}

/// The field lines of fields `k..` of a generated frame, from generator
/// state `s`, with field `bad` pushed past its width; and the state after.
pub open spec fn field_lines(fields: Seq<FieldSpec>, k: nat, s: u64, bad: int) -> (Seq<char>, u64)
    decreases fields.len() - k,
{
    if k >= fields.len() {
        (Seq::empty(), s)
    } else {
        let f = fields[k as int];
        let line = f.name@ + seq!['='] + field_text_spec(f.kind, s, bad == k) + seq!['\n'];
        let rest = field_lines(fields, k + 1, xorshift_n(s, field_steps(f.kind)), bad);
        (line + rest.0, rest.1)
    }
}

/// The block the emulator appends as observed frame `n`: one roll in
/// fifteen picks (with a second roll) a field whose value overflows its
/// width; then the header line and one line per field.
pub open spec fn frame_block_spec(fields: Seq<FieldSpec>, n: u64, s: u64) -> (Seq<char>, u64) {
    let r = xorshift(s);
    let (bad, s2) = if r % 15 == 0 {
        let r2 = xorshift(r);
        (((r2 as usize) as nat % fields.len()) as int, r2)
    } else {
        (-1int, r)
    };
    let lines = field_lines(fields, 0, s2, bad);
    ("\nframe,emulated-"@ + decimal(n as nat) + seq!['\n'] + lines.0, lines.1)
}

/// The text of observed frame `n` (see [`frame_block_spec`]).
pub fn frame_block(spec: &FrameSpec, n: u64, rng_state: &mut u64) -> (text: String)
    requires
        spec.fields@.len() > 0 || xorshift(*old(rng_state)) % 15 != 0,
    ensures
        text@ == frame_block_spec(spec.fields@, n, *old(rng_state)).0,
        *final(rng_state) == frame_block_spec(spec.fields@, n, *old(rng_state)).1,
{
    let roll = next_u64(rng_state);
    let bad: Option<usize> = if roll % 15 == 0 {
        let r2 = next_u64(rng_state);
        Some((r2 as usize) % spec.fields.len())
    } else {
        None
    };
    let ghost bad_i: int = match bad {
        Some(b) => b as int,
        None => -1,
    };
    let mut text = lit("\nframe,emulated-");
    push_decimal(&mut text, n as u128);
    push_char(&mut text, '\n');
    let ghost head = text@;
    let ghost s2 = *rng_state;
    let mut i: usize = 0;
    while i < spec.fields.len()
        invariant
            i <= spec.fields@.len(),
            head + field_lines(spec.fields@, 0, s2, bad_i).0 == text@ + field_lines(
                spec.fields@,
                i as nat,
                *rng_state,
                bad_i,
            ).0,
            field_lines(spec.fields@, i as nat, *rng_state, bad_i).1 == field_lines(spec.fields@, 0, s2, bad_i).1,
            bad_i == match bad {
                Some(b) => b as int,
                None => -1,
            },
        decreases spec.fields.len() - i,
    {
        let field = &spec.fields[i];
        let overflow = match bad {
            Some(b) => b == i,
            None => false,
        };
        let ghost before = text@;
        let ghost s_before = *rng_state;
        let value = random_field_text(field.kind, rng_state, overflow);
        push_str(&mut text, field.name.as_str());
        push_char(&mut text, '=');
        push_str(&mut text, value.as_str());
        push_char(&mut text, '\n');
        proof {
            let line = field.name@ + seq!['='] + field_text_spec(field.kind, s_before, bad_i == i) + seq!['\n'];
            assert(text@ =~= before + line);
            let rest = field_lines(spec.fields@, (i + 1) as nat, *rng_state, bad_i);
            assert(field_lines(spec.fields@, i as nat, s_before, bad_i).0 == line + rest.0);
            assert(text@ + rest.0 =~= before + (line + rest.0));
        }
        i = i + 1;
    }
    assert(text@ =~= head + field_lines(spec.fields@, 0, s2, bad_i).0);
    text
}

// ---------------------------------------------------------------------
// The logic-analyzer emulator.
// ---------------------------------------------------------------------

/// The emulated bus: generator state, current time, and the levels of
/// clock, chip select and data.
#[derive(Debug, Clone, Copy, PartialEq, Eq)]
pub struct BusState {
    pub rng: u64,
    pub time: u64,
    pub clk: bool,
    pub cs: bool,
    pub data: bool,
}

/// The bus at the start: seeded generator, time zero, clock and data low,
/// chip select high.
pub fn initial_bus() -> (b: BusState)
    ensures
        b == (BusState { rng: 0x564d_5f76_6364, time: 0, clk: false, cs: true, data: false }),
{
    BusState { rng: 0x564d_5f76_6364, time: 0, clk: false, cs: true, data: false }
}

/// The header the logic-analyzer emulator writes first: three one-bit
/// wires and their starting levels.
pub fn vcd_header() -> (t: String)
    ensures
        t@ == "$timescale 1 ns $end\n$var wire 1 ! clk $end\n$var wire 1 \" data $end\n$var wire 1 # cs $end\n$enddefinitions $end\n$dumpvars\n0!\n0\"\n1#\n$end\n"@,
{
    lit("$timescale 1 ns $end\n$var wire 1 ! clk $end\n$var wire 1 \" data $end\n$var wire 1 # cs $end\n$enddefinitions $end\n$dumpvars\n0!\n0\"\n1#\n$end\n")
}

/// `'1'` for a high level, `'0'` for a low one.
pub open spec fn level_char(b: bool) -> char {
    if b {
        '1'
    } else {
        '0'
    }
}

/// The bus one tick on: five time units later, the clock toggled, chip
/// select toggled on a roll divisible by 7, data on one divisible by 3.
pub open spec fn bus_next(b: BusState) -> BusState {
    let roll = xorshift(b.rng);
    BusState {
        rng: roll,
        time: (b.time + 5) as u64,
        clk: !b.clk,
        cs: if roll % 7 == 0 { !b.cs } else { b.cs },
        data: if roll % 3 == 0 { !b.data } else { b.data },
    }
}

/// What the tick into `b` records: the time marker and each wire's level,
/// data as unknown (`x`) on a roll divisible by 20.
pub open spec fn tick_lines(b: BusState) -> Seq<char> {
    seq!['#'] + decimal(b.time as nat) + seq!['\n', level_char(b.clk), '!', '\n', level_char(b.cs), '#', '\n'] + if b.rng
        % 20 == 0 {
        seq!['x', '"', '\n']
    } else {
        seq![level_char(b.data), '"', '\n']
    }
}

/// Advances the bus one tick and returns the records to append.
#[verifier::rlimit(30)]
pub fn bus_tick(bus: &mut BusState) -> (text: String)
    requires
        old(bus).time <= u64::MAX - 5,
    ensures
        *final(bus) == bus_next(*old(bus)),
        text@ == tick_lines(*final(bus)),
{
    bus.time = bus.time + 5;
    bus.clk = !bus.clk;
    let roll = next_u64(&mut bus.rng);
    let glitch = roll % 20 == 0;
    if roll % 7 == 0 {
        bus.cs = !bus.cs;
    }
    if roll % 3 == 0 {
        bus.data = !bus.data;
    }
    let data_char = if glitch {
        'x'
    } else if bus.data {
        '1'
    } else {
        '0'
    };
    let mut text = String::new();
    push_char(&mut text, '#');
    push_decimal(&mut text, bus.time as u128);
    let ghost stamp = text@;
    push_char(&mut text, '\n');
    push_char(&mut text, if bus.clk { '1' } else { '0' });
    push_char(&mut text, '!');
    push_char(&mut text, '\n');
    push_char(&mut text, if bus.cs { '1' } else { '0' });
    push_char(&mut text, '#');
    push_char(&mut text, '\n');
    push_char(&mut text, data_char);
    push_char(&mut text, '"');
    push_char(&mut text, '\n');
    proof {
        let levels = seq!['\n', level_char(bus.clk), '!', '\n', level_char(bus.cs), '#', '\n'];
        let last = if bus.rng % 20 == 0 {
            seq!['x', '"', '\n']
        } else {
            seq![level_char(bus.data), '"', '\n']
        };
        assert(stamp =~= seq!['#'] + decimal(bus.time as nat));
        assert(text@ =~= stamp + levels + last);
    }
    assert(text@ =~= tick_lines(*bus));
    text
}

} // verus!
