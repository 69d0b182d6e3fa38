//! The checksum-inspector view: eight synthetic frames, each followed by
//! its CRC-32, one of them (rotating with each live tick) received with a
//! flipped trailer bit, shown as a table of verdicts.

use vstd::prelude::*;
use crate::checksums::{crc32, crc32_spec};
use crate::text::{
    debug_str, decimal, hex_bytes, hex_fixed, spaced_hex, push_char, push_debug_str, push_decimal_padded, push_hex_fixed, push_str,
    span_is, zero_pad,
};
use crate::text::lit;
use crate::view::{
    CellView, Severity, TableCell, TableView, ViewPrimitive, cell, cell_view, is_tick, le_bytes, le_value,
    lemma_le_round_trip, lemma_le_value_round_trip, pow256, row_view, table_view, u64_from_le,
    tick_command, u64_le_bytes,
};

verus! {

/// Frames shown.
pub const FRAME_COUNT: usize = 8;

/// Payload of synthetic frame `i`: `8 + i % 5` bytes, byte `j` being
/// `(31 i + 17 j + 7) mod 256`.
pub open spec fn payload_spec(i: nat) -> Seq<u8> {
    Seq::new(8 + i % 5, |j: int| ((i * 31 + j * 17 + 7) % 256) as u8)
}

/// The deterministic payload of synthetic frame `i`.
pub fn synthetic_payload(i: usize) -> (p: Vec<u8>)
    requires
        i * 31 + 11 * 17 + 7 <= usize::MAX,
    ensures
        p@ == payload_spec(i as nat),
{
    let len = 8 + (i % 5);
    let mut p: Vec<u8> = Vec::new();
    let mut j: usize = 0;
    while j < len
        invariant
            len == 8 + i % 5,
            j <= len,
            i * 31 + 11 * 17 + 7 <= usize::MAX,
            p@ =~= payload_spec(i as nat).take(j as int),
        decreases len - j,
    {
        p.push(((i * 31 + j * 17 + 7) % 256) as u8);
        j = j + 1;
    }
    p
}

/// The row of synthetic frame `i` when frame `corrupted` arrives with its
/// lowest trailer bit flipped.
pub open spec fn inspector_row(i: nat, corrupted: nat) -> Seq<CellView> {
    let computed = crc32_spec(payload_spec(i));
    let received = if i == corrupted { computed ^ 1u32 } else { computed };
    seq![
        ("frame-"@ + zero_pad(decimal(i), 2), None),
        (spaced_hex(payload_spec(i)), None),
        (hex_fixed(computed as nat, 8), None),
        if received == computed {
            ("ok"@, Some(Severity::Info))
        } else {
            ("mismatch (got "@ + hex_fixed(received as nat, 8) + ")"@, Some(Severity::Error))
        },
    ]
}

/// The headers of the inspector table.
pub open spec fn inspector_headers() -> Seq<Seq<char>> {
    seq!["Frame"@, "Bytes (hex)"@, "CRC-32"@, "Status"@]
}

/// Which frame is corrupted at `phase`.
pub open spec fn corrupted_index(phase: u64) -> nat {
    ((phase as usize) % 8) as nat
}

/// Whether `p` is the inspector table at `phase`.
pub open spec fn is_inspector_table(p: ViewPrimitive, phase: u64) -> bool {
    p matches ViewPrimitive::Table(t) && table_view(t) == (
        inspector_headers(),
        Seq::new(8, |i: int| inspector_row(i as nat, corrupted_index(phase))),
    )
}

/// The inspector table at `phase`.
pub fn build_table(phase: u64) -> (p: ViewPrimitive)
    ensures
        is_inspector_table(p, phase),
{
    let corrupted = (phase as usize) % FRAME_COUNT;
    let mut rows: Vec<Vec<TableCell>> = Vec::new();
    let mut i: usize = 0;
    while i < FRAME_COUNT
        invariant
            i <= 8,
            corrupted == corrupted_index(phase),
            rows@.map_values(|r: Vec<TableCell>| row_view(r)) =~= Seq::new(
                i as nat,
                |k: int| inspector_row(k as nat, corrupted as nat),
            ),
        decreases 8 - i,
    {
        let payload = synthetic_payload(i);
        let computed = crc32(payload.as_slice());
        let received = if i == corrupted { computed ^ 1 } else { computed };
        let ok = received == computed;
        let mut label = lit("frame-");
        push_decimal_padded(&mut label, i as u128, 2);
        let mut crc_text = String::new();
        push_hex_fixed(&mut crc_text, computed as u64, 8);
        let status = if ok {
            cell(lit("ok"), Some(Severity::Info))
        } else {
            let mut t = lit("mismatch (got ");
            push_hex_fixed(&mut t, received as u64, 8);
            push_str(&mut t, ")");
            cell(t, Some(Severity::Error))
        };
        let mut row: Vec<TableCell> = Vec::new();
        row.push(cell(label, None));
        row.push(cell(hex_bytes(payload.as_slice()), None));
        row.push(cell(crc_text, None));
        row.push(status);
        assert(row_view(row) =~= inspector_row(i as nat, corrupted as nat));
        let ghost before = rows@;
        rows.push(row);
        assert(rows@.map_values(|r: Vec<TableCell>| row_view(r)) =~= before.map_values(
            |r: Vec<TableCell>| row_view(r),
        ).push(row_view(row)));
        i = i + 1;
    }
    let mut headers: Vec<String> = Vec::new();
    headers.push(lit("Frame"));
    headers.push(lit("Bytes (hex)"));
    headers.push(lit("CRC-32"));
    headers.push(lit("Status"));
    let t = TableView { headers, rows };
    assert(table_view(t).0 =~= inspector_headers());
    ViewPrimitive::Table(t)
}

/// The view state: the phase as eight little-endian bytes.
pub fn encode_state(phase: u64) -> (state: Vec<u8>)
    ensures
        state@ == le_bytes(phase as nat, 8),
{
    u64_le_bytes(phase)
}

/// The phase kept in `state`; anything but exactly eight bytes is corrupt.
pub fn decode_state(state: &[u8]) -> (r: Result<u64, String>)
    ensures
        state@.len() == 8 ==> r == Ok::<u64, String>(le_value(state@) as u64),
        state@.len() != 8 ==> (r matches Err(e) && e@ == "corrupt view-state: expected 8 bytes, got "@
            + decimal(state@.len())),
{
    if state.len() != 8 {
        let mut e = lit("corrupt view-state: expected 8 bytes, got ");
        crate::text::push_decimal(&mut e, state.len() as u128);
        return Err(e);
    }
    Ok(u64_from_le(state))
}

/// Decoding an encoded phase gives it back.
pub proof fn phase_state_round_trip(phase: u64)
    ensures
        le_bytes(phase as nat, 8).len() == 8,
        le_value(le_bytes(phase as nat, 8)) == phase,
{
    assert(pow256(8) == 0x1_0000_0000_0000_0000) by {
        reveal_with_fuel(pow256, 9);
    }
    lemma_le_round_trip(phase as nat, 8);
}

/// Every eight-byte state is the encoding of the phase it decodes to.
pub proof fn phase_state_is_canonical(state: Seq<u8>)
    requires
        state.len() == 8,
    ensures
        le_value(state) <= u64::MAX,
        le_bytes(le_value(state), 8) == state,
{
    assert(pow256(8) == 0x1_0000_0000_0000_0000) by {
        reveal_with_fuel(pow256, 9);
    }
    lemma_le_value_round_trip(state);
}

/// The view's identifier.
pub fn view_id() -> (id: String)
    ensures
        id@ == "checksum-inspector"@,
{
    lit("checksum-inspector")
}

/// Renders the table at the phase kept in `state`.
pub fn render(state: Vec<u8>) -> (r: Result<Vec<ViewPrimitive>, String>)
    ensures
        state@.len() == 8 ==> (r matches Ok(v) && v@.len() == 1 && is_inspector_table(
            v@[0],
            le_value(state@) as u64,
        )),
        state@.len() != 8 ==> r is Err,
{
    let phase = decode_state(state.as_slice())?;
    let mut out: Vec<ViewPrimitive> = Vec::new();
    out.push(build_table(phase));
    Ok(out)
}

/// The tick advances the phase by one and renders the table there; any
/// other command is unknown.
pub fn handle_command(state: Vec<u8>, command: String) -> (r: Result<(Vec<u8>, Vec<ViewPrimitive>), String>)
    requires
        state@.len() == 8 && command@ == tick_command() ==> le_value(state@) < u64::MAX,
    ensures
        state@.len() != 8 ==> r is Err,
        state@.len() == 8 && command@ == tick_command() ==> (r matches Ok((s, v)) && s@ == le_bytes(
            (le_value(state@) + 1) as nat,
            8,
        ) && v@.len() == 1 && is_inspector_table(v@[0], (le_value(state@) + 1) as u64)),
        state@.len() == 8 && command@ != tick_command() ==> (r matches Err(e) && e@ == "unknown command: "@
            + debug_str(command@) + " (this view has no commands)"@),
{
    let phase = decode_state(state.as_slice())?;
    if is_tick(command.as_str()) {
        let next_phase = phase + 1;
        let mut out: Vec<ViewPrimitive> = Vec::new();
        out.push(build_table(next_phase));
        Ok((encode_state(next_phase), out))
    } else {
        let mut e = lit("unknown command: ");
        push_debug_str(&mut e, command.as_str());
        push_str(&mut e, " (this view has no commands)");
        Err(e)
    }
}

} // verus!
