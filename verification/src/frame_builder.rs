//! The frame-builder view: every frame declared in a `.frame-format` file
//! is built, then inspected back; one frame's last trailer byte has its
//! low bit flipped each live tick, rotating which one, so the table shows
//! the inspector catching a different corruption every time.

use vstd::prelude::*;
use crate::frame::{
    FrameSpec, InspectedFrame, ValueView, build_frame, build_requires, build_spec, can_build, fields_width,
    lemma_build_requires_by_kinds, values_view,
    inspect_frame, inspect_requires, inspect_spec, lemma_pack_all_unpack_all, pack_all, trailer_len,
    trailer_spec,
};
use crate::frame_text::{
    DeclaredFrame, declared_view, fields_view, frame_format_spec, parse_frame_format,
};
use crate::text::{debug_str, hex_bytes, push_debug_str, push_str, spaced_hex};
use crate::text::lit;
use crate::view::{
    CellView, Severity, TableCell, TableView, ViewPrimitive, cell, is_message, is_tick, le_bytes, le_value, message_table,
    row_view, table_view, tick_command, u64_from_le, u64_le_bytes,
};

verus! {

/// The frame at this position has its trailer corrupted at `phase`, out
/// of `n` frames; none is when there are none.
pub open spec fn corrupted_at(n: nat, phase: u64) -> int {
    if n == 0 {
        -1
    } else {
        ((phase as usize) as nat % n) as int
    }
}

/// `frame` as sent: with the low bit of its last byte flipped when
/// `corrupt`.
pub open spec fn sent_bytes(frame: Seq<u8>, corrupt: bool) -> Seq<u8> {
    if corrupt {
        frame.update(frame.len() - 1, frame.last() ^ 1u8)
    } else {
        frame
    }
}

/// The verdict cell on `sent` read back under the layout.
pub open spec fn verdict(fields: Seq<crate::frame::FieldSpec>, checksum: crate::frame::ChecksumKind, sent: Seq<u8>) -> CellView {
    match inspect_spec(fields, checksum, sent) {
        Ok(v) => if v.checksum_ok {
            ("ok"@, Some(Severity::Info))
        } else {
            (
                "mismatch (expected "@ + spaced_hex(v.expected_trailer) + ", got "@ + spaced_hex(v.actual_trailer)
                    + ")"@,
                Some(Severity::Error),
            )
        },
        Err(e) => ("inspect failed: "@ + e, Some(Severity::Error)),
    }
}

/// The row of one declared frame (`label`, `values`).
pub open spec fn frame_row(
    fields: Seq<crate::frame::FieldSpec>,
    checksum: crate::frame::ChecksumKind,
    d: (Seq<char>, Seq<ValueView>),
    corrupt: bool,
) -> Seq<CellView> {
    match build_spec(fields, checksum, d.1) {
        Err(e) => seq![(d.0, None), ("build failed: "@ + e, Some(Severity::Error)), ("-"@, None)],
        Ok(frame) => {
            let sent = sent_bytes(frame, corrupt);
            seq![(d.0, None), (spaced_hex(sent), None), verdict(fields, checksum, sent)]
        },
    }
}

/// The table's headers.
pub open spec fn builder_headers() -> Seq<Seq<char>> {
    seq!["Frame"@, "Bytes (hex)"@, "Checksum"@]
}

/// Every declared frame can be built under the layout.
pub open spec fn frames_buildable(
    fields: Seq<crate::frame::FieldSpec>,
    checksum: crate::frame::ChecksumKind,
    frames: Seq<(Seq<char>, Seq<ValueView>)>,
) -> bool {
    forall|i: int| 0 <= i < frames.len() ==> build_requires(fields, checksum, #[trigger] frames[i].1)
}

/// `p` is the builder table of `frames` at `phase`.
pub open spec fn is_builder_table(
    p: ViewPrimitive,
    fields: Seq<crate::frame::FieldSpec>,
    checksum: crate::frame::ChecksumKind,
    frames: Seq<(Seq<char>, Seq<ValueView>)>,
    phase: u64,
) -> bool {
    p matches ViewPrimitive::Table(t) && table_view(t) == (
        builder_headers(),
        Seq::new(
            frames.len(),
            |i: int| frame_row(fields, checksum, frames[i], i == corrupted_at(frames.len(), phase)),
        ),
    )
}

fn copy_string(s: &String) -> (t: String)
    ensures
        t@ == s@,
{
    lit(s.as_str())
}

fn frame_row_exec(spec: &FrameSpec, frame: &DeclaredFrame, corrupt: bool) -> (row: Vec<TableCell>)
    requires
        build_requires(spec.fields@, spec.checksum, declared_view(*frame).1),
    ensures
        row_view(row) == frame_row(spec.fields@, spec.checksum, declared_view(*frame), corrupt),
{
    let ghost d = declared_view(*frame);
    let mut row: Vec<TableCell> = Vec::new();
    match build_frame(spec, frame.values.as_slice()) {
        Ok(mut bytes) => {
            let ghost frame_bytes = bytes@;
            let ghost fields = spec.fields@;
            let ghost p = pack_all(fields, d.1, fields.len() as int)->Ok_0;
            proof {
                assert(p.take(p.len() as int) =~= p);
                lemma_pack_all_unpack_all(fields, d.1, fields.len() as int, p);
                assert(fields.take(fields.len() as int) =~= fields);
                assert(frame_bytes == p + trailer_spec(spec.checksum, p));
            }
            let n = bytes.len();
            if corrupt {
                let last = bytes[n - 1];
                bytes.set(n - 1, last ^ 1);
            }
            proof {
                assert(bytes@ =~= sent_bytes(frame_bytes, corrupt));
                assert(bytes@.take(fields_width(fields) as int) =~= p);
            }
            let status = match inspect_frame(spec, bytes.as_slice()) {
                Ok(inspected) => {
                    if inspected.checksum_ok {
                        cell(lit("ok"), Some(Severity::Info))
                    } else {
                        let mut t = lit("mismatch (expected ");
                        let e = hex_bytes(inspected.expected_trailer.as_slice());
                        push_str(&mut t, e.as_str());
                        push_str(&mut t, ", got ");
                        let a = hex_bytes(inspected.actual_trailer.as_slice());
                        push_str(&mut t, a.as_str());
                        push_str(&mut t, ")");
                        cell(t, Some(Severity::Error))
                    }
                },
                Err(e) => {
                    let mut t = lit("inspect failed: ");
                    push_str(&mut t, e.as_str());
                    cell(t, Some(Severity::Error))
                },
            };
            row.push(cell(copy_string(&frame.label), None));
            row.push(cell(hex_bytes(bytes.as_slice()), None));
            row.push(status);
        },
        Err(e) => {
            let mut t = lit("build failed: ");
            push_str(&mut t, e.as_str());
            row.push(cell(copy_string(&frame.label), None));
            row.push(cell(t, Some(Severity::Error)));
            row.push(cell(lit("-"), None));
        },
    }
    assert(row_view(row) =~= frame_row(spec.fields@, spec.checksum, d, corrupt));
    row
}

/// Builds every declared frame, corrupts the trailer of the one chosen by
/// `phase`, and inspects each back.
pub fn build_table(spec: &FrameSpec, frames: &[DeclaredFrame], phase: u64) -> (p: ViewPrimitive)
    requires
        frames_buildable(spec.fields@, spec.checksum, frames@.map_values(|d: DeclaredFrame| declared_view(d))),
    ensures
        is_builder_table(
            p,
            spec.fields@,
            spec.checksum,
            frames@.map_values(|d: DeclaredFrame| declared_view(d)),
            phase,
        ),
{
    let ghost ds = frames@.map_values(|d: DeclaredFrame| declared_view(d));
    let corrupted: usize = if frames.len() == 0 { usize::MAX } else { (phase as usize) % frames.len() };
    let mut rows: Vec<Vec<TableCell>> = Vec::new();
    let mut i: usize = 0;
    while i < frames.len()
        invariant
            i <= frames@.len(),
            ds == frames@.map_values(|d: DeclaredFrame| declared_view(d)),
            frames_buildable(spec.fields@, spec.checksum, ds),
            frames@.len() > 0 ==> corrupted == corrupted_at(frames@.len(), phase),
            rows@.map_values(|r: Vec<TableCell>| row_view(r)) =~= Seq::new(
                i as nat,
                |k: int| frame_row(spec.fields@, spec.checksum, ds[k], k == corrupted_at(ds.len(), phase)),
            ),
        decreases frames.len() - i,
    {
        assert(ds[i as int] == declared_view(frames@[i as int]));
        let row = frame_row_exec(spec, &frames[i], i == corrupted);
        let ghost before = rows@;
        rows.push(row);
        assert(rows@.map_values(|r: Vec<TableCell>| row_view(r)) =~= before.map_values(
            |r: Vec<TableCell>| row_view(r),
        ).push(row_view(row)));
        i = i + 1;
    }
    let mut headers: Vec<String> = Vec::new();
    headers.push(lit("Frame"));
    headers.push(lit("Bytes (hex)"));
    headers.push(lit("Checksum"));
    let t = TableView { headers, rows };
    assert(table_view(t).0 =~= builder_headers());
    ViewPrimitive::Table(t)
}

/// The message shown when the project has no frame-format file.
pub open spec fn no_format_message() -> Seq<char> {
    "no .frame-format file found in this project"@
}

/// `v` is the builder table at `phase` of the declaration `fv`.
pub open spec fn shows_declaration(v: Seq<ViewPrimitive>, fv: crate::frame_text::FormatView, phase: u64) -> bool {
    &&& v.len() == 1
    &&& exists|spec: FrameSpec|
        #![trigger fields_view(spec.fields@)]
        fields_view(spec.fields@) == fv.0 && spec.checksum == fv.1 && is_builder_table(
            v[0],
            spec.fields@,
            spec.checksum,
            fv.2,
            phase,
        )
}

/// A found declaration, where it reads, declares frames that can all be
/// built under every layout it describes.
pub open spec fn found_buildable(found: Option<(String, Result<String, String>)>) -> bool {
    found matches Some((path, Ok(text))) ==> (frame_format_spec(text@) matches Ok(fv) ==> forall|
        spec: FrameSpec,
    |
        #![trigger fields_view(spec.fields@)]
        fields_view(spec.fields@) == fv.0 && spec.checksum == fv.1 ==> frames_buildable(
            spec.fields@,
            spec.checksum,
            fv.2,
        ))
}

/// The contents of the file the host found, where it could read one.
spec fn found_text(found: Option<(String, Result<String, String>)>) -> Option<Seq<char>> {
    match found {
        Some((_, Ok(text))) => Some(text@),
        _ => None,
    }
}

/// Whether [`render_at`] may take `found`: every frame a declaration it
/// holds declares can be built.
pub fn found_is_buildable(found: &Option<(String, Result<String, String>)>) -> (b: bool)
    ensures
        b == found_buildable(*found),
{
    let text = match found {
        Some((_, Ok(text))) => text,
        _ => {
            return true;
        },
    };
    let (spec, frames) = match parse_frame_format(text.as_str()) {
        Err(_) => {
            return true;
        },
        Ok(p) => p,
    };
    let ghost fv = frame_format_spec(text@)->Ok_0;
    assert(fv.2 == frames@.map_values(|d: DeclaredFrame| declared_view(d)));
    let mut i: usize = 0;
    while i < frames.len()
        invariant
            i <= frames@.len(),
            fv.2 == frames@.map_values(|d: DeclaredFrame| declared_view(d)),
            fv == frame_format_spec(text@)->Ok_0,
            found_text(*found) == Some(text@),
            frame_format_spec(text@) is Ok,
            fields_view(spec.fields@) == fv.0,
            spec.checksum == fv.1,
            forall|j: int| 0 <= j < i ==> build_requires(spec.fields@, spec.checksum, #[trigger] fv.2[j].1),
        decreases frames.len() - i,
    {
        assert(fv.2[i as int].1 == values_view(frames@[i as int].values@));
        if !can_build(&spec, frames[i].values.as_slice()) {
            assert(!frames_buildable(spec.fields@, spec.checksum, fv.2));
            return false;
        }
        i = i + 1;
    }
    assert forall|other: FrameSpec|
        #![trigger fields_view(other.fields@)]
        fields_view(other.fields@) == fv.0 && other.checksum == fv.1 implies frames_buildable(
            other.fields@,
            other.checksum,
            fv.2,
        ) by {
        assert(other.fields@.len() == spec.fields@.len()) by {
            assert(fields_view(other.fields@).len() == fields_view(spec.fields@).len());
        }
        assert forall|k: int| 0 <= k < other.fields@.len() implies #[trigger] other.fields@[k].kind
            == spec.fields@[k].kind by {
            assert(fields_view(other.fields@)[k] == fields_view(spec.fields@)[k]);
        }
        assert forall|j: int| 0 <= j < fv.2.len() implies build_requires(
            other.fields@,
            other.checksum,
            #[trigger] fv.2[j].1,
        ) by {
            lemma_build_requires_by_kinds(other.fields@, spec.fields@, other.checksum, fv.2[j].1);
        }
    }
    true
}

/// What the view renders at `phase` given the frame-format file the host
/// found (its path, and its contents or the error reading it).
pub open spec fn renders(phase: u64, found: Option<(String, Result<String, String>)>, r: Result<Vec<ViewPrimitive>, String>) -> bool {
    match found {
        None => r matches Ok(v) && is_message(v@, no_format_message()),
        Some((path, Err(read_error))) => r matches Err(e) && e@ == read_error@,
        Some((path, Ok(text))) => match frame_format_spec(text@) {
            Err(m) => r matches Err(e) && e@ == m,
            Ok(fv) => r matches Ok(v) && if fv.2.len() == 0 {
                is_message(v@, path@ + ": no frames declared"@)
            } else {
                shows_declaration(v@, fv, phase)
            },
        },
    }
}

/// The table at `phase` for the frame-format file the host found in the
/// project: `found` holds its path and its contents, or the error reading
/// them.
pub fn render_at(phase: u64, found: Option<(String, Result<String, String>)>) -> (r: Result<Vec<ViewPrimitive>, String>)
    requires
        found_buildable(found),
    ensures
        renders(phase, found, r),
{
    match found {
        None => {
            let mut v: Vec<ViewPrimitive> = Vec::new();
            v.push(message_table(lit("no .frame-format file found in this project")));
            Ok(v)
        },
        Some((path, read)) => {
            let contents = match read {
                Ok(c) => c,
                Err(e) => {
                    return Err(e);
                },
            };
            let (spec, frames) = match parse_frame_format(contents.as_str()) {
                Ok(p) => p,
                Err(e) => {
                    return Err(e);
                },
            };
            if frames.len() == 0 {
                let mut t = copy_string(&path);
                push_str(&mut t, ": no frames declared");
                let mut v: Vec<ViewPrimitive> = Vec::new();
                v.push(message_table(t));
                return Ok(v);
            }
            let mut v: Vec<ViewPrimitive> = Vec::new();
            v.push(build_table(&spec, frames.as_slice(), phase));
            Ok(v)
        },
    }
}

/// The view's identifier.
pub fn view_id() -> (id: String)
    ensures
        id@ == "frame-builder"@,
{
    lit("frame-builder")
}

/// The view state: the phase as eight little-endian bytes.
pub fn encode_state(phase: u64) -> (state: Vec<u8>)
    ensures
        state@ == le_bytes(phase as nat, 8),
{
    u64_le_bytes(phase)
}

/// The phase kept in `state`; anything but exactly eight bytes is corrupt.
pub fn decode_state(state: &[u8]) -> (r: Result<u64, String>)
    ensures
        state@.len() == 8 ==> r == Ok::<u64, String>(le_value(state@) as u64),
        state@.len() != 8 ==> (r matches Err(e) && e@ == "corrupt view-state: expected 8 bytes, got "@
            + crate::text::decimal(state@.len())),
{
    crate::checksum_inspector::decode_state(state)
}

/// Renders the table at the phase kept in `state`.
pub fn render(state: Vec<u8>, found: Option<(String, Result<String, String>)>) -> (r: Result<Vec<ViewPrimitive>, String>)
    requires
        found_buildable(found),
    ensures
        state@.len() != 8 ==> r is Err,
        state@.len() == 8 ==> renders(le_value(state@) as u64, found, r),
{
    let phase = decode_state(state.as_slice())?;
    render_at(phase, found)
}

/// The tick advances the phase by one and renders the table there; any
/// other command is unknown.
pub fn handle_command(state: Vec<u8>, command: String, found: Option<(String, Result<String, String>)>) -> (r: Result<(Vec<u8>, Vec<ViewPrimitive>), String>)
    requires
        found_buildable(found),
        state@.len() == 8 && command@ == tick_command() ==> le_value(state@) < u64::MAX,
    ensures
        state@.len() != 8 ==> r is Err,
        state@.len() == 8 && command@ == tick_command() ==> ({
            let next = (le_value(state@) + 1) as u64;
            exists|rendered: Result<Vec<ViewPrimitive>, String>|
                renders(next, found, rendered) && match rendered {
                    Ok(v) => r matches Ok((s, v2)) && s@ == le_bytes(next as nat, 8) && v2@ == v@,
                    Err(e) => r matches Err(e2) && e2@ == e@,
                }
        }),
        state@.len() == 8 && command@ != tick_command() ==> (r matches Err(e) && e@ == "unknown command: "@
            + debug_str(command@) + " (this view has no commands)"@),
{
    let phase = decode_state(state.as_slice())?;
    if is_tick(command.as_str()) {
        let next_phase = phase + 1;
        assert(next_phase == (le_value(state@) + 1) as u64);
        let rendered = render_at(next_phase, found);
        match rendered {
            Ok(v) => {
                let s = encode_state(next_phase);
                assert(renders(next_phase, found, rendered));
                Ok((s, v))
            },
            Err(e) => {
                assert(renders(next_phase, found, rendered));
                Err(e)
            },
        }
    } else {
        let mut e = lit("unknown command: ");
        push_debug_str(&mut e, command.as_str());
        push_str(&mut e, " (this view has no commands)");
        Err(e)
    }
}

} // verus!
