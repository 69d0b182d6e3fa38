//! The VCD capture view: the first scalar signals of a capture drawn as
//! stacked step waveforms, and a table of every signal with its width and
//! number of transitions. Each live tick reads the capture again.

use vstd::prelude::*;
use crate::text::{debug_str, decimal, lit, push_debug_str, push_decimal, push_str};
use crate::vcd::{
    Signal, SignalView, VcdFile, max_time, parse, signal_view, timeline_of, vcd_spec,
};
use crate::view::{
    CellView, StepSeries, TableCell, TableView, ViewPrimitive, cell, chart_view, is_message, is_tick, message_table,
    row_view, table_view, tick_command,
};

verus! {

/// Scalar signals charted at most; the rest appear only in the table.
pub const MAX_CHARTED_SIGNALS: usize = 8;

/// The level a value is drawn at: high for `1`, low for anything else.
pub open spec fn level(v: Seq<char>) -> u64 {
    if v == seq!['1'] {
        1
    } else {
        0
    }
}

/// Where the level held from change `i` ends: at the next change, or at
/// the end of the capture (never before the change itself).
pub open spec fn level_end(timeline: Seq<(u64, Seq<char>)>, duration: u64, i: int) -> u64 {
    if i + 1 < timeline.len() {
        timeline[i + 1].0
    } else if duration > timeline[i].0 {
        duration
    } else {
        timeline[i].0
    }
}

/// The step waveform of `timeline` drawn `base` units up: two points per
/// change, at its time and where its level ends, both at its level.
pub open spec fn step_points_spec(timeline: Seq<(u64, Seq<char>)>, duration: u64, base: u64) -> Seq<(u64, u64)> {
    Seq::new(
        2 * timeline.len(),
        |k: int|
            (
                if k % 2 == 0 {
                    timeline[k / 2].0
                } else {
                    level_end(timeline, duration, k / 2)
                },
                (base + level(timeline[k / 2].1)) as u64,
            ),
    )
}

fn is_one(v: &str) -> (b: bool)
    ensures
        b == (v@ == seq!['1']),
{
    let cs = crate::text::chars_of(v);
    let b = cs.len() == 1 && cs[0] == '1';
    assert(b ==> cs@ =~= seq!['1']);
    b
}

/// The step waveform of one signal's timeline, `base` units up.
pub fn step_points(timeline: &[(u64, &str)], duration: u64, base: u64) -> (points: Vec<(u64, u64)>)
    requires
        base < u64::MAX,
    ensures
        points@ == step_points_spec(
            timeline@.map_values(|p: (u64, &str)| (p.0, p.1@)),
            duration,
            base,
        ),
{
    let ghost tl = timeline@.map_values(|p: (u64, &str)| (p.0, p.1@));
    let mut points: Vec<(u64, u64)> = Vec::new();
    let mut i: usize = 0;
    while i < timeline.len()
        invariant
            i <= timeline@.len(),
            base < u64::MAX,
            tl == timeline@.map_values(|p: (u64, &str)| (p.0, p.1@)),
            points@ =~= step_points_spec(tl, duration, base).take(2 * i),
        decreases timeline.len() - i,
    {
        let (t, v) = timeline[i];
        let y = if is_one(v) { base + 1 } else { base };
        let next_t = if i + 1 < timeline.len() {
            timeline[i + 1].0
        } else if duration > t {
            duration
        } else {
            t
        };
        points.push((t, y));
        points.push((next_t, y));
        proof {
            let s = step_points_spec(tl, duration, base);
            assert((2 * i) / 2 == i && (2 * i) % 2 == 0);
            assert((2 * i + 1) / 2 == i && (2 * i + 1) % 2 == 1);
            assert(s[2 * i] == (t, y));
            assert(s[2 * i + 1] == (next_t, y));
            assert(points@ =~= s.take(2 * i + 2));
        }
        i = i + 1;
    }
    points
}

/// The scalar (one-bit) signals among `signals`, in order.
pub open spec fn scalars(signals: Seq<SignalView>) -> Seq<SignalView>
    decreases signals.len(),
{
    if signals.len() == 0 {
        Seq::empty()
    } else if signals.last().2 == 1 {
        scalars(signals.drop_last()).push(signals.last())
    } else {
        scalars(signals.drop_last())
    }
}

/// The signals charted: the first eight scalar ones.
pub open spec fn charted(signals: Seq<SignalView>) -> Seq<SignalView> {
    let s = scalars(signals);
    if s.len() <= 8 {
        s
    } else {
        s.take(8)
    }
}

/// The chart of a capture: one step series per charted signal, signal `i`
/// drawn `2 i` units up.
pub open spec fn chart_spec(signals: Seq<SignalView>, changes: Seq<crate::vcd::ChangeView>) -> Seq<(Seq<char>, Seq<(u64, u64)>)> {
    let c = charted(signals);
    Seq::new(
        c.len(),
        |i: int| (c[i].1, step_points_spec(timeline_of(changes, c[i].0), max_time(changes), (2 * i) as u64)),
    )
}

/// The table row of one signal: its name, width and transition count.
pub open spec fn signal_row(s: SignalView, changes: Seq<crate::vcd::ChangeView>) -> Seq<CellView> {
    seq![
        (s.1, None),
        (decimal(s.2 as nat) + " bit(s)"@, None),
        (decimal(timeline_of(changes, s.0).len()), None),
    ]
}

/// The summary table's headers.
pub open spec fn summary_headers() -> Seq<Seq<char>> {
    seq!["Signal"@, "Width"@, "Transitions"@]
}

/// `v` shows the capture: its chart, then its summary table.
pub open spec fn shows_capture(v: Seq<ViewPrimitive>, signals: Seq<SignalView>, changes: Seq<crate::vcd::ChangeView>) -> bool {
    &&& v.len() == 2
    &&& v[0] matches ViewPrimitive::StepChart(c) && chart_view(c) == chart_spec(signals, changes)
    &&& v[1] matches ViewPrimitive::Table(t) && table_view(t) == (
        summary_headers(),
        signals.map_values(|s: SignalView| signal_row(s, changes)),
    )
}

fn copy_string(s: &String) -> (t: String)
    ensures
        t@ == s@,
{
    lit(s.as_str())
}

/// The chart and the summary table of `vcd`.
pub fn build_primitives(vcd: &VcdFile) -> (v: Vec<ViewPrimitive>)
    ensures
        shows_capture(v@, vcd.signals@.map_values(|s: Signal| signal_view(s)), vcd.change_views()),
{
    let ghost sigs = vcd.signals@.map_values(|s: Signal| signal_view(s));
    let ghost changes = vcd.change_views();
    let duration = vcd.duration();
    let mut series: Vec<StepSeries> = Vec::new();
    let mut i: usize = 0;
    while i < vcd.signals.len() && series.len() < MAX_CHARTED_SIGNALS
        invariant
            i <= vcd.signals@.len(),
            sigs == vcd.signals@.map_values(|s: Signal| signal_view(s)),
            changes == vcd.change_views(),
            duration == max_time(changes),
            series@.len() <= 8,
            series@.len() == scalars(sigs.take(i as int)).len(),
            chart_view(series) =~= Seq::new(
                series@.len(),
                |k: int|
                    (
                        scalars(sigs.take(i as int))[k].1,
                        step_points_spec(
                            timeline_of(changes, scalars(sigs.take(i as int))[k].0),
                            max_time(changes),
                            (2 * k) as u64,
                        ),
                    ),
            ),
        decreases vcd.signals.len() - i,
    {
        assert(sigs.take(i + 1).drop_last() =~= sigs.take(i as int));
        let s = &vcd.signals[i];
        if s.width == 1 {
            let timeline = vcd.timeline(s.id.as_str());
            let base = 2 * (series.len() as u64);
            let points = step_points(timeline.as_slice(), duration, base);
            let ghost before = chart_view(series);
            let ghost k = series@.len();
            let name = copy_string(&s.name);
            let ghost entry = (name@, points@);
            series.push(StepSeries { name, points });
            proof {
                let sc = scalars(sigs.take(i + 1));
                assert(sc == scalars(sigs.take(i as int)).push(signal_view(*s)));
                assert(chart_view(series) =~= before.push(entry));
                assert(entry == (
                    sc[k as int].1,
                    step_points_spec(timeline_of(changes, sc[k as int].0), max_time(changes), (2 * k) as u64),
                ));
                assert(chart_view(series) =~= Seq::new(
                    series@.len(),
                    |k: int|
                        (
                            sc[k].1,
                            step_points_spec(timeline_of(changes, sc[k].0), max_time(changes), (2 * k) as u64),
                        ),
                ));
            }
        }
        i = i + 1;
    }
    proof {
        lemma_charted_prefix(sigs, i as int);
        assert(chart_view(series) =~= chart_spec(sigs, changes));
    }
    let mut rows: Vec<Vec<TableCell>> = Vec::new();
    let mut j: usize = 0;
    while j < vcd.signals.len()
        invariant
            j <= vcd.signals@.len(),
            sigs == vcd.signals@.map_values(|s: Signal| signal_view(s)),
            changes == vcd.change_views(),
            rows@.map_values(|r: Vec<TableCell>| row_view(r)) =~= sigs.take(j as int).map_values(
                |s: SignalView| signal_row(s, changes),
            ),
        decreases vcd.signals.len() - j,
    {
        let s = &vcd.signals[j];
        let mut width_text = String::new();
        push_decimal(&mut width_text, s.width as u128);
        push_str(&mut width_text, " bit(s)");
        let count = vcd.timeline(s.id.as_str()).len();
        let mut count_text = String::new();
        push_decimal(&mut count_text, count as u128);
        let mut row: Vec<TableCell> = Vec::new();
        row.push(cell(copy_string(&s.name), None));
        row.push(cell(width_text, None));
        row.push(cell(count_text, None));
        assert(row_view(row) =~= signal_row(signal_view(*s), changes));
        let ghost before = rows@;
        rows.push(row);
        assert(rows@.map_values(|r: Vec<TableCell>| row_view(r)) =~= before.map_values(
            |r: Vec<TableCell>| row_view(r),
        ).push(row_view(row)));
        assert(sigs.take(j + 1).map_values(|s: SignalView| signal_row(s, changes)) =~= sigs.take(
            j as int,
        ).map_values(|s: SignalView| signal_row(s, changes)).push(signal_row(sigs[j as int], changes)));
        j = j + 1;
    }
    assert(sigs.take(j as int) =~= sigs);
    let mut headers: Vec<String> = Vec::new();
    headers.push(lit("Signal"));
    headers.push(lit("Width"));
    headers.push(lit("Transitions"));
    let t = TableView { headers, rows };
    assert(table_view(t).0 =~= summary_headers());
    let mut v: Vec<ViewPrimitive> = Vec::new();
    v.push(ViewPrimitive::StepChart(series));
    v.push(ViewPrimitive::Table(t));
    v
}

/// Stopping at the eighth scalar signal, or at the end, charts exactly
/// the first eight scalar signals.
proof fn lemma_charted_prefix(sigs: Seq<SignalView>, i: int)
    requires
        0 <= i <= sigs.len(),
        scalars(sigs.take(i)).len() <= 8,
        i == sigs.len() || scalars(sigs.take(i)).len() == 8,
    ensures
        charted(sigs) == scalars(sigs.take(i)),
{
    if i < sigs.len() {
        lemma_scalars_prefix(sigs, i, sigs.len() as int);
        assert(sigs.take(sigs.len() as int) =~= sigs);
        assert(scalars(sigs).take(8) =~= scalars(sigs.take(i)));
    } else {
        assert(sigs.take(i) =~= sigs);
    }
}

/// The scalar signals of a prefix start the scalar signals of a longer
/// prefix.
proof fn lemma_scalars_prefix(sigs: Seq<SignalView>, i: int, j: int)
    requires
        0 <= i <= j <= sigs.len(),
    ensures
        scalars(sigs.take(i)).len() <= scalars(sigs.take(j)).len(),
        scalars(sigs.take(j)).take(scalars(sigs.take(i)).len() as int) == scalars(sigs.take(i)),
    decreases j - i,
{
    if i < j {
        lemma_scalars_prefix(sigs, i, j - 1);
        assert(sigs.take(j).drop_last() =~= sigs.take(j - 1));
        let a = scalars(sigs.take(i));
        let b = scalars(sigs.take(j - 1));
        let c = scalars(sigs.take(j));
        assert(c.take(a.len() as int) =~= b.take(a.len() as int));
    } else {
        let a = scalars(sigs.take(i));
        assert(a.take(a.len() as int) =~= a);
    }
}

/// The message shown when the project has no capture.
pub open spec fn no_capture_message() -> Seq<char> {
    "no .vcd capture file found in this project"@
}

/// What the view shows for the capture the host found (its path, and its
/// contents or the error reading them).
pub open spec fn loads(found: Option<(String, Result<String, String>)>, r: Result<Vec<ViewPrimitive>, String>) -> bool {
    match found {
        None => r matches Ok(v) && is_message(v@, no_capture_message()),
        Some((path, Err(read_error))) => r matches Err(e) && e@ == read_error@,
        Some((path, Ok(text))) => match vcd_spec(text@) {
            Err(m) => r matches Err(e) && e@ == m,
            Ok(st) => r matches Ok(v) && shows_capture(v@, st.signals, st.changes),
        },
    }
}

/// The chart and table of the capture the host found, read afresh.
pub fn load_primitives(found: Option<(String, Result<String, String>)>) -> (r: Result<Vec<ViewPrimitive>, String>)
    ensures
        loads(found, r),
{
    match found {
        None => {
            let mut v: Vec<ViewPrimitive> = Vec::new();
            v.push(message_table(lit("no .vcd capture file found in this project")));
            Ok(v)
        },
        Some((path, read)) => {
            let contents = match read {
                Ok(c) => c,
                Err(e) => {
                    return Err(e);
                },
            };
            let vcd = match parse(contents.as_str()) {
                Ok(f) => f,
                Err(e) => {
                    return Err(e);
                },
            };
            Ok(build_primitives(&vcd))
        },
    }
}

/// The view's identifier.
pub fn view_id() -> (id: String)
    ensures
        id@ == "example-vcd-capture"@,
{
    lit("example-vcd-capture")
}

/// The view keeps no state.
pub fn init_state() -> (state: Vec<u8>)
    ensures
        state@.len() == 0,
{
    Vec::new()
}

/// The capture's chart and table, whatever the state.
pub fn render(state: Vec<u8>, found: Option<(String, Result<String, String>)>) -> (r: Result<Vec<ViewPrimitive>, String>)
    ensures
        loads(found, r),
{
    load_primitives(found)
}

/// A live tick reads the capture again and keeps the state; any other
/// command is unknown.
pub fn handle_command(state: Vec<u8>, command: String, found: Option<(String, Result<String, String>)>) -> (r: Result<(Vec<u8>, Vec<ViewPrimitive>), String>)
    ensures
        command@ == tick_command() ==> exists|loaded: Result<Vec<ViewPrimitive>, String>|
            loads(found, loaded) && match loaded {
                Ok(v) => r matches Ok((s, v2)) && s@ == state@ && v2@ == v@,
                Err(e) => r matches Err(e2) && e2@ == e@,
            },
        command@ != tick_command() ==> (r matches Err(e) && e@ == "unknown command: "@ + debug_str(command@)
            + " (this view only supports live-refresh, F5)"@),
{
    if is_tick(command.as_str()) {
        let loaded = load_primitives(found);
        assert(loads(found, loaded));
        match loaded {
            Ok(v) => Ok((state, v)),
            Err(e) => Err(e),
        }
    } else {
        let mut e = lit("unknown command: ");
        push_debug_str(&mut e, command.as_str());
        push_str(&mut e, " (this view only supports live-refresh, F5)");
        Err(e)
    }
}

} // verus!
