//! The view primitives the plugins render into (tables, RGB heatmaps,
//! state graphs, traces), as plain values, and the byte codecs the plugins
//! keep their opaque view state in.

use vstd::prelude::*;
use crate::text::{chars_of, decimal, push_decimal, push_str};
use crate::text::lit;

verus! {

/// How a cell or node is flagged.
#[derive(Debug, Clone, Copy, PartialEq, Eq)]
pub enum Severity {
    Info,
    Warning,
    Error,
}

/// One table cell: its text and an optional flag.
#[derive(Debug, Clone, PartialEq, Eq)]
pub struct TableCell {
    pub text: String,
    pub status: Option<Severity>,
}

/// A table: column headers and rows of cells.
#[derive(Debug, Clone, PartialEq, Eq)]
pub struct TableView {
    pub headers: Vec<String>,
    pub rows: Vec<Vec<TableCell>>,
}

/// Heatmap cell data: three bytes (r, g, b) per cell, row by row.
#[derive(Debug, Clone, PartialEq, Eq)]
pub enum HeatmapCells {
    Rgb(Vec<u8>),
}

/// A `width` x `height` heatmap.
#[derive(Debug, Clone, PartialEq, Eq)]
pub struct HeatmapView {
    pub width: u32,
    pub height: u32,
    pub cells: HeatmapCells,
}

/// The outline a state-graph node is drawn with.
#[derive(Debug, Clone, Copy, PartialEq, Eq)]
pub enum NodeShape {
    Rectangle,
    RoundedRectangle,
    Diamond,
}

/// A state-graph node, placed by the host's layout pass.
#[derive(Debug, Clone, PartialEq, Eq)]
pub struct DiagramNode {
    pub id: String,
    pub label: String,
    pub shape: NodeShape,
    pub status: Option<Severity>,
}

/// A directed state-graph edge.
#[derive(Debug, Clone, PartialEq, Eq)]
pub struct DiagramEdge {
    pub from_id: String,
    pub to_id: String,
    pub label: Option<String>,
    pub highlighted: bool,
}

/// A state graph.
#[derive(Debug, Clone, PartialEq, Eq)]
pub struct StateGraphView {
    pub nodes: Vec<DiagramNode>,
    pub edges: Vec<DiagramEdge>,
    pub initial_node_id: String,
}

/// One step of a trace: the state reached and the action that led there.
#[derive(Debug, Clone, PartialEq, Eq)]
pub struct TraceStep {
    pub state_label: String,
    pub action_label: Option<String>,
}

/// A trace: a sequence of steps.
#[derive(Debug, Clone, PartialEq, Eq)]
pub struct TraceView {
    pub steps: Vec<TraceStep>,
}

/// One step-shaped series of a chart: its name and its points, each an
/// exact `(x, y)` pair the host draws on linear axes.
#[derive(Debug, Clone, PartialEq, Eq)]
pub struct StepSeries {
    pub name: String,
    pub points: Vec<(u64, u64)>,
}

/// What a view renders.
#[derive(Debug, Clone, PartialEq, Eq)]
pub enum ViewPrimitive {
    Table(TableView),
    Heatmap(HeatmapView),
    StateGraph(StateGraphView),
    Trace(TraceView),
    StepChart(Vec<StepSeries>),
}

/// The reserved live-refresh command.
pub open spec fn tick_command() -> Seq<char> {
    seq!['\0', 't', 'i', 'c', 'k']
}

/// Whether `command` is the live-refresh tick.
pub fn is_tick(command: &str) -> (b: bool)
    ensures
        b == (command@ == tick_command()),
{
    let cs = chars_of(command);
    let b = cs.len() == 5 && cs[0] == '\0' && cs[1] == 't' && cs[2] == 'i' && cs[3] == 'c' && cs[4] == 'k';
    assert(b ==> cs@ =~= tick_command());
    b
}

/// A table cell as plain values.
pub type CellView = (Seq<char>, Option<Severity>);

pub open spec fn cell_view(c: TableCell) -> CellView {
    (c.text@, c.status)
}

pub open spec fn row_view(r: Vec<TableCell>) -> Seq<CellView> {
    r@.map_values(|c: TableCell| cell_view(c))
}

/// A table as plain values: headers and rows.
pub open spec fn table_view(t: TableView) -> (Seq<Seq<char>>, Seq<Seq<CellView>>) {
    (t.headers@.map_values(|h: String| h@), t.rows@.map_values(|r: Vec<TableCell>| row_view(r)))
}

/// An optional text as plain values.
pub open spec fn opt_text(o: Option<String>) -> Option<Seq<char>> {
    match o {
        Some(t) => Some(t@),
        None => None,
    }
}

/// A state-graph node as plain values: id, label, shape, flag.
pub open spec fn node_view(n: DiagramNode) -> (Seq<char>, Seq<char>, NodeShape, Option<Severity>) {
    (n.id@, n.label@, n.shape, n.status)
}

/// A state-graph edge as plain values: from, to, label, highlighted.
pub open spec fn edge_view(e: DiagramEdge) -> (Seq<char>, Seq<char>, Option<Seq<char>>, bool) {
    (e.from_id@, e.to_id@, opt_text(e.label), e.highlighted)
}

/// A state graph as plain values: nodes, edges, initial node id.
pub open spec fn graph_view(g: StateGraphView) -> (
    Seq<(Seq<char>, Seq<char>, NodeShape, Option<Severity>)>,
    Seq<(Seq<char>, Seq<char>, Option<Seq<char>>, bool)>,
    Seq<char>,
) {
    (
        g.nodes@.map_values(|n: DiagramNode| node_view(n)),
        g.edges@.map_values(|e: DiagramEdge| edge_view(e)),
        g.initial_node_id@,
    )
}

/// A trace as plain values: each step's state label and action label.
pub open spec fn trace_view(t: TraceView) -> Seq<(Seq<char>, Option<Seq<char>>)> {
    t.steps@.map_values(|s: TraceStep| (s.state_label@, opt_text(s.action_label)))
}

/// A chart as plain values: each series' name and points.
pub open spec fn chart_view(c: Vec<StepSeries>) -> Seq<(Seq<char>, Seq<(u64, u64)>)> {
    c@.map_values(|s: StepSeries| (s.name@, s.points@))
}

/// A cell holding `text`.
pub fn cell(text: String, status: Option<Severity>) -> (c: TableCell)
    ensures
        cell_view(c) == (text@, status),
{
    TableCell { text, status }
}

/// A one-cell table with an empty header: the placeholder a view shows
/// when it has nothing to render.
pub fn message_table(text: String) -> (p: ViewPrimitive)
    ensures
        p matches ViewPrimitive::Table(t) && table_view(t) == (seq![Seq::<char>::empty()], seq![
            seq![(text@, None::<Severity>)],
        ]),
{
    let mut headers: Vec<String> = Vec::new();
    headers.push(String::new());
    let mut row: Vec<TableCell> = Vec::new();
    let c = cell(text, None);
    row.push(c);
    let mut rows: Vec<Vec<TableCell>> = Vec::new();
    rows.push(row);
    let t = TableView { headers, rows };
    assert(table_view(t).0 =~= seq![Seq::<char>::empty()]);
    assert(row_view(t.rows@[0]) =~= seq![(text@, None::<Severity>)]);
    assert(table_view(t).1 =~= seq![seq![(text@, None::<Severity>)]]);
    ViewPrimitive::Table(t)
}

/// `v` is a single one-cell table saying `text`.
pub open spec fn is_message(v: Seq<ViewPrimitive>, text: Seq<char>) -> bool {
    &&& v.len() == 1
    &&& v[0] matches ViewPrimitive::Table(t) && table_view(t) == (
        seq![Seq::<char>::empty()],
        seq![seq![(text, None::<Severity>)]],
    )
}

/// The little-endian value of `b`.
pub open spec fn le_value(b: Seq<u8>) -> nat
    decreases b.len(),
{
    if b.len() == 0 {
        0
    } else {
        b[0] as nat + 256 * le_value(b.drop_first())
    }
}

/// The `n` low bytes of `v`, least significant first.
pub open spec fn le_bytes(v: nat, n: nat) -> Seq<u8>
    decreases n,
{
    if n == 0 {
        Seq::empty()
    } else {
        seq![(v % 256) as u8] + le_bytes(v / 256, (n - 1) as nat)
    }
}

/// Writing `v` in `n` little-endian bytes and reading them back gives `v`
/// when it fits.
pub proof fn lemma_le_round_trip(v: nat, n: nat)
    requires
        v < pow256(n),
    ensures
        le_bytes(v, n).len() == n,
        le_value(le_bytes(v, n)) == v,
    decreases n,
{
    if n > 0 {
        assert(v / 256 < pow256((n - 1) as nat)) by (nonlinear_arith)
            requires
                v < pow256(n),
                pow256(n) == 256 * pow256((n - 1) as nat),
        ;
        lemma_le_round_trip(v / 256, (n - 1) as nat);
        let b = le_bytes(v, n);
        assert(b.drop_first() =~= le_bytes(v / 256, (n - 1) as nat));
    }
}

/// Reading `n` bytes and writing the value back gives the same bytes.
pub proof fn lemma_le_value_round_trip(b: Seq<u8>)
    ensures
        le_value(b) < pow256(b.len()),
        le_bytes(le_value(b), b.len()) == b,
    decreases b.len(),
{
    if b.len() > 0 {
        lemma_le_value_round_trip(b.drop_first());
        let rest = le_value(b.drop_first());
        assert((b[0] as nat + 256 * rest) % 256 == b[0] as nat) by (nonlinear_arith)
            requires
                b[0] < 256,
        ;
        assert((b[0] as nat + 256 * rest) / 256 == rest) by (nonlinear_arith)
            requires
                b[0] < 256,
        ;
        assert(b[0] as nat + 256 * rest < 256 * pow256((b.len() - 1) as nat)) by (nonlinear_arith)
            requires
                b[0] < 256,
                rest < pow256((b.len() - 1) as nat),
        ;
        assert(le_bytes(le_value(b), b.len()) =~= b);
    }
}

/// `256^n`.
pub open spec fn pow256(n: nat) -> nat
    decreases n,
{
    if n == 0 {
        1
    } else {
        256 * pow256((n - 1) as nat)
    }
}

/// The eight little-endian bytes of `v`.
pub fn u64_le_bytes(v: u64) -> (b: Vec<u8>)
    ensures
        b@ == le_bytes(v as nat, 8),
{
    let mut b: Vec<u8> = Vec::new();
    let mut rest = v;
    let mut k: u32 = 0;
    while k < 8
        invariant
            k <= 8,
            b@ + le_bytes(rest as nat, (8 - k) as nat) == le_bytes(v as nat, 8),
        decreases 8 - k,
    {
        let ghost before = b@;
        let ghost old_rest = rest;
        let ghost old_k = k;
        assert(le_bytes(rest as nat, (8 - k) as nat) =~= seq![(rest % 256) as u8] + le_bytes(
            (rest / 256) as nat,
            (8 - k - 1) as nat,
        ));
        b.push((rest % 256) as u8);
        rest = rest / 256;
        k = k + 1;
        assert(b@ + le_bytes(rest as nat, (8 - k) as nat) =~= before + le_bytes(
            old_rest as nat,
            (8 - old_k) as nat,
        ));
    }
    assert(le_bytes(rest as nat, 0) =~= Seq::<u8>::empty());
    assert(b@ =~= le_bytes(v as nat, 8));
    b
}

/// The little-endian value of `b`, at most eight bytes.
pub fn u64_from_le(b: &[u8]) -> (v: u64)
    requires
        b@.len() <= 8,
    ensures
        v == le_value(b@),
{
    let mut v: u64 = 0;
    let mut k = b.len();
    proof {
        lemma_le_value_round_trip(b@);
    }
    while k > 0
        invariant
            k <= b@.len() <= 8,
            v == le_value(b@.skip(k as int)),
            le_value(b@.skip(k as int)) < pow256((b@.len() - k) as nat),
        decreases k,
    {
        let ghost old_v = v;
        assert(b@.skip(k - 1).drop_first() =~= b@.skip(k as int));
        proof {
            lemma_pow256_bound((b@.len() - k) as nat);
            assert(pow256((b@.len() - k + 1) as nat) == 256 * pow256((b@.len() - k) as nat));
            assert(b@[k - 1] as nat + 256 * le_value(b@.skip(k as int)) < pow256((b@.len() - k + 1) as nat))
                by (nonlinear_arith)
                requires
                    b@[k - 1] < 256,
                    le_value(b@.skip(k as int)) < pow256((b@.len() - k) as nat),
                    pow256((b@.len() - k + 1) as nat) == 256 * pow256((b@.len() - k) as nat),
            ;
            lemma_pow256_bound((b@.len() - k + 1) as nat);
        }
        v = (b[k - 1] as u64) + 256 * v;
        k = k - 1;
    }
    assert(b@.skip(0) =~= b@);
    v
}

/// Appends the `n` low bytes of `v`, least significant first.
pub fn push_le_bytes(out: &mut Vec<u8>, v: u64, n: u32)
    requires
        n <= 8,
    ensures
        final(out)@ == old(out)@ + le_bytes(v as nat, n as nat),
{
    let mut rest = v;
    let mut k: u32 = 0;
    while k < n
        invariant
            k <= n,
            out@ + le_bytes(rest as nat, (n - k) as nat) == old(out)@ + le_bytes(v as nat, n as nat),
        decreases n - k,
    {
        let ghost before = out@;
        let ghost old_rest = rest;
        let ghost old_k = k;
        assert(le_bytes(rest as nat, (n - k) as nat) =~= seq![(rest % 256) as u8] + le_bytes(
            (rest / 256) as nat,
            (n - k - 1) as nat,
        ));
        out.push((rest % 256) as u8);
        rest = rest / 256;
        k = k + 1;
        assert(out@ + le_bytes(rest as nat, (n - k) as nat) =~= before + le_bytes(
            old_rest as nat,
            (n - old_k) as nat,
        ));
    }
    assert(le_bytes(rest as nat, 0) =~= Seq::<u8>::empty());
    assert(out@ =~= old(out)@ + le_bytes(v as nat, n as nat));
}

/// The little-endian value of the `n` bytes of `b` from `start`.
pub fn le_at(b: &[u8], start: usize, n: usize) -> (v: u64)
    requires
        n <= 8,
        start + n <= b@.len(),
    ensures
        v == le_value(b@.subrange(start as int, start + n)),
{
    let ghost f = b@.subrange(start as int, start + n);
    let len = b.len();
    let mut v: u64 = 0;
    let mut k = n;
    proof {
        lemma_le_value_round_trip(f);
    }
    while k > 0
        invariant
            k <= n <= 8,
            start + n <= b@.len(),
            len == b@.len(),
            f == b@.subrange(start as int, start + n),
            v == le_value(f.skip(k as int)),
            le_value(f.skip(k as int)) < pow256((n - k) as nat),
        decreases k,
    {
        assert(f.skip(k - 1).drop_first() =~= f.skip(k as int));
        assert(f[k - 1] == b@[start + k - 1]);
        proof {
            lemma_pow256_bound((n - k) as nat);
            assert(pow256((n - k + 1) as nat) == 256 * pow256((n - k) as nat));
            assert(f[k - 1] as nat + 256 * le_value(f.skip(k as int)) < pow256((n - k + 1) as nat))
                by (nonlinear_arith)
                requires
                    f[k - 1] < 256,
                    le_value(f.skip(k as int)) < pow256((n - k) as nat),
                    pow256((n - k + 1) as nat) == 256 * pow256((n - k) as nat),
            ;
            lemma_pow256_bound((n - k + 1) as nat);
        }
        v = (b[start + k - 1] as u64) + 256 * v;
        k = k - 1;
    }
    assert(f.skip(0) =~= f);
    v
}

/// `256^n` for up to eight bytes is at most `2^64`.
pub proof fn lemma_pow256_bound(n: nat)
    requires
        n <= 8,
    ensures
        pow256(n) <= 0x1_0000_0000_0000_0000,
    decreases n,
{
    reveal_with_fuel(pow256, 9);
}

} // verus!
