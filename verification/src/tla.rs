//! The TLA+ trace view: a small mutual-exclusion model shown either as
//! its counterexample trace or as the full state graph the trace runs
//! through; the one state byte says which.

use vstd::prelude::*;
use crate::text::{debug_str, push_debug_str, push_str};
use crate::text::lit;
use crate::view::{
    DiagramEdge, DiagramNode, NodeShape, Severity, StateGraphView, TraceStep, TraceView, ViewPrimitive,
    edge_view, graph_view, node_view, opt_text, trace_view,
};

verus! {

/// The counterexample: a second `Enter` into `Critical` without an `Exit`.
pub open spec fn counterexample_spec() -> Seq<(Seq<char>, Option<Seq<char>>)> {
    seq![
        ("Init"@, None),
        ("Idle"@, Some("Start"@)),
        ("Waiting"@, Some("Request"@)),
        ("Critical"@, Some("Enter"@)),
        ("Waiting"@, Some("Request"@)),
        ("Critical"@, Some("Enter"@)),
    ]
}

/// The reachable states, a decision node and the violation.
pub open spec fn graph_nodes_spec() -> Seq<(Seq<char>, Seq<char>, NodeShape, Option<Severity>)> {
    seq![
        ("init"@, "Init"@, NodeShape::Rectangle, None),
        ("idle"@, "Idle"@, NodeShape::Rectangle, None),
        ("waiting"@, "Waiting"@, NodeShape::Rectangle, None),
        ("enter_decision"@, "Enter?"@, NodeShape::Diamond, None),
        ("critical"@, "Critical"@, NodeShape::Rectangle, None),
        ("violation"@, "Violation"@, NodeShape::RoundedRectangle, Some(Severity::Error)),
    ]
}

/// The transitions; the one into the violation is highlighted.
pub open spec fn graph_edges_spec() -> Seq<(Seq<char>, Seq<char>, Option<Seq<char>>, bool)> {
    seq![
        ("init"@, "idle"@, Some("Start"@), false),
        ("idle"@, "waiting"@, Some("Request"@), false),
        ("waiting"@, "enter_decision"@, None, false),
        ("enter_decision"@, "critical"@, Some("Yes"@), false),
        ("enter_decision"@, "waiting"@, Some("No"@), false),
        ("critical"@, "idle"@, Some("Exit"@), false),
        ("critical"@, "violation"@, Some("Enter"@), true),
    ]
}

fn opt_lit(t: Option<&str>) -> (o: Option<String>)
    ensures
        opt_text(o) == match t {
            Some(s) => Some(s@),
            None => None::<Seq<char>>,
        },
{
    match t {
        Some(s) => Some(lit(s)),
        None => None,
    }
}

fn trace_step(state_label: &str, action_label: Option<&str>) -> (s: TraceStep)
    ensures
        s.state_label@ == state_label@,
        opt_text(s.action_label) == match action_label {
            Some(a) => Some(a@),
            None => None::<Seq<char>>,
        },
{
    TraceStep { state_label: lit(state_label), action_label: opt_lit(action_label) }
}

/// The counterexample trace.
pub fn counterexample() -> (steps: Vec<TraceStep>)
    ensures
        trace_view(TraceView { steps }) == counterexample_spec(),
{
    let mut steps: Vec<TraceStep> = Vec::new();
    steps.push(trace_step("Init", None));
    steps.push(trace_step("Idle", Some("Start")));
    steps.push(trace_step("Waiting", Some("Request")));
    steps.push(trace_step("Critical", Some("Enter")));
    steps.push(trace_step("Waiting", Some("Request")));
    steps.push(trace_step("Critical", Some("Enter")));
    assert(trace_view(TraceView { steps }) =~= counterexample_spec());
    steps
}

fn node(id: &str, label: &str, shape: NodeShape, status: Option<Severity>) -> (n: DiagramNode)
    ensures
        node_view(n) == (id@, label@, shape, status),
{
    DiagramNode { id: lit(id), label: lit(label), shape, status }
}

fn edge(from: &str, to: &str, label: Option<&str>, highlighted: bool) -> (e: DiagramEdge)
    ensures
        edge_view(e) == (from@, to@, match label {
            Some(l) => Some(l@),
            None => None::<Seq<char>>,
        }, highlighted),
{
    DiagramEdge { from_id: lit(from), to_id: lit(to), label: opt_lit(label), highlighted }
}

/// The full state graph of the model.
pub fn state_graph() -> (g: StateGraphView)
    ensures
        graph_view(g) == (graph_nodes_spec(), graph_edges_spec(), "init"@),
{
    let mut nodes: Vec<DiagramNode> = Vec::new();
    nodes.push(node("init", "Init", NodeShape::Rectangle, None));
    nodes.push(node("idle", "Idle", NodeShape::Rectangle, None));
    nodes.push(node("waiting", "Waiting", NodeShape::Rectangle, None));
    nodes.push(node("enter_decision", "Enter?", NodeShape::Diamond, None));
    nodes.push(node("critical", "Critical", NodeShape::Rectangle, None));
    nodes.push(node("violation", "Violation", NodeShape::RoundedRectangle, Some(Severity::Error)));
    let mut edges: Vec<DiagramEdge> = Vec::new();
    edges.push(edge("init", "idle", Some("Start"), false));
    edges.push(edge("idle", "waiting", Some("Request"), false));
    edges.push(edge("waiting", "enter_decision", None, false));
    edges.push(edge("enter_decision", "critical", Some("Yes"), false));
    edges.push(edge("enter_decision", "waiting", Some("No"), false));
    edges.push(edge("critical", "idle", Some("Exit"), false));
    edges.push(edge("critical", "violation", Some("Enter"), true));
    let g = StateGraphView { nodes, edges, initial_node_id: lit("init") };
    assert(graph_view(g).0 =~= graph_nodes_spec());
    assert(graph_view(g).1 =~= graph_edges_spec());
    g
}

/// Whether `state` selects the state graph: its first byte is nonzero.
pub open spec fn graph_mode(state: Seq<u8>) -> bool {
    state.len() > 0 && state[0] != 0
}

/// `v` is what the view shows in graph mode (`graph`) or trace mode.
pub open spec fn shows(v: Seq<ViewPrimitive>, graph: bool) -> bool {
    &&& v.len() == 1
    &&& if graph {
        v[0] matches ViewPrimitive::StateGraph(g) && graph_view(g) == (
            graph_nodes_spec(),
            graph_edges_spec(),
            "init"@,
        )
    } else {
        v[0] matches ViewPrimitive::Trace(t) && trace_view(t) == counterexample_spec()
    }
}

fn primitives(graph: bool) -> (v: Vec<ViewPrimitive>)
    ensures
        shows(v@, graph),
{
    let mut v: Vec<ViewPrimitive> = Vec::new();
    if graph {
        v.push(ViewPrimitive::StateGraph(state_graph()));
    } else {
        v.push(ViewPrimitive::Trace(TraceView { steps: counterexample() }));
    }
    v
}

/// The view's identifier.
pub fn view_id() -> (id: String)
    ensures
        id@ == "example-tla-trace"@,
{
    lit("example-tla-trace")
}

/// The first state: trace mode.
pub fn init_state() -> (state: Vec<u8>)
    ensures
        state@ == seq![0u8],
{
    let mut state: Vec<u8> = Vec::new();
    state.push(0);
    state
}

/// The trace, or the state graph when `state` selects it.
pub fn render(state: Vec<u8>) -> (v: Vec<ViewPrimitive>)
    ensures
        shows(v@, graph_mode(state@)),
{
    let graph = state.len() > 0 && state[0] != 0;
    primitives(graph)
}

/// The state after `graph`: the mode byte flipped.
pub open spec fn toggled(state: Seq<u8>) -> Seq<u8> {
    seq![if graph_mode(state) { 0u8 } else { 1u8 }]
}

/// `graph` switches between the trace and the state graph; every other
/// command is unknown.
pub fn handle_command(state: Vec<u8>, command: String) -> (r: Result<(Vec<u8>, Vec<ViewPrimitive>), String>)
    ensures
        command@ == "graph"@ ==> (r matches Ok((s, v)) && s@ == toggled(state@) && shows(
            v@,
            !graph_mode(state@),
        )),
        command@ != "graph"@ ==> (r matches Err(e) && e@ == "unknown command: "@ + debug_str(command@)
            + " (try \"graph\")"@),
{
    let cs = crate::text::chars_of(command.as_str());
    let is_graph = cs.len() == 5 && cs[0] == 'g' && cs[1] == 'r' && cs[2] == 'a' && cs[3] == 'p' && cs[4]
        == 'h';
    proof {
        reveal_strlit("graph");
        if is_graph {
            assert(cs@ =~= "graph"@);
        }
    }
    if is_graph {
        let graph = state.len() > 0 && state[0] != 0;
        let toggled_mode = !graph;
        let mut new_state: Vec<u8> = Vec::new();
        new_state.push(if toggled_mode { 1 } else { 0 });
        assert(new_state@ =~= toggled(state@));
        Ok((new_state, primitives(toggled_mode)))
    } else {
        let mut e = lit("unknown command: ");
        push_debug_str(&mut e, command.as_str());
        push_str(&mut e, " (try \"graph\")");
        Err(e)
    }
}

/// `graph` twice returns to the mode the view started in, and each
/// `graph` flips it.
pub proof fn graph_toggle_flips(state: Seq<u8>)
    ensures
        graph_mode(toggled(state)) == !graph_mode(state),
        graph_mode(toggled(toggled(state))) == graph_mode(state),
{
}

} // verus!
