//! The link-graph view's own logic: the node list a topology's links
//! name, and the routing objective a pane highlights, kept in one state
//! byte and switched by commands.

use vstd::prelude::*;
use crate::text::{debug_str, push_debug_str, push_str};
use crate::text::lit;
use crate::view::{is_tick, tick_command};

verus! {

/// `seen` with `n` appended unless it is already there.
pub open spec fn add_node(seen: Seq<Seq<char>>, n: Seq<char>) -> Seq<Seq<char>> {
    if seen.contains(n) {
        seen
    } else {
        seen.push(n)
    }
}

/// Every node the links `(from, to)` name, in first-seen order.
pub open spec fn nodes_spec(links: Seq<(Seq<char>, Seq<char>)>) -> Seq<Seq<char>>
    decreases links.len(),
{
    if links.len() == 0 {
        Seq::empty()
    } else {
        add_node(add_node(nodes_spec(links.drop_last()), links.last().0), links.last().1)
    }
}

pub open spec fn links_view(links: Seq<(String, String)>) -> Seq<(Seq<char>, Seq<char>)> {
    links.map_values(|l: (String, String)| (l.0@, l.1@))
}

fn push_new(seen: &mut Vec<String>, n: &String)
    ensures
        final(seen)@.map_values(|s: String| s@) == add_node(old(seen)@.map_values(|s: String| s@), n@),
{
    let ghost sv = seen@.map_values(|s: String| s@);
    let mut i: usize = 0;
    while i < seen.len()
        invariant
            i <= seen@.len(),
            sv == seen@.map_values(|s: String| s@),
            forall|k: int| 0 <= k < i ==> sv[k] != n@,
        decreases seen.len() - i,
    {
        if seen[i] == *n {
            assert(sv[i as int] == n@);
            assert(sv.contains(n@));
            return;
        }
        i = i + 1;
    }
    assert(!sv.contains(n@));
    seen.push(lit(n.as_str()));
    assert(seen@.map_values(|s: String| s@) =~= sv.push(n@));
}

/// Every node named by a link endpoint, each once, in first-seen order
/// (a topology has no node list of its own).
pub fn nodes(links: &[(String, String)]) -> (seen: Vec<String>)
    ensures
        seen@.map_values(|s: String| s@) == nodes_spec(links_view(links@)),
{
    let mut seen: Vec<String> = Vec::new();
    let mut i: usize = 0;
    while i < links.len()
        invariant
            i <= links@.len(),
            seen@.map_values(|s: String| s@) == nodes_spec(links_view(links@).take(i as int)),
        decreases links.len() - i,
    {
        assert(links_view(links@).take(i + 1).drop_last() =~= links_view(links@).take(i as int));
        push_new(&mut seen, &links[i].0);
        push_new(&mut seen, &links[i].1);
        i = i + 1;
    }
    assert(links_view(links@).take(i as int) =~= links_view(links@));
    seen
}

/// Whether some link has `x` as an endpoint.
pub open spec fn named(links: Seq<(Seq<char>, Seq<char>)>, x: Seq<char>) -> bool {
    exists|k: int| 0 <= k < links.len() && (#[trigger] links[k].0 == x || links[k].1 == x)
}

/// No node occurs twice in `s`.
pub open spec fn distinct(s: Seq<Seq<char>>) -> bool {
    forall|i: int, j: int| 0 <= i < j < s.len() ==> s[i] != s[j]
}

proof fn lemma_add_node(s: Seq<Seq<char>>, n: Seq<char>)
    ensures
        forall|x: Seq<char>| #[trigger] add_node(s, n).contains(x) <==> s.contains(x) || x == n,
        distinct(s) ==> distinct(add_node(s, n)),
{
    let t = add_node(s, n);
    assert forall|x: Seq<char>| #[trigger] t.contains(x) <==> s.contains(x) || x == n by {
        if !s.contains(n) {
            assert(t[s.len() as int] == n);
            if s.contains(x) {
                let i = choose|i: int| 0 <= i < s.len() && s[i] == x;
                assert(t[i] == x);
            }
            if t.contains(x) {
                let i = choose|i: int| 0 <= i < t.len() && t[i] == x;
                if i < s.len() {
                    assert(s[i] == x);
                }
            }
        }
    }
}

/// The node list names every endpoint of every link, nothing else, and
/// each node once.
pub proof fn nodes_are_the_endpoints(links: Seq<(Seq<char>, Seq<char>)>)
    ensures
        distinct(nodes_spec(links)),
        forall|x: Seq<char>| #[trigger] nodes_spec(links).contains(x) <==> named(links, x),
    decreases links.len(),
{
    if links.len() > 0 {
        let rest = links.drop_last();
        nodes_are_the_endpoints(rest);
        let a = nodes_spec(rest);
        let b = add_node(a, links.last().0);
        lemma_add_node(a, links.last().0);
        lemma_add_node(b, links.last().1);
        assert forall|x: Seq<char>| #[trigger] nodes_spec(links).contains(x) <==> named(links, x) by {
            if named(rest, x) {
                let k = choose|k: int| 0 <= k < rest.len() && (#[trigger] rest[k].0 == x || rest[k].1 == x);
                assert(links[k] == rest[k]);
            }
            if named(links, x) {
                let k = choose|k: int| 0 <= k < links.len() && (#[trigger] links[k].0 == x || links[k].1 == x);
                if k < links.len() - 1 {
                    assert(links[k] == rest[k]);
                    assert(named(rest, x));
                }
            }
            if x == links.last().0 || x == links.last().1 {
                assert(links[links.len() - 1] == links.last());
            }
        }
    }
}

// ---------------------------------------------------------------------
// The routing objective.
// ---------------------------------------------------------------------

/// Which path a pane highlights.
#[derive(Debug, Clone, Copy, PartialEq, Eq)]
pub enum Criterion {
    /// The least total latency.
    Latency,
    /// The widest bottleneck bandwidth.
    Bandwidth,
    /// The least compound loss.
    Reliability,
}

/// The objective a state byte selects: 1 and 2 the bandwidth and
/// reliability ones, anything else latency.
pub open spec fn criterion_of(b: u8) -> Criterion {
    if b == 1 {
        Criterion::Bandwidth
    } else if b == 2 {
        Criterion::Reliability
    } else {
        Criterion::Latency
    }
}

/// The byte an objective is kept as.
pub open spec fn byte_of(c: Criterion) -> u8 {
    match c {
        Criterion::Latency => 0,
        Criterion::Bandwidth => 1,
        Criterion::Reliability => 2,
    }
}

/// The objective's name in the summary table.
pub open spec fn label_of(c: Criterion) -> Seq<char> {
    match c {
        Criterion::Latency => "fastest-latency"@,
        Criterion::Bandwidth => "widest-bandwidth"@,
        Criterion::Reliability => "most-reliable"@,
    }
}

impl Criterion {
    /// The objective a state byte selects.
    pub fn from_byte(b: u8) -> (c: Criterion)
        ensures
            c == criterion_of(b),
    {
        match b {
            1 => Criterion::Bandwidth,
            2 => Criterion::Reliability,
            _ => Criterion::Latency,
        }
    }

    /// The byte the objective is kept as.
    pub fn to_byte(self) -> (b: u8)
        ensures
            b == byte_of(self),
    {
        match self {
            Criterion::Latency => 0,
            Criterion::Bandwidth => 1,
            Criterion::Reliability => 2,
        }
    }

    /// The objective's name.
    pub fn label(self) -> (s: String)
        ensures
            s@ == label_of(self),
    {
        match self {
            Criterion::Latency => lit("fastest-latency"),
            Criterion::Bandwidth => lit("widest-bandwidth"),
            Criterion::Reliability => lit("most-reliable"),
        }
    }
}

/// Reading back a stored objective gives it.
pub proof fn criterion_byte_round_trip(c: Criterion)
    ensures
        criterion_of(byte_of(c)) == c,
{
}

/// The objective kept in `state`: its first byte, latency when empty.
pub open spec fn current(state: Seq<u8>) -> Criterion {
    criterion_of(if state.len() > 0 { state[0] } else { 0 })
}

/// The objective a pane's state selects.
pub fn current_criterion(state: &[u8]) -> (c: Criterion)
    ensures
        c == current(state@),
{
    let b = if state.len() > 0 { state[0] } else { 0 };
    Criterion::from_byte(b)
}

/// What a command asks of a pane: the state it keeps and the objective to
/// render under, or why it is refused.
pub open spec fn command_outcome(state: Seq<u8>, command: Seq<char>) -> Result<(Seq<u8>, Criterion), Seq<char>> {
    if command == tick_command() {
        Ok((state, current(state)))
    } else if command == "latency"@ {
        Ok((seq![0u8], Criterion::Latency))
    } else if command == "bandwidth"@ {
        Ok((seq![1u8], Criterion::Bandwidth))
    } else if command == "reliability"@ {
        Ok((seq![2u8], Criterion::Reliability))
    } else {
        Err(
            "unknown command: "@ + debug_str(command)
                + " (try \"latency\", \"bandwidth\", or \"reliability\")"@,
        )
    }
}

/// Whether `needle` occurs in `hay`.
pub open spec fn mentions(hay: Seq<char>, needle: Seq<char>) -> bool {
    exists|i: int| 0 <= i && i + needle.len() <= hay.len() && #[trigger] hay.subrange(i, i + needle.len()) == needle
}

/// The objective a command selects, where it selects one.
pub open spec fn selected(state: Seq<u8>, command: Seq<char>) -> Criterion {
    command_outcome(state, command)->Ok_0.1
}

/// Each objective word selects its own objective: the pane keeps it as
/// the state's only byte (so the state reads back as it), the objective is
/// labelled with the word, and the three words select three different
/// objectives.
pub proof fn objective_words_select_their_objectives(state: Seq<u8>)
    ensures
        command_outcome(state, "latency"@) matches Ok((s, c)) && s == seq![byte_of(c)] && current(s) == c
            && mentions(label_of(c), "latenc"@),
        command_outcome(state, "bandwidth"@) matches Ok((s, c)) && s == seq![byte_of(c)] && current(s) == c
            && mentions(label_of(c), "bandwi"@),
        command_outcome(state, "reliability"@) matches Ok((s, c)) && s == seq![byte_of(c)] && current(s)
            == c && mentions(label_of(c), "reliab"@),
        selected(state, "latency"@) != selected(state, "bandwidth"@),
        selected(state, "latency"@) != selected(state, "reliability"@),
        selected(state, "bandwidth"@) != selected(state, "reliability"@),
{
    reveal_strlit("latency");
    reveal_strlit("bandwidth");
    reveal_strlit("reliability");
    reveal_strlit("latenc");
    reveal_strlit("bandwi");
    reveal_strlit("reliab");
    reveal_strlit("fastest-latency");
    reveal_strlit("widest-bandwidth");
    reveal_strlit("most-reliable");
    assert("latency"@.len() == 7 && "bandwidth"@.len() == 9 && "reliability"@.len() == 11);
    assert("latency"@ != tick_command());
    assert("bandwidth"@ != tick_command());
    assert("reliability"@ != tick_command());
    assert("bandwidth"@ != "latency"@);
    assert("reliability"@ != "latency"@);
    assert("reliability"@ != "bandwidth"@);
    assert("fastest-latency"@.subrange(8, 8 + "latenc"@.len() as int) =~= "latenc"@);
    assert(mentions("fastest-latency"@, "latenc"@));
    assert("widest-bandwidth"@.subrange(7, 7 + "bandwi"@.len() as int) =~= "bandwi"@);
    assert(mentions("widest-bandwidth"@, "bandwi"@));
    assert("most-reliable"@.subrange(5, 5 + "reliab"@.len() as int) =~= "reliab"@);
    assert(mentions("most-reliable"@, "reliab"@));
}

fn is_word(command: &str, word: &str) -> (b: bool)
    ensures
        b == (command@ == word@),
{
    let cs = crate::text::chars_of(command);
    let n = cs.len();
    let b = crate::text::span_is(&cs, 0, n, word);
    assert(cs@.subrange(0, n as int) =~= cs@);
    b
}

/// Decides a command: the tick keeps the state and its objective; a
/// named objective is selected and kept; anything else is refused.
pub fn handle_command(state: Vec<u8>, command: &str) -> (r: Result<(Vec<u8>, Criterion), String>)
    ensures
        match (r, command_outcome(state@, command@)) {
            (Ok((s, c)), Ok((s2, c2))) => s@ == s2 && c == c2,
            (Err(e), Err(m)) => e@ == m,
            _ => false,
        },
{
    if is_tick(command) {
        let c = current_criterion(state.as_slice());
        return Ok((state, c));
    }
    let chosen = if is_word(command, "latency") {
        Some(Criterion::Latency)
    } else if is_word(command, "bandwidth") {
        Some(Criterion::Bandwidth)
    } else if is_word(command, "reliability") {
        Some(Criterion::Reliability)
    } else {
        None
    };
    match chosen {
        Some(c) => {
            let mut s: Vec<u8> = Vec::new();
            s.push(c.to_byte());
            Ok((s, c))
        },
        None => {
            let mut e = lit("unknown command: ");
            push_debug_str(&mut e, command);
            push_str(&mut e, " (try \"latency\", \"bandwidth\", or \"reliability\")");
            Err(e)
        },
    }
}

/// The first state: the latency objective.
pub fn init_state() -> (state: Vec<u8>)
    ensures
        state@ == seq![0u8],
{
    let mut s: Vec<u8> = Vec::new();
    s.push(Criterion::Latency.to_byte());
    s
}

/// The view's identifier.
pub fn view_id() -> (id: String)
    ensures
        id@ == "example-link-graph"@,
{
    lit("example-link-graph")
}

} // verus!
