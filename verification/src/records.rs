//! Comma-separated record files (colour swatches, halftone screens,
//! link topologies): one record per line, fields trimmed, `#` comments
//! and blank lines skipped, read up to the first malformed line. Numeric
//! fields stay as text for the caller, who reads them in order and
//! reports the first bad one before the malformed line's error.

use vstd::prelude::*;
use crate::invariant_report::{line_prefix, push_line_prefix};
use crate::pattern::{field_spans, fields_of};
use crate::text::{
    chars_of, debug_str, line_spans, lines, push_debug, push_str, span_is, span_texts, string_of, trim, trim_span,
};
use crate::text::lit;
use crate::waveform::{strings_view, strings_view_seq};

verus! {

/// What line `line` (numbered `n`) holds: nothing when blank or a
/// comment, else its fields when there are `arity` of them, else the
/// error naming the expected `shape`.
pub open spec fn record_line(line: Seq<char>, n: nat, arity: nat, shape: Seq<char>) -> Option<Result<Seq<Seq<char>>, Seq<char>>> {
    let t = trim(line);
    if t.len() == 0 || t[0] == '#' {
        None
    } else if fields_of(t).len() == arity {
        Some(Ok(fields_of(t)))
    } else {
        Some(Err(line_prefix(n) + "expected \""@ + shape + "\", got "@ + debug_str(t)))
    }
}

/// The records of the first `k` lines, each with its line number, and
/// the error of the first malformed line among them.
pub open spec fn records_prefix(ls: Seq<Seq<char>>, k: int, arity: nat, shape: Seq<char>) -> (Seq<(nat, Seq<Seq<char>>)>, Option<Seq<char>>)
    decreases k,
{
    if k <= 0 {
        (Seq::empty(), None)
    } else {
        let prev = records_prefix(ls, k - 1, arity, shape);
        if prev.1 is Some {
            prev
        } else {
            match record_line(ls[k - 1], k as nat, arity, shape) {
                None => prev,
                Some(Ok(fs)) => (prev.0.push((k as nat, fs)), None),
                Some(Err(e)) => (prev.0, Some(e)),
            }
        }
    }
}

/// The records of `text` up to its first malformed line, and that line's
/// error.
pub open spec fn records_spec(text: Seq<char>, arity: nat, shape: Seq<char>) -> (Seq<(nat, Seq<Seq<char>>)>, Option<Seq<char>>) {
    records_prefix(lines(text), lines(text).len() as int, arity, shape)
}

/// Records read from a file: each well-formed line's number and fields,
/// and the error of the first malformed line, if any.
#[derive(Debug, Clone, PartialEq, Eq)]
pub struct Records {
    pub rows: Vec<(usize, Vec<String>)>,
    pub malformed: Option<String>,
}

pub open spec fn rows_view(rows: Seq<(usize, Vec<String>)>) -> Seq<(nat, Seq<Seq<char>>)> {
    rows.map_values(|r: (usize, Vec<String>)| (r.0 as nat, strings_view(r.1)))
}

pub open spec fn opt_string(o: Option<String>) -> Option<Seq<char>> {
    match o {
        Some(s) => Some(s@),
        None => None,
    }
}

fn field_strings(cs: &Vec<char>, a: usize, b: usize) -> (fs: Vec<String>)
    requires
        a <= b <= cs@.len(),
    ensures
        strings_view(fs) == fields_of(cs@.subrange(a as int, b as int)),
{
    let spans = field_spans(cs, a, b);
    let mut fs: Vec<String> = Vec::new();
    let mut k: usize = 0;
    while k < spans.len()
        invariant
            k <= spans@.len(),
            forall|j: int| #![trigger spans@[j]] 0 <= j < spans@.len() ==> spans@[j].0 <= spans@[j].1 <= cs@.len(),
            strings_view(fs) =~= span_texts(cs@, spans@).take(k as int),
        decreases spans.len() - k,
    {
        let t = string_of(cs, spans[k].0, spans[k].1);
        let ghost before = fs@;
        fs.push(t);
        assert(strings_view(fs) =~= strings_view_seq(before).push(t@));
        k = k + 1;
    }
    fs
}

/// Reads the records of `text` that have `arity` fields, up to the first
/// line that does not (see [`records_spec`]).
pub fn scan_records(text: &str, arity: usize, shape: &str) -> (r: Records)
    ensures
        (rows_view(r.rows@), opt_string(r.malformed)) == records_spec(text@, arity as nat, shape@),
{
    let cs = chars_of(text);
    let spans = line_spans(&cs);
    let ghost ls = lines(cs@);
    let mut rows: Vec<(usize, Vec<String>)> = Vec::new();
    let mut malformed: Option<String> = None;
    let mut k: usize = 0;
    assert(rows_view(rows@) =~= Seq::<(nat, Seq<Seq<char>>)>::empty());
    while k < spans.len() && malformed.is_none()
        invariant
            cs@ == text@,
            ls == lines(cs@),
            span_texts(cs@, spans@) == ls,
            forall|j: int|
                #![trigger spans@[j]] 0 <= j < spans@.len() ==> spans@[j].0 <= spans@[j].1 <= cs@.len(),
            k <= spans@.len(),
            records_prefix(ls, k as int, arity as nat, shape@) == (rows_view(rows@), opt_string(malformed)),
            malformed is Some ==> records_prefix(ls, ls.len() as int, arity as nat, shape@) == records_prefix(
                ls,
                k as int,
                arity as nat,
                shape@,
            ),
        decreases spans.len() - k + if malformed is Some { 0int } else { 1int },
    {
        let (l0, l1) = spans[k];
        let ghost line = cs@.subrange(l0 as int, l1 as int);
        assert(ls[k as int] == line);
        let (a, b) = trim_span(&cs, l0, l1);
        if a == b || cs[a] == '#' {
            assert(record_line(line, (k + 1) as nat, arity as nat, shape@) is None);
        } else {
            let fs = field_strings(&cs, a, b);
            if fs.len() == arity {
                let ghost before = rows@;
                let row = (k + 1, fs);
                rows.push(row);
                assert(rows_view(rows@) =~= rows_view(before).push(((k + 1) as nat, strings_view(row.1))));
            } else {
                let mut e = String::new();
                push_line_prefix(&mut e, k + 1);
                push_str(&mut e, "expected \"");
                push_str(&mut e, shape);
                push_str(&mut e, "\", got ");
                push_debug(&mut e, &cs, a, b);
                malformed = Some(e);
                proof {
                    lemma_records_stop(ls, k as int + 1, ls.len() as int, arity as nat, shape@);
                }
            }
        }
        k = k + 1;
    }
    Records { rows, malformed }
}

proof fn lemma_records_stop(ls: Seq<Seq<char>>, k: int, n: int, arity: nat, shape: Seq<char>)
    requires
        1 <= k <= n,
        records_prefix(ls, k, arity, shape).1 is Some,
    ensures
        records_prefix(ls, n, arity, shape) == records_prefix(ls, k, arity, shape),
    decreases n - k,
{
    if n > k {
        lemma_records_stop(ls, k, n - 1, arity, shape);
    }
}

// ---------------------------------------------------------------------
// Link topologies.
// ---------------------------------------------------------------------

/// A record of a topology file: a link (its line number, endpoints, and
/// bandwidth, latency and loss as written) or a path query.
#[derive(Debug, Clone, PartialEq, Eq)]
pub enum LinkRecord {
    Edge(usize, String, String, String, String, String),
    Query(String, String),
}

/// A topology record as plain values.
pub enum LinkView {
    Edge(nat, Seq<char>, Seq<char>, Seq<char>, Seq<char>, Seq<char>),
    Query(Seq<char>, Seq<char>),
}

pub open spec fn link_view(r: LinkRecord) -> LinkView {
    match r {
        LinkRecord::Edge(n, a, b, bw, lat, loss) => LinkView::Edge(n as nat, a@, b@, bw@, lat@, loss@),
        LinkRecord::Query(a, b) => LinkView::Query(a@, b@),
    }
}

/// What line `line` (numbered `n`) of a topology holds.
pub open spec fn link_line(line: Seq<char>, n: nat) -> Option<Result<LinkView, Seq<char>>> {
    let t = trim(line);
    let fs = fields_of(t);
    if t.len() == 0 || t[0] == '#' {
        None
    } else if fs.len() == 6 && fs[0] == "edge"@ {
        Some(Ok(LinkView::Edge(n, fs[1], fs[2], fs[3], fs[4], fs[5])))
    } else if fs.len() == 3 && fs[0] == "query"@ {
        Some(Ok(LinkView::Query(fs[1], fs[2])))
    } else {
        Some(
            Err(
                line_prefix(n) + "expected \"edge,from,to,bandwidth,latency,loss\" or \"query,from,to\", got "@
                    + debug_str(t),
            ),
        )
    }
}

/// The records of the first `k` lines of a topology and the first
/// malformed line's error.
pub open spec fn links_prefix(ls: Seq<Seq<char>>, k: int) -> (Seq<LinkView>, Option<Seq<char>>)
    decreases k,
{
    if k <= 0 {
        (Seq::empty(), None)
    } else {
        let prev = links_prefix(ls, k - 1);
        if prev.1 is Some {
            prev
        } else {
            match link_line(ls[k - 1], k as nat) {
                None => prev,
                Some(Ok(r)) => (prev.0.push(r), None),
                Some(Err(e)) => (prev.0, Some(e)),
            }
        }
    }
}

/// Whether some record is a link.
pub open spec fn has_edge(rs: Seq<LinkView>) -> bool {
    exists|i: int| 0 <= i < rs.len() && rs[i] is Edge
}

/// The records of a topology up to its first malformed line, and what
/// ends it: that line's error, or the error for a topology without any
/// link, or nothing.
pub open spec fn topology_spec(text: Seq<char>) -> (Seq<LinkView>, Option<Seq<char>>) {
    let p = links_prefix(lines(text), lines(text).len() as int);
    if p.1 is None && !has_edge(p.0) {
        (p.0, Some("no \"edge,...\" lines declared"@))
    } else {
        p
    }
}

/// A topology read from a file: its records, and why reading stopped
/// short, if it did.
#[derive(Debug, Clone, PartialEq, Eq)]
pub struct Topology {
    pub records: Vec<LinkRecord>,
    pub error: Option<String>,
}

proof fn lemma_links_stop(ls: Seq<Seq<char>>, k: int, n: int)
    requires
        1 <= k <= n,
        links_prefix(ls, k).1 is Some,
    ensures
        links_prefix(ls, n) == links_prefix(ls, k),
    decreases n - k,
{
    if n > k {
        lemma_links_stop(ls, k, n - 1);
    }
}

/// Reads a topology (see [`topology_spec`]).
pub fn scan_topology(text: &str) -> (t: Topology)
    ensures
        (t.records@.map_values(|r: LinkRecord| link_view(r)), opt_string(t.error)) == topology_spec(text@),
{
    let cs = chars_of(text);
    let spans = line_spans(&cs);
    let ghost ls = lines(cs@);
    let mut records: Vec<LinkRecord> = Vec::new();
    let mut error: Option<String> = None;
    let mut edges: usize = 0;
    let mut k: usize = 0;
    assert(records@.map_values(|r: LinkRecord| link_view(r)) =~= Seq::<LinkView>::empty());
    while k < spans.len() && error.is_none()
        invariant
            cs@ == text@,
            ls == lines(cs@),
            span_texts(cs@, spans@) == ls,
            forall|j: int|
                #![trigger spans@[j]] 0 <= j < spans@.len() ==> spans@[j].0 <= spans@[j].1 <= cs@.len(),
            k <= spans@.len(),
            edges <= k,
            links_prefix(ls, k as int) == (records@.map_values(|r: LinkRecord| link_view(r)), opt_string(error)),
            (edges > 0) == has_edge(records@.map_values(|r: LinkRecord| link_view(r))),
            error is Some ==> links_prefix(ls, ls.len() as int) == links_prefix(ls, k as int),
        decreases spans.len() - k + if error is Some { 0int } else { 1int },
    {
        let (l0, l1) = spans[k];
        let ghost line = cs@.subrange(l0 as int, l1 as int);
        assert(ls[k as int] == line);
        let (a, b) = trim_span(&cs, l0, l1);
        if a == b || cs[a] == '#' {
            assert(link_line(line, (k + 1) as nat) is None);
        } else {
            let spans_f = field_spans(&cs, a, b);
            let ghost fs = fields_of(cs@.subrange(a as int, b as int));
            let ghost before = records@.map_values(|r: LinkRecord| link_view(r));
            let is_edge = spans_f.len() == 6 && span_is(&cs, spans_f[0].0, spans_f[0].1, "edge");
            let is_query = !is_edge && spans_f.len() == 3 && span_is(&cs, spans_f[0].0, spans_f[0].1, "query");
            if is_edge {
                let r = LinkRecord::Edge(
                    k + 1,
                    string_of(&cs, spans_f[1].0, spans_f[1].1),
                    string_of(&cs, spans_f[2].0, spans_f[2].1),
                    string_of(&cs, spans_f[3].0, spans_f[3].1),
                    string_of(&cs, spans_f[4].0, spans_f[4].1),
                    string_of(&cs, spans_f[5].0, spans_f[5].1),
                );
                records.push(r);
                edges = edges + 1;
                proof {
                    assert(records@.map_values(|r: LinkRecord| link_view(r)) =~= before.push(link_view(r)));
                    let rv = records@.map_values(|r: LinkRecord| link_view(r));
                    assert(rv[rv.len() - 1] is Edge);
                }
            } else if is_query {
                let r = LinkRecord::Query(
                    string_of(&cs, spans_f[1].0, spans_f[1].1),
                    string_of(&cs, spans_f[2].0, spans_f[2].1),
                );
                records.push(r);
                proof {
                    let rv = records@.map_values(|r: LinkRecord| link_view(r));
                    assert(rv =~= before.push(link_view(r)));
                    if has_edge(rv) {
                        let i = choose|i: int| 0 <= i < rv.len() && rv[i] is Edge;
                        assert(i < before.len());
                        assert(before[i] is Edge);
                    }
                    if has_edge(before) {
                        let i = choose|i: int| 0 <= i < before.len() && before[i] is Edge;
                        assert(rv[i] is Edge);
                    }
                }
            } else {
                let mut e = String::new();
                push_line_prefix(&mut e, k + 1);
                push_str(&mut e, "expected \"edge,from,to,bandwidth,latency,loss\" or \"query,from,to\", got ");
                push_debug(&mut e, &cs, a, b);
                error = Some(e);
                proof {
                    lemma_links_stop(ls, k as int + 1, ls.len() as int);
                }
            }
        }
        k = k + 1;
    }
    if error.is_none() && edges == 0 {
        error = Some(lit("no \"edge,...\" lines declared"));
    }
    Topology { records, error }
}

} // verus!
