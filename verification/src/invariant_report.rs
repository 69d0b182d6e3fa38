//! The tool-agnostic invariant report: one `name|status|description` line
//! per invariant, `#` comments and blank lines skipped.

use vstd::prelude::*;
use crate::text::{
    chars_of, debug_str, decimal, find_from, line_spans, lines, push_debug, push_decimal, push_str,
    span_is, span_texts, string_of, trim, trim_span,
};

verus! {

/// The verdict a model checker reached on one invariant.
#[derive(Debug, Clone, Copy, PartialEq, Eq)]
pub enum Status {
    Holds,
    Violated,
    /// Not explored far enough to say either way.
    Unknown,
}

/// One reported invariant.
#[derive(Debug, Clone)]
pub struct Invariant {
    pub name: String,
    pub status: Status,
    pub description: String,
}

/// What a report line yields: its name, status and description.
pub type InvariantLine = (Seq<char>, Status, Seq<char>);

/// `"line {n}: "`
pub open spec fn line_prefix(n: nat) -> Seq<char> {
    "line "@ + decimal(n) + ": "@
}

/// The status named by `s`, if any.
pub open spec fn status_of(s: Seq<char>) -> Option<Status> {
    if s == "holds"@ {
        Some(Status::Holds)
    } else if s == "violated"@ {
        Some(Status::Violated)
    } else if s == "unknown"@ {
        Some(Status::Unknown)
    } else {
        None
    }
}

/// What line `line` (numbered `n` from 1) contributes: nothing for a blank
/// or comment line, else an invariant or the error that rejects the line.
/// Only the first two `|` separate fields; the description may hold more.
pub open spec fn report_line(line: Seq<char>, n: nat) -> Option<Result<InvariantLine, Seq<char>>> {
    let t = trim(line);
    if t.len() == 0 || t[0] == '#' {
        None
    } else {
        let p1 = find_from(t, '|', 0);
        let p2 = find_from(t, '|', p1 + 1);
        if p1 >= t.len() || p2 >= t.len() {
            Some(
                Err(
                    line_prefix(n) + "expected \"name|status|description\", got "@ + debug_str(line),
                ),
            )
        } else {
            let name = t.subrange(0, p1);
            let status = t.subrange(p1 + 1, p2);
            let description = t.subrange(p2 + 1, t.len() as int);
            match status_of(status) {
                None => Some(
                    Err(
                        line_prefix(n) + "unknown status "@ + debug_str(status)
                            + " (expected \"holds\", \"violated\", or \"unknown\") in "@ + debug_str(line),
                    ),
                ),
                Some(st) => if name.len() == 0 {
                    Some(Err(line_prefix(n) + "empty invariant name in "@ + debug_str(line)))
                } else {
                    Some(Ok((name, st, description)))
                },
            }
        }
    }
}

/// The report read from its first `k` lines; the first bad line decides
/// the error.
pub open spec fn report_prefix(ls: Seq<Seq<char>>, k: int) -> Result<Seq<InvariantLine>, Seq<char>>
    decreases k,
{
    if k <= 0 {
        Ok(Seq::empty())
    } else {
        match report_prefix(ls, k - 1) {
            Err(e) => Err(e),
            Ok(v) => match report_line(ls[k - 1], k as nat) {
                None => Ok(v),
                Some(Ok(inv)) => Ok(v.push(inv)),
                Some(Err(e)) => Err(e),
            },
        }
    }
}

/// Once a line is rejected, every longer prefix of the report is
/// rejected with the same error.
pub proof fn lemma_report_error_sticks(ls: Seq<Seq<char>>, k: int, n: int)
    requires
        1 <= k <= n,
        report_prefix(ls, k) is Err,
    ensures
        report_prefix(ls, n) == report_prefix(ls, k),
    decreases n - k,
{
    if n > k {
        lemma_report_error_sticks(ls, k, n - 1);
    }
}

/// The whole report read from `text`.
pub open spec fn report_spec(text: Seq<char>) -> Result<Seq<InvariantLine>, Seq<char>> {
    report_prefix(lines(text), lines(text).len() as int)
}

/// An invariant as the plain values a report line yields.
pub open spec fn invariant_view(inv: Invariant) -> InvariantLine {
    (inv.name@, inv.status, inv.description@)
}

/// Parses `text` into its invariants, in file order; fails on the first
/// malformed line, naming it by its 1-based number.
pub fn parse(text: &str) -> (r: Result<Vec<Invariant>, String>)
    ensures
        match (r, report_spec(text@)) {
            (Ok(v), Ok(w)) => v@.map_values(|inv: Invariant| invariant_view(inv)) == w,
            (Err(e), Err(f)) => e@ == f,
            _ => false,
        },
{
    let cs = chars_of(text);
    let spans = line_spans(&cs);
    let ghost ls = lines(cs@);
    let mut invariants: Vec<Invariant> = Vec::new();
    let mut k: usize = 0;
    assert(invariants@.map_values(|inv: Invariant| invariant_view(inv)) =~= Seq::<InvariantLine>::empty());
    while k < spans.len()
        invariant
            cs@ == text@,
            ls == lines(cs@),
            span_texts(cs@, spans@) == ls,
            forall|j: int|
                #![trigger spans@[j]] 0 <= j < spans@.len() ==> spans@[j].0 <= spans@[j].1 <= cs@.len(),
            k <= spans@.len(),
            report_prefix(ls, k as int) == Ok::<Seq<InvariantLine>, Seq<char>>(
                invariants@.map_values(|inv: Invariant| invariant_view(inv)),
            ),
        decreases spans.len() - k,
    {
        let (ls0, le0) = spans[k];
        let ghost line = cs@.subrange(ls0 as int, le0 as int);
        assert(ls[k as int] == line);
        let line_no = k + 1;
        let (a, b) = trim_span(&cs, ls0, le0);
        let ghost t = cs@.subrange(a as int, b as int);
        if a == b || cs[a] == '#' {
            assert(report_line(line, line_no as nat) is None);
            k = k + 1;
            continue;
        }
        let mut p1 = a;
        while p1 < b && cs[p1] != '|'
            invariant
                a <= p1 <= b <= cs@.len(),
                t == cs@.subrange(a as int, b as int),
                find_from(t, '|', 0) == find_from(t, '|', p1 - a),
            decreases b - p1,
        {
            p1 = p1 + 1;
        }
        let mut p2 = if p1 < b { p1 + 1 } else { b };
        while p2 < b && cs[p2] != '|'
            invariant
                a <= p1 <= b <= cs@.len(),
                p1 < b ==> p1 + 1 <= p2 <= b,
                p1 == b ==> p2 == b,
                t == cs@.subrange(a as int, b as int),
                p1 < b ==> find_from(t, '|', p1 - a + 1) == find_from(t, '|', p2 - a),
            decreases b - p2,
        {
            p2 = p2 + 1;
        }
        if p1 == b || p2 == b {
            let mut e = String::new();
            push_line_prefix(&mut e, line_no);
            push_str(&mut e, "expected \"name|status|description\", got ");
            push_debug(&mut e, &cs, ls0, le0);
            proof {
                assert(report_line(line, line_no as nat) == Some(
                    Err::<InvariantLine, Seq<char>>(e@),
                ));
            }
            proof {
                lemma_report_error_sticks(ls, k as int + 1, ls.len() as int);
            }
            return Err(e);
        }
        let status = if span_is(&cs, p1 + 1, p2, "holds") {
            Status::Holds
        } else if span_is(&cs, p1 + 1, p2, "violated") {
            Status::Violated
        } else if span_is(&cs, p1 + 1, p2, "unknown") {
            Status::Unknown
        } else {
            let mut e = String::new();
            push_line_prefix(&mut e, line_no);
            push_str(&mut e, "unknown status ");
            push_debug(&mut e, &cs, p1 + 1, p2);
            push_str(&mut e, " (expected \"holds\", \"violated\", or \"unknown\") in ");
            push_debug(&mut e, &cs, ls0, le0);
            proof {
                assert(t.subrange(p1 - a + 1, p2 - a) =~= cs@.subrange(p1 + 1, p2 as int));
                assert(report_line(line, line_no as nat) == Some(
                    Err::<InvariantLine, Seq<char>>(e@),
                ));
            }
            proof {
                lemma_report_error_sticks(ls, k as int + 1, ls.len() as int);
            }
            return Err(e);
        };
        assert(t.subrange(p1 - a + 1, p2 - a) =~= cs@.subrange(p1 + 1, p2 as int));
        if p1 == a {
            let mut e = String::new();
            push_line_prefix(&mut e, line_no);
            push_str(&mut e, "empty invariant name in ");
            push_debug(&mut e, &cs, ls0, le0);
            proof {
                assert(report_line(line, line_no as nat) == Some(
                    Err::<InvariantLine, Seq<char>>(e@),
                ));
            }
            proof {
                lemma_report_error_sticks(ls, k as int + 1, ls.len() as int);
            }
            return Err(e);
        }
        let inv = Invariant {
            name: string_of(&cs, a, p1),
            status,
            description: string_of(&cs, p2 + 1, b),
        };
        proof {
            assert(t.subrange(0, p1 - a) =~= cs@.subrange(a as int, p1 as int));
            assert(t.subrange(p2 - a + 1, t.len() as int) =~= cs@.subrange(p2 + 1, b as int));
            assert(report_line(line, line_no as nat) == Some(
                Ok::<InvariantLine, Seq<char>>(invariant_view(inv)),
            ));
        }
        let ghost before = invariants@;
        invariants.push(inv);
        assert(invariants@.map_values(|inv: Invariant| invariant_view(inv)) =~= before.map_values(
            |inv: Invariant| invariant_view(inv),
        ).push(invariant_view(inv)));
        k = k + 1;
    }
    Ok(invariants)
}

/// Appends `"line {n}: "` to `s`.
pub fn push_line_prefix(s: &mut String, n: usize)
    ensures
        final(s)@ == old(s)@ + line_prefix(n as nat),
{
    push_str(s, "line ");
    push_decimal(s, n as u128);
    push_str(s, ": ");
    assert(s@ =~= old(s)@ + line_prefix(n as nat));
}

} // verus!
