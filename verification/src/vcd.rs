//! Value Change Dump (IEEE 1364/1800) reader: `$var` declarations,
//! `$timescale`, and scalar, vector and real value changes, with signal
//! names taken flat (no scope hierarchy).

use vstd::prelude::*;
use crate::text::{chars_of, lit, debug_str, parse_unsigned, parse_unsigned_span, push_debug, push_str, span_is,
    span_texts, string_of, token_spans, tokens};

verus! {

/// One declared signal.
#[derive(Debug, Clone)]
pub struct Signal {
    /// The short identifier code value changes refer to it by.
    pub id: String,
    pub name: String,
    pub width: u32,
}

/// One recorded value change.
#[derive(Debug, Clone)]
pub struct ValueChange {
    pub time: u64,
    pub id: String,
    /// `0`/`1`/`x`/`z` for a scalar signal, the binary digits (no `b`)
    /// of a vector one, the text after `r` of a real one.
    pub value: String,
}

/// A parsed capture.
#[derive(Debug, Clone)]
pub struct VcdFile {
    /// The text of `$timescale`, e.g. `1 ns`.
    pub timescale: String,
    pub signals: Vec<Signal>,
    pub changes: Vec<ValueChange>,
}

/// A signal as plain values: id, name, width.
pub type SignalView = (Seq<char>, Seq<char>, u32);

/// A value change as plain values: time, id, value.
pub type ChangeView = (u64, Seq<char>, Seq<char>);

pub open spec fn signal_view(s: Signal) -> SignalView {
    (s.id@, s.name@, s.width)
}

pub open spec fn change_view(c: ValueChange) -> ChangeView {
    (c.time, c.id@, c.value@)
}

/// What has been read so far.
pub struct VcdScan {
    pub timescale: Seq<char>,
    pub signals: Seq<SignalView>,
    pub changes: Seq<ChangeView>,
    pub time: u64,
    pub header: bool,
}

/// Index of the first `$end` token at or after `i`, or the end.
pub open spec fn skip_to_end(toks: Seq<Seq<char>>, i: int) -> int
    decreases toks.len() - i,
{
    if i >= toks.len() {
        if i > toks.len() {
            i
        } else {
            toks.len() as int
        }
    } else if toks[i] == "$end"@ {
        i
    } else {
        skip_to_end(toks, i + 1)
    }
}

pub proof fn lemma_skip_to_end_bounds(toks: Seq<Seq<char>>, i: int)
    ensures
        skip_to_end(toks, i) >= i,
        i <= toks.len() ==> skip_to_end(toks, i) <= toks.len(),
    decreases toks.len() - i,
{
    if i < toks.len() && toks[i] != "$end"@ {
        lemma_skip_to_end_bounds(toks, i + 1);
    }
}

/// `parts` joined with single spaces.
pub open spec fn join_space(parts: Seq<Seq<char>>) -> Seq<char>
    decreases parts.len(),
{
    if parts.len() == 0 {
        Seq::empty()
    } else if parts.len() == 1 {
        parts[0]
    } else {
        join_space(parts.drop_last()) + seq![' '] + parts.last()
    }
}

pub open spec fn is_dump_keyword(t: Seq<char>) -> bool {
    t == "$dumpvars"@ || t == "$dumpon"@ || t == "$dumpoff"@ || t == "$dumpall"@ || t == "$end"@
}

/// The result of reading `toks` from token `i` on, in state `st`.
pub open spec fn vcd_from(toks: Seq<Seq<char>>, i: int, st: VcdScan) -> Result<VcdScan, Seq<char>>
    decreases toks.len() + 1 - i,
{
    if i < 0 || i >= toks.len() {
        Ok(st)
    } else {
        let tok = toks[i];
        if st.header {
            if tok == "$var"@ {
                if i + 2 >= toks.len() {
                    Err("$var: truncated (missing size)"@)
                } else if i + 3 >= toks.len() {
                    Err("$var: truncated (missing id)"@)
                } else if i + 4 >= toks.len() {
                    Err("$var: truncated (missing name)"@)
                } else if toks[i + 3] == "$end"@ || toks[i + 4] == "$end"@ {
                    Err("$var: truncated (ended before id/name were given)"@)
                } else {
                    match parse_unsigned(toks[i + 2], u32::MAX as nat) {
                        None => Err("$var: invalid size "@ + debug_str(toks[i + 2])),
                        Some(w) => {
                            let j = skip_to_end(toks, i + 5);
                            proof {
                                lemma_skip_to_end_bounds(toks, i + 5);
                            }
                            vcd_from(
                                toks,
                                j + 1,
                                VcdScan {
                                    signals: st.signals.push((toks[i + 3], toks[i + 4], w as u32)),
                                    ..st
                                },
                            )
                        },
                    }
                }
            } else if tok == "$timescale"@ {
                let j = skip_to_end(toks, i + 1);
                proof {
                    lemma_skip_to_end_bounds(toks, i + 1);
                }
                vcd_from(
                    toks,
                    j + 1,
                    VcdScan { timescale: join_space(toks.subrange(i + 1, j)), ..st },
                )
            } else if tok == "$enddefinitions"@ {
                if i + 1 < toks.len() && toks[i + 1] == "$end"@ {
                    vcd_from(toks, i + 2, VcdScan { header: false, ..st })
                } else {
                    vcd_from(toks, i + 1, VcdScan { header: false, ..st })
                }
            } else if tok.len() > 0 && tok[0] == '$' {
                let j = skip_to_end(toks, i + 1);
                proof {
                    lemma_skip_to_end_bounds(toks, i + 1);
                }
                vcd_from(toks, j + 1, st)
            } else {
                Err("unexpected token in header: "@ + debug_str(tok))
            }
        } else if tok.len() == 0 {
            Err("empty token in data section"@)
        } else if tok[0] == '#' {
            match parse_unsigned(tok.drop_first(), u64::MAX as nat) {
                None => Err("invalid time marker "@ + debug_str(tok)),
                Some(t) => vcd_from(toks, i + 1, VcdScan { time: t as u64, ..st }),
            }
        } else if is_dump_keyword(tok) {
            vcd_from(toks, i + 1, st)
        } else if tok[0] == 'b' || tok[0] == 'B' {
            if i + 1 >= toks.len() {
                Err("vector value "@ + debug_str(tok) + " missing its id"@)
            } else {
                vcd_from(
                    toks,
                    i + 2,
                    VcdScan { changes: st.changes.push((st.time, toks[i + 1], tok.drop_first())), ..st },
                )
            }
        } else if tok[0] == 'r' || tok[0] == 'R' {
            if i + 1 >= toks.len() {
                Err("real value "@ + debug_str(tok) + " missing its id"@)
            } else {
                vcd_from(
                    toks,
                    i + 2,
                    VcdScan { changes: st.changes.push((st.time, toks[i + 1], tok.drop_first())), ..st },
                )
            }
        } else if tok.len() == 1 {
            Err("malformed scalar value change "@ + debug_str(tok))
        } else {
            vcd_from(
                toks,
                i + 1,
                VcdScan { changes: st.changes.push((st.time, tok.drop_first(), seq![tok[0]])), ..st },
            )
        }
    }
}

/// The capture read from `text`: its timescale, signals and changes.
pub open spec fn vcd_spec(text: Seq<char>) -> Result<VcdScan, Seq<char>> {
    vcd_from(
        tokens(text),
        0,
        VcdScan {
            timescale: Seq::empty(),
            signals: Seq::empty(),
            changes: Seq::empty(),
            time: 0,
            header: true,
        },
    )
}

/// Whether `f` holds what `st` has read.
pub open spec fn file_matches(f: VcdFile, st: VcdScan) -> bool {
    &&& f.timescale@ == st.timescale
    &&& f.signals@.map_values(|s: Signal| signal_view(s)) == st.signals
    &&& f.changes@.map_values(|c: ValueChange| change_view(c)) == st.changes
}

/// The largest time among `changes`, 0 if there is none.
pub open spec fn max_time(changes: Seq<ChangeView>) -> u64
    decreases changes.len(),
{
    if changes.len() == 0 {
        0
    } else {
        let m = max_time(changes.drop_last());
        if changes.last().0 > m {
            changes.last().0
        } else {
            m
        }
    }
}

/// `(time, value)` of each change to signal `id`, in order.
pub open spec fn timeline_of(changes: Seq<ChangeView>, id: Seq<char>) -> Seq<(u64, Seq<char>)>
    decreases changes.len(),
{
    if changes.len() == 0 {
        Seq::empty()
    } else if changes.last().1 == id {
        timeline_of(changes.drop_last(), id).push((changes.last().0, changes.last().2))
    } else {
        timeline_of(changes.drop_last(), id)
    }
}

/// A signal's timeline is exactly the recorded changes whose id is the
/// whole requested id (not one that merely starts with it), in recorded
/// order, each as its time and value.
pub proof fn timeline_is_the_changes_of_that_id(changes: Seq<ChangeView>, id: Seq<char>)
    ensures
        timeline_of(changes, id) == changes.filter(|c: ChangeView| c.1 == id).map_values(
            |c: ChangeView| (c.0, c.2),
        ),
    decreases changes.len(),
{
    reveal(Seq::filter);
    if changes.len() > 0 {
        let rest = changes.drop_last();
        timeline_is_the_changes_of_that_id(rest, id);
        let kept = rest.filter(|c: ChangeView| c.1 == id);
        let c = changes.last();
        assert(kept.push(c).map_values(|c: ChangeView| (c.0, c.2)) =~= kept.map_values(
            |c: ChangeView| (c.0, c.2),
        ).push((c.0, c.2)));
    }
}

/// Whether `c` marks an unknown or high-impedance bit.
pub open spec fn is_unknown_char(c: char) -> bool {
    c == 'x' || c == 'X' || c == 'z' || c == 'Z'
}

/// Whether some change's value holds an unknown or high-impedance bit.
pub open spec fn any_unknown(changes: Seq<ChangeView>) -> bool {
    exists|k: int, j: int|
        0 <= k < changes.len() && 0 <= j < changes[k].2.len() && is_unknown_char(
            #[trigger] changes[k].2[j],
        )
}

impl VcdFile {
    /// The changes as plain values.
    pub open spec fn change_views(&self) -> Seq<ChangeView> {
        self.changes@.map_values(|c: ValueChange| change_view(c))
    }

    /// The last (largest) time across every value change, `0` when there
    /// are none.
    pub fn duration(&self) -> (d: u64)
        ensures
            d == max_time(self.change_views()),
    {
        let mut d: u64 = 0;
        let mut i: usize = 0;
        while i < self.changes.len()
            invariant
                i <= self.changes@.len(),
                d == max_time(self.change_views().take(i as int)),
            decreases self.changes.len() - i,
        {
            assert(self.change_views().take(i + 1).drop_last() =~= self.change_views().take(i as int));
            if self.changes[i].time > d {
                d = self.changes[i].time;
            }
            i = i + 1;
        }
        assert(self.change_views().take(i as int) =~= self.change_views());
        d
    }

    /// One signal's changes as `(time, value)`, in recorded order.
    pub fn timeline(&self, id: &str) -> (line: Vec<(u64, &str)>)
        ensures
            line@.map_values(|p: (u64, &str)| (p.0, p.1@)) == timeline_of(self.change_views(), id@),
    {
        let wanted = string_of(&chars_of(id), 0, chars_of(id).len());
        let mut line: Vec<(u64, &str)> = Vec::new();
        let mut i: usize = 0;
        while i < self.changes.len()
            invariant
                i <= self.changes@.len(),
                wanted@ == id@,
                line@.map_values(|p: (u64, &str)| (p.0, p.1@)) == timeline_of(
                    self.change_views().take(i as int),
                    id@,
                ),
            decreases self.changes.len() - i,
        {
            assert(self.change_views().take(i + 1).drop_last() =~= self.change_views().take(i as int));
            let c = &self.changes[i];
            if c.id == wanted {
                let ghost before = line@;
                line.push((c.time, c.value.as_str()));
                assert(line@.map_values(|p: (u64, &str)| (p.0, p.1@)) =~= before.map_values(
                    |p: (u64, &str)| (p.0, p.1@),
                ).push((c.time, c.value@)));
            }
            i = i + 1;
        }
        assert(self.change_views().take(i as int) =~= self.change_views());
        line
    }

    /// Whether any recorded value holds an unknown (`x`/`X`) or
    /// high-impedance (`z`/`Z`) character anywhere in it.
    pub fn has_unknown_or_high_z(&self) -> (found: bool)
        ensures
            found == any_unknown(self.change_views()),
    {
        let mut i: usize = 0;
        while i < self.changes.len()
            invariant
                i <= self.changes@.len(),
                forall|k: int, j: int|
                    0 <= k < i && 0 <= j < self.change_views()[k].2.len() ==> !is_unknown_char(
                        #[trigger] self.change_views()[k].2[j],
                    ),
            decreases self.changes.len() - i,
        {
            let v = chars_of(self.changes[i].value.as_str());
            let mut j: usize = 0;
            while j < v.len()
                invariant
                    i < self.changes@.len(),
                    v@ == self.change_views()[i as int].2,
                    j <= v@.len(),
                    forall|jj: int| 0 <= jj < j ==> !is_unknown_char(#[trigger] v@[jj]),
                decreases v.len() - j,
            {
                let c = v[j];
                if c == 'x' || c == 'X' || c == 'z' || c == 'Z' {
                    assert(is_unknown_char(self.change_views()[i as int].2[j as int]));
                    return true;
                }
                j = j + 1;
            }
            i = i + 1;
        }
        false
    }
}

/// Index of the first `$end` token at or after token `i`, or the token
/// count.
fn skip_to_end_exec(cs: &Vec<char>, spans: &Vec<(usize, usize)>, i: usize) -> (j: usize)
    requires
        i <= spans@.len(),
        forall|k: int|
            #![trigger spans@[k]]
            0 <= k < spans@.len() ==> spans@[k].0 < spans@[k].1 <= cs@.len(),
    ensures
        j == skip_to_end(span_texts(cs@, spans@), i as int),
{
    let ghost toks = span_texts(cs@, spans@);
    let mut j = i;
    while j < spans.len() && !span_is(cs, spans[j].0, spans[j].1, "$end")
        invariant
            i <= j <= spans@.len(),
            toks == span_texts(cs@, spans@),
            forall|k: int|
                #![trigger spans@[k]]
                0 <= k < spans@.len() ==> spans@[k].0 < spans@[k].1 <= cs@.len(),
            skip_to_end(toks, i as int) == skip_to_end(toks, j as int),
        decreases spans.len() - j,
    {
        j = j + 1;
    }
    j
}

/// The token index after token `j`, kept within `[0, n]`: every index
/// past the last token reads the same (nothing left).
fn after(j: usize, n: usize) -> (i: usize)
    requires
        j <= n,
    ensures
        i <= n,
        i == j + 1 || (i == n && j == n),
{
    if j >= n {
        n
    } else {
        j + 1
    }
}

pub open spec fn after_spec(j: int, n: int) -> int {
    if j >= n { n } else { j + 1 }
}

/// Reads a VCD capture: the header's `$var` and `$timescale` commands,
/// other header commands skipped to their `$end`, then time markers and
/// value changes.
pub fn parse(text: &str) -> (r: Result<VcdFile, String>)
    ensures
        match (r, vcd_spec(text@)) {
            (Ok(f), Ok(st)) => file_matches(f, st),
            (Err(e), Err(m)) => e@ == m,
            _ => false,
        },
{
    let cs = chars_of(text);
    let spans = token_spans(&cs);
    let ghost toks = span_texts(cs@, spans@);
    let n = spans.len();
    let mut i: usize = 0;
    let mut timescale = String::new();
    let mut signals: Vec<Signal> = Vec::new();
    let mut changes: Vec<ValueChange> = Vec::new();
    let mut current_time: u64 = 0;
    let mut in_header = true;
    let ghost init = VcdScan {
        timescale: Seq::empty(),
        signals: Seq::empty(),
        changes: Seq::empty(),
        time: 0,
        header: true,
    };
    assert(signals@.map_values(|s: Signal| signal_view(s)) =~= Seq::<SignalView>::empty());
    assert(changes@.map_values(|c: ValueChange| change_view(c)) =~= Seq::<ChangeView>::empty());
    while i < n
        invariant
            cs@ == text@,
            toks == span_texts(cs@, spans@),
            toks == tokens(cs@),
            n == spans@.len(),
            forall|k: int|
                #![trigger spans@[k]]
                0 <= k < spans@.len() ==> spans@[k].0 < spans@[k].1 <= cs@.len(),
            i <= n,
            vcd_spec(text@) == vcd_from(
                toks,
                i as int,
                VcdScan {
                    timescale: timescale@,
                    signals: signals@.map_values(|s: Signal| signal_view(s)),
                    changes: changes@.map_values(|c: ValueChange| change_view(c)),
                    time: current_time,
                    header: in_header,
                },
            ),
        decreases n - i,
    {
        let (a, b) = spans[i];
        assert(toks[i as int] == cs@.subrange(a as int, b as int));
        let ghost st = VcdScan {
            timescale: timescale@,
            signals: signals@.map_values(|s: Signal| signal_view(s)),
            changes: changes@.map_values(|c: ValueChange| change_view(c)),
            time: current_time,
            header: in_header,
        };
        let ghost i0 = i as int;
        if in_header {
            if span_is(&cs, a, b, "$var") {
                if n - i <= 2 {
                    return Err(lit("$var: truncated (missing size)"));
                }
                if n - i <= 3 {
                    return Err(lit("$var: truncated (missing id)"));
                }
                if n - i <= 4 {
                    return Err(lit("$var: truncated (missing name)"));
                }
                let (sa, sb) = spans[i + 2];
                let (ia, ib) = spans[i + 3];
                let (na, nb) = spans[i + 4];
                assert(toks[i + 2] == cs@.subrange(sa as int, sb as int));
                assert(toks[i + 3] == cs@.subrange(ia as int, ib as int));
                assert(toks[i + 4] == cs@.subrange(na as int, nb as int));
                if span_is(&cs, ia, ib, "$end") || span_is(&cs, na, nb, "$end") {
                    return Err(lit("$var: truncated (ended before id/name were given)"));
                }
                let width = match parse_unsigned_span(&cs, sa, sb, u32::MAX as u64) {
                    Some(w) => w as u32,
                    None => {
                        let mut e = lit("$var: invalid size ");
                        push_debug(&mut e, &cs, sa, sb);
                        return Err(e);
                    },
                };
                let sig = Signal { id: string_of(&cs, ia, ib), name: string_of(&cs, na, nb), width };
                let ghost before = signals@;
                signals.push(sig);
                assert(signals@.map_values(|s: Signal| signal_view(s)) =~= before.map_values(
                    |s: Signal| signal_view(s),
                ).push(signal_view(sig)));
                let j = skip_to_end_exec(&cs, &spans, i + 5);
                proof {
                    lemma_skip_to_end_bounds(toks, i + 5);
                    let st2 = VcdScan {
                        signals: st.signals.push((toks[i0 + 3], toks[i0 + 4], width)),
                        ..st
                    };
                    assert(vcd_from(toks, i0, st) == vcd_from(toks, j + 1, st2));
                    assert(vcd_from(toks, j + 1, st2) == vcd_from(toks, after_spec(j as int, n as int), st2));
                }
                i = after(j, n);
            } else if span_is(&cs, a, b, "$timescale") {
                let j = skip_to_end_exec(&cs, &spans, i + 1);
                proof {
                    lemma_skip_to_end_bounds(toks, i + 1);
                }
                let mut ts = String::new();
                let mut k = i + 1;
                while k < j
                    invariant
                        i + 1 <= k <= j <= spans@.len(),
                        toks == span_texts(cs@, spans@),
                        forall|kk: int|
                            #![trigger spans@[kk]]
                            0 <= kk < spans@.len() ==> spans@[kk].0 < spans@[kk].1 <= cs@.len(),
                        ts@ == join_space(toks.subrange(i + 1, k as int)),
                    decreases j - k,
                {
                    let (ta, tb) = spans[k];
                    assert(toks[k as int] == cs@.subrange(ta as int, tb as int));
                    let ghost prev = ts@;
                    if k > i + 1 {
                        crate::text::push_char(&mut ts, ' ');
                    }
                    crate::text::push_chars(&mut ts, &cs, ta, tb);
                    assert(toks.subrange(i + 1, k + 1).drop_last() =~= toks.subrange(i + 1, k as int));
                    proof {
                        if k == i + 1 {
                            assert(prev =~= Seq::<char>::empty());
                            assert(ts@ =~= toks.subrange(i + 1, k + 1)[0]);
                        } else {
                            assert(ts@ =~= prev + seq![' '] + toks[k as int]);
                        }
                    }
                    k = k + 1;
                }
                proof {
                    assert(toks.subrange(i + 1, k as int) =~= toks.subrange(i + 1, j as int));
                    let st2 = VcdScan { timescale: ts@, ..st };
                    assert(vcd_from(toks, i0, st) == vcd_from(toks, j + 1, st2));
                    assert(vcd_from(toks, j + 1, st2) == vcd_from(toks, after_spec(j as int, n as int), st2));
                }
                timescale = ts;
                i = after(j, n);
            } else if span_is(&cs, a, b, "$enddefinitions") {
                in_header = false;
                if n - i > 1 && span_is(&cs, spans[i + 1].0, spans[i + 1].1, "$end") {
                    assert(toks[i + 1] == cs@.subrange(spans@[i + 1].0 as int, spans@[i + 1].1 as int));
                    i = i + 2;
                } else {
                    proof {
                        if n - i > 1 {
                            assert(toks[i + 1] == cs@.subrange(
                                spans@[i + 1].0 as int,
                                spans@[i + 1].1 as int,
                            ));
                        }
                    }
                    i = i + 1;
                }
            } else if cs[a] == '$' {
                let j = skip_to_end_exec(&cs, &spans, i + 1);
                proof {
                    lemma_skip_to_end_bounds(toks, i + 1);
                    assert(toks[i0] != "$var"@);
                    assert(toks[i0] != "$timescale"@);
                    assert(toks[i0] != "$enddefinitions"@);
                    assert(toks[i0][0] == '$');
                    assert(vcd_from(toks, i0, st) == vcd_from(toks, j + 1, st));
                    assert(vcd_from(toks, j + 1, st) == vcd_from(toks, after_spec(j as int, n as int), st));
                }
                i = after(j, n);
            } else {
                let mut e = lit("unexpected token in header: ");
                push_debug(&mut e, &cs, a, b);
                return Err(e);
            }
        } else {
            let c0 = cs[a];
            if c0 == '#' {
                match parse_unsigned_span(&cs, a + 1, b, u64::MAX) {
                    Some(t) => {
                        assert(cs@.subrange(a + 1, b as int) =~= toks[i as int].drop_first());
                        current_time = t;
                        i = i + 1;
                    },
                    None => {
                        assert(cs@.subrange(a + 1, b as int) =~= toks[i as int].drop_first());
                        let mut e = lit("invalid time marker ");
                        push_debug(&mut e, &cs, a, b);
                        return Err(e);
                    },
                }
            } else if span_is(&cs, a, b, "$dumpvars") || span_is(&cs, a, b, "$dumpon") || span_is(
                &cs,
                a,
                b,
                "$dumpoff",
            ) || span_is(&cs, a, b, "$dumpall") || span_is(&cs, a, b, "$end") {
                i = i + 1;
            } else if c0 == 'b' || c0 == 'B' || c0 == 'r' || c0 == 'R' {
                if n - i <= 1 {
                    let mut e = lit(if c0 == 'b' || c0 == 'B' { "vector value " } else { "real value " });
                    push_debug(&mut e, &cs, a, b);
                    push_str(&mut e, " missing its id");
                    return Err(e);
                }
                let (ia, ib) = spans[i + 1];
                assert(toks[i + 1] == cs@.subrange(ia as int, ib as int));
                assert(cs@.subrange(a + 1, b as int) =~= toks[i as int].drop_first());
                let ch = ValueChange {
                    time: current_time,
                    id: string_of(&cs, ia, ib),
                    value: string_of(&cs, a + 1, b),
                };
                let ghost before = changes@;
                changes.push(ch);
                assert(changes@.map_values(|c: ValueChange| change_view(c)) =~= before.map_values(
                    |c: ValueChange| change_view(c),
                ).push(change_view(ch)));
                i = i + 2;
            } else {
                if b - a == 1 {
                    let mut e = lit("malformed scalar value change ");
                    push_debug(&mut e, &cs, a, b);
                    return Err(e);
                }
                assert(cs@.subrange(a + 1, b as int) =~= toks[i as int].drop_first());
                assert(cs@.subrange(a as int, a + 1) =~= seq![toks[i as int][0]]);
                let ch = ValueChange {
                    time: current_time,
                    id: string_of(&cs, a + 1, b),
                    value: string_of(&cs, a, a + 1),
                };
                let ghost before = changes@;
                changes.push(ch);
                assert(changes@.map_values(|c: ValueChange| change_view(c)) =~= before.map_values(
                    |c: ValueChange| change_view(c),
                ).push(change_view(ch)));
                i = i + 1;
            }
        }
        assert(vcd_from(toks, i0, st) == vcd_from(
            toks,
            i as int,
            VcdScan {
                timescale: timescale@,
                signals: signals@.map_values(|s: Signal| signal_view(s)),
                changes: changes@.map_values(|c: ValueChange| change_view(c)),
                time: current_time,
                header: in_header,
            },
        ));
    }
    Ok(VcdFile { timescale, signals, changes })
}

} // verus!
