//! The `.ca-pattern` declaration of a starting board and rule: `width`,
//! `height`, `birth` and `survive` lines, and any number of `cell,x,y`
//! lines, comma separated, `#` comments and blank lines skipped.

use vstd::prelude::*;
use crate::cellular::{Board, Rule, cell_index, mask_of};
use crate::invariant_report::{line_prefix, push_line_prefix};
use crate::text::{
    chars_of, debug_str, decimal, find_from, line_spans, lines, parse_unsigned, parse_unsigned_span,
    push_debug, push_decimal, push_str, span_is, span_texts, trim, trim_span, lemma_find_from_bounds,
};
use crate::text::lit;

verus! {

/// The comma-separated pieces of `s` from index `i` on.
pub open spec fn split_from(s: Seq<char>, i: int) -> Seq<Seq<char>>
    decreases s.len() + 1 - i,
{
    if i < 0 || i > s.len() {
        Seq::empty()
    } else {
        let k = find_from(s, ',', i);
        proof {
            lemma_find_from_bounds(s, ',', i);
        }
        if k >= s.len() {
            seq![s.subrange(i, s.len() as int)]
        } else {
            seq![s.subrange(i, k)] + split_from(s, k + 1)
        }
    }
}

/// The comma-separated fields of `s`, each trimmed.
pub open spec fn fields_of(s: Seq<char>) -> Seq<Seq<char>> {
    split_from(s, 0).map_values(|f: Seq<char>| trim(f))
}

/// What has been read of a pattern so far.
pub struct PatternScan {
    pub width: Option<usize>,
    pub height: Option<usize>,
    pub birth: Option<Seq<u8>>,
    pub survive: Option<Seq<u8>>,
    pub cells: Seq<(usize, usize)>,
}

/// The single value of a `name` line with fields `rest`.
pub open spec fn usize_field(rest: Seq<Seq<char>>, n: nat, name: Seq<char>) -> Result<usize, Seq<char>> {
    if rest.len() == 0 {
        Err(line_prefix(n) + name + " needs a value"@)
    } else {
        match parse_unsigned(rest[0], usize::MAX as nat) {
            Some(v) => Ok(v as usize),
            None => Err(line_prefix(n) + "invalid "@ + name + " "@ + debug_str(rest[0])),
        }
    }
}

/// The first `k` counts of a `name` line.
pub open spec fn counts_prefix(rest: Seq<Seq<char>>, n: nat, name: Seq<char>, k: int) -> Result<Seq<u8>, Seq<char>>
    decreases k,
{
    if k <= 0 {
        Ok(Seq::empty())
    } else {
        match counts_prefix(rest, n, name, k - 1) {
            Err(e) => Err(e),
            Ok(v) => match parse_unsigned(rest[k - 1], 0xFF) {
                Some(c) => Ok(v.push(c as u8)),
                None => Err(line_prefix(n) + "invalid "@ + name + " value "@ + debug_str(rest[k - 1])),
            },
        }
    }
}

/// The counts of a `name` line with fields `rest`; at least one is needed.
pub open spec fn counts_field(rest: Seq<Seq<char>>, n: nat, name: Seq<char>) -> Result<Seq<u8>, Seq<char>> {
    if rest.len() == 0 {
        Err(line_prefix(n) + name + " needs at least one value"@)
    } else {
        counts_prefix(rest, n, name, rest.len() as int)
    }
}

/// The scan after line `line` (numbered `n`).
pub open spec fn pattern_line(st: PatternScan, line: Seq<char>, n: nat) -> Result<PatternScan, Seq<char>> {
    let t = trim(line);
    if t.len() == 0 || t[0] == '#' {
        Ok(st)
    } else {
        let fs = fields_of(t);
        let tag = fs[0];
        let rest = fs.drop_first();
        if tag == "width"@ {
            match usize_field(rest, n, "width"@) {
                Ok(v) => Ok(PatternScan { width: Some(v), ..st }),
                Err(e) => Err(e),
            }
        } else if tag == "height"@ {
            match usize_field(rest, n, "height"@) {
                Ok(v) => Ok(PatternScan { height: Some(v), ..st }),
                Err(e) => Err(e),
            }
        } else if tag == "birth"@ {
            match counts_field(rest, n, "birth"@) {
                Ok(v) => Ok(PatternScan { birth: Some(v), ..st }),
                Err(e) => Err(e),
            }
        } else if tag == "survive"@ {
            match counts_field(rest, n, "survive"@) {
                Ok(v) => Ok(PatternScan { survive: Some(v), ..st }),
                Err(e) => Err(e),
            }
        } else if tag == "cell"@ {
            if rest.len() != 2 {
                Err(line_prefix(n) + "expected \"cell,x,y\", got "@ + debug_str(t))
            } else {
                match usize_field(rest.take(1), n, "cell x"@) {
                    Err(e) => Err(e),
                    Ok(x) => match usize_field(rest.skip(1), n, "cell y"@) {
                        Err(e) => Err(e),
                        Ok(y) => Ok(PatternScan { cells: st.cells.push((x, y)), ..st }),
                    },
                }
            }
        } else {
            Err(line_prefix(n) + "unknown tag "@ + debug_str(tag))
        }
    }
}

pub open spec fn empty_pattern() -> PatternScan {
    PatternScan { width: None, height: None, birth: None, survive: None, cells: Seq::empty() }
}

/// The scan after the first `k` lines.
pub open spec fn pattern_prefix(ls: Seq<Seq<char>>, k: int) -> Result<PatternScan, Seq<char>>
    decreases k,
{
    if k <= 0 {
        Ok(empty_pattern())
    } else {
        match pattern_prefix(ls, k - 1) {
            Err(e) => Err(e),
            Ok(st) => pattern_line(st, ls[k - 1], k as nat),
        }
    }
}

/// The first of `cells` outside a `w` x `h` board, if any.
pub open spec fn first_outside(cells: Seq<(usize, usize)>, w: usize, h: usize, k: int) -> Option<(usize, usize)>
    decreases cells.len() - k,
{
    if k < 0 || k >= cells.len() {
        None
    } else if cells[k].0 >= w || cells[k].1 >= h {
        Some(cells[k])
    } else {
        first_outside(cells, w, h, k + 1)
    }
}

/// When no cell from `k` on lies off the board, every one of them lies on
/// it.
proof fn lemma_inside_all(cells: Seq<(usize, usize)>, w: usize, h: usize, k: int)
    requires
        0 <= k,
        first_outside(cells, w, h, k) is None,
    ensures
        forall|i: int| k <= i < cells.len() ==> #[trigger] cells[i].0 < w && cells[i].1 < h,
    decreases cells.len() - k,
{
    if k < cells.len() {
        lemma_inside_all(cells, w, h, k + 1);
    }
}

/// A read pattern as plain values: width, height, birth mask, survive
/// mask, live cells.
pub type PatternView = (usize, usize, Seq<bool>, Seq<bool>, Seq<(usize, usize)>);

/// The pattern `text` declares, or the error that rejects it.
pub open spec fn pattern_spec(text: Seq<char>) -> Result<PatternView, Seq<char>> {
    match pattern_prefix(lines(text), lines(text).len() as int) {
        Err(e) => Err(e),
        Ok(st) => match (st.width, st.height, st.birth, st.survive) {
            (None, _, _, _) => Err("missing \"width\" line"@),
            (Some(_), None, _, _) => Err("missing \"height\" line"@),
            (Some(_), Some(_), None, _) => Err("missing \"birth\" line"@),
            (Some(_), Some(_), Some(_), None) => Err("missing \"survive\" line"@),
            (Some(w), Some(h), Some(b), Some(s)) => pattern_finish(w, h, b, s, st.cells),
        },
    }
}

/// The pattern once every required line is present: every live cell must
/// lie on the board.
pub open spec fn pattern_finish(
    w: usize,
    h: usize,
    b: Seq<u8>,
    s: Seq<u8>,
    cells: Seq<(usize, usize)>,
) -> Result<PatternView, Seq<char>> {
    match first_outside(cells, w, h, 0) {
        Some(c) => Err(
            "cell ("@ + decimal(c.0 as nat) + ", "@ + decimal(c.1 as nat) + ") is outside the "@ + decimal(
                w as nat,
            ) + "x"@ + decimal(h as nat) + " board"@,
        ),
        None => Ok((w, h, mask_of(b), mask_of(s), cells)),
    }
}

/// The trimmed comma-separated fields of `cs[a..b]`, as spans.
pub(crate) fn field_spans(cs: &Vec<char>, a: usize, b: usize) -> (spans: Vec<(usize, usize)>)
    requires
        a <= b <= cs@.len(),
    ensures
        span_texts(cs@, spans@) == fields_of(cs@.subrange(a as int, b as int)),
        spans@.len() >= 1,
        forall|k: int|
            #![trigger spans@[k]]
            0 <= k < spans@.len() ==> spans@[k].0 <= spans@[k].1 <= cs@.len(),
{
    let ghost t = cs@.subrange(a as int, b as int);
    let mut spans: Vec<(usize, usize)> = Vec::new();
    let mut i = a;
    loop
        invariant
            a <= i <= b <= cs@.len(),
            t == cs@.subrange(a as int, b as int),
            span_texts(cs@, spans@) + split_from(t, i - a).map_values(|f: Seq<char>| trim(f))
                == fields_of(t),
            forall|k: int|
                #![trigger spans@[k]]
                0 <= k < spans@.len() ==> spans@[k].0 <= spans@[k].1 <= cs@.len(),
        decreases b - i,
    {
        let mut k = i;
        while k < b && cs[k] != ','
            invariant
                a <= i <= k <= b <= cs@.len(),
                t == cs@.subrange(a as int, b as int),
                find_from(t, ',', i - a) == find_from(t, ',', k - a),
            decreases b - k,
        {
            assert(t[k - a] == cs@[k as int]);
            k = k + 1;
        }
        let (fa, fb) = trim_span(cs, i, k);
        assert(t.subrange(i - a, k - a) =~= cs@.subrange(i as int, k as int));
        let ghost old_spans = spans@;
        spans.push((fa, fb));
        assert(span_texts(cs@, spans@) =~= span_texts(cs@, old_spans) + seq![trim(cs@.subrange(i as int, k as int))]);
        if k == b {
            assert(split_from(t, i - a) =~= seq![t.subrange(i - a, t.len() as int)]);
            assert(split_from(t, i - a).map_values(|f: Seq<char>| trim(f)) =~= seq![
                trim(cs@.subrange(i as int, k as int)),
            ]);
            assert(span_texts(cs@, spans@) =~= fields_of(t));
            return spans;
        }
        assert(split_from(t, i - a).map_values(|f: Seq<char>| trim(f)) =~= seq![
            trim(cs@.subrange(i as int, k as int)),
        ] + split_from(t, k + 1 - a).map_values(|f: Seq<char>| trim(f)));
        assert(span_texts(cs@, spans@) + split_from(t, k + 1 - a).map_values(|f: Seq<char>| trim(f))
            =~= span_texts(cs@, old_spans) + split_from(t, i - a).map_values(|f: Seq<char>| trim(f)));
        i = k + 1;
    }
}

/// Appends `"invalid {name} "` style text: `"line {n}: " + name + tail`.
fn push_named(e: &mut String, line_no: usize, before: &str, name: &str, after: &str)
    ensures
        final(e)@ == old(e)@ + line_prefix(line_no as nat) + before@ + name@ + after@,
{
    push_line_prefix(e, line_no);
    push_str(e, before);
    push_str(e, name);
    push_str(e, after);
    assert(e@ =~= old(e)@ + line_prefix(line_no as nat) + before@ + name@ + after@);
}

/// The single value of a `name` line whose value fields are `spans[from..]`.
fn parse_usize_field(
    cs: &Vec<char>,
    spans: &Vec<(usize, usize)>,
    from: usize,
    to: usize,
    line_no: usize,
    name: &str,
) -> (r: Result<usize, String>)
    requires
        from <= to <= spans@.len(),
        forall|k: int|
            #![trigger spans@[k]]
            0 <= k < spans@.len() ==> spans@[k].0 <= spans@[k].1 <= cs@.len(),
    ensures
        match (r, usize_field(span_texts(cs@, spans@).subrange(from as int, to as int), line_no as nat, name@)) {
            (Ok(v), Ok(w)) => v == w,
            (Err(e), Err(m)) => e@ == m,
            _ => false,
        },
{
    let ghost rest = span_texts(cs@, spans@).subrange(from as int, to as int);
    if from == to {
        let mut e = String::new();
        push_named(&mut e, line_no, "", name, " needs a value");
        proof {
            reveal_strlit("");
            assert(e@ =~= line_prefix(line_no as nat) + name@ + " needs a value"@);
        }
        return Err(e);
    }
    let (fa, fb) = spans[from];
    assert(rest[0] == cs@.subrange(fa as int, fb as int));
    match parse_unsigned_span(cs, fa, fb, usize::MAX as u64) {
        Some(v) => Ok(v as usize),
        None => {
            let mut e = String::new();
            push_named(&mut e, line_no, "invalid ", name, " ");
            push_debug(&mut e, cs, fa, fb);
            Err(e)
        },
    }
}

/// The counts of a `name` line whose value fields are `spans[from..]`.
fn parse_counts_field(cs: &Vec<char>, spans: &Vec<(usize, usize)>, from: usize, line_no: usize, name: &str) -> (r: Result<Vec<u8>, String>)
    requires
        from <= spans@.len(),
        forall|k: int|
            #![trigger spans@[k]]
            0 <= k < spans@.len() ==> spans@[k].0 <= spans@[k].1 <= cs@.len(),
    ensures
        match (r, counts_field(span_texts(cs@, spans@).skip(from as int), line_no as nat, name@)) {
            (Ok(v), Ok(w)) => v@ == w,
            (Err(e), Err(m)) => e@ == m,
            _ => false,
        },
{
    let ghost rest = span_texts(cs@, spans@).skip(from as int);
    if from == spans.len() {
        let mut e = String::new();
        push_named(&mut e, line_no, "", name, " needs at least one value");
        proof {
            reveal_strlit("");
            assert(e@ =~= line_prefix(line_no as nat) + name@ + " needs at least one value"@);
        }
        return Err(e);
    }
    let mut counts: Vec<u8> = Vec::new();
    let mut j = from;
    while j < spans.len()
        invariant
            from <= j <= spans@.len(),
            rest == span_texts(cs@, spans@).skip(from as int),
            forall|k: int|
                #![trigger spans@[k]]
                0 <= k < spans@.len() ==> spans@[k].0 <= spans@[k].1 <= cs@.len(),
            counts_prefix(rest, line_no as nat, name@, j - from) == Ok::<Seq<u8>, Seq<char>>(counts@),
        decreases spans.len() - j,
    {
        let (fa, fb) = spans[j];
        assert(rest[j - from] == cs@.subrange(fa as int, fb as int));
        match parse_unsigned_span(cs, fa, fb, 0xFF) {
            Some(c) => {
                counts.push(c as u8);
            },
            None => {
                let mut e = String::new();
                push_named(&mut e, line_no, "invalid ", name, " value ");
                push_debug(&mut e, cs, fa, fb);
                proof {
                    lemma_counts_stop(rest, line_no as nat, name@, j - from + 1, rest.len() as int);
                }
                return Err(e);
            },
        }
        j = j + 1;
    }
    Ok(counts)
}

/// Once a count is invalid, every longer prefix fails the same way.
pub proof fn lemma_counts_stop(rest: Seq<Seq<char>>, n: nat, name: Seq<char>, k: int, m: int)
    requires
        1 <= k <= m,
        counts_prefix(rest, n, name, k) is Err,
    ensures
        counts_prefix(rest, n, name, m) == counts_prefix(rest, n, name, k),
    decreases m - k,
{
    if m > k {
        lemma_counts_stop(rest, n, name, k, m - 1);
    }
}

/// Once a line is rejected, every longer prefix is rejected the same way.
pub proof fn lemma_pattern_stops(ls: Seq<Seq<char>>, k: int, n: int)
    requires
        1 <= k <= n,
        pattern_prefix(ls, k) is Err,
    ensures
        pattern_prefix(ls, n) == pattern_prefix(ls, k),
    decreases n - k,
{
    if n > k {
        lemma_pattern_stops(ls, k, n - 1);
    }
}

/// Pattern reading state.
struct PatternState {
    width: Option<usize>,
    height: Option<usize>,
    birth: Option<Vec<u8>>,
    survive: Option<Vec<u8>>,
    cells: Vec<(usize, usize)>,
}

impl PatternState {
    closed spec fn view(&self) -> PatternScan {
        PatternScan {
            width: self.width,
            height: self.height,
            birth: match self.birth {
                Some(v) => Some(v@),
                None => None,
            },
            survive: match self.survive {
                Some(v) => Some(v@),
                None => None,
            },
            cells: self.cells@,
        }
    }

    /// Reads line `cs[ls0..le0]`, numbered `line_no`.
    fn scan_line(&mut self, cs: &Vec<char>, ls0: usize, le0: usize, line_no: usize) -> (r: Result<(), String>)
        requires
            ls0 <= le0 <= cs@.len(),
        ensures
            match pattern_line(old(self).view(), cs@.subrange(ls0 as int, le0 as int), line_no as nat) {
                Ok(st) => r is Ok && final(self).view() == st,
                Err(m) => r matches Err(e) && e@ == m,
            },
    {
        let (a, b) = trim_span(cs, ls0, le0);
        let ghost t = cs@.subrange(a as int, b as int);
        if a == b || cs[a] == '#' {
            return Ok(());
        }
        let fs = field_spans(cs, a, b);
        let ghost texts = span_texts(cs@, fs@);
        assert(texts.drop_first() =~= texts.subrange(1, texts.len() as int));
        assert(texts.drop_first() =~= texts.skip(1));
        let (ta, tb) = fs[0];
        assert(texts[0] == cs@.subrange(ta as int, tb as int));
        if span_is(cs, ta, tb, "width") {
            let v = parse_usize_field(cs, &fs, 1, fs.len(), line_no, "width")?;
            self.width = Some(v);
            Ok(())
        } else if span_is(cs, ta, tb, "height") {
            let v = parse_usize_field(cs, &fs, 1, fs.len(), line_no, "height")?;
            self.height = Some(v);
            Ok(())
        } else if span_is(cs, ta, tb, "birth") {
            let v = parse_counts_field(cs, &fs, 1, line_no, "birth")?;
            self.birth = Some(v);
            Ok(())
        } else if span_is(cs, ta, tb, "survive") {
            let v = parse_counts_field(cs, &fs, 1, line_no, "survive")?;
            self.survive = Some(v);
            Ok(())
        } else if span_is(cs, ta, tb, "cell") {
            if fs.len() != 3 {
                let mut e = String::new();
                push_line_prefix(&mut e, line_no);
                push_str(&mut e, "expected \"cell,x,y\", got ");
                push_debug(&mut e, cs, a, b);
                return Err(e);
            }
            assert(texts.drop_first().take(1) =~= texts.subrange(1, 2));
            assert(texts.drop_first().skip(1) =~= texts.subrange(2, 3));
            let x = parse_usize_field(cs, &fs, 1, 2, line_no, "cell x")?;
            let y = parse_usize_field(cs, &fs, 2, 3, line_no, "cell y")?;
            self.cells.push((x, y));
            Ok(())
        } else {
            let mut e = String::new();
            push_line_prefix(&mut e, line_no);
            push_str(&mut e, "unknown tag ");
            push_debug(&mut e, cs, ta, tb);
            Err(e)
        }
    }
}

/// A pattern declaration read: board width and height, the rule, and the
/// live cells, all on the board.
#[derive(Debug, Clone, PartialEq, Eq)]
pub struct PatternDecl {
    pub width: usize,
    pub height: usize,
    pub rule: Rule,
    pub cells: Vec<(usize, usize)>,
}

/// Reads a pattern declaration without building its board (see
/// [`pattern_spec`]).
pub fn read_pattern(text: &str) -> (r: Result<PatternDecl, String>)
    ensures
        match (r, pattern_spec(text@)) {
            (Ok(d), Ok(p)) => d.width == p.0 && d.height == p.1 && d.rule.birth@ == p.2 && d.rule.survive@ == p.3
                && d.cells@ == p.4,
            (Err(e), Err(m)) => e@ == m,
            _ => false,
        },
{
    let cs = chars_of(text);
    let spans = line_spans(&cs);
    let ghost ls = lines(cs@);
    let mut st = PatternState { width: None, height: None, birth: None, survive: None, cells: Vec::new() };
    assert(st.view() =~= empty_pattern());
    let mut k: usize = 0;
    while k < spans.len()
        invariant
            cs@ == text@,
            ls == lines(cs@),
            span_texts(cs@, spans@) == ls,
            forall|j: int|
                #![trigger spans@[j]]
                0 <= j < spans@.len() ==> spans@[j].0 <= spans@[j].1 <= cs@.len(),
            k <= spans@.len(),
            pattern_prefix(ls, k as int) == Ok::<PatternScan, Seq<char>>(st.view()),
        decreases spans.len() - k,
    {
        let (ls0, le0) = spans[k];
        assert(ls[k as int] == cs@.subrange(ls0 as int, le0 as int));
        match st.scan_line(&cs, ls0, le0, k + 1) {
            Ok(()) => {},
            Err(e) => {
                proof {
                    lemma_pattern_stops(ls, k as int + 1, ls.len() as int);
                }
                return Err(e);
            },
        }
        k = k + 1;
    }
    let PatternState { width, height, birth, survive, cells } = st;
    let width = match width {
        Some(w) => w,
        None => {
            return Err(lit("missing \"width\" line"));
        },
    };
    let height = match height {
        Some(h) => h,
        None => {
            return Err(lit("missing \"height\" line"));
        },
    };
    let birth = match birth {
        Some(b) => b,
        None => {
            return Err(lit("missing \"birth\" line"));
        },
    };
    let survive = match survive {
        Some(s) => s,
        None => {
            return Err(lit("missing \"survive\" line"));
        },
    };
    let mut j: usize = 0;
    assert(pattern_spec(text@) == pattern_finish(width, height, birth@, survive@, cells@));
    while j < cells.len()
        invariant
            j <= cells@.len(),
            pattern_spec(text@) == pattern_finish(width, height, birth@, survive@, cells@),
            first_outside(cells@, width, height, 0) == first_outside(cells@, width, height, j as int),
        decreases cells.len() - j,
    {
        let (x, y) = cells[j];
        if x >= width || y >= height {
            let mut e = lit("cell (");
            push_decimal(&mut e, x as u128);
            push_str(&mut e, ", ");
            push_decimal(&mut e, y as u128);
            push_str(&mut e, ") is outside the ");
            push_decimal(&mut e, width as u128);
            push_str(&mut e, "x");
            push_decimal(&mut e, height as u128);
            push_str(&mut e, " board");
            assert(e@ =~= "cell ("@ + decimal(x as nat) + ", "@ + decimal(y as nat) + ") is outside the "@
                + decimal(width as nat) + "x"@ + decimal(height as nat) + " board"@);
            return Err(e);
        }
        j = j + 1;
    }
    let rule = Rule { birth: Rule::from_counts(birth.as_slice()), survive: Rule::from_counts(survive.as_slice()) };
    Ok(PatternDecl { width, height, rule, cells })
}

/// Reads a starting board and rule: `width`/`height`/`birth`/`survive`
/// lines (the last of each counts) and `cell,x,y` lines for the initial
/// live cells, which must lie on the board.
pub fn parse_pattern(text: &str) -> (r: Result<(Board, Rule), String>)
    requires
        pattern_spec(text@) matches Ok(p) ==> p.0 * p.1 <= isize::MAX,
    ensures
        match (r, pattern_spec(text@)) {
            (Ok((board, rule)), Ok(p)) => board.wf() && board.width == p.0 && board.height == p.1
                && rule.birth@ == p.2 && rule.survive@ == p.3 && board.cells() == crate::cellular::cells_from_live(
                p.0,
                p.1,
                p.4,
            ),
            (Err(e), Err(m)) => e@ == m,
            _ => false,
        },
{
    let d = read_pattern(text)?;
    proof {
        let p = pattern_spec(text@)->Ok_0;
        assert(first_outside(p.4, p.0, p.1, 0) is None);
        lemma_inside_all(p.4, p.0, p.1, 0);
        assert forall|i: int| 0 <= i < d.cells@.len() implies cell_index(
            #[trigger] d.cells@[i].0 as int,
            d.cells@[i].1 as int,
            d.width as int,
        ) < d.width * d.height by {
            crate::cellular::lemma_index_in_board(
                d.cells@[i].0 as int,
                d.cells@[i].1 as int,
                d.width as int,
                d.height as int,
            );
        }
    }
    let board = Board::from_live_cells(d.width, d.height, d.cells.as_slice());
    Ok((board, d.rule))
}

} // verus!
