//! The text layer of a CSV time-series capture: a header row
//! (`time,ch1,ch2,...`) and data rows as wide as it, blank lines skipped.
//! Cells are read and trimmed here; turning them into sample values is
//! left to the caller.

use vstd::prelude::*;
use crate::invariant_report::{line_prefix, push_line_prefix};
use crate::pattern::{field_spans, fields_of};
use crate::text::{
    chars_of, debug_list, debug_str, debug_strings, decimal, line_spans, lines, push_debug_str, push_decimal, push_str,
    span_texts, string_of, trim, trim_span,
};
use crate::text::lit;

verus! {

/// The lines of `ls` that are not blank.
pub open spec fn nonblank(ls: Seq<Seq<char>>) -> Seq<Seq<char>>
    decreases ls.len(),
{
    if ls.len() == 0 {
        Seq::empty()
    } else if trim(ls.last()).len() == 0 {
        nonblank(ls.drop_last())
    } else {
        nonblank(ls.drop_last()).push(ls.last())
    }
}

/// The first line from `j` on whose number of fields is not `n`, or the
/// number of lines.
pub open spec fn first_bad(ls: Seq<Seq<char>>, n: nat, j: int) -> int
    decreases ls.len() - j,
{
    if j >= ls.len() {
        ls.len() as int
    } else if fields_of(ls[j]).len() != n {
        j
    } else {
        first_bad(ls, n, j + 1)
    }
}

/// A capture table as plain values.
pub struct TableText {
    pub time_label: Seq<char>,
    pub channel_names: Seq<Seq<char>>,
    pub rows: Seq<(nat, Seq<Seq<char>>)>,
    pub malformed: Option<Seq<char>>,
}

/// Why the row `line` (number `n`) with `got` fields is refused, the
/// header having `want`.
pub open spec fn width_error(n: nat, want: nat, got: nat, line: Seq<char>) -> Seq<char> {
    line_prefix(n) + "expected "@ + decimal(want) + " column(s), got "@ + decimal(got) + ": "@ + debug_str(line)
}

/// The table `text` holds: the header's labels, the trimmed cells of the
/// rows up to the first one whose width differs from the header's, each
/// with its number (counting non-blank lines, the header being 1), and why
/// that row is refused; or why there is no table.
pub open spec fn table_spec(text: Seq<char>) -> Result<TableText, Seq<char>> {
    let ls = nonblank(lines(text));
    if ls.len() == 0 {
        Err("empty file: no header row"@)
    } else {
        let columns = fields_of(ls[0]);
        if columns.len() < 2 {
            Err("header must have a time column plus at least one channel, got "@ + debug_list(columns))
        } else {
            let bad = first_bad(ls, columns.len(), 1);
            Ok(
                TableText {
                    time_label: columns[0],
                    channel_names: columns.skip(1),
                    rows: Seq::new((bad - 1) as nat, |i: int| ((i + 2) as nat, fields_of(ls[i + 1]))),
                    malformed: if bad < ls.len() {
                        Some(width_error((bad + 1) as nat, columns.len(), fields_of(ls[bad]).len(), ls[bad]))
                    } else {
                        None
                    },
                },
            )
        }
    }
}

/// A capture's text: the header's labels, the cells of each well-formed
/// data row with its line number, and why the first malformed row is
/// refused, if one is.
#[derive(Debug, Clone, PartialEq, Eq)]
pub struct CaptureTable {
    pub time_label: String,
    pub channel_names: Vec<String>,
    pub rows: Vec<(usize, Vec<String>)>,
    pub malformed: Option<String>,
}

pub open spec fn strings_view(v: Vec<String>) -> Seq<Seq<char>> {
    v@.map_values(|s: String| s@)
}

pub open spec fn strings_view_seq(v: Seq<String>) -> Seq<Seq<char>> {
    v.map_values(|s: String| s@)
}

pub open spec fn table_view(t: CaptureTable) -> TableText {
    TableText {
        time_label: t.time_label@,
        channel_names: strings_view(t.channel_names),
        rows: t.rows@.map_values(|r: (usize, Vec<String>)| (r.0 as nat, strings_view(r.1))),
        malformed: match t.malformed {
            Some(m) => Some(m@),
            None => None,
        },
    }
}

fn strings_of(cs: &Vec<char>, spans: &Vec<(usize, usize)>) -> (v: Vec<String>)
    requires
        forall|k: int| #![trigger spans@[k]] 0 <= k < spans@.len() ==> spans@[k].0 <= spans@[k].1 <= cs@.len(),
    ensures
        strings_view(v) == span_texts(cs@, spans@),
{
    let mut v: Vec<String> = Vec::new();
    let mut k: usize = 0;
    while k < spans.len()
        invariant
            k <= spans@.len(),
            forall|j: int| #![trigger spans@[j]] 0 <= j < spans@.len() ==> spans@[j].0 <= spans@[j].1 <= cs@.len(),
            strings_view(v) =~= span_texts(cs@, spans@).take(k as int),
        decreases spans.len() - k,
    {
        let (a, b) = spans[k];
        let t = string_of(cs, a, b);
        let ghost before = v@;
        v.push(t);
        assert(strings_view(v) =~= strings_view_seq(before).push(t@));
        k = k + 1;
    }
    v
}

proof fn lemma_first_bad(ls: Seq<Seq<char>>, n: nat, j: int)
    requires
        0 <= j <= ls.len(),
    ensures
        j <= first_bad(ls, n, j) <= ls.len(),
        forall|k: int| j <= k < first_bad(ls, n, j) ==> fields_of(#[trigger] ls[k]).len() == n,
        first_bad(ls, n, j) < ls.len() ==> fields_of(ls[first_bad(ls, n, j)]).len() != n,
    decreases ls.len() - j,
{
    if j < ls.len() && fields_of(ls[j]).len() == n {
        lemma_first_bad(ls, n, j + 1);
    }
}

/// Reads the table of a capture's text (see [`table_spec`]).
pub fn parse_table(text: &str) -> (r: Result<CaptureTable, String>)
    ensures
        match (r, table_spec(text@)) {
            (Ok(t), Ok(v)) => table_view(t) == v,
            (Err(e), Err(m)) => e@ == m,
            _ => false,
        },
{
    let cs = chars_of(text);
    let spans = line_spans(&cs);
    let ghost ls = lines(cs@);
    let mut kept: Vec<(usize, usize)> = Vec::new();
    let mut i: usize = 0;
    while i < spans.len()
        invariant
            i <= spans@.len(),
            ls == lines(cs@),
            span_texts(cs@, spans@) == ls,
            forall|k: int| #![trigger spans@[k]] 0 <= k < spans@.len() ==> spans@[k].0 <= spans@[k].1 <= cs@.len(),
            forall|k: int| #![trigger kept@[k]] 0 <= k < kept@.len() ==> kept@[k].0 <= kept@[k].1 <= cs@.len(),
            span_texts(cs@, kept@) == nonblank(ls.take(i as int)),
        decreases spans.len() - i,
    {
        let (a, b) = spans[i];
        let (ta, tb) = trim_span(&cs, a, b);
        assert(ls.take(i + 1).drop_last() =~= ls.take(i as int));
        assert(ls[i as int] == cs@.subrange(a as int, b as int));
        if ta < tb {
            let ghost before = kept@;
            kept.push((a, b));
            assert(span_texts(cs@, kept@) =~= span_texts(cs@, before).push(cs@.subrange(a as int, b as int)));
        }
        i = i + 1;
    }
    assert(ls.take(i as int) =~= ls);
    let ghost nb = nonblank(ls);
    if kept.len() == 0 {
        return Err(lit("empty file: no header row"));
    }
    let (h0, h1) = kept[0];
    assert(nb[0] == cs@.subrange(h0 as int, h1 as int));
    let header = field_spans(&cs, h0, h1);
    let columns = strings_of(&cs, &header);
    let ncols = header.len();
    if ncols < 2 {
        let mut e = lit("header must have a time column plus at least one channel, got ");
        let listed = debug_strings(columns.as_slice());
        push_str(&mut e, listed.as_str());
        return Err(e);
    }
    let time_label = string_of(&cs, header[0].0, header[0].1);
    let mut channel_names: Vec<String> = Vec::new();
    let mut c: usize = 1;
    while c < ncols
        invariant
            1 <= c <= ncols == header@.len(),
            strings_view(columns) == span_texts(cs@, header@),
            forall|k: int| #![trigger header@[k]] 0 <= k < header@.len() ==> header@[k].0 <= header@[k].1 <= cs@.len(),
            strings_view(channel_names) =~= span_texts(cs@, header@).subrange(1, c as int),
        decreases ncols - c,
    {
        let t = string_of(&cs, header[c].0, header[c].1);
        let ghost before = channel_names@;
        channel_names.push(t);
        assert(strings_view(channel_names) =~= strings_view_seq(before).push(t@));
        c = c + 1;
    }
    let ghost cols = fields_of(nb[0]);
    assert(span_texts(cs@, header@) == cols);
    assert(span_texts(cs@, header@).subrange(1, ncols as int) =~= cols.skip(1));
    proof {
        lemma_first_bad(nb, ncols as nat, 1);
    }
    let mut rows: Vec<(usize, Vec<String>)> = Vec::new();
    let mut malformed: Option<String> = None;
    let mut j: usize = 1;
    let mut stopped = false;
    while j < kept.len() && !stopped
        invariant
            1 <= j <= kept@.len(),
            stopped == malformed is Some,
            stopped ==> j == first_bad(nb, ncols as nat, 1) && j < nb.len() && (malformed matches Some(m) && m@
                == width_error((j + 1) as nat, ncols as nat, fields_of(nb[j as int]).len(), nb[j as int])),
            nb == nonblank(ls),
            span_texts(cs@, kept@) == nb,
            forall|k: int| #![trigger kept@[k]] 0 <= k < kept@.len() ==> kept@[k].0 <= kept@[k].1 <= cs@.len(),
            ncols as nat == cols.len(),
            j <= first_bad(nb, ncols as nat, 1) <= nb.len(),
            forall|k: int| 1 <= k < first_bad(nb, ncols as nat, 1) ==> fields_of(#[trigger] nb[k]).len() == ncols,
            first_bad(nb, ncols as nat, 1) < nb.len() ==> fields_of(nb[first_bad(nb, ncols as nat, 1)]).len()
                != ncols,
            rows@.map_values(|r: (usize, Vec<String>)| (r.0 as nat, strings_view(r.1))) =~= Seq::new(
                (j - 1) as nat,
                |i: int| ((i + 2) as nat, fields_of(nb[i + 1])),
            ),
        decreases kept.len() - j + if stopped { 0int } else { 1int },
    {
        let (a, b) = kept[j];
        assert(nb[j as int] == cs@.subrange(a as int, b as int));
        let cells = field_spans(&cs, a, b);
        if cells.len() != ncols {
            assert(first_bad(nb, ncols as nat, 1) == j);
            let mut e = String::new();
            push_line_prefix(&mut e, j + 1);
            push_str(&mut e, "expected ");
            push_decimal(&mut e, ncols as u128);
            push_str(&mut e, " column(s), got ");
            push_decimal(&mut e, cells.len() as u128);
            push_str(&mut e, ": ");
            let raw = string_of(&cs, a, b);
            push_debug_str(&mut e, raw.as_str());
            assert(e@ =~= width_error((j + 1) as nat, ncols as nat, cells@.len() as nat, nb[j as int]));
            malformed = Some(e);
            stopped = true;
        } else {
        let texts = strings_of(&cs, &cells);
        let ghost before = rows@.map_values(|r: (usize, Vec<String>)| (r.0 as nat, strings_view(r.1)));
        let row = (j + 1, texts);
        rows.push(row);
        assert(rows@.map_values(|r: (usize, Vec<String>)| (r.0 as nat, strings_view(r.1))) =~= before.push(
            ((j + 1) as nat, fields_of(nb[j as int])),
        ));
        j = j + 1;
        }
    }
    let t = CaptureTable { time_label, channel_names, rows, malformed };
    proof {
        let bad = first_bad(nb, ncols as nat, 1);
        if !stopped {
            assert(j == kept@.len());
            assert(bad == nb.len());
        }
    }
    Ok(t)
}

/// The channels a wave-shoaling capture has: depth, wave height and
/// wavelength, in that order.
pub open spec fn wave_channels(names: Seq<Seq<char>>) -> bool {
    names == seq!["depth"@, "wave_height"@, "wavelength"@]
}

/// Whether a capture with these channel names is a wave-shoaling one.
pub fn is_wave_capture(channel_names: &[String]) -> (b: bool)
    ensures
        b == wave_channels(channel_names@.map_values(|s: String| s@)),
{
    let ghost names = channel_names@.map_values(|s: String| s@);
    if channel_names.len() != 3 {
        assert(names.len() != 3);
        return false;
    }
    let a = crate::text::chars_of(channel_names[0].as_str());
    let b = crate::text::chars_of(channel_names[1].as_str());
    let c = crate::text::chars_of(channel_names[2].as_str());
    let r = crate::text::span_is(&a, 0, a.len(), "depth") && crate::text::span_is(&b, 0, b.len(), "wave_height")
        && crate::text::span_is(&c, 0, c.len(), "wavelength");
    assert(a@.subrange(0, a@.len() as int) =~= a@);
    assert(b@.subrange(0, b@.len() as int) =~= b@);
    assert(c@.subrange(0, c@.len() as int) =~= c@);
    proof {
        if r {
            assert(names =~= seq!["depth"@, "wave_height"@, "wavelength"@]);
        }
        if wave_channels(names) {
            assert(names[0] == "depth"@ && names[1] == "wave_height"@ && names[2] == "wavelength"@);
        }
    }
    r
}

} // verus!
