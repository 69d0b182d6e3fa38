//! `key,value` declaration files (an option-pricing surface, a
//! potential-flow field): one pair per line, the first comma separating
//! key from value, both trimmed; `#` comments and blank lines skipped;
//! a key given twice keeps its last value. Numeric values other than
//! counts are the caller's to read.

use vstd::prelude::*;
use crate::invariant_report::{line_prefix, push_line_prefix};
use crate::text::{
    chars_of, debug_str, find_from, line_spans, lines, parse_unsigned, parse_unsigned_span, push_debug,
    push_debug_str, push_str, span_is, span_texts, string_of, trim, trim_span,
};
use crate::text::lit;

verus! {

/// What line `line` (numbered `n`) contributes: nothing when blank or a
/// comment, else its key and value or the error that rejects it.
pub open spec fn decl_line(line: Seq<char>, n: nat) -> Option<Result<(Seq<char>, Seq<char>), Seq<char>>> {
    let t = trim(line);
    if t.len() == 0 || t[0] == '#' {
        None
    } else {
        let c = find_from(t, ',', 0);
        if c >= t.len() {
            Some(Err(line_prefix(n) + "expected \"key,value\", got "@ + debug_str(t)))
        } else {
            Some(Ok((trim(t.take(c)), trim(t.skip(c + 1)))))
        }
    }
}

/// The pairs of the first `k` lines, or the first line's error.
pub open spec fn decl_prefix(ls: Seq<Seq<char>>, k: int) -> Result<Seq<(Seq<char>, Seq<char>)>, Seq<char>>
    decreases k,
{
    if k <= 0 {
        Ok(Seq::empty())
    } else {
        match decl_prefix(ls, k - 1) {
            Err(e) => Err(e),
            Ok(v) => match decl_line(ls[k - 1], k as nat) {
                None => Ok(v),
                Some(Ok(p)) => Ok(v.push(p)),
                Some(Err(e)) => Err(e),
            },
        }
    }
}

/// The pairs `text` declares, in line order, or why it is rejected.
pub open spec fn decl_spec(text: Seq<char>) -> Result<Seq<(Seq<char>, Seq<char>)>, Seq<char>> {
    decl_prefix(lines(text), lines(text).len() as int)
}

proof fn lemma_decl_error_sticks(ls: Seq<Seq<char>>, k: int, n: int)
    requires
        1 <= k <= n,
        decl_prefix(ls, k) is Err,
    ensures
        decl_prefix(ls, n) == decl_prefix(ls, k),
    decreases n - k,
{
    if n > k {
        lemma_decl_error_sticks(ls, k, n - 1);
    }
}

/// The value last given to `key` among `pairs`.
pub open spec fn lookup(pairs: Seq<(Seq<char>, Seq<char>)>, key: Seq<char>) -> Option<Seq<char>>
    decreases pairs.len(),
{
    if pairs.len() == 0 {
        None
    } else if pairs.last().0 == key {
        Some(pairs.last().1)
    } else {
        lookup(pairs.drop_last(), key)
    }
}

/// A declaration: its pairs in line order.
#[derive(Debug, Clone, PartialEq, Eq)]
pub struct Declaration {
    pub pairs: Vec<(String, String)>,
}

pub open spec fn pairs_view(pairs: Seq<(String, String)>) -> Seq<(Seq<char>, Seq<char>)> {
    pairs.map_values(|p: (String, String)| (p.0@, p.1@))
}

impl Declaration {
    pub open spec fn view_pairs(&self) -> Seq<(Seq<char>, Seq<char>)> {
        pairs_view(self.pairs@)
    }

    /// The value last given to `key`, if any.
    pub fn get(&self, key: &str) -> (v: Option<String>)
        ensures
            match (v, lookup(self.view_pairs(), key@)) {
                (Some(s), Some(t)) => s@ == t,
                (None, None) => true,
                _ => false,
            },
    {
        let ghost ps = self.view_pairs();
        let mut i = self.pairs.len();
        assert(ps.take(i as int) =~= ps);
        while i > 0
            invariant
                i <= self.pairs@.len(),
                ps == self.view_pairs(),
                lookup(ps, key@) == lookup(ps.take(i as int), key@),
            decreases i,
        {
            assert(ps.take(i as int).drop_last() =~= ps.take(i - 1));
            assert(ps.take(i as int).last() == ps[i - 1]);
            if same_text(self.pairs[i - 1].0.as_str(), key) {
                return Some(lit(self.pairs[i - 1].1.as_str()));
            }
            i = i - 1;
        }
        None
    }

    /// The value last given to `key`, or the error naming it as missing.
    pub fn require(&self, key: &str) -> (r: Result<String, String>)
        ensures
            match (r, lookup(self.view_pairs(), key@)) {
                (Ok(s), Some(t)) => s@ == t,
                (Err(e), None) => e@ == "missing "@ + debug_str(key@),
                _ => false,
            },
    {
        match self.get(key) {
            Some(v) => Ok(v),
            None => {
                let mut e = lit("missing ");
                push_debug_str(&mut e, key);
                Err(e)
            },
        }
    }

    /// The count given to `key`: digits with an optional leading `+`,
    /// fitting a `usize`.
    pub fn get_usize(&self, key: &str) -> (r: Result<usize, String>)
        ensures
            match lookup(self.view_pairs(), key@) {
                None => r matches Err(e) && e@ == "missing "@ + debug_str(key@),
                Some(t) => match parse_unsigned(t, usize::MAX as nat) {
                    Some(n) => r == Ok::<usize, String>(n as usize),
                    None => r matches Err(e) && e@ == "invalid "@ + key@ + " "@ + debug_str(t),
                },
            },
    {
        let raw = self.require(key)?;
        let cs = chars_of(raw.as_str());
        match parse_unsigned_span(&cs, 0, cs.len(), usize::MAX as u64) {
            Some(n) => {
                assert(cs@.subrange(0, cs@.len() as int) =~= cs@);
                Ok(n as usize)
            },
            None => {
                assert(cs@.subrange(0, cs@.len() as int) =~= cs@);
                let mut e = lit("invalid ");
                push_str(&mut e, key);
                push_str(&mut e, " ");
                push_debug_str(&mut e, raw.as_str());
                Err(e)
            },
        }
    }
}

fn same_text(a: &str, b: &str) -> (same: bool)
    ensures
        same == (a@ == b@),
{
    let ac = chars_of(a);
    let bc = chars_of(b);
    let same = crate::text::spans_equal(&ac, 0, ac.len(), &bc, 0, bc.len());
    assert(ac@.subrange(0, ac@.len() as int) =~= ac@);
    assert(bc@.subrange(0, bc@.len() as int) =~= bc@);
    same
}

/// Reads a declaration (see [`decl_spec`]).
pub fn parse_declaration(text: &str) -> (r: Result<Declaration, String>)
    ensures
        match (r, decl_spec(text@)) {
            (Ok(d), Ok(ps)) => d.view_pairs() == ps,
            (Err(e), Err(m)) => e@ == m,
            _ => false,
        },
{
    let cs = chars_of(text);
    let spans = line_spans(&cs);
    let ghost ls = lines(cs@);
    let mut pairs: Vec<(String, String)> = Vec::new();
    assert(pairs_view(pairs@) =~= Seq::<(Seq<char>, Seq<char>)>::empty());
    let mut k: usize = 0;
    while k < spans.len()
        invariant
            cs@ == text@,
            ls == lines(cs@),
            span_texts(cs@, spans@) == ls,
            forall|j: int|
                #![trigger spans@[j]] 0 <= j < spans@.len() ==> spans@[j].0 <= spans@[j].1 <= cs@.len(),
            k <= spans@.len(),
            decl_prefix(ls, k as int) == Ok::<Seq<(Seq<char>, Seq<char>)>, Seq<char>>(pairs_view(pairs@)),
        decreases spans.len() - k,
    {
        let (ls0, le0) = spans[k];
        let ghost line = cs@.subrange(ls0 as int, le0 as int);
        assert(ls[k as int] == line);
        let (a, b) = trim_span(&cs, ls0, le0);
        let ghost t = cs@.subrange(a as int, b as int);
        if a == b || cs[a] == '#' {
            assert(decl_line(line, (k + 1) as nat) is None);
            k = k + 1;
            continue;
        }
        let mut c = a;
        while c < b && cs[c] != ','
            invariant
                a <= c <= b <= cs@.len(),
                t == cs@.subrange(a as int, b as int),
                find_from(t, ',', 0) == find_from(t, ',', c - a),
            decreases b - c,
        {
            c = c + 1;
        }
        if c == b {
            let mut e = String::new();
            push_line_prefix(&mut e, k + 1);
            push_str(&mut e, "expected \"key,value\", got ");
            push_debug(&mut e, &cs, a, b);
            proof {
                assert(decl_line(line, (k + 1) as nat) == Some(Err::<(Seq<char>, Seq<char>), Seq<char>>(e@)));
                lemma_decl_error_sticks(ls, k as int + 1, ls.len() as int);
            }
            return Err(e);
        }
        let (ka, kb) = trim_span(&cs, a, c);
        let (va, vb) = trim_span(&cs, c + 1, b);
        let pair = (string_of(&cs, ka, kb), string_of(&cs, va, vb));
        proof {
            assert(t.take(c - a) =~= cs@.subrange(a as int, c as int));
            assert(t.skip(c - a + 1) =~= cs@.subrange(c + 1, b as int));
            assert(decl_line(line, (k + 1) as nat) == Some(
                Ok::<(Seq<char>, Seq<char>), Seq<char>>((pair.0@, pair.1@)),
            ));
        }
        let ghost before = pairs@;
        pairs.push(pair);
        assert(pairs_view(pairs@) =~= pairs_view(before).push((pair.0@, pair.1@)));
        k = k + 1;
    }
    Ok(Declaration { pairs })
}

/// Which kind of option a surface prices.
#[derive(Debug, Clone, Copy, PartialEq, Eq)]
pub enum OptionKind {
    Call,
    Put,
}

/// The option kind a declaration names, or why it names none.
pub open spec fn option_kind_spec(pairs: Seq<(Seq<char>, Seq<char>)>) -> Result<OptionKind, Seq<char>> {
    match lookup(pairs, "option"@) {
        Some(v) => if v == "call"@ {
            Ok(OptionKind::Call)
        } else if v == "put"@ {
            Ok(OptionKind::Put)
        } else {
            Err("unknown option kind "@ + debug_str(v) + " (expected \"call\" or \"put\")"@)
        },
        None => Err("missing \"option\""@),
    }
}

/// The option kind the declaration's `option` value names.
pub fn option_kind(decl: &Declaration) -> (r: Result<OptionKind, String>)
    ensures
        match (r, option_kind_spec(decl.view_pairs())) {
            (Ok(k), Ok(k2)) => k == k2,
            (Err(e), Err(m)) => e@ == m,
            _ => false,
        },
{
    match decl.get("option") {
        Some(v) => {
            if same_text(v.as_str(), "call") {
                Ok(OptionKind::Call)
            } else if same_text(v.as_str(), "put") {
                Ok(OptionKind::Put)
            } else {
                let mut e = lit("unknown option kind ");
                push_debug_str(&mut e, v.as_str());
                push_str(&mut e, " (expected \"call\" or \"put\")");
                Err(e)
            }
        },
        None => Err(lit("missing \"option\"")),
    }
}

} // verus!
