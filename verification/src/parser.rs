//! The order-file parser: comment stripping, line splitting, tokenization,
//! statement recognition, and assembly into a `Contract`, each step proved
//! against a functional specification of the grammar.

use vstd::prelude::*;
use crate::bytes::{is_ws, is_ws_byte, lower_seq, to_lower, bytes_eq, copy_vec, copy_vec_i64,
    ints_view};
use crate::values::{ValueAtom, SpecAtom, atoms_view, classify_atom_spec, classify_token,
    spec_parse_i64, parse_i64, values_display, values_display_bytes};
use crate::contract::{AmplitudeType, Subprocess, SpecSubprocess, subs_view, spec_amp_of,
    map_insert_seq, options_new, options_insert, Contract, SpecContract};
use crate::error::{BLHAError, SpecBLHAError};
use indexmap::IndexMap;

verus! {

/// Comment stripping: from `#` to the end of the line, newlines kept.
pub open spec fn strip_rec(s: Seq<u8>, in_comment: bool) -> Seq<u8>
    decreases s.len(),
{
    if s.len() == 0 {
        Seq::empty()
    } else if in_comment {
        if s[0] == 10 {
            seq![10u8] + strip_rec(s.skip(1), false)
        } else {
            strip_rec(s.skip(1), true)
        }
    } else if s[0] == 35 {
        strip_rec(s.skip(1), true)
    } else {
        seq![s[0]] + strip_rec(s.skip(1), false)
    }
}

pub fn strip_comments(v: &Vec<u8>) -> (r: Vec<u8>)
    ensures
        r@ == strip_rec(v@, false),
{
    let mut out: Vec<u8> = Vec::new();
    let mut in_c = false;
    let mut i: usize = 0;
    proof {
        assert(v@.skip(0) =~= v@);
    }
    while i < v.len()
        invariant
            i <= v@.len(),
            strip_rec(v@, false) == out@ + strip_rec(v@.skip(i as int), in_c),
        decreases v@.len() - i,
    {
        let c = v[i];
        let ghost out0 = out@;
        let ghost rest = v@.skip(i as int);
        proof {
            assert(rest[0] == v@[i as int]);
            assert(rest.skip(1) =~= v@.skip(i + 1));
        }
        if in_c {
            if c == 10 {
                out.push(10);
                in_c = false;
                proof {
                    assert(out@ =~= out0 + seq![10u8]);
                    assert(out0 + (seq![10u8] + strip_rec(v@.skip(i + 1), false)) =~= (out0 + seq![
                        10u8,
                    ]) + strip_rec(v@.skip(i + 1), false));
                }
            }
        } else if c == 35 {
            in_c = true;
        } else {
            out.push(c);
            proof {
                assert(out@ =~= out0 + seq![v@[i as int]]);
                assert(out0 + (seq![v@[i as int]] + strip_rec(v@.skip(i + 1), false)) =~= (out0
                    + seq![v@[i as int]]) + strip_rec(v@.skip(i + 1), false));
            }
        }
        i = i + 1;
    }
    proof {
        assert(v@.skip(v@.len() as int) =~= Seq::<u8>::empty());
    }
    out
}

/// The model of a vector of byte vectors.
pub open spec fn vecs_view(s: Seq<Vec<u8>>) -> Seq<Seq<u8>> {
    s.map_values(|x: Vec<u8>| x@)
}

/// Splitting on newline bytes, accumulating the current line.
pub open spec fn lines_rec(s: Seq<u8>, cur: Seq<u8>) -> Seq<Seq<u8>>
    decreases s.len(),
{
    if s.len() == 0 {
        seq![cur]
    } else if s[0] == 10 {
        seq![cur] + lines_rec(s.skip(1), Seq::empty())
    } else {
        lines_rec(s.skip(1), cur.push(s[0]))
    }
}

pub open spec fn split_lines_spec(s: Seq<u8>) -> Seq<Seq<u8>> {
    lines_rec(s, Seq::empty())
}

pub fn split_lines(v: &Vec<u8>) -> (r: Vec<Vec<u8>>)
    ensures
        vecs_view(r@) == split_lines_spec(v@),
{
    let mut out: Vec<Vec<u8>> = Vec::new();
    let mut cur: Vec<u8> = Vec::new();
    let mut i: usize = 0;
    proof {
        assert(v@.skip(0) =~= v@);
        assert(vecs_view(out@) + lines_rec(v@, cur@) =~= lines_rec(v@, cur@));
    }
    while i < v.len()
        invariant
            i <= v@.len(),
            split_lines_spec(v@) == vecs_view(out@) + lines_rec(v@.skip(i as int), cur@),
        decreases v@.len() - i,
    {
        let c = v[i];
        let ghost out0 = out@;
        let ghost cur0 = cur@;
        let ghost rest = v@.skip(i as int);
        proof {
            assert(rest[0] == v@[i as int]);
            assert(rest.skip(1) =~= v@.skip(i + 1));
        }
        if c == 10 {
            out.push(cur);
            cur = Vec::new();
            proof {
                assert(vecs_view(out@) =~= vecs_view(out0).push(cur0));
                assert(vecs_view(out0) + (seq![cur0] + lines_rec(v@.skip(i + 1), Seq::empty()))
                    =~= vecs_view(out0).push(cur0) + lines_rec(v@.skip(i + 1), Seq::empty()));
            }
        } else {
            cur.push(c);
        }
        i = i + 1;
    }
    proof {
        assert(v@.skip(v@.len() as int) =~= Seq::<u8>::empty());
    }
    out.push(cur);
    proof {
        let ghost last = vecs_view(out@)[out@.len() - 1];
        assert(vecs_view(out@) =~= vecs_view(out@.drop_last()).push(last));
        assert(vecs_view(out@) =~= split_lines_spec(v@));
    }
    out
}

/// Whitespace tokenization, accumulating the current token.
pub open spec fn toks_rec(s: Seq<u8>, cur: Seq<u8>) -> Seq<Seq<u8>>
    decreases s.len(),
{
    if s.len() == 0 {
        if cur.len() == 0 {
            Seq::empty()
        } else {
            seq![cur]
        }
    } else if is_ws(s[0]) {
        if cur.len() == 0 {
            toks_rec(s.skip(1), Seq::empty())
        } else {
            seq![cur] + toks_rec(s.skip(1), Seq::empty())
        }
    } else {
        toks_rec(s.skip(1), cur.push(s[0]))
    }
}

/// The whitespace-separated tokens of a piece of text.
pub open spec fn tokens_of(s: Seq<u8>) -> Seq<Seq<u8>> {
    toks_rec(s, Seq::empty())
}

pub fn tokenize(v: &Vec<u8>) -> (r: Vec<Vec<u8>>)
    ensures
        vecs_view(r@) == tokens_of(v@),
{
    let mut out: Vec<Vec<u8>> = Vec::new();
    let mut cur: Vec<u8> = Vec::new();
    let mut i: usize = 0;
    proof {
        assert(v@.skip(0) =~= v@);
        assert(vecs_view(out@) + toks_rec(v@, cur@) =~= toks_rec(v@, cur@));
    }
    while i < v.len()
        invariant
            i <= v@.len(),
            tokens_of(v@) == vecs_view(out@) + toks_rec(v@.skip(i as int), cur@),
        decreases v@.len() - i,
    {
        let c = v[i];
        let ghost out0 = out@;
        let ghost cur0 = cur@;
        let ghost rest = v@.skip(i as int);
        proof {
            assert(rest[0] == v@[i as int]);
            assert(rest.skip(1) =~= v@.skip(i + 1));
        }
        if is_ws_byte(c) {
            if cur.len() > 0 {
                out.push(cur);
                cur = Vec::new();
                proof {
                    assert(vecs_view(out@) =~= vecs_view(out0).push(cur0));
                    assert(vecs_view(out0) + (seq![cur0] + toks_rec(v@.skip(i + 1), Seq::empty()))
                        =~= vecs_view(out0).push(cur0) + toks_rec(v@.skip(i + 1), Seq::empty()));
                }
            } else {
                proof {
                    assert(cur@ =~= Seq::<u8>::empty());
                }
            }
        } else {
            cur.push(c);
        }
        i = i + 1;
    }
    proof {
        assert(v@.skip(v@.len() as int) =~= Seq::<u8>::empty());
    }
    if cur.len() > 0 {
        let ghost cur0 = cur@;
        let ghost out0 = out@;
        out.push(cur);
        proof {
            assert(vecs_view(out@) =~= vecs_view(out0).push(cur0));
            assert(vecs_view(out0) + seq![cur0] =~= vecs_view(out0).push(cur0));
        }
    } else {
        proof {
            assert(vecs_view(out@) + Seq::<Seq<u8>>::empty() =~= vecs_view(out@));
        }
    }
    out
}

/// A copy of the byte range `[lo, hi)`.
pub fn subrange_vec(v: &Vec<u8>, lo: usize, hi: usize) -> (r: Vec<u8>)
    requires
        lo <= hi <= v@.len(),
    ensures
        r@ == v@.subrange(lo as int, hi as int),
{
    let mut out: Vec<u8> = Vec::new();
    let mut i: usize = lo;
    while i < hi
        invariant
            lo <= i <= hi,
            out@ == v@.subrange(lo as int, i as int),
        decreases hi - i,
    {
        out.push(v[i]);
        proof {
            assert(v@.subrange(lo as int, i + 1) =~= v@.subrange(lo as int, i as int).push(
                v@[i as int],
            ));
        }
        i = i + 1;
    }
    out
}

/// Leading whitespace removed.
pub open spec fn trim_front(s: Seq<u8>) -> Seq<u8>
    decreases s.len(),
{
    if s.len() > 0 && is_ws(s[0]) {
        trim_front(s.skip(1))
    } else {
        s
    }
}

/// Trailing whitespace removed.
pub open spec fn trim_back(s: Seq<u8>) -> Seq<u8>
    decreases s.len(),
{
    if s.len() > 0 && is_ws(s.last()) {
        trim_back(s.drop_last())
    } else {
        s
    }
}

/// Surrounding whitespace removed.
pub open spec fn trim(s: Seq<u8>) -> Seq<u8> {
    trim_back(trim_front(s))
}

pub fn trim_bytes(v: &Vec<u8>) -> (r: Vec<u8>)
    ensures
        r@ == trim(v@),
{
    let mut lo: usize = 0;
    proof {
        assert(v@.skip(0) =~= v@);
    }
    while lo < v.len() && is_ws_byte(v[lo])
        invariant
            lo <= v@.len(),
            trim_front(v@) == trim_front(v@.skip(lo as int)),
        decreases v@.len() - lo,
    {
        proof {
            assert(v@.skip(lo as int)[0] == v@[lo as int]);
            assert(v@.skip(lo as int).skip(1) =~= v@.skip(lo + 1));
        }
        lo = lo + 1;
    }
    let ghost t = v@.skip(lo as int);
    proof {
        if lo < v@.len() {
            assert(t[0] == v@[lo as int]);
        }
        assert(trim_front(v@) == t);
    }
    let mut hi: usize = v.len();
    proof {
        assert(t.take(v@.len() - lo as int) =~= t);
    }
    while hi > lo && is_ws_byte(v[hi - 1])
        invariant
            lo <= hi <= v@.len(),
            trim_back(t) == trim_back(t.take(hi - lo as int)),
        decreases hi,
    {
        proof {
            let ghost pre = t.take(hi - lo as int);
            assert(pre.last() == v@[hi - 1 as int]);
            assert(pre.drop_last() =~= t.take(hi - 1 - lo as int));
        }
        hi = hi - 1;
    }
    proof {
        let ghost pre = t.take(hi - lo as int);
        if hi > lo {
            assert(pre.last() == v@[hi - 1 as int]);
        }
        assert(trim_back(pre) == pre);
        assert(v@.subrange(lo as int, hi as int) =~= t.take(hi - lo as int));
    }
    subrange_vec(v, lo, hi)
}

/// A standalone `|` at position `i`: surrounded by whitespace or the ends.
pub open spec fn bar_at(s: Seq<u8>, i: int) -> bool {
    0 <= i < s.len() && s[i] == 124 && (i == 0 || is_ws(s[i - 1])) && (i == s.len() - 1 || is_ws(
        s[i + 1],
    ))
}

/// First standalone `|` at or after `i`, or -1.
pub open spec fn find_bar_from(s: Seq<u8>, i: int) -> int
    decreases s.len() - i,
{
    if i < 0 || i >= s.len() {
        -1
    } else if bar_at(s, i) {
        i
    } else {
        find_bar_from(s, i + 1)
    }
}

pub fn find_bar(v: &Vec<u8>) -> (r: Option<usize>)
    ensures
        match r {
            Some(p) => p < v@.len() && find_bar_from(v@, 0) == p as int,
            None => find_bar_from(v@, 0) == -1,
        },
{
    let mut i: usize = 0;
    while i < v.len()
        invariant
            i <= v@.len(),
            find_bar_from(v@, 0) == find_bar_from(v@, i as int),
        decreases v@.len() - i,
    {
        let is_bar = v[i] == 124 && (i == 0 || {
            let p = v[i - 1];
            p == 32 || p == 9 || p == 10 || p == 13
        }) && (i == v.len() - 1 || {
            let n = v[i + 1];
            n == 32 || n == 9 || n == 10 || n == 13
        });
        if is_bar {
            proof {
                assert(bar_at(v@, i as int));
            }
            return Some(i);
        }
        proof {
            assert(!bar_at(v@, i as int));
        }
        i = i + 1;
    }
    None
}

/// One statement of the order file, as recognized on a line.
#[derive(Debug, Clone, PartialEq, Eq)]
pub enum Statement {
    /// `<key> <value>+ | <answer>` with an accepted answer.
    Opt { key: Vec<u8>, values: Vec<ValueAtom> },
    /// `<incoming>+ -> <outgoing>+ | <n_hel> <id>`.
    Sub { id: i64, n_hel: i64, incoming: Vec<i64>, outgoing: Vec<i64> },
    /// An option statement whose answer text was not "ok".
    BadAnswer { answer: Vec<u8> },
}

/// Mathematical model of a statement.
pub enum SpecStatement {
    Opt { key: Seq<u8>, values: Seq<SpecAtom> },
    Sub { id: int, n_hel: int, incoming: Seq<int>, outgoing: Seq<int> },
    BadAnswer { answer: Seq<u8> },
}

impl View for Statement {
    type V = SpecStatement;

    open spec fn view(&self) -> SpecStatement {
        match self {
            Statement::Opt { key, values } => SpecStatement::Opt {
                key: key@,
                values: atoms_view(values@),
            },
            Statement::Sub { id, n_hel, incoming, outgoing } => SpecStatement::Sub {
                id: *id as int,
                n_hel: *n_hel as int,
                incoming: ints_view(incoming@),
                outgoing: ints_view(outgoing@),
            },
            Statement::BadAnswer { answer } => SpecStatement::BadAnswer { answer: answer@ },
        }
    }
}

/// The model of a vector of statements.
pub open spec fn stmts_view(s: Seq<Statement>) -> Seq<SpecStatement> {
    s.map_values(|st: Statement| st@)
}

/// The token separating incoming from outgoing particle codes.
pub open spec fn arrow_tok() -> Seq<u8> {
    seq!['-' as u8, '>' as u8]
}

/// The accepted answer text, lowercased.
pub open spec fn ok_answer() -> Seq<u8> {
    seq!['o' as u8, 'k' as u8]
}

/// First arrow token at or after `i`, or -1.
pub open spec fn find_arrow_from(toks: Seq<Seq<u8>>, i: int) -> int
    decreases toks.len() - i,
{
    if i < 0 || i >= toks.len() {
        -1
    } else if toks[i] == arrow_tok() {
        i
    } else {
        find_arrow_from(toks, i + 1)
    }
}

/// All tokens in `[lo, hi)` parse as `i64`.
pub open spec fn all_int_toks(toks: Seq<Seq<u8>>, lo: int, hi: int) -> bool {
    forall|j: int| lo <= j < hi ==> (#[trigger] spec_parse_i64(toks[j])).is_some()
}

/// The integer a token denotes (0 for one that does not parse).
pub open spec fn int_val_of(t: Seq<u8>) -> int {
    match spec_parse_i64(t) {
        Some(v) => v,
        None => 0,
    }
}

/// The integers denoted by the tokens in `[lo, hi)`.
pub open spec fn int_vals_range(toks: Seq<Seq<u8>>, lo: int, hi: int) -> Seq<int> {
    Seq::new((hi - lo) as nat, |j: int| int_val_of(toks[lo + j]))
}

/// The classified atoms of the tokens in `[lo, hi)`.
pub open spec fn classified_range(toks: Seq<Seq<u8>>, lo: int, hi: int) -> Seq<SpecAtom> {
    Seq::new((hi - lo) as nat, |j: int| classify_atom_spec(toks[lo + j]))
}

/// The head tokens form `<int>+ -> <int>+`.
pub open spec fn is_sub_head(head: Seq<Seq<u8>>) -> bool {
    let a = find_arrow_from(head, 0);
    1 <= a && a + 1 < head.len() && all_int_toks(head, 0, a) && all_int_toks(
        head,
        a + 1,
        head.len() as int,
    )
}


/// Appending one more parsed integer extends the modeled range by one.
proof fn lemma_int_vals_push(toks: Seq<Seq<u8>>, lo: int, m: int, s: Seq<i64>, x: i64)
    requires
        0 <= lo <= m < toks.len(),
        ints_view(s) == int_vals_range(toks, lo, m),
        spec_parse_i64(toks[m]) == Some(x as int),
    ensures
        ints_view(s.push(x)) == int_vals_range(toks, lo, m + 1),
{
    assert(ints_view(s).len() == m - lo);
    assert forall|j: int| 0 <= j < m + 1 - lo implies #[trigger] int_vals_range(toks, lo, m + 1)[j]
        == ints_view(s.push(x))[j] by {
        assert(int_vals_range(toks, lo, m + 1)[j] == int_val_of(toks[lo + j]));
        if j < m - lo {
            assert(int_vals_range(toks, lo, m)[j] == int_val_of(toks[lo + j]));
            assert(ints_view(s)[j] == s[j] as int);
            assert(ints_view(s.push(x))[j] == s.push(x)[j] as int);
        } else {
            assert(lo + j == m);
            assert(ints_view(s.push(x))[j] == x as int);
        }
    }
    assert(ints_view(s.push(x)) =~= int_vals_range(toks, lo, m + 1));
}


/// Appending one more classified token extends the modeled range by one.
proof fn lemma_classified_push(toks: Seq<Seq<u8>>, lo: int, m: int, s: Seq<ValueAtom>, a: ValueAtom)
    requires
        0 <= lo <= m < toks.len(),
        atoms_view(s) == classified_range(toks, lo, m),
        a@ == classify_atom_spec(toks[m]),
    ensures
        atoms_view(s.push(a)) == classified_range(toks, lo, m + 1),
{
    assert(atoms_view(s).len() == m - lo);
    assert forall|j: int| 0 <= j < m + 1 - lo implies #[trigger] classified_range(toks, lo, m + 1)[j]
        == atoms_view(s.push(a))[j] by {
        assert(classified_range(toks, lo, m + 1)[j] == classify_atom_spec(toks[lo + j]));
        if j < m - lo {
            assert(classified_range(toks, lo, m)[j] == classify_atom_spec(toks[lo + j]));
            assert(atoms_view(s)[j] == s[j]@);
            assert(atoms_view(s.push(a))[j] == s.push(a)[j]@);
        } else {
            assert(lo + j == m);
            assert(atoms_view(s.push(a))[j] == a@);
        }
    }
    assert(atoms_view(s.push(a)) =~= classified_range(toks, lo, m + 1));
}

/// Recognition of one non-blank line. `Err` carries the 0-based byte offset
/// of the grammar violation.
pub open spec fn spec_parse_line(line: Seq<u8>) -> Result<SpecStatement, int> {
    let p = find_bar_from(line, 0);
    if p < 0 {
        Err(line.len() as int)
    } else {
        let head = tokens_of(line.take(p));
        let tail = line.skip(p + 1);
        if is_sub_head(head) {
            let a = find_arrow_from(head, 0);
            let ttoks = tokens_of(tail);
            if ttoks.len() == 2 && all_int_toks(ttoks, 0, 2) {
                Ok(SpecStatement::Sub {
                    id: int_val_of(ttoks[1]),
                    n_hel: int_val_of(ttoks[0]),
                    incoming: int_vals_range(head, 0, a),
                    outgoing: int_vals_range(head, a + 1, head.len() as int),
                })
            } else {
                Err(p + 1)
            }
        } else if head.len() >= 2 {
            let ans = trim(tail);
            if ans.len() == 0 {
                Err(p + 1)
            } else if lower_seq(ans) == ok_answer() {
                Ok(SpecStatement::Opt {
                    key: head[0],
                    values: classified_range(head, 1, head.len() as int),
                })
            } else {
                Ok(SpecStatement::BadAnswer { answer: ans })
            }
        } else {
            Err(0)
        }
    }
}

/// Recognize one non-blank line.
pub fn parse_line(line: &Vec<u8>) -> (r: Result<Statement, usize>)
    ensures
        match r {
            Ok(st) => spec_parse_line(line@) == Ok::<SpecStatement, int>(st@),
            Err(c) => spec_parse_line(line@) == Err::<SpecStatement, int>(c as int),
        },
{
    let p = match find_bar(line) {
        None => {
            return Err(line.len());
        },
        Some(p) => p,
    };
    let head_raw = subrange_vec(line, 0, p);
    let head = tokenize(&head_raw);
    let ghost hseq = tokens_of(line@.take(p as int));
    proof {
        assert(line@.subrange(0, p as int) =~= line@.take(p as int));
        assert(vecs_view(head@) == hseq);
        assert(head@.len() == hseq.len()) by {
            assert(vecs_view(head@).len() == head@.len());
        }
    }
    let n_line = line.len();
    let tail = subrange_vec(line, p + 1, n_line);
    proof {
        assert(tail@ =~= line@.skip(p + 1));
    }
    let arrow: Vec<u8> = vec!['-' as u8, '>' as u8];
    proof {
        assert(arrow@ =~= arrow_tok());
    }
    let mut has_arrow = false;
    let mut a_idx: usize = 0;
    let mut j: usize = 0;
    while j < head.len()
        invariant
            j <= head@.len(),
            has_arrow ==> a_idx < head@.len() && find_arrow_from(hseq, 0) == a_idx as int,
            !has_arrow ==> find_arrow_from(hseq, 0) == find_arrow_from(hseq, j as int),
        decreases head@.len() - j,
    {
        if !has_arrow {
            if bytes_eq(&head[j], &arrow) {
                has_arrow = true;
                a_idx = j;
                proof {
                    assert(hseq[j as int] == head@[j as int]@);
                    assert(find_arrow_from(hseq, j as int) == j as int);
                }
            } else {
                proof {
                    assert(hseq[j as int] == head@[j as int]@);
                    assert(find_arrow_from(hseq, j as int) == find_arrow_from(hseq, j + 1));
                }
            }
        }
        j = j + 1;
    }
    proof {
        if !has_arrow {
            assert(find_arrow_from(hseq, hseq.len() as int) == -1);
        }
    }
    let mut incoming: Vec<i64> = Vec::new();
    let mut outgoing: Vec<i64> = Vec::new();
    let mut is_sub = false;
    if has_arrow && a_idx >= 1 && a_idx + 1 < head.len() {
        let mut ok_ints = true;
        let mut k: usize = 0;
        while k < a_idx && ok_ints
            invariant
                k <= a_idx,
                a_idx < head@.len(),
                ok_ints ==> all_int_toks(hseq, 0, k as int) && ints_view(incoming@)
                    == int_vals_range(hseq, 0, k as int),
                !ok_ints ==> !all_int_toks(hseq, 0, a_idx as int),
            decreases a_idx - k,
        {
            proof {
                assert(hseq[k as int] == head@[k as int]@);
            }
            match parse_i64(&head[k]) {
                Some(x) => {
                    proof {
                        lemma_int_vals_push(hseq, 0, k as int, incoming@, x);
                    }
                    incoming.push(x);
                },
                None => {
                    ok_ints = false;
                    proof {
                        assert(!(#[trigger] spec_parse_i64(hseq[k as int])).is_some());
                    }
                },
            }
            k = k + 1;
        }
        let mut m: usize = a_idx + 1;
        while m < head.len() && ok_ints
            invariant
                a_idx + 1 <= m <= head@.len(),
                ok_ints ==> all_int_toks(hseq, 0, a_idx as int) && all_int_toks(
                    hseq,
                    a_idx + 1,
                    m as int,
                ) && ints_view(outgoing@) == int_vals_range(hseq, a_idx + 1, m as int)
                    && ints_view(incoming@) == int_vals_range(hseq, 0, a_idx as int),
                !ok_ints ==> !all_int_toks(hseq, 0, a_idx as int) || !all_int_toks(
                    hseq,
                    a_idx + 1,
                    hseq.len() as int,
                ),
            decreases head@.len() - m,
        {
            proof {
                assert(hseq[m as int] == head@[m as int]@);
            }
            match parse_i64(&head[m]) {
                Some(x) => {
                    proof {
                        lemma_int_vals_push(hseq, a_idx + 1 as int, m as int, outgoing@, x);
                    }
                    outgoing.push(x);
                },
                None => {
                    ok_ints = false;
                    proof {
                        assert(!(#[trigger] spec_parse_i64(hseq[m as int])).is_some());
                    }
                },
            }
            m = m + 1;
        }
        if ok_ints {
            is_sub = true;
            proof {
                assert(is_sub_head(hseq));
            }
        } else {
            proof {
                assert(!is_sub_head(hseq));
            }
        }
    } else {
        proof {
            assert(!is_sub_head(hseq));
        }
    }
    if is_sub {
        let ttoks = tokenize(&tail);
        let ghost tseq = tokens_of(line@.skip(p + 1));
        proof {
            assert(vecs_view(ttoks@) == tseq);
            assert(ttoks@.len() == tseq.len()) by {
                assert(vecs_view(ttoks@).len() == ttoks@.len());
            }
        }
        if ttoks.len() == 2 {
            proof {
                assert(tseq[0] == ttoks@[0]@);
                assert(tseq[1] == ttoks@[1]@);
            }
            let nh = parse_i64(&ttoks[0]);
            let idv = parse_i64(&ttoks[1]);
            match (nh, idv) {
                (Some(n_hel), Some(id)) => {
                    proof {
                        assert(all_int_toks(tseq, 0, 2)) by {
                            assert((#[trigger] spec_parse_i64(tseq[0])).is_some());
                            assert((#[trigger] spec_parse_i64(tseq[1])).is_some());
                        }
                    }
                    return Ok(Statement::Sub { id, n_hel, incoming, outgoing });
                },
                _ => {
                    proof {
                        assert(!all_int_toks(tseq, 0, 2));
                    }
                    return Err(p + 1);
                },
            }
        } else {
            return Err(p + 1);
        }
    }
    if head.len() >= 2 {
        let ans = trim_bytes(&tail);
        if ans.len() == 0 {
            return Err(p + 1);
        }
        let low = to_lower(&ans);
        let okv: Vec<u8> = vec!['o' as u8, 'k' as u8];
        proof {
            assert(okv@ =~= ok_answer());
        }
        if bytes_eq(&low, &okv) {
            let mut values: Vec<ValueAtom> = Vec::new();
            let mut q: usize = 1;
            while q < head.len()
                invariant
                    1 <= q <= head@.len(),
                    head@.len() >= 2,
                    atoms_view(values@) == classified_range(hseq, 1, q as int),
                decreases head@.len() - q,
            {
                proof {
                    assert(hseq[q as int] == head@[q as int]@);
                }
                let tok = copy_vec(&head[q]);
                let atom = classify_token(tok);
                proof {
                    lemma_classified_push(hseq, 1, q as int, values@, atom);
                }
                values.push(atom);
                q = q + 1;
            }
            let key = copy_vec(&head[0]);
            proof {
                assert(hseq[0] == head@[0]@);
            }
            return Ok(Statement::Opt { key, values });
        } else {
            return Ok(Statement::BadAnswer { answer: ans });
        }
    }
    Err(0)
}

/// The option key, lowercased, that switches the current amplitude type.
pub open spec fn amp_option_key() -> Seq<u8> {
    seq![
        'a' as u8,
        'm' as u8,
        'p' as u8,
        'l' as u8,
        'i' as u8,
        't' as u8,
        'u' as u8,
        'd' as u8,
        'e' as u8,
        't' as u8,
        'y' as u8,
        'p' as u8,
        'e' as u8,
    ]
}

/// The message prefix of a semantic rejection of an amplitude-type value.
pub open spec fn unknown_amp_prefix() -> Seq<u8> {
    seq![
        'U' as u8,
        'n' as u8,
        'k' as u8,
        'n' as u8,
        'o' as u8,
        'w' as u8,
        'n' as u8,
        ' ' as u8,
        'a' as u8,
        'm' as u8,
        'p' as u8,
        'l' as u8,
        'i' as u8,
        't' as u8,
        'u' as u8,
        'd' as u8,
        'e' as u8,
        ' ' as u8,
        't' as u8,
        'y' as u8,
        'p' as u8,
        'e' as u8,
        ':' as u8,
        ' ' as u8,
    ]
}

fn amp_option_key_bytes() -> (r: Vec<u8>)
    ensures
        r@ == amp_option_key(),
{
    let mut v: Vec<u8> = Vec::new();
    v.push('a' as u8);
    v.push('m' as u8);
    v.push('p' as u8);
    v.push('l' as u8);
    v.push('i' as u8);
    v.push('t' as u8);
    v.push('u' as u8);
    v.push('d' as u8);
    v.push('e' as u8);
    v.push('t' as u8);
    v.push('y' as u8);
    v.push('p' as u8);
    v.push('e' as u8);
    proof {
        assert(v@ =~= amp_option_key());
    }
    v
}

fn unknown_amp_prefix_bytes() -> (r: Vec<u8>)
    ensures
        r@ == unknown_amp_prefix(),
{
    let mut v: Vec<u8> = Vec::new();
    v.push('U' as u8);
    v.push('n' as u8);
    v.push('k' as u8);
    v.push('n' as u8);
    v.push('o' as u8);
    v.push('w' as u8);
    v.push('n' as u8);
    v.push(' ' as u8);
    v.push('a' as u8);
    v.push('m' as u8);
    v.push('p' as u8);
    v.push('l' as u8);
    v.push('i' as u8);
    v.push('t' as u8);
    v.push('u' as u8);
    v.push('d' as u8);
    v.push('e' as u8);
    v.push(' ' as u8);
    v.push('t' as u8);
    v.push('y' as u8);
    v.push('p' as u8);
    v.push('e' as u8);
    v.push(':' as u8);
    v.push(' ' as u8);
    proof {
        assert(v@ =~= unknown_amp_prefix());
    }
    v
}

/// A copy of a subprocess.
pub fn copy_sub(s: &Subprocess) -> (r: Subprocess)
    ensures
        r@ == s@,
{
    Subprocess {
        id: s.id,
        amplitude_type: s.amplitude_type,
        incoming_pdg: copy_vec_i64(&s.incoming_pdg),
        outgoing_pdg: copy_vec_i64(&s.outgoing_pdg),
    }
}

/// The fold of the statement list into options, subprocesses and the running
/// amplitude type. The first rejected statement aborts the whole assembly.
pub open spec fn stmts_assemble(
    stmts: Seq<SpecStatement>,
    opts: Seq<(Seq<u8>, Seq<u8>)>,
    subs: Seq<SpecSubprocess>,
    atype: AmplitudeType,
) -> Result<(Seq<(Seq<u8>, Seq<u8>)>, Seq<SpecSubprocess>), Seq<u8>>
    decreases stmts.len(),
{
    if stmts.len() == 0 {
        Ok((opts, subs))
    } else {
        match stmts[0] {
            SpecStatement::BadAnswer { answer } => Err(answer),
            SpecStatement::Sub { id, n_hel, incoming, outgoing } => stmts_assemble(
                stmts.skip(1),
                opts,
                subs.push(
                    SpecSubprocess {
                        id,
                        amplitude_type: atype,
                        incoming_pdg: incoming,
                        outgoing_pdg: outgoing,
                    },
                ),
                atype,
            ),
            SpecStatement::Opt { key, values } => {
                let disp = values_display(values);
                if lower_seq(key) == amp_option_key() {
                    match spec_amp_of(lower_seq(disp)) {
                        Some(at) => stmts_assemble(
                            stmts.skip(1),
                            map_insert_seq(opts, key, disp),
                            subs,
                            at,
                        ),
                        None => Err(unknown_amp_prefix() + disp),
                    }
                } else {
                    stmts_assemble(stmts.skip(1), map_insert_seq(opts, key, disp), subs, atype)
                }
            },
        }
    }
}

/// Fold the statements into the option map and the raw subprocess list.
fn assemble(stmts: &Vec<Statement>) -> (r: Result<
    (IndexMap<Vec<u8>, Vec<u8>>, Vec<Subprocess>),
    Vec<u8>,
>)
    ensures
        match r {
            Ok(p) => stmts_assemble(
                stmts_view(stmts@),
                Seq::empty(),
                Seq::empty(),
                AmplitudeType::Loop,
            ) == Ok::<_, Seq<u8>>((crate::contract::options_entries(p.0), subs_view(p.1@))),
            Err(t) => stmts_assemble(
                stmts_view(stmts@),
                Seq::empty(),
                Seq::empty(),
                AmplitudeType::Loop,
            ) == Err::<(Seq<(Seq<u8>, Seq<u8>)>, Seq<SpecSubprocess>), Seq<u8>>(t@),
        },
{
    let ghost sv = stmts_view(stmts@);
    let mut opts = options_new();
    let mut subs: Vec<Subprocess> = Vec::new();
    let mut atype = AmplitudeType::Loop;
    let amp_key = amp_option_key_bytes();
    let mut i: usize = 0;
    proof {
        assert(sv.skip(0) =~= sv);
        assert(subs_view(subs@) =~= Seq::<SpecSubprocess>::empty());
        assert(sv.len() == stmts@.len());
    }
    while i < stmts.len()
        invariant
            i <= stmts@.len(),
            sv == stmts_view(stmts@),
            sv.len() == stmts@.len(),
            amp_key@ == amp_option_key(),
            stmts_assemble(sv, Seq::empty(), Seq::empty(), AmplitudeType::Loop) == stmts_assemble(
                sv.skip(i as int),
                crate::contract::options_entries(opts),
                subs_view(subs@),
                atype,
            ),
        decreases stmts@.len() - i,
    {
        let ghost rest = sv.skip(i as int);
        proof {
            assert(rest[0] == sv[i as int]);
            assert(sv[i as int] == stmts@[i as int]@);
            assert(rest.skip(1) =~= sv.skip(i + 1));
        }
        match &stmts[i] {
            Statement::BadAnswer { answer } => {
                return Err(copy_vec(answer));
            },
            Statement::Sub { id, n_hel, incoming, outgoing } => {
                let ghost subs0 = subs@;
                let newsub = Subprocess {
                    id: *id,
                    amplitude_type: atype,
                    incoming_pdg: copy_vec_i64(incoming),
                    outgoing_pdg: copy_vec_i64(outgoing),
                };
                proof {
                    assert(newsub@ == SpecSubprocess {
                        id: *id as int,
                        amplitude_type: atype,
                        incoming_pdg: ints_view(incoming@),
                        outgoing_pdg: ints_view(outgoing@),
                    });
                }
                subs.push(newsub);
                proof {
                    assert(subs_view(subs@) =~= subs_view(subs0).push(newsub@));
                }
            },
            Statement::Opt { key, values } => {
                let disp = values_display_bytes(values);
                let low_key = to_lower(key);
                if bytes_eq(&low_key, &amp_key) {
                    let low_disp = to_lower(&disp);
                    match AmplitudeType::from_lower(&low_disp) {
                        Some(at) => {
                            atype = at;
                            options_insert(&mut opts, copy_vec(key), disp);
                        },
                        None => {
                            let mut err = unknown_amp_prefix_bytes();
                            crate::values::push_all(&mut err, &disp);
                            return Err(err);
                        },
                    }
                } else {
                    options_insert(&mut opts, copy_vec(key), disp);
                }
            },
        }
        i = i + 1;
    }
    proof {
        assert(sv.skip(sv.len() as int) =~= Seq::<SpecStatement>::empty());
    }
    Ok((opts, subs))
}

/// Stable insertion of a subprocess: it goes after every one whose id is not
/// greater.
pub open spec fn insert_by_id(s: Seq<SpecSubprocess>, x: SpecSubprocess) -> Seq<SpecSubprocess>
    decreases s.len(),
{
    if s.len() == 0 {
        seq![x]
    } else if s.last().id <= x.id {
        s.push(x)
    } else {
        insert_by_id(s.drop_last(), x).push(s.last())
    }
}

/// Stable sort of the subprocess list, ascending by id.
pub open spec fn sort_by_id(s: Seq<SpecSubprocess>) -> Seq<SpecSubprocess>
    decreases s.len(),
{
    if s.len() == 0 {
        Seq::empty()
    } else {
        insert_by_id(sort_by_id(s.drop_last()), s.last())
    }
}

/// Where the insertion point is known, the stable insertion is a splice.
proof fn lemma_insert_split(s: Seq<SpecSubprocess>, x: SpecSubprocess, j: int)
    requires
        0 <= j <= s.len(),
        forall|k: int| j <= k < s.len() ==> s[k].id > x.id,
        j == 0 || s[j - 1].id <= x.id,
    ensures
        insert_by_id(s, x) == s.take(j) + seq![x] + s.skip(j),
    decreases s.len(),
{
    if s.len() == 0 {
        assert(insert_by_id(s, x) =~= s.take(j) + seq![x] + s.skip(j));
    } else if s.last().id <= x.id {
        assert(j == s.len());
        assert(s.take(j) =~= s);
        assert(s.skip(j) =~= Seq::<SpecSubprocess>::empty());
        assert(s.push(x) =~= s.take(j) + seq![x] + s.skip(j));
    } else {
        assert(j < s.len());
        let d = s.drop_last();
        lemma_insert_split(d, x, j);
        assert(insert_by_id(s, x) == insert_by_id(d, x).push(s.last()));
        assert((d.take(j) + seq![x] + d.skip(j)).push(s.last()) =~= s.take(j) + seq![x] + s.skip(
            j,
        ));
    }
}

/// Sort the subprocesses ascending by id, stably.
pub fn sort_subprocesses(subs: Vec<Subprocess>) -> (r: Vec<Subprocess>)
    ensures
        subs_view(r@) == sort_by_id(subs_view(subs@)),
        crate::contract::subs_sorted(subs_view(r@)),
{
    let ghost sv = subs_view(subs@);
    let mut out: Vec<Subprocess> = Vec::new();
    let mut i: usize = 0;
    proof {
        assert(sv.take(0) =~= Seq::<SpecSubprocess>::empty());
        assert(subs_view(out@) =~= sort_by_id(sv.take(0)));
        assert(sv.len() == subs@.len());
    }
    while i < subs.len()
        invariant
            i <= subs@.len(),
            sv == subs_view(subs@),
            sv.len() == subs@.len(),
            subs_view(out@) == sort_by_id(sv.take(i as int)),
            crate::contract::subs_sorted(subs_view(out@)),
        decreases subs@.len() - i,
    {
        let x = copy_sub(&subs[i]);
        proof {
            assert(x@ == subs@[i as int]@);
            assert(sv[i as int] == subs@[i as int]@);
        }
        let mut j: usize = out.len();
        while j > 0 && out[j - 1].id > x.id
            invariant
                j <= out@.len(),
                forall|k: int| j <= k < out@.len() ==> subs_view(out@)[k].id > x@.id,
            decreases j,
        {
            proof {
                assert(subs_view(out@)[j - 1 as int] == out@[j - 1 as int]@);
            }
            j = j - 1;
        }
        let ghost out0 = subs_view(out@);
        proof {
            if j > 0 {
                assert(subs_view(out@)[j - 1 as int] == out@[j - 1 as int]@);
                assert(out0[j - 1 as int].id <= x@.id);
            }
            lemma_insert_split(out0, x@, j as int);
        }
        out.insert(j, x);
        proof {
            assert(subs_view(out@) =~= out0.take(j as int) + seq![x@] + out0.skip(j as int));
            assert(sv.take(i + 1).drop_last() =~= sv.take(i as int));
            assert(sv.take(i + 1).last() == sv[i as int]);
            assert(subs_view(out@) == sort_by_id(sv.take(i + 1)));
            assert(crate::contract::subs_sorted(subs_view(out@))) by {
                assert forall|p_: int, q_: int|
                    0 <= p_ < q_ < subs_view(out@).len() implies subs_view(out@)[p_].id
                    <= subs_view(out@)[q_].id by {
                    let nv = subs_view(out@);
                    if p_ < j && q_ == j {
                        assert(nv[p_] == out0[p_]);
                        if j > 0 {
                            assert(out0[p_].id <= out0[j - 1 as int].id || p_ == j - 1);
                        }
                    } else if p_ == j && q_ > j {
                        assert(nv[q_] == out0[q_ - 1]);
                    } else if p_ < j && q_ > j {
                        assert(nv[p_] == out0[p_]);
                        assert(nv[q_] == out0[q_ - 1]);
                    } else if p_ < j && q_ < j {
                        assert(nv[p_] == out0[p_]);
                        assert(nv[q_] == out0[q_]);
                    } else if p_ > j && q_ > j {
                        assert(nv[p_] == out0[p_ - 1]);
                        assert(nv[q_] == out0[q_ - 1]);
                    }
                }
            }
        }
        i = i + 1;
    }
    proof {
        assert(sv.take(sv.len() as int) =~= sv);
    }
    out
}

/// Statements of the lines, or the first syntax error as (line, column).
pub open spec fn parse_lines(lines: Seq<Seq<u8>>, lineno: int) -> Result<
    Seq<SpecStatement>,
    (int, int),
>
    decreases lines.len(),
{
    if lines.len() == 0 {
        Ok(Seq::empty())
    } else if tokens_of(lines[0]).len() == 0 {
        parse_lines(lines.skip(1), lineno + 1)
    } else {
        match spec_parse_line(lines[0]) {
            Ok(st) => match parse_lines(lines.skip(1), lineno + 1) {
                Ok(rest) => Ok(seq![st] + rest),
                Err(e) => Err(e),
            },
            Err(c) => Err((lineno, c)),
        }
    }
}

/// What parsing an order-file text yields: the assembled contract with its
/// subprocesses stable-sorted by id, or the first failure.
pub open spec fn spec_parse(text: Seq<u8>) -> Result<SpecContract, SpecBLHAError> {
    let lines = split_lines_spec(strip_rec(text, false));
    match parse_lines(lines, 1) {
        Err(lc) => Err(SpecBLHAError::Parse { line: lc.0, col: lc.1 }),
        Ok(stmts) => match stmts_assemble(
            stmts,
            Seq::empty(),
            Seq::empty(),
            AmplitudeType::Loop,
        ) {
            Err(t) => Err(SpecBLHAError::Contract { text: t }),
            Ok(os) => Ok(SpecContract { options: os.0, subprocesses: sort_by_id(os.1) }),
        },
    }
}

/// Parse an order-file text into a `Contract`.
pub fn parse_contract(text: &Vec<u8>) -> (r: Result<Contract, BLHAError>)
    ensures
        match r {
            Ok(c) => spec_parse(text@) == Ok::<SpecContract, SpecBLHAError>(c@)
                && crate::contract::subs_sorted(c@.subprocesses),
            Err(e) => spec_parse(text@) == Err::<SpecContract, SpecBLHAError>(e@),
        },
{
    let stripped = strip_comments(text);
    let lines = split_lines(&stripped);
    let ghost lseq = split_lines_spec(strip_rec(text@, false));
    proof {
        assert(vecs_view(lines@) == lseq);
        assert(lines@.len() == lseq.len()) by {
            assert(vecs_view(lines@).len() == lines@.len());
        }
        assert(lseq.skip(0) =~= lseq);
        assert(stmts_view(Seq::<Statement>::empty()) =~= Seq::<SpecStatement>::empty());
    }
    let mut stmts: Vec<Statement> = Vec::new();
    let mut i: usize = 0;
    while i < lines.len()
        invariant
            i <= lines@.len(),
            vecs_view(lines@) == lseq,
            lines@.len() == lseq.len(),
            match parse_lines(lseq.skip(i as int), i + 1 as int) {
                Ok(rest) => parse_lines(lseq, 1) == Ok::<Seq<SpecStatement>, (int, int)>(
                    stmts_view(stmts@) + rest,
                ),
                Err(e) => parse_lines(lseq, 1) == Err::<Seq<SpecStatement>, (int, int)>(e),
            },
        decreases lines@.len() - i,
    {
        let ghost rest_lines = lseq.skip(i as int);
        proof {
            assert(rest_lines[0] == lseq[i as int]);
            assert(lseq[i as int] == lines@[i as int]@);
            assert(rest_lines.skip(1) =~= lseq.skip(i + 1));
        }
        let line = &lines[i];
        let toks = tokenize(line);
        if toks.len() == 0 {
            proof {
                assert(tokens_of(lines@[i as int]@).len() == 0) by {
                    assert(vecs_view(toks@).len() == toks@.len());
                }
            }
        } else {
            proof {
                assert(tokens_of(lines@[i as int]@).len() != 0) by {
                    assert(vecs_view(toks@).len() == toks@.len());
                }
            }
            match parse_line(line) {
                Ok(st) => {
                    let ghost st0 = stmts_view(stmts@);
                    stmts.push(st);
                    proof {
                        assert(stmts_view(stmts@) =~= st0.push(st@));
                        assert(st0 + (seq![st@] + parse_lines(lseq.skip(i + 1), i + 2)->Ok_0)
                            =~= st0.push(st@) + parse_lines(lseq.skip(i + 1), i + 2)->Ok_0);
                    }
                },
                Err(c) => {
                    return Err(BLHAError::ParseError { line: i + 1, col: c });
                },
            }
        }
        i = i + 1;
    }
    proof {
        assert(lseq.skip(lseq.len() as int) =~= Seq::<Seq<u8>>::empty());
    }
    match assemble(&stmts) {
        Err(t) => Err(BLHAError::ContractError { text: t }),
        Ok((opts, subs)) => {
            let sorted = sort_subprocesses(subs);
            Ok(Contract { options: opts, subprocesses: sorted })
        },
    }
}

/// An option statement whose key, lowercased, is the amplitude-type key.
pub open spec fn is_amp_opt(st: SpecStatement) -> bool {
    match st {
        SpecStatement::Opt { key, values } => lower_seq(key) == amp_option_key(),
        _ => false,
    }
}

pub open spec fn is_sub_stmt(st: SpecStatement) -> bool {
    match st {
        SpecStatement::Sub { .. } => true,
        _ => false,
    }
}

/// No amplitude-type option stands before any subprocess statement.
pub open spec fn no_amp_before_sub(stmts: Seq<SpecStatement>) -> bool {
    forall|j: int, k: int|
        0 <= j < k < stmts.len() && is_amp_opt(#[trigger] stmts[j]) ==> !is_sub_stmt(
            #[trigger] stmts[k],
        )
}

pub open spec fn all_loop(s: Seq<SpecSubprocess>) -> bool {
    forall|i: int| 0 <= i < s.len() ==> (#[trigger] s[i]).amplitude_type == AmplitudeType::Loop
}

proof fn lemma_assemble_amp(
    stmts: Seq<SpecStatement>,
    opts: Seq<(Seq<u8>, Seq<u8>)>,
    subs: Seq<SpecSubprocess>,
    atype: AmplitudeType,
)
    requires
        no_amp_before_sub(stmts),
        all_loop(subs),
        atype == AmplitudeType::Loop || forall|k: int|
            0 <= k < stmts.len() ==> !is_sub_stmt(#[trigger] stmts[k]),
    ensures
        match stmts_assemble(stmts, opts, subs, atype) {
            Ok(p) => all_loop(p.1),
            Err(t) => true,
        },
    decreases stmts.len(),
{
    if stmts.len() == 0 {
    } else {
        let rest = stmts.skip(1);
        assert(forall|m: int| 0 <= m < rest.len() ==> #[trigger] rest[m] == stmts[m + 1]);
        assert(no_amp_before_sub(rest));
        match stmts[0] {
            SpecStatement::BadAnswer { answer } => {
            },
            SpecStatement::Sub { id, n_hel, incoming, outgoing } => {
                assert(is_sub_stmt(stmts[0]));
                assert(atype == AmplitudeType::Loop);
                let newsub = SpecSubprocess {
                    id,
                    amplitude_type: atype,
                    incoming_pdg: incoming,
                    outgoing_pdg: outgoing,
                };
                assert(all_loop(subs.push(newsub)));
                if !(atype == AmplitudeType::Loop || forall|k: int|
                    0 <= k < rest.len() ==> !is_sub_stmt(#[trigger] rest[k])) {
                    assert(false);
                }
                lemma_assemble_amp(rest, opts, subs.push(newsub), atype);
            },
            SpecStatement::Opt { key, values } => {
                let disp = values_display(values);
                if lower_seq(key) == amp_option_key() {
                    assert(is_amp_opt(stmts[0]));
                    assert(forall|k: int| 0 <= k < rest.len() ==> !is_sub_stmt(#[trigger] rest[k]))
                        by {
                        assert forall|k: int| 0 <= k < rest.len() implies !is_sub_stmt(
                            #[trigger] rest[k],
                        ) by {
                            assert(rest[k] == stmts[k + 1]);
                            assert(is_amp_opt(stmts[0]));
                        }
                    }
                    match spec_amp_of(lower_seq(disp)) {
                        Some(at) => {
                            lemma_assemble_amp(rest, map_insert_seq(opts, key, disp), subs, at);
                        },
                        None => {
                        },
                    }
                } else {
                    lemma_assemble_amp(rest, map_insert_seq(opts, key, disp), subs, atype);
                }
            },
        }
    }
}

/// Stable insertion keeps the list sorted, and adds no element but the new
/// one.
pub proof fn lemma_insert_by_id_sorted(s: Seq<SpecSubprocess>, x: SpecSubprocess)
    requires
        crate::contract::subs_sorted(s),
    ensures
        crate::contract::subs_sorted(insert_by_id(s, x)),
        insert_by_id(s, x).len() == s.len() + 1,
        forall|i: int|
            0 <= i < insert_by_id(s, x).len() ==> (#[trigger] insert_by_id(s, x)[i]) == x || (
            exists|j: int| 0 <= j < s.len() && insert_by_id(s, x)[i] == s[j]),
    decreases s.len(),
{
    let r = insert_by_id(s, x);
    if s.len() == 0 {
    } else if s.last().id <= x.id {
        assert(r == s.push(x));
        assert forall|i: int| 0 <= i < r.len() implies (#[trigger] r[i]) == x || (exists|j: int|
            0 <= j < s.len() && r[i] == s[j]) by {
            if i < s.len() {
                assert(r[i] == s[i]);
            }
        }
        assert forall|p_: int, q_: int| 0 <= p_ < q_ < r.len() implies r[p_].id <= r[q_].id by {
            if q_ < s.len() {
            } else {
                assert(r[q_] == x);
                if p_ < s.len() {
                    assert(s[p_].id <= s.last().id || p_ == s.len() - 1);
                }
            }
        }
    } else {
        let d = s.drop_last();
        assert(crate::contract::subs_sorted(d)) by {
            assert(forall|i: int| 0 <= i < d.len() ==> d[i] == s[i]);
        }
        lemma_insert_by_id_sorted(d, x);
        let inner = insert_by_id(d, x);
        assert(r == inner.push(s.last()));
        assert forall|i: int| 0 <= i < r.len() implies (#[trigger] r[i]) == x || (exists|j: int|
            0 <= j < s.len() && r[i] == s[j]) by {
            if i < inner.len() {
                assert(r[i] == inner[i]);
                if inner[i] == x {
                } else {
                    let j = choose|j: int| 0 <= j < d.len() && inner[i] == d[j];
                    assert(d[j] == s[j]);
                }
            } else {
                assert(r[i] == s.last());
                assert(s.last() == s[s.len() - 1]);
            }
        }
        assert forall|p_: int, q_: int| 0 <= p_ < q_ < r.len() implies r[p_].id <= r[q_].id by {
            if q_ < inner.len() {
            } else {
                assert(r[q_] == s.last());
                assert(r[p_] == inner[p_]);
                if inner[p_] == x {
                } else {
                    let j = choose|j: int| 0 <= j < d.len() && inner[p_] == d[j];
                    assert(d[j] == s[j]);
                    assert(s[j].id <= s.last().id);
                }
            }
        }
    }
}

/// The subprocess list of a parsed contract is ascending-sorted by id,
/// whatever order the statements declared them in.
pub proof fn lemma_sort_by_id_sorted(s: Seq<SpecSubprocess>)
    ensures
        crate::contract::subs_sorted(sort_by_id(s)),
    decreases s.len(),
{
    if s.len() > 0 {
        lemma_sort_by_id_sorted(s.drop_last());
        lemma_insert_by_id_sorted(sort_by_id(s.drop_last()), s.last());
    }
}

/// Stable insertion only adds the new element to the bag of subprocesses.
pub proof fn lemma_insert_by_id_multiset(s: Seq<SpecSubprocess>, x: SpecSubprocess)
    ensures
        insert_by_id(s, x).to_multiset() == s.to_multiset().insert(x),
    decreases s.len(),
{
    broadcast use vstd::seq_lib::group_to_multiset_ensures;

    if s.len() == 0 {
        assert(seq![x] =~= Seq::<SpecSubprocess>::empty().push(x));
        assert(insert_by_id(s, x).to_multiset() =~= s.to_multiset().insert(x));
    } else if s.last().id <= x.id {
        assert(insert_by_id(s, x).to_multiset() =~= s.to_multiset().insert(x));
    } else {
        let d = s.drop_last();
        lemma_insert_by_id_multiset(d, x);
        assert(insert_by_id(s, x) == insert_by_id(d, x).push(s.last()));
        assert(insert_by_id(d, x).push(s.last()).to_multiset() =~= insert_by_id(
            d,
            x,
        ).to_multiset().insert(s.last()));
        assert(d.push(s.last()) =~= s);
        assert(s.to_multiset() =~= d.to_multiset().insert(s.last()));
        assert(d.to_multiset().insert(x).insert(s.last()) =~= d.to_multiset().insert(
            s.last(),
        ).insert(x));
    }
}

/// Sorting permutes the subprocess list: same subprocesses, as a bag.
pub proof fn lemma_sort_by_id_multiset(s: Seq<SpecSubprocess>)
    ensures
        sort_by_id(s).to_multiset() == s.to_multiset(),
    decreases s.len(),
{
    broadcast use vstd::seq_lib::group_to_multiset_ensures;

    if s.len() > 0 {
        let d = s.drop_last();
        lemma_sort_by_id_multiset(d);
        lemma_insert_by_id_multiset(sort_by_id(d), s.last());
        assert(d.push(s.last()) =~= s);
        assert(s.to_multiset() =~= d.to_multiset().insert(s.last()));
    }
}

/// Where no amplitude-type option precedes any subprocess statement, every
/// subprocess of the parsed contract carries the initial default, Loop.
pub proof fn lemma_default_amplitude(text: Seq<u8>)
    requires
        match parse_lines(split_lines_spec(strip_rec(text, false)), 1) {
            Ok(stmts) => no_amp_before_sub(stmts),
            Err(e) => false,
        },
    ensures
        match spec_parse(text) {
            Ok(c) => all_loop(c.subprocesses),
            Err(e) => true,
        },
{
    let stmts = match parse_lines(split_lines_spec(strip_rec(text, false)), 1) {
        Ok(stmts) => stmts,
        Err(e) => Seq::empty(),
    };
    assert(all_loop(Seq::<SpecSubprocess>::empty()));
    lemma_assemble_amp(stmts, Seq::empty(), Seq::empty(), AmplitudeType::Loop);
    match stmts_assemble(stmts, Seq::empty(), Seq::empty(), AmplitudeType::Loop) {
        Ok(p) => {
            lemma_sort_unsorted_all_loop(p.1);
        },
        Err(t) => {
        },
    }
}

/// Sorting preserves the per-subprocess amplitude types.
proof fn lemma_sort_unsorted_all_loop(s: Seq<SpecSubprocess>)
    requires
        all_loop(s),
    ensures
        all_loop(sort_by_id(s)),
    decreases s.len(),
{
    if s.len() > 0 {
        let d = s.drop_last();
        assert(all_loop(d)) by {
            assert(forall|i: int| 0 <= i < d.len() ==> d[i] == s[i]);
        }
        lemma_sort_unsorted_all_loop(d);
        lemma_sort_by_id_sorted(d);
        lemma_insert_by_id_sorted(sort_by_id(d), s.last());
        let r = insert_by_id(sort_by_id(d), s.last());
        assert forall|i: int| 0 <= i < r.len() implies (#[trigger] r[i]).amplitude_type
            == AmplitudeType::Loop by {
            if r[i] == s.last() {
            } else {
                let j = choose|j: int|
                    0 <= j < sort_by_id(d).len() && r[i] == sort_by_id(d)[j];
            }
        }
    }
}


/// A reached option statement whose answer text was not "ok" converts the
/// whole assembly into a contract error carrying that answer text verbatim.
pub proof fn lemma_bad_answer_rejected(
    stmts: Seq<SpecStatement>,
    opts: Seq<(Seq<u8>, Seq<u8>)>,
    subs: Seq<SpecSubprocess>,
    atype: AmplitudeType,
    answer: Seq<u8>,
)
    requires
        stmts.len() > 0,
        stmts[0] == (SpecStatement::BadAnswer { answer }),
    ensures
        stmts_assemble(stmts, opts, subs, atype) == Err::<
            (Seq<(Seq<u8>, Seq<u8>)>, Seq<SpecSubprocess>),
            Seq<u8>,
        >(answer),
{
}

/// A reached amplitude-type option whose value is outside the six recognized
/// names converts the whole assembly into a contract error whose text ends
/// with that value's display.
pub proof fn lemma_unknown_amplitude_rejected(
    stmts: Seq<SpecStatement>,
    opts: Seq<(Seq<u8>, Seq<u8>)>,
    subs: Seq<SpecSubprocess>,
    atype: AmplitudeType,
    key: Seq<u8>,
    values: Seq<SpecAtom>,
)
    requires
        stmts.len() > 0,
        stmts[0] == (SpecStatement::Opt { key, values }),
        lower_seq(key) == amp_option_key(),
        spec_amp_of(lower_seq(values_display(values))) is None,
    ensures
        stmts_assemble(stmts, opts, subs, atype) == Err::<
            (Seq<(Seq<u8>, Seq<u8>)>, Seq<SpecSubprocess>),
            Seq<u8>,
        >(unknown_amp_prefix() + values_display(values)),
{
}

/// Parsing is a function of the text alone: two parses of equal texts are
/// structurally equal.
pub proof fn lemma_parse_idempotent(
    t1: Seq<u8>,
    t2: Seq<u8>,
    r1: Result<SpecContract, SpecBLHAError>,
    r2: Result<SpecContract, SpecBLHAError>,
)
    requires
        t1 == t2,
        r1 == spec_parse(t1),
        r2 == spec_parse(t2),
    ensures
        r1 == r2,
{
}

} // verus!
