//! Option value tokens: classification into float, integer or opaque string,
//! exact decimal parsing and formatting, and the canonical display strings
//! stored in a contract's option map.

use vstd::prelude::*;
use crate::bytes::is_digit;

verus! {

/// One value token of an option statement, already classified.
#[derive(Debug, Clone, PartialEq, Eq, Hash)]
pub enum ValueAtom {
    Int(i64),
    Float(Vec<u8>),
    Str(Vec<u8>),
}

/// Mathematical model of a value token.
pub enum SpecAtom {
    Int(int),
    Float(Seq<u8>),
    Str(Seq<u8>),
}

impl View for ValueAtom {
    type V = SpecAtom;

    open spec fn view(&self) -> SpecAtom {
        match self {
            ValueAtom::Int(i) => SpecAtom::Int(*i as int),
            ValueAtom::Float(t) => SpecAtom::Float(t@),
            ValueAtom::Str(t) => SpecAtom::Str(t@),
        }
    }
}

/// Numeric value of a sequence of decimal digit bytes.
pub open spec fn digits_val(s: Seq<u8>) -> int
    decreases s.len(),
{
    if s.len() == 0 {
        0
    } else {
        digits_val(s.drop_last()) * 10 + (s.last() - 48)
    }
}

pub open spec fn all_digits(s: Seq<u8>) -> bool {
    forall|i: int| 0 <= i < s.len() ==> is_digit(s[i])
}

pub proof fn lemma_digits_nonneg(s: Seq<u8>)
    requires
        all_digits(s),
    ensures
        digits_val(s) >= 0,
    decreases s.len(),
{
    if s.len() > 0 {
        assert(all_digits(s.drop_last()));
        lemma_digits_nonneg(s.drop_last());
        assert(is_digit(s.last()));
    }
}

/// The integer a signed-digits token denotes, before any range check.
pub open spec fn int_token_val(s: Seq<u8>) -> Option<int> {
    if s.len() == 0 {
        None
    } else if s[0] == 43 || s[0] == 45 {
        if s.len() >= 2 && all_digits(s.skip(1)) {
            if s[0] == 45 {
                Some(-digits_val(s.skip(1)))
            } else {
                Some(digits_val(s.skip(1)))
            }
        } else {
            None
        }
    } else if all_digits(s) {
        Some(digits_val(s))
    } else {
        None
    }
}

/// A token parses as an `i64` when it is sign-plus-digits and its value fits.
pub open spec fn spec_parse_i64(s: Seq<u8>) -> Option<int> {
    match int_token_val(s) {
        Some(v) => if i64::MIN <= v <= i64::MAX {
            Some(v)
        } else {
            None
        },
        None => None,
    }
}

/// Parse a whole token as a decimal `i64`; `None` on any malformed token or
/// on overflow.
pub fn parse_i64(v: &Vec<u8>) -> (r: Option<i64>)
    ensures
        match r {
            Some(x) => spec_parse_i64(v@) == Some(x as int),
            None => spec_parse_i64(v@) == None::<int>,
        },
{
    if v.len() == 0 {
        return None;
    }
    let c0 = v[0];
    let neg = c0 == 45;
    let start: usize = if c0 == 43 || c0 == 45 {
        1
    } else {
        0
    };
    if v.len() == start {
        return None;
    }
    // All bytes from `start` on must be digits.
    let mut i: usize = start;
    while i < v.len()
        invariant
            start <= i <= v@.len(),
            forall|j: int| start <= j < i ==> is_digit(v@[j]),
        decreases v@.len() - i,
    {
        let c = v[i];
        if c < 48 || c > 57 {
            proof {
                assert(!is_digit(v@[i as int]));
                assert(!all_digits(v@.skip(start as int))) by {
                    assert(v@.skip(start as int)[i - start as int] == v@[i as int]);
                }
                if start == 1 {
                    assert(int_token_val(v@) == None::<int>);
                } else {
                    assert(!all_digits(v@)) by {
                        assert(v@.skip(0)[i as int] == v@[i as int]);
                        assert(v@.skip(0) =~= v@);
                    }
                }
            }
            return None;
        }
        i = i + 1;
    }
    let ghost digits = v@.skip(start as int);
    proof {
        assert(all_digits(digits));
        if start == 0 {
            assert(v@.skip(0) =~= v@);
        }
    }
    // Accumulate the magnitude, saturating knowledge past 2^63.
    let bound: u128 = 9223372036854775808;
    let mut acc: u128 = 0;
    let mut k: usize = start;
    while k < v.len()
        invariant
            start <= k <= v@.len(),
            all_digits(digits),
            digits == v@.skip(start as int),
            start <= v@.len(),
            bound == 9223372036854775808u128,
            digits_val(digits.take(k - start as int)) <= bound as int ==> acc == digits_val(
                digits.take(k - start as int),
            ),
            digits_val(digits.take(k - start as int)) > bound as int ==> acc > bound,
        decreases v@.len() - k,
    {
        let d = v[k];
        let ghost pre = digits.take(k - start as int);
        let ghost post = digits.take(k + 1 - start as int);
        proof {
            assert(post.drop_last() =~= pre);
            assert(post.last() == digits[k - start as int]);
            assert(digits[k - start as int] == v@[k as int]);
            assert(digits_val(post) == digits_val(pre) * 10 + (v@[k as int] - 48));
            assert(all_digits(pre));
            lemma_digits_nonneg(pre);
        }
        if acc <= bound {
            acc = acc * 10 + ((d - 48) as u128);
        } else {
            proof {
                assert(digits_val(pre) > bound as int);
                assert(digits_val(post) > bound as int);
            }
        }
        k = k + 1;
    }
    proof {
        assert(digits.take(v@.len() - start as int) =~= digits);
        lemma_digits_nonneg(digits);
    }
    if neg {
        if acc > bound {
            proof {
                assert(int_token_val(v@) == Some(-digits_val(digits)));
                assert(-digits_val(digits) < i64::MIN);
            }
            return None;
        }
        let r: i64 = (-(acc as i128)) as i64;
        return Some(r);
    } else {
        if acc >= bound {
            proof {
                assert(int_token_val(v@) == Some(digits_val(digits)));
                assert(digits_val(digits) > i64::MAX);
            }
            return None;
        }
        let r: i64 = acc as i64;
        return Some(r);
    }
}

/// A signed decimal-point numeral: optional sign, one or more digits, a dot,
/// zero or more digits.
pub open spec fn is_float_tok(s: Seq<u8>) -> bool {
    exists|k: int| body_dot_at(float_body(s), k)
}

/// The token without its optional sign.
pub open spec fn float_body(s: Seq<u8>) -> Seq<u8> {
    if s.len() > 0 && (s[0] == 43 || s[0] == 45) {
        s.skip(1)
    } else {
        s
    }
}

/// The dot of a float token sits at `k`: digits before, digits after.
pub open spec fn body_dot_at(body: Seq<u8>, k: int) -> bool {
    1 <= k < body.len() && body[k] == 46 && all_digits(body.take(k)) && all_digits(body.skip(k + 1))
}

/// Classify a float token exactly.
pub fn is_float_token(v: &Vec<u8>) -> (r: bool)
    ensures
        r == is_float_tok(v@),
{
    let start: usize = if v.len() > 0 && (v[0] == 43 || v[0] == 45) {
        1
    } else {
        0
    };
    let ghost body = if start == 1 {
        v@.skip(1)
    } else {
        v@
    };
    proof {
        if start == 0 {
            assert(v@.skip(0) =~= v@);
        }
    }
    // Find the first dot.
    let mut i: usize = start;
    while i < v.len() && v[i] != 46
        invariant
            start <= i <= v@.len(),
            body == if start == 1 {
                v@.skip(1)
            } else {
                v@
            },
            start == 0 || start == 1,
            forall|j: int| start <= j < i ==> v@[j] != 46,
        decreases v@.len() - i,
    {
        i = i + 1;
    }
    if i >= v.len() {
        // No dot at all.
        proof {
            assert(forall|k: int| 1 <= k < body.len() ==> body[k] == v@[k + start] && v@[k + start]
                != 46);
            assert(!is_float_tok(v@));
        }
        return false;
    }
    // v[i] is the first dot; the only candidate position is k = i - start.
    if i == start {
        proof {
            assert(forall|k: int| #[trigger] body_dot_at(body, k) ==> body[k] == 46 && k >= 1);
            assert(forall|k: int| 1 <= k < body.len() ==> body_dot_at(body, k) ==> all_digits(
                body.take(k),
            ) && !is_digit(body[0]));
            assert(forall|k: int| #[trigger] body_dot_at(body, k) ==> body.take(k)[0] == body[0]);
            assert(!is_float_tok(v@)) by {
                assert forall|k: int| !(#[trigger] body_dot_at(body, k)) by {
                    if 1 <= k < body.len() {
                        assert(body[0] == v@[start as int]);
                        assert(body.take(k)[0] == body[0]);
                        assert(body[0] == 46);
                        assert(!is_digit(body[0]));
                    }
                }
            }
        }
        return false;
    }
    let dot: usize = i;
    let ghost kk = dot - start as int;
    // Check digits before the dot.
    let mut a: usize = start;
    while a < dot
        invariant
            start <= a <= dot,
            dot < v@.len(),
            body == if start == 1 {
                v@.skip(1)
            } else {
                v@
            },
            start == 0 || start == 1,
            kk == dot - start as int,
            forall|j: int| start <= j < a ==> is_digit(v@[j]),
        decreases dot - a,
    {
        let c = v[a];
        if c < 48 || c > 57 {
            proof {
                assert(!is_digit(v@[a as int]));
                assert(forall|j: int| 0 <= j < body.len() ==> body[j] == v@[j + start]);
                lemma_only_first_dot(v@, body, start as int, dot as int);
                assert(body.take(kk)[a - start as int] == v@[a as int]);
                assert(!body_dot_at(body, kk));
            }
            return false;
        }
        a = a + 1;
    }
    // Check digits after the dot.
    let mut b: usize = dot + 1;
    while b < v.len()
        invariant
            dot + 1 <= b <= v@.len(),
            dot < v@.len(),
            body == if start == 1 {
                v@.skip(1)
            } else {
                v@
            },
            start == 0 || start == 1,
            start <= dot,
            kk == dot - start as int,
            forall|j: int| dot + 1 <= j < b ==> is_digit(v@[j]),
        decreases v@.len() - b,
    {
        let c = v[b];
        if c < 48 || c > 57 {
            proof {
                assert(!is_digit(v@[b as int]));
                assert(forall|j: int| 0 <= j < body.len() ==> body[j] == v@[j + start]);
                lemma_only_first_dot(v@, body, start as int, dot as int);
                assert(body.skip(kk + 1)[b - dot - 1 as int] == v@[b as int]);
                assert(!body_dot_at(body, kk));
            }
            return false;
        }
        b = b + 1;
    }
    proof {
        assert(forall|j: int| 0 <= j < body.len() ==> body[j] == v@[j + start]);
        assert(body[kk] == v@[dot as int]);
        assert(all_digits(body.take(kk))) by {
            assert(forall|j: int| 0 <= j < kk ==> body.take(kk)[j] == v@[j + start]);
        }
        assert(all_digits(body.skip(kk + 1))) by {
            assert(forall|j: int|
                0 <= j < body.len() - kk - 1 ==> #[trigger] body.skip(kk + 1)[j] == v@[j + dot + 1]);
        }
        assert(body_dot_at(body, kk));
        assert(body == float_body(v@));
        assert(is_float_tok(v@));
    }
    true
}

/// When every candidate dot position other than the first dot's is ruled out.
proof fn lemma_only_first_dot(v: Seq<u8>, body: Seq<u8>, start: int, dot: int)
    requires
        start == 0 || start == 1,
        body == v.skip(start),
        start <= dot < v.len(),
        v[dot] == 46,
        forall|j: int| start <= j < dot ==> v[j] != 46,
    ensures
        forall|k: int| #[trigger] body_dot_at(body, k) ==> k == dot - start,
{
    assert forall|k: int| #[trigger] body_dot_at(body, k) implies k == dot - start by {
        assert(body[k] == v[k + start]);
        if k < dot - start {
            assert(v[k + start] != 46);
        } else if k > dot - start {
            assert(body.take(k)[dot - start] == v[dot]);
            assert(!is_digit(46u8));
        }
    }
}

/// Decimal digits of a non-negative integer, most significant first.
pub open spec fn dec_digits(n: int) -> Seq<u8>
    decreases n,
{
    if n < 10 {
        seq![(48 + if n >= 0 {
            n
        } else {
            0
        }) as u8]
    } else {
        dec_digits(n / 10).push((48 + n % 10) as u8)
    }
}

/// Canonical decimal display of an integer.
pub open spec fn int_display(v: int) -> Seq<u8> {
    if v >= 0 {
        dec_digits(v)
    } else {
        seq![45u8] + dec_digits(-v)
    }
}

/// Digits of n when n > 0, empty when n == 0.
pub open spec fn pos_digits(n: int) -> Seq<u8> {
    if n == 0 {
        Seq::empty()
    } else {
        dec_digits(n)
    }
}

/// Format an `i64` in canonical decimal.
pub fn i64_display_bytes(v: i64) -> (r: Vec<u8>)
    ensures
        r@ == int_display(v as int),
{
    let m: u64 = if v < 0 {
        (-(v as i128)) as u64
    } else {
        v as u64
    };
    let mut out: Vec<u8> = Vec::new();
    if m == 0 {
        out.push(48);
        proof {
            assert(out@ =~= dec_digits(0));
        }
    } else {
        let mut cur: u64 = m;
        while cur > 0
            invariant
                pos_digits(m as int) == pos_digits(cur as int) + out@,
            decreases cur,
        {
            let d = cur % 10;
            out.insert(0, (48 + d) as u8);
            proof {
                if cur >= 10 {
                    assert(dec_digits(cur as int) == dec_digits(cur as int / 10).push(
                        (48 + cur as int % 10) as u8,
                    ));
                    assert(pos_digits(cur as int) =~= pos_digits(cur as int / 10) + seq![
                        (48 + cur as int % 10) as u8,
                    ]);
                } else {
                    assert(dec_digits(cur as int) =~= Seq::<u8>::empty().push(
                        (48 + cur as int) as u8,
                    ));
                    assert(pos_digits(cur as int) =~= pos_digits(cur as int / 10) + seq![
                        (48 + cur as int % 10) as u8,
                    ]);
                }
            }
            cur = cur / 10;
        }
        proof {
            assert(out@ == dec_digits(m as int));
        }
    }
    if v < 0 {
        out.insert(0, 45);
        proof {
            assert(out@ =~= seq![45u8] + dec_digits(m as int));
        }
    }
    proof {
        if v >= 0 {
            assert(m as int == v as int);
        } else {
            assert(m as int == -(v as int));
        }
    }
    out
}

/// Append a copy of `src` to `dst`.
pub fn push_all(dst: &mut Vec<u8>, src: &Vec<u8>)
    ensures
        final(dst)@ == old(dst)@ + src@,
{
    let mut i: usize = 0;
    while i < src.len()
        invariant
            i <= src@.len(),
            dst@ == old(dst)@ + src@.take(i as int),
        decreases src@.len() - i,
    {
        dst.push(src[i]);
        proof {
            assert(old(dst)@ + src@.take(i + 1) =~= (old(dst)@ + src@.take(i as int)).push(
                src@[i as int],
            ));
        }
        i = i + 1;
    }
    proof {
        assert(src@.take(src@.len() as int) =~= src@);
    }
}

/// The model of a sequence of classified tokens.
pub open spec fn atoms_view(s: Seq<ValueAtom>) -> Seq<SpecAtom> {
    s.map_values(|a: ValueAtom| a@)
}

/// Canonical scalar display: an integer canonically, other tokens verbatim.
pub open spec fn atom_scalar_display(a: SpecAtom) -> Seq<u8> {
    match a {
        SpecAtom::Int(i) => int_display(i),
        SpecAtom::Float(t) => t,
        SpecAtom::Str(t) => t,
    }
}

/// Quote and backslash escaped with a backslash, as in the debug form of a
/// string.
pub open spec fn esc(s: Seq<u8>) -> Seq<u8>
    decreases s.len(),
{
    if s.len() == 0 {
        Seq::empty()
    } else if s[0] == 34 || s[0] == 92 {
        seq![92u8, s[0]] + esc(s.skip(1))
    } else {
        seq![s[0]] + esc(s.skip(1))
    }
}

/// "Int(" tag of a tagged integer.
pub open spec fn int_tag() -> Seq<u8> {
    seq!['I' as u8, 'n' as u8, 't' as u8, '(' as u8]
}

/// "Float(" tag of a tagged float.
pub open spec fn float_tag() -> Seq<u8> {
    seq!['F' as u8, 'l' as u8, 'o' as u8, 'a' as u8, 't' as u8, '(' as u8]
}

/// "String(\"" tag of a tagged string.
pub open spec fn str_tag() -> Seq<u8> {
    seq!['S' as u8, 't' as u8, 'r' as u8, 'i' as u8, 'n' as u8, 'g' as u8, '(' as u8, '"' as u8]
}

/// Display of one atom inside a list, tagged with its classification.
pub open spec fn atom_tagged_display(a: SpecAtom) -> Seq<u8> {
    match a {
        SpecAtom::Int(i) => int_tag() + int_display(i) + seq![')' as u8],
        SpecAtom::Float(t) => float_tag() + t + seq![')' as u8],
        SpecAtom::Str(t) => str_tag() + esc(t) + seq!['"' as u8, ')' as u8],
    }
}

/// The items of a list display, separated by ", ".
pub open spec fn list_items_display(vs: Seq<SpecAtom>) -> Seq<u8>
    decreases vs.len(),
{
    if vs.len() == 0 {
        Seq::empty()
    } else if vs.len() == 1 {
        atom_tagged_display(vs[0])
    } else {
        atom_tagged_display(vs[0]) + seq![',' as u8, ' ' as u8] + list_items_display(vs.skip(1))
    }
}

/// What the option map stores for an option's value list: a single value as
/// its scalar display, several values as a bracketed tagged list.
pub open spec fn values_display(vs: Seq<SpecAtom>) -> Seq<u8> {
    if vs.len() == 1 {
        atom_scalar_display(vs[0])
    } else {
        seq!['[' as u8] + list_items_display(vs) + seq![']' as u8]
    }
}

fn escape_bytes(t: &Vec<u8>) -> (r: Vec<u8>)
    ensures
        r@ == esc(t@),
{
    let mut out: Vec<u8> = Vec::new();
    let mut i: usize = 0;
    proof {
        assert(t@.skip(0) =~= t@);
        assert(out@ + esc(t@) =~= esc(t@));
    }
    while i < t.len()
        invariant
            i <= t@.len(),
            esc(t@) == out@ + esc(t@.skip(i as int)),
        decreases t@.len() - i,
    {
        let c = t[i];
        let ghost out0 = out@;
        let ghost rest = t@.skip(i as int);
        proof {
            assert(rest[0] == t@[i as int]);
            assert(rest.skip(1) =~= t@.skip(i + 1));
        }
        if c == 34 || c == 92 {
            out.push(92);
            out.push(c);
            proof {
                assert(out@ =~= out0 + seq![92u8, t@[i as int]]);
                assert(out0 + (seq![92u8, t@[i as int]] + esc(t@.skip(i + 1))) =~= (out0 + seq![
                    92u8,
                    t@[i as int],
                ]) + esc(t@.skip(i + 1)));
            }
        } else {
            out.push(c);
            proof {
                assert(out@ =~= out0 + seq![t@[i as int]]);
                assert(out0 + (seq![t@[i as int]] + esc(t@.skip(i + 1))) =~= (out0 + seq![
                    t@[i as int],
                ]) + esc(t@.skip(i + 1)));
            }
        }
        i = i + 1;
    }
    proof {
        assert(t@.skip(t@.len() as int) =~= Seq::<u8>::empty());
    }
    out
}

/// The tagged display of one atom.
fn atom_tagged(a: &ValueAtom) -> (r: Vec<u8>)
    ensures
        r@ == atom_tagged_display(a@),
{
    let mut out: Vec<u8> = Vec::new();
    match a {
        ValueAtom::Int(i) => {
            out.push('I' as u8);
            out.push('n' as u8);
            out.push('t' as u8);
            out.push('(' as u8);
            proof {
                assert(out@ =~= int_tag());
            }
            let d = i64_display_bytes(*i);
            push_all(&mut out, &d);
            out.push(')' as u8);
            proof {
                assert(out@ =~= int_tag() + int_display(*i as int) + seq![')' as u8]);
            }
        },
        ValueAtom::Float(t) => {
            out.push('F' as u8);
            out.push('l' as u8);
            out.push('o' as u8);
            out.push('a' as u8);
            out.push('t' as u8);
            out.push('(' as u8);
            proof {
                assert(out@ =~= float_tag());
            }
            push_all(&mut out, t);
            out.push(')' as u8);
            proof {
                assert(out@ =~= float_tag() + t@ + seq![')' as u8]);
            }
        },
        ValueAtom::Str(t) => {
            out.push('S' as u8);
            out.push('t' as u8);
            out.push('r' as u8);
            out.push('i' as u8);
            out.push('n' as u8);
            out.push('g' as u8);
            out.push('(' as u8);
            out.push('"' as u8);
            proof {
                assert(out@ =~= str_tag());
            }
            let e = escape_bytes(t);
            push_all(&mut out, &e);
            out.push('"' as u8);
            out.push(')' as u8);
            proof {
                assert(out@ =~= str_tag() + esc(t@) + seq!['"' as u8, ')' as u8]);
            }
        },
    }
    out
}

/// The canonical display string stored in the option map for a value list.
pub fn values_display_bytes(vs: &Vec<ValueAtom>) -> (r: Vec<u8>)
    ensures
        r@ == values_display(atoms_view(vs@)),
{
    let ghost atoms = atoms_view(vs@);
    if vs.len() == 1 {
        let a = &vs[0];
        match a {
            ValueAtom::Int(i) => {
                return i64_display_bytes(*i);
            },
            ValueAtom::Float(t) => {
                let mut out: Vec<u8> = Vec::new();
                push_all(&mut out, t);
                return out;
            },
            ValueAtom::Str(t) => {
                let mut out: Vec<u8> = Vec::new();
                push_all(&mut out, t);
                return out;
            },
        }
    }
    let mut out: Vec<u8> = Vec::new();
    out.push('[' as u8);
    let mut i: usize = 0;
    proof {
        assert(atoms.skip(0) =~= atoms);
        assert(out@ =~= seq!['[' as u8]);
    }
    while i < vs.len()
        invariant
            i <= vs@.len(),
            atoms == atoms_view(vs@),
            atoms.len() == vs@.len(),
            vs@.len() != 1,
            out@ + list_items_display(atoms.skip(i as int)) == seq!['[' as u8]
                + list_items_display(atoms),
        decreases vs@.len() - i,
    {
        let ghost out0 = out@;
        let ghost rest = atoms.skip(i as int);
        proof {
            assert(rest[0] == atoms[i as int]);
            assert(rest.skip(1) =~= atoms.skip(i + 1));
            assert(atoms[i as int] == vs@[i as int]@);
        }
        let t = atom_tagged(&vs[i]);
        push_all(&mut out, &t);
        if i + 1 < vs.len() {
            out.push(',' as u8);
            out.push(' ' as u8);
            proof {
                assert(rest.len() >= 2);
                assert(list_items_display(rest) == atom_tagged_display(rest[0]) + seq![
                    ',' as u8,
                    ' ' as u8,
                ] + list_items_display(rest.skip(1)));
                assert(out@ =~= out0 + (atom_tagged_display(rest[0]) + seq![',' as u8, ' ' as u8]));
                assert(out@ + list_items_display(atoms.skip(i + 1)) =~= out0 + list_items_display(
                    rest,
                ));
            }
        } else {
            proof {
                assert(rest.len() == 1);
                assert(list_items_display(rest) == atom_tagged_display(rest[0]));
                assert(atoms.skip(i + 1) =~= Seq::<SpecAtom>::empty());
                assert(out@ + list_items_display(atoms.skip(i + 1)) =~= out0 + list_items_display(
                    rest,
                ));
            }
        }
        i = i + 1;
    }
    proof {
        assert(atoms.skip(vs@.len() as int) =~= Seq::<SpecAtom>::empty());
        assert(out@ =~= seq!['[' as u8] + list_items_display(atoms));
    }
    out.push(']' as u8);
    proof {
        assert(out@ =~= (seq!['[' as u8] + list_items_display(atoms)).push(']' as u8));
        assert((seq!['[' as u8] + list_items_display(atoms)).push(']' as u8) =~= seq!['[' as u8]
            + list_items_display(atoms) + seq![']' as u8]);
    }
    out
}


/// Classification of one token, in priority order: float, else integer,
/// else opaque string.
pub open spec fn classify_atom_spec(t: Seq<u8>) -> SpecAtom {
    if is_float_tok(t) {
        SpecAtom::Float(t)
    } else {
        match spec_parse_i64(t) {
            Some(v) => SpecAtom::Int(v),
            None => SpecAtom::Str(t),
        }
    }
}

/// Classify one token.
pub fn classify_token(t: Vec<u8>) -> (r: ValueAtom)
    ensures
        r@ == classify_atom_spec(t@),
{
    if is_float_token(&t) {
        ValueAtom::Float(t)
    } else {
        match parse_i64(&t) {
            Some(x) => ValueAtom::Int(x),
            None => ValueAtom::Str(t),
        }
    }
}

} // verus!
