//! Byte-level text utilities: whitespace classification, ASCII lowercasing,
//! decimal integer parsing and formatting, all with exact specifications.

use vstd::prelude::*;

verus! {

/// Whitespace as the order-file grammar knows it: space, tab, newline, return.
pub open spec fn is_ws(c: u8) -> bool {
    c == 32u8 || c == 9u8 || c == 10u8 || c == 13u8
}

pub fn is_ws_byte(c: u8) -> (r: bool)
    ensures
        r == is_ws(c),
{
    c == 32 || c == 9 || c == 10 || c == 13
}

pub open spec fn is_digit(c: u8) -> bool {
    48u8 <= c && c <= 57u8
}

pub fn is_digit_byte(c: u8) -> (r: bool)
    ensures
        r == is_digit(c),
{
    48 <= c && c <= 57
}

/// ASCII lowercasing of a single byte.
pub open spec fn lower_byte(c: u8) -> u8 {
    if 65u8 <= c && c <= 90u8 {
        (c + 32) as u8
    } else {
        c
    }
}

pub open spec fn lower_seq(s: Seq<u8>) -> Seq<u8> {
    s.map_values(|c: u8| lower_byte(c))
}

pub fn to_lower(v: &Vec<u8>) -> (r: Vec<u8>)
    ensures
        r@ == lower_seq(v@),
{
    let mut out: Vec<u8> = Vec::new();
    let mut i: usize = 0;
    while i < v.len()
        invariant
            i <= v.len(),
            out@ == lower_seq(v@.take(i as int)),
        decreases v.len() - i,
    {
        let c = v[i];
        if 65 <= c && c <= 90 {
            out.push(c + 32);
        } else {
            out.push(c);
        }
        proof {
            assert(v@.take(i + 1 as int).drop_last() =~= v@.take(i as int));
            assert(lower_seq(v@.take(i + 1 as int)) =~= lower_seq(v@.take(i as int)).push(
                lower_byte(v@[i as int]),
            ));
        }
        i = i + 1;
    }
    proof {
        assert(v@.take(v@.len() as int) =~= v@);
    }
    out
}

pub fn bytes_eq(a: &Vec<u8>, b: &Vec<u8>) -> (r: bool)
    ensures
        r == (a@ == b@),
{
    if a.len() != b.len() {
        return false;
    }
    let mut i: usize = 0;
    while i < a.len()
        invariant
            i <= a.len(),
            a@.len() == b@.len(),
            forall|j: int| 0 <= j < i ==> a@[j] == b@[j],
        decreases a.len() - i,
    {
        if a[i] != b[i] {
            return false;
        }
        i = i + 1;
    }
    proof {
        assert(a@ =~= b@);
    }
    true
}

/// The model of a sequence of machine integers.
pub open spec fn ints_view(s: Seq<i64>) -> Seq<int> {
    s.map_values(|x: i64| x as int)
}

/// A copy of a byte vector.
pub fn copy_vec(v: &Vec<u8>) -> (r: Vec<u8>)
    ensures
        r@ == v@,
{
    let mut out: Vec<u8> = Vec::new();
    let mut i: usize = 0;
    while i < v.len()
        invariant
            i <= v@.len(),
            out@ == v@.take(i as int),
        decreases v@.len() - i,
    {
        out.push(v[i]);
        proof {
            assert(v@.take(i + 1) =~= v@.take(i as int).push(v@[i as int]));
        }
        i = i + 1;
    }
    proof {
        assert(v@.take(v@.len() as int) =~= v@);
    }
    out
}

/// A copy of a particle-code vector.
pub fn copy_vec_i64(v: &Vec<i64>) -> (r: Vec<i64>)
    ensures
        r@ == v@,
{
    let mut out: Vec<i64> = Vec::new();
    let mut i: usize = 0;
    while i < v.len()
        invariant
            i <= v@.len(),
            out@ == v@.take(i as int),
        decreases v@.len() - i,
    {
        out.push(v[i]);
        proof {
            assert(v@.take(i + 1) =~= v@.take(i as int).push(v@[i as int]));
        }
        i = i + 1;
    }
    proof {
        assert(v@.take(v@.len() as int) =~= v@);
    }
    out
}

} // verus!
