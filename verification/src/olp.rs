//! Decision logic of the one-loop-provider binding: status-code checking,
//! expected result-vector lengths, and the momentum buffer layout handed to
//! the provider's evaluator.

use vstd::prelude::*;
use crate::contract::{Contract, spec_n_results, n_results};
use crate::error::{BLHAError, SpecBLHAError};

verus! {

/// Judge the status an OLP entry point wrote: 1 is the sole success value;
/// any other code is a provider error tagged with the call's name.
pub fn check_olp_status(call: Vec<u8>, code: i32) -> (r: Result<(), BLHAError>)
    ensures
        match r {
            Ok(u) => code == 1,
            Err(e) => code != 1 && e@ == (SpecBLHAError::Olp { call: call@, code: code as int }),
        },
{
    if code == 1 {
        Ok(())
    } else {
        Err(BLHAError::OLPError { call, code })
    }
}

/// Expected result-vector length for a subprocess of a parsed contract.
pub fn expected_n_results(c: &Contract, id: usize) -> (r: usize)
    requires
        id < c@.subprocesses.len(),
        c@.subprocesses[id as int].n_legs() * c@.subprocesses[id as int].n_legs() <= usize::MAX / 2,
    ensures
        r == spec_n_results(
            c@.subprocesses[id as int].amplitude_type,
            c@.subprocesses[id as int].n_legs(),
        ),
{
    let sp = &c.subprocesses[id];
    proof {
        assert(c@.subprocesses[id as int] == c.subprocesses@[id as int]@);
        let k = sp@.n_legs();
        if k >= 1 {
            assert(k <= k * k) by (nonlinear_arith)
                requires
                    k >= 1,
            ;
        }
    }
    let legs = sp.n_legs();
    n_results(sp.amplitude_type, legs)
}

/// The flat momentum buffer handed to the provider: for each leg its four
/// components verbatim, then its Minkowski invariant, rows concatenated
/// leg-major into one buffer of length 5 per leg.
pub fn flatten_momenta<T: Copy>(momenta: &Vec<[T; 4]>, invariants: &Vec<T>) -> (r: Vec<T>)
    requires
        momenta@.len() == invariants@.len(),
        momenta@.len() * 5 <= usize::MAX,
    ensures
        r@.len() == 5 * momenta@.len(),
        forall|i: int, j: int|
            0 <= i < momenta@.len() && 0 <= j < 4 ==> r@[5 * i + j] == momenta@[i]@[j],
        forall|i: int| 0 <= i < momenta@.len() ==> r@[5 * i + 4] == invariants@[i],
{
    let mut out: Vec<T> = Vec::new();
    let mut i: usize = 0;
    while i < momenta.len()
        invariant
            i <= momenta@.len(),
            momenta@.len() == invariants@.len(),
            momenta@.len() * 5 <= usize::MAX,
            out@.len() == 5 * i,
            forall|a: int, j: int| 0 <= a < i && 0 <= j < 4 ==> out@[5 * a + j] == momenta@[a]@[j],
            forall|a: int| 0 <= a < i ==> out@[5 * a + 4] == invariants@[a],
        decreases momenta@.len() - i,
    {
        let m = &momenta[i];
        out.push(m[0]);
        out.push(m[1]);
        out.push(m[2]);
        out.push(m[3]);
        out.push(invariants[i]);
        i = i + 1;
    }
    out
}

} // verus!
