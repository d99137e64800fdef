//! The BLHA contract data model: amplitude types, subprocesses, and the
//! parsed contract with its insertion-ordered option map.

use vstd::prelude::*;
use crate::bytes::lower_seq;
use indexmap::IndexMap;

verus! {

/// The closed set of amplitude categories a contract can request.
#[allow(non_camel_case_types)]
#[derive(Debug, Clone, Copy, PartialEq, Eq, Hash, Structural)]
pub enum AmplitudeType {
    Tree,
    scTree,
    scTree2,
    ccTree,
    Loop,
    LoopInduced,
}

/// The display name of an amplitude type, as bytes.
pub open spec fn amp_display(a: AmplitudeType) -> Seq<u8> {
    match a {
        AmplitudeType::Tree => seq!['T' as u8, 'r' as u8, 'e' as u8, 'e' as u8],
        AmplitudeType::scTree => seq![
            's' as u8,
            'c' as u8,
            'T' as u8,
            'r' as u8,
            'e' as u8,
            'e' as u8,
        ],
        AmplitudeType::scTree2 => seq![
            's' as u8,
            'c' as u8,
            'T' as u8,
            'r' as u8,
            'e' as u8,
            'e' as u8,
            '2' as u8,
        ],
        AmplitudeType::ccTree => seq![
            'c' as u8,
            'c' as u8,
            'T' as u8,
            'r' as u8,
            'e' as u8,
            'e' as u8,
        ],
        AmplitudeType::Loop => seq!['L' as u8, 'o' as u8, 'o' as u8, 'p' as u8],
        AmplitudeType::LoopInduced => seq![
            'L' as u8,
            'o' as u8,
            'o' as u8,
            'p' as u8,
            'I' as u8,
            'n' as u8,
            'd' as u8,
            'u' as u8,
            'c' as u8,
            'e' as u8,
            'd' as u8,
        ],
    }
}

/// The amplitude type recognized from an already-lowercased name, if any.
pub open spec fn spec_amp_of(s: Seq<u8>) -> Option<AmplitudeType> {
    if s == lower_seq(amp_display(AmplitudeType::Tree)) {
        Some(AmplitudeType::Tree)
    } else if s == lower_seq(amp_display(AmplitudeType::Loop)) {
        Some(AmplitudeType::Loop)
    } else if s == lower_seq(amp_display(AmplitudeType::ccTree)) {
        Some(AmplitudeType::ccTree)
    } else if s == lower_seq(amp_display(AmplitudeType::scTree)) {
        Some(AmplitudeType::scTree)
    } else if s == lower_seq(amp_display(AmplitudeType::scTree2)) {
        Some(AmplitudeType::scTree2)
    } else if s == lower_seq(amp_display(AmplitudeType::LoopInduced)) {
        Some(AmplitudeType::LoopInduced)
    } else {
        None
    }
}

impl AmplitudeType {
    /// The display name of this amplitude type.
    pub fn name_bytes(&self) -> (r: Vec<u8>)
        ensures
            r@ == amp_display(*self),
    {
        let mut v: Vec<u8> = Vec::new();
        match self {
            AmplitudeType::Tree => {
                v.push('T' as u8);
                v.push('r' as u8);
                v.push('e' as u8);
                v.push('e' as u8);
            },
            AmplitudeType::scTree => {
                v.push('s' as u8);
                v.push('c' as u8);
                v.push('T' as u8);
                v.push('r' as u8);
                v.push('e' as u8);
                v.push('e' as u8);
            },
            AmplitudeType::scTree2 => {
                v.push('s' as u8);
                v.push('c' as u8);
                v.push('T' as u8);
                v.push('r' as u8);
                v.push('e' as u8);
                v.push('e' as u8);
                v.push('2' as u8);
            },
            AmplitudeType::ccTree => {
                v.push('c' as u8);
                v.push('c' as u8);
                v.push('T' as u8);
                v.push('r' as u8);
                v.push('e' as u8);
                v.push('e' as u8);
            },
            AmplitudeType::Loop => {
                v.push('L' as u8);
                v.push('o' as u8);
                v.push('o' as u8);
                v.push('p' as u8);
            },
            AmplitudeType::LoopInduced => {
                v.push('L' as u8);
                v.push('o' as u8);
                v.push('o' as u8);
                v.push('p' as u8);
                v.push('I' as u8);
                v.push('n' as u8);
                v.push('d' as u8);
                v.push('u' as u8);
                v.push('c' as u8);
                v.push('e' as u8);
                v.push('d' as u8);
            },
        }
        proof {
            assert(v@ =~= amp_display(*self));
        }
        v
    }

    /// Recognize an amplitude type from an already-lowercased name.
    pub fn from_lower(s: &Vec<u8>) -> (r: Option<AmplitudeType>)
        ensures
            r == spec_amp_of(s@),
    {
        let candidates = [
            AmplitudeType::Tree,
            AmplitudeType::Loop,
            AmplitudeType::ccTree,
            AmplitudeType::scTree,
            AmplitudeType::scTree2,
            AmplitudeType::LoopInduced,
        ];
        let mut i: usize = 0;
        while i < 6
            invariant
                i <= 6,
                candidates@ =~= seq![
                    AmplitudeType::Tree,
                    AmplitudeType::Loop,
                    AmplitudeType::ccTree,
                    AmplitudeType::scTree,
                    AmplitudeType::scTree2,
                    AmplitudeType::LoopInduced,
                ],
                forall|j: int|
                    0 <= j < i ==> s@ != lower_seq(amp_display(candidates@[j])),
            decreases 6 - i,
        {
            let cand = candidates[i];
            let name = cand.name_bytes();
            let low = crate::bytes::to_lower(&name);
            if crate::bytes::bytes_eq(&low, s) {
                return Some(cand);
            }
            i = i + 1;
        }
        None
    }
}

/// One subprocess requested by the contract: its identifier, the amplitude
/// type in effect when it was declared, and its particle codes.
#[derive(Debug, Clone, PartialEq, Eq, Hash)]
pub struct Subprocess {
    pub id: i64,
    pub amplitude_type: AmplitudeType,
    pub incoming_pdg: Vec<i64>,
    pub outgoing_pdg: Vec<i64>,
}

/// Mathematical model of a subprocess.
pub struct SpecSubprocess {
    pub id: int,
    pub amplitude_type: AmplitudeType,
    pub incoming_pdg: Seq<int>,
    pub outgoing_pdg: Seq<int>,
}

impl SpecSubprocess {
    pub open spec fn n_legs(self) -> int {
        self.incoming_pdg.len() + self.outgoing_pdg.len() as int
    }
}

impl View for Subprocess {
    type V = SpecSubprocess;

    open spec fn view(&self) -> SpecSubprocess {
        SpecSubprocess {
            id: self.id as int,
            amplitude_type: self.amplitude_type,
            incoming_pdg: crate::bytes::ints_view(self.incoming_pdg@),
            outgoing_pdg: crate::bytes::ints_view(self.outgoing_pdg@),
        }
    }
}

impl Subprocess {
    /// Total number of external legs.
    pub fn n_legs(&self) -> (r: usize)
        requires
            self.incoming_pdg@.len() + self.outgoing_pdg@.len() <= usize::MAX,
        ensures
            r == self@.n_legs(),
    {
        self.incoming_pdg.len() + self.outgoing_pdg.len()
    }
}

/// Number of values the provider writes for one evaluation, by amplitude
/// type and leg count `n`: 4 for Tree, Loop and LoopInduced; n(n-1)/2 for
/// ccTree; 2n^2 for scTree and scTree2.
pub open spec fn spec_n_results(a: AmplitudeType, n: int) -> int {
    match a {
        AmplitudeType::Tree => 4,
        AmplitudeType::Loop => 4,
        AmplitudeType::LoopInduced => 4,
        AmplitudeType::ccTree => n * (n - 1) / 2,
        AmplitudeType::scTree => 2 * (n * n),
        AmplitudeType::scTree2 => 2 * (n * n),
    }
}

/// Expected result-vector length for an amplitude type at a given leg count.
pub fn n_results(a: AmplitudeType, n_legs: usize) -> (r: usize)
    requires
        n_legs * n_legs <= usize::MAX / 2,
    ensures
        r == spec_n_results(a, n_legs as int),
{
    match a {
        AmplitudeType::Tree => 4,
        AmplitudeType::Loop => 4,
        AmplitudeType::LoopInduced => 4,
        AmplitudeType::ccTree => {
            if n_legs == 0 {
                proof {
                    assert(0int * (0int - 1) == 0) by (nonlinear_arith);
                }
                0
            } else {
                proof {
                    assert(n_legs * (n_legs - 1) <= n_legs * n_legs) by (nonlinear_arith)
                        requires
                            n_legs >= 1,
                    ;
                }
                n_legs * (n_legs - 1) / 2
            }
        },
        AmplitudeType::scTree => 2 * (n_legs * n_legs),
        AmplitudeType::scTree2 => 2 * (n_legs * n_legs),
    }
}

/// The option map entries: key-value pairs in first-insertion order.
/// Relied-on reading of `indexmap::IndexMap`: the pairs the map holds, in
/// their insertion order.
pub uninterp spec fn options_entries(m: IndexMap<Vec<u8>, Vec<u8>>) -> Seq<(Seq<u8>, Seq<u8>)>;

/// The option map type of the outside crate, declared so it can stand in
/// fields and signatures; `options_entries` names what a map of it holds.
#[verifier::external_type_specification]
#[verifier::external_body]
#[verifier::reject_recursive_types(K)]
#[verifier::reject_recursive_types(V)]
#[verifier::reject_recursive_types(S)]
pub struct ExIndexMap<K, V, S>(IndexMap<K, V, S>);

/// First index at which a key occurs in an entry sequence, or -1.
pub open spec fn find_key(s: Seq<(Seq<u8>, Seq<u8>)>, k: Seq<u8>) -> int
    decreases s.len(),
{
    if s.len() == 0 {
        -1
    } else if s[0].0 == k {
        0
    } else {
        let r = find_key(s.skip(1), k);
        if r < 0 {
            -1
        } else {
            r + 1
        }
    }
}

/// Insertion into an ordered entry sequence: an existing key keeps its place
/// and gets the new value; a new key goes last.
pub open spec fn map_insert_seq(
    s: Seq<(Seq<u8>, Seq<u8>)>,
    k: Seq<u8>,
    v: Seq<u8>,
) -> Seq<(Seq<u8>, Seq<u8>)> {
    let i = find_key(s, k);
    if i >= 0 {
        s.update(i, (k, v))
    } else {
        s.push((k, v))
    }
}

/// Relies on indexmap::IndexMap::new: the new map is empty.
#[verifier::external_body]
pub fn options_new() -> (r: IndexMap<Vec<u8>, Vec<u8>>)
    ensures
        options_entries(r) == Seq::<(Seq<u8>, Seq<u8>)>::empty(),
{
    IndexMap::new()
}

/// Relies on indexmap::IndexMap::insert: an equivalent key retains its place
/// in the order and its value is updated; a new key is inserted last.
#[verifier::external_body]
pub fn options_insert(m: &mut IndexMap<Vec<u8>, Vec<u8>>, k: Vec<u8>, v: Vec<u8>)
    ensures
        options_entries(*final(m)) == map_insert_seq(options_entries(*old(m)), k@, v@),
{
    m.insert(k, v);
}

/// Relies on indexmap::IndexMap::clone: the clone holds the same pairs in
/// the same order.
#[verifier::external_body]
pub fn options_dup(m: &IndexMap<Vec<u8>, Vec<u8>>) -> (r: IndexMap<Vec<u8>, Vec<u8>>)
    ensures
        options_entries(r) == options_entries(*m),
{
    m.clone()
}

/// A parsed order-file contract: the accumulated options and the subprocess
/// list, ascending-sorted by id.
#[derive(Debug, PartialEq, Eq)]
pub struct Contract {
    pub options: IndexMap<Vec<u8>, Vec<u8>>,
    pub subprocesses: Vec<Subprocess>,
}

/// The model of a sequence of subprocesses.
pub open spec fn subs_view(s: Seq<Subprocess>) -> Seq<SpecSubprocess> {
    s.map_values(|x: Subprocess| x@)
}

/// Mathematical model of a contract.
pub struct SpecContract {
    pub options: Seq<(Seq<u8>, Seq<u8>)>,
    pub subprocesses: Seq<SpecSubprocess>,
}

impl View for Contract {
    type V = SpecContract;

    open spec fn view(&self) -> SpecContract {
        SpecContract {
            options: options_entries(self.options),
            subprocesses: subs_view(self.subprocesses@),
        }
    }
}

/// Ascending by id (non-strict, so duplicate ids are allowed).
pub open spec fn subs_sorted(s: Seq<SpecSubprocess>) -> bool {
    forall|i: int, j: int| 0 <= i < j < s.len() ==> s[i].id <= s[j].id
}

} // verus!
