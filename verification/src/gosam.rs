//! The process-level state machine around the provider binding: option
//! assembly for the order file, subprocess registration, and the guards that
//! refuse parameter-setting and evaluation before the binding exists.

use vstd::prelude::*;
use crate::bytes::copy_vec;
use crate::contract::{AmplitudeType, Contract, Subprocess, spec_n_results, options_entries,
    options_new, options_insert, options_dup, map_insert_seq};
use crate::model::{Model, Particle, find_pdg, masses_updated};
use crate::olp::expected_n_results;
use indexmap::IndexMap;

verus! {

/// A failure at the process level.
#[derive(Debug, Clone, PartialEq, Eq)]
pub enum GoSamError {
    /// The call needs a completed binding and none exists; carries the call
    /// name.
    UnintializedError { call: Vec<u8> },
}

/// Mathematical model of a process-level failure.
pub enum SpecGoSamError {
    Unintialized { call: Seq<u8> },
}

impl View for GoSamError {
    type V = SpecGoSamError;

    open spec fn view(&self) -> SpecGoSamError {
        match self {
            GoSamError::UnintializedError { call } => SpecGoSamError::Unintialized { call: call@ },
        }
    }
}

/// "CorrectionType", the order-file option the process always sets.
pub open spec fn correction_key() -> Seq<u8> {
    seq![
        'C' as u8,
        'o' as u8,
        'r' as u8,
        'r' as u8,
        'e' as u8,
        'c' as u8,
        't' as u8,
        'i' as u8,
        'o' as u8,
        'n' as u8,
        'T' as u8,
        'y' as u8,
        'p' as u8,
        'e' as u8,
    ]
}

/// "QCD", the default correction type.
pub open spec fn qcd_name() -> Seq<u8> {
    seq!['Q' as u8, 'C' as u8, 'D' as u8]
}

/// "set_parameter".
pub open spec fn set_parameter_name() -> Seq<u8> {
    seq![
        's' as u8,
        'e' as u8,
        't' as u8,
        '_' as u8,
        'p' as u8,
        'a' as u8,
        'r' as u8,
        'a' as u8,
        'm' as u8,
        'e' as u8,
        't' as u8,
        'e' as u8,
        'r' as u8,
    ]
}

/// "print_parameters".
pub open spec fn print_parameters_name() -> Seq<u8> {
    seq![
        'p' as u8,
        'r' as u8,
        'i' as u8,
        'n' as u8,
        't' as u8,
        '_' as u8,
        'p' as u8,
        'a' as u8,
        'r' as u8,
        'a' as u8,
        'm' as u8,
        'e' as u8,
        't' as u8,
        'e' as u8,
        'r' as u8,
        's' as u8,
    ]
}

/// "eval".
pub open spec fn eval_name() -> Seq<u8> {
    seq!['e' as u8, 'v' as u8, 'a' as u8, 'l' as u8]
}

fn correction_key_bytes() -> (r: Vec<u8>)
    ensures
        r@ == correction_key(),
{
    let mut v: Vec<u8> = Vec::new();
    v.push('C' as u8);
    v.push('o' as u8);
    v.push('r' as u8);
    v.push('r' as u8);
    v.push('e' as u8);
    v.push('c' as u8);
    v.push('t' as u8);
    v.push('i' as u8);
    v.push('o' as u8);
    v.push('n' as u8);
    v.push('T' as u8);
    v.push('y' as u8);
    v.push('p' as u8);
    v.push('e' as u8);
    proof {
        assert(v@ =~= correction_key());
    }
    v
}

fn qcd_bytes() -> (r: Vec<u8>)
    ensures
        r@ == qcd_name(),
{
    let mut v: Vec<u8> = Vec::new();
    v.push('Q' as u8);
    v.push('C' as u8);
    v.push('D' as u8);
    proof {
        assert(v@ =~= qcd_name());
    }
    v
}

fn set_parameter_bytes() -> (r: Vec<u8>)
    ensures
        r@ == set_parameter_name(),
{
    let mut v: Vec<u8> = Vec::new();
    v.push('s' as u8);
    v.push('e' as u8);
    v.push('t' as u8);
    v.push('_' as u8);
    v.push('p' as u8);
    v.push('a' as u8);
    v.push('r' as u8);
    v.push('a' as u8);
    v.push('m' as u8);
    v.push('e' as u8);
    v.push('t' as u8);
    v.push('e' as u8);
    v.push('r' as u8);
    proof {
        assert(v@ =~= set_parameter_name());
    }
    v
}

fn print_parameters_bytes() -> (r: Vec<u8>)
    ensures
        r@ == print_parameters_name(),
{
    let mut v: Vec<u8> = Vec::new();
    v.push('p' as u8);
    v.push('r' as u8);
    v.push('i' as u8);
    v.push('n' as u8);
    v.push('t' as u8);
    v.push('_' as u8);
    v.push('p' as u8);
    v.push('a' as u8);
    v.push('r' as u8);
    v.push('a' as u8);
    v.push('m' as u8);
    v.push('e' as u8);
    v.push('t' as u8);
    v.push('e' as u8);
    v.push('r' as u8);
    v.push('s' as u8);
    proof {
        assert(v@ =~= print_parameters_name());
    }
    v
}

fn eval_bytes() -> (r: Vec<u8>)
    ensures
        r@ == eval_name(),
{
    let mut v: Vec<u8> = Vec::new();
    v.push('e' as u8);
    v.push('v' as u8);
    v.push('a' as u8);
    v.push('l' as u8);
    proof {
        assert(v@ =~= eval_name());
    }
    v
}

/// A process under construction or bound to a provider module: its order
/// configuration, its subprocesses, the particle registry, and, once the
/// handshake has passed, the parsed contract of the binding.
pub struct GoSamProcess<M> {
    pub coupling_orders: Vec<(Vec<u8>, u64)>,
    pub nlo_coupling: Option<Vec<u8>>,
    pub contract_options: Option<IndexMap<Vec<u8>, Vec<u8>>>,
    pub gosam_options: Option<IndexMap<Vec<u8>, Vec<u8>>>,
    pub subprocesses: Vec<Subprocess>,
    pub model: Model<M>,
    pub olp: Option<Contract>,
}

impl<M: Copy> GoSamProcess<M> {
    /// The correction type written to the order file: the NLO coupling when
    /// one is configured, else QCD.
    pub open spec fn spec_correction(&self) -> Seq<u8> {
        match self.nlo_coupling {
            Some(n) => n@,
            None => qcd_name(),
        }
    }

    /// A fresh process: nothing bound yet.
    pub fn new(
        coupling_orders: Vec<(Vec<u8>, u64)>,
        model: Model<M>,
        nlo_coupling: Option<Vec<u8>>,
        contract_options: Option<IndexMap<Vec<u8>, Vec<u8>>>,
        gosam_options: Option<IndexMap<Vec<u8>, Vec<u8>>>,
    ) -> (r: GoSamProcess<M>)
        ensures
            r.coupling_orders == coupling_orders,
            r.nlo_coupling == nlo_coupling,
            r.contract_options == contract_options,
            r.gosam_options == gosam_options,
            r.subprocesses@.len() == 0,
            r.model == model,
            r.olp.is_none(),
    {
        GoSamProcess {
            coupling_orders,
            nlo_coupling,
            contract_options,
            gosam_options,
            subprocesses: Vec::new(),
            model,
            olp: None,
        }
    }

    /// Whether construction has completed with a successful handshake.
    pub fn is_initialized(&self) -> (r: bool)
        ensures
            r == self.olp.is_some(),
    {
        self.olp.is_some()
    }

    /// Record the parsed contract of a binding whose handshake passed.
    pub fn complete_setup(&mut self, contract: Contract)
        ensures
            final(self).olp == Some(contract),
            final(self).coupling_orders == old(self).coupling_orders,
            final(self).nlo_coupling == old(self).nlo_coupling,
            final(self).contract_options == old(self).contract_options,
            final(self).gosam_options == old(self).gosam_options,
            final(self).subprocesses == old(self).subprocesses,
            final(self).model == old(self).model,
    {
        self.olp = Some(contract);
    }

    /// The parsed contract of the binding, if construction has completed.
    pub fn contract(&self) -> (r: Option<&Contract>)
        ensures
            match r {
                Some(c) => self.olp == Some(*c),
                None => self.olp.is_none(),
            },
    {
        self.olp.as_ref()
    }

    /// Register one more subprocess; its id is the next free index.
    pub fn add_subprocess(
        &mut self,
        incoming: Vec<i64>,
        outgoing: Vec<i64>,
        amplitude_type: AmplitudeType,
    )
        requires
            old(self).subprocesses@.len() < i64::MAX,
        ensures
            final(self).subprocesses@ == old(self).subprocesses@.push(
                Subprocess {
                    id: old(self).subprocesses@.len() as i64,
                    amplitude_type,
                    incoming_pdg: incoming,
                    outgoing_pdg: outgoing,
                },
            ),
            final(self).coupling_orders == old(self).coupling_orders,
            final(self).nlo_coupling == old(self).nlo_coupling,
            final(self).contract_options == old(self).contract_options,
            final(self).gosam_options == old(self).gosam_options,
            final(self).model == old(self).model,
            final(self).olp == old(self).olp,
    {
        let id = self.subprocesses.len() as i64;
        self.subprocesses.push(
            Subprocess { id, amplitude_type, incoming_pdg: incoming, outgoing_pdg: outgoing },
        );
    }

    /// The options written to the order file: the configured contract
    /// options with CorrectionType set to the configured NLO coupling, or
    /// QCD when none is configured.
    pub fn order_options(&self) -> (r: IndexMap<Vec<u8>, Vec<u8>>)
        ensures
            options_entries(r) == match self.contract_options {
                Some(m) => map_insert_seq(
                    options_entries(m),
                    correction_key(),
                    self.spec_correction(),
                ),
                None => seq![(correction_key(), self.spec_correction())],
            },
    {
        let mut base = match &self.contract_options {
            Some(m) => options_dup(m),
            None => options_new(),
        };
        let corr = match &self.nlo_coupling {
            Some(n) => copy_vec(n),
            None => qcd_bytes(),
        };
        options_insert(&mut base, correction_key_bytes(), corr);
        proof {
            if self.contract_options.is_none() {
                assert(map_insert_seq(
                    Seq::<(Seq<u8>, Seq<u8>)>::empty(),
                    correction_key(),
                    self.spec_correction(),
                ) =~= seq![(correction_key(), self.spec_correction())]);
            }
        }
        base
    }

    /// Update the registry masses tied to a parameter, provided the binding
    /// exists; with no binding nothing is touched and the uninitialized
    /// error is returned before any provider call could be made.
    pub fn set_parameter_prepare(&mut self, parameter: &Vec<u8>, value: M) -> (r: Result<
        (),
        GoSamError,
    >)
        ensures
            final(self).coupling_orders == old(self).coupling_orders,
            final(self).nlo_coupling == old(self).nlo_coupling,
            final(self).contract_options == old(self).contract_options,
            final(self).gosam_options == old(self).gosam_options,
            final(self).subprocesses == old(self).subprocesses,
            final(self).olp == old(self).olp,
            final(self).model.path == old(self).model.path,
            match r {
                Ok(u) => old(self).olp.is_some() && masses_updated(
                    old(self).model.particles@,
                    final(self).model.particles@,
                    parameter@,
                    value,
                ),
                Err(e) => old(self).olp.is_none() && final(self).model == old(self).model && e@
                    == (SpecGoSamError::Unintialized { call: set_parameter_name() }),
            },
    {
        if self.olp.is_none() {
            return Err(GoSamError::UnintializedError { call: set_parameter_bytes() });
        }
        self.model.update_mass(parameter, value);
        Ok(())
    }

    /// Guard of the fire-and-forget parameter dump.
    pub fn print_parameters_guard(&self) -> (r: Result<(), GoSamError>)
        ensures
            match r {
                Ok(u) => self.olp.is_some(),
                Err(e) => self.olp.is_none() && e@ == (SpecGoSamError::Unintialized {
                    call: print_parameters_name(),
                }),
            },
    {
        if self.olp.is_none() {
            return Err(GoSamError::UnintializedError { call: print_parameters_bytes() });
        }
        Ok(())
    }

    /// Guard of an evaluation, and the expected result-vector length for the
    /// requested subprocess of the bound contract.
    pub fn eval_prepare(&self, id: usize) -> (r: Result<usize, GoSamError>)
        requires
            match self.olp {
                Some(c) => id < c@.subprocesses.len() && c@.subprocesses[id as int].n_legs()
                    * c@.subprocesses[id as int].n_legs() <= usize::MAX / 2,
                None => true,
            },
        ensures
            match r {
                Ok(n) => self.olp.is_some() && n == spec_n_results(
                    self.olp.unwrap()@.subprocesses[id as int].amplitude_type,
                    self.olp.unwrap()@.subprocesses[id as int].n_legs(),
                ),
                Err(e) => self.olp.is_none() && e@ == (SpecGoSamError::Unintialized {
                    call: eval_name(),
                }),
            },
    {
        match &self.olp {
            None => Err(GoSamError::UnintializedError { call: eval_bytes() }),
            Some(c) => Ok(expected_n_results(c, id)),
        }
    }

    /// The rest masses of a registered subprocess's legs, incoming first,
    /// or `None` as soon as one particle code is not in the registry.
    pub fn subprocess_masses(&self, id: usize) -> (r: Option<Vec<M>>)
        requires
            id < self.subprocesses@.len(),
        ensures
            ({
                let sub = self.subprocesses@[id as int];
                match r {
                    Some(v) => {
                        &&& v@.len() == sub.incoming_pdg@.len() + sub.outgoing_pdg@.len()
                        &&& forall|i: int|
                            0 <= i < sub.incoming_pdg@.len() ==> find_pdg(
                                self.model.particles@,
                                #[trigger] sub.incoming_pdg@[i],
                            ) >= 0 && v@[i] == self.model.particles@[find_pdg(
                                self.model.particles@,
                                sub.incoming_pdg@[i],
                            )].mass
                        &&& forall|j: int|
                            0 <= j < sub.outgoing_pdg@.len() ==> find_pdg(
                                self.model.particles@,
                                #[trigger] sub.outgoing_pdg@[j],
                            ) >= 0 && v@[sub.incoming_pdg@.len() + j] == self.model.particles@[
                                find_pdg(self.model.particles@, sub.outgoing_pdg@[j])].mass
                    },
                    None => (exists|i: int|
                        0 <= i < sub.incoming_pdg@.len() && find_pdg(
                            self.model.particles@,
                            #[trigger] sub.incoming_pdg@[i],
                        ) == -1) || (exists|j: int|
                        0 <= j < sub.outgoing_pdg@.len() && find_pdg(
                            self.model.particles@,
                            #[trigger] sub.outgoing_pdg@[j],
                        ) == -1),
                }
            }),
    {
        let sub = &self.subprocesses[id];
        let mut v: Vec<M> = Vec::new();
        let mut i: usize = 0;
        while i < sub.incoming_pdg.len()
            invariant
                i <= sub.incoming_pdg@.len(),
                sub == &self.subprocesses@[id as int],
                id < self.subprocesses@.len(),
                v@.len() == i,
                forall|k: int|
                    0 <= k < i ==> find_pdg(self.model.particles@, #[trigger] sub.incoming_pdg@[k])
                        >= 0 && v@[k] == self.model.particles@[find_pdg(
                        self.model.particles@,
                        sub.incoming_pdg@[k],
                    )].mass,
            decreases sub.incoming_pdg@.len() - i,
        {
            match self.model.get_mass_checked(sub.incoming_pdg[i]) {
                Some(m) => {
                    v.push(m);
                },
                None => {
                    return None;
                },
            }
            i = i + 1;
        }
        let mut j: usize = 0;
        while j < sub.outgoing_pdg.len()
            invariant
                j <= sub.outgoing_pdg@.len(),
                sub == &self.subprocesses@[id as int],
                id < self.subprocesses@.len(),
                v@.len() == sub.incoming_pdg@.len() + j,
                forall|k: int|
                    0 <= k < sub.incoming_pdg@.len() ==> find_pdg(
                        self.model.particles@,
                        #[trigger] sub.incoming_pdg@[k],
                    ) >= 0 && v@[k] == self.model.particles@[find_pdg(
                        self.model.particles@,
                        sub.incoming_pdg@[k],
                    )].mass,
                forall|k: int|
                    0 <= k < j ==> find_pdg(self.model.particles@, #[trigger] sub.outgoing_pdg@[k])
                        >= 0 && v@[sub.incoming_pdg@.len() + k] == self.model.particles@[find_pdg(
                        self.model.particles@,
                        sub.outgoing_pdg@[k],
                    )].mass,
            decreases sub.outgoing_pdg@.len() - j,
        {
            match self.model.get_mass_checked(sub.outgoing_pdg[j]) {
                Some(m) => {
                    v.push(m);
                },
                None => {
                    return None;
                },
            }
            j = j + 1;
        }
        Some(v)
    }
}

} // verus!
