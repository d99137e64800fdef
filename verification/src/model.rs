//! The particle registry: particle codes, their names and their masses,
//! generic over the mass scalar so the bookkeeping itself is verified.

use vstd::prelude::*;
use crate::bytes::bytes_eq;

verus! {

/// One particle: its code, name, mass and the parameter its mass is tied to.
#[derive(Debug, Clone)]
pub struct Particle<M> {
    pub pdg_id: i64,
    pub name: Vec<u8>,
    pub mass: M,
    pub mass_ident: Vec<u8>,
}

/// First index holding a particle code, or -1.
pub open spec fn find_pdg<M>(s: Seq<Particle<M>>, id: i64) -> int
    decreases s.len(),
{
    if s.len() == 0 {
        -1
    } else if s[0].pdg_id == id {
        0
    } else {
        let r = find_pdg(s.skip(1), id);
        if r < 0 {
            -1
        } else {
            r + 1
        }
    }
}

/// Every particle whose mass parameter matches gets the new value; the rest
/// stay as they were.
pub open spec fn masses_updated<M>(
    olds: Seq<Particle<M>>,
    news: Seq<Particle<M>>,
    ident: Seq<u8>,
    value: M,
) -> bool {
    &&& news.len() == olds.len()
    &&& forall|i: int|
        0 <= i < olds.len() ==> #[trigger] news[i] == (if olds[i].mass_ident@ == ident {
            Particle {
                pdg_id: olds[i].pdg_id,
                name: olds[i].name,
                mass: value,
                mass_ident: olds[i].mass_ident,
            }
        } else {
            olds[i]
        })
}

/// The particle registry.
#[derive(Debug, Clone)]
pub struct Model<M> {
    pub path: Vec<u8>,
    pub particles: Vec<Particle<M>>,
}

impl<M: Copy> Model<M> {
    /// An empty registry for a model description found at a path.
    pub fn new(path: Vec<u8>) -> (r: Model<M>)
        ensures
            r.path@ == path@,
            r.particles@.len() == 0,
    {
        Model { path, particles: Vec::new() }
    }

    /// Register a particle; a second registration of the same code replaces
    /// the first in place.
    pub fn add_particle(&mut self, pdg_id: i64, name: Vec<u8>, mass: M, mass_ident: Vec<u8>)
        ensures
            final(self).path == old(self).path,
            ({
                let p = Particle { pdg_id, name, mass, mass_ident };
                let idx = find_pdg(old(self).particles@, pdg_id);
                if idx >= 0 {
                    final(self).particles@ == old(self).particles@.update(idx, p)
                } else {
                    final(self).particles@ == old(self).particles@.push(p)
                }
            }),
    {
        let ghost olds = self.particles@;
        let mut i: usize = 0;
        let n = self.particles.len();
        proof {
            assert(olds.skip(0) =~= olds);
        }
        while i < n
            invariant
                i <= olds.len(),
                n == olds.len(),
                self.particles@ == olds,
                self.path == old(self).path,
                find_pdg(olds, pdg_id) == if find_pdg(olds.skip(i as int), pdg_id) >= 0 {
                    i + find_pdg(olds.skip(i as int), pdg_id)
                } else {
                    -1
                },
            decreases olds.len() - i,
        {
            proof {
                assert(olds.skip(i as int)[0] == olds[i as int]);
                assert(olds.skip(i as int).skip(1) =~= olds.skip(i + 1));
            }
            if self.particles[i].pdg_id == pdg_id {
                proof {
                    assert(find_pdg(olds.skip(i as int), pdg_id) == 0);
                }
                let p = Particle { pdg_id, name, mass, mass_ident };
                self.particles.remove(i);
                self.particles.insert(i, p);
                proof {
                    assert(self.particles@ =~= olds.update(i as int, p));
                }
                return ;
            }
            i = i + 1;
        }
        proof {
            assert(olds.skip(olds.len() as int) =~= Seq::<Particle<M>>::empty());
            assert(find_pdg(olds, pdg_id) == -1);
        }
        self.particles.push(Particle { pdg_id, name, mass, mass_ident });
    }

    /// Mass of a known particle.
    pub fn get_mass(&self, id: i64) -> (r: M)
        requires
            find_pdg(self.particles@, id) >= 0,
        ensures
            r == self.particles@[find_pdg(self.particles@, id)].mass,
    {
        let m = self.get_mass_checked(id);
        m.unwrap()
    }

    /// Mass of a particle, or `None` for an unregistered code.
    pub fn get_mass_checked(&self, id: i64) -> (r: Option<M>)
        ensures
            match r {
                Some(m) => find_pdg(self.particles@, id) >= 0 && m == self.particles@[find_pdg(
                    self.particles@,
                    id,
                )].mass,
                None => find_pdg(self.particles@, id) == -1,
            },
    {
        let ghost s = self.particles@;
        let mut i: usize = 0;
        proof {
            assert(s.skip(0) =~= s);
        }
        while i < self.particles.len()
            invariant
                i <= s.len(),
                s == self.particles@,
                find_pdg(s, id) == if find_pdg(s.skip(i as int), id) >= 0 {
                    i + find_pdg(s.skip(i as int), id)
                } else {
                    -1
                },
            decreases s.len() - i,
        {
            proof {
                assert(s.skip(i as int)[0] == s[i as int]);
                assert(s.skip(i as int).skip(1) =~= s.skip(i + 1));
            }
            if self.particles[i].pdg_id == id {
                return Some(self.particles[i].mass);
            }
            i = i + 1;
        }
        proof {
            assert(s.skip(s.len() as int) =~= Seq::<Particle<M>>::empty());
        }
        None
    }

    /// Give every particle whose mass is tied to this parameter name the new
    /// value.
    pub fn update_mass(&mut self, ident: &Vec<u8>, value: M)
        ensures
            final(self).path == old(self).path,
            masses_updated(old(self).particles@, final(self).particles@, ident@, value),
    {
        let ghost olds = self.particles@;
        let mut i: usize = 0;
        let n = self.particles.len();
        while i < n
            invariant
                i <= olds.len(),
                n == olds.len(),
                self.particles@.len() == olds.len(),
                self.path == old(self).path,
                forall|k: int|
                    i <= k < olds.len() ==> #[trigger] self.particles@[k] == olds[k],
                forall|k: int|
                    0 <= k < i ==> #[trigger] self.particles@[k] == (
                    if olds[k].mass_ident@ == ident@ {
                        Particle {
                            pdg_id: olds[k].pdg_id,
                            name: olds[k].name,
                            mass: value,
                            mass_ident: olds[k].mass_ident,
                        }
                    } else {
                        olds[k]
                    }),
            decreases olds.len() - i,
        {
            let matches_ident = bytes_eq(&self.particles[i].mass_ident, ident);
            if matches_ident {
                let p = self.particles.remove(i);
                let q = Particle { pdg_id: p.pdg_id, name: p.name, mass: value, mass_ident: p.mass_ident };
                self.particles.insert(i, q);
            }
            i = i + 1;
        }
    }
}

} // verus!
