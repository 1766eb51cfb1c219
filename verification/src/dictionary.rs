//! The corpus-wide phrase dictionary: a hash map from fingerprint to phrase
//! length in which a fingerprint keeps the length it was first seen with.

use crate::model::{agrees, observe, Conflict};
use rustc_hash::FxBuildHasher;
use std::collections::HashMap;
use vstd::prelude::*;

verus! {

/// `rustc_hash::FxBuildHasher`, the hasher builder of the dictionary's map.
/// It carries no state: every hasher it builds starts from the same seed, so
/// equal keys always hash alike.
#[verifier::external_type_specification]
#[verifier::external_body]
pub struct ExFxBuildHasher(rustc_hash::FxBuildHasher);

/// `HashMap::get` on a map hashed with `rustc_hash::FxBuildHasher`.
///
/// Trusted: since the Fx hasher is a pure function of the key, the map finds
/// a key exactly when it holds it, and hands back the value stored with it.
#[verifier::external_body]
fn fx_get<'a>(m: &'a HashMap<u64, u32, FxBuildHasher>, k: &u64) -> (r: Option<&'a u32>)
    ensures
        match r {
            Some(v) => m@.contains_key(*k) && *v == m@[*k],
            None => !m@.contains_key(*k),
        },
{
    m.get(k)
}

/// `HashMap::insert` on a map hashed with `rustc_hash::FxBuildHasher`.
///
/// Trusted: afterwards the key is bound to the value and every other key is
/// as before; the value that the key had before, if any, is returned.
#[verifier::external_body]
fn fx_insert(m: &mut HashMap<u64, u32, FxBuildHasher>, k: u64, v: u32) -> (r: Option<u32>)
    ensures
        final(m)@ == old(m)@.insert(k, v),
        r == (if old(m)@.contains_key(k) {
            Some(old(m)@[k])
        } else {
            None
        }),
{
    m.insert(k, v)
}

/// `HashMap::remove` on a map hashed with `rustc_hash::FxBuildHasher`.
///
/// Trusted: the key is gone afterwards, every other key keeps its value, and
/// the value that the key had, if any, is returned.
#[verifier::external_body]
fn fx_remove(m: &mut HashMap<u64, u32, FxBuildHasher>, k: &u64) -> (r: Option<u32>)
    ensures
        final(m)@ == old(m)@.remove(*k),
        r == (if old(m)@.contains_key(*k) {
            Some(old(m)@[*k])
        } else {
            None
        }),
{
    m.remove(k)
}

/// `HashMap::len` on a map hashed with `rustc_hash::FxBuildHasher`.
///
/// Trusted: the number of keys that the map holds.
#[verifier::external_body]
fn fx_len(m: &HashMap<u64, u32, FxBuildHasher>) -> (r: usize)
    ensures
        r == m@.len(),
{
    m.len()
}

/// What observing one entry did to a dictionary.
#[derive(Clone, Copy, Debug, PartialEq, Eq, Structural)]
pub enum Observation {
    /// The fingerprint was new and has been recorded.
    Added,
    /// The fingerprint was already recorded with this length.
    Known,
    /// The fingerprint is recorded with another length; nothing was changed.
    Conflicting(Conflict),
}

/// The phrase dictionary. Its view is the map from fingerprint to length.
pub struct PhraseDictionary {
    map: HashMap<u64, u32, FxBuildHasher>,
}

impl View for PhraseDictionary {
    type V = Map<u64, u32>;

    closed spec fn view(&self) -> Map<u64, u32> {
        self.map@
    }
}

impl PhraseDictionary {
    /// The dictionary holds finitely many phrases.
    pub closed spec fn wf(&self) -> bool {
        self.map@.dom().finite()
    }

    /// An empty dictionary.
    pub fn new() -> (d: Self)
        ensures
            d.wf(),
            d@ == Map::<u64, u32>::empty(),
    {
        PhraseDictionary { map: HashMap::default() }
    }

    /// The length recorded for a fingerprint, if it is known.
    pub fn get(&self, fingerprint: u64) -> (r: Option<u32>)
        ensures
            r == (if self@.contains_key(fingerprint) {
                Some(self@[fingerprint])
            } else {
                None
            }),
    {
        match fx_get(&self.map, &fingerprint) {
            Some(v) => Some(*v),
            None => None,
        }
    }

    /// Whether a fingerprint is known.
    pub fn contains(&self, fingerprint: u64) -> (r: bool)
        ensures
            r == self@.contains_key(fingerprint),
    {
        fx_get(&self.map, &fingerprint).is_some()
    }

    /// The number of distinct phrases.
    pub fn len(&self) -> (r: usize)
        ensures
            r == self@.len(),
    {
        fx_len(&self.map)
    }

    /// Whether the dictionary holds no phrase.
    pub fn is_empty(&self) -> (r: bool)
        requires
            self.wf(),
        ensures
            r == (self@ == Map::<u64, u32>::empty()),
    {
        let n = fx_len(&self.map);
        proof {
            if n == 0 {
                assert(self@.dom() =~= Set::<u64>::empty());
                assert(self@ =~= Map::<u64, u32>::empty());
            }
        }
        n == 0
    }

    /// Observes one entry. A new fingerprint is recorded with its length; a
    /// known one must come with the recorded length, and otherwise the
    /// dictionary is left as it was and the conflict is reported.
    pub fn observe(&mut self, fingerprint: u64, len: u32) -> (r: Observation)
        requires
            old(self).wf(),
        ensures
            final(self).wf(),
            r == (if !old(self)@.contains_key(fingerprint) {
                Observation::Added
            } else if old(self)@[fingerprint] == len {
                Observation::Known
            } else {
                Observation::Conflicting(
                    Conflict { fingerprint, recorded: old(self)@[fingerprint], observed: len },
                )
            }),
            final(self)@ == (if agrees(old(self)@, (fingerprint, len)) {
                observe(old(self)@, (fingerprint, len))
            } else {
                old(self)@
            }),
    {
        match self.get(fingerprint) {
            Some(recorded) => {
                if recorded == len {
                    Observation::Known
                } else {
                    Observation::Conflicting(Conflict { fingerprint, recorded, observed: len })
                }
            },
            None => {
                fx_insert(&mut self.map, fingerprint, len);
                Observation::Added
            },
        }
    }

    /// Takes a fingerprint out again.
    pub(crate) fn forget(&mut self, fingerprint: u64)
        requires
            old(self).wf(),
        ensures
            final(self).wf(),
            final(self)@ == old(self)@.remove(fingerprint),
    {
        fx_remove(&mut self.map, &fingerprint);
    }
}

} // verus!
