//! The cumulative aggregator: one state for the whole run, into which the
//! parse of every sequence is merged.

use crate::dictionary::{Observation, PhraseDictionary};
use crate::model::{
    absorb, first_conflict, lemma_absorb_contents, lemma_first_conflict_prefix,
    lemma_total_length_insert, total_length, Conflict, CumulativeView, ParseView,
};
use crate::parse::SequenceParseResult;
use vstd::prelude::*;

verus! {

/// Why a parse could not be merged.
#[derive(Clone, Copy, Debug, PartialEq, Eq, Structural)]
pub enum MergeError {
    /// A fingerprint came with a length that differs from the one recorded at
    /// its first observation: a hash collision, or an inconsistent engine.
    InvariantViolation(Conflict),
    /// The complexity of the corpus would no longer fit in a `usize`.
    CapacityExceeded,
}

/// How merging a parse into a state ends: with the first conflict where
/// there is one, else with success where the new complexity fits in a `usize`.
pub open spec fn merge_outcome(s: CumulativeView, p: ParseView) -> Result<(), MergeError> {
    match first_conflict(s.dict, p.entries()) {
        Some(c) => Err(MergeError::InvariantViolation(c)),
        None => if s.merged(p).pi() <= usize::MAX {
            Ok(())
        } else {
            Err(MergeError::CapacityExceeded)
        },
    }
}

/// The bookkeeping of a merge under way: `cur` is `base` after the entries
/// `done`, none of which met a conflict; `added` lists the fingerprints that
/// are new since `base`, and `added_len` is the sum of their lengths.
spec fn tracks(
    base: Map<u64, u32>,
    done: Seq<(u64, u32)>,
    cur: Map<u64, u32>,
    added: Seq<u64>,
    added_len: int,
) -> bool {
    &&& base.dom().finite()
    &&& cur == absorb(base, done)
    &&& first_conflict(base, done) is None
    &&& forall|k: u64| #[trigger] added.contains(k) <==> cur.contains_key(k) && !base.contains_key(k)
    &&& total_length(cur) == total_length(base) + added_len
    &&& 0 <= added_len <= done.len() * u32::MAX
}

/// Observes one entry and keeps the bookkeeping of the merge.
fn absorb_entry(
    dict: &mut PhraseDictionary,
    added: &mut Vec<u64>,
    added_len: &mut u128,
    e: (u64, u32),
    Ghost(base): Ghost<Map<u64, u32>>,
    Ghost(done): Ghost<Seq<(u64, u32)>>,
) -> (c: Option<Conflict>)
    requires
        old(dict).wf(),
        tracks(base, done, old(dict)@, old(added)@, *old(added_len) as int),
        done.len() <= usize::MAX + 2,
    ensures
        final(dict).wf(),
        c == first_conflict(base, done.push(e)),
        c is None ==> tracks(
            base,
            done.push(e),
            final(dict)@,
            final(added)@,
            *final(added_len) as int,
        ),
        c is Some ==> final(dict)@ == old(dict)@,
        c is Some ==> final(added)@ == old(added)@,
        c is Some ==> *final(added_len) == *old(added_len),
{
    proof {
        assert(done.push(e).drop_last() =~= done);
        lemma_absorb_contents(base, done);
    }
    match dict.observe(e.0, e.1) {
        Observation::Added => {
            proof {
                lemma_total_length_insert(old(dict)@, e.0, e.1);
            }
            added.push(e.0);
            *added_len = *added_len + e.1 as u128;
            proof {
                let cur = dict@;
                assert forall|k: u64| #[trigger]
                    added@.contains(k) <==> cur.contains_key(k) && !base.contains_key(k) by {
                    if added@.contains(k) {
                        let i = choose|i: int| 0 <= i < added@.len() && added@[i] == k;
                        if i < old(added)@.len() {
                            assert(old(added)@[i] == k);
                            assert(old(added)@.contains(k));
                        }
                    }
                    if cur.contains_key(k) && !base.contains_key(k) {
                        if k == e.0 {
                            assert(added@[added@.len() - 1] == k);
                        } else {
                            assert(old(added)@.contains(k));
                            let i = choose|i: int|
                                0 <= i < old(added)@.len() && old(added)@[i] == k;
                            assert(added@[i] == k);
                        }
                    }
                }
            }
            None
        },
        Observation::Known => None,
        Observation::Conflicting(c) => Some(c),
    }
}

/// Takes the fingerprints in `added` out of the dictionary again, which
/// leaves it as `base`.
fn rollback(dict: &mut PhraseDictionary, added: &Vec<u64>, Ghost(base): Ghost<Map<u64, u32>>)
    requires
        old(dict).wf(),
        forall|k: u64|
            #![trigger base.contains_key(k)]
            base.contains_key(k) ==> old(dict)@.contains_key(k) && old(dict)@[k] == base[k],
        forall|k: u64| #[trigger]
            added@.contains(k) <==> old(dict)@.contains_key(k) && !base.contains_key(k),
    ensures
        final(dict).wf(),
        final(dict)@ == base,
{
    let mut j: usize = 0;
    proof {
        assert forall|k: u64|
            #![trigger dict@.contains_key(k)]
            dict@.contains_key(k) && !base.contains_key(k) implies exists|i: int|
            0 <= i < added.len() && #[trigger] added@[i] == k by {
            assert(added@.contains(k));
        }
        assert forall|i: int| 0 <= i < added.len() implies !base.contains_key(
            #[trigger] added@[i],
        ) by {
            assert(added@.contains(added@[i]));
        }
    }
    while j < added.len()
        invariant
            j <= added.len(),
            dict.wf(),
            forall|k: u64|
                #![trigger base.contains_key(k)]
                base.contains_key(k) ==> dict@.contains_key(k) && dict@[k] == base[k],
            forall|k: u64|
                #![trigger dict@.contains_key(k)]
                dict@.contains_key(k) && !base.contains_key(k) ==> exists|i: int|
                    j <= i < added.len() && #[trigger] added@[i] == k,
            forall|i: int| 0 <= i < added.len() ==> !base.contains_key(#[trigger] added@[i]),
        decreases added.len() - j,
    {
        let ghost before = dict@;
        dict.forget(added[j]);
        proof {
            assert forall|k: u64|
                #![trigger dict@.contains_key(k)]
                dict@.contains_key(k) && !base.contains_key(k) implies exists|i: int|
                j + 1 <= i < added.len() && #[trigger] added@[i] == k by {
                assert(before.contains_key(k));
                let i = choose|i: int| j <= i < added.len() && #[trigger] added@[i] == k;
                assert(i != j);
            }
        }
        j = j + 1;
    }
    assert(dict@ =~= base);
}

/// The cumulative state of a run: the phrase dictionary, the number of
/// phrase occurrences, and, where retention is on, the fingerprints of all
/// parses in order.
pub struct CumulativeParse {
    dict: PhraseDictionary,
    dict_total: usize,
    parses: Vec<u64>,
    parse_len: usize,
    keep_parses: bool,
}

impl View for CumulativeParse {
    type V = CumulativeView;

    closed spec fn view(&self) -> CumulativeView {
        CumulativeView {
            dict: self.dict@,
            parse_len: self.parse_len as nat,
            parses: self.parses@,
            keep_parses: self.keep_parses,
        }
    }
}

impl CumulativeParse {
    /// The cached sum of the dictionary's lengths is the true one.
    pub closed spec fn cached(&self) -> bool {
        &&& self.dict.wf()
        &&& self.dict_total == total_length(self.dict@)
    }

    /// The invariant of a state: the dictionary is finite, the complexity
    /// fits in a `usize`, and the retained fingerprints are all those seen
    /// where retention is on, and none where it is off.
    pub open spec fn wf(&self) -> bool {
        &&& self.cached()
        &&& self@.dict.dom().finite()
        &&& self@.pi() <= usize::MAX
        &&& self@.parses.len() == (if self@.keep_parses {
            self@.parse_len
        } else {
            0
        })
    }

    /// The state at the start of a run, without retention.
    pub fn new() -> (s: Self)
        ensures
            s.wf(),
            s@ == CumulativeView::initial(false),
    {
        Self::with_retention(false)
    }

    /// The state at the start of a run, with retention as given.
    pub fn with_retention(keep_parses: bool) -> (s: Self)
        ensures
            s.wf(),
            s@ == CumulativeView::initial(keep_parses),
    {
        let s = CumulativeParse {
            dict: PhraseDictionary::new(),
            dict_total: 0,
            parses: Vec::new(),
            parse_len: 0,
            keep_parses,
        };
        assert(s@ =~= CumulativeView::initial(keep_parses));
        s
    }

    /// Merges the parse of one sequence into the state.
    ///
    /// The parse's entries are observed in order: prefix, suffix, then each
    /// phrase with its length. If one of them contradicts the dictionary,
    /// the first such conflict is reported; if the new complexity would not
    /// fit in a `usize`, that is reported; in both cases the state is left
    /// exactly as it was. Otherwise the occurrence counter grows by the
    /// number of phrases, the new fingerprints are recorded, and the
    /// fingerprints are appended to the retained parse where retention is on.
    pub fn merge(&mut self, parse: &SequenceParseResult) -> (r: Result<(), MergeError>)
        requires
            old(self).wf(),
        ensures
            final(self).wf(),
            r == merge_outcome(old(self)@, parse@),
            final(self)@ == (if r is Ok {
                old(self)@.merged(parse@)
            } else {
                old(self)@
            }),
    {
        let ghost base = self.dict@;
        let ghost es = parse@.entries();
        let mut added: Vec<u64> = Vec::new();
        let mut added_len: u128 = 0;
        let ghost mut done: Seq<(u64, u32)> = Seq::empty();
        let n = parse.paired_len();
        let mut conflict = absorb_entry(
            &mut self.dict,
            &mut added,
            &mut added_len,
            parse.prefix,
            Ghost(base),
            Ghost(done),
        );
        proof {
            assert(es.take(1) =~= done.push(parse.prefix));
            if conflict is None {
                done = es.take(1);
            } else {
                lemma_first_conflict_prefix(base, es, 1);
            }
        }
        if conflict.is_none() {
            conflict = absorb_entry(
                &mut self.dict,
                &mut added,
                &mut added_len,
                parse.suffix,
                Ghost(base),
                Ghost(done),
            );
            proof {
                assert(es.take(2) =~= done.push(parse.suffix));
                if conflict is None {
                    done = es.take(2);
                } else {
                    lemma_first_conflict_prefix(base, es, 2);
                }
            }
        }
        let mut i: usize = 0;
        while conflict.is_none() && i < n
            invariant
                i <= n,
                n == parse@.paired().len(),
                es == parse@.entries(),
                self.dict.wf(),
                self.dict_total == old(self).dict_total,
                self.parses == old(self).parses,
                self.parse_len == old(self).parse_len,
                self.keep_parses == old(self).keep_parses,
                tracks(base, done, self.dict@, added@, added_len as int),
                done.len() <= i + 2,
                conflict is None ==> done == es.take(i + 2),
                conflict is Some ==> conflict == first_conflict(base, es),
            decreases n - i + (if conflict is None { 1int } else { 0int }),
        {
            let e = parse.paired_at(i);
            conflict = absorb_entry(
                &mut self.dict,
                &mut added,
                &mut added_len,
                e,
                Ghost(base),
                Ghost(done),
            );
            proof {
                assert(es.take(i + 3) =~= done.push(e));
                if conflict is None {
                    done = es.take(i + 3);
                } else {
                    lemma_first_conflict_prefix(base, es, i + 3);
                }
            }
            i = i + 1;
        }
        proof {
            lemma_absorb_contents(base, done);
        }
        if let Some(c) = conflict {
            rollback(&mut self.dict, &added, Ghost(base));
            assert(self@ =~= old(self)@);
            return Err(MergeError::InvariantViolation(c));
        }
        proof {
            assert(es.take(n + 2) =~= es);
        }
        let occurrences = parse.phrases.len();
        let need: u128 = self.parse_len as u128 + occurrences as u128 + self.dict_total as u128
            + added_len;
        if need > usize::MAX as u128 {
            rollback(&mut self.dict, &added, Ghost(base));
            assert(self@ =~= old(self)@);
            return Err(MergeError::CapacityExceeded);
        }
        self.parse_len = self.parse_len + occurrences;
        self.dict_total = self.dict_total + added_len as usize;
        if self.keep_parses {
            self.parses.extend_from_slice(parse.phrases.as_slice());
        }
        assert(self@ =~= old(self)@.merged(parse@));
        Ok(())
    }

    /// The complexity of the corpus so far: the number of phrase occurrences
    /// plus the sum of the lengths of the distinct phrases.
    pub fn pi(&self) -> (r: usize)
        requires
            self.wf(),
        ensures
            r == self@.pi(),
    {
        self.parse_len + self.dict_total
    }

    /// The phrase dictionary.
    pub fn dict(&self) -> (d: &PhraseDictionary)
        ensures
            d@ == self@.dict,
            self.wf() ==> d.wf(),
    {
        &self.dict
    }

    /// The sum of the lengths of the distinct phrases.
    pub fn dict_total(&self) -> (r: usize)
        requires
            self.wf(),
        ensures
            r == total_length(self@.dict),
    {
        self.dict_total
    }

    /// The number of phrase occurrences seen so far.
    pub fn parse_len(&self) -> (r: usize)
        ensures
            r == self@.parse_len,
    {
        self.parse_len
    }

    /// The retained fingerprints: those of all parses so far, in order, where
    /// retention is on; none where it is off.
    pub fn parses(&self) -> (r: &Vec<u64>)
        ensures
            r@ == self@.parses,
    {
        &self.parses
    }

    /// Whether the fingerprints of the parses are retained.
    pub fn keep_parses(&self) -> (r: bool)
        ensures
            r == self@.keep_parses,
    {
        self.keep_parses
    }
}

} // verus!
