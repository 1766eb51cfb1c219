//! The mathematical model of the aggregation. A fingerprint is a 64-bit hash
//! of a phrase's content, a phrase length a 32-bit number of symbols; a
//! dictionary is a map from fingerprint to length, an entry a pair of the
//! two. The model says what a parse contributes, what a dictionary holds
//! once entries have been observed, and what the complexity of a run is.

use vstd::prelude::*;

verus! {

/// A fingerprint seen with two different lengths.
#[derive(Clone, Copy, Debug, PartialEq, Eq, Structural)]
pub struct Conflict {
    /// The fingerprint in question.
    pub fingerprint: u64,
    /// The length recorded at its first observation.
    pub recorded: u32,
    /// The differing length observed later.
    pub observed: u32,
}

/// What the factorization of one sequence yields, as plain mathematics.
#[verifier::ext_equal]
pub struct ParseView {
    /// The fingerprints of the phrases, in the order of the parse.
    pub phrases: Seq<u64>,
    /// The lengths of those phrases, in the same order.
    pub phrases_len: Seq<u32>,
    /// The phrase anchored at the start of the sequence.
    pub prefix: (u64, u32),
    /// The phrase anchored at the end of the sequence.
    pub suffix: (u64, u32),
}

impl ParseView {
    /// The phrases paired with their lengths, position by position, as far
    /// as both sequences reach.
    pub open spec fn paired(self) -> Seq<(u64, u32)> {
        Seq::new(
            if self.phrases.len() <= self.phrases_len.len() {
                self.phrases.len()
            } else {
                self.phrases_len.len()
            },
            |i: int| (self.phrases[i], self.phrases_len[i]),
        )
    }

    /// The dictionary entries that the parse contributes, in the order in
    /// which they are observed: prefix, suffix, then the paired phrases.
    pub open spec fn entries(self) -> Seq<(u64, u32)> {
        seq![self.prefix, self.suffix] + self.paired()
    }

    /// The number of phrase occurrences in the parse.
    pub open spec fn occurrences(self) -> nat {
        self.phrases.len()
    }
}

/// The cumulative state of a run, as plain mathematics.
#[verifier::ext_equal]
pub struct CumulativeView {
    /// The dictionary: fingerprint to phrase length.
    pub dict: Map<u64, u32>,
    /// The number of phrase occurrences seen so far.
    pub parse_len: nat,
    /// The fingerprints of all parses so far, where they are retained.
    pub parses: Seq<u64>,
    /// Whether the fingerprints are retained.
    pub keep_parses: bool,
}

impl CumulativeView {
    /// The state at the start of a run.
    pub open spec fn initial(keep_parses: bool) -> CumulativeView {
        CumulativeView {
            dict: Map::empty(),
            parse_len: 0,
            parses: Seq::empty(),
            keep_parses,
        }
    }

    /// The complexity of the corpus so far: the number of phrase occurrences
    /// plus the lengths of the distinct phrases.
    pub open spec fn pi(self) -> nat {
        self.parse_len + total_length(self.dict)
    }

    /// The state after one more parse has been merged in.
    pub open spec fn merged(self, p: ParseView) -> CumulativeView {
        CumulativeView {
            dict: absorb(self.dict, p.entries()),
            parse_len: self.parse_len + p.occurrences(),
            parses: if self.keep_parses {
                self.parses + p.phrases
            } else {
                self.parses
            },
            keep_parses: self.keep_parses,
        }
    }
}

/// The sum of the lengths of all phrases in a finite dictionary.
pub open spec fn total_length(d: Map<u64, u32>) -> nat
    decreases d.dom().len(),
{
    if d.dom().finite() && d.dom().len() > 0 {
        let k = d.dom().choose();
        d[k] as nat + total_length(d.remove(k))
    } else {
        0
    }
}

/// An entry agrees with a dictionary when its fingerprint is new or is
/// recorded with the same length.
pub open spec fn agrees(d: Map<u64, u32>, e: (u64, u32)) -> bool {
    d.contains_key(e.0) ==> d[e.0] == e.1
}

/// The dictionary after one entry has been observed: a new fingerprint is
/// recorded, a known one keeps the length of its first observation.
pub open spec fn observe(d: Map<u64, u32>, e: (u64, u32)) -> Map<u64, u32> {
    if d.contains_key(e.0) {
        d
    } else {
        d.insert(e.0, e.1)
    }
}

/// The dictionary after a sequence of entries has been observed in order.
pub open spec fn absorb(d: Map<u64, u32>, es: Seq<(u64, u32)>) -> Map<u64, u32>
    decreases es.len(),
{
    if es.len() == 0 {
        d
    } else {
        observe(absorb(d, es.drop_last()), es.last())
    }
}

/// No entry contradicts the dictionary, and no two entries contradict each
/// other: every fingerprint comes with one length only.
pub open spec fn consistent(d: Map<u64, u32>, es: Seq<(u64, u32)>) -> bool {
    &&& forall|i: int| 0 <= i < es.len() ==> agrees(d, #[trigger] es[i])
    &&& forall|i: int, j: int|
        0 <= i < j < es.len() && (#[trigger] es[i]).0 == (#[trigger] es[j]).0 ==> es[i].1
            == es[j].1
}

/// The first entry, in order, that contradicts what the dictionary holds once
/// the entries before it have been observed; `None` when there is none.
pub open spec fn first_conflict(d: Map<u64, u32>, es: Seq<(u64, u32)>) -> Option<Conflict>
    decreases es.len(),
{
    if es.len() == 0 {
        None
    } else {
        match first_conflict(d, es.drop_last()) {
            Some(c) => Some(c),
            None => {
                let m = absorb(d, es.drop_last());
                let e = es.last();
                if agrees(m, e) {
                    None
                } else {
                    Some(Conflict { fingerprint: e.0, recorded: m[e.0], observed: e.1 })
                }
            },
        }
    }
}

/// Taking one phrase out of a dictionary lowers the sum by its length,
/// whichever phrase it is.
pub proof fn lemma_total_length_remove(d: Map<u64, u32>, k: u64)
    requires
        d.dom().finite(),
        d.contains_key(k),
    ensures
        total_length(d) == d[k] as nat + total_length(d.remove(k)),
    decreases d.dom().len(),
{
    let c = d.dom().choose();
    if c != k {
        lemma_total_length_remove(d.remove(c), k);
        lemma_total_length_remove(d.remove(k), c);
        assert(d.remove(c).remove(k) =~= d.remove(k).remove(c));
    }
}

/// Recording a new phrase raises the sum by its length.
pub proof fn lemma_total_length_insert(d: Map<u64, u32>, k: u64, v: u32)
    requires
        d.dom().finite(),
        !d.contains_key(k),
    ensures
        total_length(d.insert(k, v)) == total_length(d) + v as nat,
{
    lemma_total_length_remove(d.insert(k, v), k);
    assert(d.insert(k, v).remove(k) =~= d);
}

/// What a dictionary holds after absorbing entries: everything it held
/// before, unchanged, and for each new fingerprint the length of its first
/// entry.
pub proof fn lemma_absorb_contents(d: Map<u64, u32>, es: Seq<(u64, u32)>)
    ensures
        d.dom().finite() ==> absorb(d, es).dom().finite(),
        forall|k: u64|
            #![trigger d.contains_key(k)]
            d.contains_key(k) ==> absorb(d, es).contains_key(k) && absorb(d, es)[k] == d[k],
        forall|k: u64| #[trigger]
            absorb(d, es).contains_key(k) <==> d.contains_key(k) || exists|i: int|
                0 <= i < es.len() && (#[trigger] es[i]).0 == k,
        forall|i: int|
            0 <= i < es.len() && !d.contains_key((#[trigger] es[i]).0) ==> exists|j: int|
                0 <= j <= i && (#[trigger] es[j]).0 == es[i].0 && absorb(d, es)[es[i].0] == es[j].1,
    decreases es.len(),
{
    if es.len() > 0 {
        let init = es.drop_last();
        let e = es.last();
        lemma_absorb_contents(d, init);
        let m = absorb(d, init);
        let r = absorb(d, es);
        assert forall|k: u64| #[trigger] r.contains_key(k) <==> d.contains_key(k) || exists|i: int|
            0 <= i < es.len() && (#[trigger] es[i]).0 == k by {
            if r.contains_key(k) {
                if m.contains_key(k) {
                    if !d.contains_key(k) {
                        let i = choose|i: int| 0 <= i < init.len() && (#[trigger] init[i]).0 == k;
                        assert(es[i].0 == k);
                    }
                } else {
                    assert(es[es.len() - 1].0 == k);
                }
            }
            if exists|i: int| 0 <= i < es.len() && (#[trigger] es[i]).0 == k {
                let i = choose|i: int| 0 <= i < es.len() && (#[trigger] es[i]).0 == k;
                if i < init.len() {
                    assert(init[i].0 == k);
                }
            }
        }
        assert forall|i: int|
            0 <= i < es.len() && !d.contains_key((#[trigger] es[i]).0) implies exists|j: int|
            0 <= j <= i && (#[trigger] es[j]).0 == es[i].0 && r[es[i].0] == es[j].1 by {
            let k = es[i].0;
            if i < init.len() {
                assert(init[i] == es[i]);
                let j = choose|j: int|
                    0 <= j <= i && (#[trigger] init[j]).0 == init[i].0 && m[init[i].0] == init[j].1;
                assert(init[j] == es[j]);
                assert(m.contains_key(k));
            } else {
                if m.contains_key(k) {
                    let i0 = choose|i0: int| 0 <= i0 < init.len() && (#[trigger] init[i0]).0 == k;
                    let j = choose|j: int|
                        0 <= j <= i0 && (#[trigger] init[j]).0 == init[i0].0 && m[init[i0].0]
                            == init[j].1;
                    assert(init[j] == es[j]);
                } else {
                    assert(es[i].0 == k && r[k] == es[i].1);
                }
            }
        }
    }
}

/// A conflict found among the first entries is the conflict of the whole
/// sequence.
pub proof fn lemma_first_conflict_prefix(d: Map<u64, u32>, es: Seq<(u64, u32)>, n: int)
    requires
        0 <= n <= es.len(),
        first_conflict(d, es.take(n)) is Some,
    ensures
        first_conflict(d, es) == first_conflict(d, es.take(n)),
    decreases es.len() - n,
{
    if n < es.len() {
        assert(es.take(n + 1).drop_last() =~= es.take(n));
        lemma_first_conflict_prefix(d, es, n + 1);
    } else {
        assert(es.take(n) =~= es);
    }
}

/// The entries are consistent with the dictionary exactly when observing
/// them in order meets no conflict.
pub proof fn lemma_consistent_iff_no_conflict(d: Map<u64, u32>, es: Seq<(u64, u32)>)
    ensures
        consistent(d, es) <==> first_conflict(d, es) is None,
    decreases es.len(),
{
    if es.len() > 0 {
        let init = es.drop_last();
        let e = es.last();
        let m = absorb(d, init);
        lemma_consistent_iff_no_conflict(d, init);
        lemma_absorb_contents(d, init);
        if consistent(d, es) {
            assert(consistent(d, init)) by {
                assert forall|i: int| 0 <= i < init.len() implies agrees(d, #[trigger] init[i]) by {
                    assert(init[i] == es[i]);
                }
                assert forall|i: int, j: int|
                    0 <= i < j < init.len() && (#[trigger] init[i]).0 == (#[trigger] init[j]).0
                    implies init[i].1 == init[j].1 by {
                    assert(init[i] == es[i] && init[j] == es[j]);
                }
            }
            assert(agrees(m, e)) by {
                if m.contains_key(e.0) {
                    if d.contains_key(e.0) {
                        assert(agrees(d, es[es.len() - 1]));
                    } else {
                        let i = choose|i: int| 0 <= i < init.len() && (#[trigger] init[i]).0 == e.0;
                        let j = choose|j: int|
                            0 <= j <= i && (#[trigger] init[j]).0 == init[i].0 && m[init[i].0]
                                == init[j].1;
                        assert(es[j] == init[j]);
                        assert(es[j].0 == es[es.len() - 1].0);
                    }
                }
            }
        }
        if first_conflict(d, es) is None {
            assert(consistent(d, init));
            assert(agrees(m, e));
            assert forall|i: int| 0 <= i < es.len() implies agrees(d, #[trigger] es[i]) by {
                if i < init.len() {
                    assert(init[i] == es[i]);
                }
            }
            assert forall|i: int, j: int|
                0 <= i < j < es.len() && (#[trigger] es[i]).0 == (#[trigger] es[j]).0 implies es[i].1
                == es[j].1 by {
                assert(init[i] == es[i]);
                if j < init.len() {
                    assert(init[j] == es[j]);
                } else {
                    let k = e.0;
                    if d.contains_key(k) {
                        assert(agrees(d, init[i]));
                    } else {
                        let j0 = choose|j0: int|
                            0 <= j0 <= i && (#[trigger] init[j0]).0 == init[i].0 && m[init[i].0]
                                == init[j0].1;
                        if j0 < i {
                            assert(init[j0].1 == init[i].1);
                        }
                    }
                }
            }
        }
    }
}

/// Under consistency every entry is found in the absorbing dictionary with
/// its own length.
pub proof fn lemma_absorb_consistent(d: Map<u64, u32>, es: Seq<(u64, u32)>)
    requires
        consistent(d, es),
    ensures
        forall|i: int|
            0 <= i < es.len() ==> absorb(d, es).contains_key((#[trigger] es[i]).0) && absorb(
                d,
                es,
            )[es[i].0] == es[i].1,
{
    lemma_absorb_contents(d, es);
    assert forall|i: int| 0 <= i < es.len() implies absorb(d, es).contains_key(
        (#[trigger] es[i]).0,
    ) && absorb(d, es)[es[i].0] == es[i].1 by {
        if d.contains_key(es[i].0) {
            assert(agrees(d, es[i]));
        } else {
            let j = choose|j: int|
                0 <= j <= i && (#[trigger] es[j]).0 == es[i].0 && absorb(d, es)[es[i].0] == es[j].1;
            if j < i {
                assert(es[j].1 == es[i].1);
            }
        }
    }
}

/// Absorbing entries never lowers the sum of the lengths.
pub proof fn lemma_total_length_absorb(d: Map<u64, u32>, es: Seq<(u64, u32)>)
    requires
        d.dom().finite(),
    ensures
        total_length(d) <= total_length(absorb(d, es)),
    decreases es.len(),
{
    if es.len() > 0 {
        lemma_total_length_absorb(d, es.drop_last());
        lemma_absorb_contents(d, es.drop_last());
        let m = absorb(d, es.drop_last());
        if !m.contains_key(es.last().0) {
            lemma_total_length_insert(m, es.last().0, es.last().1);
        }
    }
}

/// The state after the parses of one file have been merged in, in order.
pub open spec fn after_file(s: CumulativeView, file: Seq<ParseView>) -> CumulativeView
    decreases file.len(),
{
    if file.len() == 0 {
        s
    } else {
        after_file(s, file.drop_last()).merged(file.last())
    }
}

/// The state after a sequence of files has been processed, in order.
pub open spec fn after_files(s: CumulativeView, files: Seq<Seq<ParseView>>) -> CumulativeView
    decreases files.len(),
{
    if files.len() == 0 {
        s
    } else {
        after_file(after_files(s, files.drop_last()), files.last())
    }
}

/// The complexity trace of a sequence of files: for each file, in order, the
/// complexity of the corpus once that file has been merged in full.
pub open spec fn trace_of(s: CumulativeView, files: Seq<Seq<ParseView>>) -> Seq<nat>
    decreases files.len(),
{
    if files.len() == 0 {
        Seq::empty()
    } else {
        trace_of(s, files.drop_last()).push(after_files(s, files).pi())
    }
}

/// All dictionary entries of one file, in the order in which they are
/// observed.
pub open spec fn file_entries(file: Seq<ParseView>) -> Seq<(u64, u32)>
    decreases file.len(),
{
    if file.len() == 0 {
        Seq::empty()
    } else {
        file_entries(file.drop_last()) + file.last().entries()
    }
}

/// All dictionary entries of a sequence of files, in the order in which they
/// are observed.
pub open spec fn corpus_entries(files: Seq<Seq<ParseView>>) -> Seq<(u64, u32)>
    decreases files.len(),
{
    if files.len() == 0 {
        Seq::empty()
    } else {
        corpus_entries(files.drop_last()) + file_entries(files.last())
    }
}

} // verus!
