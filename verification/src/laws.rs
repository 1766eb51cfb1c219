//! What holds of the aggregation as a whole: the trace never decreases, the
//! dictionary does not depend on the order of the files, a parse merged twice
//! changes the dictionary once, and parses with the same dictionary
//! contribution are interchangeable.

use crate::model::{
    absorb, after_file, after_files, agrees, consistent, corpus_entries, file_entries,
    first_conflict, lemma_absorb_consistent, lemma_absorb_contents,
    lemma_consistent_iff_no_conflict, lemma_total_length_absorb, trace_of, CumulativeView,
    ParseView,
};
use vstd::prelude::*;

verus! {

/// Merging a parse never lowers the complexity, and keeps the dictionary
/// finite.
pub proof fn lemma_merged_grows(s: CumulativeView, p: ParseView)
    requires
        s.dict.dom().finite(),
    ensures
        s.merged(p).dict.dom().finite(),
        s.pi() <= s.merged(p).pi(),
{
    lemma_absorb_contents(s.dict, p.entries());
    lemma_total_length_absorb(s.dict, p.entries());
}

/// Merging the parses of a file never lowers the complexity.
pub proof fn lemma_after_file_grows(s: CumulativeView, file: Seq<ParseView>)
    requires
        s.dict.dom().finite(),
    ensures
        after_file(s, file).dict.dom().finite(),
        s.pi() <= after_file(s, file).pi(),
    decreases file.len(),
{
    if file.len() > 0 {
        lemma_after_file_grows(s, file.drop_last());
        lemma_merged_grows(after_file(s, file.drop_last()), file.last());
    }
}

/// Processing files never lowers the complexity.
pub proof fn lemma_after_files_grows(s: CumulativeView, files: Seq<Seq<ParseView>>)
    requires
        s.dict.dom().finite(),
    ensures
        after_files(s, files).dict.dom().finite(),
        s.pi() <= after_files(s, files).pi(),
    decreases files.len(),
{
    if files.len() > 0 {
        lemma_after_files_grows(s, files.drop_last());
        lemma_after_file_grows(after_files(s, files.drop_last()), files.last());
    }
}

/// The trace has one snapshot per file, and its `i`-th snapshot is the
/// complexity after the first `i + 1` files.
pub proof fn lemma_trace_of_index(s: CumulativeView, files: Seq<Seq<ParseView>>, i: int)
    requires
        0 <= i < files.len(),
    ensures
        trace_of(s, files).len() == files.len(),
        trace_of(s, files)[i] == after_files(s, files.take(i + 1)).pi(),
    decreases files.len(),
{
    lemma_trace_of_len(s, files);
    lemma_trace_of_len(s, files.drop_last());
    if i == files.len() - 1 {
        assert(files.take(i + 1) =~= files);
    } else {
        lemma_trace_of_index(s, files.drop_last(), i);
        assert(files.drop_last().take(i + 1) =~= files.take(i + 1));
    }
}

/// The trace has one snapshot per file.
pub proof fn lemma_trace_of_len(s: CumulativeView, files: Seq<Seq<ParseView>>)
    ensures
        trace_of(s, files).len() == files.len(),
    decreases files.len(),
{
    if files.len() > 0 {
        lemma_trace_of_len(s, files.drop_last());
    }
}

/// Processing the first files and then the rest is processing them all.
pub proof fn lemma_after_files_split(s: CumulativeView, files: Seq<Seq<ParseView>>, n: int)
    requires
        0 <= n <= files.len(),
    ensures
        after_files(s, files) == after_files(
            after_files(s, files.take(n)),
            files.subrange(n, files.len() as int),
        ),
    decreases files.len() - n,
{
    let rest = files.subrange(n, files.len() as int);
    if n == files.len() {
        assert(files.take(n) =~= files);
    } else {
        lemma_after_files_split(s, files.drop_last(), n);
        assert(files.drop_last().take(n) =~= files.take(n));
        assert(files.drop_last().subrange(n, files.len() - 1) =~= rest.drop_last());
        assert(rest.last() == files.last());
    }
}

/// Monotonicity: in the trace of any run, each snapshot is at least the one
/// before it, and so at least every earlier one.
pub proof fn law_trace_non_decreasing(
    s: CumulativeView,
    files: Seq<Seq<ParseView>>,
    i: int,
    j: int,
)
    requires
        s.dict.dom().finite(),
        0 <= i <= j < files.len(),
    ensures
        trace_of(s, files)[i] <= trace_of(s, files)[j],
{
    lemma_trace_of_index(s, files, i);
    lemma_trace_of_index(s, files, j);
    let upto_j = files.take(j + 1);
    lemma_after_files_split(s, upto_j, i + 1);
    assert(upto_j.take(i + 1) =~= files.take(i + 1));
    lemma_after_files_grows(s, files.take(i + 1));
    lemma_after_files_grows(
        after_files(s, files.take(i + 1)),
        upto_j.subrange(i + 1, upto_j.len() as int),
    );
}

/// Observing one sequence of entries and then another is observing the two
/// in a row.
pub proof fn lemma_absorb_concat(d: Map<u64, u32>, xs: Seq<(u64, u32)>, ys: Seq<(u64, u32)>)
    ensures
        absorb(d, xs + ys) == absorb(absorb(d, xs), ys),
    decreases ys.len(),
{
    if ys.len() == 0 {
        assert(xs + ys =~= xs);
    } else {
        lemma_absorb_concat(d, xs, ys.drop_last());
        assert((xs + ys).drop_last() =~= xs + ys.drop_last());
        assert((xs + ys).last() == ys.last());
    }
}

/// The dictionary after a file is the dictionary before it with the file's
/// entries observed.
pub proof fn lemma_after_file_dict(s: CumulativeView, file: Seq<ParseView>)
    ensures
        after_file(s, file).dict == absorb(s.dict, file_entries(file)),
    decreases file.len(),
{
    if file.len() > 0 {
        lemma_after_file_dict(s, file.drop_last());
        lemma_absorb_concat(s.dict, file_entries(file.drop_last()), file.last().entries());
    }
}

/// The dictionary after a run is the dictionary before it with the entries
/// of all files observed.
pub proof fn lemma_after_files_dict(s: CumulativeView, files: Seq<Seq<ParseView>>)
    ensures
        after_files(s, files).dict == absorb(s.dict, corpus_entries(files)),
    decreases files.len(),
{
    if files.len() > 0 {
        lemma_after_files_dict(s, files.drop_last());
        lemma_after_file_dict(after_files(s, files.drop_last()), files.last());
        lemma_absorb_concat(s.dict, corpus_entries(files.drop_last()), file_entries(files.last()));
    }
}

/// Two sequences hold the same entries, in whatever order and number.
pub open spec fn same_entries(xs: Seq<(u64, u32)>, ys: Seq<(u64, u32)>) -> bool {
    forall|e: (u64, u32)| xs.contains(e) <==> ys.contains(e)
}

/// Under consistency the dictionary depends on the set of entries alone:
/// sequences that hold the same entries are consistent together and leave
/// the same dictionary.
pub proof fn lemma_absorb_same_entries(
    d: Map<u64, u32>,
    xs: Seq<(u64, u32)>,
    ys: Seq<(u64, u32)>,
)
    requires
        consistent(d, xs),
        same_entries(xs, ys),
    ensures
        consistent(d, ys),
        absorb(d, xs) == absorb(d, ys),
{
    assert forall|i: int| 0 <= i < ys.len() implies agrees(d, #[trigger] ys[i]) by {
        assert(ys.contains(ys[i]));
        assert(xs.contains(ys[i]));
        let k = choose|k: int| 0 <= k < xs.len() && xs[k] == ys[i];
        assert(agrees(d, xs[k]));
    }
    assert forall|i: int, j: int|
        0 <= i < j < ys.len() && (#[trigger] ys[i]).0 == (#[trigger] ys[j]).0 implies ys[i].1
        == ys[j].1 by {
        assert(ys.contains(ys[i]) && ys.contains(ys[j]));
        assert(xs.contains(ys[i]) && xs.contains(ys[j]));
        let a = choose|a: int| 0 <= a < xs.len() && xs[a] == ys[i];
        let b = choose|b: int| 0 <= b < xs.len() && xs[b] == ys[j];
        if a < b {
            assert(xs[a].1 == xs[b].1);
        } else if b < a {
            assert(xs[b].1 == xs[a].1);
        }
    }
    lemma_absorb_contents(d, xs);
    lemma_absorb_contents(d, ys);
    lemma_absorb_consistent(d, xs);
    lemma_absorb_consistent(d, ys);
    let mx = absorb(d, xs);
    let my = absorb(d, ys);
    assert forall|k: u64| mx.contains_key(k) <==> my.contains_key(k) by {
        if mx.contains_key(k) && !d.contains_key(k) {
            let i = choose|i: int| 0 <= i < xs.len() && (#[trigger] xs[i]).0 == k;
            assert(xs.contains(xs[i]));
            let j = choose|j: int| 0 <= j < ys.len() && ys[j] == xs[i];
            assert(ys[j].0 == k);
        }
        if my.contains_key(k) && !d.contains_key(k) {
            let i = choose|i: int| 0 <= i < ys.len() && (#[trigger] ys[i]).0 == k;
            assert(ys.contains(ys[i]));
            let j = choose|j: int| 0 <= j < xs.len() && xs[j] == ys[i];
            assert(xs[j].0 == k);
        }
    }
    assert forall|k: u64| mx.contains_key(k) implies mx[k] == my[k] by {
        if !d.contains_key(k) {
            let i = choose|i: int| 0 <= i < xs.len() && (#[trigger] xs[i]).0 == k;
            assert(xs.contains(xs[i]));
            let j = choose|j: int| 0 <= j < ys.len() && ys[j] == xs[i];
            assert(my[ys[j].0] == ys[j].1);
        }
    }
    assert(mx =~= my);
}

/// An entry belongs to a file exactly when it belongs to one of its parses.
pub proof fn lemma_file_entries_contains(file: Seq<ParseView>, e: (u64, u32))
    ensures
        file_entries(file).contains(e) <==> exists|i: int|
            0 <= i < file.len() && (#[trigger] file[i]).entries().contains(e),
    decreases file.len(),
{
    if file.len() == 0 {
        assert(!file_entries(file).contains(e));
    } else {
        let init = file.drop_last();
        lemma_file_entries_contains(init, e);
        lemma_concat_contains(file_entries(init), file.last().entries(), e);
        if file_entries(file).contains(e) {
            if file_entries(init).contains(e) {
                let i = choose|i: int|
                    0 <= i < init.len() && (#[trigger] init[i]).entries().contains(e);
                assert(file[i].entries().contains(e));
            } else {
                assert(file[file.len() - 1].entries().contains(e));
            }
        }
        if exists|i: int| 0 <= i < file.len() && (#[trigger] file[i]).entries().contains(e) {
            let i = choose|i: int| 0 <= i < file.len() && (#[trigger] file[i]).entries().contains(e);
            if i < init.len() {
                assert(init[i].entries().contains(e));
            }
        }
    }
}

/// An entry belongs to a corpus exactly when it belongs to one of its files.
pub proof fn lemma_corpus_entries_contains(files: Seq<Seq<ParseView>>, e: (u64, u32))
    ensures
        corpus_entries(files).contains(e) <==> exists|i: int|
            0 <= i < files.len() && file_entries(#[trigger] files[i]).contains(e),
    decreases files.len(),
{
    if files.len() == 0 {
        assert(!corpus_entries(files).contains(e));
    } else {
        let init = files.drop_last();
        lemma_corpus_entries_contains(init, e);
        lemma_concat_contains(corpus_entries(init), file_entries(files.last()), e);
        if corpus_entries(files).contains(e) {
            if corpus_entries(init).contains(e) {
                let i = choose|i: int|
                    0 <= i < init.len() && file_entries(#[trigger] init[i]).contains(e);
                assert(file_entries(files[i]).contains(e));
            } else {
                assert(file_entries(files[files.len() - 1]).contains(e));
            }
        }
        if exists|i: int| 0 <= i < files.len() && file_entries(#[trigger] files[i]).contains(e) {
            let i = choose|i: int|
                0 <= i < files.len() && file_entries(#[trigger] files[i]).contains(e);
            if i < init.len() {
                assert(file_entries(init[i]).contains(e));
            }
        }
    }
}

/// A value is in a concatenation exactly when it is in one of the two parts.
pub proof fn lemma_concat_contains(xs: Seq<(u64, u32)>, ys: Seq<(u64, u32)>, e: (u64, u32))
    ensures
        (xs + ys).contains(e) <==> xs.contains(e) || ys.contains(e),
{
    let zs = xs + ys;
    if zs.contains(e) {
        let i = choose|i: int| 0 <= i < zs.len() && zs[i] == e;
        if i < xs.len() {
            assert(xs[i] == e);
        } else {
            assert(ys[i - xs.len()] == e);
        }
    }
    if xs.contains(e) {
        let i = choose|i: int| 0 <= i < xs.len() && xs[i] == e;
        assert(zs[i] == e);
    }
    if ys.contains(e) {
        let i = choose|i: int| 0 <= i < ys.len() && ys[i] == e;
        assert(zs[i + xs.len()] == e);
    }
}

/// Order-independent dictionary: two runs over the same files, in whatever
/// order, end with the same dictionary, provided that no fingerprint comes
/// with two lengths. (The traces of the two runs may differ.)
pub proof fn law_dictionary_order_independent(
    s: CumulativeView,
    a: Seq<Seq<ParseView>>,
    b: Seq<Seq<ParseView>>,
)
    requires
        a.to_multiset() == b.to_multiset(),
        consistent(s.dict, corpus_entries(a)),
    ensures
        consistent(s.dict, corpus_entries(b)),
        after_files(s, a).dict == after_files(s, b).dict,
{
    a.to_multiset_ensures();
    b.to_multiset_ensures();
    let xs = corpus_entries(a);
    let ys = corpus_entries(b);
    assert forall|e: (u64, u32)| xs.contains(e) <==> ys.contains(e) by {
        lemma_corpus_entries_contains(a, e);
        lemma_corpus_entries_contains(b, e);
        if xs.contains(e) {
            let i = choose|i: int| 0 <= i < a.len() && file_entries(#[trigger] a[i]).contains(e);
            assert(a.contains(a[i]));
            assert(b.to_multiset().count(a[i]) > 0);
            assert(b.contains(a[i]));
            let j = choose|j: int| 0 <= j < b.len() && b[j] == a[i];
            assert(file_entries(b[j]).contains(e));
        }
        if ys.contains(e) {
            let i = choose|i: int| 0 <= i < b.len() && file_entries(#[trigger] b[i]).contains(e);
            assert(b.contains(b[i]));
            assert(a.to_multiset().count(b[i]) > 0);
            assert(a.contains(b[i]));
            let j = choose|j: int| 0 <= j < a.len() && a[j] == b[i];
            assert(file_entries(a[j]).contains(e));
        }
    }
    lemma_absorb_same_entries(s.dict, xs, ys);
    lemma_after_files_dict(s, a);
    lemma_after_files_dict(s, b);
}

/// Idempotent re-merge: merging a parse a second time leaves the dictionary,
/// its size and its contents, as the first merge left it; and where the
/// first merge met no conflict, the second meets none.
pub proof fn law_remerge_idempotent(s: CumulativeView, p: ParseView)
    ensures
        s.merged(p).merged(p).dict == s.merged(p).dict,
        s.merged(p).merged(p).dict.len() == s.merged(p).dict.len(),
        first_conflict(s.dict, p.entries()) is None ==> first_conflict(
            s.merged(p).dict,
            p.entries(),
        ) is None,
{
    let es = p.entries();
    let m = absorb(s.dict, es);
    lemma_absorb_contents(s.dict, es);
    lemma_absorb_all_known(m, es);
    if first_conflict(s.dict, es) is None {
        lemma_consistent_iff_no_conflict(s.dict, es);
        lemma_absorb_consistent(s.dict, es);
        assert(consistent(m, es));
        lemma_consistent_iff_no_conflict(m, es);
    }
}

/// Observing entries whose fingerprints are all known changes nothing.
pub proof fn lemma_absorb_all_known(d: Map<u64, u32>, es: Seq<(u64, u32)>)
    requires
        forall|i: int| 0 <= i < es.len() ==> d.contains_key((#[trigger] es[i]).0),
    ensures
        absorb(d, es) == d,
    decreases es.len(),
{
    if es.len() > 0 {
        assert forall|i: int| 0 <= i < es.drop_last().len() implies d.contains_key(
            (#[trigger] es.drop_last()[i]).0,
        ) by {
            assert(es.drop_last()[i] == es[i]);
        }
        lemma_absorb_all_known(d, es.drop_last());
        assert(d.contains_key(es[es.len() - 1].0));
    }
}

/// Two parses contribute the same to the dictionary and count the same
/// number of phrase occurrences.
pub open spec fn same_contribution(p: ParseView, q: ParseView) -> bool {
    &&& same_entries(p.entries(), q.entries())
    &&& p.occurrences() == q.occurrences()
}

/// Parses with the same contribution are interchangeable: merged into the
/// same state they meet a conflict together or not at all, and without one
/// they leave the same dictionary and the same complexity. Where their
/// phrases are also the same in order, they leave the same state altogether.
pub proof fn law_same_contribution_same_result(s: CumulativeView, p: ParseView, q: ParseView)
    requires
        same_contribution(p, q),
    ensures
        first_conflict(s.dict, p.entries()) is None <==> first_conflict(s.dict, q.entries())
            is None,
        first_conflict(s.dict, p.entries()) is None ==> s.merged(p).dict == s.merged(q).dict
            && s.merged(p).pi() == s.merged(q).pi(),
        first_conflict(s.dict, p.entries()) is None && p.phrases == q.phrases ==> s.merged(p)
            == s.merged(q),
{
    lemma_consistent_iff_no_conflict(s.dict, p.entries());
    lemma_consistent_iff_no_conflict(s.dict, q.entries());
    if consistent(s.dict, p.entries()) {
        lemma_absorb_same_entries(s.dict, p.entries(), q.entries());
    }
    if consistent(s.dict, q.entries()) {
        lemma_absorb_same_entries(s.dict, q.entries(), p.entries());
    }
}

} // verus!
