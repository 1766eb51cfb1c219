//! The complexity trace: one snapshot of the corpus complexity per file, in
//! the order in which the files were processed.

use vstd::prelude::*;

verus! {

/// One value of a normalized trace, kept exact: the snapshot over the final
/// snapshot of the trace.
#[derive(Clone, Copy, Debug, PartialEq, Eq, Structural)]
pub struct Ratio {
    /// The snapshot.
    pub numerator: usize,
    /// The last snapshot of the trace.
    pub denominator: usize,
}

/// Each value of the sequence is at least the one before it.
pub open spec fn non_decreasing(s: Seq<usize>) -> bool {
    forall|i: int, j: int| 0 <= i <= j < s.len() ==> s[i] <= s[j]
}

/// The normalized form of a sequence of snapshots: each over the last.
pub open spec fn normalized_seq(s: Seq<usize>) -> Seq<Ratio> {
    Seq::new(s.len(), |i: int| Ratio { numerator: s[i], denominator: s.last() })
}

/// The complexity trace of a run. Its view is the sequence of snapshots.
#[derive(Debug)]
pub struct ComplexityTrace {
    values: Vec<usize>,
}

impl View for ComplexityTrace {
    type V = Seq<usize>;

    closed spec fn view(&self) -> Seq<usize> {
        self.values@
    }
}

impl ComplexityTrace {
    /// The invariant of a trace: its snapshots never decrease.
    pub open spec fn wf(&self) -> bool {
        non_decreasing(self@)
    }

    /// The empty trace.
    pub fn new() -> (t: Self)
        ensures
            t.wf(),
            t@ == Seq::<usize>::empty(),
    {
        ComplexityTrace { values: Vec::new() }
    }

    /// Appends a snapshot that is not below the last one.
    pub(crate) fn record(&mut self, pi: usize)
        requires
            old(self).wf(),
            old(self)@.len() > 0 ==> old(self)@.last() <= pi,
        ensures
            final(self).wf(),
            final(self)@ == old(self)@.push(pi),
    {
        self.values.push(pi);
    }

    /// The number of snapshots.
    pub fn len(&self) -> (n: usize)
        ensures
            n == self@.len(),
    {
        self.values.len()
    }

    /// Whether the trace holds no snapshot, as it does for an empty corpus.
    pub fn is_empty(&self) -> (b: bool)
        ensures
            b == (self@.len() == 0),
    {
        self.values.len() == 0
    }

    /// The snapshots, in file-processing order.
    pub fn values(&self) -> (v: &Vec<usize>)
        ensures
            v@ == self@,
    {
        &self.values
    }

    /// The last snapshot: the complexity of the whole corpus.
    pub fn last(&self) -> (r: Option<usize>)
        ensures
            r == (if self@.len() == 0 {
                None
            } else {
                Some(self@.last())
            }),
    {
        let n = self.values.len();
        if n == 0 {
            None
        } else {
            Some(self.values[n - 1])
        }
    }

    /// The normalized trace: every snapshot over the last one. In a trace
    /// that is well formed no numerator exceeds its denominator, and the last
    /// ratio has the two equal.
    pub fn normalized(&self) -> (r: Vec<Ratio>)
        ensures
            r@ == normalized_seq(self@),
            self.wf() ==> forall|i: int|
                0 <= i < r@.len() ==> (#[trigger] r@[i]).numerator <= r@[i].denominator,
            r@.len() > 0 ==> r@.last().numerator == r@.last().denominator,
    {
        let n = self.values.len();
        let mut out: Vec<Ratio> = Vec::new();
        if n == 0 {
            assert(out@ =~= normalized_seq(self@));
            return out;
        }
        let denominator = self.values[n - 1];
        let mut i: usize = 0;
        while i < n
            invariant
                i <= n,
                n == self.values@.len(),
                n > 0,
                denominator == self@.last(),
                out@.len() == i,
                forall|k: int|
                    0 <= k < i ==> out@[k] == (Ratio {
                        numerator: self@[k],
                        denominator: self@.last(),
                    }),
            decreases n - i,
        {
            out.push(Ratio { numerator: self.values[i], denominator });
            i = i + 1;
        }
        assert(out@ =~= normalized_seq(self@));
        out
    }
}

} // verus!
