//! The profiler of a run: the cumulative state together with the complexity
//! trace, driven by two events: a parse to merge, and the end of a file.

use crate::cumulative::{merge_outcome, CumulativeParse, MergeError};
use crate::laws::lemma_merged_grows;
use crate::model::{after_file, after_files, trace_of, CumulativeView, ParseView};
use crate::parse::SequenceParseResult;
use crate::trace::ComplexityTrace;
use vstd::prelude::*;

verus! {

/// What a profiler has been fed so far, as plain mathematics.
#[verifier::ext_equal]
pub struct ProfilerView {
    /// Whether the fingerprints of the parses are retained.
    pub keep_parses: bool,
    /// The files that have ended, each with the parses merged for it.
    pub files: Seq<Seq<ParseView>>,
    /// The parses merged for the file under way.
    pub current: Seq<ParseView>,
}

impl ProfilerView {
    /// A profiler that has been fed nothing.
    pub open spec fn initial(keep_parses: bool) -> ProfilerView {
        ProfilerView { keep_parses, files: Seq::empty(), current: Seq::empty() }
    }

    /// The cumulative state: that of a fresh run after the ended files and
    /// the parses of the file under way.
    pub open spec fn state(self) -> CumulativeView {
        after_file(
            after_files(CumulativeView::initial(self.keep_parses), self.files),
            self.current,
        )
    }

    /// The trace: one snapshot for each file that has ended.
    pub open spec fn trace(self) -> Seq<nat> {
        trace_of(CumulativeView::initial(self.keep_parses), self.files)
    }

    /// The profiler after one more parse of the file under way.
    pub open spec fn with_parse(self, p: ParseView) -> ProfilerView {
        ProfilerView { current: self.current.push(p), ..self }
    }

    /// The profiler after the file under way has ended.
    pub open spec fn with_file_ended(self) -> ProfilerView {
        ProfilerView { files: self.files.push(self.current), current: Seq::empty(), ..self }
    }
}

/// The snapshots of a trace as natural numbers.
pub open spec fn as_nats(s: Seq<usize>) -> Seq<nat> {
    s.map_values(|v: usize| v as nat)
}

/// The profiler of a run.
pub struct Profiler {
    state: CumulativeParse,
    trace: ComplexityTrace,
    files: Ghost<Seq<Seq<ParseView>>>,
    current: Ghost<Seq<ParseView>>,
}

impl View for Profiler {
    type V = ProfilerView;

    closed spec fn view(&self) -> ProfilerView {
        ProfilerView {
            keep_parses: self.state@.keep_parses,
            files: self.files@,
            current: self.current@,
        }
    }
}

impl Profiler {
    /// The invariant of a profiler: its state and its trace are those of
    /// what it has been fed, and the trace never decreases nor exceeds the
    /// complexity of the state.
    pub closed spec fn wf(&self) -> bool {
        &&& self.state.wf()
        &&& self.trace.wf()
        &&& self.state@ == self@.state()
        &&& as_nats(self.trace@) == self@.trace()
        &&& self.trace@.len() > 0 ==> self.trace@.last() <= self.state@.pi()
    }

    /// The snapshots taken so far.
    pub closed spec fn snapshots(&self) -> Seq<usize> {
        self.trace@
    }

    /// The cumulative state as it is.
    pub closed spec fn cumulative(&self) -> CumulativeView {
        self.state@
    }

    /// A profiler at the start of a run.
    pub fn new(keep_parses: bool) -> (p: Self)
        ensures
            p.wf(),
            p@ == ProfilerView::initial(keep_parses),
    {
        let p = Profiler {
            state: CumulativeParse::with_retention(keep_parses),
            trace: ComplexityTrace::new(),
            files: Ghost(Seq::empty()),
            current: Ghost(Seq::empty()),
        };
        assert(p@ =~= ProfilerView::initial(keep_parses));
        assert(as_nats(p.trace@) =~= p@.trace());
        p
    }

    /// Merges the parse of one sequence of the file under way. On an error
    /// nothing has changed.
    pub fn merge(&mut self, parse: &SequenceParseResult) -> (r: Result<(), MergeError>)
        requires
            old(self).wf(),
        ensures
            final(self).wf(),
            r == merge_outcome(old(self)@.state(), parse@),
            final(self)@ == (if r is Ok {
                old(self)@.with_parse(parse@)
            } else {
                old(self)@
            }),
    {
        let r = self.state.merge(parse);
        proof {
            if r is Ok {
                self.current@ = self.current@.push(parse@);
                assert(self.current@.drop_last() =~= old(self).current@);
                lemma_merged_grows(old(self).state@, parse@);
                assert(self@ =~= old(self)@.with_parse(parse@));
            } else {
                assert(self@ =~= old(self)@);
            }
        }
        r
    }

    /// Ends the file under way: takes a snapshot of the complexity, appends
    /// it to the trace and returns it. A file without a parse repeats the
    /// snapshot before it.
    pub fn end_file(&mut self) -> (pi: usize)
        requires
            old(self).wf(),
        ensures
            final(self).wf(),
            final(self)@ == old(self)@.with_file_ended(),
            pi == old(self)@.state().pi(),
            final(self)@.trace() == old(self)@.trace().push(pi as nat),
    {
        let pi = self.state.pi();
        self.trace.record(pi);
        proof {
            let ended = self.files@.push(self.current@);
            assert(ended.drop_last() =~= self.files@);
            self.files@ = ended;
            self.current@ = Seq::empty();
            assert(self@ =~= old(self)@.with_file_ended());
            assert(as_nats(self.trace@) =~= self@.trace());
        }
        pi
    }

    /// The cumulative state.
    pub fn state(&self) -> (s: &CumulativeParse)
        requires
            self.wf(),
        ensures
            s.wf(),
            s@ == self.cumulative(),
            s@ == self@.state(),
    {
        &self.state
    }

    /// The trace so far: one snapshot for each file that has ended.
    pub fn trace(&self) -> (t: &ComplexityTrace)
        requires
            self.wf(),
        ensures
            t.wf(),
            t@ == self.snapshots(),
            as_nats(t@) == self@.trace(),
    {
        &self.trace
    }

    /// Ends the run and hands out its trace.
    pub fn into_trace(self) -> (t: ComplexityTrace)
        requires
            self.wf(),
        ensures
            t.wf(),
            t@ == self.snapshots(),
            as_nats(t@) == self@.trace(),
    {
        self.trace
    }

    /// Determinism: two profilers that have been fed the same files and
    /// parses hold the same state and the same trace, snapshot for snapshot.
    pub proof fn law_same_input_same_result(&self, other: &Profiler)
        requires
            self.wf(),
            other.wf(),
            self@ == other@,
        ensures
            self.snapshots() == other.snapshots(),
            self.cumulative() == other.cumulative(),
    {
        let a = self.trace@;
        let b = other.trace@;
        assert(as_nats(a) == as_nats(b));
        assert(a.len() == as_nats(a).len());
        assert(b.len() == as_nats(b).len());
        assert forall|i: int| 0 <= i < a.len() implies a[i] == b[i] by {
            assert(as_nats(a)[i] == a[i] as nat);
            assert(as_nats(b)[i] == b[i] as nat);
        }
        assert(a =~= b);
    }
}

} // verus!
