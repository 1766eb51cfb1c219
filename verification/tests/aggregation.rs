use pfp_profile::{
    Conflict, CumulativeParse, MergeError, Observation, PhraseDictionary, Profiler, Ratio,
    SequenceParseResult,
};

fn parse(phrases: &[u64], lens: &[u32], prefix: (u64, u32), suffix: (u64, u32)) -> SequenceParseResult {
    SequenceParseResult::new(phrases.to_vec(), lens.to_vec(), prefix, suffix)
}

fn file_a() -> SequenceParseResult {
    parse(
        &[1, 2, 1, 2, 1, 2, 1, 2, 1, 2],
        &[5, 7, 5, 7, 5, 7, 5, 7, 5, 7],
        (1, 5),
        (2, 7),
    )
}

fn file_b() -> SequenceParseResult {
    parse(&[3, 1, 3, 1], &[3, 5, 3, 5], (3, 3), (1, 5))
}

fn file_c() -> SequenceParseResult {
    parse(&[1, 2, 3, 1, 2, 3], &[5, 7, 3, 5, 7, 3], (1, 5), (3, 3))
}

#[test]
fn new_state_is_empty() {
    let s = CumulativeParse::new();
    assert_eq!(s.pi(), 0);
    assert_eq!(s.parse_len(), 0);
    assert_eq!(s.dict_total(), 0);
    assert!(s.dict().is_empty());
    assert_eq!(s.dict().len(), 0);
    assert!(s.parses().is_empty());
    assert!(!s.keep_parses());
}

#[test]
fn with_retention_sets_the_flag() {
    assert!(CumulativeParse::with_retention(true).keep_parses());
    assert!(!CumulativeParse::with_retention(false).keep_parses());
}

#[test]
fn worked_example_trace() {
    let mut p = Profiler::new(false);
    assert_eq!(p.merge(&file_a()), Ok(()));
    assert_eq!(p.end_file(), 22);
    assert_eq!(p.merge(&file_b()), Ok(()));
    assert_eq!(p.end_file(), 29);
    assert_eq!(p.merge(&file_c()), Ok(()));
    assert_eq!(p.end_file(), 35);
    assert_eq!(p.state().parse_len(), 20);
    assert_eq!(p.state().dict_total(), 15);
    assert_eq!(p.state().dict().len(), 3);
    let trace = p.into_trace();
    assert_eq!(trace.values(), &vec![22, 29, 35]);
    assert_eq!(trace.last(), Some(35));
    assert_eq!(trace.len(), 3);
}

#[test]
fn worked_example_normalized() {
    let mut p = Profiler::new(false);
    for f in [file_a(), file_b(), file_c()] {
        assert_eq!(p.merge(&f), Ok(()));
        p.end_file();
    }
    let ratios = p.trace().normalized();
    assert_eq!(
        ratios,
        vec![
            Ratio { numerator: 22, denominator: 35 },
            Ratio { numerator: 29, denominator: 35 },
            Ratio { numerator: 35, denominator: 35 },
        ]
    );
    let floats: Vec<f64> =
        ratios.iter().map(|r| r.numerator as f64 / r.denominator as f64).collect();
    assert_eq!(floats, vec![22.0 / 35.0, 29.0 / 35.0, 1.0]);
}

#[test]
fn normalized_divides_each_snapshot_by_the_last() {
    let mut p = Profiler::new(false);
    for f in [file_c(), file_a(), file_b(), file_b()] {
        assert_eq!(p.merge(&f), Ok(()));
        p.end_file();
    }
    let values = p.trace().values().clone();
    let last = *values.last().unwrap();
    let ratios = p.trace().normalized();
    assert_eq!(ratios.len(), values.len());
    for (i, r) in ratios.iter().enumerate() {
        assert_eq!(r.numerator, values[i]);
        assert_eq!(r.denominator, last);
        assert!(r.numerator <= r.denominator);
    }
    let r = ratios.last().unwrap();
    assert_eq!(r.numerator as f64 / r.denominator as f64, 1.0);
}

#[test]
fn trace_never_decreases() {
    let mut p = Profiler::new(false);
    let files = [file_b(), file_b(), file_c(), file_a(), file_a()];
    for f in files.iter() {
        assert_eq!(p.merge(f), Ok(()));
        p.end_file();
    }
    let values = p.trace().values().clone();
    assert_eq!(values, vec![12, 16, 29, 39, 49]);
    for w in values.windows(2) {
        assert!(w[0] <= w[1]);
    }
}

#[test]
fn trace_depends_on_file_order() {
    let mut ab = Profiler::new(false);
    assert_eq!(ab.merge(&file_a()), Ok(()));
    ab.end_file();
    assert_eq!(ab.merge(&file_b()), Ok(()));
    ab.end_file();
    let mut ba = Profiler::new(false);
    assert_eq!(ba.merge(&file_b()), Ok(()));
    ba.end_file();
    assert_eq!(ba.merge(&file_a()), Ok(()));
    ba.end_file();
    assert_eq!(ab.trace().values(), &vec![22, 29]);
    assert_eq!(ba.trace().values(), &vec![12, 29]);
}

fn dictionary_of(order: &[SequenceParseResult]) -> Vec<(u64, Option<u32>)> {
    let mut s = CumulativeParse::new();
    for f in order {
        assert_eq!(s.merge(f), Ok(()));
    }
    let mut out = vec![(0, Some(s.dict().len() as u32))];
    for k in 0..6u64 {
        out.push((k, s.dict().get(k)));
    }
    out
}

#[test]
fn dictionary_does_not_depend_on_file_order() {
    let abc = dictionary_of(&[file_a(), file_b(), file_c()]);
    let cba = dictionary_of(&[file_c(), file_b(), file_a()]);
    let bac = dictionary_of(&[file_b(), file_a(), file_c()]);
    assert_eq!(abc, cba);
    assert_eq!(abc, bac);
    assert_eq!(
        abc,
        vec![
            (0, Some(3)),
            (0, None),
            (1, Some(5)),
            (2, Some(7)),
            (3, Some(3)),
            (4, None),
            (5, None)
        ]
    );
}

#[test]
fn merging_twice_changes_the_dictionary_once() {
    let mut s = CumulativeParse::new();
    let a = file_a();
    assert_eq!(s.merge(&a), Ok(()));
    let len = s.dict().len();
    let total = s.dict_total();
    assert_eq!((len, total), (2, 12));
    assert_eq!(s.merge(&a), Ok(()));
    assert_eq!(s.dict().len(), len);
    assert_eq!(s.dict_total(), total);
    assert_eq!(s.dict().get(1), Some(5));
    assert_eq!(s.dict().get(2), Some(7));
    assert_eq!(s.parse_len(), 20);
    assert_eq!(s.pi(), 32);
}

#[test]
fn same_runs_give_same_traces() {
    let run = || {
        let mut p = Profiler::new(true);
        for f in [file_a(), file_b(), file_c()] {
            assert_eq!(p.merge(&f), Ok(()));
            p.end_file();
        }
        (p.trace().values().clone(), p.state().parses().clone())
    };
    assert_eq!(run(), run());
}

#[test]
fn same_contribution_in_another_order_gives_same_dictionary_and_pi() {
    let sequential = parse(&[1, 2, 3, 2], &[5, 7, 3, 7], (1, 5), (2, 7));
    let parallel = parse(&[2, 3, 2, 1], &[7, 3, 7, 5], (2, 7), (1, 5));
    let mut one = CumulativeParse::new();
    let mut eight = CumulativeParse::new();
    assert_eq!(one.merge(&sequential), Ok(()));
    assert_eq!(eight.merge(&parallel), Ok(()));
    assert_eq!(one.pi(), 19);
    assert_eq!(eight.pi(), 19);
    assert_eq!(one.dict().len(), eight.dict().len());
    for k in 0..5u64 {
        assert_eq!(one.dict().get(k), eight.dict().get(k));
    }
}

#[test]
fn file_without_records_repeats_the_snapshot() {
    let mut p = Profiler::new(false);
    assert_eq!(p.end_file(), 0);
    assert_eq!(p.merge(&file_a()), Ok(()));
    assert_eq!(p.end_file(), 22);
    assert_eq!(p.end_file(), 22);
    assert_eq!(p.trace().values(), &vec![0, 22, 22]);
}

#[test]
fn empty_corpus_gives_empty_trace() {
    let p = Profiler::new(false);
    assert!(p.trace().is_empty());
    assert_eq!(p.trace().len(), 0);
    assert_eq!(p.trace().last(), None);
    assert!(p.trace().normalized().is_empty());
}

#[test]
fn several_records_of_one_file_give_one_snapshot() {
    let mut p = Profiler::new(false);
    assert_eq!(p.merge(&file_a()), Ok(()));
    assert_eq!(p.merge(&file_b()), Ok(()));
    assert_eq!(p.end_file(), 29);
    assert_eq!(p.trace().values(), &vec![29]);
}

#[test]
fn prefix_and_suffix_enter_the_dictionary_but_not_the_counter() {
    let mut s = CumulativeParse::new();
    assert_eq!(s.merge(&parse(&[], &[], (10, 4), (11, 6))), Ok(()));
    assert_eq!(s.parse_len(), 0);
    assert_eq!(s.dict().len(), 2);
    assert_eq!(s.dict().get(10), Some(4));
    assert_eq!(s.dict().get(11), Some(6));
    assert_eq!(s.pi(), 10);
}

#[test]
fn counter_counts_occurrences_not_distinct_phrases() {
    let mut s = CumulativeParse::new();
    assert_eq!(s.merge(&parse(&[7, 7, 7, 7], &[2, 2, 2, 2], (7, 2), (7, 2))), Ok(()));
    assert_eq!(s.parse_len(), 4);
    assert_eq!(s.dict().len(), 1);
    assert_eq!(s.dict_total(), 2);
    assert_eq!(s.pi(), 6);
}

#[test]
fn phrases_without_a_length_are_counted_but_not_recorded() {
    let mut s = CumulativeParse::new();
    let p = parse(&[1, 2, 3], &[5, 7], (1, 5), (2, 7));
    assert_eq!(p.paired_len(), 2);
    assert_eq!(p.paired_at(1), (2, 7));
    assert_eq!(s.merge(&p), Ok(()));
    assert_eq!(s.parse_len(), 3);
    assert_eq!(s.dict().len(), 2);
    assert_eq!(s.dict().get(3), None);
    assert_eq!(s.pi(), 15);
}

#[test]
fn retention_keeps_fingerprints_in_order() {
    let mut s = CumulativeParse::with_retention(true);
    assert_eq!(s.merge(&file_b()), Ok(()));
    assert_eq!(s.merge(&parse(&[9, 1], &[2, 5], (9, 2), (1, 5))), Ok(()));
    assert_eq!(s.parses(), &vec![3, 1, 3, 1, 9, 1]);
    assert_eq!(s.parse_len(), 6);
}

#[test]
fn without_retention_nothing_is_kept() {
    let mut s = CumulativeParse::new();
    assert_eq!(s.merge(&file_b()), Ok(()));
    assert!(s.parses().is_empty());
    assert_eq!(s.parse_len(), 4);
}

#[test]
fn conflict_with_the_dictionary_is_reported_and_nothing_changes() {
    let mut s = CumulativeParse::with_retention(true);
    assert_eq!(s.merge(&file_a()), Ok(()));
    let bad = parse(&[8, 9, 2, 4], &[1, 1, 6, 1], (5, 2), (6, 2));
    assert_eq!(
        s.merge(&bad),
        Err(MergeError::InvariantViolation(Conflict { fingerprint: 2, recorded: 7, observed: 6 }))
    );
    assert_eq!(s.dict().len(), 2);
    for k in [4u64, 5, 6, 8, 9] {
        assert_eq!(s.dict().get(k), None);
        assert!(!s.dict().contains(k));
    }
    assert_eq!(s.dict().get(1), Some(5));
    assert_eq!(s.dict().get(2), Some(7));
    assert_eq!(s.parse_len(), 10);
    assert_eq!(s.dict_total(), 12);
    assert_eq!(s.pi(), 22);
    assert_eq!(s.parses().len(), 10);
}

#[test]
fn conflict_inside_one_parse_is_reported() {
    let mut s = CumulativeParse::new();
    let bad = parse(&[1, 2, 1], &[5, 7, 9], (3, 3), (4, 4));
    assert_eq!(
        s.merge(&bad),
        Err(MergeError::InvariantViolation(Conflict { fingerprint: 1, recorded: 5, observed: 9 }))
    );
    assert!(s.dict().is_empty());
    assert_eq!(s.pi(), 0);
}

#[test]
fn first_conflict_in_order_is_the_one_reported() {
    let mut s = CumulativeParse::new();
    let bad = parse(&[1, 2], &[6, 8], (1, 5), (2, 7));
    assert_eq!(
        s.merge(&bad),
        Err(MergeError::InvariantViolation(Conflict { fingerprint: 1, recorded: 5, observed: 6 }))
    );
    let bad = parse(&[], &[], (1, 5), (1, 4));
    assert_eq!(
        s.merge(&bad),
        Err(MergeError::InvariantViolation(Conflict { fingerprint: 1, recorded: 5, observed: 4 }))
    );
}

#[test]
fn profiler_is_unchanged_by_a_failed_merge() {
    let mut p = Profiler::new(false);
    assert_eq!(p.merge(&file_a()), Ok(()));
    assert_eq!(p.end_file(), 22);
    let bad = parse(&[30], &[1], (1, 6), (31, 1));
    assert!(matches!(p.merge(&bad), Err(MergeError::InvariantViolation(_))));
    assert_eq!(p.state().pi(), 22);
    assert_eq!(p.state().dict().len(), 2);
    assert_eq!(p.end_file(), 22);
}

#[test]
fn dictionary_observes_entries() {
    let mut d = PhraseDictionary::new();
    assert!(d.is_empty());
    assert_eq!(d.observe(4, 9), Observation::Added);
    assert_eq!(d.observe(4, 9), Observation::Known);
    assert_eq!(
        d.observe(4, 8),
        Observation::Conflicting(Conflict { fingerprint: 4, recorded: 9, observed: 8 })
    );
    assert_eq!(d.get(4), Some(9));
    assert_eq!(d.get(5), None);
    assert!(d.contains(4));
    assert!(!d.contains(5));
    assert_eq!(d.observe(5, 1), Observation::Added);
    assert_eq!(d.len(), 2);
    assert!(!d.is_empty());
}
