use pfp_profile::corpus::is_sequence_file_name;
use pfp_profile::dispatch::select_entry_point;
use pfp_profile::{ConfigError, DispatchPolicy, EntryPoint, PoolOutcome};

#[test]
fn one_thread_or_none_is_sequential() {
    assert_eq!(select_entry_point(0), EntryPoint::Sequential);
    assert_eq!(select_entry_point(1), EntryPoint::Sequential);
}

#[test]
fn more_threads_are_parallel_with_that_many_workers() {
    assert_eq!(select_entry_point(2), EntryPoint::Parallel { workers: 2 });
    assert_eq!(select_entry_point(8), EntryPoint::Parallel { workers: 8 });
}

#[test]
fn explicit_budget_follows_the_pool() {
    let p = DispatchPolicy::with_explicit_budget(8, PoolOutcome::Sized).unwrap();
    assert_eq!(p.threads(), 8);
    assert_eq!(p.entry_point(), EntryPoint::Parallel { workers: 8 });
    assert_eq!(
        DispatchPolicy::with_explicit_budget(8, PoolOutcome::Refused),
        Err(ConfigError::PoolSizing)
    );
}

#[test]
fn default_budget_is_the_pool_size() {
    let p = DispatchPolicy::with_default_budget(1);
    assert_eq!(p.threads(), 1);
    assert_eq!(p.entry_point(), EntryPoint::Sequential);
    assert_eq!(DispatchPolicy::with_default_budget(4).entry_point(), EntryPoint::Parallel { workers: 4 });
}

#[test]
fn pool_is_sized_once() {
    let first = DispatchPolicy::configure(Some(2));
    if let Ok(p) = first {
        assert_eq!(p.threads(), 2);
        assert_eq!(DispatchPolicy::configure(None).unwrap().threads(), 2);
    }
    assert_eq!(DispatchPolicy::configure(Some(3)), Err(ConfigError::PoolSizing));
    assert!(DispatchPolicy::configure(None).is_ok());
}

#[test]
fn sequence_file_names_are_recognized() {
    for name in ["x.fa", "x.FA", "x.fa.gz", "x.FA.GZ", "x.fna", "x.fna.gz", "x.FNA.GZ", "fa", "fna"] {
        assert!(is_sequence_file_name(name), "{}", name);
    }
}

#[test]
fn sequence_file_names_are_recognized_in_any_case() {
    for name in ["x.Fa", "x.FNA", "x.Fna.Gz", "x.fA.gZ", "GENOME.FNA"] {
        assert!(is_sequence_file_name(name), "{}", name);
    }
}

#[test]
fn other_file_names_are_not() {
    for name in ["", "a", "x.txt", "x.fasta", "x.gz", "x.fa.bz2", "x.fq.gz", "x.fa ", "fa.gzz", "x.f\u{e4}"] {
        assert!(!is_sequence_file_name(name), "{}", name);
    }
}
