//! Which files of a directory belong to the corpus: those whose name ends in
//! a sequence-file suffix, with or without the compression suffix, in any
//! letter case.

use vstd::prelude::*;
use vstd::string::StringSliceAdditionalSpecFns;

verus! {

/// The lower-case form of an ASCII letter; any other byte as it is.
pub open spec fn ascii_lower(b: u8) -> u8 {
    if 65 <= b <= 90 {
        (b + 32) as u8
    } else {
        b
    }
}

/// `name` ends in `suffix`, letter case aside. `suffix` is in lower case.
pub open spec fn ends_with_ignoring_case(name: Seq<u8>, suffix: Seq<u8>) -> bool {
    &&& suffix.len() <= name.len()
    &&& forall|i: int|
        0 <= i < suffix.len() ==> ascii_lower(#[trigger] name[name.len() - suffix.len() + i])
            == suffix[i]
}

/// The suffix `fa`.
pub open spec fn suffix_fa() -> Seq<u8> {
    seq![102u8, 97u8]
}

/// The suffix `fna`.
pub open spec fn suffix_fna() -> Seq<u8> {
    seq![102u8, 110u8, 97u8]
}

/// The compression suffix `.gz`.
pub open spec fn suffix_gz() -> Seq<u8> {
    seq![46u8, 103u8, 122u8]
}

/// A name is that of a sequence file when it ends in `fa` or `fna`, or in
/// one of the two followed by `.gz`, in any letter case.
pub open spec fn is_sequence_file(name: Seq<u8>) -> bool {
    ||| ends_with_ignoring_case(name, suffix_fa())
    ||| ends_with_ignoring_case(name, suffix_fna())
    ||| ends_with_ignoring_case(name, suffix_fa() + suffix_gz())
    ||| ends_with_ignoring_case(name, suffix_fna() + suffix_gz())
}

/// Lowers an ASCII letter.
fn lower(b: u8) -> (r: u8)
    ensures
        r == ascii_lower(b),
{
    if 65 <= b && b <= 90 {
        b + 32
    } else {
        b
    }
}

/// Whether `name` ends in the lower-case `suffix`, letter case aside.
fn ends_with(name: &[u8], suffix: &[u8]) -> (r: bool)
    ensures
        r == ends_with_ignoring_case(name@, suffix@),
{
    let n = name.len();
    let m = suffix.len();
    if m > n {
        return false;
    }
    let start = n - m;
    let mut i: usize = 0;
    while i < m
        invariant
            i <= m,
            m == suffix@.len(),
            n == name@.len(),
            start == n - m,
            forall|k: int| 0 <= k < i ==> ascii_lower(#[trigger] name@[start + k]) == suffix@[k],
        decreases m - i,
    {
        if lower(name[start + i]) != suffix[i] {
            assert(ascii_lower(name@[name@.len() - suffix@.len() + i]) != suffix@[i as int]);
            return false;
        }
        i = i + 1;
    }
    true
}

/// Whether a file of this name belongs to the corpus.
pub fn is_sequence_file_name(name: &str) -> (r: bool)
    ensures
        r == is_sequence_file(name.spec_bytes()),
{
    let bytes = name.as_bytes();
    let fa: [u8; 2] = [102, 97];
    let fna: [u8; 3] = [102, 110, 97];
    let fa_gz: [u8; 5] = [102, 97, 46, 103, 122];
    let fna_gz: [u8; 6] = [102, 110, 97, 46, 103, 122];
    proof {
        assert(fa@ =~= suffix_fa());
        assert(fna@ =~= suffix_fna());
        assert(fa_gz@ =~= suffix_fa() + suffix_gz());
        assert(fna_gz@ =~= suffix_fna() + suffix_gz());
    }
    ends_with(bytes, fa.as_slice()) || ends_with(bytes, fna.as_slice()) || ends_with(
        bytes,
        fa_gz.as_slice(),
    ) || ends_with(bytes, fna_gz.as_slice())
}

} // verus!
