//! Comparison of two versions.

use vstd::prelude::*;
use std::cmp::Ordering;
use crate::version::{is_version, rank_tuples, split_ver, tuple_less, version_tuple};

verus! {

/// Compares two versions number by number: the first number that differs
/// decides, and a version that is a proper prefix of another is the smaller.
pub fn compare_versions(v1: &str, v2: &str) -> (r: Ordering)
    requires
        is_version(v1@),
        is_version(v2@),
    ensures
        r == Ordering::Less <==> tuple_less(version_tuple(v1@), version_tuple(v2@)),
        r == Ordering::Equal <==> version_tuple(v1@) == version_tuple(v2@),
        r == Ordering::Greater <==> tuple_less(version_tuple(v2@), version_tuple(v1@)),
{
    let t1 = split_ver(v1);
    let t2 = split_ver(v2);
    let rank = rank_tuples(&t1, &t2);
    if rank == -1 {
        Ordering::Less
    } else if rank == 0 {
        Ordering::Equal
    } else {
        Ordering::Greater
    }
}

/// Whether the version `v1` is greater than the version `v2`.
pub fn version_greater(v1: &str, v2: &str) -> (r: bool)
    requires
        is_version(v1@),
        is_version(v2@),
    ensures
        r == tuple_less(version_tuple(v2@), version_tuple(v1@)),
{
    match compare_versions(v1, v2) {
        Ordering::Greater => true,
        _ => false,
    }
}

} // verus!
