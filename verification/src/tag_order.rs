//! The order in which the versions of the tags on one commit are tried.

use std::cmp::Ordering;
use vstd::prelude::*;
use crate::version::{parse, version_of};

verus! {

/// How two version strings compare when the newest is to come first.
///
/// A newer version comes before an older one. A text that is no version
/// comes before every version, and two such texts tie.
pub open spec fn newest_first(a: Seq<char>, b: Seq<char>) -> Ordering {
    match (version_of(a), version_of(b)) {
        (Some(x), Some(y)) => if x.before(y) {
            Ordering::Greater
        } else if y.before(x) {
            Ordering::Less
        } else {
            Ordering::Equal
        },
        (Some(_), None) => Ordering::Greater,
        (None, Some(_)) => Ordering::Less,
        (None, None) => Ordering::Equal,
    }
}

/// Executable form of [`newest_first`].
pub fn version_sort(a: &String, b: &String) -> (r: Ordering)
    ensures
        r == newest_first(a@, b@),
{
    match (parse(a.as_str()), parse(b.as_str())) {
        (Some(x), Some(y)) => {
            if x.is_older_than(&y) {
                Ordering::Greater
            } else if y.is_older_than(&x) {
                Ordering::Less
            } else {
                Ordering::Equal
            }
        },
        (Some(_), None) => Ordering::Greater,
        (None, Some(_)) => Ordering::Less,
        (None, None) => Ordering::Equal,
    }
}

} // verus!
