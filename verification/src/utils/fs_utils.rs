//! Paths as lists of their components.

use vstd::prelude::*;
use crate::text::{str_equal, string_views};

verus! {

/// `base` is the beginning of `path`, component by component.
pub open spec fn is_path_prefix(base: Seq<Seq<char>>, path: Seq<Seq<char>>) -> bool {
    base.len() <= path.len() && path.subrange(0, base.len() as int) == base
}

/// What is left of `path` behind `base` where `path` begins with `base`,
/// and all of `path` where it does not.
pub open spec fn path_behind(path: Seq<Seq<char>>, base: Seq<Seq<char>>) -> Seq<Seq<char>> {
    if is_path_prefix(base, path) {
        path.subrange(base.len() as int, path.len() as int)
    } else {
        path
    }
}

fn starts_with_components(path: &Vec<String>, base: &Vec<String>) -> (b: bool)
    ensures
        b == is_path_prefix(string_views(base@), string_views(path@)),
{
    if base.len() > path.len() {
        return false;
    }
    let mut k: usize = 0;
    while k < base.len()
        invariant
            k <= base.len() <= path.len(),
            forall|j: int| 0 <= j < k ==> path@[j]@ == base@[j]@,
        decreases base.len() - k,
    {
        if !str_equal(path[k].as_str(), base[k].as_str()) {
            proof {
                let head = string_views(path@).subrange(0, base@.len() as int);
                assert(head[k as int] == path@[k as int]@);
                assert(string_views(base@)[k as int] == base@[k as int]@);
            }
            return false;
        }
        k += 1;
    }
    assert(string_views(path@).subrange(0, base@.len() as int) =~= string_views(base@));
    true
}

/// The components of `path` relative to `base`: those behind `base` where
/// `path` lies under it, all of them where it does not.
pub fn relative_path(path: &Vec<String>, base: &Vec<String>) -> (relative: Vec<String>)
    ensures
        string_views(relative@) == path_behind(string_views(path@), string_views(base@)),
{
    let from: usize = if starts_with_components(path, base) {
        base.len()
    } else {
        0
    };
    let mut relative: Vec<String> = Vec::new();
    let mut k: usize = from;
    while k < path.len()
        invariant
            from <= k <= path.len(),
            relative@.len() == k - from,
            forall|j: int| 0 <= j < k - from ==> (#[trigger] relative@[j])@ == path@[from + j]@,
        decreases path.len() - k,
    {
        let part = path[k].clone();
        relative.push(part);
        k += 1;
    }
    assert(string_views(relative@) =~= string_views(path@).subrange(
        from as int,
        path@.len() as int,
    ));
    assert(string_views(path@).subrange(0, path@.len() as int) =~= string_views(path@));
    relative
}

} // verus!
