//! The names of the cities of a path, for a model whose cities have names.

use vstd::prelude::*;
use std::collections::HashMap;

verus! {

broadcast use vstd::std_specs::hash::group_hash_axioms;

/// The name of each city of `path`, in order. Every city of the path must
/// have a name (looking up a missing one is an error of the caller).
pub fn path_city_names(path: &Vec<usize>, names: &HashMap<usize, String>) -> (res: Vec<String>)
    requires
        forall|i: int| 0 <= i < path@.len() ==> names@.contains_key(#[trigger] path@[i]),
    ensures
        res@.len() == path@.len(),
        forall|i: int| 0 <= i < path@.len() ==> #[trigger] res@[i]@ == names@[path@[i]]@,
{
    let mut res: Vec<String> = Vec::new();
    let mut i: usize = 0;
    while i < path.len()
        invariant
            i <= path@.len(),
            forall|k: int| 0 <= k < path@.len() ==> names@.contains_key(#[trigger] path@[k]),
            res@.len() == i,
            forall|k: int| 0 <= k < i ==> #[trigger] res@[k]@ == names@[path@[k]]@,
        decreases path@.len() - i,
    {
        let city = path[i];
        assert(names@.contains_key(path@[i as int]));
        match names.get(&city) {
            Some(name) => {
                res.push(name.clone());
            },
            None => {
                assert(false);
            },
        }
        i = i + 1;
    }
    res
}

} // verus!
