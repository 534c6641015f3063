//! Path helpers shared by the indexer and the manager.
use vstd::prelude::*;

use crate::errors::{CoffeeError, CODE_GENERIC};
use crate::text::{after_last_slash, last_slash_index, spec_after_last_slash};

verus! {

/// From the path of a file inside a plugin directory, derive the
/// directory's path and the plugin name that directory carries: the
/// parent path and its last segment.
pub fn get_plugin_info_from_path(path: &str) -> (r: Result<(String, String), CoffeeError>)
    ensures
        r is Ok <==> (exists|i: int| 0 <= i < path@.len() && path@[i] == '/'),
        r is Ok ==> (exists|i: int|
            {
                &&& 0 <= i < path@.len()
                &&& path@[i] == '/'
                &&& (forall|j: int| i < j < path@.len() ==> path@[j] != '/')
                &&& (#[trigger] r.unwrap().0)@ == path@.subrange(0, i)
                &&& r.unwrap().1@ == spec_after_last_slash(path@.subrange(0, i))
            }),
        r is Err ==> r->Err_0.code == CODE_GENERIC,
{
    match last_slash_index(path) {
        Some(i) => {
            let parent = path.substring_char(0, i).to_owned();
            let name = after_last_slash(parent.as_str());
            proof {
                assert(0 <= i < path@.len() && path@[i as int] == '/');
            }
            Ok((parent, name))
        },
        None => Err(CoffeeError::new(CODE_GENERIC, "Incorrect path")),
    }
}

} // verus!
