//! The cache of entries the user picked before. Its folder is known; storing
//! entries there is not written yet.

use vstd::prelude::*;

use crate::entry::Entry;
use crate::paths::{app_folder, app_folder_from, cache_home_name, opt_path};

verus! {

/// The folder of the launcher's cache, from the values of `XDG_CACHE_HOME`
/// and `HOME`: `$XDG_CACHE_HOME/tehda`, else `$HOME/.cache/tehda`, else none.
pub fn cache_folder_path(xdg_cache_home: Option<Vec<u8>>, home: Option<Vec<u8>>) -> (folder: Option<Vec<u8>>)
    ensures
        opt_path(folder) == app_folder(opt_path(xdg_cache_home), opt_path(home), cache_home_name()),
{
    let sub: Vec<u8> = vec![0x2eu8, 0x63, 0x61, 0x63, 0x68, 0x65];
    assert(sub@ == cache_home_name());
    app_folder_from(xdg_cache_home, home, sub.as_slice())
}

/// Records `entry` as picked. Nothing is stored yet: the entry is dropped.
pub fn add_entry_to_cache(entry: Entry) {
}

} // verus!
