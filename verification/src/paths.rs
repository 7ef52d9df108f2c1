//! Paths as byte strings, joined the way `std::path::PathBuf::join` joins them
//! on Unix, and the folders the launcher keeps its files in.

use vstd::prelude::*;

verus! {

/// The bytes of a path that may be missing.
pub open spec fn opt_path(path: Option<Vec<u8>>) -> Option<Seq<u8>> {
    match path {
        Some(p) => Some(p@),
        None => None,
    }
}

/// The byte `/`, which separates the components of a path.
pub const SEPARATOR: u8 = 0x2f;

/// `path` starts at the root.
pub open spec fn is_absolute(path: Seq<u8>) -> bool {
    path.len() > 0 && path[0] == SEPARATOR
}

/// The path that joining `component` onto `base` gives: an absolute
/// `component` replaces `base`; otherwise a separator goes between the two
/// unless `base` is empty or already ends with one.
pub open spec fn joined(base: Seq<u8>, component: Seq<u8>) -> Seq<u8> {
    if is_absolute(component) {
        component
    } else if base.len() == 0 || base.last() == SEPARATOR {
        base + component
    } else {
        base.push(SEPARATOR) + component
    }
}

/// Joining a relative component keeps the base path in front and the
/// component at the end.
pub proof fn lemma_join_relative(base: Seq<u8>, component: Seq<u8>)
    requires
        !is_absolute(component),
    ensures
        base.is_prefix_of(joined(base, component)),
        component.is_suffix_of(joined(base, component)),
        base.len() == 0 || base.last() == SEPARATOR ==> joined(base, component).len() == base.len() + component.len(),
        base.len() > 0 && base.last() != SEPARATOR ==> joined(base, component).len() == base.len() + 1 + component.len()
            && joined(base, component)[base.len() as int] == SEPARATOR,
{
    let j = joined(base, component);
    assert(j.subrange(0, base.len() as int) =~= base);
    assert(j.subrange(j.len() - component.len(), j.len() as int) =~= component);
}

/// Joining an absolute component gives that component, whatever the base.
pub proof fn lemma_join_absolute(base: Seq<u8>, component: Seq<u8>)
    requires
        component.len() > 0,
        component[0] == SEPARATOR,
    ensures
        joined(base, component) == component,
{
}

/// Joins `component` onto `base`.
pub fn join_path(base: &Vec<u8>, component: &[u8]) -> (path: Vec<u8>)
    ensures
        path@ == joined(base@, component@),
{
    let mut path: Vec<u8> = Vec::new();
    let absolute = component.len() > 0 && component[0] == SEPARATOR;
    if !absolute {
        let mut i: usize = 0;
        while i < base.len()
            invariant
                i <= base.len(),
                path@ == base@.subrange(0, i as int),
            decreases base.len() - i,
        {
            path.push(base[i]);
            i = i + 1;
        }
        if base.len() > 0 && base[base.len() - 1] != SEPARATOR {
            path.push(SEPARATOR);
        }
    }
    let ghost prefix = path@;
    let mut j: usize = 0;
    while j < component.len()
        invariant
            j <= component@.len(),
            path@ == prefix + component@.subrange(0, j as int),
        decreases component@.len() - j,
    {
        path.push(component[j]);
        j = j + 1;
    }
    assert(component@.subrange(0, component@.len() as int) == component@);
    assert(base@.subrange(0, base@.len() as int) == base@);
    path
}

/// The name of the launcher's own folder, `tehda`.
pub open spec fn app_dir_name() -> Seq<u8> {
    seq![0x74u8, 0x65, 0x68, 0x64, 0x61]
}

/// The folder under the home folder that holds configuration, `.config`.
pub open spec fn config_home_name() -> Seq<u8> {
    seq![0x2eu8, 0x63, 0x6f, 0x6e, 0x66, 0x69, 0x67]
}

/// The folder under the home folder that holds caches, `.cache`.
pub open spec fn cache_home_name() -> Seq<u8> {
    seq![0x2eu8, 0x63, 0x61, 0x63, 0x68, 0x65]
}

/// The launcher's folder inside a base folder: `specific/tehda` where the
/// specific variable (such as `XDG_CONFIG_HOME`) is set, else
/// `home/home_subdir/tehda` where `HOME` is set, else none.
pub open spec fn app_folder(specific: Option<Seq<u8>>, home: Option<Seq<u8>>, home_subdir: Seq<u8>) -> Option<Seq<u8>> {
    match specific {
        Some(dir) => Some(joined(dir, app_dir_name())),
        None => match home {
            Some(h) => Some(joined(joined(h, home_subdir), app_dir_name())),
            None => None,
        },
    }
}

/// The launcher's folder, from the value of the specific variable and of
/// `HOME`.
pub(crate) fn app_folder_from(specific: Option<Vec<u8>>, home: Option<Vec<u8>>, home_subdir: &[u8]) -> (folder: Option<Vec<u8>>)
    ensures
        opt_path(folder) == app_folder(opt_path(specific), opt_path(home), home_subdir@),
{
    let app: Vec<u8> = vec![0x74u8, 0x65, 0x68, 0x64, 0x61];
    assert(app@ == app_dir_name());
    match specific {
        Some(dir) => Some(join_path(&dir, app.as_slice())),
        None => match home {
            Some(h) => {
                let base = join_path(&h, home_subdir);
                Some(join_path(&base, app.as_slice()))
            },
            None => None,
        },
    }
}

} // verus!
