//! The `run` mode: programs found in the folders of `PATH`, matched by the
//! start of their file name.

use vstd::prelude::*;

use crate::entry::{copy_bytes, entry_views, program_entry, Entry, EntryView};
use crate::text::{is_split_of, split_at_sep, split_on, starts_with, views_of};

verus! {

/// A file found in one of the folders of `PATH`.
#[derive(Debug)]
pub struct PathEntry {
    /// The file's name, as text.
    pub name: String,
    /// The file's full path.
    pub path: Vec<u8>,
}

/// The folders that a value of `PATH` lists: the value split at every `:`.
pub fn path_directories(path_var: &str) -> (dirs: Vec<String>)
    ensures
        views_of(dirs@) == split_at_sep(path_var@, ':'),
        is_split_of(views_of(dirs@), path_var@, ':'),
{
    split_on(path_var, ':')
}

/// The file's name starts with the query.
pub open spec fn matches_query(query: Seq<char>, file: PathEntry) -> bool {
    query.is_prefix_of(file.name@)
}

/// The entries of the `run` mode for `query`: one for each file, in order,
/// whose name starts with `query`, showing that name and running that file.
pub open spec fn run_entries(path_entries: Seq<PathEntry>, query: Seq<char>) -> Seq<EntryView> {
    path_entries.filter(|f: PathEntry| matches_query(query, f)).map_values(
        |f: PathEntry| program_entry(f.name@, f.path@),
    )
}

/// No files show no entries.
pub proof fn lemma_run_entries_empty(query: Seq<char>)
    ensures
        run_entries(Seq::empty(), query) == Seq::<EntryView>::empty(),
{
    reveal(Seq::filter);
    assert(run_entries(Seq::empty(), query) =~= Seq::<EntryView>::empty());
}

/// One more file adds one entry at the end, showing its name and running it,
/// exactly when its name starts with the query (a name equal to the query
/// included); otherwise the entries stay as they were.
pub proof fn lemma_run_entries_push(files: Seq<PathEntry>, file: PathEntry, query: Seq<char>)
    ensures
        run_entries(files.push(file), query) == if query.is_prefix_of(file.name@) {
            run_entries(files, query).push(program_entry(file.name@, file.path@))
        } else {
            run_entries(files, query)
        },
{
    let pred = |f: PathEntry| matches_query(query, f);
    let make = |f: PathEntry| program_entry(f.name@, f.path@);
    files.lemma_filter_push(file, pred);
    if pred(file) {
        assert(files.filter(pred).push(file).map_values(make) =~= files.filter(pred).map_values(make).push(make(file)));
    }
}

/// Every file whose name starts with the query gets an entry showing its name
/// and running it, and every entry is one of those.
pub proof fn lemma_run_entries_are_the_matching_files(files: Seq<PathEntry>, query: Seq<char>)
    ensures
        forall|i: int| 0 <= i < files.len() && query.is_prefix_of(#[trigger] files[i].name@)
            ==> run_entries(files, query).contains(program_entry(files[i].name@, files[i].path@)),
        forall|e: EntryView| #[trigger] run_entries(files, query).contains(e) ==> exists|i: int|
            0 <= i < files.len() && query.is_prefix_of(files[i].name@)
                && e == program_entry(files[i].name@, files[i].path@),
    decreases files.len(),
{
    if files.len() == 0 {
        lemma_run_entries_empty(query);
    } else {
        let rest = files.drop_last();
        let last = files.last();
        assert(files =~= rest.push(last));
        lemma_run_entries_are_the_matching_files(rest, query);
        lemma_run_entries_push(rest, last, query);
        let before = run_entries(rest, query);
        let after = run_entries(files, query);
        assert forall|i: int| 0 <= i < files.len() && query.is_prefix_of(#[trigger] files[i].name@)
            implies after.contains(program_entry(files[i].name@, files[i].path@)) by {
            if i < rest.len() {
                assert(rest[i] == files[i]);
                let e = program_entry(files[i].name@, files[i].path@);
                assert(before.contains(e));
                let k = choose|k: int| 0 <= k < before.len() && before[k] == e;
                assert(after[k] == e);
            } else {
                assert(after[after.len() - 1] == program_entry(files[i].name@, files[i].path@));
            }
        }
        assert forall|e: EntryView| #[trigger] after.contains(e) implies exists|i: int|
            0 <= i < files.len() && query.is_prefix_of(files[i].name@)
                && e == program_entry(files[i].name@, files[i].path@) by {
            let k = choose|k: int| 0 <= k < after.len() && after[k] == e;
            if k < before.len() {
                assert(before[k] == e);
                assert(before.contains(e));
                let i = choose|i: int| 0 <= i < rest.len() && query.is_prefix_of(rest[i].name@)
                    && e == program_entry(rest[i].name@, rest[i].path@);
                assert(files[i] == rest[i]);
            } else {
                assert(files[files.len() - 1] == last);
            }
        }
    }
}

/// Typing more never brings up a new program: where `shorter` is a prefix of
/// `longer`, every entry shown for `longer` is shown for `shorter` too.
pub proof fn lemma_longer_query_narrows(path_entries: Seq<PathEntry>, shorter: Seq<char>, longer: Seq<char>)
    requires
        shorter.is_prefix_of(longer),
    ensures
        forall|e: EntryView| run_entries(path_entries, longer).contains(e) ==> run_entries(path_entries, shorter).contains(e),
{
    let p_long = |f: PathEntry| matches_query(longer, f);
    let p_short = |f: PathEntry| matches_query(shorter, f);
    let make = |f: PathEntry| program_entry(f.name@, f.path@);
    assert forall|e: EntryView| run_entries(path_entries, longer).contains(e) implies run_entries(path_entries, shorter).contains(e) by {
        let long = path_entries.filter(p_long);
        let k = choose|k: int| 0 <= k < long.map_values(make).len() && long.map_values(make)[k] == e;
        let f = long[k];
        assert(long.contains(f)) by {
            assert(long[k] == f);
        }
        path_entries.lemma_filter_contains_rev(p_long, f);
        path_entries.lemma_filter_pred(p_long, k);
        assert(f.name@.subrange(0, longer.len() as int).subrange(0, shorter.len() as int) =~= f.name@.subrange(0, shorter.len() as int));
        assert(p_short(f));
        let i = choose|i: int| 0 <= i < path_entries.len() && path_entries[i] == f;
        path_entries.lemma_filter_contains(p_short, i);
        let short = path_entries.filter(p_short);
        assert(short.contains(f));
        let j = choose|j: int| 0 <= j < short.len() && short[j] == f;
        assert(short.map_values(make)[j] == e);
    }
}

/// The entries of the `run` mode for `query`, from the files of `PATH`.
pub fn get_run_entries(path_entries: &Vec<PathEntry>, query: &str) -> (entries: Vec<Entry>)
    ensures
        entry_views(entries@) == run_entries(path_entries@, query@),
        forall|i: int| 0 <= i < path_entries@.len() && query@.is_prefix_of(#[trigger] path_entries@[i].name@)
            ==> entry_views(entries@).contains(program_entry(path_entries@[i].name@, path_entries@[i].path@)),
        forall|e: EntryView| #[trigger] entry_views(entries@).contains(e) ==> exists|i: int|
            0 <= i < path_entries@.len() && query@.is_prefix_of(path_entries@[i].name@)
                && e == program_entry(path_entries@[i].name@, path_entries@[i].path@),
        forall|i: int| 0 <= i < entries@.len() ==> (#[trigger] entries@[i]).wf(),
{
    let ghost pred = |f: PathEntry| matches_query(query@, f);
    let ghost make = |f: PathEntry| program_entry(f.name@, f.path@);
    let mut entries: Vec<Entry> = Vec::new();
    let mut i: usize = 0;
    while i < path_entries.len()
        invariant
            i <= path_entries.len(),
            pred == (|f: PathEntry| matches_query(query@, f)),
            make == (|f: PathEntry| program_entry(f.name@, f.path@)),
            entry_views(entries@) == path_entries@.subrange(0, i as int).filter(pred).map_values(make),
            forall|k: int| 0 <= k < entries@.len() ==> (#[trigger] entries@[k]).wf(),
        decreases path_entries.len() - i,
    {
        let file = &path_entries[i];
        let ghost before = path_entries@.subrange(0, i as int);
        proof {
            assert(path_entries@.subrange(0, (i + 1) as int) =~= before.push(*file));
            before.lemma_filter_push(*file, pred);
        }
        if starts_with(file.name.as_str(), query) {
            let entry = Entry::for_program(file.name.clone(), copy_bytes(&file.path));
            let ghost old_entries = entries@;
            entries.push(entry);
            proof {
                assert(entry_views(entries@) =~= entry_views(old_entries).push(make(*file)));
                assert(before.filter(pred).push(*file).map_values(make)
                    =~= before.filter(pred).map_values(make).push(make(*file)));
            }
        }
        i = i + 1;
    }
    assert(path_entries@.subrange(0, path_entries@.len() as int) =~= path_entries@);
    proof {
        lemma_run_entries_are_the_matching_files(path_entries@, query@);
        assert forall|e: EntryView| #[trigger] entry_views(entries@).contains(e) implies exists|i: int|
            0 <= i < path_entries@.len() && query@.is_prefix_of(path_entries@[i].name@)
                && e == program_entry(path_entries@[i].name@, path_entries@[i].path@) by {
            assert(run_entries(path_entries@, query@).contains(e));
        }
    }
    entries
}

} // verus!
