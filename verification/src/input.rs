//! What the result list shows for a query.

use vstd::prelude::*;

use crate::entry::{entry_views, program_entry, Entry, EntryView, Mode};
use crate::run::{get_run_entries, lemma_run_entries_are_the_matching_files, run_entries, PathEntry};

verus! {

/// The entries one mode gives for `query`: the desktop applications that the
/// search gave (`drun`), or the programs of `PATH` whose name starts with the
/// query.
pub open spec fn mode_entries(mode: Mode, query: Seq<char>, drun: Seq<EntryView>, files: Seq<PathEntry>) -> Seq<EntryView> {
    match mode {
        Mode::Drun => drun,
        Mode::Run => run_entries(files, query),
        Mode::Custom(_) => Seq::empty(),
    }
}

/// The entries shown for `query`: none for an empty query; otherwise those of
/// each mode in turn, in the order the modes were given.
pub open spec fn shown_entries(query: Seq<char>, modes: Seq<Mode>, drun: Seq<EntryView>, files: Seq<PathEntry>) -> Seq<EntryView> {
    if query.len() == 0 {
        Seq::empty()
    } else {
        modes.map_values(|m: Mode| mode_entries(m, query, drun, files)).flatten()
    }
}

/// An empty query shows nothing, whatever the modes.
pub proof fn lemma_empty_query_shows_nothing(modes: Seq<Mode>, drun: Seq<EntryView>, files: Seq<PathEntry>)
    ensures
        shown_entries(Seq::empty(), modes, drun, files) == Seq::<EntryView>::empty(),
{
}

/// For a query that is not empty, no modes show nothing, and one more mode
/// adds its own entries after those of the modes before it: the search's
/// applications for `Drun`, the programs of `PATH` whose name starts with the
/// query for `Run`.
pub proof fn lemma_modes_add_in_order(
    query: Seq<char>,
    modes: Seq<Mode>,
    mode: Mode,
    drun: Seq<EntryView>,
    files: Seq<PathEntry>,
)
    requires
        query.len() > 0,
    ensures
        shown_entries(query, Seq::empty(), drun, files) == Seq::<EntryView>::empty(),
        shown_entries(query, modes.push(mode), drun, files) == shown_entries(query, modes, drun, files) + match mode {
            Mode::Drun => drun,
            Mode::Run => run_entries(files, query),
            Mode::Custom(_) => Seq::<EntryView>::empty(),
        },
{
    let f = |m: Mode| mode_entries(m, query, drun, files);
    assert(Seq::<Mode>::empty().map_values(f) =~= Seq::<Seq<EntryView>>::empty());
    assert(modes.push(mode).map_values(f) =~= modes.map_values(f).push(f(mode)));
    modes.map_values(f).lemma_flatten_push(f(mode));
}

/// For a query that is not empty, a `Run` mode shows every program of `PATH`
/// whose name starts with the query, and a `Drun` mode every application the
/// search gave.
pub proof fn lemma_modes_show_their_entries(
    query: Seq<char>,
    modes: Seq<Mode>,
    drun: Seq<EntryView>,
    files: Seq<PathEntry>,
    k: int,
)
    requires
        query.len() > 0,
        0 <= k < modes.len(),
    ensures
        modes[k] is Run ==> forall|i: int| 0 <= i < files.len() && query.is_prefix_of(#[trigger] files[i].name@)
            ==> shown_entries(query, modes, drun, files).contains(program_entry(files[i].name@, files[i].path@)),
        modes[k] is Drun ==> forall|j: int| 0 <= j < drun.len()
            ==> shown_entries(query, modes, drun, files).contains(#[trigger] drun[j]),
    decreases modes.len(),
{
    let rest = modes.drop_last();
    let last = modes.last();
    assert(modes =~= rest.push(last));
    lemma_modes_add_in_order(query, rest, last, drun, files);
    let before = shown_entries(query, rest, drun, files);
    let added = match last {
        Mode::Drun => drun,
        Mode::Run => run_entries(files, query),
        Mode::Custom(_) => Seq::<EntryView>::empty(),
    };
    let all = shown_entries(query, modes, drun, files);
    if k < rest.len() {
        assert(rest[k] == modes[k]);
        lemma_modes_show_their_entries(query, rest, drun, files, k);
        assert forall|e: EntryView| before.contains(e) implies all.contains(e) by {
            let p = choose|p: int| 0 <= p < before.len() && before[p] == e;
            assert(all[p] == e);
        }
    } else {
        assert(last == modes[k]);
        assert forall|e: EntryView| added.contains(e) implies all.contains(e) by {
            let p = choose|p: int| 0 <= p < added.len() && added[p] == e;
            assert(all[before.len() + p] == e);
        }
        if last is Run {
            lemma_run_entries_are_the_matching_files(files, query);
        }
        if last is Drun {
            assert forall|j: int| 0 <= j < drun.len() implies all.contains(#[trigger] drun[j]) by {
                assert(added.contains(drun[j]) ) by { assert(added[j] == drun[j]); }
            }
        }
    }
}

/// The entries to show once the query reads `query`. `drun_entries` are the
/// entries that the desktop-application search gives for this query (see
/// `get_drun_entries`); they are used once for each `Drun` among `modes`.
/// `path_entries` are the files of the folders of `PATH`.
/// A mode of the user's own is not supported: it is refused for a query
/// that is not empty.
pub fn handle_input(query: &str, modes: &Vec<Mode>, drun_entries: &Vec<Entry>, path_entries: &Vec<PathEntry>) -> (entries: Vec<Entry>)
    requires
        query@.len() > 0 ==> forall|i: int| 0 <= i < modes@.len() ==> !(#[trigger] modes@[i] is Custom),
    ensures
        entry_views(entries@) == shown_entries(query@, modes@, entry_views(drun_entries@), path_entries@),
        query@.len() == 0 ==> entries@.len() == 0,
        query@.len() > 0 ==> entry_views(entries@) == modes@.map_values(
            |m: Mode| mode_entries(m, query@, entry_views(drun_entries@), path_entries@),
        ).flatten(),
        query@.len() > 0 ==> forall|k: int, i: int|
            0 <= k < modes@.len() && #[trigger] modes@[k] is Run && 0 <= i < path_entries@.len()
                && query@.is_prefix_of(#[trigger] path_entries@[i].name@)
                ==> entry_views(entries@).contains(program_entry(path_entries@[i].name@, path_entries@[i].path@)),
        (forall|i: int| 0 <= i < drun_entries@.len() ==> (#[trigger] drun_entries@[i]).wf())
            ==> (forall|i: int| 0 <= i < entries@.len() ==> (#[trigger] entries@[i]).wf()),
{
    let mut entries: Vec<Entry> = Vec::new();
    if query.is_empty() {
        assert(entry_views(entries@) =~= Seq::<EntryView>::empty());
        return entries;
    }
    let ghost drun = entry_views(drun_entries@);
    let ghost f = |m: Mode| mode_entries(m, query@, drun, path_entries@);
    let ghost drun_wf = forall|i: int| 0 <= i < drun_entries@.len() ==> (#[trigger] drun_entries@[i]).wf();
    let mut m: usize = 0;
    while m < modes.len()
        invariant
            query@.len() > 0,
            forall|i: int| 0 <= i < modes@.len() ==> !(#[trigger] modes@[i] is Custom),
            m <= modes.len(),
            drun == entry_views(drun_entries@),
            f == (|m: Mode| mode_entries(m, query@, drun, path_entries@)),
            drun_wf == (forall|i: int| 0 <= i < drun_entries@.len() ==> (#[trigger] drun_entries@[i]).wf()),
            entry_views(entries@) == modes@.subrange(0, m as int).map_values(f).flatten(),
            drun_wf ==> (forall|i: int| 0 <= i < entries@.len() ==> (#[trigger] entries@[i]).wf()),
        decreases modes.len() - m,
    {
        let ghost before = entries@;
        let ghost done = modes@.subrange(0, m as int);
        proof {
            assert(modes@.subrange(0, (m + 1) as int) =~= done.push(modes@[m as int]));
            assert(done.push(modes@[m as int]).map_values(f) =~= done.map_values(f).push(f(modes@[m as int])));
            done.map_values(f).lemma_flatten_push(f(modes@[m as int]));
        }
        match &modes[m] {
            Mode::Drun => {
                let mut k: usize = 0;
                while k < drun_entries.len()
                    invariant
                        k <= drun_entries.len(),
                        drun == entry_views(drun_entries@),
                        drun_wf == (forall|i: int| 0 <= i < drun_entries@.len() ==> (#[trigger] drun_entries@[i]).wf()),
                        entry_views(entries@) == entry_views(before) + drun.subrange(0, k as int),
                        drun_wf ==> (forall|i: int| 0 <= i < entries@.len() ==> (#[trigger] entries@[i]).wf()),
                    decreases drun_entries.len() - k,
                {
                    let ghost prev = entries@;
                    let copy = drun_entries[k].duplicate();
                    entries.push(copy);
                    proof {
                        assert(entry_views(entries@) =~= entry_views(prev).push(drun[k as int]));
                        assert(drun.subrange(0, (k + 1) as int) =~= drun.subrange(0, k as int).push(drun[k as int]));
                        if drun_wf {
                            assert(drun_entries@[k as int].wf());
                        }
                    }
                    k = k + 1;
                }
                assert(drun.subrange(0, drun.len() as int) =~= drun);
            },
            Mode::Run => {
                let mut found = get_run_entries(path_entries, query);
                let ghost found_views = entry_views(found@);
                let ghost found_seq = found@;
                entries.append(&mut found);
                proof {
                    assert(entries@ =~= before + found_seq);
                    assert(entry_views(entries@) =~= entry_views(before) + found_views);
                    assert forall|i: int| 0 <= i < entries@.len() && drun_wf implies (#[trigger] entries@[i]).wf() by {
                        if i >= before.len() {
                            assert(entries@[i] == found_seq[i - before.len()]);
                        }
                    }
                }
            },
            Mode::Custom(_) => {
                assert(false);
            },
        }
        m = m + 1;
    }
    assert(modes@.subrange(0, modes@.len() as int) =~= modes@);
    proof {
        assert forall|k: int, i: int|
            0 <= k < modes@.len() && #[trigger] modes@[k] is Run && 0 <= i < path_entries@.len()
                && query@.is_prefix_of(#[trigger] path_entries@[i].name@)
                implies entry_views(entries@).contains(program_entry(path_entries@[i].name@, path_entries@[i].path@)) by {
            lemma_modes_show_their_entries(query@, modes@, drun, path_entries@, k);
        }
    }
    entries
}

} // verus!
