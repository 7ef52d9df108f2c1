//! The `drun` mode: desktop applications that the system's application
//! search ranks for a query.

use vstd::prelude::*;

use crate::entry::{copy_bytes, entry_views, program_entry, Entry, EntryView};
use crate::text::views_of;

verus! {

/// What the launcher reads of a desktop application.
#[derive(Debug)]
pub struct AppInfo {
    /// The name to show.
    pub display_name: String,
    /// The program that launching it runs.
    pub executable: Vec<u8>,
}

/// The entry for a desktop application: its name, running its program.
pub open spec fn app_entry(info: AppInfo) -> EntryView {
    program_entry(info.display_name@, info.executable@)
}

/// The entry that shows a desktop application and runs its program.
pub fn info_to_entry(info: &AppInfo) -> (entry: Entry)
    ensures
        entry@ == app_entry(*info),
        entry.wf(),
{
    Entry::for_program(info.display_name.clone(), copy_bytes(&info.executable))
}

/// The ranks of a search result as text: one sequence of file names per rank.
pub open spec fn rank_views(ranks: Seq<Vec<String>>) -> Seq<Seq<Seq<char>>> {
    ranks.map_values(|rank: Vec<String>| views_of(rank@))
}

/// The file names of a search result, best rank first, each rank in the
/// order the search gave it.
pub fn search_filenames(ranks: &Vec<Vec<String>>) -> (names: Vec<String>)
    ensures
        views_of(names@) == rank_views(ranks@).flatten(),
{
    let mut names: Vec<String> = Vec::new();
    let mut r: usize = 0;
    while r < ranks.len()
        invariant
            r <= ranks.len(),
            views_of(names@) == rank_views(ranks@.subrange(0, r as int)).flatten(),
        decreases ranks.len() - r,
    {
        let rank = &ranks[r];
        let ghost before = names@;
        let mut k: usize = 0;
        while k < rank.len()
            invariant
                k <= rank.len(),
                views_of(names@) == views_of(before) + views_of(rank@.subrange(0, k as int)),
            decreases rank.len() - k,
        {
            let ghost prev = names@;
            names.push(rank[k].clone());
            proof {
                assert(views_of(names@) =~= views_of(prev).push(rank@[k as int]@));
                assert(views_of(rank@.subrange(0, (k + 1) as int))
                    =~= views_of(rank@.subrange(0, k as int)).push(rank@[k as int]@));
            }
            k = k + 1;
        }
        proof {
            assert(rank@.subrange(0, rank@.len() as int) =~= rank@);
            let done = ranks@.subrange(0, r as int);
            assert(ranks@.subrange(0, (r + 1) as int) =~= done.push(*rank));
            assert(rank_views(done.push(*rank)) =~= rank_views(done).push(views_of(rank@)));
            rank_views(done).lemma_flatten_push(views_of(rank@));
        }
        r = r + 1;
    }
    assert(ranks@.subrange(0, ranks@.len() as int) =~= ranks@);
    names
}

/// The entries of the `drun` mode: one for each file name that named a
/// desktop application, in the order of the names.
pub open spec fn drun_entries(infos: Seq<Option<AppInfo>>) -> Seq<EntryView> {
    infos.filter_map(
        |info: Option<AppInfo>|
            match info {
                Some(app) => Some(app_entry(app)),
                None => None,
            },
    )
}

/// No search results show no entries.
pub proof fn lemma_drun_entries_empty()
    ensures
        drun_entries(Seq::empty()) == Seq::<EntryView>::empty(),
{
}

/// One more search result adds, where it named an application, one entry at
/// the end that shows the application's name and runs its program, whatever
/// form that program's path takes; where it named none, nothing.
pub proof fn lemma_drun_entries_push(infos: Seq<Option<AppInfo>>, info: Option<AppInfo>)
    ensures
        drun_entries(infos.push(info)) == match info {
            Some(app) => drun_entries(infos).push(program_entry(app.display_name@, app.executable@)),
            None => drun_entries(infos),
        },
{
    assert(infos.push(info).drop_last() =~= infos);
    assert(infos.push(info).last() == info);
    match info {
        Some(app) => {
            assert(drun_entries(infos) + seq![app_entry(app)] =~= drun_entries(infos).push(app_entry(app)));
        },
        None => {},
    }
}

/// Where every search result named an application, there is exactly one
/// entry per result, in order, showing its name and running its program.
pub proof fn lemma_drun_entries_all_found(infos: Seq<Option<AppInfo>>)
    requires
        forall|i: int| 0 <= i < infos.len() ==> (#[trigger] infos[i]) is Some,
    ensures
        drun_entries(infos).len() == infos.len(),
        forall|i: int| 0 <= i < infos.len() ==> #[trigger] drun_entries(infos)[i] == program_entry(
            infos[i]->0.display_name@,
            infos[i]->0.executable@,
        ),
    decreases infos.len(),
{
    if infos.len() > 0 {
        let rest = infos.drop_last();
        assert(infos =~= rest.push(infos.last()));
        assert forall|i: int| 0 <= i < rest.len() implies (#[trigger] rest[i]) is Some by {
            assert(rest[i] == infos[i]);
        }
        lemma_drun_entries_all_found(rest);
        lemma_drun_entries_push(rest, infos.last());
        assert forall|i: int| 0 <= i < infos.len() implies #[trigger] drun_entries(infos)[i] == program_entry(
            infos[i]->0.display_name@,
            infos[i]->0.executable@,
        ) by {
            if i < rest.len() {
                assert(rest[i] == infos[i]);
                assert(drun_entries(rest)[i] == program_entry(rest[i]->0.display_name@, rest[i]->0.executable@));
            } else {
                assert(infos[i] == infos.last());
                assert(infos.last() is Some);
            }
        }
    }
}

/// The entries of the `drun` mode, from what the system said of each file
/// name of the search: the application, or nothing where the file named none.
pub fn get_drun_entries(infos: &Vec<Option<AppInfo>>) -> (entries: Vec<Entry>)
    ensures
        entry_views(entries@) == drun_entries(infos@),
        (forall|i: int| 0 <= i < infos@.len() ==> (#[trigger] infos@[i]) is Some) ==> {
            &&& entries@.len() == infos@.len()
            &&& forall|i: int| 0 <= i < infos@.len() ==> (#[trigger] entries@[i])@ == program_entry(
                infos@[i]->0.display_name@,
                infos@[i]->0.executable@,
            )
        },
        forall|i: int| 0 <= i < entries@.len() ==> (#[trigger] entries@[i]).wf(),
{
    let ghost f = |info: Option<AppInfo>|
        match info {
            Some(app) => Some(app_entry(app)),
            None => None,
        };
    let mut entries: Vec<Entry> = Vec::new();
    let mut i: usize = 0;
    while i < infos.len()
        invariant
            i <= infos.len(),
            f == (|info: Option<AppInfo>|
                match info {
                    Some(app) => Some(app_entry(app)),
                    None => None,
                }),
            entry_views(entries@) == infos@.take(i as int).filter_map(f),
            forall|k: int| 0 <= k < entries@.len() ==> (#[trigger] entries@[k]).wf(),
        decreases infos.len() - i,
    {
        proof {
            infos@.lemma_filter_map_take_succ(f, i as int);
        }
        match &infos[i] {
            Some(app) => {
                let ghost prev = entries@;
                let entry = info_to_entry(app);
                entries.push(entry);
                assert(entry_views(entries@) =~= entry_views(prev) + seq![app_entry(*app)]);
            },
            None => {},
        }
        i = i + 1;
    }
    assert(infos@.take(infos@.len() as int) =~= infos@);
    proof {
        if forall|i: int| 0 <= i < infos@.len() ==> (#[trigger] infos@[i]) is Some {
            lemma_drun_entries_all_found(infos@);
            assert forall|i: int| 0 <= i < infos@.len() implies (#[trigger] entries@[i])@ == program_entry(
                infos@[i]->0.display_name@,
                infos@[i]->0.executable@,
            ) by {
                assert(entry_views(entries@)[i] == entries@[i]@);
            }
        }
    }
    entries
}

} // verus!
