//! What the command line asks for: the comma-separated list of modes.

use vstd::prelude::*;

use crate::entry::Mode;
use crate::text::{lemma_split_concat, lemma_split_plain, same_text, split_at_sep, split_on, views_of};

verus! {

/// The mode a name on the command line stands for: `drun` and `run`; other
/// names stand for none.
pub open spec fn mode_named(name: Seq<char>) -> Option<Mode> {
    if name == "drun"@ {
        Some(Mode::Drun)
    } else if name == "run"@ {
        Some(Mode::Run)
    } else {
        None
    }
}

/// The mode that `name` stands for, if any.
pub fn parse_mode(name: &str) -> (mode: Option<Mode>)
    ensures
        mode == mode_named(name@),
{
    if same_text(name, "drun") {
        Some(Mode::Drun)
    } else if same_text(name, "run") {
        Some(Mode::Run)
    } else {
        None
    }
}

/// What the launcher does on start.
#[derive(Debug)]
pub enum Startup {
    /// Print the configuration and quit.
    DumpConfig,
    /// Open the window with these modes.
    Launch(Vec<Mode>),
}

/// The names in the list of modes given on the command line.
pub open spec fn mode_names(modes_arg: Seq<char>) -> Seq<Seq<char>> {
    split_at_sep(modes_arg, ',')
}

/// What the list of modes asks for: where one of its names is `dump_config`,
/// printing the configuration; otherwise the window, with the modes that the
/// names stand for, in order, names that stand for none left out.
pub open spec fn startup_for(modes_arg: Seq<char>, startup: Startup) -> bool {
    let names = mode_names(modes_arg);
    if names.contains("dump_config"@) {
        startup is DumpConfig
    } else {
        startup matches Startup::Launch(modes) && modes@ == names.filter_map(|n: Seq<char>| mode_named(n))
    }
}

proof fn lemma_filter_map_concat(x: Seq<Seq<char>>, y: Seq<Seq<char>>, f: spec_fn(Seq<char>) -> Option<Mode>)
    ensures
        (x + y).filter_map(f) == x.filter_map(f) + y.filter_map(f),
    decreases y.len(),
{
    if y.len() == 0 {
        assert(x + y =~= x);
        assert(x.filter_map(f) + y.filter_map(f) =~= x.filter_map(f));
    } else {
        let y0 = y.drop_last();
        lemma_filter_map_concat(x, y0, f);
        assert((x + y).drop_last() =~= x + y0);
        assert((x + y).last() == y.last());
        match f(y.last()) {
            Some(m) => {
                assert(x.filter_map(f) + y0.filter_map(f) + seq![m] =~= x.filter_map(f) + (y0.filter_map(f) + seq![m]));
            },
            None => {},
        }
    }
}

/// A list of a single name: `dump_config` prints the configuration; `drun`
/// launches with the `drun` mode alone, `run` with the `run` mode alone, and
/// any other name with no mode.
pub proof fn lemma_single_name_startup(name: Seq<char>, start: Startup)
    requires
        !name.contains(','),
        startup_for(name, start),
    ensures
        name == "dump_config"@ ==> start is DumpConfig,
        name != "dump_config"@ ==> (start matches Startup::Launch(modes) && modes@ == if name == "drun"@ {
            seq![Mode::Drun]
        } else if name == "run"@ {
            seq![Mode::Run]
        } else {
            Seq::<Mode>::empty()
        }),
{
    lemma_split_plain(name, ',');
    let names = mode_names(name);
    assert(names == seq![name]);
    let f = |n: Seq<char>| mode_named(n);
    Seq::<Seq<char>>::lemma_filter_map_singleton(name, f);
    if name == "dump_config"@ {
        assert(names[0] == name);
        assert(names.contains("dump_config"@));
    } else {
        assert forall|k: int| 0 <= k < names.len() implies names[k] != "dump_config"@ by {
            assert(names[k] == name);
        }
        assert(!names.contains("dump_config"@));
    }
}

/// Two lists joined with a comma: the configuration is printed where either
/// list asks for it; otherwise the modes launched are those of the first list
/// followed by those of the second.
pub proof fn lemma_startup_concat(a: Seq<char>, b: Seq<char>, start: Startup, start_a: Startup, start_b: Startup)
    requires
        startup_for(a.push(',') + b, start),
        startup_for(a, start_a),
        startup_for(b, start_b),
    ensures
        start is DumpConfig <==> (start_a is DumpConfig || start_b is DumpConfig),
        start matches Startup::Launch(m) ==> (start_a matches Startup::Launch(ma) && start_b matches Startup::Launch(mb)
            && m@ == ma@ + mb@),
{
    lemma_split_concat(a, b, ',');
    let na = mode_names(a);
    let nb = mode_names(b);
    let n = mode_names(a.push(',') + b);
    assert(n == na + nb);
    let d = "dump_config"@;
    assert(n.contains(d) <==> (na.contains(d) || nb.contains(d))) by {
        if n.contains(d) {
            let k = choose|k: int| 0 <= k < n.len() && n[k] == d;
            if k < na.len() {
                assert(na[k] == d);
            } else {
                assert(nb[k - na.len()] == d);
            }
        }
        if na.contains(d) {
            let k = choose|k: int| 0 <= k < na.len() && na[k] == d;
            assert(n[k] == d);
        }
        if nb.contains(d) {
            let k = choose|k: int| 0 <= k < nb.len() && nb[k] == d;
            assert(n[na.len() + k] == d);
        }
    }
    lemma_filter_map_concat(na, nb, |s: Seq<char>| mode_named(s));
}

/// Reads the list of modes given on the command line.
pub fn startup(modes_arg: &str) -> (start: Startup)
    ensures
        startup_for(modes_arg@, start),
        mode_names(modes_arg@).contains("dump_config"@) <==> start is DumpConfig,
        !mode_names(modes_arg@).contains("dump_config"@) ==> (start matches Startup::Launch(modes)
            && modes@ == mode_names(modes_arg@).filter_map(|n: Seq<char>| mode_named(n))),
{
    let names = split_on(modes_arg, ',');
    let ghost views = views_of(names@);
    let mut i: usize = 0;
    while i < names.len()
        invariant
            i <= names.len(),
            views == views_of(names@),
            views == mode_names(modes_arg@),
            forall|k: int| 0 <= k < i ==> views[k] != "dump_config"@,
        decreases names.len() - i,
    {
        if same_text(names[i].as_str(), "dump_config") {
            assert(views[i as int] == "dump_config"@);
            return Startup::DumpConfig;
        }
        i = i + 1;
    }
    let ghost f = |n: Seq<char>| mode_named(n);
    let mut modes: Vec<Mode> = Vec::new();
    let mut j: usize = 0;
    while j < names.len()
        invariant
            j <= names.len(),
            views == views_of(names@),
            f == (|n: Seq<char>| mode_named(n)),
            modes@ == views.take(j as int).filter_map(f),
        decreases names.len() - j,
    {
        proof {
            views.lemma_filter_map_take_succ(f, j as int);
        }
        match parse_mode(names[j].as_str()) {
            Some(mode) => {
                let ghost prev = modes@;
                modes.push(mode);
                assert(modes@ =~= prev + seq![mode]);
            },
            None => {},
        }
        j = j + 1;
    }
    assert(views.take(views.len() as int) =~= views);
    Startup::Launch(modes)
}

} // verus!
