//! The launcher's configuration: its values and their defaults, where its
//! file lies, and the order in which the configuration and the style are
//! looked for.

use vstd::prelude::*;
use vstd::string::*;

use crate::paths::{
    app_dir_name, app_folder, app_folder_from, config_home_name, is_absolute, joined, lemma_join_relative, opt_path,
};
use crate::entry::copy_bytes;
use crate::text::same_text;

verus! {

/// The keys that act on the launcher, by name.
#[derive(Debug)]
pub struct Keybinds {
    /// The key that closes the launcher.
    pub quit: String,
    /// The key that opens an entry's alternate actions.
    pub open_alternate_actions: String,
}

/// The launcher's configuration.
#[derive(Debug)]
pub struct Config {
    /// The window's width.
    pub width: i32,
    /// The window's height.
    pub height: i32,
    /// The keys that act on the launcher.
    pub keybinds: Keybinds,
}

/// Keybinds as plain values.
pub struct KeybindsView {
    pub quit: Seq<char>,
    pub open_alternate_actions: Seq<char>,
}

/// A configuration as plain values.
pub struct ConfigView {
    pub width: i32,
    pub height: i32,
    pub keybinds: KeybindsView,
}

impl View for Keybinds {
    type V = KeybindsView;

    open spec fn view(&self) -> KeybindsView {
        KeybindsView { quit: self.quit@, open_alternate_actions: self.open_alternate_actions@ }
    }
}

impl View for Config {
    type V = ConfigView;

    open spec fn view(&self) -> ConfigView {
        ConfigView { width: self.width, height: self.height, keybinds: self.keybinds@ }
    }
}

/// The keybinds where the file names none: `Escape` quits, `Right` opens the
/// alternate actions.
pub open spec fn default_keybinds() -> KeybindsView {
    KeybindsView { quit: "Escape"@, open_alternate_actions: "Right"@ }
}

/// The configuration where the file names nothing: 800 by 450, with the
/// default keybinds.
pub open spec fn default_config() -> ConfigView {
    ConfigView { width: 800, height: 450, keybinds: default_keybinds() }
}

/// The window's width where the file names none.
pub fn default_width() -> (width: i32)
    ensures
        width == 800,
{
    800
}

/// The window's height where the file names none.
pub fn default_height() -> (height: i32)
    ensures
        height == 450,
{
    450
}

/// The key that opens the alternate actions where the file names none.
pub fn default_keybind_open_alternate_actions() -> (key: String)
    ensures
        key@ == default_keybinds().open_alternate_actions,
{
    String::from_str("Right")
}

/// The key that quits where the file names none.
pub fn default_keybind_quit() -> (key: String)
    ensures
        key@ == default_keybinds().quit,
{
    String::from_str("Escape")
}

impl Default for Keybinds {
    fn default() -> (keybinds: Self)
        ensures
            keybinds@ == default_keybinds(),
            keybinds.quit@ == "Escape"@,
            keybinds.open_alternate_actions@ == "Right"@,
    {
        Keybinds {
            quit: default_keybind_quit(),
            open_alternate_actions: default_keybind_open_alternate_actions(),
        }
    }
}

impl Default for Config {
    fn default() -> (config: Self)
        ensures
            config@ == default_config(),
            config.width == 800,
            config.height == 450,
            config.keybinds.quit@ == "Escape"@,
            config.keybinds.open_alternate_actions@ == "Right"@,
    {
        Config { width: default_width(), height: default_height(), keybinds: Keybinds::default() }
    }
}

impl Keybinds {
    /// Whether the key named `key` is the one that quits.
    pub fn is_quit_key(&self, key: &str) -> (quits: bool)
        ensures
            quits == (key@ == self.quit@),
    {
        same_text(key, self.quit.as_str())
    }
}

/// The file name of the configuration, `tehda.yaml`.
pub open spec fn config_file_name() -> Seq<u8> {
    seq![0x74u8, 0x65, 0x68, 0x64, 0x61, 0x2e, 0x79, 0x61, 0x6d, 0x6c]
}

/// The file name of the style sheet, `tehda.css`.
pub open spec fn style_file_name() -> Seq<u8> {
    seq![0x74u8, 0x65, 0x68, 0x64, 0x61, 0x2e, 0x63, 0x73, 0x73]
}

/// The file `file` in the configuration folder, where there is one.
pub open spec fn file_in(config_folder: Option<Seq<u8>>, file: Seq<u8>) -> Option<Seq<u8>> {
    match config_folder {
        Some(folder) => Some(joined(folder, file)),
        None => None,
    }
}

/// The folder of the launcher's configuration, from the values of
/// `XDG_CONFIG_HOME` and `HOME`: `$XDG_CONFIG_HOME/tehda`, else
/// `$HOME/.config/tehda`, else none.
pub fn config_folder_path(xdg_config_home: Option<Vec<u8>>, home: Option<Vec<u8>>) -> (folder: Option<Vec<u8>>)
    ensures
        opt_path(folder) == app_folder(opt_path(xdg_config_home), opt_path(home), config_home_name()),
{
    let sub: Vec<u8> = vec![0x2eu8, 0x63, 0x6f, 0x6e, 0x66, 0x69, 0x67];
    assert(sub@ == config_home_name());
    app_folder_from(xdg_config_home, home, sub.as_slice())
}

/// The configuration file is `tehda.yaml` in `$XDG_CONFIG_HOME/tehda` where
/// that variable is set, else in `$HOME/.config/tehda` where `HOME` is set;
/// it lies under the folder the variable names.
pub proof fn lemma_config_file_location(xdg_config_home: Option<Seq<u8>>, home: Option<Seq<u8>>)
    ensures
        file_in(app_folder(xdg_config_home, home, config_home_name()), config_file_name()) == match xdg_config_home {
            Some(x) => Some(joined(joined(x, app_dir_name()), config_file_name())),
            None => match home {
                Some(h) => Some(joined(joined(joined(h, config_home_name()), app_dir_name()), config_file_name())),
                None => None,
            },
        },
        match xdg_config_home {
            Some(x) => x.is_prefix_of(joined(joined(x, app_dir_name()), config_file_name())),
            None => match home {
                Some(h) => h.is_prefix_of(joined(joined(joined(h, config_home_name()), app_dir_name()), config_file_name())),
                None => true,
            },
        },
{
    assert(!is_absolute(app_dir_name()));
    assert(!is_absolute(config_file_name()));
    assert(!is_absolute(config_home_name()));
    match xdg_config_home {
        Some(x) => {
            let a = joined(x, app_dir_name());
            lemma_join_relative(x, app_dir_name());
            lemma_join_relative(a, config_file_name());
            let f = joined(a, config_file_name());
            assert(f.subrange(0, x.len() as int) =~= a.subrange(0, x.len() as int));
        },
        None => match home {
            Some(h) => {
                let c = joined(h, config_home_name());
                let a = joined(c, app_dir_name());
                let f = joined(a, config_file_name());
                lemma_join_relative(h, config_home_name());
                lemma_join_relative(c, app_dir_name());
                lemma_join_relative(a, config_file_name());
                assert(a.subrange(0, h.len() as int) =~= c.subrange(0, h.len() as int));
                assert(f.subrange(0, h.len() as int) =~= a.subrange(0, h.len() as int));
            },
            None => {},
        },
    }
}

/// The path of `file` in the configuration folder, where there is one.
pub fn config_file_path(config_folder: &Option<Vec<u8>>, file: &[u8]) -> (path: Option<Vec<u8>>)
    ensures
        opt_path(path) == file_in(opt_path(*config_folder), file@),
{
    match config_folder {
        Some(folder) => Some(crate::paths::join_path(folder, file)),
        None => None,
    }
}

/// The path of the style sheet in the configuration folder.
pub fn style_path(config_folder: &Option<Vec<u8>>) -> (path: Option<Vec<u8>>)
    ensures
        opt_path(path) == file_in(opt_path(*config_folder), style_file_name()),
{
    let name: Vec<u8> = vec![0x74u8, 0x65, 0x68, 0x64, 0x61, 0x2e, 0x63, 0x73, 0x73];
    assert(name@ == style_file_name());
    config_file_path(config_folder, name.as_slice())
}

/// The path to load the configuration from, in the configuration folder.
pub fn config_path(config_folder: &Option<Vec<u8>>) -> (path: Option<Vec<u8>>)
    ensures
        opt_path(path) == file_in(opt_path(*config_folder), config_file_name()),
{
    let name: Vec<u8> = vec![0x74u8, 0x65, 0x68, 0x64, 0x61, 0x2e, 0x79, 0x61, 0x6d, 0x6c];
    assert(name@ == config_file_name());
    config_file_path(config_folder, name.as_slice())
}


/// The views of a sequence of paths.
pub open spec fn path_views(paths: Seq<Vec<u8>>) -> Seq<Seq<u8>> {
    paths.map_values(|p: Vec<u8>| p@)
}

/// The paths to try a file at, in order: the one given on the command line,
/// then the one in the configuration folder, each where there is one.
pub open spec fn search_order(given: Option<Seq<u8>>, in_folder: Option<Seq<u8>>) -> Seq<Seq<u8>> {
    let first: Seq<Seq<u8>> = match given {
        Some(p) => seq![p],
        None => Seq::empty(),
    };
    match in_folder {
        Some(p) => first.push(p),
        None => first,
    }
}

/// The paths to try a file at, in order: `given`, then `in_folder`.
pub fn candidate_paths(given: Option<Vec<u8>>, in_folder: Option<Vec<u8>>) -> (paths: Vec<Vec<u8>>)
    ensures
        path_views(paths@) == search_order(opt_path(given), opt_path(in_folder)),
        paths@.len() == (if given is Some { 1int } else { 0 }) + (if in_folder is Some { 1int } else { 0 }),
        given matches Some(g) ==> paths@[0]@ == g@,
        in_folder matches Some(f) ==> paths@[paths@.len() - 1]@ == f@,
{
    let mut paths: Vec<Vec<u8>> = Vec::new();
    match given {
        Some(p) => {
            paths.push(p);
            assert(path_views(paths@) =~= seq![p@]);
        },
        None => {
            assert(path_views(paths@) =~= Seq::<Seq<u8>>::empty());
        },
    }
    let ghost first = path_views(paths@);
    match in_folder {
        Some(p) => {
            paths.push(p);
            assert(path_views(paths@) =~= first.push(p@));
        },
        None => {},
    }
    assert(path_views(paths@) =~= search_order(opt_path(given), opt_path(in_folder)));
    paths
}

/// What the configuration loader does next.
#[derive(Debug)]
pub enum LoadStep {
    /// Read and parse the file at this path, and report what came of it.
    Read(Vec<u8>),
    /// Loading is over: this is the configuration.
    Use(Config),
}

/// A step of the configuration loader as plain values.
pub enum LoadStepView {
    Read(Seq<u8>),
    Use(ConfigView),
}

impl View for LoadStep {
    type V = LoadStepView;

    open spec fn view(&self) -> LoadStepView {
        match self {
            LoadStep::Read(path) => LoadStepView::Read(path@),
            LoadStep::Use(config) => LoadStepView::Use(config@),
        }
    }
}

/// The view of an outcome of reading a configuration file.
pub open spec fn outcome_view(outcome: Option<Config>) -> Option<ConfigView> {
    match outcome {
        Some(config) => Some(config@),
        None => None,
    }
}

/// The loader's next step, once `tried` of the candidates have been tried and
/// the last of them gave `outcome`: a configuration that loaded is used;
/// otherwise the next candidate is read; when none is left, the defaults are
/// used.
pub open spec fn config_step(candidates: Seq<Seq<u8>>, tried: int, outcome: Option<ConfigView>) -> LoadStepView {
    match outcome {
        Some(config) => LoadStepView::Use(config),
        None => if 0 <= tried < candidates.len() {
            LoadStepView::Read(candidates[tried])
        } else {
            LoadStepView::Use(default_config())
        },
    }
}

/// Decides the next step of loading the configuration. `candidates` are the
/// paths to try in order (see `candidate_paths`), `tried` how many of them
/// have been read, and `outcome` what reading the last of them gave: the
/// configuration, or none where it could not be read or parsed.
pub fn load_config(candidates: &Vec<Vec<u8>>, tried: usize, outcome: Option<Config>) -> (step: LoadStep)
    ensures
        step@ == config_step(path_views(candidates@), tried as int, outcome_view(outcome)),
        outcome matches Some(c) ==> step@ == LoadStepView::Use(c@),
        outcome is None && tried < candidates@.len() ==> step@ == LoadStepView::Read(candidates@[tried as int]@),
        outcome is None && tried >= candidates@.len() ==> step@ == LoadStepView::Use(default_config()),
{
    match outcome {
        Some(config) => LoadStep::Use(config),
        None => if tried < candidates.len() {
            LoadStep::Read(copy_bytes(&candidates[tried]))
        } else {
            LoadStep::Use(Config::default())
        },
    }
}

/// The configuration that driving the loader from step `tried` ends with,
/// where reading candidate `i` gives `outcomes[i]`.
pub open spec fn config_after(
    candidates: Seq<Seq<u8>>,
    outcomes: Seq<Option<ConfigView>>,
    tried: nat,
    outcome: Option<ConfigView>,
) -> ConfigView
    decreases candidates.len() - tried,
{
    match config_step(candidates, tried as int, outcome) {
        LoadStepView::Use(config) => config,
        LoadStepView::Read(_) => if tried < candidates.len() {
            config_after(candidates, outcomes, tried + 1, outcomes[tried as int])
        } else {
            default_config()
        },
    }
}

/// The first configuration among `outcomes` that loaded, or the defaults.
pub open spec fn first_loaded(outcomes: Seq<Option<ConfigView>>) -> ConfigView
    decreases outcomes.len(),
{
    if outcomes.len() == 0 {
        default_config()
    } else {
        match outcomes[0] {
            Some(config) => config,
            None => first_loaded(outcomes.drop_first()),
        }
    }
}

proof fn lemma_config_after_from(candidates: Seq<Seq<u8>>, outcomes: Seq<Option<ConfigView>>, tried: nat)
    requires
        outcomes.len() == candidates.len(),
        tried <= candidates.len(),
    ensures
        config_after(candidates, outcomes, tried, None) == first_loaded(outcomes.skip(tried as int)),
    decreases candidates.len() - tried,
{
    if tried < candidates.len() {
        let rest = outcomes.skip(tried as int);
        assert(rest.drop_first() =~= outcomes.skip((tried + 1) as int));
        assert(rest[0] == outcomes[tried as int]);
        assert(config_after(candidates, outcomes, tried, None)
            == config_after(candidates, outcomes, tried + 1, outcomes[tried as int]));
        match outcomes[tried as int] {
            Some(c) => {
                assert(config_after(candidates, outcomes, tried + 1, Some(c)) == c);
            },
            None => {
                lemma_config_after_from(candidates, outcomes, tried + 1);
            },
        }
    } else {
        assert(outcomes.skip(tried as int).len() == 0);
    }
}

/// Loading the configuration ends with the first candidate whose file could
/// be read and parsed, trying them in order; where none could, with the
/// defaults.
pub proof fn lemma_load_config_uses_first_loaded(candidates: Seq<Seq<u8>>, outcomes: Seq<Option<ConfigView>>)
    requires
        outcomes.len() == candidates.len(),
    ensures
        config_after(candidates, outcomes, 0, None) == first_loaded(outcomes),
{
    lemma_config_after_from(candidates, outcomes, 0);
    assert(outcomes.skip(0) =~= outcomes);
}

/// The paths that driving the loader from step `tried` reads, in order,
/// where reading candidate `i` gives `outcomes[i]`.
pub open spec fn config_reads(
    candidates: Seq<Seq<u8>>,
    outcomes: Seq<Option<ConfigView>>,
    tried: nat,
    outcome: Option<ConfigView>,
) -> Seq<Seq<u8>>
    decreases candidates.len() - tried,
{
    match config_step(candidates, tried as int, outcome) {
        LoadStepView::Use(_) => Seq::empty(),
        LoadStepView::Read(path) => if tried < candidates.len() {
            seq![path] + config_reads(candidates, outcomes, tried + 1, outcomes[tried as int])
        } else {
            Seq::empty()
        },
    }
}

proof fn lemma_config_reads_from(candidates: Seq<Seq<u8>>, outcomes: Seq<Option<ConfigView>>, tried: nat)
    requires
        outcomes.len() == candidates.len(),
        tried <= candidates.len(),
    ensures
        ({
            let reads = config_reads(candidates, outcomes, tried, None);
            &&& tried + reads.len() <= candidates.len()
            &&& reads == candidates.subrange(tried as int, (tried + reads.len()) as int)
            &&& forall|i: int| tried <= i < tried + reads.len() - 1 ==> (#[trigger] outcomes[i]) is None
            &&& tried + reads.len() < candidates.len() ==> reads.len() > 0 && outcomes[tried + reads.len() - 1] is Some
        }),
    decreases candidates.len() - tried,
{
    if tried < candidates.len() {
        let t = tried as int;
        let rest = config_reads(candidates, outcomes, tried + 1, outcomes[t]);
        assert(config_reads(candidates, outcomes, tried, None) == seq![candidates[t]] + rest);
        match outcomes[t] {
            Some(c) => {
                assert(rest == Seq::<Seq<u8>>::empty());
                assert(seq![candidates[t]] + rest =~= candidates.subrange(t, t + 1));
            },
            None => {
                lemma_config_reads_from(candidates, outcomes, tried + 1);
                assert(seq![candidates[t]] + rest =~= candidates.subrange(t, t + 1 + rest.len()));
            },
        }
    } else {
        assert(config_reads(candidates, outcomes, tried, None) == Seq::<Seq<u8>>::empty());
        assert(candidates.subrange(tried as int, tried as int) =~= Seq::<Seq<u8>>::empty());
    }
}

/// Loading the configuration reads the candidates themselves, in order, from
/// the first: it stops after the first that loads, and reads them all where
/// none before the last loads.
pub proof fn lemma_load_config_reads_candidates_in_order(candidates: Seq<Seq<u8>>, outcomes: Seq<Option<ConfigView>>)
    requires
        outcomes.len() == candidates.len(),
    ensures
        ({
            let reads = config_reads(candidates, outcomes, 0, None);
            &&& reads == candidates.take(reads.len() as int)
            &&& forall|i: int| 0 <= i < reads.len() - 1 ==> (#[trigger] outcomes[i]) is None
            &&& reads.len() < candidates.len() ==> reads.len() > 0 && outcomes[reads.len() - 1] is Some
        }),
{
    lemma_config_reads_from(candidates, outcomes, 0);
}

/// What the style loader does next.
#[derive(Debug)]
pub enum StyleStep {
    /// Load the style sheet at this path, and report whether it loaded.
    Load(Vec<u8>),
    /// Loading is over: keep the style sheet that just loaded.
    KeepLoaded,
    /// Loading is over: load the built-in style sheet.
    LoadDefault,
}

/// A step of the style loader as plain values.
pub enum StyleStepView {
    Load(Seq<u8>),
    KeepLoaded,
    LoadDefault,
}

impl View for StyleStep {
    type V = StyleStepView;

    open spec fn view(&self) -> StyleStepView {
        match self {
            StyleStep::Load(path) => StyleStepView::Load(path@),
            StyleStep::KeepLoaded => StyleStepView::KeepLoaded,
            StyleStep::LoadDefault => StyleStepView::LoadDefault,
        }
    }
}

/// The style loader's next step, once `tried` of the candidates have been
/// tried and the last of them `loaded` or not: a sheet that loaded is kept;
/// otherwise the next candidate is loaded; when none is left, the built-in
/// sheet.
pub open spec fn style_step(candidates: Seq<Seq<u8>>, tried: int, loaded: bool) -> StyleStepView {
    if loaded {
        StyleStepView::KeepLoaded
    } else if 0 <= tried < candidates.len() {
        StyleStepView::Load(candidates[tried])
    } else {
        StyleStepView::LoadDefault
    }
}

/// Decides the next step of loading the style sheet. `candidates` are the
/// paths to try in order (see `candidate_paths`), `tried` how many of them
/// have been tried, and `loaded` whether the last of them loaded.
pub fn load_style(candidates: &Vec<Vec<u8>>, tried: usize, loaded: bool) -> (step: StyleStep)
    ensures
        step@ == style_step(path_views(candidates@), tried as int, loaded),
        loaded ==> step is KeepLoaded,
        !loaded && tried < candidates@.len() ==> step@ == StyleStepView::Load(candidates@[tried as int]@),
        !loaded && tried >= candidates@.len() ==> step is LoadDefault,
{
    if loaded {
        StyleStep::KeepLoaded
    } else if tried < candidates.len() {
        StyleStep::Load(copy_bytes(&candidates[tried]))
    } else {
        StyleStep::LoadDefault
    }
}

/// Which candidate's sheet driving the style loader from step `tried` ends
/// with, or none for the built-in one, where loading candidate `i` succeeds
/// as `loads[i]` says.
pub open spec fn style_after(candidates: Seq<Seq<u8>>, loads: Seq<bool>, tried: nat, loaded: bool) -> Option<int>
    decreases candidates.len() - tried,
{
    match style_step(candidates, tried as int, loaded) {
        StyleStepView::KeepLoaded => Some(tried - 1),
        StyleStepView::LoadDefault => None,
        StyleStepView::Load(_) => if tried < candidates.len() {
            style_after(candidates, loads, tried + 1, loads[tried as int])
        } else {
            None
        },
    }
}

/// The paths that driving the style loader from step `tried` loads, in
/// order, where loading candidate `i` succeeds as `loads[i]` says.
pub open spec fn style_loads(candidates: Seq<Seq<u8>>, loads: Seq<bool>, tried: nat, loaded: bool) -> Seq<Seq<u8>>
    decreases candidates.len() - tried,
{
    match style_step(candidates, tried as int, loaded) {
        StyleStepView::Load(path) => if tried < candidates.len() {
            seq![path] + style_loads(candidates, loads, tried + 1, loads[tried as int])
        } else {
            Seq::empty()
        },
        _ => Seq::empty(),
    }
}

proof fn lemma_style_loads_from(candidates: Seq<Seq<u8>>, loads: Seq<bool>, tried: nat)
    requires
        loads.len() == candidates.len(),
        tried <= candidates.len(),
    ensures
        ({
            let tries = style_loads(candidates, loads, tried, false);
            &&& tried + tries.len() <= candidates.len()
            &&& tries == candidates.subrange(tried as int, (tried + tries.len()) as int)
            &&& forall|i: int| tried <= i < tried + tries.len() - 1 ==> !(#[trigger] loads[i])
            &&& tried + tries.len() < candidates.len() ==> tries.len() > 0 && loads[tried + tries.len() - 1]
        }),
    decreases candidates.len() - tried,
{
    if tried < candidates.len() {
        let t = tried as int;
        let rest = style_loads(candidates, loads, tried + 1, loads[t]);
        assert(style_loads(candidates, loads, tried, false) == seq![candidates[t]] + rest);
        if loads[t] {
            assert(rest == Seq::<Seq<u8>>::empty());
            assert(seq![candidates[t]] + rest =~= candidates.subrange(t, t + 1));
        } else {
            lemma_style_loads_from(candidates, loads, tried + 1);
            assert(seq![candidates[t]] + rest =~= candidates.subrange(t, t + 1 + rest.len()));
        }
    } else {
        assert(style_loads(candidates, loads, tried, false) == Seq::<Seq<u8>>::empty());
        assert(candidates.subrange(tried as int, tried as int) =~= Seq::<Seq<u8>>::empty());
    }
}

/// Loading the style tries the candidates themselves, in order, from the
/// first: it stops after the first that loads, and tries them all where none
/// before the last loads.
pub proof fn lemma_load_style_tries_candidates_in_order(candidates: Seq<Seq<u8>>, loads: Seq<bool>)
    requires
        loads.len() == candidates.len(),
    ensures
        ({
            let tries = style_loads(candidates, loads, 0, false);
            &&& tries == candidates.take(tries.len() as int)
            &&& forall|i: int| 0 <= i < tries.len() - 1 ==> !(#[trigger] loads[i])
            &&& tries.len() < candidates.len() ==> tries.len() > 0 && loads[tries.len() - 1]
        }),
{
    lemma_style_loads_from(candidates, loads, 0);
}

/// The index of the first `true` in `loads` at or after `from`, if any.
pub open spec fn first_loading(loads: Seq<bool>, from: nat) -> Option<int>
    decreases loads.len() - from,
{
    if from >= loads.len() {
        None
    } else if loads[from as int] {
        Some(from as int)
    } else {
        first_loading(loads, from + 1)
    }
}

proof fn lemma_style_after_from(candidates: Seq<Seq<u8>>, loads: Seq<bool>, tried: nat)
    requires
        loads.len() == candidates.len(),
        tried <= candidates.len(),
    ensures
        style_after(candidates, loads, tried, false) == first_loading(loads, tried),
    decreases candidates.len() - tried,
{
    if tried < candidates.len() {
        assert(style_after(candidates, loads, tried, false)
            == style_after(candidates, loads, tried + 1, loads[tried as int]));
        if !loads[tried as int] {
            lemma_style_after_from(candidates, loads, tried + 1);
        }
    }
}

/// Loading the style keeps the sheet of the first candidate that loads,
/// trying them in order; where none loads, the built-in sheet.
pub proof fn lemma_load_style_keeps_first_loaded(candidates: Seq<Seq<u8>>, loads: Seq<bool>)
    requires
        loads.len() == candidates.len(),
    ensures
        style_after(candidates, loads, 0, false) == first_loading(loads, 0),
{
    lemma_style_after_from(candidates, loads, 0);
}

} // verus!
