use tehda::cli::{parse_mode, startup, Startup};
use tehda::drun::{get_drun_entries, info_to_entry, search_filenames, AppInfo};
use tehda::entry::{Action, AlternateAction, Entry, Mode};
use tehda::input::handle_input;
use tehda::run::{get_run_entries, path_directories, PathEntry};
use tehda::text::{same_text, split_on, starts_with};

fn file(name: &str, path: &str) -> PathEntry {
    PathEntry { name: name.to_string(), path: path.as_bytes().to_vec() }
}

fn program(e: &Entry) -> Vec<u8> {
    match &e.action {
        Action::RunExecutable(p) => p.clone(),
    }
}

fn texts(es: &[Entry]) -> Vec<String> {
    es.iter().map(|e| e.text.clone()).collect()
}

#[test]
fn split_keeps_empty_pieces() {
    assert_eq!(split_on("a::b", ':'), vec!["a", "", "b"]);
    assert_eq!(split_on("", ':'), vec![""]);
    assert_eq!(split_on("abc", ':'), vec!["abc"]);
    assert_eq!(split_on(":", ':'), vec!["", ""]);
    assert_eq!(split_on("é,ü,", ','), vec!["é", "ü", ""]);
}

#[test]
fn split_then_join_gives_back_the_text() {
    for s in ["/usr/bin:/bin", "", "::", "a:b:c:", "ä:ö"] {
        assert_eq!(split_on(s, ':').join(":"), s);
    }
}

#[test]
fn join_then_split_gives_back_the_pieces() {
    let pieces = vec!["x".to_string(), "".to_string(), "yz".to_string()];
    assert_eq!(split_on(&pieces.join(","), ','), pieces);
}

#[test]
fn prefix_and_equality() {
    assert!(starts_with("firefox", "fire"));
    assert!(starts_with("firefox", ""));
    assert!(starts_with("firefox", "firefox"));
    assert!(!starts_with("fire", "firefox"));
    assert!(!starts_with("firefox", "Fire"));
    assert!(starts_with("ünï", "ü"));
    assert!(same_text("abc", "abc"));
    assert!(!same_text("abc", "abd"));
}

#[test]
fn path_directories_split_at_colons() {
    assert_eq!(path_directories("/usr/bin:/bin"), vec!["/usr/bin", "/bin"]);
    assert_eq!(path_directories(""), vec![""]);
}

#[test]
fn run_entries_match_by_prefix_in_order() {
    let files = vec![file("firefox", "/usr/bin/firefox"), file("vim", "/usr/bin/vim"), file("fish", "/bin/fish")];
    let es = get_run_entries(&files, "fi");
    assert_eq!(texts(&es), vec!["firefox", "fish"]);
    assert_eq!(program(&es[0]), b"/usr/bin/firefox".to_vec());
    assert_eq!(program(&es[1]), b"/bin/fish".to_vec());
    assert!(es.iter().all(|e| e.alternate_actions.is_none() && !e.open));
}

#[test]
fn run_entries_for_empty_query_are_all_files() {
    let files = vec![file("b", "/b"), file("a", "/a")];
    assert_eq!(texts(&get_run_entries(&files, "")), vec!["b", "a"]);
}

#[test]
fn run_entries_none_match() {
    let files = vec![file("b", "/b")];
    assert!(get_run_entries(&files, "z").is_empty());
}

#[test]
fn longer_query_narrows_run_entries() {
    let files = vec![file("firefox", "/f"), file("fish", "/g"), file("fi", "/h")];
    let short = texts(&get_run_entries(&files, "fi"));
    let long = texts(&get_run_entries(&files, "fir"));
    assert_eq!(long, vec!["firefox"]);
    assert!(long.iter().all(|t| short.contains(t)));
}

#[test]
fn search_ranks_are_flattened_in_order() {
    let ranks = vec![
        vec!["b.desktop".to_string(), "a.desktop".to_string()],
        vec![],
        vec!["c.desktop".to_string()],
    ];
    assert_eq!(search_filenames(&ranks), vec!["b.desktop", "a.desktop", "c.desktop"]);
    assert!(search_filenames(&Vec::new()).is_empty());
}

fn app(name: &str, exe: &str) -> AppInfo {
    AppInfo { display_name: name.to_string(), executable: exe.as_bytes().to_vec() }
}

#[test]
fn drun_entries_skip_missing_applications() {
    let infos = vec![Some(app("Firefox", "firefox")), None, Some(app("Files", "nautilus"))];
    let es = get_drun_entries(&infos);
    assert_eq!(texts(&es), vec!["Firefox", "Files"]);
    assert_eq!(program(&es[1]), b"nautilus".to_vec());
}

#[test]
fn info_to_entry_runs_the_executable() {
    let e = info_to_entry(&app("Editor", "/usr/bin/ed"));
    assert_eq!(e.text, "Editor");
    assert_eq!(program(&e), b"/usr/bin/ed".to_vec());
    assert!(e.alternate_actions.is_none());
    assert!(!e.open);
}

#[test]
fn duplicate_copies_everything() {
    let e = Entry {
        text: "t".to_string(),
        action: Action::RunExecutable(b"/p".to_vec()),
        alternate_actions: Some(vec![AlternateAction {
            name: "New Window".to_string(),
            action: Action::RunExecutable(b"/q".to_vec()),
        }]),
        open: true,
    };
    let d = e.duplicate();
    assert_eq!(d.text, "t");
    assert_eq!(program(&d), b"/p".to_vec());
    assert!(d.open);
    let alts = d.alternate_actions.unwrap();
    assert_eq!(alts.len(), 1);
    assert_eq!(alts[0].name, "New Window");
}

#[test]
fn empty_query_shows_nothing() {
    let files = vec![file("a", "/a")];
    let drun = vec![Entry::for_program("A".to_string(), b"/a".to_vec())];
    assert!(handle_input("", &vec![Mode::Drun, Mode::Run], &drun, &files).is_empty());
    // an empty query is refused before any mode of the user's own is reached
    assert!(handle_input("", &vec![Mode::Custom("x".to_string())], &drun, &files).is_empty());
}

#[test]
fn modes_contribute_in_order() {
    let files = vec![file("alpha", "/alpha"), file("beta", "/beta")];
    let drun = vec![Entry::for_program("Alpha App".to_string(), b"alpha".to_vec())];
    let es = handle_input("al", &vec![Mode::Run, Mode::Drun], &drun, &files);
    assert_eq!(texts(&es), vec!["alpha", "Alpha App"]);
    let es = handle_input("al", &vec![Mode::Drun, Mode::Run, Mode::Drun], &drun, &files);
    assert_eq!(texts(&es), vec!["Alpha App", "alpha", "Alpha App"]);
    assert!(handle_input("al", &vec![], &drun, &files).is_empty());
}

#[test]
fn parse_mode_names() {
    assert!(matches!(parse_mode("drun"), Some(Mode::Drun)));
    assert!(matches!(parse_mode("run"), Some(Mode::Run)));
    assert!(parse_mode("Run").is_none());
    assert!(parse_mode("dump_config").is_none());
}

fn launched(arg: &str) -> Vec<Mode> {
    match startup(arg) {
        Startup::Launch(m) => m,
        Startup::DumpConfig => panic!("expected a launch for {arg}"),
    }
}

#[test]
fn startup_reads_modes_in_order() {
    let m = launched("drun,run");
    assert_eq!(m.len(), 2);
    assert!(matches!(m[0], Mode::Drun));
    assert!(matches!(m[1], Mode::Run));
    let m = launched("run,unknown,drun");
    assert_eq!(m.len(), 2);
    assert!(matches!(m[0], Mode::Run));
    assert!(matches!(m[1], Mode::Drun));
    assert!(launched("").is_empty());
    assert!(launched("nothing").is_empty());
}

#[test]
fn dump_config_anywhere_wins() {
    assert!(matches!(startup("dump_config"), Startup::DumpConfig));
    assert!(matches!(startup("drun,dump_config"), Startup::DumpConfig));
    assert!(matches!(startup("run,,dump_config,x"), Startup::DumpConfig));
    assert!(matches!(startup("dump_config2"), Startup::Launch(_)));
}
