use tehda::cache::{add_entry_to_cache, cache_folder_path};
use tehda::config::{
    candidate_paths, config_file_path, config_folder_path, config_path, default_height,
    default_keybind_open_alternate_actions, default_keybind_quit, default_width, load_config,
    load_style, style_path, Config, Keybinds, LoadStep, StyleStep,
};
use tehda::entry::Entry;
use tehda::paths::join_path;

fn b(s: &str) -> Vec<u8> {
    s.as_bytes().to_vec()
}

#[test]
fn join_adds_a_separator_between_components() {
    assert_eq!(join_path(&b("a"), b"b"), b("a/b"));
    assert_eq!(join_path(&b("/home/u"), b".config"), b("/home/u/.config"));
}

#[test]
fn join_keeps_a_trailing_separator_single() {
    assert_eq!(join_path(&b("a/"), b"b"), b("a/b"));
}

#[test]
fn join_onto_empty_base_gives_the_component() {
    assert_eq!(join_path(&b(""), b"tehda"), b("tehda"));
}

#[test]
fn join_of_absolute_component_replaces_base() {
    assert_eq!(join_path(&b("a/b"), b"/etc/x"), b("/etc/x"));
}

#[test]
fn join_of_empty_component_ends_with_separator() {
    assert_eq!(join_path(&b("a"), b""), b("a/"));
}

#[test]
fn config_folder_prefers_xdg_config_home() {
    assert_eq!(
        config_folder_path(Some(b("/x/conf")), Some(b("/home/u"))),
        Some(b("/x/conf/tehda"))
    );
}

#[test]
fn config_folder_falls_back_to_home() {
    assert_eq!(config_folder_path(None, Some(b("/home/u"))), Some(b("/home/u/.config/tehda")));
    assert_eq!(config_folder_path(None, Some(b("/home/u/"))), Some(b("/home/u/.config/tehda")));
}

#[test]
fn config_folder_needs_one_variable() {
    assert_eq!(config_folder_path(None, None), None);
}

#[test]
fn config_folder_from_empty_xdg_value_is_relative() {
    assert_eq!(config_folder_path(Some(b("")), Some(b("/home/u"))), Some(b("tehda")));
}

#[test]
fn cache_folder_prefers_xdg_cache_home() {
    assert_eq!(cache_folder_path(Some(b("/c")), Some(b("/home/u"))), Some(b("/c/tehda")));
    assert_eq!(cache_folder_path(None, Some(b("/home/u"))), Some(b("/home/u/.cache/tehda")));
    assert_eq!(cache_folder_path(None, None), None);
}

#[test]
fn config_and_style_files_lie_in_the_folder() {
    let folder = Some(b("/home/u/.config/tehda"));
    assert_eq!(config_path(&folder), Some(b("/home/u/.config/tehda/tehda.yaml")));
    assert_eq!(style_path(&folder), Some(b("/home/u/.config/tehda/tehda.css")));
    assert_eq!(config_file_path(&folder, b"other"), Some(b("/home/u/.config/tehda/other")));
    assert_eq!(config_path(&None), None);
    assert_eq!(style_path(&None), None);
}

#[test]
fn readme_config_locations() {
    let from_xdg = config_folder_path(Some(b("/xdg")), Some(b("/home/u")));
    assert_eq!(config_path(&from_xdg), Some(b("/xdg/tehda/tehda.yaml")));
    let from_home = config_folder_path(None, Some(b("/home/u")));
    assert_eq!(config_path(&from_home), Some(b("/home/u/.config/tehda/tehda.yaml")));
}

#[test]
fn default_values() {
    assert_eq!(default_width(), 800);
    assert_eq!(default_height(), 450);
    assert_eq!(default_keybind_quit(), "Escape");
    assert_eq!(default_keybind_open_alternate_actions(), "Right");
}

#[test]
fn default_config_and_keybinds() {
    let c = Config::default();
    assert_eq!(c.width, 800);
    assert_eq!(c.height, 450);
    assert_eq!(c.keybinds.quit, "Escape");
    assert_eq!(c.keybinds.open_alternate_actions, "Right");
    let k = Keybinds::default();
    assert_eq!(k.quit, "Escape");
    assert_eq!(k.open_alternate_actions, "Right");
}

#[test]
fn quit_key_matches_by_name() {
    let k = Keybinds::default();
    assert!(k.is_quit_key("Escape"));
    assert!(!k.is_quit_key("escape"));
    assert!(!k.is_quit_key("Right"));
    let custom = Keybinds { quit: "q".to_string(), open_alternate_actions: "Right".to_string() };
    assert!(custom.is_quit_key("q"));
    assert!(!custom.is_quit_key("Escape"));
}

#[test]
fn candidates_come_given_first_then_folder() {
    assert_eq!(candidate_paths(Some(b("/u.yaml")), Some(b("/f.yaml"))), vec![b("/u.yaml"), b("/f.yaml")]);
    assert_eq!(candidate_paths(None, Some(b("/f.yaml"))), vec![b("/f.yaml")]);
    assert_eq!(candidate_paths(Some(b("/u.yaml")), None), vec![b("/u.yaml")]);
    assert!(candidate_paths(None, None).is_empty());
}

fn config(width: i32) -> Config {
    Config { width, height: 1, keybinds: Keybinds::default() }
}

/// Drives the loader, answering each read from `outcomes` by path.
fn drive(candidates: &Vec<Vec<u8>>, outcomes: &dyn Fn(&[u8]) -> Option<Config>) -> (Config, Vec<Vec<u8>>) {
    let mut tried = 0;
    let mut outcome = None;
    let mut reads = Vec::new();
    loop {
        match load_config(candidates, tried, outcome) {
            LoadStep::Read(path) => {
                outcome = outcomes(&path);
                reads.push(path);
                tried += 1;
            }
            LoadStep::Use(c) => return (c, reads),
        }
    }
}

#[test]
fn user_config_that_loads_wins() {
    let cands = candidate_paths(Some(b("/u")), Some(b("/f")));
    let (c, reads) = drive(&cands, &|p| if p == b"/u" { Some(config(1)) } else { Some(config(2)) });
    assert_eq!(c.width, 1);
    assert_eq!(reads, vec![b("/u")]);
}

#[test]
fn folder_config_used_when_user_config_fails() {
    let cands = candidate_paths(Some(b("/u")), Some(b("/f")));
    let (c, reads) = drive(&cands, &|p| if p == b"/f" { Some(config(2)) } else { None });
    assert_eq!(c.width, 2);
    assert_eq!(reads, vec![b("/u"), b("/f")]);
}

#[test]
fn defaults_used_when_nothing_loads() {
    let cands = candidate_paths(Some(b("/u")), Some(b("/f")));
    let (c, reads) = drive(&cands, &|_| None);
    assert_eq!(c.width, 800);
    assert_eq!(c.height, 450);
    assert_eq!(c.keybinds.quit, "Escape");
    assert_eq!(reads.len(), 2);
    let (c, reads) = drive(&Vec::new(), &|_| Some(config(5)));
    assert_eq!(c.width, 800);
    assert!(reads.is_empty());
}

#[test]
fn load_config_step_by_step() {
    let cands = vec![b("/a"), b("/b")];
    assert!(matches!(load_config(&cands, 0, None), LoadStep::Read(p) if p == b("/a")));
    assert!(matches!(load_config(&cands, 1, None), LoadStep::Read(p) if p == b("/b")));
    assert!(matches!(load_config(&cands, 2, None), LoadStep::Use(c) if c.width == 800));
    assert!(matches!(load_config(&cands, 1, Some(config(7))), LoadStep::Use(c) if c.width == 7));
}

#[test]
fn load_style_step_by_step() {
    let cands = vec![b("/user.css"), b("/conf/tehda.css")];
    assert!(matches!(load_style(&cands, 0, false), StyleStep::Load(p) if p == b("/user.css")));
    assert!(matches!(load_style(&cands, 1, true), StyleStep::KeepLoaded));
    assert!(matches!(load_style(&cands, 1, false), StyleStep::Load(p) if p == b("/conf/tehda.css")));
    assert!(matches!(load_style(&cands, 2, false), StyleStep::LoadDefault));
    assert!(matches!(load_style(&cands, 2, true), StyleStep::KeepLoaded));
    assert!(matches!(load_style(&Vec::new(), 0, false), StyleStep::LoadDefault));
}

#[test]
fn adding_to_cache_accepts_an_entry() {
    add_entry_to_cache(Entry::for_program("x".to_string(), b("/bin/x")));
}
