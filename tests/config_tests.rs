use rfortune::config::{
    cache_store_path, choose_app_dir, choose_editor, get_cache_dir, get_config_path,
    get_default_path, get_fortune_sources, join_path, resolve_fortune_sources, Config, Platform,
};

fn config(default_file: Option<&str>, files: &[&str]) -> Config {
    Config {
        default_file: default_file.map(|s| s.to_string()),
        print_title: Some(true),
        use_cache: Some(true),
        fortune_files: files.iter().map(|s| s.to_string()).collect(),
    }
}

#[test]
fn test_config_auto_migration_to_fortune_files() {
    let mut cfg = config(Some("/tmp/rfortune_test.dat"), &[]);
    assert!(cfg.migrate_fortune_files());
    assert_eq!(cfg.fortune_files, vec!["/tmp/rfortune_test.dat".to_string()]);
    assert!(!cfg.migrate_fortune_files());
}

#[test]
fn sources_by_priority() {
    let cfg = config(Some("/d.dat"), &["/f1", "/f2"]);
    assert_eq!(get_fortune_sources(Some(vec!["/cli".to_string()]), &cfg), vec!["/cli"]);
    assert_eq!(get_fortune_sources(Some(vec![]), &cfg), vec!["/f1", "/f2"]);
    assert_eq!(get_fortune_sources(None, &config(Some("/d.dat"), &[])), vec!["/d.dat"]);
    assert_eq!(
        get_fortune_sources(None, &config(None, &[])),
        vec!["/usr/local/share/rfortune/fortunes"]
    );
    assert!(resolve_fortune_sources(None, &config(None, &[])).is_empty());
    assert_eq!(resolve_fortune_sources(None, &cfg), vec!["/f1", "/f2"]);
}

#[test]
fn paths_in_app_dir() {
    assert_eq!(get_config_path("/data/rfortune"), "/data/rfortune/rfortune.conf");
    assert_eq!(get_default_path("/data/rfortune/"), "/data/rfortune/rfortune.dat");
    assert_eq!(get_cache_dir("/data/rfortune"), "/data/rfortune/cache");
    assert_eq!(cache_store_path("/d"), "/d/cache/last_quotes.json");
    assert_eq!(join_path("", "x"), "x");
}

#[test]
fn app_dir_fallbacks() {
    let s = |x: &str| Some(x.to_string());
    assert_eq!(choose_app_dir(s("/sand"), s("/data"), None, None, Platform::Linux), "/sand");
    assert_eq!(choose_app_dir(None, s("/data"), s("/home/u"), None, Platform::Linux), "/data/rfortune");
    assert_eq!(
        choose_app_dir(None, None, s("/home/u"), None, Platform::Linux),
        "/home/u/.local/share/rfortune"
    );
    assert_eq!(
        choose_app_dir(None, None, s("/Users/u"), None, Platform::MacOs),
        "/Users/u/Library/Application Support/rfortune"
    );
    assert_eq!(choose_app_dir(None, None, None, s("/work"), Platform::Other), "/work/.rfortune");
    assert_eq!(choose_app_dir(None, None, None, None, Platform::Other), "./.rfortune");
}

#[test]
fn initial_config() {
    let c = Config::initial("/d/rfortune.dat".to_string());
    assert_eq!(c.default_file.as_deref(), Some("/d/rfortune.dat"));
    assert_eq!(c.print_title, Some(true));
    assert_eq!(c.use_cache, Some(true));
    assert!(c.fortune_files.is_empty());
}

#[test]
fn editor_choice() {
    let s = |x: &str| Some(x.to_string());
    assert_eq!(choose_editor(s("vim"), s("code"), s("emacs"), false), "vim");
    assert_eq!(choose_editor(None, s("code"), s("emacs"), false), "code");
    assert_eq!(choose_editor(None, None, s("emacs"), false), "emacs");
    assert_eq!(choose_editor(None, None, None, false), "nano");
    assert_eq!(choose_editor(None, None, None, true), "notepad");
}
