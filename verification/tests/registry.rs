use xalias::config::{
    Bin, Config, Entry, Group, Stem, StoredBin, StoredConfig, StoredGroup, Target,
    GLOBAL_DEFAULT_GROUP_NAME,
};
use xalias::error::Error;
use xalias::links::{BinDir, LinkOp};

fn file(path: &str, stem: &str) -> Target {
    Target::File { path: path.to_string(), stem: Stem::Text(stem.to_string()) }
}

fn install(name: &str, target: &str) -> LinkOp {
    LinkOp::Install { name: name.to_string(), target: target.to_string() }
}

fn uninstall(name: &str) -> LinkOp {
    LinkOp::Uninstall { name: name.to_string() }
}

/// The directory shows exactly the enabled records of the active group.
fn assert_in_step(config: &Config, dir: &BinDir) {
    let mut enabled = 0;
    if let Some(group) = config.group(config.active_group()) {
        for bin in group.bins() {
            if bin.enabled {
                enabled += 1;
                assert_eq!(dir.target(&bin.name), Some(bin.path.clone()));
            } else {
                assert!(!dir.contains(&bin.name));
            }
        }
    }
    assert_eq!(dir.len(), enabled);
}

#[test]
fn test_find_returns_disabled_executable() {
    let mut config = Config::with_active("test-group".to_string(), "/tmp/x/bin".to_string());

    let bin = Bin {
        name: "test_exe".to_string(),
        path: "/tmp/x/test_exe".to_string(),
        source_dir: None,
        enabled: false,
    };

    let mut group = Group::new(0);
    group.insert(bin);
    config.insert_group("test-group".to_string(), group);

    let result = config.find("test-group", "test_exe");
    assert!(result.is_some());
    let found_bin = result.unwrap();
    assert_eq!(found_bin.name, "test_exe");
    assert_eq!(found_bin.enabled, false);
}

#[test]
fn test_set_enabled() {
    let mut bin_dir = BinDir::new();
    let mut config = Config::with_active("test-group".to_string(), "/tmp/x/bin".to_string());

    let bin = Bin {
        name: "test_exe".to_string(),
        path: "/tmp/x/test_exe".to_string(),
        source_dir: None,
        enabled: true,
    };

    let mut group = Group::new(0);
    group.insert(bin);
    config.insert_group("test-group".to_string(), group);

    let ops = config.find("test-group", "test_exe").unwrap().install();
    bin_dir.apply_all(&ops);
    assert!(bin_dir.contains("test_exe"));

    let ops = config.set_enabled("test-group", "test_exe", false).unwrap();
    bin_dir.apply_all(&ops);
    assert_eq!(config.find("test-group", "test_exe").unwrap().enabled, false);
    assert!(!bin_dir.contains("test_exe"));

    let ops = config.set_enabled("test-group", "test_exe", true).unwrap();
    bin_dir.apply_all(&ops);
    assert_eq!(config.find("test-group", "test_exe").unwrap().enabled, true);
    assert!(bin_dir.contains("test_exe"));
}

#[test]
fn fresh_registry_has_default_group_active() {
    let config = Config::new("/home/u/.local/bin/x".to_string());
    assert_eq!(GLOBAL_DEFAULT_GROUP_NAME, "base");
    assert_eq!(config.active_group(), "base");
    assert_eq!(config.bin_dir(), "/home/u/.local/bin/x");
    assert!(config.group_names().is_empty());
    assert!(!config.group_exists("base"));
}

#[test]
fn add_file_to_active_group_installs_link() {
    let mut bin_dir = BinDir::new();
    let mut config = Config::with_active("tools".to_string(), "/tmp/x/bin".to_string());
    let ops = config.add("tools", &file("/usr/bin/jq", "jq"), None).unwrap();
    assert_eq!(ops, vec![install("jq", "/usr/bin/jq")]);
    bin_dir.apply_all(&ops);
    assert_eq!(bin_dir.target("jq"), Some("/usr/bin/jq".to_string()));
    assert_eq!(bin_dir.len(), 1);
    let bin = config.find("tools", "jq").unwrap();
    assert_eq!(bin.name, "jq");
    assert_eq!(bin.path, "/usr/bin/jq");
    assert_eq!(bin.source_dir, None);
    assert!(bin.enabled);
    assert_in_step(&config, &bin_dir);
}

#[test]
fn add_file_to_other_group_touches_no_link() {
    let mut config = Config::with_active("tools".to_string(), "/tmp/x/bin".to_string());
    let ops = config.add("other", &file("/usr/bin/jq", "jq"), None).unwrap();
    assert!(ops.is_empty());
    assert!(config.group_exists("other"));
    assert!(config.find("other", "jq").is_some());
    assert!(config.find("tools", "jq").is_none());
}

#[test]
fn add_file_uses_alias_before_stem() {
    let mut config = Config::new("/tmp/x/bin".to_string());
    let ops = config
        .add("base", &file("/opt/tool/run.sh", "run"), Some("tool".to_string()))
        .unwrap();
    assert_eq!(ops, vec![install("tool", "/opt/tool/run.sh")]);
    assert!(config.find("base", "tool").is_some());
    assert!(config.find("base", "run").is_none());
}

#[test]
fn add_file_sets_group_ordinal_to_last_place() {
    let mut config = Config::new("/tmp/x/bin".to_string());
    config.add("base", &file("/usr/bin/a", "a"), None).unwrap();
    assert_eq!(config.group("base").unwrap().index(), 0);
    config.add("base", &file("/usr/bin/b", "b"), None).unwrap();
    assert_eq!(config.group("base").unwrap().index(), 1);
    config.add("base", &file("/usr/bin/c", "c"), None).unwrap();
    assert_eq!(config.group("base").unwrap().index(), 2);
    config.add("base", &file("/usr/local/bin/b", "b"), None).unwrap();
    assert_eq!(config.group("base").unwrap().index(), 2);
    assert_eq!(config.group("base").unwrap().bins().len(), 3);
    assert_eq!(config.find("base", "b").unwrap().path, "/usr/local/bin/b");
}

#[test]
fn add_replaces_disabled_record_and_installs() {
    let mut dir = BinDir::new();
    let mut config = Config::new("/tmp/x/bin".to_string());
    dir.apply_all(&config.add("base", &file("/usr/bin/a", "a"), None).unwrap());
    dir.apply_all(&config.set_enabled("base", "a", false).unwrap());
    assert!(!dir.contains("a"));
    dir.apply_all(&config.add("base", &file("/opt/a", "a"), None).unwrap());
    assert_eq!(dir.target("a"), Some("/opt/a".to_string()));
    assert!(config.find("base", "a").unwrap().enabled);
    assert_in_step(&config, &dir);
}

#[test]
fn add_directory_registers_every_entry() {
    let mut dir = BinDir::new();
    let mut config = Config::new("/tmp/x/bin".to_string());
    let target = Target::Directory {
        path: "/opt/tools".to_string(),
        entries: vec![
            Entry { name: Some("fd".to_string()), path: "/opt/tools/fd".to_string() },
            Entry { name: Some("rg.exe".to_string()), path: "/opt/tools/rg.exe".to_string() },
        ],
    };
    let ops = config.add("base", &target, Some("ignored".to_string())).unwrap();
    assert_eq!(ops, vec![install("fd", "/opt/tools/fd"), install("rg.exe", "/opt/tools/rg.exe")]);
    dir.apply_all(&ops);
    let fd = config.find("base", "fd").unwrap();
    assert_eq!(fd.source_dir, Some("/opt/tools".to_string()));
    assert!(fd.enabled);
    assert_eq!(config.find("base", "rg.exe").unwrap().path, "/opt/tools/rg.exe");
    assert!(config.find("base", "ignored").is_none());
    assert_eq!(config.group("base").unwrap().index(), 0);
    assert_in_step(&config, &dir);
}

#[test]
fn add_directory_counts_ordinal_before_import() {
    let mut config = Config::new("/tmp/x/bin".to_string());
    config.add("base", &file("/usr/bin/a", "a"), None).unwrap();
    config.add("base", &file("/usr/bin/b", "b"), None).unwrap();
    config.add("base", &file("/usr/bin/c", "c"), None).unwrap();
    let target = Target::Directory {
        path: "/opt/tools".to_string(),
        entries: vec![Entry { name: Some("fd".to_string()), path: "/opt/tools/fd".to_string() }],
    };
    config.add("base", &target, None).unwrap();
    assert_eq!(config.group("base").unwrap().bins().len(), 4);
    assert_eq!(config.group("base").unwrap().index(), 2);
}

#[test]
fn add_empty_directory_creates_group() {
    let mut config = Config::new("/tmp/x/bin".to_string());
    let target = Target::Directory { path: "/opt/empty".to_string(), entries: vec![] };
    let ops = config.add("fresh", &target, None).unwrap();
    assert!(ops.is_empty());
    assert!(config.group_exists("fresh"));
    assert_eq!(config.group("fresh").unwrap().index(), 0);
    assert!(config.group("fresh").unwrap().bins().is_empty());
}

#[test]
fn add_refuses_what_is_neither_file_nor_directory() {
    let mut config = Config::new("/tmp/x/bin".to_string());
    let result = config.add("base", &Target::Other, None);
    assert_eq!(result, Err(Error::InvalidPathKind));
    assert!(!config.group_exists("base"));
}

#[test]
fn add_refuses_file_without_stem_or_alias() {
    let mut config = Config::new("/tmp/x/bin".to_string());
    let target = Target::File { path: "/".to_string(), stem: Stem::Missing };
    assert_eq!(config.add("base", &target, None), Err(Error::InvalidPathKind));
    assert!(!config.group_exists("base"));
    let ops = config.add("base", &target, Some("root".to_string())).unwrap();
    assert_eq!(ops, vec![install("root", "/")]);
}

#[test]
fn add_refuses_file_whose_stem_is_no_text() {
    let mut config = Config::new("/tmp/x/bin".to_string());
    let target = Target::File { path: "/opt/tool".to_string(), stem: Stem::NotText };
    assert_eq!(config.add("base", &target, None), Err(Error::NonUtf8Name));
    assert_eq!(target.records(None), Err(Error::NonUtf8Name));
    assert!(!config.group_exists("base"));
    let ops = config.add("base", &target, Some("tool".to_string())).unwrap();
    assert_eq!(ops, vec![install("tool", "/opt/tool")]);
}

#[test]
fn add_refuses_directory_with_unwritable_name() {
    let mut config = Config::new("/tmp/x/bin".to_string());
    let target = Target::Directory {
        path: "/opt/tools".to_string(),
        entries: vec![
            Entry { name: Some("fd".to_string()), path: "/opt/tools/fd".to_string() },
            Entry { name: None, path: "/opt/tools/x".to_string() },
        ],
    };
    assert_eq!(config.add("base", &target, None), Err(Error::NonUtf8Name));
    assert!(!config.group_exists("base"));
    assert!(config.find("base", "fd").is_none());
}

#[test]
fn set_enabled_reports_what_is_missing() {
    let mut config = Config::new("/tmp/x/bin".to_string());
    assert_eq!(
        config.set_enabled("base", "a", true),
        Err(Error::NotFound { group: "base".to_string(), name: None })
    );
    config.add("base", &file("/usr/bin/a", "a"), None).unwrap();
    assert_eq!(
        config.set_enabled("base", "b", true),
        Err(Error::NotFound { group: "base".to_string(), name: Some("b".to_string()) })
    );
}

#[test]
fn set_enabled_to_same_value_does_nothing() {
    let mut config = Config::new("/tmp/x/bin".to_string());
    config.add("base", &file("/usr/bin/a", "a"), None).unwrap();
    assert!(config.set_enabled("base", "a", true).unwrap().is_empty());
    assert_eq!(config.set_enabled("base", "a", false).unwrap(), vec![uninstall("a")]);
    assert!(config.set_enabled("base", "a", false).unwrap().is_empty());
    assert_eq!(config.set_enabled("base", "a", true).unwrap(), vec![install("a", "/usr/bin/a")]);
}

#[test]
fn set_enabled_in_other_group_touches_no_link() {
    let mut config = Config::new("/tmp/x/bin".to_string());
    config.add("other", &file("/usr/bin/a", "a"), None).unwrap();
    assert!(config.set_enabled("other", "a", false).unwrap().is_empty());
    assert!(!config.find("other", "a").unwrap().enabled);
    assert!(config.set_enabled("other", "a", true).unwrap().is_empty());
    assert!(config.find("other", "a").unwrap().enabled);
}

#[test]
fn disable_then_enable_restores_link_to_original_path() {
    let mut dir = BinDir::new();
    let mut config = Config::with_active("tools".to_string(), "/tmp/x/bin".to_string());
    dir.apply_all(&config.add("tools", &file("/usr/bin/jq", "jq"), None).unwrap());
    dir.apply_all(&config.set_enabled("tools", "jq", false).unwrap());
    assert_eq!(dir.target("jq"), None);
    assert_in_step(&config, &dir);
    dir.apply_all(&config.set_enabled("tools", "jq", true).unwrap());
    assert_eq!(dir.target("jq"), Some("/usr/bin/jq".to_string()));
    assert_in_step(&config, &dir);
}

#[test]
fn rename_moves_link_and_keeps_record() {
    let mut dir = BinDir::new();
    let mut config = Config::new("/tmp/x/bin".to_string());
    let target = Target::Directory {
        path: "/opt/tools".to_string(),
        entries: vec![Entry { name: Some("fd".to_string()), path: "/opt/tools/fd".to_string() }],
    };
    dir.apply_all(&config.add("base", &target, None).unwrap());
    let ops = config.rename("base", "fd", "find").unwrap();
    assert_eq!(ops, vec![uninstall("fd"), install("find", "/opt/tools/fd")]);
    dir.apply_all(&ops);
    assert!(config.find("base", "fd").is_none());
    let bin = config.find("base", "find").unwrap();
    assert_eq!(bin.name, "find");
    assert_eq!(bin.path, "/opt/tools/fd");
    assert_eq!(bin.source_dir, Some("/opt/tools".to_string()));
    assert!(bin.enabled);
    assert_in_step(&config, &dir);
}

#[test]
fn rename_of_disabled_record_installs_nothing() {
    let mut dir = BinDir::new();
    let mut config = Config::new("/tmp/x/bin".to_string());
    dir.apply_all(&config.add("base", &file("/usr/bin/a", "a"), None).unwrap());
    dir.apply_all(&config.set_enabled("base", "a", false).unwrap());
    let ops = config.rename("base", "a", "b").unwrap();
    assert_eq!(ops, vec![uninstall("a")]);
    dir.apply_all(&ops);
    assert!(!config.find("base", "b").unwrap().enabled);
    assert_in_step(&config, &dir);
}

#[test]
fn rename_in_other_group_touches_no_link() {
    let mut config = Config::new("/tmp/x/bin".to_string());
    config.add("other", &file("/usr/bin/a", "a"), None).unwrap();
    assert!(config.rename("other", "a", "b").unwrap().is_empty());
    assert!(config.find("other", "b").is_some());
}

#[test]
fn rename_to_colliding_name_changes_nothing() {
    let mut dir = BinDir::new();
    let mut config = Config::new("/tmp/x/bin".to_string());
    dir.apply_all(&config.add("base", &file("/usr/bin/a", "a"), None).unwrap());
    dir.apply_all(&config.add("base", &file("/usr/bin/b", "b"), None).unwrap());
    let result = config.rename("base", "a", "b");
    assert_eq!(
        result,
        Err(Error::NameCollision { group: "base".to_string(), name: "b".to_string() })
    );
    assert_eq!(config.find("base", "a").unwrap().path, "/usr/bin/a");
    assert_eq!(config.find("base", "b").unwrap().path, "/usr/bin/b");
    assert_eq!(config.group("base").unwrap().bins().len(), 2);
    assert_in_step(&config, &dir);
}

#[test]
fn rename_to_own_name_is_a_collision() {
    let mut dir = BinDir::new();
    let mut config = Config::new("/tmp/x/bin".to_string());
    dir.apply_all(&config.add("base", &file("/usr/bin/a", "a"), None).unwrap());
    assert_eq!(
        config.rename("base", "a", "a"),
        Err(Error::NameCollision { group: "base".to_string(), name: "a".to_string() })
    );
    assert_eq!(config.find("base", "a").unwrap().path, "/usr/bin/a");
    assert_eq!(config.group("base").unwrap().bins().len(), 1);
    assert_eq!(dir.target("a"), Some("/usr/bin/a".to_string()));
    assert_in_step(&config, &dir);
}

#[test]
fn rename_reports_what_is_missing() {
    let mut config = Config::new("/tmp/x/bin".to_string());
    assert_eq!(
        config.rename("base", "a", "b"),
        Err(Error::NotFound { group: "base".to_string(), name: None })
    );
    config.add("base", &file("/usr/bin/a", "a"), None).unwrap();
    assert_eq!(
        config.rename("base", "z", "a"),
        Err(Error::NotFound { group: "base".to_string(), name: Some("z".to_string()) })
    );
}

#[test]
fn switch_uninstalls_old_group_and_installs_enabled_of_new() {
    let mut dir = BinDir::new();
    let mut config = Config::with_active("tools".to_string(), "/tmp/x/bin".to_string());
    dir.apply_all(&config.add("tools", &file("/usr/bin/jq", "jq"), None).unwrap());
    dir.apply_all(&config.add("other", &file("/usr/bin/foo", "foo"), None).unwrap());
    dir.apply_all(&config.add("other", &file("/usr/bin/bar", "bar"), None).unwrap());
    dir.apply_all(&config.set_enabled("other", "bar", false).unwrap());
    assert_in_step(&config, &dir);
    let ops = config.switch("other").unwrap();
    assert_eq!(ops, vec![uninstall("jq"), install("foo", "/usr/bin/foo")]);
    dir.apply_all(&ops);
    assert_eq!(config.active_group(), "other");
    assert_eq!(dir.len(), 1);
    assert_eq!(dir.target("foo"), Some("/usr/bin/foo".to_string()));
    assert!(!dir.contains("jq"));
    assert_in_step(&config, &dir);
}

#[test]
fn switch_uninstalls_disabled_records_too() {
    let mut config = Config::with_active("tools".to_string(), "/tmp/x/bin".to_string());
    config.add("tools", &file("/usr/bin/jq", "jq"), None).unwrap();
    config.set_enabled("tools", "jq", false).unwrap();
    config.add("other", &file("/usr/bin/foo", "foo"), None).unwrap();
    let ops = config.switch("other").unwrap();
    assert_eq!(ops, vec![uninstall("jq"), install("foo", "/usr/bin/foo")]);
}

#[test]
fn switch_to_active_group_does_nothing() {
    let mut config = Config::with_active("tools".to_string(), "/tmp/x/bin".to_string());
    assert!(config.switch("tools").unwrap().is_empty());
    config.add("tools", &file("/usr/bin/jq", "jq"), None).unwrap();
    assert!(config.switch("tools").unwrap().is_empty());
    assert_eq!(config.active_group(), "tools");
}

#[test]
fn switch_to_missing_group_changes_nothing() {
    let mut dir = BinDir::new();
    let mut config = Config::with_active("tools".to_string(), "/tmp/x/bin".to_string());
    dir.apply_all(&config.add("tools", &file("/usr/bin/jq", "jq"), None).unwrap());
    let result = config.switch("nowhere");
    assert_eq!(result, Err(Error::NotFound { group: "nowhere".to_string(), name: None }));
    assert_eq!(config.active_group(), "tools");
    assert_eq!(dir.target("jq"), Some("/usr/bin/jq".to_string()));
    assert_in_step(&config, &dir);
}

#[test]
fn switch_from_unregistered_active_group() {
    let mut dir = BinDir::new();
    let mut config = Config::new("/tmp/x/bin".to_string());
    dir.apply_all(&config.add("other", &file("/usr/bin/foo", "foo"), None).unwrap());
    let ops = config.switch("other").unwrap();
    assert_eq!(ops, vec![install("foo", "/usr/bin/foo")]);
    dir.apply_all(&ops);
    assert_in_step(&config, &dir);
}

#[test]
fn links_stay_in_step_over_a_run_of_mutations() {
    let mut dir = BinDir::new();
    let mut config = Config::new("/tmp/x/bin".to_string());
    let tools = Target::Directory {
        path: "/opt/tools".to_string(),
        entries: vec![
            Entry { name: Some("fd".to_string()), path: "/opt/tools/fd".to_string() },
            Entry { name: Some("rg".to_string()), path: "/opt/tools/rg".to_string() },
        ],
    };
    dir.apply_all(&config.add("base", &file("/usr/bin/jq", "jq"), None).unwrap());
    assert_in_step(&config, &dir);
    dir.apply_all(&config.add("dev", &tools, None).unwrap());
    assert_in_step(&config, &dir);
    dir.apply_all(&config.set_enabled("dev", "rg", false).unwrap());
    assert_in_step(&config, &dir);
    dir.apply_all(&config.switch("dev").unwrap());
    assert_in_step(&config, &dir);
    assert_eq!(dir.len(), 1);
    dir.apply_all(&config.set_enabled("dev", "rg", true).unwrap());
    assert_in_step(&config, &dir);
    assert_eq!(dir.len(), 2);
    dir.apply_all(&config.add("dev", &file("/usr/local/bin/rg", "rg"), None).unwrap());
    assert_in_step(&config, &dir);
    assert_eq!(dir.target("rg"), Some("/usr/local/bin/rg".to_string()));
    dir.apply_all(&config.rename("dev", "fd", "find").unwrap());
    assert_in_step(&config, &dir);
    dir.apply_all(&config.set_enabled("base", "jq", false).unwrap());
    assert_in_step(&config, &dir);
    dir.apply_all(&config.switch("base").unwrap());
    assert_in_step(&config, &dir);
    assert_eq!(dir.len(), 0);
    dir.apply_all(&config.set_enabled("base", "jq", true).unwrap());
    assert_in_step(&config, &dir);
    assert_eq!(dir.target("jq"), Some("/usr/bin/jq".to_string()));
}

#[test]
fn remove_by_name_uninstalls_and_forgets() {
    let mut dir = BinDir::new();
    let mut config = Config::new("/tmp/x/bin".to_string());
    dir.apply_all(&config.add("base", &file("/usr/bin/a", "a"), None).unwrap());
    dir.apply_all(&config.add("base", &file("/usr/bin/b", "b"), None).unwrap());
    let ops = config.remove("base", Some("a"), false);
    assert_eq!(ops, vec![uninstall("a")]);
    dir.apply_all(&ops);
    assert!(config.find("base", "a").is_none());
    assert!(config.find("base", "b").is_some());
    assert!(config.group_exists("base"));
    assert_in_step(&config, &dir);
}

#[test]
fn remove_of_what_is_missing_does_nothing() {
    let mut config = Config::new("/tmp/x/bin".to_string());
    assert!(config.remove("base", Some("a"), false).is_empty());
    assert!(config.remove("base", Some("/opt/tools"), false).is_empty());
    assert!(config.remove("base", None, true).is_empty());
    config.add("base", &file("/usr/bin/a", "a"), None).unwrap();
    assert!(config.remove("base", Some("zzz"), true).is_empty());
    assert!(config.remove("base", None, false).is_empty());
    assert!(config.find("base", "a").is_some());
}

#[test]
fn remove_by_source_directory_takes_the_whole_batch() {
    let mut dir = BinDir::new();
    let mut config = Config::new("/tmp/x/bin".to_string());
    let tools = Target::Directory {
        path: "/opt/tools".to_string(),
        entries: vec![
            Entry { name: Some("fd".to_string()), path: "/opt/tools/fd".to_string() },
            Entry { name: Some("rg".to_string()), path: "/opt/tools/rg".to_string() },
        ],
    };
    dir.apply_all(&config.add("base", &file("/usr/bin/jq", "jq"), None).unwrap());
    dir.apply_all(&config.add("base", &tools, None).unwrap());
    let ops = config.remove("base", Some("/opt/tools"), false);
    assert_eq!(ops, vec![uninstall("fd"), uninstall("rg")]);
    dir.apply_all(&ops);
    assert!(config.find("base", "fd").is_none());
    assert!(config.find("base", "rg").is_none());
    assert!(config.find("base", "jq").is_some());
    assert_in_step(&config, &dir);
}

#[test]
fn remove_takes_backslash_for_a_path_separator() {
    let mut config = Config::new("/tmp/x/bin".to_string());
    let mut group = Group::new(0);
    group.insert(Bin {
        name: "a\\b".to_string(),
        path: "/usr/bin/a".to_string(),
        source_dir: None,
        enabled: true,
    });
    group.insert(Bin {
        name: "tool".to_string(),
        path: "C:\\tools\\tool.exe".to_string(),
        source_dir: Some("C:\\tools".to_string()),
        enabled: true,
    });
    config.insert_group("base".to_string(), group);
    assert!(config.remove("base", Some("a\\b"), false).is_empty());
    assert!(config.find("base", "a\\b").is_some());
    assert_eq!(config.remove("base", Some("C:\\tools"), false), vec![uninstall("tool")]);
    assert!(config.find("base", "tool").is_none());
}

#[test]
fn remove_with_delete_drops_the_group() {
    let mut dir = BinDir::new();
    let mut config = Config::new("/tmp/x/bin".to_string());
    dir.apply_all(&config.add("base", &file("/usr/bin/a", "a"), None).unwrap());
    dir.apply_all(&config.add("base", &file("/usr/bin/b", "b"), None).unwrap());
    dir.apply_all(&config.set_enabled("base", "b", false).unwrap());
    let ops = config.remove("base", None, true);
    assert_eq!(ops, vec![uninstall("a"), uninstall("b")]);
    dir.apply_all(&ops);
    assert!(!config.group_exists("base"));
    assert_eq!(config.active_group(), "base");
    assert_eq!(dir.len(), 0);
    assert_in_step(&config, &dir);
}

#[test]
fn remove_in_other_group_touches_no_link() {
    let mut dir = BinDir::new();
    let mut config = Config::new("/tmp/x/bin".to_string());
    let tools = Target::Directory {
        path: "/opt/tools".to_string(),
        entries: vec![Entry { name: Some("fd".to_string()), path: "/opt/tools/fd".to_string() }],
    };
    dir.apply_all(&config.add("base", &file("/usr/bin/jq", "jq"), None).unwrap());
    dir.apply_all(&config.add("base", &file("/usr/bin/fd", "fd"), None).unwrap());
    dir.apply_all(&config.add("other", &file("/opt/jq", "jq"), None).unwrap());
    dir.apply_all(&config.add("other", &tools, None).unwrap());
    dir.apply_all(&config.add("third", &file("/opt/jq", "jq"), None).unwrap());

    let ops = config.remove("other", Some("jq"), false);
    assert!(ops.is_empty());
    dir.apply_all(&ops);
    assert!(config.find("other", "jq").is_none());
    assert_eq!(dir.target("jq"), Some("/usr/bin/jq".to_string()));
    assert_in_step(&config, &dir);

    let ops = config.remove("other", Some("/opt/tools"), false);
    assert!(ops.is_empty());
    assert!(config.find("other", "fd").is_none());
    assert_eq!(dir.target("fd"), Some("/usr/bin/fd".to_string()));
    assert_in_step(&config, &dir);

    let ops = config.remove("third", None, true);
    assert!(ops.is_empty());
    assert!(!config.group_exists("third"));
    assert_in_step(&config, &dir);
    assert_eq!(dir.len(), 2);
}

#[test]
fn remove_with_delete_takes_the_group_with_its_last_record() {
    let mut dir = BinDir::new();
    let mut config = Config::new("/tmp/x/bin".to_string());
    dir.apply_all(&config.add("base", &file("/usr/bin/a", "a"), None).unwrap());
    dir.apply_all(&config.add("base", &file("/usr/bin/b", "b"), None).unwrap());

    let ops = config.remove("base", Some("a"), true);
    assert_eq!(ops, vec![uninstall("a")]);
    dir.apply_all(&ops);
    assert!(config.group_exists("base"));
    let ops = config.remove("base", Some("zzz"), true);
    assert!(ops.is_empty());
    assert!(config.group_exists("base"));
    let ops = config.remove("base", Some("b"), true);
    assert_eq!(ops, vec![uninstall("b")]);
    dir.apply_all(&ops);
    assert!(!config.group_exists("base"));
    assert_eq!(dir.len(), 0);
    assert_in_step(&config, &dir);
}

#[test]
fn remove_without_delete_keeps_the_empty_group() {
    let mut config = Config::new("/tmp/x/bin".to_string());
    config.add("base", &file("/usr/bin/a", "a"), None).unwrap();
    assert_eq!(config.remove("base", Some("a"), false), vec![uninstall("a")]);
    assert!(config.group_exists("base"));
    assert!(config.group("base").unwrap().bins().is_empty());
    assert!(config.remove("base", Some("a"), true).is_empty());
    assert!(config.group_exists("base"));
}

#[test]
fn remove_of_a_whole_batch_with_delete_takes_the_group() {
    let mut config = Config::new("/tmp/x/bin".to_string());
    let tools = Target::Directory {
        path: "/opt/tools".to_string(),
        entries: vec![
            Entry { name: Some("fd".to_string()), path: "/opt/tools/fd".to_string() },
            Entry { name: Some("rg".to_string()), path: "/opt/tools/rg".to_string() },
        ],
    };
    config.add("base", &tools, None).unwrap();
    config.add("dev", &tools, None).unwrap();
    config.add("dev", &file("/usr/bin/jq", "jq"), None).unwrap();
    assert_eq!(
        config.remove("base", Some("/opt/tools"), true),
        vec![uninstall("fd"), uninstall("rg")]
    );
    assert!(!config.group_exists("base"));
    assert!(config.remove("dev", Some("/opt/tools"), true).is_empty());
    assert!(config.group_exists("dev"));
    assert_eq!(config.group("dev").unwrap().bins().len(), 1);
}

#[test]
fn source_directory_is_matched_as_a_path() {
    let tools = |dir: &str| Target::Directory {
        path: dir.to_string(),
        entries: vec![Entry { name: Some("fd".to_string()), path: "/opt/tools/fd".to_string() }],
    };
    for tag in ["/opt/tools", "/opt/tools/", "/opt//tools", "/opt/./tools/.", "//opt/tools//"] {
        let mut config = Config::new("/tmp/x/bin".to_string());
        config.add("base", &tools("/opt/tools"), None).unwrap();
        assert_eq!(config.remove("base", Some(tag), false), vec![uninstall("fd")], "{}", tag);
    }
    for tag in ["/opt/tool", "opt/tools", "/opt/tools/x", "/opt/tools/..", "/OPT/tools", "/"] {
        let mut config = Config::new("/tmp/x/bin".to_string());
        config.add("base", &tools("/opt/tools"), None).unwrap();
        assert!(config.remove("base", Some(tag), false).is_empty(), "{}", tag);
        assert!(config.find("base", "fd").is_some());
    }
}

#[test]
fn group_remove_helpers() {
    let mut group = Group::new(7);
    group.insert(Bin {
        name: "a".to_string(),
        path: "/d/a".to_string(),
        source_dir: Some("/d".to_string()),
        enabled: false,
    });
    group.insert(Bin {
        name: "b".to_string(),
        path: "/e/b".to_string(),
        source_dir: Some("/e".to_string()),
        enabled: true,
    });
    group.insert(Bin {
        name: "c".to_string(),
        path: "/d/c".to_string(),
        source_dir: Some("/d".to_string()),
        enabled: true,
    });
    assert_eq!(group.index(), 7);
    assert_eq!(group.get("b").unwrap().path, "/e/b");
    assert!(group.remove_bin_by_name("zzz").is_empty());
    assert_eq!(group.remove_bin_by_path("/d"), vec![uninstall("a"), uninstall("c")]);
    assert_eq!(group.bins().len(), 1);
    assert_eq!(group.remove_bin_by_name("b"), vec![uninstall("b")]);
    assert!(group.bins().is_empty());
    assert_eq!(group.index(), 7);
}

#[test]
fn bin_install_respects_flag() {
    let mut bin = Bin {
        name: "a".to_string(),
        path: "/usr/bin/a".to_string(),
        source_dir: None,
        enabled: true,
    };
    assert_eq!(bin.install(), vec![install("a", "/usr/bin/a")]);
    assert_eq!(bin.uninstall(), uninstall("a"));
    bin.enabled = false;
    assert!(bin.install().is_empty());
    assert_eq!(bin.uninstall(), uninstall("a"));
    assert_eq!(bin.clone(), bin);
}

#[test]
fn get_bin_info_tells_group_from_record() {
    let mut config = Config::new("/tmp/x/bin".to_string());
    assert_eq!(
        config.get_bin_info("base", "a"),
        Err(Error::NotFound { group: "base".to_string(), name: None })
    );
    config.add("base", &file("/usr/bin/a", "a"), None).unwrap();
    assert_eq!(
        config.get_bin_info("base", "b"),
        Err(Error::NotFound { group: "base".to_string(), name: Some("b".to_string()) })
    );
    assert_eq!(config.get_bin_info("base", "a").unwrap().path, "/usr/bin/a");
}

#[test]
fn insert_group_replaces_group_of_same_name() {
    let mut config = Config::new("/tmp/x/bin".to_string());
    config.add("base", &file("/usr/bin/a", "a"), None).unwrap();
    config.insert_group("other".to_string(), Group::new(3));
    config.insert_group("base".to_string(), Group::new(5));
    assert_eq!(config.group_names(), vec!["base".to_string(), "other".to_string()]);
    assert_eq!(config.group("base").unwrap().index(), 5);
    assert!(config.find("base", "a").is_none());
}

#[test]
fn search_ignores_case_and_looks_at_name_and_path() {
    let mut config = Config::new("/tmp/x/bin".to_string());
    config.add("base", &file("/usr/bin/JQ", "JQ"), None).unwrap();
    config.add("base", &file("/opt/Tools/fd", "fd"), None).unwrap();
    config.add("dev", &file("/usr/bin/cargo", "cargo"), None).unwrap();
    config.set_enabled("dev", "cargo", false).unwrap();

    let hits = config.search("jq");
    assert_eq!(hits.len(), 1);
    assert_eq!(hits[0].0, "base");
    assert_eq!(hits[0].1, "JQ");
    assert_eq!(hits[0].2.path, "/usr/bin/JQ");

    let hits = config.search("TOOLS");
    assert_eq!(hits.len(), 1);
    assert_eq!(hits[0].1, "fd");

    let hits = config.search("/usr/BIN");
    assert_eq!(hits.len(), 2);
    assert_eq!((hits[0].0.as_str(), hits[0].1.as_str()), ("base", "JQ"));
    assert_eq!((hits[1].0.as_str(), hits[1].1.as_str()), ("dev", "cargo"));
    assert!(!hits[1].2.enabled);

    assert_eq!(config.search("").len(), 3);
    assert!(config.search("nothing-like-this").is_empty());
}

#[test]
fn matches_query_looks_for_the_query_as_it_is() {
    assert!(xalias::config::matches_query("jq", "/usr/bin/jq", "jq"));
    assert!(xalias::config::matches_query("tool", "/usr/bin/jq", "bin"));
    assert!(!xalias::config::matches_query("jq", "/usr/bin/jq", "JQ"));
    assert!(xalias::config::matches_query("jq", "/usr/bin/jq", ""));
    assert!(!xalias::config::matches_query("jq", "/usr/bin/jq", "jqq"));
}

#[test]
fn bin_dir_follows_operations() {
    let mut dir = BinDir::new();
    assert_eq!(dir.len(), 0);
    dir.apply(&install("a", "/1"));
    dir.apply(&install("b", "/2"));
    dir.apply(&install("a", "/3"));
    assert_eq!(dir.len(), 2);
    assert_eq!(dir.target("a"), Some("/3".to_string()));
    assert_eq!(dir.target("b"), Some("/2".to_string()));
    dir.apply(&uninstall("zzz"));
    assert_eq!(dir.len(), 2);
    dir.apply(&uninstall("a"));
    assert_eq!(dir.len(), 1);
    assert!(!dir.contains("a"));
    assert!(dir.contains("b"));
    dir.apply_all(&vec![uninstall("b"), install("c", "/4"), uninstall("b")]);
    assert_eq!(dir.len(), 1);
    assert_eq!(dir.target("c"), Some("/4".to_string()));
}

#[test]
fn target_records() {
    let bin = |name: &str, path: &str, source: Option<&str>| Bin {
        name: name.to_string(),
        path: path.to_string(),
        source_dir: source.map(|s| s.to_string()),
        enabled: true,
    };
    assert_eq!(file("/a/b.sh", "b").records(None), Ok(vec![bin("b", "/a/b.sh", None)]));
    assert_eq!(
        file("/a/b.sh", "b").records(Some("c".to_string())),
        Ok(vec![bin("c", "/a/b.sh", None)])
    );
    let dir = Target::Directory {
        path: "/d".to_string(),
        entries: vec![
            Entry { name: Some("x".to_string()), path: "/d/x".to_string() },
            Entry { name: Some("y".to_string()), path: "/real/y".to_string() },
        ],
    };
    assert_eq!(
        dir.records(Some("c".to_string())),
        Ok(vec![bin("x", "/d/x", Some("/d")), bin("y", "/real/y", Some("/d"))])
    );
    assert_eq!(Target::Other.records(None), Err(Error::InvalidPathKind));
    assert_eq!(Target::Other.records(Some("c".to_string())), Err(Error::InvalidPathKind));
}

#[test]
fn add_directory_with_repeated_name_keeps_the_last() {
    let mut dir = BinDir::new();
    let mut config = Config::new("/tmp/x/bin".to_string());
    let target = Target::Directory {
        path: "/d".to_string(),
        entries: vec![
            Entry { name: Some("x".to_string()), path: "/d/1".to_string() },
            Entry { name: Some("x".to_string()), path: "/d/2".to_string() },
        ],
    };
    let ops = config.add("base", &target, None).unwrap();
    assert_eq!(ops, vec![install("x", "/d/1"), install("x", "/d/2")]);
    dir.apply_all(&ops);
    assert_eq!(config.group("base").unwrap().bins().len(), 1);
    assert_eq!(config.find("base", "x").unwrap().path, "/d/2");
    assert_in_step(&config, &dir);
}

fn stored_bin(name: &str, path: &str, enabled: Option<bool>) -> (String, StoredBin) {
    (
        name.to_string(),
        StoredBin { name: name.to_string(), path: path.to_string(), source_dir: None, enabled },
    )
}

#[test]
fn saved_registry_is_restored_as_it_was() {
    let mut config = Config::with_active("dev".to_string(), "/tmp/x/bin".to_string());
    config.add("base", &file("/usr/bin/jq", "jq"), None).unwrap();
    config.add("dev", &file("/opt/fd", "fd"), None).unwrap();
    config.add("dev", &file("/opt/rg", "rg"), None).unwrap();
    config.set_enabled("dev", "fd", false).unwrap();
    config.insert_group("empty".to_string(), Group::new(4));

    let stored = config.save();
    assert_eq!(stored.active_group, "dev");
    assert_eq!(stored.bin_dir, "/tmp/x/bin");
    assert_eq!(stored.groups.len(), 3);
    assert_eq!(stored.groups[1].0, "dev");
    assert_eq!(stored.groups[1].1.index, 1);
    assert_eq!(stored.groups[1].1.bins[0], stored_bin("fd", "/opt/fd", Some(false)));
    assert_eq!(stored.groups[1].1.bins[1], stored_bin("rg", "/opt/rg", Some(true)));
    assert_eq!(stored.groups[2].1.index, 4);

    let again = Config::load(&stored);
    assert_eq!(again.active_group(), "dev");
    assert_eq!(again.bin_dir(), "/tmp/x/bin");
    assert_eq!(again.group_names(), config.group_names());
    for name in config.group_names() {
        let before = config.group(&name).unwrap();
        let after = again.group(&name).unwrap();
        assert_eq!(before.index(), after.index());
        assert_eq!(before.bins(), after.bins());
    }
}

#[test]
fn restored_record_goes_by_its_alias() {
    let stored = StoredConfig {
        active_group: "base".to_string(),
        bin_dir: "/b".to_string(),
        groups: vec![
            (
                "base".to_string(),
                StoredGroup {
                    index: 9,
                    bins: vec![
                        ("q".to_string(), stored_bin("jq", "/usr/bin/jq", None).1),
                        stored_bin("x", "/1", Some(true)),
                        stored_bin("x", "/2", Some(false)),
                    ],
                },
            ),
            (
                "dev".to_string(),
                StoredGroup { index: 0, bins: vec![stored_bin("a", "/a", Some(true))] },
            ),
            ("dev".to_string(), StoredGroup { index: 1, bins: vec![] }),
        ],
    };
    let config = Config::load(&stored);
    assert_eq!(config.group_names(), vec!["base".to_string(), "dev".to_string()]);
    assert_eq!(config.group("base").unwrap().index(), 9);
    assert_eq!(config.find("base", "q").unwrap().name, "q");
    assert_eq!(config.find("base", "q").unwrap().path, "/usr/bin/jq");
    assert!(config.find("base", "q").unwrap().enabled);
    assert!(config.find("base", "jq").is_none());
    assert_eq!(config.group("base").unwrap().bins().len(), 2);
    assert_eq!(config.find("base", "x").unwrap().path, "/2");
    assert!(!config.find("base", "x").unwrap().enabled);
    assert_eq!(config.group("dev").unwrap().index(), 1);
    assert!(config.find("dev", "a").is_none());
}
