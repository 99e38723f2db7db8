use xalias::cli::{
    group_name, is_subcommand, AddCommand, Cli, Commands, DisableCommand, EnableCommand,
    InfoCommand, InitCommand, ListCommand, RenameCommand, RmCommand, RunCommand, SearchCommand,
    SwitchCommand,
};
use xalias::commands::{
    confirm, disable, enable, info, init, is_yes, list, load_config, program, rename, rm,
    rm_question, run, switch, Found, InitPlan, Launch, LoadPlan,
};
use xalias::config::{Config, Stem, Target};
use xalias::error::Error;
use xalias::links::LinkOp;

fn words(list: &[&str]) -> Option<Vec<String>> {
    Some(list.iter().map(|w| w.to_string()).collect())
}

fn registry() -> Config {
    let mut config = Config::new("/tmp/x/bin".to_string());
    let jq = Target::File { path: "/usr/bin/jq".to_string(), stem: Stem::Text("jq".to_string()) };
    let fd = Target::File { path: "/opt/fd".to_string(), stem: Stem::Text("fd".to_string()) };
    config.add("base", &jq, None).unwrap();
    config.add("dev", &fd, None).unwrap();
    config
}

#[test]
fn known_subcommands() {
    for word in [
        "run", "r", "add", "rm", "list", "ls", "init", "s", "switch", "rename", "info", "enable",
        "disable", "search",
    ] {
        assert!(is_subcommand(word));
    }
    for word in ["", "jq", "Run", "runs", "l", "--help", "remove"] {
        assert!(!is_subcommand(word));
    }
}

#[test]
fn commands_fall_back_to_default_group() {
    assert_eq!(group_name(&None), "base");
    assert_eq!(group_name(&Some("dev".to_string())), "dev");
    assert_eq!(group_name(&Some(String::new())), "");
}

#[test]
fn cli_holds_one_command() {
    let cli = Cli { command: Commands::List(ListCommand { all: true }) };
    assert!(matches!(cli.command, Commands::List(ListCommand { all: true })));
}

#[test]
fn run_needs_a_program() {
    let config = registry();
    for args in [None, words(&[]), words(&[""]), words(&["", "jq"])] {
        let cmd = RunCommand { group: None, args };
        assert_eq!(program(&cmd), Err(Error::NoProgram));
        assert_eq!(run(&config, &cmd, false, false), Err(Error::NoProgram));
        assert_eq!(run(&config, &cmd, true, true), Err(Error::NoProgram));
    }
}

#[test]
fn run_starts_absolute_path_as_it_is() {
    let config = registry();
    let cmd = RunCommand {
        group: Some("nowhere".to_string()),
        args: words(&["/bin/ls", "-l", "/"]),
    };
    assert_eq!(program(&cmd), Ok("/bin/ls"));
    assert_eq!(
        run(&config, &cmd, true, true),
        Ok(Launch {
            program: "/bin/ls".to_string(),
            args: vec!["-l".to_string(), "/".to_string()],
            direct: true,
        })
    );
}

#[test]
fn run_looks_alias_up_in_group() {
    let mut config = registry();
    let cmd = RunCommand { group: None, args: words(&["jq", "."]) };
    let launch = || Launch {
        program: "/usr/bin/jq".to_string(),
        args: vec![".".to_string()],
        direct: false,
    };
    assert_eq!(run(&config, &cmd, false, false), Ok(launch()));
    config.set_enabled("base", "jq", false).unwrap();
    assert_eq!(run(&config, &cmd, false, false), Ok(launch()));

    let cmd = RunCommand { group: Some("dev".to_string()), args: words(&["fd"]) };
    assert_eq!(
        run(&config, &cmd, false, false),
        Ok(Launch { program: "/opt/fd".to_string(), args: vec![], direct: false })
    );
}

#[test]
fn run_tells_unknown_alias_from_missing_target() {
    let config = registry();
    let cmd = RunCommand { group: None, args: words(&["fd"]) };
    assert_eq!(
        run(&config, &cmd, false, false),
        Err(Error::NotFound { group: "base".to_string(), name: Some("fd".to_string()) })
    );
    let cmd = RunCommand { group: Some("nowhere".to_string()), args: words(&["jq"]) };
    assert_eq!(
        run(&config, &cmd, false, false),
        Err(Error::NotFound { group: "nowhere".to_string(), name: Some("jq".to_string()) })
    );
    let cmd = RunCommand { group: None, args: words(&["jq"]) };
    let launch = run(&config, &cmd, false, false).unwrap();
    assert_eq!(
        launch.confirm(false),
        Err(Error::TargetMissing { path: "/usr/bin/jq".to_string() })
    );
    let launch = run(&config, &cmd, false, false).unwrap();
    assert_eq!(
        launch.confirm(true),
        Ok(Launch { program: "/usr/bin/jq".to_string(), args: vec![], direct: false })
    );
}

#[test]
fn add_command_needs_a_path() {
    let mut config = Config::new("/tmp/x/bin".to_string());
    let target =
        Target::File { path: "/usr/bin/jq".to_string(), stem: Stem::Text("jq".to_string()) };
    let cmd = AddCommand { group: None, path: String::new(), name: None };
    assert_eq!(xalias::commands::add(&mut config, &cmd, &target), Err(Error::NoPath));
    assert!(!config.group_exists("base"));
    let cmd =
        AddCommand { group: None, path: "/usr/bin/jq".to_string(), name: Some("q".to_string()) };
    assert_eq!(
        xalias::commands::add(&mut config, &cmd, &target),
        Ok(vec![LinkOp::Install { name: "q".to_string(), target: "/usr/bin/jq".to_string() }])
    );
    let cmd = AddCommand { group: Some("dev".to_string()), path: "x".to_string(), name: None };
    assert_eq!(
        xalias::commands::add(&mut config, &cmd, &Target::Other),
        Err(Error::InvalidPathKind)
    );
    assert_eq!(xalias::commands::add(&mut config, &cmd, &target), Ok(vec![]));
    assert!(config.find("dev", "jq").is_some());
}

#[test]
fn list_shows_active_group_or_all() {
    let config = registry();
    let one = list(&config, &ListCommand { all: false });
    assert_eq!(one.len(), 1);
    assert_eq!(one[0].group, "base");
    assert!(one[0].active);
    let all = list(&config, &ListCommand { all: true });
    assert_eq!(all.len(), 2);
    assert_eq!(all[0].group, "base");
    assert_eq!(all[1].group, "dev");
    assert!(!all[1].active);
}

#[test]
fn init_only_overwrites_when_forced() {
    let path = "/home/u/.config/x/config.json";
    assert_eq!(init(&InitCommand { force: false }, false, path), Ok(InitPlan::Create));
    assert_eq!(init(&InitCommand { force: true }, false, path), Ok(InitPlan::Create));
    assert_eq!(init(&InitCommand { force: true }, true, path), Ok(InitPlan::BackUpAndCreate));
    assert_eq!(
        init(&InitCommand { force: false }, true, path),
        Err(Error::AlreadyConfigured { path: path.to_string() })
    );
}

#[test]
fn load_config_plans() {
    assert_eq!(load_config(true, false), Ok(LoadPlan::Load));
    assert_eq!(load_config(true, true), Ok(LoadPlan::Load));
    assert_eq!(load_config(false, true), Ok(LoadPlan::CreateDefault));
    assert_eq!(load_config(false, false), Err(Error::NotConfigured));
}

#[test]
fn rm_asks_before_it_deletes() {
    let config = registry();
    let cmd = RmCommand { group: None, name: Some("jq".to_string()), delete: true };
    assert_eq!(
        rm_question(&config, &cmd),
        Ok(Some("Are you sure you want to remove jq from group base?".to_string()))
    );
    let cmd = RmCommand { group: Some("dev".to_string()), name: None, delete: true };
    assert_eq!(
        rm_question(&config, &cmd),
        Ok(Some("Are you sure you want to remove all executables from group dev?".to_string()))
    );
    let cmd = RmCommand { group: None, name: Some("jq".to_string()), delete: false };
    assert_eq!(rm_question(&config, &cmd), Ok(None));
    let cmd = RmCommand { group: Some("nowhere".to_string()), name: None, delete: true };
    assert_eq!(
        rm_question(&config, &cmd),
        Err(Error::NotFound { group: "nowhere".to_string(), name: None })
    );
}

#[test]
fn rm_refuses_unregistered_group() {
    let mut config = registry();
    let cmd = RmCommand {
        group: Some("nowhere".to_string()),
        name: Some("jq".to_string()),
        delete: false,
    };
    assert_eq!(
        rm(&mut config, &cmd, true),
        Err(Error::NotFound { group: "nowhere".to_string(), name: None })
    );
}

#[test]
fn rm_does_nothing_when_user_declines() {
    let mut config = registry();
    let cmd = RmCommand { group: None, name: None, delete: true };
    assert_eq!(rm(&mut config, &cmd, false), Ok(vec![]));
    assert!(config.find("base", "jq").is_some());
    assert_eq!(
        rm(&mut config, &cmd, true),
        Ok(vec![LinkOp::Uninstall { name: "jq".to_string() }])
    );
    assert!(!config.group_exists("base"));
}

#[test]
fn rm_without_delete_needs_no_consent() {
    let mut config = registry();
    let cmd = RmCommand { group: None, name: Some("jq".to_string()), delete: false };
    assert_eq!(
        rm(&mut config, &cmd, false),
        Ok(vec![LinkOp::Uninstall { name: "jq".to_string() }])
    );
    assert!(config.find("base", "jq").is_none());
    assert!(config.group_exists("base"));
    let cmd = RmCommand { group: None, name: None, delete: false };
    assert_eq!(rm(&mut config, &cmd, false), Ok(vec![]));
    assert!(config.group_exists("base"));
}

#[test]
fn switch_command_defaults_to_base() {
    let mut config = registry();
    assert_eq!(
        switch(&mut config, &SwitchCommand { group: Some("dev".to_string()) }),
        Ok(vec![
            LinkOp::Uninstall { name: "jq".to_string() },
            LinkOp::Install { name: "fd".to_string(), target: "/opt/fd".to_string() },
        ])
    );
    assert_eq!(config.active_group(), "dev");
    assert_eq!(
        switch(&mut config, &SwitchCommand { group: None }),
        Ok(vec![
            LinkOp::Uninstall { name: "fd".to_string() },
            LinkOp::Install { name: "jq".to_string(), target: "/usr/bin/jq".to_string() },
        ])
    );
    assert_eq!(config.active_group(), "base");
    assert_eq!(
        switch(&mut config, &SwitchCommand { group: Some("nowhere".to_string()) }),
        Err(Error::NotFound { group: "nowhere".to_string(), name: None })
    );
}

#[test]
fn rename_enable_disable_commands() {
    let mut config = registry();
    let cmd = RenameCommand { group: None, old_name: "jq".to_string(), new_name: "q".to_string() };
    assert_eq!(
        rename(&mut config, &cmd),
        Ok(vec![
            LinkOp::Uninstall { name: "jq".to_string() },
            LinkOp::Install { name: "q".to_string(), target: "/usr/bin/jq".to_string() },
        ])
    );
    let cmd = DisableCommand { group: None, name: "q".to_string() };
    assert_eq!(disable(&mut config, &cmd), Ok(vec![LinkOp::Uninstall { name: "q".to_string() }]));
    assert!(!config.find("base", "q").unwrap().enabled);
    let cmd = EnableCommand { group: None, name: "q".to_string() };
    assert_eq!(
        enable(&mut config, &cmd),
        Ok(vec![LinkOp::Install { name: "q".to_string(), target: "/usr/bin/jq".to_string() }])
    );
    let cmd = EnableCommand { group: Some("dev".to_string()), name: "q".to_string() };
    assert_eq!(
        enable(&mut config, &cmd),
        Err(Error::NotFound { group: "dev".to_string(), name: Some("q".to_string()) })
    );
}

#[test]
fn info_command_shows_record_and_group() {
    let config = registry();
    let shown = info(&config, &InfoCommand { group: None, name: "jq".to_string() }).unwrap();
    assert_eq!(shown.bin.path, "/usr/bin/jq");
    assert_eq!(shown.group, "base");
    assert!(shown.in_active_group);
    let cmd = InfoCommand { group: Some("dev".to_string()), name: "fd".to_string() };
    let shown = info(&config, &cmd).unwrap();
    assert!(!shown.in_active_group);
    assert_eq!(
        info(&config, &InfoCommand { group: None, name: "fd".to_string() }),
        Err(Error::NotFound { group: "base".to_string(), name: Some("fd".to_string()) })
    );
}

#[test]
fn search_command_marks_active_group() {
    let mut config = registry();
    config.set_enabled("dev", "fd", false).unwrap();
    let found = xalias::commands::search(&config, &SearchCommand { query: "/".to_string() });
    assert_eq!(
        found,
        vec![
            Found {
                group: "base".to_string(),
                name: "jq".to_string(),
                path: "/usr/bin/jq".to_string(),
                enabled: true,
                active: true,
            },
            Found {
                group: "dev".to_string(),
                name: "fd".to_string(),
                path: "/opt/fd".to_string(),
                enabled: false,
                active: false,
            },
        ]
    );
    let cmd = SearchCommand { query: "zzz".to_string() };
    assert!(xalias::commands::search(&config, &cmd).is_empty());
}

#[test]
fn only_y_agrees() {
    assert!(confirm("y"));
    assert!(confirm("Y"));
    assert!(confirm("  y\n"));
    assert!(confirm("\tY \r\n"));
    assert!(!confirm(""));
    assert!(!confirm("yes"));
    assert!(!confirm("n"));
    assert!(!confirm("y y"));
    assert!(is_yes("y"));
    assert!(!is_yes("Y"));
    assert!(!is_yes(" y"));
}

#[test]
fn run_asks_the_registry_when_the_absolute_path_is_not_on_disk() {
    let mut config = registry();
    let cmd = RunCommand { group: None, args: words(&["/no/such/tool", "x"]) };
    assert_eq!(
        run(&config, &cmd, true, false),
        Err(Error::NotFound { group: "base".to_string(), name: Some("/no/such/tool".to_string()) })
    );
    assert_eq!(
        run(&config, &cmd, true, true),
        Ok(Launch {
            program: "/no/such/tool".to_string(),
            args: vec!["x".to_string()],
            direct: true,
        })
    );
    let target =
        Target::File { path: "/opt/tool".to_string(), stem: Stem::Text("tool".to_string()) };
    config.add("base", &target, Some("/no/such/tool".to_string())).unwrap();
    assert_eq!(
        run(&config, &cmd, true, false),
        Ok(Launch { program: "/opt/tool".to_string(), args: vec!["x".to_string()], direct: false })
    );
}

#[test]
fn run_looks_a_relative_name_up_even_if_it_is_on_disk() {
    let config = registry();
    let cmd = RunCommand { group: None, args: words(&["jq"]) };
    assert_eq!(
        run(&config, &cmd, false, true),
        Ok(Launch { program: "/usr/bin/jq".to_string(), args: vec![], direct: false })
    );
    let cmd = RunCommand { group: None, args: words(&["fd"]) };
    assert_eq!(
        run(&config, &cmd, false, true),
        Err(Error::NotFound { group: "base".to_string(), name: Some("fd".to_string()) })
    );
}

#[test]
fn rm_with_delete_takes_the_group_with_its_last_record() {
    let mut config = registry();
    let cmd =
        RmCommand { group: Some("dev".to_string()), name: Some("fd".to_string()), delete: true };
    assert_eq!(rm(&mut config, &cmd, false), Ok(vec![]));
    assert!(config.find("dev", "fd").is_some());
    assert_eq!(rm(&mut config, &cmd, true), Ok(vec![]));
    assert!(!config.group_exists("dev"));
    let cmd = RmCommand { group: None, name: Some("jq".to_string()), delete: true };
    assert_eq!(rm(&mut config, &cmd, true), Ok(vec![LinkOp::Uninstall { name: "jq".to_string() }]));
    assert!(!config.group_exists("base"));
}
