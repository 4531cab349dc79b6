use bargo::commands::{
    config_file, dep_source_path, main_source_path, Action, BargoError, BuildCommand,
    CleanCommand, DepCommand, EmuCommand, NewCommand,
};
use bargo::config::{sort_dependencies, Config, Dependency};

fn named_config(name: &str) -> Config {
    let mut config = Config::default();
    config.package.name = String::from(name);
    config
}

#[test]
fn dep_add_inserts_sorted_by_name() {
    let command = DepCommand::new(
        String::from("middle"),
        Action::DepAdd,
        named_config("demo"),
    );
    let first = command.apply().unwrap();
    let command = DepCommand::new(String::from("aaa"), Action::DepAdd, first);
    let second = command.apply().unwrap();
    let command = DepCommand::new(String::from("zzz"), Action::DepAdd, second);
    let third = command.apply().unwrap();
    let names: Vec<String> = third
        .dependencies
        .as_ref()
        .unwrap()
        .iter()
        .map(|d| d.name.clone())
        .collect();
    assert_eq!(names, vec!["aaa", "middle", "zzz"]);
}

#[test]
fn dep_add_overwrites_a_declared_remote_source() {
    let mut config = named_config("demo");
    config.dependencies = Some(vec![Dependency {
        name: String::from("lib"),
        url: Some(String::from("http://example.test/lib.bas")),
    }]);
    let command = DepCommand::new(String::from("lib"), Action::DepAdd, config);
    let updated = command.apply().unwrap();
    let deps = updated.dependencies.unwrap();
    assert_eq!(deps.len(), 1);
    assert_eq!(deps[0].name, "lib");
    assert!(deps[0].url.is_none());
}

#[test]
fn dep_remove_drops_only_the_named_dependency() {
    let mut config = named_config("demo");
    config.dependencies = Some(vec![
        Dependency {
            name: String::from("a"),
            url: None,
        },
        Dependency {
            name: String::from("b"),
            url: None,
        },
    ]);
    let command = DepCommand::new(String::from("a"), Action::DepRemove, config);
    let updated = command.apply().unwrap();
    let deps = updated.dependencies.unwrap();
    assert_eq!(deps.len(), 1);
    assert_eq!(deps[0].name, "b");
}

#[test]
fn dep_command_refuses_other_actions() {
    let command = DepCommand::new(String::from("a"), Action::Unknown, named_config("demo"));
    let err = command.apply().err().unwrap();
    assert_eq!(err.message, "Unknown action");
}

#[test]
fn dependencies_sort_the_same_whatever_the_input_order() {
    let forward = vec![
        Dependency {
            name: String::from("alpha"),
            url: None,
        },
        Dependency {
            name: String::from("beta"),
            url: None,
        },
    ];
    let backward = vec![
        Dependency {
            name: String::from("beta"),
            url: None,
        },
        Dependency {
            name: String::from("alpha"),
            url: None,
        },
    ];
    let a: Vec<String> = sort_dependencies(&forward).iter().map(|d| d.name.clone()).collect();
    let b: Vec<String> = sort_dependencies(&backward).iter().map(|d| d.name.clone()).collect();
    assert_eq!(a, b);
    assert_eq!(a, vec!["alpha", "beta"]);
}

#[test]
fn sorting_keeps_the_last_entry_of_a_repeated_name() {
    let twice = vec![
        Dependency {
            name: String::from("lib"),
            url: Some(String::from("http://example.test/lib.bas")),
        },
        Dependency {
            name: String::from("lib"),
            url: None,
        },
    ];
    let sorted = sort_dependencies(&twice);
    assert_eq!(sorted.len(), 1);
    assert_eq!(sorted[0].name, "lib");
    assert!(sorted[0].url.is_none());
}

#[test]
fn build_and_clean_name_the_output_after_the_package() {
    let build = BuildCommand::new(named_config("game"));
    assert_eq!(build.output_path(), "game.bas");
    let clean = CleanCommand::new(named_config("game"));
    assert_eq!(clean.output_path(), "game.bas");
}

#[test]
fn the_line_terminator_follows_the_configuration() {
    let mut config = named_config("game");
    config.package.carriage_return = true;
    assert_eq!(BuildCommand::new(config).line_terminator(), "\r\n");
    let mut config = named_config("game");
    config.package.carriage_return = false;
    assert_eq!(BuildCommand::new(config).line_terminator(), "\n");
}

#[test]
fn source_paths_follow_the_conventions() {
    assert_eq!(main_source_path(), "src/main.bas");
    assert_eq!(dep_source_path(&String::from("tools")), "src/tools.bas");
    assert_eq!(config_file(), "Bargo.toml");
}

#[test]
fn error_messages_name_the_path() {
    let path = String::from("src/tools.bas");
    assert_eq!(
        BargoError::missing_source(&path).message,
        "Could not open src/tools.bas"
    );
    assert_eq!(
        BargoError::missing_dep_source(&path).message,
        "Could not open src/tools.bas\nMake sure this dep exists in src/"
    );
    assert_eq!(
        BargoError::create_failure(&String::from("game.bas")).message,
        "Could not create game.bas"
    );
    assert_eq!(
        BargoError::write_failure(&String::from("game.bas")).message,
        "Could not write to game.bas"
    );
    assert_eq!(
        BargoError::fetch_failure(&String::from("http://example.test")).message,
        "Could not fetch http://example.test"
    );
}

#[test]
fn emulator_paths_and_startup_line() {
    let emu = EmuCommand::new(named_config("game"));
    assert_eq!(emu.sdcard_file(), "sdcard/game.bas");
    assert_eq!(emu.autoexec_line(), "bbcbasic /game.bas\r\n");
    assert_eq!(emu.autoexec_file(), "autoexec.txt");
}

#[test]
fn a_fresh_package_gets_the_defaults_and_its_name() {
    let config = NewCommand::initial_config(&String::from("demo"));
    assert_eq!(config.package.name, "demo");
    assert!(config.package.carriage_return);
    assert_eq!(config.package.numbering, 10);
    assert_eq!(config.package.version, "0.1.0");
    assert_eq!(config.package.width, 80);
    assert!(config.package.labels);
    assert!(config.dependencies.unwrap().is_empty());
    assert_eq!(NewCommand::hello_line(), "PRINT \"Hello World!\"");
    assert_eq!(NewCommand::source_dir(&String::from("demo")), "demo/src");
    assert_eq!(
        NewCommand::config_path(&String::from("demo")),
        "demo/Bargo.toml"
    );
    assert_eq!(
        NewCommand::main_path(&String::from("demo")),
        "demo/src/main.bas"
    );
}

#[test]
fn usage_lines_describe_each_command() {
    assert_eq!(
        BuildCommand::usage(None),
        "\tbuild\tBuild the current package"
    );
    assert_eq!(
        CleanCommand::usage(None),
        "\tclean\tRemove the generated file"
    );
    assert_eq!(
        EmuCommand::usage(None),
        "\temu\tRun the code inside an emulator"
    );
    assert_eq!(
        DepCommand::usage(Some(Action::DepAdd)),
        "\tadd\tAdd dependencies to this package"
    );
    assert_eq!(
        DepCommand::usage(Some(Action::DepRemove)),
        "\tremove\tRemove dependencies from this package"
    );
    assert_eq!(DepCommand::usage(None), "");
    assert_eq!(
        NewCommand::usage(Some(Action::New)),
        "\tnew\tCreate a new Bargo package"
    );
    assert_eq!(
        NewCommand::usage(Some(Action::Init)),
        "\tinit\tCreate a new Bargo package in an existing directory"
    );
    assert_eq!(NewCommand::usage(Some(Action::Unknown)), "");
}
