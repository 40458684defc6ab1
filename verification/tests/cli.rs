use std::path::PathBuf;

use cvd::cli::{configuration_file, Cli, CliError, Command, ViewFormat};

#[test]
fn directory_option_is_available_on_all_commands_and_conflicts_with_file() {
    for command in [
        "run",
        "syntax-check",
        "state-view",
        "state-resources",
        "state-report",
    ] {
        let parsed = Cli::try_parse_from(&["cvd", command, "-F", "project"]).unwrap();
        let (file, directory) = match parsed.command {
            Command::Run(args) => (args.file, args.directory),
            Command::SyntaxCheck(args) => (args.file, args.directory),
            Command::StateView(args) => (args.file, args.directory),
            Command::StateResources(args) => (args.file, args.directory),
            Command::StateReport(args) => (args.file, args.directory),
        };
        assert_eq!(
            PathBuf::from(configuration_file(&file, directory.as_deref())),
            PathBuf::from("project/cvd.yaml")
        );
        assert!(Cli::try_parse_from(&["cvd", command, "-f", "other.yml", "-F", "project"]).is_err());
        assert!(Cli::try_parse_from(&["cvd", command, "-F"]).is_err());
    }
}

#[test]
fn parses_syntax_check_with_defaults_and_file_selection() {
    let cli = Cli::try_parse_from(&["cvd", "syntax-check"]).unwrap();
    let Command::SyntaxCheck(check) = cli.command else {
        panic!("expected syntax-check command");
    };
    assert_eq!(check.file, "cvd.yml");
    assert_eq!(check.directory, None);

    let cli = Cli::try_parse_from(&["cvd", "syntax-check", "--file", "scenario.yml"]).unwrap();
    let Command::SyntaxCheck(check) = cli.command else {
        panic!("expected syntax-check command");
    };
    assert_eq!(check.file, "scenario.yml");
}

#[test]
fn parses_run_with_defaults() {
    let cli = Cli::try_parse_from(&["cvd", "run"]).unwrap();

    let Command::Run(run) = cli.command else {
        panic!("expected run command");
    };
    assert_eq!(run.scenario, None);
    assert_eq!(run.file, "cvd.yml");
    assert_eq!(run.state_dir, None);
    assert!(!run.keep);
}

#[test]
fn parses_run_options() {
    let cli = Cli::try_parse_from(&[
        "cvd",
        "run",
        "default/restart",
        "--file",
        "scenarios.yml",
        "--state-dir",
        ".cvd/custom",
        "--keep",
    ])
    .unwrap();

    let Command::Run(run) = cli.command else {
        panic!("expected run command");
    };
    assert_eq!(run.scenario.as_deref(), Some("default/restart"));
    assert_eq!(run.file, "scenarios.yml");
    assert_eq!(run.state_dir.unwrap(), ".cvd/custom");
    assert!(run.keep);
}

#[test]
fn parses_state_view_defaults_and_selection() {
    let cli = Cli::try_parse_from(&["cvd", "state-view"]).unwrap();
    let Command::StateView(show) = cli.command else {
        panic!("expected state-view command");
    };
    assert!(matches!(show.view, ViewFormat::Yaml));
    assert_eq!(show.run, "last");
    assert_eq!(show.file, "cvd.yml");

    let cli = Cli::try_parse_from(&[
        "cvd",
        "state-view",
        "json",
        "--run",
        "run-123",
        "--state-dir",
        ".cvd",
    ])
    .unwrap();
    let Command::StateView(show) = cli.command else {
        panic!("expected state-view command");
    };
    assert!(matches!(show.view, ViewFormat::Json));
    assert_eq!(show.run, "run-123");
    assert_eq!(show.state_dir.unwrap(), ".cvd");
}

#[test]
fn parses_state_resources_defaults_and_deleted() {
    let cli = Cli::try_parse_from(&["cvd", "state-resources"]).unwrap();
    let Command::StateResources(resources) = cli.command else {
        panic!("expected state-resources command");
    };
    assert!(!resources.deleted);
    assert_eq!(resources.run, "last");

    let cli =
        Cli::try_parse_from(&["cvd", "state-resources", "--deleted", "--run", "run-123"]).unwrap();
    let Command::StateResources(resources) = cli.command else {
        panic!("expected state-resources command");
    };
    assert!(resources.deleted);
    assert_eq!(resources.run, "run-123");
}

#[test]
fn parses_state_report_defaults_and_selection() {
    let cli = Cli::try_parse_from(&["cvd", "state-report"]).unwrap();
    let Command::StateReport(report) = cli.command else {
        panic!("expected state-report command");
    };
    assert_eq!(report.run, "last");
    assert_eq!(report.file, "cvd.yml");
    assert_eq!(report.state_dir, None);

    let cli = Cli::try_parse_from(&[
        "cvd",
        "state-report",
        "--run",
        "run-123",
        "--file",
        "scenarios.yml",
        "--state-dir",
        ".cvd",
    ])
    .unwrap();
    let Command::StateReport(report) = cli.command else {
        panic!("expected state-report command");
    };
    assert_eq!(report.run, "run-123");
    assert_eq!(report.file, "scenarios.yml");
    assert_eq!(report.state_dir.unwrap(), ".cvd");
}

#[test]
fn command_line_errors_name_the_offending_argument() {
    assert_eq!(Cli::try_parse_from(&["cvd"]).err(), Some(CliError::MissingSubcommand));
    assert_eq!(Cli::try_parse_from(&["cvd", "walk"]).err(), Some(CliError::UnknownSubcommand(1)));
    assert_eq!(
        Cli::try_parse_from(&["cvd", "run", "--deleted"]).err(),
        Some(CliError::UnknownArgument(2))
    );
    assert_eq!(
        Cli::try_parse_from(&["cvd", "run", "--keep", "--keep"]).err(),
        Some(CliError::Repeated(3))
    );
    assert_eq!(
        Cli::try_parse_from(&["cvd", "run", "--keep=yes"]).err(),
        Some(CliError::UnexpectedValue(2))
    );
    assert_eq!(
        Cli::try_parse_from(&["cvd", "run", "a", "b"]).err(),
        Some(CliError::UnexpectedPositional(3))
    );
    assert_eq!(
        Cli::try_parse_from(&["cvd", "state-view", "toml"]).err(),
        Some(CliError::InvalidView(2))
    );
    assert_eq!(
        Cli::try_parse_from(&["cvd", "state-report", "-f", "a.yml", "--directory=x"]).err(),
        Some(CliError::Conflict)
    );
    assert_eq!(Cli::try_parse_from(&["cvd", "-V"]).err(), Some(CliError::VersionRequested));
    assert_eq!(
        Cli::try_parse_from(&["cvd", "syntax-check", "--help"]).err(),
        Some(CliError::HelpRequested)
    );
}

#[test]
fn attached_values_and_the_option_terminator_are_read() {
    let cli = Cli::try_parse_from(&["cvd", "run", "--file=a.yml", "--", "-odd"]).unwrap();
    let Command::Run(run) = cli.command else {
        panic!("expected run command");
    };
    assert_eq!(run.file, "a.yml");
    assert_eq!(run.scenario.as_deref(), Some("-odd"));
    let cli = Cli::try_parse_from(&["cvd", "syntax-check", "-fb.yml"]).unwrap();
    let Command::SyntaxCheck(check) = cli.command else {
        panic!("expected syntax-check command");
    };
    assert_eq!(check.file, "b.yml");
}
