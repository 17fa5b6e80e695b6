use ascii_arcade::cli::{AutostartAction, Cli, CliError, Command};

#[test]
fn cli_parse_play_subcommand() {
    let cli = Cli::try_parse_from(&["aa", "play", "matrix", "--theme", "amber", "--fps", "60", "--enable-doom"]).unwrap();
    assert!(cli.enable_doom);
    match cli.command {
        Command::Play { scene, theme, fps } => {
            assert_eq!(scene, "matrix");
            assert_eq!(theme, "amber");
            assert_eq!(fps, 60);
        }
        _ => panic!("expected Play subcommand"),
    }
}

#[test]
fn cli_parse_run_subcommand_defaults() {
    let cli = Cli::try_parse_from(&["aa", "run"]).unwrap();
    assert!(!cli.enable_doom);
    match cli.command {
        Command::Run { scene, theme } => {
            assert_eq!(scene, "donut");
            assert_eq!(theme, "hacker");
        }
        _ => panic!("expected Run subcommand"),
    }
}

#[test]
fn cli_parse_web_subcommand() {
    let cli = Cli::try_parse_from(&["aa", "web", "pipes", "--port", "9000"]).unwrap();
    match cli.command {
        Command::Web { scene, theme, port } => {
            assert_eq!(scene, "pipes");
            assert_eq!(theme, "hacker");
            assert_eq!(port, 9000);
        }
        _ => panic!("expected Web subcommand"),
    }
}

#[test]
fn cli_parse_autostart_subcommands() {
    let cli_enable = Cli::try_parse_from(&["aa", "autostart", "enable", "life", "--theme", "ice"]).unwrap();
    match cli_enable.command {
        Command::Autostart { action: AutostartAction::Enable { scene, theme } } => {
            assert_eq!(scene, "life");
            assert_eq!(theme, "ice");
        }
        _ => panic!("expected Autostart Enable"),
    }

    let cli_disable = Cli::try_parse_from(&["aa", "autostart", "disable"]).unwrap();
    match cli_disable.command {
        Command::Autostart { action: AutostartAction::Disable } => {}
        _ => panic!("expected Autostart Disable"),
    }

    let cli_status = Cli::try_parse_from(&["aa", "autostart", "status"]).unwrap();
    match cli_status.command {
        Command::Autostart { action: AutostartAction::Status } => {}
        _ => panic!("expected Autostart Status"),
    }
}

#[test]
fn cli_parse_scenes_and_themes_subcommands() {
    let cli_scenes = Cli::try_parse_from(&["aa", "scenes"]).unwrap();
    match cli_scenes.command {
        Command::Scenes => {}
        _ => panic!("expected Scenes"),
    }

    let cli_themes = Cli::try_parse_from(&["aa", "themes"]).unwrap();
    match cli_themes.command {
        Command::Themes => {}
        _ => panic!("expected Themes"),
    }
}

#[test]
fn cli_accepts_short_and_attached_option_forms() {
    let a = Cli::try_parse_from(&["aa", "--enable-doom", "play", "-tice", "--fps=12"]).unwrap();
    assert_eq!(a, Cli { command: Command::Play { scene: "donut".into(), theme: "ice".into(), fps: 12 }, enable_doom: true });
    let b = Cli::try_parse_from(&["aa", "web", "-p", "81", "-t", "ghost", "life"]).unwrap();
    assert_eq!(b.command, Command::Web { scene: "life".into(), theme: "ghost".into(), port: 81 });
    let c = Cli::try_parse_from(&["aa", "run", "--", "-weird"]).unwrap();
    assert_eq!(c.command, Command::Run { scene: "-weird".into(), theme: "hacker".into() });
}

#[test]
fn cli_rejects_malformed_command_lines() {
    for bad in [
        vec!["aa"],
        vec!["aa", "dance"],
        vec!["aa", "play", "a", "b"],
        vec!["aa", "play", "--fps", "fast"],
        vec!["aa", "play", "--theme"],
        vec!["aa", "play", "--theme", "a", "--theme", "b"],
        vec!["aa", "web", "--port", "70000"],
        vec!["aa", "run", "--fps", "3"],
        vec!["aa", "scenes", "x"],
        vec!["aa", "autostart"],
        vec!["aa", "autostart", "maybe"],
        vec!["aa", "--enable-doom", "--enable-doom", "scenes"],
        vec!["aa", "--theme", "x", "play"],
    ] {
        assert!(matches!(Cli::try_parse_from(&bad), Err(CliError::Invalid(_))), "accepted {bad:?}");
    }
}

#[test]
fn cli_help_and_version_are_requests_not_errors() {
    for help in [
        vec!["aa", "--help"],
        vec!["aa", "-h"],
        vec!["aa", "help"],
        vec!["aa", "play", "--help"],
        vec!["aa", "--enable-doom", "web", "life", "-h"],
        vec!["aa", "autostart", "enable", "--help"],
    ] {
        assert_eq!(Cli::try_parse_from(&help), Err(CliError::Help), "{help:?}");
    }
    assert_eq!(Cli::try_parse_from(&["aa", "--version"]), Err(CliError::Version));
    assert_eq!(Cli::try_parse_from(&["aa", "-V", "play"]), Err(CliError::Version));
    // After `--` the text is a scene name, not a request for help.
    let c = Cli::try_parse_from(&["aa", "run", "--", "--help"]).unwrap();
    assert_eq!(c.command, Command::Run { scene: "--help".into(), theme: "hacker".into() });
}
