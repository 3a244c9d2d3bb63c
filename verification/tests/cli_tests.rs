use ssh_quick_connect::cli::{action_for, parse_cli_args, select_connection, CliCommand, RunAction, USAGE};
use ssh_quick_connect::config::Connection;

fn args(items: &[&str]) -> Vec<String> {
    items.iter().map(|s| s.to_string()).collect()
}

#[test]
fn parses_list_command() {
    let command = parse_cli_args(vec!["--list".to_string()]).expect("expected --list to parse");
    assert!(matches!(command, CliCommand::List));
}

#[test]
fn parses_connect_command() {
    let command = parse_cli_args(vec!["--connect".to_string(), "prod".to_string()])
        .expect("expected --connect to parse");
    match command {
        CliCommand::Connect(value) => assert_eq!(value, "prod"),
        _ => panic!("expected connect command"),
    }
}

#[test]
fn rejects_unknown_arguments() {
    assert!(parse_cli_args(vec!["--unknown".to_string()]).is_err());
}

#[test]
fn parses_help_command() {
    let command = parse_cli_args(vec!["--help".to_string()]).expect("expected --help to parse");
    assert!(matches!(command, CliCommand::Help));
}

#[test]
fn parses_short_flags_and_no_arguments() {
    assert!(matches!(parse_cli_args(args(&[])), Ok(CliCommand::Interactive)));
    assert!(matches!(parse_cli_args(args(&["-l"])), Ok(CliCommand::List)));
    assert!(matches!(parse_cli_args(args(&["-h"])), Ok(CliCommand::Help)));
    match parse_cli_args(args(&["-c", " x "])) {
        Ok(CliCommand::Connect(q)) => assert_eq!(q, " x "),
        _ => panic!("expected connect command"),
    }
}

#[test]
fn argument_errors_show_usage() {
    match parse_cli_args(args(&["--connect", "  "])) {
        Err(m) => assert_eq!(m, format!("missing connection name\n\n{USAGE}")),
        Ok(_) => panic!("expected an error"),
    }
    for bad in [&["--list", "x"][..], &["--connect"][..], &["a", "b", "c"][..], &["-x"][..]] {
        match parse_cli_args(args(bad)) {
            Err(m) => assert_eq!(m, format!("invalid arguments\n\n{USAGE}")),
            Ok(_) => panic!("expected an error"),
        }
    }
    assert!(USAGE.starts_with("Usage:\n  ssh-quick-connect"));
}

#[test]
fn selects_the_connection_found() {
    let connections = vec![
        Connection {
            id: Some("a".to_string()),
            name: "alpha".to_string(),
            host: "alpha.example".to_string(),
            user: None,
            port: None,
            identity_file: None,
            options: vec![],
        },
        Connection {
            id: None,
            name: "beta".to_string(),
            host: "beta.example".to_string(),
            user: None,
            port: None,
            identity_file: None,
            options: vec![],
        },
    ];
    let chosen = select_connection("BETA", &connections).expect("expected a match");
    assert_eq!(chosen, &connections[1]);
    assert_eq!(
        select_connection("gamma", &connections),
        Err("no connection matching 'gamma'".to_string())
    );
}

#[test]
fn created_config_stops_the_run_whatever_the_command() {
    assert!(matches!(ssh_quick_connect::cli::after_config_ensured(true), RunAction::ReportCreated));
    assert!(matches!(ssh_quick_connect::cli::after_config_ensured(false), RunAction::LoadConfig));
}

#[test]
fn commands_become_actions() {
    let connections = vec![
        Connection {
            id: Some("a".to_string()),
            name: "alpha".to_string(),
            host: "alpha.example".to_string(),
            user: None,
            port: None,
            identity_file: None,
            options: vec![],
        },
        Connection {
            id: None,
            name: "beta".to_string(),
            host: "beta.example".to_string(),
            user: None,
            port: None,
            identity_file: None,
            options: vec![],
        },
    ];
    assert!(matches!(action_for(&CliCommand::Help, &connections), Ok(RunAction::PrintUsage)));
    assert!(matches!(action_for(&CliCommand::List, &connections), Ok(RunAction::PrintList)));
    assert!(matches!(
        action_for(&CliCommand::Interactive, &connections),
        Ok(RunAction::ChooseInMenu)
    ));
    assert!(matches!(
        action_for(&CliCommand::Connect(" Beta ".to_string()), &connections),
        Ok(RunAction::Connect(1))
    ));
    assert!(matches!(
        action_for(&CliCommand::Connect("example".to_string()), &connections),
        Err(m) if m.starts_with("ambiguous connection 'example'")
    ));
    assert!(matches!(
        action_for(&CliCommand::Connect("zeta".to_string()), &connections),
        Err(m) if m == "no connection matching 'zeta'"
    ));
}
