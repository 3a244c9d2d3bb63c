use ssh_quick_connect::config::Connection;
use ssh_quick_connect::ssh::{build_ssh_args, destination};

#[test]
fn destination_with_user() {
    let connection = Connection {
        id: Some("prod".to_string()),
        name: "prod".to_string(),
        host: "example.com".to_string(),
        user: Some("alice".to_string()),
        port: None,
        identity_file: None,
        options: vec![],
    };

    assert_eq!(destination(&connection), "alice@example.com");
}

#[test]
fn destination_without_user() {
    let connection = Connection {
        id: Some("prod".to_string()),
        name: "prod".to_string(),
        host: "example.com".to_string(),
        user: None,
        port: None,
        identity_file: None,
        options: vec![],
    };

    assert_eq!(destination(&connection), "example.com");
}

#[test]
fn destination_ignores_blank_user() {
    let connection = Connection {
        id: None,
        name: "n".to_string(),
        host: "h.example".to_string(),
        user: Some(" \n".to_string()),
        port: None,
        identity_file: None,
        options: vec![],
    };
    assert_eq!(destination(&connection), "h.example");
}

#[test]
fn builds_full_ssh_args() {
    let connection = Connection {
        id: Some("prod".to_string()),
        name: "prod".to_string(),
        host: "example.com".to_string(),
        user: Some("alice".to_string()),
        port: Some(2222),
        identity_file: Some("~/.ssh/id_ed25519".to_string()),
        options: vec![
            "StrictHostKeyChecking=accept-new".to_string(),
            "ServerAliveInterval=30".to_string(),
        ],
    };

    let args: Vec<String> = build_ssh_args(&connection);

    assert_eq!(
        args,
        vec![
            "alice@example.com",
            "-p",
            "2222",
            "-i",
            "~/.ssh/id_ed25519",
            "-o",
            "StrictHostKeyChecking=accept-new",
            "-o",
            "ServerAliveInterval=30",
        ]
    );
}

#[test]
fn builds_minimal_ssh_args_and_formats_ports() {
    let mut connection = Connection {
        id: None,
        name: "n".to_string(),
        host: "h".to_string(),
        user: None,
        port: None,
        identity_file: None,
        options: vec![],
    };
    assert_eq!(build_ssh_args(&connection), vec!["h"]);
    for (port, text) in [(0u16, "0"), (7, "7"), (10, "10"), (22, "22"), (65535, "65535")] {
        connection.port = Some(port);
        assert_eq!(build_ssh_args(&connection), vec!["h", "-p", text]);
    }
}
