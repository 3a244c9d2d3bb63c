use ssh_quick_connect::config::Connection;
use ssh_quick_connect::ui::{
    connection_list_lines, find_connection, find_lowered, render_connection_label, LoweredFields,
};

fn sample_connections() -> Vec<Connection> {
    vec![
        Connection {
            id: Some("dev".to_string()),
            name: "dev-api".to_string(),
            host: "api.dev.local".to_string(),
            user: None,
            port: None,
            identity_file: None,
            options: vec![],
        },
        Connection {
            id: Some("prod-app".to_string()),
            name: "prod-app".to_string(),
            host: "app.example.com".to_string(),
            user: None,
            port: None,
            identity_file: None,
            options: vec![],
        },
        Connection {
            id: Some("prod-db".to_string()),
            name: "prod-db".to_string(),
            host: "db.example.com".to_string(),
            user: None,
            port: None,
            identity_file: None,
            options: vec![],
        },
    ]
}

#[test]
fn finds_by_exact_name() {
    let connections = sample_connections();
    assert_eq!(
        find_connection("prod-app", &connections).expect("expected exact match"),
        1
    );
}

#[test]
fn finds_by_id() {
    let connections = sample_connections();
    assert_eq!(
        find_connection("prod-db", &connections).expect("expected id match"),
        2
    );
}

#[test]
fn finds_by_unique_fragment() {
    let connections = sample_connections();
    assert_eq!(
        find_connection("dev", &connections).expect("expected unique fragment match"),
        0
    );
}

#[test]
fn rejects_ambiguous_fragment() {
    let connections = sample_connections();
    assert!(find_connection("prod", &connections).is_err());
}

#[test]
fn renders_connection_label_with_id() {
    let connection = Connection {
        id: Some("prod".to_string()),
        name: "prod-api".to_string(),
        host: "api.example.com".to_string(),
        user: None,
        port: None,
        identity_file: None,
        options: vec![],
    };
    assert_eq!(
        render_connection_label(&connection),
        "[prod] prod-api (api.example.com)"
    );
}

#[test]
fn renders_connection_label_without_id() {
    let connection = Connection {
        id: None,
        name: "prod-api".to_string(),
        host: "api.example.com".to_string(),
        user: None,
        port: None,
        identity_file: None,
        options: vec![],
    };
    assert_eq!(render_connection_label(&connection), "prod-api (api.example.com)");
}

#[test]
fn finds_by_host_fragment() {
    let connections = sample_connections();
    assert_eq!(
        find_connection("db.example", &connections).expect("expected host match"),
        2
    );
}

#[test]
fn lookup_trims_and_ignores_ascii_case() {
    let connections = sample_connections();
    assert_eq!(find_connection("  PROD-APP\t", &connections), Ok(1));
    assert_eq!(find_connection("Prod-Db", &connections), Ok(2));
}

#[test]
fn fragment_lookup_lowercases_the_query() {
    let connections = sample_connections();
    assert_eq!(find_connection("DB.EXAMPLE", &connections), Ok(2));
    let unicode = vec![Connection {
        id: None,
        name: "Überserver".to_string(),
        host: "h".to_string(),
        user: None,
        port: None,
        identity_file: None,
        options: vec![],
    }];
    assert_eq!(find_connection("ÜBER", &unicode), Ok(0));
}

#[test]
fn lookup_errors_say_why() {
    let connections = sample_connections();
    assert_eq!(
        find_connection(" \t ", &connections),
        Err("connection query cannot be empty".to_string())
    );
    assert_eq!(
        find_connection(" nothing ", &connections),
        Err("no connection matching 'nothing'".to_string())
    );
    assert_eq!(
        find_connection("prod", &connections),
        Err("ambiguous connection 'prod'. Matches: [prod-app] prod-app (app.example.com), \
             [prod-db] prod-db (db.example.com). Use a more specific name."
            .to_string())
    );
}

#[test]
fn exact_match_wins_over_fragments() {
    let mut connections = sample_connections();
    connections.push(Connection {
        id: None,
        name: "dev".to_string(),
        host: "other".to_string(),
        user: None,
        port: None,
        identity_file: None,
        options: vec![],
    });
    // "dev" is the id of the first connection and the name of the last; the first wins.
    assert_eq!(find_connection("DEV", &connections), Ok(0));
    assert_eq!(find_connection("dev-api", &connections), Ok(0));
}

#[test]
fn lists_connections_numbered_from_one() {
    let mut connections = sample_connections();
    for k in 0..8 {
        connections.push(Connection {
            id: None,
            name: format!("n{k}"),
            host: "h".to_string(),
            user: None,
            port: None,
            identity_file: None,
            options: vec![],
        });
    }
    let lines = connection_list_lines(&connections);
    assert_eq!(lines.len(), 11);
    assert_eq!(lines[0], "  1. [dev] dev-api (api.dev.local)");
    assert_eq!(lines[2], "  3. [prod-db] prod-db (db.example.com)");
    assert_eq!(lines[10], "  11. n7 (h)");
    assert!(connection_list_lines(&[]).is_empty());
}

#[test]
fn lookup_with_given_lowered_texts() {
    let connections = sample_connections();
    let lowered: Vec<LoweredFields> = connections
        .iter()
        .map(|c| LoweredFields {
            id: c.id.clone(),
            name: c.name.clone(),
            host: c.host.clone(),
        })
        .collect();
    assert_eq!(find_lowered("PROD-DB", "prod-db", &connections, &lowered), Ok(2));
    assert_eq!(find_lowered("DB.EX", "db.ex", &connections, &lowered), Ok(2));
    // The lowered query given is what fragment matching uses.
    assert_eq!(find_lowered("DB.EX", "api.dev", &connections, &lowered), Ok(0));
    assert_eq!(find_lowered("", "", &connections, &lowered), Err("connection query cannot be empty".to_string()));
}

#[test]
fn trimming_and_ascii_case_never_change_the_choice() {
    let connections = sample_connections();
    for q in ["prod-app", "dev", "db.example", "prod", "nothing", "API.DEV"] {
        let base = find_connection(q, &connections).ok();
        assert_eq!(find_connection(&format!("  {q}\t"), &connections).ok(), base);
        assert_eq!(find_connection(&q.to_ascii_uppercase(), &connections).ok(), base);
        assert_eq!(find_connection(&q.to_ascii_lowercase(), &connections).ok(), base);
    }
}
