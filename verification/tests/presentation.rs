use nirvana::cli::{
    add_command, format_version, is_active, name_width, resolve_query, ticket_item, AddArgs, ConnectionKind,
    QueryError, SecretStore,
};
use nirvana::domain::{AppConfig, AppPaths, Connection, Slot, Ticket};
use nirvana::errors::IntegrationError;
use nirvana::api::NirvanaApi;
use nirvana::errors::{NirvanaError, TrackingError};
use nirvana::gui::{connection_data_for, create_connection, get_active_connection, CreateConnectionInput, GuiConnection};
use nirvana::storage::Database;
use nirvana::integration::{
    build_integration, issue_from_parts, issue_from_response, reads_body, IntegrationKind, JiraIntegration,
};
use nirvana::table::{
    column_widths, connection_aligns, connection_columns, connection_row, headers, join_row, pad_cell, pad_cells,
    render_cells, slot_aligns, slot_columns, slot_row, slot_row_from, Align, Column,
};

fn conn(id: i64, name: &str, kind: &str) -> Connection {
    Connection {
        id,
        name: name.to_string(),
        kind: kind.to_string(),
        host: "acme.atlassian.net".to_string(),
        identity: "me@acme.test".to_string(),
        secret_store: "plaintext".to_string(),
        created_at: 0,
        updated_at: 0,
    }
}

#[test]
fn build_integration_serves_jira_kinds_only() {
    for kind in ["jira-cloud", "jira-dc"] {
        let i = build_integration(&conn(1, "n", kind), "tok").unwrap();
        let IntegrationKind::Jira(j) = i.kind;
        assert_eq!(j.host, "acme.atlassian.net");
        assert_eq!(j.identity, "me@acme.test");
        assert_eq!(j.token, "tok");
    }
    match build_integration(&conn(1, "n", "Jira-Cloud"), "tok") {
        Err(IntegrationError::UnsupportedKind(k)) => assert_eq!(k, "Jira-Cloud"),
        other => panic!("{other:?}"),
    }
}

#[test]
fn jira_urls() {
    let j = JiraIntegration::new("acme.atlassian.net", "me", "tok");
    assert_eq!(j.issue_url("ABC-1"), "https://acme.atlassian.net/rest/api/3/issue/ABC-1?fields=summary");
    assert_eq!(j.worklog_url("ABC-1"), "https://acme.atlassian.net/rest/api/3/issue/ABC-1/worklog");
}

#[test]
fn issue_answers_are_classified() {
    match issue_from_response("A-1", 404, "404 Not Found", "x", b"{}") {
        Err(IntegrationError::TicketNotFound(k)) => assert_eq!(k, "A-1"),
        other => panic!("{other:?}"),
    }
    for code in [401u16, 403] {
        match issue_from_response("A-1", code, "401 Unauthorized", "x", b"") {
            Err(IntegrationError::Auth(s)) => assert_eq!(s, "401 Unauthorized"),
            other => panic!("{other:?}"),
        }
    }
    match issue_from_response("A-1", 500, "500 Internal Server Error", "HTTP status server error", b"") {
        Err(IntegrationError::Network(m)) => assert_eq!(m, "HTTP status server error"),
        other => panic!("{other:?}"),
    }
    let ok = issue_from_response("A-1", 200, "200 OK", "", br#"{"fields":{"summary":"Fix login"}}"#).unwrap();
    assert_eq!(ok.summary, "Fix login");
    let empty = issue_from_response("A-1", 200, "200 OK", "", br#"{"fields":{}}"#).unwrap();
    assert_eq!(empty.summary, "");
    let number = issue_from_response("A-1", 204, "204 No Content", "", br#"{"fields":{"summary":5}}"#).unwrap();
    assert_eq!(number.summary, "");
    match issue_from_response("A-1", 200, "200 OK", "", b"not json") {
        Err(IntegrationError::Network(m)) => assert_eq!(m, "error decoding response body"),
        other => panic!("{other:?}"),
    }
    assert_eq!(issue_from_parts("A-1", 299, "", "", Some(Some("s".to_string()))).unwrap().summary, "s");
    assert!(matches!(issue_from_parts("A-1", 300, "", "f", Some(None)), Err(IntegrationError::Network(_))));
    assert!(reads_body(200) && reads_body(299));
    assert!(!reads_body(199) && !reads_body(300) && !reads_body(404));
}

#[test]
fn integration_error_messages() {
    assert_eq!(IntegrationError::Network("n".to_string()).message(), "network error: n");
    assert_eq!(IntegrationError::TicketNotFound("K".to_string()).message(), "ticket not found: K");
    assert_eq!(IntegrationError::Auth("401".to_string()).message(), "authentication failed: 401");
    assert_eq!(IntegrationError::UnsupportedKind("x".to_string()).message(), "unsupported connection kind: x");
}

#[test]
fn columns_measure_and_cut_cells() {
    let c = Column::Limited("NAME", 5);
    assert_eq!(c.header(), "NAME");
    assert_eq!(c.initial_width(), 4);
    assert_eq!(c.fit(4, "abcdefgh"), 5);
    assert_eq!(c.fit(4, "ab"), 4);
    assert_eq!(c.render("abcdefgh"), "abcd…");
    assert_eq!(c.render("abcde"), "abcde");
    let s = Column::Static("STARTED", 5);
    assert_eq!(s.initial_width(), 7);
    assert_eq!(s.fit(7, "a very long cell"), 7);
    assert_eq!(s.render("12:345"), "12:34");
    let u = Column::Unlimited("ID");
    assert_eq!(u.initial_width(), 2);
    assert_eq!(u.fit(2, "12345"), 5);
    assert_eq!(u.render("12345"), "12345");
    assert_eq!(Column::Static("A", 10).initial_width(), 10);
}

#[test]
fn cells_are_padded_like_format() {
    for (cell, w) in [("ab", 5usize), ("abc", 6), ("", 3), ("toolong", 3), ("é", 4)] {
        assert_eq!(pad_cell(cell, w, Align::Left), format!("{:<w$}", cell, w = w));
        assert_eq!(pad_cell(cell, w, Align::Right), format!("{:>w$}", cell, w = w));
        assert_eq!(pad_cell(cell, w, Align::Center), format!("{:^w$}", cell, w = w));
    }
}

#[test]
fn rows_are_joined_with_two_spaces() {
    assert_eq!(join_row(&vec!["a".to_string(), "b".to_string(), "c".to_string()]), "a  b  c");
    assert_eq!(join_row(&vec!["a".to_string()]), "a");
    assert_eq!(join_row(&vec![]), "");
}

#[test]
fn connection_table_is_laid_out() {
    let columns = connection_columns();
    assert_eq!(columns.len(), 7);
    let h = headers(&columns);
    assert_eq!(h, vec!["ID", "ACTIVE", "NAME", "KIND", "HOST", "IDENTITY", "UPDATED"]);
    let c = conn(12, "a very long connection name", "jira-cloud");
    let row = connection_row(&c, Some(12), "2024-05-17");
    assert_eq!(row, vec!["12", "*", "a very long connection name", "jira-cloud", "acme.atlassian.net", "me@acme.test", "2024-05-17"]);
    let other = connection_row(&conn(3, "x", "jira-dc"), Some(12), "2024-01-01");
    assert_eq!(other[1], "");
    let rows = vec![row, other];
    let widths = column_widths(&columns, &rows);
    assert_eq!(widths, vec![2, 6, 15, 10, 18, 12, 10]);
    let cells = render_cells(&columns, &rows[0]);
    assert_eq!(cells[2], "a very long co…");
    let padded = pad_cells(&cells, &widths, &connection_aligns());
    assert_eq!(join_row(&padded), "12    *     a very long co…  jira-cloud  acme.atlassian.net  me@acme.test  2024-05-17");
    let header = pad_cells(&h, &widths, &connection_aligns());
    assert_eq!(join_row(&header), "ID  ACTIVE  NAME             KIND        HOST                IDENTITY      UPDATED   ");
}

#[test]
fn slot_table_is_laid_out() {
    let columns = slot_columns();
    assert_eq!(columns.len(), 6);
    assert_eq!(slot_aligns().len(), 6);
    let s = Slot {
        id: 1,
        ticket_key: "ABC-1".to_string(),
        summary: Some("Fix it".to_string()),
        note: None,
        started_at: 1000,
        stopped_at: Some(1000 + 4980),
        published_at: None,
    };
    let row = slot_row_from(&s, 0, "09:00".to_string(), "10:23".to_string());
    assert_eq!(row, vec!["ABC-1", "Fix it", "", "09:00", "10:23", "1h 23m"]);
    let running = Slot { stopped_at: None, ..s };
    let row = slot_row(&running, 1000 + 120);
    assert_eq!(row[4], "");
    assert_eq!(row[5], "2m");
    assert_eq!(row[3].len(), 5);
}

#[test]
fn every_rendered_cell_fits_its_width() {
    let columns = slot_columns();
    let rows = vec![
        vec!["K-1".to_string(), "x".repeat(40), "n".repeat(25), "09:00".to_string(), "10:00".to_string(), "1h 0m".to_string()],
        vec!["LONGKEY-12345".to_string(), format!("a{}", "é".repeat(20)), "".to_string(), "09:00".to_string(), "".to_string(), "5m".to_string()],
    ];
    let widths = column_widths(&columns, &rows);
    for row in &rows {
        let cells = render_cells(&columns, row);
        let padded = pad_cells(&cells, &widths, &slot_aligns());
        for (p, w) in padded.iter().zip(&widths) {
            assert_eq!(p.chars().count(), *w);
        }
    }
}

#[test]
fn kinds_and_stores_have_names_and_labels() {
    assert_eq!(ConnectionKind::JiraCloud.to_string(), "jira-cloud");
    assert_eq!(ConnectionKind::JiraDc.to_string(), "jira-dc");
    assert_eq!(ConnectionKind::JiraCloud.label(), "Jira Cloud");
    assert_eq!(ConnectionKind::JiraDc.label(), "Jira DC");
    assert_eq!(ConnectionKind::JiraCloud.identity_label(), "Email");
    assert_eq!(ConnectionKind::JiraDc.identity_label(), "Username");
    assert_eq!(ConnectionKind::JiraCloud.token_label(), "API token");
    assert_eq!(ConnectionKind::JiraDc.token_label(), "Personal access token");
    assert_eq!(SecretStore::Keyring.to_string(), "keyring");
    assert_eq!(SecretStore::Plaintext.to_string(), "plaintext");
}

#[test]
fn add_command_builds_the_connection() {
    let d = add_command(AddArgs {
        name: Some("work".to_string()),
        kind: Some(ConnectionKind::JiraDc),
        host: Some("jira.local".to_string()),
        identity: Some("me".to_string()),
        storage: Some(SecretStore::Plaintext),
        token: Some("pat".to_string()),
    });
    assert_eq!(d.name, "work");
    assert_eq!(d.kind, "jira-dc");
    assert_eq!(d.host, "jira.local");
    assert_eq!(d.identity, "me");
    assert_eq!(d.secret_store, "plaintext");
    assert_eq!(d.token, "pat");
}

#[test]
fn resolve_query_prefers_ids_then_names() {
    let cs = vec![conn(5, "7", "jira-dc"), conn(7, "work", "jira-dc"), conn(9, "work", "jira-dc")];
    assert_eq!(resolve_query("7", &cs).unwrap(), 1);
    assert_eq!(resolve_query("work", &cs).unwrap(), 1);
    assert_eq!(resolve_query("5", &cs).unwrap(), 0);
    let only_name = vec![conn(1, "42", "jira-dc")];
    assert_eq!(resolve_query("42", &only_name).unwrap(), 0);
    match resolve_query("nope", &cs) {
        Err(e) => {
            assert_eq!(e.message(), "Connection 'nope' not found");
            let QueryError::NotFound(q) = e;
            assert_eq!(q, "nope");
        }
        Ok(i) => panic!("{i}"),
    }
}

#[test]
fn is_active_compares_with_the_active_id() {
    let paths = AppPaths {
        config_dir: String::new(),
        config_file: String::new(),
        db_file: String::new(),
        log_file: String::new(),
        is_dev: false,
    };
    let api = nirvana::api::NirvanaApi::new(paths, AppConfig { active_connection: Some(2) }, nirvana::storage::Database::new());
    assert!(is_active(&conn(2, "a", "jira-dc"), &api));
    assert!(!is_active(&conn(3, "a", "jira-dc"), &api));
}

#[test]
fn version_line() {
    assert_eq!(format_version(true, "0.3.0".to_string(), Some("abc123"), Some("2024-05-17")), "0.3.0-dev (abc123 2024-05-17)");
    assert_eq!(format_version(false, "0.3.0".to_string(), Some("abc123"), Some("2024-05-17")), "0.3.0 (abc123 2024-05-17)");
    assert_eq!(format_version(true, "0.3.0".to_string(), None, Some("2024-05-17")), "0.3.0-dev");
    assert_eq!(format_version(false, "0.3.0".to_string(), Some("abc"), None), "0.3.0");
}

#[test]
fn name_width_and_ticket_items() {
    assert_eq!(name_width(&vec![conn(1, "ab", "k"), conn(2, "abcd", "k")]), 4);
    assert_eq!(name_width(&vec![]), 0);
    let t = Ticket { id: 1, ticket_key: "A-1".to_string(), summary: Some("Fix".to_string()), last_worked_at: 0 };
    assert_eq!(ticket_item(&t), "A-1  Fix");
    let t = Ticket { summary: None, ..t };
    assert_eq!(ticket_item(&t), "A-1");
}

#[test]
fn gui_conversions() {
    let g = GuiConnection::from(conn(4, "work", "jira-cloud"));
    assert_eq!(g.id, 4);
    assert_eq!(g.name, "work");
    assert_eq!(g.connection_type, "jira-cloud");
    assert_eq!(g.hostname, "acme.atlassian.net");
    assert_eq!(g.username, "me@acme.test");
    let d = connection_data_for(CreateConnectionInput {
        name: "n".to_string(),
        connection_type: "jira-dc".to_string(),
        hostname: "h".to_string(),
        username: "u".to_string(),
        token: "t".to_string(),
    });
    assert_eq!(d.secret_store, "plaintext");
    assert_eq!(d.kind, "jira-dc");
    assert_eq!(d.token, "t");
}

fn form(name: &str) -> CreateConnectionInput {
    CreateConnectionInput {
        name: name.to_string(),
        connection_type: "jira-cloud".to_string(),
        hostname: "https://acme.atlassian.net/".to_string(),
        username: "me@acme.test".to_string(),
        token: "t0k".to_string(),
    }
}

fn gui_api() -> NirvanaApi {
    let paths = AppPaths {
        config_dir: "/c".to_string(),
        config_file: "/c/config.toml".to_string(),
        db_file: "/d/nirvana.db".to_string(),
        log_file: "/d/nirvana.log".to_string(),
        is_dev: false,
    };
    NirvanaApi::new(paths, AppConfig { active_connection: None }, Database::new())
}

#[test]
fn gui_creates_and_activates_a_tested_connection() {
    let mut api = gui_api();
    assert!(matches!(get_active_connection(&api), Ok(None)));
    let g = create_connection(&mut api, form("work"), Ok(())).unwrap();
    assert_eq!(g.id, 1);
    assert_eq!(g.name, "work");
    assert_eq!(g.connection_type, "jira-cloud");
    assert_eq!(g.hostname, "acme.atlassian.net");
    assert_eq!(g.username, "me@acme.test");
    assert_eq!(api.active_connection(), Some(1));
    assert_eq!(api.database().credentials[0].credential, "t0k");
    assert_eq!(api.database().connections[0].secret_store, "plaintext");
    let active = get_active_connection(&api).unwrap().unwrap();
    assert_eq!(active.id, 1);
    assert_eq!(active.hostname, "acme.atlassian.net");
}

#[test]
fn gui_refuses_a_failed_test_and_a_taken_name() {
    let mut api = gui_api();
    let err = create_connection(
        &mut api,
        form("work"),
        Err(NirvanaError::Integration(IntegrationError::Auth("401 Unauthorized".to_string()))),
    )
    .unwrap_err();
    assert_eq!(err, "authentication failed: 401 Unauthorized");
    assert!(api.database().connections.is_empty());
    assert_eq!(api.active_connection(), None);
    create_connection(&mut api, form("work"), Ok(())).unwrap();
    let err = create_connection(&mut api, form("work"), Ok(())).unwrap_err();
    assert_eq!(err, "database error: duplicate connection name: 'work'");
    assert_eq!(api.database().connections.len(), 1);
    let err = create_connection(&mut api, form("x"), Err(NirvanaError::Tracking(TrackingError::NoActiveConnection)))
        .unwrap_err();
    assert_eq!(err, "no active connection");
}

#[test]
fn capped_ascii_cells_keep_min_of_length_and_cap() {
    let c = Column::Limited("NAME", 5);
    assert_eq!(c.render("abcdefgh"), "abcd…");
    assert_eq!(c.render("abcdefgh").chars().count(), 5);
    assert_eq!(c.render("abc").chars().count(), 3);
    assert_eq!(c.render("abcde").chars().count(), 5);
    for col in [Column::Limited("NAME", 5), Column::Static("UPDATED", 10), Column::Unlimited("ID")] {
        for w in [0usize, 3, 10, 40] {
            for cell in ["", "ab", "abcdefghijklmnop"] {
                let fit = col.fit(w.max(col.initial_width()), cell);
                assert!(col.render(cell).chars().count() <= fit);
            }
        }
    }
}
