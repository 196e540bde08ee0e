use nirvana::api::{NirvanaApi, StartStep};
use nirvana::domain::{AppConfig, AppPaths, ConnectionData};
use nirvana::errors::{DbError, IntegrationError, NirvanaError, TrackingError};
use nirvana::integration::{IntegrationKind, IssueInfo};
use nirvana::storage::{Database, SlotSort};

fn paths() -> AppPaths {
    AppPaths {
        config_dir: "/cfg".to_string(),
        config_file: "/cfg/config.toml".to_string(),
        db_file: "/data/nirvana.db".to_string(),
        log_file: "/data/nirvana.log".to_string(),
        is_dev: true,
    }
}

fn data(name: &str, kind: &str) -> ConnectionData {
    ConnectionData {
        name: name.to_string(),
        kind: kind.to_string(),
        host: " https://acme.atlassian.net/ ".to_string(),
        identity: "me@acme.test".to_string(),
        secret_store: "plaintext".to_string(),
        token: "secret".to_string(),
    }
}

fn api_with_connection() -> NirvanaApi {
    let mut api = NirvanaApi::new(paths(), AppConfig { active_connection: None }, Database::new());
    let c = api.add_connection_at(data("work", "jira-cloud"), 1000).unwrap();
    api.set_active_connection(c.id).unwrap();
    api
}

fn start_known_or_fetched(api: &mut NirvanaApi, key: &str, at: i64, summary: &str) -> nirvana::domain::Slot {
    match api.start_slot_at(key, at, None, None).unwrap() {
        StartStep::Started(s) => s,
        StartStep::NeedIssue(_) => {
            match api
                .start_slot_at(key, at, None, Some(Ok(IssueInfo { summary: summary.to_string() })))
                .unwrap()
            {
                StartStep::Started(s) => s,
                StartStep::NeedIssue(_) => panic!("asked twice"),
            }
        }
    }
}

#[test]
fn add_connection_normalizes_and_lists() {
    let mut api = NirvanaApi::new(paths(), AppConfig { active_connection: None }, Database::new());
    let c = api.add_connection_at(data("work", "jira-cloud"), 1000).unwrap();
    assert_eq!(c.id, 1);
    assert_eq!(c.host, "acme.atlassian.net");
    assert_eq!(c.created_at, 1000);
    assert_eq!(c.updated_at, 1000);
    let c2 = api.add_connection_at(data("home", "jira-dc"), 2000).unwrap();
    assert_eq!(c2.id, 2);
    let all = api.list_connections().unwrap();
    assert_eq!(all.len(), 2);
    assert_eq!(all[0].name, "work");
    assert_eq!(all[1].name, "home");
    assert_eq!(api.database().credentials.len(), 2);
    assert_eq!(api.database().get_token(2).unwrap(), "secret");
}

#[test]
fn duplicate_connection_name_is_refused() {
    let mut api = api_with_connection();
    match api.add_connection_at(data("work", "jira-dc"), 5) {
        Err(NirvanaError::Db(DbError::DuplicateName(n))) => assert_eq!(n, "work"),
        other => panic!("{other:?}"),
    }
    assert_eq!(api.list_connections().unwrap().len(), 1);
}

#[test]
fn set_active_connection_is_read_back() {
    let mut api = NirvanaApi::new(paths(), AppConfig { active_connection: None }, Database::new());
    assert_eq!(api.active_connection(), None);
    api.set_active_connection(7).unwrap();
    assert_eq!(api.active_connection(), Some(7));
    assert_eq!(api.config().active_connection, Some(7));
}

#[test]
fn info_reports_paths_and_version() {
    let api = api_with_connection();
    let info = api.info("1.2.3");
    assert_eq!(info.version, "1.2.3");
    assert_eq!(info.config_file, "/cfg/config.toml");
    assert_eq!(info.db_file, "/data/nirvana.db");
    assert_eq!(info.log_file, "/data/nirvana.log");
    assert!(info.is_dev);
}

#[test]
fn start_without_active_connection_fails() {
    let mut api = NirvanaApi::new(paths(), AppConfig { active_connection: None }, Database::new());
    assert!(matches!(
        api.start_slot_at("abc-1", 10, None, None),
        Err(NirvanaError::Tracking(TrackingError::NoActiveConnection))
    ));
    let mut api = NirvanaApi::new(paths(), AppConfig { active_connection: Some(9) }, Database::new());
    assert!(matches!(
        api.start_slot_at("abc-1", 10, None, None),
        Err(NirvanaError::Tracking(TrackingError::NoActiveConnection))
    ));
    assert!(matches!(api.get_slots(0, None, SlotSort::StartedAt), Ok(v) if v.is_empty()));
    assert!(matches!(
        api.start_slot("abc-1", None, None, None),
        Err(NirvanaError::Tracking(TrackingError::NoActiveConnection))
    ));
    let mut api = NirvanaApi::new(paths(), AppConfig { active_connection: None }, Database::new());
    assert!(matches!(
        api.start_slot("abc-1", None, None, None),
        Err(NirvanaError::Tracking(TrackingError::NoActiveConnection))
    ));
}

#[test]
fn clock_added_duplicate_name_is_refused() {
    let mut api = api_with_connection();
    match api.add_connection(data("work", "jira-dc")) {
        Err(NirvanaError::Db(DbError::DuplicateName(n))) => assert_eq!(n, "work"),
        other => panic!("{other:?}"),
    }
    assert_eq!(api.list_connections().unwrap().len(), 1);
}

#[test]
fn start_asks_the_tracker_for_an_unknown_ticket() {
    let mut api = api_with_connection();
    match api.start_slot_at("abc-1", 100, Some("first"), None).unwrap() {
        StartStep::NeedIssue(req) => {
            assert_eq!(req.ticket_key, "ABC-1");
            let IntegrationKind::Jira(j) = req.integration.kind;
            assert_eq!(j.host, "acme.atlassian.net");
            assert_eq!(j.identity, "me@acme.test");
            assert_eq!(j.token, "secret");
        }
        StartStep::Started(_) => panic!("started without the tracker"),
    }
    assert!(api.database().tickets.is_empty());
    assert!(api.database().slots.is_empty());
    let step = api
        .start_slot_at("abc-1", 100, Some("first"), Some(Ok(IssueInfo { summary: "Fix it".to_string() })))
        .unwrap();
    let StartStep::Started(slot) = step else { panic!() };
    assert_eq!(slot.id, 1);
    assert_eq!(slot.ticket_key, "ABC-1");
    assert_eq!(slot.summary.as_deref(), Some("Fix it"));
    assert_eq!(slot.note.as_deref(), Some("first"));
    assert_eq!(slot.started_at, 100);
    assert_eq!(slot.stopped_at, None);
    assert_eq!(api.database().tickets[0].last_worked_at, 100);
}

#[test]
fn tracker_refusals_become_errors() {
    let mut api = api_with_connection();
    match api.start_slot_at("abc-9", 100, None, Some(Err(IntegrationError::TicketNotFound("ABC-9".to_string())))) {
        Err(NirvanaError::Tracking(TrackingError::TicketNotFound(k))) => assert_eq!(k, "ABC-9"),
        other => panic!("{other:?}"),
    }
    match api.start_slot_at("abc-9", 100, None, Some(Err(IntegrationError::Auth("401 Unauthorized".to_string())))) {
        Err(NirvanaError::Integration(IntegrationError::Auth(s))) => assert_eq!(s, "401 Unauthorized"),
        other => panic!("{other:?}"),
    }
    assert!(api.database().tickets.is_empty());
}

#[test]
fn unsupported_kind_is_refused() {
    let mut api = NirvanaApi::new(paths(), AppConfig { active_connection: None }, Database::new());
    let c = api.add_connection_at(data("gh", "github"), 1).unwrap();
    api.set_active_connection(c.id).unwrap();
    match api.start_slot_at("x-1", 5, None, None) {
        Err(NirvanaError::Integration(IntegrationError::UnsupportedKind(k))) => assert_eq!(k, "github"),
        other => panic!("{other:?}"),
    }
    assert!(matches!(
        api.publish_plan(0, None),
        Err(NirvanaError::Integration(IntegrationError::UnsupportedKind(_)))
    ));
}

#[test]
fn missing_credential_is_no_rows() {
    let mut db = Database::new();
    db.connections.push(nirvana::storage::ConnectionRecord {
        id: 1,
        name: "n".to_string(),
        kind: "jira-dc".to_string(),
        base_url: "h".to_string(),
        identity: "i".to_string(),
        secret_store: "keyring".to_string(),
        created_at: 0,
        updated_at: 0,
    });
    assert!(db.is_well_formed());
    let mut api = NirvanaApi::new(paths(), AppConfig { active_connection: Some(1) }, db);
    assert!(matches!(
        api.start_slot_at("k-1", 5, None, None),
        Err(NirvanaError::Db(DbError::QueryReturnedNoRows))
    ));
}

#[test]
fn starting_again_stops_the_running_slot() {
    let mut api = api_with_connection();
    let s1 = start_known_or_fetched(&mut api, "abc-1", 100, "One");
    let s2 = start_known_or_fetched(&mut api, "abc-2", 500, "Two");
    assert_eq!(s2.id, s1.id + 1);
    let slots = &api.database().slots;
    assert_eq!(slots.len(), 2);
    assert_eq!(slots[0].stopped_at, Some(500));
    assert_eq!(slots[1].stopped_at, None);
    assert_eq!(slots.iter().filter(|s| s.stopped_at.is_none()).count(), 1);
}

#[test]
fn a_start_before_the_running_one_stops_it_a_second_after_its_start() {
    let mut api = api_with_connection();
    start_known_or_fetched(&mut api, "abc-1", 1000, "One");
    start_known_or_fetched(&mut api, "abc-1", 400, "One");
    let slots = &api.database().slots;
    assert_eq!(slots[0].stopped_at, Some(1001));
    assert!(slots[0].stopped_at.unwrap() > slots[0].started_at);
    assert_eq!(api.database().tickets.len(), 1);
    assert_eq!(api.database().tickets[0].last_worked_at, 400);
}

#[test]
fn stop_after_start_returns_the_slot() {
    let mut api = api_with_connection();
    let s1 = start_known_or_fetched(&mut api, "abc-1", 100, "One");
    let stopped = api.stop_slot_at(160).unwrap().unwrap();
    assert_eq!(stopped.id, s1.id);
    assert_eq!(stopped.stopped_at, Some(160));
    assert_eq!(stopped.ticket_key, "ABC-1");
    assert_eq!(api.database().slots[0].stopped_at, Some(160));
    assert!(api.stop_slot_at(200).unwrap().is_none());
}

#[test]
fn stop_before_start_is_refused() {
    let mut api = api_with_connection();
    start_known_or_fetched(&mut api, "abc-1", 100, "One");
    assert!(matches!(api.stop_slot_at(100), Err(NirvanaError::Db(DbError::StopBeforeStart))));
    assert!(matches!(api.stop_slot_at(50), Err(NirvanaError::Db(DbError::StopBeforeStart))));
    assert_eq!(api.database().slots[0].stopped_at, None);
}

#[test]
fn stop_with_nothing_running_is_none() {
    let mut api = api_with_connection();
    assert!(api.stop_slot_at(10).unwrap().is_none());
    assert!(api.stop_slot(None).unwrap().is_none());
}

#[test]
fn get_slots_filters_and_sorts() {
    let mut api = api_with_connection();
    start_known_or_fetched(&mut api, "b-1", 300, "B");
    start_known_or_fetched(&mut api, "a-1", 100, "A");
    start_known_or_fetched(&mut api, "b-1", 200, "B");
    api.stop_slot_at(900).unwrap();
    let by_start = api.get_slots(0, None, SlotSort::StartedAt).unwrap();
    let starts: Vec<i64> = by_start.iter().map(|s| s.started_at).collect();
    assert_eq!(starts, vec![100, 200, 300]);
    let by_ticket = api.get_slots(0, None, SlotSort::TicketId).unwrap();
    let keys: Vec<(&str, i64)> = by_ticket.iter().map(|s| (s.ticket_key.as_str(), s.started_at)).collect();
    assert_eq!(keys, vec![("B-1", 200), ("B-1", 300), ("A-1", 100)]);
    let window = api.get_slots(150, Some(250), SlotSort::StartedAt).unwrap();
    assert_eq!(window.len(), 1);
    assert_eq!(window[0].started_at, 200);
    let inclusive = api.get_slots(100, Some(300), SlotSort::StartedAt).unwrap();
    assert_eq!(inclusive.len(), 3);
}

#[test]
fn recent_tickets_come_latest_first() {
    let mut api = api_with_connection();
    start_known_or_fetched(&mut api, "a-1", 100, "A");
    start_known_or_fetched(&mut api, "b-1", 200, "B");
    start_known_or_fetched(&mut api, "a-1", 300, "A");
    let t = api.list_recent_tickets().unwrap();
    let keys: Vec<&str> = t.iter().map(|t| t.ticket_key.as_str()).collect();
    assert_eq!(keys, vec!["A-1", "B-1"]);
    assert_eq!(t[0].last_worked_at, 300);
    let none = NirvanaApi::new(paths(), AppConfig { active_connection: None }, Database::new());
    assert!(matches!(none.list_recent_tickets(), Err(NirvanaError::Tracking(TrackingError::NoActiveConnection))));
}

#[test]
fn publish_plans_finished_unpublished_slots_and_records_outcomes() {
    let mut api = api_with_connection();
    start_known_or_fetched(&mut api, "a-1", 100, "A");
    start_known_or_fetched(&mut api, "b-1", 400, "B");
    start_known_or_fetched(&mut api, "c-1", 1000, "C");
    let plan = api.publish_plan(0, None).unwrap();
    let items: Vec<(i64, &str, i64, i128)> =
        plan.items.iter().map(|i| (i.slot_id, i.ticket_key.as_str(), i.started_at, i.seconds)).collect();
    assert_eq!(items, vec![(1, "A-1", 100, 300), (2, "B-1", 400, 600)]);
    let outcomes = vec![Ok(()), Err(IntegrationError::Network("boom".to_string()))];
    let result = api.publish(&plan, &outcomes, 5000);
    assert_eq!(result.published_count, 1);
    assert_eq!(result.timestamp, 5000);
    assert_eq!(result.failed.len(), 1);
    assert_eq!(result.failed[0].ticket_key, "B-1");
    assert_eq!(result.failed[0].error, "network error: boom");
    assert_eq!(api.database().slots[0].published_at, Some(5000));
    assert_eq!(api.database().slots[1].published_at, None);
    let again = api.publish_plan(0, None).unwrap();
    assert_eq!(again.items.len(), 1);
    assert_eq!(again.items[0].slot_id, 2);
}

#[test]
fn publishing_nothing_changes_nothing() {
    let mut api = api_with_connection();
    let plan = api.publish_plan(0, None).unwrap();
    assert!(plan.items.is_empty());
    let result = api.publish(&plan, &vec![], 77);
    assert_eq!(result.published_count, 0);
    assert!(result.failed.is_empty());
    assert_eq!(result.timestamp, 77);
}

#[test]
fn delete_slot_removes_it() {
    let mut api = api_with_connection();
    start_known_or_fetched(&mut api, "a-1", 100, "A");
    start_known_or_fetched(&mut api, "b-1", 200, "B");
    let gone = api.delete_slot(1).unwrap();
    assert_eq!(gone.ticket_key, "A-1");
    assert_eq!(api.database().slots.len(), 1);
    assert!(matches!(api.delete_slot(1), Err(NirvanaError::Db(DbError::QueryReturnedNoRows))));
}

#[test]
fn get_active_connection_finds_it() {
    let api = api_with_connection();
    let c = api.get_active_connection().unwrap().unwrap();
    assert_eq!(c.name, "work");
    let api = NirvanaApi::new(paths(), AppConfig { active_connection: Some(3) }, Database::new());
    assert!(api.get_active_connection().unwrap().is_none());
}

#[test]
fn well_formedness_check_rejects_bad_tables() {
    let mut db = Database::new();
    db.slots.push(nirvana::storage::SlotRecord {
        id: 1,
        ticket_id: 5,
        connection_id: 1,
        note: None,
        started_at: 0,
        stopped_at: None,
        published_at: None,
    });
    assert!(!db.is_well_formed());
    let mut api = api_with_connection();
    start_known_or_fetched(&mut api, "a-1", 100, "A");
    assert!(api.database().is_well_formed());
}

#[test]
fn error_messages_read_as_before() {
    assert_eq!(
        NirvanaError::Db(DbError::DuplicateName("x".to_string())).message(),
        "database error: duplicate connection name: 'x'"
    );
    assert_eq!(
        NirvanaError::Db(DbError::StopBeforeStart).message(),
        "database error: stop time must be after the slot start time"
    );
    assert_eq!(
        NirvanaError::Db(DbError::QueryReturnedNoRows).message(),
        "database error: sqlite error: Query returned no rows"
    );
    assert_eq!(
        NirvanaError::Config(nirvana::errors::ConfigError::Parse("bad".to_string())).message(),
        "config error: config parse error: bad"
    );
    assert_eq!(NirvanaError::Io("disk".to_string()).message(), "I/O error: disk");
    assert_eq!(
        NirvanaError::Tracking(TrackingError::TicketNotFound("A-1".to_string())).message(),
        "ticket not found: A-1"
    );
    assert_eq!(
        NirvanaError::Integration(IntegrationError::UnsupportedKind("gh".to_string())).message(),
        "unsupported connection kind: gh"
    );
}

#[test]
fn clock_driven_calls_use_the_current_time() {
    let before = chrono::Utc::now().timestamp();
    let mut api = NirvanaApi::new(paths(), AppConfig { active_connection: None }, Database::new());
    let c = api.add_connection(data("work", "jira-cloud")).unwrap();
    let after = chrono::Utc::now().timestamp();
    assert!(before <= c.created_at && c.created_at <= after);
    assert_eq!(c.created_at, c.updated_at);
    api.set_active_connection(c.id).unwrap();
    let started = match api.start_slot("straße-1", None, None, None).unwrap() {
        StartStep::NeedIssue(req) => {
            assert_eq!(req.ticket_key, "STRASSE-1");
            match api.start_slot("straße-1", Some(before - 60), None, Some(Ok(IssueInfo { summary: "S".to_string() }))).unwrap() {
                StartStep::Started(s) => s,
                StartStep::NeedIssue(_) => panic!("asked twice"),
            }
        }
        StartStep::Started(_) => panic!("unknown ticket started"),
    };
    assert_eq!(started.ticket_key, "STRASSE-1");
    assert_eq!(started.started_at, before - 60);
    let stopped = api.stop_slot(None).unwrap().unwrap();
    let now = chrono::Utc::now().timestamp();
    let at = stopped.stopped_at.unwrap();
    assert!(before <= at && at <= now);
    assert!(api.stop_slot(None).unwrap().is_none());
}

#[test]
fn a_slot_started_at_the_last_second_blocks_only_starts_that_stop_it() {
    let mut api = api_with_connection();
    start_known_or_fetched(&mut api, "abc-1", i64::MAX, "One");
    assert!(api.start_overflows("abc-1", &None));
    assert!(!api.start_overflows("new-7", &None));
    assert!(api.start_overflows("new-7", &Some(Ok(IssueInfo { summary: "S".to_string() }))));
    assert!(!api.start_overflows("new-7", &Some(Err(IntegrationError::Auth("401".to_string())))));
    match api.start_slot_at("new-7", 5, None, None).unwrap() {
        StartStep::NeedIssue(req) => assert_eq!(req.ticket_key, "NEW-7"),
        StartStep::Started(_) => panic!("unknown ticket started"),
    }
    assert!(matches!(
        api.start_slot_at("new-7", 5, None, Some(Err(IntegrationError::TicketNotFound("NEW-7".to_string())))),
        Err(NirvanaError::Tracking(TrackingError::TicketNotFound(_)))
    ));
    let fresh = api_with_connection();
    assert!(!fresh.start_overflows("abc-1", &None));
}
