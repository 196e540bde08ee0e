//! The values that the library hands to its users.

use vstd::prelude::*;
use crate::storage::{ConnectionRecord, SlotWithTicket, TicketRecord};

verus! {

/// A connection to an issue tracker.
#[derive(Debug)]
pub struct Connection {
    pub id: i64,
    pub name: String,
    pub kind: String,
    pub host: String,
    pub identity: String,
    pub secret_store: String,
    pub created_at: i64,
    pub updated_at: i64,
}

/// What a new connection is made of, its secret included.
#[derive(Debug)]
pub struct ConnectionData {
    pub name: String,
    pub kind: String,
    pub host: String,
    pub identity: String,
    pub secret_store: String,
    pub token: String,
}

/// A span of work on a ticket.
#[derive(Debug)]
pub struct Slot {
    pub id: i64,
    pub ticket_key: String,
    pub summary: Option<String>,
    pub note: Option<String>,
    pub started_at: i64,
    pub stopped_at: Option<i64>,
    pub published_at: Option<i64>,
}

/// A ticket that work was tracked on.
#[derive(Debug)]
pub struct Ticket {
    pub id: i64,
    pub ticket_key: String,
    pub summary: Option<String>,
    pub last_worked_at: i64,
}

/// A slot that the issue tracker refused, with the reason.
#[derive(Debug)]
pub struct PublishFailure {
    pub ticket_key: String,
    pub error: String,
}

/// The outcome of publishing slots.
#[derive(Debug)]
pub struct PublishResult {
    pub published_count: usize,
    pub failed: Vec<PublishFailure>,
    pub timestamp: i64,
}

/// Where the application keeps its files.
#[derive(Debug)]
pub struct AppPaths {
    pub config_dir: String,
    pub config_file: String,
    pub db_file: String,
    pub log_file: String,
    pub is_dev: bool,
}

/// The settings kept in the configuration file.
#[derive(Debug, Clone, Copy, PartialEq, Eq, Default)]
pub struct AppConfig {
    pub active_connection: Option<i64>,
}

/// What the application reports about itself.
#[derive(Debug)]
pub struct AppInfo {
    pub version: String,
    pub config_file: String,
    pub db_file: String,
    pub log_file: String,
    pub is_dev: bool,
}

impl From<ConnectionRecord> for Connection {
    fn from(r: ConnectionRecord) -> (c: Self) {
        Connection {
            id: r.id,
            name: r.name,
            kind: r.kind,
            host: r.base_url,
            identity: r.identity,
            secret_store: r.secret_store,
            created_at: r.created_at,
            updated_at: r.updated_at,
        }
    }
}

impl vstd::std_specs::convert::FromSpecImpl<ConnectionRecord> for Connection {
    open spec fn obeys_from_spec() -> bool {
        true
    }

    open spec fn from_spec(r: ConnectionRecord) -> Connection {
        Connection {
            id: r.id,
            name: r.name,
            kind: r.kind,
            host: r.base_url,
            identity: r.identity,
            secret_store: r.secret_store,
            created_at: r.created_at,
            updated_at: r.updated_at,
        }
    }
}

impl From<SlotWithTicket> for Slot {
    fn from(r: SlotWithTicket) -> (s: Self) {
        Slot {
            id: r.id,
            ticket_key: r.ticket_key,
            summary: r.summary,
            note: r.note,
            started_at: r.started_at,
            stopped_at: r.stopped_at,
            published_at: r.published_at,
        }
    }
}

impl vstd::std_specs::convert::FromSpecImpl<SlotWithTicket> for Slot {
    open spec fn obeys_from_spec() -> bool {
        true
    }

    open spec fn from_spec(r: SlotWithTicket) -> Slot {
        Slot {
            id: r.id,
            ticket_key: r.ticket_key,
            summary: r.summary,
            note: r.note,
            started_at: r.started_at,
            stopped_at: r.stopped_at,
            published_at: r.published_at,
        }
    }
}

impl From<TicketRecord> for Ticket {
    fn from(r: TicketRecord) -> (t: Self) {
        Ticket { id: r.id, ticket_key: r.ticket_key, summary: r.summary, last_worked_at: r.last_worked_at }
    }
}

impl vstd::std_specs::convert::FromSpecImpl<TicketRecord> for Ticket {
    open spec fn obeys_from_spec() -> bool {
        true
    }

    open spec fn from_spec(r: TicketRecord) -> Ticket {
        Ticket { id: r.id, ticket_key: r.ticket_key, summary: r.summary, last_worked_at: r.last_worked_at }
    }
}

/// The connection that a stored record shows.
pub open spec fn connection_of(r: ConnectionRecord) -> Connection {
    Connection {
        id: r.id,
        name: r.name,
        kind: r.kind,
        host: r.base_url,
        identity: r.identity,
        secret_store: r.secret_store,
        created_at: r.created_at,
        updated_at: r.updated_at,
    }
}

/// The slot that a joined record shows.
pub open spec fn slot_of(r: SlotWithTicket) -> Slot {
    Slot {
        id: r.id,
        ticket_key: r.ticket_key,
        summary: r.summary,
        note: r.note,
        started_at: r.started_at,
        stopped_at: r.stopped_at,
        published_at: r.published_at,
    }
}

/// The ticket that a stored record shows.
pub open spec fn ticket_of(r: TicketRecord) -> Ticket {
    Ticket { id: r.id, ticket_key: r.ticket_key, summary: r.summary, last_worked_at: r.last_worked_at }
}

} // verus!
