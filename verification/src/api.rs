//! The tracking rules: which connection is active, starting and stopping work on tickets,
//! listing slots and tickets, and publishing finished slots to the issue tracker.

use vstd::prelude::*;
use crate::domain::{
    AppConfig, AppInfo, AppPaths, Connection, ConnectionData, PublishFailure, PublishResult, Slot, Ticket,
    connection_of, slot_of, ticket_of,
};
use crate::errors::{DbError, IntegrationError, NirvanaError, TrackingError};
use crate::integration::{
    Integration, IntegrationKind, IssueInfo, build_integration, integration_error_text, is_jira_kind,
};
use crate::storage::{running_stoppable, 
    ConnectionRecord, CredentialRecord, Database, SlotRecord, SlotSort, SlotWithTicket, TicketRecord,
    credential_of, full_message, has_connection_name, last_connection_id, last_slot_id, last_ticket_id, next_id,
    published, recent_tickets, running_pos, slot_listing, slot_pos, stopped, ticket_by_key, touched, with_ticket,
};
use crate::text::{normalize_host, normalized_host, upper_case, to_uppercase};
use crate::time::{clock_failure, clock_failure_text, unix_now};

verus! {

/// The library's state: where its files are, its settings, and its store.
pub struct NirvanaApi {
    paths: AppPaths,
    config: AppConfig,
    db: Database,
}

/// A lookup that the issue tracker has to answer before a slot can start: the integration to
/// ask and the (upper-cased) ticket key.
#[derive(Debug)]
pub struct FetchRequest {
    pub integration: Integration,
    pub ticket_key: String,
}

/// How a start went: it needs the tracker's answer first, or the slot has started.
#[derive(Debug)]
pub enum StartStep {
    NeedIssue(FetchRequest),
    Started(Slot),
}

/// A finished slot to publish: its row id, ticket, start and length in seconds.
#[derive(Debug)]
pub struct PublishItem {
    pub slot_id: i64,
    pub ticket_key: String,
    pub started_at: i64,
    pub seconds: i128,
}

/// The integration to publish through and the slots to publish.
#[derive(Debug)]
pub struct PublishPlan {
    pub integration: Integration,
    pub items: Vec<PublishItem>,
}

/// The characters of an optional note.
pub open spec fn note_view(note: Option<&str>) -> Option<Seq<char>> {
    match note {
        Some(n) => Some(n@),
        None => None,
    }
}

/// The characters of an optional string.
pub open spec fn opt_view(s: Option<String>) -> Option<Seq<char>> {
    match s {
        Some(v) => Some(v@),
        None => None,
    }
}

/// The position of the connection with row id `id`.
pub open spec fn connection_pos(c: Seq<ConnectionRecord>, id: i64) -> Option<int> {
    if exists|i: int| 0 <= i < c.len() && c[i].id == id {
        Some(choose|i: int| 0 <= i < c.len() && c[i].id == id)
    } else {
        None
    }
}

/// When a running slot is stopped because another one starts at `now`: at `now`, but at least
/// one second after it started.
pub open spec fn stop_time(started_at: i64, now: i64) -> int {
    if started_at + 1 >= now { started_at + 1 } else { now as int }
}

/// The slots once the running one, where there is one, is stopped for a start at `now`.
pub open spec fn after_stop(slots: Seq<SlotRecord>, now: i64) -> Seq<SlotRecord> {
    match running_pos(slots) {
        Some(i) => stopped(slots, slots[i].id, stop_time(slots[i].started_at, now) as i64),
        None => slots,
    }
}

/// The last phase of a start: the running slot is stopped, and a new one is stored, running
/// since `now` on ticket `ticket_id`, and returned; or no row id is left, and only the stop is done.
pub open spec fn slot_inserted(
    tickets: Seq<TicketRecord>,
    slots: Seq<SlotRecord>,
    fin_slots: Seq<SlotRecord>,
    ticket_id: i64,
    cid: i64,
    note: Option<Seq<char>>,
    now: i64,
    r: Result<StartStep, NirvanaError>,
) -> bool {
    let s1 = after_stop(slots, now);
    if next_id(last_slot_id(slots)) > i64::MAX {
        &&& (r matches Err(NirvanaError::Db(DbError::Sqlite(m))) && m@ == full_message())
        &&& fin_slots == s1
    } else {
        let new = fin_slots.last();
        &&& fin_slots == s1.push(new)
        &&& new.id == next_id(last_slot_id(slots))
        &&& new.ticket_id == ticket_id
        &&& new.connection_id == cid
        &&& opt_view(new.note) == note
        &&& new.started_at == now
        &&& new.stopped_at is None
        &&& new.published_at is None
        &&& (r matches Ok(StartStep::Started(slot)) && slot == slot_of(with_ticket(tickets, new)))
    }
}

/// What starting work on `ticket_key` at `now` does, given the tracker's answer `issue` where
/// one was fetched. The key is upper-cased. Without an active connection that exists, nothing
/// starts. A ticket known under the active connection gets `now` as its last work time; an
/// unknown one needs the tracker: without an answer the lookup to make is returned, an answer
/// that the ticket does not exist or another failure is returned as the error, and an issue's
/// summary makes a new ticket. Then the running slot is stopped and the new slot stored.
pub open spec fn start_outcome(
    config: AppConfig,
    db: Database,
    fin: Database,
    ticket_key: Seq<char>,
    now: i64,
    note: Option<Seq<char>>,
    issue: Option<Result<IssueInfo, IntegrationError>>,
    r: Result<StartStep, NirvanaError>,
) -> bool {
    let key = upper_case(ticket_key);
    match config.active_connection {
        None => (r matches Err(NirvanaError::Tracking(TrackingError::NoActiveConnection))) && fin == db,
        Some(cid) => match connection_pos(db.connections@, cid) {
            None => (r matches Err(NirvanaError::Tracking(TrackingError::NoActiveConnection))) && fin == db,
            Some(ci) => match ticket_by_key(db.tickets@, key, cid) {
                Some(ti) => {
                    let t1 = touched(db.tickets@, db.tickets@[ti].id, now);
                    &&& fin.connections@ == db.connections@
                    &&& fin.credentials@ == db.credentials@
                    &&& fin.tickets@ == t1
                    &&& slot_inserted(t1, db.slots@, fin.slots@, db.tickets@[ti].id, cid, note, now, r)
                },
                None => match credential_of(db.credentials@, cid) {
                    None => (r matches Err(NirvanaError::Db(DbError::QueryReturnedNoRows))) && fin == db,
                    Some(token) => {
                        let conn = db.connections@[ci];
                        if !is_jira_kind(conn.kind@) {
                            (r matches Err(NirvanaError::Integration(IntegrationError::UnsupportedKind(k)))
                                && k@ == conn.kind@) && fin == db
                        } else {
                            match issue {
                                None => (r matches Ok(StartStep::NeedIssue(req)) && req.ticket_key@ == key
                                    && (req.integration.kind matches IntegrationKind::Jira(j)
                                    && j.host@ == conn.base_url@ && j.identity@ == conn.identity@
                                    && j.token@ == token@)) && fin == db,
                                Some(Err(IntegrationError::TicketNotFound(k))) => (r matches Err(
                                    NirvanaError::Tracking(TrackingError::TicketNotFound(k2)),
                                ) && k2 == k) && fin == db,
                                Some(Err(e)) => r == Err::<StartStep, NirvanaError>(NirvanaError::Integration(e)) && fin == db,
                                Some(Ok(info)) => if next_id(last_ticket_id(db.tickets@)) > i64::MAX {
                                    (r matches Err(NirvanaError::Db(DbError::Sqlite(m))) && m@ == full_message())
                                        && fin == db
                                } else {
                                    let t = fin.tickets@.last();
                                    &&& fin.tickets@ == db.tickets@.push(t)
                                    &&& t.id == next_id(last_ticket_id(db.tickets@))
                                    &&& t.ticket_key@ == key
                                    &&& opt_view(t.summary) == Some(info.summary@)
                                    &&& t.connection_id == cid
                                    &&& t.last_worked_at == now
                                    &&& fin.connections@ == db.connections@
                                    &&& fin.credentials@ == db.credentials@
                                    &&& slot_inserted(fin.tickets@, db.slots@, fin.slots@, t.id, cid, note, now, r)
                                },
                            }
                        }
                    },
                },
            },
        },
    }
}

/// A start reaches the point where it stops the running slot: the active connection exists, and
/// the ticket is known under it, or it is not and the tracker's summary makes a new ticket.
pub open spec fn start_stops_running(
    config: AppConfig,
    db: Database,
    ticket_key: Seq<char>,
    issue: Option<Result<IssueInfo, IntegrationError>>,
) -> bool {
    match config.active_connection {
        None => false,
        Some(cid) => match connection_pos(db.connections@, cid) {
            None => false,
            Some(ci) => match ticket_by_key(db.tickets@, upper_case(ticket_key), cid) {
                Some(_) => true,
                None => {
                    &&& credential_of(db.credentials@, cid) is Some
                    &&& is_jira_kind(db.connections@[ci].kind@)
                    &&& issue matches Some(Ok(_))
                    &&& next_id(last_ticket_id(db.tickets@)) <= i64::MAX
                },
            },
        },
    }
}

/// Nothing was done because the system clock could not be read: the error says so, and the store
/// is as it was.
pub open spec fn clock_refused<T>(db: Database, fin: Database, r: Result<T, NirvanaError>) -> bool {
    (r matches Err(NirvanaError::Io(m)) && m@ == clock_failure_text()) && fin == db
}

/// What adding a connection at `now` does: a taken name is refused; without a row id left,
/// nothing is stored; otherwise the connection, its host cleaned up, and its secret are stored
/// with the next row id, created and updated at `now`.
pub open spec fn add_outcome(db: Database, fin: Database, connection: ConnectionData, now: i64, r: Result<Connection, NirvanaError>) -> bool {
    if has_connection_name(db.connections@, connection.name@) {
        (r matches Err(NirvanaError::Db(DbError::DuplicateName(n))) && n@ == connection.name@) && fin == db
    } else if next_id(last_connection_id(db.connections@)) > i64::MAX {
        (r matches Err(NirvanaError::Db(DbError::Sqlite(m))) && m@ == full_message()) && fin == db
    } else {
        let rec = fin.connections@.last();
        &&& fin.connections@ == db.connections@.push(rec)
        &&& (r matches Ok(c) && c == connection_of(rec))
        &&& rec.id == next_id(last_connection_id(db.connections@))
        &&& rec.name == connection.name
        &&& rec.kind == connection.kind
        &&& rec.base_url@ == normalized_host(connection.host@)
        &&& rec.identity == connection.identity
        &&& rec.secret_store == connection.secret_store
        &&& rec.created_at == now
        &&& rec.updated_at == now
        &&& fin.credentials@ == db.credentials@.push(CredentialRecord { connection_id: rec.id, credential: connection.token })
        &&& fin.tickets@ == db.tickets@
        &&& fin.slots@ == db.slots@
    }
}

impl NirvanaApi {
    pub closed spec fn paths_view(&self) -> AppPaths {
        self.paths
    }

    pub closed spec fn config_view(&self) -> AppConfig {
        self.config
    }

    pub closed spec fn db_view(&self) -> Database {
        self.db
    }

    /// The store is well formed.
    pub open spec fn wf(&self) -> bool {
        self.db_view().wf()
    }

    /// The library's state over files that were read already: their paths, the settings and
    /// the store.
    pub fn new(paths: AppPaths, config: AppConfig, db: Database) -> (api: Self)
        requires
            db.wf(),
        ensures
            api.wf(),
            api.paths_view() == paths,
            api.config_view() == config,
            api.db_view() == db,
    {
        NirvanaApi { paths, config, db }
    }

    /// The store, to be written back.
    pub fn database(&self) -> (d: &Database)
        ensures
            *d == self.db_view(),
    {
        &self.db
    }

    /// The settings, to be written back.
    pub fn config(&self) -> (c: AppConfig)
        ensures
            c == self.config_view(),
    {
        self.config
    }

    /// The paths of the application's files.
    pub fn paths(&self) -> (p: &AppPaths)
        ensures
            *p == self.paths_view(),
    {
        &self.paths
    }

    /// What the application reports about itself, with its version.
    pub fn info(&self, version: &str) -> (i: AppInfo)
        ensures
            i.version@ == version@,
            i.config_file == self.paths_view().config_file,
            i.db_file == self.paths_view().db_file,
            i.log_file == self.paths_view().log_file,
            i.is_dev == self.paths_view().is_dev,
    {
        AppInfo {
            version: version.to_string(),
            config_file: self.paths.config_file.clone(),
            db_file: self.paths.db_file.clone(),
            log_file: self.paths.log_file.clone(),
            is_dev: self.paths.is_dev,
        }
    }

    /// All connections, in row id order.
    pub fn list_connections(&self) -> (r: Result<Vec<Connection>, NirvanaError>)
        ensures
            r matches Ok(v) && v@ == Seq::new(self.db_view().connections@.len(), |i: int| connection_of(self.db_view().connections@[i])),
    {
        let records = self.db.list_connections();
        let ghost recs = records@;
        let mut rest = records;
        let mut out: Vec<Connection> = Vec::new();
        let n = rest.len();
        let mut i: usize = 0;
        while i < n
            invariant
                n == recs.len(),
                i <= n,
                recs == self.db_view().connections@,
                rest@ == recs.skip(i as int),
                out@ == Seq::new(i as nat, |k: int| connection_of(recs[k])),
            decreases n - i,
        {
            let rec = rest.remove(0);
            out.push(Connection::from(rec));
            i += 1;
            assert(rest@ =~= recs.skip(i as int));
            assert(out@ =~= Seq::new(i as nat, |k: int| connection_of(recs[k])));
        }
        Ok(out)
    }

    /// The active connection's row id.
    pub fn active_connection(&self) -> (r: Option<i64>)
        ensures
            r == self.config_view().active_connection,
    {
        self.config.active_connection
    }

    /// Makes connection `id` the active one; the settings are then to be saved.
    pub fn set_active_connection(&mut self, id: i64) -> (r: Result<(), NirvanaError>)
        ensures
            r is Ok,
            final(self).config_view().active_connection == Some(id),
            final(self).db_view() == old(self).db_view(),
            final(self).paths_view() == old(self).paths_view(),
    {
        self.config.active_connection = Some(id);
        Ok(())
    }

    /// The connection with row id `id`; `NoActiveConnection` where there is none.
    fn get_connection(&self, id: i64) -> (r: Result<Connection, NirvanaError>)
        requires
            self.wf(),
        ensures
            match connection_pos(self.db_view().connections@, id) {
                Some(i) => r matches Ok(c) && c == connection_of(self.db_view().connections@[i]),
                None => r matches Err(NirvanaError::Tracking(TrackingError::NoActiveConnection)),
            },
    {
        match self.db.find_connection(id) {
            Some(i) => {
                proof {
                    let c = self.db.connections@;
                    let j = choose|j: int| 0 <= j < c.len() && c[j].id == id;
                    if j < i {
                        assert(c[j].id < c[i as int].id);
                    }
                    if i < j {
                        assert(c[i as int].id < c[j].id);
                    }
                }
                Ok(Connection::from(self.db.connections[i].duplicate()))
            },
            None => Err(NirvanaError::Tracking(TrackingError::NoActiveConnection)),
        }
    }

    /// The active connection, where it exists.
    pub fn get_active_connection(&self) -> (r: Result<Option<Connection>, NirvanaError>)
        requires
            self.wf(),
        ensures
            match self.config_view().active_connection {
                None => r matches Ok(None),
                Some(id) => match connection_pos(self.db_view().connections@, id) {
                    Some(i) => r matches Ok(Some(c)) && c == connection_of(self.db_view().connections@[i]),
                    None => r matches Ok(None),
                },
            },
    {
        match self.config.active_connection {
            None => Ok(None),
            Some(id) => match self.get_connection(id) {
                Ok(c) => Ok(Some(c)),
                Err(_) => Ok(None),
            },
        }
    }

    /// Stores a new connection, its host cleaned up, created and updated at `now`.
    pub fn add_connection_at(&mut self, connection: ConnectionData, now: i64) -> (r: Result<Connection, NirvanaError>)
        requires
            old(self).wf(),
        ensures
            final(self).wf(),
            final(self).config_view() == old(self).config_view(),
            final(self).paths_view() == old(self).paths_view(),
            add_outcome(old(self).db_view(), final(self).db_view(), connection, now, r),
    {
        let host = normalize_host(connection.host.as_str());
        match self.db.add_connection(
            connection.name,
            connection.kind,
            host,
            connection.identity,
            connection.secret_store,
            connection.token,
            now,
        ) {
            Ok(rec) => Ok(Connection::from(rec)),
            Err(e) => Err(NirvanaError::Db(e)),
        }
    }

    /// Stores a new connection, its host cleaned up, created now. A name that is taken is refused
    /// first; where the system clock cannot be read, nothing is stored and an I/O error says so.
    pub fn add_connection(&mut self, connection: ConnectionData) -> (r: Result<Connection, NirvanaError>)
        requires
            old(self).wf(),
        ensures
            final(self).wf(),
            final(self).config_view() == old(self).config_view(),
            final(self).paths_view() == old(self).paths_view(),
            clock_refused(old(self).db_view(), final(self).db_view(), r) && !has_connection_name(
                old(self).db_view().connections@,
                connection.name@,
            ) || exists|now: i64|
                0 <= now && #[trigger] add_outcome(old(self).db_view(), final(self).db_view(), connection, now, r),
    {
        if self.db.has_name(&connection.name) {
            let r = Err(NirvanaError::Db(DbError::DuplicateName(connection.name)));
            assert(add_outcome(self.db_view(), self.db_view(), connection, 0, r));
            return r;
        }
        match unix_now() {
            Some(now) => self.add_connection_at(connection, now),
            None => Err(NirvanaError::Io(clock_failure())),
        }
    }

    /// The running slot is stopped for a start at `now`, then a new slot is stored.
    fn stop_and_insert(&mut self, ticket_id: i64, cid: i64, note: Option<&str>, now: i64) -> (r: Result<StartStep, NirvanaError>)
        requires
            old(self).wf(),
            has_ticket_id(old(self).db_view().tickets@, ticket_id),
            running_stoppable(old(self).db_view().slots@),
        ensures
            final(self).wf(),
            final(self).config_view() == old(self).config_view(),
            final(self).paths_view() == old(self).paths_view(),
            final(self).db_view().connections@ == old(self).db_view().connections@,
            final(self).db_view().credentials@ == old(self).db_view().credentials@,
            final(self).db_view().tickets@ == old(self).db_view().tickets@,
            slot_inserted(
                old(self).db_view().tickets@,
                old(self).db_view().slots@,
                final(self).db_view().slots@,
                ticket_id,
                cid,
                note_view(note),
                now,
                r,
            ),
    {
        match self.db.find_running() {
            Some(i) => {
                let id = self.db.slots[i].id;
                let started = self.db.slots[i].started_at;
                let stop = if started + 1 >= now { started + 1 } else { now };
                self.db.stop_by_id(id, stop);
            },
            None => {},
        }
        proof {
            let s1 = self.db.slots@;
            assert(s1 == after_stop(old(self).db_view().slots@, now));
            assert(running_pos(s1) is None) by {
                if exists|j: int| crate::storage::is_running_pos(s1, j) {
                    let j = choose|j: int| crate::storage::is_running_pos(s1, j);
                    let o = old(self).db_view().slots@;
                    assert(crate::storage::is_running(o[j]));
                    assert(crate::storage::is_running_pos(o, j));
                    let k = choose|k: int| crate::storage::is_running_pos(o, k);
                    assert(j == k);
                }
            }
            assert(last_slot_id(s1) == last_slot_id(old(self).db_view().slots@));
        }
        match self.db.insert_slot(ticket_id, cid, note, now) {
            Ok(sw) => Ok(StartStep::Started(Slot::from(sw))),
            Err(e) => Err(NirvanaError::Db(e)),
        }
    }

    /// Whether a start on `ticket_key` with the tracker's answer `issue` would reach a running
    /// slot that started at the last representable second, which cannot be stopped a second
    /// later: `start_slot` and `start_slot_at` are not to be called then.
    pub fn start_overflows(&self, ticket_key: &str, issue: &Option<Result<IssueInfo, IntegrationError>>) -> (b: bool)
        requires
            self.wf(),
        ensures
            b == (start_stops_running(self.config_view(), self.db_view(), ticket_key@, *issue)
                && !running_stoppable(self.db_view().slots@)),
    {
        let reaches = match self.config.active_connection {
            None => false,
            Some(cid) => match self.get_connection(cid) {
                Err(_) => false,
                Ok(connection) => {
                    let key = to_uppercase(ticket_key);
                    match self.db.find_ticket(key.as_str(), cid) {
                        Some(_) => true,
                        None => {
                            let issue_ok = match issue {
                                Some(Ok(_)) => true,
                                _ => false,
                            };
                            let n = self.db.tickets.len();
                            let id_left = n == 0 || self.db.tickets[n - 1].id < i64::MAX;
                            let served = match self.db.get_token(cid) {
                                Err(_) => false,
                                Ok(token) => build_integration(&connection, token.as_str()).is_ok(),
                            };
                            served && issue_ok && id_left
                        },
                    }
                },
            },
        };
        if !reaches {
            return false;
        }
        match self.db.find_running() {
            None => {
                proof {
                    let s = self.db.slots@;
                    assert forall|j: int| 0 <= j < s.len() && crate::storage::is_running(#[trigger] s[j]) implies s[j].started_at
                        < i64::MAX by {
                        assert(crate::storage::is_running_pos(s, j));
                    }
                }
                false
            },
            Some(i) => {
                proof {
                    let s = self.db.slots@;
                    assert(crate::storage::is_running_pos(s, i as int));
                    if running_stoppable(s) {
                        assert(crate::storage::is_running(s[i as int]));
                    }
                    assert forall|j: int| 0 <= j < s.len() && crate::storage::is_running(#[trigger] s[j]) implies j == i by {
                        assert(crate::storage::is_running(s[i as int]));
                    }
                }
                self.db.slots[i].started_at == i64::MAX
            },
        }
    }

    /// Starts work on `ticket_key` at `now`, as `start_outcome` states; where the ticket is not
    /// known yet, first without `issue` to learn what to ask the tracker, then with its answer.
    pub fn start_slot_at(
        &mut self,
        ticket_key: &str,
        now: i64,
        note: Option<&str>,
        issue: Option<Result<IssueInfo, IntegrationError>>,
    ) -> (r: Result<StartStep, NirvanaError>)
        requires
            old(self).wf(),
            start_stops_running(old(self).config_view(), old(self).db_view(), ticket_key@, issue) ==> running_stoppable(
                old(self).db_view().slots@,
            ),
        ensures
            final(self).wf(),
            final(self).config_view() == old(self).config_view(),
            final(self).paths_view() == old(self).paths_view(),
            start_outcome(
                old(self).config_view(),
                old(self).db_view(),
                final(self).db_view(),
                ticket_key@,
                now,
                note_view(note),
                issue,
                r,
            ),
    {
        let cid = match self.config.active_connection {
            None => return Err(NirvanaError::Tracking(TrackingError::NoActiveConnection)),
            Some(c) => c,
        };
        let connection = match self.get_connection(cid) {
            Ok(c) => c,
            Err(e) => return Err(e),
        };
        let ghost ci = connection_pos(self.db.connections@, cid)->0;
        let key = to_uppercase(ticket_key);
        match self.db.find_ticket(key.as_str(), cid) {
            Some(i) => {
                let tid = self.db.tickets[i].id;
                self.db.touch_last_worked(tid, now);
                proof {
                    assert(has_ticket_id(self.db.tickets@, tid)) by {
                        assert(self.db.tickets@[i as int].id == tid);
                    }
                }
                self.stop_and_insert(tid, cid, note, now)
            },
            None => {
                let token = match self.db.get_token(cid) {
                    Ok(t) => t,
                    Err(e) => return Err(NirvanaError::Db(e)),
                };
                let integration = match build_integration(&connection, token.as_str()) {
                    Ok(i) => i,
                    Err(e) => return Err(NirvanaError::Integration(e)),
                };
                match issue {
                    None => Ok(StartStep::NeedIssue(FetchRequest { integration, ticket_key: key })),
                    Some(Err(IntegrationError::TicketNotFound(k))) => Err(
                        NirvanaError::Tracking(TrackingError::TicketNotFound(k)),
                    ),
                    Some(Err(e)) => Err(NirvanaError::Integration(e)),
                    Some(Ok(info)) => {
                        let t = match self.db.insert_ticket(key.as_str(), Some(info.summary.as_str()), cid, now) {
                            Ok(t) => t,
                            Err(e) => return Err(NirvanaError::Db(e)),
                        };
                        proof {
                            let n = self.db.tickets@.len() - 1;
                            assert(self.db.tickets@[n].id == t.id);
                            assert(has_ticket_id(self.db.tickets@, t.id));
                        }
                        self.stop_and_insert(t.id, cid, note, now)
                    },
                }
            },
        }
    }
}

/// Whether `id` is a ticket's row id.
pub open spec fn has_ticket_id(t: Seq<TicketRecord>, id: i64) -> bool {
    crate::storage::has_ticket(t, id)
}


/// What stopping work at `now` does: with no slot running, nothing; with `now` not after the
/// running slot's start, nothing but an error; otherwise the running slot is stopped at `now`
/// and returned with that stop time.
pub open spec fn stop_outcome(db: Database, fin: Database, now: i64, r: Result<Option<Slot>, NirvanaError>) -> bool {
    match running_pos(db.slots@) {
        None => r matches Ok(None) && fin == db,
        Some(i) => {
            let s = db.slots@[i];
            if now <= s.started_at {
                (r matches Err(NirvanaError::Db(DbError::StopBeforeStart))) && fin == db
            } else {
                &&& r == Ok::<Option<Slot>, NirvanaError>(Some(Slot { stopped_at: Some(now), ..slot_of(with_ticket(db.tickets@, s)) }))
                &&& fin.slots@ == stopped(db.slots@, s.id, now)
                &&& fin.connections@ == db.connections@
                &&& fin.credentials@ == db.credentials@
                &&& fin.tickets@ == db.tickets@
            }
        },
    }
}

/// The slots that joined records show.
pub open spec fn slots_of(s: Seq<SlotWithTicket>) -> Seq<Slot> {
    Seq::new(s.len(), |i: int| slot_of(s[i]))
}

/// The tickets that stored records show.
pub open spec fn tickets_of(s: Seq<TicketRecord>) -> Seq<Ticket> {
    Seq::new(s.len(), |i: int| ticket_of(s[i]))
}

/// A slot to publish: its length is from its start to its stop.
pub open spec fn item_of(s: SlotWithTicket) -> PublishItem {
    PublishItem {
        slot_id: s.id,
        ticket_key: s.ticket_key,
        started_at: s.started_at,
        seconds: match s.stopped_at {
            Some(t) => (t - s.started_at) as i128,
            None => 0i128,
        },
    }
}

/// The publication items of joined slots, in order.
pub open spec fn items_of(s: Seq<SlotWithTicket>) -> Seq<PublishItem> {
    Seq::new(s.len(), |i: int| item_of(s[i]))
}

/// The row ids of the items whose publication succeeded, in order.
pub open spec fn ok_ids(items: Seq<PublishItem>, outcomes: Seq<Result<(), IntegrationError>>) -> Seq<i64>
    decreases items.len(),
{
    if items.len() == 0 || outcomes.len() == 0 {
        Seq::empty()
    } else {
        let rest = ok_ids(items.drop_last(), outcomes.drop_last());
        if outcomes.last() is Ok {
            rest.push(items.last().slot_id)
        } else {
            rest
        }
    }
}

/// The ticket key and error text of each item whose publication failed, in order.
pub open spec fn failures_of(items: Seq<PublishItem>, outcomes: Seq<Result<(), IntegrationError>>) -> Seq<(Seq<char>, Seq<char>)>
    decreases items.len(),
{
    if items.len() == 0 || outcomes.len() == 0 {
        Seq::empty()
    } else {
        let rest = failures_of(items.drop_last(), outcomes.drop_last());
        match outcomes.last() {
            Ok(_) => rest,
            Err(e) => rest.push((items.last().ticket_key@, integration_error_text(e))),
        }
    }
}

/// The ticket key and error text of each reported failure, in order.
pub open spec fn failure_views(f: Seq<PublishFailure>) -> Seq<(Seq<char>, Seq<char>)> {
    Seq::new(f.len(), |i: int| (f[i].ticket_key@, f[i].error@))
}

fn slots_from(v: Vec<SlotWithTicket>) -> (r: Vec<Slot>)
    ensures
        r@ == slots_of(v@),
{
    let ghost orig = v@;
    let mut rest = v;
    let mut out: Vec<Slot> = Vec::new();
    let n = rest.len();
    let mut i: usize = 0;
    while i < n
        invariant
            n == orig.len(),
            i <= n,
            rest@ == orig.skip(i as int),
            out@ == slots_of(orig.take(i as int)),
        decreases n - i,
    {
        let x = rest.remove(0);
        out.push(Slot::from(x));
        i += 1;
        assert(rest@ =~= orig.skip(i as int));
        assert(out@ =~= slots_of(orig.take(i as int)));
    }
    assert(orig.take(n as int) =~= orig);
    out
}

fn tickets_from(v: Vec<TicketRecord>) -> (r: Vec<Ticket>)
    ensures
        r@ == tickets_of(v@),
{
    let ghost orig = v@;
    let mut rest = v;
    let mut out: Vec<Ticket> = Vec::new();
    let n = rest.len();
    let mut i: usize = 0;
    while i < n
        invariant
            n == orig.len(),
            i <= n,
            rest@ == orig.skip(i as int),
            out@ == tickets_of(orig.take(i as int)),
        decreases n - i,
    {
        let x = rest.remove(0);
        out.push(Ticket::from(x));
        i += 1;
        assert(rest@ =~= orig.skip(i as int));
        assert(out@ =~= tickets_of(orig.take(i as int)));
    }
    assert(orig.take(n as int) =~= orig);
    out
}

fn items_from(v: Vec<SlotWithTicket>) -> (r: Vec<PublishItem>)
    ensures
        r@ == items_of(v@),
{
    let ghost orig = v@;
    let mut rest = v;
    let mut out: Vec<PublishItem> = Vec::new();
    let n = rest.len();
    let mut i: usize = 0;
    while i < n
        invariant
            n == orig.len(),
            i <= n,
            rest@ == orig.skip(i as int),
            out@ == items_of(orig.take(i as int)),
        decreases n - i,
    {
        let x = rest.remove(0);
        let seconds: i128 = match x.stopped_at {
            Some(t) => t as i128 - x.started_at as i128,
            None => 0,
        };
        out.push(PublishItem { slot_id: x.id, ticket_key: x.ticket_key, started_at: x.started_at, seconds });
        i += 1;
        assert(rest@ =~= orig.skip(i as int));
        assert(out@ =~= items_of(orig.take(i as int)));
    }
    assert(orig.take(n as int) =~= orig);
    out
}

impl NirvanaApi {
    /// Stops the running slot at `now` and returns it with that stop time. With none running:
    /// `Ok(None)`; with `now` not after its start: `StopBeforeStart`; either way nothing changes.
    pub fn stop_slot_at(&mut self, now: i64) -> (r: Result<Option<Slot>, NirvanaError>)
        requires
            old(self).wf(),
        ensures
            final(self).wf(),
            final(self).config_view() == old(self).config_view(),
            final(self).paths_view() == old(self).paths_view(),
            stop_outcome(old(self).db_view(), final(self).db_view(), now, r),
    {
        match self.db.stop_running(now) {
            Ok(slot) => {
                let mut s = slot;
                s.stopped_at = Some(now);
                Ok(Some(Slot::from(s)))
            },
            Err(DbError::QueryReturnedNoRows) => Ok(None),
            Err(e) => Err(NirvanaError::Db(e)),
        }
    }

    /// Stops the running slot at `at`, or now where no time is given; where the system clock
    /// cannot be read, nothing changes and an I/O error says so.
    pub fn stop_slot(&mut self, at: Option<i64>) -> (r: Result<Option<Slot>, NirvanaError>)
        requires
            old(self).wf(),
        ensures
            final(self).wf(),
            final(self).config_view() == old(self).config_view(),
            final(self).paths_view() == old(self).paths_view(),
            at matches Some(t) ==> stop_outcome(old(self).db_view(), final(self).db_view(), t, r),
            at is None ==> clock_refused(old(self).db_view(), final(self).db_view(), r) || exists|now: i64|
                0 <= now && #[trigger] stop_outcome(old(self).db_view(), final(self).db_view(), now, r),
    {
        let now = match at {
            Some(t) => t,
            None => match unix_now() {
                Some(t) => t,
                None => return Err(NirvanaError::Io(clock_failure())),
            },
        };
        self.stop_slot_at(now)
    }

    /// Starts work on `ticket_key` at `at`, or now where no time is given; see `start_slot_at`.
    /// Without a time, the active connection is looked up first; where it is there and the
    /// system clock cannot be read, nothing changes and an I/O error says so.
    pub fn start_slot(
        &mut self,
        ticket_key: &str,
        at: Option<i64>,
        note: Option<&str>,
        issue: Option<Result<IssueInfo, IntegrationError>>,
    ) -> (r: Result<StartStep, NirvanaError>)
        requires
            old(self).wf(),
            start_stops_running(old(self).config_view(), old(self).db_view(), ticket_key@, issue) ==> running_stoppable(
                old(self).db_view().slots@,
            ),
        ensures
            final(self).wf(),
            final(self).config_view() == old(self).config_view(),
            final(self).paths_view() == old(self).paths_view(),
            at matches Some(t) ==> start_outcome(
                old(self).config_view(),
                old(self).db_view(),
                final(self).db_view(),
                ticket_key@,
                t,
                note_view(note),
                issue,
                r,
            ),
            at is None ==> {
                ||| {
                    &&& clock_refused(old(self).db_view(), final(self).db_view(), r)
                    &&& old(self).config_view().active_connection matches Some(cid)
                    &&& connection_pos(old(self).db_view().connections@, cid) is Some
                }
                ||| exists|now: i64| 0 <= now && #[trigger] start_outcome(
                    old(self).config_view(),
                    old(self).db_view(),
                    final(self).db_view(),
                    ticket_key@,
                    now,
                    note_view(note),
                    issue,
                    r,
                )
            },
    {
        let now = match at {
            Some(t) => t,
            None => {
                let cid = match self.config.active_connection {
                    None => {
                        let r = Err(NirvanaError::Tracking(TrackingError::NoActiveConnection));
                        assert(start_outcome(
                            self.config_view(), self.db_view(), self.db_view(), ticket_key@, 0, note_view(note), issue, r,
                        ));
                        return r;
                    },
                    Some(c) => c,
                };
                match self.get_connection(cid) {
                    Ok(_) => {},
                    Err(e) => {
                        let r = Err(e);
                        assert(start_outcome(
                            self.config_view(), self.db_view(), self.db_view(), ticket_key@, 0, note_view(note), issue, r,
                        ));
                        return r;
                    },
                }
                match unix_now() {
                    Some(t) => t,
                    None => return Err(NirvanaError::Io(clock_failure())),
                }
            },
        };
        self.start_slot_at(ticket_key, now, note, issue)
    }

    /// Removes slot `id` and returns it; `QueryReturnedNoRows` where there is no such slot.
    pub fn delete_slot(&mut self, id: i64) -> (r: Result<Slot, NirvanaError>)
        requires
            old(self).wf(),
        ensures
            final(self).wf(),
            final(self).config_view() == old(self).config_view(),
            match slot_pos(old(self).db_view().slots@, id) {
                None => r matches Err(NirvanaError::Db(DbError::QueryReturnedNoRows)) && final(self).db_view() == old(self).db_view(),
                Some(k) => {
                    &&& r == Ok::<Slot, NirvanaError>(slot_of(with_ticket(old(self).db_view().tickets@, old(self).db_view().slots@[k])))
                    &&& final(self).db_view().slots@ == old(self).db_view().slots@.remove(k)
                    &&& final(self).db_view().connections@ == old(self).db_view().connections@
                    &&& final(self).db_view().credentials@ == old(self).db_view().credentials@
                    &&& final(self).db_view().tickets@ == old(self).db_view().tickets@
                },
            },
    {
        match self.db.delete_slot(id) {
            Ok(s) => Ok(Slot::from(s)),
            Err(e) => Err(NirvanaError::Db(e)),
        }
    }

    /// The active connection's slots that started in `[from, to]`, ordered by `sort`.
    pub fn get_slots(&self, from: i64, to: Option<i64>, sort: SlotSort) -> (r: Result<Vec<Slot>, NirvanaError>)
        requires
            self.wf(),
        ensures
            match self.config_view().active_connection {
                None => r matches Err(NirvanaError::Tracking(TrackingError::NoActiveConnection)),
                Some(cid) => r matches Ok(v) && v@ == slots_of(
                    slot_listing(self.db_view().slots@, self.db_view().tickets@, cid, from, to, false, sort),
                ),
            },
    {
        let cid = match self.config.active_connection {
            None => return Err(NirvanaError::Tracking(TrackingError::NoActiveConnection)),
            Some(c) => c,
        };
        Ok(slots_from(self.db.select_slots(cid, from, to, false, sort)))
    }

    /// The active connection's tickets, most recently worked on first.
    pub fn list_recent_tickets(&self) -> (r: Result<Vec<Ticket>, NirvanaError>)
        ensures
            match self.config_view().active_connection {
                None => r matches Err(NirvanaError::Tracking(TrackingError::NoActiveConnection)),
                Some(cid) => r matches Ok(v) && v@ == tickets_of(recent_tickets(self.db_view().tickets@, cid)),
            },
    {
        let cid = match self.config.active_connection {
            None => return Err(NirvanaError::Tracking(TrackingError::NoActiveConnection)),
            Some(c) => c,
        };
        Ok(tickets_from(self.db.list_tickets(cid)))
    }

    /// What publishing the active connection's finished, unpublished slots that started in
    /// `[from, to]` takes: the integration to publish through and the slots, by start time.
    pub fn publish_plan(&self, from: i64, to: Option<i64>) -> (r: Result<PublishPlan, NirvanaError>)
        requires
            self.wf(),
        ensures
            match self.config_view().active_connection {
                None => r matches Err(NirvanaError::Tracking(TrackingError::NoActiveConnection)),
                Some(cid) => match connection_pos(self.db_view().connections@, cid) {
                    None => r matches Err(NirvanaError::Tracking(TrackingError::NoActiveConnection)),
                    Some(ci) => match credential_of(self.db_view().credentials@, cid) {
                        None => r matches Err(NirvanaError::Db(DbError::QueryReturnedNoRows)),
                        Some(token) => {
                            let conn = self.db_view().connections@[ci];
                            if !is_jira_kind(conn.kind@) {
                                r matches Err(NirvanaError::Integration(IntegrationError::UnsupportedKind(k))) && k@ == conn.kind@
                            } else {
                                r matches Ok(plan) && (plan.integration.kind matches IntegrationKind::Jira(j)
                                    && j.host@ == conn.base_url@ && j.identity@ == conn.identity@ && j.token@ == token@)
                                    && plan.items@ == items_of(
                                    slot_listing(
                                        self.db_view().slots@,
                                        self.db_view().tickets@,
                                        cid,
                                        from,
                                        to,
                                        true,
                                        SlotSort::StartedAt,
                                    ),
                                )
                            }
                        },
                    },
                },
            },
    {
        let cid = match self.config.active_connection {
            None => return Err(NirvanaError::Tracking(TrackingError::NoActiveConnection)),
            Some(c) => c,
        };
        let connection = match self.get_connection(cid) {
            Ok(c) => c,
            Err(e) => return Err(e),
        };
        let token = match self.db.get_token(cid) {
            Ok(t) => t,
            Err(e) => return Err(NirvanaError::Db(e)),
        };
        let integration = match build_integration(&connection, token.as_str()) {
            Ok(i) => i,
            Err(e) => return Err(NirvanaError::Integration(e)),
        };
        let slots = self.db.select_slots(cid, from, to, true, SlotSort::StartedAt);
        Ok(PublishPlan { integration, items: items_from(slots) })
    }

    /// Records how publishing the plan's slots went, one outcome per slot in order: the slots
    /// that were accepted are marked published at `now`; the others are reported with the
    /// tracker's error.
    pub fn publish(
        &mut self,
        plan: &PublishPlan,
        outcomes: &Vec<Result<(), IntegrationError>>,
        now: i64,
    ) -> (r: PublishResult)
        requires
            old(self).wf(),
            outcomes@.len() == plan.items@.len(),
        ensures
            final(self).wf(),
            final(self).config_view() == old(self).config_view(),
            final(self).paths_view() == old(self).paths_view(),
            final(self).db_view().slots@ == published(old(self).db_view().slots@, ok_ids(plan.items@, outcomes@), now),
            final(self).db_view().connections@ == old(self).db_view().connections@,
            final(self).db_view().credentials@ == old(self).db_view().credentials@,
            final(self).db_view().tickets@ == old(self).db_view().tickets@,
            r.published_count == ok_ids(plan.items@, outcomes@).len(),
            failure_views(r.failed@) == failures_of(plan.items@, outcomes@),
            r.timestamp == now,
    {
        let mut ids: Vec<i64> = Vec::new();
        let mut failed: Vec<PublishFailure> = Vec::new();
        let n = plan.items.len();
        let mut i: usize = 0;
        while i < n
            invariant
                n == plan.items@.len(),
                n == outcomes@.len(),
                i <= n,
                ids@ == ok_ids(plan.items@.take(i as int), outcomes@.take(i as int)),
                failure_views(failed@) == failures_of(plan.items@.take(i as int), outcomes@.take(i as int)),
            decreases n - i,
        {
            proof {
                assert(plan.items@.take(i + 1).drop_last() =~= plan.items@.take(i as int));
                assert(outcomes@.take(i + 1).drop_last() =~= outcomes@.take(i as int));
                assert(plan.items@.take(i + 1).last() == plan.items@[i as int]);
                assert(outcomes@.take(i + 1).last() == outcomes@[i as int]);
            }
            match &outcomes[i] {
                Ok(()) => {
                    ids.push(plan.items[i].slot_id);
                },
                Err(e) => {
                    failed.push(PublishFailure { ticket_key: plan.items[i].ticket_key.clone(), error: e.message() });
                    assert(failure_views(failed@) =~= failures_of(plan.items@.take(i + 1), outcomes@.take(i + 1)));
                },
            }
            i += 1;
        }
        assert(plan.items@.take(n as int) =~= plan.items@);
        assert(outcomes@.take(n as int) =~= outcomes@);
        let count = ids.len();
        if count > 0 {
            self.db.mark_published(&ids, now);
        } else {
            assert(published(self.db.slots@, ids@, now) =~= self.db.slots@);
        }
        PublishResult { published_count: count, failed, timestamp: now }
    }
}

} // verus!
