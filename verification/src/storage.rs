//! The store: connections, their credentials, tickets and work slots, kept as tables
//! ordered by row id, with the queries and updates that the tracking rules make.

use vstd::prelude::*;
use crate::errors::DbError;
use crate::text::str_eq;
use crate::sort::{SortKey, sort_keyed, values_of, sort_by_key, into_values};

verus! {

/// A stored connection to an issue tracker.
#[derive(Debug)]
pub struct ConnectionRecord {
    pub id: i64,
    pub name: String,
    pub kind: String,
    pub base_url: String,
    pub identity: String,
    pub secret_store: String,
    pub created_at: i64,
    pub updated_at: i64,
}

/// The secret of a connection.
#[derive(Debug)]
pub struct CredentialRecord {
    pub connection_id: i64,
    pub credential: String,
}

/// A ticket that work was tracked on.
#[derive(Debug)]
pub struct TicketRecord {
    pub id: i64,
    pub ticket_key: String,
    pub summary: Option<String>,
    pub connection_id: i64,
    pub last_worked_at: i64,
}

/// A span of work on a ticket; running while `stopped_at` is `None`.
#[derive(Debug)]
pub struct SlotRecord {
    pub id: i64,
    pub ticket_id: i64,
    pub connection_id: i64,
    pub note: Option<String>,
    pub started_at: i64,
    pub stopped_at: Option<i64>,
    pub published_at: Option<i64>,
}

/// A slot joined with the key and summary of its ticket.
#[derive(Debug)]
pub struct SlotWithTicket {
    pub id: i64,
    pub ticket_key: String,
    pub summary: Option<String>,
    pub connection_id: i64,
    pub note: Option<String>,
    pub started_at: i64,
    pub stopped_at: Option<i64>,
    pub published_at: Option<i64>,
}

/// All tables of the store.
#[derive(Debug)]
pub struct Database {
    pub connections: Vec<ConnectionRecord>,
    pub credentials: Vec<CredentialRecord>,
    pub tickets: Vec<TicketRecord>,
    pub slots: Vec<SlotRecord>,
}

pub(crate) fn copy_opt_string(s: &Option<String>) -> (r: Option<String>)
    ensures
        r == *s,
{
    match s {
        Some(v) => Some(v.clone()),
        None => None,
    }
}

impl ConnectionRecord {
    /// A field-by-field copy.
    pub fn duplicate(&self) -> (r: Self)
        ensures
            r == *self,
    {
        ConnectionRecord {
            id: self.id,
            name: self.name.clone(),
            kind: self.kind.clone(),
            base_url: self.base_url.clone(),
            identity: self.identity.clone(),
            secret_store: self.secret_store.clone(),
            created_at: self.created_at,
            updated_at: self.updated_at,
        }
    }
}

impl TicketRecord {
    /// A field-by-field copy.
    pub fn duplicate(&self) -> (r: Self)
        ensures
            r == *self,
    {
        TicketRecord {
            id: self.id,
            ticket_key: self.ticket_key.clone(),
            summary: copy_opt_string(&self.summary),
            connection_id: self.connection_id,
            last_worked_at: self.last_worked_at,
        }
    }
}

impl SlotRecord {
    /// A field-by-field copy.
    pub fn duplicate(&self) -> (r: Self)
        ensures
            r == *self,
    {
        SlotRecord {
            id: self.id,
            ticket_id: self.ticket_id,
            connection_id: self.connection_id,
            note: copy_opt_string(&self.note),
            started_at: self.started_at,
            stopped_at: self.stopped_at,
            published_at: self.published_at,
        }
    }
}

/// The last row id of a table plus one, or 1 for an empty table: the row id that the
/// next insertion gets.
pub open spec fn next_id(last: Option<i64>) -> int {
    match last {
        Some(id) => id + 1,
        None => 1,
    }
}

/// The row id of the last connection, where there is one.
pub open spec fn last_connection_id(s: Seq<ConnectionRecord>) -> Option<i64> {
    if s.len() == 0 { None } else { Some(s.last().id) }
}

/// The row id of the last ticket, where there is one.
pub open spec fn last_ticket_id(s: Seq<TicketRecord>) -> Option<i64> {
    if s.len() == 0 { None } else { Some(s.last().id) }
}

/// The row id of the last slot, where there is one.
pub open spec fn last_slot_id(s: Seq<SlotRecord>) -> Option<i64> {
    if s.len() == 0 { None } else { Some(s.last().id) }
}

/// Whether `id` is a ticket's row id.
pub open spec fn has_ticket(t: Seq<TicketRecord>, id: i64) -> bool {
    exists|k: int| 0 <= k < t.len() && t[k].id == id
}

/// The position of the ticket with row id `id`.
pub open spec fn ticket_pos(t: Seq<TicketRecord>, id: i64) -> int {
    choose|k: int| 0 <= k < t.len() && t[k].id == id
}

/// A slot that has not been stopped.
pub open spec fn is_running(s: SlotRecord) -> bool {
    s.stopped_at is None
}

/// The well-formedness of the store: row ids strictly increase in each table, every slot
/// belongs to a stored ticket, at most one slot is running, and every stopped slot stopped after
/// it started.
pub open spec fn tables_wf(
    connections: Seq<ConnectionRecord>,
    tickets: Seq<TicketRecord>,
    slots: Seq<SlotRecord>,
) -> bool {
    &&& forall|i: int, j: int| 0 <= i < j < connections.len() ==> connections[i].id < connections[j].id
    &&& forall|i: int, j: int| 0 <= i < j < tickets.len() ==> tickets[i].id < tickets[j].id
    &&& forall|i: int, j: int| 0 <= i < j < slots.len() ==> slots[i].id < slots[j].id
    &&& forall|i: int| 0 <= i < slots.len() ==> has_ticket(tickets, #[trigger] slots[i].ticket_id)
    &&& forall|i: int, j: int|
        0 <= i < slots.len() && 0 <= j < slots.len() && is_running(#[trigger] slots[i])
            && is_running(#[trigger] slots[j]) ==> i == j
    &&& stops_after_starts(slots)
}

/// A running slot, where one runs, started before the last representable second: a start can
/// then stop it a second after its start.
pub open spec fn running_stoppable(s: Seq<SlotRecord>) -> bool {
    forall|i: int| 0 <= i < s.len() && is_running(#[trigger] s[i]) ==> s[i].started_at < i64::MAX
}

/// The message SQLite gives when no further row id can be had.
pub open spec fn full_message() -> Seq<char> {
    seq!['d', 'a', 't', 'a', 'b', 'a', 's', 'e', ' ', 'o', 'r', ' ', 'd', 'i', 's', 'k', ' ', 'i', 's', ' ', 'f', 'u', 'l', 'l']
}

fn full_error() -> (e: DbError)
    ensures
        e matches DbError::Sqlite(m) && m@ == full_message(),
{
    let s = String::from_str("database or disk is full");
    proof {
        reveal_strlit("database or disk is full");
    }
    assert(s@ =~= full_message());
    DbError::Sqlite(s)
}

impl Database {
    pub open spec fn wf(&self) -> bool {
        tables_wf(self.connections@, self.tickets@, self.slots@)
    }

    /// An empty store.
    pub fn new() -> (db: Self)
        ensures
            db.wf(),
            db.connections@.len() == 0,
            db.credentials@.len() == 0,
            db.tickets@.len() == 0,
            db.slots@.len() == 0,
    {
        Database { connections: Vec::new(), credentials: Vec::new(), tickets: Vec::new(), slots: Vec::new() }
    }
}


/// Whether a connection of this name is stored.
pub open spec fn has_connection_name(s: Seq<ConnectionRecord>, name: Seq<char>) -> bool {
    exists|i: int| 0 <= i < s.len() && s[i].name@ == name
}

/// `i` is the first credential of connection `cid`.
pub open spec fn is_first_credential(s: Seq<CredentialRecord>, cid: i64, i: int) -> bool {
    &&& 0 <= i < s.len()
    &&& s[i].connection_id == cid
    &&& forall|k: int| 0 <= k < i ==> s[k].connection_id != cid
}

/// The secret of connection `cid`: the credential of the first row stored for it.
pub open spec fn credential_of(s: Seq<CredentialRecord>, cid: i64) -> Option<String> {
    if exists|i: int| is_first_credential(s, cid, i) {
        Some(s[choose|i: int| is_first_credential(s, cid, i)].credential)
    } else {
        None
    }
}

/// `i` is the first ticket with this key under connection `cid`.
pub open spec fn is_first_ticket(t: Seq<TicketRecord>, key: Seq<char>, cid: i64, i: int) -> bool {
    &&& 0 <= i < t.len()
    &&& t[i].ticket_key@ == key
    &&& t[i].connection_id == cid
    &&& forall|k: int| 0 <= k < i ==> !(t[k].ticket_key@ == key && t[k].connection_id == cid)
}

/// The position of the ticket with this key under connection `cid`, where there is one.
pub open spec fn ticket_by_key(t: Seq<TicketRecord>, key: Seq<char>, cid: i64) -> Option<int> {
    if exists|i: int| is_first_ticket(t, key, cid, i) {
        Some(choose|i: int| is_first_ticket(t, key, cid, i))
    } else {
        None
    }
}

/// The tickets with `last_worked_at` of ticket `id` set to `ts`.
pub open spec fn touched(t: Seq<TicketRecord>, id: i64, ts: i64) -> Seq<TicketRecord> {
    Seq::new(t.len(), |i: int| if t[i].id == id { TicketRecord { last_worked_at: ts, ..t[i] } } else { t[i] })
}

impl Database {
    /// All connections, in row id order.
    pub fn list_connections(&self) -> (r: Vec<ConnectionRecord>)
        ensures
            r@ == self.connections@,
    {
        let mut r: Vec<ConnectionRecord> = Vec::new();
        let n = self.connections.len();
        let mut i: usize = 0;
        while i < n
            invariant
                n == self.connections@.len(),
                i <= n,
                r@ == self.connections@.take(i as int),
            decreases n - i,
        {
            r.push(self.connections[i].duplicate());
            i += 1;
            assert(r@ =~= self.connections@.take(i as int));
        }
        assert(self.connections@.take(n as int) =~= self.connections@);
        r
    }

    /// The position of the connection with row id `id`.
    pub fn find_connection(&self, id: i64) -> (r: Option<usize>)
        ensures
            r matches Some(i) ==> i < self.connections@.len() && self.connections@[i as int].id == id,
            r is None ==> forall|k: int| 0 <= k < self.connections@.len() ==> self.connections@[k].id != id,
    {
        let n = self.connections.len();
        let mut i: usize = 0;
        while i < n
            invariant
                n == self.connections@.len(),
                i <= n,
                forall|k: int| 0 <= k < i ==> self.connections@[k].id != id,
            decreases n - i,
        {
            if self.connections[i].id == id {
                return Some(i);
            }
            i += 1;
        }
        None
    }

    /// Whether a connection of this name is stored.
    pub fn has_name(&self, name: &String) -> (b: bool)
        ensures
            b == has_connection_name(self.connections@, name@),
    {
        let n = self.connections.len();
        let mut i: usize = 0;
        while i < n
            invariant
                n == self.connections@.len(),
                i <= n,
                forall|k: int| 0 <= k < i ==> self.connections@[k].name@ != name@,
            decreases n - i,
        {
            if self.connections[i].name == *name {
                return true;
            }
            i += 1;
        }
        false
    }

    /// Stores a new connection and its secret. A name that is taken already is refused; the
    /// new connection gets the next row id, and `now` as its creation and update time.
    pub fn add_connection(
        &mut self,
        name: String,
        kind: String,
        base_url: String,
        identity: String,
        secret_store: String,
        token: String,
        now: i64,
    ) -> (r: Result<ConnectionRecord, DbError>)
        requires
            old(self).wf(),
        ensures
            final(self).wf(),
            has_connection_name(old(self).connections@, name@) ==> (r matches Err(DbError::DuplicateName(n)) && n@ == name@
                && *final(self) == *old(self)),
            !has_connection_name(old(self).connections@, name@)
                && next_id(last_connection_id(old(self).connections@)) > i64::MAX ==> (r matches Err(DbError::Sqlite(m))
                && m@ == full_message() && *final(self) == *old(self)),
            !has_connection_name(old(self).connections@, name@)
                && next_id(last_connection_id(old(self).connections@)) <= i64::MAX ==> (r matches Ok(c) && {
                &&& c == (ConnectionRecord {
                    id: next_id(last_connection_id(old(self).connections@)) as i64,
                    name,
                    kind,
                    base_url,
                    identity,
                    secret_store,
                    created_at: now,
                    updated_at: now,
                })
                &&& final(self).connections@ == old(self).connections@.push(c)
                &&& final(self).credentials@ == old(self).credentials@.push(CredentialRecord { connection_id: c.id, credential: token })
                &&& final(self).tickets@ == old(self).tickets@
                &&& final(self).slots@ == old(self).slots@
            }),
    {
        if self.has_name(&name) {
            return Err(DbError::DuplicateName(name));
        }
        let n = self.connections.len();
        let id: i64 = if n == 0 {
            1
        } else {
            let last = self.connections[n - 1].id;
            if last == i64::MAX {
                return Err(full_error());
            }
            last + 1
        };
        let c = ConnectionRecord { id, name, kind, base_url, identity, secret_store, created_at: now, updated_at: now };
        let copy = c.duplicate();
        self.connections.push(c);
        self.credentials.push(CredentialRecord { connection_id: id, credential: token });
        Ok(copy)
    }

    /// The secret of connection `cid`, or `QueryReturnedNoRows` where none is stored.
    pub fn get_token(&self, cid: i64) -> (r: Result<String, DbError>)
        ensures
            match credential_of(self.credentials@, cid) {
                Some(t) => r == Ok::<String, DbError>(t),
                None => r matches Err(DbError::QueryReturnedNoRows),
            },
    {
        let n = self.credentials.len();
        let mut i: usize = 0;
        while i < n
            invariant
                n == self.credentials@.len(),
                i <= n,
                forall|k: int| 0 <= k < i ==> self.credentials@[k].connection_id != cid,
            decreases n - i,
        {
            if self.credentials[i].connection_id == cid {
                proof {
                    let s = self.credentials@;
                    assert(is_first_credential(s, cid, i as int));
                    let j = choose|j: int| is_first_credential(s, cid, j);
                    assert(j == i) by {
                        if j < i { assert(s[j].connection_id != cid); }
                        if i < j { assert(s[i as int].connection_id != cid); }
                    }
                }
                return Ok(self.credentials[i].credential.clone());
            }
            i += 1;
        }
        Err(DbError::QueryReturnedNoRows)
    }

    /// The position of the ticket with this key under connection `cid`.
    pub fn find_ticket(&self, key: &str, cid: i64) -> (r: Option<usize>)
        ensures
            r matches Some(i) ==> ticket_by_key(self.tickets@, key@, cid) == Some(i as int),
            r is None ==> ticket_by_key(self.tickets@, key@, cid) is None,
            r matches Some(i) ==> i < self.tickets@.len(),
    {
        let n = self.tickets.len();
        let mut i: usize = 0;
        while i < n
            invariant
                n == self.tickets@.len(),
                i <= n,
                forall|k: int| 0 <= k < i ==> !(self.tickets@[k].ticket_key@ == key@ && self.tickets@[k].connection_id == cid),
            decreases n - i,
        {
            if self.tickets[i].connection_id == cid && str_eq(self.tickets[i].ticket_key.as_str(), key) {
                proof {
                    let t = self.tickets@;
                    assert(is_first_ticket(t, key@, cid, i as int));
                    let j = choose|j: int| is_first_ticket(t, key@, cid, j);
                    assert(j == i) by {
                        if j < i { assert(!(t[j].ticket_key@ == key@ && t[j].connection_id == cid)); }
                        if i < j { assert(!(t[i as int].ticket_key@ == key@ && t[i as int].connection_id == cid)); }
                    }
                }
                return Some(i);
            }
            i += 1;
        }
        None
    }

    /// Sets the time that ticket `id` was last worked on.
    pub fn touch_last_worked(&mut self, id: i64, ts: i64)
        requires
            old(self).wf(),
        ensures
            final(self).wf(),
            final(self).tickets@ == touched(old(self).tickets@, id, ts),
            final(self).connections@ == old(self).connections@,
            final(self).credentials@ == old(self).credentials@,
            final(self).slots@ == old(self).slots@,
    {
        let ghost old_t = self.tickets@;
        let n = self.tickets.len();
        let mut i: usize = 0;
        while i < n
            invariant
                n == old_t.len(),
                self.tickets@.len() == n,
                i <= n,
                forall|k: int| 0 <= k < i ==> self.tickets@[k] == touched(old_t, id, ts)[k],
                forall|k: int| i <= k < n ==> self.tickets@[k] == old_t[k],
                forall|k: int| 0 <= k < n ==> self.tickets@[k].id == old_t[k].id,
                self.connections@ == old(self).connections@,
                self.credentials@ == old(self).credentials@,
                self.slots@ == old(self).slots@,
                old_t == old(self).tickets@,
            decreases n - i,
        {
            if self.tickets[i].id == id {
                let mut t = self.tickets[i].duplicate();
                t.last_worked_at = ts;
                self.tickets.set(i, t);
            }
            i += 1;
        }
        assert(self.tickets@ =~= touched(old_t, id, ts));
        assert(self.wf()) by {
            assert forall|j: int| 0 <= j < self.slots@.len() implies has_ticket(self.tickets@, #[trigger] self.slots@[j].ticket_id) by {
                assert(has_ticket(old_t, self.slots@[j].ticket_id));
                let k = choose|k: int| 0 <= k < old_t.len() && old_t[k].id == self.slots@[j].ticket_id;
                assert(self.tickets@[k].id == old_t[k].id);
            }
        }
    }

    /// Stores a new ticket with the next row id.
    pub fn insert_ticket(
        &mut self,
        key: &str,
        summary: Option<&str>,
        cid: i64,
        ts: i64,
    ) -> (r: Result<TicketRecord, DbError>)
        requires
            old(self).wf(),
        ensures
            final(self).wf(),
            next_id(last_ticket_id(old(self).tickets@)) > i64::MAX ==> (r matches Err(DbError::Sqlite(m))
                && m@ == full_message() && *final(self) == *old(self)),
            next_id(last_ticket_id(old(self).tickets@)) <= i64::MAX ==> (r matches Ok(t) && {
                &&& t.id == next_id(last_ticket_id(old(self).tickets@))
                &&& t.ticket_key@ == key@
                &&& (match summary {
                    Some(s) => t.summary matches Some(v) && v@ == s@,
                    None => t.summary is None,
                })
                &&& t.connection_id == cid
                &&& t.last_worked_at == ts
                &&& final(self).tickets@ == old(self).tickets@.push(t)
                &&& final(self).connections@ == old(self).connections@
                &&& final(self).credentials@ == old(self).credentials@
                &&& final(self).slots@ == old(self).slots@
            }),
    {
        let n = self.tickets.len();
        let id: i64 = if n == 0 {
            1
        } else {
            let last = self.tickets[n - 1].id;
            if last == i64::MAX {
                return Err(full_error());
            }
            last + 1
        };
        let summary_text = match summary {
            Some(s) => Some(s.to_string()),
            None => None,
        };
        let t = TicketRecord { id, ticket_key: key.to_string(), summary: summary_text, connection_id: cid, last_worked_at: ts };
        let copy = t.duplicate();
        let ghost old_t = self.tickets@;
        self.tickets.push(t);
        assert(self.wf()) by {
            assert forall|j: int| 0 <= j < self.slots@.len() implies has_ticket(self.tickets@, #[trigger] self.slots@[j].ticket_id) by {
                assert(has_ticket(old_t, self.slots@[j].ticket_id));
                let k = choose|k: int| 0 <= k < old_t.len() && old_t[k].id == self.slots@[j].ticket_id;
                assert(self.tickets@[k] == old_t[k]);
            }
        }
        Ok(copy)
    }
}


/// `i` is the position of a running slot.
pub open spec fn is_running_pos(s: Seq<SlotRecord>, i: int) -> bool {
    0 <= i < s.len() && is_running(s[i])
}

/// The position of the running slot, where one is running.
pub open spec fn running_pos(s: Seq<SlotRecord>) -> Option<int> {
    if exists|i: int| is_running_pos(s, i) {
        Some(choose|i: int| is_running_pos(s, i))
    } else {
        None
    }
}

/// A slot joined with the key and summary of a ticket.
pub open spec fn joined(s: SlotRecord, t: TicketRecord) -> SlotWithTicket {
    SlotWithTicket {
        id: s.id,
        ticket_key: t.ticket_key,
        summary: t.summary,
        connection_id: s.connection_id,
        note: s.note,
        started_at: s.started_at,
        stopped_at: s.stopped_at,
        published_at: s.published_at,
    }
}

/// A slot joined with its own ticket.
pub open spec fn with_ticket(t: Seq<TicketRecord>, s: SlotRecord) -> SlotWithTicket {
    joined(s, t[ticket_pos(t, s.ticket_id)])
}

/// The slots with slot `id` stopped at `ts`.
pub open spec fn stopped(s: Seq<SlotRecord>, id: i64, ts: i64) -> Seq<SlotRecord> {
    Seq::new(s.len(), |i: int| if s[i].id == id { SlotRecord { stopped_at: Some(ts), ..s[i] } } else { s[i] })
}

/// Every stopped slot stopped after it started.
pub open spec fn stops_after_starts(s: Seq<SlotRecord>) -> bool {
    forall|i: int| 0 <= i < s.len() && (#[trigger] s[i]).stopped_at is Some ==> s[i].stopped_at->0 > s[i].started_at
}

impl Database {
    /// The position of the running slot.
    pub fn find_running(&self) -> (r: Option<usize>)
        requires
            self.wf(),
        ensures
            r matches Some(i) ==> running_pos(self.slots@) == Some(i as int),
            r is None ==> running_pos(self.slots@) is None,
            r matches Some(i) ==> i < self.slots@.len(),
    {
        let n = self.slots.len();
        let mut i: usize = 0;
        while i < n
            invariant
                n == self.slots@.len(),
                i <= n,
                forall|k: int| 0 <= k < i ==> !is_running(self.slots@[k]),
                self.wf(),
            decreases n - i,
        {
            if self.slots[i].stopped_at.is_none() {
                proof {
                    let s = self.slots@;
                    assert(is_running_pos(s, i as int));
                    let j = choose|j: int| is_running_pos(s, j);
                    assert(is_running(s[j]) && is_running(s[i as int]));
                    assert(j == i);
                }
                return Some(i);
            }
            i += 1;
        }
        assert(!exists|j: int| is_running_pos(self.slots@, j));
        None
    }

    /// The position of the ticket with row id `id`.
    fn ticket_index(&self, id: i64) -> (r: usize)
        requires
            self.wf(),
            has_ticket(self.tickets@, id),
        ensures
            r == ticket_pos(self.tickets@, id),
            r < self.tickets@.len(),
            self.tickets@[r as int].id == id,
    {
        let n = self.tickets.len();
        let mut i: usize = 0;
        while i < n
            invariant
                n == self.tickets@.len(),
                i <= n,
                forall|k: int| 0 <= k < i ==> self.tickets@[k].id != id,
                has_ticket(self.tickets@, id),
                self.wf(),
            decreases n - i,
        {
            if self.tickets[i].id == id {
                proof {
                    let t = self.tickets@;
                    let j = choose|j: int| 0 <= j < t.len() && t[j].id == id;
                    if j < i {
                        assert(t[j].id < t[i as int].id);
                    }
                    if i < j {
                        assert(t[i as int].id < t[j].id);
                    }
                }
                return i;
            }
            i += 1;
        }
        assert(false);
        0
    }

    /// The slot at position `i` joined with its ticket.
    pub fn join_slot(&self, i: usize) -> (r: SlotWithTicket)
        requires
            self.wf(),
            i < self.slots@.len(),
        ensures
            r == with_ticket(self.tickets@, self.slots@[i as int]),
    {
        let s = &self.slots[i];
        assert(has_ticket(self.tickets@, self.slots@[i as int].ticket_id));
        let k = self.ticket_index(s.ticket_id);
        let t = &self.tickets[k];
        SlotWithTicket {
            id: s.id,
            ticket_key: t.ticket_key.clone(),
            summary: copy_opt_string(&t.summary),
            connection_id: s.connection_id,
            note: copy_opt_string(&s.note),
            started_at: s.started_at,
            stopped_at: s.stopped_at,
            published_at: s.published_at,
        }
    }

    /// Stops slot `id` at `ts`.
    pub fn stop_by_id(&mut self, id: i64, ts: i64)
        requires
            old(self).wf(),
            forall|i: int| 0 <= i < old(self).slots@.len() && (#[trigger] old(self).slots@[i]).id == id
                ==> ts > old(self).slots@[i].started_at,
        ensures
            final(self).wf(),
            final(self).slots@ == stopped(old(self).slots@, id, ts),
            final(self).connections@ == old(self).connections@,
            final(self).credentials@ == old(self).credentials@,
            final(self).tickets@ == old(self).tickets@,
    {
        let ghost old_s = self.slots@;
        let n = self.slots.len();
        let mut i: usize = 0;
        while i < n
            invariant
                n == old_s.len(),
                self.slots@.len() == n,
                i <= n,
                forall|k: int| 0 <= k < i ==> self.slots@[k] == stopped(old_s, id, ts)[k],
                forall|k: int| i <= k < n ==> self.slots@[k] == old_s[k],
                self.connections@ == old(self).connections@,
                self.credentials@ == old(self).credentials@,
                self.tickets@ == old(self).tickets@,
                old_s == old(self).slots@,
            decreases n - i,
        {
            if self.slots[i].id == id {
                let mut t = self.slots[i].duplicate();
                t.stopped_at = Some(ts);
                self.slots.set(i, t);
            }
            i += 1;
        }
        assert(self.slots@ =~= stopped(old_s, id, ts));
        assert(self.wf()) by {
            assert forall|a: int, b: int|
                0 <= a < self.slots@.len() && 0 <= b < self.slots@.len() && is_running(#[trigger] self.slots@[a])
                    && is_running(#[trigger] self.slots@[b]) implies a == b by {
                assert(is_running(old_s[a]) && is_running(old_s[b]));
            }
            assert forall|j: int| 0 <= j < self.slots@.len() implies has_ticket(self.tickets@, #[trigger] self.slots@[j].ticket_id) by {
                assert(has_ticket(self.tickets@, old_s[j].ticket_id));
            }
        }
    }

    /// Stores a new running slot on ticket `ticket_id` with the next row id, and returns it
    /// joined with its ticket. No other slot may be running.
    pub fn insert_slot(
        &mut self,
        ticket_id: i64,
        cid: i64,
        note: Option<&str>,
        started_at: i64,
    ) -> (r: Result<SlotWithTicket, DbError>)
        requires
            old(self).wf(),
            has_ticket(old(self).tickets@, ticket_id),
            running_pos(old(self).slots@) is None,
        ensures
            final(self).wf(),
            next_id(last_slot_id(old(self).slots@)) > i64::MAX ==> (r matches Err(DbError::Sqlite(m))
                && m@ == full_message() && *final(self) == *old(self)),
            next_id(last_slot_id(old(self).slots@)) <= i64::MAX ==> (r matches Ok(sw) && {
                let s = final(self).slots@.last();
                &&& s.id == next_id(last_slot_id(old(self).slots@))
                &&& s.ticket_id == ticket_id
                &&& s.connection_id == cid
                &&& (match note {
                    Some(n) => s.note matches Some(v) && v@ == n@,
                    None => s.note is None,
                })
                &&& s.started_at == started_at
                &&& s.stopped_at is None
                &&& s.published_at is None
                &&& final(self).slots@ == old(self).slots@.push(s)
                &&& sw == with_ticket(old(self).tickets@, s)
                &&& final(self).connections@ == old(self).connections@
                &&& final(self).credentials@ == old(self).credentials@
                &&& final(self).tickets@ == old(self).tickets@
            }),
    {
        let n = self.slots.len();
        let id: i64 = if n == 0 {
            1
        } else {
            let last = self.slots[n - 1].id;
            if last == i64::MAX {
                return Err(full_error());
            }
            last + 1
        };
        let note_text = match note {
            Some(t) => Some(t.to_string()),
            None => None,
        };
        let s = SlotRecord {
            id,
            ticket_id,
            connection_id: cid,
            note: note_text,
            started_at,
            stopped_at: None,
            published_at: None,
        };
        let ghost old_s = self.slots@;
        self.slots.push(s);
        assert(self.wf()) by {
            let ns = self.slots@;
            assert forall|a: int, b: int|
                0 <= a < ns.len() && 0 <= b < ns.len() && is_running(#[trigger] ns[a]) && is_running(#[trigger] ns[b])
                    implies a == b by {
                if a < n {
                    assert(ns[a] == old_s[a]);
                    assert(is_running_pos(old_s, a));
                }
                if b < n {
                    assert(ns[b] == old_s[b]);
                    assert(is_running_pos(old_s, b));
                }
            }
            assert forall|j: int| 0 <= j < ns.len() implies has_ticket(self.tickets@, #[trigger] ns[j].ticket_id) by {
                if j < n {
                    assert(ns[j] == old_s[j]);
                }
            }
        }
        Ok(self.join_slot(n))
    }

    /// Stops the running slot at `ts` and returns it, joined with its ticket, as it was before
    /// the stop. With none running: `QueryReturnedNoRows`; with `ts` not after its start:
    /// `StopBeforeStart`; either way the store is unchanged.
    pub fn stop_running(&mut self, ts: i64) -> (r: Result<SlotWithTicket, DbError>)
        requires
            old(self).wf(),
        ensures
            final(self).wf(),
            match running_pos(old(self).slots@) {
                None => r matches Err(DbError::QueryReturnedNoRows) && *final(self) == *old(self),
                Some(i) => if ts <= old(self).slots@[i].started_at {
                    r matches Err(DbError::StopBeforeStart) && *final(self) == *old(self)
                } else {
                    &&& r == Ok::<SlotWithTicket, DbError>(with_ticket(old(self).tickets@, old(self).slots@[i]))
                    &&& final(self).slots@ == stopped(old(self).slots@, old(self).slots@[i].id, ts)
                    &&& final(self).connections@ == old(self).connections@
                    &&& final(self).credentials@ == old(self).credentials@
                    &&& final(self).tickets@ == old(self).tickets@
                },
            },
    {
        match self.find_running() {
            None => Err(DbError::QueryReturnedNoRows),
            Some(i) => {
                let slot = self.join_slot(i);
                if ts <= slot.started_at {
                    return Err(DbError::StopBeforeStart);
                }
                let id = slot.id;
                self.stop_by_id(id, ts);
                Ok(slot)
            },
        }
    }
}


/// How listed slots are ordered.
#[derive(Clone, Copy, Debug, PartialEq, Eq, Structural)]
pub enum SlotSort {
    /// By start time.
    StartedAt,
    /// By ticket, then by start time.
    TicketId,
}

/// Slot `s` belongs to connection `cid` and started in `[from, to]` (no upper bound without `to`).
pub open spec fn in_window(s: SlotRecord, cid: i64, from: i64, to: Option<i64>) -> bool {
    &&& s.connection_id == cid
    &&& s.started_at >= from
    &&& match to {
        Some(t) => s.started_at <= t,
        None => true,
    }
}

/// A stopped slot that was not yet published.
pub open spec fn is_unpublished(s: SlotRecord) -> bool {
    s.stopped_at is Some && s.published_at is None
}

/// Slot `s` is in the window and, where only unpublished slots are asked for, unpublished.
pub open spec fn selected(s: SlotRecord, cid: i64, from: i64, to: Option<i64>, unpublished_only: bool) -> bool {
    in_window(s, cid, from, to) && (unpublished_only ==> is_unpublished(s))
}

/// The ordering key of a slot.
pub open spec fn slot_key(s: SlotRecord, sort: SlotSort) -> SortKey {
    match sort {
        SlotSort::StartedAt => (s.started_at as i128, 0i128),
        SlotSort::TicketId => (s.ticket_id as i128, s.started_at as i128),
    }
}

/// The selected slots, in row id order, each with its key and joined with its ticket.
pub open spec fn keyed_selection(
    slots: Seq<SlotRecord>,
    tickets: Seq<TicketRecord>,
    cid: i64,
    from: i64,
    to: Option<i64>,
    unpublished_only: bool,
    sort: SlotSort,
) -> Seq<(SortKey, SlotWithTicket)>
    decreases slots.len(),
{
    if slots.len() == 0 {
        Seq::empty()
    } else {
        let rest = keyed_selection(slots.drop_last(), tickets, cid, from, to, unpublished_only, sort);
        let s = slots.last();
        if selected(s, cid, from, to, unpublished_only) {
            rest.push((slot_key(s, sort), with_ticket(tickets, s)))
        } else {
            rest
        }
    }
}

/// The selected slots joined with their tickets, sorted stably by key.
pub open spec fn slot_listing(
    slots: Seq<SlotRecord>,
    tickets: Seq<TicketRecord>,
    cid: i64,
    from: i64,
    to: Option<i64>,
    unpublished_only: bool,
    sort: SlotSort,
) -> Seq<SlotWithTicket> {
    values_of(sort_keyed(keyed_selection(slots, tickets, cid, from, to, unpublished_only, sort)))
}

/// The slots with those whose row id is in `ids` marked published at `ts`.
pub open spec fn published(s: Seq<SlotRecord>, ids: Seq<i64>, ts: i64) -> Seq<SlotRecord> {
    Seq::new(s.len(), |i: int| if ids.contains(s[i].id) { SlotRecord { published_at: Some(ts), ..s[i] } } else { s[i] })
}

/// The tickets of connection `cid`, in row id order, each keyed by its last work time, latest first.
pub open spec fn keyed_tickets(t: Seq<TicketRecord>, cid: i64) -> Seq<(SortKey, TicketRecord)>
    decreases t.len(),
{
    if t.len() == 0 {
        Seq::empty()
    } else {
        let rest = keyed_tickets(t.drop_last(), cid);
        if t.last().connection_id == cid {
            let k: SortKey = ((-(t.last().last_worked_at as int)) as i128, 0i128);
            rest.push((k, t.last()))
        } else {
            rest
        }
    }
}

/// The tickets of connection `cid`, most recently worked on first.
pub open spec fn recent_tickets(t: Seq<TicketRecord>, cid: i64) -> Seq<TicketRecord> {
    values_of(sort_keyed(keyed_tickets(t, cid)))
}

fn contains_id(ids: &Vec<i64>, id: i64) -> (b: bool)
    ensures
        b == ids@.contains(id),
{
    let n = ids.len();
    let mut i: usize = 0;
    while i < n
        invariant
            n == ids@.len(),
            i <= n,
            forall|k: int| 0 <= k < i ==> ids@[k] != id,
        decreases n - i,
    {
        if ids[i] == id {
            assert(ids@[i as int] == id);
            return true;
        }
        i += 1;
    }
    false
}

impl Database {
    /// The selected slots of connection `cid` that started in `[from, to]`, joined with their
    /// tickets, sorted stably by `sort`; with `unpublished_only`, only stopped slots not yet published.
    pub fn select_slots(
        &self,
        cid: i64,
        from: i64,
        to: Option<i64>,
        unpublished_only: bool,
        sort: SlotSort,
    ) -> (r: Vec<SlotWithTicket>)
        requires
            self.wf(),
        ensures
            r@ == slot_listing(self.slots@, self.tickets@, cid, from, to, unpublished_only, sort),
    {
        let mut keyed: Vec<(SortKey, SlotWithTicket)> = Vec::new();
        let n = self.slots.len();
        let mut i: usize = 0;
        while i < n
            invariant
                n == self.slots@.len(),
                i <= n,
                self.wf(),
                keyed@ == keyed_selection(self.slots@.take(i as int), self.tickets@, cid, from, to, unpublished_only, sort),
            decreases n - i,
        {
            let s = &self.slots[i];
            let in_range = match to {
                Some(t) => s.started_at <= t,
                None => true,
            };
            let wanted = s.connection_id == cid && s.started_at >= from && in_range
                && (!unpublished_only || (s.stopped_at.is_some() && s.published_at.is_none()));
            proof {
                assert(self.slots@.take(i + 1).drop_last() =~= self.slots@.take(i as int));
                assert(self.slots@.take(i + 1).last() == self.slots@[i as int]);
            }
            if wanted {
                let key: SortKey = match sort {
                    SlotSort::StartedAt => (s.started_at as i128, 0i128),
                    SlotSort::TicketId => (s.ticket_id as i128, s.started_at as i128),
                };
                let joined = self.join_slot(i);
                keyed.push((key, joined));
            }
            i += 1;
        }
        assert(self.slots@.take(n as int) =~= self.slots@);
        into_values(sort_by_key(keyed))
    }

    /// Marks the slots whose row id is in `ids` as published at `ts`.
    pub fn mark_published(&mut self, ids: &Vec<i64>, ts: i64)
        requires
            old(self).wf(),
        ensures
            final(self).wf(),
            final(self).slots@ == published(old(self).slots@, ids@, ts),
            final(self).connections@ == old(self).connections@,
            final(self).credentials@ == old(self).credentials@,
            final(self).tickets@ == old(self).tickets@,
    {
        let ghost old_s = self.slots@;
        let n = self.slots.len();
        let mut i: usize = 0;
        while i < n
            invariant
                n == old_s.len(),
                self.slots@.len() == n,
                i <= n,
                forall|k: int| 0 <= k < i ==> self.slots@[k] == published(old_s, ids@, ts)[k],
                forall|k: int| i <= k < n ==> self.slots@[k] == old_s[k],
                self.connections@ == old(self).connections@,
                self.credentials@ == old(self).credentials@,
                self.tickets@ == old(self).tickets@,
                old_s == old(self).slots@,
            decreases n - i,
        {
            if contains_id(ids, self.slots[i].id) {
                let mut t = self.slots[i].duplicate();
                t.published_at = Some(ts);
                self.slots.set(i, t);
            }
            i += 1;
        }
        assert(self.slots@ =~= published(old_s, ids@, ts));
        assert(self.wf()) by {
            assert forall|a: int, b: int|
                0 <= a < self.slots@.len() && 0 <= b < self.slots@.len() && is_running(#[trigger] self.slots@[a])
                    && is_running(#[trigger] self.slots@[b]) implies a == b by {
                assert(is_running(old_s[a]) && is_running(old_s[b]));
            }
            assert forall|j: int| 0 <= j < self.slots@.len() implies has_ticket(self.tickets@, #[trigger] self.slots@[j].ticket_id) by {
                assert(has_ticket(self.tickets@, old_s[j].ticket_id));
            }
        }
    }

    /// The tickets of connection `cid`, most recently worked on first; ties keep row id order.
    pub fn list_tickets(&self, cid: i64) -> (r: Vec<TicketRecord>)
        ensures
            r@ == recent_tickets(self.tickets@, cid),
    {
        let mut keyed: Vec<(SortKey, TicketRecord)> = Vec::new();
        let n = self.tickets.len();
        let mut i: usize = 0;
        while i < n
            invariant
                n == self.tickets@.len(),
                i <= n,
                keyed@ == keyed_tickets(self.tickets@.take(i as int), cid),
            decreases n - i,
        {
            let t = &self.tickets[i];
            proof {
                assert(self.tickets@.take(i + 1).drop_last() =~= self.tickets@.take(i as int));
                assert(self.tickets@.take(i + 1).last() == self.tickets@[i as int]);
            }
            if t.connection_id == cid {
                let key: SortKey = (-(t.last_worked_at as i128), 0i128);
                keyed.push((key, t.duplicate()));
            }
            i += 1;
        }
        assert(self.tickets@.take(n as int) =~= self.tickets@);
        into_values(sort_by_key(keyed))
    }

    /// Removes slot `id` and returns it joined with its ticket; `QueryReturnedNoRows` where no
    /// slot has that row id.
    pub fn delete_slot(&mut self, id: i64) -> (r: Result<SlotWithTicket, DbError>)
        requires
            old(self).wf(),
        ensures
            final(self).wf(),
            match slot_pos(old(self).slots@, id) {
                None => r matches Err(DbError::QueryReturnedNoRows) && *final(self) == *old(self),
                Some(k) => {
                    &&& r == Ok::<SlotWithTicket, DbError>(with_ticket(old(self).tickets@, old(self).slots@[k]))
                    &&& final(self).slots@ == old(self).slots@.remove(k)
                    &&& final(self).connections@ == old(self).connections@
                    &&& final(self).credentials@ == old(self).credentials@
                    &&& final(self).tickets@ == old(self).tickets@
                },
            },
    {
        let n = self.slots.len();
        let mut i: usize = 0;
        while i < n
            invariant
                n == self.slots@.len(),
                i <= n,
                forall|k: int| 0 <= k < i ==> self.slots@[k].id != id,
                self.wf(),
                *self == *old(self),
            decreases n - i,
        {
            if self.slots[i].id == id {
                let found = self.join_slot(i);
                let ghost old_s = self.slots@;
                proof {
                    let k = choose|k: int| 0 <= k < old_s.len() && old_s[k].id == id;
                    if k < i {
                    } else if k > i {
                        assert(old_s[i as int].id < old_s[k].id);
                    }
                    assert(slot_pos(old_s, id) == Some(i as int));
                }
                self.slots.remove(i);
                assert(self.wf()) by {
                    let ns = self.slots@;
                    assert forall|a: int, b: int| 0 <= a < b < ns.len() implies ns[a].id < ns[b].id by {
                        let oa = if a < i { a } else { a + 1 };
                        let ob = if b < i { b } else { b + 1 };
                        assert(ns[a] == old_s[oa] && ns[b] == old_s[ob]);
                    }
                    assert forall|a: int, b: int|
                        0 <= a < ns.len() && 0 <= b < ns.len() && is_running(#[trigger] ns[a]) && is_running(#[trigger] ns[b])
                            implies a == b by {
                        let oa = if a < i { a } else { a + 1 };
                        let ob = if b < i { b } else { b + 1 };
                        assert(ns[a] == old_s[oa] && ns[b] == old_s[ob]);
                        assert(is_running(old_s[oa]) && is_running(old_s[ob]));
                    }
                    assert forall|j: int| 0 <= j < ns.len() implies has_ticket(self.tickets@, #[trigger] ns[j].ticket_id) by {
                        let oj = if j < i { j } else { j + 1 };
                        assert(ns[j] == old_s[oj]);
                        assert(has_ticket(self.tickets@, old_s[oj].ticket_id));
                    }
                }
                return Ok(found);
            }
            i += 1;
        }
        assert(slot_pos(self.slots@, id) is None);
        Err(DbError::QueryReturnedNoRows)
    }
}

/// The position of the slot with row id `id`.
pub open spec fn slot_pos(s: Seq<SlotRecord>, id: i64) -> Option<int> {
    if exists|k: int| 0 <= k < s.len() && s[k].id == id {
        Some(choose|k: int| 0 <= k < s.len() && s[k].id == id)
    } else {
        None
    }
}


impl Database {
    /// Whether tables read from elsewhere make a well-formed store.
    pub fn is_well_formed(&self) -> (b: bool)
        ensures
            b == self.wf(),
    {
        let nc = self.connections.len();
        let mut i: usize = 1;
        while i < nc
            invariant
                nc == self.connections@.len(),
                1 <= i,
                forall|a: int, b: int| 0 <= a < b < i && b < nc ==> self.connections@[a].id < self.connections@[b].id,
            decreases nc - i,
        {
            if self.connections[i - 1].id >= self.connections[i].id {
                return false;
            }
            i += 1;
        }
        let nt = self.tickets.len();
        let mut i: usize = 1;
        while i < nt
            invariant
                nt == self.tickets@.len(),
                1 <= i,
                forall|a: int, b: int| 0 <= a < b < i && b < nt ==> self.tickets@[a].id < self.tickets@[b].id,
            decreases nt - i,
        {
            if self.tickets[i - 1].id >= self.tickets[i].id {
                return false;
            }
            i += 1;
        }
        let ns = self.slots.len();
        let mut i: usize = 1;
        while i < ns
            invariant
                ns == self.slots@.len(),
                1 <= i,
                forall|a: int, b: int| 0 <= a < b < i && b < ns ==> self.slots@[a].id < self.slots@[b].id,
            decreases ns - i,
        {
            if self.slots[i - 1].id >= self.slots[i].id {
                return false;
            }
            i += 1;
        }
        let mut running: usize = 0;
        let mut i: usize = 0;
        while i < ns
            invariant
                ns == self.slots@.len(),
                nt == self.tickets@.len(),
                i <= ns,
                running <= 1,
                forall|j: int| 0 <= j < i ==> has_ticket(self.tickets@, #[trigger] self.slots@[j].ticket_id),
                running == 0 ==> forall|j: int| 0 <= j < i ==> !is_running(#[trigger] self.slots@[j]),
                running == 1 ==> exists|j: int| 0 <= j < i && is_running(#[trigger] self.slots@[j])
                    && forall|k: int| 0 <= k < i && is_running(#[trigger] self.slots@[k]) ==> k == j,
            decreases ns - i,
        {
            let tid = self.slots[i].ticket_id;
            let mut found = false;
            let mut k: usize = 0;
            while k < nt
                invariant
                    nt == self.tickets@.len(),
                    k <= nt,
                    found ==> has_ticket(self.tickets@, tid),
                    !found ==> forall|q: int| 0 <= q < k ==> self.tickets@[q].id != tid,
                decreases nt - k,
            {
                if self.tickets[k].id == tid {
                    found = true;
                }
                k += 1;
            }
            if !found {
                return false;
            }
            if self.slots[i].stopped_at.is_none() {
                if running == 1 {
                    proof {
                        let j = choose|j: int| 0 <= j < i && is_running(#[trigger] self.slots@[j])
                            && forall|k: int| 0 <= k < i && is_running(#[trigger] self.slots@[k]) ==> k == j;
                        assert(is_running(self.slots@[i as int]) && is_running(self.slots@[j]));
                    }
                    return false;
                }
                running = 1;
            }
            i += 1;
        }
        let mut i: usize = 0;
        while i < ns
            invariant
                ns == self.slots@.len(),
                i <= ns,
                forall|j: int| 0 <= j < i && (#[trigger] self.slots@[j]).stopped_at is Some
                    ==> self.slots@[j].stopped_at->0 > self.slots@[j].started_at,
            decreases ns - i,
        {
            match self.slots[i].stopped_at {
                Some(t) => {
                    if t <= self.slots[i].started_at {
                        return false;
                    }
                },
                None => {},
            }
            i += 1;
        }
        true
    }
}

} // verus!
