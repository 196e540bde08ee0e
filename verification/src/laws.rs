//! Properties of the tracking rules that span operations.

use vstd::prelude::*;
use crate::text::upper_case;
use crate::api::{StartStep, after_stop, opt_view, start_outcome, start_stops_running, slot_inserted, stop_outcome, stop_time};
use crate::domain::{AppConfig, Slot, slot_of};
use crate::table::{
    Align, Column, byte_len, cuts_cleanly, cut_at, fit_width, initial_width_of, max_int, min_int, padded, rendered, rows_fit,
    width_over,
};
use vstd::utf8::{decode_utf8, encode_utf8, encode_scalar, is_ascii_chars, is_ascii_chars_encode_utf8};
use crate::errors::{IntegrationError, NirvanaError};
use crate::integration::IssueInfo;
use crate::api::{PublishItem, failures_of, ok_ids, slots_of};
use crate::sort::{SortKey, is_sorted, lemma_sort_keyed, sort_keyed, values_of};
use crate::storage::{
    is_first_ticket, ticket_by_key, touched, ConnectionRecord, Database, SlotRecord, SlotSort, SlotWithTicket, TicketRecord, has_connection_name,
    is_running, is_running_pos, is_unpublished, keyed_selection, keyed_tickets, published, recent_tickets,
    running_pos, running_stoppable, selected, slot_key, slot_listing, stopped, stops_after_starts, with_ticket,
};

verus! {

/// In a well-formed store at most one slot is running.
pub proof fn law_at_most_one_running(db: Database, i: int, j: int)
    requires
        db.wf(),
        0 <= i < db.slots@.len(),
        0 <= j < db.slots@.len(),
        is_running(db.slots@[i]),
        is_running(db.slots@[j]),
    ensures
        i == j,
{
}

proof fn lemma_after_stop_none_running(slots: Seq<SlotRecord>, now: i64, tickets: Seq<crate::storage::TicketRecord>, conns: Seq<crate::storage::ConnectionRecord>)
    requires
        crate::storage::tables_wf(conns, tickets, slots),
    ensures
        forall|k: int| 0 <= k < after_stop(slots, now).len() ==> !is_running(#[trigger] after_stop(slots, now)[k]),
        after_stop(slots, now).len() == slots.len(),
{
    let s1 = after_stop(slots, now);
    match running_pos(slots) {
        Some(i) => {
            assert(is_running_pos(slots, i));
            assert forall|k: int| 0 <= k < s1.len() implies !is_running(#[trigger] s1[k]) by {
                if slots[k].id == slots[i].id {
                } else {
                    if is_running(slots[k]) {
                        assert(k == i);
                    }
                }
            }
        },
        None => {
            assert forall|k: int| 0 <= k < s1.len() implies !is_running(#[trigger] s1[k]) by {
                if is_running(slots[k]) {
                    assert(is_running_pos(slots, k));
                }
            }
        },
    }
}

/// After a start, the new slot is the only one running, and it started at the given time.
pub proof fn law_start_leaves_only_new_running(
    config: AppConfig,
    db: Database,
    fin: Database,
    ticket_key: Seq<char>,
    now: i64,
    note: Option<Seq<char>>,
    issue: Option<Result<IssueInfo, IntegrationError>>,
    r: Result<StartStep, NirvanaError>,
)
    requires
        db.wf(),
        start_outcome(config, db, fin, ticket_key, now, note, issue, r),
        r matches Ok(StartStep::Started(_)),
    ensures
        running_pos(fin.slots@) == Some(fin.slots@.len() - 1),
        fin.slots@.last().started_at == now,
        r matches Ok(StartStep::Started(s)) && s.started_at == now && s.stopped_at is None,
{
    lemma_after_stop_none_running(db.slots@, now, db.tickets@, db.connections@);
    let s = fin.slots@;
    let n = s.len() - 1;
    assert(is_running_pos(s, n));
    let j = choose|j: int| is_running_pos(s, j);
    if j != n {
        assert(s[j] == after_stop(db.slots@, now)[j]);
    }
}

/// A start keeps every stopped slot's stop after its start: the slot that it stops, it
/// stops at least a second after that slot started. (A running slot that started at the last
/// representable second cannot be stopped a second later, so a start that would stop it is not
/// made.)
pub proof fn law_start_keeps_stops_after_starts(
    config: AppConfig,
    db: Database,
    fin: Database,
    ticket_key: Seq<char>,
    now: i64,
    note: Option<Seq<char>>,
    issue: Option<Result<IssueInfo, IntegrationError>>,
    r: Result<StartStep, NirvanaError>,
)
    requires
        db.wf(),
        start_stops_running(config, db, ticket_key, issue) ==> running_stoppable(db.slots@),
        start_outcome(config, db, fin, ticket_key, now, note, issue, r),
    ensures
        stops_after_starts(fin.slots@),
{
    if !start_stops_running(config, db, ticket_key, issue) {
        assert(fin.slots@ == db.slots@);
    } else {
        let s0 = db.slots@;
        let s1 = after_stop(s0, now);
        assert(stops_after_starts(s1)) by {
            match running_pos(s0) {
                Some(i) => {
                    assert(is_running_pos(s0, i));
                    assert forall|k: int| 0 <= k < s1.len() && (#[trigger] s1[k]).stopped_at is Some implies s1[k].stopped_at->0 > s1[k].started_at by {
                        if s0[k].id == s0[i].id {
                            if k != i {
                                assert(s0[k].id != s0[i].id) by {
                                    if k < i { assert(s0[k].id < s0[i].id); } else { assert(s0[i].id < s0[k].id); }
                                }
                            }
                            assert(is_running(s0[i]));
                        }
                    }
                },
                None => {},
            }
        }
        if fin.slots@.len() == s1.len() + 1 && fin.slots@ == s1.push(fin.slots@.last()) {
            assert forall|k: int| 0 <= k < fin.slots@.len() && (#[trigger] fin.slots@[k]).stopped_at is Some implies fin.slots@[k].stopped_at->0 > fin.slots@[k].started_at by {
                if k < s1.len() {
                    assert(fin.slots@[k] == s1[k]);
                }
            }
        }
    }
}

proof fn lemma_unique_ticket_pos(t: Seq<TicketRecord>, k: int)
    requires
        forall|i: int, j: int| 0 <= i < j < t.len() ==> t[i].id != t[j].id,
        0 <= k < t.len(),
    ensures
        crate::storage::ticket_pos(t, t[k].id) == k,
{
    let id = t[k].id;
    assert(0 <= k < t.len() && t[k].id == id);
    let j = crate::storage::ticket_pos(t, id);
    if j != k {
        if j < k { assert(t[j].id != t[k].id); } else { assert(t[k].id != t[j].id); }
    }
}

/// What a start that starts a slot does: the new slot is on the ticket with the upper-cased key,
/// started at the given time, not stopped or published, with the given note; the slot that was
/// running is stopped at the given time or a second after its start, whichever is later; and the
/// new slot is the only one running.
pub proof fn law_start_slot(
    config: AppConfig,
    db: Database,
    fin: Database,
    ticket_key: Seq<char>,
    now: i64,
    note: Option<Seq<char>>,
    issue: Option<Result<IssueInfo, IntegrationError>>,
    r: Result<StartStep, NirvanaError>,
)
    requires
        db.wf(),
        start_stops_running(config, db, ticket_key, issue) ==> running_stoppable(db.slots@),
        start_outcome(config, db, fin, ticket_key, now, note, issue, r),
        r matches Ok(StartStep::Started(_)),
    ensures
        r matches Ok(StartStep::Started(s)) && {
            &&& s.ticket_key@ == upper_case(ticket_key)
            &&& s.started_at == now
            &&& s.stopped_at is None
            &&& s.published_at is None
            &&& opt_view(s.note) == note
        },
        running_pos(db.slots@) matches Some(i) ==> {
            &&& fin.slots@[i].id == db.slots@[i].id
            &&& fin.slots@[i].started_at == db.slots@[i].started_at
            &&& fin.slots@[i].stopped_at == Some(
                (if db.slots@[i].started_at + 1 >= now { db.slots@[i].started_at + 1 } else { now as int }) as i64,
            )
            &&& fin.slots@[i].stopped_at->0 > db.slots@[i].started_at
        },
        running_pos(fin.slots@) == Some(fin.slots@.len() - 1),
{
    law_start_leaves_only_new_running(config, db, fin, ticket_key, now, note, issue, r);
    let key = upper_case(ticket_key);
    let cid = config.active_connection->0;
    let t0 = db.tickets@;
    match ticket_by_key(t0, key, cid) {
        Some(ti) => {
            assert(is_first_ticket(t0, key, cid, ti));
            let t1 = touched(t0, t0[ti].id, now);
            assert forall|i: int, j: int| 0 <= i < j < t1.len() implies t1[i].id != t1[j].id by {
                assert(t0[i].id < t0[j].id);
            }
            lemma_unique_ticket_pos(t1, ti);
        },
        None => {
            let t = fin.tickets@;
            let n = t0.len();
            assert forall|i: int, j: int| 0 <= i < j < t.len() implies t[i].id != t[j].id by {
                if j < n {
                    assert(t0[i].id < t0[j].id);
                } else {
                    if n > 0 {
                        assert(t0[i].id <= t0[n - 1].id) by {
                            if i < n - 1 { assert(t0[i].id < t0[n - 1].id); }
                        }
                    }
                }
            }
            lemma_unique_ticket_pos(t, n as int);
        },
    }
    match running_pos(db.slots@) {
        Some(i) => {
            assert(is_running_pos(db.slots@, i));
            let s1 = after_stop(db.slots@, now);
            assert(fin.slots@[i] == s1[i]);
        },
        None => {},
    }
}

/// A start at the clock's time is a start at that time: where it started a slot, the slot
/// started at a clock reading at or after the epoch, and the start did there what a start at a
/// given time does (`law_start_slot`): the new slot is on the upper-cased key, not stopped or
/// published, with the note; the running slot stopped as `after_stop` says (a second after its
/// start at the earliest); the new slot is the only one running; and every stop still follows
/// its start.
pub proof fn law_clock_start_is_a_start_at_its_time(
    config: AppConfig,
    db: Database,
    fin: Database,
    ticket_key: Seq<char>,
    note: Option<Seq<char>>,
    issue: Option<Result<IssueInfo, IntegrationError>>,
    r: Result<StartStep, NirvanaError>,
)
    requires
        db.wf(),
        start_stops_running(config, db, ticket_key, issue) ==> running_stoppable(db.slots@),
        exists|now: i64| 0 <= now && #[trigger] start_outcome(config, db, fin, ticket_key, now, note, issue, r),
        r matches Ok(StartStep::Started(_)),
    ensures
        r matches Ok(StartStep::Started(s)) && {
            &&& 0 <= s.started_at
            &&& s.ticket_key@ == upper_case(ticket_key)
            &&& s.stopped_at is None
            &&& s.published_at is None
            &&& opt_view(s.note) == note
            &&& start_outcome(config, db, fin, ticket_key, s.started_at, note, issue, r)
            &&& fin.slots@.drop_last() == after_stop(db.slots@, s.started_at)
        },
        running_pos(fin.slots@) == Some(fin.slots@.len() - 1),
        stops_after_starts(fin.slots@),
{
    let now = choose|now: i64| 0 <= now && #[trigger] start_outcome(config, db, fin, ticket_key, now, note, issue, r);
    law_start_slot(config, db, fin, ticket_key, now, note, issue, r);
    law_start_keeps_stops_after_starts(config, db, fin, ticket_key, now, note, issue, r);
    assert(fin.slots@.drop_last() =~= after_stop(db.slots@, now));
}

/// A stop keeps every stopped slot's stop after its start.
pub proof fn law_stop_keeps_stops_after_starts(db: Database, fin: Database, now: i64, r: Result<Option<Slot>, NirvanaError>)
    requires
        db.wf(),
        stop_outcome(db, fin, now, r),
    ensures
        stops_after_starts(fin.slots@),
{
    let s0 = db.slots@;
    match running_pos(s0) {
        Some(i) => {
            assert(is_running_pos(s0, i));
            if now > s0[i].started_at {
                let s1 = fin.slots@;
                assert forall|k: int| 0 <= k < s1.len() && (#[trigger] s1[k]).stopped_at is Some implies s1[k].stopped_at->0 > s1[k].started_at by {
                    if s0[k].id == s0[i].id && k != i {
                        if k < i { assert(s0[k].id < s0[i].id); } else { assert(s0[i].id < s0[k].id); }
                    }
                }
            }
        },
        None => {},
    }
}

/// Stopping after a start, at a later time, stops the slot that was started: it comes back with
/// the stop time, and nothing is left running.
pub proof fn law_stop_after_start(
    config: AppConfig,
    db0: Database,
    db1: Database,
    db2: Database,
    ticket_key: Seq<char>,
    t1: i64,
    t2: i64,
    note: Option<Seq<char>>,
    issue: Option<Result<IssueInfo, IntegrationError>>,
    r1: Result<StartStep, NirvanaError>,
    r2: Result<Option<Slot>, NirvanaError>,
)
    requires
        db0.wf(),
        db1.wf(),
        start_outcome(config, db0, db1, ticket_key, t1, note, issue, r1),
        r1 matches Ok(StartStep::Started(_)),
        stop_outcome(db1, db2, t2, r2),
        t2 > t1,
    ensures
        r1 matches Ok(StartStep::Started(s1)) && r2 == Ok::<Option<Slot>, NirvanaError>(Some(Slot { stopped_at: Some(t2), ..s1 })),
        running_pos(db2.slots@) is None,
{
    law_start_leaves_only_new_running(config, db0, db1, ticket_key, t1, note, issue, r1);
    let n = db1.slots@.len() - 1;
    let s = db2.slots@;
    if exists|k: int| is_running_pos(s, k) {
        let k = choose|k: int| is_running_pos(s, k);
        if db1.slots@[k].id == db1.slots@[n].id {
        } else {
            assert(is_running_pos(db1.slots@, k));
            let j = choose|j: int| is_running_pos(db1.slots@, j);
            assert(j == n);
            assert(k == n);
        }
    }
}

/// A stop that stopped a slot leaves nothing running, so stopping again stops nothing.
pub proof fn law_stop_twice(
    db0: Database,
    db1: Database,
    db2: Database,
    t1: i64,
    t2: i64,
    r1: Result<Option<Slot>, NirvanaError>,
    r2: Result<Option<Slot>, NirvanaError>,
)
    requires
        db0.wf(),
        stop_outcome(db0, db1, t1, r1),
        r1 matches Ok(Some(_)),
        stop_outcome(db1, db2, t2, r2),
    ensures
        r2 matches Ok(None),
        db2 == db1,
{
    let s0 = db0.slots@;
    let i = running_pos(s0)->0;
    assert(is_running_pos(s0, i));
    let s = db1.slots@;
    if exists|k: int| is_running_pos(s, k) {
        let k = choose|k: int| is_running_pos(s, k);
        if s0[k].id != s0[i].id {
            assert(is_running_pos(s0, k));
        }
    }
}


/// Every slot given to publish is either counted as published or reported as failed.
pub proof fn law_publish_accounts_for_every_item(items: Seq<PublishItem>, outcomes: Seq<Result<(), IntegrationError>>)
    requires
        items.len() == outcomes.len(),
    ensures
        ok_ids(items, outcomes).len() + failures_of(items, outcomes).len() == items.len(),
    decreases items.len(),
{
    if items.len() > 0 {
        law_publish_accounts_for_every_item(items.drop_last(), outcomes.drop_last());
    }
}

proof fn lemma_keyed_selection_elems(
    slots: Seq<SlotRecord>,
    tickets: Seq<TicketRecord>,
    cid: i64,
    from: i64,
    to: Option<i64>,
    unpublished_only: bool,
    sort: SlotSort,
)
    ensures
        forall|k: int| 0 <= k < keyed_selection(slots, tickets, cid, from, to, unpublished_only, sort).len() ==> exists|j: int|
            0 <= j < slots.len() && selected(slots[j], cid, from, to, unpublished_only)
                && #[trigger] keyed_selection(slots, tickets, cid, from, to, unpublished_only, sort)[k] == (
            slot_key(slots[j], sort),
            with_ticket(tickets, slots[j]),
        ),
        forall|j: int| 0 <= j < slots.len() && selected(slots[j], cid, from, to, unpublished_only) ==> keyed_selection(
            slots,
            tickets,
            cid,
            from,
            to,
            unpublished_only,
            sort,
        ).contains((slot_key(#[trigger] slots[j], sort), with_ticket(tickets, slots[j]))),
    decreases slots.len(),
{
    if slots.len() > 0 {
        let rest = slots.drop_last();
        lemma_keyed_selection_elems(rest, tickets, cid, from, to, unpublished_only, sort);
        let ks = keyed_selection(slots, tickets, cid, from, to, unpublished_only, sort);
        let kr = keyed_selection(rest, tickets, cid, from, to, unpublished_only, sort);
        assert forall|k: int| 0 <= k < ks.len() implies exists|j: int|
            0 <= j < slots.len() && selected(slots[j], cid, from, to, unpublished_only)
                && #[trigger] ks[k] == (slot_key(slots[j], sort), with_ticket(tickets, slots[j])) by {
            if k < kr.len() {
                assert(ks[k] == kr[k]);
                let j = choose|j: int|
                    0 <= j < rest.len() && selected(rest[j], cid, from, to, unpublished_only)
                        && #[trigger] kr[k] == (slot_key(rest[j], sort), with_ticket(tickets, rest[j]));
                assert(rest[j] == slots[j]);
            } else {
                assert(slots[slots.len() - 1] == slots.last());
            }
        }
        assert forall|j: int| 0 <= j < slots.len() && selected(slots[j], cid, from, to, unpublished_only) implies ks.contains(
            (slot_key(#[trigger] slots[j], sort), with_ticket(tickets, slots[j])),
        ) by {
            let x = (slot_key(slots[j], sort), with_ticket(tickets, slots[j]));
            if j < rest.len() {
                assert(rest[j] == slots[j]);
                assert(kr.contains(x));
                let k = choose|k: int| 0 <= k < kr.len() && kr[k] == x;
                assert(ks[k] == x);
            } else {
                assert(ks[ks.len() - 1] == x);
            }
        }
    }
}

proof fn lemma_sorted_contains<T>(s: Seq<(SortKey, T)>, k: int)
    requires
        0 <= k < sort_keyed(s).len(),
    ensures
        s.contains(sort_keyed(s)[k]),
{
    lemma_sort_keyed(s);
    let x = sort_keyed(s)[k];
    sort_keyed(s).to_multiset_ensures();
    s.to_multiset_ensures();
    assert(sort_keyed(s).contains(x));
    assert(sort_keyed(s).to_multiset().count(x) > 0);
    assert(s.to_multiset().count(x) > 0);
}

proof fn lemma_contains_sorted<T>(s: Seq<(SortKey, T)>, x: (SortKey, T))
    requires
        s.contains(x),
    ensures
        sort_keyed(s).contains(x),
{
    lemma_sort_keyed(s);
    sort_keyed(s).to_multiset_ensures();
    s.to_multiset_ensures();
    assert(s.to_multiset().count(x) > 0);
    assert(sort_keyed(s).to_multiset().count(x) > 0);
}

/// Every listed slot is a selected slot of the store, joined with its ticket; and every selected
/// slot is listed.
pub proof fn law_listing_is_the_selection(
    slots: Seq<SlotRecord>,
    tickets: Seq<TicketRecord>,
    cid: i64,
    from: i64,
    to: Option<i64>,
    unpublished_only: bool,
    sort: SlotSort,
)
    ensures
        forall|k: int| 0 <= k < slot_listing(slots, tickets, cid, from, to, unpublished_only, sort).len() ==> exists|j: int|
            0 <= j < slots.len() && selected(slots[j], cid, from, to, unpublished_only)
                && #[trigger] slot_listing(slots, tickets, cid, from, to, unpublished_only, sort)[k] == with_ticket(tickets, slots[j]),
        forall|j: int| 0 <= j < slots.len() && selected(slots[j], cid, from, to, unpublished_only) ==> slot_listing(
            slots,
            tickets,
            cid,
            from,
            to,
            unpublished_only,
            sort,
        ).contains(with_ticket(tickets, #[trigger] slots[j])),
        slot_listing(slots, tickets, cid, from, to, unpublished_only, sort).len() == keyed_selection(
            slots,
            tickets,
            cid,
            from,
            to,
            unpublished_only,
            sort,
        ).len(),
{
    let ks = keyed_selection(slots, tickets, cid, from, to, unpublished_only, sort);
    let sk = sort_keyed(ks);
    let l = slot_listing(slots, tickets, cid, from, to, unpublished_only, sort);
    lemma_keyed_selection_elems(slots, tickets, cid, from, to, unpublished_only, sort);
    lemma_sort_keyed(ks);
    assert forall|k: int| 0 <= k < l.len() implies exists|j: int|
        0 <= j < slots.len() && selected(slots[j], cid, from, to, unpublished_only) && #[trigger] l[k] == with_ticket(tickets, slots[j]) by {
        lemma_sorted_contains(ks, k);
        let q = choose|q: int| 0 <= q < ks.len() && ks[q] == sk[k];
        assert(l[k] == sk[k].1);
        let j = choose|j: int|
            0 <= j < slots.len() && selected(slots[j], cid, from, to, unpublished_only)
                && #[trigger] ks[q] == (slot_key(slots[j], sort), with_ticket(tickets, slots[j]));
    }
    assert forall|j: int| 0 <= j < slots.len() && selected(slots[j], cid, from, to, unpublished_only) implies l.contains(
        with_ticket(tickets, #[trigger] slots[j]),
    ) by {
        let x = (slot_key(slots[j], sort), with_ticket(tickets, slots[j]));
        assert(ks.contains(x));
        lemma_contains_sorted(ks, x);
        let k = choose|k: int| 0 <= k < sk.len() && sk[k] == x;
        assert(l[k] == x.1);
    }
}

/// Slots listed by start time come in order of their start.
pub proof fn law_listing_by_start_time_is_ordered(
    slots: Seq<SlotRecord>,
    tickets: Seq<TicketRecord>,
    cid: i64,
    from: i64,
    to: Option<i64>,
    unpublished_only: bool,
    i: int,
    j: int,
)
    requires
        0 <= i < j < slot_listing(slots, tickets, cid, from, to, unpublished_only, SlotSort::StartedAt).len(),
    ensures
        slot_listing(slots, tickets, cid, from, to, unpublished_only, SlotSort::StartedAt)[i].started_at
            <= slot_listing(slots, tickets, cid, from, to, unpublished_only, SlotSort::StartedAt)[j].started_at,
{
    let sort = SlotSort::StartedAt;
    let ks = keyed_selection(slots, tickets, cid, from, to, unpublished_only, sort);
    let sk = sort_keyed(ks);
    lemma_keyed_selection_elems(slots, tickets, cid, from, to, unpublished_only, sort);
    lemma_sort_keyed(ks);
    assert(crate::sort::key_le(sk[i].0, sk[j].0));
    assert forall|k: int| 0 <= k < sk.len() implies (#[trigger] sk[k]).0.0 == sk[k].1.started_at as i128 by {
        lemma_sorted_contains(ks, k);
        let q = choose|q: int| 0 <= q < ks.len() && ks[q] == sk[k];
        let j2 = choose|j2: int|
            0 <= j2 < slots.len() && selected(slots[j2], cid, from, to, unpublished_only)
                && #[trigger] ks[q] == (slot_key(slots[j2], sort), with_ticket(tickets, slots[j2]));
    }
    assert(sk[i].0.0 == sk[i].1.started_at as i128);
    assert(sk[j].0.0 == sk[j].1.started_at as i128);
}

/// Once slots are marked published, publishing again does not take them up: no slot in a new
/// plan has one of their row ids.
pub proof fn law_published_slots_leave_the_plan(
    slots: Seq<SlotRecord>,
    tickets: Seq<TicketRecord>,
    ids: Seq<i64>,
    now: i64,
    cid: i64,
    from: i64,
    to: Option<i64>,
    k: int,
)
    requires
        0 <= k < slot_listing(published(slots, ids, now), tickets, cid, from, to, true, SlotSort::StartedAt).len(),
    ensures
        !ids.contains(slot_listing(published(slots, ids, now), tickets, cid, from, to, true, SlotSort::StartedAt)[k].id),
{
    let p = published(slots, ids, now);
    law_listing_is_the_selection(p, tickets, cid, from, to, true, SlotSort::StartedAt);
    let l = slot_listing(p, tickets, cid, from, to, true, SlotSort::StartedAt);
    let j = choose|j: int| 0 <= j < p.len() && selected(p[j], cid, from, to, true) && #[trigger] l[k] == with_ticket(tickets, p[j]);
    assert(is_unpublished(p[j]));
}

/// Connection names stay unique: a name that is taken is refused, so adding keeps them apart.
pub proof fn law_names_stay_unique(conns: Seq<ConnectionRecord>, c: ConnectionRecord)
    requires
        forall|i: int, j: int| 0 <= i < j < conns.len() ==> conns[i].name@ != conns[j].name@,
        !has_connection_name(conns, c.name@),
    ensures
        forall|i: int, j: int| 0 <= i < j < conns.push(c).len() ==> conns.push(c)[i].name@ != conns.push(c)[j].name@,
{
    let s = conns.push(c);
    assert forall|i: int, j: int| 0 <= i < j < s.len() implies s[i].name@ != s[j].name@ by {
        if j == conns.len() {
            assert(s[i] == conns[i]);
        } else {
            assert(s[i] == conns[i] && s[j] == conns[j]);
        }
    }
}


proof fn lemma_chars_le_bytes(c: Seq<char>)
    ensures
        c.len() <= encode_utf8(c).len(),
    decreases c.len(),
{
    if c.len() > 0 {
        lemma_chars_le_bytes(c.drop_first());
        assert(encode_scalar(c[0] as u32).len() >= 1);
    }
}

proof fn lemma_cut_chars(cell: Seq<char>, k: int)
    requires
        0 <= k <= encode_utf8(cell).len(),
        vstd::utf8::is_char_boundary(encode_utf8(cell), k),
    ensures
        decode_utf8(encode_utf8(cell).take(k)).len() <= k,
{
    let b = encode_utf8(cell);
    vstd::utf8::encode_utf8_valid_utf8(cell);
    vstd::utf8::valid_utf8_split(b, k);
    assert(b.take(k) =~= b.subrange(0, k));
    vstd::utf8::decode_utf8_encode_utf8(b.take(k));
    lemma_chars_le_bytes(decode_utf8(b.take(k)));
}

/// What a cell claims of its column's width: all of it (unlimited), up to the cap (limited), or
/// nothing beyond the fixed width (fixed).
pub open spec fn claim(c: Column, cell_len: int) -> int {
    match c {
        Column::Unlimited(_) => cell_len,
        Column::Limited(_, cap) => if cell_len <= cap { cell_len } else { cap as int },
        Column::Static(_, _) => 0,
    }
}

proof fn lemma_width_covers(c: Column, rows: Seq<Vec<String>>, col: int, r: int)
    requires
        0 <= r < rows.len(),
    ensures
        width_over(c, rows, col) >= claim(c, byte_len(rows[r]@[col]@)),
        width_over(c, rows, col) >= initial_width_of(c),
    decreases rows.len(),
{
    lemma_width_at_least_initial(c, rows, col);
    if r < rows.len() - 1 {
        lemma_width_covers(c, rows.drop_last(), col, r);
        assert(rows.drop_last()[r] == rows[r]);
    }
}

proof fn lemma_width_at_least_initial(c: Column, rows: Seq<Vec<String>>, col: int)
    ensures
        width_over(c, rows, col) >= initial_width_of(c),
    decreases rows.len(),
{
    if rows.len() > 0 {
        lemma_width_at_least_initial(c, rows.drop_last(), col);
    }
}

/// Every rendered cell fits its column: it has no more characters than the width that the column
/// takes over all rows, so padding makes it exactly that wide. (A capped column is assumed to have
/// room for at least the `…`, and cells to be of a size that `usize` counts.)
pub proof fn law_rendered_cell_fits(columns: Seq<Column>, rows: Seq<Vec<String>>, r: int, i: int, align: Align)
    requires
        rows_fit(columns, rows),
        0 <= r < rows.len(),
        0 <= i < columns.len(),
        cuts_cleanly(columns[i], rows[r]@[i]@),
        encode_utf8(rows[r]@[i]@).len() <= usize::MAX,
        columns[i] matches Column::Limited(_, cap) ==> cap >= 1,
    ensures
        rendered(columns[i], rows[r]@[i]@).len() <= width_over(columns[i], rows, i),
        padded(rendered(columns[i], rows[r]@[i]@), width_over(columns[i], rows, i), align).len() == width_over(columns[i], rows, i),
{
    let c = columns[i];
    let cell = rows[r]@[i]@;
    let len = byte_len(cell);
    assert(rows[r]@.len() == columns.len());
    lemma_width_covers(c, rows, i, r);
    lemma_chars_le_bytes(cell);
    assert(len == encode_utf8(cell).len());
    match cut_at(c, len) {
        Some(k) => {
            lemma_cut_chars(cell, k);
        },
        None => {},
    }
}

/// A rendered cell never overflows the width of its column once the cell is seen: whatever
/// width the column had before (at least its initial width), the rendered cell has no more
/// characters than `fit` makes of that width. (A capped column is assumed to have room for at
/// least the `…`, and the cell to be of a size that `usize` counts.)
pub proof fn law_rendered_cell_within_fit(c: Column, cell: Seq<char>, w: int)
    requires
        cuts_cleanly(c, cell),
        encode_utf8(cell).len() <= usize::MAX,
        c matches Column::Limited(_, cap) ==> cap >= 1,
    ensures
        rendered(c, cell).len() <= fit_width(c, max_int(w, initial_width_of(c)), byte_len(cell)),
{
    let len = byte_len(cell);
    lemma_chars_le_bytes(cell);
    assert(len == encode_utf8(cell).len());
    match cut_at(c, len) {
        Some(k) => {
            lemma_cut_chars(cell, k);
        },
        None => {},
    }
}

proof fn lemma_ascii_prefix_encoding(cell: Seq<char>, k: int)
    requires
        is_ascii_chars(cell),
        0 <= k <= cell.len(),
    ensures
        decode_utf8(encode_utf8(cell).take(k)) == cell.take(k),
{
    let t = cell.take(k);
    assert(is_ascii_chars(t)) by {
        assert forall|i: int| 0 <= i < t.len() implies '\0' <= #[trigger] t[i] <= '\u{7f}' by {
            assert(t[i] == cell[i]);
        }
    }
    is_ascii_chars_encode_utf8(cell);
    is_ascii_chars_encode_utf8(t);
    assert forall|i: int| 0 <= i < k implies encode_utf8(t)[i] == encode_utf8(cell).take(k)[i] by {
        assert(t[i] == cell[i]);
        assert(cell[i] as u8 == encode_utf8(cell)[i]);
        assert(t[i] as u8 == encode_utf8(t)[i]);
    }
    assert(encode_utf8(t) =~= encode_utf8(cell).take(k));
    vstd::utf8::encode_utf8_decode_utf8(t);
}

/// A capped column shows an ASCII cell with exactly as many characters as the cell has, up to
/// the cap: a longer cell is cut to one character less than the cap and ended with `…`.
pub proof fn law_capped_ascii_cell_length(c: Column, cell: Seq<char>)
    requires
        c matches Column::Limited(_, cap) && cap >= 1,
        is_ascii_chars(cell),
        cell.len() <= usize::MAX,
    ensures
        c matches Column::Limited(_, cap) && rendered(c, cell).len() == min_int(cell.len() as int, cap as int),
{
    is_ascii_chars_encode_utf8(cell);
    let len = byte_len(cell);
    assert(len == cell.len());
    match cut_at(c, len) {
        Some(k) => {
            lemma_ascii_prefix_encoding(cell, k);
        },
        None => {},
    }
}

proof fn lemma_keyed_tickets_elems(t: Seq<TicketRecord>, cid: i64)
    ensures
        forall|k: int| 0 <= k < keyed_tickets(t, cid).len() ==> (#[trigger] keyed_tickets(t, cid)[k]).1.connection_id == cid
            && keyed_tickets(t, cid)[k].0.0 == -(keyed_tickets(t, cid)[k].1.last_worked_at as int),
    decreases t.len(),
{
    if t.len() > 0 {
        lemma_keyed_tickets_elems(t.drop_last(), cid);
        let ks = keyed_tickets(t, cid);
        let kr = keyed_tickets(t.drop_last(), cid);
        assert forall|k: int| 0 <= k < ks.len() implies (#[trigger] ks[k]).1.connection_id == cid
            && ks[k].0.0 == -(ks[k].1.last_worked_at as int) by {
            if k < kr.len() {
                assert(ks[k] == kr[k]);
            }
        }
    }
}

/// The recent tickets are the active connection's, most recently worked on first.
pub proof fn law_recent_tickets_latest_first(t: Seq<TicketRecord>, cid: i64, i: int, j: int)
    requires
        0 <= i < j < recent_tickets(t, cid).len(),
    ensures
        recent_tickets(t, cid)[i].last_worked_at >= recent_tickets(t, cid)[j].last_worked_at,
        recent_tickets(t, cid)[i].connection_id == cid,
{
    let ks = keyed_tickets(t, cid);
    let sk = sort_keyed(ks);
    lemma_keyed_tickets_elems(t, cid);
    lemma_sort_keyed(ks);
    assert forall|k: int| 0 <= k < sk.len() implies (#[trigger] sk[k]).1.connection_id == cid
        && sk[k].0.0 == -(sk[k].1.last_worked_at as int) by {
        lemma_sorted_contains(ks, k);
        let q = choose|q: int| 0 <= q < ks.len() && ks[q] == sk[k];
        assert(ks[q].1.connection_id == cid);
    }
    assert(crate::sort::key_le(sk[i].0, sk[j].0));
    assert(sk[i].0.0 == -(sk[i].1.last_worked_at as int));
    assert(sk[j].0.0 == -(sk[j].1.last_worked_at as int));
}


/// A started slot is read back: listing the active connection's slots over a window that holds
/// its start time shows it, in whatever order.
pub proof fn law_started_slot_is_listed(
    config: AppConfig,
    db: Database,
    fin: Database,
    ticket_key: Seq<char>,
    now: i64,
    note: Option<Seq<char>>,
    issue: Option<Result<IssueInfo, IntegrationError>>,
    r: Result<StartStep, NirvanaError>,
    from: i64,
    to: Option<i64>,
    sort: SlotSort,
)
    requires
        db.wf(),
        start_outcome(config, db, fin, ticket_key, now, note, issue, r),
        r matches Ok(StartStep::Started(_)),
        from <= now,
        to matches Some(t) ==> now <= t,
    ensures
        config.active_connection is Some,
        r matches Ok(StartStep::Started(s)) && slots_of(
            slot_listing(fin.slots@, fin.tickets@, config.active_connection->0, from, to, false, sort),
        ).contains(s),
{
    let cid = config.active_connection->0;
    let n = fin.slots@.len() - 1;
    let new = fin.slots@[n];
    assert(new == fin.slots@.last());
    assert(selected(new, cid, from, to, false));
    law_listing_is_the_selection(fin.slots@, fin.tickets@, cid, from, to, false, sort);
    let l = slot_listing(fin.slots@, fin.tickets@, cid, from, to, false, sort);
    assert(l.contains(with_ticket(fin.tickets@, fin.slots@[n])));
    let k = choose|k: int| 0 <= k < l.len() && l[k] == with_ticket(fin.tickets@, fin.slots@[n]);
    assert(slots_of(l)[k] == slot_of(l[k]));
}

/// Every listed slot belongs to the connection asked for, started inside the window, and, where
/// only unpublished slots are asked for, has stopped and is not published yet. So the slots that
/// `get_slots` lists and `publish_plan` plans are the active connection's only.
pub proof fn law_listing_stays_in_window(
    slots: Seq<SlotRecord>,
    tickets: Seq<TicketRecord>,
    cid: i64,
    from: i64,
    to: Option<i64>,
    unpublished_only: bool,
    sort: SlotSort,
)
    ensures
        forall|k: int| 0 <= k < slot_listing(slots, tickets, cid, from, to, unpublished_only, sort).len() ==> {
            let l = #[trigger] slot_listing(slots, tickets, cid, from, to, unpublished_only, sort)[k];
            &&& l.connection_id == cid
            &&& from <= l.started_at
            &&& (to matches Some(t) ==> l.started_at <= t)
            &&& (unpublished_only ==> l.stopped_at is Some && l.published_at is None)
        },
{
    law_listing_is_the_selection(slots, tickets, cid, from, to, unpublished_only, sort);
}

/// A slot id is among those accepted exactly where some item for that slot was accepted.
proof fn lemma_ok_ids_members(items: Seq<PublishItem>, outcomes: Seq<Result<(), IntegrationError>>, id: i64)
    requires
        items.len() == outcomes.len(),
    ensures
        ok_ids(items, outcomes).contains(id) <==> exists|i: int|
            0 <= i < items.len() && #[trigger] items[i].slot_id == id && outcomes[i] is Ok,
    decreases items.len(),
{
    if items.len() > 0 {
        let it = items.drop_last();
        let oc = outcomes.drop_last();
        lemma_ok_ids_members(it, oc, id);
        let n = items.len() - 1;
        if ok_ids(items, outcomes).contains(id) {
            let rest = ok_ids(it, oc);
            if outcomes.last() is Ok && items.last().slot_id == id {
                assert(items[n].slot_id == id && outcomes[n] is Ok);
            } else {
                if outcomes.last() is Ok {
                    let q = choose|q: int| 0 <= q < rest.push(items.last().slot_id).len() && rest.push(items.last().slot_id)[q] == id;
                    assert(q < rest.len());
                    assert(rest[q] == id);
                }
                assert(rest.contains(id));
                let i = choose|i: int| 0 <= i < it.len() && #[trigger] it[i].slot_id == id && oc[i] is Ok;
                assert(items[i] == it[i] && outcomes[i] == oc[i]);
            }
        }
        if exists|i: int| 0 <= i < items.len() && #[trigger] items[i].slot_id == id && outcomes[i] is Ok {
            let i = choose|i: int| 0 <= i < items.len() && #[trigger] items[i].slot_id == id && outcomes[i] is Ok;
            if i == n {
                let rest = ok_ids(it, oc);
                assert(rest.push(items.last().slot_id)[rest.len() as int] == id);
            } else {
                assert(it[i] == items[i] && oc[i] == outcomes[i]);
                assert(it[i].slot_id == id && oc[i] is Ok);
                let rest = ok_ids(it, oc);
                assert(rest.contains(id));
                let q = choose|q: int| 0 <= q < rest.len() && rest[q] == id;
                if outcomes.last() is Ok {
                    assert(rest.push(items.last().slot_id)[q] == id);
                }
            }
        }
    }
}

/// Publishing marks exactly the slots whose publication was accepted: a slot for which some plan
/// item was accepted gets `now` as its publication time and keeps everything else; every other
/// slot, a failed one or one that was not in the plan, stays as it was, so a later publish takes
/// it up again.
pub proof fn law_publish_marks_exactly_the_accepted(
    before: Seq<SlotRecord>,
    after: Seq<SlotRecord>,
    items: Seq<PublishItem>,
    outcomes: Seq<Result<(), IntegrationError>>,
    now: i64,
)
    requires
        items.len() == outcomes.len(),
        after == published(before, ok_ids(items, outcomes), now),
    ensures
        after.len() == before.len(),
        forall|k: int| 0 <= k < before.len() ==> {
            &&& after[k].id == before[k].id
            &&& after[k].ticket_id == before[k].ticket_id
            &&& after[k].connection_id == before[k].connection_id
            &&& after[k].note == before[k].note
            &&& after[k].started_at == before[k].started_at
            &&& after[k].stopped_at == before[k].stopped_at
        },
        forall|k: int| 0 <= k < before.len() ==> ((exists|i: int|
            0 <= i < items.len() && #[trigger] items[i].slot_id == before[k].id && outcomes[i] is Ok) ==> after[k].published_at
            == Some(now)),
        forall|k: int| 0 <= k < before.len() ==> (!(exists|i: int|
            0 <= i < items.len() && #[trigger] items[i].slot_id == before[k].id && outcomes[i] is Ok) ==> after[k] == before[k]),
{
    assert forall|k: int| 0 <= k < before.len() implies (ok_ids(items, outcomes).contains(before[k].id) <==> exists|i: int|
        0 <= i < items.len() && #[trigger] items[i].slot_id == before[k].id && outcomes[i] is Ok) by {
        lemma_ok_ids_members(items, outcomes, before[k].id);
    }
}

/// Stopping a slot changes nothing but its stop time: every slot keeps its id, ticket,
/// connection, note, start and publication time; the slot with the given id, and only it, gets
/// the given stop time.
pub proof fn law_stopping_changes_only_the_stop(s: Seq<SlotRecord>, id: i64, ts: i64)
    ensures
        stopped(s, id, ts).len() == s.len(),
        forall|k: int| 0 <= k < s.len() ==> {
            let a = #[trigger] stopped(s, id, ts)[k];
            &&& a.id == s[k].id
            &&& a.ticket_id == s[k].ticket_id
            &&& a.connection_id == s[k].connection_id
            &&& a.note == s[k].note
            &&& a.started_at == s[k].started_at
            &&& a.published_at == s[k].published_at
            &&& a.stopped_at == (if s[k].id == id { Some(ts) } else { s[k].stopped_at })
        },
{
}

/// A stop changes nothing but the stop time of the slot that ran: every stored slot keeps its
/// id, ticket, connection, note, start and publication time, the running one stops at the given
/// time where the stop succeeds, and every other slot keeps its stop time.
pub proof fn law_stop_changes_only_the_running_stop(db: Database, fin: Database, now: i64, r: Result<Option<Slot>, NirvanaError>)
    requires
        db.wf(),
        stop_outcome(db, fin, now, r),
    ensures
        fin.slots@.len() == db.slots@.len(),
        forall|k: int| 0 <= k < db.slots@.len() ==> {
            &&& fin.slots@[k].id == db.slots@[k].id
            &&& fin.slots@[k].ticket_id == db.slots@[k].ticket_id
            &&& fin.slots@[k].connection_id == db.slots@[k].connection_id
            &&& fin.slots@[k].note == db.slots@[k].note
            &&& fin.slots@[k].started_at == db.slots@[k].started_at
            &&& fin.slots@[k].published_at == db.slots@[k].published_at
            &&& fin.slots@[k].stopped_at == (if r matches Ok(Some(_)) && is_running(db.slots@[k]) {
                Some(now)
            } else {
                db.slots@[k].stopped_at
            })
        },
{
    let s0 = db.slots@;
    match running_pos(s0) {
        Some(i) => {
            assert(is_running_pos(s0, i));
            if now > s0[i].started_at {
                law_stopping_changes_only_the_stop(s0, s0[i].id, now);
                assert forall|k: int| 0 <= k < s0.len() implies (s0[k].id == s0[i].id <==> is_running(s0[k])) by {
                    if k != i {
                        if k < i { assert(s0[k].id < s0[i].id); } else { assert(s0[i].id < s0[k].id); }
                        if is_running(s0[k]) {
                            assert(is_running(s0[i]));
                        }
                    }
                }
            }
        },
        None => {
            assert forall|k: int| 0 <= k < s0.len() implies !is_running(s0[k]) by {
                if is_running(s0[k]) {
                    assert(is_running_pos(s0, k));
                }
            }
        },
    }
}

/// A start changes nothing of the slots that were stored but the stop time of the one that ran:
/// each keeps its id, ticket, connection, note, start and publication time; the running one, where
/// the start stored a new slot, stops at the start time or a second after its own start,
/// whichever is later.
pub proof fn law_start_keeps_stored_slots(
    config: AppConfig,
    db: Database,
    fin: Database,
    ticket_key: Seq<char>,
    now: i64,
    note: Option<Seq<char>>,
    issue: Option<Result<IssueInfo, IntegrationError>>,
    r: Result<StartStep, NirvanaError>,
)
    requires
        db.wf(),
        start_stops_running(config, db, ticket_key, issue) ==> running_stoppable(db.slots@),
        start_outcome(config, db, fin, ticket_key, now, note, issue, r),
    ensures
        db.slots@.len() <= fin.slots@.len(),
        forall|k: int| 0 <= k < db.slots@.len() ==> {
            &&& fin.slots@[k].id == db.slots@[k].id
            &&& fin.slots@[k].ticket_id == db.slots@[k].ticket_id
            &&& fin.slots@[k].connection_id == db.slots@[k].connection_id
            &&& fin.slots@[k].note == db.slots@[k].note
            &&& fin.slots@[k].started_at == db.slots@[k].started_at
            &&& fin.slots@[k].published_at == db.slots@[k].published_at
            &&& !is_running(db.slots@[k]) ==> fin.slots@[k].stopped_at == db.slots@[k].stopped_at
        },
{
    let s0 = db.slots@;
    if start_stops_running(config, db, ticket_key, issue) {
        let s1 = after_stop(s0, now);
        match running_pos(s0) {
            Some(i) => {
                assert(is_running_pos(s0, i));
                law_stopping_changes_only_the_stop(s0, s0[i].id, stop_time(s0[i].started_at, now) as i64);
                assert forall|k: int| 0 <= k < s0.len() && s0[k].id == s0[i].id implies k == i by {
                    if k < i { assert(s0[k].id < s0[i].id); }
                    if i < k { assert(s0[i].id < s0[k].id); }
                }
            },
            None => {},
        }
        assert forall|k: int| 0 <= k < s0.len() implies fin.slots@[k] == s1[k] by {
            if fin.slots@.len() == s1.len() + 1 {
                assert(fin.slots@ == s1.push(fin.slots@.last()));
            }
        }
    } else {
        assert(fin.slots@ == s0);
    }
}

} // verus!
