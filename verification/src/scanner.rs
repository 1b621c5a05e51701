//! The follower scanner: walks the follower list of a target account page by
//! page, records every follower that blocks the authenticated user, forwards
//! the ids worth blocking back, and persists the cursor after every page so
//! that an interrupted scan resumes at the last completed page.
//!
//! The binary fetches each page over the wire; everything decided about a
//! page — how a status code is handled, which followers are recorded and
//! forwarded, what cursor is persisted — is decided here.

use vstd::prelude::*;

use crate::store::BlockTable;
use crate::store::CursorKey;
use crate::store::CursorTable;
use crate::twitter::RateLimit;
use crate::twitter::User;
use crate::twitter::Users;

verus! {

/// Whether `status` is an HTTP success status.
pub open spec fn is_success(status: u16) -> bool {
    200 <= status && status < 300
}

/// What the scanner does with one response of the follower-list endpoint.
#[derive(Clone, Copy, Debug, PartialEq, Eq, Structural)]
pub enum ScanDecision {
    /// Too many requests: keep the cursor, sleep until the Unix second
    /// carried here, and ask for the same page again.
    RateLimited { until: u64 },
    /// The target account does not exist: end this scan quietly.
    NotFound,
    /// Any other non-success status: end this scan and report it.
    Fatal,
    /// A success status: decode the page and process it.
    Page,
}

/// How the scanner branches on a response: too-many-requests pauses until one
/// second past the reported reset and retries the same cursor, not-found and
/// any other non-success status end the scan, and only a success status lets
/// the page through.
pub fn classify_response(status: u16, rate: &Option<RateLimit>) -> (d: ScanDecision)
    requires
        status == 429 ==> rate is Some && rate.unwrap().reset < u64::MAX,
    ensures
        status == 429 ==> d == (ScanDecision::RateLimited { until: (rate.unwrap().reset + 1) as u64 }),
        status == 404 ==> d == ScanDecision::NotFound,
        status != 429 && status != 404 && is_success(status) ==> d == ScanDecision::Page,
        status != 429 && status != 404 && !is_success(status) ==> d == ScanDecision::Fatal,
{
    if status == 429 {
        match rate {
            Some(rl) => ScanDecision::RateLimited { until: crate::common::next_deadline(rl.reset) },
            None => unreached(),
        }
    } else if status == 404 {
        ScanDecision::NotFound
    } else if 200 <= status && status < 300 {
        ScanDecision::Page
    } else {
        ScanDecision::Fatal
    }
}

/// The ids of the followers of a page that block the authenticated user, in
/// page order: each gets a block record.
pub open spec fn detected_ids(users: Seq<User>) -> Seq<i64>
    decreases users.len(),
{
    if users.len() == 0 {
        Seq::empty()
    } else {
        let rest = detected_ids(users.drop_last());
        if users.last().blocked_by {
            rest.push(users.last().id)
        } else {
            rest
        }
    }
}

/// The ids of a page that are forwarded to the dispatcher, in page order:
/// followers that block the authenticated user and are not blocked already,
/// unless forwarding is switched off altogether.
pub open spec fn forwarded_ids(users: Seq<User>, no_block: bool) -> Seq<i64>
    decreases users.len(),
{
    if users.len() == 0 {
        Seq::empty()
    } else {
        let rest = forwarded_ids(users.drop_last(), no_block);
        if users.last().blocked_by && !(no_block || users.last().blocking) {
            rest.push(users.last().id)
        } else {
            rest
        }
    }
}

/// What one decoded page amounts to: the ids to record as blocking the
/// authenticated user, the ids to forward to the dispatcher, and the cursor
/// of the next page.
pub struct PageActions {
    pub detected: Vec<i64>,
    pub forwards: Vec<i64>,
    pub next_cursor: i64,
}

/// Classifies the followers of one page: every follower that blocks the
/// authenticated user is detected; of those, the ones not already blocked are
/// forwarded, unless `no_block` is set; the page's own next cursor is passed
/// through.
pub fn process_page(page: &Users, no_block: bool) -> (out: PageActions)
    ensures
        out.detected@ == detected_ids(page.users@),
        out.forwards@ == forwarded_ids(page.users@, no_block),
        out.next_cursor == page.next_cursor,
{
    let mut detected: Vec<i64> = Vec::new();
    let mut forwards: Vec<i64> = Vec::new();
    let ghost us = page.users@;
    let mut i: usize = 0;
    while i < page.users.len()
        invariant
            0 <= i <= us.len(),
            us == page.users@,
            detected@ == detected_ids(us.take(i as int)),
            forwards@ == forwarded_ids(us.take(i as int), no_block),
        decreases us.len() - i,
    {
        let u = page.users[i];
        proof {
            assert(us.take(i + 1).drop_last() =~= us.take(i as int));
            assert(us.take(i + 1).last() == us[i as int]);
        }
        if u.blocked_by {
            detected.push(u.id);
            if !(no_block || u.blocking) {
                forwards.push(u.id);
            }
        }
        i = i + 1;
    }
    proof {
        assert(us.take(i as int) =~= us);
    }
    PageActions { detected, forwards, next_cursor: page.next_cursor }
}

/// The cursor a scan starts from: the start of the list when a restart is
/// requested, else the persisted cursor, else the start of the list.
pub open spec fn chosen_cursor(stored: Option<i64>, reset: bool) -> i64 {
    if reset {
        -1i64
    } else {
        match stored {
            Some(c) => c,
            None => -1i64,
        }
    }
}

/// Picks the cursor a scan starts from, from the persisted cursor and the
/// restart flag.
pub fn initial_cursor(stored: Option<i64>, reset: bool) -> (c: i64)
    ensures
        c == chosen_cursor(stored, reset),
{
    if reset {
        -1
    } else {
        match stored {
            Some(c) => c,
            None => -1,
        }
    }
}

/// The proactive pause after a successful page: when the response reported
/// the window as exhausted (zero requests remaining), the scanner sleeps
/// until one second past the reported reset before asking for the next page;
/// any other response lets it go straight on.
pub fn pause_until(rate: &Option<RateLimit>) -> (pause: Option<u64>)
    requires
        rate is Some && rate.unwrap().remaining == 0 ==> rate.unwrap().reset < u64::MAX,
    ensures
        rate is Some && rate.unwrap().remaining == 0 ==> pause == Some(
            (rate.unwrap().reset + 1) as u64,
        ),
        !(rate is Some && rate.unwrap().remaining == 0) ==> pause is None,
{
    match rate {
        Some(rl) => {
            if rl.remaining == 0 {
                Some(crate::common::next_deadline(rl.reset))
            } else {
                None
            }
        },
        None => None,
    }
}

/// The directed block pairs `(id, auth)` for the ids of `ids`.
pub open spec fn ids_pairs(ids: Seq<i64>, auth: i64) -> Set<(i64, i64)> {
    Set::new(|p: (i64, i64)| p.1 == auth && ids.contains(p.0))
}

/// The block pairs one page contributes: each detected follower blocks the
/// authenticated user.
pub open spec fn page_pairs(page: Users, auth: i64) -> Set<(i64, i64)> {
    ids_pairs(detected_ids(page.users@), auth)
}

/// The block pairs a whole scan records, walking `pages` in order from
/// `cursor` until a page reports next cursor 0 or the pages run out.
pub open spec fn session_pairs(pages: Seq<Users>, cursor: i64, auth: i64) -> Set<(i64, i64)>
    decreases pages.len(),
{
    if cursor == 0 || pages.len() == 0 {
        Set::empty()
    } else {
        page_pairs(pages[0], auth).union(
            session_pairs(pages.drop_first(), pages[0].next_cursor, auth),
        )
    }
}

/// The ids a whole scan forwards to the dispatcher, in order.
pub open spec fn session_forwards(pages: Seq<Users>, cursor: i64, no_block: bool) -> Seq<i64>
    decreases pages.len(),
{
    if cursor == 0 || pages.len() == 0 {
        Seq::empty()
    } else {
        forwarded_ids(pages[0].users@, no_block) + session_forwards(
            pages.drop_first(),
            pages[0].next_cursor,
            no_block,
        )
    }
}

/// The cursor a whole scan ends on: 0 when some page closed the list, else
/// the next cursor of the last page seen.
pub open spec fn session_end_cursor(pages: Seq<Users>, cursor: i64) -> i64
    decreases pages.len(),
{
    if cursor == 0 || pages.len() == 0 {
        cursor
    } else {
        session_end_cursor(pages.drop_first(), pages[0].next_cursor)
    }
}

/// Runs a whole scan over an already fetched, finite page list: starting from
/// `start_cursor`, each page in turn is processed and its cursor persisted
/// under `key`, until a page reports next cursor 0 or the pages run out.
/// Detected blockers are recorded as `(follower, auth)` pairs observed at
/// `retrieved_at`; the forwarded ids of all pages are returned in order.
pub fn scan_session(
    pages: &Vec<Users>,
    key: CursorKey,
    auth: i64,
    no_block: bool,
    retrieved_at: i64,
    start_cursor: i64,
    blocks: &mut BlockTable,
    cursors: &mut CursorTable,
) -> (forwards: Vec<i64>)
    requires
        old(blocks).wf(),
        old(cursors).wf(),
    ensures
        final(blocks).wf(),
        final(cursors).wf(),
        final(blocks).pairs() =~= old(blocks).pairs().union(
            session_pairs(pages@, start_cursor, auth),
        ),
        forwards@ == session_forwards(pages@, start_cursor, no_block),
        start_cursor == 0 || pages@.len() == 0 ==> final(cursors).as_map() == old(
            cursors,
        ).as_map(),
        start_cursor != 0 && pages@.len() > 0 ==> final(cursors).as_map() =~= old(
            cursors,
        ).as_map().insert(key, session_end_cursor(pages@, start_cursor)),
{
    let mut forwards: Vec<i64> = Vec::new();
    let mut cursor = start_cursor;
    let mut i: usize = 0;
    proof {
        assert(pages@.skip(0) =~= pages@);
        assert(Seq::<i64>::empty() + session_forwards(pages@, start_cursor, no_block)
            =~= session_forwards(pages@, start_cursor, no_block));
    }
    while cursor != 0 && i < pages.len()
        invariant
            blocks.wf(),
            cursors.wf(),
            0 <= i <= pages@.len(),
            i == 0 ==> cursor == start_cursor && cursors.as_map() == old(cursors).as_map(),
            i > 0 ==> start_cursor != 0 && pages@.len() > 0,
            i > 0 ==> cursors.as_map() =~= old(cursors).as_map().insert(key, cursor),
            old(blocks).pairs().union(session_pairs(pages@, start_cursor, auth)) =~= blocks.pairs().union(
                session_pairs(pages@.skip(i as int), cursor, auth),
            ),
            session_forwards(pages@, start_cursor, no_block) == forwards@ + session_forwards(
                pages@.skip(i as int),
                cursor,
                no_block,
            ),
            session_end_cursor(pages@, start_cursor) == session_end_cursor(
                pages@.skip(i as int),
                cursor,
            ),
        decreases pages@.len() - i,
    {
        let ghost suffix = pages@.skip(i as int);
        proof {
            assert(suffix[0] == pages@[i as int]);
            assert(suffix.drop_first() =~= pages@.skip(i + 1));
        }
        let acts = process_page(&pages[i], no_block);
        let ghost b_page = blocks.pairs();
        let mut k: usize = 0;
        while k < acts.detected.len()
            invariant
                blocks.wf(),
                0 <= k <= acts.detected@.len(),
                blocks.pairs() =~= b_page.union(
                    ids_pairs(acts.detected@.take(k as int), auth),
                ),
            decreases acts.detected@.len() - k,
        {
            blocks.insert_or_ignore(acts.detected[k], auth, retrieved_at);
            proof {
                assert(acts.detected@.take(k + 1) =~= acts.detected@.take(k as int).push(
                    acts.detected@[k as int],
                ));
                lemma_ids_pairs_push(acts.detected@.take(k as int), acts.detected@[k as int], auth);
            }
            k = k + 1;
        }
        proof {
            assert(acts.detected@.take(acts.detected@.len() as int) =~= acts.detected@);
        }
        let mut page_forwards = acts.forwards;
        forwards.append(&mut page_forwards);
        cursor = acts.next_cursor;
        cursors.replace(key, cursor);
        i = i + 1;
        proof {
            assert(old(blocks).pairs().union(session_pairs(pages@, start_cursor, auth))
                =~= blocks.pairs().union(session_pairs(pages@.skip(i as int), cursor, auth)));
            assert(session_forwards(pages@, start_cursor, no_block) == forwards@
                + session_forwards(pages@.skip(i as int), cursor, no_block));
        }
    }
    proof {
        if cursor == 0 {
            assert(session_pairs(pages@.skip(i as int), cursor, auth) =~= Set::<(
                i64,
                i64,
            )>::empty());
            assert(session_forwards(pages@.skip(i as int), cursor, no_block)
                =~= Seq::<i64>::empty());
        } else {
            assert(pages@.skip(i as int) =~= Seq::<Users>::empty());
        }
        assert(forwards@ + Seq::<i64>::empty() =~= forwards@);
        assert(blocks.pairs().union(Set::<(i64, i64)>::empty()) =~= blocks.pairs());
    }
    forwards
}

/// Adding one id to a run of ids adds exactly its pair to the recorded set.
proof fn lemma_ids_pairs_push(ids: Seq<i64>, x: i64, auth: i64)
    ensures
        ids_pairs(ids.push(x), auth) =~= ids_pairs(ids, auth).insert((x, auth)),
{
    assert forall|p: (i64, i64)| ids_pairs(ids.push(x), auth).contains(p) implies ids_pairs(
        ids,
        auth,
    ).insert((x, auth)).contains(p) by {
        let j = choose|j: int| 0 <= j < ids.push(x).len() && ids.push(x)[j] == p.0;
        if j < ids.len() {
            assert(ids[j] == p.0);
        }
    }
    assert forall|p: (i64, i64)| ids_pairs(ids, auth).insert((x, auth)).contains(p) implies ids_pairs(
        ids.push(x),
        auth,
    ).contains(p) by {
        if p == ((x, auth)) {
            assert(ids.push(x)[ids.len() as int] == x);
        } else {
            let j = choose|j: int| 0 <= j < ids.len() && ids[j] == p.0;
            assert(ids.push(x)[j] == p.0);
        }
    }
}

/// Scanning an unchanged follower set again from the start of the list adds
/// nothing: a block record is inserted-or-ignored, so the set of recorded
/// pairs after a second full pass equals the set after the first.
pub proof fn lemma_rescan_idempotent(base: Set<(i64, i64)>, pages: Seq<Users>, auth: i64)
    ensures
        base.union(session_pairs(pages, -1i64, auth)).union(session_pairs(pages, -1i64, auth))
            =~= base.union(session_pairs(pages, -1i64, auth)),
{
}

/// Stopping after the cursor `c` was persisted under `key` and restarting
/// without the restart flag resumes the scan at exactly `c`.
pub proof fn lemma_resume_after_persist(m: Map<CursorKey, i64>, key: CursorKey, c: i64)
    ensures
        m.insert(key, c).dom().contains(key),
        chosen_cursor(Some(m.insert(key, c)[key]), false) == c,
{
}

} // verus!
