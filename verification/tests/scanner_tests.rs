use blockscan::scanner::classify_response;
use blockscan::scanner::initial_cursor;
use blockscan::scanner::pause_until;
use blockscan::scanner::process_page;
use blockscan::scanner::scan_session;
use blockscan::scanner::ScanDecision;
use blockscan::store::BlockTable;
use blockscan::store::CursorKey;
use blockscan::store::CursorTable;
use blockscan::twitter::RateLimit;
use blockscan::twitter::User;
use blockscan::twitter::Users;

fn page(users: Vec<(i64, bool, bool)>, next_cursor: i64) -> Users {
    Users {
        users: users
            .into_iter()
            .map(|(id, blocking, blocked_by)| User { id, blocking, blocked_by })
            .collect(),
        next_cursor,
        previous_cursor: 0,
    }
}

fn key() -> CursorKey {
    CursorKey { endpoint: 1, authenticated_user: 100, user: 42 }
}

#[test]
fn detection_records_and_forwards_the_right_ids() {
    let p = page(vec![(1, false, true), (2, false, false), (3, true, true)], 0);
    let out = process_page(&p, false);
    assert_eq!(out.detected, vec![1, 3]);
    assert_eq!(out.forwards, vec![1]);
    assert_eq!(out.next_cursor, 0);
}

#[test]
fn no_block_option_suppresses_forwarding() {
    let p = page(vec![(1, false, true), (3, true, true)], 0);
    let out = process_page(&p, true);
    assert_eq!(out.detected, vec![1, 3]);
    assert_eq!(out.forwards, Vec::<i64>::new());
}

#[test]
fn classify_pauses_on_too_many_requests() {
    let rate = Some(RateLimit { remaining: 0, reset: 900 });
    assert_eq!(classify_response(429, &rate), ScanDecision::RateLimited { until: 901 });
}

#[test]
fn classify_ends_scan_on_not_found_and_failure() {
    assert_eq!(classify_response(404, &None), ScanDecision::NotFound);
    assert_eq!(classify_response(500, &None), ScanDecision::Fatal);
    assert_eq!(classify_response(403, &None), ScanDecision::Fatal);
    assert_eq!(classify_response(200, &None), ScanDecision::Page);
    assert_eq!(classify_response(204, &None), ScanDecision::Page);
}

#[test]
fn exhausted_window_pauses_until_one_second_past_reset() {
    assert_eq!(pause_until(&Some(RateLimit { remaining: 0, reset: 900 })), Some(901));
    assert_eq!(pause_until(&Some(RateLimit { remaining: 3, reset: 900 })), None);
    assert_eq!(pause_until(&None), None);
}

#[test]
fn initial_cursor_resumes_or_restarts() {
    assert_eq!(initial_cursor(Some(42), false), 42);
    assert_eq!(initial_cursor(Some(42), true), -1);
    assert_eq!(initial_cursor(None, false), -1);
    assert_eq!(initial_cursor(None, true), -1);
}

#[test]
fn resume_requests_exactly_the_persisted_cursor() {
    let mut cursors = CursorTable::new();
    cursors.replace(key(), 77);
    let stored = cursors.get(key());
    assert_eq!(stored, Some(77));
    assert_eq!(initial_cursor(stored, false), 77);
}

#[test]
fn scan_records_blocks_and_persists_final_cursor() {
    let pages = vec![
        page(vec![(1, false, true), (2, false, false)], 5),
        page(vec![(3, true, true)], 0),
    ];
    let mut blocks = BlockTable::new();
    let mut cursors = CursorTable::new();
    let forwards = scan_session(&pages, key(), 100, false, 1234, -1, &mut blocks, &mut cursors);
    assert_eq!(forwards, vec![1]);
    assert_eq!(blocks.len(), 2);
    assert!(blocks.contains(1, 100));
    assert!(blocks.contains(3, 100));
    assert!(!blocks.contains(2, 100));
    assert_eq!(cursors.get(key()), Some(0));
}

#[test]
fn rescanning_unchanged_followers_is_idempotent() {
    let pages = vec![
        page(vec![(1, false, true)], 5),
        page(vec![(3, true, true), (4, false, true)], 0),
    ];
    let mut blocks = BlockTable::new();
    let mut cursors = CursorTable::new();
    scan_session(&pages, key(), 100, false, 1234, -1, &mut blocks, &mut cursors);
    let after_first = blocks.len();
    assert_eq!(after_first, 3);
    scan_session(&pages, key(), 100, false, 5678, -1, &mut blocks, &mut cursors);
    assert_eq!(blocks.len(), after_first);
    assert!(blocks.contains(1, 100));
    assert!(blocks.contains(3, 100));
    assert!(blocks.contains(4, 100));
}

#[test]
fn scan_from_cursor_zero_does_nothing() {
    let pages = vec![page(vec![(1, false, true)], 0)];
    let mut blocks = BlockTable::new();
    let mut cursors = CursorTable::new();
    let forwards = scan_session(&pages, key(), 100, false, 1234, 0, &mut blocks, &mut cursors);
    assert!(forwards.is_empty());
    assert_eq!(blocks.len(), 0);
    assert_eq!(cursors.get(key()), None);
}
