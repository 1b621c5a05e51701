use blockscan::common::instant_to_epoch;
use blockscan::common::next_deadline;
use blockscan::common::wait_seconds;
use blockscan::twitter::account_verify_credentials_uri;
use blockscan::twitter::block_request;
use blockscan::twitter::blocks_create_uri;
use blockscan::twitter::followers_list_uri;
use blockscan::twitter::followers_page_request;
use blockscan::twitter::parse_u64;
use blockscan::twitter::rate_limit;

#[test]
fn parse_u64_reads_plain_numerals() {
    assert_eq!(parse_u64(&b"0".to_vec()), Some(0));
    assert_eq!(parse_u64(&b"123".to_vec()), Some(123));
    assert_eq!(parse_u64(&b"007".to_vec()), Some(7));
    assert_eq!(parse_u64(&b"18446744073709551615".to_vec()), Some(u64::MAX));
}

#[test]
fn parse_u64_rejects_bad_numerals() {
    assert_eq!(parse_u64(&b"".to_vec()), None);
    assert_eq!(parse_u64(&b"12a".to_vec()), None);
    assert_eq!(parse_u64(&b"-5".to_vec()), None);
    assert_eq!(parse_u64(&b"18446744073709551616".to_vec()), None);
}

#[test]
fn rate_limit_needs_both_headers() {
    let rl = rate_limit(&Some(b"15".to_vec()), &Some(b"900".to_vec())).unwrap();
    assert_eq!(rl.remaining, 15);
    assert_eq!(rl.reset, 900);
    assert!(rate_limit(&None, &Some(b"900".to_vec())).is_none());
    assert!(rate_limit(&Some(b"15".to_vec()), &None).is_none());
    assert!(rate_limit(&None, &None).is_none());
    assert!(rate_limit(&Some(b"soon".to_vec()), &Some(b"900".to_vec())).is_none());
}

#[test]
fn deadline_is_one_second_past_reset() {
    assert_eq!(next_deadline(900), 901);
    assert_eq!(next_deadline(0), 1);
}

#[test]
fn wait_seconds_saturates_at_zero() {
    assert_eq!(wait_seconds(10, 7), 3);
    assert_eq!(wait_seconds(7, 10), 0);
    assert_eq!(wait_seconds(7, 7), 0);
}

#[test]
fn instant_to_epoch_shifts_by_the_clock_gap() {
    assert_eq!(instant_to_epoch(15, 10, 1000), 1005);
    assert_eq!(instant_to_epoch(5, 10, 1000), 995);
    assert_eq!(instant_to_epoch(10, 10, 1000), 1000);
}

#[test]
fn page_request_uses_size_200_and_minimal_fields() {
    let req = followers_page_request(42, -1);
    assert_eq!(req.user_id, 42);
    assert_eq!(req.count, 200);
    assert!(req.skip_status);
    assert!(!req.include_user_entities);
    assert_eq!(req.cursor, -1);
}

#[test]
fn block_request_carries_the_id() {
    let req = block_request(7);
    assert_eq!(req.user_id, 7);
    assert!(!req.include_entities);
    assert!(req.skip_status);
}

#[test]
fn endpoint_addresses() {
    assert_eq!(
        account_verify_credentials_uri(),
        "https://api.twitter.com/1.1/account/verify_credentials.json"
    );
    assert_eq!(blocks_create_uri(), "https://api.twitter.com/1.1/blocks/create.json");
    assert_eq!(followers_list_uri(), "https://api.twitter.com/1.1/followers/list.json");
}
