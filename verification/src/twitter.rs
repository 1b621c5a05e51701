//! The remote API surface the pipeline consumes: endpoint addresses, request
//! parameters, the follower-page shape, and rate-limit header parsing.

use vstd::prelude::*;

verus! {

/// Address of the endpoint that verifies a credential pair.
pub fn account_verify_credentials_uri() -> (uri: &'static str)
    ensures
        uri@ == "https://api.twitter.com/1.1/account/verify_credentials.json"@,
{
    "https://api.twitter.com/1.1/account/verify_credentials.json"
}

/// Address of the endpoint that blocks a user.
pub fn blocks_create_uri() -> (uri: &'static str)
    ensures
        uri@ == "https://api.twitter.com/1.1/blocks/create.json"@,
{
    "https://api.twitter.com/1.1/blocks/create.json"
}

/// Address of the endpoint that lists a user's followers page by page.
pub fn followers_list_uri() -> (uri: &'static str)
    ensures
        uri@ == "https://api.twitter.com/1.1/followers/list.json"@,
{
    "https://api.twitter.com/1.1/followers/list.json"
}

/// Parameters of a credential-verification request.
#[derive(Clone, Copy, Debug, PartialEq, Eq, Structural)]
pub struct AccountVerifyCredentials {
    pub include_entities: bool,
    pub skip_status: bool,
    pub include_email: bool,
}

/// Parameters of a block request.
#[derive(Clone, Copy, Debug, PartialEq, Eq, Structural)]
pub struct BlocksCreate {
    pub user_id: i64,
    pub include_entities: bool,
    pub skip_status: bool,
}

/// Parameters of one follower-list page request.
#[derive(Clone, Copy, Debug, PartialEq, Eq, Structural)]
pub struct FollowersList {
    pub user_id: i64,
    pub count: u64,
    pub skip_status: bool,
    pub include_user_entities: bool,
    pub cursor: i64,
}

/// The parameters the scanner sends for the page at `cursor` of the follower
/// list of `user_id`: page size 200 and minimal optional fields.
pub fn followers_page_request(user_id: i64, cursor: i64) -> (req: FollowersList)
    ensures
        req == (FollowersList {
            user_id,
            count: 200u64,
            skip_status: true,
            include_user_entities: false,
            cursor,
        }),
{
    FollowersList { user_id, count: 200, skip_status: true, include_user_entities: false, cursor }
}

/// The parameters the dispatcher sends to block `user_id`.
pub fn block_request(user_id: i64) -> (req: BlocksCreate)
    ensures
        req == (BlocksCreate { user_id, include_entities: false, skip_status: true }),
{
    BlocksCreate { user_id, include_entities: false, skip_status: true }
}

/// One follower, as the list endpoint reports it.
#[derive(Clone, Copy, Debug, PartialEq, Eq, Structural)]
pub struct User {
    pub id: i64,
    /// Whether the authenticated user blocks this follower.
    pub blocking: bool,
    /// Whether this follower blocks the authenticated user.
    pub blocked_by: bool,
}

/// One page of a follower list: the followers and the cursor of the next
/// page, 0 meaning that this page is the last.
#[derive(Clone, Debug)]
pub struct Users {
    pub users: Vec<User>,
    pub next_cursor: i64,
    pub previous_cursor: i64,
}

/// Rate-limit metadata reported in response headers: how many requests remain
/// in the window, and the Unix second at which the window resets.
#[derive(Clone, Copy, Debug, PartialEq, Eq, Structural)]
pub struct RateLimit {
    pub remaining: u64,
    pub reset: u64,
}

/// Whether `b` is an ASCII decimal digit.
pub open spec fn is_ascii_digit(b: u8) -> bool {
    48 <= b && b <= 57
}

/// Whether every byte of `s` is an ASCII decimal digit.
pub open spec fn all_ascii_digits(s: Seq<u8>) -> bool {
    forall|i: int| 0 <= i < s.len() ==> is_ascii_digit(#[trigger] s[i])
}

/// The number a string of ASCII decimal digits denotes.
pub open spec fn dec_value(s: Seq<u8>) -> nat
    decreases s.len(),
{
    if s.len() == 0 {
        0
    } else {
        (dec_value(s.drop_last()) * 10 + (s.last() - 48)) as nat
    }
}

/// Whether `s` is a well-formed decimal numeral whose value fits in 64 bits.
pub open spec fn parses(s: Seq<u8>) -> bool {
    s.len() > 0 && all_ascii_digits(s) && dec_value(s) <= u64::MAX
}

/// A digit string denotes at least as much as any of its prefixes.
proof fn lemma_dec_value_take_le(s: Seq<u8>, i: int)
    requires
        0 <= i <= s.len(),
        all_ascii_digits(s),
    ensures
        dec_value(s.take(i)) <= dec_value(s),
    decreases s.len() - i,
{
    if i == s.len() {
        assert(s.take(i) =~= s);
    } else {
        assert(s.take(i + 1).drop_last() =~= s.take(i));
        assert(s.take(i + 1).last() == s[i]);
        assert(dec_value(s.take(i)) <= dec_value(s.take(i + 1)));
        lemma_dec_value_take_le(s, i + 1);
    }
}

/// Reads a decimal numeral: the value of `bytes` when it is a nonempty,
/// all-digit string whose value fits in 64 bits, and nothing otherwise.
pub fn parse_u64(bytes: &Vec<u8>) -> (r: Option<u64>)
    ensures
        r is Some <==> parses(bytes@),
        r is Some ==> r.unwrap() == dec_value(bytes@),
{
    if bytes.len() == 0 {
        return None;
    }
    let ghost s = bytes@;
    let mut acc: u64 = 0;
    let mut i: usize = 0;
    while i < bytes.len()
        invariant
            0 <= i <= s.len(),
            s == bytes@,
            all_ascii_digits(s.take(i as int)),
            acc == dec_value(s.take(i as int)),
        decreases s.len() - i,
    {
        let b = bytes[i];
        if b < 48 || b > 57 {
            assert(!is_ascii_digit(s[i as int]));
            return None;
        }
        let d = (b - 48) as u64;
        proof {
            assert(s.take(i + 1).drop_last() =~= s.take(i as int));
            assert(s.take(i + 1).last() == s[i as int]);
        }
        let acc10 = match acc.checked_mul(10) {
            Some(v) => v,
            None => {
                proof {
                    if parses(s) {
                        lemma_dec_value_take_le(s, i + 1);
                        assert(false);
                    }
                }
                return None;
            },
        };
        acc = match acc10.checked_add(d) {
            Some(v) => v,
            None => {
                proof {
                    if parses(s) {
                        lemma_dec_value_take_le(s, i + 1);
                        assert(false);
                    }
                }
                return None;
            },
        };
        i = i + 1;
    }
    proof {
        assert(s.take(i as int) =~= s);
    }
    Some(acc)
}

/// Whether an optional header value is a numeral this module reads.
pub open spec fn header_parses(h: Option<Vec<u8>>) -> bool {
    h is Some && parses(h.unwrap()@)
}

/// Reads the rate-limit metadata out of the two header values that carry it,
/// each given as raw bytes: metadata is reported exactly when both headers
/// are present and numeric, and the response is otherwise ungated.
pub fn rate_limit(remaining: &Option<Vec<u8>>, reset: &Option<Vec<u8>>) -> (r: Option<RateLimit>)
    ensures
        r is Some <==> header_parses(*remaining) && header_parses(*reset),
        r is Some ==> r.unwrap().remaining == dec_value(remaining.unwrap()@)
            && r.unwrap().reset == dec_value(reset.unwrap()@),
{
    match (remaining, reset) {
        (Some(rem_bytes), Some(reset_bytes)) => match (parse_u64(rem_bytes), parse_u64(
            reset_bytes,
        )) {
            (Some(remaining), Some(reset)) => Some(RateLimit { remaining, reset }),
            _ => None,
        },
        _ => None,
    }
}

} // verus!
