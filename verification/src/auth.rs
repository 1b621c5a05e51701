//! Credential data: an identifier/secret pair whose role — client or token —
//! is determined only by which slot of a [`Token`] it fills.

use vstd::prelude::*;

use crate::twitter::all_ascii_digits;
use crate::twitter::dec_value;
use crate::twitter::parse_u64;

verus! {

/// An identifier/secret credential pair.
#[derive(Clone, Debug)]
pub struct Credentials {
    pub identifier: String,
    pub secret: String,
}

/// The credential pair of an authenticated user: the client credentials and
/// the token credentials that together sign requests on the user's behalf.
#[derive(Clone, Debug)]
pub struct Token {
    pub client: Credentials,
    pub token: Credentials,
}

impl Token {
    /// The client credentials of the pair.
    pub fn client(&self) -> (c: &Credentials)
        ensures
            *c == self.client,
    {
        &self.client
    }

    /// The token credentials of the pair.
    pub fn token(&self) -> (c: &Credentials)
        ensures
            *c == self.token,
    {
        &self.token
    }
}

/// Whether `n` marks the end of the leading run of `s` before the first `-`:
/// everything before `n` is dash-free, and `n` is a dash or the end.
pub open spec fn dash_prefix_end(s: Seq<u8>, n: int) -> bool {
    &&& 0 <= n <= s.len()
    &&& forall|j: int| 0 <= j < n ==> s[j] != 45
    &&& (n == s.len() || s[n] == 45)
}

/// Whether the prefix of `s` of length `n` is a numeral denoting a 64-bit
/// signed user id.
pub open spec fn prefix_is_user_id(s: Seq<u8>, n: int) -> bool {
    &&& n > 0
    &&& all_ascii_digits(s.take(n))
    &&& dec_value(s.take(n)) <= i64::MAX
}

/// Reads the user id out of an access token: the id is the token's leading
/// run of decimal digits before the first `-`. Nothing is returned when that
/// run is empty, holds a non-digit, or denotes more than a 64-bit signed id.
pub fn user_id_from_access_token(token: &Vec<u8>) -> (r: Option<i64>)
    ensures
        r is Some ==> exists|n: int| #[trigger] dash_prefix_end(token@, n) && prefix_is_user_id(
            token@,
            n,
        ) && r.unwrap() == dec_value(token@.take(n)),
        r is None ==> forall|n: int| #[trigger] dash_prefix_end(token@, n) ==> !prefix_is_user_id(
            token@,
            n,
        ),
{
    let ghost s = token@;
    let mut prefix: Vec<u8> = Vec::new();
    let mut i: usize = 0;
    while i < token.len() && token[i] != 45
        invariant
            0 <= i <= s.len(),
            s == token@,
            forall|j: int| 0 <= j < i ==> s[j] != 45,
            prefix@ == s.take(i as int),
        decreases s.len() - i,
    {
        prefix.push(token[i]);
        proof {
            assert(s.take(i + 1) =~= s.take(i as int).push(s[i as int]));
        }
        i = i + 1;
    }
    let ghost n0 = i as int;
    proof {
        assert(dash_prefix_end(s, n0));
        assert forall|n: int| #[trigger] dash_prefix_end(s, n) implies n == n0 by {
            if n < n0 {
                assert(s[n] == 45);
            } else if n > n0 {
                assert(s[n0] != 45);
                assert(n0 == s.len() || s[n0] == 45);
            }
        }
    }
    match parse_u64(&prefix) {
        Some(v) => {
            if v <= 0x7fff_ffff_ffff_ffff {
                Some(v as i64)
            } else {
                None
            }
        },
        None => None,
    }
}

} // verus!
