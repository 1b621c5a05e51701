//! Resolution of the authenticated user and of the credential pair that signs
//! requests: the binary reads the stored rows and hands them here as plain
//! values.

use vstd::prelude::*;

use crate::auth::Token;

verus! {

/// One stored token row: the user it authenticates and its credential pair.
pub struct TokenRecord {
    pub user: i64,
    pub token: Token,
}

/// One row of the default-user log.
#[derive(Clone, Copy, Debug, PartialEq, Eq, Structural)]
pub struct DefaultUserRow {
    pub id: i32,
    pub user: i64,
}

/// The credential pair of `user` among the stored token rows: at most one row
/// is consulted per user — the first match wins — and a user without a row
/// has no credentials.
pub fn credentials(user: i64, rows: &Vec<TokenRecord>) -> (r: Option<&Token>)
    ensures
        match r {
            Some(t) => exists|j: int| 0 <= j < rows@.len() && (#[trigger] rows@[j]).user == user
                && *t == rows@[j].token && (forall|i: int| 0 <= i < j ==> rows@[i].user != user),
            None => forall|j: int| 0 <= j < rows@.len() ==> (#[trigger] rows@[j]).user != user,
        },
{
    let mut k: usize = 0;
    while k < rows.len()
        invariant
            0 <= k <= rows@.len(),
            forall|i: int| 0 <= i < k ==> (#[trigger] rows@[i]).user != user,
        decreases rows@.len() - k,
    {
        if rows[k].user == user {
            return Some(&rows[k].token);
        }
        k = k + 1;
    }
    None
}

/// The authoritative default user of an append-only log: the user of the row
/// with the greatest id. Row ids are a primary key, so no two rows share one.
pub fn default_user(rows: &Vec<DefaultUserRow>) -> (r: Option<i64>)
    requires
        forall|i: int, j: int| 0 <= i < j < rows@.len() ==> (#[trigger] rows@[i]).id != (
        #[trigger] rows@[j]).id,
    ensures
        r is Some <==> rows@.len() > 0,
        r is Some ==> exists|j: int| 0 <= j < rows@.len() && (#[trigger] rows@[j]).user
            == r.unwrap() && (forall|i: int| 0 <= i < rows@.len() && i != j
            ==> (#[trigger] rows@[i]).id < rows@[j].id),
{
    if rows.len() == 0 {
        return None;
    }
    let mut best: usize = 0;
    let mut k: usize = 1;
    while k < rows.len()
        invariant
            rows@.len() > 0,
            0 <= best < k <= rows@.len(),
            forall|i: int, j: int| 0 <= i < j < rows@.len() ==> (#[trigger] rows@[i]).id != (
            #[trigger] rows@[j]).id,
            forall|i: int| 0 <= i < k && i != best ==> (#[trigger] rows@[i]).id < rows@[
                best as int
            ].id,
        decreases rows@.len() - k,
    {
        if rows[k].id > rows[best].id {
            best = k;
        }
        k = k + 1;
    }
    Some(rows[best].user)
}

/// The authenticated user of an invocation: the explicit override when one
/// was given, else the stored default user, else nobody — a configuration
/// error.
pub fn resolve_authenticated(login: Option<i64>, stored_default: Option<i64>) -> (r: Option<i64>)
    ensures
        login is Some ==> r == login,
        login is None ==> r == stored_default,
{
    match login {
        Some(id) => Some(id),
        None => stored_default,
    }
}

} // verus!
