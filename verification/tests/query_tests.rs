use blockscan::auth::user_id_from_access_token;
use blockscan::auth::Credentials;
use blockscan::auth::Token;
use blockscan::query::credentials;
use blockscan::query::default_user;
use blockscan::query::resolve_authenticated;
use blockscan::query::DefaultUserRow;
use blockscan::query::TokenRecord;
use blockscan::store::BlockTable;
use blockscan::store::CursorKey;
use blockscan::store::CursorTable;
use blockscan::store::EndpointTable;

fn token(tag: &str) -> Token {
    Token {
        client: Credentials {
            identifier: format!("client-{}", tag),
            secret: "SECRET-REDACTED".to_string(),
        },
        token: Credentials {
            identifier: format!("token-{}", tag),
            secret: "SECRET-REDACTED".to_string(),
        },
    }
}

#[test]
fn credentials_takes_the_first_matching_row() {
    let rows = vec![
        TokenRecord { user: 1, token: token("a") },
        TokenRecord { user: 2, token: token("b") },
        TokenRecord { user: 1, token: token("c") },
    ];
    let t = credentials(1, &rows).unwrap();
    assert_eq!(t.client().identifier, "client-a");
    assert_eq!(t.token().identifier, "token-a");
    let t = credentials(2, &rows).unwrap();
    assert_eq!(t.client().identifier, "client-b");
}

#[test]
fn credentials_missing_user_has_none() {
    let rows = vec![TokenRecord { user: 1, token: token("a") }];
    assert!(credentials(9, &rows).is_none());
    assert!(credentials(9, &Vec::new()).is_none());
}

#[test]
fn default_user_is_the_latest_row() {
    let rows = vec![
        DefaultUserRow { id: 1, user: 10 },
        DefaultUserRow { id: 3, user: 30 },
        DefaultUserRow { id: 2, user: 20 },
    ];
    assert_eq!(default_user(&rows), Some(30));
    assert_eq!(default_user(&Vec::new()), None);
}

#[test]
fn login_override_beats_the_default_user() {
    assert_eq!(resolve_authenticated(Some(5), Some(9)), Some(5));
    assert_eq!(resolve_authenticated(None, Some(9)), Some(9));
    assert_eq!(resolve_authenticated(None, None), None);
}

#[test]
fn user_id_is_the_token_prefix() {
    assert_eq!(user_id_from_access_token(&b"12345-abcdef".to_vec()), Some(12345));
    assert_eq!(user_id_from_access_token(&b"123".to_vec()), Some(123));
    assert_eq!(user_id_from_access_token(&b"-abcdef".to_vec()), None);
    assert_eq!(user_id_from_access_token(&b"".to_vec()), None);
    assert_eq!(user_id_from_access_token(&b"12x45-a".to_vec()), None);
    assert_eq!(user_id_from_access_token(&b"99999999999999999999-a".to_vec()), None);
}

#[test]
fn endpoint_keeps_its_id() {
    let mut endpoints = EndpointTable::new();
    let followers = "https://api.twitter.com/1.1/followers/list.json".to_string();
    let blocks = "https://api.twitter.com/1.1/blocks/create.json".to_string();
    let a = endpoints.ensure(&followers);
    let b = endpoints.ensure(&blocks);
    assert_eq!(a, 1);
    assert_eq!(b, 2);
    assert_eq!(endpoints.ensure(&followers), a);
    assert_eq!(endpoints.ensure(&blocks), b);
}

#[test]
fn block_insert_is_insert_or_ignore() {
    let mut blocks = BlockTable::new();
    blocks.insert_or_ignore(1, 100, 1111);
    blocks.insert_or_ignore(1, 100, 2222);
    assert_eq!(blocks.len(), 1);
    assert!(blocks.contains(1, 100));
    blocks.insert_or_ignore(2, 100, 3333);
    assert_eq!(blocks.len(), 2);
}

#[test]
fn cursor_replace_overwrites_in_place() {
    let mut cursors = CursorTable::new();
    let key = CursorKey { endpoint: 1, authenticated_user: 100, user: 42 };
    assert_eq!(cursors.get(key), None);
    cursors.replace(key, -1);
    assert_eq!(cursors.get(key), Some(-1));
    cursors.replace(key, 5);
    assert_eq!(cursors.get(key), Some(5));
    let other = CursorKey { endpoint: 1, authenticated_user: 100, user: 43 };
    cursors.replace(other, 9);
    assert_eq!(cursors.get(key), Some(5));
    assert_eq!(cursors.get(other), Some(9));
}
