use ruthenium::account::{
    edit, get_one, get_permission, login, me, register, users, AccountError, Password,
    UserRecord,
};
use ruthenium::token::Claims;

fn key() -> Vec<u8> {
    b"deadbeef".to_vec()
}

#[test]
fn register_then_login_round_trips_id() {
    let now: i64 = 1_655_000_000;
    let mut store: Vec<UserRecord> = Vec::new();

    let reg = register(
        &mut store,
        &String::from("alice"),
        &String::from("s3cret"),
        &key(),
        now,
    )
    .expect("registration should succeed");
    assert_eq!(reg.user.name, "alice");
    let token = reg.user.token.clone().expect("registration returns a token");
    assert!(!token.is_empty());

    let log = login(
        &store,
        &String::from("alice"),
        &String::from("s3cret"),
        &key(),
        now,
    )
    .expect("login with the same credentials succeeds");
    assert_eq!(log.user.id, reg.user.id);
    assert_eq!(log.user.name, "alice");
    assert!(log.user.token.is_some());

    // the issued token identifies the same principal
    let claims = Claims::validate(&token, &key(), now).expect("token validates");
    assert_eq!(claims.id, reg.user.id);
    assert_eq!(claims.username, "alice");
}

#[test]
fn duplicate_username_is_conflict() {
    let now: i64 = 1_655_000_000;
    let mut store: Vec<UserRecord> = Vec::new();
    register(&mut store, &String::from("alice"), &String::from("a"), &key(), now).unwrap();
    assert_eq!(
        register(&mut store, &String::from("alice"), &String::from("b"), &key(), now),
        Err(AccountError::Conflict)
    );
    assert_eq!(store.len(), 1);
}

#[test]
fn login_failures_are_uniform() {
    let now: i64 = 1_655_000_000;
    let mut store: Vec<UserRecord> = Vec::new();
    register(&mut store, &String::from("alice"), &String::from("s3cret"), &key(), now).unwrap();

    assert_eq!(
        login(&store, &String::from("nobody"), &String::from("s3cret"), &key(), now),
        Err(AccountError::Unauthorized)
    );
    assert_eq!(
        login(&store, &String::from("alice"), &String::from("wrong"), &key(), now),
        Err(AccountError::Unauthorized)
    );
}

#[test]
fn lookups() {
    let now: i64 = 1_655_000_000;
    let mut store: Vec<UserRecord> = Vec::new();
    let reg =
        register(&mut store, &String::from("alice"), &String::from("pw"), &key(), now).unwrap();
    let id = reg.user.id;

    let one = get_one(&store, id).expect("the user exists");
    assert_eq!(one.id, id);
    assert_eq!(one.name, "alice");
    assert!(one.token.is_none());
    assert!(get_one(&store, id + 1).is_none());

    let who = me(&store, id).expect("the user exists");
    assert_eq!(who.user.name, "alice");
    assert!(me(&store, 999).is_none());

    let page = users(&store, id);
    assert_eq!(page.len(), 1);
    assert_eq!(page[0].name, "alice");
    assert!(users(&store, 999).is_empty());
}

#[test]
fn password_change() {
    let now: i64 = 1_655_000_000;
    let mut store: Vec<UserRecord> = Vec::new();
    let reg =
        register(&mut store, &String::from("alice"), &String::from("old-pw"), &key(), now)
            .unwrap();
    let id = reg.user.id;

    // wrong current password: refused, nothing changes
    let r = edit(
        &mut store,
        id,
        &Password {
            old_password: String::from("not-it"),
            new_password: String::from("new-pw"),
        },
    );
    assert!(r.id.is_none());
    assert!(login(&store, &String::from("alice"), &String::from("old-pw"), &key(), now).is_ok());

    // unknown user: refused
    let r = edit(
        &mut store,
        id + 7,
        &Password {
            old_password: String::from("old-pw"),
            new_password: String::from("new-pw"),
        },
    );
    assert!(r.id.is_none());

    // right current password: the credential is replaced
    let r = edit(
        &mut store,
        id,
        &Password {
            old_password: String::from("old-pw"),
            new_password: String::from("new-pw"),
        },
    );
    assert_eq!(r.id, Some(id));
    assert!(login(&store, &String::from("alice"), &String::from("new-pw"), &key(), now).is_ok());
    assert_eq!(
        login(&store, &String::from("alice"), &String::from("old-pw"), &key(), now),
        Err(AccountError::Unauthorized)
    );
}

#[test]
fn permissions() {
    assert_eq!(get_permission(1), "admin");
    assert_eq!(get_permission(2), "user");
    assert_eq!(get_permission(-1), "user");
}

#[test]
fn unicode_username_round_trips_through_token() {
    let now: i64 = 1_655_000_000;
    let mut store: Vec<UserRecord> = Vec::new();
    let name = String::from("\u{5f20}\u{4e09} \u{1F980}");
    let reg = register(&mut store, &name, &String::from("pw"), &key(), now).unwrap();
    let token = reg.user.token.unwrap();
    let claims = Claims::validate(&token, &key(), now).expect("token validates");
    assert_eq!(claims.username, name);
}
