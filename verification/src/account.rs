//! User accounts over an in-memory record store: registration with a
//! hashed credential and a fresh session token, login by verifying the
//! submitted secret against the stored hash, lookup of the authenticated
//! user, and password change. A nonexistent user and a wrong password
//! yield the same generic rejection, so a caller cannot tell them apart.
use vstd::prelude::*;

use crate::credential::{digest_matches, hash_password, verify_password, VerifyOutcome};
use crate::token::{token_of, Claims};

verus! {

/// A stored user: identifier, unique name and credential hash.
pub struct UserRecord {
    pub id: i32,
    pub name: String,
    pub password_hash: String,
}

/// Mathematical value of a `UserRecord`.
pub struct UserRecordV {
    pub id: i32,
    pub name: Seq<char>,
    pub password_hash: Seq<char>,
}

impl View for UserRecord {
    type V = UserRecordV;

    open spec fn view(&self) -> UserRecordV {
        UserRecordV { id: self.id, name: self.name@, password_hash: self.password_hash@ }
    }
}

/// The values of a sequence of user records.
pub open spec fn user_views(s: Seq<UserRecord>) -> Seq<UserRecordV> {
    s.map_values(|u: UserRecord| u@)
}

/// A user as responses carry it: name and, at registration and login, a
/// fresh session token.
#[derive(Debug, PartialEq, Eq)]
pub struct User {
    pub id: i32,
    pub name: String,
    pub token: Option<String>,
}

/// The response wrapper around a user.
#[derive(Debug, PartialEq, Eq)]
pub struct UserResponse {
    pub user: User,
}

/// A password-change request: the current secret and the new one.
#[derive(Debug, PartialEq, Eq)]
pub struct Password {
    pub old_password: String,
    pub new_password: String,
}

/// Outcome of a password change: the identifier on success, with a
/// message either way.
#[derive(Debug, PartialEq, Eq)]
pub struct PasswordResponse {
    pub id: Option<i32>,
    pub msg: String,
}

/// Why registration or login was refused.
#[derive(Debug, Clone, Copy, PartialEq, Eq, Structural)]
pub enum AccountError {
    /// The user name is already taken (registration only).
    Conflict,
    /// No user of that name, or the password does not match; never
    /// distinguished for the caller.
    Unauthorized,
    /// The key-derivation function failed.
    HashFailure,
}

/// Index of the first user with this name.
pub open spec fn find_by_name(s: Seq<UserRecordV>, name: Seq<char>) -> Option<int>
    decreases s.len(),
{
    if s.len() == 0 {
        None
    } else if s[0].name == name {
        Some(0)
    } else {
        match find_by_name(s.drop_first(), name) {
            None => None,
            Some(i) => Some(i + 1),
        }
    }
}

/// Index of the first user with this identifier.
pub open spec fn find_by_id(s: Seq<UserRecordV>, id: i32) -> Option<int>
    decreases s.len(),
{
    if s.len() == 0 {
        None
    } else if s[0].id == id {
        Some(0)
    } else {
        match find_by_id(s.drop_first(), id) {
            None => None,
            Some(i) => Some(i + 1),
        }
    }
}

proof fn lemma_find_by_name(s: Seq<UserRecordV>, name: Seq<char>)
    ensures
        find_by_name(s, name) matches Some(i) ==> 0 <= i < s.len() && s[i].name == name && (
        forall|k: int| 0 <= k < i ==> (#[trigger] s[k]).name != name),
        find_by_name(s, name) is None ==> (forall|k: int|
            0 <= k < s.len() ==> (#[trigger] s[k]).name != name),
    decreases s.len(),
{
    if s.len() > 0 && s[0].name != name {
        lemma_find_by_name(s.drop_first(), name);
        assert forall|k: int| 1 <= k < s.len() implies s.drop_first()[k - 1] == s[k] by {}
    }
}

proof fn lemma_find_by_id(s: Seq<UserRecordV>, id: i32)
    ensures
        find_by_id(s, id) matches Some(i) ==> 0 <= i < s.len() && s[i].id == id && (forall|k: int|
            0 <= k < i ==> (#[trigger] s[k]).id != id),
        find_by_id(s, id) is None ==> (forall|k: int|
            0 <= k < s.len() ==> (#[trigger] s[k]).id != id),
    decreases s.len(),
{
    if s.len() > 0 && s[0].id != id {
        lemma_find_by_id(s.drop_first(), id);
        assert forall|k: int| 1 <= k < s.len() implies s.drop_first()[k - 1] == s[k] by {}
    }
}

fn find_index_by_name(users: &Vec<UserRecord>, name: &String) -> (r: Option<usize>)
    ensures
        r matches Some(i) ==> find_by_name(user_views(users@), name@) == Some(i as int) && i
            < users@.len(),
        r is None ==> find_by_name(user_views(users@), name@) is None,
{
    let ghost uv = user_views(users@);
    let mut i: usize = 0;
    while i < users.len()
        invariant
            i <= users@.len(),
            uv == user_views(users@),
            forall|k: int| 0 <= k < i ==> (#[trigger] uv[k]).name != name@,
        decreases users@.len() - i,
    {
        if users[i].name == *name {
            proof {
                lemma_find_by_name(uv, name@);
                if find_by_name(uv, name@) is None {
                    assert(uv[i as int].name != name@);
                }
                let j = find_by_name(uv, name@)->Some_0;
                if j < i {
                    assert(uv[j].name == name@);
                }
                if j > i {
                    assert(uv[i as int].name != name@);
                }
            }
            return Some(i);
        }
        i += 1;
    }
    proof {
        lemma_find_by_name(uv, name@);
        if find_by_name(uv, name@) is Some {
            let j = find_by_name(uv, name@)->Some_0;
            assert(uv[j].name != name@);
        }
    }
    None
}

fn find_index_by_id(users: &Vec<UserRecord>, id: i32) -> (r: Option<usize>)
    ensures
        r matches Some(i) ==> find_by_id(user_views(users@), id) == Some(i as int) && i
            < users@.len(),
        r is None ==> find_by_id(user_views(users@), id) is None,
{
    let ghost uv = user_views(users@);
    let mut i: usize = 0;
    while i < users.len()
        invariant
            i <= users@.len(),
            uv == user_views(users@),
            forall|k: int| 0 <= k < i ==> (#[trigger] uv[k]).id != id,
        decreases users@.len() - i,
    {
        if users[i].id == id {
            proof {
                lemma_find_by_id(uv, id);
                if find_by_id(uv, id) is None {
                    assert(uv[i as int].id != id);
                }
                let j = find_by_id(uv, id)->Some_0;
                if j < i {
                    assert(uv[j].id == id);
                }
                if j > i {
                    assert(uv[i as int].id != id);
                }
            }
            return Some(i);
        }
        i += 1;
    }
    proof {
        lemma_find_by_id(uv, id);
        if find_by_id(uv, id) is Some {
            let j = find_by_id(uv, id)->Some_0;
            assert(uv[j].id != id);
        }
    }
    None
}

/// Registers a new user: the name must be free; the password is hashed
/// under a fresh salt; the record is appended under the next identifier;
/// and a session token for the new user is returned with the response.
pub fn register(
    users: &mut Vec<UserRecord>,
    username: &String,
    password: &String,
    key: &Vec<u8>,
    now: i64,
) -> (r: Result<UserResponse, AccountError>)
    requires
        old(users)@.len() < 0x7fffffff,
        now <= i64::MAX - 1209600,
    ensures
        r matches Ok(resp) ==> {
            let newid = (old(users)@.len() + 1) as i32;
            &&& find_by_name(user_views(old(users)@), username@) is None
            &&& final(users)@.len() == old(users)@.len() + 1
            &&& (exists|h: Seq<char>|
                #![trigger digest_matches(password@, h)]
                digest_matches(password@, h) && user_views(final(users)@) == user_views(
                    old(users)@,
                ).push(UserRecordV { id: newid, name: username@, password_hash: h }))
            &&& resp.user.id == newid
            &&& resp.user.name@ == username@
            &&& (resp.user.token matches Some(t) && t@ == token_of(
                newid as int,
                username@,
                now + 1209600,
                key@,
            ))
        },
        find_by_name(user_views(old(users)@), username@) is Some ==> r == Err::<
            UserResponse,
            AccountError,
        >(AccountError::Conflict),
        r is Err ==> final(users)@ == old(users)@,
{
    if find_index_by_name(users, username).is_some() {
        return Err(AccountError::Conflict);
    }
    let hash = match hash_password(password.as_str()) {
        Ok(h) => h,
        Err(_) => {
            return Err(AccountError::HashFailure);
        },
    };
    let ghost hv = hash@;
    let id = (users.len() as i32) + 1;
    let rec = UserRecord { id, name: username.clone(), password_hash: hash };
    records_push(users, rec);
    let claims = Claims::new(id, username.clone(), now);
    let token = claims.generate(key);
    Ok(
        UserResponse {
            user: User { id, name: username.clone(), token: Some(token) },
        },
    )
}

fn records_push(users: &mut Vec<UserRecord>, rec: UserRecord)
    ensures
        final(users)@ == old(users)@.push(rec),
        user_views(final(users)@) == user_views(old(users)@).push(rec@),
{
    users.push(rec);
    proof {
        assert(user_views(users@) =~= user_views(old(users)@).push(users@.last()@));
    }
}

/// Logs a user in: the first record carrying the submitted name must
/// exist and its stored hash must re-derive from the submitted password;
/// then a fresh session token for that user is returned. A missing name
/// and a wrong password yield the same `Unauthorized`.
pub fn login(
    users: &Vec<UserRecord>,
    username: &String,
    password: &String,
    key: &Vec<u8>,
    now: i64,
) -> (r: Result<UserResponse, AccountError>)
    requires
        now <= i64::MAX - 1209600,
    ensures
        ({
            let uv = user_views(users@);
            match find_by_name(uv, username@) {
                None => r == Err::<UserResponse, AccountError>(AccountError::Unauthorized),
                Some(i) => {
                    if digest_matches(password@, uv[i].password_hash) {
                        r matches Ok(resp) && resp.user.id == uv[i].id && resp.user.name@
                            == uv[i].name && (resp.user.token matches Some(t) && t@ == token_of(
                            uv[i].id as int,
                            uv[i].name,
                            now + 1209600,
                            key@,
                        ))
                    } else {
                        r == Err::<UserResponse, AccountError>(AccountError::Unauthorized)
                    }
                },
            }
        }),
{
    let i = match find_index_by_name(users, username) {
        Some(i) => i,
        None => {
            return Err(AccountError::Unauthorized);
        },
    };
    let outcome = verify_password(password.as_str(), users[i].password_hash.as_str());
    match outcome {
        VerifyOutcome::Match => {
            let claims = Claims::new(users[i].id, users[i].name.clone(), now);
            let token = claims.generate(key);
            Ok(
                UserResponse {
                    user: User {
                        id: users[i].id,
                        name: users[i].name.clone(),
                        token: Some(token),
                    },
                },
            )
        },
        _ => Err(AccountError::Unauthorized),
    }
}

/// The user with this identifier, without a token, as the single-user
/// lookup returns it.
pub fn get_one(users: &Vec<UserRecord>, id: i32) -> (r: Option<User>)
    ensures
        ({
            let uv = user_views(users@);
            match find_by_id(uv, id) {
                None => r is None,
                Some(i) => r matches Some(u) && u.id == uv[i].id && u.name@ == uv[i].name
                    && u.token is None,
            }
        }),
{
    match find_index_by_id(users, id) {
        None => None,
        Some(i) => Some(User { id: users[i].id, name: users[i].name.clone(), token: None }),
    }
}

/// The authenticated user's own record, as the "who am I" request
/// returns it.
pub fn me(users: &Vec<UserRecord>, id: i32) -> (r: Option<UserResponse>)
    ensures
        ({
            let uv = user_views(users@);
            match find_by_id(uv, id) {
                None => r is None,
                Some(i) => r matches Some(resp) && resp.user.id == uv[i].id && resp.user.name@
                    == uv[i].name && resp.user.token is None,
            }
        }),
{
    match get_one(users, id) {
        None => None,
        Some(u) => Some(UserResponse { user: u }),
    }
}

/// The users the listing of accounts returns for an authenticated
/// identifier: the matching record alone, or nothing.
pub fn users(records: &Vec<UserRecord>, id: i32) -> (r: Vec<User>)
    ensures
        ({
            let uv = user_views(records@);
            match find_by_id(uv, id) {
                None => r@.len() == 0,
                Some(i) => r@.len() == 1 && r@[0].id == uv[i].id && r@[0].name@ == uv[i].name
                    && r@[0].token is None,
            }
        }),
{
    let mut out: Vec<User> = Vec::new();
    match get_one(records, id) {
        None => {},
        Some(u) => {
            out.push(u);
        },
    }
    out
}

/// Changes a password: the user must exist and the submitted current
/// secret must match the stored hash; then the hash is replaced by one
/// freshly derived from the new secret. On any failure the store is
/// unchanged and no identifier is reported.
pub fn edit(users: &mut Vec<UserRecord>, id: i32, data: &Password) -> (r: PasswordResponse)
    ensures
        r.id matches Some(i) ==> i == id,
        r.id is Some ==> ({
            let uv = user_views(old(users)@);
            &&& find_by_id(uv, id) is Some
            &&& digest_matches(
                data.old_password@,
                uv[find_by_id(uv, id)->Some_0].password_hash,
            )
            &&& (exists|h: Seq<char>|
                #![trigger digest_matches(data.new_password@, h)]
                digest_matches(data.new_password@, h) && user_views(final(users)@) == uv.update(
                    find_by_id(uv, id)->Some_0,
                    UserRecordV {
                        id: uv[find_by_id(uv, id)->Some_0].id,
                        name: uv[find_by_id(uv, id)->Some_0].name,
                        password_hash: h,
                    },
                ))
        }),
        r.id is None ==> final(users)@ == old(users)@,
        ({
            let uv = user_views(old(users)@);
            (match find_by_id(uv, id) {
                None => true,
                Some(i) => !digest_matches(data.old_password@, uv[i].password_hash),
            }) ==> r.id is None
        }),
{
    let i = match find_index_by_id(users, id) {
        Some(i) => i,
        None => {
            return PasswordResponse { id: None, msg: String::from_str("密码错误") };
        },
    };
    let outcome = verify_password(data.old_password.as_str(), users[i].password_hash.as_str());
    match outcome {
        VerifyOutcome::Match => {},
        _ => {
            return PasswordResponse { id: None, msg: String::from_str("密码错误") };
        },
    }
    let new_hash = match hash_password(data.new_password.as_str()) {
        Ok(h) => h,
        Err(_) => {
            return PasswordResponse { id: None, msg: String::from_str("密码错误") };
        },
    };
    let ghost hv = new_hash@;
    let changed = UserRecord {
        id: users[i].id,
        name: users[i].name.clone(),
        password_hash: new_hash,
    };
    let ghost uv = user_views(users@);
    users.set(i, changed);
    proof {
        assert(user_views(users@) =~= uv.update(
            i as int,
            UserRecordV { id: uv[i as int].id, name: uv[i as int].name, password_hash: hv },
        ));
    }
    PasswordResponse { id: Some(id), msg: String::from_str("修改成功") }
}

/// The permission label of an authenticated identifier: the first user
/// is the administrator, everyone else an ordinary user.
pub fn get_permission(id: i32) -> (r: String)
    ensures
        id == 1 ==> r@ == "admin"@,
        id != 1 ==> r@ == "user"@,
{
    if id == 1 {
        String::from_str("admin")
    } else {
        String::from_str("user")
    }
}

} // verus!
