use crate::ipc::{str_eq, StorageError};
use crate::result::Error;
use crate::util::{has_prefix, hash_password, is_lower_hex, md5_hex, starts_with, token};
use vstd::prelude::*;

verus! {

/// The password digest of the seeded administrator.
pub const ADMIN_PASSWORD_HASH: &'static str = "e10adc3949ba59abbe56e057f20f883e";

/// An operator account of the control surface.
pub struct Account {
    pub uid: i32,
    pub username: String,
    /// The MD5 digest of the password, in lower-case hexadecimal.
    pub password: String,
    pub token: String,
    pub create_time: i64,
    pub update_time: Option<i64>,
}

/// The mathematical value of an account.
pub struct AccountView {
    pub uid: i32,
    pub username: Seq<char>,
    pub password: Seq<char>,
    pub token: Seq<char>,
    pub create_time: i64,
    pub update_time: Option<i64>,
}

impl View for Account {
    type V = AccountView;

    open spec fn view(&self) -> AccountView {
        AccountView {
            uid: self.uid,
            username: self.username@,
            password: self.password@,
            token: self.token@,
            create_time: self.create_time,
            update_time: self.update_time,
        }
    }
}

impl Account {
    pub fn new(
        uid: i32,
        username: String,
        password: String,
        token: String,
        create_time: i64,
        update_time: Option<i64>,
    ) -> (r: Self)
        ensures
            r.uid == uid && r.username == username && r.password == password && r.token == token,
            r.create_time == create_time && r.update_time == update_time,
    {
        Account { uid, username, password, token, create_time, update_time }
    }

    /// A copy of the account, equal to it in value.
    pub fn duplicate(&self) -> (r: Account)
        ensures
            r@ == self@,
    {
        Account {
            uid: self.uid,
            username: self.username.clone(),
            password: self.password.clone(),
            token: self.token.clone(),
            create_time: self.create_time,
            update_time: self.update_time,
        }
    }
}

/// The value of the account store.
pub struct AccountsView {
    pub rows: Seq<AccountView>,
    pub next_uid: int,
}

/// Identities are positive and below the next one; identities, user names
/// and tokens are unique.
pub open spec fn accounts_wf(v: AccountsView) -> bool {
    &&& 1 <= v.next_uid <= i32::MAX
    &&& forall|i: int| 0 <= i < v.rows.len() ==> 0 < #[trigger] v.rows[i].uid < v.next_uid
    &&& forall|i: int, j: int|
        0 <= i < j < v.rows.len() ==> {
            &&& #[trigger] v.rows[i].uid != #[trigger] v.rows[j].uid
            &&& v.rows[i].username != v.rows[j].username
            &&& v.rows[i].token != v.rows[j].token
        }
}

pub open spec fn account_views(s: Seq<Account>) -> Seq<AccountView> {
    s.map_values(|a: Account| a@)
}

/// Which field a lookup matches on.
pub enum AccountKey {
    Uid(i32),
    Username(String),
    Token(String),
}

pub open spec fn key_matches(k: AccountKey, a: AccountView) -> bool {
    match k {
        AccountKey::Uid(u) => a.uid == u,
        AccountKey::Username(n) => a.username == n@,
        AccountKey::Token(t) => a.token == t@,
    }
}

pub open spec fn any_matches(rows: Seq<AccountView>, k: AccountKey) -> bool {
    exists|i: int| 0 <= i < rows.len() && key_matches(k, #[trigger] rows[i])
}

/// A record of another identity has the user name or the token.
pub open spec fn clashes(rows: Seq<AccountView>, a: AccountView) -> bool {
    exists|i: int|
        0 <= i < rows.len() && #[trigger] rows[i].uid != a.uid && (rows[i].username == a.username
            || rows[i].token == a.token)
}

/// A record holds the user name or the token of `a`.
pub open spec fn name_or_token_taken(rows: Seq<AccountView>, a: AccountView) -> bool {
    exists|i: int|
        0 <= i < rows.len() && (#[trigger] rows[i].username == a.username || rows[i].token
            == a.token)
}

/// The account store.
pub struct AccountService {
    rows: Vec<Account>,
    next_uid: i32,
}

impl View for AccountService {
    type V = AccountsView;

    closed spec fn view(&self) -> AccountsView {
        AccountsView { rows: account_views(self.rows@), next_uid: self.next_uid as int }
    }
}

impl AccountService {
    /// An empty store whose first insert assigns identity 1.
    pub fn new() -> (r: AccountService)
        ensures
            accounts_wf(r@),
            r@.rows.len() == 0,
            r@.next_uid == 1,
    {
        let r = AccountService { rows: Vec::new(), next_uid: 1 };
        assert(account_views(r.rows@) =~= Seq::empty());
        r
    }

    fn position(&self, k: &AccountKey) -> (r: Option<usize>)
        ensures
            r matches Some(i) ==> i < self.rows.len() && key_matches(*k, self@.rows[i as int]),
            r is None ==> !any_matches(self@.rows, *k),
    {
        let mut i: usize = 0;
        while i < self.rows.len()
            invariant
                i <= self.rows.len(),
                forall|j: int| 0 <= j < i ==> !key_matches(*k, #[trigger] self@.rows[j]),
            decreases self.rows.len() - i,
        {
            assert(self@.rows[i as int] == self.rows[i as int]@);
            let a = &self.rows[i];
            let hit = match k {
                AccountKey::Uid(u) => a.uid == *u,
                AccountKey::Username(n) => str_eq(a.username.as_str(), n.as_str()),
                AccountKey::Token(t) => str_eq(a.token.as_str(), t.as_str()),
            };
            if hit {
                return Some(i);
            }
            i = i + 1;
        }
        None
    }

    fn find_clash(&self, a: &Account) -> (r: bool)
        ensures
            r == clashes(self@.rows, a@),
    {
        let mut i: usize = 0;
        while i < self.rows.len()
            invariant
                i <= self.rows.len(),
                forall|j: int|
                    0 <= j < i ==> !(#[trigger] self@.rows[j].uid != a.uid && (
                    self@.rows[j].username == a.username@ || self@.rows[j].token == a.token@)),
            decreases self.rows.len() - i,
        {
            assert(self@.rows[i as int] == self.rows[i as int]@);
            let b = &self.rows[i];
            if b.uid != a.uid && (str_eq(b.username.as_str(), a.username.as_str()) || str_eq(
                b.token.as_str(),
                a.token.as_str(),
            )) {
                assert(self@.rows[i as int].uid != a@.uid && (self@.rows[i as int].username
                    == a@.username || self@.rows[i as int].token == a@.token));
                return true;
            }
            i = i + 1;
        }
        false
    }

    fn lookup(&self, k: &AccountKey) -> (r: Option<Account>)
        ensures
            r matches Some(a) ==> self@.rows.contains(a@) && key_matches(*k, a@),
            r is None ==> !any_matches(self@.rows, *k),
    {
        match self.position(k) {
            None => None,
            Some(i) => {
                let a = self.rows[i].duplicate();
                assert(self@.rows[i as int] == a@);
                Some(a)
            },
        }
    }

    /// The account with identity `uid`, if any (identities are unique).
    pub fn get(&self, uid: i32) -> (r: Option<Account>)
        ensures
            r matches Some(a) ==> self@.rows.contains(a@) && a.uid == uid,
            r is None ==> !any_matches(self@.rows, AccountKey::Uid(uid)),
    {
        self.lookup(&AccountKey::Uid(uid))
    }

    /// The account with user name `username`, if any (names are unique).
    pub fn get_by_username(&self, username: String) -> (r: Option<Account>)
        ensures
            r matches Some(a) ==> self@.rows.contains(a@) && a.username@ == username@,
            r is None ==> !any_matches(self@.rows, AccountKey::Username(username)),
    {
        self.lookup(&AccountKey::Username(username))
    }

    /// The account holding `token`, if any (tokens are unique).
    pub fn get_by_token(&self, token: String) -> (r: Option<Account>)
        ensures
            r matches Some(a) ==> self@.rows.contains(a@) && a.token@ == token@,
            r is None ==> !any_matches(self@.rows, AccountKey::Token(token)),
    {
        self.lookup(&AccountKey::Token(token))
    }

    /// Adds an account under the next identity (its own `uid` is not used).
    /// Fails where another account has its user name or token, or where no
    /// identity is left.
    pub fn insert(&mut self, account: Account) -> (r: Result<usize, StorageError>)
        requires
            accounts_wf(old(self)@),
        ensures
            accounts_wf(final(self)@),
            r is Err ==> final(self)@ == old(self)@,
            r is Ok ==> r == Ok::<usize, StorageError>(1) && final(self)@ == (AccountsView {
                rows: old(self)@.rows.push(AccountView { uid: old(self)@.next_uid as i32, ..account@ }),
                next_uid: old(self)@.next_uid + 1,
            }),
            name_or_token_taken(old(self)@.rows, account@) ==> (r matches Err(
                StorageError::DuplicateKey,
            )),
            !name_or_token_taken(old(self)@.rows, account@)
                && old(self)@.next_uid < i32::MAX ==> r is Ok,
    {
        let mut row = account;
        row.uid = self.next_uid;
        if self.find_clash(&row) {
            return Err(StorageError::DuplicateKey);
        }
        assert forall|i: int| 0 <= i < self@.rows.len() implies !(#[trigger] self@.rows[i].username
            == row.username@ || self@.rows[i].token == row.token@) by {
            assert(self@.rows[i].uid != row.uid);
        }
        assert(!name_or_token_taken(old(self)@.rows, account@));
        if self.next_uid == i32::MAX {
            return Err(StorageError::IdsExhausted);
        }
        let ghost before = self@;
        self.rows.push(row);
        self.next_uid = self.next_uid + 1;
        assert(self@.rows =~= before.rows.push(AccountView { uid: before.next_uid as i32, ..account@ }));
        Ok(1)
    }

    /// Overwrites the account with the identity of `account` (all but its
    /// identity and creation time). Returns the number updated: 0 where no
    /// account has that identity. Fails where another account has the new
    /// user name or token.
    pub fn update(&mut self, account: Account) -> (r: Result<usize, StorageError>)
        requires
            accounts_wf(old(self)@),
        ensures
            accounts_wf(final(self)@),
            final(self)@.next_uid == old(self)@.next_uid,
            !any_matches(old(self)@.rows, AccountKey::Uid(account.uid)) ==> r == Ok::<
                usize,
                StorageError,
            >(0) && final(self)@ == old(self)@,
            any_matches(old(self)@.rows, AccountKey::Uid(account.uid)) && clashes(
                old(self)@.rows,
                account@,
            ) ==> (r matches Err(StorageError::DuplicateKey)) && final(self)@ == old(self)@,
            any_matches(old(self)@.rows, AccountKey::Uid(account.uid)) && !clashes(
                old(self)@.rows,
                account@,
            ) ==> r == Ok::<usize, StorageError>(1) && final(self)@.rows.len() == old(self)@.rows.len()
                && forall|i: int|
                0 <= i < old(self)@.rows.len() ==> #[trigger] final(self)@.rows[i] == if old(self)@.rows[i].uid == account.uid {
                    AccountView { create_time: old(self)@.rows[i].create_time, ..account@ }
                } else {
                    old(self)@.rows[i]
                },
    {
        let k = match self.position(&AccountKey::Uid(account.uid)) {
            None => {
                return Ok(0);
            },
            Some(k) => k,
        };
        if self.find_clash(&account) {
            return Err(StorageError::DuplicateKey);
        }
        let ghost before = self@;
        let mut row = account;
        row.create_time = self.rows[k].create_time;
        self.rows.set(k, row);
        proof {
            assert forall|i: int| 0 <= i < before.rows.len() && i != k implies before.rows[i].uid
                != account.uid by {
                if i < k {
                    assert(before.rows[i].uid != before.rows[k as int].uid);
                } else {
                    assert(before.rows[k as int].uid != before.rows[i].uid);
                }
            }
            assert forall|i: int| 0 <= i < before.rows.len() implies #[trigger] self@.rows[i] == if before.rows[i].uid
                == account.uid {
                AccountView { create_time: before.rows[i].create_time, ..account@ }
            } else {
                before.rows[i]
            } by {
                assert(self@.rows[i] == self.rows[i]@);
            }
            assert forall|i: int, j: int| 0 <= i < j < self@.rows.len() implies {
                &&& #[trigger] self@.rows[i].uid != #[trigger] self@.rows[j].uid
                &&& self@.rows[i].username != self@.rows[j].username
                &&& self@.rows[i].token != self@.rows[j].token
            } by {
                assert(before.rows[i].uid != before.rows[j].uid);
            }
        }
        Ok(1)
    }

    /// Sets the password digest of account `uid` and stamps it; returns the
    /// number of accounts changed.
    pub fn change_password(&mut self, password: String, uid: i32, now: i64) -> (r: usize)
        requires
            accounts_wf(old(self)@),
        ensures
            accounts_wf(final(self)@),
            final(self)@.next_uid == old(self)@.next_uid,
            final(self)@.rows.len() == old(self)@.rows.len(),
            !any_matches(old(self)@.rows, AccountKey::Uid(uid)) ==> r == 0 && final(self)@ == old(self)@,
            any_matches(old(self)@.rows, AccountKey::Uid(uid)) ==> r == 1 && forall|i: int|
                0 <= i < old(self)@.rows.len() ==> #[trigger] final(self)@.rows[i] == if old(self)@.rows[i].uid == uid {
                    AccountView {
                        password: password@,
                        update_time: Some(now),
                        ..old(self)@.rows[i]
                    }
                } else {
                    old(self)@.rows[i]
                },
    {
        let k = match self.position(&AccountKey::Uid(uid)) {
            None => {
                return 0;
            },
            Some(k) => k,
        };
        let ghost before = self@;
        let mut row = self.rows[k].duplicate();
        row.password = password;
        row.update_time = Some(now);
        self.rows.set(k, row);
        proof {
            assert forall|i: int| 0 <= i < before.rows.len() && i != k implies before.rows[i].uid
                != uid by {
                if i < k {
                    assert(before.rows[i].uid != before.rows[k as int].uid);
                } else {
                    assert(before.rows[k as int].uid != before.rows[i].uid);
                }
            }
            assert forall|i: int| 0 <= i < before.rows.len() implies #[trigger] self@.rows[i] == if before.rows[i].uid
                == uid {
                AccountView { password: password@, update_time: Some(now), ..before.rows[i] }
            } else {
                before.rows[i]
            } by {
                assert(self@.rows[i] == self.rows[i]@);
            }
            assert forall|i: int, j: int| 0 <= i < j < self@.rows.len() implies {
                &&& #[trigger] self@.rows[i].uid != #[trigger] self@.rows[j].uid
                &&& self@.rows[i].username != self@.rows[j].username
                &&& self@.rows[i].token != self@.rows[j].token
            } by {
                assert(before.rows[i].uid != before.rows[j].uid);
            }
        }
        1
    }

    /// Seeds the administrator account (user name `admin`, the default
    /// password digest, a fresh token, created at `now`) into an empty
    /// store; returns the number of accounts added.
    pub fn init_data(&mut self, now: i64) -> (r: usize)
        requires
            accounts_wf(old(self)@),
        ensures
            accounts_wf(final(self)@),
            old(self)@.rows.len() != 0 ==> r == 0 && final(self)@ == old(self)@,
            old(self)@.rows.len() == 0 && old(self)@.next_uid == i32::MAX ==> r == 0 && final(self)@
                == old(self)@,
            old(self)@.rows.len() == 0 && old(self)@.next_uid < i32::MAX ==> r == 1 && final(self)@.rows.len() == 1 && final(self)@.rows[0].username == "admin"@ && final(self)@.rows[0].password
                == ADMIN_PASSWORD_HASH@ && final(self)@.rows[0].create_time == now
                && final(self)@.rows[0].update_time is None && final(self)@.rows[0].token.len() == 32
                && forall|i: int|
                0 <= i < 32 ==> is_lower_hex(#[trigger] final(self)@.rows[0].token[i]),
    {
        if self.rows.len() != 0 {
            return 0;
        }
        let account = Account::new(
            0,
            String::from_str("admin"),
            String::from_str(ADMIN_PASSWORD_HASH),
            token(),
            now,
            None,
        );
        match self.insert(account) {
            Ok(n) => n,
            Err(_) => 0,
        }
    }
}

/// The token of a login: refused unless the account exists and its stored
/// digest equals the digest of the password given.
pub fn check_login(account: Option<Account>, password_hash: &str) -> (r: Result<String, Error>)
    ensures
        match account {
            None => r matches Err(e) && e.code == 10005 && e.message@ == "Wrong user name or password"@,
            Some(a) => if a.password@ == password_hash@ {
                r matches Ok(t) && t@ == a.token@
            } else {
                r matches Err(e) && e.code == 10005 && e.message@ == "Wrong user name or password"@
            },
        },
{
    match account {
        None => Err(Error::user_password_error()),
        Some(a) => if str_eq(a.password.as_str(), password_hash) {
            Ok(a.token)
        } else {
            Err(Error::user_password_error())
        },
    }
}

/// An account has the user name and the password digest.
pub open spec fn credentials_match(rows: Seq<AccountView>, username: Seq<char>, digest: Seq<char>) -> bool {
    exists|i: int| 0 <= i < rows.len() && #[trigger] rows[i].username == username && rows[i].password == digest
}

/// An account holds the token and has the password digest.
pub open spec fn token_matches(rows: Seq<AccountView>, token: Seq<char>, digest: Seq<char>) -> bool {
    exists|i: int| 0 <= i < rows.len() && #[trigger] rows[i].token == token && rows[i].password == digest
}

/// Logs in with a user name and a password: the account's token where an
/// account has the user name and the password's digest; refused otherwise.
pub fn login(accounts: &AccountService, username: String, password: String) -> (r: Result<
    String,
    Error,
>)
    requires
        accounts_wf(accounts@),
    ensures
        r is Ok <==> credentials_match(accounts@.rows, username@, md5_hex(password@)),
        r matches Err(e) ==> e.code == 10005 && e.message@ == "Wrong user name or password"@,
        r matches Ok(t) ==> exists|i: int|
            0 <= i < accounts@.rows.len() && #[trigger] accounts@.rows[i].username == username@
                && accounts@.rows[i].token == t@,
{
    let account = accounts.get_by_username(username);
    let ghost found = account;
    let hashed = hash_password(password);
    let r = check_login(account, hashed.as_str());
    proof {
        let rows = accounts@.rows;
        if found is Some {
            let a = found->0;
            let j = choose|j: int| 0 <= j < rows.len() && rows[j] == a@;
            assert(rows[j].username == username@);
            if credentials_match(rows, username@, md5_hex(password@)) {
                let i = choose|i: int|
                    0 <= i < rows.len() && #[trigger] rows[i].username == username@
                        && rows[i].password == md5_hex(password@);
                let v = accounts@;
                assert(accounts_wf(v));
                if i < j {
                    assert(v.rows[i].uid != v.rows[j].uid);
                    assert(rows[i].uid != rows[j].uid && rows[i].username != rows[j].username);
                } else if j < i {
                    assert(v.rows[j].uid != v.rows[i].uid);
                    assert(rows[j].uid != rows[i].uid && rows[j].username != rows[i].username);
                }
            }
        } else {
            assert forall|i: int| 0 <= i < rows.len() implies #[trigger] rows[i].username != username@ by {
                assert(!key_matches(AccountKey::Username(username), rows[i]));
            }
        }
    }
    r
}

/// A password change for the account holding `token`, given the digests of
/// the old and new passwords: refused where no account holds the token
/// (10002) or where the old digest does not match (10006); otherwise the
/// account's password digest becomes the new one.
pub fn change_password(
    accounts: &mut AccountService,
    token: String,
    old_password_hash: &str,
    new_password_hash: String,
    now: i64,
) -> (r: Result<usize, Error>)
    requires
        accounts_wf(old(accounts)@),
    ensures
        accounts_wf(final(accounts)@),
        r is Ok <==> token_matches(old(accounts)@.rows, token@, old_password_hash@),
        !any_matches(old(accounts)@.rows, AccountKey::Token(token)) ==> (r matches Err(e)
            && e.code == 10002 && e.message@ == "Data not found"@),
        any_matches(old(accounts)@.rows, AccountKey::Token(token)) && !token_matches(
            old(accounts)@.rows,
            token@,
            old_password_hash@,
        ) ==> (r matches Err(e) && e.code == 10006 && e.message@ == "Old password error"@),
        r is Err ==> final(accounts)@ == old(accounts)@,
        r is Ok ==> r == Ok::<usize, Error>(1) && exists|j: int|
            0 <= j < old(accounts)@.rows.len() && #[trigger] old(accounts)@.rows[j].token == token@
                && final(accounts)@.rows.len() == old(accounts)@.rows.len() && forall|i: int|
                0 <= i < old(accounts)@.rows.len() ==> #[trigger] final(accounts)@.rows[i] == if old(
                    accounts)@.rows[i].uid == old(accounts)@.rows[j].uid {
                    AccountView {
                        password: new_password_hash@,
                        update_time: Some(now),
                        ..old(accounts)@.rows[i]
                    }
                } else {
                    old(accounts)@.rows[i]
                },
{
    let ghost rows = old(accounts)@.rows;
    let account = match accounts.get_by_token(token) {
        None => {
            proof {
                assert forall|i: int| 0 <= i < rows.len() implies #[trigger] rows[i].token != token@ by {
                    assert(!key_matches(AccountKey::Token(token), rows[i]));
                }
            }
            return Err(Error::data_not_found());
        },
        Some(a) => a,
    };
    assert(accounts@ == old(accounts)@);
    assert(rows.contains(account@));
    let ghost j = choose|j: int| 0 <= j < rows.len() && rows[j] == account@;
    proof {
        assert(rows[j].token == token@);
        let v = old(accounts)@;
        assert(accounts_wf(v));
        assert(v.rows == rows);
        assert forall|i: int| 0 <= i < rows.len() && #[trigger] rows[i].token == token@ implies i == j by {
            assert(0 <= j < v.rows.len());
            if i < j {
                assert(v.rows[i].uid != v.rows[j].uid);
                assert(rows[i].uid != rows[j].uid && rows[i].token != rows[j].token);
            } else if j < i {
                assert(v.rows[j].uid != v.rows[i].uid);
                assert(rows[j].uid != rows[i].uid && rows[j].token != rows[i].token);
            }
        }
    }
    if !str_eq(account.password.as_str(), old_password_hash) {
        return Err(Error::old_password_error());
    }
    let n = accounts.change_password(new_password_hash, account.uid, now);
    proof {
        assert(key_matches(AccountKey::Uid(account.uid), rows[j]));
        assert(n == 1);
    }
    Ok(1)
}

/// Paths served without a token: the login endpoint, the root and the
/// administration pages.
pub open spec fn is_public_path_spec(path: Seq<char>) -> bool {
    path == "/api/login"@ || path == "/"@ || has_prefix(path, "/admin"@)
}

pub fn is_public_path(path: &str) -> (r: bool)
    ensures
        r == is_public_path_spec(path@),
{
    str_eq(path, "/api/login") || str_eq(path, "/") || starts_with(path, "/admin")
}

/// Whether a request may pass: its path is public, or it carries a
/// non-empty token that an account holds.
pub fn authorize(accounts: &AccountService, path: &str, token: String) -> (r: bool)
    ensures
        r == (is_public_path_spec(path@) || (token@.len() > 0 && any_matches(
            accounts@.rows,
            AccountKey::Token(token),
        ))),
{
    if is_public_path(path) {
        return true;
    }
    if token.as_str().unicode_len() == 0 {
        return false;
    }
    accounts.get_by_token(token).is_some()
}

/// Rows that a store can hold as they are: identities positive and below
/// `i32::MAX`; identities, user names and tokens unique.
pub open spec fn account_rows_ok(rows: Seq<AccountView>) -> bool {
    &&& forall|a: int| 0 <= a < rows.len() ==> 0 < #[trigger] rows[a].uid < i32::MAX
    &&& forall|a: int, b: int|
        0 <= a < b < rows.len() ==> {
            &&& #[trigger] rows[a].uid != #[trigger] rows[b].uid
            &&& rows[a].username != rows[b].username
            &&& rows[a].token != rows[b].token
        }
}

impl AccountService {
    /// A store holding `rows` as they are, where identities are positive and
    /// below `i32::MAX` and identities, user names and tokens are unique;
    /// `None` otherwise. The next insert assigns the identity after the
    /// largest one.
    pub fn from_rows(rows: Vec<Account>) -> (r: Option<AccountService>)
        ensures
            r is Some <==> account_rows_ok(account_views(rows@)),
            r matches Some(s) ==> accounts_wf(s@) && s@.rows == account_views(rows@),
    {
        let ghost v = account_views(rows@);
        let mut max_uid: i32 = 0;
        let mut i: usize = 0;
        while i < rows.len()
            invariant
                i <= rows.len(),
                v == account_views(rows@),
                0 <= max_uid < i32::MAX,
                forall|a: int| 0 <= a < i ==> 0 < #[trigger] v[a].uid <= max_uid,
                forall|a: int, b: int|
                    0 <= a < b < i ==> {
                        &&& #[trigger] v[a].uid != #[trigger] v[b].uid
                        &&& v[a].username != v[b].username
                        &&& v[a].token != v[b].token
                    },
            decreases rows.len() - i,
        {
            let u = rows[i].uid;
            assert(v[i as int] == rows[i as int]@);
            if u <= 0 || u == i32::MAX {
                assert(!(0 < v[i as int].uid < i32::MAX));
                return None;
            }
            let mut j: usize = 0;
            while j < i
                invariant
                    i < rows.len(),
                    u == rows[i as int].uid,
                    v == account_views(rows@),
                    j <= i,
                    forall|a: int|
                        0 <= a < j ==> {
                            &&& (#[trigger] v[a]).uid != v[i as int].uid
                            &&& v[a].username != v[i as int].username
                            &&& v[a].token != v[i as int].token
                        },
                decreases i - j,
            {
                if rows[j].uid == u || str_eq(rows[j].username.as_str(), rows[i].username.as_str())
                    || str_eq(rows[j].token.as_str(), rows[i].token.as_str()) {
                    assert(v[j as int] == rows[j as int]@ && v[i as int] == rows[i as int]@);
                    assert(!(v[j as int].uid != v[i as int].uid && v[j as int].username
                        != v[i as int].username && v[j as int].token != v[i as int].token));
                    proof {
                        if account_rows_ok(v) {
                            let a = j as int;
                            let b = i as int;
                            assert(0 <= a < b < v.len());
                            assert(v[a].uid != v[b].uid);
                            assert(v[a].username != v[b].username);
                            assert(v[a].token != v[b].token);
                        }
                    }
                    return None;
                }
                assert(v[j as int] == rows[j as int]@ && v[i as int] == rows[i as int]@);
                j = j + 1;
            }
            if u > max_uid {
                max_uid = u;
            }
            i = i + 1;
        }
        let r = AccountService { rows, next_uid: max_uid + 1 };
        Some(r)
    }
}

} // verus!
