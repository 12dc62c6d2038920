//! Users, password records and the interface of the user store.

use vstd::prelude::*;
use vstd::string::StringSliceAdditionalSpecFns;
use vstd::utf8::{encode_utf8, valid_utf8};
use core::convert::Infallible;
use pbkdf2::password_hash::{PasswordHash, PasswordHasher, PasswordVerifier, SaltString};
use pbkdf2::Pbkdf2;
use rand_core::OsRng;
use std::string::FromUtf8Error;
use crate::serialization::{
    concat, gather, lemma_concat_push, Buf, Deserializable, Deserializer, Serializable,
};

verus! {

/// The error of the `password-hash` crate; it is carried through unread.
#[verifier::external_type_specification]
#[verifier::external_body]
pub struct ExPasswordHashError(pbkdf2::password_hash::Error);

/// Whether PBKDF2 verification of `password` against the PHC string `hash`
/// succeeds. A string that is no PHC string accepts nothing.
pub uninterp spec fn pbkdf2_accepts(hash: Seq<char>, password: Seq<u8>) -> bool;

/// `Pbkdf2::hash_password` with a salt from `SaltString::generate`, as a PHC
/// string. The salt is random, so the string differs from call to call; it
/// always accepts the password it was made from. The call does not return
/// where the operating system has no random source to offer.
#[verifier::external_body]
fn hash_password(password: &[u8]) -> (hash: String)
    ensures
        pbkdf2_accepts(hash@, password@),
{
    let salt = SaltString::generate(&mut OsRng);
    Pbkdf2.hash_password(password, &salt).unwrap().to_string()
}

/// `Pbkdf2::verify_password` on the PHC string `hash`, parsed by
/// `PasswordHash::new`. A string that does not parse is an error like a
/// password that does not match.
#[verifier::external_body]
fn verify_password(hash: &str, password: &[u8]) -> (r: Result<(), pbkdf2::password_hash::Error>)
    ensures
        r is Ok <==> pbkdf2_accepts(hash@, password@),
{
    Pbkdf2.verify_password(password, &PasswordHash::new(hash)?)
}

/// Whether two byte strings are the same.
pub fn same_bytes(a: &[u8], b: &[u8]) -> (same: bool)
    ensures
        same == (a@ == b@),
{
    if a.len() != b.len() {
        return false;
    }
    let mut i: usize = 0;
    while i < a.len()
        invariant
            i <= a@.len(),
            a@.len() == b@.len(),
            a@.take(i as int) == b@.take(i as int),
        decreases a@.len() - i,
    {
        if a[i] != b[i] {
            return false;
        }
        i = i + 1;
        assert(a@.take(i as int) =~= a@.take(i - 1).push(a@[i - 1]));
        assert(b@.take(i as int) =~= b@.take(i - 1).push(b@[i - 1]));
    }
    assert(a@.take(i as int) =~= a@);
    assert(b@.take(i as int) =~= b@);
    true
}

/// Whether two strings are the same.
pub fn same_text(a: &str, b: &str) -> (same: bool)
    ensures
        same == (a@ == b@),
{
    let same = same_bytes(a.as_bytes(), b.as_bytes());
    proof {
        vstd::utf8::encode_utf8_decode_utf8(a@);
        vstd::utf8::encode_utf8_decode_utf8(b@);
    }
    same
}

/// An identity, denoted by its name. Two users are the same when their names
/// are.
#[derive(Debug, Clone, PartialEq, Eq, Hash)]
pub struct User {
    name: String,
}

impl View for User {
    type V = Seq<char>;

    /// The name.
    closed spec fn view(&self) -> Seq<char> {
        self.name@
    }
}

impl User {
    pub fn new(name: String) -> (user: Self)
        ensures
            user@ == name@,
    {
        Self { name }
    }

    /// The name as UTF-8.
    pub fn into_bytes(self) -> (bytes: Vec<u8>)
        ensures
            bytes@ == encode_utf8(self@),
    {
        self.name.into_bytes()
    }

    /// The name as UTF-8.
    pub fn as_bytes(&self) -> (bytes: &[u8])
        ensures
            bytes@ == encode_utf8(self@),
    {
        self.name.as_str().as_bytes()
    }

    /// The name.
    pub fn name(&self) -> (name: &str)
        ensures
            name@ == self@,
    {
        self.name.as_str()
    }

    /// Whether `other` is this user.
    pub fn is(&self, other: &User) -> (same: bool)
        ensures
            same == (self@ == other@),
    {
        same_text(self.name(), other.name())
    }

    /// A copy of this user.
    pub fn duplicate(&self) -> (copy: Self)
        ensures
            copy@ == self@,
    {
        Self { name: self.name.clone() }
    }
}

impl Serializable for User {
    type Serializer<'s> = Buf<'s>;

    open spec fn encoding(&self) -> Seq<u8> {
        encode_utf8(self@)
    }

    fn serializer(&self) -> (s: Self::Serializer<'_>) {
        Buf::new(self.as_bytes())
    }
}

/// The decoder of a user: it gathers the bytes of the name and finishes when
/// they are well-formed UTF-8.
pub struct UserDeserializer {
    buf: Vec<u8>,
}

impl UserDeserializer {
    /// The bytes gathered so far.
    pub closed spec fn gathered(&self) -> Seq<u8> {
        self.buf@
    }

    pub fn new() -> (d: Self)
        ensures
            d.gathered() == Seq::<u8>::empty(),
    {
        Self { buf: Vec::new() }
    }
}

impl Deserializer<User> for UserDeserializer {
    type UpdateError = Infallible;

    type FinalizeError = FromUtf8Error;

    open spec fn reached(&self, history: Seq<Seq<u8>>) -> bool {
        self.gathered() == concat(history)
    }

    open spec fn accepts(history: Seq<Seq<u8>>, chunk: Seq<u8>) -> bool {
        true
    }

    open spec fn finishes(history: Seq<Seq<u8>>) -> bool {
        valid_utf8(concat(history))
    }

    open spec fn decodes(history: Seq<Seq<u8>>, value: &User) -> bool {
        encode_utf8(value@) == concat(history)
    }

    fn update(&mut self, slice: &[u8]) -> (r: Result<(), Self::UpdateError>)
        ensures
            r is Ok,
            final(self).gathered() == old(self).gathered() + slice@,
    {
        gather(&mut self.buf, slice);
        proof {
            assert forall|history: Seq<Seq<u8>>| #[trigger]
                old(self).reached(history) implies self.reached(history.push(slice@)) by {
                lemma_concat_push(history, slice@);
            }
        }
        Ok(())
    }

    fn finalize(self) -> (r: Result<User, Self::FinalizeError>)
        ensures
            r is Ok <==> valid_utf8(self.gathered()),
            r matches Ok(user) ==> encode_utf8(user@) == self.gathered(),
    {
        match String::from_utf8(self.buf) {
            Ok(name) => Ok(User::new(name)),
            Err(e) => Err(e),
        }
    }
}

impl Deserializable for User {
    type Deserializer = UserDeserializer;

    fn deserializer() -> (d: Self::Deserializer) {
        UserDeserializer::new()
    }
}

/// A candidate secret did not verify against a password record.
#[derive(Debug, Clone, Copy, PartialEq, Eq, Structural)]
pub struct Rejected;

/// A password record: the salted hash of a secret, as a PHC string.
pub struct Password {
    hash: String,
}

impl View for Password {
    type V = Seq<char>;

    /// The hash string.
    closed spec fn view(&self) -> Seq<char> {
        self.hash@
    }
}

impl Password {
    /// Hashes a secret with a fresh salt. The record verifies against that
    /// secret.
    pub fn new(block: &[u8]) -> (password: Self)
        ensures
            pbkdf2_accepts(password@, block@),
    {
        Self { hash: hash_password(block) }
    }

    /// Verifies a candidate secret against this record.
    pub fn verify(&self, password: &[u8]) -> (r: Result<(), Rejected>)
        ensures
            r is Ok <==> pbkdf2_accepts(self@, password@),
    {
        match verify_password(self.hash.as_str(), password) {
            Ok(()) => Ok(()),
            Err(_) => Err(Rejected),
        }
    }

    /// The record that holds `hash`, as it was stored.
    pub fn from(hash: String) -> (password: Self)
        ensures
            password@ == hash@,
    {
        Self { hash }
    }

    /// The hash string as UTF-8.
    pub fn into_bytes(self) -> (bytes: Vec<u8>)
        ensures
            bytes@ == encode_utf8(self@),
    {
        self.hash.into_bytes()
    }

    /// The hash string as UTF-8.
    pub fn as_bytes(&self) -> (bytes: &[u8])
        ensures
            bytes@ == encode_utf8(self@),
    {
        self.hash.as_str().as_bytes()
    }
}

/// The user store that the server consumes. It is described by the record
/// it holds for each name: the hash string of that user's password.
pub trait DataBase {
    /// The hash string stored for `name`, if there is such a user.
    spec fn record(&self, name: Seq<char>) -> Option<Seq<char>>;

    /// Returns the user exactly if there is one of that name and the password
    /// verifies against the stored record. The store is left as it was.
    fn log_in(&mut self, name: String, password: &[u8]) -> (user: Option<User>)
        ensures
            user is Some <==> (old(self).record(name@) matches Some(hash) && pbkdf2_accepts(
                hash,
                password@,
            )),
            user matches Some(u) ==> u@ == name@,
            forall|n: Seq<char>| final(self).record(n) == old(self).record(n),
    ;

    /// Stores a new user with this record and returns it, exactly if the name
    /// was free. Otherwise the store is left as it was.
    fn create_user(&mut self, name: String, password: Password) -> (user: Option<User>)
        ensures
            user is Some <==> old(self).record(name@) is None,
            user matches Some(u) ==> u@ == name@,
            forall|n: Seq<char>|
                final(self).record(n) == if user is Some && n == name@ {
                    Some(password@)
                } else {
                    old(self).record(n)
                },
    ;

    /// Returns the user of that name, if there is one. The store is left as
    /// it was.
    fn user_from_username(&mut self, name: &str) -> (user: Option<User>)
        ensures
            user is Some <==> old(self).record(name@) is Some,
            user matches Some(u) ==> u@ == name@,
            forall|n: Seq<char>| final(self).record(n) == old(self).record(n),
    ;
}

/// A request to the database worker.
#[allow(inconsistent_fields)]
pub enum DatabaseEvent {
    LogIn { name: String, password: Vec<u8> },
    CreateUser { name: String, password: Password },
    GetUser { name: String },
}

/// Why a request to the database worker gave no user.
#[derive(Debug)]
pub enum DatabaseError {
    /// No such user, or the password did not verify.
    LogIn,
    /// The name is taken.
    CreateUser,
    /// No such user.
    GetUser,
    /// The user was found, but whoever asked no longer waits for the answer.
    Channel(User),
}

impl DatabaseEvent {
    /// The name that the request is about.
    pub open spec fn subject(&self) -> Seq<char> {
        match self {
            DatabaseEvent::LogIn { name, .. } => name@,
            DatabaseEvent::CreateUser { name, .. } => name@,
            DatabaseEvent::GetUser { name } => name@,
        }
    }

    /// The record that the request adds to the store where it is granted.
    pub open spec fn stores(&self) -> Option<Seq<char>> {
        match self {
            DatabaseEvent::CreateUser { password, .. } => Some(password@),
            _ => None,
        }
    }

    /// Whether the request gives a user on a store that holds `record` for
    /// the name it is about.
    pub open spec fn granted(&self, record: Option<Seq<char>>) -> bool {
        match self {
            DatabaseEvent::LogIn { password, .. } => record matches Some(hash) && pbkdf2_accepts(
                hash,
                password@,
            ),
            DatabaseEvent::CreateUser { .. } => record is None,
            DatabaseEvent::GetUser { .. } => record is Some,
        }
    }

    /// Runs the request on the store. The answer is the user that the
    /// request names, or the error that belongs to the kind of request. Only
    /// a granted `CreateUser` changes the store: it adds the new record.
    pub fn execute<DB: DataBase>(self, db: &mut DB) -> (r: Result<User, DatabaseError>)
        ensures
            r is Ok <==> self.granted(old(db).record(self.subject())),
            r matches Ok(user) ==> user@ == self.subject(),
            r matches Err(e) ==> match self {
                DatabaseEvent::LogIn { .. } => e is LogIn,
                DatabaseEvent::CreateUser { .. } => e is CreateUser,
                DatabaseEvent::GetUser { .. } => e is GetUser,
            },
            forall|n: Seq<char>|
                final(db).record(n) == if r is Ok && n == self.subject() && self.stores() is Some {
                    self.stores()
                } else {
                    old(db).record(n)
                },
    {
        match self {
            DatabaseEvent::LogIn { name, password } => {
                match db.log_in(name, password.as_slice()) {
                    Some(user) => Ok(user),
                    None => Err(DatabaseError::LogIn),
                }
            },
            DatabaseEvent::CreateUser { name, password } => {
                match db.create_user(name, password) {
                    Some(user) => Ok(user),
                    None => Err(DatabaseError::CreateUser),
                }
            },
            DatabaseEvent::GetUser { name } => {
                match db.user_from_username(name.as_str()) {
                    Some(user) => Ok(user),
                    None => Err(DatabaseError::GetUser),
                }
            },
        }
    }
}

/// A user and the record of that user's password.
pub struct Account {
    user: User,
    password: Password,
}

/// The hash string that `accounts` holds for `name`: that of the latest
/// account of that name.
pub closed spec fn lookup(accounts: Seq<Account>, name: Seq<char>) -> Option<Seq<char>>
    decreases accounts.len(),
{
    if accounts.len() == 0 {
        None
    } else if accounts.last().user@ == name {
        Some(accounts.last().password@)
    } else {
        lookup(accounts.drop_last(), name)
    }
}

/// A user store that lives in memory.
pub struct MemoryStore {
    accounts: Vec<Account>,
}

impl MemoryStore {
    /// An empty store.
    pub fn new() -> (store: Self)
        ensures
            forall|n: Seq<char>| store.record(n) is None,
    {
        Self { accounts: Vec::new() }
    }

    /// The number of users.
    pub closed spec fn count(&self) -> nat {
        self.accounts@.len()
    }

    /// The number of users.
    pub fn len(&self) -> (n: usize)
        ensures
            n == self.count(),
    {
        self.accounts.len()
    }

    /// The name and the hash string of the user at `index`, in the order in
    /// which users were created.
    pub closed spec fn entry(&self, index: int) -> (Seq<char>, Seq<char>) {
        (self.accounts@[index].user@, self.accounts@[index].password@)
    }

    /// The user at `index`, in the order in which users were created, with
    /// the stored record.
    pub fn account(&self, index: usize) -> (account: (&User, &Password))
        requires
            index < self.count(),
        ensures
            (account.0@, account.1@) == self.entry(index as int),
            self.record(account.0@) is Some,
    {
        proof {
            lemma_lookup_member(self.accounts@, index as int);
        }
        (&self.accounts[index].user, &self.accounts[index].password)
    }

    /// The place of the latest account of that name.
    fn position(&self, name: &str) -> (at: Option<usize>)
        ensures
            match at {
                Some(i) => i < self.accounts@.len() && self.accounts@[i as int].user@ == name@
                    && lookup(self.accounts@, name@) == Some(self.accounts@[i as int].password@),
                None => lookup(self.accounts@, name@) is None,
            },
    {
        let mut i: usize = self.accounts.len();
        assert(self.accounts@.take(i as int) =~= self.accounts@);
        while i > 0
            invariant
                i <= self.accounts@.len(),
                lookup(self.accounts@, name@) == lookup(self.accounts@.take(i as int), name@),
            decreases i,
        {
            let ghost front = self.accounts@.take(i as int);
            assert(front.last() == self.accounts@[i - 1]);
            assert(front.drop_last() =~= self.accounts@.take(i - 1));
            if same_text(self.accounts[i - 1].user.name(), name) {
                return Some(i - 1);
            }
            i = i - 1;
        }
        assert(self.accounts@.take(0).len() == 0);
        None
    }
}

/// Every account of a store is found under its name.
proof fn lemma_lookup_member(accounts: Seq<Account>, index: int)
    requires
        0 <= index < accounts.len(),
    ensures
        lookup(accounts, accounts[index].user@) is Some,
    decreases accounts.len(),
{
    if accounts.last().user@ != accounts[index].user@ {
        lemma_lookup_member(accounts.drop_last(), index);
    }
}

impl DataBase for MemoryStore {
    closed spec fn record(&self, name: Seq<char>) -> Option<Seq<char>> {
        lookup(self.accounts@, name)
    }

    fn log_in(&mut self, name: String, password: &[u8]) -> (user: Option<User>)
        ensures
            *final(self) == *old(self),
    {
        match self.position(name.as_str()) {
            None => None,
            Some(i) => {
                if self.accounts[i].password.verify(password).is_ok() {
                    Some(User::new(name))
                } else {
                    None
                }
            },
        }
    }

    fn create_user(&mut self, name: String, password: Password) -> (user: Option<User>)
        ensures
            forall|i: int| 0 <= i < old(self).count() ==> final(self).entry(i) == old(self).entry(i),
            user is None ==> final(self).count() == old(self).count(),
            user is Some ==> final(self).count() == old(self).count() + 1 && final(self).entry(
                old(self).count() as int,
            ) == (name@, password@),
    {
        match self.position(name.as_str()) {
            Some(_) => None,
            None => {
                let ghost before = self.accounts@;
                let user = User::new(name);
                let account = Account { user: user.duplicate(), password };
                self.accounts.push(account);
                proof {
                    assert(self.accounts@.drop_last() =~= before);
                }
                Some(user)
            },
        }
    }

    fn user_from_username(&mut self, name: &str) -> (user: Option<User>)
        ensures
            *final(self) == *old(self),
    {
        match self.position(name) {
            None => None,
            Some(i) => Some(self.accounts[i].user.duplicate()),
        }
    }
}

} // verus!
