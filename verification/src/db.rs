//! The vault store: the single master-password record and the table of
//! encrypted entries, with provisioning, verification, entry CRUD and
//! search.
//!
//! The store holds its records in memory; a surrounding application
//! loads and saves them.  Every operation on the records is verified;
//! fresh identifiers and timestamps come from two trusted wrappers.

use vstd::prelude::*;

use crate::crypto::{
    b64_decode, b64_encode, b64_decoding, derived_key, password_len_ok, password_verifies,
    phc_parses, spec_decrypt, CryptoError, CryptoService, EncryptedData,
};
use crate::text::{contains_ci, is_rfc3339_like, lex_leq, rfc3339_shape, sort_indices_by_title, str_contains_ci, str_eq};

verus! {

/// The error kinds the store can report.
#[derive(Clone, Copy, Debug, PartialEq, Eq, Structural)]
pub enum DatabaseError {
    /// A master password is already set; the vault supports exactly one.
    AlreadyProvisioned,
    /// No master password has been set yet.
    NotProvisioned,
    /// The master password offered does not match the stored hash.
    InvalidCredentials,
    /// No entry carries the given identifier.
    EntryNotFound,
    /// A stored text that should be base64 is malformed.
    EncodingError,
    /// A stored timestamp does not look like a date and time.
    TimestampParseError,
    /// The store's records are inconsistent (a duplicated identifier).
    StorageError,
    /// A cryptographic operation failed; the kind says how.
    Crypto(CryptoError),
}

/// The single master-password record: the self-describing hash the
/// password is verified against, the vault's one key-derivation salt
/// (16 bytes, base64), and the moment of provisioning.
#[derive(Debug)]
pub struct MasterPassword {
    pub password_hash: String,
    pub salt: String,
    pub created_at: String,
}

/// A decrypted entry, as handed to callers.
#[derive(Debug)]
pub struct PasswordEntry {
    pub id: String,
    pub title: String,
    pub username: String,
    pub password: String,
    pub url: Option<String>,
    pub notes: Option<String>,
    pub category: Option<String>,
    pub created_at: String,
    pub updated_at: String,
}

/// An entry as the store holds it: title, category and timestamps in
/// the clear, each sensitive field encrypted on its own under its own
/// nonce.
#[derive(Debug)]
pub struct EncryptedPasswordEntry {
    pub id: String,
    pub title: String,
    pub username_encrypted: EncryptedData,
    pub password_encrypted: EncryptedData,
    pub url_encrypted: Option<EncryptedData>,
    pub notes_encrypted: Option<EncryptedData>,
    pub category: Option<String>,
    pub created_at: String,
    pub updated_at: String,
}

/// The fields of a new entry.
#[derive(Debug)]
pub struct CreatePasswordEntry {
    pub title: String,
    pub username: String,
    pub password: String,
    pub url: Option<String>,
    pub notes: Option<String>,
    pub category: Option<String>,
}

/// A partial update: only the fields that are `Some` change.
#[derive(Debug)]
pub struct UpdatePasswordEntry {
    pub title: Option<String>,
    pub username: Option<String>,
    pub password: Option<String>,
    pub url: Option<String>,
    pub notes: Option<String>,
    pub category: Option<String>,
}

/// A stored salt text is well-formed when it decodes to 16 bytes.
pub open spec fn salt_wf(salt_text: Seq<char>) -> bool {
    match b64_decoding(salt_text) {
        Option::Some(b) => b.len() == 16,
        Option::None => false,
    }
}

/// The byte string a well-formed stored salt decodes to.
pub open spec fn salt_bytes(salt_text: Seq<char>) -> Seq<u8> {
    match b64_decoding(salt_text) {
        Option::Some(b) => b,
        Option::None => Seq::empty(),
    }
}

/// Some entry of the sequence carries the identifier.
pub open spec fn contains_entry_id(entries: Seq<EncryptedPasswordEntry>, id: Seq<char>) -> bool {
    exists|i: int| 0 <= i < entries.len() && #[trigger] entries[i].id@ == id
}

/// The position of the entry carrying the identifier (meaningful under
/// the store's uniqueness invariant).
pub open spec fn entry_index(entries: Seq<EncryptedPasswordEntry>, id: Seq<char>) -> int {
    choose|i: int| 0 <= i < entries.len() && #[trigger] entries[i].id@ == id
}

/// Every sensitive field of the entry decrypts under the key.
pub open spec fn entry_decrypts(e: EncryptedPasswordEntry, key: Seq<u8>) -> bool {
    &&& spec_decrypt(e.username_encrypted, key) is Ok
    &&& spec_decrypt(e.password_encrypted, key) is Ok
    &&& (e.url_encrypted matches Option::Some(f) ==> spec_decrypt(f, key) is Ok)
    &&& (e.notes_encrypted matches Option::Some(f) ==> spec_decrypt(f, key) is Ok)
}

/// The error decrypting the entry reports: the first failing field in
/// the order username, password, url, notes.
pub open spec fn entry_decrypt_error(e: EncryptedPasswordEntry, key: Seq<u8>) -> CryptoError {
    if spec_decrypt(e.username_encrypted, key) is Err {
        spec_decrypt(e.username_encrypted, key)->Err_0
    } else if spec_decrypt(e.password_encrypted, key) is Err {
        spec_decrypt(e.password_encrypted, key)->Err_0
    } else if e.url_encrypted matches Option::Some(f) && spec_decrypt(f, key) is Err {
        spec_decrypt(e.url_encrypted->0, key)->Err_0
    } else {
        spec_decrypt(e.notes_encrypted->0, key)->Err_0
    }
}

/// `p` is the decryption of `e` under `key`: same identifier, title,
/// category and timestamps, each sensitive field opened.
pub open spec fn decrypts_to(
    e: EncryptedPasswordEntry,
    key: Seq<u8>,
    p: PasswordEntry,
) -> bool {
    &&& p.id@ == e.id@
    &&& p.title@ == e.title@
    &&& spec_decrypt(e.username_encrypted, key) == Result::<_, CryptoError>::Ok(p.username@)
    &&& spec_decrypt(e.password_encrypted, key) == Result::<_, CryptoError>::Ok(p.password@)
    &&& match (e.url_encrypted, p.url) {
        (Option::Some(f), Option::Some(u)) => spec_decrypt(f, key) == Result::<
            _,
            CryptoError,
        >::Ok(u@),
        (Option::None, Option::None) => true,
        _ => false,
    }
    &&& match (e.notes_encrypted, p.notes) {
        (Option::Some(f), Option::Some(u)) => spec_decrypt(f, key) == Result::<
            _,
            CryptoError,
        >::Ok(u@),
        (Option::None, Option::None) => true,
        _ => false,
    }
    &&& p.category.deep_view() == e.category.deep_view()
    &&& p.created_at@ == e.created_at@
    &&& p.updated_at@ == e.updated_at@
}

/// The vault's records: at most one master password, and the encrypted
/// entries, each under a distinct identifier.
#[derive(Debug)]
pub struct Database {
    pub master: Option<MasterPassword>,
    pub entries: Vec<EncryptedPasswordEntry>,
}

impl Database {
    /// Well-formedness: entry identifiers are pairwise distinct.
    pub open spec fn wf(self) -> bool {
        ids_distinct(self.entries@)
    }

    /// A fresh, empty, unprovisioned store.
    pub fn new() -> (db: Database)
        ensures
            db.master is None,
            db.entries@.len() == 0,
            db.wf(),
    {
        Database { master: None, entries: Vec::new() }
    }

    /// Whether a master password has been provisioned.
    pub fn has_master_password(&self) -> (r: bool)
        ensures
            r == (self.master is Some),
    {
        self.master.is_some()
    }

    /// Provision the master password: exactly once per vault.  Fails
    /// with `AlreadyProvisioned` if a record exists; otherwise draws a
    /// fresh 16-byte salt, hashes the password, and stores hash, salt
    /// and timestamp.  The stored hash verifies the password it was
    /// made from.
    pub fn set_master_password(&mut self, password: &str) -> (r: Result<(), DatabaseError>)
        requires
            password_len_ok(password@),
        ensures
            old(self).master is None <==> r is Ok,
            old(self).master is Some ==> r == Result::<(), DatabaseError>::Err(
                DatabaseError::AlreadyProvisioned,
            ) && *final(self) == *old(self),
            r matches Err(e) ==> *final(self) == *old(self) && e
                == DatabaseError::AlreadyProvisioned,
            r is Ok ==> old(self).master is None && (final(self).master matches Option::Some(m)
                && phc_parses(m.password_hash@) && password_verifies(password@, m.password_hash@)
                && salt_wf(m.salt@)),
            final(self).entries@ == old(self).entries@,
            old(self).wf() ==> final(self).wf(),
    {
        if self.master.is_some() {
            return Err(DatabaseError::AlreadyProvisioned);
        }
        let salt = CryptoService::generate_salt();
        let password_hash = match CryptoService::hash_password(password) {
            Ok(h) => h,
            Err(e) => {
                return Err(DatabaseError::Crypto(e));
            },
        };
        let salt_b64 = b64_encode(salt.as_slice());
        let created_at = now_rfc3339();
        self.master = Some(MasterPassword { password_hash, salt: salt_b64, created_at });
        Ok(())
    }

    /// Verify the master password and derive the session key.  Fails
    /// with `NotProvisioned` where no record exists, with
    /// `InvalidCredentials` where the hash check says no, and with
    /// `EncodingError` where the stored salt is not 16 bytes of
    /// base64; on a match it derives the vault's one key from the
    /// stored salt, so the same password always rehydrates the same
    /// key.
    pub fn verify_master_password(&self, password: &str) -> (r: Result<[u8; 32], DatabaseError>)
        requires
            password_len_ok(password@),
        ensures
            self.master is None <==> r == Result::<[u8; 32], DatabaseError>::Err(
                DatabaseError::NotProvisioned,
            ),
            self.master matches Option::Some(m) ==> {
                &&& !phc_parses(m.password_hash@) <==> r == Result::<[u8; 32], DatabaseError>::Err(
                    DatabaseError::Crypto(CryptoError::HashingError),
                )
                &&& (phc_parses(m.password_hash@) && !password_verifies(
                    password@,
                    m.password_hash@,
                )) <==> r == Result::<[u8; 32], DatabaseError>::Err(
                    DatabaseError::InvalidCredentials,
                )
                &&& (phc_parses(m.password_hash@) && password_verifies(
                    password@,
                    m.password_hash@,
                ) && !salt_wf(m.salt@)) <==> r == Result::<[u8; 32], DatabaseError>::Err(
                    DatabaseError::EncodingError,
                )
                &&& (phc_parses(m.password_hash@) && password_verifies(
                    password@,
                    m.password_hash@,
                ) && salt_wf(m.salt@)) <==> (r matches Ok(k) && k@ == derived_key(
                    password@,
                    salt_bytes(m.salt@),
                ))
            },
    {
        match &self.master {
            None => Err(DatabaseError::NotProvisioned),
            Some(m) => {
                let verified = match CryptoService::verify_password(
                    password,
                    m.password_hash.as_str(),
                ) {
                    Ok(b) => b,
                    Err(e) => {
                        return Err(DatabaseError::Crypto(e));
                    },
                };
                if !verified {
                    return Err(DatabaseError::InvalidCredentials);
                }
                let salt = match b64_decode(m.salt.as_str()) {
                    Ok(b) => b,
                    Err(_) => {
                        return Err(DatabaseError::EncodingError);
                    },
                };
                if salt.len() != 16 {
                    return Err(DatabaseError::EncodingError);
                }
                match CryptoService::derive_key_from_password(password, salt.as_slice()) {
                    Ok(k) => Ok(k),
                    Err(e) => Err(DatabaseError::Crypto(e)),
                }
            },
        }
    }
}

/// Two encrypted fields hold the same texts.
pub open spec fn enc_eq(a: EncryptedData, b: EncryptedData) -> bool {
    a.ciphertext@ == b.ciphertext@ && a.nonce@ == b.nonce@
}

/// Two optional encrypted fields hold the same texts.
pub open spec fn opt_enc_eq(a: Option<EncryptedData>, b: Option<EncryptedData>) -> bool {
    match (a, b) {
        (Option::Some(x), Option::Some(y)) => enc_eq(x, y),
        (Option::None, Option::None) => true,
        _ => false,
    }
}

fn clone_encrypted(e: &EncryptedData) -> (r: EncryptedData)
    ensures
        enc_eq(r, *e),
{
    EncryptedData { ciphertext: e.ciphertext.clone(), nonce: e.nonce.clone() }
}

fn clone_opt_encrypted(o: &Option<EncryptedData>) -> (r: Option<EncryptedData>)
    ensures
        opt_enc_eq(r, *o),
{
    match o {
        Some(e) => Some(clone_encrypted(e)),
        None => None,
    }
}

fn clone_opt_string(o: &Option<String>) -> (r: Option<String>)
    ensures
        r.deep_view() == o.deep_view(),
{
    match o {
        Some(s) => Some(s.clone()),
        None => None,
    }
}

/// The entry `e` holds exactly what a fresh entry made from `input`
/// under `key`, identifier `id` and creation moment `now` must hold.
pub open spec fn created(
    input: CreatePasswordEntry,
    key: Seq<u8>,
    id: Seq<char>,
    now: Seq<char>,
    e: EncryptedPasswordEntry,
) -> bool {
    &&& e.id@ == id
    &&& e.title@ == input.title@
    &&& spec_decrypt(e.username_encrypted, key) == Result::<_, CryptoError>::Ok(input.username@)
    &&& spec_decrypt(e.password_encrypted, key) == Result::<_, CryptoError>::Ok(input.password@)
    &&& match (input.url, e.url_encrypted) {
        (Option::Some(u), Option::Some(f)) => spec_decrypt(f, key) == Result::<
            _,
            CryptoError,
        >::Ok(u@),
        (Option::None, Option::None) => true,
        _ => false,
    }
    &&& match (input.notes, e.notes_encrypted) {
        (Option::Some(u), Option::Some(f)) => spec_decrypt(f, key) == Result::<
            _,
            CryptoError,
        >::Ok(u@),
        (Option::None, Option::None) => true,
        _ => false,
    }
    &&& e.category.deep_view() == input.category.deep_view()
    &&& e.created_at@ == now
    &&& e.updated_at@ == now
}

/// Decrypt every sensitive field of a stored entry.  Succeeds exactly
/// where all fields decrypt; the error is the first failing field's,
/// in the order username, password, url, notes.
pub fn decrypt_entry(entry: &EncryptedPasswordEntry, encryption_key: &[u8; 32]) -> (r: Result<
    PasswordEntry,
    DatabaseError,
>)
    ensures
        r is Ok <==> entry_decrypts(*entry, encryption_key@),
        r matches Ok(p) ==> decrypts_to(*entry, encryption_key@, p),
        r matches Err(e) ==> e == DatabaseError::Crypto(
            entry_decrypt_error(*entry, encryption_key@),
        ),
{
    let username = match CryptoService::decrypt(&entry.username_encrypted, encryption_key) {
        Ok(s) => s,
        Err(e) => {
            return Err(DatabaseError::Crypto(e));
        },
    };
    let password = match CryptoService::decrypt(&entry.password_encrypted, encryption_key) {
        Ok(s) => s,
        Err(e) => {
            return Err(DatabaseError::Crypto(e));
        },
    };
    let url = match &entry.url_encrypted {
        Some(f) => match CryptoService::decrypt(f, encryption_key) {
            Ok(s) => Some(s),
            Err(e) => {
                return Err(DatabaseError::Crypto(e));
            },
        },
        None => None,
    };
    let notes = match &entry.notes_encrypted {
        Some(f) => match CryptoService::decrypt(f, encryption_key) {
            Ok(s) => Some(s),
            Err(e) => {
                return Err(DatabaseError::Crypto(e));
            },
        },
        None => None,
    };
    Ok(
        PasswordEntry {
            id: entry.id.clone(),
            title: entry.title.clone(),
            username,
            password,
            url,
            notes,
            category: clone_opt_string(&entry.category),
            created_at: entry.created_at.clone(),
            updated_at: entry.updated_at.clone(),
        },
    )
}

fn find_entry_index(entries: &Vec<EncryptedPasswordEntry>, id: &str) -> (r: Option<usize>)
    ensures
        r matches Some(i) ==> i < entries@.len() && entries@[i as int].id@ == id@,
        r is None <==> !contains_entry_id(entries@, id@),
{
    let n = entries.len();
    let mut i: usize = 0;
    while i < n
        invariant
            n == entries@.len(),
            0 <= i <= n,
            forall|k: int| 0 <= k < i ==> #[trigger] entries@[k].id@ != id@,
        decreases n - i,
    {
        if str_eq(entries[i].id.as_str(), id) {
            return Some(i);
        }
        i = i + 1;
    }
    None
}

impl Database {
    /// Create a new entry under the given identifier and creation
    /// moment: each sensitive field is encrypted on its own with a
    /// fresh nonce, title and category stay in the clear, and both
    /// timestamps are set to the given moment.  Fails with
    /// `StorageError` where the identifier is already taken.
    pub fn create_entry_at(
        &mut self,
        entry: CreatePasswordEntry,
        encryption_key: &[u8; 32],
        id: String,
        timestamp: String,
    ) -> (r: Result<(), DatabaseError>)
        ensures
            contains_entry_id(old(self).entries@, id@) <==> r == Result::<(), DatabaseError>::Err(
                DatabaseError::StorageError,
            ),
            r matches Err(e) ==> *final(self) == *old(self) && (e == DatabaseError::StorageError
                || e == DatabaseError::Crypto(CryptoError::EncryptionError)),
            r is Ok ==> final(self).entries@.len() == old(self).entries@.len() + 1 && (forall|
                j: int,
            |
                0 <= j < old(self).entries@.len() ==> final(self).entries@[j] == old(self).entries@[j]) && created(
                entry,
                encryption_key@,
                id@,
                timestamp@,
                final(self).entries@.last(),
            ),
            final(self).master == old(self).master,
            old(self).wf() ==> final(self).wf(),
    {
        if find_entry_index(&self.entries, id.as_str()).is_some() {
            return Err(DatabaseError::StorageError);
        }
        let username_encrypted = match CryptoService::encrypt(
            entry.username.as_str(),
            encryption_key,
        ) {
            Ok(f) => f,
            Err(e) => {
                return Err(DatabaseError::Crypto(e));
            },
        };
        let password_encrypted = match CryptoService::encrypt(
            entry.password.as_str(),
            encryption_key,
        ) {
            Ok(f) => f,
            Err(e) => {
                return Err(DatabaseError::Crypto(e));
            },
        };
        let url_encrypted = match &entry.url {
            Some(u) => match CryptoService::encrypt(u.as_str(), encryption_key) {
                Ok(f) => Some(f),
                Err(e) => {
                    return Err(DatabaseError::Crypto(e));
                },
            },
            None => None,
        };
        let notes_encrypted = match &entry.notes {
            Some(u) => match CryptoService::encrypt(u.as_str(), encryption_key) {
                Ok(f) => Some(f),
                Err(e) => {
                    return Err(DatabaseError::Crypto(e));
                },
            },
            None => None,
        };
        let created_at = timestamp.clone();
        let new_entry = EncryptedPasswordEntry {
            id,
            title: entry.title,
            username_encrypted,
            password_encrypted,
            url_encrypted,
            notes_encrypted,
            category: entry.category,
            created_at,
            updated_at: timestamp,
        };
        self.entries.push(new_entry);
        Ok(())
    }

    /// Create a new entry under a fresh random identifier, timestamped
    /// with the present moment, and return the identifier.
    pub fn create_entry(
        &mut self,
        entry: CreatePasswordEntry,
        encryption_key: &[u8; 32],
    ) -> (r: Result<String, DatabaseError>)
        ensures
            r matches Err(e) ==> *final(self) == *old(self) && (e == DatabaseError::StorageError
                || e == DatabaseError::Crypto(CryptoError::EncryptionError)),
            old(self).entries@.len() == 0 ==> r != Result::<String, DatabaseError>::Err(
                DatabaseError::StorageError,
            ),
            r matches Ok(id) ==> !contains_entry_id(old(self).entries@, id@) && final(self).entries@.len() == old(self).entries@.len() + 1 && (forall|j: int|
                0 <= j < old(self).entries@.len() ==> final(self).entries@[j] == old(self).entries@[j]) && created(
                entry,
                encryption_key@,
                id@,
                final(self).entries@.last().created_at@,
                final(self).entries@.last(),
            ),
            final(self).master == old(self).master,
            old(self).wf() ==> final(self).wf(),
    {
        let id = new_entry_id();
        let timestamp = now_rfc3339();
        let id_out = id.clone();
        match self.create_entry_at(entry, encryption_key, id, timestamp) {
            Ok(()) => Ok(id_out),
            Err(e) => Err(e),
        }
    }

    /// Fetch an entry by identifier and decrypt it.  Fails with
    /// `EntryNotFound` exactly where no entry carries the identifier; a
    /// field that will not decrypt fails the whole call.
    pub fn get_entry_by_id(&self, id: &str, encryption_key: &[u8; 32]) -> (r: Result<
        PasswordEntry,
        DatabaseError,
    >)
        requires
            self.wf(),
        ensures
            !contains_entry_id(self.entries@, id@) <==> r == Result::<
                PasswordEntry,
                DatabaseError,
            >::Err(DatabaseError::EntryNotFound),
            contains_entry_id(self.entries@, id@) ==> {
                let e = self.entries@[entry_index(self.entries@, id@)];
                &&& (entry_decrypts(e, encryption_key@) ==> (r matches Ok(p) && decrypts_to(
                    e,
                    encryption_key@,
                    p,
                )))
                &&& (!entry_decrypts(e, encryption_key@) ==> r == Result::<
                    PasswordEntry,
                    DatabaseError,
                >::Err(DatabaseError::Crypto(entry_decrypt_error(e, encryption_key@))))
            },
    {
        match find_entry_index(&self.entries, id) {
            None => Err(DatabaseError::EntryNotFound),
            Some(i) => {
                proof {
                    let k = entry_index(self.entries@, id@);
                    assert(0 <= k < self.entries@.len() && self.entries@[k].id@ == id@);
                    assert(k == i);
                }
                decrypt_entry(&self.entries[i], encryption_key)
            },
        }
    }

    /// Delete the entry carrying the identifier.  Fails with
    /// `EntryNotFound` exactly where none does.  Needs no key: opaque
    /// ciphertext is deleted without decryption.
    pub fn delete_entry(&mut self, id: &str) -> (r: Result<(), DatabaseError>)
        requires
            old(self).wf(),
        ensures
            !contains_entry_id(old(self).entries@, id@) <==> r == Result::<(), DatabaseError>::Err(
                DatabaseError::EntryNotFound,
            ),
            r matches Err(e) ==> e == DatabaseError::EntryNotFound,
            r is Err ==> *final(self) == *old(self),
            r is Ok ==> final(self).entries@ == old(self).entries@.remove(
                entry_index(old(self).entries@, id@),
            ),
            final(self).master == old(self).master,
            final(self).wf(),
    {
        match find_entry_index(&self.entries, id) {
            None => Err(DatabaseError::EntryNotFound),
            Some(i) => {
                proof {
                    let k = entry_index(self.entries@, id@);
                    assert(0 <= k < self.entries@.len() && self.entries@[k].id@ == id@);
                    assert(k == i);
                }
                self.entries.remove(i);
                Ok(())
            },
        }
    }
}

/// An update that names a sensitive field, which must be re-encrypted.
pub open spec fn update_touches_secret(u: UpdatePasswordEntry) -> bool {
    ||| u.username is Some
    ||| u.password is Some
    ||| u.url is Some
    ||| u.notes is Some
}

/// An update that names no field.
pub open spec fn update_is_noop(u: UpdatePasswordEntry) -> bool {
    &&& u.title is None
    &&& u.username is None
    &&& u.password is None
    &&& u.url is None
    &&& u.notes is None
    &&& u.category is None
}

/// `e2` is `e` after the partial update `u` at moment `now`: supplied
/// fields carry the new values (sensitive ones re-encrypted under
/// `key`), unsupplied fields stand as they were, and only `updated_at`
/// moves to `now`.
pub open spec fn updated(
    e: EncryptedPasswordEntry,
    u: UpdatePasswordEntry,
    key: Seq<u8>,
    now: Seq<char>,
    e2: EncryptedPasswordEntry,
) -> bool {
    &&& e2.id@ == e.id@
    &&& e2.created_at@ == e.created_at@
    &&& e2.updated_at@ == now
    &&& match u.title {
        Option::Some(t) => e2.title@ == t@,
        Option::None => e2.title@ == e.title@,
    }
    &&& match u.username {
        Option::Some(s) => spec_decrypt(e2.username_encrypted, key) == Result::<
            _,
            CryptoError,
        >::Ok(s@),
        Option::None => enc_eq(e2.username_encrypted, e.username_encrypted),
    }
    &&& match u.password {
        Option::Some(s) => spec_decrypt(e2.password_encrypted, key) == Result::<
            _,
            CryptoError,
        >::Ok(s@),
        Option::None => enc_eq(e2.password_encrypted, e.password_encrypted),
    }
    &&& match u.url {
        Option::Some(s) => (e2.url_encrypted matches Option::Some(f) && spec_decrypt(f, key)
            == Result::<_, CryptoError>::Ok(s@)),
        Option::None => opt_enc_eq(e2.url_encrypted, e.url_encrypted),
    }
    &&& match u.notes {
        Option::Some(s) => (e2.notes_encrypted matches Option::Some(f) && spec_decrypt(f, key)
            == Result::<_, CryptoError>::Ok(s@)),
        Option::None => opt_enc_eq(e2.notes_encrypted, e.notes_encrypted),
    }
    &&& match u.category {
        Option::Some(c) => e2.category.deep_view() == Option::Some(c@),
        Option::None => e2.category.deep_view() == e.category.deep_view(),
    }
}

impl Database {
    /// Apply a partial update to the entry carrying the identifier,
    /// stamping the given moment.  Supplied sensitive fields are
    /// re-encrypted with fresh nonces; unsupplied fields are left
    /// untouched.  An empty update succeeds without touching anything;
    /// otherwise a missing identifier fails with `EntryNotFound`.
    pub fn update_entry_at(
        &mut self,
        id: &str,
        update: UpdatePasswordEntry,
        encryption_key: &[u8; 32],
        timestamp: String,
    ) -> (r: Result<(), DatabaseError>)
        requires
            old(self).wf(),
        ensures
            update_is_noop(update) ==> r is Ok && *final(self) == *old(self),
            !update_is_noop(update) ==> (!contains_entry_id(old(self).entries@, id@) <==> r
                == Result::<(), DatabaseError>::Err(DatabaseError::EntryNotFound)),
            r matches Err(e) ==> *final(self) == *old(self) && (e == DatabaseError::EntryNotFound
                || e == DatabaseError::Crypto(CryptoError::EncryptionError)),
            (contains_entry_id(old(self).entries@, id@) && !update_touches_secret(update))
                ==> r is Ok,
            (!update_is_noop(update) && r is Ok) ==> {
                let k = entry_index(old(self).entries@, id@);
                &&& contains_entry_id(old(self).entries@, id@)
                &&& final(self).entries@.len() == old(self).entries@.len()
                &&& (forall|j: int|
                    0 <= j < old(self).entries@.len() && j != k ==> final(self).entries@[j] == old(
                        self,
                    ).entries@[j])
                &&& updated(
                    old(self).entries@[k],
                    update,
                    encryption_key@,
                    timestamp@,
                    final(self).entries@[k],
                )
            },
            final(self).master == old(self).master,
            final(self).wf(),
    {
        if update.title.is_none() && update.username.is_none() && update.password.is_none()
            && update.url.is_none() && update.notes.is_none() && update.category.is_none() {
            return Ok(());
        }
        let i = match find_entry_index(&self.entries, id) {
            None => {
                return Err(DatabaseError::EntryNotFound);
            },
            Some(i) => i,
        };
        proof {
            let k = entry_index(self.entries@, id@);
            assert(0 <= k < self.entries@.len() && self.entries@[k].id@ == id@);
            assert(k == i);
        }
        let title = match &update.title {
            Some(t) => t.clone(),
            None => self.entries[i].title.clone(),
        };
        let username_encrypted = match &update.username {
            Some(s) => match CryptoService::encrypt(s.as_str(), encryption_key) {
                Ok(f) => f,
                Err(e) => {
                    return Err(DatabaseError::Crypto(e));
                },
            },
            None => clone_encrypted(&self.entries[i].username_encrypted),
        };
        let password_encrypted = match &update.password {
            Some(s) => match CryptoService::encrypt(s.as_str(), encryption_key) {
                Ok(f) => f,
                Err(e) => {
                    return Err(DatabaseError::Crypto(e));
                },
            },
            None => clone_encrypted(&self.entries[i].password_encrypted),
        };
        let url_encrypted = match &update.url {
            Some(s) => match CryptoService::encrypt(s.as_str(), encryption_key) {
                Ok(f) => Some(f),
                Err(e) => {
                    return Err(DatabaseError::Crypto(e));
                },
            },
            None => clone_opt_encrypted(&self.entries[i].url_encrypted),
        };
        let notes_encrypted = match &update.notes {
            Some(s) => match CryptoService::encrypt(s.as_str(), encryption_key) {
                Ok(f) => Some(f),
                Err(e) => {
                    return Err(DatabaseError::Crypto(e));
                },
            },
            None => clone_opt_encrypted(&self.entries[i].notes_encrypted),
        };
        let category = match &update.category {
            Some(c) => Some(c.clone()),
            None => clone_opt_string(&self.entries[i].category),
        };
        let new_entry = EncryptedPasswordEntry {
            id: self.entries[i].id.clone(),
            title,
            username_encrypted,
            password_encrypted,
            url_encrypted,
            notes_encrypted,
            category,
            created_at: self.entries[i].created_at.clone(),
            updated_at: timestamp,
        };
        self.entries.set(i, new_entry);
        Ok(())
    }

    /// Apply a partial update, stamped with the present moment.
    pub fn update_entry(
        &mut self,
        id: &str,
        update: UpdatePasswordEntry,
        encryption_key: &[u8; 32],
    ) -> (r: Result<(), DatabaseError>)
        requires
            old(self).wf(),
        ensures
            update_is_noop(update) ==> r is Ok && *final(self) == *old(self),
            !update_is_noop(update) ==> (!contains_entry_id(old(self).entries@, id@) <==> r
                == Result::<(), DatabaseError>::Err(DatabaseError::EntryNotFound)),
            r matches Err(e) ==> *final(self) == *old(self) && (e == DatabaseError::EntryNotFound
                || e == DatabaseError::Crypto(CryptoError::EncryptionError)),
            (contains_entry_id(old(self).entries@, id@) && !update_touches_secret(update))
                ==> r is Ok,
            (!update_is_noop(update) && r is Ok) ==> {
                let k = entry_index(old(self).entries@, id@);
                &&& contains_entry_id(old(self).entries@, id@)
                &&& final(self).entries@.len() == old(self).entries@.len()
                &&& (forall|j: int|
                    0 <= j < old(self).entries@.len() && j != k ==> final(self).entries@[j] == old(
                        self,
                    ).entries@[j])
                &&& updated(
                    old(self).entries@[k],
                    update,
                    encryption_key@,
                    final(self).entries@[k].updated_at@,
                    final(self).entries@[k],
                )
            },
            final(self).master == old(self).master,
            final(self).wf(),
    {
        if update.title.is_none() && update.username.is_none() && update.password.is_none()
            && update.url.is_none() && update.notes.is_none() && update.category.is_none() {
            return Ok(());
        }
        let timestamp = now_rfc3339();
        self.update_entry_at(id, update, encryption_key, timestamp)
    }
}

/// The listing is sorted by title, ascending.
pub open spec fn sorted_by_title(s: Seq<PasswordEntry>) -> bool {
    forall|a: int, b: int|
        #![trigger s[a], s[b]]
        0 <= a < b < s.len() ==> lex_leq(s[a].title@, s[b].title@)
}

/// `p` rearranges `0 .. n` exactly once each.
pub open spec fn is_index_permutation(p: Seq<int>, n: int) -> bool {
    &&& p.len() == n
    &&& (forall|i: int| 0 <= i < n ==> 0 <= #[trigger] p[i] < n)
    &&& (forall|i: int, j: int| #![trigger p[i], p[j]] 0 <= i < j < n ==> p[i] != p[j])
    &&& (forall|k: int| 0 <= k < n ==> #[trigger] p.contains(k))
}

/// `out` lists a decryption of every stored entry exactly once, in the
/// order the permutation `perm` gives.
pub open spec fn listing_of(
    entries: Seq<EncryptedPasswordEntry>,
    key: Seq<u8>,
    out: Seq<PasswordEntry>,
    perm: Seq<int>,
) -> bool {
    &&& is_index_permutation(perm, entries.len() as int)
    &&& out.len() == entries.len()
    &&& (forall|i: int| 0 <= i < out.len() ==> decrypts_to(entries[#[trigger] perm[i]], key, out[i]))
}

/// The search's match: the query occurs in the title or in the
/// category, compared up to ASCII case.
pub open spec fn entry_matches(e: EncryptedPasswordEntry, q: Seq<char>) -> bool {
    contains_ci(e.title@, q) || (e.category matches Option::Some(c) && contains_ci(c@, q))
}

/// `out` lists a decryption of every matching stored entry exactly
/// once: `sel` names the matched positions, in `out`'s order.
pub open spec fn search_listing_of(
    entries: Seq<EncryptedPasswordEntry>,
    q: Seq<char>,
    key: Seq<u8>,
    out: Seq<PasswordEntry>,
    sel: Seq<int>,
) -> bool {
    &&& sel.len() == out.len()
    &&& (forall|i: int| 0 <= i < sel.len() ==> 0 <= #[trigger] sel[i] < entries.len())
    &&& (forall|i: int, j: int| #![trigger sel[i], sel[j]] 0 <= i < j < sel.len() ==> sel[i] != sel[j])
    &&& (forall|i: int| 0 <= i < sel.len() ==> entry_matches(entries[#[trigger] sel[i]], q))
    &&& (forall|i: int| 0 <= i < sel.len() ==> decrypts_to(entries[#[trigger] sel[i]], key, out[i]))
    &&& (forall|k: int|
        0 <= k < entries.len() && entry_matches(#[trigger] entries[k], q) ==> sel.contains(k))
}

fn entry_matches_query(e: &EncryptedPasswordEntry, query: &str) -> (r: bool)
    ensures
        r == entry_matches(*e, query@),
{
    if str_contains_ci(e.title.as_str(), query) {
        return true;
    }
    match &e.category {
        Some(c) => str_contains_ci(c.as_str(), query),
        None => false,
    }
}

impl Database {
    fn titles(&self) -> (titles: Vec<String>)
        ensures
            titles@.len() == self.entries@.len(),
            forall|j: int| 0 <= j < titles@.len() ==> #[trigger] titles@[j]@ == self.entries@[j].title@,
    {
        let n = self.entries.len();
        let mut titles: Vec<String> = Vec::new();
        let mut k: usize = 0;
        while k < n
            invariant
                n == self.entries@.len(),
                0 <= k <= n,
                titles@.len() == k,
                forall|j: int| 0 <= j < k ==> #[trigger] titles@[j]@ == self.entries@[j].title@,
            decreases n - k,
        {
            titles.push(self.entries[k].title.clone());
            k = k + 1;
        }
        titles
    }

    fn decrypt_in_order(&self, idx: &Vec<usize>, encryption_key: &[u8; 32]) -> (r: Result<
        Vec<PasswordEntry>,
        DatabaseError,
    >)
        requires
            forall|j: int| 0 <= j < idx@.len() ==> #[trigger] idx@[j] < self.entries@.len(),
        ensures
            r matches Ok(v) ==> v@.len() == idx@.len() && (forall|j: int|
                0 <= j < idx@.len() ==> decrypts_to(
                    self.entries@[#[trigger] idx@[j] as int],
                    encryption_key@,
                    v@[j],
                )),
            r matches Err(e) ==> exists|j: int|
                0 <= j < idx@.len() && !entry_decrypts(
                    self.entries@[#[trigger] idx@[j] as int],
                    encryption_key@,
                ) && e == DatabaseError::Crypto(
                    entry_decrypt_error(self.entries@[idx@[j] as int], encryption_key@),
                ),
    {
        let n = idx.len();
        let mut out: Vec<PasswordEntry> = Vec::new();
        let mut c: usize = 0;
        while c < n
            invariant
                n == idx@.len(),
                forall|j: int| 0 <= j < idx@.len() ==> #[trigger] idx@[j] < self.entries@.len(),
                0 <= c <= n,
                out@.len() == c,
                forall|j: int|
                    0 <= j < c ==> decrypts_to(
                        self.entries@[#[trigger] idx@[j] as int],
                        encryption_key@,
                        out@[j],
                    ),
            decreases n - c,
        {
            let i = idx[c];
            match decrypt_entry(&self.entries[i], encryption_key) {
                Ok(p) => {
                    out.push(p);
                },
                Err(e) => {
                    return Err(e);
                },
            }
            c = c + 1;
        }
        Ok(out)
    }

    /// List every entry, decrypted, sorted by title ascending.  A
    /// single field that will not decrypt aborts the whole call: a
    /// partial list could mask a wrong key.
    pub fn get_all_entries(&self, encryption_key: &[u8; 32]) -> (r: Result<
        Vec<PasswordEntry>,
        DatabaseError,
    >)
        requires
            self.wf(),
        ensures
            r is Ok <==> (forall|i: int|
                0 <= i < self.entries@.len() ==> entry_decrypts(
                    #[trigger] self.entries@[i],
                    encryption_key@,
                )),
            r matches Ok(v) ==> sorted_by_title(v@) && (exists|perm: Seq<int>|
                listing_of(self.entries@, encryption_key@, v@, perm)),
            r matches Err(e) ==> exists|i: int|
                0 <= i < self.entries@.len() && !entry_decrypts(
                    #[trigger] self.entries@[i],
                    encryption_key@,
                ) && e == DatabaseError::Crypto(
                    entry_decrypt_error(self.entries@[i], encryption_key@),
                ),
    {
        let n = self.entries.len();
        let titles = self.titles();
        let mut idx: Vec<usize> = Vec::new();
        let mut k: usize = 0;
        while k < n
            invariant
                n == self.entries@.len(),
                0 <= k <= n,
                idx@.len() == k,
                forall|j: int| 0 <= j < k ==> #[trigger] idx@[j] == j,
            decreases n - k,
        {
            idx.push(k);
            k = k + 1;
        }
        let ghost init_idx = idx@;
        proof {
            assert forall|a: int, b: int| 0 <= a < b < init_idx.len() implies init_idx[a]
                != init_idx[b] by {}
        }
        sort_indices_by_title(&mut idx, &titles);
        let out = match self.decrypt_in_order(&idx, encryption_key) {
            Ok(v) => v,
            Err(e) => {
                return Err(e);
            },
        };
        proof {
            // every stored position appears in the sorted index list
            assert forall|i: int| 0 <= i < n implies idx@.contains(#[trigger] (i as usize)) by {
                assert(init_idx[i] == i as usize);
            }
            // so every entry decrypts, and the whole listing is owed
            assert forall|i: int| 0 <= i < n implies entry_decrypts(
                #[trigger] self.entries@[i],
                encryption_key@,
            ) by {
                let c = choose|c: int| 0 <= c < idx@.len() && idx@[c] == i as usize;
                assert(decrypts_to(self.entries@[idx@[c] as int], encryption_key@, out@[c]));
            }
            // the sorted index list is a permutation
            let perm = Seq::new(n as nat, |c: int| idx@[c] as int);
            assert forall|kk: int| 0 <= kk < n implies #[trigger] perm.contains(kk) by {
                assert(idx@.contains(kk as usize));
                let c = choose|c: int| 0 <= c < idx@.len() && idx@[c] == kk as usize;
                assert(perm[c] == kk);
            }
            assert(is_index_permutation(perm, n as int));
            assert forall|i: int| 0 <= i < out@.len() implies decrypts_to(
                self.entries@[#[trigger] perm[i]],
                encryption_key@,
                out@[i],
            ) by {}
            assert(listing_of(self.entries@, encryption_key@, out@, perm));
            // sortedness carries from the titles to the decrypted listing
            assert forall|a: int, b: int|
                #![trigger out@[a], out@[b]]
                0 <= a < b < out@.len() implies lex_leq(out@[a].title@, out@[b].title@) by {
                assert(crate::text::title_leq(idx@, titles@, a, b));
                assert(out@[a].title@ == self.entries@[idx@[a] as int].title@);
                assert(out@[b].title@ == self.entries@[idx@[b] as int].title@);
            }
        }
        Ok(out)
    }

    /// List the entries whose title or category holds the query, up to
    /// ASCII case, decrypted, sorted by title ascending.  Only the
    /// matching rows are decrypted, and any of them that will not
    /// decrypt aborts the whole call.
    pub fn search_entries(&self, query: &str, encryption_key: &[u8; 32]) -> (r: Result<
        Vec<PasswordEntry>,
        DatabaseError,
    >)
        requires
            self.wf(),
        ensures
            r is Ok <==> (forall|i: int|
                0 <= i < self.entries@.len() && entry_matches(
                    #[trigger] self.entries@[i],
                    query@,
                ) ==> entry_decrypts(self.entries@[i], encryption_key@)),
            r matches Ok(v) ==> sorted_by_title(v@) && (exists|sel: Seq<int>|
                search_listing_of(self.entries@, query@, encryption_key@, v@, sel)),
            r matches Err(e) ==> exists|i: int|
                0 <= i < self.entries@.len() && entry_matches(
                    #[trigger] self.entries@[i],
                    query@,
                ) && !entry_decrypts(self.entries@[i], encryption_key@) && e
                == DatabaseError::Crypto(
                    entry_decrypt_error(self.entries@[i], encryption_key@),
                ),
    {
        let n = self.entries.len();
        let titles = self.titles();
        let mut idx: Vec<usize> = Vec::new();
        let mut k: usize = 0;
        while k < n
            invariant
                n == self.entries@.len(),
                0 <= k <= n,
                forall|j: int| 0 <= j < idx@.len() ==> #[trigger] idx@[j] < k,
                forall|a: int, b: int|
                    #![trigger idx@[a], idx@[b]]
                    0 <= a < b < idx@.len() ==> idx@[a] < idx@[b],
                forall|j: int|
                    0 <= j < idx@.len() ==> entry_matches(
                        self.entries@[#[trigger] idx@[j] as int],
                        query@,
                    ),
                forall|kk: int|
                    0 <= kk < k && entry_matches(#[trigger] self.entries@[kk], query@)
                        ==> idx@.contains(kk as usize),
            decreases n - k,
        {
            if entry_matches_query(&self.entries[k], query) {
                let ghost before = idx@;
                idx.push(k);
                proof {
                    assert forall|kk: int|
                        0 <= kk < k + 1 && entry_matches(#[trigger] self.entries@[kk], query@)
                            implies idx@.contains(kk as usize) by {
                        if kk < k {
                            assert(before.contains(kk as usize));
                            let j = choose|j: int| 0 <= j < before.len() && before[j] == kk as usize;
                            assert(idx@[j] == kk as usize);
                        } else {
                            assert(idx@[idx@.len() - 1] == kk as usize);
                        }
                    }
                }
            }
            k = k + 1;
        }
        let ghost matched = idx@;
        sort_indices_by_title(&mut idx, &titles);
        let out = match self.decrypt_in_order(&idx, encryption_key) {
            Ok(v) => v,
            Err(e) => {
                proof {
                    let j = choose|j: int|
                        0 <= j < idx@.len() && !entry_decrypts(
                            self.entries@[idx@[j] as int],
                            encryption_key@,
                        ) && e == DatabaseError::Crypto(
                            entry_decrypt_error(self.entries@[idx@[j] as int], encryption_key@),
                        );
                    assert(matched.contains(idx@[j]));
                    let m = choose|m: int| 0 <= m < matched.len() && matched[m] == idx@[j];
                    assert(entry_matches(self.entries@[idx@[j] as int], query@));
                }
                return Err(e);
            },
        };
        proof {
            // every matching position was collected, so it appears after sorting
            assert forall|i: int|
                0 <= i < self.entries@.len() && entry_matches(
                    #[trigger] self.entries@[i],
                    query@,
                ) implies entry_decrypts(self.entries@[i], encryption_key@) by {
                assert(matched.contains(i as usize));
                let m = choose|m: int| 0 <= m < matched.len() && matched[m] == i as usize;
                assert(idx@.contains(i as usize));
                let c = choose|c: int| 0 <= c < idx@.len() && idx@[c] == i as usize;
                assert(decrypts_to(self.entries@[idx@[c] as int], encryption_key@, out@[c]));
            }
            // the sorted matched positions witness the listing
            let sel = Seq::new(idx@.len(), |c: int| idx@[c] as int);
            assert forall|i: int| 0 <= i < sel.len() implies entry_matches(
                self.entries@[#[trigger] sel[i]],
                query@,
            ) by {
                assert(matched.contains(idx@[i]));
                let m = choose|m: int| 0 <= m < matched.len() && matched[m] == idx@[i];
            }
            assert forall|kk: int|
                0 <= kk < self.entries@.len() && entry_matches(#[trigger] self.entries@[kk], query@)
                    implies sel.contains(kk) by {
                assert(matched.contains(kk as usize));
                let m = choose|m: int| 0 <= m < matched.len() && matched[m] == kk as usize;
                assert(idx@.contains(kk as usize));
                let c = choose|c: int| 0 <= c < idx@.len() && idx@[c] == kk as usize;
                assert(sel[c] == kk);
            }
            assert(search_listing_of(self.entries@, query@, encryption_key@, out@, sel));
            assert forall|a: int, b: int|
                #![trigger out@[a], out@[b]]
                0 <= a < b < out@.len() implies lex_leq(out@[a].title@, out@[b].title@) by {
                assert(crate::text::title_leq(idx@, titles@, a, b));
                assert(out@[a].title@ == self.entries@[idx@[a] as int].title@);
                assert(out@[b].title@ == self.entries@[idx@[b] as int].title@);
            }
        }
        Ok(out)
    }
}

/// The stored salt, if any, decodes to 16 bytes.
pub open spec fn master_salt_ok(master: Option<MasterPassword>) -> bool {
    master matches Option::Some(m) ==> salt_wf(m.salt@)
}

/// No two entries share an identifier.
pub open spec fn ids_distinct(entries: Seq<EncryptedPasswordEntry>) -> bool {
    forall|i: int, j: int|
        #![trigger entries[i], entries[j]]
        0 <= i < j < entries.len() ==> entries[i].id@ != entries[j].id@
}

/// Every entry's timestamps begin with a plausible date and time.
pub open spec fn timestamps_ok(entries: Seq<EncryptedPasswordEntry>) -> bool {
    forall|i: int|
        0 <= i < entries.len() ==> rfc3339_shape(#[trigger] entries[i].created_at@)
            && rfc3339_shape(entries[i].updated_at@)
}

impl Database {
    /// Rebuild a store from records a surrounding application loaded,
    /// refusing what would break the store's invariants: a salt that is
    /// not 16 bytes of base64 (`EncodingError`), a duplicated entry
    /// identifier (`StorageError`), and a timestamp that does not look
    /// like a date and time (`TimestampParseError`), in that order.
    pub fn from_parts(
        master: Option<MasterPassword>,
        entries: Vec<EncryptedPasswordEntry>,
    ) -> (r: Result<Database, DatabaseError>)
        ensures
            !master_salt_ok(master) <==> r == Result::<Database, DatabaseError>::Err(
                DatabaseError::EncodingError,
            ),
            (master_salt_ok(master) && !ids_distinct(entries@)) <==> r == Result::<
                Database,
                DatabaseError,
            >::Err(DatabaseError::StorageError),
            (master_salt_ok(master) && ids_distinct(entries@) && !timestamps_ok(entries@)) <==> r
                == Result::<Database, DatabaseError>::Err(DatabaseError::TimestampParseError),
            (master_salt_ok(master) && ids_distinct(entries@) && timestamps_ok(entries@)) <==> r
                is Ok,
            r matches Ok(db) ==> db.master == master && db.entries@ == entries@ && db.wf(),
    {
        match &master {
            Some(m) => {
                match b64_decode(m.salt.as_str()) {
                    Ok(b) => {
                        if b.len() != 16 {
                            return Err(DatabaseError::EncodingError);
                        }
                    },
                    Err(_) => {
                        return Err(DatabaseError::EncodingError);
                    },
                }
            },
            None => {},
        }
        proof {
            assert(master_salt_ok(master));
        }
        let n = entries.len();
        let mut i: usize = 0;
        while i < n
            invariant
                master_salt_ok(master),
                n == entries@.len(),
                0 <= i <= n,
                forall|a: int, b: int|
                    #![trigger entries@[a], entries@[b]]
                    0 <= a < b < entries@.len() && a < i ==> entries@[a].id@ != entries@[b].id@,
            decreases n - i,
        {
            let mut j: usize = i + 1;
            while j < n
                invariant
                    master_salt_ok(master),
                    n == entries@.len(),
                    0 <= i < j <= n,
                    forall|b: int|
                        #![trigger entries@[b]]
                        i < b < j ==> entries@[i as int].id@ != entries@[b].id@,
                decreases n - j,
            {
                if str_eq(entries[i].id.as_str(), entries[j].id.as_str()) {
                    proof {
                        assert(entries@[i as int].id@ == entries@[j as int].id@);
                        assert(!ids_distinct(entries@));
                    }
                    return Err(DatabaseError::StorageError);
                }
                j = j + 1;
            }
            i = i + 1;
        }
        proof {
            assert(ids_distinct(entries@));
        }
        let mut k: usize = 0;
        while k < n
            invariant
                master_salt_ok(master),
                ids_distinct(entries@),
                n == entries@.len(),
                0 <= k <= n,
                forall|a: int|
                    #![trigger entries@[a]]
                    0 <= a < k ==> rfc3339_shape(entries@[a].created_at@) && rfc3339_shape(
                        entries@[a].updated_at@,
                    ),
            decreases n - k,
        {
            if !is_rfc3339_like(entries[k].created_at.as_str()) || !is_rfc3339_like(
                entries[k].updated_at.as_str(),
            ) {
                proof {
                    assert(!timestamps_ok(entries@));
                }
                return Err(DatabaseError::TimestampParseError);
            }
            proof {
                assert(rfc3339_shape(entries@[k as int].created_at@));
                assert(rfc3339_shape(entries@[k as int].updated_at@));
            }
            k = k + 1;
        }
        proof {
            assert(timestamps_ok(entries@));
        }
        Ok(Database { master, entries })
    }
}

/// An encrypted field left untouched by an update decrypts to exactly
/// what it decrypted to before: decryption reads only the texts the
/// field holds.
pub proof fn lemma_unchanged_field_decrypts_alike(a: EncryptedData, b: EncryptedData, key: Seq<u8>)
    requires
        enc_eq(a, b),
    ensures
        spec_decrypt(a, key) == spec_decrypt(b, key),
{
}

/// Deleting an entry removes its identifier from the store: under the
/// uniqueness invariant no other entry carries it, so lookups and
/// listings cannot show it again.
pub proof fn lemma_delete_removes_id(entries: Seq<EncryptedPasswordEntry>, id: Seq<char>)
    requires
        ids_distinct(entries),
        contains_entry_id(entries, id),
    ensures
        !contains_entry_id(entries.remove(entry_index(entries, id)), id),
{
    let k = entry_index(entries, id);
    assert(0 <= k < entries.len() && entries[k].id@ == id);
    let s = entries.remove(k);
    assert forall|i: int| 0 <= i < s.len() implies s[i].id@ != id by {
        if i < k {
            assert(s[i] == entries[i]);
        } else {
            assert(s[i] == entries[i + 1]);
        }
    }
}

/// Creating an entry under a fresh identifier and then looking that
/// identifier up finds exactly the entry just appended: the heart of
/// the create-then-fetch round trip.
pub proof fn lemma_create_then_get(entries: Seq<EncryptedPasswordEntry>, e: EncryptedPasswordEntry)
    requires
        !contains_entry_id(entries, e.id@),
    ensures
        contains_entry_id(entries.push(e), e.id@),
        entry_index(entries.push(e), e.id@) == entries.len(),
        entries.push(e)[entry_index(entries.push(e), e.id@)] == e,
{
    let s = entries.push(e);
    assert(s[entries.len() as int] == e);
    assert(contains_entry_id(s, e.id@));
    let k = entry_index(s, e.id@);
    assert(0 <= k < s.len() && s[k].id@ == e.id@);
    if k != entries.len() as int {
        assert(s[k] == entries[k]);
        assert(contains_entry_id(entries, e.id@));
    }
}

/// Relies on `uuid::Uuid::new_v4`, a fresh random identifier, printed
/// by `to_string` in the 36-character hyphenated form.  Randomness
/// admits no stronger claim; the store itself checks uniqueness.
#[verifier::external_body]
fn new_entry_id() -> (r: String)
    ensures
        r@.len() == 36,
{
    uuid::Uuid::new_v4().to_string()
}

/// Relies on `chrono::Utc::now` and `to_rfc3339`: the current moment,
/// of which nothing can be claimed.
#[verifier::external_body]
fn now_rfc3339() -> String {
    chrono::Utc::now().to_rfc3339()
}

} // verus!
