//! The session layer: the guard that holds the derived key while the
//! vault is unlocked, and the vault facade that gates every entry
//! operation on it.
//!
//! The guard begins locked, is unlocked only by successful
//! provisioning or verification of the master password, and overwrites
//! the key bytes before releasing them on logout.

use vstd::prelude::*;

use crate::crypto::{
    derived_key, password_len_ok, password_verifies, phc_parses, CryptoError, CryptoService,
};
use crate::db::{
    contains_entry_id, created, decrypts_to, entry_decrypt_error, entry_decrypts, entry_index,
    entry_matches, listing_of, salt_bytes, salt_wf, search_listing_of, sorted_by_title,
    update_is_noop, update_touches_secret, updated, CreatePasswordEntry, Database, DatabaseError,
    PasswordEntry, UpdatePasswordEntry,
};

verus! {

/// The error kinds the session layer can report: an operation
/// attempted while locked, or an error of the store beneath.
#[derive(Clone, Copy, Debug, PartialEq, Eq, Structural)]
pub enum VaultError {
    /// An entry operation was attempted while the vault is locked.
    NotAuthenticated,
    /// The store reported an error.
    Db(DatabaseError),
}

/// Holds the 32-byte session key while the vault is unlocked: only in
/// memory, never persisted.  Locked is the initial state; locking
/// overwrites the key bytes before dropping them.
pub struct SessionGuard {
    key: Option<[u8; 32]>,
}

impl SessionGuard {
    /// The key held, if any, as a byte sequence.
    pub closed spec fn key_view(self) -> Option<Seq<u8>> {
        match self.key {
            Option::Some(k) => Option::Some(k@),
            Option::None => Option::None,
        }
    }

    /// Whether a key is held.
    pub open spec fn is_unlocked(self) -> bool {
        self.key_view() is Some
    }

    /// A fresh guard: locked.
    pub fn new() -> (s: SessionGuard)
        ensures
            !s.is_unlocked(),
    {
        SessionGuard { key: None }
    }

    /// Store a freshly derived key: the vault is now unlocked.
    pub fn unlock(&mut self, key: &[u8; 32])
        ensures
            final(self).key_view() == Option::Some(key@),
    {
        self.key = Some(*key);
    }

    /// Discard the key: the bytes are overwritten before the slot is
    /// cleared, and the vault is locked again.
    pub fn lock(&mut self)
        ensures
            !final(self).is_unlocked(),
    {
        if self.key.is_some() {
            self.key = Some([0u8; 32]);
        }
        self.key = None;
    }

    /// The key held, or `None` while locked.
    pub fn current_key(&self) -> (r: Option<&[u8; 32]>)
        ensures
            r matches Some(k) ==> self.key_view() == Option::Some(k@),
            r is None <==> !self.is_unlocked(),
    {
        self.key.as_ref()
    }
}

/// The vault: the store of records together with the session guard,
/// every entry operation gated on an unlocked session.
pub struct Vault {
    pub db: Database,
    pub session: SessionGuard,
}

impl Vault {
    /// Whether a session key is held.
    pub open spec fn is_unlocked(self) -> bool {
        self.session.is_unlocked()
    }

    /// The held session key, if any.
    pub open spec fn session_key_view(self) -> Option<Seq<u8>> {
        self.session.key_view()
    }

    /// The held session key.
    pub open spec fn skey(self) -> Seq<u8> {
        self.session_key_view()->0
    }

    /// A fresh vault: empty store, locked session.
    pub fn new() -> (v: Vault)
        ensures
            v.db.wf(),
            v.db.master is None,
            v.db.entries@.len() == 0,
            !v.is_unlocked(),
    {
        Vault { db: Database::new(), session: SessionGuard::new() }
    }

    /// Wrap a store a surrounding application loaded; the session
    /// begins locked, as every process start does.
    pub fn with_database(db: Database) -> (v: Vault)
        ensures
            v.db == db,
            !v.is_unlocked(),
    {
        Vault { db, session: SessionGuard::new() }
    }

    /// Provision the master password and unlock the session with the
    /// key derived from it.  A vault that already has a master
    /// password refuses with `AlreadyProvisioned`.
    pub fn setup_master_password(&mut self, password: &str) -> (r: Result<bool, VaultError>)
        requires
            password_len_ok(password@),
            old(self).db.wf(),
        ensures
            old(self).db.master is None <==> r is Ok,
            old(self).db.master is Some <==> r == Result::<bool, VaultError>::Err(
                VaultError::Db(DatabaseError::AlreadyProvisioned),
            ),
            r matches Err(e) ==> *final(self) == *old(self) && e == VaultError::Db(
                DatabaseError::AlreadyProvisioned,
            ),
            r matches Ok(b) ==> b && old(self).db.master is None && (final(self).db.master matches Option::Some(m) && phc_parses(m.password_hash@)
                && password_verifies(password@, m.password_hash@) && final(self).session_key_view() == Option::Some(derived_key(password@, salt_bytes(m.salt@)))),
            final(self).db.entries@ == old(self).db.entries@,
            final(self).db.wf(),
    {
        match self.db.set_master_password(password) {
            Ok(()) => {},
            Err(e) => {
                return Err(VaultError::Db(e));
            },
        }
        match self.db.verify_master_password(password) {
            Ok(key) => {
                self.session.unlock(&key);
                Ok(true)
            },
            Err(_) => {
                // unreachable: the record just stored verifies the
                // password it was hashed from
                proof {
                    assert(false);
                }
                Err(VaultError::NotAuthenticated)
            },
        }
    }

    /// Verify the master password.  On a match the session is
    /// unlocked with the derived key and `true` comes back.  A wrong
    /// password comes back as a plain `false` — the one expected
    /// failure that is a value, not an error.  Every other failure (no
    /// record yet, a malformed stored hash, a malformed stored salt)
    /// propagates as a typed error; only success touches the session.
    pub fn verify_master_password(&mut self, password: &str) -> (r: Result<bool, VaultError>)
        requires
            password_len_ok(password@),
        ensures
            final(self).db == old(self).db,
            old(self).db.master is None <==> r == Result::<bool, VaultError>::Err(
                VaultError::Db(DatabaseError::NotProvisioned),
            ),
            old(self).db.master matches Option::Some(m) ==> {
                &&& (!phc_parses(m.password_hash@) <==> r == Result::<bool, VaultError>::Err(
                    VaultError::Db(DatabaseError::Crypto(CryptoError::HashingError)),
                ))
                &&& ((phc_parses(m.password_hash@) && !password_verifies(
                    password@,
                    m.password_hash@,
                )) <==> r == Result::<bool, VaultError>::Ok(false))
                &&& ((phc_parses(m.password_hash@) && password_verifies(
                    password@,
                    m.password_hash@,
                ) && !salt_wf(m.salt@)) <==> r == Result::<bool, VaultError>::Err(
                    VaultError::Db(DatabaseError::EncodingError),
                ))
                &&& ((phc_parses(m.password_hash@) && password_verifies(
                    password@,
                    m.password_hash@,
                ) && salt_wf(m.salt@)) <==> r == Result::<bool, VaultError>::Ok(true))
                &&& (r == Result::<bool, VaultError>::Ok(true) ==> final(self).session_key_view() == Option::Some(
                    derived_key(password@, salt_bytes(m.salt@)),
                ))
            },
            r != Result::<bool, VaultError>::Ok(true) ==> final(self).session_key_view() == old(self).session_key_view(),
    {
        match self.db.verify_master_password(password) {
            Ok(key) => {
                self.session.unlock(&key);
                Ok(true)
            },
            Err(DatabaseError::InvalidCredentials) => Ok(false),
            Err(e) => Err(VaultError::Db(e)),
        }
    }

    /// Whether a master password has been provisioned.
    pub fn has_master_password(&self) -> (r: bool)
        ensures
            r == (self.db.master is Some),
    {
        self.db.has_master_password()
    }

    /// Lock the session, discarding the key.  The store is untouched.
    pub fn logout(&mut self)
        ensures
            !final(self).is_unlocked(),
            final(self).db == old(self).db,
    {
        self.session.lock();
    }

    /// Create an entry with the session key.  Refused with
    /// `NotAuthenticated` while locked.
    pub fn create_password_entry(&mut self, entry: CreatePasswordEntry) -> (r: Result<
        String,
        VaultError,
    >)
        requires
            old(self).db.wf(),
        ensures
            !old(self).is_unlocked() <==> r == Result::<String, VaultError>::Err(
                VaultError::NotAuthenticated,
            ),
            !old(self).is_unlocked() ==> *final(self) == *old(self),
            final(self).session_key_view() == old(self).session_key_view(),
            final(self).db.master == old(self).db.master,
            final(self).db.wf(),
            r matches Err(e) ==> final(self).db == old(self).db && (e
                == VaultError::NotAuthenticated || e == VaultError::Db(DatabaseError::StorageError)
                || e == VaultError::Db(DatabaseError::Crypto(CryptoError::EncryptionError))),
            r matches Ok(id) ==> !contains_entry_id(old(self).db.entries@, id@) && final(self).db.entries@.len() == old(self).db.entries@.len() + 1 && (forall|j: int|
                0 <= j < old(self).db.entries@.len() ==> final(self).db.entries@[j] == old(self).db.entries@[j]) && created(
                entry,
                old(self).skey(),
                id@,
                final(self).db.entries@.last().created_at@,
                final(self).db.entries@.last(),
            ),
    {
        let key = match self.session.current_key() {
            Some(k) => *k,
            None => {
                return Err(VaultError::NotAuthenticated);
            },
        };
        match self.db.create_entry(entry, &key) {
            Ok(id) => Ok(id),
            Err(e) => Err(VaultError::Db(e)),
        }
    }

    /// List every entry, decrypted with the session key, sorted by
    /// title.  Refused with `NotAuthenticated` while locked.
    pub fn get_all_entries(&self) -> (r: Result<Vec<PasswordEntry>, VaultError>)
        requires
            self.db.wf(),
        ensures
            !self.is_unlocked() <==> r == Result::<Vec<PasswordEntry>, VaultError>::Err(
                VaultError::NotAuthenticated,
            ),
            self.is_unlocked() ==> (r is Ok <==> (forall|i: int|
                0 <= i < self.db.entries@.len() ==> entry_decrypts(
                    #[trigger] self.db.entries@[i],
                    self.skey(),
                ))),
            r matches Ok(v) ==> sorted_by_title(v@) && (exists|perm: Seq<int>|
                listing_of(self.db.entries@, self.skey(), v@, perm)),
            r matches Err(e) ==> e == VaultError::NotAuthenticated || (exists|i: int|
                0 <= i < self.db.entries@.len() && !entry_decrypts(
                    #[trigger] self.db.entries@[i],
                    self.skey(),
                ) && e == VaultError::Db(
                    DatabaseError::Crypto(entry_decrypt_error(self.db.entries@[i], self.skey())),
                )),
    {
        let key = match self.session.current_key() {
            Some(k) => *k,
            None => {
                return Err(VaultError::NotAuthenticated);
            },
        };
        match self.db.get_all_entries(&key) {
            Ok(v) => {
                proof {
                    let perm = choose|perm: Seq<int>|
                        listing_of(self.db.entries@, key@, v@, perm);
                    assert(listing_of(self.db.entries@, self.skey(), v@, perm));
                }
                Ok(v)
            },
            Err(e) => Err(VaultError::Db(e)),
        }
    }

    /// Fetch one entry by identifier, decrypted with the session key.
    /// Refused with `NotAuthenticated` while locked.
    pub fn get_entry_by_id(&self, id: &str) -> (r: Result<PasswordEntry, VaultError>)
        requires
            self.db.wf(),
        ensures
            !self.is_unlocked() <==> r == Result::<PasswordEntry, VaultError>::Err(
                VaultError::NotAuthenticated,
            ),
            self.is_unlocked() ==> (!contains_entry_id(self.db.entries@, id@) <==> r == Result::<
                PasswordEntry,
                VaultError,
            >::Err(VaultError::Db(DatabaseError::EntryNotFound))),
            (self.is_unlocked() && contains_entry_id(self.db.entries@, id@)) ==> {
                let e = self.db.entries@[entry_index(self.db.entries@, id@)];
                &&& (entry_decrypts(e, self.skey()) ==> (r matches Ok(p) && decrypts_to(
                    e,
                    self.skey(),
                    p,
                )))
                &&& (!entry_decrypts(e, self.skey()) ==> r == Result::<
                    PasswordEntry,
                    VaultError,
                >::Err(VaultError::Db(DatabaseError::Crypto(entry_decrypt_error(e, self.skey())))))
            },
    {
        let key = match self.session.current_key() {
            Some(k) => *k,
            None => {
                return Err(VaultError::NotAuthenticated);
            },
        };
        match self.db.get_entry_by_id(id, &key) {
            Ok(p) => Ok(p),
            Err(e) => Err(VaultError::Db(e)),
        }
    }

    /// Apply a partial update with the session key.  Refused with
    /// `NotAuthenticated` while locked.
    pub fn update_password_entry(&mut self, id: &str, update: UpdatePasswordEntry) -> (r: Result<
        (),
        VaultError,
    >)
        requires
            old(self).db.wf(),
        ensures
            !old(self).is_unlocked() <==> r == Result::<(), VaultError>::Err(
                VaultError::NotAuthenticated,
            ),
            !old(self).is_unlocked() ==> *final(self) == *old(self),
            final(self).session_key_view() == old(self).session_key_view(),
            final(self).db.master == old(self).db.master,
            final(self).db.wf(),
            r matches Err(e) ==> final(self).db == old(self).db && (e
                == VaultError::NotAuthenticated || e == VaultError::Db(DatabaseError::EntryNotFound)
                || e == VaultError::Db(DatabaseError::Crypto(CryptoError::EncryptionError))),
            (old(self).is_unlocked() && update_is_noop(update)) ==> r is Ok && *final(self) == *old(self),
            (old(self).is_unlocked() && !update_is_noop(update)) ==> (!contains_entry_id(
                old(self).db.entries@,
                id@,
            ) <==> r == Result::<(), VaultError>::Err(VaultError::Db(DatabaseError::EntryNotFound))),
            (old(self).is_unlocked() && contains_entry_id(old(self).db.entries@, id@)
                && !update_touches_secret(update)) ==> r is Ok,
            (old(self).is_unlocked() && !update_is_noop(update) && r is Ok) ==> {
                let k = entry_index(old(self).db.entries@, id@);
                &&& contains_entry_id(old(self).db.entries@, id@)
                &&& final(self).db.entries@.len() == old(self).db.entries@.len()
                &&& (forall|j: int|
                    0 <= j < old(self).db.entries@.len() && j != k ==> final(self).db.entries@[j]
                        == old(self).db.entries@[j])
                &&& updated(
                    old(self).db.entries@[k],
                    update,
                    old(self).skey(),
                    final(self).db.entries@[k].updated_at@,
                    final(self).db.entries@[k],
                )
            },
    {
        let key = match self.session.current_key() {
            Some(k) => *k,
            None => {
                return Err(VaultError::NotAuthenticated);
            },
        };
        match self.db.update_entry(id, update, &key) {
            Ok(()) => Ok(()),
            Err(e) => Err(VaultError::Db(e)),
        }
    }

    /// Delete an entry by identifier.  The store needs no key for
    /// this, but the operation is still gated on an unlocked session.
    pub fn delete_password_entry(&mut self, id: &str) -> (r: Result<(), VaultError>)
        requires
            old(self).db.wf(),
        ensures
            !old(self).is_unlocked() <==> r == Result::<(), VaultError>::Err(
                VaultError::NotAuthenticated,
            ),
            !old(self).is_unlocked() ==> *final(self) == *old(self),
            final(self).session_key_view() == old(self).session_key_view(),
            final(self).db.master == old(self).db.master,
            final(self).db.wf(),
            old(self).is_unlocked() ==> (!contains_entry_id(old(self).db.entries@, id@) <==> r
                == Result::<(), VaultError>::Err(VaultError::Db(DatabaseError::EntryNotFound))),
            r matches Err(e) ==> e == VaultError::NotAuthenticated || e == VaultError::Db(
                DatabaseError::EntryNotFound,
            ),
            r matches Err(e) ==> final(self).db == old(self).db,
            r is Ok ==> final(self).db.entries@ == old(self).db.entries@.remove(
                entry_index(old(self).db.entries@, id@),
            ),
    {
        if self.session.current_key().is_none() {
            return Err(VaultError::NotAuthenticated);
        }
        match self.db.delete_entry(id) {
            Ok(()) => Ok(()),
            Err(e) => Err(VaultError::Db(e)),
        }
    }

    /// List the entries matching the query, decrypted with the session
    /// key, sorted by title.  Refused with `NotAuthenticated` while
    /// locked.
    pub fn search_entries(&self, query: &str) -> (r: Result<Vec<PasswordEntry>, VaultError>)
        requires
            self.db.wf(),
        ensures
            !self.is_unlocked() <==> r == Result::<Vec<PasswordEntry>, VaultError>::Err(
                VaultError::NotAuthenticated,
            ),
            self.is_unlocked() ==> (r is Ok <==> (forall|i: int|
                0 <= i < self.db.entries@.len() && entry_matches(
                    #[trigger] self.db.entries@[i],
                    query@,
                ) ==> entry_decrypts(self.db.entries@[i], self.skey()))),
            r matches Ok(v) ==> sorted_by_title(v@) && (exists|sel: Seq<int>|
                search_listing_of(self.db.entries@, query@, self.skey(), v@, sel)),
            r matches Err(e) ==> e == VaultError::NotAuthenticated || (exists|i: int|
                0 <= i < self.db.entries@.len() && entry_matches(
                    #[trigger] self.db.entries@[i],
                    query@,
                ) && !entry_decrypts(self.db.entries@[i], self.skey()) && e == VaultError::Db(
                    DatabaseError::Crypto(entry_decrypt_error(self.db.entries@[i], self.skey())),
                )),
    {
        let key = match self.session.current_key() {
            Some(k) => *k,
            None => {
                return Err(VaultError::NotAuthenticated);
            },
        };
        match self.db.search_entries(query, &key) {
            Ok(v) => {
                proof {
                    let sel = choose|sel: Seq<int>|
                        search_listing_of(self.db.entries@, query@, key@, v@, sel);
                    assert(search_listing_of(self.db.entries@, query@, self.skey(), v@, sel));
                }
                Ok(v)
            },
            Err(e) => {
                proof {
                    let i = choose|i: int|
                        0 <= i < self.db.entries@.len() && entry_matches(
                            #[trigger] self.db.entries@[i],
                            query@,
                        ) && !entry_decrypts(self.db.entries@[i], key@) && e
                            == DatabaseError::Crypto(
                            entry_decrypt_error(self.db.entries@[i], key@),
                        );
                    assert(entry_matches(self.db.entries@[i], query@) && !entry_decrypts(
                        self.db.entries@[i],
                        self.skey(),
                    ) && VaultError::Db(e) == VaultError::Db(
                        DatabaseError::Crypto(entry_decrypt_error(self.db.entries@[i], self.skey())),
                    ));
                }
                Err(VaultError::Db(e))
            },
        }
    }
}

/// Generate a random password of the asked-for length from the fixed
/// charset, symbols included when asked.  Needs no session.
pub fn generate_password(length: usize, include_symbols: bool) -> (r: String)
    ensures
        r@.len() == length,
        forall|i: int|
            0 <= i < r@.len() ==> crate::crypto::password_charset(include_symbols).contains(
                #[trigger] r@[i],
            ),
{
    CryptoService::generate_password(length, include_symbols)
}

} // verus!
