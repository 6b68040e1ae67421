use vault_core::crypto::{CryptoService, EncryptedData};
use vault_core::db::{
    CreatePasswordEntry, Database, DatabaseError, EncryptedPasswordEntry, MasterPassword,
    UpdatePasswordEntry,
};
use vault_core::session::{generate_password, Vault, VaultError};

fn sample_entry(title: &str, category: Option<&str>) -> CreatePasswordEntry {
    CreatePasswordEntry {
        title: title.to_string(),
        username: format!("{}-user", title),
        password: format!("{}-pass", title),
        url: None,
        notes: None,
        category: category.map(|c| c.to_string()),
    }
}

fn no_update() -> UpdatePasswordEntry {
    UpdatePasswordEntry {
        title: None,
        username: None,
        password: None,
        url: None,
        notes: None,
        category: None,
    }
}

#[test]
fn test_database_operations() {
    let mut db = Database::new();

    // Test master password
    let master_password = "test_master_password";
    db.set_master_password(master_password).unwrap();

    assert!(db.has_master_password());

    let key = db.verify_master_password(master_password).unwrap();

    // Test password entry operations
    let entry = CreatePasswordEntry {
        title: "Test Entry".to_string(),
        username: "testuser".to_string(),
        password: "testpass".to_string(),
        url: Some("https://example.com".to_string()),
        notes: Some("Test notes".to_string()),
        category: Some("Test".to_string()),
    };

    let entry_id = db.create_entry(entry, &key).unwrap();

    let retrieved_entry = db.get_entry_by_id(&entry_id, &key).unwrap();
    assert_eq!(retrieved_entry.title, "Test Entry");
    assert_eq!(retrieved_entry.username, "testuser");

    let all_entries = db.get_all_entries(&key).unwrap();
    assert_eq!(all_entries.len(), 1);

    db.delete_entry(&entry_id).unwrap();

    let all_entries_after_delete = db.get_all_entries(&key).unwrap();
    assert_eq!(all_entries_after_delete.len(), 0);
}

#[test]
fn provisioning_exactly_once() {
    let mut db = Database::new();
    assert!(!db.has_master_password());

    db.set_master_password("first").unwrap();
    assert!(db.has_master_password());

    let second = db.set_master_password("second");
    assert_eq!(second, Err(DatabaseError::AlreadyProvisioned));
    // the first record stands and still verifies the first password
    assert!(db.verify_master_password("first").is_ok());
}

#[test]
fn verify_unprovisioned_vault_fails() {
    let db = Database::new();
    let r = db.verify_master_password("anything");
    assert_eq!(r.unwrap_err(), DatabaseError::NotProvisioned);
}

#[test]
fn verify_wrong_password_is_invalid_credentials() {
    let mut db = Database::new();
    db.set_master_password("right horse battery").unwrap();
    let r = db.verify_master_password("wrong horse battery");
    assert_eq!(r.unwrap_err(), DatabaseError::InvalidCredentials);
}

#[test]
fn same_password_rehydrates_same_key() {
    let mut db = Database::new();
    db.set_master_password("stable password").unwrap();
    let k1 = db.verify_master_password("stable password").unwrap();
    let k2 = db.verify_master_password("stable password").unwrap();
    assert_eq!(k1, k2);
}

#[test]
fn create_then_get_round_trip() {
    let mut db = Database::new();
    let key = [9u8; 32];
    let entry = CreatePasswordEntry {
        title: "Mail".to_string(),
        username: "mail-user".to_string(),
        password: "mail-pass".to_string(),
        url: Some("https://mail.example".to_string()),
        notes: Some("personal mailbox".to_string()),
        category: Some("Web".to_string()),
    };
    let id = db.create_entry(entry, &key).unwrap();

    let got = db.get_entry_by_id(&id, &key).unwrap();
    assert_eq!(got.id, id);
    assert_eq!(got.title, "Mail");
    assert_eq!(got.username, "mail-user");
    assert_eq!(got.password, "mail-pass");
    assert_eq!(got.url.as_deref(), Some("https://mail.example"));
    assert_eq!(got.notes.as_deref(), Some("personal mailbox"));
    assert_eq!(got.category.as_deref(), Some("Web"));
    assert_eq!(got.created_at, got.updated_at);
}

#[test]
fn listing_is_sorted_by_title() {
    let mut db = Database::new();
    let key = [4u8; 32];
    db.create_entry(sample_entry("Bank", None), &key).unwrap();
    db.create_entry(sample_entry("Apple", None), &key).unwrap();
    db.create_entry(sample_entry("Zeta", None), &key).unwrap();

    let titles: Vec<String> = db
        .get_all_entries(&key)
        .unwrap()
        .into_iter()
        .map(|e| e.title)
        .collect();
    assert_eq!(titles, vec!["Apple", "Bank", "Zeta"]);
}

#[test]
fn deleted_entry_is_gone_from_get_and_listing() {
    let mut db = Database::new();
    let key = [4u8; 32];
    let id_a = db.create_entry(sample_entry("A", None), &key).unwrap();
    let id_b = db.create_entry(sample_entry("B", None), &key).unwrap();

    db.delete_entry(&id_a).unwrap();

    assert_eq!(
        db.get_entry_by_id(&id_a, &key).unwrap_err(),
        DatabaseError::EntryNotFound
    );
    let all = db.get_all_entries(&key).unwrap();
    assert_eq!(all.len(), 1);
    assert_eq!(all[0].id, id_b);

    assert_eq!(
        db.delete_entry(&id_a).unwrap_err(),
        DatabaseError::EntryNotFound
    );
}

#[test]
fn partial_update_changes_only_named_fields() {
    let mut db = Database::new();
    let key = [5u8; 32];
    db.create_entry_at(
        sample_entry("Old Title", Some("Work")),
        &key,
        "entry-1".to_string(),
        "2024-01-01T00:00:00+00:00".to_string(),
    )
    .unwrap();

    let update = UpdatePasswordEntry {
        title: Some("New Title".to_string()),
        ..no_update()
    };
    db.update_entry_at(
        "entry-1",
        update,
        &key,
        "2024-02-02T00:00:00+00:00".to_string(),
    )
    .unwrap();

    let got = db.get_entry_by_id("entry-1", &key).unwrap();
    assert_eq!(got.title, "New Title");
    assert_eq!(got.username, "Old Title-user");
    assert_eq!(got.password, "Old Title-pass");
    assert_eq!(got.category.as_deref(), Some("Work"));
    assert_eq!(got.created_at, "2024-01-01T00:00:00+00:00");
    assert_eq!(got.updated_at, "2024-02-02T00:00:00+00:00");
}

#[test]
fn empty_update_succeeds_and_touches_nothing() {
    let mut db = Database::new();
    let key = [5u8; 32];
    db.create_entry_at(
        sample_entry("Stable", None),
        &key,
        "entry-1".to_string(),
        "2024-01-01T00:00:00+00:00".to_string(),
    )
    .unwrap();

    db.update_entry("entry-1", no_update(), &key).unwrap();
    // an empty update succeeds even for a missing identifier
    db.update_entry("missing", no_update(), &key).unwrap();

    let got = db.get_entry_by_id("entry-1", &key).unwrap();
    assert_eq!(got.updated_at, "2024-01-01T00:00:00+00:00");
}

#[test]
fn update_missing_entry_not_found() {
    let mut db = Database::new();
    let key = [5u8; 32];
    let update = UpdatePasswordEntry {
        title: Some("anything".to_string()),
        ..no_update()
    };
    assert_eq!(
        db.update_entry("missing", update, &key).unwrap_err(),
        DatabaseError::EntryNotFound
    );
}

#[test]
fn reencrypted_field_gets_fresh_nonce() {
    let mut db = Database::new();
    let key = [6u8; 32];
    db.create_entry_at(
        sample_entry("Rotated", None),
        &key,
        "entry-1".to_string(),
        "2024-01-01T00:00:00+00:00".to_string(),
    )
    .unwrap();
    let nonce_before = db.entries[0].password_encrypted.nonce.clone();

    let update = UpdatePasswordEntry {
        password: Some("fresh secret".to_string()),
        ..no_update()
    };
    db.update_entry("entry-1", update, &key).unwrap();

    let nonce_after = db.entries[0].password_encrypted.nonce.clone();
    assert_ne!(nonce_before, nonce_after);
    assert_eq!(
        db.get_entry_by_id("entry-1", &key).unwrap().password,
        "fresh secret"
    );
}

#[test]
fn search_matches_title_or_category_case_insensitively() {
    let mut db = Database::new();
    let key = [8u8; 32];
    db.create_entry(sample_entry("GitHub", Some("Work")), &key)
        .unwrap();
    db.create_entry(sample_entry("gitlab", Some("Personal")), &key)
        .unwrap();
    db.create_entry(sample_entry("Bank", Some("Work")), &key)
        .unwrap();

    let git_titles: Vec<String> = db
        .search_entries("git", &key)
        .unwrap()
        .into_iter()
        .map(|e| e.title)
        .collect();
    assert_eq!(git_titles, vec!["GitHub", "gitlab"]);

    let work_titles: Vec<String> = db
        .search_entries("work", &key)
        .unwrap()
        .into_iter()
        .map(|e| e.title)
        .collect();
    assert_eq!(work_titles, vec!["Bank", "GitHub"]);

    let none: Vec<String> = db
        .search_entries("nothing-like-this", &key)
        .unwrap()
        .into_iter()
        .map(|e| e.title)
        .collect();
    assert!(none.is_empty());
}

#[test]
fn listing_with_wrong_key_fails_whole_call() {
    let mut db = Database::new();
    let key = [1u8; 32];
    let wrong = [2u8; 32];
    db.create_entry(sample_entry("Solo", None), &key).unwrap();

    assert!(db.get_all_entries(&wrong).is_err());
    let id = db.entries[0].id.clone();
    assert!(db.get_entry_by_id(&id, &wrong).is_err());
}

#[test]
fn locked_vault_refuses_entry_operations() {
    let mut vault = Vault::new();
    assert_eq!(
        vault.create_password_entry(sample_entry("X", None)),
        Err(VaultError::NotAuthenticated)
    );
    assert!(matches!(
        vault.get_all_entries(),
        Err(VaultError::NotAuthenticated)
    ));
    assert!(matches!(
        vault.get_entry_by_id("any"),
        Err(VaultError::NotAuthenticated)
    ));
    assert_eq!(
        vault.update_password_entry("any", no_update()),
        Err(VaultError::NotAuthenticated)
    );
    assert_eq!(
        vault.delete_password_entry("any"),
        Err(VaultError::NotAuthenticated)
    );
    assert!(matches!(
        vault.search_entries("any"),
        Err(VaultError::NotAuthenticated)
    ));
}

#[test]
fn vault_session_flow() {
    let mut vault = Vault::new();
    assert!(!vault.has_master_password());

    assert_eq!(vault.setup_master_password("open sesame"), Ok(true));
    assert!(vault.has_master_password());

    let id = vault
        .create_password_entry(sample_entry("Diary", None))
        .unwrap();
    assert_eq!(vault.get_entry_by_id(&id).unwrap().title, "Diary");

    vault.logout();
    assert!(matches!(
        vault.get_entry_by_id(&id),
        Err(VaultError::NotAuthenticated)
    ));

    assert_eq!(vault.verify_master_password("wrong guess"), Ok(false));
    assert!(matches!(
        vault.get_entry_by_id(&id),
        Err(VaultError::NotAuthenticated)
    ));

    assert_eq!(vault.verify_master_password("open sesame"), Ok(true));
    assert_eq!(vault.get_entry_by_id(&id).unwrap().title, "Diary");
}

#[test]
fn verify_on_unprovisioned_vault_propagates_the_error() {
    let mut vault = Vault::new();
    assert_eq!(
        vault.verify_master_password("anything"),
        Err(VaultError::Db(DatabaseError::NotProvisioned))
    );
}

#[test]
fn second_setup_through_vault_is_refused() {
    let mut vault = Vault::new();
    assert_eq!(vault.setup_master_password("first"), Ok(true));
    assert_eq!(
        vault.setup_master_password("second"),
        Err(VaultError::Db(DatabaseError::AlreadyProvisioned))
    );
}

fn opaque_field(key: &[u8; 32]) -> EncryptedData {
    CryptoService::encrypt("placeholder", key).unwrap()
}

fn stored_entry(id: &str, key: &[u8; 32]) -> EncryptedPasswordEntry {
    EncryptedPasswordEntry {
        id: id.to_string(),
        title: format!("{}-title", id),
        username_encrypted: opaque_field(key),
        password_encrypted: opaque_field(key),
        url_encrypted: None,
        notes_encrypted: None,
        category: None,
        created_at: "2024-01-01T00:00:00+00:00".to_string(),
        updated_at: "2024-01-01T00:00:00+00:00".to_string(),
    }
}

#[test]
fn from_parts_rejects_duplicate_ids() {
    let key = [1u8; 32];
    let entries = vec![stored_entry("same", &key), stored_entry("same", &key)];
    assert!(matches!(
        Database::from_parts(None, entries),
        Err(DatabaseError::StorageError)
    ));
}

#[test]
fn from_parts_rejects_malformed_salt() {
    let master = MasterPassword {
        password_hash: "irrelevant".to_string(),
        salt: "too short".to_string(),
        created_at: "2024-01-01T00:00:00+00:00".to_string(),
    };
    assert!(matches!(
        Database::from_parts(Some(master), Vec::new()),
        Err(DatabaseError::EncodingError)
    ));
}

#[test]
fn timestamp_check_requires_a_closing_offset() {
    let key = [1u8; 32];

    // trailing garbage after the seconds is refused
    let mut entry = stored_entry("one", &key);
    entry.created_at = "2024-01-01T00:00:00junk".to_string();
    assert!(matches!(
        Database::from_parts(None, vec![entry]),
        Err(DatabaseError::TimestampParseError)
    ));

    // so is a timestamp with no offset at all
    let mut entry = stored_entry("one", &key);
    entry.updated_at = "2024-01-01T00:00:00".to_string();
    assert!(matches!(
        Database::from_parts(None, vec![entry]),
        Err(DatabaseError::TimestampParseError)
    ));

    // a fraction with no digits is refused
    let mut entry = stored_entry("one", &key);
    entry.created_at = "2024-01-01T00:00:00.Z".to_string();
    assert!(matches!(
        Database::from_parts(None, vec![entry]),
        Err(DatabaseError::TimestampParseError)
    ));

    // `Z` and a fractional second with a signed offset both close a
    // timestamp properly
    let mut entry = stored_entry("one", &key);
    entry.created_at = "2024-01-01T00:00:00Z".to_string();
    entry.updated_at = "2024-01-01T00:00:00.123456+05:30".to_string();
    assert!(Database::from_parts(None, vec![entry]).is_ok());
}

#[test]
fn from_parts_rejects_malformed_timestamp() {
    let key = [1u8; 32];
    let mut entry = stored_entry("one", &key);
    entry.created_at = "last tuesday".to_string();
    assert!(matches!(
        Database::from_parts(None, vec![entry]),
        Err(DatabaseError::TimestampParseError)
    ));
}

#[test]
fn from_parts_accepts_a_saved_store() {
    let mut db = Database::new();
    db.set_master_password("saved").unwrap();
    let key = db.verify_master_password("saved").unwrap();
    db.create_entry_at(
        sample_entry("Kept", None),
        &key,
        "entry-1".to_string(),
        "2024-01-01T00:00:00+00:00".to_string(),
    )
    .unwrap();

    let restored = Database::from_parts(db.master, db.entries).unwrap();
    let key_again = restored.verify_master_password("saved").unwrap();
    assert_eq!(key, key_again);
    assert_eq!(
        restored.get_entry_by_id("entry-1", &key_again).unwrap().title,
        "Kept"
    );
}

#[test]
fn generated_password_has_asked_length() {
    assert_eq!(generate_password(20, true).chars().count(), 20);
    assert_eq!(generate_password(0, false).chars().count(), 0);
}
