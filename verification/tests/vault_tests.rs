use lockbox::crypto::decrypt;
use lockbox::store::{Database, StoreError, UpdateLockboxRequest};
use lockbox::vault::{
    create_lockbox, export_lockboxes, get_lockbox, import_lockboxes, is_master_password_set,
    set_master_password, update_lockbox, verify_master_password, ContentReading, ExportData,
    ExportLockbox, Session, VaultError,
};

#[test]
fn test_master_password_set_and_verify() {
    let mut db = Database::new();
    let mut session = Session::new();
    assert!(!is_master_password_set(&db));

    set_master_password(&mut db, &mut session, "hunter2");
    assert!(is_master_password_set(&db));
    assert!(session.is_set());

    let mut fresh = Session::new();
    assert!(verify_master_password(&db, &mut fresh, "hunter2"));
    assert!(fresh.is_set());

    let mut other = Session::new();
    assert!(!verify_master_password(&db, &mut other, "wrong"));
    assert!(!other.is_set());
}

#[test]
fn test_verify_without_configured_password() {
    let db = Database::new();
    let mut session = Session::new();
    assert!(!verify_master_password(&db, &mut session, "anything"));
    assert!(!session.is_set());
}

#[test]
fn test_session_clear() {
    let mut db = Database::new();
    let mut session = Session::new();
    set_master_password(&mut db, &mut session, "pw");
    assert!(session.is_set());
    session.clear();
    assert!(!session.is_set());
}

#[test]
fn test_create_without_password_stores_plaintext() {
    let mut db = Database::new();
    let session = Session::new();
    let lb = create_lockbox(
        &mut db,
        &session,
        "plain".to_string(),
        "visible".to_string(),
        None,
        60,
        60,
        0,
    )
    .unwrap();
    assert_eq!(lb.content, "visible");
}

#[test]
fn test_create_with_password_stores_envelope() {
    let mut db = Database::new();
    let mut session = Session::new();
    set_master_password(&mut db, &mut session, "pw");
    let lb = create_lockbox(
        &mut db,
        &session,
        "sealed".to_string(),
        "the secret".to_string(),
        None,
        60,
        60,
        0,
    )
    .unwrap();
    assert_ne!(lb.content, "the secret");
    // The stored content is an envelope under the session hash.
    let hash = session.hash_copy().unwrap();
    assert_eq!(decrypt(&lb.content, &hash).unwrap(), "the secret");
}

#[test]
fn test_read_locked_box_stays_encrypted() {
    let mut db = Database::new();
    let mut session = Session::new();
    set_master_password(&mut db, &mut session, "pw");
    let lb = create_lockbox(
        &mut db,
        &session,
        "a".to_string(),
        "secret".to_string(),
        None,
        5,
        10,
        0,
    )
    .unwrap();
    let reading = get_lockbox(&db, &session, lb.id).unwrap();
    match reading.content {
        ContentReading::StillEncrypted(c) => assert_eq!(c, lb.content),
        ContentReading::Decrypted(_) => panic!("a locked box must not decrypt"),
    }
}

#[test]
fn test_read_unlocked_box_decrypts() {
    let t0: i64 = 100_000;
    let mut db = Database::new();
    let mut session = Session::new();
    set_master_password(&mut db, &mut session, "pw");
    let lb = create_lockbox(
        &mut db,
        &session,
        "a".to_string(),
        "open sesame".to_string(),
        None,
        5,
        10,
        t0,
    )
    .unwrap();
    db.unlock_lockbox(lb.id, t0).unwrap();
    db.check_and_update_states(t0 + 5001);
    let reading = get_lockbox(&db, &session, lb.id).unwrap();
    assert!(!reading.lockbox.is_locked);
    match reading.content {
        ContentReading::Decrypted(p) => assert_eq!(p, "open sesame"),
        ContentReading::StillEncrypted(_) => panic!("an unlocked box must decrypt"),
    }
}

#[test]
fn test_read_unlocked_plaintext_degrades_gracefully() {
    // Content stored before a master password existed does not decrypt;
    // the read hands it back as it is instead of failing.
    let t0: i64 = 100_000;
    let mut db = Database::new();
    let session0 = Session::new();
    let lb = create_lockbox(
        &mut db,
        &session0,
        "a".to_string(),
        "legacy".to_string(),
        None,
        5,
        10,
        t0,
    )
    .unwrap();
    let mut session = Session::new();
    set_master_password(&mut db, &mut session, "pw");
    db.unlock_lockbox(lb.id, t0).unwrap();
    db.check_and_update_states(t0 + 5001);
    let reading = get_lockbox(&db, &session, lb.id).unwrap();
    match reading.content {
        ContentReading::StillEncrypted(c) => assert_eq!(c, "legacy"),
        ContentReading::Decrypted(_) => panic!("plaintext content cannot decrypt"),
    }
}

#[test]
fn test_get_missing_lockbox() {
    let db = Database::new();
    let session = Session::new();
    assert!(get_lockbox(&db, &session, 42).is_none());
}

#[test]
fn test_update_reencrypts_content() {
    let mut db = Database::new();
    let mut session = Session::new();
    set_master_password(&mut db, &mut session, "pw");
    let lb = create_lockbox(
        &mut db,
        &session,
        "a".to_string(),
        "v1".to_string(),
        None,
        60,
        60,
        0,
    )
    .unwrap();
    let updated = update_lockbox(
        &mut db,
        &session,
        UpdateLockboxRequest {
            id: lb.id,
            name: None,
            content: Some("v2".to_string()),
            category: None,
            unlock_delay_seconds: None,
            relock_delay_seconds: None,
        },
        1,
    )
    .unwrap();
    assert_ne!(updated.content, "v2");
    let hash = session.hash_copy().unwrap();
    assert_eq!(decrypt(&updated.content, &hash).unwrap(), "v2");
}

#[test]
fn test_export_shape_and_order() {
    let mut db = Database::new();
    let session = Session::new();
    create_lockbox(
        &mut db,
        &session,
        "beta".to_string(),
        "2".to_string(),
        Some("work".to_string()),
        3,
        4,
        0,
    )
    .unwrap();
    create_lockbox(
        &mut db,
        &session,
        "alpha".to_string(),
        "1".to_string(),
        None,
        1,
        2,
        0,
    )
    .unwrap();
    let doc = export_lockboxes(&db, 999);
    assert_eq!(doc.version, "2.0.0");
    assert_eq!(doc.exported_at, 999);
    assert_eq!(doc.lockboxes.len(), 2);
    assert_eq!(doc.lockboxes[0].name, "alpha");
    assert_eq!(doc.lockboxes[1].name, "beta");
    assert_eq!(doc.lockboxes[1].content, "2");
    assert_eq!(doc.lockboxes[1].category, Some("work".to_string()));
    assert_eq!(doc.lockboxes[1].unlock_delay_seconds, 3);
    assert_eq!(doc.lockboxes[1].relock_delay_seconds, 4);
}

fn entry(name: &str, content: &str) -> ExportLockbox {
    ExportLockbox {
        name: name.to_string(),
        content: content.to_string(),
        category: None,
        unlock_delay_seconds: 60,
        relock_delay_seconds: 60,
    }
}

#[test]
fn test_import_skips_existing_and_creates_fresh() {
    let mut db = Database::new();
    let session = Session::new();
    create_lockbox(
        &mut db,
        &session,
        "existing".to_string(),
        "original".to_string(),
        None,
        60,
        60,
        0,
    )
    .unwrap();
    let doc = ExportData {
        version: "2.0.0".to_string(),
        exported_at: 0,
        lockboxes: vec![entry("existing", "overwrite attempt"), entry("fresh", "verbatim")],
    };
    let imported = import_lockboxes(&mut db, doc, 5).unwrap();
    assert_eq!(imported, ["fresh"]);
    let all = db.get_all_lockboxes();
    assert_eq!(all.len(), 2);
    // The existing record is unaltered.
    assert_eq!(all[0].name, "existing");
    assert_eq!(all[0].content, "original");
    // The fresh record holds the content verbatim, locked, without timers.
    assert_eq!(all[1].name, "fresh");
    assert_eq!(all[1].content, "verbatim");
    assert!(all[1].is_locked);
    assert_eq!(all[1].unlock_timestamp, None);
    assert_eq!(all[1].created_at, 5);
}

#[test]
fn test_import_skips_duplicate_inside_document() {
    let mut db = Database::new();
    let doc = ExportData {
        version: "2.0.0".to_string(),
        exported_at: 0,
        lockboxes: vec![entry("twin", "first"), entry("twin", "second")],
    };
    let imported = import_lockboxes(&mut db, doc, 0).unwrap();
    assert_eq!(imported, ["twin"]);
    let all = db.get_all_lockboxes();
    assert_eq!(all.len(), 1);
    assert_eq!(all[0].content, "first");
}

#[test]
fn test_import_rejects_bad_delays() {
    let mut db = Database::new();
    let doc = ExportData {
        version: "2.0.0".to_string(),
        exported_at: 0,
        lockboxes: vec![ExportLockbox {
            name: "bad".to_string(),
            content: "x".to_string(),
            category: None,
            unlock_delay_seconds: -1,
            relock_delay_seconds: 60,
        }],
    };
    assert_eq!(
        import_lockboxes(&mut db, doc, 0),
        Err(VaultError::ImportFormatError)
    );
    assert_eq!(db.get_all_lockboxes().len(), 0);
}

#[test]
fn test_create_duplicate_name_through_vault() {
    let mut db = Database::new();
    let session = Session::new();
    create_lockbox(
        &mut db,
        &session,
        "a".to_string(),
        "1".to_string(),
        None,
        60,
        60,
        0,
    )
    .unwrap();
    let result = create_lockbox(
        &mut db,
        &session,
        "a".to_string(),
        "2".to_string(),
        None,
        60,
        60,
        1,
    );
    assert_eq!(
        result.unwrap_err(),
        VaultError::Store(StoreError::DuplicateName)
    );
}
