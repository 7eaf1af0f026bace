use lockbox::store::{CreateLockboxRequest, Database, StoreError, UpdateLockboxRequest};

fn req(name: &str, content: &str, unlock: i64, relock: i64) -> CreateLockboxRequest {
    CreateLockboxRequest {
        name: name.to_string(),
        content: content.to_string(),
        category: None,
        unlock_delay_seconds: unlock,
        relock_delay_seconds: relock,
    }
}

#[test]
fn test_create_assigns_ids_and_defaults() {
    let mut db = Database::new();
    let a = db.create_lockbox(req("a", "secret", 60, 3600), 1000).unwrap();
    let b = db.create_lockbox(req("b", "other", 5, 10), 1000).unwrap();
    assert_eq!(a.id, 1);
    assert_eq!(b.id, 2);
    assert!(a.is_locked);
    assert_eq!(a.unlock_timestamp, None);
    assert_eq!(a.relock_timestamp, None);
    assert_eq!(a.created_at, 1000);
    assert_eq!(a.updated_at, 1000);
}

#[test]
fn test_duplicate_name_rejected() {
    let mut db = Database::new();
    db.create_lockbox(req("a", "one", 60, 60), 0).unwrap();
    let result = db.create_lockbox(req("a", "two", 60, 60), 1);
    assert_eq!(result.unwrap_err(), StoreError::DuplicateName);
    // The original record is untouched.
    let all = db.get_all_lockboxes();
    assert_eq!(all.len(), 1);
    assert_eq!(all[0].content, "one");
}

#[test]
fn test_delete_is_idempotent() {
    let mut db = Database::new();
    let a = db.create_lockbox(req("a", "x", 60, 60), 0).unwrap();
    db.delete_lockbox(999);
    assert_eq!(db.get_all_lockboxes().len(), 1);
    db.delete_lockbox(a.id);
    assert_eq!(db.get_all_lockboxes().len(), 0);
    db.delete_lockbox(a.id);
    assert_eq!(db.get_all_lockboxes().len(), 0);
}

#[test]
fn test_ids_not_reused_after_delete() {
    let mut db = Database::new();
    let a = db.create_lockbox(req("a", "x", 60, 60), 0).unwrap();
    db.delete_lockbox(a.id);
    let b = db.create_lockbox(req("b", "y", 60, 60), 0).unwrap();
    assert_eq!(b.id, 2);
}

#[test]
fn test_partial_update_keeps_unset_fields() {
    let mut db = Database::new();
    let a = db
        .create_lockbox(
            CreateLockboxRequest {
                name: "a".to_string(),
                content: "c0".to_string(),
                category: Some("cat0".to_string()),
                unlock_delay_seconds: 60,
                relock_delay_seconds: 120,
            },
            10,
        )
        .unwrap();
    let updated = db
        .update_lockbox(
            UpdateLockboxRequest {
                id: a.id,
                name: None,
                content: Some("c1".to_string()),
                category: None,
                unlock_delay_seconds: None,
                relock_delay_seconds: None,
            },
            20,
        )
        .unwrap();
    assert_eq!(updated.name, "a");
    assert_eq!(updated.content, "c1");
    assert_eq!(updated.category, Some("cat0".to_string()));
    assert_eq!(updated.unlock_delay_seconds, 60);
    assert_eq!(updated.relock_delay_seconds, 120);
    assert_eq!(updated.created_at, 10);
    assert_eq!(updated.updated_at, 20);
}

#[test]
fn test_update_missing_record() {
    let mut db = Database::new();
    let result = db.update_lockbox(
        UpdateLockboxRequest {
            id: 7,
            name: None,
            content: None,
            category: None,
            unlock_delay_seconds: None,
            relock_delay_seconds: None,
        },
        0,
    );
    assert_eq!(result.unwrap_err(), StoreError::RecordNotFound);
}

#[test]
fn test_update_rename_to_taken_name() {
    let mut db = Database::new();
    db.create_lockbox(req("a", "x", 60, 60), 0).unwrap();
    let b = db.create_lockbox(req("b", "y", 60, 60), 0).unwrap();
    let result = db.update_lockbox(
        UpdateLockboxRequest {
            id: b.id,
            name: Some("a".to_string()),
            content: None,
            category: None,
            unlock_delay_seconds: None,
            relock_delay_seconds: None,
        },
        1,
    );
    assert_eq!(result.unwrap_err(), StoreError::DuplicateName);
}

#[test]
fn test_list_ordered_by_name() {
    let mut db = Database::new();
    db.create_lockbox(req("banana", "1", 60, 60), 0).unwrap();
    db.create_lockbox(req("apple", "2", 60, 60), 0).unwrap();
    db.create_lockbox(req("cherry", "3", 60, 60), 0).unwrap();
    let names: Vec<String> = db.get_all_lockboxes().iter().map(|l| l.name.clone()).collect();
    assert_eq!(names, ["apple", "banana", "cherry"]);
}

#[test]
fn test_settings_roundtrip_and_overwrite() {
    let mut db = Database::new();
    assert_eq!(db.get_setting("k"), None);
    db.set_setting("k", "v1");
    assert_eq!(db.get_setting("k"), Some("v1".to_string()));
    db.set_setting("k", "v2");
    assert_eq!(db.get_setting("k"), Some("v2".to_string()));
    db.set_setting("other", "w");
    assert_eq!(db.get_setting("k"), Some("v2".to_string()));
    assert_eq!(db.get_setting("other"), Some("w".to_string()));
}

#[test]
fn test_state_machine_scenario() {
    // Delays of 5 s to unlock and 10 s to relock, requested at T0.
    let t0: i64 = 1_000_000;
    let mut db = Database::new();
    let a = db.create_lockbox(req("a", "s", 5, 10), t0).unwrap();

    let armed = db.unlock_lockbox(a.id, t0).unwrap();
    assert!(armed.is_locked);
    assert_eq!(armed.unlock_timestamp, Some(t0 + 5000));

    // One millisecond early: nothing changes.
    db.check_and_update_states(t0 + 4999);
    let still = db.get_lockbox(a.id).unwrap();
    assert!(still.is_locked);
    assert_eq!(still.unlock_timestamp, Some(t0 + 5000));
    assert_eq!(still.relock_timestamp, None);

    // Past the deadline: unlocked, relock timer armed from the tick time.
    db.check_and_update_states(t0 + 5001);
    let open = db.get_lockbox(a.id).unwrap();
    assert!(!open.is_locked);
    assert_eq!(open.unlock_timestamp, None);
    assert_eq!(open.relock_timestamp, Some(t0 + 5001 + 10_000));

    // At the relock deadline: locked again, no timers.
    db.check_and_update_states(t0 + 5001 + 10_000);
    let closed = db.get_lockbox(a.id).unwrap();
    assert!(closed.is_locked);
    assert_eq!(closed.unlock_timestamp, None);
    assert_eq!(closed.relock_timestamp, None);
}

#[test]
fn test_manual_relock_cancels_pending_unlock() {
    let t0: i64 = 50_000;
    let mut db = Database::new();
    let a = db.create_lockbox(req("a", "s", 5, 10), t0).unwrap();
    db.unlock_lockbox(a.id, t0).unwrap();
    let relocked = db.relock_lockbox(a.id, t0 + 1).unwrap();
    assert!(relocked.is_locked);
    assert_eq!(relocked.unlock_timestamp, None);
    assert_eq!(relocked.relock_timestamp, None);
    // The original unlock deadline passes without effect.
    db.check_and_update_states(t0 + 6000);
    let after = db.get_lockbox(a.id).unwrap();
    assert!(after.is_locked);
    assert_eq!(after.unlock_timestamp, None);
    assert_eq!(after.relock_timestamp, None);
}

#[test]
fn test_reconcile_is_idempotent() {
    let t0: i64 = 777_000;
    let mut db = Database::new();
    let a = db.create_lockbox(req("a", "s", 5, 10), t0).unwrap();
    let b = db.create_lockbox(req("b", "s", 0, 0), t0).unwrap();
    db.unlock_lockbox(a.id, t0).unwrap();
    db.unlock_lockbox(b.id, t0).unwrap();
    let now = t0 + 6000;
    let once: Vec<(i64, bool, Option<i64>, Option<i64>)> = db
        .check_and_update_states(now)
        .iter()
        .map(|l| (l.id, l.is_locked, l.unlock_timestamp, l.relock_timestamp))
        .collect();
    let twice: Vec<(i64, bool, Option<i64>, Option<i64>)> = db
        .check_and_update_states(now)
        .iter()
        .map(|l| (l.id, l.is_locked, l.unlock_timestamp, l.relock_timestamp))
        .collect();
    assert_eq!(once, twice);
}

#[test]
fn test_zero_relock_delay_goes_straight_back_to_locked() {
    let t0: i64 = 10_000;
    let mut db = Database::new();
    let a = db.create_lockbox(req("a", "s", 1, 0), t0).unwrap();
    db.unlock_lockbox(a.id, t0).unwrap();
    // The unlock completes and the zero-delay relock applies in one pass.
    db.check_and_update_states(t0 + 1000);
    let after = db.get_lockbox(a.id).unwrap();
    assert!(after.is_locked);
    assert_eq!(after.unlock_timestamp, None);
    assert_eq!(after.relock_timestamp, None);
}

#[test]
fn test_unlock_missing_record() {
    let mut db = Database::new();
    assert_eq!(
        db.unlock_lockbox(3, 0).unwrap_err(),
        StoreError::RecordNotFound
    );
    assert_eq!(
        db.relock_lockbox(3, 0).unwrap_err(),
        StoreError::RecordNotFound
    );
}

#[test]
fn test_complete_unlock_out_of_turn() {
    let t0: i64 = 4000;
    let mut db = Database::new();
    let a = db.create_lockbox(req("a", "s", 5, 10), t0).unwrap();
    let opened = db.complete_unlock(a.id, t0).unwrap();
    assert!(!opened.is_locked);
    assert_eq!(opened.unlock_timestamp, None);
    assert_eq!(opened.relock_timestamp, Some(t0 + 10_000));
}

#[test]
fn test_rearming_unlock_resets_timer() {
    let t0: i64 = 9_000;
    let mut db = Database::new();
    let a = db.create_lockbox(req("a", "s", 5, 10), t0).unwrap();
    db.unlock_lockbox(a.id, t0).unwrap();
    let rearmed = db.unlock_lockbox(a.id, t0 + 2000).unwrap();
    assert_eq!(rearmed.unlock_timestamp, Some(t0 + 2000 + 5000));
}

#[test]
fn test_from_records_round_trip() {
    let t0: i64 = 3_000;
    let mut db = Database::new();
    db.create_lockbox(req("beta", "2", 5, 10), t0).unwrap();
    let a = db.create_lockbox(req("alpha", "1", 7, 9), t0).unwrap();
    db.unlock_lockbox(a.id, t0).unwrap();
    let rows = db.get_all_lockboxes();
    let db2 = Database::from_records(rows).unwrap();
    let before: Vec<(i64, String, String, bool, Option<i64>)> = db
        .get_all_lockboxes()
        .iter()
        .map(|l| (l.id, l.name.clone(), l.content.clone(), l.is_locked, l.unlock_timestamp))
        .collect();
    let after: Vec<(i64, String, String, bool, Option<i64>)> = db2
        .get_all_lockboxes()
        .iter()
        .map(|l| (l.id, l.name.clone(), l.content.clone(), l.is_locked, l.unlock_timestamp))
        .collect();
    assert_eq!(before, after);
}

#[test]
fn test_from_records_rejects_duplicate_names() {
    let mut db = Database::new();
    let a = db.create_lockbox(req("a", "1", 5, 10), 0).unwrap();
    let mut twin = db.get_lockbox(a.id).unwrap();
    twin.id = a.id + 1;
    let mut rows = db.get_all_lockboxes();
    rows.push(twin);
    assert!(Database::from_records(rows).is_none());
}

#[test]
fn test_from_records_rejects_inconsistent_timers() {
    // A locked record must not carry a relock timer.
    let bad = lockbox::timelock::Lockbox {
        id: 1,
        name: "a".to_string(),
        content: "c".to_string(),
        category: None,
        is_locked: true,
        unlock_delay_seconds: 5,
        relock_delay_seconds: 10,
        unlock_timestamp: None,
        relock_timestamp: Some(99),
        created_at: 0,
        updated_at: 0,
    };
    assert!(Database::from_records(vec![bad]).is_none());
}

#[test]
fn test_unlock_request_on_unlocked_box_is_noop() {
    // Requesting an unlock is a transition out of the locked phases only;
    // on an unlocked box it changes nothing.
    let t0: i64 = 20_000;
    let mut db = Database::new();
    let a = db.create_lockbox(req("a", "s", 0, 50), t0).unwrap();
    db.unlock_lockbox(a.id, t0).unwrap();
    db.check_and_update_states(t0);
    let open = db.get_lockbox(a.id).unwrap();
    assert!(!open.is_locked);
    assert_eq!(open.relock_timestamp, Some(t0 + 50_000));
    let same = db.unlock_lockbox(a.id, t0 + 1).unwrap();
    assert!(!same.is_locked);
    assert_eq!(same.unlock_timestamp, None);
    assert_eq!(same.relock_timestamp, Some(t0 + 50_000));
    assert_eq!(same.updated_at, open.updated_at);
}

#[test]
fn test_create_accepts_largest_delay() {
    let mut db = Database::new();
    let max = lockbox::timelock::MAX_DELAY_SECONDS;
    let a = db.create_lockbox(req("a", "s", max, max), 0).unwrap();
    let armed = db.unlock_lockbox(a.id, 0).unwrap();
    assert_eq!(armed.unlock_timestamp, Some(max * 1000));
}
