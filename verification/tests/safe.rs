use simple_safe::hash_password;
use simple_safe::verify_password;
use simple_safe::Safe;
use simple_safe::SafeBoxError;

#[test]
fn unknown_user_is_an_error() {
    let safe = Safe::new();
    let r = safe.verify("nobody", "whatever");
    match r {
        Err(SafeBoxError::UserNotExist(name)) => assert_eq!(name, "nobody"),
        other => panic!("expected UserNotExist, got {:?}", other),
    }
}

#[test]
fn create_then_verify() {
    let mut safe = Safe::new();
    safe.create("alice", "wonderland").unwrap();
    assert_eq!(safe.verify("alice", "wonderland").unwrap(), true);
    assert_eq!(safe.verify("alice", "not-wonderland").unwrap(), false);
}

#[test]
fn duplicate_create_is_refused() {
    let mut safe = Safe::new();
    safe.create("alice", "first").unwrap();
    let r = safe.create("alice", "second");
    match r {
        Err(SafeBoxError::UserAlreadyExist(name)) => assert_eq!(name, "alice"),
        other => panic!("expected UserAlreadyExist, got {:?}", other),
    }
    // the stored hash from the first call is unchanged
    assert_eq!(safe.verify("alice", "first").unwrap(), true);
    assert_eq!(safe.verify("alice", "second").unwrap(), false);
    assert_eq!(safe.user_cnt(), 1);
}

#[test]
fn update_changes_password() {
    let mut safe = Safe::new();
    safe.create("alice", "old-pass").unwrap();
    safe.update("alice", "new-pass").unwrap();
    assert_eq!(safe.verify("alice", "new-pass").unwrap(), true);
    assert_eq!(safe.verify("alice", "old-pass").unwrap(), false);
}

#[test]
fn update_invalidates_only_that_users_tokens() {
    let mut safe = Safe::new();
    safe.create("alice", "pw-a").unwrap();
    safe.create("bob", "pw-b").unwrap();
    let t1 = safe.issue_token("alice");
    let t2 = safe.issue_token("alice");
    let t3 = safe.issue_token("bob");
    safe.update("alice", "pw-a2").unwrap();
    assert!(safe.verify_token(&t1).is_none());
    assert!(safe.verify_token(&t2).is_none());
    assert_eq!(safe.verify_token(&t3).unwrap(), "bob");
}

#[test]
fn token_roundtrip() {
    let mut safe = Safe::new();
    let token = safe.issue_token("alice");
    assert_eq!(safe.verify_token(&token).unwrap(), "alice");
    safe.invalidate_token(&token);
    assert!(safe.verify_token(&token).is_none());
    // invalidation is idempotent: a second call is a quiet no-op
    safe.invalidate_token(&token);
    assert!(safe.verify_token(&token).is_none());
}

#[test]
fn invalidate_user_token_spares_other_owners() {
    let mut safe = Safe::new();
    let t1 = safe.issue_token("alice");
    let t2 = safe.issue_token("alice");
    let t3 = safe.issue_token("bob");
    safe.invalidate_user_token("alice");
    assert!(safe.verify_token(&t1).is_none());
    assert!(safe.verify_token(&t2).is_none());
    assert_eq!(safe.verify_token(&t3).unwrap(), "bob");
}

#[test]
fn expire_token_removes_exactly_the_old() {
    let mut safe = Safe::new();
    let old_token = safe.issue_token("alice");
    // let the first token age past the bound
    let start = std::time::Instant::now();
    while start.elapsed().as_millis() <= 20 {}
    let young_token = safe.issue_token("bob");
    let removed = safe.expire_token(10);
    assert_eq!(removed, 1);
    assert!(safe.verify_token(&old_token).is_none());
    assert_eq!(safe.verify_token(&young_token).unwrap(), "bob");
}

#[test]
fn expire_token_on_empty_store() {
    let mut safe = Safe::new();
    assert_eq!(safe.expire_token(0), 0);
}

#[test]
fn hashing_twice_salts_independently() {
    let h1 = hash_password("hunter2").unwrap();
    let h2 = hash_password("hunter2").unwrap();
    assert_ne!(h1, h2);
    assert_eq!(verify_password(&h1, "hunter2").unwrap(), true);
    assert_eq!(verify_password(&h2, "hunter2").unwrap(), true);
    assert_eq!(verify_password(&h1, "hunter3").unwrap(), false);
}

#[test]
fn malformed_hash_is_a_crypto_error() {
    assert!(verify_password("not-a-phc-string", "pw").is_none());
    let safe = Safe::from_rows(vec![("bob".to_string(), "not-a-phc-string".to_string())]);
    let r = safe.verify("bob", "pw");
    assert!(matches!(r, Err(SafeBoxError::Crypto)));
}

#[test]
fn duplicate_rows_are_reported_not_merged() {
    let h = hash_password("pw").unwrap();
    let rows = vec![("dup".to_string(), h.clone()), ("dup".to_string(), h)];
    let mut safe = Safe::from_rows(rows);
    assert!(matches!(
        safe.verify("dup", "pw"),
        Err(SafeBoxError::InvalidData(ref name)) if name == "dup"
    ));
    assert!(matches!(safe.update("dup", "pw2"), Err(SafeBoxError::InvalidData(_))));
    assert!(matches!(safe.delete("dup"), Err(SafeBoxError::InvalidData(_))));
    assert_eq!(safe.user_cnt(), 2);
}

#[test]
fn user_cnt_and_delete() {
    let mut safe = Safe::new();
    assert_eq!(safe.user_cnt(), 0);
    safe.create("alice", "a").unwrap();
    safe.create("bob", "b").unwrap();
    assert_eq!(safe.user_cnt(), 2);
    safe.delete("alice").unwrap();
    assert_eq!(safe.user_cnt(), 1);
    assert!(matches!(
        safe.verify("alice", "a"),
        Err(SafeBoxError::UserNotExist(_))
    ));
    // deleting an absent user is a quiet no-op
    safe.delete("alice").unwrap();
    assert_eq!(safe.user_cnt(), 1);
    assert_eq!(safe.verify("bob", "b").unwrap(), true);
}

#[test]
fn tokens_are_long_and_distinct() {
    let mut safe = Safe::new();
    let t1 = safe.issue_token("alice");
    let t2 = safe.issue_token("alice");
    assert_eq!(t1.len(), 88);
    assert_eq!(t2.len(), 88);
    assert_ne!(t1, t2);
    assert_eq!(safe.verify_token(&t1).unwrap(), "alice");
    assert_eq!(safe.verify_token(&t2).unwrap(), "alice");
}

#[test]
fn scenario_alice() {
    let mut safe = Safe::new();
    safe.create("alice", "wonderland").unwrap();
    assert_eq!(safe.verify("alice", "wonderland").unwrap(), true);
    assert_eq!(safe.verify("alice", "wrong").unwrap(), false);
    safe.update("alice", "newpass").unwrap();
    assert_eq!(safe.verify("alice", "wonderland").unwrap(), false);
    assert_eq!(safe.verify("alice", "newpass").unwrap(), true);
}
