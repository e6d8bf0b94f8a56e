use sakura::invite::{Invite, InviteLookup, Validation};

fn checked(valid: bool, permanent: bool, expires_at: Option<u64>) -> Invite {
    Invite {
        guild_id: 1,
        code: "abc".to_string(),
        expires_at,
        is_permanent: Some(permanent),
        is_valid: Some(valid),
        is_checked: true,
        created_at: 10,
        updated_at: 20,
    }
}

#[test]
fn classification_table() {
    let now = 1_000;
    let later = Some(2_000);
    let past = Some(500);
    // (valid, permanent, expires later than now) -> good
    assert!(checked(true, true, later).is_good(now));
    assert!(checked(true, true, past).is_good(now));
    assert!(checked(true, false, later).is_good(now));
    assert!(!checked(true, false, past).is_good(now));
    assert!(!checked(false, true, later).is_good(now));
    assert!(!checked(false, true, past).is_good(now));
    assert!(!checked(false, false, later).is_good(now));
    assert!(!checked(false, false, past).is_good(now));
}

#[test]
fn expiry_at_now_is_expired() {
    assert!(!checked(true, false, Some(1_000)).is_good(1_000));
    assert!(checked(true, false, Some(1_001)).is_good(1_000));
}

#[test]
fn no_expiry_never_expires() {
    assert!(checked(true, false, None).is_good(u64::MAX));
}

#[test]
fn lookup_success_and_failure() {
    let forever = Validation::from_lookup(&Some(InviteLookup { expires_at: None, max_age: None, max_uses: None }));
    assert_eq!(forever, Validation { expires_at: None, is_permanent: true, is_valid: true });
    let limited = Validation::from_lookup(&Some(InviteLookup { expires_at: None, max_age: None, max_uses: Some(5) }));
    assert_eq!(limited, Validation { expires_at: None, is_permanent: false, is_valid: true });
    let expiring = Validation::from_lookup(&Some(InviteLookup { expires_at: Some(9), max_age: Some(60), max_uses: None }));
    assert_eq!(expiring, Validation { expires_at: Some(9), is_permanent: false, is_valid: true });
    let failed = Validation::from_lookup(&None);
    assert_eq!(failed, Validation { expires_at: None, is_permanent: false, is_valid: false });
    assert!(!failed.is_good(0));
    assert!(forever.is_good(0));
}

#[test]
fn copy_keeps_every_field() {
    let a = checked(true, false, Some(7));
    let b = a.copy();
    assert_eq!(format!("{:?}", a), format!("{:?}", b));
}
