use sakura::invite::Validation;
use sakura::store::InviteStore;

fn codes(v: &[&str]) -> Vec<String> {
    v.iter().map(|s| s.to_string()).collect()
}

#[test]
fn upsert_twice_only_moves_the_write_time() {
    let mut s = InviteStore::new();
    let v = Validation { expires_at: None, is_permanent: false, is_valid: false };
    s.upsert_code(7, &"abc".to_string(), v, 100);
    let first = s.read_guild_invites(7);
    s.upsert_code(7, &"abc".to_string(), v, 100);
    let second = s.read_guild_invites(7);
    assert_eq!(first.len(), 1);
    assert_eq!(second.len(), 1);
    let (a, b) = (&first[0], &second[0]);
    assert_eq!(a.code, b.code);
    assert_eq!(a.expires_at, b.expires_at);
    assert_eq!(a.is_permanent, Some(false));
    assert_eq!(a.is_valid, Some(false));
    assert_eq!(a.is_permanent, b.is_permanent);
    assert_eq!(a.is_valid, b.is_valid);
    assert!(a.is_checked && b.is_checked);
    assert_eq!(a.created_at, b.created_at);
    assert!(b.updated_at > a.updated_at);
}

#[test]
fn create_is_idempotent_and_keeps_checked_records() {
    let mut s = InviteStore::new();
    s.upsert_code(1, &"known".to_string(), Validation { expires_at: None, is_permanent: true, is_valid: true }, 5);
    s.create_invites(1, &codes(&["known", "new", "new"]), 10);
    s.create_invites(1, &codes(&["new"]), 20);
    let all = s.read_guild_invites(1);
    assert_eq!(all.len(), 2);
    let known = all.iter().find(|r| r.code == "known").unwrap();
    assert!(known.is_checked);
    let new = all.iter().find(|r| r.code == "new").unwrap();
    assert!(!new.is_checked);
    assert_eq!(new.is_valid, None);
    assert_eq!(new.created_at, 10);
    assert!(s.read_guild_invites(2).is_empty());
}

#[test]
fn same_code_in_two_guilds_is_two_records() {
    let mut s = InviteStore::new();
    s.create_invites(1, &codes(&["x"]), 1);
    s.create_invites(2, &codes(&["x"]), 2);
    assert_eq!(s.read_guild_invites(1).len(), 1);
    assert_eq!(s.read_guild_invites(2).len(), 1);
}

#[test]
fn unchecked_batch_is_oldest_first_and_bounded() {
    let mut s = InviteStore::new();
    s.create_invites(1, &codes(&["a"]), 10);
    s.create_invites(2, &codes(&["b"]), 20);
    s.create_invites(1, &codes(&["c"]), 30);
    s.upsert_code(2, &"b".to_string(), Validation { expires_at: None, is_permanent: true, is_valid: true }, 40);
    let batch = s.read_unchecked_codes(4);
    let got: Vec<(u64, String)> = batch.into_iter().map(|c| (c.guild_id, c.code)).collect();
    assert_eq!(got, vec![(1, "a".to_string()), (1, "c".to_string())]);
    let one = s.read_unchecked_codes(1);
    assert_eq!(one.len(), 1);
    assert_eq!(one[0].code, "a");
    assert!(s.read_unchecked_codes(0).is_empty());
}

#[test]
fn checked_batch_is_least_recently_validated_first() {
    let mut s = InviteStore::new();
    let good = Validation { expires_at: None, is_permanent: true, is_valid: true };
    let bad = Validation { expires_at: None, is_permanent: false, is_valid: false };
    s.upsert_code(1, &"a".to_string(), good, 10);
    s.upsert_code(1, &"b".to_string(), good, 20);
    s.upsert_code(1, &"dead".to_string(), bad, 25);
    s.upsert_code(1, &"a".to_string(), good, 30);
    let batch = s.read_checked_codes(4);
    let got: Vec<String> = batch.into_iter().map(|c| c.code).collect();
    assert_eq!(got, vec!["b".to_string(), "a".to_string()]);
}

#[test]
fn clock_moves_forward_when_time_does_not() {
    let mut s = InviteStore::new();
    let v = Validation { expires_at: None, is_permanent: true, is_valid: true };
    s.upsert_code(1, &"a".to_string(), v, 50);
    s.upsert_code(1, &"b".to_string(), v, 10);
    let all = s.read_guild_invites(1);
    assert_eq!(all[0].updated_at, 50);
    assert_eq!(all[1].updated_at, 51);
}
