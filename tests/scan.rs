use sakura::invite::{Invite, InviteLookup};
use sakura::scan::{check_known_codes, Action, ChannelAccess, ChannelResult, Scan};
use sakura::setting::Rejection;
use sakura::store::InviteStore;
use sakura::topology::{build_snapshot, channels_to_search, CachedChannel, ChannelKind};

fn category(id: u64, position: i64) -> CachedChannel {
    CachedChannel { id, position, kind: ChannelKind::Category }
}

fn text(id: u64, position: i64, parent: u64, has_message: bool) -> CachedChannel {
    CachedChannel {
        id,
        position,
        kind: ChannelKind::Text {
            parent_id: Some(parent),
            last_message_id: if has_message { Some(id * 1000) } else { None },
        },
    }
}

fn record(code: &str, valid: bool, permanent: bool, expires_at: Option<u64>) -> Invite {
    Invite {
        guild_id: 1,
        code: code.to_string(),
        expires_at,
        is_permanent: Some(permanent),
        is_valid: Some(valid),
        is_checked: true,
        created_at: 1,
        updated_at: 2,
    }
}

/// Runs a scan to the end: every channel is readable, `messages` gives the
/// texts of a channel, `valid` says which looked-up codes exist. Returns the
/// order in which channels were probed and the looked-up codes.
fn run(
    scan: &mut Scan,
    store: &mut InviteStore,
    guild: u64,
    messages: &dyn Fn(u64) -> Vec<String>,
    valid: &dyn Fn(&str) -> bool,
) -> (Vec<u64>, Vec<String>) {
    let mut probed = vec![];
    let mut looked_up = vec![];
    loop {
        match scan.next_action() {
            Action::Probe { channel_id, fetch } => {
                probed.push(channel_id);
                let ms = if fetch { Some(messages(channel_id)) } else { None };
                scan.probed(ChannelAccess::Readable, ms);
            },
            Action::Validate { code } => {
                let lookup = if valid(&code) {
                    Some(InviteLookup { expires_at: None, max_age: None, max_uses: None })
                } else {
                    None
                };
                let v = scan.validated(lookup);
                store.upsert_code(guild, &code, v, scan.now);
                looked_up.push(code);
            },
            Action::EmitCategory => scan.finish_category(),
            Action::Finish => break,
        }
    }
    (probed, looked_up)
}

#[test]
fn snapshot_orders_by_position() {
    let channels = vec![
        category(30, 3),
        text(5, 5, 10, true),
        category(10, 1),
        text(2, 2, 10, true),
        category(20, 2),
        category(99, 0),
        text(7, 0, 20, true),
    ];
    let plans = build_snapshot(&channels, &vec![10, 20, 30], &vec![]);
    let order: Vec<u64> = plans.iter().map(|p| p.category.id).collect();
    assert_eq!(order, vec![10, 20, 30]);
    let first: Vec<u64> = plans[0].channels.iter().map(|c| c.id).collect();
    assert_eq!(first, vec![2, 5]);
    assert_eq!(plans[1].channels.len(), 1);
    assert!(plans[2].channels.is_empty());
}

#[test]
fn snapshot_drops_ignored_and_foreign_channels() {
    let channels = vec![
        category(10, 0),
        text(1, 0, 10, true),
        text(2, 1, 10, true),
        text(3, 2, 11, true),
        CachedChannel { id: 4, position: 3, kind: ChannelKind::Other },
        CachedChannel { id: 5, position: 4, kind: ChannelKind::Text { parent_id: None, last_message_id: None } },
    ];
    let plans = build_snapshot(&channels, &vec![10], &vec![2]);
    assert_eq!(plans.len(), 1);
    let ids: Vec<u64> = plans[0].channels.iter().map(|c| c.id).collect();
    assert_eq!(ids, vec![1]);
    assert!(build_snapshot(&channels, &vec![], &vec![]).is_empty());
}

#[test]
fn searchable_channels_of_a_category() {
    let channels = vec![text(1, 0, 10, true), text(2, 1, 10, false), text(3, 2, 11, true), category(10, 0)];
    assert_eq!(channels_to_search(&channels, 10), vec![1]);
}

#[test]
fn reports_follow_display_order() {
    let channels = vec![
        category(30, 3),
        category(10, 1),
        category(20, 2),
        text(5, 5, 10, false),
        text(2, 2, 10, false),
    ];
    let plans = build_snapshot(&channels, &vec![10, 20, 30], &vec![]);
    let mut scan = Scan::new(plans, vec![], 1_000);
    let mut store = InviteStore::new();
    let (probed, _) = run(&mut scan, &mut store, 1, &|_| vec![], &|_| true);
    assert_eq!(probed, vec![2, 5]);
    let cats: Vec<u64> = scan.check.category_results.iter().map(|c| c.category_id).collect();
    assert_eq!(cats, vec![10, 20, 30]);
    let chans: Vec<u64> = scan.check.category_results[0].channel_results.iter().map(|c| c.channel_id).collect();
    assert_eq!(chans, vec![2, 5]);
}

#[test]
fn end_to_end_one_category_two_channels() {
    let channels = vec![category(100, 0), text(1, 2, 100, true), text(2, 1, 100, false)];
    let plans = build_snapshot(&channels, &vec![100], &vec![]);
    let mut store = InviteStore::new();
    let known = store.read_guild_invites(9);
    let mut scan = Scan::new(plans, known, 5_000);
    let msgs = |id: u64| if id == 1 { vec!["come to discord.gg/fresh".to_string()] } else { vec![] };
    let (probed, looked_up) = run(&mut scan, &mut store, 9, &msgs, &|_| true);
    assert_eq!(probed, vec![2, 1]);
    assert_eq!(looked_up, vec!["fresh".to_string()]);
    let recs = store.read_guild_invites(9);
    assert_eq!(recs.len(), 1);
    assert_eq!(recs[0].code, "fresh");
    assert!(recs[0].is_checked);
    assert_eq!(recs[0].is_valid, Some(true));
    let cat = &scan.check.category_results[0];
    assert_eq!(cat.channel_results, vec![
        ChannelResult { bad: 0, channel_id: 2, good: 0 },
        ChannelResult { bad: 0, channel_id: 1, good: 1 },
    ]);
    let s = scan.summary(6_000);
    assert_eq!(s.total_channels, 2);
    assert_eq!(s.total_invites, 1);
    assert_eq!(s.total_good, 1);
    assert_eq!(s.total_bad, 0);
    assert_eq!(s.good_basis_points, 10_000);
    assert_eq!(s.bad_basis_points, 0);
    assert_eq!(s.elapsed_ms, 1_000);
}

#[test]
fn known_codes_are_not_looked_up() {
    let channels = vec![category(100, 0), text(1, 0, 100, true)];
    let plans = build_snapshot(&channels, &vec![100], &vec![]);
    let known = vec![
        record("good", true, true, None),
        record("gone", true, false, Some(10)),
        record("dead", false, false, None),
    ];
    let mut scan = Scan::new(plans, known, 1_000);
    let mut store = InviteStore::new();
    let msgs = |_| vec!["discord.gg/good discord.gg/gone discord.gg/dead discord.gg/new discord.gg/good".to_string()];
    let (_, looked_up) = run(&mut scan, &mut store, 1, &msgs, &|_| false);
    assert_eq!(looked_up, vec!["new".to_string()]);
    let r = scan.check.category_results[0].channel_results[0];
    assert_eq!(r, ChannelResult { bad: 3, channel_id: 1, good: 1 });
    assert_eq!(store.read_guild_invites(1)[0].is_valid, Some(false));
}

#[test]
fn unchecked_known_code_is_looked_up() {
    let channels = vec![category(100, 0), text(1, 0, 100, true)];
    let plans = build_snapshot(&channels, &vec![100], &vec![]);
    let mut seen = record("seen", true, true, None);
    seen.is_checked = false;
    seen.is_valid = None;
    seen.is_permanent = None;
    let mut scan = Scan::new(plans, vec![seen], 1_000);
    let mut store = InviteStore::new();
    let (_, looked_up) = run(&mut scan, &mut store, 1, &|_| vec!["discord.gg/seen".to_string()], &|_| true);
    assert_eq!(looked_up, vec!["seen".to_string()]);
}

#[test]
fn vanished_and_unreadable_channels() {
    let channels = vec![category(100, 0), text(1, 0, 100, true), text(2, 1, 100, true), text(3, 2, 100, true)];
    let plans = build_snapshot(&channels, &vec![100], &vec![]);
    let mut scan = Scan::new(plans, vec![], 0);
    match scan.next_action() {
        Action::Probe { channel_id, fetch } => {
            assert_eq!(channel_id, 1);
            assert!(fetch);
        },
        _ => panic!("expected a probe"),
    }
    scan.probed(ChannelAccess::Missing, None);
    scan.probed(ChannelAccess::NoPermission, None);
    scan.probed(ChannelAccess::Readable, None);
    assert!(matches!(scan.next_action(), Action::EmitCategory));
    scan.finish_category();
    assert!(matches!(scan.next_action(), Action::Finish));
    let cat = &scan.check.category_results[0];
    assert_eq!(cat.issues, 1);
    assert_eq!(cat.manual, vec![2, 3]);
    assert!(cat.channel_results.is_empty());
    assert_eq!(scan.summary(0).total_channels, 3);
}

#[test]
fn empty_scan_percentages_are_zero() {
    let mut scan = Scan::new(vec![], vec![], 10);
    assert!(matches!(scan.next_action(), Action::Finish));
    let s = scan.summary(5);
    assert_eq!(s.total_invites, 1);
    assert_eq!(s.bad_basis_points, 0);
    assert_eq!(s.good_basis_points, 0);
    assert_eq!(s.elapsed_ms, 0);
    scan.total_good = 2;
    scan.total_bad = 1;
    let s = scan.summary(10);
    assert_eq!(s.total_invites, 3);
    assert_eq!(s.bad_basis_points, 3333);
    assert_eq!(s.good_basis_points, 6667);
}

#[test]
fn known_codes_freshness() {
    assert_eq!(check_known_codes(None, None), Err(Rejection::NoCodes));
    let fresh = vec![record("a", true, true, None)];
    assert_eq!(check_known_codes(Some(&fresh), None), Ok(()));
    assert_eq!(check_known_codes(Some(&fresh), Some(2)), Ok(()));
    assert_eq!(check_known_codes(Some(&fresh), Some(3)), Err(Rejection::StillRefreshing));
    let mut unchecked = record("b", true, true, None);
    unchecked.is_valid = None;
    assert_eq!(check_known_codes(Some(&vec![unchecked]), Some(3)), Ok(()));
    assert_eq!(check_known_codes(Some(&vec![]), Some(3)), Ok(()));
}

#[test]
fn cache_window() {
    assert!(sakura::scan::cache_satisfies(15));
    assert!(sakura::scan::cache_satisfies(20));
    assert!(!sakura::scan::cache_satisfies(14));
    assert!(!sakura::scan::cache_satisfies(0));
    assert_eq!(sakura::scan::MESSAGE_WINDOW, 15);
}
