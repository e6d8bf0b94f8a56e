use sakura::setting::{
    check_eligibility, color_from_hex, parse_embed_color, remove_leading_hashtag, validate_hex_code, ListError,
    Rejection, Setting, CHECK_COOLDOWN_MS, DEFAULT_EMBED_COLOR,
};

fn ready(guild: u64) -> Setting {
    let mut s = Setting::new(guild);
    s.results_channel_id = Some(50);
    s.add_category(10).unwrap();
    s
}

#[test]
fn new_settings_have_defaults() {
    let s = Setting::new(3);
    assert_eq!(s.guild_id, 3);
    assert_eq!(s.embed_color, DEFAULT_EMBED_COLOR);
    assert_eq!(s.embed_color, 0xF8F8FF);
    assert!(s.results_channel_id.is_none());
    assert!(s.category_channel_ids.is_empty());
    assert!(s.ignored_channel_ids.is_empty());
    assert!(s.last_check.is_none());
    assert!(!s.in_check);
}

#[test]
fn eligible_request_passes() {
    let s = ready(1);
    assert_eq!(check_eligibility(Some(&s), 1_000_000, true, 50), Ok(()));
}

#[test]
fn each_rejection() {
    assert_eq!(check_eligibility(None, 0, true, 50), Err(Rejection::NoSettings));

    let mut s = Setting::new(1);
    assert_eq!(check_eligibility(Some(&s), 0, true, 50), Err(Rejection::NoResultsChannel));
    s.results_channel_id = Some(50);
    assert_eq!(check_eligibility(Some(&s), 0, false, 50), Err(Rejection::ResultsChannelUnreachable));
    assert_eq!(
        check_eligibility(Some(&s), 0, true, 51),
        Err(Rejection::WrongChannel { results_channel_id: 50 })
    );
    assert_eq!(check_eligibility(Some(&s), 0, true, 50), Err(Rejection::NoCategories));
    s.add_category(10).unwrap();
    s.in_check = true;
    assert_eq!(check_eligibility(Some(&s), 0, true, 50), Err(Rejection::InProgress));
}

#[test]
fn cooldown_gives_retry_time() {
    let mut s = ready(1);
    s.last_check = Some(10_000_000);
    let now = 10_000_000 + 3_600_000;
    let expected = now / 1000 + (10_000_000 + CHECK_COOLDOWN_MS - now) / 1000;
    assert_eq!(
        check_eligibility(Some(&s), now, true, 50),
        Err(Rejection::Cooldown { next_check_s: expected })
    );
    assert_eq!(expected, (10_000_000 + 86_400_000) / 1000);
    // less than a second left counts as elapsed
    assert_eq!(check_eligibility(Some(&s), 10_000_000 + CHECK_COOLDOWN_MS - 999, true, 50), Ok(()));
    assert!(check_eligibility(Some(&s), 10_000_000 + CHECK_COOLDOWN_MS - 1000, true, 50).is_err());
}

#[test]
fn running_scan_is_refused_without_change() {
    let mut s = ready(1);
    s.in_check = true;
    let before = format!("{:?}", s);
    assert_eq!(s.start_check(5_000, true, 50), Err(Rejection::InProgress));
    assert_eq!(format!("{:?}", s), before);
}

#[test]
fn start_and_finish_check() {
    let mut s = ready(1);
    assert_eq!(s.start_check(5_000, true, 50), Ok(()));
    assert!(s.in_check);
    assert_eq!(s.start_check(5_000, true, 50), Err(Rejection::InProgress));
    s.finish_check(6_000);
    assert!(!s.in_check);
    assert_eq!(s.last_check, Some(6_000));
    assert!(matches!(s.start_check(7_000, true, 50), Err(Rejection::Cooldown { .. })));
}

#[test]
fn category_and_ignore_lists() {
    let mut s = Setting::new(1);
    assert_eq!(s.add_category(5), Ok(()));
    assert_eq!(s.add_category(5), Err(ListError::AlreadyListed));
    assert_eq!(s.category_channel_ids, vec![5]);
    assert_eq!(s.remove_category(6), Err(ListError::NotListed));
    assert_eq!(s.remove_category(5), Ok(()));
    assert!(s.category_channel_ids.is_empty());
    assert_eq!(s.add_ignored(8), Ok(()));
    assert_eq!(s.add_ignored(8), Err(ListError::AlreadyListed));
    assert_eq!(s.remove_ignored(8), Ok(()));
    assert_eq!(s.remove_ignored(8), Err(ListError::NotListed));
}

#[test]
fn deleted_channel_leaves_every_list() {
    let mut s = Setting::new(1);
    s.add_category(5).unwrap();
    s.add_category(6).unwrap();
    s.add_ignored(5).unwrap();
    s.results_channel_id = Some(5);
    s.delete_channel(5);
    assert_eq!(s.category_channel_ids, vec![6]);
    assert!(s.ignored_channel_ids.is_empty());
    assert_eq!(s.results_channel_id, None);
    s.results_channel_id = Some(9);
    s.delete_channel(6);
    assert_eq!(s.results_channel_id, Some(9));
    assert!(s.category_channel_ids.is_empty());
}

#[test]
fn leading_hashtag() {
    assert_eq!(remove_leading_hashtag("#abc"), "abc");
    assert_eq!(remove_leading_hashtag("abc"), "abc");
    assert_eq!(remove_leading_hashtag("##a"), "#a");
    assert_eq!(remove_leading_hashtag(""), "");
}

#[test]
fn colors() {
    assert_eq!(parse_embed_color("#F8F8FF"), Some(0xF8F8FF));
    assert_eq!(parse_embed_color("f8f8ff"), Some(0xF8F8FF));
    assert_eq!(parse_embed_color("#abc"), Some(0xAABBCC));
    assert_eq!(parse_embed_color("000"), Some(0));
    assert_eq!(parse_embed_color("#FFFFFF"), Some(0xFFFFFF));
    assert_eq!(parse_embed_color("#12345"), None);
    assert_eq!(parse_embed_color("#ABCDEFA"), None);
    assert_eq!(parse_embed_color("xyz"), None);
    assert_eq!(parse_embed_color(""), None);
    assert_eq!(color_from_hex("1A2B3C"), Some(0x1A2B3C));
    assert_eq!(color_from_hex("12G"), None);
}

#[test]
fn colors_are_read_after_uppercasing() {
    // U+FB00 uppercases to "FF"
    assert_eq!(parse_embed_color("\u{FB00}\u{FB00}\u{FB00}"), Some(0xFFFFFF));
    assert_eq!(color_from_hex("\u{FB00}\u{FB00}\u{FB00}"), None);
}

#[test]
fn hex_codes() {
    assert!(validate_hex_code("abc"));
    assert!(validate_hex_code("ABCDEF"));
    assert!(validate_hex_code("0a0B0c"));
    assert!(!validate_hex_code("abcd"));
    assert!(!validate_hex_code("#abc"));
    assert!(!validate_hex_code(""));
    assert!(!validate_hex_code("ggg"));
}
