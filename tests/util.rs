use sakura::util::{get_shard_id, humanize, next_threshold, snowflake_to_ms};

#[test]
fn humanize_units() {
    assert_eq!(humanize(0, true), "");
    assert_eq!(humanize(5, true), "5ms");
    assert_eq!(humanize(5, false), "");
    assert_eq!(humanize(1_000, true), "1s");
    assert_eq!(humanize(90_061_001, true), "1d 1h 1m 1s 1ms");
    assert_eq!(humanize(86_400_000 + 120_000, false), "1d 2m");
    assert_eq!(humanize(3_600_000 * 25 + 12_345, true), "1d 1h 12s 345ms");
    assert_eq!(humanize(u64::MAX, false), "213503982334d 14h 25m 51s");
}

#[test]
fn shard_of_a_guild() {
    assert_eq!(get_shard_id(41771983423143937, 1), 0);
    assert_eq!(get_shard_id(41771983423143937, 2), (41771983423143937u64 >> 22) % 2);
    assert_eq!(get_shard_id(5 << 22, 3), 2);
}

#[test]
fn snowflake_time() {
    assert_eq!(snowflake_to_ms(0), 1420070400000);
    assert_eq!(snowflake_to_ms(175928847299117063), (175928847299117063u64 >> 22) + 1420070400000);
    assert_eq!(snowflake_to_ms(175928847299117063), 1462015105796);
}

#[test]
fn threshold_rounds_to_the_minute() {
    // now = 12:00:30.250 -> 12:10:00.250
    let now = 12 * 3_600_000 + 30_250;
    assert_eq!(next_threshold(now, 600_000), 600_000 - 30_000);
    assert_eq!(next_threshold(0, 600_000), 600_000);
}
