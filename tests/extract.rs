use sakura::extract::{extract_codes_from_message, extract_codes_from_messages};
use std::collections::HashSet;

fn set(v: Vec<String>) -> HashSet<String> {
    v.into_iter().collect()
}

fn strs(v: &[&str]) -> HashSet<String> {
    v.iter().map(|s| s.to_string()).collect()
}

#[test]
fn mixed_forms_and_case() {
    let r = extract_codes_from_message("join https://discord.gg/AbC123 now, also DISCORD.COM/invite/abc123");
    assert_eq!(r.len(), 2);
    assert_eq!(set(r), strs(&["AbC123", "abc123"]));
}

#[test]
fn no_link_gives_nothing() {
    assert!(extract_codes_from_message("").is_empty());
    assert!(extract_codes_from_message("hello there, discord is nice").is_empty());
    assert!(extract_codes_from_message("discord.gg/ with no code").is_empty());
}

#[test]
fn repeated_code_collapses() {
    let r = extract_codes_from_message("discord.gg/abc discord.gg/abc https://www.discord.gg/abc");
    assert_eq!(r, vec!["abc".to_string()]);
}

#[test]
fn app_host_and_subdomain() {
    let r = extract_codes_from_message("see http://ptb.discordapp.com/invite/x-y_z and discord.com/invite/Q9");
    assert_eq!(set(r), strs(&["x-y", "Q9"]));
}

#[test]
fn code_stops_at_first_other_character() {
    let r = extract_codes_from_message("(discord.gg/abc).");
    assert_eq!(r, vec!["abc".to_string()]);
}

#[test]
fn links_do_not_overlap() {
    let r = extract_codes_from_message("discord.gg/discord.gg/abc");
    assert_eq!(r, vec!["discord".to_string()]);
}

#[test]
fn codes_are_kept_in_order_of_first_appearance() {
    let r = extract_codes_from_message("discord.gg/b discord.gg/a discord.gg/b");
    assert_eq!(r, vec!["b".to_string(), "a".to_string()]);
}

#[test]
fn non_ascii_text_around_links() {
    let r = extract_codes_from_message("héllo → discord.gg/ünï discord.gg/ok🙂");
    assert_eq!(set(r), strs(&["ok"]));
}

#[test]
fn union_over_messages() {
    let ms = vec![
        "discord.gg/one and discord.gg/two".to_string(),
        "nothing here".to_string(),
        "again discord.gg/two, then discord.com/invite/three".to_string(),
    ];
    let r = extract_codes_from_messages(&ms);
    assert_eq!(r, vec!["one".to_string(), "two".to_string(), "three".to_string()]);
    assert!(extract_codes_from_messages(&vec![]).is_empty());
}
