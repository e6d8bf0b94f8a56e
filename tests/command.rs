use sakura::command::{command_kind, CommandKind, SetEmbedColor};

#[test]
fn command_names() {
    assert_eq!(command_kind("category"), Some(CommandKind::Category));
    assert_eq!(command_kind("check"), Some(CommandKind::Check));
    assert_eq!(command_kind("ignore"), Some(CommandKind::Ignore));
    assert_eq!(command_kind("ping"), Some(CommandKind::Ping));
    assert_eq!(command_kind("set"), Some(CommandKind::Configure));
    assert_eq!(command_kind("settings"), Some(CommandKind::Settings));
    assert_eq!(command_kind("stats"), Some(CommandKind::Stats));
    assert_eq!(command_kind("Check"), None);
    assert_eq!(command_kind("sett"), None);
    assert_eq!(command_kind(""), None);
}

#[test]
fn embed_color_option() {
    assert_eq!(SetEmbedColor { color: "#fff".to_string() }.value(), Some(0xFFFFFF));
    assert_eq!(SetEmbedColor { color: "nope".to_string() }.value(), None);
}
