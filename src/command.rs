//! The bot's slash commands: their names and the argument types that carry
//! no platform data.

use vstd::prelude::*;
use crate::extract::chars_of;
use crate::setting::{color_spec, parse_embed_color, strip_hash, upper_of};

verus! {

/// Runs an invite check.
#[derive(Clone, Copy, Debug, PartialEq, Eq)]
pub struct CheckCommand;

/// Reports the gateway latency and round trip time.
#[derive(Clone, Copy, Debug, PartialEq, Eq)]
pub struct PingCommand;

/// Shows a guild's settings.
#[derive(Clone, Copy, Debug, PartialEq, Eq)]
pub struct SettingsCommand;

/// Shows process metrics.
#[derive(Clone, Copy, Debug, PartialEq, Eq)]
pub struct StatsCommand;

/// Sets the report color from a hexadecimal code such as `#F8F8FF` or `abc`.
#[derive(Debug)]
pub struct SetEmbedColor {
    pub color: String,
}

impl SetEmbedColor {
    /// The color asked for, or `None` when the code is not valid.
    pub fn value(&self) -> (r: Option<u32>)
        ensures
            r == color_spec(upper_of(strip_hash(self.color@))),
    {
        parse_embed_color(self.color.as_str())
    }
}

/// Every command the bot answers to.
#[derive(Clone, Copy, Debug, PartialEq, Eq)]
pub enum CommandKind {
    Category,
    Check,
    Ignore,
    Ping,
    /// Registered as `set`: changes a setting.
    Configure,
    Settings,
    Stats,
}

/// The name under which a command is registered.
pub open spec fn command_name(k: CommandKind) -> Seq<char> {
    match k {
        CommandKind::Category => seq!['c', 'a', 't', 'e', 'g', 'o', 'r', 'y'],
        CommandKind::Check => seq!['c', 'h', 'e', 'c', 'k'],
        CommandKind::Ignore => seq!['i', 'g', 'n', 'o', 'r', 'e'],
        CommandKind::Ping => seq!['p', 'i', 'n', 'g'],
        CommandKind::Configure => seq!['s', 'e', 't'],
        CommandKind::Settings => seq!['s', 'e', 't', 't', 'i', 'n', 'g', 's'],
        CommandKind::Stats => seq!['s', 't', 'a', 't', 's'],
    }
}

fn same_chars(a: &Vec<char>, b: &Vec<char>) -> (r: bool)
    ensures
        r == (a@ == b@),
{
    if a.len() != b.len() {
        return false;
    }
    let mut i: usize = 0;
    while i < a.len()
        invariant
            a@.len() == b@.len(),
            i <= a@.len(),
            forall|t: int| 0 <= t < i ==> a@[t] == b@[t],
        decreases a@.len() - i,
    {
        if a[i] != b[i] {
            return false;
        }
        i = i + 1;
    }
    assert(a@ =~= b@);
    true
}

/// The command registered under `name`, if any.
pub fn command_kind(name: &str) -> (r: Option<CommandKind>)
    ensures
        match r {
            Some(k) => command_name(k) == name@,
            None => forall|k: CommandKind| command_name(k) != name@,
        },
{
    let n = chars_of(name);
    let table: Vec<(CommandKind, Vec<char>)> = vec![
        (CommandKind::Category, vec!['c', 'a', 't', 'e', 'g', 'o', 'r', 'y']),
        (CommandKind::Check, vec!['c', 'h', 'e', 'c', 'k']),
        (CommandKind::Ignore, vec!['i', 'g', 'n', 'o', 'r', 'e']),
        (CommandKind::Ping, vec!['p', 'i', 'n', 'g']),
        (CommandKind::Configure, vec!['s', 'e', 't']),
        (CommandKind::Settings, vec!['s', 'e', 't', 't', 'i', 'n', 'g', 's']),
        (CommandKind::Stats, vec!['s', 't', 'a', 't', 's']),
    ];
    proof {
        assert(table@[0].1@ =~= command_name(CommandKind::Category));
        assert(table@[1].1@ =~= command_name(CommandKind::Check));
        assert(table@[2].1@ =~= command_name(CommandKind::Ignore));
        assert(table@[3].1@ =~= command_name(CommandKind::Ping));
        assert(table@[4].1@ =~= command_name(CommandKind::Configure));
        assert(table@[5].1@ =~= command_name(CommandKind::Settings));
        assert(table@[6].1@ =~= command_name(CommandKind::Stats));
    }
    let mut i: usize = 0;
    while i < table.len()
        invariant
            table@.len() == 7,
            n@ == name@,
            forall|t: int| 0 <= t < 7 ==> (#[trigger] table@[t]).1@ == command_name(table@[t].0),
            table@[0].0 == CommandKind::Category,
            table@[1].0 == CommandKind::Check,
            table@[2].0 == CommandKind::Ignore,
            table@[3].0 == CommandKind::Ping,
            table@[4].0 == CommandKind::Configure,
            table@[5].0 == CommandKind::Settings,
            table@[6].0 == CommandKind::Stats,
            i <= 7,
            forall|t: int| 0 <= t < i ==> command_name((#[trigger] table@[t]).0) != name@,
        decreases 7 - i,
    {
        if same_chars(&n, &table[i].1) {
            return Some(table[i].0);
        }
        i = i + 1;
    }
    proof {
        assert forall|k: CommandKind| command_name(k) != name@ by {
            match k {
                CommandKind::Category => assert(command_name(table@[0].0) != name@),
                CommandKind::Check => assert(command_name(table@[1].0) != name@),
                CommandKind::Ignore => assert(command_name(table@[2].0) != name@),
                CommandKind::Ping => assert(command_name(table@[3].0) != name@),
                CommandKind::Configure => assert(command_name(table@[4].0) != name@),
                CommandKind::Settings => assert(command_name(table@[5].0) != name@),
                CommandKind::Stats => assert(command_name(table@[6].0) != name@),
            }
        }
    }
    None
}

} // verus!
