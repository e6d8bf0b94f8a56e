//! Invite-check pipeline of a chat bot: code extraction, invite records,
//! guild settings, channel topology and the scan that classifies invites.

pub mod command;
pub mod extract;
pub mod invite;
pub mod scan;
pub mod setting;
pub mod store;
pub mod topology;
pub mod util;
