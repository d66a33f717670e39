//! A chat bot's bookkeeping: it watches the messages of group chats, keeps
//! per chat and user the message timestamps and keyword points, and renders
//! leaderboard reports that stay up to date for a while after they were asked for.
//!
//! The library holds the data and the decisions. What reaches the outside
//! world (the chat platform, the snapshot file, the clocks of the engine) is
//! left to the program around it, which hands in events and carries out the
//! steps that the library names.

use vstd::prelude::*;

pub mod bot;
pub mod commands;
pub mod counting;
pub mod dumps;
pub mod keywords;
pub mod metadata_store;
pub mod ranking;
pub mod share;
pub mod text;
pub mod time;

pub use bot::StatsBot;
pub use metadata_store::MetadataStore;

verus! {

/// Identifier of a chat user.
pub type TelegramUserId = i32;

/// Identifier of a conversation.
pub type TelegramChatId = i64;

/// Identifier of a delivered message.
pub type TelegramMessageId = i32;

} // verus!
