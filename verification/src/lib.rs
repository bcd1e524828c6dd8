//! Analytics over the archived message history of a guild.
//!
//! A snapshot holds the directories of a guild and the messages of its
//! channels. The library walks the history of a channel page by page
//! ([`fetch`]), decides which channels are private archives
//! ([`message_data::channels`]), folds a snapshot into counters per calendar
//! year ([`aggregate`], [`stats`]), and ranks and reports what it counted
//! ([`rank`], [`percent`], [`report`]).

pub mod aggregate;
pub mod calendar;
pub mod counter;
pub mod error;
pub mod fetch;
pub mod key;
pub mod live;
pub mod message_data;
pub mod order;
pub mod per_channel;
pub mod percent;
pub mod rank;
pub mod report;
pub mod stats;
pub mod utils;
