//! A declarative rule engine for a remote mailbox: it normalizes labels,
//! evaluates content-match and time-to-live retention rules against fetched
//! messages, groups messages into conversation threads, and applies the
//! resulting actions thread-consistently through a client capability
//! interface, with classified errors and bounded retry decisions.

pub mod client_ops;
pub mod fixtures;
pub mod imap_filter;
pub mod label;
pub mod message;
pub mod message_filter;
pub mod mock_client;
pub mod oauth2;
pub mod state_filter;
pub mod test_harness;
pub mod text;
pub mod thread;
pub mod utils;
pub mod virtual_clock;
pub mod virtual_mailbox;
