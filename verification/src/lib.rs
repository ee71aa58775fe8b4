//! A poll-based reverse tunnel between a public node and a private relay.
//!
//! The public node queues client requests in a broker; the private relay
//! polls, answers what it picked up and hands the answers back on a later
//! poll. Signed requests are authenticated and their answers are encrypted so
//! that the public node can neither read nor forge them.

pub mod bindings;
pub mod broker;
pub mod client;
pub mod config;
pub mod crypto;
pub mod decimal;
pub mod laws;
pub mod messages;
pub mod relay;
pub mod validator;
