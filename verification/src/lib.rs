//! The core of a direct-messaging backend: the bounded conversation log,
//! the store of conversations, the registry of live connections, and the
//! dispatcher that turns client commands into replies.

pub mod cache;
pub mod history;
pub mod identity;
pub mod manager;
pub mod messages;
pub mod ws;
