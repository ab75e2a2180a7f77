//! The message-routing daemon: who may act on whom, what waits for the
//! operator, and what is done with what was allowed.
pub mod announce;
pub mod control;
pub mod curator;
pub mod icon;
pub mod mailbox;
pub mod notify;
pub mod registrations;
pub mod router;
pub mod tray;
