//! Core of a desktop markdown-editor backend: a directory change-watching
//! subsystem.  Raw filesystem notifications are coalesced per path inside a
//! debounce window, a session guarantees that at most one watch is active at
//! any instant, and a forwarder shapes debounced batches into UI
//! notifications while filtering out anything from a torn-down watch.

pub mod debounce;
pub mod events;
pub mod forward;
pub mod fsops;
pub mod session;
