//! The logic of a line echo server over TCP: option parsing, the decision on a
//! freshly created listener, the acceptor's step, and the per-connection echo
//! state machine with its line framing.
pub mod config;
pub mod listener;
pub mod session;
pub mod stream;
