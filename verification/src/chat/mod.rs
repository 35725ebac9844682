//! A chat room: its users, the payloads its clients exchange (a user joined,
//! a user left, a message), and the server state that keeps user names unique
//! and every payload that was broadcast.
pub mod api;
pub mod client;
pub mod channels;
pub mod messages;
pub mod payload;
pub mod state;
pub mod timestamp;
