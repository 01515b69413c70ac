//! Verified core of a ping-pong TCP benchmark: the configuration it reads,
//! the text it reports, and the decisions that drive its client and echo
//! server connections. Sockets, runtimes and threads live outside this crate;
//! they perform the actions that the functions here choose.

pub mod config;
pub mod text;
pub mod cores;
pub mod affinity;
pub mod banner;
pub mod client;
pub mod echo;
