//! The logic of the DSTP relay, which stands between a game server and its remote
//! backend.
//!
//! The game can only reach its own machine. The relay listens there and forwards
//! each request to the backend; syncs go through a lasting connection, the
//! tunnel, on which the backend also pushes commands. `relay` says what is done
//! with a request, `tunnel` what is done about the connection, and `config`
//! where the settings come from. Sockets, files and the clock's alarms are the
//! caller's.
pub mod clock;
pub mod commands;
pub mod config;
pub mod endpoint;
pub mod headers;
pub mod json;
pub mod relay;
pub mod report;
pub mod sync;
pub mod text;
pub mod tunnel;
