//! Verified core of the Pocket Relay client plugin: the memory patterns and
//! patch plans that redirect the game to a Pocket Relay server, the Quality of
//! Service reply format, the public address cache and lookup, and the
//! upgrade request that pipes the game's main connection to the server.
pub mod hooks;
pub mod pattern;
pub mod plugin;
pub mod qos;
pub mod text;
pub mod upgrade;
