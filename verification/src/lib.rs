//! Host side of a flex-sensor input device: the device's wire protocol, the
//! firmware upload handshake, the connection supervisor and the chord decoder
//! that turns sensor transitions into text.

pub mod arduino;
pub mod compress;
pub mod config;
pub mod decoder;
pub mod error;
pub mod json;
pub mod text;
