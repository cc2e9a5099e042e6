//! Mythic+ run recording: combat-log parsing, the recording controller's
//! decisions, and the capture-backend bookkeeping.

pub mod text;
pub mod paths;
pub mod combatlog;
pub mod logfiles;
pub mod tail;
pub mod config;
pub mod recorder;
pub mod session;
pub mod window;
