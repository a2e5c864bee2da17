//! Verified core of a clipboard manager: history storage, the capture
//! filter, version comparison, search ranking and the small text formats
//! that the application reads and writes.

pub mod autostart;
pub mod clipboard;
pub mod commands;
pub mod history;
pub mod numbers;
pub mod paths;
pub mod search;
pub mod settings;
pub mod shortcuts;
pub mod storage;
pub mod storage_laws;
pub mod text;
pub mod updater;
pub mod version;
