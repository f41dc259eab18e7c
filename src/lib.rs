//! The core of a game mod manager: deciding where the contents of an archive
//! go among the installed mods, settling conflicts, naming and checking the
//! folders involved, and keeping the mod settings document in step when a mod
//! is deleted.

pub mod names;
pub mod decimal;
pub mod settings;
pub mod settings_laws;
pub mod install;
pub mod layout;
pub mod canonical;
pub mod steam;
pub mod window;
