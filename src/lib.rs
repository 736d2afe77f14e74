//! A registry of installed runtime instances: a store directory holding one
//! subdirectory per instance and a `current` link naming the selected one.
//!
//! The library decides; the program around it touches the filesystem. Every
//! function here works on plain values (paths as text, what the filesystem
//! reported of the store) and says in its contract what it returns.

pub mod command;
pub mod error;
pub mod install;
pub mod name;
pub mod path;
pub mod selection;
pub mod store;
pub mod text;

pub use command::Command;
pub use error::RegistryError;
pub use install::{add, add_succeeded, AddInput, AddStep};
pub use name::{archive_suffixes, derive_name, derive_name_with};
pub use path::extend_path;
pub use selection::{get, LinkState, SetPlan};
pub use store::{list, StoreEntry, CURRENT_LINK, STAGING_LINK};
