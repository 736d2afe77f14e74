//! What can go wrong in the registry.
use vstd::prelude::*;

verus! {

/// The ways a registry operation can fail.
#[derive(Debug, Clone, Copy, PartialEq, Eq, Structural)]
pub enum RegistryError {
    /// No usable instance name can be had from an input path.
    InvalidName,
    /// Two distinct inputs of one `add` derive the same name.
    NameCollision,
    /// The store already holds an entry of the derived name.
    AlreadyInstalled,
    /// The named instance is not in the store.
    InstanceNotFound,
    /// The `current` link cannot be read, or names no instance folder.
    CorruptSelection,
    /// A filesystem operation failed.
    IoError,
}

impl RegistryError {
    /// A short description for diagnostics.
    pub fn message(&self) -> (r: &'static str) {
        match self {
            RegistryError::InvalidName => "cannot derive an instance name from the input path",
            RegistryError::NameCollision => "another input derives the same instance name",
            RegistryError::AlreadyInstalled => "instance is already installed",
            RegistryError::InstanceNotFound => "instance does not exist",
            RegistryError::CorruptSelection => "the current selection cannot be read",
            RegistryError::IoError => "filesystem operation failed",
        }
    }
}

} // verus!
