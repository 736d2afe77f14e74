//! The operations the registry offers, as a caller asks for them.
use vstd::prelude::*;

verus! {

/// One request to the registry.
#[derive(Debug)]
pub enum Command {
    /// List the installed instances.
    List,
    /// Add an instance from each of these paths.
    Add { paths: Vec<String> },
    /// Get the current instance.
    Get,
    /// Make this instance the current one (the `set` operation).
    Select { instance: String },
}

} // verus!
