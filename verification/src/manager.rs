use vstd::prelude::*;

verus! {

/// The commands a configuration manager loop accepts.  The loop itself
/// lives with the runtime that hosts it; these are the decisions it
/// carries.
#[derive(Debug, Clone, Copy, PartialEq, Eq, Structural)]
pub enum ConfigurationCommand {
    /// Open or create the configuration store, load the data, and apply
    /// automatic options such as refreshing the server list.
    Start,
    /// Stop the manager, and with it the program.
    Stop,
    /// Refresh the server list from the configured source addresses.
    UpdateServerList,
}

/// The one command a minimal manager loop accepts.
#[derive(Debug, Clone, Copy, PartialEq, Eq, Structural)]
pub enum ConfigurationCommands {
    Shutdown,
}

} // verus!
