//! The edge's command line, as plain data: serve, add a user, or delete
//! one. The argument parser in front of it lives with the I/O layer.

use vstd::prelude::*;

verus! {

/// A parsed command line.
pub struct Cli {
    pub command: Commands,
}

/// The edge's subcommands.
pub enum Commands {
    /// Start the edge server and listen for incoming connections.
    Serve {},
    /// Add a new user and generate a secret key for them.
    AddUser { name: String, max_tunnels: Option<usize> },
    /// Delete an existing user by their name or secret key.
    DeleteUser { name_or_key: String },
}

} // verus!
