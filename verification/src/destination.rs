//! Destinations: where replication streams are written. Exactly one of
//! the SSH and local settings must be present on a well-formed entry.

use vstd::prelude::*;

verus! {

/// A remote destination reached over SSH with public-key authentication.
/// `host` is a `host:port` pair.
#[derive(Debug)]
pub struct DestinationSsh {
    pub username: String,
    pub identity_file: String,
    pub folder: String,
    pub host: String,
}

/// A directory on the local machine.
#[derive(Debug)]
pub struct DestinationLocal {
    pub folder: String,
}

/// One configured destination: a worker-pool size, the file and directory
/// modes given to created artifacts, and the sink itself.
#[derive(Debug)]
pub struct Destination {
    pub parallelism: u32,
    pub chmod: i32,
    pub chmod_dir: i32,
    pub ssh: Option<DestinationSsh>,
    pub local: Option<DestinationLocal>,
}

} // verus!
