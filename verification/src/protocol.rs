//! Compatibility contract of the Grappa wire protocol: versions are compared
//! with `>=`, never `==`, so a newer server stays usable.

use vstd::prelude::*;

verus! {

/// The lowest Grappa `protocol_version` this build can talk to.
pub const MIN_SUPPORTED_PROTOCOL_VERSION: u32 = 1;

/// The compatibility fields of `GET /api/config`, echoed again in the join
/// reply of the user topic.
#[derive(Debug, Clone, Copy, PartialEq, Eq, Structural)]
pub struct ServerCompatibility {
    /// What the server speaks right now.
    pub protocol_version: u32,
    /// The floor the server enforces on the version a client declares;
    /// unrelated to what this client itself requires.
    pub min_protocol_version: u32,
}

impl ServerCompatibility {
    /// Whether this client understands what the server emits. The server's
    /// own `min_protocol_version` plays no part in it.
    pub fn supported_by_cordiale(&self) -> (supported: bool)
        ensures
            supported == (self.protocol_version >= MIN_SUPPORTED_PROTOCOL_VERSION),
    {
        self.protocol_version >= MIN_SUPPORTED_PROTOCOL_VERSION
    }
}

/// A server that is supported stays supported when its protocol version
/// grows, whatever floor it enforces on clients.
pub proof fn newer_servers_stay_supported(older: ServerCompatibility, newer: ServerCompatibility)
    requires
        older.protocol_version >= MIN_SUPPORTED_PROTOCOL_VERSION,
        newer.protocol_version >= older.protocol_version,
    ensures
        newer.protocol_version >= MIN_SUPPORTED_PROTOCOL_VERSION,
{
}

} // verus!
