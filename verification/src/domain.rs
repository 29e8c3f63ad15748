//! Domain model: servers, profiles and authentication method.
//!
//! A server is identified by its `base_url`; a profile belongs to a server
//! and is identified by `(server_base_url, identifier)`. Actual credentials
//! don't live here: that's the credential store's job, queried with the same
//! key.

use vstd::prelude::*;

verus! {

/// A Grappa server the user can connect to.
#[derive(Debug, Clone, PartialEq, Eq)]
pub struct Server {
    /// Base URL of the server, also used as its identifying key.
    pub base_url: String,
    /// Label shown to the user when selecting a server.
    pub label: String,
}

/// How a profile authenticates against `POST /auth/login`.
///
/// Both variants travel on the wire `password` field, but are kept distinct
/// locally: a per-client token is scoped, and a `403 client_token_scope`
/// must never be treated as a wrong password to retry.
#[derive(Debug, Clone, Copy, PartialEq, Eq, Structural)]
pub enum AuthMethod {
    Password,
    ClientToken,
}

/// A profile that can authenticate on a given server.
#[derive(Debug, Clone, PartialEq, Eq)]
pub struct Profile {
    /// `base_url` of the `Server` this profile belongs to.
    pub server_base_url: String,
    /// Identifier sent as `identifier` in `POST /auth/login`.
    pub identifier: String,
    pub auth_method: AuthMethod,
    /// If `true`, the profile is offered again as selectable on later
    /// launches; the credential itself still lives only in the credential
    /// store, never here.
    pub remembered: bool,
}

} // verus!
