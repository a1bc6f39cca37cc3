//! The settings that every part of the bridge reads and none changes.

use vstd::prelude::*;

verus! {

/// The settings of the bridge. They are made once, when the program
/// starts, and handed on read-only.
#[derive(Clone, Debug)]
pub struct Config {
    /// The host of the remote endpoint.
    pub host: String,
    /// The token that the remote endpoint and the webhook's callers share.
    pub token: String,
    /// The path of the alias table.
    pub aliases: String,
    /// The path of the transport table.
    pub transport: String,
    /// The path of the socket that the LMTP server listens on.
    pub socket: String,
}

/// The path of the alias table where the settings name none.
pub const DEFAULT_ALIASES: &'static str = "/etc/postfix/virtual_alias_odoo";

/// The path of the transport table where the settings name none.
pub const DEFAULT_TRANSPORT: &'static str = "/etc/postfix/transport_odoo";

/// The path of the LMTP socket where the settings name none.
pub const DEFAULT_SOCKET: &'static str = "/var/spool/postfix/private/odoo-lmtp";

/// The path of the alias table where the settings name none.
pub fn default_aliases() -> (path: String)
    ensures
        path@ == DEFAULT_ALIASES@,
{
    DEFAULT_ALIASES.to_owned()
}

/// The path of the transport table where the settings name none.
pub fn default_transport() -> (path: String)
    ensures
        path@ == DEFAULT_TRANSPORT@,
{
    DEFAULT_TRANSPORT.to_owned()
}

/// The path of the LMTP socket where the settings name none.
pub fn default_socket() -> (path: String)
    ensures
        path@ == DEFAULT_SOCKET@,
{
    DEFAULT_SOCKET.to_owned()
}

} // verus!
