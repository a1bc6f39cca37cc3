//! What the command line selects: the settings file, the switches, and one
//! of the commands with its own options.

use vstd::prelude::*;

verus! {

/// The settings file that is read where the command line names none.
pub const DEFAULT_CONFIG: &'static str = "/etc/postfix/odoo-mailer.yml";

/// The port that the webhook listens on where the command line names none.
pub const DEFAULT_PORT: u16 = 8000;

/// The path that the webhook serves where the command line names none.
pub const DEFAULT_PREFIX: &'static str = "/aliases";

/// The whole command line.
#[derive(Debug)]
pub struct Opts {
    /// The settings file with the connection parameters.
    pub config: String,
    /// More detailed output.
    pub verbose: bool,
    /// Keep the body of a message whose sending broke off.
    pub debug: bool,
    /// The command to run.
    pub subcmd: SubCommand,
}

/// The commands.
#[derive(Debug)]
pub enum SubCommand {
    Pipe(Pipe),
    Aliases(Aliases),
    Webhook(Webhook),
    Lmtp(Lmtp),
    Daemon(Daemon),
    Transport(Transport),
}

/// Send one message from the standard input.
#[derive(Debug)]
pub struct Pipe {}

/// Refresh the alias table from the remote endpoint.
#[derive(Debug)]
pub struct Aliases {}

/// Serve the webhook that takes new routing tables.
#[derive(Debug)]
pub struct Webhook {
    /// The port to listen on.
    pub port: u16,
    /// The path that the webhook serves.
    pub prefix: String,
    /// The file descriptor on which readiness is signalled.
    pub ready_fd: Option<i32>,
}

/// Serve LMTP on the local socket.
#[derive(Debug)]
pub struct Lmtp {
    /// The file descriptor on which readiness is signalled.
    pub ready_fd: Option<i32>,
}

/// Refresh both tables, and serve the webhook and LMTP side by side.
#[derive(Debug)]
pub struct Daemon {
    /// The port for the webhook to listen on.
    pub port: u16,
    /// The path that the webhook serves.
    pub prefix: String,
    /// The file descriptor on which readiness is signalled.
    pub ready_fd: Option<i32>,
}

/// Refresh the transport table from the remote endpoint.
#[derive(Debug)]
pub struct Transport {}

/// The settings file that is read where the command line names none.
pub fn default_config() -> (path: String)
    ensures
        path@ == DEFAULT_CONFIG@,
{
    DEFAULT_CONFIG.to_owned()
}

/// The path that the webhook serves where the command line names none.
pub fn default_prefix() -> (path: String)
    ensures
        path@ == DEFAULT_PREFIX@,
{
    DEFAULT_PREFIX.to_owned()
}

} // verus!
