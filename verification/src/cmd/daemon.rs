//! Both servers side by side, behind one readiness signal.

use crate::args::{Daemon, Lmtp, Webhook};
use vstd::prelude::*;

verus! {

/// The options that the two servers of a daemon run with. The webhook
/// takes over the daemon's port and path. Neither server signals readiness
/// itself: the daemon does so once, on its own file descriptor, when both
/// have been started.
pub fn cmd(args: Daemon) -> (servers: (Webhook, Lmtp))
    ensures
        servers.0.port == args.port,
        servers.0.prefix@ == args.prefix@,
        servers.0.ready_fd.is_none(),
        servers.1.ready_fd.is_none(),
{
    (Webhook { port: args.port, prefix: args.prefix, ready_fd: None }, Lmtp { ready_fd: None })
}

} // verus!
