//! Refreshing the transport table from the remote endpoint.

use crate::config::Config;
use crate::text::utf8;
use crate::utils::{succeeded, transport_entry, transport_line, MapType, Response, TableWrite};
use vstd::prelude::*;

verus! {

/// What the refresh writes, given the endpoint's answer to the fetch of
/// the transport table from `MapType::Transport.url(config)`: where the
/// fetch succeeded, the transport table is replaced by one line, what came
/// with the LMTP socket as its transport; where it failed, nothing is
/// written and the old table stays.
pub fn cmd(config: &Config, fetched: Response) -> (plan: Option<TableWrite>)
    ensures
        succeeded(fetched.status) <==> plan.is_some(),
        plan matches Some(w) ==> w.path@ == config.transport@ && w.content@ == transport_line(
            utf8(fetched.body@),
            config.socket@,
        ),
{
    match MapType::Transport.get(fetched) {
        Ok(data) => {
            let line = transport_entry(data.as_str().as_bytes(), config.socket.as_str());
            Some(MapType::Transport.write(config, line.as_slice()))
        },
        Err(_) => None,
    }
}

} // verus!
