//! Refreshing the alias table from the remote endpoint.

use crate::config::Config;
use crate::text::utf8;
use crate::utils::{succeeded, MapType, Response, TableWrite};
use vstd::prelude::*;

verus! {

/// What the refresh writes, given the endpoint's answer to the fetch of
/// the alias table from `MapType::Aliases.url(config)`: where the fetch
/// succeeded, the alias table is replaced by what came; where it failed,
/// nothing is written and the old table stays.
pub fn cmd(config: &Config, fetched: Response) -> (plan: Option<TableWrite>)
    ensures
        succeeded(fetched.status) <==> plan.is_some(),
        plan matches Some(w) ==> w.path@ == config.aliases@ && w.content@ == utf8(fetched.body@),
{
    match MapType::Aliases.get(fetched) {
        Ok(data) => Some(MapType::Aliases.write(config, data.as_str().as_bytes())),
        Err(_) => None,
    }
}

} // verus!
