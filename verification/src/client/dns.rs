//! Name resolution policy: while the tunnel is up, names are resolved through it.

use vstd::prelude::*;
use vstd::string::*;

use crate::client::ClientError;

verus! {

/// How names are resolved; `tunnel` is the only way.
pub fn mode() -> (r: &'static str)
    ensures
        r@ == "tunnel"@,
{
    "tunnel"
}

/// Has names resolved through the tunnel. The policy allows nothing else, so this
/// never fails.
pub fn force_tunnel_dns() -> (r: Result<(), ClientError>)
    ensures
        r is Ok,
{
    Ok(())
}

} // verus!
