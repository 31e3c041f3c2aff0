//! Virtual DNS: while the tunnel is up, every query goes through it.

use vstd::prelude::*;

use crate::protocol::{DEFAULT_DNS_UPSTREAMS, VIRTUAL_DNS_IP, VIRTUAL_DNS_PORT};
use crate::text::same_str;

verus! {

/// Address and port of the virtual resolver.
pub fn virtual_resolver() -> (r: (&'static str, u16))
    ensures
        r.0@ == "10.255.0.1"@,
        r.1 == 53,
{
    (VIRTUAL_DNS_IP, VIRTUAL_DNS_PORT)
}

/// Whether an address and port are those of the virtual resolver.
pub fn is_virtual_dns(addr: &str, port: u16) -> (r: bool)
    ensures
        r == (port == 53 && addr@ == "10.255.0.1"@),
{
    port == VIRTUAL_DNS_PORT && same_str(addr, VIRTUAL_DNS_IP)
}

/// Upstream resolvers, the primary one first.
pub fn upstreams() -> (r: &'static [&'static str])
    ensures
        r@.len() == 2,
        r@[0]@ == "1.1.1.1:53"@,
        r@[1]@ == "8.8.8.8:53"@,
{
    &DEFAULT_DNS_UPSTREAMS
}

/// The primary upstream resolver.
pub fn primary_upstream() -> (r: Option<&'static str>)
    ensures
        r matches Some(s) && s@ == "1.1.1.1:53"@,
{
    Some(DEFAULT_DNS_UPSTREAMS[0])
}

/// Whether DNS goes through the tunnel: always.
pub fn dns_via_tunnel() -> (r: bool)
    ensures
        r,
{
    true
}

/// The default upstream resolvers.
pub fn default_upstreams() -> (r: &'static [&'static str])
    ensures
        r@.len() == 2,
        r@[0]@ == "1.1.1.1:53"@,
        r@[1]@ == "8.8.8.8:53"@,
{
    upstreams()
}

} // verus!
