//! What the real platform decides: which commands are run for a change, which are
//! run to undo it, and what their outcomes amount to.
//!
//! The commands themselves are run outside. Where several are run in turn, a
//! machine says what is to be done next and is told what came of it.

use vstd::prelude::*;
use vstd::string::*;

use crate::client::lifecycle::{spec_virtual_dns_ip, virtual_dns_ip};
use crate::client::platform::windows::{
    decode_cmd_output, dns_add_args, dns_args, dns_more_args, dns_set_args, mask_text,
    masks_are_written_as_addresses, printed, route_add_args, route_add_if_args, route_args,
    route_delete_args, route_words, Ipconfig, RouteTable,
};
use crate::client::platform::{outcome, route_models, IpAddr, IpModel};
use crate::client::{ClientError, ClientFault};
use crate::net::{
    address_text_holds_no_separator, address_text_round_trip, octets_are_in_order,
    range_is_no_address, Ipv4Addr,
};
use crate::netstack::tun::{Route, RouteModel};
use crate::table::{key_of, value_index, value_index_finds};
use crate::text::{chars_of, decimal, find_first, joined, string_of, strings};

verus! {

/// A route that is to be added.
pub struct RouteCommand {
    /// Arguments of `route`.
    pub args: Vec<String>,
    /// What is noted of the route.
    pub route: Route,
}

/// Mathematical counterpart of [`RouteCommand`].
pub struct RouteCommandModel {
    pub args: Seq<Seq<char>>,
    pub route: RouteModel,
}

impl View for RouteCommand {
    type V = RouteCommandModel;

    open spec fn view(&self) -> RouteCommandModel {
        RouteCommandModel { args: strings(self.args@), route: self.route@ }
    }
}

/// The command that adds a route to a destination `base/prefix`.
pub open spec fn command_for(dest: Seq<char>, via: Ipv4Addr, ifindex: Option<u32>) -> Result<
    RouteCommandModel,
    ClientFault,
> {
    match route_args("add"@, dest, via.spec_text(), ifindex) {
        Ok(args) => Ok(
            RouteCommandModel { args, route: RouteModel { dest, via: via.spec_text() } },
        ),
        Err(fault) => Err(fault),
    }
}

fn build(dest: String, via: Ipv4Addr, ifindex: Option<u32>) -> (r: Result<RouteCommand, ClientError>)
    ensures
        match (r, command_for(dest@, via, ifindex)) {
            (Ok(c), Ok(m)) => c@ == m,
            (Err(e), Err(fault)) => e@ == fault,
            _ => false,
        },
{
    let gateway = via.to_text();
    let args = match ifindex {
        Some(n) => route_add_if_args(dest.as_str(), gateway.as_str(), n),
        None => route_add_args(dest.as_str(), gateway.as_str()),
    };
    match args {
        Ok(args) => Ok(RouteCommand { args, route: Route { dest, via: gateway } }),
        Err(e) => Err(e),
    }
}

/// The command that routes the server via the gateway. IPv6 is not supported.
pub open spec fn pin_command_of(dest: IpModel, via: Ipv4Addr) -> Result<
    RouteCommandModel,
    ClientFault,
> {
    match dest {
        IpModel::V4(ip) => command_for(ip.spec_text() + "/32"@, via, None),
        IpModel::V6(_) => Err(ClientFault::PlatformError("ipv6 pin routes pending"@)),
    }
}

/// The command that routes the server via the gateway.
pub fn pin_command(dest: &IpAddr, via: Ipv4Addr) -> (r: Result<RouteCommand, ClientError>)
    ensures
        match (r, pin_command_of(dest@, via)) {
            (Ok(c), Ok(m)) => c@ == m,
            (Err(e), Err(fault)) => e@ == fault,
            _ => false,
        },
{
    match dest {
        IpAddr::V4(ip) => {
            let mut cidr = ip.to_text();
            cidr.append("/32");
            build(cidr, via, None)
        },
        IpAddr::V6(_) => Err(ClientError::PlatformError("ipv6 pin routes pending".to_owned())),
    }
}

/// A destination as `base/prefix`, where it is that or an address.
pub open spec fn as_block(dest: Seq<char>) -> Option<Seq<char>> {
    if dest.contains('/') {
        Some(dest)
    } else if Ipv4Addr::spec_parse(dest) is Some {
        Some(dest + "/32"@)
    } else {
        None
    }
}

pub(crate) fn block_of(dest: &str) -> (r: Option<String>)
    ensures
        match (r, as_block(dest@)) {
            (Some(s), Some(m)) => s@ == m,
            (None, None) => true,
            _ => false,
        },
{
    let chars = chars_of(dest);
    proof {
        chars@.index_of_first_ensures('/');
    }
    if find_first(chars.as_slice(), '/').is_some() {
        Some(dest.to_owned())
    } else if Ipv4Addr::parse(dest).is_some() {
        Some(joined(dest, "/32"))
    } else {
        None
    }
}

/// The command that routes a destination via the gateway. Ranges are refused:
/// there are no routes for them.
pub open spec fn direct_command_of(dest: Seq<char>, via: Ipv4Addr) -> Result<
    RouteCommandModel,
    ClientFault,
> {
    match as_block(dest) {
        Some(cidr) => command_for(cidr, via, None),
        None => Err(ClientFault::PlatformError("ip ranges unsupported, split it: "@ + dest)),
    }
}

/// The command that routes a destination via the gateway.
pub fn direct_command(dest: &str, via: Ipv4Addr) -> (r: Result<RouteCommand, ClientError>)
    ensures
        match (r, direct_command_of(dest@, via)) {
            (Ok(c), Ok(m)) => c@ == m,
            (Err(e), Err(fault)) => e@ == fault,
            _ => false,
        },
{
    match block_of(dest) {
        Some(cidr) => build(cidr, via, None),
        None => Err(
            ClientError::PlatformError(joined("ip ranges unsupported, split it: ", dest)),
        ),
    }
}

/// The halves of the address space. Routes to them beat the default route without
/// touching it.
pub open spec fn halves() -> Seq<Seq<char>> {
    seq!["0.0.0.0/1"@, "128.0.0.0/1"@]
}

/// The commands that move the default route into the TUN device, bound to its
/// interface.
pub fn default_commands(ifindex: Option<u32>) -> (r: Result<Vec<RouteCommand>, ClientError>)
    ensures
        match ifindex {
            None => r matches Err(e) && e@ == ClientFault::PlatformError(
                "no live TUN for default route"@,
            ),
            Some(n) => {
                let low = command_for(halves()[0], spec_virtual_dns_ip(), Some(n));
                let high = command_for(halves()[1], spec_virtual_dns_ip(), Some(n));
                match (low, high) {
                    (Ok(a), Ok(b)) => r matches Ok(list) && list@.len() == 2 && list@[0]@ == a
                        && list@[1]@ == b,
                    (Err(fault), _) => r matches Err(e) && e@ == fault,
                    (_, Err(fault)) => r matches Err(e) && e@ == fault,
                }
            },
        },
{
    let n: u32 = match ifindex {
        Some(n) => n,
        None => {
            return Err(ClientError::PlatformError("no live TUN for default route".to_owned()));
        },
    };
    let mut list: Vec<RouteCommand> = Vec::new();
    match build("0.0.0.0/1".to_owned(), virtual_dns_ip(), Some(n)) {
        Ok(c) => {
            list.push(c);
        },
        Err(e) => {
            return Err(e);
        },
    }
    match build("128.0.0.0/1".to_owned(), virtual_dns_ip(), Some(n)) {
        Ok(c) => {
            list.push(c);
        },
        Err(e) => {
            return Err(e);
        },
    }
    Ok(list)
}

/// The interface of the default route, by what `route` and `ipconfig` say.
pub open spec fn default_iface_of(
    iface_ip: Option<Ipv4Addr>,
    ifaces: Seq<(Seq<char>, Seq<char>)>,
) -> Result<Seq<char>, ClientFault> {
    match iface_ip {
        None => Err(ClientFault::PlatformError("no default route"@)),
        Some(ip) => match key_of(ifaces, ip.spec_text()) {
            Some(name) => Ok(name),
            None => Err(ClientFault::PlatformError("interface name not found"@)),
        },
    }
}

/// The interface of the default route.
pub fn default_iface(table: &RouteTable, config: &Ipconfig) -> (r: Result<String, ClientError>)
    ensures
        match (r, default_iface_of(table@.default_iface_ip, config@.ifaces)) {
            (Ok(name), Ok(m)) => name@ == m,
            (Err(e), Err(fault)) => e@ == fault,
            _ => false,
        },
{
    match table.default_iface_ip() {
        None => Err(ClientError::PlatformError("no default route".to_owned())),
        Some(ip) => match config.ifaces().key_with(ip.to_text().as_str()) {
            Some(name) => Ok(name.clone()),
            None => Err(ClientError::PlatformError("interface name not found".to_owned())),
        },
    }
}

/// The beginning of what a command printed.
pub open spec fn excerpt(bytes: Seq<u8>) -> Seq<char> {
    let text = printed(bytes);
    if text.len() > 500 {
        text.take(500)
    } else {
        text
    }
}

fn excerpt_of(bytes: &[u8]) -> (r: String)
    ensures
        r@ == excerpt(bytes@),
{
    let text = decode_cmd_output(bytes);
    let chars = chars_of(text.as_str());
    if chars.len() > 500 {
        assert(chars@.take(500) =~= chars@.subrange(0, 500));
        string_of(&chars.as_slice()[0..500])
    } else {
        text
    }
}

/// The error of a command that ran and failed, with the beginning of what it
/// printed.
pub fn command_failure(program: &str, out: &[u8], err: &[u8]) -> (r: ClientError)
    ensures
        r@ == ClientFault::PlatformError(
            program@ + " failed: out="@ + excerpt(out@) + " err="@ + excerpt(err@),
        ),
{
    let mut m = joined(program, " failed: out=");
    m.append(excerpt_of(out).as_str());
    m.append(" err=");
    m.append(excerpt_of(err).as_str());
    ClientError::PlatformError(m)
}

/// Texts with `; ` between each two.
pub open spec fn listed(issues: Seq<Seq<char>>) -> Seq<char>
    decreases issues.len(),
{
    if issues.len() == 0 {
        Seq::empty()
    } else if issues.len() == 1 {
        issues[0]
    } else {
        listed(issues.drop_last()) + "; "@ + issues.last()
    }
}

/// What issues amount to: nothing, or one error that lists them.
pub open spec fn issues_outcome(issues: Seq<Seq<char>>) -> Result<(), ClientFault> {
    if issues.len() == 0 {
        Ok(())
    } else {
        Err(ClientFault::PlatformError(listed(issues)))
    }
}

/// What issues amount to.
pub fn sum_up(issues: &Vec<String>) -> (r: Result<(), ClientError>)
    ensures
        outcome(r) == issues_outcome(strings(issues@)),
{
    if issues.len() == 0 {
        return Ok(());
    }
    let ghost all = strings(issues@);
    let mut m = issues[0].clone();
    let mut i: usize = 1;
    assert(all.take(1) =~= seq![all[0]]);
    assert(m@ == listed(all.take(1)));
    while i < issues.len()
        invariant
            1 <= i <= issues@.len(),
            all == strings(issues@),
            m@ == listed(all.take(i as int)),
        decreases issues@.len() - i,
    {
        assert(all.take(i + 1).drop_last() =~= all.take(i as int));
        assert(all.take(i + 1).last() == issues@[i as int]@);
        m.append("; ");
        m.append(issues[i].as_str());
        i += 1;
    }
    assert(all.take(i as int) =~= all);
    Err(ClientError::PlatformError(m))
}

/// The arguments of `route` that delete routes, the last one first. Routes that
/// `route` cannot be told of are left out.
pub open spec fn deletions(added: Seq<RouteModel>) -> Seq<Seq<Seq<char>>>
    decreases added.len(),
{
    if added.len() == 0 {
        Seq::empty()
    } else {
        let rest = deletions(added.drop_last());
        match route_args("delete"@, added.last().dest, added.last().via, None) {
            Ok(args) => seq![args] + rest,
            Err(_) => rest,
        }
    }
}

/// Lists of arguments.
pub open spec fn arg_lists(list: Seq<Vec<String>>) -> Seq<Seq<Seq<char>>> {
    list.map_values(|args: Vec<String>| strings(args@))
}

/// The arguments of `route` that delete the routes that were added.
pub fn restore_commands(added: &Vec<Route>) -> (r: Vec<Vec<String>>)
    ensures
        arg_lists(r@) == deletions(route_models(added@)),
{
    let ghost all = route_models(added@);
    let mut list: Vec<Vec<String>> = Vec::new();
    let mut i: usize = added.len();
    assert(all.take(i as int) =~= all);
    assert(arg_lists(list@) + deletions(all) =~= deletions(all));
    while i > 0
        invariant
            0 <= i <= added@.len(),
            all == route_models(added@),
            arg_lists(list@) + deletions(all.take(i as int)) == deletions(all),
        decreases i,
    {
        let ghost left = all.take(i as int);
        i -= 1;
        assert(left.drop_last() =~= all.take(i as int));
        assert(left.last() == added@[i as int]@);
        if let Ok(args) = route_delete_args(added[i].dest.as_str(), added[i].via.as_str()) {
            let ghost before = list@;
            list.push(args);
            assert(arg_lists(list@) =~= arg_lists(before).push(strings(args@)));
            assert(arg_lists(list@) + deletions(all.take(i as int)) =~= arg_lists(before)
                + deletions(left));
        }
    }
    assert(all.take(0) =~= Seq::<RouteModel>::empty());
    assert(arg_lists(list@) =~= deletions(all));
    list
}

/// The arguments of `netsh` that set one of several resolvers.
pub open spec fn dns_step(iface: Seq<char>, servers: Seq<Seq<char>>, i: int) -> Seq<Seq<char>> {
    if i == 0 {
        dns_args(iface, servers[0])
    } else {
        dns_more_args(iface, servers[i], (i + 1) as nat)
    }
}

/// Arguments of `netsh` that set one of several resolvers.
pub fn dns_step_args(iface: &str, servers: &Vec<String>, i: usize) -> (r: Vec<String>)
    requires
        i < servers@.len(),
    ensures
        strings(r@) == dns_step(iface@, strings(servers@), i as int),
{
    if i == 0 {
        dns_set_args(iface, servers[0].as_str())
    } else {
        let count: usize = servers.len();
        assert(i < count);
        let position: u64 = (i + 1) as u64;
        dns_add_args(iface, servers[i].as_str(), position)
    }
}

/// The server is routed as a block of one address, via the gateway and on no particular
/// interface; an IPv6 server cannot be routed.
pub proof fn servers_are_routed_alone(ip: Ipv4Addr, via: Ipv4Addr, other: Seq<char>)
    ensures
        pin_command_of(IpModel::V4(ip), via) matches Ok(c) && {
            &&& c.args.len() == 5
            &&& c.args[0] == "add"@
            &&& c.args[1] == ip.spec_text()
            &&& c.args[2] == "mask"@
            &&& Ipv4Addr::spec_parse(c.args[3]) matches Some(mask) && mask.spec_bits()
                == 0xffff_ffff
            &&& c.args[4] == via.spec_text()
            &&& c.route.dest == ip.spec_text() + "/32"@
            &&& c.route.via == via.spec_text()
        },
        pin_command_of(IpModel::V6(other), via) is Err,
{
    lemma_single_block(ip);
    route_words("add"@, ip, 32, via, None);
    masks_are_written_as_addresses(32);
    vstd::arithmetic::power2::lemma2_to64();
}

proof fn lemma_single_block(ip: Ipv4Addr)
    ensures
        ip.spec_text() + "/32"@ == ip.spec_text().push('/') + decimal(32),
{
    reveal_strlit("/32");
    reveal_with_fuel(decimal, 3);
    assert("/32"@ =~= seq!['/', '3', '2']);
    assert(decimal(32) =~= seq!['3', '2']);
    assert(ip.spec_text() + "/32"@ =~= ip.spec_text().push('/') + decimal(32));
}

/// An address is routed as a block of one, a block as it is, and a range not at all.
pub proof fn destinations_are_routed_as_blocks(
    base: Ipv4Addr,
    prefix: u8,
    hi: Ipv4Addr,
    via: Ipv4Addr,
)
    requires
        prefix <= 32,
    ensures
        direct_command_of(base.spec_text(), via) matches Ok(c) && {
            &&& c.args.len() == 5
            &&& c.args[0] == "add"@
            &&& c.args[1] == base.spec_text()
            &&& Ipv4Addr::spec_parse(c.args[3]) matches Some(mask) && mask.spec_bits()
                == 0xffff_ffff
            &&& c.args[4] == via.spec_text()
        },
        direct_command_of(base.spec_text().push('/') + decimal(prefix as nat), via) matches Ok(c)
            && {
            &&& c.args.len() == 5
            &&& c.args[0] == "add"@
            &&& c.args[1] == base.spec_text()
            &&& Ok::<Seq<char>, ClientFault>(c.args[3]) == mask_text(prefix)
            &&& c.args[4] == via.spec_text()
            &&& c.route.dest == base.spec_text().push('/') + decimal(prefix as nat)
            &&& c.route.via == via.spec_text()
        },
        direct_command_of(base.spec_text().push('-') + hi.spec_text(), via) is Err,
{
    address_text_round_trip(base);
    address_text_holds_no_separator(base, '/');
    address_text_holds_no_separator(base, '-');
    address_text_holds_no_separator(hi, '/');
    lemma_single_block(base);
    route_words("add"@, base, 32, via, None);
    route_words("add"@, base, prefix, via, None);
    masks_are_written_as_addresses(32);
    vstd::arithmetic::power2::lemma2_to64();
    let block = base.spec_text().push('/') + decimal(prefix as nat);
    assert(block[base.spec_text().len() as int] == '/');
    assert(block.contains('/'));
    let range = base.spec_text().push('-') + hi.spec_text();
    let n = base.spec_text().len() as int;
    if range.contains('/') {
        let i = choose|i: int| 0 <= i < range.len() && range[i] == '/';
        if i < n {
            assert(base.spec_text()[i] == '/');
        } else if i > n {
            assert(hi.spec_text()[i - n - 1] == '/');
        }
        assert(false);
    }
    if let Some(ip) = Ipv4Addr::spec_parse(range) {
        range_is_no_address(base.spec_text(), hi.spec_text());
    }
}

/// The default route is moved by two routes that cover every address between them, via the
/// resolver of the tunnel, on the interface of the device.
pub proof fn halves_cover_every_address(ip: Ipv4Addr, n: u32)
    ensures
        halves().len() == 2,
        command_for(halves()[0], spec_virtual_dns_ip(), Some(n)) matches Ok(low) && (command_for(
            halves()[1],
            spec_virtual_dns_ip(),
            Some(n),
        ) matches Ok(high) && {
            &&& low.args[1] == Ipv4Addr::spec_new(0, 0, 0, 0).spec_text()
            &&& high.args[1] == Ipv4Addr::spec_new(128, 0, 0, 0).spec_text()
            &&& low.args[3] == high.args[3]
            &&& Ok::<Seq<char>, ClientFault>(low.args[3]) == mask_text(1)
            &&& low.args[4] == Ipv4Addr::spec_new(10, 255, 0, 1).spec_text()
            &&& high.args[4] == Ipv4Addr::spec_new(10, 255, 0, 1).spec_text()
            &&& low.args.len() == 7 && low.args[5] == "if"@ && low.args[6] == decimal(n as nat)
            &&& high.args.len() == 7 && high.args[5] == "if"@ && high.args[6] == decimal(n as nat)
        }),
        ip.shares_prefix(Ipv4Addr::spec_new(0, 0, 0, 0), 1) || ip.shares_prefix(
            Ipv4Addr::spec_new(128, 0, 0, 0),
            1,
        ),
{
    let zero = Ipv4Addr::spec_new(0, 0, 0, 0);
    let half = Ipv4Addr::spec_new(128, 0, 0, 0);
    lemma_half_texts();
    route_words("add"@, zero, 1, spec_virtual_dns_ip(), Some(n));
    route_words("add"@, half, 1, spec_virtual_dns_ip(), Some(n));
    octets_are_in_order(0, 0, 0, 0);
    octets_are_in_order(128, 0, 0, 0);
    vstd::arithmetic::power2::lemma2_to64();
    let x = ip.spec_bits() as int;
    assert(vstd::arithmetic::power2::pow2(31) == 0x8000_0000);
    assert(x / 0x8000_0000 == 0 || x / 0x8000_0000 == 1);
    assert(zero.spec_bits() as int / 0x8000_0000 == 0);
    assert(half.spec_bits() as int / 0x8000_0000 == 1);
}

pub(crate) proof fn lemma_half_texts()
    ensures
        halves()[0] == Ipv4Addr::spec_new(0, 0, 0, 0).spec_text().push('/') + decimal(1),
        halves()[1] == Ipv4Addr::spec_new(128, 0, 0, 0).spec_text().push('/') + decimal(1),
        "0.0.0.0/0"@ == Ipv4Addr::spec_new(0, 0, 0, 0).spec_text().push('/') + decimal(0),
{
    reveal_strlit("0.0.0.0/0");
    reveal_strlit("0.0.0.0/1");
    reveal_strlit("128.0.0.0/1");
    reveal_with_fuel(decimal, 4);
    octets_are_in_order(0, 0, 0, 0);
    octets_are_in_order(128, 0, 0, 0);
    assert(decimal(0) =~= seq!['0']);
    assert(decimal(1) =~= seq!['1']);
    assert(decimal(128) =~= seq!['1', '2', '8']);
    assert(halves()[0] =~= Ipv4Addr::spec_new(0, 0, 0, 0).spec_text().push('/') + decimal(1));
    assert(halves()[1] =~= Ipv4Addr::spec_new(128, 0, 0, 0).spec_text().push('/') + decimal(1));
    assert("0.0.0.0/0"@ =~= Ipv4Addr::spec_new(0, 0, 0, 0).spec_text().push('/') + decimal(0));
}

/// The interface of the default route is the one whose address the route has.
pub proof fn interfaces_are_found_by_their_address(
    ip: Ipv4Addr,
    ifaces: Seq<(Seq<char>, Seq<char>)>,
    k: int,
)
    ensures
        0 <= k < ifaces.len() && ifaces[k].1 == ip.spec_text() && (forall|j: int|
            0 <= j < k ==> (#[trigger] ifaces[j]).1 != ip.spec_text()) ==> default_iface_of(
            Some(ip),
            ifaces,
        ) == Ok::<Seq<char>, ClientFault>(ifaces[k].0),
        (forall|j: int| 0 <= j < ifaces.len() ==> (#[trigger] ifaces[j]).1 != ip.spec_text())
            ==> default_iface_of(Some(ip), ifaces) is Err,
        default_iface_of(None, ifaces) is Err,
{
    value_index_finds(ifaces, ip.spec_text());
    let f = value_index(ifaces, ip.spec_text());
    if 0 <= k < ifaces.len() && ifaces[k].1 == ip.spec_text() && forall|j: int|
        0 <= j < k ==> (#[trigger] ifaces[j]).1 != ip.spec_text() {
        if f < k {
            assert(ifaces[f].1 != ip.spec_text());
        }
        if k < f {
            assert(ifaces[k].1 != ip.spec_text());
        }
    }
}

/// Routes that were added are deleted by the words that name them, the last one first; one
/// more route is deleted before all others.
pub proof fn last_route_is_deleted_first(added: Seq<RouteModel>, last: RouteModel)
    ensures
        deletions(added.push(last)) == (match route_args("delete"@, last.dest, last.via, None) {
            Ok(args) => seq![args] + deletions(added),
            Err(_) => deletions(added),
        }),
        deletions(Seq::empty()).len() == 0,
{
    assert(added.push(last).drop_last() =~= added);
}

/// Resolvers are set one by one: the first in place of what was there, each other one behind
/// it at its own position, counted from 1.
pub proof fn resolvers_are_set_in_order(iface: Seq<char>, servers: Seq<Seq<char>>, i: int)
    requires
        0 <= i < servers.len(),
    ensures
        ({
            let args = dns_step(iface, servers, i);
            &&& args.len() == 7
            &&& args[2] == (if i == 0 {
                "set"@
            } else {
                "add"@
            })
            &&& args[3] == "dnsservers"@
            &&& args[4] == iface
            &&& i == 0 ==> args[5] == "static"@ && args[6] == servers[0]
            &&& i > 0 ==> args[5] == servers[i] && args[6] == "index="@ + decimal((i + 1) as nat)
        }),
{
}

/// What went wrong is told in one text that holds every issue, in order; without an issue all
/// went well.
pub proof fn issues_are_told_in_order(issues: Seq<Seq<char>>, last: Seq<char>)
    ensures
        issues_outcome(Seq::empty()) is Ok,
        issues_outcome(seq![last]) == Err::<(), _>(ClientFault::PlatformError(last)),
        issues.len() > 0 ==> (issues_outcome(issues) matches Err(ClientFault::PlatformError(before))
            && issues_outcome(issues.push(last)) == Err::<(), _>(
            ClientFault::PlatformError(before + "; "@ + last),
        )),
{
    assert(issues.push(last).drop_last() =~= issues);
}

/// What a command printed is told up to its 500th character.
pub proof fn excerpts_are_beginnings(bytes: Seq<u8>)
    ensures
        excerpt(bytes).len() <= 500,
        excerpt(bytes) == printed(bytes).take(excerpt(bytes).len() as int),
        printed(bytes).len() <= 500 ==> excerpt(bytes) == printed(bytes),
{
    let text = printed(bytes);
    assert(text.take(text.len() as int) =~= text);
}

} // verus!
