//! Network capture and change on Windows: parsers of what `route print` and
//! `ipconfig` print, and the arguments that `route` and `netsh` take.

use vstd::prelude::*;
use vstd::string::*;
use vstd::utf8::*;

use crate::client::{ClientError, ClientFault};
use crate::net::{
    address_text_holds_no_separator, address_text_round_trip, mask_bits, mask_of, mask_prefix,
    masks_have_their_prefix_of_ones, numbers_are_those_of_their_address, ones, Ipv4Addr,
};
use crate::netstack::tun::{Route, RouteModel};
use crate::table::{with_value, TextMap};
use crate::text::{
    chars_of, contains_text, cut_first, decimal, decimal_of, find_first, find_text,
    first_separator_splits, has_text, joined, lowercase, lowercased, number_of, parse_number,
    pieces, same_ignoring_case, spaced, split_on, split_once, string_of, strings, strip_tails,
    stripped, text_index, texts, trim, trimmed, utf8_string, words, words_of,
    written_number_is_read,
};

verus! {

/// A routing table as `route print` shows it.
#[derive(Clone, Debug, PartialEq, Eq)]
pub struct RouteTable {
    /// Every row; the default route has the destination `default`.
    pub routes: Vec<Route>,
    /// Gateway of the default route, if it has one.
    pub default_gateway: Option<Ipv4Addr>,
    /// Address of the interface of the default route.
    pub default_iface_ip: Option<Ipv4Addr>,
}

/// Mathematical counterpart of [`RouteTable`].
#[verifier::ext_equal]
pub struct RouteTableModel {
    pub routes: Seq<RouteModel>,
    pub default_gateway: Option<Ipv4Addr>,
    pub default_iface_ip: Option<Ipv4Addr>,
}

impl View for RouteTable {
    type V = RouteTableModel;

    open spec fn view(&self) -> RouteTableModel {
        RouteTableModel {
            routes: self.routes@.map_values(|r: Route| r@),
            default_gateway: self.default_gateway,
            default_iface_ip: self.default_iface_ip,
        }
    }
}

impl RouteTable {
    /// Gateway of the default route, if it has one.
    pub fn default_gateway(&self) -> (r: Option<Ipv4Addr>)
        ensures
            r == self@.default_gateway,
    {
        self.default_gateway
    }

    /// Address of the interface of the default route.
    pub fn default_iface_ip(&self) -> (r: Option<Ipv4Addr>)
        ensures
            r == self@.default_iface_ip,
    {
        self.default_iface_ip
    }
}

/// One row of a routing table.
pub struct RowModel {
    pub dest: Seq<char>,
    pub via: Seq<char>,
    pub is_default: bool,
    pub gateway: Option<Ipv4Addr>,
    pub iface: Ipv4Addr,
}

/// The row in a line: destination, mask, gateway, interface and metric. Lines of
/// any other shape are none, in whatever language they are. A destination without
/// a gateway goes via the interface.
pub open spec fn read_row(line: Seq<char>) -> Option<RowModel> {
    let cols = words(line);
    if cols.len() < 5 {
        None
    } else {
        match (
            Ipv4Addr::spec_parse(cols[0]),
            Ipv4Addr::spec_parse(cols[1]),
            Ipv4Addr::spec_parse(cols[3]),
        ) {
            (Some(dest), Some(mask), Some(iface)) => {
                let prefix = ones(mask.spec_bits() as nat);
                let is_default = dest.spec_bits() == 0 && prefix == 0;
                let on_link = lowercase(cols[2]) == lowercase("on-link"@);
                let gateway = Ipv4Addr::spec_parse(cols[2]);
                if !on_link && gateway is None {
                    None
                } else {
                    Some(
                        RowModel {
                            dest: if is_default {
                                "default"@
                            } else {
                                dest.spec_text().push('/') + decimal(prefix)
                            },
                            via: if on_link {
                                iface.spec_text()
                            } else {
                                cols[2]
                            },
                            is_default,
                            gateway,
                            iface,
                        },
                    )
                }
            },
            _ => None,
        }
    }
}

/// The routing table in some lines. Of several default routes the last one counts.
pub open spec fn read_table(lines: Seq<Seq<char>>) -> RouteTableModel
    decreases lines.len(),
{
    if lines.len() == 0 {
        RouteTableModel { routes: Seq::empty(), default_gateway: None, default_iface_ip: None }
    } else {
        let before = read_table(lines.drop_last());
        match read_row(lines.last()) {
            None => before,
            Some(row) => RouteTableModel {
                routes: before.routes.push(RouteModel { dest: row.dest, via: row.via }),
                default_gateway: if row.is_default {
                    row.gateway
                } else {
                    before.default_gateway
                },
                default_iface_ip: if row.is_default {
                    Some(row.iface)
                } else {
                    before.default_iface_ip
                },
            },
        }
    }
}

struct Row {
    dest: String,
    via: String,
    is_default: bool,
    gateway: Option<Ipv4Addr>,
    iface: Ipv4Addr,
}

impl Row {
    spec fn model(self) -> RowModel {
        RowModel {
            dest: self.dest@,
            via: self.via@,
            is_default: self.is_default,
            gateway: self.gateway,
            iface: self.iface,
        }
    }
}

fn row_of(line: &[char]) -> (r: Option<Row>)
    ensures
        match (r, read_row(line@)) {
            (Some(row), Some(m)) => row.model() == m,
            (None, None) => true,
            _ => false,
        },
{
    let cols = words_of(line);
    let ghost words = words(line@);
    if cols.len() < 5 {
        return None;
    }
    assert(forall|i: int| 0 <= i < cols@.len() ==> words[i] == (#[trigger] cols@[i])@);
    assert(words[0] == cols@[0]@ && words[1] == cols@[1]@ && words[2] == cols@[2]@ && words[3]
        == cols@[3]@);
    let dest = match Ipv4Addr::parse_chars(cols[0].as_slice()) {
        Some(ip) => ip,
        None => {
            return None;
        },
    };
    let mask = match Ipv4Addr::parse_chars(cols[1].as_slice()) {
        Some(ip) => ip,
        None => {
            return None;
        },
    };
    let iface = match Ipv4Addr::parse_chars(cols[3].as_slice()) {
        Some(ip) => ip,
        None => {
            return None;
        },
    };
    let prefix: u32 = mask_prefix(mask);
    let is_default = dest.is_unspecified() && prefix == 0;
    let gateway = Ipv4Addr::parse_chars(cols[2].as_slice());
    let via = if same_ignoring_case(cols[2].as_slice(), chars_of("on-link").as_slice()) {
        iface.to_text()
    } else if gateway.is_none() {
        return None;
    } else {
        string_of(cols[2].as_slice())
    };
    let text = if is_default {
        "default".to_owned()
    } else {
        let mut text = dest.to_text();
        text.push('/');
        text.append(decimal_of(prefix as u64).as_str());
        text
    };
    Some(Row { dest: text, via, is_default, gateway, iface })
}

/// Reads what `route print -4` prints. Nothing in it is an error.
pub fn parse_route_print(output: &str) -> (r: Result<RouteTable, ClientError>)
    ensures
        r matches Ok(table) && table@ == read_table(split_on(output@, '\n')),
{
    let chars = chars_of(output);
    let lines = pieces(chars.as_slice(), '\n');
    let ghost all = split_on(output@, '\n');
    let mut table = RouteTable {
        routes: Vec::new(),
        default_gateway: None,
        default_iface_ip: None,
    };
    let mut i: usize = 0;
    assert(all.take(0) =~= Seq::<Seq<char>>::empty());
    assert(table@ =~= read_table(all.take(0)));
    while i < lines.len()
        invariant
            0 <= i <= lines@.len(),
            all == texts(lines@),
            table@ == read_table(all.take(i as int)),
        decreases lines@.len() - i,
    {
        proof {
            assert(all.take(i + 1).drop_last() =~= all.take(i as int));
            assert(all.take(i + 1).last() == lines@[i as int]@);
        }
        if let Some(row) = row_of(lines[i].as_slice()) {
            if row.is_default {
                table.default_gateway = row.gateway;
                table.default_iface_ip = Some(row.iface);
            }
            let route = Route { dest: row.dest, via: row.via };
            let ghost before = table.routes@;
            table.routes.push(route);
            assert(table.routes@.map_values(|r: Route| r@) =~= before.map_values(
                |r: Route| r@,
            ).push(route@));
        }
        assert(table@ =~= read_table(all.take(i + 1)));
        i += 1;
    }
    assert(all.take(i as int) =~= all);
    Ok(table)
}

/// What a text is in upper case.
pub uninterp spec fn uppercased(text: Seq<char>) -> Seq<char>;

/// Calls `str::to_uppercase`.
///
/// Claimed of it: the result depends on the text alone.
#[verifier::external_body]
fn upper(text: &str) -> (r: String)
    ensures
        r@ == uppercased(text@),
{
    text.to_uppercase()
}

/// What `ipconfig` says of resolvers and adapters, read line by line.
pub struct Ipconfig {
    dns: Vec<String>,
    ifaces: TextMap,
    adapter: Option<String>,
    in_dns: bool,
}

/// Mathematical counterpart of [`Ipconfig`].
#[verifier::ext_equal]
pub struct IpconfigModel {
    /// Resolvers, in order.
    pub dns: Seq<Seq<char>>,
    /// Adapters and their addresses.
    pub ifaces: Seq<(Seq<char>, Seq<char>)>,
    /// The adapter whose lines are being read.
    pub adapter: Option<Seq<char>>,
    /// Whether bare addresses are resolvers.
    pub in_dns: bool,
}

impl View for Ipconfig {
    type V = IpconfigModel;

    closed spec fn view(&self) -> IpconfigModel {
        IpconfigModel {
            dns: strings(self.dns@),
            ifaces: self.ifaces@,
            adapter: match self.adapter {
                Some(name) => Some(name@),
                None => None,
            },
            in_dns: self.in_dns,
        }
    }
}

/// Before the first line.
pub open spec fn fresh_ipconfig() -> IpconfigModel {
    IpconfigModel { dns: Seq::empty(), ifaces: Seq::empty(), adapter: None, in_dns: false }
}

/// The name of the adapter in a header: what follows the word `adapter`, and where
/// the header is in another language, what follows its first two words, or the second
/// word where there are no more.
pub open spec fn adapter_name(label: Seq<char>) -> Seq<char> {
    match text_index(lowercase(label), " adapter "@) {
        Some(i) => trim(label.skip(i + " adapter "@.len())),
        None => {
            let all = words(label);
            if all.len() < 2 {
                Seq::empty()
            } else if all.len() == 2 {
                spaced(all.skip(1))
            } else {
                spaced(all.skip(2))
            }
        },
    }
}

/// The value of a line, without what marks it as preferred.
pub open spec fn line_value(value: Seq<char>) -> Seq<char> {
    trim(strip_tails(trim(value), "(Preferred)"@))
}

/// What is known after a line. `upper` is the label of the line in upper case.
pub open spec fn after_line(m: IpconfigModel, line: Seq<char>, upper: Seq<char>) -> IpconfigModel {
    let t = trim(line);
    if t.len() == 0 {
        IpconfigModel { in_dns: false, ..m }
    } else {
        match split_once(t, ':') {
            Some((label, value)) => {
                let in_dns = contains_text(upper, "DNS"@);
                if t.last() == ':' && !label.contains('.') {
                    let name = adapter_name(label);
                    IpconfigModel {
                        in_dns,
                        adapter: if name.len() > 0 {
                            Some(name)
                        } else {
                            m.adapter
                        },
                        ..m
                    }
                } else {
                    let v = line_value(value);
                    let is_address = Ipv4Addr::spec_parse(v) is Some;
                    if in_dns {
                        IpconfigModel {
                            in_dns,
                            dns: if is_address {
                                m.dns.push(v)
                            } else {
                                m.dns
                            },
                            ..m
                        }
                    } else if contains_text(upper, "IPV4"@) && m.adapter is Some && is_address {
                        IpconfigModel {
                            in_dns,
                            ifaces: with_value(m.ifaces, m.adapter->Some_0, v),
                            ..m
                        }
                    } else {
                        IpconfigModel { in_dns, ..m }
                    }
                }
            },
            None => if m.in_dns && Ipv4Addr::spec_parse(t) is Some {
                IpconfigModel { dns: m.dns.push(t), ..m }
            } else {
                IpconfigModel { in_dns: false, ..m }
            },
        }
    }
}

/// The label of a line in upper case.
pub open spec fn upper_label(line: Seq<char>) -> Seq<char> {
    match split_once(trim(line), ':') {
        Some((label, _)) => uppercased(label),
        None => Seq::empty(),
    }
}

/// What is known after some lines.
pub open spec fn read_ipconfig(lines: Seq<Seq<char>>) -> IpconfigModel
    decreases lines.len(),
{
    if lines.len() == 0 {
        fresh_ipconfig()
    } else {
        after_line(read_ipconfig(lines.drop_last()), lines.last(), upper_label(lines.last()))
    }
}

fn spaced_words(list: &Vec<Vec<char>>, from: usize) -> (r: String)
    requires
        from <= list@.len(),
    ensures
        r@ == spaced(texts(list@).skip(from as int)),
{
    let ghost all = texts(list@).skip(from as int);
    let mut r = String::new();
    let mut i: usize = from;
    assert(r@ =~= Seq::<char>::empty());
    assert(all.take(0) =~= Seq::<Seq<char>>::empty());
    while i < list.len()
        invariant
            from <= i <= list@.len(),
            all == texts(list@).skip(from as int),
            r@ == spaced(all.take(i - from)),
        decreases list@.len() - i,
    {
        let ghost next = all.take(i + 1 - from);
        let ghost held = r@;
        proof {
            assert(next.drop_last() =~= all.take(i - from));
            assert(next.last() == list@[i as int]@);
        }
        if i > from {
            r.push(' ');
        }
        r.append(string_of(list[i].as_slice()).as_str());
        proof {
            if i > from {
                assert(r@ =~= held.push(' ') + next.last());
            } else {
                assert(held =~= Seq::<char>::empty());
                assert(r@ =~= next[0]);
            }
        }
        i += 1;
    }
    assert(all.take(i - from) =~= all);
    r
}

fn name_of_adapter(label: &[char]) -> (r: String)
    ensures
        r@ == adapter_name(label@),
{
    let word = chars_of(" adapter ");
    let low = lowercased(label);
    match find_text(low.as_slice(), word.as_slice()) {
        Some(i) => {
            let end: usize = label.len();
            let from: usize = i + word.len();
            assert(label@.skip(from as int) =~= label@.subrange(from as int, label@.len() as int));
            string_of(trimmed(&label[from..end]))
        },
        None => {
            let all = words_of(label);
            if all.len() < 2 {
                let r = String::new();
                assert(r@ =~= Seq::<char>::empty());
                r
            } else if all.len() == 2 {
                spaced_words(&all, 1)
            } else {
                spaced_words(&all, 2)
            }
        },
    }
}

impl Ipconfig {
    /// Before the first line.
    pub fn new() -> (r: Self)
        ensures
            r@ == fresh_ipconfig(),
    {
        let r = Ipconfig { dns: Vec::new(), ifaces: TextMap::new(), adapter: None, in_dns: false };
        assert(r@ =~= fresh_ipconfig());
        r
    }

    /// Takes note of a line, given its label in upper case.
    pub fn take_line(&mut self, line: &[char], upper: &str)
        ensures
            final(self)@ == after_line(old(self)@, line@, upper@),
    {
        let t = trimmed(line);
        let ghost m = self@;
        if t.len() == 0 {
            self.in_dns = false;
            assert(self@ =~= after_line(m, line@, upper@));
            return;
        }
        match cut_first(t, ':') {
            Some((label, value)) => {
                let caps = chars_of(upper);
                self.in_dns = has_text(caps.as_slice(), chars_of("DNS").as_slice());
                let last: usize = t.len() - 1;
                if t[last] == ':' && !has_dot(label) {
                    let name = name_of_adapter(label);
                    if !name.as_str().is_empty() {
                        self.adapter = Some(name);
                    }
                    assert(self@ =~= after_line(m, line@, upper@));
                    return;
                }
                let mark = chars_of("(Preferred)");
                let v = trimmed(stripped(trimmed(value), mark.as_slice()));
                let is_address = Ipv4Addr::parse_chars(v).is_some();
                if self.in_dns {
                    if is_address {
                        self.note_dns(v);
                    }
                } else if has_text(caps.as_slice(), chars_of("IPV4").as_slice()) {
                    if let Some(name) = &self.adapter {
                        if is_address {
                            self.ifaces.insert(name.as_str(), string_of(v).as_str());
                        }
                    }
                }
                assert(self@ =~= after_line(m, line@, upper@));
            },
            None => {
                if self.in_dns && Ipv4Addr::parse_chars(t).is_some() {
                    self.note_dns(t);
                } else {
                    self.in_dns = false;
                }
                assert(self@ =~= after_line(m, line@, upper@));
            },
        }
    }

    fn note_dns(&mut self, server: &[char])
        ensures
            final(self)@ == (IpconfigModel { dns: old(self)@.dns.push(server@), ..old(self)@ }),
    {
        let ghost before = self.dns@;
        self.dns.push(string_of(server));
        assert(strings(self.dns@) =~= strings(before).push(server@));
    }

    /// The resolvers, in order.
    pub fn dns(&self) -> (r: &Vec<String>)
        ensures
            strings(r@) == self@.dns,
    {
        &self.dns
    }

    /// The adapters and their addresses.
    pub fn ifaces(&self) -> (r: &TextMap)
        ensures
            r@ == self@.ifaces,
    {
        &self.ifaces
    }
}

fn has_dot(label: &[char]) -> (r: bool)
    ensures
        r == label@.contains('.'),
{
    proof {
        label@.index_of_first_ensures('.');
    }
    find_first(label, '.').is_some()
}

/// Reads what `ipconfig /all` prints, by the tokens that are the same in every
/// language.
pub fn parse_ipconfig(output: &str) -> (r: Ipconfig)
    ensures
        r@ == read_ipconfig(split_on(output@, '\n')),
{
    let chars = chars_of(output);
    let lines = pieces(chars.as_slice(), '\n');
    let ghost all = split_on(output@, '\n');
    let mut r = Ipconfig::new();
    let mut i: usize = 0;
    assert(all.take(0) =~= Seq::<Seq<char>>::empty());
    while i < lines.len()
        invariant
            0 <= i <= lines@.len(),
            all == texts(lines@),
            r@ == read_ipconfig(all.take(i as int)),
        decreases lines@.len() - i,
    {
        proof {
            assert(all.take(i + 1).drop_last() =~= all.take(i as int));
            assert(all.take(i + 1).last() == lines@[i as int]@);
        }
        let line = lines[i].as_slice();
        let caps = match cut_first(trimmed(line), ':') {
            Some((label, _)) => upper(string_of(label).as_str()),
            None => {
                let none = String::new();
                assert(none@ =~= Seq::<char>::empty());
                none
            },
        };
        r.take_line(line, caps.as_str());
        i += 1;
    }
    assert(all.take(i as int) =~= all);
    r
}

/// The mask of a prefix length, or why there is none.
pub open spec fn mask_text(prefix: u8) -> Result<Seq<char>, ClientFault> {
    if prefix > 32 {
        Err(ClientFault::RoutingError("bad prefix "@ + decimal(prefix as nat)))
    } else {
        Ok(Ipv4Addr::of_bits(mask_bits(prefix as nat)).spec_text())
    }
}

/// The mask of a prefix length, as it is written: 24 is `255.255.255.0`.
pub fn prefix_to_mask(prefix: u8) -> (r: Result<String, ClientError>)
    ensures
        match (r, mask_text(prefix)) {
            (Ok(s), Ok(m)) => s@ == m,
            (Err(e), Err(fault)) => e@ == fault,
            _ => false,
        },
{
    if prefix > 32 {
        return Err(
            ClientError::RoutingError(joined("bad prefix ", decimal_of(prefix as u64).as_str())),
        );
    }
    let mask = mask_of(prefix);
    proof {
        mask.is_of_bits();
    }
    Ok(mask.to_text())
}

/// Base and mask of a destination `base/prefix`, or what is wrong with it.
pub open spec fn base_and_mask(dest: Seq<char>) -> Result<(Seq<char>, Seq<char>), ClientFault> {
    match split_once(dest, '/') {
        Some((base, prefix)) => match (Ipv4Addr::spec_parse(base), parse_number(prefix, 255)) {
            (Some(_), Some(n)) => match mask_text(n as u8) {
                Ok(mask) => Ok((base, mask)),
                Err(fault) => Err(fault),
            },
            _ => Err(ClientFault::RoutingError("bad dest "@ + dest)),
        },
        None => Err(ClientFault::RoutingError("bad dest "@ + dest)),
    }
}

fn split_cidr(dest: &str) -> (r: Result<(String, String), ClientError>)
    ensures
        match (r, base_and_mask(dest@)) {
            (Ok(v), Ok(m)) => v.0@ == m.0 && v.1@ == m.1,
            (Err(e), Err(fault)) => e@ == fault,
            _ => false,
        },
{
    let chars = chars_of(dest);
    match cut_first(chars.as_slice(), '/') {
        Some((base, prefix)) => match (Ipv4Addr::parse_chars(base), number_of(prefix, 255)) {
            (Some(_), Some(n)) => match prefix_to_mask(n as u8) {
                Ok(mask) => Ok((string_of(base), mask)),
                Err(e) => Err(e),
            },
            _ => Err(ClientError::RoutingError(joined("bad dest ", dest))),
        },
        None => Err(ClientError::RoutingError(joined("bad dest ", dest))),
    }
}

/// The arguments that `route` takes, or what is wrong with the destination or the
/// gateway. With `ifindex`, the route is bound to an interface.
pub open spec fn route_args(
    verb: Seq<char>,
    dest: Seq<char>,
    gateway: Seq<char>,
    ifindex: Option<u32>,
) -> Result<Seq<Seq<char>>, ClientFault> {
    match base_and_mask(dest) {
        Err(fault) => Err(fault),
        Ok((base, mask)) => if Ipv4Addr::spec_parse(gateway) is None {
            Err(ClientFault::RoutingError("bad gateway "@ + gateway))
        } else {
            let args = seq![verb, base, "mask"@, mask, gateway];
            Ok(
                match ifindex {
                    Some(n) => args + seq!["if"@, decimal(n as nat)],
                    None => args,
                },
            )
        },
    }
}

/// An outcome with arguments.
pub open spec fn args_of(r: Result<Vec<String>, ClientError>) -> Result<
    Seq<Seq<char>>,
    ClientFault,
> {
    match r {
        Ok(args) => Ok(strings(args@)),
        Err(e) => Err(e@),
    }
}

fn build_route_args(verb: &str, dest_cidr: &str, gateway: &str, ifindex: Option<u32>) -> (r: Result<
    Vec<String>,
    ClientError,
>)
    ensures
        args_of(r) == route_args(verb@, dest_cidr@, gateway@, ifindex),
{
    let (base, mask) = match split_cidr(dest_cidr) {
        Ok(v) => v,
        Err(e) => {
            return Err(e);
        },
    };
    if Ipv4Addr::parse(gateway).is_none() {
        return Err(ClientError::RoutingError(joined("bad gateway ", gateway)));
    }
    let ghost model = seq![verb@, base@, "mask"@, mask@, gateway@];
    let mut args: Vec<String> = Vec::new();
    args.push(verb.to_owned());
    args.push(base);
    args.push("mask".to_owned());
    args.push(mask);
    args.push(gateway.to_owned());
    assert(strings(args@) =~= model);
    if let Some(n) = ifindex {
        args.push("if".to_owned());
        args.push(decimal_of(n as u64));
        assert(strings(args@) =~= model + seq!["if"@, decimal(n as nat)]);
    }
    Ok(args)
}

/// Arguments of `route` that add a route.
pub fn route_add_args(dest_cidr: &str, gateway: &str) -> (r: Result<Vec<String>, ClientError>)
    ensures
        args_of(r) == route_args("add"@, dest_cidr@, gateway@, None),
{
    build_route_args("add", dest_cidr, gateway, None)
}

/// Arguments of `route` that delete a route.
pub fn route_delete_args(dest_cidr: &str, gateway: &str) -> (r: Result<Vec<String>, ClientError>)
    ensures
        args_of(r) == route_args("delete"@, dest_cidr@, gateway@, None),
{
    build_route_args("delete", dest_cidr, gateway, None)
}

/// Arguments of `route` that add a route on an interface.
pub fn route_add_if_args(dest_cidr: &str, gateway: &str, ifindex: u32) -> (r: Result<
    Vec<String>,
    ClientError,
>)
    ensures
        args_of(r) == route_args("add"@, dest_cidr@, gateway@, Some(ifindex)),
{
    build_route_args("add", dest_cidr, gateway, Some(ifindex))
}

/// Arguments of `route` that delete a route on an interface.
pub fn route_delete_if_args(dest_cidr: &str, gateway: &str, ifindex: u32) -> (r: Result<
    Vec<String>,
    ClientError,
>)
    ensures
        args_of(r) == route_args("delete"@, dest_cidr@, gateway@, Some(ifindex)),
{
    build_route_args("delete", dest_cidr, gateway, Some(ifindex))
}

/// The arguments of `netsh` that set the first resolver of an interface.
pub open spec fn dns_args(iface: Seq<char>, dns: Seq<char>) -> Seq<Seq<char>> {
    seq!["interface"@, "ip"@, "set"@, "dnsservers"@, iface, "static"@, dns]
}

/// Arguments of `netsh` that set the first resolver of an interface.
pub fn dns_set_args(iface: &str, dns: &str) -> (r: Vec<String>)
    ensures
        strings(r@) == dns_args(iface@, dns@),
{
    let mut args: Vec<String> = Vec::new();
    args.push("interface".to_owned());
    args.push("ip".to_owned());
    args.push("set".to_owned());
    args.push("dnsservers".to_owned());
    args.push(iface.to_owned());
    args.push("static".to_owned());
    args.push(dns.to_owned());
    assert(strings(args@) =~= dns_args(iface@, dns@));
    args
}

/// The arguments of `netsh` that append a resolver of an interface; the first has
/// the position 1.
pub open spec fn dns_more_args(iface: Seq<char>, dns: Seq<char>, position: nat) -> Seq<Seq<char>> {
    seq!["interface"@, "ip"@, "add"@, "dnsservers"@, iface, dns, "index="@ + decimal(position)]
}

/// Arguments of `netsh` that append a resolver of an interface.
pub fn dns_add_args(iface: &str, dns: &str, position: u64) -> (r: Vec<String>)
    ensures
        strings(r@) == dns_more_args(iface@, dns@, position as nat),
{
    let mut args: Vec<String> = Vec::new();
    args.push("interface".to_owned());
    args.push("ip".to_owned());
    args.push("add".to_owned());
    args.push("dnsservers".to_owned());
    args.push(iface.to_owned());
    args.push(dns.to_owned());
    args.push(joined("index=", decimal_of(position).as_str()));
    assert(strings(args@) =~= dns_more_args(iface@, dns@, position as nat));
    args
}

/// Metric of the TUN interface; lower than that of physical interfaces.
pub const TUN_IFACE_METRIC: u32 = 5;

/// How an interface is named in arguments of `netsh`.
pub open spec fn name_arg(name: Seq<char>) -> Seq<char> {
    "name=\""@ + name + "\""@
}

fn named(name: &str) -> (r: String)
    ensures
        r@ == name_arg(name@),
{
    let mut r = joined("name=\"", name);
    r.append("\"");
    r
}

/// How an interface without a name is refused.
pub open spec fn no_name() -> ClientFault {
    ClientFault::PlatformError("empty interface name"@)
}

/// The arguments of `netsh` that give an interface an address.
pub open spec fn addr_args(name: Seq<char>, addr: Seq<char>, prefix: u8) -> Result<
    Seq<Seq<char>>,
    ClientFault,
> {
    if name.len() == 0 {
        Err(no_name())
    } else if Ipv4Addr::spec_parse(addr) is None {
        Err(ClientFault::RoutingError("bad address "@ + addr))
    } else {
        match mask_text(prefix) {
            Err(fault) => Err(fault),
            Ok(mask) => Ok(
                seq![
                    "interface"@,
                    "ipv4"@,
                    "set"@,
                    "address"@,
                    name_arg(name),
                    "source=static"@,
                    "address="@ + addr,
                    "mask="@ + mask,
                ],
            ),
        }
    }
}

/// Arguments of `netsh` that give an interface an address.
pub fn tun_addr_args(name: &str, addr: &str, prefix: u8) -> (r: Result<Vec<String>, ClientError>)
    ensures
        args_of(r) == addr_args(name@, addr@, prefix),
{
    if name.is_empty() {
        return Err(ClientError::PlatformError("empty interface name".to_owned()));
    }
    if Ipv4Addr::parse(addr).is_none() {
        return Err(ClientError::RoutingError(joined("bad address ", addr)));
    }
    let mask = match prefix_to_mask(prefix) {
        Ok(mask) => mask,
        Err(e) => {
            return Err(e);
        },
    };
    let mut args: Vec<String> = Vec::new();
    args.push("interface".to_owned());
    args.push("ipv4".to_owned());
    args.push("set".to_owned());
    args.push("address".to_owned());
    args.push(named(name));
    args.push("source=static".to_owned());
    args.push(joined("address=", addr));
    args.push(joined("mask=", mask.as_str()));
    assert(strings(args@) =~= addr_args(name@, addr@, prefix)->Ok_0);
    Ok(args)
}

/// The arguments of `netsh` that enable or disable an interface.
pub open spec fn admin_args(name: Seq<char>, enable: bool) -> Result<Seq<Seq<char>>, ClientFault> {
    if name.len() == 0 {
        Err(no_name())
    } else {
        Ok(
            seq![
                "interface"@,
                "set"@,
                "interface"@,
                name_arg(name),
                if enable {
                    "admin=enabled"@
                } else {
                    "admin=disabled"@
                },
            ],
        )
    }
}

/// Arguments of `netsh` that enable or disable an interface.
pub fn iface_admin_args(name: &str, enable: bool) -> (r: Result<Vec<String>, ClientError>)
    ensures
        args_of(r) == admin_args(name@, enable),
{
    if name.is_empty() {
        return Err(ClientError::PlatformError("empty interface name".to_owned()));
    }
    let mut args: Vec<String> = Vec::new();
    args.push("interface".to_owned());
    args.push("set".to_owned());
    args.push("interface".to_owned());
    args.push(named(name));
    args.push(
        if enable {
            "admin=enabled".to_owned()
        } else {
            "admin=disabled".to_owned()
        },
    );
    assert(strings(args@) =~= admin_args(name@, enable)->Ok_0);
    Ok(args)
}

/// The arguments of `netsh` that set the metric of an interface.
pub open spec fn metric_args(name: Seq<char>, metric: u32) -> Result<Seq<Seq<char>>, ClientFault> {
    if name.len() == 0 {
        Err(no_name())
    } else {
        Ok(
            seq![
                "interface"@,
                "ipv4"@,
                "set"@,
                "interface"@,
                name_arg(name),
                "metric="@ + decimal(metric as nat),
            ],
        )
    }
}

/// Arguments of `netsh` that set the metric of an interface.
pub fn iface_metric_args(name: &str, metric: u32) -> (r: Result<Vec<String>, ClientError>)
    ensures
        args_of(r) == metric_args(name@, metric),
{
    if name.is_empty() {
        return Err(ClientError::PlatformError("empty interface name".to_owned()));
    }
    let mut args: Vec<String> = Vec::new();
    args.push("interface".to_owned());
    args.push("ipv4".to_owned());
    args.push("set".to_owned());
    args.push("interface".to_owned());
    args.push(named(name));
    args.push(joined("metric=", decimal_of(metric as u64).as_str()));
    assert(strings(args@) =~= metric_args(name@, metric)->Ok_0);
    Ok(args)
}

/// A route is deleted by the words that added it, but for the first.
pub proof fn delete_mirrors_add(dest: Seq<char>, gateway: Seq<char>, ifindex: Option<u32>)
    ensures
        match (
            route_args("add"@, dest, gateway, ifindex),
            route_args("delete"@, dest, gateway, ifindex),
        ) {
            (Ok(a), Ok(d)) => a.skip(1) == d.skip(1) && a[0] == "add"@ && d[0] == "delete"@,
            (Err(a), Err(d)) => a == d,
            _ => false,
        },
{
    if let Ok(a) = route_args("add"@, dest, gateway, ifindex) {
        let d = route_args("delete"@, dest, gateway, ifindex)->Ok_0;
        assert(a.skip(1) =~= d.skip(1));
    }
}

/// Characters 0xb0 to 0xdf of the code page IBM866.
pub const CODE_PAGE_FRAMES: [char; 48] = [
    '\u{2591}', '\u{2592}', '\u{2593}', '\u{2502}', '\u{2524}', '\u{2561}', '\u{2562}', '\u{2556}',
    '\u{2555}', '\u{2563}', '\u{2551}', '\u{2557}', '\u{255d}', '\u{255c}', '\u{255b}', '\u{2510}',
    '\u{2514}', '\u{2534}', '\u{252c}', '\u{251c}', '\u{2500}', '\u{253c}', '\u{255e}', '\u{255f}',
    '\u{255a}', '\u{2554}', '\u{2569}', '\u{2566}', '\u{2560}', '\u{2550}', '\u{256c}', '\u{2567}',
    '\u{2568}', '\u{2564}', '\u{2565}', '\u{2559}', '\u{2558}', '\u{2552}', '\u{2553}', '\u{256b}',
    '\u{256a}', '\u{2518}', '\u{250c}', '\u{2588}', '\u{2584}', '\u{258c}', '\u{2590}', '\u{2580}',
];

/// Characters 0xf0 to 0xff of the code page IBM866.
pub const CODE_PAGE_SIGNS: [char; 16] = [
    '\u{401}', '\u{451}', '\u{404}', '\u{454}', '\u{407}', '\u{457}', '\u{40e}', '\u{45e}', '\u{b0}',
    '\u{2219}', '\u{b7}', '\u{221a}', '\u{2116}', '\u{a4}', '\u{25a0}', '\u{a0}',
];

/// A character of the code page IBM866.
pub open spec fn code_page_char(byte: u8) -> char {
    if byte < 0x80 {
        byte as char
    } else if byte < 0xb0 {
        (0x410 + (byte - 0x80)) as char
    } else if byte < 0xe0 {
        CODE_PAGE_FRAMES@[byte - 0xb0]
    } else if byte < 0xf0 {
        (0x440 + (byte - 0xe0)) as char
    } else {
        CODE_PAGE_SIGNS@[byte - 0xf0]
    }
}

/// Whether a number is that of a character.
pub open spec fn is_scalar(code: u32) -> bool {
    code <= 0x10ffff && !(0xd800 <= code <= 0xdfff)
}

/// Calls `char::from_u32`.
///
/// Claimed of it: it succeeds exactly on Unicode scalar values, and gives the
/// character with that value.
#[verifier::external_body]
fn char_of(code: u32) -> (r: Option<char>)
    ensures
        (r is Some) == is_scalar(code),
        r matches Some(c) ==> c == code as char,
{
    char::from_u32(code)
}

fn scalar(code: u32) -> (r: char)
    requires
        is_scalar(code),
    ensures
        r == code as char,
{
    match char_of(code) {
        Some(c) => c,
        None => vstd::pervasive::unreached(),
    }
}

fn from_code_page(byte: u8) -> (r: char)
    ensures
        r == code_page_char(byte),
{
    if byte < 0x80 {
        byte as char
    } else if byte < 0xb0 {
        scalar(0x410 + (byte as u32 - 0x80))
    } else if byte < 0xe0 {
        CODE_PAGE_FRAMES[(byte - 0xb0) as usize]
    } else if byte < 0xf0 {
        scalar(0x440 + (byte as u32 - 0xe0))
    } else {
        CODE_PAGE_SIGNS[(byte - 0xf0) as usize]
    }
}

/// The 16-bit units of bytes, the low byte of each first. A last single byte is
/// dropped.
pub open spec fn units(bytes: Seq<u8>) -> Seq<u16> {
    Seq::new(bytes.len() / 2, |i: int| (bytes[2 * i] + bytes[2 * i + 1] * 0x100) as u16)
}

/// The characters of UTF-16 units. A unit that is half a pair becomes U+FFFD.
pub open spec fn decode_utf16(u: Seq<u16>) -> Seq<char>
    decreases u.len(),
{
    if u.len() == 0 {
        Seq::empty()
    } else if u[0] < 0xd800 || u[0] > 0xdfff {
        seq![u[0] as char] + decode_utf16(u.skip(1))
    } else if u[0] < 0xdc00 && u.len() > 1 && 0xdc00 <= u[1] <= 0xdfff {
        seq![(0x10000 + (u[0] - 0xd800) * 0x400 + (u[1] - 0xdc00)) as char] + decode_utf16(
            u.skip(2),
        )
    } else {
        seq!['\u{fffd}'] + decode_utf16(u.skip(1))
    }
}

fn units_of(bytes: &[u8]) -> (r: Vec<u16>)
    ensures
        r@ == units(bytes@),
{
    let mut r: Vec<u16> = Vec::new();
    let end: usize = bytes.len();
    let mut i: usize = 0;
    while i + 1 < end
        invariant
            end == bytes@.len(),
            0 <= i <= end,
            i % 2 == 0,
            r@.len() * 2 == i,
            forall|j: int| 0 <= j < r@.len() ==> #[trigger] r@[j] == units(bytes@)[j],
        decreases end - i,
    {
        let unit: u16 = bytes[i] as u16 + bytes[i + 1] as u16 * 0x100;
        r.push(unit);
        i += 2;
    }
    assert(r@ =~= units(bytes@));
    r
}

fn utf16_string(u: &Vec<u16>) -> (r: String)
    ensures
        r@ == decode_utf16(u@),
{
    let mut r = String::new();
    let mut i: usize = 0;
    let end: usize = u.len();
    assert(u@.skip(0) =~= u@);
    assert(r@ =~= Seq::<char>::empty());
    assert(r@ + decode_utf16(u@.skip(0)) =~= decode_utf16(u@));
    while i < end
        invariant
            end == u@.len(),
            0 <= i <= end,
            r@ + decode_utf16(u@.skip(i as int)) == decode_utf16(u@),
        decreases end - i,
    {
        let ghost rest = u@.skip(i as int);
        let ghost held = r@;
        let first: u16 = u[i];
        assert(rest[0] == first);
        assert(rest.skip(1) =~= u@.skip(i + 1));
        if first < 0xd800 || first > 0xdfff {
            r.push(scalar(first as u32));
            assert(r@ + decode_utf16(rest.skip(1)) =~= held + (seq![first as char]
                + decode_utf16(rest.skip(1))));
            i += 1;
        } else if first < 0xdc00 && end - i > 1 && 0xdc00 <= u[i + 1] && u[i + 1] <= 0xdfff {
            let second: u16 = u[i + 1];
            assert(rest[1] == second);
            assert(rest.skip(2) =~= u@.skip(i + 2));
            let code: u32 = 0x10000 + (first as u32 - 0xd800) * 0x400 + (second as u32 - 0xdc00);
            r.push(scalar(code));
            assert(r@ + decode_utf16(rest.skip(2)) =~= held + (seq![code as char]
                + decode_utf16(rest.skip(2))));
            i += 2;
        } else {
            r.push('\u{fffd}');
            assert(r@ + decode_utf16(rest.skip(1)) =~= held + (seq!['\u{fffd}']
                + decode_utf16(rest.skip(1))));
            i += 1;
        }
    }
    assert(decode_utf16(u@.skip(i as int)) =~= Seq::<char>::empty());
    assert(r@ =~= decode_utf16(u@));
    r
}

/// The text that a Windows command printed: UTF-16 where a byte order mark says so,
/// else UTF-8 where it is valid, else the code page IBM866.
pub open spec fn printed(bytes: Seq<u8>) -> Seq<char> {
    if bytes.len() >= 2 && bytes[0] == 0xff && bytes[1] == 0xfe {
        decode_utf16(units(bytes.skip(2)))
    } else if valid_utf8(bytes) {
        decode_utf8(bytes)
    } else {
        bytes.map_values(|b: u8| code_page_char(b))
    }
}

/// Decodes what a Windows command printed.
pub fn decode_cmd_output(bytes: &[u8]) -> (r: String)
    ensures
        r@ == printed(bytes@),
{
    let end: usize = bytes.len();
    if end >= 2 && bytes[0] == 0xff && bytes[1] == 0xfe {
        assert(bytes@.skip(2) =~= bytes@.subrange(2, end as int));
        return utf16_string(&units_of(&bytes[2..end]));
    }
    if let Ok(s) = utf8_string(vstd::slice::slice_to_vec(bytes)) {
        return s;
    }
    let mut r = String::new();
    let mut i: usize = 0;
    let ghost all = bytes@.map_values(|b: u8| code_page_char(b));
    assert(r@ =~= all.take(0));
    while i < end
        invariant
            end == bytes@.len(),
            0 <= i <= end,
            all == bytes@.map_values(|b: u8| code_page_char(b)),
            r@ == all.take(i as int),
        decreases end - i,
    {
        r.push(from_code_page(bytes[i]));
        assert(all.take(i + 1) =~= all.take(i as int).push(all[i as int]));
        i += 1;
    }
    assert(all.take(i as int) =~= all);
    r
}

/// The mask of a prefix length is written as an address whose number is 2^32 less the size of
/// the block, and read back as such.
pub proof fn masks_are_written_as_addresses(prefix: u8)
    ensures
        mask_text(prefix) is Ok <==> prefix <= 32,
        mask_text(prefix) matches Ok(text) ==> (Ipv4Addr::spec_parse(text) matches Some(mask) && {
            &&& prefix > 0 ==> mask.spec_bits() == 0x1_0000_0000
                - vstd::arithmetic::power2::pow2((32 - prefix) as nat)
            &&& prefix == 0 ==> mask.spec_bits() == 0
            &&& ones(mask.spec_bits() as nat) == prefix
        }),
{
    if prefix <= 32 {
        let bits = mask_bits(prefix as nat);
        masks_have_their_prefix_of_ones(prefix as nat);
        numbers_are_those_of_their_address(bits);
        address_text_round_trip(Ipv4Addr::of_bits(bits));
    }
}

/// The words by which `route` is told of a block: the verb, the base of the block, its mask,
/// the gateway, and the interface where one is given.
pub proof fn route_words(
    verb: Seq<char>,
    base: Ipv4Addr,
    prefix: u8,
    gateway: Ipv4Addr,
    ifindex: Option<u32>,
)
    requires
        prefix <= 32,
    ensures
        route_args(
            verb,
            base.spec_text().push('/') + decimal(prefix as nat),
            gateway.spec_text(),
            ifindex,
        ) matches Ok(args) && {
            &&& args.len() == (if ifindex is Some {
                7int
            } else {
                5int
            })
            &&& args[0] == verb
            &&& args[1] == base.spec_text()
            &&& args[2] == "mask"@
            &&& Ok::<Seq<char>, ClientFault>(args[3]) == mask_text(prefix)
            &&& args[4] == gateway.spec_text()
            &&& ifindex matches Some(n) ==> args[5] == "if"@ && args[6] == decimal(n as nat)
        },
{
    address_text_round_trip(base);
    address_text_round_trip(gateway);
    address_text_holds_no_separator(base, '/');
    first_separator_splits(base.spec_text(), '/', decimal(prefix as nat));
    written_number_is_read(prefix as nat, 255);
}

/// `route` is told of nothing but blocks and gateways: whatever else is named is refused.
pub proof fn route_words_are_addresses(
    verb: Seq<char>,
    dest: Seq<char>,
    gateway: Seq<char>,
    ifindex: Option<u32>,
)
    ensures
        route_args(verb, dest, gateway, ifindex) matches Ok(args) ==> {
            &&& args.len() >= 5
            &&& args[0] == verb
            &&& Ipv4Addr::spec_parse(args[1]) is Some
            &&& Ipv4Addr::spec_parse(args[3]) is Some
            &&& args[4] == gateway
            &&& Ipv4Addr::spec_parse(gateway) is Some
        },
{
    if let Ok((base, mask)) = base_and_mask(dest) {
        let prefix = parse_number(split_once(dest, '/')->Some_0.1, 255)->Some_0;
        masks_are_written_as_addresses(prefix as u8);
    }
}

/// A row of a routing table names a destination by its base and the number of ones in its
/// mask, and the default by its own word; it goes via the gateway that stands there, or via
/// the interface where the destination is on the link.
pub proof fn rows_name_destination_and_gateway(line: Seq<char>)
    ensures
        read_row(line) matches Some(row) ==> {
            let cols = words(line);
            &&& cols.len() >= 5
            &&& Ipv4Addr::spec_parse(cols[0]) matches Some(dest) && (Ipv4Addr::spec_parse(cols[1])
                matches Some(mask) && {
                &&& row.is_default <==> dest.spec_bits() == 0 && mask.spec_bits() == 0
                &&& row.is_default ==> row.dest == "default"@
                &&& !row.is_default ==> row.dest == dest.spec_text().push('/') + decimal(
                    ones(mask.spec_bits() as nat),
                )
            })
            &&& Ipv4Addr::spec_parse(cols[3]) == Some(row.iface)
            &&& row.gateway == Ipv4Addr::spec_parse(cols[2])
            &&& row.gateway is Some && lowercase(cols[2]) != lowercase("on-link"@) ==> row.via
                == cols[2]
            &&& row.gateway is None ==> row.via == row.iface.spec_text()
        },
{
    let cols = words(line);
    if let Some(mask) = Ipv4Addr::spec_parse(cols[1]) {
        lemma_ones_zero(mask.spec_bits() as nat);
    }
}

proof fn lemma_ones_zero(n: nat)
    ensures
        ones(n) == 0 <==> n == 0,
    decreases n,
{
    if n > 0 {
        lemma_ones_zero(n / 2);
    }
}

/// A routing table holds one route for each row, in order, and of several default routes the
/// last one gives gateway and interface. A line that is no row changes nothing.
pub proof fn tables_are_read_row_by_row(lines: Seq<Seq<char>>, line: Seq<char>)
    ensures
        match read_row(line) {
            None => read_table(lines.push(line)) == read_table(lines),
            Some(row) => {
                let before = read_table(lines);
                let after = read_table(lines.push(line));
                &&& after.routes == before.routes.push(
                    RouteModel { dest: row.dest, via: row.via },
                )
                &&& row.is_default ==> after.default_gateway == row.gateway
                    && after.default_iface_ip == Some(row.iface)
                &&& !row.is_default ==> after.default_gateway == before.default_gateway
                    && after.default_iface_ip == before.default_iface_ip
            },
        },
        read_table(Seq::empty()).routes.len() == 0,
        read_table(Seq::empty()).default_gateway is None,
        read_table(Seq::empty()).default_iface_ip is None,
{
    assert(lines.push(line).drop_last() =~= lines);
}

/// What `ipconfig` says of resolvers and adapters: only addresses become resolvers, at the end
/// of the list, and only in lines about DNS or right behind one; only an address of a named
/// adapter is noted, in a line about IPv4.
pub proof fn only_addresses_are_noted(m: IpconfigModel, line: Seq<char>, upper: Seq<char>)
    ensures
        ({
            let after = after_line(m, line, upper);
            &&& after.dns == m.dns || after.dns.len() == m.dns.len() + 1 && after.dns.drop_last()
                == m.dns && Ipv4Addr::spec_parse(after.dns.last()) is Some && (m.in_dns
                || contains_text(upper, "DNS"@))
            &&& after.ifaces == m.ifaces || (m.adapter matches Some(name) && contains_text(
                upper,
                "IPV4"@,
            ) && !contains_text(upper, "DNS"@) && exists|v: Seq<char>|
                Ipv4Addr::spec_parse(v) is Some && after.ifaces == #[trigger] with_value(
                    m.ifaces,
                    name,
                    v,
                ))
            &&& trim(line).len() == 0 ==> after == IpconfigModel { in_dns: false, ..m }
        }),
{
    let after = after_line(m, line, upper);
    let t = trim(line);
    if after.dns.len() == m.dns.len() + 1 {
        assert(after.dns.drop_last() =~= m.dns);
    }
    if t.len() > 0 {
        if let Some((label, value)) = split_once(t, ':') {
            let v = line_value(value);
            if m.adapter is Some {
                let _ = with_value(m.ifaces, m.adapter->Some_0, v);
                assert(after.ifaces == m.ifaces || after.ifaces == with_value(
                    m.ifaces,
                    m.adapter->Some_0,
                    v,
                ));
            }
        }
    }
}

/// A line `label: address` about DNS adds the address as a resolver, and one about IPv4 notes
/// it as that of the adapter; what marks an address as preferred is left out.
pub proof fn labelled_addresses_are_noted(
    m: IpconfigModel,
    line: Seq<char>,
    upper: Seq<char>,
    label: Seq<char>,
    value: Seq<char>,
    ip: Ipv4Addr,
)
    requires
        trim(line) == label.push(':') + value,
        !label.contains(':'),
        trim(line).last() != ':',
        trim(strip_tails(trim(value), "(Preferred)"@)) == ip.spec_text(),
    ensures
        ({
            let after = after_line(m, line, upper);
            &&& contains_text(upper, "DNS"@) ==> after.dns == m.dns.push(ip.spec_text())
                && after.in_dns && after.ifaces == m.ifaces
            &&& !contains_text(upper, "DNS"@) && contains_text(upper, "IPV4"@) && m.adapter is Some
                ==> after.ifaces == with_value(m.ifaces, m.adapter->Some_0, ip.spec_text())
                && after.dns == m.dns && !after.in_dns
            &&& after.adapter == m.adapter
        }),
{
    first_separator_splits(label, ':', value);
    address_text_round_trip(ip);
}

/// A bare address behind a line about DNS is one more resolver, and ends nothing.
pub proof fn bare_addresses_continue_the_resolvers(
    m: IpconfigModel,
    line: Seq<char>,
    upper: Seq<char>,
    ip: Ipv4Addr,
)
    requires
        m.in_dns,
        trim(line) == ip.spec_text(),
    ensures
        after_line(m, line, upper) == (IpconfigModel { dns: m.dns.push(ip.spec_text()), ..m }),
{
    address_text_round_trip(ip);
    address_text_holds_no_separator(ip, ':');
    first_separator_splits(ip.spec_text(), ':', ip.spec_text());
    assert(ip.spec_text().len() > 0) by {
        crate::text::decimal_round_trip(ip.spec_octets()[0] as nat);
    }
}

/// The name of an adapter stands in its header: behind the word `adapter`, and in another
/// language behind the first two words, or behind the first where there are only two.
pub proof fn adapters_are_named_by_their_header(label: Seq<char>)
    ensures
        text_index(lowercase(label), " adapter "@) is None ==> ({
            let all = words(label);
            &&& all.len() < 2 ==> adapter_name(label).len() == 0
            &&& all.len() == 2 ==> adapter_name(label) == all[1]
            &&& all.len() == 3 ==> adapter_name(label) == all[2]
            &&& all.len() > 2 ==> adapter_name(label) == spaced(all.skip(2))
        }),
        text_index(lowercase(label), " adapter "@) matches Some(i) ==> adapter_name(label) == trim(
            label.skip(i + 9),
        ),
{
    reveal_strlit(" adapter ");
    let all = words(label);
    if all.len() == 2 {
        assert(all.skip(1)[0] == all[1]);
    }
    if all.len() == 3 {
        assert(all.skip(2)[0] == all[2]);
    }
}

/// What a command printed: behind the marks 0xff and 0xfe each two bytes are a unit with the
/// low byte first; without the marks it is UTF-8, and where it cannot be that, each byte is
/// one character, ASCII up to 0x7f.
pub proof fn printed_bytes_tell_their_encoding(bytes: Seq<u8>)
    ensures
        bytes.len() >= 2 && bytes[0] == 0xff && bytes[1] == 0xfe ==> printed(bytes)
            == decode_utf16(
            Seq::new(
                ((bytes.len() - 2) / 2) as nat,
                |i: int| (bytes[2 * i + 2] + bytes[2 * i + 3] * 0x100) as u16,
            ),
        ),
        !(bytes.len() >= 2 && bytes[0] == 0xff && bytes[1] == 0xfe) && valid_utf8(bytes)
            ==> printed(bytes) == decode_utf8(bytes),
        !(bytes.len() >= 2 && bytes[0] == 0xff && bytes[1] == 0xfe) && !valid_utf8(bytes)
            ==> printed(bytes).len() == bytes.len() && forall|i: int|
            0 <= i < bytes.len() && bytes[i] < 0x80 ==> #[trigger] printed(bytes)[i]
                == bytes[i] as char,
{
    if bytes.len() >= 2 {
        assert(units(bytes.skip(2)) =~= Seq::new(
            ((bytes.len() - 2) / 2) as nat,
            |i: int| (bytes[2 * i + 2] + bytes[2 * i + 3] * 0x100) as u16,
        ));
    }
}

/// An interface is enabled or disabled by its name, with the word for either.
pub proof fn interfaces_are_switched_by_name(name: Seq<char>, enable: bool, metric: u32)
    requires
        name.len() > 0,
    ensures
        admin_args(name, enable) matches Ok(args) && args.contains(
            if enable {
                "admin=enabled"@
            } else {
                "admin=disabled"@
            },
        ) && args.contains("name=\""@ + name + "\""@),
        metric_args(name, metric) matches Ok(args) && args.contains(
            "metric="@ + decimal(metric as nat),
        ) && args.contains("name=\""@ + name + "\""@),
{
    let a = admin_args(name, enable)->Ok_0;
    assert(a[3] == name_arg(name));
    assert(a[4] == (if enable {
        "admin=enabled"@
    } else {
        "admin=disabled"@
    }));
    let b = metric_args(name, metric)->Ok_0;
    assert(b[4] == name_arg(name));
    assert(b[5] == "metric="@ + decimal(metric as nat));
}

/// The lines of an output are read first to last, from nothing; each adds at most one resolver,
/// behind those of the lines before, and a blank line adds nothing.
pub proof fn outputs_are_read_line_by_line(lines: Seq<Seq<char>>, line: Seq<char>)
    ensures
        read_ipconfig(Seq::empty()).dns.len() == 0,
        read_ipconfig(Seq::empty()).ifaces.len() == 0,
        ({
            let before = read_ipconfig(lines);
            let after = read_ipconfig(lines.push(line));
            &&& after.dns == before.dns || (after.dns.len() == before.dns.len() + 1
                && after.dns.drop_last() == before.dns)
            &&& trim(line).len() == 0 ==> after.dns == before.dns && after.ifaces == before.ifaces
                && after.adapter == before.adapter && !after.in_dns
        }),
{
    let before = read_ipconfig(lines);
    let after = read_ipconfig(lines.push(line));
    assert(lines.push(line).drop_last() =~= lines);
    if after.dns != before.dns {
        assert(after.dns.drop_last() =~= before.dns);
    }
}

} // verus!
