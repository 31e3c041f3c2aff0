//! Client configuration, checked once where it comes in.

use vstd::prelude::*;
use vstd::string::*;

use crate::client::routing::{
    filled, filled_text, in_force, lan_rules, member_text, number_in, number_or, read_rule,
    read_rules, rule_lists_are_read_in_order, rules_from, text_of, Action, RuleModel, Ruleset,
};
use crate::client::{ClientError, ClientFault};
use crate::engine::config::{DocModel, Document};
use crate::text::{
    chars_of, cut_last, decimal, joined, last_separator_splits, number_of, parse_number,
    rsplit_once, same_str, string_of, written_number_holds_no_separator, written_number_is_read,
};

verus! {

/// A configuration that was checked.
pub struct ClientConfig {
    /// `host:port` of the server.
    pub server_addr: String,
    /// Server name shown outside of the tunnel.
    pub outer_sni: String,
    /// Pre-shared key, never empty.
    pub psk: String,
    /// Multiple that frames are padded to.
    pub pad_multiple: usize,
    /// Seconds between keepalives.
    pub keepalive_s: u64,
    /// MTU of the TUN device.
    pub mtu: u32,
    pub kill_switch: bool,
    /// Whether the network is restored on exit.
    pub restore_on_exit: bool,
    /// Whether private addresses go direct without a rule.
    pub include_private_lan_direct: bool,
    /// Always `tunnel`.
    pub dns_mode: String,
    /// Routing rules, the built-in ones first.
    pub rules: Ruleset,
}

/// Mathematical counterpart of [`ClientConfig`].
pub struct ConfigModel {
    pub server_addr: Seq<char>,
    pub outer_sni: Seq<char>,
    pub psk: Seq<char>,
    pub pad_multiple: usize,
    pub keepalive_s: u64,
    pub mtu: u32,
    pub kill_switch: bool,
    pub restore_on_exit: bool,
    pub include_private_lan_direct: bool,
    pub dns_mode: Seq<char>,
    pub rules: Seq<RuleModel>,
    /// How many of the rules, at the front, are built in.
    pub built_in: nat,
    pub default_action: Action,
    pub rules_private_direct: bool,
}

impl ConfigModel {
    /// The rules that decide.
    pub open spec fn deciding(self) -> Seq<RuleModel> {
        in_force(self.rules, self.built_in, self.rules_private_direct)
    }
}

impl View for ClientConfig {
    type V = ConfigModel;

    open spec fn view(&self) -> ConfigModel {
        ConfigModel {
            server_addr: self.server_addr@,
            outer_sni: self.outer_sni@,
            psk: self.psk@,
            pad_multiple: self.pad_multiple,
            keepalive_s: self.keepalive_s,
            mtu: self.mtu,
            kill_switch: self.kill_switch,
            restore_on_exit: self.restore_on_exit,
            include_private_lan_direct: self.include_private_lan_direct,
            dns_mode: self.dns_mode@,
            rules: self.rules.model(),
            built_in: self.rules.spec_built_in(),
            default_action: self.rules.spec_default(),
            rules_private_direct: self.rules.spec_private_direct(),
        }
    }
}

/// Host and port of a server address, or why it is none.
pub open spec fn host_port(server_addr: Seq<char>) -> Result<(Seq<char>, u16), ClientFault> {
    match rsplit_once(server_addr, ':') {
        None => Err(ClientFault::ConfigError("server_addr must be host:port"@)),
        Some((host, port)) => if host.len() == 0 {
            Err(ClientFault::ConfigError("server_addr host empty"@))
        } else {
            match parse_number(port, 65535) {
                Some(n) => if n == 0 {
                    Err(ClientFault::ConfigError("server_addr port invalid"@))
                } else {
                    Ok((host, n as u16))
                },
                None => Err(ClientFault::ConfigError("server_addr port invalid"@)),
            }
        },
    }
}

/// Splits a server address into host and port.
pub fn parse_port(server_addr: &str) -> (r: Result<(String, u16), ClientError>)
    ensures
        match (r, host_port(server_addr@)) {
            (Ok(v), Ok(m)) => v.0@ == m.0 && v.1 == m.1,
            (Err(e), Err(fault)) => e@ == fault,
            _ => false,
        },
{
    let chars = chars_of(server_addr);
    match cut_last(chars.as_slice(), ':') {
        None => Err(ClientError::ConfigError("server_addr must be host:port".to_owned())),
        Some((host, port)) => {
            if host.len() == 0 {
                return Err(ClientError::ConfigError("server_addr host empty".to_owned()));
            }
            match number_of(port, 65535) {
                Some(n) => if n == 0 {
                    Err(ClientError::ConfigError("server_addr port invalid".to_owned()))
                } else {
                    Ok((string_of(host), n as u16))
                },
                None => Err(ClientError::ConfigError("server_addr port invalid".to_owned())),
            }
        },
    }
}

/// A required text.
pub open spec fn required(doc: DocModel, field: Seq<char>) -> Result<Seq<char>, ClientFault> {
    match filled(doc, field) {
        Some(s) => Ok(s),
        None => Err(ClientFault::ConfigError("missing "@ + field)),
    }
}

/// A required text.
pub fn required_str(doc: &Document, field: &str) -> (r: Result<String, ClientError>)
    ensures
        match (r, required(doc.model(), field@)) {
            (Ok(s), Ok(m)) => s@ == m,
            (Err(e), Err(fault)) => e@ == fault,
            _ => false,
        },
{
    match filled_text(doc, field) {
        Some(s) => Ok(s),
        None => Err(ClientError::ConfigError(joined("missing ", field))),
    }
}

/// The truth value of a member of an optional table, or a default.
pub open spec fn truth_or(table: Option<DocModel>, field: Seq<char>, default: bool) -> bool {
    match table {
        Some(doc) => match doc.get(field) {
            Some(value) => match value.truth() {
                Some(b) => b,
                None => default,
            },
            None => default,
        },
        None => default,
    }
}

fn truth_in(table: Option<&Document>, field: &str, default: bool) -> (r: bool)
    ensures
        r == truth_or(
            match table {
                Some(doc) => Some(doc.model()),
                None => None,
            },
            field@,
            default,
        ),
{
    match table {
        Some(doc) => match doc.get(field) {
            Some(value) => match value.as_bool() {
                Some(b) => b,
                None => default,
            },
            None => default,
        },
        None => default,
    }
}

/// A text, or a default.
pub open spec fn text_or(doc: DocModel, field: Seq<char>, default: Seq<char>) -> Seq<char> {
    match member_text(doc, field) {
        Some(s) => s,
        None => default,
    }
}

/// The rule documents of a configuration.
pub open spec fn rule_docs(doc: DocModel) -> Seq<DocModel> {
    match doc.get("routing"@) {
        Some(routing) => match routing.get("rules"@) {
            Some(rules) => match rules.items() {
                Some(items) => items,
                None => Seq::empty(),
            },
            None => Seq::empty(),
        },
        None => Seq::empty(),
    }
}

/// A fault about a rule, told as one about the configuration.
pub open spec fn as_config_fault(fault: ClientFault) -> ClientFault {
    match fault {
        ClientFault::RoutingError(m) => ClientFault::ConfigError(m),
        other => other,
    }
}

/// Whether a table leaves names to the tunnel: it says `tunnel` or nothing.
pub open spec fn names_tunnel(doc: DocModel) -> bool {
    doc.get("dns_mode"@) matches Some(mode) ==> mode.text() == Some("tunnel"@)
}

/// The configuration that a table describes, or the first thing that is wrong
/// with it. Numbers that are too large are cut to the width of their field.
pub open spec fn read_config(doc: DocModel) -> Result<ConfigModel, ClientFault> {
    let full = doc.get("full_tunnel"@);
    let pad_multiple = number_or(doc, "pad_multiple"@, 128) as usize;
    let private_direct = truth_or(full, "include_private_lan_direct"@, true);
    match required(doc, "server_addr"@) {
        Err(fault) => Err(fault),
        Ok(server_addr) => match host_port(server_addr) {
            Err(fault) => Err(fault),
            Ok((host, _)) => match required(doc, "psk"@) {
                Err(fault) => Err(fault),
                Ok(psk) => if !names_tunnel(doc) {
                    Err(
                        ClientFault::ConfigError(
                            "dns_mode must be tunnel (v1.5 only supports tunnel)"@,
                        ),
                    )
                } else if pad_multiple == 0 {
                    Err(ClientFault::ConfigError("pad_multiple must be > 0"@))
                } else {
                    match read_rules(rule_docs(doc)) {
                        Err(fault) => Err(as_config_fault(fault)),
                        Ok(rules) => Ok(
                            ConfigModel {
                                server_addr,
                                outer_sni: text_or(doc, "outer_sni"@, host),
                                psk,
                                pad_multiple,
                                keepalive_s: number_or(doc, "keepalive_s"@, 15),
                                mtu: match full {
                                    Some(table) => number_or(table, "mtu"@, 1400) as u32,
                                    None => 1400,
                                },
                                kill_switch: truth_or(full, "kill_switch"@, false),
                                restore_on_exit: truth_or(full, "restore_on_exit"@, true),
                                include_private_lan_direct: private_direct,
                                dns_mode: "tunnel"@,
                                rules: lan_rules() + rules,
                                built_in: 3,
                                default_action: Action::Tunnel,
                                rules_private_direct: private_direct,
                            },
                        ),
                    }
                },
            },
        },
    }
}

/// The table of a document that describes the client.
pub open spec fn client_table(root: DocModel) -> DocModel {
    match root.get("client"@) {
        Some(doc) => doc,
        None => root,
    }
}

fn parse_rules(doc: &Document) -> (r: Result<Ruleset, ClientError>)
    ensures
        match (r, read_rules(rule_docs(doc.model()))) {
            (Ok(rs), Ok(m)) => {
                &&& rs.model() == lan_rules() + m
                &&& rs.spec_built_in() == 3
                &&& rs.spec_default() == Action::Tunnel
                &&& rs.spec_private_direct()
            },
            (Err(e), Err(fault)) => e@ == as_config_fault(fault),
            _ => false,
        },
{
    let mut rules = Ruleset::new();
    let found = match doc.get("routing") {
        Some(routing) => match routing.get("rules") {
            Some(list) => list.as_array(),
            None => None,
        },
        None => None,
    };
    match found {
        None => {
            assert(lan_rules() + Seq::<RuleModel>::empty() =~= lan_rules());
        },
        Some(items) => {
            assert(items@.map_values(|d: Document| d.model()) =~= rule_docs(doc.model()));
            match rules_from(items) {
                Ok(more) => {
                    rules.add_all(more);
                },
                Err(ClientError::RoutingError(m)) => {
                    return Err(ClientError::ConfigError(m));
                },
                Err(e) => {
                    return Err(e);
                },
            }
        },
    }
    Ok(rules)
}

impl ClientConfig {
    /// Reads a configuration document. The client's table may stand under
    /// `client` or be the document itself.
    pub fn parse(root: &Document) -> (r: Result<Self, ClientError>)
        ensures
            match (r, read_config(client_table(root.model()))) {
                (Ok(config), Ok(m)) => config@ == m,
                (Err(e), Err(fault)) => e@ == fault,
                _ => false,
            },
    {
        match root.get("client") {
            Some(doc) => ClientConfig::parse_flat(doc),
            None => ClientConfig::parse_flat(root),
        }
    }

    /// Reads the client's table.
    pub fn parse_flat(doc: &Document) -> (r: Result<Self, ClientError>)
        ensures
            match (r, read_config(doc.model())) {
                (Ok(config), Ok(m)) => config@ == m,
                (Err(e), Err(fault)) => e@ == fault,
                _ => false,
            },
    {
        let server_addr = match required_str(doc, "server_addr") {
            Ok(s) => s,
            Err(e) => {
                return Err(e);
            },
        };
        let host = match parse_port(server_addr.as_str()) {
            Ok((host, _)) => host,
            Err(e) => {
                return Err(e);
            },
        };
        let psk = match required_str(doc, "psk") {
            Ok(s) => s,
            Err(e) => {
                return Err(e);
            },
        };
        if let Some(mode) = doc.get("dns_mode") {
            let tunnel = match mode.as_str() {
                Some(text) => same_str(text, "tunnel"),
                None => false,
            };
            if !tunnel {
                return Err(
                    ClientError::ConfigError(
                        "dns_mode must be tunnel (v1.5 only supports tunnel)".to_owned(),
                    ),
                );
            }
        }
        let outer_sni = match text_of(doc, "outer_sni") {
            Some(s) => s.to_owned(),
            None => host,
        };
        let pad_multiple: usize = number_in(doc, "pad_multiple", 128) as usize;
        if pad_multiple == 0 {
            return Err(ClientError::ConfigError("pad_multiple must be > 0".to_owned()));
        }
        let full = doc.get("full_tunnel");
        let mtu: u32 = match full {
            Some(table) => number_in(table, "mtu", 1400) as u32,
            None => 1400,
        };
        let private_direct: bool = truth_in(full, "include_private_lan_direct", true);
        let rules = match parse_rules(doc) {
            Ok(rules) => rules.with_private_lan_direct(private_direct),
            Err(e) => {
                return Err(e);
            },
        };
        Ok(
            ClientConfig {
                server_addr,
                outer_sni,
                psk,
                pad_multiple,
                keepalive_s: number_in(doc, "keepalive_s", 15),
                mtu,
                kill_switch: truth_in(full, "kill_switch", false),
                restore_on_exit: truth_in(full, "restore_on_exit", true),
                include_private_lan_direct: private_direct,
                dns_mode: "tunnel".to_owned(),
                rules,
            },
        )
    }
}

proof fn read_rules_fit(docs: Seq<DocModel>)
    ensures
        read_rules(docs) matches Ok(rules) ==> forall|i: int|
            0 <= i < rules.len() ==> (#[trigger] rules[i]).matcher.prefix_fits(),
    decreases docs.len(),
{
    if docs.len() > 0 {
        read_rules_fit(docs.drop_last());
        crate::client::routing::read_rules_are_valid(docs.last());
    }
}

/// A configuration that was read keeps what the client relies on: a host and a
/// port other than 0, a key, padding, names resolved through the tunnel, and rules
/// that every host can be held against.
pub proof fn read_configs_are_usable(doc: DocModel)
    ensures
        read_config(doc) matches Ok(m) ==> {
            &&& host_port(m.server_addr) is Ok
            &&& m.psk.len() > 0
            &&& m.pad_multiple > 0
            &&& m.dns_mode == "tunnel"@
            &&& m.default_action == Action::Tunnel
            &&& forall|i: int|
                0 <= i < m.rules.len() ==> (#[trigger] m.rules[i]).matcher.prefix_fits()
        },
{
    read_rules_fit(rule_docs(doc));
}

/// An address that was put together of a host and a port is read as these two. A host may
/// hold colons; the port is from 1 to 65535.
pub proof fn written_server_addresses_are_read(host: Seq<char>, port: nat)
    ensures
        host.len() > 0 && 1 <= port <= 65535 ==> host_port(host.push(':') + decimal(port)) == Ok::<
            (Seq<char>, u16),
            ClientFault,
        >((host, port as u16)),
        host.len() == 0 || port == 0 || port > 65535 ==> host_port(
            host.push(':') + decimal(port),
        ) is Err,
{
    written_number_holds_no_separator(port, ':');
    last_separator_splits(host, ':', decimal(port));
    written_number_is_read(port, 65535);
}

/// A text without a colon is no server address.
pub proof fn server_addresses_need_a_port(text: Seq<char>)
    requires
        !text.contains(':'),
    ensures
        host_port(text) is Err,
{
    text.index_of_last_ensures(':');
}

/// What is read of a server address stands in it: the host before a colon, and after it the
/// digits of the port.
pub proof fn hosts_stand_before_the_port(text: Seq<char>)
    ensures
        host_port(text) matches Ok((host, port)) ==> {
            &&& 0 < host.len() < text.len()
            &&& host == text.take(host.len() as int)
            &&& text[host.len() as int] == ':'
            &&& port > 0
            &&& parse_number(text.skip(host.len() as int + 1), 65535) == Some(port as nat)
            &&& forall|i: int| host.len() < i < text.len() ==> #[trigger] text[i] != ':'
        },
{
    text.index_of_last_ensures(':');
}

/// The settings are those that the table holds: server, key and server name as they are
/// written, numbers and truth values from their members, and a default for each that is
/// missing or of another kind.
pub proof fn settings_are_those_of_the_document(doc: DocModel)
    ensures
        read_config(doc) matches Ok(m) ==> {
            &&& doc.get("server_addr"@) == Some(DocModel::Text(m.server_addr))
            &&& doc.get("psk"@) == Some(DocModel::Text(m.psk))
            &&& m.psk.len() > 0
            &&& match doc.get("outer_sni"@) {
                Some(DocModel::Text(sni)) => m.outer_sni == sni,
                _ => host_port(m.server_addr) matches Ok((host, _)) && m.outer_sni == host,
            }
            &&& match doc.get("pad_multiple"@) {
                Some(DocModel::Natural(n)) => n <= u32::MAX ==> m.pad_multiple == n,
                _ => m.pad_multiple == 128,
            }
            &&& match doc.get("keepalive_s"@) {
                Some(DocModel::Natural(n)) => m.keepalive_s == n,
                _ => m.keepalive_s == 15,
            }
            &&& m.dns_mode == "tunnel"@
            &&& m.default_action == Action::Tunnel
        },
{
}

/// The settings of the full tunnel are those of its own table: the MTU, modulo 2^32, is the
/// number that stands there and 1400 where none does; the kill switch is off, the network
/// is restored on exit and private addresses go direct unless the table says otherwise.
pub proof fn tunnel_settings_are_those_of_their_table(doc: DocModel)
    ensures
        read_config(doc) matches Ok(m) ==> match doc.get("full_tunnel"@) {
            Some(full) => {
                &&& match full.get("mtu"@) {
                    Some(DocModel::Natural(n)) => m.mtu == n % 0x1_0000_0000,
                    _ => m.mtu == 1400,
                }
                &&& match full.get("kill_switch"@) {
                    Some(DocModel::Bool(b)) => m.kill_switch == b,
                    _ => !m.kill_switch,
                }
                &&& match full.get("restore_on_exit"@) {
                    Some(DocModel::Bool(b)) => m.restore_on_exit == b,
                    _ => m.restore_on_exit,
                }
                &&& match full.get("include_private_lan_direct"@) {
                    Some(DocModel::Bool(b)) => m.include_private_lan_direct == b
                        && m.rules_private_direct == b,
                    _ => m.include_private_lan_direct && m.rules_private_direct,
                }
            },
            None => {
                &&& m.mtu == 1400
                &&& !m.kill_switch
                &&& m.restore_on_exit
                &&& m.include_private_lan_direct
                &&& m.rules_private_direct
            },
        },
{
    if let Some(full) = doc.get("full_tunnel"@) {
        if let Some(DocModel::Natural(n)) = full.get("mtu"@) {
            assert(n as u32 == n % 0x1_0000_0000) by (bit_vector);
        }
    }
}

/// The rules are the three built-in ones and behind them one for each rule document, in
/// order; without a list of them there are no others.
pub proof fn rules_are_those_of_the_document(doc: DocModel, routing: DocModel, docs: Seq<DocModel>)
    ensures
        read_config(doc) matches Ok(m) ==> {
            &&& m.built_in == 3
            &&& m.rules.len() >= 3
            &&& m.rules.take(3) == lan_rules()
            &&& doc.get("routing"@) == Some(routing) && routing.get("rules"@) == Some(
                DocModel::List(docs),
            ) ==> m.rules.len() == 3 + docs.len() && forall|i: int|
                0 <= i < docs.len() ==> read_rule(#[trigger] docs[i]) == Ok::<
                    RuleModel,
                    ClientFault,
                >(m.rules[3 + i])
            &&& doc.get("routing"@) is None ==> m.rules.len() == 3
            &&& doc.get("routing"@) == Some(routing) && !(routing.get("rules"@) matches Some(
                DocModel::List(_),
            )) ==> m.rules.len() == 3
        },
{
    rule_lists_are_read_in_order(rule_docs(doc));
    if let Ok(m) = read_config(doc) {
        assert(m.rules.take(3) =~= lan_rules());
        if doc.get("routing"@) == Some(routing) && routing.get("rules"@) == Some(
            DocModel::List(docs),
        ) {
            assert(rule_docs(doc) == docs);
            let more = read_rules(docs)->Ok_0;
            assert forall|i: int| 0 <= i < docs.len() implies read_rule(#[trigger] docs[i])
                == Ok::<RuleModel, ClientFault>(m.rules[3 + i]) by {
                assert(m.rules[3 + i] == more[i]);
            }
        }
    }
}

/// A table is read exactly where it names a server with host and port and a key, leaves
/// names to the tunnel, asks for padding, and holds no rule that cannot be read.
pub proof fn complete_tables_are_read(doc: DocModel)
    ensures
        read_config(doc) is Ok <==> {
            &&& doc.get("server_addr"@) matches Some(DocModel::Text(addr)) && host_port(
                addr,
            ) is Ok
            &&& doc.get("psk"@) matches Some(DocModel::Text(psk)) && psk.len() > 0
            &&& doc.get("dns_mode"@) is None || doc.get("dns_mode"@) == Some(
                DocModel::Text("tunnel"@),
            )
            &&& !(doc.get("pad_multiple"@) matches Some(DocModel::Natural(n)) && n as usize == 0)
            &&& read_rules(rule_docs(doc)) is Ok
        },
{
    if let Some(DocModel::Text(addr)) = doc.get("server_addr"@) {
        addr.index_of_last_ensures(':');
    }
}

/// Whatever is wrong with a table, it is told as a fault of the configuration.
pub proof fn faults_are_those_of_the_configuration(doc: DocModel)
    ensures
        read_config(doc) matches Err(fault) ==> fault is ConfigError,
{
    rule_lists_are_read_in_order(rule_docs(doc));
    if let Err(fault) = read_rules(rule_docs(doc)) {
        let docs = rule_docs(doc);
        let i = choose|i: int|
            #![trigger docs[i]]
            0 <= i < docs.len() && read_rule(docs[i]) == Err::<RuleModel, ClientFault>(fault)
                && forall|j: int| 0 <= j < i ==> read_rule(#[trigger] docs[j]) is Ok;
        assert(fault is RoutingError);
    }
}

/// The client's table is the member `client` of a document, and the document itself where
/// it has no such member.
pub proof fn client_tables_may_stand_alone(root: DocModel)
    ensures
        root.get("client"@) matches Some(doc) ==> client_table(root) == doc,
        root.get("client"@) is None ==> client_table(root) == root,
{
}

} // verus!
