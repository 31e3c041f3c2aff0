//! The client: routing rules, the data pump, and the life of a tunnel.

use vstd::prelude::*;
use vstd::string::*;

use crate::client::config::{client_table, read_config, ClientConfig, ConfigModel};
use crate::client::lifecycle::{brought_up, taken_down};
use crate::client::platform::{outcome, Platform};
use crate::client::routing::{
    read_rules, rules_fault, rules_from, rules_of, validate_all, Action, Matcher, MatcherModel,
    Rule, RuleModel,
};
use crate::engine::config::{json_string, to_json_string, DocModel, Document};
use crate::engine::{core_text, CoreError, CoreFault};
use crate::mux::{mux_text, MuxError, MuxFault};
use crate::netstack::{netstack_text, NetstackError, NetstackFault};
use crate::text::{contains_text, decimal, decimal_of, ends_with, joined, occurs_at};

pub mod cleanup;
pub mod config;
pub mod dns;
pub mod lifecycle;
pub mod platform;
pub mod pump;
pub mod rehearsal;
pub mod routing;
pub mod threads;

verus! {

/// What can go wrong in the client.
#[derive(Clone, Debug, PartialEq, Eq)]
pub enum ClientError {
    Core(CoreError),
    Netstack(NetstackError),
    Mux(MuxError),
    RoutingError(String),
    DnsError(String),
    CleanupError(String),
    ConfigError(String),
    PlatformError(String),
}

/// Mathematical counterpart of [`ClientError`].
pub enum ClientFault {
    Core(CoreFault),
    Netstack(NetstackFault),
    Mux(MuxFault),
    RoutingError(Seq<char>),
    DnsError(Seq<char>),
    CleanupError(Seq<char>),
    ConfigError(Seq<char>),
    PlatformError(Seq<char>),
}

impl View for ClientError {
    type V = ClientFault;

    open spec fn view(&self) -> ClientFault {
        match *self {
            ClientError::Core(e) => ClientFault::Core(e@),
            ClientError::Netstack(e) => ClientFault::Netstack(e@),
            ClientError::Mux(e) => ClientFault::Mux(e@),
            ClientError::RoutingError(m) => ClientFault::RoutingError(m@),
            ClientError::DnsError(m) => ClientFault::DnsError(m@),
            ClientError::CleanupError(m) => ClientFault::CleanupError(m@),
            ClientError::ConfigError(m) => ClientFault::ConfigError(m@),
            ClientError::PlatformError(m) => ClientFault::PlatformError(m@),
        }
    }
}

/// The sentence that describes a fault.
pub open spec fn client_text(fault: ClientFault) -> Seq<char> {
    match fault {
        ClientFault::Core(fault) => "Core error: "@ + core_text(fault),
        ClientFault::Netstack(fault) => "Netstack error: "@ + netstack_text(fault),
        ClientFault::Mux(fault) => "Mux error: "@ + mux_text(fault),
        ClientFault::RoutingError(m) => "Routing error: "@ + m,
        ClientFault::DnsError(m) => "DNS error: "@ + m,
        ClientFault::CleanupError(m) => "Cleanup error: "@ + m,
        ClientFault::ConfigError(m) => "Config error: "@ + m,
        ClientFault::PlatformError(m) => "Platform error: "@ + m,
    }
}

impl ClientError {
    /// The sentence that describes the error.
    pub fn message(&self) -> (r: String)
        ensures
            r@ == client_text(self@),
    {
        match self {
            ClientError::Core(e) => joined("Core error: ", e.message().as_str()),
            ClientError::Netstack(e) => joined("Netstack error: ", e.message().as_str()),
            ClientError::Mux(e) => joined("Mux error: ", e.message().as_str()),
            ClientError::RoutingError(m) => joined("Routing error: ", m.as_str()),
            ClientError::DnsError(m) => joined("DNS error: ", m.as_str()),
            ClientError::CleanupError(m) => joined("Cleanup error: ", m.as_str()),
            ClientError::ConfigError(m) => joined("Config error: ", m.as_str()),
            ClientError::PlatformError(m) => joined("Platform error: ", m.as_str()),
        }
    }
}

/// A client: its configuration, the platform it runs on, and whether the tunnel is
/// up. `H` is what stands for the running pump threads.
pub struct Client<P: Platform, H> {
    config: ClientConfig,
    up: bool,
    pump: Option<H>,
    platform: P,
}

/// The status of a client, as JSON.
pub open spec fn status_text(config: ConfigModel, up: bool) -> Seq<char> {
    "{\"dns_mode\":"@ + json_string(config.dns_mode) + ",\"server\":"@ + json_string(
        config.server_addr,
    ) + ",\"up\":"@ + (if up {
        "true"@
    } else {
        "false"@
    }) + "}"@
}

/// A matcher as JSON.
pub open spec fn matcher_text(matcher: MatcherModel) -> Seq<char> {
    match matcher {
        MatcherModel::Ip(ip) => "{\"Ip\":"@ + json_string(ip.spec_text()) + "}"@,
        MatcherModel::Cidr(base, prefix) => "{\"Cidr\":["@ + json_string(base.spec_text()) + ","@
            + decimal(prefix as nat) + "]}"@,
        MatcherModel::IpRange(lo, hi) => "{\"IpRange\":["@ + json_string(lo.spec_text()) + ","@
            + json_string(hi.spec_text()) + "]}"@,
        MatcherModel::Domain(d) => "{\"Domain\":"@ + json_string(d) + "}"@,
        MatcherModel::Suffix(s) => "{\"Suffix\":"@ + json_string(s) + "}"@,
    }
}

/// A rule as JSON.
pub open spec fn rule_text(rule: RuleModel) -> Seq<char> {
    "{\"name\":"@ + json_string(rule.name) + ",\"action\":"@ + (match rule.action {
        Action::Tunnel => "\"Tunnel\""@,
        Action::Direct => "\"Direct\""@,
    }) + ",\"matcher\":"@ + matcher_text(rule.matcher) + ",\"priority\":"@ + decimal(
        rule.priority as nat,
    ) + "}"@
}

/// Rules as the members of a JSON list.
pub open spec fn rules_text(rules: Seq<RuleModel>) -> Seq<char>
    decreases rules.len(),
{
    if rules.len() == 0 {
        Seq::empty()
    } else if rules.len() == 1 {
        rule_text(rules[0])
    } else {
        rules_text(rules.drop_last()) + ","@ + rule_text(rules.last())
    }
}

fn matcher_json(matcher: &Matcher) -> (r: String)
    ensures
        r@ == matcher_text(matcher@),
{
    match matcher {
        Matcher::Ip(ip) => {
            let mut r = joined("{\"Ip\":", to_json_string(ip.to_text().as_str()).as_str());
            r.append("}");
            r
        },
        Matcher::Cidr(base, prefix) => {
            let mut r = joined("{\"Cidr\":[", to_json_string(base.to_text().as_str()).as_str());
            r.append(",");
            r.append(decimal_of(*prefix as u64).as_str());
            r.append("]}");
            r
        },
        Matcher::IpRange(lo, hi) => {
            let mut r = joined("{\"IpRange\":[", to_json_string(lo.to_text().as_str()).as_str());
            r.append(",");
            r.append(to_json_string(hi.to_text().as_str()).as_str());
            r.append("]}");
            r
        },
        Matcher::Domain(d) => {
            let mut r = joined("{\"Domain\":", to_json_string(d.as_str()).as_str());
            r.append("}");
            r
        },
        Matcher::Suffix(s) => {
            let mut r = joined("{\"Suffix\":", to_json_string(s.as_str()).as_str());
            r.append("}");
            r
        },
    }
}

fn rule_json(rule: &Rule) -> (r: String)
    ensures
        r@ == rule_text(rule@),
{
    let mut r = joined("{\"name\":", to_json_string(rule.name.as_str()).as_str());
    r.append(",\"action\":");
    r.append(
        match rule.action {
            Action::Tunnel => "\"Tunnel\"",
            Action::Direct => "\"Direct\"",
        },
    );
    r.append(",\"matcher\":");
    r.append(matcher_json(&rule.matcher).as_str());
    r.append(",\"priority\":");
    r.append(decimal_of(rule.priority as u64).as_str());
    r.append("}");
    r
}

/// The rules that a document `{rules: [..]}` describes, or why it describes none.
pub open spec fn read_rule_list(doc: DocModel) -> Result<Seq<RuleModel>, ClientFault> {
    let missing = ClientFault::RoutingError("rules needs a rules array"@);
    match doc.get("rules"@) {
        None => Err(missing),
        Some(list) => match list.items() {
            None => Err(missing),
            Some(items) => read_rules(items),
        },
    }
}

fn rule_list(doc: &Document) -> (r: Result<Vec<Rule>, ClientError>)
    ensures
        match (r, read_rule_list(doc.model())) {
            (Ok(rules), Ok(m)) => rules_of(rules@) == m,
            (Err(e), Err(fault)) => e@ == fault,
            _ => false,
        },
{
    let list = match doc.get("rules") {
        Some(list) => list,
        None => {
            return Err(ClientError::RoutingError("rules needs a rules array".to_owned()));
        },
    };
    let items = match list.as_array() {
        Some(items) => items,
        None => {
            return Err(ClientError::RoutingError("rules needs a rules array".to_owned()));
        },
    };
    assert(items@.map_values(|d: Document| d.model()) =~= list.model().items()->Some_0);
    rules_from(items)
}

impl<P: Platform, H> Client<P, H> {
    /// The configuration.
    pub closed spec fn spec_config(&self) -> ConfigModel {
        self.config@
    }

    /// Whether the tunnel is up.
    pub closed spec fn spec_up(&self) -> bool {
        self.up
    }

    /// The running pump.
    pub closed spec fn spec_pump(&self) -> Option<H> {
        self.pump
    }

    /// The platform.
    pub closed spec fn spec_platform(&self) -> P {
        self.platform
    }

    /// Whether this client comes to be `after` when it is brought up with outcome
    /// `r`.
    pub open spec fn came_up(self, after: Self, r: Result<(), ClientFault>) -> bool {
        &&& after.spec_config() == self.spec_config()
        &&& after.spec_pump() == self.spec_pump()
        &&& after.spec_up() == (self.spec_up() || r is Ok)
        &&& if self.spec_up() {
            r is Ok && after.spec_platform() == self.spec_platform()
        } else {
            let calls = self.spec_platform().history();
            let more = after.spec_platform().history();
            &&& calls.is_prefix_of(more)
            &&& brought_up(self.spec_config(), more.skip(calls.len() as int)) == Some(r)
            &&& forall|o: P|
                self.spec_platform().follows(o) ==> #[trigger] after.spec_platform().follows(o)
        }
    }

    /// Whether this client comes to be `after` when it is brought up with outcome
    /// `r` on another platform, which comes to be `later`.
    pub open spec fn came_up_on<Q: Platform>(
        self,
        after: Self,
        platform: Q,
        later: Q,
        r: Result<(), ClientFault>,
    ) -> bool {
        &&& after.spec_config() == self.spec_config()
        &&& after.spec_pump() == self.spec_pump()
        &&& after.spec_platform() == self.spec_platform()
        &&& after.spec_up() == (self.spec_up() || r is Ok)
        &&& if self.spec_up() {
            r is Ok && later == platform
        } else {
            let calls = platform.history();
            let more = later.history();
            &&& calls.is_prefix_of(more)
            &&& brought_up(self.spec_config(), more.skip(calls.len() as int)) == Some(r)
            &&& forall|o: Q| platform.follows(o) ==> #[trigger] later.follows(o)
        }
    }

    /// Whether this client comes to be `after` when a full start begins with outcome
    /// `r`.
    pub open spec fn began_up_full(self, after: Self, r: Result<bool, ClientFault>) -> bool {
        &&& after.spec_config() == self.spec_config()
        &&& after.spec_pump() == self.spec_pump()
        &&& after.spec_up() == self.spec_up()
        &&& if self.spec_up() {
            r == Ok::<bool, ClientFault>(false) && after.spec_platform() == self.spec_platform()
        } else {
            let calls = self.spec_platform().history();
            let more = after.spec_platform().history();
            &&& calls.is_prefix_of(more)
            &&& brought_up(self.spec_config(), more.skip(calls.len() as int)) == Some(
                match r {
                    Ok(_) => Ok(()),
                    Err(fault) => Err(fault),
                },
            )
            &&& r matches Ok(attach) ==> attach
            &&& forall|o: P|
                self.spec_platform().follows(o) ==> #[trigger] after.spec_platform().follows(o)
        }
    }

    /// Whether this client comes to be `after` when a full start ends, after the
    /// transport was attached with outcome `attached`.
    pub open spec fn ended_up_full(self, after: Self, attached: Result<(), ClientFault>) -> bool {
        &&& after.spec_up() == (attached is Ok)
        &&& after.spec_config() == self.spec_config()
        &&& after.spec_pump() == self.spec_pump()
        &&& match attached {
            Ok(_) => after.spec_platform() == self.spec_platform(),
            Err(_) => {
                let calls = self.spec_platform().history();
                let more = after.spec_platform().history();
                &&& calls.is_prefix_of(more)
                &&& taken_down(more.skip(calls.len() as int))
                &&& forall|o: P|
                    self.spec_platform().follows(o) ==> #[trigger] after.spec_platform().follows(o)
            },
        }
    }

    /// Whether this client comes to be `after` when it is taken down.
    pub open spec fn came_down(self, after: Self) -> bool {
        let calls = self.spec_platform().history();
        let more = after.spec_platform().history();
        &&& !after.spec_up()
        &&& after.spec_pump() is None
        &&& after.spec_config() == self.spec_config()
        &&& calls.is_prefix_of(more)
        &&& taken_down(more.skip(calls.len() as int))
        &&& forall|o: P|
            self.spec_platform().follows(o) ==> #[trigger] after.spec_platform().follows(o)
    }

    /// Whether this client comes to be `after` when the rules of a document are
    /// set with outcome `r`.
    pub open spec fn took_rules(
        self,
        after: Self,
        doc: DocModel,
        r: Result<(), ClientFault>,
    ) -> bool {
        &&& after.spec_up() == self.spec_up()
        &&& after.spec_pump() == self.spec_pump()
        &&& after.spec_platform() == self.spec_platform()
        &&& match read_rule_list(doc) {
            Err(fault) => r == Err::<(), _>(fault) && after.spec_config() == self.spec_config(),
            Ok(rules) => match rules_fault(rules) {
                Some(fault) => {
                    &&& r == Err::<(), _>(fault)
                    &&& after.spec_config() == self.spec_config()
                },
                None => {
                    &&& r is Ok
                    &&& after.spec_config() == (ConfigModel {
                        rules,
                        built_in: 0,
                        ..self.spec_config()
                    })
                },
            },
        }
    }

    /// A client of a configuration document.
    pub fn new(doc: &Document, platform: P) -> (r: Result<Self, ClientError>)
        ensures
            match (r, read_config(client_table(doc.model()))) {
                (Ok(c), Ok(m)) => {
                    &&& c.spec_config() == m
                    &&& !c.spec_up()
                    &&& c.spec_pump() is None
                    &&& c.spec_platform() == platform
                },
                (Err(e), Err(fault)) => e@ == fault,
                _ => false,
            },
    {
        match ClientConfig::parse(doc) {
            Ok(config) => Ok(Client::new_config(config, platform)),
            Err(e) => Err(e),
        }
    }

    /// A client of a configuration that was checked.
    pub fn new_config(config: ClientConfig, platform: P) -> (r: Self)
        ensures
            r.spec_config() == config@,
            !r.spec_up(),
            r.spec_pump() is None,
            r.spec_platform() == platform,
    {
        Client { config, up: false, pump: None, platform }
    }

    /// Brings the tunnel up on the client's platform. Nothing is done where it is
    /// up.
    pub fn up(&mut self) -> (r: Result<(), ClientError>)
        ensures
            old(self).came_up(*final(self), outcome(r)),
    {
        if self.up {
            return Ok(());
        }
        match lifecycle::up(&mut self.platform, &self.config) {
            Ok(_) => {
                self.up = true;
                Ok(())
            },
            Err(e) => Err(e),
        }
    }

    /// Brings the tunnel up on another platform. Nothing is done where it is up.
    pub fn up_on<Q: Platform>(&mut self, platform: &mut Q) -> (r: Result<(), ClientError>)
        ensures
            old(self).came_up_on(*final(self), *old(platform), *final(platform), outcome(r)),
    {
        if self.up {
            return Ok(());
        }
        match lifecycle::up(platform, &self.config) {
            Ok(_) => {
                self.up = true;
                Ok(())
            },
            Err(e) => Err(e),
        }
    }

    /// Takes the tunnel down and lets go of the pump, if there is one: its handle
    /// is dropped, which ends its threads.
    pub fn down(&mut self) -> (r: Result<(), ClientError>)
        ensures
            r is Ok,
            old(self).came_down(*final(self)),
    {
        let _ = self.stop_pump();
        match lifecycle::down(&mut self.platform) {
            Ok(_) => {
                self.up = false;
                Ok(())
            },
            Err(e) => Err(e),
        }
    }

    /// Brings the platform up for a full start, unless the tunnel is up. `true`
    /// says that the transport is to be attached next.
    pub fn begin_up_full(&mut self) -> (r: Result<bool, ClientError>)
        ensures
            old(self).began_up_full(
                *final(self),
                match r {
                    Ok(attach) => Ok(attach),
                    Err(e) => Err(e@),
                },
            ),
    {
        if self.up {
            return Ok(false);
        }
        match lifecycle::up(&mut self.platform, &self.config) {
            Ok(_) => Ok(true),
            Err(e) => Err(e),
        }
    }

    /// Ends a full start: where the transport could not be attached, the platform
    /// is taken down again, so that no half of a tunnel stays.
    pub fn end_up_full(&mut self, attached: Result<(), ClientError>) -> (r: Result<
        (),
        ClientError,
    >)
        ensures
            outcome(r) == outcome(attached),
            old(self).ended_up_full(*final(self), outcome(attached)),
    {
        match attached {
            Ok(_) => {
                self.up = true;
                Ok(())
            },
            Err(e) => {
                let _ = lifecycle::down(&mut self.platform);
                self.up = false;
                Err(e)
            },
        }
    }

    /// Whether pump threads are to be started: none are running.
    pub fn needs_pump(&self) -> (r: bool)
        ensures
            r == (self.spec_pump() is None),
    {
        self.pump.is_none()
    }

    /// Takes note of pump threads, or of why they could not be started; `what`
    /// names them. Where threads are running already, they are kept.
    pub fn start_pump(&mut self, what: &str, spawned: Result<H, String>) -> (r: Result<
        (),
        ClientError,
    >)
        ensures
            final(self).spec_config() == old(self).spec_config(),
            final(self).spec_up() == old(self).spec_up(),
            final(self).spec_platform() == old(self).spec_platform(),
            if old(self).spec_pump() is Some {
                r is Ok && final(self).spec_pump() == old(self).spec_pump()
            } else {
                match spawned {
                    Ok(handle) => r is Ok && final(self).spec_pump() == Some(handle),
                    Err(why) => {
                        &&& r matches Err(e) && e@ == ClientFault::PlatformError(
                            what@ + " spawn: "@ + why@,
                        )
                        &&& final(self).spec_pump() is None
                    },
                }
            },
    {
        if self.pump.is_some() {
            return Ok(());
        }
        match spawned {
            Ok(handle) => {
                self.pump = Some(handle);
                Ok(())
            },
            Err(why) => {
                let mut m = joined(what, " spawn: ");
                m.append(why.as_str());
                Err(ClientError::PlatformError(m))
            },
        }
    }

    /// Gives up the pump threads, if there are any, for the caller to stop.
    pub fn stop_pump(&mut self) -> (r: Option<H>)
        ensures
            r == old(self).spec_pump(),
            final(self).spec_pump() is None,
            final(self).spec_config() == old(self).spec_config(),
            final(self).spec_up() == old(self).spec_up(),
            final(self).spec_platform() == old(self).spec_platform(),
    {
        let mut pump: Option<H> = None;
        std::mem::swap(&mut pump, &mut self.pump);
        pump
    }

    /// Whether the tunnel is up.
    pub fn is_up(&self) -> (r: bool)
        ensures
            r == self.spec_up(),
    {
        self.up
    }

    /// The configuration.
    pub fn config(&self) -> (r: &ClientConfig)
        ensures
            r@ == self.spec_config(),
    {
        &self.config
    }

    /// The platform.
    pub fn platform(&self) -> (r: &P)
        ensures
            *r == self.spec_platform(),
    {
        &self.platform
    }

    /// The status as JSON, without secrets.
    pub fn status(&self) -> (r: Result<String, ClientError>)
        ensures
            r matches Ok(s) && s@ == status_text(self.spec_config(), self.spec_up()),
    {
        let mut r = joined(
            "{\"dns_mode\":",
            to_json_string(self.config.dns_mode.as_str()).as_str(),
        );
        r.append(",\"server\":");
        r.append(to_json_string(self.config.server_addr.as_str()).as_str());
        r.append(",\"up\":");
        r.append(
            if self.up {
                "true"
            } else {
                "false"
            },
        );
        r.append("}");
        Ok(r)
    }

    /// The rules as JSON.
    pub fn rules_json(&self) -> (r: Result<String, ClientError>)
        ensures
            r matches Ok(s) && s@ == "["@ + rules_text(self.spec_config().rules) + "]"@,
    {
        let rules = self.config.rules.rules();
        let ghost all = rules_of(rules@);
        let mut list = String::new();
        let mut i: usize = 0;
        assert(list@ =~= Seq::<char>::empty());
        assert(all.take(0) =~= Seq::<RuleModel>::empty());
        while i < rules.len()
            invariant
                0 <= i <= rules@.len(),
                all == rules_of(rules@),
                list@ == rules_text(all.take(i as int)),
            decreases rules@.len() - i,
        {
            let ghost next = all.take(i + 1);
            assert(next.drop_last() =~= all.take(i as int));
            assert(next.last() == rules@[i as int]@);
            if i > 0 {
                list.append(",");
            }
            list.append(rule_json(&rules[i]).as_str());
            proof {
                if i == 0 {
                    assert(list@ =~= rule_text(next[0]));
                }
            }
            i += 1;
        }
        assert(all.take(i as int) =~= all);
        let mut r = joined("[", list.as_str());
        r.append("]");
        Ok(r)
    }

    /// Replaces all rules by those of a document `{rules: [..]}`. Every rule is
    /// checked before anything is replaced.
    pub fn set_rules(&mut self, doc: &Document) -> (r: Result<(), ClientError>)
        ensures
            old(self).took_rules(*final(self), doc.model(), outcome(r)),
    {
        match rule_list(doc) {
            Ok(rules) => self.config.rules.replace_rules(rules),
            Err(e) => Err(e),
        }
    }

    /// Checks the rules again.
    pub fn reload_rules(&self) -> (r: Result<(), ClientError>)
        ensures
            match (r, rules_fault(self.spec_config().rules)) {
                (Ok(_), None) => true,
                (Err(e), Some(fault)) => e@ == fault,
                _ => false,
            },
    {
        validate_all(self.config.rules.rules())
    }
}

/// An operation that bears on whether the tunnel is up, with its outcome.
pub enum ClientOp {
    /// Brought up on the client's platform.
    Up(Result<(), ClientFault>),
    /// Brought up on another platform.
    UpOn(Result<(), ClientFault>),
    /// A full start began.
    BeginUpFull(Result<bool, ClientFault>),
    /// A full start ended, with what became of the transport.
    EndUpFull(Result<(), ClientFault>),
    /// Taken down.
    Down,
}

impl ClientOp {
    /// Whether the tunnel is up after it, whatever was before.
    pub open spec fn brings_up(self) -> bool {
        match self {
            ClientOp::Up(r) => r is Ok,
            ClientOp::UpOn(r) => r is Ok,
            ClientOp::EndUpFull(attached) => attached is Ok,
            _ => false,
        }
    }

    /// Whether the tunnel is down after it, whatever was before.
    pub open spec fn takes_down(self) -> bool {
        match self {
            ClientOp::EndUpFull(attached) => attached is Err,
            ClientOp::Down => true,
            _ => false,
        }
    }
}

/// Whether an operation leads from one client to another. Another platform is a
/// platform of type `Q`.
pub open spec fn operated<P: Platform, H, Q: Platform>(
    before: Client<P, H>,
    after: Client<P, H>,
    op: ClientOp,
) -> bool {
    match op {
        ClientOp::Up(r) => before.came_up(after, r),
        ClientOp::UpOn(r) => exists|platform: Q, later: Q| #[trigger]
            before.came_up_on(after, platform, later, r),
        ClientOp::BeginUpFull(r) => before.began_up_full(after, r),
        ClientOp::EndUpFull(attached) => before.ended_up_full(after, attached),
        ClientOp::Down => before.came_down(after),
    }
}

/// After any run of operations the tunnel is up exactly where one of them brought it
/// up and none after that took it down, or where it was up before and none did.
pub proof fn up_is_what_the_run_left<P: Platform, H, Q: Platform>(
    clients: Seq<Client<P, H>>,
    ops: Seq<ClientOp>,
)
    requires
        clients.len() == ops.len() + 1,
        forall|i: int|
            0 <= i < ops.len() ==> operated::<P, H, Q>(
                clients[i],
                clients[i + 1],
                #[trigger] ops[i],
            ),
    ensures
        clients.last().spec_up() <==> {
            ||| exists|i: int|
                #![trigger ops[i]]
                0 <= i < ops.len() && ops[i].brings_up() && forall|j: int|
                    i < j < ops.len() ==> !(#[trigger] ops[j]).takes_down()
            ||| clients[0].spec_up() && forall|j: int|
                0 <= j < ops.len() ==> !(#[trigger] ops[j]).takes_down()
        },
    decreases ops.len(),
{
    if ops.len() > 0 {
        let n = ops.len() - 1;
        let fewer = ops.drop_last();
        let earlier = clients.drop_last();
        assert forall|i: int| 0 <= i < fewer.len() implies operated::<P, H, Q>(
            earlier[i],
            earlier[i + 1],
            #[trigger] fewer[i],
        ) by {
            assert(ops[i] == fewer[i]);
        }
        up_is_what_the_run_left::<P, H, Q>(earlier, fewer);
        let was = earlier.last().spec_up();
        let op = ops[n];
        assert(operated::<P, H, Q>(clients[n], clients[n + 1], ops[n]));
        assert(clients.last().spec_up() == (op.brings_up() || (was && !op.takes_down())));
        if was && !op.takes_down() {
            if clients[0].spec_up() && forall|j: int|
                0 <= j < fewer.len() ==> !(#[trigger] fewer[j]).takes_down() {
                assert forall|j: int| 0 <= j < ops.len() implies !(
                #[trigger] ops[j]).takes_down() by {
                    if j < n {
                        assert(fewer[j] == ops[j]);
                    }
                }
            } else {
                let i = choose|i: int|
                    #![trigger fewer[i]]
                    0 <= i < fewer.len() && fewer[i].brings_up() && forall|j: int|
                        i < j < fewer.len() ==> !(#[trigger] fewer[j]).takes_down();
                assert(ops[i].brings_up());
                assert forall|j: int| i < j < ops.len() implies !(
                #[trigger] ops[j]).takes_down() by {
                    if j < n {
                        assert(fewer[j] == ops[j]);
                    }
                }
            }
        }
        assert forall|i: int|
            #![trigger ops[i]]
            0 <= i < n && ops[i].brings_up() && (forall|j: int|
                i < j < ops.len() ==> !(#[trigger] ops[j]).takes_down()) implies was by {
            assert(fewer[i] == ops[i]);
            assert(forall|j: int| i < j < fewer.len() ==> #[trigger] fewer[j] == ops[j]);
        }
        if clients[0].spec_up() && forall|j: int|
            0 <= j < ops.len() ==> !(#[trigger] ops[j]).takes_down() {
            assert(forall|j: int| 0 <= j < fewer.len() ==> #[trigger] fewer[j] == ops[j]);
        }
    }
}

/// The status says nothing of the pre-shared key.
pub proof fn status_keeps_the_key(config: ConfigModel, psk: Seq<char>, up: bool)
    ensures
        status_text(config, up) == status_text(ConfigModel { psk, ..config }, up),
{
}

/// Rules that were read are never refused when they are set.
pub proof fn read_rules_can_be_set(docs: Seq<DocModel>)
    ensures
        read_rules(docs) matches Ok(rules) ==> rules_fault(rules) is None,
    decreases docs.len(),
{
    if docs.len() > 0 {
        read_rules_can_be_set(docs.drop_last());
        if let Ok(rules) = read_rules(docs) {
            let before = read_rules(docs.drop_last())->Ok_0;
            let last = read_rule_of_last(docs);
            assert(rules =~= before.push(last));
            faultless_rules_grow(before, last);
        }
    }
}

proof fn read_rule_of_last(docs: Seq<DocModel>) -> (rule: RuleModel)
    requires
        docs.len() > 0,
        read_rules(docs) is Ok,
    ensures
        routing::read_rule(docs.last()) == Ok::<RuleModel, ClientFault>(rule),
        routing::rule_fault(rule) is None,
{
    routing::read_rules_are_valid(docs.last());
    routing::read_rule(docs.last())->Ok_0
}

proof fn faultless_rules_grow(rules: Seq<RuleModel>, rule: RuleModel)
    requires
        rules_fault(rules) is None,
        routing::rule_fault(rule) is None,
    ensures
        rules_fault(rules.push(rule)) is None,
    decreases rules.len(),
{
    let all = rules.push(rule);
    if rules.len() == 0 {
        assert(all.skip(1) =~= Seq::<RuleModel>::empty());
        assert(rules_fault(all.skip(1)) is None);
    } else {
        assert(all[0] == rules[0]);
        assert(all.skip(1) =~= rules.skip(1).push(rule));
        faultless_rules_grow(rules.skip(1), rule);
    }
}

/// The status tells the server, and whether the tunnel is up, in its last member.
pub proof fn status_tells_whether_the_tunnel_is_up(config: ConfigModel, up: bool)
    ensures
        ends_with(
            status_text(config, up),
            if up {
                "\"up\":true}"@
            } else {
                "\"up\":false}"@
            },
        ),
        contains_text(status_text(config, up), "\"server\":"@ + json_string(config.server_addr)),
        contains_text(status_text(config, up), "\"dns_mode\":"@ + json_string(config.dns_mode)),
{
    reveal_strlit("{\"dns_mode\":");
    reveal_strlit("\"dns_mode\":");
    reveal_strlit(",\"server\":");
    reveal_strlit("\"server\":");
    reveal_strlit(",\"up\":");
    reveal_strlit("true");
    reveal_strlit("false");
    reveal_strlit("}");
    reveal_strlit("\"up\":true}");
    reveal_strlit("\"up\":false}");
    let s = status_text(config, up);
    let tail = if up {
        "\"up\":true}"@
    } else {
        "\"up\":false}"@
    };
    assert(s.skip(s.len() - tail.len()) =~= tail);
    let mode = "\"dns_mode\":"@ + json_string(config.dns_mode);
    assert(s.subrange(1, 1 + mode.len() as int) =~= mode);
    assert(occurs_at(s, mode, 1));
    let server = "\"server\":"@ + json_string(config.server_addr);
    let at = 2 + mode.len() as int;
    assert(s.subrange(at, at + server.len()) =~= server);
    assert(occurs_at(s, server, at));
}

/// Rules are listed one after the other, in order, with commas between them.
pub proof fn rules_are_listed_in_order(rules: Seq<RuleModel>, last: RuleModel)
    ensures
        rules_text(Seq::empty()).len() == 0,
        rules_text(seq![last]) == rule_text(last),
        rules.len() > 0 ==> rules_text(rules.push(last)) == rules_text(rules) + ","@ + rule_text(
            last,
        ),
{
    assert(rules.push(last).drop_last() =~= rules);
}

/// A rule is written with its name, its action by name, what it matches, and its priority at
/// the end.
pub proof fn rules_are_written_member_by_member(rule: RuleModel)
    ensures
        contains_text(rule_text(rule), "\"name\":"@ + json_string(rule.name)),
        contains_text(
            rule_text(rule),
            match rule.action {
                Action::Tunnel => "\"action\":\"Tunnel\""@,
                Action::Direct => "\"action\":\"Direct\""@,
            },
        ),
        contains_text(rule_text(rule), "\"matcher\":"@ + matcher_text(rule.matcher)),
        ends_with(rule_text(rule), "\"priority\":"@ + decimal(rule.priority as nat) + "}"@),
{
    reveal_strlit("{\"name\":");
    reveal_strlit("\"name\":");
    reveal_strlit(",\"action\":");
    reveal_strlit("\"Tunnel\"");
    reveal_strlit("\"Direct\"");
    reveal_strlit("\"action\":\"Tunnel\"");
    reveal_strlit("\"action\":\"Direct\"");
    reveal_strlit(",\"matcher\":");
    reveal_strlit("\"matcher\":");
    reveal_strlit(",\"priority\":");
    reveal_strlit("\"priority\":");
    reveal_strlit("}");
    let s = rule_text(rule);
    let name = "\"name\":"@ + json_string(rule.name);
    assert(s.subrange(1, 1 + name.len() as int) =~= name);
    assert(occurs_at(s, name, 1));
    let action = match rule.action {
        Action::Tunnel => "\"action\":\"Tunnel\""@,
        Action::Direct => "\"action\":\"Direct\""@,
    };
    let at = 2 + name.len() as int;
    assert(s.subrange(at, at + action.len()) =~= action);
    assert(occurs_at(s, action, at));
    let matcher = "\"matcher\":"@ + matcher_text(rule.matcher);
    let from = at + action.len() + 1;
    assert(s.subrange(from, from + matcher.len()) =~= matcher);
    assert(occurs_at(s, matcher, from));
    let tail = "\"priority\":"@ + decimal(rule.priority as nat) + "}"@;
    assert(s.skip(s.len() - tail.len()) =~= tail);
}

/// Rules that were set are the rules of the client from then on, and nothing else of it
/// changes; rules of which one cannot be read or used change nothing.
pub proof fn rules_are_replaced_all_or_none<P: Platform, H>(
    before: Client<P, H>,
    after: Client<P, H>,
    docs: Seq<DocModel>,
    doc: DocModel,
    r: Result<(), ClientFault>,
)
    requires
        before.took_rules(after, doc, r),
        doc.get("rules"@) == Some(DocModel::List(docs)),
    ensures
        r is Ok ==> {
            &&& after.spec_config().rules.len() == docs.len()
            &&& forall|i: int|
                0 <= i < docs.len() ==> crate::client::routing::read_rule(#[trigger] docs[i])
                    == Ok::<RuleModel, ClientFault>(after.spec_config().rules[i])
            &&& after.spec_config().built_in == 0
        },
        r is Err ==> after.spec_config() == before.spec_config(),
        after.spec_up() == before.spec_up(),
        after.spec_config().server_addr == before.spec_config().server_addr,
        after.spec_config().psk == before.spec_config().psk,
        after.spec_config().default_action == before.spec_config().default_action,
        after.spec_config().rules_private_direct == before.spec_config().rules_private_direct,
{
    crate::client::routing::rule_lists_are_read_in_order(docs);
}

/// What a client does to its platform and to itself: brought up where it is up, it calls
/// nothing and stays; brought up where it is down, it is up exactly where that succeeded; taken
/// down, it is down and holds no pump, whatever it was. Its configuration stays in any case.
pub proof fn clients_keep_their_configuration<P: Platform, H>(
    before: Client<P, H>,
    after: Client<P, H>,
    r: Result<(), ClientFault>,
)
    ensures
        before.came_up(after, r) ==> {
            &&& after.spec_config() == before.spec_config()
            &&& after.spec_pump() == before.spec_pump()
            &&& before.spec_up() ==> r is Ok && after.spec_up() && after.spec_platform()
                == before.spec_platform()
            &&& !before.spec_up() ==> after.spec_up() == r is Ok
        },
        before.came_down(after) ==> {
            &&& after.spec_config() == before.spec_config()
            &&& !after.spec_up()
            &&& after.spec_pump() is None
        },
        before.ended_up_full(after, r) ==> {
            &&& after.spec_config() == before.spec_config()
            &&& after.spec_up() == r is Ok
            &&& r is Ok ==> after.spec_platform() == before.spec_platform()
            &&& r is Err ==> before.spec_platform().history().is_prefix_of(
                after.spec_platform().history(),
            ) && taken_down(
                after.spec_platform().history().skip(before.spec_platform().history().len() as int),
            )
        },
{
}

/// The sentence of a fault ends with the reason that was given, and faults of a layer below
/// with the sentence of that layer.
pub proof fn sentences_end_with_the_reason(
    m: Seq<char>,
    core: CoreFault,
    net: NetstackFault,
    mux: MuxFault,
)
    ensures
        ends_with(client_text(ClientFault::RoutingError(m)), m),
        ends_with(client_text(ClientFault::DnsError(m)), m),
        ends_with(client_text(ClientFault::CleanupError(m)), m),
        ends_with(client_text(ClientFault::ConfigError(m)), m),
        ends_with(client_text(ClientFault::PlatformError(m)), m),
        ends_with(client_text(ClientFault::Core(core)), core_text(core)),
        ends_with(client_text(ClientFault::Netstack(net)), netstack_text(net)),
        ends_with(client_text(ClientFault::Mux(mux)), mux_text(mux)),
{
    lemma_ends("Routing error: "@, m);
    lemma_ends("DNS error: "@, m);
    lemma_ends("Cleanup error: "@, m);
    lemma_ends("Config error: "@, m);
    lemma_ends("Platform error: "@, m);
    lemma_ends("Core error: "@, core_text(core));
    lemma_ends("Netstack error: "@, netstack_text(net));
    lemma_ends("Mux error: "@, mux_text(mux));
}

proof fn lemma_ends(head: Seq<char>, tail: Seq<char>)
    ensures
        ends_with(head + tail, tail),
{
    assert((head + tail).skip((head + tail).len() - tail.len()) =~= tail);
}

} // verus!
