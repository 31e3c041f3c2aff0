//! Routing rules: which destinations go direct, everything else through the
//! tunnel.
//!
//! Of the rules that match a destination the one with the highest priority wins,
//! among those the most specific one, among those the first. Where none matches,
//! private addresses go direct if the rule set says so, and the default decides.

use vstd::prelude::*;
use vstd::string::*;
use vstd::utf8::*;

use crate::client::{ClientError, ClientFault};
use crate::engine::config::{DocModel, Document};
use crate::net::{
    address_text_holds_no_separator, address_text_round_trip, block_is_an_interval,
    private_addresses_by_octets, Ipv4Addr,
};
use crate::text::{
    case_is_ignored, chars_of, cut_first, decimal, ends_with, first_separator_splits, has_tail,
    joined, lowercase, number_of, parse_number, same_ignoring_case, same_str, split_once,
    written_number_is_read,
};

verus! {

/// Where traffic to a destination goes.
#[derive(Clone, Copy, Debug, PartialEq, Eq, Structural)]
pub enum Action {
    /// Through the tunnel.
    Tunnel,
    /// Over the physical gateway.
    Direct,
}

/// What a rule matches.
#[derive(Clone, Debug, PartialEq, Eq)]
pub enum Matcher {
    /// One address.
    Ip(Ipv4Addr),
    /// A block: base and prefix length.
    Cidr(Ipv4Addr, u8),
    /// Addresses from the first to the second.
    IpRange(Ipv4Addr, Ipv4Addr),
    /// One name, in whatever case.
    Domain(String),
    /// Every name with more in front of this tail.
    Suffix(String),
}

/// A named rule.
#[derive(Clone, Debug, PartialEq, Eq)]
pub struct Rule {
    pub name: String,
    pub action: Action,
    pub matcher: Matcher,
    /// The higher wins.
    pub priority: u32,
}

/// Mathematical counterpart of [`Matcher`].
pub enum MatcherModel {
    Ip(Ipv4Addr),
    Cidr(Ipv4Addr, u8),
    IpRange(Ipv4Addr, Ipv4Addr),
    Domain(Seq<char>),
    Suffix(Seq<char>),
}

/// Mathematical counterpart of [`Rule`].
pub struct RuleModel {
    pub name: Seq<char>,
    pub action: Action,
    pub matcher: MatcherModel,
    pub priority: u32,
}

impl View for Matcher {
    type V = MatcherModel;

    open spec fn view(&self) -> MatcherModel {
        match *self {
            Matcher::Ip(a) => MatcherModel::Ip(a),
            Matcher::Cidr(base, prefix) => MatcherModel::Cidr(base, prefix),
            Matcher::IpRange(lo, hi) => MatcherModel::IpRange(lo, hi),
            Matcher::Domain(d) => MatcherModel::Domain(d@),
            Matcher::Suffix(s) => MatcherModel::Suffix(s@),
        }
    }
}

impl View for Rule {
    type V = RuleModel;

    open spec fn view(&self) -> RuleModel {
        RuleModel {
            name: self.name@,
            action: self.action,
            matcher: self.matcher@,
            priority: self.priority,
        }
    }
}

/// What rules hold.
pub open spec fn rules_of(rules: Seq<Rule>) -> Seq<RuleModel> {
    rules.map_values(|r: Rule| r@)
}

impl MatcherModel {
    /// How specific a matcher is.
    pub open spec fn specificity(self) -> nat {
        match self {
            MatcherModel::Cidr(_, prefix) => prefix as nat,
            MatcherModel::Ip(_) => 32,
            MatcherModel::IpRange(_, _) => 16,
            MatcherModel::Domain(d) => 64 + encode_utf8(d).len(),
            MatcherModel::Suffix(s) => encode_utf8(s).len(),
        }
    }

    /// Whether an address is matched.
    pub open spec fn matches_ip(self, ip: Ipv4Addr) -> bool {
        match self {
            MatcherModel::Ip(a) => a == ip,
            MatcherModel::Cidr(base, prefix) => ip.shares_prefix(base, prefix as nat),
            MatcherModel::IpRange(lo, hi) => lo.spec_bits() <= ip.spec_bits() <= hi.spec_bits(),
            _ => false,
        }
    }

    /// Whether a name is matched.
    pub open spec fn matches_name(self, host: Seq<char>) -> bool {
        match self {
            MatcherModel::Domain(d) => lowercase(host) == lowercase(d),
            MatcherModel::Suffix(s) => host.len() > s.len() && ends_with(host, s),
            _ => false,
        }
    }

    /// Whether a host is matched: an address as such, anything else as a name.
    pub open spec fn matches_host(self, host: Seq<char>) -> bool {
        match Ipv4Addr::spec_parse(host) {
            Some(ip) => self.matches_ip(ip),
            None => self.matches_name(host),
        }
    }

    /// Whether a prefix length, where there is one, is that of an IPv4 block.
    pub open spec fn prefix_fits(self) -> bool {
        self matches MatcherModel::Cidr(_, prefix) ==> prefix <= 32
    }
}

impl Matcher {
    fn specificity(&self) -> (r: u128)
        ensures
            r == self@.specificity(),
    {
        match self {
            Matcher::Cidr(_, prefix) => *prefix as u128,
            Matcher::Ip(_) => 32,
            Matcher::IpRange(_, _) => 16,
            Matcher::Domain(d) => 64 + d.as_str().as_bytes().len() as u128,
            Matcher::Suffix(s) => s.as_str().as_bytes().len() as u128,
        }
    }

    fn matches_ip(&self, ip: Ipv4Addr) -> (r: bool)
        requires
            self@.prefix_fits(),
        ensures
            r == self@.matches_ip(ip),
    {
        match self {
            Matcher::Ip(a) => *a == ip,
            Matcher::Cidr(base, prefix) => ip.in_block(*base, *prefix),
            Matcher::IpRange(lo, hi) => lo.to_bits() <= ip.to_bits() && ip.to_bits()
                <= hi.to_bits(),
            _ => false,
        }
    }

    fn matches_name(&self, host: &[char]) -> (r: bool)
        ensures
            r == self@.matches_name(host@),
    {
        match self {
            Matcher::Domain(d) => same_ignoring_case(host, chars_of(d.as_str()).as_slice()),
            Matcher::Suffix(s) => {
                let tail = chars_of(s.as_str());
                host.len() > tail.len() && has_tail(host, tail.as_slice())
            },
            _ => false,
        }
    }
}

/// A text that is there and not empty.
pub open spec fn filled(doc: DocModel, field: Seq<char>) -> Option<Seq<char>> {
    match doc.get(field) {
        Some(value) => match value.text() {
            Some(s) => if s.len() > 0 {
                Some(s)
            } else {
                None
            },
            None => None,
        },
        None => None,
    }
}

/// A text that is there and not empty.
pub(crate) fn filled_text(doc: &Document, field: &str) -> (r: Option<String>)
    ensures
        match (r, filled(doc.model(), field@)) {
            (Some(s), Some(m)) => s@ == m,
            (None, None) => true,
            _ => false,
        },
{
    match doc.get(field) {
        Some(value) => match value.as_str() {
            Some(s) => if s.is_empty() {
                None
            } else {
                Some(s.to_owned())
            },
            None => None,
        },
        None => None,
    }
}

/// The text of a member.
pub open spec fn member_text(doc: DocModel, field: Seq<char>) -> Option<Seq<char>> {
    match doc.get(field) {
        Some(value) => value.text(),
        None => None,
    }
}

/// The text of a member.
pub(crate) fn text_of<'a>(doc: &'a Document, field: &str) -> (r: Option<&'a str>)
    ensures
        match (r, member_text(doc.model(), field@)) {
            (Some(s), Some(m)) => s@ == m,
            (None, None) => true,
            _ => false,
        },
{
    match doc.get(field) {
        Some(value) => value.as_str(),
        None => None,
    }
}

/// A routing fault about a value.
pub open spec fn bad(what: Seq<char>, value: Seq<char>) -> ClientFault {
    ClientFault::RoutingError(what + value)
}

fn refuse(what: &str, value: &str) -> (r: ClientError)
    ensures
        r@ == bad(what@, value@),
{
    ClientError::RoutingError(joined(what, value))
}

/// The block that a text names.
pub open spec fn read_cidr(s: Seq<char>) -> Option<MatcherModel> {
    match split_once(s, '/') {
        Some((base, prefix)) => match (Ipv4Addr::spec_parse(base), parse_number(prefix, 255)) {
            (Some(base), Some(prefix)) => if prefix <= 32 {
                Some(MatcherModel::Cidr(base, prefix as u8))
            } else {
                None
            },
            _ => None,
        },
        None => None,
    }
}

/// The range that a text names.
pub open spec fn read_range(s: Seq<char>) -> Option<MatcherModel> {
    match split_once(s, '-') {
        Some((lo, hi)) => match (Ipv4Addr::spec_parse(lo), Ipv4Addr::spec_parse(hi)) {
            (Some(lo), Some(hi)) => if lo.spec_bits() <= hi.spec_bits() {
                Some(MatcherModel::IpRange(lo, hi))
            } else {
                None
            },
            _ => None,
        },
        None => None,
    }
}

/// What a rule matches, by the first of `cidr`, `ip`, `ip_range`, `domain` and
/// `suffix` that is there.
pub open spec fn read_matcher(when: DocModel) -> Result<MatcherModel, ClientFault> {
    if member_text(when, "cidr"@) is Some {
        let s = member_text(when, "cidr"@)->Some_0;
        match read_cidr(s) {
            Some(m) => Ok(m),
            None => Err(bad("bad cidr "@, s)),
        }
    } else if member_text(when, "ip"@) is Some {
        let s = member_text(when, "ip"@)->Some_0;
        match Ipv4Addr::spec_parse(s) {
            Some(ip) => Ok(MatcherModel::Ip(ip)),
            None => Err(bad("bad ip "@, s)),
        }
    } else if member_text(when, "ip_range"@) is Some {
        let s = member_text(when, "ip_range"@)->Some_0;
        match read_range(s) {
            Some(m) => Ok(m),
            None => Err(bad("bad ip_range "@, s)),
        }
    } else if member_text(when, "domain"@) is Some {
        let s = member_text(when, "domain"@)->Some_0;
        if s.len() == 0 {
            Err(ClientFault::RoutingError("empty domain"@))
        } else {
            Ok(MatcherModel::Domain(s))
        }
    } else if member_text(when, "suffix"@) is Some {
        let s = member_text(when, "suffix"@)->Some_0;
        if s.len() == 0 {
            Err(ClientFault::RoutingError("empty suffix"@))
        } else {
            Ok(MatcherModel::Suffix(s))
        }
    } else {
        Err(ClientFault::RoutingError("rule when needs one matcher"@))
    }
}

/// The number of a member, or a default.
pub open spec fn number_or(doc: DocModel, field: Seq<char>, default: u64) -> u64 {
    match doc.get(field) {
        Some(value) => match value.natural() {
            Some(n) => n,
            None => default,
        },
        None => default,
    }
}

/// The number of a member, or a default.
pub(crate) fn number_in(doc: &Document, field: &str, default: u64) -> (r: u64)
    ensures
        r == number_or(doc.model(), field@, default),
{
    match doc.get(field) {
        Some(value) => match value.as_u64() {
            Some(n) => n,
            None => default,
        },
        None => default,
    }
}

/// The rule that a document describes. Priorities are taken modulo 2^32.
pub open spec fn read_rule(doc: DocModel) -> Result<RuleModel, ClientFault> {
    match (filled(doc, "name"@), filled(doc, "action"@)) {
        (None, _) => Err(ClientFault::RoutingError("rule missing name"@)),
        (Some(_), None) => Err(ClientFault::RoutingError("rule missing action"@)),
        (Some(name), Some(action)) => if action != "direct"@ && action != "tunnel"@ {
            Err(bad("bad action "@, action))
        } else {
            match doc.get("when"@) {
                None => Err(ClientFault::RoutingError("rule missing when"@)),
                Some(when) => match read_matcher(when) {
                    Err(fault) => Err(fault),
                    Ok(matcher) => Ok(
                        RuleModel {
                            name,
                            action: if action == "direct"@ {
                                Action::Direct
                            } else {
                                Action::Tunnel
                            },
                            matcher,
                            priority: number_or(doc, "priority"@, 50) as u32,
                        },
                    ),
                },
            }
        },
    }
}

/// Why a rule cannot be used, if it cannot.
pub open spec fn rule_fault(rule: RuleModel) -> Option<ClientFault> {
    if rule.name.len() == 0 {
        Some(ClientFault::RoutingError("empty rule name"@))
    } else {
        match rule.matcher {
            MatcherModel::Cidr(_, prefix) => if prefix > 32 {
                Some(ClientFault::RoutingError("bad cidr prefix"@))
            } else {
                None
            },
            MatcherModel::Domain(d) => if d.len() == 0 {
                Some(ClientFault::RoutingError("empty matcher"@))
            } else {
                None
            },
            MatcherModel::Suffix(s) => if s.len() == 0 {
                Some(ClientFault::RoutingError("empty matcher"@))
            } else {
                None
            },
            MatcherModel::IpRange(lo, hi) => if lo.spec_bits() > hi.spec_bits() {
                Some(ClientFault::RoutingError("bad ip_range"@))
            } else {
                None
            },
            MatcherModel::Ip(_) => None,
        }
    }
}

fn cidr_of(s: &str) -> (r: Option<Matcher>)
    ensures
        match (r, read_cidr(s@)) {
            (Some(v), Some(m)) => v@ == m,
            (None, None) => true,
            _ => false,
        },
{
    let chars = chars_of(s);
    match cut_first(chars.as_slice(), '/') {
        Some((base, prefix)) => match (Ipv4Addr::parse_chars(base), number_of(prefix, 255)) {
            (Some(base), Some(prefix)) => if prefix <= 32 {
                Some(Matcher::Cidr(base, prefix as u8))
            } else {
                None
            },
            _ => None,
        },
        None => None,
    }
}

fn range_of(s: &str) -> (r: Option<Matcher>)
    ensures
        match (r, read_range(s@)) {
            (Some(v), Some(m)) => v@ == m,
            (None, None) => true,
            _ => false,
        },
{
    let chars = chars_of(s);
    match cut_first(chars.as_slice(), '-') {
        Some((lo, hi)) => match (Ipv4Addr::parse_chars(lo), Ipv4Addr::parse_chars(hi)) {
            (Some(lo), Some(hi)) => if lo.to_bits() <= hi.to_bits() {
                Some(Matcher::IpRange(lo, hi))
            } else {
                None
            },
            _ => None,
        },
        None => None,
    }
}

fn matcher_of(when: &Document) -> (r: Result<Matcher, ClientError>)
    ensures
        match (r, read_matcher(when.model())) {
            (Ok(v), Ok(m)) => v@ == m,
            (Err(e), Err(fault)) => e@ == fault,
            _ => false,
        },
{
    if let Some(s) = text_of(when, "cidr") {
        return match cidr_of(s) {
            Some(m) => Ok(m),
            None => Err(refuse("bad cidr ", s)),
        };
    }
    if let Some(s) = text_of(when, "ip") {
        return match Ipv4Addr::parse(s) {
            Some(ip) => Ok(Matcher::Ip(ip)),
            None => Err(refuse("bad ip ", s)),
        };
    }
    if let Some(s) = text_of(when, "ip_range") {
        return match range_of(s) {
            Some(m) => Ok(m),
            None => Err(refuse("bad ip_range ", s)),
        };
    }
    if let Some(s) = text_of(when, "domain") {
        return if s.is_empty() {
            Err(ClientError::RoutingError("empty domain".to_owned()))
        } else {
            Ok(Matcher::Domain(s.to_owned()))
        };
    }
    if let Some(s) = text_of(when, "suffix") {
        return if s.is_empty() {
            Err(ClientError::RoutingError("empty suffix".to_owned()))
        } else {
            Ok(Matcher::Suffix(s.to_owned()))
        };
    }
    Err(ClientError::RoutingError("rule when needs one matcher".to_owned()))
}

impl Rule {
    /// Reads one rule document: `{name, action, priority, when: {..}}`.
    pub fn from_doc(doc: &Document) -> (r: Result<Self, ClientError>)
        ensures
            match (r, read_rule(doc.model())) {
                (Ok(rule), Ok(m)) => rule@ == m,
                (Err(e), Err(fault)) => e@ == fault,
                _ => false,
            },
    {
        let name = match filled_text(doc, "name") {
            Some(name) => name,
            None => {
                return Err(ClientError::RoutingError("rule missing name".to_owned()));
            },
        };
        let word = match filled_text(doc, "action") {
            Some(word) => word,
            None => {
                return Err(ClientError::RoutingError("rule missing action".to_owned()));
            },
        };
        let action = if same_str(word.as_str(), "direct") {
            Action::Direct
        } else if same_str(word.as_str(), "tunnel") {
            Action::Tunnel
        } else {
            return Err(refuse("bad action ", word.as_str()));
        };
        let priority: u32 = number_in(doc, "priority", 50) as u32;
        let when = match doc.get("when") {
            Some(when) => when,
            None => {
                return Err(ClientError::RoutingError("rule missing when".to_owned()));
            },
        };
        match matcher_of(when) {
            Ok(matcher) => Ok(Rule { name, action, matcher, priority }),
            Err(e) => Err(e),
        }
    }

    /// Checks a rule that was built by hand.
    pub fn validate(&self) -> (r: Result<(), ClientError>)
        ensures
            match (r, rule_fault(self@)) {
                (Ok(_), None) => true,
                (Err(e), Some(fault)) => e@ == fault,
                _ => false,
            },
    {
        if self.name.as_str().is_empty() {
            return Err(ClientError::RoutingError("empty rule name".to_owned()));
        }
        match &self.matcher {
            Matcher::Cidr(_, prefix) => if *prefix > 32 {
                return Err(ClientError::RoutingError("bad cidr prefix".to_owned()));
            },
            Matcher::Domain(d) => if d.as_str().is_empty() {
                return Err(ClientError::RoutingError("empty matcher".to_owned()));
            },
            Matcher::Suffix(s) => if s.as_str().is_empty() {
                return Err(ClientError::RoutingError("empty matcher".to_owned()));
            },
            Matcher::IpRange(lo, hi) => if lo.to_bits() > hi.to_bits() {
                return Err(ClientError::RoutingError("bad ip_range".to_owned()));
            },
            Matcher::Ip(_) => {},
        }
        Ok(())
    }
}

/// The rules that documents describe, or why the first that describes none does
/// not.
pub open spec fn read_rules(docs: Seq<DocModel>) -> Result<Seq<RuleModel>, ClientFault>
    decreases docs.len(),
{
    if docs.len() == 0 {
        Ok(Seq::empty())
    } else {
        match read_rules(docs.drop_last()) {
            Err(fault) => Err(fault),
            Ok(rules) => match read_rule(docs.last()) {
                Err(fault) => Err(fault),
                Ok(rule) => Ok(rules.push(rule)),
            },
        }
    }
}

proof fn first_fault_stays(docs: Seq<DocModel>, n: int)
    requires
        0 <= n <= docs.len(),
        read_rules(docs.take(n)) is Err,
    ensures
        read_rules(docs) == read_rules(docs.take(n)),
    decreases docs.len(),
{
    if n < docs.len() {
        assert(docs.drop_last().take(n) =~= docs.take(n));
        first_fault_stays(docs.drop_last(), n);
    } else {
        assert(docs.take(n) =~= docs);
    }
}

/// Reads rule documents.
pub fn rules_from(docs: &Vec<Document>) -> (r: Result<Vec<Rule>, ClientError>)
    ensures
        match (r, read_rules(docs@.map_values(|d: Document| d.model()))) {
            (Ok(rules), Ok(m)) => rules_of(rules@) == m,
            (Err(e), Err(fault)) => e@ == fault,
            _ => false,
        },
{
    let ghost all = docs@.map_values(|d: Document| d.model());
    let mut rules: Vec<Rule> = Vec::new();
    let mut i: usize = 0;
    assert(all.take(0) =~= Seq::<DocModel>::empty());
    assert(rules_of(rules@) =~= Seq::<RuleModel>::empty());
    while i < docs.len()
        invariant
            0 <= i <= docs@.len(),
            all == docs@.map_values(|d: Document| d.model()),
            read_rules(all.take(i as int)) == Ok::<Seq<RuleModel>, ClientFault>(rules_of(rules@)),
        decreases docs@.len() - i,
    {
        proof {
            assert(all.take(i + 1).drop_last() =~= all.take(i as int));
            assert(all.take(i + 1).last() == docs@[i as int].model());
        }
        match Rule::from_doc(&docs[i]) {
            Ok(rule) => {
                let ghost before = rules@;
                rules.push(rule);
                assert(rules_of(rules@) =~= rules_of(before).push(rule@));
            },
            Err(e) => {
                proof {
                    first_fault_stays(all, i + 1);
                }
                return Err(e);
            },
        }
        i += 1;
    }
    assert(all.take(i as int) =~= all);
    Ok(rules)
}

/// Rules with what decides where none matches.
///
/// A new rule set starts with built-in rules by which private addresses go direct.
/// They are in force only while private addresses are to go direct without a rule.
pub struct Ruleset {
    rules: Vec<Rule>,
    built_in: usize,
    /// What is done where nothing matches.
    pub default_action: Action,
    /// Whether private addresses go direct without a rule.
    pub include_private_lan_direct: bool,
}

/// Whether the first rule is preferred to the second.
pub open spec fn outranks(a: RuleModel, b: RuleModel) -> bool {
    a.priority > b.priority || (a.priority == b.priority && a.matcher.specificity()
        > b.matcher.specificity())
}

/// The position of the rule that decides about a host.
pub open spec fn winner(rules: Seq<RuleModel>, host: Seq<char>) -> Option<int>
    decreases rules.len(),
{
    if rules.len() == 0 {
        None
    } else {
        let last = rules.len() - 1;
        let before = winner(rules.drop_last(), host);
        if !rules[last].matcher.matches_host(host) {
            before
        } else {
            match before {
                None => Some(last),
                Some(i) => if outranks(rules[last], rules[i]) {
                    Some(last)
                } else {
                    before
                },
            }
        }
    }
}

/// What is done with traffic to a host.
pub open spec fn decided(
    rules: Seq<RuleModel>,
    default_action: Action,
    private_direct: bool,
    host: Seq<char>,
) -> Action {
    match winner(rules, host) {
        Some(i) => rules[i].action,
        None => match Ipv4Addr::spec_parse(host) {
            Some(ip) => if private_direct && ip.spec_is_private() {
                Action::Direct
            } else {
                default_action
            },
            None => default_action,
        },
    }
}

/// The rules that decide, where the first `built_in` ones are built in: those stand
/// aside unless private addresses are to go direct without a rule.
pub open spec fn in_force(
    rules: Seq<RuleModel>,
    built_in: nat,
    private_direct: bool,
) -> Seq<RuleModel> {
    if private_direct {
        rules
    } else if built_in <= rules.len() {
        rules.skip(built_in as int)
    } else {
        Seq::empty()
    }
}

/// A rule for a block that goes direct.
pub open spec fn block_rule(
    name: Seq<char>,
    base: Ipv4Addr,
    prefix: u8,
    priority: u32,
) -> RuleModel {
    RuleModel {
        name,
        action: Action::Direct,
        matcher: MatcherModel::Cidr(base, prefix),
        priority,
    }
}

/// The rules that a rule set starts with: the private blocks go direct.
pub open spec fn lan_rules() -> Seq<RuleModel> {
    seq![
        block_rule("lan-10"@, Ipv4Addr::spec_new(10, 0, 0, 0), 8, 10),
        block_rule("lan-172"@, Ipv4Addr::spec_new(172, 16, 0, 0), 12, 10),
        block_rule("lan-192"@, Ipv4Addr::spec_new(192, 168, 0, 0), 16, 10),
    ]
}

/// The first rule that cannot be used, and why.
pub open spec fn rules_fault(rules: Seq<RuleModel>) -> Option<ClientFault>
    decreases rules.len(),
{
    if rules.len() == 0 {
        None
    } else {
        match rule_fault(rules[0]) {
            Some(fault) => Some(fault),
            None => rules_fault(rules.skip(1)),
        }
    }
}

impl Ruleset {
    /// The rules, in order.
    pub closed spec fn spec_rules(&self) -> Seq<Rule> {
        self.rules@
    }

    /// What the rules hold, in order.
    pub open spec fn model(&self) -> Seq<RuleModel> {
        rules_of(self.spec_rules())
    }

    /// How many rules at the front are built in.
    pub closed spec fn spec_built_in(&self) -> nat {
        self.built_in as nat
    }

    /// The rules that decide.
    pub open spec fn deciding(&self) -> Seq<RuleModel> {
        in_force(self.model(), self.spec_built_in(), self.spec_private_direct())
    }

    /// What is done where nothing matches.
    pub closed spec fn spec_default(&self) -> Action {
        self.default_action
    }

    /// Whether private addresses go direct without a rule.
    pub closed spec fn spec_private_direct(&self) -> bool {
        self.include_private_lan_direct
    }

    /// Whether every prefix length is that of an IPv4 block.
    pub open spec fn prefixes_fit(&self) -> bool {
        forall|i: int|
            0 <= i < self.model().len() ==> (#[trigger] self.model()[i]).matcher.prefix_fits()
    }

    /// Whether only the rules may differ.
    pub open spec fn same_defaults(&self, other: Ruleset) -> bool {
        self.spec_default() == other.spec_default() && self.spec_private_direct()
            == other.spec_private_direct()
    }

    /// The tunnel is the default; private blocks go direct.
    pub fn new() -> (r: Self)
        ensures
            r.model() == lan_rules(),
            r.spec_built_in() == 3,
            r.spec_default() == Action::Tunnel,
            r.spec_private_direct(),
            r.prefixes_fit(),
    {
        let mut rs = Ruleset {
            rules: Vec::new(),
            built_in: 3,
            default_action: Action::Tunnel,
            include_private_lan_direct: true,
        };
        rs.add_cidr("lan-10", Ipv4Addr::new(10, 0, 0, 0), 8, 10);
        rs.add_cidr("lan-172", Ipv4Addr::new(172, 16, 0, 0), 12, 10);
        rs.add_cidr("lan-192", Ipv4Addr::new(192, 168, 0, 0), 16, 10);
        assert(rs.model() =~= lan_rules());
        rs
    }

    /// A rule set that differs in whether private addresses go direct without a
    /// rule.
    pub fn with_private_lan_direct(self, direct: bool) -> (r: Self)
        ensures
            r.spec_rules() == self.spec_rules(),
            r.spec_built_in() == self.spec_built_in(),
            r.spec_default() == self.spec_default(),
            r.spec_private_direct() == direct,
    {
        let mut r = self;
        r.include_private_lan_direct = direct;
        r
    }

    /// The rules, in order.
    pub fn rules(&self) -> (r: &[Rule])
        ensures
            r@ == self.spec_rules(),
    {
        self.rules.as_slice()
    }

    /// The rules that decide, in order.
    pub fn deciding_rules(&self) -> (r: &[Rule])
        ensures
            rules_of(r@) == self.deciding(),
    {
        let n: usize = self.rules.len();
        let from: usize = if self.include_private_lan_direct {
            0
        } else if self.built_in <= n {
            self.built_in
        } else {
            n
        };
        let r = &self.rules.as_slice()[from..n];
        assert(rules_of(r@) =~= self.deciding());
        r
    }

    /// Replaces all rules, the built-in ones too. Every rule is checked before
    /// anything is replaced.
    pub fn replace_rules(&mut self, rules: Vec<Rule>) -> (r: Result<(), ClientError>)
        ensures
            final(self).same_defaults(*old(self)),
            match (r, rules_fault(rules_of(rules@))) {
                (Ok(_), None) => {
                    &&& final(self).spec_rules() == rules@
                    &&& final(self).spec_built_in() == 0
                    &&& final(self).prefixes_fit()
                },
                (Err(e), Some(fault)) => e@ == fault && *final(self) == *old(self),
                _ => false,
            },
    {
        match validate_all(rules.as_slice()) {
            Ok(_) => {},
            Err(e) => {
                return Err(e);
            },
        }
        self.rules = rules;
        self.built_in = 0;
        Ok(())
    }

    /// Appends a rule.
    pub fn add_rule(&mut self, name: &str, action: Action, matcher: Matcher, priority: u32)
        ensures
            final(self).same_defaults(*old(self)),
            final(self).spec_built_in() == old(self).spec_built_in(),
            final(self).model() == old(self).model().push(
                RuleModel { name: name@, action, matcher: matcher@, priority },
            ),
    {
        let rule = Rule { name: name.to_owned(), action, matcher, priority };
        let ghost before = self.model();
        self.rules.push(rule);
        assert(self.model() =~= before.push(rule@));
    }

    /// Appends rules.
    pub fn add_all(&mut self, rules: Vec<Rule>)
        ensures
            final(self).same_defaults(*old(self)),
            final(self).spec_built_in() == old(self).spec_built_in(),
            final(self).model() == old(self).model() + rules_of(rules@),
    {
        let mut rules = rules;
        let ghost before = self.model();
        let ghost more = rules@;
        self.rules.append(&mut rules);
        assert(self.model() =~= before + rules_of(more));
    }

    /// Appends a rule by which names with a tail go direct.
    pub fn add_suffix(&mut self, name: &str, suffix: &str, priority: u32)
        ensures
            final(self).same_defaults(*old(self)),
            final(self).spec_built_in() == old(self).spec_built_in(),
            final(self).model() == old(self).model().push(
                RuleModel {
                    name: name@,
                    action: Action::Direct,
                    matcher: MatcherModel::Suffix(suffix@),
                    priority,
                },
            ),
    {
        self.add_rule(name, Action::Direct, Matcher::Suffix(suffix.to_owned()), priority);
    }

    /// Appends a rule by which one name goes direct.
    pub fn add_domain(&mut self, name: &str, domain: &str, priority: u32)
        ensures
            final(self).same_defaults(*old(self)),
            final(self).spec_built_in() == old(self).spec_built_in(),
            final(self).model() == old(self).model().push(
                RuleModel {
                    name: name@,
                    action: Action::Direct,
                    matcher: MatcherModel::Domain(domain@),
                    priority,
                },
            ),
    {
        self.add_rule(name, Action::Direct, Matcher::Domain(domain.to_owned()), priority);
    }

    /// Appends a rule by which one address goes direct.
    pub fn add_ip(&mut self, name: &str, ip: &str, priority: u32) -> (r: Result<(), ClientError>)
        ensures
            final(self).same_defaults(*old(self)),
            final(self).spec_built_in() == old(self).spec_built_in(),
            match (r, Ipv4Addr::spec_parse(ip@)) {
                (Ok(_), Some(addr)) => final(self).model() == old(self).model().push(
                    RuleModel {
                        name: name@,
                        action: Action::Direct,
                        matcher: MatcherModel::Ip(addr),
                        priority,
                    },
                ),
                (Err(e), None) => e@ == bad("bad ip "@, ip@) && *final(self) == *old(self),
                _ => false,
            },
    {
        match Ipv4Addr::parse(ip) {
            Some(addr) => {
                self.add_rule(name, Action::Direct, Matcher::Ip(addr), priority);
                Ok(())
            },
            None => Err(refuse("bad ip ", ip)),
        }
    }

    /// Appends a rule by which a range of addresses goes direct.
    pub fn add_ip_range(&mut self, name: &str, lo: &str, hi: &str, priority: u32) -> (r: Result<
        (),
        ClientError,
    >)
        ensures
            final(self).same_defaults(*old(self)),
            final(self).spec_built_in() == old(self).spec_built_in(),
            r is Err ==> *final(self) == *old(self),
            match (Ipv4Addr::spec_parse(lo@), Ipv4Addr::spec_parse(hi@)) {
                (None, _) => r matches Err(e) && e@ == bad("bad ip "@, lo@),
                (Some(_), None) => r matches Err(e) && e@ == bad("bad ip "@, hi@),
                (Some(from), Some(to)) => if from.spec_bits() > to.spec_bits() {
                    r matches Err(e) && e@ == ClientFault::RoutingError("range lo > hi"@)
                } else {
                    r is Ok && final(self).model() == old(self).model().push(
                        RuleModel {
                            name: name@,
                            action: Action::Direct,
                            matcher: MatcherModel::IpRange(from, to),
                            priority,
                        },
                    )
                },
            },
    {
        let from = match Ipv4Addr::parse(lo) {
            Some(from) => from,
            None => {
                return Err(refuse("bad ip ", lo));
            },
        };
        let to = match Ipv4Addr::parse(hi) {
            Some(to) => to,
            None => {
                return Err(refuse("bad ip ", hi));
            },
        };
        if from.to_bits() > to.to_bits() {
            return Err(ClientError::RoutingError("range lo > hi".to_owned()));
        }
        self.add_rule(name, Action::Direct, Matcher::IpRange(from, to), priority);
        Ok(())
    }

    fn add_cidr(&mut self, name: &str, base: Ipv4Addr, prefix: u8, priority: u32)
        ensures
            final(self).same_defaults(*old(self)),
            final(self).spec_built_in() == old(self).spec_built_in(),
            final(self).model() == old(self).model().push(block_rule(name@, base, prefix, priority)),
    {
        self.add_rule(name, Action::Direct, Matcher::Cidr(base, prefix), priority);
    }

    /// What is done with traffic to a host, which is an address or a name.
    pub fn match_action(&self, host: &str) -> (r: Action)
        requires
            self.prefixes_fit(),
        ensures
            r == decided(
                self.deciding(),
                self.spec_default(),
                self.spec_private_direct(),
                host@,
            ),
    {
        let chars = chars_of(host);
        let ip = Ipv4Addr::parse(host);
        let found = self.deciding_rules();
        let ghost rules = self.deciding();
        assert(forall|j: int|
            0 <= j < rules.len() ==> exists|k: int|
                0 <= k < self.model().len() && self.model()[k] == #[trigger] rules[j]);
        let mut best: Option<usize> = None;
        let mut i: usize = 0;
        while i < found.len()
            invariant
                0 <= i <= found@.len(),
                rules == rules_of(found@),
                forall|j: int| 0 <= j < rules.len() ==> (#[trigger] rules[j]).matcher.prefix_fits(),
                chars@ == host@,
                ip == Ipv4Addr::spec_parse(host@),
                match (best, winner(rules.take(i as int), host@)) {
                    (Some(b), Some(w)) => b == w && b < i,
                    (None, None) => true,
                    _ => false,
                },
            decreases found@.len() - i,
        {
            let rule = &found[i];
            assert(rules[i as int] == rule@);
            assert(rules.take(i + 1).drop_last() =~= rules.take(i as int));
            let hit = match ip {
                Some(ip) => rule.matcher.matches_ip(ip),
                None => rule.matcher.matches_name(chars.as_slice()),
            };
            if hit {
                let replace = match best {
                    None => true,
                    Some(b) => {
                        let held = &found[b];
                        assert(rules[b as int] == held@);
                        rule.priority > held.priority || (rule.priority == held.priority
                            && rule.matcher.specificity() > held.matcher.specificity())
                    },
                };
                if replace {
                    best = Some(i);
                }
            }
            i += 1;
        }
        assert(rules.take(i as int) =~= rules);
        if let Some(b) = best {
            assert(rules[b as int] == found@[b as int]@);
            return found[b].action;
        }
        if self.include_private_lan_direct {
            if let Some(ip) = ip {
                if ip.is_private() {
                    return Action::Direct;
                }
            }
        }
        self.default_action
    }
}

impl Default for Ruleset {
    fn default() -> (r: Self)
        ensures
            r.model() == lan_rules(),
            r.spec_built_in() == 3,
            r.spec_default() == Action::Tunnel,
            r.spec_private_direct(),
    {
        Ruleset::new()
    }
}

/// Checks rules in order and gives the first fault.
pub fn validate_all(rules: &[Rule]) -> (r: Result<(), ClientError>)
    ensures
        match (r, rules_fault(rules_of(rules@))) {
            (Ok(_), None) => forall|i: int|
                0 <= i < rules@.len() ==> (#[trigger] rules@[i])@.matcher.prefix_fits(),
            (Err(e), Some(fault)) => e@ == fault,
            _ => false,
        },
{
    let ghost all = rules_of(rules@);
    let mut i: usize = 0;
    assert(all.skip(0) =~= all);
    while i < rules.len()
        invariant
            0 <= i <= rules@.len(),
            all == rules_of(rules@),
            rules_fault(all) == rules_fault(all.skip(i as int)),
            forall|j: int| 0 <= j < i ==> (#[trigger] rules@[j])@.matcher.prefix_fits(),
        decreases rules@.len() - i,
    {
        assert(all.skip(i as int)[0] == rules@[i as int]@);
        assert(all.skip(i as int).skip(1) =~= all.skip(i + 1));
        match rules[i].validate() {
            Ok(_) => {},
            Err(e) => {
                return Err(e);
            },
        }
        i += 1;
    }
    Ok(())
}

/// The rule that decides matches, no rule that matches outranks it, and every rule
/// before it that matches is outranked by it.
pub proof fn winner_is_unbeaten(rules: Seq<RuleModel>, host: Seq<char>)
    ensures
        match winner(rules, host) {
            Some(w) => {
                &&& 0 <= w < rules.len()
                &&& rules[w].matcher.matches_host(host)
                &&& forall|i: int|
                    0 <= i < rules.len() && (#[trigger] rules[i]).matcher.matches_host(host)
                        ==> !outranks(rules[i], rules[w])
                &&& forall|i: int|
                    0 <= i < w && (#[trigger] rules[i]).matcher.matches_host(host) ==> outranks(
                        rules[w],
                        rules[i],
                    )
            },
            None => forall|i: int|
                0 <= i < rules.len() ==> !(#[trigger] rules[i]).matcher.matches_host(host),
        },
    decreases rules.len(),
{
    if rules.len() > 0 {
        let less = rules.drop_last();
        winner_is_unbeaten(less, host);
        assert(forall|i: int| 0 <= i < less.len() ==> #[trigger] rules[i] == less[i]);
    }
}

/// Without a rule that matches, names take the default, and so does an address
/// that is not private.
pub proof fn default_decides_the_rest(
    rules: Seq<RuleModel>,
    default_action: Action,
    private_direct: bool,
    host: Seq<char>,
)
    requires
        forall|i: int| 0 <= i < rules.len() ==> !(#[trigger] rules[i]).matcher.matches_host(host),
        !(Ipv4Addr::spec_parse(host) matches Some(ip) && ip.spec_is_private()),
    ensures
        decided(rules, default_action, private_direct, host) == default_action,
{
    winner_is_unbeaten(rules, host);
}

/// With the rules that a rule set starts with, the tunnel is the default: exactly
/// the private addresses go direct.
pub proof fn fresh_rules_tunnel_all_but_private(host: Seq<char>)
    ensures
        decided(lan_rules(), Action::Tunnel, true, host) == (if (Ipv4Addr::spec_parse(host) matches
            Some(ip) && ip.spec_is_private()) {
            Action::Direct
        } else {
            Action::Tunnel
        }),
{
    winner_is_unbeaten(lan_rules(), host);
    if let Some(ip) = Ipv4Addr::spec_parse(host) {
        Ipv4Addr::private_blocks(ip);
    }
    assert(winner(lan_rules(), host) is Some ==> {
        let w = winner(lan_rules(), host)->Some_0;
        w == 0 || w == 1 || w == 2
    });
}

/// Where private addresses are not to go direct without a rule, they do so only by
/// a rule that was added: a fresh rule set sends everything through the tunnel.
pub proof fn fresh_rules_tunnel_all_without_the_private_default(host: Seq<char>)
    ensures
        decided(in_force(lan_rules(), 3, false), Action::Tunnel, false, host) == Action::Tunnel,
{
    assert(in_force(lan_rules(), 3, false) =~= Seq::<RuleModel>::empty());
}

/// Rules that were added decide as if there were no built-in ones, where private
/// addresses are not to go direct without a rule.
pub proof fn added_rules_decide_alone(added: Seq<RuleModel>)
    ensures
        in_force(lan_rules() + added, 3, false) == added,
{
    assert(in_force(lan_rules() + added, 3, false) =~= added);
}

/// A rule that was read from a document can be used.
pub proof fn read_rules_are_valid(doc: DocModel)
    ensures
        read_rule(doc) matches Ok(rule) ==> rule_fault(rule) is None
            && rule.matcher.prefix_fits(),
{
}

/// Of the rules for blocks that match an address with the same priority the one with the
/// longest prefix decides, and of those with the same prefix the first. A range counts as
/// a block with a prefix of 16.
pub proof fn longest_prefix_decides(
    rules: Seq<RuleModel>,
    default_action: Action,
    private_direct: bool,
    host: Seq<char>,
    k: int,
    base: Ipv4Addr,
    prefix: u8,
)
    requires
        0 <= k < rules.len(),
        rules[k].matcher == MatcherModel::Cidr(base, prefix),
        rules[k].matcher.matches_host(host),
        forall|i: int|
            0 <= i < rules.len() && i != k && (#[trigger] rules[i]).matcher.matches_host(host)
                ==> {
                ||| rules[i].priority < rules[k].priority
                ||| rules[i].priority == rules[k].priority && match rules[i].matcher {
                    MatcherModel::Cidr(_, other) => other < prefix || other == prefix && i > k,
                    MatcherModel::IpRange(_, _) => prefix > 16 || prefix == 16 && i > k,
                    _ => false,
                }
            },
    ensures
        decided(rules, default_action, private_direct, host) == rules[k].action,
{
    winner_is_unbeaten(rules, host);
    let w = winner(rules, host)->Some_0;
    assert(rules[w].matcher.matches_host(host));
    assert(!outranks(rules[k], rules[w]));
    assert(w == k);
}

/// A rule for one address decides over rules for blocks and ranges of the same priority.
pub proof fn single_address_decides(
    rules: Seq<RuleModel>,
    default_action: Action,
    private_direct: bool,
    host: Seq<char>,
    k: int,
    ip: Ipv4Addr,
)
    requires
        0 <= k < rules.len(),
        rules[k].matcher == MatcherModel::Ip(ip),
        Ipv4Addr::spec_parse(host) == Some(ip),
        forall|i: int|
            0 <= i < rules.len() && i != k && (#[trigger] rules[i]).matcher.matches_host(host)
                ==> {
                ||| rules[i].priority < rules[k].priority
                ||| rules[i].priority == rules[k].priority && match rules[i].matcher {
                    MatcherModel::Cidr(_, other) => other < 32,
                    MatcherModel::IpRange(_, _) => true,
                    MatcherModel::Ip(_) => i > k,
                    _ => false,
                }
            },
    ensures
        decided(rules, default_action, private_direct, host) == rules[k].action,
{
    assert(rules[k].matcher.matches_host(host));
    winner_is_unbeaten(rules, host);
    let w = winner(rules, host)->Some_0;
    assert(!outranks(rules[k], rules[w]));
    assert(w == k);
}

/// A rule for a range decides over rules of the same priority for blocks with a prefix
/// below 16, and over later ranges.
pub proof fn range_decides(
    rules: Seq<RuleModel>,
    default_action: Action,
    private_direct: bool,
    host: Seq<char>,
    k: int,
    lo: Ipv4Addr,
    hi: Ipv4Addr,
)
    requires
        0 <= k < rules.len(),
        rules[k].matcher == MatcherModel::IpRange(lo, hi),
        rules[k].matcher.matches_host(host),
        forall|i: int|
            0 <= i < rules.len() && i != k && (#[trigger] rules[i]).matcher.matches_host(host)
                ==> {
                ||| rules[i].priority < rules[k].priority
                ||| rules[i].priority == rules[k].priority && match rules[i].matcher {
                    MatcherModel::Cidr(_, other) => other < 16 || other == 16 && i > k,
                    MatcherModel::IpRange(_, _) => i > k,
                    _ => false,
                }
            },
    ensures
        decided(rules, default_action, private_direct, host) == rules[k].action,
{
    winner_is_unbeaten(rules, host);
    let w = winner(rules, host)->Some_0;
    assert(!outranks(rules[k], rules[w]));
    assert(w == k);
}

proof fn lemma_utf8_of_tail(s: Seq<char>, from: int)
    requires
        0 <= from <= s.len(),
    ensures
        encode_utf8(s).len() >= encode_utf8(s.skip(from)).len() + from,
    decreases from,
{
    if from == 0 {
        assert(s.skip(0) =~= s);
    } else {
        lemma_utf8_of_tail(s.drop_first(), from - 1);
        assert(s.drop_first().skip(from - 1) =~= s.skip(from));
    }
}

proof fn lemma_utf8_up_to_case(a: Seq<char>, b: Seq<char>)
    requires
        lowercase(a) == lowercase(b),
    ensures
        encode_utf8(a).len() == encode_utf8(b).len(),
    decreases a.len(),
{
    assert(lowercase(a).len() == a.len() && lowercase(b).len() == b.len());
    if a.len() > 0 {
        case_is_ignored(a, b);
        assert(a[0] == b[0] || (a[0] as u32) < 0x80 && (b[0] as u32) < 0x80);
        assert(lowercase(a.drop_first()) =~= lowercase(a).drop_first());
        assert(lowercase(b.drop_first()) =~= lowercase(b).drop_first());
        lemma_utf8_up_to_case(a.drop_first(), b.drop_first());
    }
}

/// A rule for a whole name decides over rules of the same priority for tails of it.
pub proof fn whole_name_decides(
    rules: Seq<RuleModel>,
    default_action: Action,
    private_direct: bool,
    host: Seq<char>,
    k: int,
    name: Seq<char>,
)
    requires
        0 <= k < rules.len(),
        rules[k].matcher == MatcherModel::Domain(name),
        rules[k].matcher.matches_host(host),
        forall|i: int|
            0 <= i < rules.len() && i != k && (#[trigger] rules[i]).matcher.matches_host(host)
                ==> {
                ||| rules[i].priority < rules[k].priority
                ||| rules[i].priority == rules[k].priority && (rules[i].matcher is Suffix
                    || rules[i].matcher is Domain && i > k)
            },
    ensures
        decided(rules, default_action, private_direct, host) == rules[k].action,
{
    winner_is_unbeaten(rules, host);
    let w = winner(rules, host)->Some_0;
    assert(!outranks(rules[k], rules[w]));
    lemma_utf8_up_to_case(host, name);
    match rules[w].matcher {
        MatcherModel::Suffix(tail) => {
            lemma_utf8_of_tail(host, host.len() - tail.len());
        },
        MatcherModel::Domain(other) => {
            lemma_utf8_up_to_case(host, other);
        },
        _ => {},
    }
    assert(w == k);
}

/// Of the rules for tails of a name with the same priority the one with the longest tail
/// decides, and of the same tail the first.
pub proof fn longest_tail_decides(
    rules: Seq<RuleModel>,
    default_action: Action,
    private_direct: bool,
    host: Seq<char>,
    k: int,
    tail: Seq<char>,
)
    requires
        0 <= k < rules.len(),
        rules[k].matcher == MatcherModel::Suffix(tail),
        rules[k].matcher.matches_host(host),
        forall|i: int|
            0 <= i < rules.len() && i != k && (#[trigger] rules[i]).matcher.matches_host(host)
                ==> {
                ||| rules[i].priority < rules[k].priority
                ||| rules[i].priority == rules[k].priority && match rules[i].matcher {
                    MatcherModel::Suffix(other) => other.len() < tail.len() || other.len()
                        == tail.len() && i > k,
                    _ => false,
                }
            },
    ensures
        decided(rules, default_action, private_direct, host) == rules[k].action,
{
    winner_is_unbeaten(rules, host);
    let w = winner(rules, host)->Some_0;
    assert(!outranks(rules[k], rules[w]));
    if w != k {
        match rules[w].matcher {
            MatcherModel::Suffix(other) => {
                assert(tail.skip(tail.len() - other.len()) =~= host.skip(host.len() - other.len()));
                lemma_utf8_of_tail(tail, tail.len() - other.len());
            },
            _ => {},
        }
    }
    assert(w == k);
}

/// Priority comes first: a rule that matches decides where every other rule that matches
/// has a lower priority, however specific that one is.
pub proof fn highest_priority_decides(
    rules: Seq<RuleModel>,
    default_action: Action,
    private_direct: bool,
    host: Seq<char>,
    k: int,
)
    requires
        0 <= k < rules.len(),
        rules[k].matcher.matches_host(host),
        forall|i: int|
            0 <= i < rules.len() && i != k && (#[trigger] rules[i]).matcher.matches_host(host)
                ==> rules[i].priority < rules[k].priority,
    ensures
        decided(rules, default_action, private_direct, host) == rules[k].action,
{
    winner_is_unbeaten(rules, host);
    let w = winner(rules, host)->Some_0;
    assert(!outranks(rules[k], rules[w]));
    assert(w == k);
}

/// What decides is a rule that matches, where there is one: traffic goes direct or through
/// the tunnel because one of them says so, and none that matches has a higher priority.
pub proof fn some_matching_rule_decides(
    rules: Seq<RuleModel>,
    default_action: Action,
    private_direct: bool,
    host: Seq<char>,
)
    requires
        exists|i: int| 0 <= i < rules.len() && (#[trigger] rules[i]).matcher.matches_host(host),
    ensures
        exists|k: int|
            #![trigger rules[k]]
            {
                &&& 0 <= k < rules.len()
                &&& rules[k].matcher.matches_host(host)
                &&& decided(rules, default_action, private_direct, host) == rules[k].action
                &&& forall|i: int|
                    0 <= i < rules.len() && (#[trigger] rules[i]).matcher.matches_host(host)
                        ==> rules[i].priority <= rules[k].priority
            },
{
    winner_is_unbeaten(rules, host);
    let k = winner(rules, host)->Some_0;
    assert(rules[k].matcher.matches_host(host));
}

/// Where no rule matches, an address goes direct exactly where it is private by its octets
/// and private addresses are to go direct, and everything else takes the default.
pub proof fn unmatched_hosts_take_the_default(
    rules: Seq<RuleModel>,
    default_action: Action,
    private_direct: bool,
    host: Seq<char>,
)
    requires
        forall|i: int| 0 <= i < rules.len() ==> !(#[trigger] rules[i]).matcher.matches_host(host),
    ensures
        decided(rules, default_action, private_direct, host) == match Ipv4Addr::spec_parse(host) {
            Some(ip) => {
                let o = ip.spec_octets();
                if private_direct && (o[0] == 10 || o[0] == 172 && 16 <= o[1] <= 31 || o[0] == 192
                    && o[1] == 168) {
                    Action::Direct
                } else {
                    default_action
                }
            },
            None => default_action,
        },
{
    winner_is_unbeaten(rules, host);
    if let Some(ip) = Ipv4Addr::spec_parse(host) {
        private_addresses_by_octets(ip);
    }
}

/// What the matchers of addresses match: one address, the consecutive addresses of a block,
/// the addresses from one to another, both included. Names match none of them.
pub proof fn addresses_are_matched_by_number(
    host: Seq<char>,
    ip: Ipv4Addr,
    a: Ipv4Addr,
    b: Ipv4Addr,
    prefix: u8,
    name: Seq<char>,
)
    requires
        Ipv4Addr::spec_parse(host) == Some(ip),
        prefix <= 32,
    ensures
        MatcherModel::Ip(a).matches_host(host) <==> a.spec_bits() == ip.spec_bits(),
        MatcherModel::IpRange(a, b).matches_host(host) <==> a.spec_bits() <= ip.spec_bits()
            && ip.spec_bits() <= b.spec_bits(),
        MatcherModel::Cidr(a, prefix).matches_host(host) <==> {
            let size = vstd::arithmetic::power2::pow2((32 - prefix) as nat) as int;
            let first = a.spec_bits() - a.spec_bits() as int % size;
            first <= ip.spec_bits() < first + size
        },
        !MatcherModel::Domain(name).matches_host(host),
        !MatcherModel::Suffix(name).matches_host(host),
{
    block_is_an_interval(ip, a, prefix as nat);
    if a.spec_bits() == ip.spec_bits() {
        a.bits_identify_address(ip);
    }
}

/// What the matchers of names match: one name in whatever case, or every name with more in
/// front of a tail. Addresses match none of them.
pub proof fn names_are_matched_by_their_letters(
    host: Seq<char>,
    name: Seq<char>,
    a: Ipv4Addr,
    b: Ipv4Addr,
    prefix: u8,
)
    requires
        Ipv4Addr::spec_parse(host) is None,
    ensures
        MatcherModel::Domain(name).matches_host(host) <==> host.len() == name.len() && forall|
            i: int,
        |
            0 <= i < host.len() ==> {
                ||| #[trigger] host[i] == name[i]
                ||| 'A' <= host[i] <= 'Z' && name[i] as u32 == host[i] as u32 + 32
                ||| 'A' <= name[i] <= 'Z' && host[i] as u32 == name[i] as u32 + 32
            },
        MatcherModel::Suffix(name).matches_host(host) <==> host.len() > name.len() && host
            == host.take(host.len() - name.len()) + name,
        !MatcherModel::Ip(a).matches_host(host),
        !MatcherModel::Cidr(a, prefix).matches_host(host),
        !MatcherModel::IpRange(a, b).matches_host(host),
{
    case_is_ignored(host, name);
    if host.len() > name.len() {
        let n = host.len() - name.len();
        assert(host =~= host.take(n) + host.skip(n));
        if host == host.take(n) + name {
            assert(host.skip(n) =~= name);
        }
    }
}

/// The rules that a rule set starts with yield to an added rule of a higher priority, and
/// of the same priority to one for a single address. They decide over an added rule of a
/// lower priority.
pub proof fn built_in_rules_have_a_low_priority(
    added: RuleModel,
    host: Seq<char>,
    ip: Ipv4Addr,
    default_action: Action,
)
    requires
        Ipv4Addr::spec_parse(host) == Some(ip),
        added.matcher.matches_host(host),
        ({
            let o = ip.spec_octets();
            o[0] == 10 || o[0] == 172 && 16 <= o[1] <= 31 || o[0] == 192 && o[1] == 168
        }),
    ensures
        ({
            let rules = lan_rules().push(added);
            let action = decided(rules, default_action, true, host);
            &&& added.priority > 10 ==> action == added.action
            &&& added.priority == 10 && added.matcher is Ip ==> action == added.action
            &&& added.priority < 10 ==> action == Action::Direct
        }),
{
    let rules = lan_rules().push(added);
    private_addresses_by_octets(ip);
    Ipv4Addr::private_blocks(ip);
    winner_is_unbeaten(rules, host);
    let w = winner(rules, host)->Some_0;
    assert(rules[3] == added);
    assert(forall|i: int| 0 <= i < 3 ==> #[trigger] rules[i] == lan_rules()[i]);
    assert(rules[0].matcher.matches_host(host) || rules[1].matcher.matches_host(host)
        || rules[2].matcher.matches_host(host));
    assert(!outranks(rules[3], rules[w]));
    assert(w == 0 || w == 1 || w == 2 || w == 3);
}

/// The text of a block, an address or a range is read as what it was written for.
pub proof fn written_matchers_are_read(a: Ipv4Addr, b: Ipv4Addr, prefix: u8)
    ensures
        read_cidr(a.spec_text().push('/') + decimal(prefix as nat)) == (if prefix <= 32 {
            Some(MatcherModel::Cidr(a, prefix))
        } else {
            None
        }),
        read_range(a.spec_text().push('-') + b.spec_text()) == (if a.spec_bits()
            <= b.spec_bits() {
            Some(MatcherModel::IpRange(a, b))
        } else {
            None
        }),
{
    address_text_round_trip(a);
    address_text_round_trip(b);
    address_text_holds_no_separator(a, '/');
    address_text_holds_no_separator(a, '-');
    first_separator_splits(a.spec_text(), '/', decimal(prefix as nat));
    first_separator_splits(a.spec_text(), '-', b.spec_text());
    written_number_is_read(prefix as nat, 255);
}

/// A rule document is read member by member: the name, the action by its word, the
/// priority, 50 where there is none, and what it matches.
pub proof fn rules_are_read_as_they_stand(doc: DocModel)
    ensures
        read_rule(doc) matches Ok(rule) ==> {
            &&& doc.get("name"@) == Some(DocModel::Text(rule.name))
            &&& rule.name.len() > 0
            &&& rule.action == Action::Direct ==> doc.get("action"@) == Some(
                DocModel::Text("direct"@),
            )
            &&& rule.action == Action::Tunnel ==> doc.get("action"@) == Some(
                DocModel::Text("tunnel"@),
            )
            &&& match doc.get("priority"@) {
                Some(DocModel::Natural(n)) => rule.priority == n % 0x1_0000_0000,
                _ => rule.priority == 50,
            }
            &&& doc.get("when"@) matches Some(when) && read_matcher(when) == Ok::<
                MatcherModel,
                ClientFault,
            >(rule.matcher)
        },
{
    if let Some(DocModel::Natural(n)) = doc.get("priority"@) {
        assert(n as u32 == n % 0x1_0000_0000) by (bit_vector);
    }
}

/// A complete rule document is read: a name, one of the two actions, and one matcher that
/// can be read.
pub proof fn complete_rules_are_read(
    doc: DocModel,
    name: Seq<char>,
    direct: bool,
    when: DocModel,
)
    requires
        doc.get("name"@) == Some(DocModel::Text(name)),
        name.len() > 0,
        doc.get("action"@) == Some(
            DocModel::Text(
                if direct {
                    "direct"@
                } else {
                    "tunnel"@
                },
            ),
        ),
        doc.get("when"@) == Some(when),
        read_matcher(when) is Ok,
    ensures
        read_rule(doc) matches Ok(rule) && rule.name == name && rule.matcher == read_matcher(
            when,
        )->Ok_0 && rule.action == (if direct {
            Action::Direct
        } else {
            Action::Tunnel
        }),
{
    reveal_strlit("direct");
    reveal_strlit("tunnel");
    assert("direct"@[0] == 'd' && "tunnel"@[0] == 't');
}

/// The member of a condition says what kind of matcher it is: `cidr` a block, `ip` an
/// address, `ip_range` a range, `domain` a name and `suffix` a tail, whose text is taken as
/// it stands. Where there are several, the first of these counts.
pub proof fn conditions_are_read_by_their_member(cond: DocModel, s: Seq<char>)
    ensures
        cond.get("cidr"@) == Some(DocModel::Text(s)) ==> match read_matcher(cond) {
            Ok(m) => read_cidr(s) == Some(m) && m is Cidr,
            Err(_) => read_cidr(s) is None,
        },
        !(cond.get("cidr"@) matches Some(DocModel::Text(_))) ==> {
            &&& cond.get("ip"@) == Some(DocModel::Text(s)) ==> match read_matcher(cond) {
                Ok(m) => Ipv4Addr::spec_parse(s) matches Some(ip) && m == MatcherModel::Ip(ip),
                Err(_) => Ipv4Addr::spec_parse(s) is None,
            }
            &&& !(cond.get("ip"@) matches Some(DocModel::Text(_))) ==> {
                &&& cond.get("ip_range"@) == Some(DocModel::Text(s)) ==> match read_matcher(
                    cond,
                ) {
                    Ok(m) => read_range(s) == Some(m) && m is IpRange,
                    Err(_) => read_range(s) is None,
                }
                &&& !(cond.get("ip_range"@) matches Some(DocModel::Text(_))) ==> {
                    &&& cond.get("domain"@) == Some(DocModel::Text(s)) ==> match read_matcher(
                        cond,
                    ) {
                        Ok(m) => s.len() > 0 && m == MatcherModel::Domain(s),
                        Err(_) => s.len() == 0,
                    }
                    &&& !(cond.get("domain"@) matches Some(DocModel::Text(_))) ==> {
                        &&& cond.get("suffix"@) == Some(DocModel::Text(s)) ==> match read_matcher(
                            cond,
                        ) {
                            Ok(m) => s.len() > 0 && m == MatcherModel::Suffix(s),
                            Err(_) => s.len() == 0,
                        }
                        &&& !(cond.get("suffix"@) matches Some(DocModel::Text(_)))
                            ==> read_matcher(cond) is Err
                    }
                }
            }
        },
{
}

/// Rule documents are read one by one and in order, and all of them or none.
pub proof fn rule_lists_are_read_in_order(docs: Seq<DocModel>)
    ensures
        match read_rules(docs) {
            Ok(rules) => rules.len() == docs.len() && forall|i: int|
                0 <= i < docs.len() ==> read_rule(#[trigger] docs[i]) == Ok::<
                    RuleModel,
                    ClientFault,
                >(rules[i]),
            Err(fault) => exists|i: int|
                #![trigger docs[i]]
                {
                    &&& 0 <= i < docs.len()
                    &&& read_rule(docs[i]) == Err::<RuleModel, ClientFault>(fault)
                    &&& forall|j: int| 0 <= j < i ==> read_rule(#[trigger] docs[j]) is Ok
                },
        },
    decreases docs.len(),
{
    if docs.len() > 0 {
        let fewer = docs.drop_last();
        let last = docs.len() - 1;
        rule_lists_are_read_in_order(fewer);
        assert(forall|i: int| 0 <= i < fewer.len() ==> #[trigger] fewer[i] == docs[i]);
        match read_rules(fewer) {
            Err(fault) => {
                let i = choose|i: int|
                    #![trigger fewer[i]]
                    0 <= i < fewer.len() && read_rule(fewer[i]) == Err::<RuleModel, ClientFault>(
                        fault,
                    ) && forall|j: int| 0 <= j < i ==> read_rule(#[trigger] fewer[j]) is Ok;
                assert(docs[i] == fewer[i]);
                assert forall|j: int| 0 <= j < i implies read_rule(#[trigger] docs[j]) is Ok by {
                    assert(fewer[j] == docs[j]);
                }
            },
            Ok(rules) => {
                assert forall|j: int| 0 <= j < last implies read_rule(#[trigger] docs[j])
                    == Ok::<RuleModel, ClientFault>(rules[j]) by {
                    assert(fewer[j] == docs[j]);
                }
                assert(docs[last] == docs.last());
            },
        }
    }
}

/// All rules decide while private addresses are to go direct, and all but the built-in ones
/// while they are not.
pub proof fn all_rules_decide_but_the_built_in_ones(rules: Seq<RuleModel>, built_in: nat)
    requires
        built_in <= rules.len(),
    ensures
        in_force(rules, built_in, true) == rules,
        in_force(rules, built_in, false).len() == rules.len() - built_in,
        forall|i: int|
            0 <= i < rules.len() - built_in ==> #[trigger] in_force(rules, built_in, false)[i]
                == rules[built_in + i],
{
}

/// A rule can be used exactly where it has a name and its matcher can match something: a
/// prefix of at most 32 bits, a range that does not run backwards, a name or tail that is not
/// empty. Rules can be used where each of them can.
pub proof fn usable_rules_can_match(rules: Seq<RuleModel>, rule: RuleModel)
    ensures
        rule_fault(rule) is None <==> rule.name.len() > 0 && match rule.matcher {
            MatcherModel::Ip(_) => true,
            MatcherModel::Cidr(_, prefix) => prefix <= 32,
            MatcherModel::IpRange(lo, hi) => lo.spec_bits() <= hi.spec_bits(),
            MatcherModel::Domain(d) => d.len() > 0,
            MatcherModel::Suffix(s) => s.len() > 0,
        },
        rules_fault(rules) is None <==> forall|i: int|
            0 <= i < rules.len() ==> rule_fault(#[trigger] rules[i]) is None,
    decreases rules.len(),
{
    if rules.len() > 0 {
        let rest = rules.skip(1);
        usable_rules_can_match(rest, rule);
        assert(forall|i: int| 0 <= i < rest.len() ==> #[trigger] rest[i] == rules[i + 1]);
        if rule_fault(rules[0]) is None && rules_fault(rest) is None {
            assert forall|i: int| 0 <= i < rules.len() implies rule_fault(
                #[trigger] rules[i],
            ) is None by {
                if i > 0 {
                    assert(rest[i - 1] == rules[i]);
                }
            }
        }
    }
}

} // verus!
