//! The nftables objects that the service creates, and the commands on them.

use vstd::arithmetic::power2::pow2;
use vstd::prelude::*;
use vstd::string::StringExecFns;

use crate::listing::prefix_network;
use crate::net::{all_wf, Family, IpNet};
use crate::outside::{address_text, format_address};

verus! {

/// The table that holds everything the service owns.
pub const TABLE: &'static str = "firehol";

/// The chain in which packets are matched against the sets.
pub const PREROUTING_CHAIN: &'static str = "firehol_prerouting";

/// The priority of the chain.
pub const PREROUTING_PRIORITY: i32 = -500;

pub const L1_SET: &'static str = "FireholL1";

pub const L2_SET: &'static str = "FireholL2";

pub const BOGONS_IPV4_SET: &'static str = "FullBogonsIpv4";

pub const BOGONS_IPV6_SET: &'static str = "FullBogonsIpv6";

pub const WHITELIST_IPV4_SET: &'static str = "firehol_whitelist_ipv4";

pub const WHITELIST_IPV6_SET: &'static str = "firehol_whitelist_ipv6";

pub const GITHUB_WHITELIST_IPV4_SET: &'static str = "GithubWhitelistIPv4";

pub const GITHUB_WHITELIST_IPV6_SET: &'static str = "GithubWhitelistIPv6";

/// The family of the table and of all objects in it.
#[derive(Clone, Copy, Debug, PartialEq, Eq, Structural)]
pub enum NfFamily {
    INet,
}

/// What the elements of a set are.
#[derive(Clone, Copy, Debug, PartialEq, Eq, Structural)]
pub enum SetType {
    Ipv4Addr,
    Ipv6Addr,
}

#[derive(Clone, Copy, Debug, PartialEq, Eq, Structural)]
pub enum NfChainType {
    Filter,
}

#[derive(Clone, Copy, Debug, PartialEq, Eq, Structural)]
pub enum NfHook {
    Prerouting,
}

#[derive(Clone, Copy, Debug, PartialEq, Eq, Structural)]
pub enum NfChainPolicy {
    Accept,
}

/// Where a chain is attached, and what becomes of a packet that no rule settles.
#[derive(Clone, Copy, Debug, PartialEq, Eq, Structural)]
pub struct BaseChain {
    pub chain_type: NfChainType,
    pub hook: NfHook,
    pub prio: i32,
    pub policy: NfChainPolicy,
}

/// A statement of a rule.
#[derive(Clone, Debug, PartialEq, Eq)]
pub enum Statement {
    /// Goes on if the field of the packet is among `right`.
    MatchIn { protocol: String, field: String, right: String },
    Log { prefix: String },
    Accept,
    Drop,
}

/// A network as an element of a set.
#[derive(Clone, Debug, PartialEq, Eq)]
pub struct Prefix {
    pub addr: String,
    pub len: u8,
}

/// An object of a table.
#[derive(Clone, Debug, PartialEq, Eq)]
pub enum NfListObject {
    Table { family: NfFamily, name: String },
    Chain { family: NfFamily, table: String, name: String, base: Option<BaseChain> },
    NetSet { family: NfFamily, table: String, name: String, set_type: SetType, interval: bool },
    Rule { family: NfFamily, table: String, chain: String, expr: Vec<Statement> },
    Element { family: NfFamily, table: String, name: String, elem: Vec<Prefix> },
}

/// A command to nftables.
#[derive(Clone, Debug, PartialEq, Eq)]
pub enum NfObject {
    Add(NfListObject),
    Delete(NfListObject),
    Flush(NfListObject),
}

/// The content of a statement.
pub enum StatementView {
    MatchIn { protocol: Seq<char>, field: Seq<char>, right: Seq<char> },
    Log { prefix: Seq<char> },
    Accept,
    Drop,
}

/// The content of an element.
pub struct PrefixView {
    pub addr: Seq<char>,
    pub len: u8,
}

/// The content of an object.
pub enum ListObjectView {
    Table { family: NfFamily, name: Seq<char> },
    Chain { family: NfFamily, table: Seq<char>, name: Seq<char>, base: Option<BaseChain> },
    NetSet { family: NfFamily, table: Seq<char>, name: Seq<char>, set_type: SetType, interval: bool },
    Rule { family: NfFamily, table: Seq<char>, chain: Seq<char>, expr: Seq<StatementView> },
    Element { family: NfFamily, table: Seq<char>, name: Seq<char>, elem: Seq<PrefixView> },
}

/// The content of a command.
pub enum ObjectView {
    Add(ListObjectView),
    Delete(ListObjectView),
    Flush(ListObjectView),
}

impl View for Statement {
    type V = StatementView;

    open spec fn view(&self) -> StatementView {
        match *self {
            Statement::MatchIn { protocol, field, right } => StatementView::MatchIn {
                protocol: protocol@,
                field: field@,
                right: right@,
            },
            Statement::Log { prefix } => StatementView::Log { prefix: prefix@ },
            Statement::Accept => StatementView::Accept,
            Statement::Drop => StatementView::Drop,
        }
    }
}

impl View for Prefix {
    type V = PrefixView;

    open spec fn view(&self) -> PrefixView {
        PrefixView { addr: self.addr@, len: self.len }
    }
}

/// The contents of a list of statements.
pub open spec fn statement_views(list: Seq<Statement>) -> Seq<StatementView> {
    list.map_values(|s: Statement| s@)
}

/// The contents of a list of elements.
pub open spec fn prefix_views(list: Seq<Prefix>) -> Seq<PrefixView> {
    list.map_values(|p: Prefix| p@)
}

impl View for NfListObject {
    type V = ListObjectView;

    open spec fn view(&self) -> ListObjectView {
        match *self {
            NfListObject::Table { family, name } => ListObjectView::Table { family, name: name@ },
            NfListObject::Chain { family, table, name, base } => ListObjectView::Chain {
                family,
                table: table@,
                name: name@,
                base,
            },
            NfListObject::NetSet { family, table, name, set_type, interval } => ListObjectView::NetSet {
                family,
                table: table@,
                name: name@,
                set_type,
                interval,
            },
            NfListObject::Rule { family, table, chain, expr } => ListObjectView::Rule {
                family,
                table: table@,
                chain: chain@,
                expr: statement_views(expr@),
            },
            NfListObject::Element { family, table, name, elem } => ListObjectView::Element {
                family,
                table: table@,
                name: name@,
                elem: prefix_views(elem@),
            },
        }
    }
}

impl View for NfObject {
    type V = ObjectView;

    open spec fn view(&self) -> ObjectView {
        match *self {
            NfObject::Add(object) => ObjectView::Add(object@),
            NfObject::Delete(object) => ObjectView::Delete(object@),
            NfObject::Flush(object) => ObjectView::Flush(object@),
        }
    }
}

/// The contents of a list of commands.
pub open spec fn object_views(list: Seq<NfObject>) -> Seq<ObjectView> {
    list.map_values(|o: NfObject| o@)
}

/// The table itself.
pub open spec fn table_view() -> ListObjectView {
    ListObjectView::Table { family: NfFamily::INet, name: TABLE@ }
}

/// A set of the table.
pub open spec fn set_view(name: Seq<char>, set_type: SetType, interval: bool) -> ListObjectView {
    ListObjectView::NetSet { family: NfFamily::INet, table: TABLE@, name, set_type, interval }
}

/// The chain of the table.
pub open spec fn chain_view(base: Option<BaseChain>) -> ListObjectView {
    ListObjectView::Chain { family: NfFamily::INet, table: TABLE@, name: PREROUTING_CHAIN@, base }
}

/// A filter chain before routing, well ahead of others, that lets through what no rule settles.
pub open spec fn prerouting_base() -> BaseChain {
    BaseChain {
        chain_type: NfChainType::Filter,
        hook: NfHook::Prerouting,
        prio: PREROUTING_PRIORITY,
        policy: NfChainPolicy::Accept,
    }
}

/// A rule of the chain: if the source address is in `set`, then `statements`.
pub open spec fn rule_view(
    protocol: Seq<char>,
    set: Seq<char>,
    statements: Seq<StatementView>,
) -> ListObjectView {
    ListObjectView::Rule {
        family: NfFamily::INet,
        table: TABLE@,
        chain: PREROUTING_CHAIN@,
        expr: seq![
            StatementView::MatchIn { protocol, field: "saddr"@, right: "@"@ + set },
        ] + statements,
    }
}

/// What is logged before a packet is dropped.
pub open spec fn log_prefix(set: Seq<char>) -> Seq<char> {
    "Blocked Iodrive-"@ + set + ": "@
}

/// The statements of a rule that drops: a log entry if wanted, then the drop.
pub open spec fn drop_statements(set: Seq<char>, log_blocked: bool) -> Seq<StatementView> {
    if log_blocked {
        seq![StatementView::Log { prefix: log_prefix(set) }, StatementView::Drop]
    } else {
        seq![StatementView::Drop]
    }
}

/// A rule that accepts what comes from `set`.
pub open spec fn accept_rule_view(protocol: Seq<char>, set: Seq<char>) -> ListObjectView {
    rule_view(protocol, set, seq![StatementView::Accept])
}

/// A rule that drops what comes from `set`.
pub open spec fn drop_rule_view(protocol: Seq<char>, set: Seq<char>, log_blocked: bool) -> ListObjectView {
    rule_view(protocol, set, drop_statements(set, log_blocked))
}

/// The rules of the chain, in order.
pub open spec fn prerouting_rules(log_blocked: bool) -> Seq<ListObjectView> {
    seq![
        accept_rule_view("ip"@, WHITELIST_IPV4_SET@),
        accept_rule_view("ip"@, GITHUB_WHITELIST_IPV4_SET@),
        drop_rule_view("ip"@, BOGONS_IPV4_SET@, log_blocked),
        drop_rule_view("ip"@, L1_SET@, log_blocked),
        drop_rule_view("ip"@, L2_SET@, log_blocked),
        accept_rule_view("ip6"@, WHITELIST_IPV6_SET@),
        accept_rule_view("ip6"@, GITHUB_WHITELIST_IPV6_SET@),
        drop_rule_view("ip6"@, BOGONS_IPV6_SET@, log_blocked),
    ]
}

/// The commands that renew the chain: it is emptied, and every rule is added again.
pub open spec fn prerouting_commands(log_blocked: bool) -> Seq<ObjectView> {
    seq![ObjectView::Flush(chain_view(None))] + prerouting_rules(log_blocked).map_values(
        |rule: ListObjectView| ObjectView::Add(rule),
    )
}

/// The command that creates a set of networks.
pub fn set_command(name: &str, set_type: SetType) -> (command: NfObject)
    ensures
        command@ == ObjectView::Add(set_view(name@, set_type, true)),
{
    NfObject::Add(
        NfListObject::NetSet {
            family: NfFamily::INet,
            table: TABLE.to_owned(),
            name: name.to_owned(),
            set_type,
            interval: true,
        },
    )
}

/// The command that empties a set.
pub fn flush_set_command(name: &str, set_type: SetType) -> (command: NfObject)
    ensures
        command@ == ObjectView::Flush(set_view(name@, set_type, false)),
{
    NfObject::Flush(
        NfListObject::NetSet {
            family: NfFamily::INet,
            table: TABLE.to_owned(),
            name: name.to_owned(),
            set_type,
            interval: false,
        },
    )
}

/// The command that creates the table.
pub fn table_command() -> (command: NfObject)
    ensures
        command@ == ObjectView::Add(table_view()),
{
    NfObject::Add(NfListObject::Table { family: NfFamily::INet, name: TABLE.to_owned() })
}

/// The command that creates the chain.
pub fn chain_command() -> (command: NfObject)
    ensures
        command@ == ObjectView::Add(chain_view(Some(prerouting_base()))),
{
    NfObject::Add(
        NfListObject::Chain {
            family: NfFamily::INet,
            table: TABLE.to_owned(),
            name: PREROUTING_CHAIN.to_owned(),
            base: Some(
                BaseChain {
                    chain_type: NfChainType::Filter,
                    hook: NfHook::Prerouting,
                    prio: PREROUTING_PRIORITY,
                    policy: NfChainPolicy::Accept,
                },
            ),
        },
    )
}

/// The command that adds a rule to the chain: if the source address is in `set`, then `statements`.
pub fn rule_object(protocol: &str, set: &str, statements: Vec<Statement>) -> (command: NfObject)
    ensures
        command@ == ObjectView::Add(rule_view(protocol@, set@, statement_views(statements@))),
{
    let mut expr: Vec<Statement> = Vec::new();
    expr.push(
        Statement::MatchIn {
            protocol: protocol.to_owned(),
            field: "saddr".to_owned(),
            right: "@".to_owned().concat(set),
        },
    );
    let ghost given = statements@;
    let mut rest: Vec<Statement> = statements;
    expr.append(&mut rest);
    proof {
        assert(statement_views(expr@) =~= seq![expr@[0]@] + statement_views(given));
    }
    NfObject::Add(
        NfListObject::Rule {
            family: NfFamily::INet,
            table: TABLE.to_owned(),
            chain: PREROUTING_CHAIN.to_owned(),
            expr,
        },
    )
}

/// The command that adds a rule to drop what comes from `set`.
pub fn drop_rule(protocol: &str, set: &str, log_blocked: bool) -> (command: NfObject)
    ensures
        command@ == ObjectView::Add(drop_rule_view(protocol@, set@, log_blocked)),
{
    let mut statements: Vec<Statement> = Vec::new();
    if log_blocked {
        statements.push(
            Statement::Log { prefix: "Blocked Iodrive-".to_owned().concat(set).concat(": ") },
        );
    }
    statements.push(Statement::Drop);
    assert(statement_views(statements@) =~= drop_statements(set@, log_blocked));
    rule_object(protocol, set, statements)
}

/// The command that adds a rule to accept what comes from `set`.
fn accept_rule(protocol: &str, set: &str) -> (command: NfObject)
    ensures
        command@ == ObjectView::Add(accept_rule_view(protocol@, set@)),
{
    let mut statements: Vec<Statement> = Vec::new();
    statements.push(Statement::Accept);
    assert(statement_views(statements@) =~= seq![StatementView::Accept]);
    rule_object(protocol, set, statements)
}

/// Appends the commands that renew the chain: the whitelists of a family are accepted before
/// its lists are dropped.
pub fn append_prerouting_rules(commands: &mut Vec<NfObject>, log_blocked: bool)
    ensures
        object_views(final(commands)@) == object_views(old(commands)@) + prerouting_commands(log_blocked),
{
    commands.push(
        NfObject::Flush(
            NfListObject::Chain {
                family: NfFamily::INet,
                table: TABLE.to_owned(),
                name: PREROUTING_CHAIN.to_owned(),
                base: None,
            },
        ),
    );
    commands.push(accept_rule("ip", WHITELIST_IPV4_SET));
    commands.push(accept_rule("ip", GITHUB_WHITELIST_IPV4_SET));
    commands.push(drop_rule("ip", BOGONS_IPV4_SET, log_blocked));
    commands.push(drop_rule("ip", L1_SET, log_blocked));
    commands.push(drop_rule("ip", L2_SET, log_blocked));
    commands.push(accept_rule("ip6", WHITELIST_IPV6_SET));
    commands.push(accept_rule("ip6", GITHUB_WHITELIST_IPV6_SET));
    commands.push(drop_rule("ip6", BOGONS_IPV6_SET, log_blocked));
    assert(object_views(commands@) =~= object_views(old(commands)@) + prerouting_commands(log_blocked));
}

/// A network as an element: its lowest address and its prefix length.
pub open spec fn net_prefix(net: IpNet) -> PrefixView {
    PrefixView { addr: address_text(net.family, net.first() as u128), len: net.prefix_len }
}

/// The element of a network is read back as that network.
pub open spec fn reads_back(net: IpNet) -> bool {
    prefix_network(net_prefix(net).addr, net_prefix(net).len) == Some(net.truncated())
}

/// The elements of all networks are read back as those networks.
pub open spec fn all_read_back(nets: Seq<IpNet>) -> bool {
    forall|i: int| 0 <= i < nets.len() ==> reads_back(#[trigger] nets[i])
}

/// The elements for a list of networks.
pub open spec fn elements_view(name: Seq<char>, nets: Seq<IpNet>) -> ListObjectView {
    ListObjectView::Element {
        family: NfFamily::INet,
        table: TABLE@,
        name,
        elem: nets.map_values(|net: IpNet| net_prefix(net)),
    }
}

/// The command, if there is anything to do, that adds the networks to a set or deletes them.
pub open spec fn element_commands(name: Seq<char>, nets: Seq<IpNet>, add: bool) -> Seq<ObjectView> {
    if nets.len() == 0 {
        Seq::empty()
    } else if add {
        seq![ObjectView::Add(elements_view(name, nets))]
    } else {
        seq![ObjectView::Delete(elements_view(name, nets))]
    }
}

/// The elements are the networks, one for one: each has the lowest address of its network, as a
/// text, and the prefix length of its network.
pub open spec fn writes_networks(elem: Seq<Prefix>, nets: Seq<IpNet>) -> bool {
    &&& elem.len() == nets.len()
    &&& forall|k: int| 0 <= k < nets.len() ==> (#[trigger] elem[k]).len == nets[k].prefix_len
    &&& forall|k: int|
        0 <= k < nets.len() ==> (#[trigger] elem[k]).addr@ == match nets[k].family {
            Family::V4 => address_text(
                Family::V4,
                (nets[k].addr - nets[k].addr as int % pow2((32 - nets[k].prefix_len) as nat) as int) as u128,
            ),
            Family::V6 => address_text(
                Family::V6,
                (nets[k].addr - nets[k].addr as int % pow2((128 - nets[k].prefix_len) as nat) as int) as u128,
            ),
        }
}

/// The command that adds the networks to a set, or deletes them; none for no networks. Each
/// element is read back as its network.
pub fn named_element_command(name: &str, networks: &Vec<IpNet>, add: bool) -> (command: Option<NfObject>)
    requires
        all_wf(networks@),
    ensures
        command is None <==> networks@.len() == 0,
        command matches Some(c) ==> element_commands(name@, networks@, add) == seq![c@],
        command is Some ==> match command->0 {
            NfObject::Add(NfListObject::Element { family, table, name: set, elem }) => add && set@ == name@ && writes_networks(
                elem@,
                networks@,
            ),
            NfObject::Delete(NfListObject::Element { family, table, name: set, elem }) => !add && set@ == name@
                && writes_networks(elem@, networks@),
            _ => false,
        },
        all_read_back(networks@),
{
    if networks.len() == 0 {
        return None;
    }
    let mut elem: Vec<Prefix> = Vec::new();
    let mut i: usize = 0;
    while i < networks.len()
        invariant
            i <= networks@.len(),
            all_wf(networks@),
            elem@.len() == i,
            forall|k: int| 0 <= k < i ==> (#[trigger] elem@[k])@ == net_prefix(networks@[k]),
            forall|k: int| 0 <= k < i ==> reads_back(#[trigger] networks@[k]),
        decreases networks@.len() - i,
    {
        let net: IpNet = networks[i];
        proof {
            crate::net::lemma_range_fits(net);
        }
        elem.push(Prefix { addr: format_address(net.family, net.network()), len: net.prefix_len });
        i += 1;
    }
    assert(prefix_views(elem@) =~= networks@.map_values(|net: IpNet| net_prefix(net)));
    assert(writes_networks(elem@, networks@)) by {
        assert forall|k: int| 0 <= k < networks@.len() implies (#[trigger] elem@[k])@ == net_prefix(networks@[k]) by {}
    }
    let object: NfListObject = NfListObject::Element {
        family: NfFamily::INet,
        table: TABLE.to_owned(),
        name: name.to_owned(),
        elem,
    };
    if add {
        Some(NfObject::Add(object))
    } else {
        Some(NfObject::Delete(object))
    }
}

/// An element has the very prefix length of its network, and its lowest address: the address with
/// the bits behind the prefix set to zero. There is one element for each network, in order, and
/// the command is about the named set of the table.
pub proof fn law_element_is_its_network(name: Seq<char>, nets: Seq<IpNet>, adding: bool, k: int)
    requires
        0 <= k < nets.len(),
    ensures
        element_commands(name, nets, adding).len() == 1,
        ({
            let object = match element_commands(name, nets, adding)[0] {
                ObjectView::Add(object) => if adding {
                    Some(object)
                } else {
                    None
                },
                ObjectView::Delete(object) => if adding {
                    None
                } else {
                    Some(object)
                },
                ObjectView::Flush(_) => None,
            };
            object matches Some(ListObjectView::Element { family, table, name: set, elem }) && {
                &&& family == NfFamily::INet
                &&& table == "firehol"@
                &&& set == name
                &&& elem.len() == nets.len()
                &&& elem[k].len == nets[k].prefix_len
                &&& elem[k].addr == match nets[k].family {
                    Family::V4 => address_text(
                        Family::V4,
                        (nets[k].addr - nets[k].addr as int % pow2((32 - nets[k].prefix_len) as nat) as int) as u128,
                    ),
                    Family::V6 => address_text(
                        Family::V6,
                        (nets[k].addr - nets[k].addr as int % pow2((128 - nets[k].prefix_len) as nat) as int) as u128,
                    ),
                }
            }
        }),
{
}

/// Without networks there is no command on elements.
pub proof fn law_no_networks_no_command(name: Seq<char>, adding: bool)
    ensures
        element_commands(name, Seq::empty(), adding).len() == 0,
{
}

/// Every object belongs to the one table, under the name that it is given. The chain sees packets
/// before routing, well ahead of others, and lets through what no rule settles.
pub proof fn law_objects_of_the_table(name: Seq<char>, kind: SetType, interval: bool, base: Option<BaseChain>)
    ensures
        table_view() == (ListObjectView::Table { family: NfFamily::INet, name: "firehol"@ }),
        set_view(name, kind, interval) == (ListObjectView::NetSet {
            family: NfFamily::INet,
            table: "firehol"@,
            name,
            set_type: kind,
            interval,
        }),
        chain_view(base) == (ListObjectView::Chain {
            family: NfFamily::INet,
            table: "firehol"@,
            name: "firehol_prerouting"@,
            base,
        }),
        prerouting_base().chain_type == NfChainType::Filter,
        prerouting_base().hook == NfHook::Prerouting,
        prerouting_base().prio == -500,
        prerouting_base().policy == NfChainPolicy::Accept,
{
}

/// The rule matches the source address of packets of the protocol against the set.
pub open spec fn matches_source(rule: ListObjectView, protocol: Seq<char>, set: Seq<char>) -> bool {
    rule matches ListObjectView::Rule { family, table, chain, expr } && {
        &&& family == NfFamily::INet
        &&& table == "firehol"@
        &&& chain == "firehol_prerouting"@
        &&& expr.len() >= 1
        &&& expr[0] == (StatementView::MatchIn { protocol, field: "saddr"@, right: "@"@ + set })
    }
}

/// A rule that accepts does nothing else. A rule that drops logs before, if that is wanted, with
/// the name of the set, whichever set it is.
pub proof fn law_rules_do_as_they_say(protocol: Seq<char>, set: Seq<char>)
    ensures
        ({
            let accept = accept_rule_view(protocol, set);
            let quiet = drop_rule_view(protocol, set, false);
            let logged = drop_rule_view(protocol, set, true);
            &&& matches_source(accept, protocol, set) && accept->Rule_expr.len() == 2
            &&& accept->Rule_expr[1] == StatementView::Accept
            &&& matches_source(quiet, protocol, set) && quiet->Rule_expr.len() == 2
            &&& quiet->Rule_expr[1] == StatementView::Drop
            &&& matches_source(logged, protocol, set) && logged->Rule_expr.len() == 3
            &&& logged->Rule_expr[1] == (StatementView::Log { prefix: "Blocked Iodrive-"@ + set + ": "@ })
            &&& logged->Rule_expr[2] == StatementView::Drop
        }),
{
}

/// The chain is emptied, and then has eight rules: of each family the whitelists are accepted, and
/// then the lists are dropped.
pub proof fn law_chain_is_renewed(log_blocked: bool)
    ensures
        ({
            let commands = prerouting_commands(log_blocked);
            &&& commands.len() == 9
            &&& commands[0] == ObjectView::Flush(
                ListObjectView::Chain {
                    family: NfFamily::INet,
                    table: "firehol"@,
                    name: "firehol_prerouting"@,
                    base: None,
                },
            )
            &&& commands[1] == ObjectView::Add(accept_rule_view("ip"@, "firehol_whitelist_ipv4"@))
            &&& commands[2] == ObjectView::Add(accept_rule_view("ip"@, "GithubWhitelistIPv4"@))
            &&& commands[3] == ObjectView::Add(drop_rule_view("ip"@, "FullBogonsIpv4"@, log_blocked))
            &&& commands[4] == ObjectView::Add(drop_rule_view("ip"@, "FireholL1"@, log_blocked))
            &&& commands[5] == ObjectView::Add(drop_rule_view("ip"@, "FireholL2"@, log_blocked))
            &&& commands[6] == ObjectView::Add(accept_rule_view("ip6"@, "firehol_whitelist_ipv6"@))
            &&& commands[7] == ObjectView::Add(accept_rule_view("ip6"@, "GithubWhitelistIPv6"@))
            &&& commands[8] == ObjectView::Add(drop_rule_view("ip6"@, "FullBogonsIpv6"@, log_blocked))
        }),
{
}

/// A rule has its match and then all of its statements, in order.
pub proof fn law_rule_keeps_its_statements(protocol: Seq<char>, set: Seq<char>, statements: Seq<StatementView>, k: int)
    requires
        0 <= k < statements.len(),
    ensures
        matches_source(rule_view(protocol, set, statements), protocol, set),
        rule_view(protocol, set, statements)->Rule_expr.len() == statements.len() + 1,
        rule_view(protocol, set, statements)->Rule_expr[k + 1] == statements[k],
{
}

/// The content of an object is all of it: nothing is left out or exchanged.
pub proof fn law_content_is_all_of_an_object(object: NfListObject, k: int)
    ensures
        NfObject::Add(object)@ == ObjectView::Add(object@),
        NfObject::Delete(object)@ == ObjectView::Delete(object@),
        NfObject::Flush(object)@ == ObjectView::Flush(object@),
        match object {
            NfListObject::Table { family, name } => object@ == (ListObjectView::Table { family, name: name@ }),
            NfListObject::Chain { family, table, name, base } => object@ == (ListObjectView::Chain {
                family,
                table: table@,
                name: name@,
                base,
            }),
            NfListObject::NetSet { family, table, name, set_type, interval } => object@ == (ListObjectView::NetSet {
                family,
                table: table@,
                name: name@,
                set_type,
                interval,
            }),
            NfListObject::Rule { family, table, chain, expr } => object@ matches ListObjectView::Rule {
                family: f,
                table: t,
                chain: c,
                expr: content,
            } && f == family && t == table@ && c == chain@ && content.len() == expr@.len() && (0 <= k < expr@.len()
                ==> match expr@[k] {
                Statement::MatchIn { protocol, field, right } => content[k] == (StatementView::MatchIn {
                    protocol: protocol@,
                    field: field@,
                    right: right@,
                }),
                Statement::Log { prefix } => content[k] == (StatementView::Log { prefix: prefix@ }),
                Statement::Accept => content[k] == StatementView::Accept,
                Statement::Drop => content[k] == StatementView::Drop,
            }),
            NfListObject::Element { family, table, name, elem } => object@ matches ListObjectView::Element {
                family: f,
                table: t,
                name: n,
                elem: content,
            } && f == family && t == table@ && n == name@ && content.len() == elem@.len() && (0 <= k < elem@.len()
                ==> content[k].addr == elem@[k].addr@ && content[k].len == elem@[k].len),
        },
{
}

/// A run of commands is what its commands are, in order.
pub proof fn law_content_of_commands(commands: Seq<NfObject>, k: int)
    requires
        0 <= k < commands.len(),
    ensures
        object_views(commands).len() == commands.len(),
        object_views(commands)[k] == commands[k]@,
{
}

} // verus!
