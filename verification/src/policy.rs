//! What the rules of the chain do to a packet.

use vstd::prelude::*;

use crate::objects::{
    prerouting_rules, ListObjectView, StatementView, BOGONS_IPV4_SET, BOGONS_IPV6_SET, GITHUB_WHITELIST_IPV4_SET,
    GITHUB_WHITELIST_IPV6_SET, L1_SET, L2_SET, WHITELIST_IPV4_SET, WHITELIST_IPV6_SET,
};

verus! {

/// What becomes of a packet.
pub enum Verdict {
    Accept,
    Drop,
    /// No rule settles it: the policy of the chain decides.
    Undecided,
}

/// The verdict of a list of statements. A match that fails ends the list, and a log entry does
/// not settle anything. `source_in` tells which sets, as rules refer to them, hold the source of
/// the packet.
pub open spec fn statements_verdict(
    statements: Seq<StatementView>,
    protocol: Seq<char>,
    source_in: spec_fn(Seq<char>) -> bool,
) -> Verdict
    decreases statements.len(),
{
    if statements.len() == 0 {
        Verdict::Undecided
    } else {
        match statements[0] {
            StatementView::MatchIn { protocol: wanted, field, right } => if wanted == protocol && field
                == "saddr"@ && source_in(right) {
                statements_verdict(statements.drop_first(), protocol, source_in)
            } else {
                Verdict::Undecided
            },
            StatementView::Log { .. } => statements_verdict(statements.drop_first(), protocol, source_in),
            StatementView::Accept => Verdict::Accept,
            StatementView::Drop => Verdict::Drop,
        }
    }
}

/// The verdict of a rule.
pub open spec fn rule_verdict(
    rule: ListObjectView,
    protocol: Seq<char>,
    source_in: spec_fn(Seq<char>) -> bool,
) -> Verdict {
    match rule {
        ListObjectView::Rule { expr, .. } => statements_verdict(expr, protocol, source_in),
        _ => Verdict::Undecided,
    }
}

/// The verdict of the rules: that of the first rule that settles the packet.
pub open spec fn rules_verdict(
    rules: Seq<ListObjectView>,
    protocol: Seq<char>,
    source_in: spec_fn(Seq<char>) -> bool,
) -> Verdict
    decreases rules.len(),
{
    if rules.len() == 0 {
        Verdict::Undecided
    } else {
        match rule_verdict(rules[0], protocol, source_in) {
            Verdict::Undecided => rules_verdict(rules.drop_first(), protocol, source_in),
            settled => settled,
        }
    }
}

/// How a rule refers to a set.
pub open spec fn reference(set: Seq<char>) -> Seq<char> {
    "@"@ + set
}

/// The verdict of an accept rule.
proof fn lemma_accept(protocol: Seq<char>, set: Seq<char>, packet: Seq<char>, source_in: spec_fn(Seq<char>) -> bool)
    ensures
        rule_verdict(crate::objects::accept_rule_view(protocol, set), packet, source_in) == if protocol == packet
            && source_in(reference(set)) {
            Verdict::Accept
        } else {
            Verdict::Undecided
        },
{
    let rest = seq![StatementView::Accept];
    let all = seq![StatementView::MatchIn { protocol, field: "saddr"@, right: "@"@ + set }] + rest;
    assert(all.drop_first() =~= rest);
    reveal_with_fuel(statements_verdict, 3);
}

/// The verdict of a drop rule.
proof fn lemma_drop(
    protocol: Seq<char>,
    set: Seq<char>,
    log_blocked: bool,
    packet: Seq<char>,
    source_in: spec_fn(Seq<char>) -> bool,
)
    ensures
        rule_verdict(crate::objects::drop_rule_view(protocol, set, log_blocked), packet, source_in) == if protocol
            == packet && source_in(reference(set)) {
            Verdict::Drop
        } else {
            Verdict::Undecided
        },
{
    let rest = crate::objects::drop_statements(set, log_blocked);
    let all = seq![StatementView::MatchIn { protocol, field: "saddr"@, right: "@"@ + set }] + rest;
    assert(all.drop_first() =~= rest);
    if log_blocked {
        assert(rest.drop_first() =~= seq![StatementView::Drop]);
    }
    reveal_with_fuel(statements_verdict, 4);
}

/// The verdict of rules from the `i`th on.
proof fn lemma_from(rules: Seq<ListObjectView>, i: int, packet: Seq<char>, source_in: spec_fn(Seq<char>) -> bool)
    requires
        0 <= i < rules.len(),
    ensures
        rules_verdict(rules.skip(i), packet, source_in) == match rule_verdict(rules[i], packet, source_in) {
            Verdict::Undecided => rules_verdict(rules.skip(i + 1), packet, source_in),
            settled => settled,
        },
{
    assert(rules.skip(i).drop_first() =~= rules.skip(i + 1));
}

proof fn lemma_all_rules(log_blocked: bool, packet: Seq<char>, source_in: spec_fn(Seq<char>) -> bool)
    ensures
        packet == "ip"@ ==> rules_verdict(prerouting_rules(log_blocked), packet, source_in) == ipv4_verdict(source_in),
        packet == "ip6"@ ==> rules_verdict(prerouting_rules(log_blocked), packet, source_in) == ipv6_verdict(source_in),
{
    let rules = prerouting_rules(log_blocked);
    reveal_strlit("ip");
    reveal_strlit("ip6");
    assert("ip"@.len() == 2 && "ip6"@.len() == 3);
    lemma_accept("ip"@, WHITELIST_IPV4_SET@, packet, source_in);
    lemma_accept("ip"@, GITHUB_WHITELIST_IPV4_SET@, packet, source_in);
    lemma_drop("ip"@, BOGONS_IPV4_SET@, log_blocked, packet, source_in);
    lemma_drop("ip"@, L1_SET@, log_blocked, packet, source_in);
    lemma_drop("ip"@, L2_SET@, log_blocked, packet, source_in);
    lemma_accept("ip6"@, WHITELIST_IPV6_SET@, packet, source_in);
    lemma_accept("ip6"@, GITHUB_WHITELIST_IPV6_SET@, packet, source_in);
    lemma_drop("ip6"@, BOGONS_IPV6_SET@, log_blocked, packet, source_in);
    lemma_from(rules, 0, packet, source_in);
    lemma_from(rules, 1, packet, source_in);
    lemma_from(rules, 2, packet, source_in);
    lemma_from(rules, 3, packet, source_in);
    lemma_from(rules, 4, packet, source_in);
    lemma_from(rules, 5, packet, source_in);
    lemma_from(rules, 6, packet, source_in);
    lemma_from(rules, 7, packet, source_in);
    assert(rules.skip(0) =~= rules);
    assert(rules.skip(8).len() == 0);
}

/// The verdict on an IPv4 packet: a whitelist saves it, and else a list blocks it.
pub open spec fn ipv4_verdict(source_in: spec_fn(Seq<char>) -> bool) -> Verdict {
    if source_in(reference(WHITELIST_IPV4_SET@)) || source_in(reference(GITHUB_WHITELIST_IPV4_SET@)) {
        Verdict::Accept
    } else if source_in(reference(BOGONS_IPV4_SET@)) || source_in(reference(L1_SET@)) || source_in(
        reference(L2_SET@),
    ) {
        Verdict::Drop
    } else {
        Verdict::Undecided
    }
}

/// The verdict on an IPv6 packet: a whitelist saves it, and else the list blocks it.
pub open spec fn ipv6_verdict(source_in: spec_fn(Seq<char>) -> bool) -> Verdict {
    if source_in(reference(WHITELIST_IPV6_SET@)) || source_in(reference(GITHUB_WHITELIST_IPV6_SET@)) {
        Verdict::Accept
    } else if source_in(reference(BOGONS_IPV6_SET@)) {
        Verdict::Drop
    } else {
        Verdict::Undecided
    }
}

/// An IPv4 packet from a whitelist is accepted, whatever the lists say; another from a list is
/// dropped; and any other is left to the policy of the chain. Logging changes nothing of it.
pub proof fn law_ipv4_packets(log_blocked: bool, source_in: spec_fn(Seq<char>) -> bool)
    ensures
        rules_verdict(prerouting_rules(log_blocked), "ip"@, source_in) == ipv4_verdict(source_in),
{
    lemma_all_rules(log_blocked, "ip"@, source_in);
}

/// The same of IPv6 packets.
pub proof fn law_ipv6_packets(log_blocked: bool, source_in: spec_fn(Seq<char>) -> bool)
    ensures
        rules_verdict(prerouting_rules(log_blocked), "ip6"@, source_in) == ipv6_verdict(source_in),
{
    lemma_all_rules(log_blocked, "ip6"@, source_in);
}

/// What becomes of a packet, set by set: a packet from a whitelist of its family is accepted; else
/// one from a list of its family is dropped; and else no rule settles it.
pub proof fn law_packets_by_set(log_blocked: bool, source_in: spec_fn(Seq<char>) -> bool)
    ensures
        ({
            let saved = source_in("@"@ + "firehol_whitelist_ipv4"@) || source_in("@"@ + "GithubWhitelistIPv4"@);
            let blocked = source_in("@"@ + "FullBogonsIpv4"@) || source_in("@"@ + "FireholL1"@) || source_in(
                "@"@ + "FireholL2"@,
            );
            let verdict = rules_verdict(prerouting_rules(log_blocked), "ip"@, source_in);
            &&& saved ==> verdict is Accept
            &&& !saved && blocked ==> verdict is Drop
            &&& !saved && !blocked ==> verdict is Undecided
        }),
        ({
            let saved = source_in("@"@ + "firehol_whitelist_ipv6"@) || source_in("@"@ + "GithubWhitelistIPv6"@);
            let blocked = source_in("@"@ + "FullBogonsIpv6"@);
            let verdict = rules_verdict(prerouting_rules(log_blocked), "ip6"@, source_in);
            &&& saved ==> verdict is Accept
            &&& !saved && blocked ==> verdict is Drop
            &&& !saved && !blocked ==> verdict is Undecided
        }),
{
    law_ipv4_packets(log_blocked, source_in);
    law_ipv6_packets(log_blocked, source_in);
}

} // verus!
