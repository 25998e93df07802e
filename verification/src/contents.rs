//! What the sets of the table hold: what commands do to them, and what an update leaves in them.

use vstd::prelude::*;

use crate::blocks::law_aggregate_keeps_addresses;
use crate::config::Config;
use crate::cycle::is_request;
use crate::feeds::{
    entries_networks, law_every_entry_counts, law_list_holds_its_rows, law_whitelist_covers_configured, lies_in_list,
    merged, Lists,
};
use crate::github::{has_network_at, law_every_text_counts, mentions};
use crate::ipset::{lies_in_row, text_networks};
use crate::json::{has_key, only_key, Json, Member};
use crate::listing::{
    all_valid, bad_prefix, element_names, element_network, element_of, elements_of, entries_elements, entry_items,
    entry_ok, invalid_element, last_key, prefix_of, report_items, set_elements, set_has, set_ok,
    ElementView,
};
use crate::net::{
    all_truncated, all_wf, covered, law_network_addresses, lemma_covered, lemma_truncated, lies_in, lies_in_some, Family,
    IpNet,
};
use crate::netset::{lemma_listed, lemma_minus, lemma_normalized, minus, names, normalized};
use crate::objects::{
    all_read_back, element_commands, net_prefix, prerouting_commands, prerouting_rules, ListObjectView, ObjectView,
    PrefixView, BOGONS_IPV4_SET, BOGONS_IPV6_SET, GITHUB_WHITELIST_IPV4_SET, GITHUB_WHITELIST_IPV6_SET, L1_SET,
    L2_SET, WHITELIST_IPV4_SET, WHITELIST_IPV6_SET,
};
use crate::outside::parsed_network;
use crate::restore::all_present;
use crate::text::texts;
use crate::update::{
    held_by, law_settled_list_needs_nothing, list_commands, list_reads_back, lists_commands, sets_valid, set_name,
    Request, DOWNLOADED_SETS, NEEDED_SETS,
};
use crate::whitelist::{
    configured_commands, configured_read_back, given, github_commands, is_outermost, law_outermost_keeps_addresses,
    lemma_named_valid, lemma_outermost, named_networks, outermost, whitelist_commands,
};

verus! {

/// An element stands for a network.
pub open spec fn stands_for(prefix: PrefixView, net: IpNet) -> bool {
    element_names(ElementView::Prefix { addr: prefix.addr, len: prefix.len }, net)
}

/// One of the elements stands for a network.
pub open spec fn any_stands_for(elem: Seq<PrefixView>, net: IpNet) -> bool {
    exists|k: int| 0 <= k < elem.len() && stands_for(#[trigger] elem[k], net)
}

/// What the sets hold after a command: elements are added and deleted, and a set is emptied.
/// `holds` tells which networks the set of a name holds.
pub open spec fn after_command(
    holds: spec_fn(Seq<char>, IpNet) -> bool,
    command: ObjectView,
) -> spec_fn(Seq<char>, IpNet) -> bool {
    match command {
        ObjectView::Add(ListObjectView::Element { name, elem, .. }) => |set: Seq<char>, net: IpNet|
            holds(set, net) || set == name && any_stands_for(elem, net),
        ObjectView::Delete(ListObjectView::Element { name, elem, .. }) => |set: Seq<char>, net: IpNet|
            holds(set, net) && !(set == name && any_stands_for(elem, net)),
        ObjectView::Flush(ListObjectView::NetSet { name, .. }) => |set: Seq<char>, net: IpNet|
            holds(set, net) && set != name,
        _ => holds,
    }
}

/// What the sets hold after commands.
pub open spec fn after_commands(
    holds: spec_fn(Seq<char>, IpNet) -> bool,
    commands: Seq<ObjectView>,
) -> spec_fn(Seq<char>, IpNet) -> bool
    decreases commands.len(),
{
    if commands.len() == 0 {
        holds
    } else {
        after_command(after_commands(holds, commands.drop_last()), commands.last())
    }
}

/// Commands one after another.
proof fn lemma_one_after_another(
    holds: spec_fn(Seq<char>, IpNet) -> bool,
    first: Seq<ObjectView>,
    second: Seq<ObjectView>,
)
    ensures
        after_commands(holds, first + second) == after_commands(after_commands(holds, first), second),
    decreases second.len(),
{
    if second.len() == 0 {
        assert(first + second =~= first);
    } else {
        assert((first + second).drop_last() =~= first + second.drop_last());
        lemma_one_after_another(holds, first, second.drop_last());
    }
}

/// A single command.
proof fn lemma_single(holds: spec_fn(Seq<char>, IpNet) -> bool, command: ObjectView)
    ensures
        after_commands(holds, seq![command]) == after_command(holds, command),
{
    assert(seq![command].drop_last() =~= Seq::<ObjectView>::empty());
    assert(seq![command].last() == command);
    reveal_with_fuel(after_commands, 2);
}

/// What the elements of networks stand for.
proof fn lemma_stand_for(nets: Seq<IpNet>, net: IpNet)
    requires
        all_wf(nets),
        all_truncated(nets),
        all_read_back(nets),
    ensures
        any_stands_for(nets.map_values(|n: IpNet| net_prefix(n)), net) <==> nets.contains(net),
{
    let elem = nets.map_values(|n: IpNet| net_prefix(n));
    assert forall|k: int| 0 <= k < nets.len() implies (stands_for(#[trigger] elem[k], net) <==> nets[k] == net) by {
        lemma_truncated(nets[k]);
        assert(nets[k].truncated() == nets[k]);
        assert(elem[k] == net_prefix(nets[k]));
        assert(crate::objects::reads_back(nets[k]));
    }
    if any_stands_for(elem, net) {
        let k = choose|k: int| 0 <= k < elem.len() && stands_for(#[trigger] elem[k], net);
        assert(nets[k] == net);
    }
    if nets.contains(net) {
        let k = nets.index_of(net);
        assert(stands_for(elem[k], net));
    }
}

/// What the command on elements does.
proof fn lemma_element_commands(
    holds: spec_fn(Seq<char>, IpNet) -> bool,
    name: Seq<char>,
    nets: Seq<IpNet>,
    adding: bool,
    set: Seq<char>,
    net: IpNet,
)
    requires
        all_wf(nets),
        all_truncated(nets),
        all_read_back(nets),
    ensures
        after_commands(holds, element_commands(name, nets, adding))(set, net) == if adding {
            holds(set, net) || set == name && nets.contains(net)
        } else {
            holds(set, net) && !(set == name && nets.contains(net))
        },
{
    if nets.len() > 0 {
        lemma_stand_for(nets, net);
        let command = element_commands(name, nets, adding)[0];
        assert(element_commands(name, nets, adding) =~= seq![command]);
        lemma_single(holds, command);
    }
}

/// What the commands for a whitelist do: its set holds the outermost networks, and nothing else
/// changes.
proof fn lemma_whitelist_commands(
    holds: spec_fn(Seq<char>, IpNet) -> bool,
    name: Seq<char>,
    nets: Seq<IpNet>,
    family: Family,
    set: Seq<char>,
    net: IpNet,
)
    requires
        all_wf(nets),
        all_read_back(outermost(nets, family)),
    ensures
        after_commands(holds, whitelist_commands(name, nets, family))(set, net) == if set == name {
            is_outermost(nets, family, net)
        } else {
            holds(set, net)
        },
{
    let kept = outermost(nets, family);
    lemma_outermost(nets, family);
    assert forall|k: int| 0 <= k < kept.len() implies (#[trigger] kept[k]).wf() && kept[k].is_truncated() by {
        assert(kept.contains(kept[k]));
        lemma_named_valid(nets, kept[k]);
    }
    let flush = whitelist_commands(name, nets, family)[0];
    let rest = element_commands(name, kept, true);
    assert(whitelist_commands(name, nets, family) == seq![flush] + rest);
    lemma_one_after_another(holds, seq![flush], rest);
    lemma_single(holds, flush);
    lemma_element_commands(after_command(holds, flush), name, kept, true, set, net);
    assert(kept.contains(net) <==> is_outermost(nets, family, net));
}

/// What the commands for a list do: its set holds what the list names, and nothing else changes.
proof fn lemma_list_commands(
    holds: spec_fn(Seq<char>, IpNet) -> bool,
    name: Seq<char>,
    current: Seq<IpNet>,
    wanted: Seq<IpNet>,
    set: Seq<char>,
    net: IpNet,
)
    requires
        all_wf(current),
        all_truncated(current),
        all_wf(wanted),
        list_reads_back(current, wanted),
        holds(name, net) <==> current.contains(net),
    ensures
        after_commands(holds, list_commands(name, current, wanted))(set, net) == if set == name {
            names(wanted, net)
        } else {
            holds(set, net)
        },
{
    let goal = normalized(wanted);
    let gone = minus(current, goal);
    let fresh = minus(goal, current);
    lemma_normalized(wanted);
    lemma_minus(current, goal);
    lemma_minus(goal, current);
    assert forall|k: int| 0 <= k < gone.len() implies (#[trigger] gone[k]).wf() && gone[k].is_truncated() by {
        assert(gone.contains(gone[k]));
        let m = current.index_of(gone[k]);
        assert(current[m].wf() && current[m].is_truncated());
    }
    assert forall|k: int| 0 <= k < fresh.len() implies (#[trigger] fresh[k]).wf() && fresh[k].is_truncated() by {
        assert(fresh.contains(fresh[k]));
        assert(goal.contains(fresh[k]));
        lemma_named_valid(wanted, fresh[k]);
    }
    let deletions = element_commands(name, gone, false);
    let additions = element_commands(name, fresh, true);
    lemma_one_after_another(holds, deletions, additions);
    let middle = after_commands(holds, deletions);
    lemma_element_commands(holds, name, gone, false, set, net);
    lemma_element_commands(middle, name, fresh, true, set, net);
    assert(gone.contains(net) <==> current.contains(net) && !goal.contains(net));
    assert(fresh.contains(net) <==> goal.contains(net) && !current.contains(net));
    assert(goal.contains(net) <==> names(wanted, net));
}

/// The rules of the chain leave the sets as they are.
proof fn lemma_rules_change_no_set(holds: spec_fn(Seq<char>, IpNet) -> bool, log_blocked: bool)
    ensures
        after_commands(holds, prerouting_commands(log_blocked)) == holds,
{
    let commands = prerouting_commands(log_blocked);
    assert forall|i: int| 0 <= i < commands.len() implies is_neutral(#[trigger] commands[i]) by {
        if i > 0 {
            let rule = prerouting_rules(log_blocked)[i - 1];
            assert(commands[i] == ObjectView::Add(rule));
            assert(rule is Rule);
        }
    }
    lemma_neutral(holds, commands);
}

/// The command is about no elements.
spec fn is_neutral(command: ObjectView) -> bool {
    match command {
        ObjectView::Add(object) => !(object is Element),
        ObjectView::Delete(object) => !(object is Element),
        ObjectView::Flush(object) => !(object is NetSet),
    }
}

proof fn lemma_neutral(holds: spec_fn(Seq<char>, IpNet) -> bool, commands: Seq<ObjectView>)
    requires
        forall|i: int| 0 <= i < commands.len() ==> is_neutral(#[trigger] commands[i]),
    ensures
        after_commands(holds, commands) == holds,
    decreases commands.len(),
{
    if commands.len() > 0 {
        let front = commands.drop_last();
        assert forall|i: int| 0 <= i < front.len() implies is_neutral(#[trigger] front[i]) by {
            assert(front[i] == commands[i]);
        }
        lemma_neutral(holds, front);
        assert(is_neutral(commands[commands.len() - 1]));
    }
}

/// The sets of the table have different names.
proof fn lemma_names_differ()
    ensures
        forall|i: int, j: int|
            0 <= i < NEEDED_SETS && 0 <= j < NEEDED_SETS && #[trigger] set_name(i) == #[trigger] set_name(j) ==> i
                == j,
{
    reveal_strlit("FireholL1");
    reveal_strlit("FireholL2");
    reveal_strlit("FullBogonsIpv4");
    reveal_strlit("FullBogonsIpv6");
    reveal_strlit("firehol_whitelist_ipv4");
    reveal_strlit("firehol_whitelist_ipv6");
    reveal_strlit("GithubWhitelistIPv4");
    reveal_strlit("GithubWhitelistIPv6");
    assert(L1_SET@.len() == 9 && L1_SET@[8] == '1');
    assert(L2_SET@.len() == 9 && L2_SET@[8] == '2');
    assert(BOGONS_IPV4_SET@.len() == 14 && BOGONS_IPV4_SET@[13] == '4');
    assert(BOGONS_IPV6_SET@.len() == 14 && BOGONS_IPV6_SET@[13] == '6');
    assert(WHITELIST_IPV4_SET@.len() == 22 && WHITELIST_IPV4_SET@[21] == '4');
    assert(WHITELIST_IPV6_SET@.len() == 22 && WHITELIST_IPV6_SET@[21] == '6');
    assert(GITHUB_WHITELIST_IPV4_SET@.len() == 19 && GITHUB_WHITELIST_IPV4_SET@[18] == '4');
    assert(GITHUB_WHITELIST_IPV6_SET@.len() == 19 && GITHUB_WHITELIST_IPV6_SET@[18] == '6');
}

/// What was read of the sets is what they hold, as far as their lists are to be updated.
pub open spec fn was_held(
    holds: spec_fn(Seq<char>, IpNet) -> bool,
    request: Request,
    current: Seq<Seq<IpNet>>,
) -> bool {
    &&& current.len() == DOWNLOADED_SETS
    &&& sets_valid(current)
    &&& forall|i: int, net: IpNet|
        0 <= i < DOWNLOADED_SETS && request.lists@[i] is Some ==> (#[trigger] holds(set_name(i), net)
            <==> #[trigger] current[i].contains(net))
}

/// What the set of a list holds after the commands for the first `n` lists.
proof fn lemma_lists_commands(
    start: spec_fn(Seq<char>, IpNet) -> bool,
    request: Request,
    current: Seq<Seq<IpNet>>,
    n: nat,
    set: Seq<char>,
    net: IpNet,
)
    requires
        n <= DOWNLOADED_SETS,
        request.wf(),
        request.lists@.len() == DOWNLOADED_SETS,
        request.reads_back(current),
        was_held(start, request, current),
    ensures
        forall|i: int| 0 <= i < n && set == #[trigger] set_name(i) ==> after_commands(
            start,
            lists_commands(request.lists@, current, n),
        )(set, net) == match request.lists@[i] {
            Some(wanted) => names(wanted@, net),
            None => start(set, net),
        },
        (forall|i: int| 0 <= i < n ==> set != #[trigger] set_name(i)) ==> after_commands(
            start,
            lists_commands(request.lists@, current, n),
        )(set, net) == start(set, net),
    decreases n,
{
    if n > 0 {
        let m = (n - 1) as nat;
        let before = lists_commands(request.lists@, current, m);
        let middle = after_commands(start, before);
        lemma_names_differ();
        lemma_lists_commands(start, request, current, m, set, net);
        lemma_lists_commands(start, request, current, m, set_name(m as int), net);
        match request.lists@[m as int] {
            Some(wanted) => {
                let step = list_commands(set_name(m as int), current[m as int], wanted@);
                lemma_one_after_another(start, before, step);
                assert(start(set_name(m as int), net) <==> current[m as int].contains(net));
                assert(middle(set_name(m as int), net) == start(set_name(m as int), net));
                lemma_list_commands(middle, set_name(m as int), current[m as int], wanted@, set, net);
            },
            None => {
                assert(before + Seq::<ObjectView>::empty() =~= before);
            },
        }
    }
}

/// A configured whitelist names valid networks.
pub open spec fn values_valid(values: Option<Seq<String>>) -> bool {
    values matches Some(list) ==> all_wf(named_networks(list))
}

/// What the commands for a configured whitelist do.
proof fn lemma_configured(
    holds: spec_fn(Seq<char>, IpNet) -> bool,
    name: Seq<char>,
    values: Option<Seq<String>>,
    family: Family,
    set: Seq<char>,
    net: IpNet,
)
    requires
        values_valid(values),
        configured_read_back(values, family),
    ensures
        after_commands(holds, configured_commands(name, values, family))(set, net) == match values {
            Some(list) => if set == name {
                is_outermost(named_networks(list), family, net)
            } else {
                holds(set, net)
            },
            None => holds(set, net),
        },
{
    if let Some(list) = values {
        lemma_whitelist_commands(holds, name, named_networks(list), family, set, net);
    }
}

/// What the commands for the whitelists of GitHub do.
proof fn lemma_github(
    holds: spec_fn(Seq<char>, IpNet) -> bool,
    github: Option<Seq<IpNet>>,
    set: Seq<char>,
    net: IpNet,
)
    requires
        github matches Some(nets) ==> all_wf(nets) && all_read_back(outermost(nets, Family::V4)) && all_read_back(
            outermost(nets, Family::V6),
        ),
    ensures
        after_commands(holds, github_commands(github))(set, net) == match github {
            Some(nets) => if set == GITHUB_WHITELIST_IPV4_SET@ {
                is_outermost(nets, Family::V4, net)
            } else if set == GITHUB_WHITELIST_IPV6_SET@ {
                is_outermost(nets, Family::V6, net)
            } else {
                holds(set, net)
            },
            None => holds(set, net),
        },
{
    lemma_names_differ();
    assert(set_name(6) != set_name(7));
    if let Some(nets) = github {
        let ipv4 = whitelist_commands(GITHUB_WHITELIST_IPV4_SET@, nets, Family::V4);
        let ipv6 = whitelist_commands(GITHUB_WHITELIST_IPV6_SET@, nets, Family::V6);
        lemma_one_after_another(holds, ipv4, ipv6);
        lemma_whitelist_commands(holds, GITHUB_WHITELIST_IPV4_SET@, nets, Family::V4, set, net);
        lemma_whitelist_commands(
            after_commands(holds, ipv4),
            GITHUB_WHITELIST_IPV6_SET@,
            nets,
            Family::V6,
            set,
            net,
        );
    }
}

/// What the sets hold after the commands for the whitelists.
proof fn lemma_whitelists(holds: spec_fn(Seq<char>, IpNet) -> bool, request: Request, set: Seq<char>, net: IpNet)
    requires
        request.wf(),
        values_valid(given(request.whitelist_ipv4)),
        values_valid(given(request.whitelist_ipv6)),
        crate::whitelist::whitelists_read_back(
            given(request.whitelist_ipv4),
            given(request.whitelist_ipv6),
            given(request.github_networks),
        ),
    ensures
        after_commands(holds, request.whitelists())(set, net) == after_whitelists(holds, request, set, net),
{
    lemma_names_differ();
    assert(set_name(4) != set_name(5) && set_name(4) != set_name(6) && set_name(4) != set_name(7));
    assert(set_name(5) != set_name(6) && set_name(5) != set_name(7) && set_name(6) != set_name(7));
    let ipv4 = configured_commands(WHITELIST_IPV4_SET@, given(request.whitelist_ipv4), Family::V4);
    let ipv6 = configured_commands(WHITELIST_IPV6_SET@, given(request.whitelist_ipv6), Family::V6);
    let github = github_commands(given(request.github_networks));
    let first = after_commands(holds, ipv4);
    let second = after_commands(first, ipv6);
    lemma_one_after_another(holds, ipv4 + ipv6, github);
    lemma_one_after_another(holds, ipv4, ipv6);
    lemma_configured(holds, WHITELIST_IPV4_SET@, given(request.whitelist_ipv4), Family::V4, set, net);
    lemma_configured(first, WHITELIST_IPV6_SET@, given(request.whitelist_ipv6), Family::V6, set, net);
    lemma_github(second, given(request.github_networks), set, net);
}

/// Whether a set holds a network once the whitelists have been renewed: a whitelist that is given
/// holds its outermost networks of its family, and every other set what it held.
pub open spec fn after_whitelists(
    holds: spec_fn(Seq<char>, IpNet) -> bool,
    request: Request,
    set: Seq<char>,
    net: IpNet,
) -> bool {
    if set == WHITELIST_IPV4_SET@ && request.whitelist_ipv4 is Some {
        is_outermost(named_networks(request.whitelist_ipv4->0@), Family::V4, net)
    } else if set == WHITELIST_IPV6_SET@ && request.whitelist_ipv6 is Some {
        is_outermost(named_networks(request.whitelist_ipv6->0@), Family::V6, net)
    } else if set == GITHUB_WHITELIST_IPV4_SET@ && request.github_networks is Some {
        is_outermost(request.github_networks->0@, Family::V4, net)
    } else if set == GITHUB_WHITELIST_IPV6_SET@ && request.github_networks is Some {
        is_outermost(request.github_networks->0@, Family::V6, net)
    } else {
        holds(set, net)
    }
}

/// After the commands of an update, the set of every list that was given holds exactly what the
/// list names, every whitelist that was given holds its outermost networks, and every other set
/// holds what it held.
pub proof fn law_update_fills_the_sets(
    holds: spec_fn(Seq<char>, IpNet) -> bool,
    request: Request,
    current: Seq<Seq<IpNet>>,
    set: Seq<char>,
    net: IpNet,
)
    requires
        request.wf(),
        request.lists@.len() == DOWNLOADED_SETS,
        values_valid(given(request.whitelist_ipv4)),
        values_valid(given(request.whitelist_ipv6)),
        request.reads_back(current),
        was_held(holds, request, current),
    ensures
        forall|i: int|
            0 <= i < DOWNLOADED_SETS && set == #[trigger] set_name(i) ==> after_commands(
                holds,
                request.commands(current),
            )(set, net) == match request.lists@[i] {
                Some(wanted) => names(wanted@, net),
                None => holds(set, net),
            },
        (forall|i: int| 0 <= i < DOWNLOADED_SETS ==> set != #[trigger] set_name(i)) ==> after_commands(
            holds,
            request.commands(current),
        )(set, net) == after_whitelists(holds, request, set, net),
{
    let whitelists = request.whitelists();
    let lists = lists_commands(request.lists@, current, DOWNLOADED_SETS as nat);
    let rules = prerouting_commands(request.log_blocked);
    let middle = after_commands(holds, whitelists);
    let last = after_commands(middle, lists);
    lemma_one_after_another(holds, whitelists + lists, rules);
    lemma_one_after_another(holds, whitelists, lists);
    lemma_rules_change_no_set(last, request.log_blocked);
    lemma_names_differ();
    assert forall|i: int, n: IpNet| 0 <= i < DOWNLOADED_SETS implies #[trigger] middle(set_name(i), n) == holds(
        set_name(i),
        n,
    ) by {
        lemma_whitelists(holds, request, set_name(i), n);
        assert(set_name(i) != set_name(4) && set_name(i) != set_name(5));
        assert(set_name(i) != set_name(6) && set_name(i) != set_name(7));
    }
    assert(was_held(middle, request, current)) by {
        assert forall|i: int, n: IpNet| 0 <= i < DOWNLOADED_SETS && request.lists@[i] is Some implies (
        #[trigger] middle(set_name(i), n) <==> #[trigger] current[i].contains(n)) by {
            assert(middle(set_name(i), n) == holds(set_name(i), n));
        }
    }
    lemma_whitelists(holds, request, set, net);
    lemma_lists_commands(middle, request, current, DOWNLOADED_SETS as nat, set, net);
}

/// The set of a name holds the address `a` of `family`.
pub open spec fn in_set(holds: spec_fn(Seq<char>, IpNet) -> bool, set: Seq<char>, family: Family, a: int) -> bool {
    exists|net: IpNet| #[trigger] holds(set, net) && net.family == family && net.has(a)
}

/// A network that the metadata of GitHub names holds the address `a` of `family`.
pub open spec fn github_covers(document: Json, family: Family, a: int) -> bool {
    exists|net: IpNet| #[trigger] mentions(document, net) && net.family == family && net.has(a)
}

/// The addresses of a set that holds what a list names.
proof fn lemma_in_named_set(
    holds: spec_fn(Seq<char>, IpNet) -> bool,
    set: Seq<char>,
    nets: Seq<IpNet>,
    family: Family,
    a: int,
)
    requires
        all_wf(nets),
        forall|net: IpNet| #[trigger] holds(set, net) <==> names(nets, net),
    ensures
        in_set(holds, set, family, a) <==> covered(nets, family, a),
{
    if in_set(holds, set, family, a) {
        let net = choose|net: IpNet| #[trigger] holds(set, net) && net.family == family && net.has(a);
        let i = choose|i: int| 0 <= i < nets.len() && (#[trigger] nets[i]).truncated() == net;
        lemma_truncated(nets[i]);
        assert(nets[i].has(a));
    }
    if covered(nets, family, a) {
        let i = choose|i: int| 0 <= i < nets.len() && (#[trigger] nets[i]).family == family && nets[i].has(a);
        lemma_truncated(nets[i]);
        let net = nets[i].truncated();
        assert(names(nets, net));
        assert(holds(set, net));
    }
}

/// The addresses of a set that holds the outermost networks of its family.
proof fn lemma_in_outermost_set(
    holds: spec_fn(Seq<char>, IpNet) -> bool,
    set: Seq<char>,
    nets: Seq<IpNet>,
    family: Family,
    a: int,
)
    requires
        forall|net: IpNet| #[trigger] holds(set, net) <==> is_outermost(nets, family, net),
    ensures
        in_set(holds, set, family, a) <==> covered(outermost(nets, family), family, a),
{
    let kept = outermost(nets, family);
    lemma_outermost(nets, family);
    if in_set(holds, set, family, a) {
        let net = choose|net: IpNet| #[trigger] holds(set, net) && net.family == family && net.has(a);
        assert(kept.contains(net));
        let i = kept.index_of(net);
        assert(kept[i].family == family && kept[i].has(a));
    }
    if covered(kept, family, a) {
        let i = choose|i: int| 0 <= i < kept.len() && (#[trigger] kept[i]).family == family && kept[i].has(a);
        assert(kept.contains(kept[i]));
        assert(holds(set, kept[i]));
    }
}

/// The networks that a whitelist of the configuration names are valid.
proof fn lemma_whitelist_valid(whitelist: Seq<String>, family: Family, list: Seq<String>)
    requires
        crate::feeds::is_whitelist(whitelist, family, list),
    ensures
        all_wf(named_networks(list)),
{
    let named = named_networks(list);
    let blocks = crate::blocks::aggregate_of(entries_networks(texts(whitelist)));
    assert forall|i: int| 0 <= i < named.len() implies (#[trigger] named[i]).wf() by {
        assert(named.contains(named[i]));
        assert(blocks.contains(named[i]));
    }
}

/// What the set of a fetched list holds covers what the list names.
proof fn lemma_list_set(
    after: spec_fn(Seq<char>, IpNet) -> bool,
    set: Seq<char>,
    text: String,
    nets: Option<Vec<IpNet>>,
    family: Family,
    a: int,
)
    requires
        crate::cycle::is_fetched(Some(text), nets),
        nets matches Some(list) ==> all_wf(list@),
        nets matches Some(list) ==> forall|net: IpNet| #[trigger] after(set, net) <==> names(list@, net),
    ensures
        in_set(after, set, family, a) <==> covered(text_networks(text@), family, a),
{
    let list = nets->0@;
    assert(list == merged(text@));
    lemma_in_named_set(after, set, list, family, a);
    law_aggregate_keeps_addresses(text_networks(text@), list);
    assert(covered(text_networks(text@), family, a) <==> covered(list, family, a));
}

/// After an update with every list, as a restoration, a reconciliation or a cycle that fetched
/// every feed makes it, each set covers exactly the addresses of its list in its latest text, the
/// whitelist sets cover exactly what the configuration names, and the sets of GitHub exactly what
/// its metadata names.
pub proof fn law_table_is_reconciled(
    holds: spec_fn(Seq<char>, IpNet) -> bool,
    request: Request,
    config: Config,
    lists: Lists<String>,
    document: Json,
    current: Seq<Seq<IpNet>>,
    family: Family,
    a: int,
)
    requires
        is_request(request, config, all_present(lists), Some(document)),
        request.reads_back(current),
        was_held(holds, request, current),
    ensures
        ({
            let after = after_commands(holds, request.commands(current));
            let configured = entries_networks(texts(config.whitelist@));
            &&& in_set(after, L1_SET@, family, a) <==> covered(text_networks(lists.l1@), family, a)
            &&& in_set(after, L2_SET@, family, a) <==> covered(text_networks(lists.l2@), family, a)
            &&& in_set(after, BOGONS_IPV4_SET@, family, a) <==> covered(text_networks(lists.bogons_ipv4@), family, a)
            &&& in_set(after, BOGONS_IPV6_SET@, family, a) <==> covered(text_networks(lists.bogons_ipv6@), family, a)
            &&& in_set(after, WHITELIST_IPV4_SET@, Family::V4, a) <==> covered(configured, Family::V4, a)
            &&& in_set(after, WHITELIST_IPV6_SET@, Family::V6, a) <==> covered(configured, Family::V6, a)
            &&& in_set(after, GITHUB_WHITELIST_IPV4_SET@, Family::V4, a) <==> github_covers(document, Family::V4, a)
            &&& in_set(after, GITHUB_WHITELIST_IPV6_SET@, Family::V6, a) <==> github_covers(document, Family::V6, a)
        }),
{
    let after = after_commands(holds, request.commands(current));
    let ipv4 = request.whitelist_ipv4->0@;
    let ipv6 = request.whitelist_ipv6->0@;
    let github = request.github_networks->0@;
    lemma_whitelist_valid(config.whitelist@, Family::V4, ipv4);
    lemma_whitelist_valid(config.whitelist@, Family::V6, ipv6);
    assert forall|i: int, net: IpNet| 0 <= i < NEEDED_SETS implies #[trigger] after(set_name(i), net) == if i
        < DOWNLOADED_SETS {
        names(request.lists@[i]->0@, net)
    } else {
        after_whitelists(holds, request, set_name(i), net)
    } by {
        lemma_names_differ();
        law_update_fills_the_sets(holds, request, current, set_name(i), net);
        assert(request.lists@[0] is Some && request.lists@[1] is Some);
        assert(request.lists@[2] is Some && request.lists@[3] is Some);
    }
    assert forall|net: IpNet| #[trigger] after(L1_SET@, net) <==> names(request.lists@[0]->0@, net) by {
        assert(after(set_name(0), net) <==> names(request.lists@[0]->0@, net));
    }
    assert forall|net: IpNet| #[trigger] after(L2_SET@, net) <==> names(request.lists@[1]->0@, net) by {
        assert(after(set_name(1), net) <==> names(request.lists@[1]->0@, net));
    }
    assert forall|net: IpNet| #[trigger] after(BOGONS_IPV4_SET@, net) <==> names(request.lists@[2]->0@, net) by {
        assert(after(set_name(2), net) <==> names(request.lists@[2]->0@, net));
    }
    assert forall|net: IpNet| #[trigger] after(BOGONS_IPV6_SET@, net) <==> names(request.lists@[3]->0@, net) by {
        assert(after(set_name(3), net) <==> names(request.lists@[3]->0@, net));
    }
    lemma_list_set(after, L1_SET@, lists.l1, request.lists@[0], family, a);
    lemma_list_set(after, L2_SET@, lists.l2, request.lists@[1], family, a);
    lemma_list_set(after, BOGONS_IPV4_SET@, lists.bogons_ipv4, request.lists@[2], family, a);
    lemma_list_set(after, BOGONS_IPV6_SET@, lists.bogons_ipv6, request.lists@[3], family, a);
    lemma_names_differ();
    assert(set_name(4) != set_name(5) && set_name(4) != set_name(6) && set_name(4) != set_name(7));
    assert(set_name(5) != set_name(6) && set_name(5) != set_name(7) && set_name(6) != set_name(7));
    assert forall|net: IpNet| #[trigger] after(WHITELIST_IPV4_SET@, net) <==> is_outermost(
        named_networks(ipv4),
        Family::V4,
        net,
    ) by {
        assert(after(set_name(4), net) == after_whitelists(holds, request, set_name(4), net));
    }
    assert forall|net: IpNet| #[trigger] after(WHITELIST_IPV6_SET@, net) <==> is_outermost(
        named_networks(ipv6),
        Family::V6,
        net,
    ) by {
        assert(after(set_name(5), net) == after_whitelists(holds, request, set_name(5), net));
    }
    assert forall|net: IpNet| #[trigger] after(GITHUB_WHITELIST_IPV4_SET@, net) <==> is_outermost(
        github,
        Family::V4,
        net,
    ) by {
        assert(after(set_name(6), net) == after_whitelists(holds, request, set_name(6), net));
    }
    assert forall|net: IpNet| #[trigger] after(GITHUB_WHITELIST_IPV6_SET@, net) <==> is_outermost(
        github,
        Family::V6,
        net,
    ) by {
        assert(after(set_name(7), net) == after_whitelists(holds, request, set_name(7), net));
    }
    lemma_in_outermost_set(after, WHITELIST_IPV4_SET@, named_networks(ipv4), Family::V4, a);
    lemma_in_outermost_set(after, WHITELIST_IPV6_SET@, named_networks(ipv6), Family::V6, a);
    law_whitelist_covers_configured(config.whitelist@, Family::V4, ipv4, a);
    law_whitelist_covers_configured(config.whitelist@, Family::V6, ipv6, a);
    lemma_in_outermost_set(after, GITHUB_WHITELIST_IPV4_SET@, github, Family::V4, a);
    lemma_in_outermost_set(after, GITHUB_WHITELIST_IPV6_SET@, github, Family::V6, a);
    lemma_github_addresses(document, github, Family::V4, a);
    lemma_github_addresses(document, github, Family::V6, a);
}

/// The outermost networks of the metadata cover what it names.
proof fn lemma_github_addresses(document: Json, nets: Seq<IpNet>, family: Family, a: int)
    requires
        all_wf(nets),
        crate::github::is_ranges(document, nets),
    ensures
        covered(outermost(nets, family), family, a) <==> github_covers(document, family, a),
{
    lemma_outermost(nets, family);
    law_outermost_keeps_addresses(nets, family, outermost(nets, family), a);
    if covered(nets, family, a) {
        let i = choose|i: int| 0 <= i < nets.len() && (#[trigger] nets[i]).family == family && nets[i].has(a);
        assert(nets.contains(nets[i]));
        assert(mentions(document, nets[i]));
    }
    if github_covers(document, family, a) {
        let net = choose|net: IpNet| #[trigger] mentions(document, net) && net.family == family && net.has(a);
        assert(nets.contains(net));
        let i = nets.index_of(net);
        assert(nets[i].family == family && nets[i].has(a));
    }
}

/// How an element is written in JSON: a prefix with its address and its length.
pub open spec fn is_element_json(item: Json, prefix: PrefixView) -> bool {
    match item {
        Json::Object(members) => {
            &&& members@.len() == 1
            &&& members@[0].key@ == "prefix"@
            &&& match members@[0].value {
                Json::Object(parts) => {
                    &&& parts@.len() == 2
                    &&& parts@[0].key@ == "addr"@
                    &&& parts@[0].value matches Json::Text(addr) && addr@ == prefix.addr
                    &&& parts@[1].key@ == "len"@
                    &&& parts@[1].value == Json::Unsigned(prefix.len as u64)
                },
                _ => false,
            }
        },
        _ => false,
    }
}

/// The only member with a key.
proof fn lemma_only_key(members: Seq<Member>, key: Seq<char>, i: int)
    requires
        only_key(members, key, i),
    ensures
        (choose|k: int| only_key(members, key, k)) == i,
{
    let k = choose|k: int| only_key(members, key, k);
    assert(only_key(members, key, k));
    assert(has_key(members, key, i) && has_key(members, key, k));
}

/// An element in JSON is read as the prefix that it was written for.
proof fn lemma_element_json(item: Json, prefix: PrefixView)
    requires
        is_element_json(item, prefix),
    ensures
        element_of(item) == Some(ElementView::Prefix { addr: prefix.addr, len: prefix.len }),
{
    let members = item->Object_0@;
    let record = members[0].value;
    let parts = record->Object_0@;
    reveal_strlit("addr");
    reveal_strlit("len");
    assert("addr"@.len() == 4 && "len"@.len() == 3);
    assert(has_key(parts, "addr"@, 0) && has_key(parts, "len"@, 1));
    assert(only_key(parts, "addr"@, 0));
    assert(only_key(parts, "len"@, 1));
    lemma_only_key(parts, "addr"@, 0);
    lemma_only_key(parts, "len"@, 1);
    assert(prefix_of(record) == Some(ElementView::Prefix { addr: prefix.addr, len: prefix.len }));
    assert(has_key(members, "prefix"@, 0));
    assert(last_key(members, "prefix"@, 0));
    let k = choose|k: int| last_key(members, "prefix"@, k);
    assert(last_key(members, "prefix"@, k));
    assert(has_key(members, "prefix"@, k));
    assert forall|i: int| !(#[trigger] bad_prefix(members, i)) by {}
}

/// The report of a set shows the elements of the networks: of its two entries the first brings
/// no elements, and the second brings those of the networks.
pub open spec fn shows(report: Json, items: Seq<Json>, nets: Seq<IpNet>) -> bool {
    &&& report_items(report) matches Some(entries) && entries.len() == 2 && entry_items(entries[0]) == Some(
        Seq::<Json>::empty(),
    ) && entry_items(entries[1]) == Some(items)
    &&& items.len() == nets.len()
    &&& forall|k: int| 0 <= k < items.len() ==> is_element_json(#[trigger] items[k], net_prefix(nets[k]))
}

/// What was written is read back: a set that is reported with the elements of a command holds the
/// networks of the command, each named by its lowest address. An update with the same list then
/// deletes and adds nothing.
pub proof fn law_written_elements_are_read_back(
    report: Json,
    items: Seq<Json>,
    name: Seq<char>,
    networks: Seq<IpNet>,
)
    requires
        all_wf(networks),
        all_read_back(networks),
        shows(report, items, networks),
    ensures
        set_ok(report),
        all_valid(set_elements(report)),
        forall|net: IpNet| #[trigger] set_has(report, net) <==> names(networks, net),
        held_by(report) == normalized(networks),
        list_commands(name, held_by(report), networks) == Seq::<ObjectView>::empty(),
{
    let entries = report_items(report)->0;
    let elements = set_elements(report);
    assert forall|k: int| 0 <= k < items.len() implies #[trigger] element_of(items[k]) == Some(
        ElementView::Prefix { addr: net_prefix(networks[k]).addr, len: net_prefix(networks[k]).len },
    ) by {
        lemma_element_json(items[k], net_prefix(networks[k]));
    }
    assert(entry_ok(entries[0]));
    assert(entry_ok(entries[1]));
    assert(elements =~= elements_of(items)) by {
        assert(entries.drop_last().drop_last() =~= Seq::<Json>::empty());
        assert(entries.drop_last().last() == entries[0]);
        reveal_with_fuel(entries_elements, 3);
        assert(elements_of(Seq::<Json>::empty()) =~= Seq::<ElementView>::empty());
    }
    assert forall|k: int| 0 <= k < elements.len() implies !invalid_element(#[trigger] elements[k]) && element_network(
        elements[k],
    ) == Some(networks[k].truncated()) by {
        assert(element_of(items[k]) is Some);
        assert(crate::objects::reads_back(networks[k]));
    }
    assert forall|net: IpNet| #[trigger] set_has(report, net) <==> names(networks, net) by {
        if set_has(report, net) {
            let k = choose|k: int| 0 <= k < elements.len() && element_names(#[trigger] set_elements(report)[k], net);
            lemma_truncated(networks[k]);
            assert(networks[k].truncated() == net);
        }
        if names(networks, net) {
            let k = choose|k: int| 0 <= k < networks.len() && (#[trigger] networks[k]).truncated() == net;
            lemma_truncated(networks[k]);
            assert(element_names(set_elements(report)[k], net));
        }
    }
    lemma_normalized(networks);
    lemma_listed(normalized(networks), |net: IpNet| set_has(report, net));
    law_settled_list_needs_nothing(name, held_by(report), networks);
}

/// The address `a` of the family lies in a network that the set of a name holds.
pub open spec fn address_in(holds: spec_fn(Seq<char>, IpNet) -> bool, set: Seq<char>, family: Family, a: int) -> bool {
    exists|net: IpNet| #[trigger] holds(set, net) && net.family == family && lies_in(a, net)
}

/// A set of valid networks holds an address exactly if it lies in one of them.
proof fn lemma_address_in(holds: spec_fn(Seq<char>, IpNet) -> bool, set: Seq<char>, family: Family, a: int)
    requires
        forall|net: IpNet| #[trigger] holds(set, net) ==> net.wf(),
    ensures
        in_set(holds, set, family, a) <==> address_in(holds, set, family, a),
{
    assert forall|net: IpNet| #[trigger] holds(set, net) implies (net.has(a) <==> lies_in(a, net)) by {
        law_network_addresses(net, a);
    }
    if in_set(holds, set, family, a) {
        let net = choose|net: IpNet| #[trigger] holds(set, net) && net.family == family && net.has(a);
        assert(holds(set, net) && lies_in(a, net));
    }
    if address_in(holds, set, family, a) {
        let net = choose|net: IpNet| #[trigger] holds(set, net) && net.family == family && lies_in(a, net);
        assert(holds(set, net) && net.has(a));
    }
}

/// A set that holds what it held has the addresses that it had.
proof fn lemma_same_addresses(
    after: spec_fn(Seq<char>, IpNet) -> bool,
    holds: spec_fn(Seq<char>, IpNet) -> bool,
    set: Seq<char>,
    family: Family,
    a: int,
)
    requires
        forall|net: IpNet| #[trigger] after(set, net) == holds(set, net),
    ensures
        address_in(after, set, family, a) <==> address_in(holds, set, family, a),
{
    if address_in(holds, set, family, a) {
        let net = choose|net: IpNet| #[trigger] holds(set, net) && net.family == family && lies_in(a, net);
        assert(after(set, net));
    }
}

/// The addresses of the set of a list.
proof fn lemma_list_rows(
    after: spec_fn(Seq<char>, IpNet) -> bool,
    holds: spec_fn(Seq<char>, IpNet) -> bool,
    set: Seq<char>,
    text: Option<String>,
    nets: Option<Vec<IpNet>>,
    family: Family,
    a: int,
)
    requires
        crate::cycle::is_fetched(text, nets),
        nets matches Some(list) ==> all_wf(list@),
        forall|net: IpNet| #[trigger] after(set, net) == match nets {
            Some(list) => names(list@, net),
            None => holds(set, net),
        },
    ensures
        address_in(after, set, family, a) <==> match text {
            Some(text) => lies_in_row(a, family, text@),
            None => address_in(holds, set, family, a),
        },
{
    match nets {
        Some(list) => {
            assert forall|net: IpNet| #[trigger] after(set, net) implies net.wf() by {
                lemma_named_valid(list@, net);
            }
            lemma_address_in(after, set, family, a);
            lemma_in_named_set(after, set, list@, family, a);
            lemma_covered(list@, family, a);
            law_list_holds_its_rows(text->0@, family, a);
        },
        None => {
            lemma_same_addresses(after, holds, set, family, a);
        },
    }
}

/// The addresses of a set that holds the outermost networks of its family.
proof fn lemma_outermost_addresses(
    after: spec_fn(Seq<char>, IpNet) -> bool,
    set: Seq<char>,
    nets: Seq<IpNet>,
    family: Family,
    a: int,
)
    requires
        all_wf(nets),
        forall|net: IpNet| #[trigger] after(set, net) <==> is_outermost(nets, family, net),
    ensures
        address_in(after, set, family, a) <==> lies_in_some(a, family, nets),
{
    assert forall|net: IpNet| #[trigger] after(set, net) implies net.wf() by {
        lemma_named_valid(nets, net);
    }
    lemma_address_in(after, set, family, a);
    lemma_in_outermost_set(after, set, nets, family, a);
    lemma_outermost(nets, family);
    law_outermost_keeps_addresses(nets, family, outermost(nets, family), a);
    lemma_covered(nets, family, a);
}

/// The addresses of the set of a configured whitelist.
proof fn lemma_whitelist_rows(
    after: spec_fn(Seq<char>, IpNet) -> bool,
    set: Seq<char>,
    whitelist: Seq<String>,
    family: Family,
    list: Seq<String>,
    a: int,
)
    requires
        crate::feeds::is_whitelist(whitelist, family, list),
        forall|net: IpNet| #[trigger] after(set, net) <==> is_outermost(named_networks(list), family, net),
    ensures
        address_in(after, set, family, a) <==> exists|i: int|
            0 <= i < whitelist.len() && lies_in_row(a, family, (#[trigger] whitelist[i])@),
{
    let named = named_networks(list);
    lemma_whitelist_valid(whitelist, family, list);
    lemma_outermost_addresses(after, set, named, family, a);
    law_every_entry_counts(whitelist, family, list, a);
    if lies_in_some(a, family, named) {
        let k = choose|k: int| 0 <= k < named.len() && (#[trigger] named[k]).family == family && lies_in(a, named[k]);
        assert(parsed_network(list[k]@) == Some(named[k]));
    }
    if lies_in_list(a, family, list) {
        let k = choose|k: int| 0 <= k < list.len() && (parsed_network((#[trigger] list[k])@) matches Some(net) && net.family
            == family && lies_in(a, net));
        assert(named[k].family == family && lies_in(a, named[k]));
    }
}

/// The addresses of a set of GitHub.
proof fn lemma_github_rows(
    after: spec_fn(Seq<char>, IpNet) -> bool,
    set: Seq<char>,
    document: Json,
    family: Family,
    nets: Seq<IpNet>,
    a: int,
)
    requires
        all_wf(nets),
        crate::github::is_ranges(document, nets),
        forall|net: IpNet| #[trigger] after(set, net) <==> is_outermost(nets, family, net),
    ensures
        address_in(after, set, family, a) <==> exists|path: Seq<int>, net: IpNet| #[trigger]
            has_network_at(document, path, net) && net.family == family && lies_in(a, net.truncated()),
{
    lemma_outermost_addresses(after, set, nets, family, a);
    if lies_in_some(a, family, nets) {
        let k = choose|k: int| 0 <= k < nets.len() && (#[trigger] nets[k]).family == family && lies_in(a, nets[k]);
        assert(nets.contains(nets[k]));
        law_every_text_counts(document, nets, nets[k]);
        let (path, net) = choose|path: Seq<int>, net: IpNet| #[trigger]
            has_network_at(document, path, net) && net.truncated() == nets[k];
        assert(has_network_at(document, path, net) && net.family == family);
    }
    assert forall|path: Seq<int>, net: IpNet| #[trigger]
        has_network_at(document, path, net) && net.family == family && lies_in(a, net.truncated()) implies lies_in_some(
        a,
        family,
        nets,
    ) by {
        law_every_text_counts(document, nets, net.truncated());
        let k = nets.index_of(net.truncated());
        assert(nets[k].family == family && lies_in(a, nets[k]));
    }
}

/// After an update the sets hold what the texts say, row by row. The set of a list that was given
/// has exactly the addresses of its rows, and of another those that it had. The whitelists have
/// exactly the addresses of the rows in all entries of the configuration, and those of GitHub the
/// addresses of the networks that stand anywhere in its metadata, where that was given.
pub proof fn law_sets_hold_what_the_texts_say(
    holds: spec_fn(Seq<char>, IpNet) -> bool,
    request: Request,
    config: Config,
    lists: Lists<Option<String>>,
    github: Option<Json>,
    current: Seq<Seq<IpNet>>,
    family: Family,
    a: int,
)
    requires
        is_request(request, config, lists, github),
        request.reads_back(current),
        was_held(holds, request, current),
    ensures
        ({
            let after = after_commands(holds, request.commands(current));
            &&& address_in(after, "FireholL1"@, family, a) <==> match lists.l1 {
                Some(text) => lies_in_row(a, family, text@),
                None => address_in(holds, "FireholL1"@, family, a),
            }
            &&& address_in(after, "FireholL2"@, family, a) <==> match lists.l2 {
                Some(text) => lies_in_row(a, family, text@),
                None => address_in(holds, "FireholL2"@, family, a),
            }
            &&& address_in(after, "FullBogonsIpv4"@, family, a) <==> match lists.bogons_ipv4 {
                Some(text) => lies_in_row(a, family, text@),
                None => address_in(holds, "FullBogonsIpv4"@, family, a),
            }
            &&& address_in(after, "FullBogonsIpv6"@, family, a) <==> match lists.bogons_ipv6 {
                Some(text) => lies_in_row(a, family, text@),
                None => address_in(holds, "FullBogonsIpv6"@, family, a),
            }
            &&& address_in(after, "firehol_whitelist_ipv4"@, Family::V4, a) <==> exists|i: int|
                0 <= i < config.whitelist@.len() && lies_in_row(a, Family::V4, (#[trigger] config.whitelist@[i])@)
            &&& address_in(after, "firehol_whitelist_ipv6"@, Family::V6, a) <==> exists|i: int|
                0 <= i < config.whitelist@.len() && lies_in_row(a, Family::V6, (#[trigger] config.whitelist@[i])@)
            &&& address_in(after, "GithubWhitelistIPv4"@, Family::V4, a) <==> match github {
                Some(document) => exists|path: Seq<int>, net: IpNet| #[trigger]
                    has_network_at(document, path, net) && net.family is V4 && lies_in(a, net.truncated()),
                None => address_in(holds, "GithubWhitelistIPv4"@, Family::V4, a),
            }
            &&& address_in(after, "GithubWhitelistIPv6"@, Family::V6, a) <==> match github {
                Some(document) => exists|path: Seq<int>, net: IpNet| #[trigger]
                    has_network_at(document, path, net) && net.family is V6 && lies_in(a, net.truncated()),
                None => address_in(holds, "GithubWhitelistIPv6"@, Family::V6, a),
            }
        }),
{
    let after = after_commands(holds, request.commands(current));
    let ipv4 = request.whitelist_ipv4->0@;
    let ipv6 = request.whitelist_ipv6->0@;
    lemma_whitelist_valid(config.whitelist@, Family::V4, ipv4);
    lemma_whitelist_valid(config.whitelist@, Family::V6, ipv6);
    lemma_names_differ();
    assert(set_name(4) != set_name(5) && set_name(4) != set_name(6) && set_name(4) != set_name(7));
    assert(set_name(5) != set_name(6) && set_name(5) != set_name(7) && set_name(6) != set_name(7));
    assert forall|net: IpNet| #[trigger] after(L1_SET@, net) == (match request.lists@[0] {
        Some(list) => names(list@, net),
        None => holds(L1_SET@, net),
    }) by {
        law_update_fills_the_sets(holds, request, current, set_name(0), net);
    }
    lemma_list_rows(after, holds, L1_SET@, lists.l1, request.lists@[0], family, a);
    assert forall|net: IpNet| #[trigger] after(L2_SET@, net) == (match request.lists@[1] {
        Some(list) => names(list@, net),
        None => holds(L2_SET@, net),
    }) by {
        law_update_fills_the_sets(holds, request, current, set_name(1), net);
    }
    lemma_list_rows(after, holds, L2_SET@, lists.l2, request.lists@[1], family, a);
    assert forall|net: IpNet| #[trigger] after(BOGONS_IPV4_SET@, net) == (match request.lists@[2] {
        Some(list) => names(list@, net),
        None => holds(BOGONS_IPV4_SET@, net),
    }) by {
        law_update_fills_the_sets(holds, request, current, set_name(2), net);
    }
    lemma_list_rows(after, holds, BOGONS_IPV4_SET@, lists.bogons_ipv4, request.lists@[2], family, a);
    assert forall|net: IpNet| #[trigger] after(BOGONS_IPV6_SET@, net) == (match request.lists@[3] {
        Some(list) => names(list@, net),
        None => holds(BOGONS_IPV6_SET@, net),
    }) by {
        law_update_fills_the_sets(holds, request, current, set_name(3), net);
    }
    lemma_list_rows(after, holds, BOGONS_IPV6_SET@, lists.bogons_ipv6, request.lists@[3], family, a);
    assert forall|net: IpNet| #[trigger] after(WHITELIST_IPV4_SET@, net) <==> is_outermost(
        named_networks(ipv4),
        Family::V4,
        net,
    ) by {
        law_update_fills_the_sets(holds, request, current, set_name(4), net);
    }
    lemma_whitelist_rows(after, WHITELIST_IPV4_SET@, config.whitelist@, Family::V4, ipv4, a);
    assert forall|net: IpNet| #[trigger] after(WHITELIST_IPV6_SET@, net) <==> is_outermost(
        named_networks(ipv6),
        Family::V6,
        net,
    ) by {
        law_update_fills_the_sets(holds, request, current, set_name(5), net);
    }
    lemma_whitelist_rows(after, WHITELIST_IPV6_SET@, config.whitelist@, Family::V6, ipv6, a);
    assert forall|net: IpNet| #[trigger] after(GITHUB_WHITELIST_IPV4_SET@, net) == (match request.github_networks {
        Some(nets) => is_outermost(nets@, Family::V4, net),
        None => holds(GITHUB_WHITELIST_IPV4_SET@, net),
    }) by {
        law_update_fills_the_sets(holds, request, current, set_name(6), net);
    }
    if let Some(document) = github {
        lemma_github_rows(after, GITHUB_WHITELIST_IPV4_SET@, document, Family::V4, request.github_networks->0@, a);
    } else {
        lemma_same_addresses(after, holds, GITHUB_WHITELIST_IPV4_SET@, Family::V4, a);
    }
    assert forall|net: IpNet| #[trigger] after(GITHUB_WHITELIST_IPV6_SET@, net) == (match request.github_networks {
        Some(nets) => is_outermost(nets@, Family::V6, net),
        None => holds(GITHUB_WHITELIST_IPV6_SET@, net),
    }) by {
        law_update_fills_the_sets(holds, request, current, set_name(7), net);
    }
    if let Some(document) = github {
        lemma_github_rows(after, GITHUB_WHITELIST_IPV6_SET@, document, Family::V6, request.github_networks->0@, a);
    } else {
        lemma_same_addresses(after, holds, GITHUB_WHITELIST_IPV6_SET@, Family::V6, a);
    }
}

} // verus!
