//! Bringing the table in line with the lists.

use vstd::prelude::*;

use crate::json::Json;
use crate::listing::{
    all_valid, element_at, element_names, element_network, element_reads, first_invalid_element, has_text, is_readable,
    law_every_element_counts, read_set_elements, set_elements, set_has, set_ok, table_contents, table_lists, table_ok,
    ElementView, EntryView, ListedElement, SetListingError, TableContents,
};
use crate::net::{all_truncated, all_wf, ascending, net_lt, IpNet};
use crate::netset::{
    difference, lemma_listed, lemma_listed_exists, lemma_minus, lemma_normalized, listed, minus, names, normalize,
    normalized,
};
use crate::objects::{
    all_read_back, append_prerouting_rules, chain_command, chain_view, element_commands, named_element_command, object_views,
    prerouting_base, prerouting_commands, set_command, set_view, table_command, table_view, BaseChain, ListObjectView,
    NfChainPolicy, NfChainType, NfFamily, NfHook, NfObject, ObjectView, SetType, BOGONS_IPV4_SET, BOGONS_IPV6_SET,
    GITHUB_WHITELIST_IPV4_SET, GITHUB_WHITELIST_IPV6_SET, L1_SET, L2_SET, PREROUTING_CHAIN, WHITELIST_IPV4_SET,
    WHITELIST_IPV6_SET,
};
use crate::text::trimmed;
use crate::whitelist::{
    append_whitelist, first_unnamed, given, given_named, is_first_unnamed, law_every_value_counts, whitelist_updates,
    whitelists_read_back,
};

verus! {

/// How many sets are filled from downloaded lists.
pub const DOWNLOADED_SETS: usize = 4;

/// How many sets the table must have.
pub const NEEDED_SETS: usize = 8;

/// The name of the set at `i`. The sets of the downloaded lists come first.
pub open spec fn set_name(i: int) -> Seq<char> {
    if i == 0 {
        L1_SET@
    } else if i == 1 {
        L2_SET@
    } else if i == 2 {
        BOGONS_IPV4_SET@
    } else if i == 3 {
        BOGONS_IPV6_SET@
    } else if i == 4 {
        WHITELIST_IPV4_SET@
    } else if i == 5 {
        WHITELIST_IPV6_SET@
    } else if i == 6 {
        GITHUB_WHITELIST_IPV4_SET@
    } else {
        GITHUB_WHITELIST_IPV6_SET@
    }
}

/// What the set at `i` holds.
pub open spec fn set_type(i: int) -> SetType {
    if i == 3 || i == 5 || i >= 7 {
        SetType::Ipv6Addr
    } else {
        SetType::Ipv4Addr
    }
}

/// The name of the set at `i`, and what it holds.
pub fn needed_set(i: usize) -> (set: (&'static str, SetType))
    requires
        i < NEEDED_SETS,
    ensures
        set.0@ == set_name(i as int),
        set.1 == set_type(i as int),
{
    match i {
        0 => (L1_SET, SetType::Ipv4Addr),
        1 => (L2_SET, SetType::Ipv4Addr),
        2 => (BOGONS_IPV4_SET, SetType::Ipv4Addr),
        3 => (BOGONS_IPV6_SET, SetType::Ipv6Addr),
        4 => (WHITELIST_IPV4_SET, SetType::Ipv4Addr),
        5 => (WHITELIST_IPV6_SET, SetType::Ipv6Addr),
        6 => (GITHUB_WHITELIST_IPV4_SET, SetType::Ipv4Addr),
        _ => (GITHUB_WHITELIST_IPV6_SET, SetType::Ipv6Addr),
    }
}

/// The command that creates the set at `i`.
pub open spec fn create_set(i: int) -> ObjectView {
    ObjectView::Add(set_view(set_name(i), set_type(i), true))
}

/// The commands that create those of the first `n` sets that are not there.
pub open spec fn missing_sets(has_set: spec_fn(Seq<char>) -> bool, n: nat) -> Seq<ObjectView>
    decreases n,
{
    if n == 0 {
        Seq::empty()
    } else {
        let before = missing_sets(has_set, (n - 1) as nat);
        if has_set(set_name(n - 1)) {
            before
        } else {
            before.push(create_set(n - 1))
        }
    }
}

/// The command that creates the chain.
pub open spec fn create_chain() -> ObjectView {
    ObjectView::Add(chain_view(Some(prerouting_base())))
}

/// The commands that create what a table lacks: sets, and the chain.
pub open spec fn missing_commands(has_set: spec_fn(Seq<char>) -> bool, has_chain: bool) -> Seq<ObjectView> {
    missing_sets(has_set, NEEDED_SETS as nat) + if has_chain {
        Seq::empty()
    } else {
        seq![create_chain()]
    }
}

/// The commands that create what a reported table lacks.
pub open spec fn report_missing(report: Json) -> Seq<ObjectView> {
    missing_commands(
        |name: Seq<char>| table_lists(report, EntryView::NetSet(name)),
        table_lists(report, EntryView::Chain(PREROUTING_CHAIN@)),
    )
}

/// The commands that create all that an empty table lacks.
pub open spec fn all_missing() -> Seq<ObjectView> {
    missing_commands(|name: Seq<char>| false, false)
}

/// What is missing depends only on which sets are there.
proof fn lemma_missing_sets(a: spec_fn(Seq<char>) -> bool, b: spec_fn(Seq<char>) -> bool, n: nat)
    requires
        forall|name: Seq<char>| #[trigger] a(name) == b(name),
    ensures
        missing_sets(a, n) == missing_sets(b, n),
    decreases n,
{
    if n > 0 {
        lemma_missing_sets(a, b, (n - 1) as nat);
        assert(a(set_name(n - 1)) == b(set_name(n - 1)));
    }
}

/// Whether a list of strings has the text.
fn contains_text(list: &Vec<String>, text: &str) -> (has: bool)
    ensures
        has == has_text(list@, text@),
{
    let wanted: String = text.to_owned();
    let mut i: usize = 0;
    while i < list.len()
        invariant
            i <= list@.len(),
            wanted@ == text@,
            forall|k: int| 0 <= k < i ==> (#[trigger] list@[k])@ != text@,
        decreases list@.len() - i,
    {
        if list[i] == wanted {
            return true;
        }
        i += 1;
    }
    false
}

/// The commands that create what a table lacks.
pub fn missing_objects(contents: &TableContents) -> (missing: Vec<NfObject>)
    ensures
        object_views(missing@) == missing_commands(
            |name: Seq<char>| has_text(contents.sets@, name),
            has_text(contents.chains@, PREROUTING_CHAIN@),
        ),
{
    let ghost has_set = |name: Seq<char>| has_text(contents.sets@, name);
    let mut missing: Vec<NfObject> = Vec::new();
    let mut i: usize = 0;
    while i < NEEDED_SETS
        invariant
            i <= NEEDED_SETS,
            has_set == (|name: Seq<char>| has_text(contents.sets@, name)),
            object_views(missing@) =~= missing_sets(has_set, i as nat),
        decreases NEEDED_SETS - i,
    {
        let (name, kind): (&str, SetType) = needed_set(i);
        if !contains_text(&contents.sets, name) {
            missing.push(set_command(name, kind));
        }
        i += 1;
    }
    if !contains_text(&contents.chains, PREROUTING_CHAIN) {
        missing.push(chain_command());
    }
    assert(object_views(missing@) =~= missing_commands(has_set, has_text(contents.chains@, PREROUTING_CHAIN@)));
    missing
}

/// What must be done before the table has all that it needs.
#[derive(Debug)]
pub enum TablePlan {
    /// Create the table, and then what it lacks.
    CreateTable { table: Vec<NfObject>, missing: Vec<NfObject> },
    /// Create what the table lacks, which may be nothing.
    Complete { missing: Vec<NfObject> },
    /// The report of the table is not well formed.
    Malformed,
}

/// The report of a table is JSON and well formed.
pub open spec fn report_ok(report: Option<Json>) -> bool {
    match report {
        Some(r) => table_ok(r),
        None => false,
    }
}

/// Plans how the table gets all that it needs. `listed` tells whether the table could be listed;
/// `report` is what was reported, if it is JSON.
pub fn ensure_table_and_sets(listed: bool, report: &Option<Json>) -> (plan: TablePlan)
    ensures
        match plan {
            TablePlan::CreateTable { table, missing } => {
                &&& !listed
                &&& object_views(table@) == seq![ObjectView::Add(table_view())]
                &&& object_views(missing@) == all_missing()
            },
            TablePlan::Malformed => listed && !report_ok(*report),
            TablePlan::Complete { missing } => {
                &&& listed
                &&& report_ok(*report)
                &&& object_views(missing@) == report_missing(report->0)
            },
        },
{
    if !listed {
        let mut table: Vec<NfObject> = Vec::new();
        table.push(table_command());
        let nothing: TableContents = TableContents { sets: Vec::new(), chains: Vec::new() };
        let missing: Vec<NfObject> = missing_objects(&nothing);
        proof {
            assert(object_views(table@) =~= seq![ObjectView::Add(table_view())]);
            lemma_missing_sets(
                |name: Seq<char>| has_text(nothing.sets@, name),
                |name: Seq<char>| false,
                NEEDED_SETS as nat,
            );
        }
        return TablePlan::CreateTable { table, missing };
    }
    match report {
        None => TablePlan::Malformed,
        Some(report) => match table_contents(report) {
            None => TablePlan::Malformed,
            Some(contents) => {
                proof {
                    lemma_missing_sets(
                        |name: Seq<char>| has_text(contents.sets@, name),
                        |name: Seq<char>| table_lists(*report, EntryView::NetSet(name)),
                        NEEDED_SETS as nat,
                    );
                }
                TablePlan::Complete { missing: missing_objects(&contents) }
            },
        },
    }
}

/// Why commands were not run.
#[derive(Clone, Debug, PartialEq, Eq)]
pub enum RunError {
    /// The commands could not be written out.
    Stream,
    /// The commands were rejected, with this message.
    Rejected(String),
}

/// Whether commands were run: they were written out in full, and nft accepted them. `stderr` is
/// what nft had to say.
pub fn run_document(written: bool, accepted: bool, stderr: &str) -> (result: Result<(), RunError>)
    ensures
        match result {
            Ok(()) => written && accepted,
            Err(RunError::Stream) => !written,
            Err(RunError::Rejected(message)) => written && !accepted && message@ == trimmed(stderr@),
        },
{
    if !written {
        return Err(RunError::Stream);
    }
    if !accepted {
        return Err(RunError::Rejected(stderr.trim().to_owned()));
    }
    Ok(())
}

/// The commands that turn the elements of a set into the wanted networks: what is too much is
/// deleted, and then what is lacking is added.
pub open spec fn list_commands(name: Seq<char>, current: Seq<IpNet>, wanted: Seq<IpNet>) -> Seq<ObjectView> {
    element_commands(name, minus(current, normalized(wanted)), false) + element_commands(
        name,
        minus(normalized(wanted), current),
        true,
    )
}

/// The elements that are deleted and added are read back as their networks.
pub open spec fn list_reads_back(current: Seq<IpNet>, wanted: Seq<IpNet>) -> bool {
    all_read_back(minus(current, normalized(wanted))) && all_read_back(minus(normalized(wanted), current))
}

/// Appends the commands that turn the elements of a set into the wanted networks.
fn append_list(commands: &mut Vec<NfObject>, name: &str, current: &Vec<IpNet>, wanted: &Vec<IpNet>)
    requires
        ascending(current@),
        all_wf(current@),
        all_wf(wanted@),
    ensures
        object_views(final(commands)@) == object_views(old(commands)@) + list_commands(name@, current@, wanted@),
        list_reads_back(current@, wanted@),
{
    let desired: Vec<IpNet> = normalize(wanted);
    let deletions: Vec<IpNet> = difference(current, &desired);
    let additions: Vec<IpNet> = difference(&desired, current);
    proof {
        lemma_part_wf(deletions@, current@);
        lemma_part_wf(additions@, desired@);
    }
    if let Some(command) = named_element_command(name, &deletions, false) {
        commands.push(command);
    }
    if let Some(command) = named_element_command(name, &additions, true) {
        commands.push(command);
    }
    assert(object_views(commands@) =~= object_views(old(commands)@) + list_commands(name@, current@, wanted@));
}

/// Networks out of a valid list are valid.
proof fn lemma_part_wf(part: Seq<IpNet>, whole: Seq<IpNet>)
    requires
        all_wf(whole),
        forall|net: IpNet| #[trigger] part.contains(net) ==> whole.contains(net),
    ensures
        all_wf(part),
{
    assert forall|i: int| 0 <= i < part.len() implies (#[trigger] part[i]).wf() by {
        assert(part.contains(part[i]));
        let k = whole.index_of(part[i]);
        assert(whole[k].wf());
    }
}

/// How the size of a set changes.
#[derive(Clone, Copy, Debug, PartialEq, Eq, Structural)]
pub struct ListChange {
    pub before: usize,
    pub additions: usize,
    pub deletions: usize,
    pub after: usize,
}

/// How the size of a set changes when its elements become the wanted networks.
pub fn list_change(current: &Vec<IpNet>, wanted: &Vec<IpNet>) -> (change: ListChange)
    requires
        ascending(current@),
        all_wf(wanted@),
    ensures
        change.before == current@.len(),
        change.additions == minus(normalized(wanted@), current@).len(),
        change.deletions == minus(current@, normalized(wanted@)).len(),
        change.after == normalized(wanted@).len(),
        change.after == change.before + change.additions - change.deletions,
{
    let desired: Vec<IpNet> = normalize(wanted);
    let deletions: usize = difference(current, &desired).len();
    let additions: usize = difference(&desired, current).len();
    proof {
        lemma_sizes(current@, desired@);
    }
    ListChange { before: current.len(), additions, deletions, after: desired.len() }
}

/// An ascending list has as many networks as the set of them.
proof fn lemma_no_duplicates(nets: Seq<IpNet>)
    requires
        ascending(nets),
    ensures
        nets.to_set().len() == nets.len(),
        nets.to_set().finite(),
{
    assert forall|i: int, j: int| 0 <= i < nets.len() && 0 <= j < nets.len() && i != j implies nets[i] != nets[j] by {
        if i < j {
            assert(net_lt(nets[i], nets[j]));
        } else {
            assert(net_lt(nets[j], nets[i]));
        }
    }
    nets.unique_seq_to_set();
}

/// Two lists are as far apart in size as what each has and the other lacks.
proof fn lemma_sizes(a: Seq<IpNet>, b: Seq<IpNet>)
    requires
        ascending(a),
        ascending(b),
    ensures
        b.len() == a.len() + minus(b, a).len() - minus(a, b).len(),
{
    let gone = minus(a, b);
    let fresh = minus(b, a);
    lemma_minus(a, b);
    lemma_minus(b, a);
    lemma_no_duplicates(a);
    lemma_no_duplicates(b);
    lemma_no_duplicates(gone);
    lemma_no_duplicates(fresh);
    let common = a.to_set().intersect(b.to_set());
    assert(common.finite());
    assert(gone.to_set() + common =~= a.to_set()) by {
        assert forall|net: IpNet| (gone.to_set() + common).contains(net) <==> a.to_set().contains(net) by {
            assert(gone.contains(net) <==> a.contains(net) && !b.contains(net));
        }
    }
    assert(fresh.to_set() + common =~= b.to_set()) by {
        assert forall|net: IpNet| (fresh.to_set() + common).contains(net) <==> b.to_set().contains(net) by {
            assert(fresh.contains(net) <==> b.contains(net) && !a.contains(net));
        }
    }
    assert(gone.to_set().disjoint(common)) by {
        assert forall|net: IpNet| gone.to_set().contains(net) implies !common.contains(net) by {
            assert(gone.contains(net) <==> a.contains(net) && !b.contains(net));
        }
    }
    assert(fresh.to_set().disjoint(common)) by {
        assert forall|net: IpNet| fresh.to_set().contains(net) implies !common.contains(net) by {
            assert(fresh.contains(net) <==> b.contains(net) && !a.contains(net));
        }
    }
    vstd::set_lib::lemma_set_disjoint_lens(gone.to_set(), common);
    vstd::set_lib::lemma_set_disjoint_lens(fresh.to_set(), common);
}

/// The commands for the first `n` lists. A list without an update brings none.
pub open spec fn lists_commands(lists: Seq<Option<Vec<IpNet>>>, current: Seq<Seq<IpNet>>, n: nat) -> Seq<ObjectView>
    decreases n,
{
    if n == 0 {
        Seq::empty()
    } else {
        lists_commands(lists, current, (n - 1) as nat) + match lists[n - 1] {
            Some(wanted) => list_commands(set_name(n - 1), current[n - 1], wanted@),
            None => Seq::empty(),
        }
    }
}

/// What the sets are to become.
#[derive(Debug)]
pub struct Request {
    /// The wanted networks of each downloaded list; none where the list did not change.
    pub lists: Vec<Option<Vec<IpNet>>>,
    pub whitelist_ipv4: Option<Vec<String>>,
    pub whitelist_ipv6: Option<Vec<String>>,
    pub github_networks: Option<Vec<IpNet>>,
    pub log_blocked: bool,
}

impl Request {
    /// All networks are valid.
    pub open spec fn wf(self) -> bool {
        &&& forall|i: int|
            0 <= i < self.lists@.len() ==> ((#[trigger] self.lists@[i]) matches Some(nets) ==> all_wf(nets@))
        &&& self.github_networks matches Some(nets) ==> all_wf(nets@)
    }

    /// The values of both whitelists name networks.
    pub open spec fn whitelists_named(self) -> bool {
        given_named(self.whitelist_ipv4) && given_named(self.whitelist_ipv6)
    }

    /// The commands for the whitelists.
    pub open spec fn whitelists(self) -> Seq<ObjectView> {
        whitelist_updates(given(self.whitelist_ipv4), given(self.whitelist_ipv6), given(self.github_networks))
    }

    /// The elements of all commands are read back as their networks.
    pub open spec fn reads_back(self, current: Seq<Seq<IpNet>>) -> bool {
        &&& whitelists_read_back(given(self.whitelist_ipv4), given(self.whitelist_ipv6), given(self.github_networks))
        &&& forall|i: int|
            0 <= i < DOWNLOADED_SETS ==> ((#[trigger] self.lists@[i]) matches Some(wanted) ==> list_reads_back(
                current[i],
                wanted@,
            ))
    }

    /// All commands of the update, given what the sets of the updated lists hold.
    pub open spec fn commands(self, current: Seq<Seq<IpNet>>) -> Seq<ObjectView> {
        self.whitelists() + lists_commands(self.lists@, current, DOWNLOADED_SETS as nat) + prerouting_commands(
            self.log_blocked,
        )
    }
}

/// Why the table could not be brought in line.
#[derive(Debug)]
pub enum UpdateError {
    /// There is not one list per downloaded set.
    WrongListCount,
    /// The report of the table is not well formed.
    TableMalformed,
    /// A value of a whitelist names no network.
    InvalidWhitelist(String),
    /// The set at this place could not be listed.
    SetUnlisted(usize),
    /// The report of the set at this place is not well formed.
    SetMalformed(usize),
    /// The report of the set at this place has an element that names no network.
    SetInvalid(usize, ListedElement),
    /// An action failed: nft could not be started, or it rejected the commands.
    Action,
}

/// What an update waits for.
#[derive(Debug)]
pub enum Stage {
    /// The report of the table.
    Table,
    /// The creation of the table. What it lacks comes next.
    NewTable { missing: Vec<NfObject> },
    /// The creation of what the table lacked.
    Missing,
    /// The report of the next set whose list changed.
    ReadSet,
    /// The run of the commands.
    Apply,
    /// Nothing: the update has ended.
    Ended,
}

/// An update of the table that is under way.
#[derive(Debug)]
pub struct Replacement {
    pub request: Request,
    pub stage: Stage,
    /// The commands for the whitelists, once the table is complete.
    pub commands: Vec<NfObject>,
    /// What the sets held, as far as they were read. A set whose list did not change is not read.
    pub current: Vec<Vec<IpNet>>,
}

/// What came of the last action.
#[derive(Debug)]
pub enum NftEvent {
    /// Whether the table could be listed, and the report if it is JSON.
    TableListed { listed: bool, report: Option<Json> },
    /// Whether the set could be listed, and the report if it is JSON.
    SetListed { listed: bool, report: Option<Json> },
    /// The commands were run.
    Ran,
    /// The action failed.
    Failed,
}

/// What is to be done next.
#[derive(Debug)]
pub enum NftAction {
    ListTable,
    ListSet(usize),
    Run(Vec<NfObject>),
    Done,
    Failed(UpdateError),
}

/// Every set is a list of valid networks in ascending order, each named by its lowest address.
pub open spec fn sets_valid(sets: Seq<Seq<IpNet>>) -> bool {
    forall|k: int|
        0 <= k < sets.len() ==> ascending(#[trigger] sets[k]) && all_wf(sets[k]) && all_truncated(sets[k])
}

/// The contents of lists of networks.
pub open spec fn net_views(lists: Seq<Vec<IpNet>>) -> Seq<Seq<IpNet>> {
    lists.map_values(|nets: Vec<IpNet>| nets@)
}

/// The place of the first list from `i` on that changed; behind the last if there is none.
pub open spec fn next_update(lists: Seq<Option<Vec<IpNet>>>, i: nat) -> nat
    decreases DOWNLOADED_SETS - i,
{
    if i >= DOWNLOADED_SETS {
        DOWNLOADED_SETS as nat
    } else if lists[i as int] is Some {
        i
    } else {
        next_update(lists, i + 1)
    }
}

/// What was read, and nothing for the sets up to `j` that are not read.
pub open spec fn padded(current: Seq<Seq<IpNet>>, j: nat) -> Seq<Seq<IpNet>> {
    current + Seq::new((j - current.len()) as nat, |k: int| Seq::<IpNet>::empty())
}

/// The networks of the set that a report describes.
pub open spec fn held_by(report: Json) -> Seq<IpNet> {
    listed(|net: IpNet| set_has(report, net))
}

/// The report of a set is JSON and well formed.
pub open spec fn set_report_ok(report: Option<Json>) -> bool {
    match report {
        Some(r) => set_ok(r),
        None => false,
    }
}

/// The update goes on after the sets before `current.len()`: the next set whose list changed is
/// read, or all commands are run.
pub open spec fn continues(request: Request, current: Seq<Seq<IpNet>>, after: Replacement, action: NftAction) -> bool {
    let j = next_update(request.lists@, current.len());
    let read = padded(current, j);
    if j < DOWNLOADED_SETS {
        &&& action == NftAction::ListSet(j as usize)
        &&& after.stage is ReadSet
        &&& after.request == request
        &&& net_views(after.current@) == read
    } else {
        &&& action matches NftAction::Run(commands) && object_views(commands@) == request.commands(read)
        &&& request.reads_back(read)
        &&& after.stage is Apply
        &&& after.request == request
        &&& net_views(after.current@) == read
    }
}

/// The table is complete: the update goes on unless a whitelist is invalid.
pub open spec fn begins(request: Request, after: Replacement, action: NftAction) -> bool {
    if request.whitelists_named() {
        continues(request, Seq::empty(), after, action)
    } else {
        &&& after.stage is Ended
        &&& action matches NftAction::Failed(UpdateError::InvalidWhitelist(value)) && if !given_named(
            request.whitelist_ipv4,
        ) {
            is_first_unnamed(request.whitelist_ipv4, value@)
        } else {
            is_first_unnamed(request.whitelist_ipv6, value@)
        }
    }
}

/// The commands are to be run.
pub open spec fn runs(action: NftAction, commands: Seq<ObjectView>) -> bool {
    action matches NftAction::Run(list) && object_views(list@) == commands
}

/// How an update goes on after an event.
pub open spec fn update_step(before: Replacement, event: NftEvent, after: Replacement, action: NftAction) -> bool {
    match (before.stage, event) {
        (_, NftEvent::Failed) => {
            &&& after.stage is Ended
            &&& action == NftAction::Failed(UpdateError::Action)
        },
        (Stage::Table, NftEvent::TableListed { listed, report }) => if !listed {
            &&& after.stage is NewTable
            &&& after.request == before.request
            &&& runs(action, seq![ObjectView::Add(table_view())])
        } else if !report_ok(report) {
            &&& after.stage is Ended
            &&& action == NftAction::Failed(UpdateError::TableMalformed)
        } else if report_missing(report->0).len() > 0 {
            &&& after.stage is Missing
            &&& after.request == before.request
            &&& runs(action, report_missing(report->0))
        } else {
            begins(before.request, after, action)
        },
        (Stage::NewTable { .. }, NftEvent::Ran) => {
            &&& after.stage is Missing
            &&& after.request == before.request
            &&& runs(action, all_missing())
        },
        (Stage::Missing, NftEvent::Ran) => begins(before.request, after, action),
        (Stage::ReadSet, NftEvent::SetListed { listed, report }) => {
            let i = before.current@.len();
            if !listed {
                &&& after.stage is Ended
                &&& action == NftAction::Failed(UpdateError::SetUnlisted(i as usize))
            } else if !set_report_ok(report) {
                &&& after.stage is Ended
                &&& action == NftAction::Failed(UpdateError::SetMalformed(i as usize))
            } else if !all_valid(set_elements(report->0)) {
                &&& after.stage is Ended
                &&& action matches NftAction::Failed(UpdateError::SetInvalid(at, e)) && at == i && exists|k: int| #[trigger]
                    first_invalid_element(set_elements(report->0), k) && e@ == set_elements(report->0)[k]
            } else {
                continues(
                    before.request,
                    net_views(before.current@).push(held_by(report->0)),
                    after,
                    action,
                )
            }
        },
        (Stage::Apply, NftEvent::Ran) => {
            &&& after.stage is Ended
            &&& action == NftAction::Done
        },
        _ => false,
    }
}

/// Starts an update with the report of the table, provided there is one list per downloaded set.
pub fn replace_lists(request: Request) -> (result: Result<Replacement, UpdateError>)
    requires
        request.wf(),
    ensures
        match result {
            Ok(update) => {
                &&& request.lists@.len() == DOWNLOADED_SETS
                &&& update.wf()
                &&& update.request == request
                &&& update.stage is Table
            },
            Err(error) => request.lists@.len() != DOWNLOADED_SETS && error == UpdateError::WrongListCount,
        },
{
    if request.lists.len() != DOWNLOADED_SETS {
        return Err(UpdateError::WrongListCount);
    }
    Ok(Replacement { request, stage: Stage::Table, commands: Vec::new(), current: Vec::new() })
}

impl Replacement {
    /// The update is in order.
    pub open spec fn wf(self) -> bool {
        &&& self.request.wf()
        &&& self.request.lists@.len() == DOWNLOADED_SETS
        &&& match self.stage {
            Stage::NewTable { missing } => object_views(missing@) == all_missing(),
            Stage::ReadSet => {
                &&& self.current@.len() < DOWNLOADED_SETS
                &&& self.request.lists@[self.current@.len() as int] is Some
                &&& object_views(self.commands@) == self.request.whitelists()
                &&& whitelists_read_back(
                    given(self.request.whitelist_ipv4),
                    given(self.request.whitelist_ipv6),
                    given(self.request.github_networks),
                )
                &&& sets_valid(net_views(self.current@))
            },
            Stage::Apply => sets_valid(net_views(self.current@)),
            _ => true,
        }
    }

    /// The event is what the update waits for.
    pub open spec fn awaits(self, event: NftEvent) -> bool {
        match (self.stage, event) {
            (Stage::Table, NftEvent::TableListed { .. }) => true,
            (Stage::NewTable { .. }, NftEvent::Ran) => true,
            (Stage::Missing, NftEvent::Ran) => true,
            (Stage::ReadSet, NftEvent::SetListed { .. }) => true,
            (Stage::Apply, NftEvent::Ran) => true,
            (Stage::Ended, NftEvent::Failed) => false,
            (_, NftEvent::Failed) => true,
            _ => false,
        }
    }

    /// Whether the event is what the update waits for.
    pub fn accepts(&self, event: &NftEvent) -> (ok: bool)
        ensures
            ok == self.awaits(*event),
    {
        match (&self.stage, event) {
            (Stage::Table, NftEvent::TableListed { .. }) => true,
            (Stage::NewTable { .. }, NftEvent::Ran) => true,
            (Stage::Missing, NftEvent::Ran) => true,
            (Stage::ReadSet, NftEvent::SetListed { .. }) => true,
            (Stage::Apply, NftEvent::Ran) => true,
            (Stage::Ended, NftEvent::Failed) => false,
            (_, NftEvent::Failed) => true,
            _ => false,
        }
    }

    /// The update has ended with an error.
    fn fail(request: Request, error: UpdateError) -> (next: (Replacement, NftAction))
        requires
            request.wf(),
            request.lists@.len() == DOWNLOADED_SETS,
        ensures
            next.0.wf(),
            next.0.stage is Ended,
            next.1 == NftAction::Failed(error),
    {
        (
            Replacement { request, stage: Stage::Ended, commands: Vec::new(), current: Vec::new() },
            NftAction::Failed(error),
        )
    }

    /// Goes on behind the sets that were read: to the next set whose list changed, or to the run
    /// of all commands.
    fn resume(request: Request, commands: Vec<NfObject>, current: Vec<Vec<IpNet>>) -> (next: (Replacement, NftAction))
        requires
            request.wf(),
            request.lists@.len() == DOWNLOADED_SETS,
            current@.len() <= DOWNLOADED_SETS,
            object_views(commands@) == request.whitelists(),
            whitelists_read_back(
                given(request.whitelist_ipv4),
                given(request.whitelist_ipv6),
                given(request.github_networks),
            ),
            sets_valid(net_views(current@)),
        ensures
            next.0.wf(),
            continues(request, net_views(current@), next.0, next.1),
    {
        let ghost start = net_views(current@);
        let ghost target = next_update(request.lists@, start.len());
        let mut current: Vec<Vec<IpNet>> = current;
        proof {
            lemma_next_update(request.lists@, start.len());
            assert(net_views(current@) =~= padded(start, current@.len()));
        }
        while current.len() < DOWNLOADED_SETS && request.lists[current.len()].is_none()
            invariant
                request.wf(),
                request.lists@.len() == DOWNLOADED_SETS,
                start.len() <= current@.len() <= DOWNLOADED_SETS,
                target == next_update(request.lists@, start.len()),
                target == next_update(request.lists@, current@.len()),
                net_views(current@) =~= padded(start, current@.len()),
                sets_valid(net_views(current@)),
            decreases DOWNLOADED_SETS - current@.len(),
        {
            let empty: Vec<IpNet> = Vec::new();
            let ghost before = current@;
            current.push(empty);
            proof {
                assert(empty@ =~= Seq::<IpNet>::empty());
                assert(net_views(current@) =~= net_views(before).push(Seq::<IpNet>::empty()));
                assert(padded(start, before.len()).push(Seq::<IpNet>::empty()) =~= padded(start, before.len() + 1));
            }
        }
        if current.len() < DOWNLOADED_SETS {
            let at: usize = current.len();
            return (Replacement { request, stage: Stage::ReadSet, commands, current }, NftAction::ListSet(at));
        }
        let mut commands: Vec<NfObject> = commands;
        let mut i: usize = 0;
        while i < DOWNLOADED_SETS
            invariant
                i <= DOWNLOADED_SETS,
                request.wf(),
                request.lists@.len() == DOWNLOADED_SETS,
                current@.len() == DOWNLOADED_SETS,
                sets_valid(net_views(current@)),
                object_views(commands@) =~= request.whitelists() + lists_commands(
                    request.lists@,
                    net_views(current@),
                    i as nat,
                ),
                forall|k: int|
                    0 <= k < i ==> ((#[trigger] request.lists@[k]) matches Some(wanted) ==> list_reads_back(
                        net_views(current@)[k],
                        wanted@,
                    )),
            decreases DOWNLOADED_SETS - i,
        {
            if let Some(wanted) = &request.lists[i] {
                assert(request.lists@[i as int] == Some(*wanted));
                assert(net_views(current@)[i as int] == current@[i as int]@);
                append_list(&mut commands, needed_set(i).0, &current[i], wanted);
            }
            i += 1;
        }
        append_prerouting_rules(&mut commands, request.log_blocked);
        (
            Replacement { request, stage: Stage::Apply, commands: Vec::new(), current },
            NftAction::Run(commands),
        )
    }

    /// Goes on with a complete table.
    fn begin(request: Request) -> (next: (Replacement, NftAction))
        requires
            request.wf(),
            request.lists@.len() == DOWNLOADED_SETS,
        ensures
            next.0.wf(),
            begins(request, next.0, next.1),
    {
        let mut commands: Vec<NfObject> = Vec::new();
        match append_whitelist(
            &mut commands,
            &request.whitelist_ipv4,
            &request.whitelist_ipv6,
            &request.github_networks,
        ) {
            Ok(()) => {
                let current: Vec<Vec<IpNet>> = Vec::new();
                proof {
                    assert(object_views(commands@) =~= request.whitelists());
                    assert(net_views(current@) =~= Seq::<Seq<IpNet>>::empty());
                }
                Replacement::resume(request, commands, current)
            },
            Err(value) => Replacement::fail(request, UpdateError::InvalidWhitelist(value)),
        }
    }

    /// Takes what came of the last action, and says what is to be done next.
    pub fn step(self, event: NftEvent) -> (next: (Replacement, NftAction))
        requires
            self.wf(),
            self.awaits(event),
        ensures
            next.0.wf(),
            update_step(self, event, next.0, next.1),
    {
        let Replacement { request, stage, commands, current } = self;
        match (stage, event) {
            (_, NftEvent::Failed) => Replacement::fail(request, UpdateError::Action),
            (Stage::Table, NftEvent::TableListed { listed, report }) => match ensure_table_and_sets(listed, &report) {
                TablePlan::CreateTable { table, missing } => (
                    Replacement { request, stage: Stage::NewTable { missing }, commands, current },
                    NftAction::Run(table),
                ),
                TablePlan::Malformed => Replacement::fail(request, UpdateError::TableMalformed),
                TablePlan::Complete { missing } => {
                    assert(object_views(missing@).len() == missing@.len());
                    if missing.len() > 0 {
                        (Replacement { request, stage: Stage::Missing, commands, current }, NftAction::Run(missing))
                    } else {
                        Replacement::begin(request)
                    }
                },
            },
            (Stage::NewTable { missing }, NftEvent::Ran) => (
                Replacement { request, stage: Stage::Missing, commands, current },
                NftAction::Run(missing),
            ),
            (Stage::Missing, NftEvent::Ran) => Replacement::begin(request),
            (Stage::ReadSet, NftEvent::SetListed { listed, report }) => {
                let at: usize = current.len();
                if !listed {
                    return Replacement::fail(request, UpdateError::SetUnlisted(at));
                }
                let report: Json = match report {
                    Some(report) => report,
                    None => return Replacement::fail(request, UpdateError::SetMalformed(at)),
                };
                match read_set_elements(&report) {
                    Err(SetListingError::Malformed) => Replacement::fail(request, UpdateError::SetMalformed(at)),
                    Err(SetListingError::InvalidNetwork(element)) => Replacement::fail(
                        request,
                        UpdateError::SetInvalid(at, element),
                    ),
                    Ok(nets) => {
                        proof {
                            lemma_listed(nets@, |net: IpNet| set_has(report, net));
                        }
                        let ghost before = current@;
                        let mut current: Vec<Vec<IpNet>> = current;
                        current.push(nets);
                        assert(net_views(current@) =~= net_views(before).push(held_by(report)));
                        Replacement::resume(request, commands, current)
                    },
                }
            },
            (_, _) => (
                Replacement { request, stage: Stage::Ended, commands: Vec::new(), current: Vec::new() },
                NftAction::Done,
            ),
        }
    }
}

/// The next changed list is not before the place where the search starts, and none between them
/// changed.
proof fn lemma_next_update(lists: Seq<Option<Vec<IpNet>>>, i: nat)
    ensures
        i <= DOWNLOADED_SETS ==> i <= next_update(lists, i) <= DOWNLOADED_SETS,
        forall|m: int| i <= m < next_update(lists, i) ==> !((#[trigger] lists[m]) is Some),
    decreases DOWNLOADED_SETS - i,
{
    if i < DOWNLOADED_SETS && lists[i as int] is None {
        lemma_next_update(lists, i + 1);
    }
}

/// The commands for a list bring its set to the wanted networks: what stays of the set, together
/// with what is added, is what the list names.
pub proof fn law_list_update_reaches_wanted(current: Seq<IpNet>, wanted: Seq<IpNet>, net: IpNet)
    ensures
        current.contains(net) && !minus(current, normalized(wanted)).contains(net) || minus(
            normalized(wanted),
            current,
        ).contains(net) <==> names(wanted, net),
{
    lemma_normalized(wanted);
    lemma_minus(current, normalized(wanted));
    lemma_minus(normalized(wanted), current);
    assert(normalized(wanted).contains(net) <==> names(wanted, net));
    assert(minus(current, normalized(wanted)).contains(net) <==> current.contains(net) && !normalized(wanted).contains(net));
    assert(minus(normalized(wanted), current).contains(net) <==> normalized(wanted).contains(net) && !current.contains(net));
}

/// Nothing is deleted that is not in the set, and nothing is added that is.
pub proof fn law_list_update_is_a_delta(current: Seq<IpNet>, wanted: Seq<IpNet>, net: IpNet)
    ensures
        minus(current, normalized(wanted)).contains(net) ==> current.contains(net) && !names(wanted, net),
        minus(normalized(wanted), current).contains(net) ==> !current.contains(net) && names(wanted, net),
{
    lemma_normalized(wanted);
    lemma_minus(current, normalized(wanted));
    lemma_minus(normalized(wanted), current);
    assert(normalized(wanted).contains(net) <==> names(wanted, net));
    assert(minus(current, normalized(wanted)).contains(net) <==> current.contains(net) && !normalized(wanted).contains(net));
    assert(minus(normalized(wanted), current).contains(net) <==> normalized(wanted).contains(net) && !current.contains(net));
}

/// A set that already holds what its list names gets no command.
pub proof fn law_settled_list_needs_nothing(name: Seq<char>, current: Seq<IpNet>, wanted: Seq<IpNet>)
    requires
        forall|net: IpNet| #[trigger] current.contains(net) <==> names(wanted, net),
    ensures
        list_commands(name, current, wanted) == Seq::<ObjectView>::empty(),
{
    let gone = minus(current, normalized(wanted));
    let fresh = minus(normalized(wanted), current);
    if gone.len() > 0 {
        law_list_update_is_a_delta(current, wanted, gone[0]);
        assert(gone.contains(gone[0]));
        assert(current.contains(gone[0]) <==> names(wanted, gone[0]));
    }
    if fresh.len() > 0 {
        law_list_update_is_a_delta(current, wanted, fresh[0]);
        assert(fresh.contains(fresh[0]));
        assert(current.contains(fresh[0]) <==> names(wanted, fresh[0]));
    }
    assert(list_commands(name, current, wanted) =~= Seq::<ObjectView>::empty());
}

/// Of the first `n` sets, each is there or is created, and none that is there is created.
proof fn lemma_missing_sets_complete(has_set: spec_fn(Seq<char>) -> bool, n: nat)
    ensures
        forall|i: int| 0 <= i < n ==> has_set(#[trigger] set_name(i)) || missing_sets(has_set, n).contains(create_set(i)),
        forall|k: int| 0 <= k < missing_sets(has_set, n).len() ==> exists|i: int|
            0 <= i < n && !has_set(#[trigger] set_name(i)) && #[trigger] missing_sets(has_set, n)[k] == create_set(i),
    decreases n,
{
    if n > 0 {
        let before = missing_sets(has_set, (n - 1) as nat);
        let now = missing_sets(has_set, n);
        lemma_missing_sets_complete(has_set, (n - 1) as nat);
        if !has_set(set_name(n - 1)) {
            assert(now == before.push(create_set(n - 1)));
            assert(now[before.len() as int] == create_set(n - 1));
            assert forall|i: int| 0 <= i < n implies has_set(#[trigger] set_name(i)) || now.contains(create_set(i)) by {
                if i < n - 1 && !has_set(set_name(i)) {
                    let k = before.index_of(create_set(i));
                    assert(now[k] == create_set(i));
                }
            }
            assert forall|k: int| 0 <= k < now.len() implies exists|i: int|
                0 <= i < n && !has_set(#[trigger] set_name(i)) && #[trigger] now[k] == create_set(i) by {
                if k < before.len() {
                    assert(now[k] == before[k]);
                    let i = choose|i: int| 0 <= i < n - 1 && !has_set(#[trigger] set_name(i)) && before[k] == create_set(i);
                    assert(!has_set(set_name(i)) && now[k] == create_set(i));
                } else {
                    assert(!has_set(set_name(n - 1)) && now[k] == create_set(n - 1));
                }
            }
        }
    }
}

/// Once what is missing has been created, the table has every set that it needs and the chain.
/// What was there is not created again.
pub proof fn law_table_becomes_complete(has_set: spec_fn(Seq<char>) -> bool, has_chain: bool)
    ensures
        forall|i: int|
            0 <= i < NEEDED_SETS ==> has_set(#[trigger] set_name(i)) || missing_commands(has_set, has_chain).contains(
                create_set(i),
            ),
        has_chain || missing_commands(has_set, has_chain).contains(create_chain()),
        forall|k: int| 0 <= k < missing_commands(has_set, has_chain).len() ==> {
            ||| !has_chain && (#[trigger] missing_commands(has_set, has_chain)[k]) == create_chain()
            ||| exists|i: int|
                0 <= i < NEEDED_SETS && !has_set(#[trigger] set_name(i)) && missing_commands(has_set, has_chain)[k]
                    == create_set(i)
        },
{
    let sets = missing_sets(has_set, NEEDED_SETS as nat);
    let all = missing_commands(has_set, has_chain);
    lemma_missing_sets_complete(has_set, NEEDED_SETS as nat);
    assert forall|i: int| 0 <= i < NEEDED_SETS implies has_set(#[trigger] set_name(i)) || all.contains(create_set(i)) by {
        if !has_set(set_name(i)) {
            let k = sets.index_of(create_set(i));
            assert(all[k] == create_set(i));
        }
    }
    if !has_chain {
        assert(all[sets.len() as int] == create_chain());
    }
    assert forall|k: int| 0 <= k < all.len() implies {
        ||| !has_chain && (#[trigger] all[k]) == create_chain()
        ||| exists|i: int| 0 <= i < NEEDED_SETS && !has_set(#[trigger] set_name(i)) && all[k] == create_set(i)
    } by {
        if k < sets.len() {
            assert(all[k] == sets[k]);
        }
    }
}

/// The command creates the table, a set or the chain. What is there stays as it is.
pub open spec fn only_creates(command: ObjectView) -> bool {
    match command {
        ObjectView::Add(ListObjectView::Table { .. }) => true,
        ObjectView::Add(ListObjectView::NetSet { .. }) => true,
        ObjectView::Add(ListObjectView::Chain { .. }) => true,
        _ => false,
    }
}

/// The contents of the table are changed by the last run alone, all at once: before it, commands
/// only create what is missing.
pub proof fn law_contents_change_at_once(before: Replacement, event: NftEvent, after: Replacement, action: NftAction)
    requires
        before.awaits(event),
        update_step(before, event, after, action),
        action is Run,
        !(after.stage is Apply),
    ensures
        forall|i: int|
            0 <= i < action->Run_0@.len() ==> only_creates((#[trigger] object_views(action->Run_0@)[i])),
{
    let commands = object_views(action->Run_0@);
    match (before.stage, event) {
        (Stage::Table, NftEvent::TableListed { listed: true, report }) => {
            lemma_missing_only_creates(
                |name: Seq<char>| table_lists(report->0, EntryView::NetSet(name)),
                table_lists(report->0, EntryView::Chain(PREROUTING_CHAIN@)),
            );
        },
        (Stage::NewTable { .. }, NftEvent::Ran) => {
            lemma_missing_only_creates(|name: Seq<char>| false, false);
        },
        _ => {},
    }
    assert(commands.len() == action->Run_0@.len());
}

/// What is missing is only created.
proof fn lemma_missing_only_creates(has_set: spec_fn(Seq<char>) -> bool, has_chain: bool)
    ensures
        forall|i: int|
            0 <= i < missing_commands(has_set, has_chain).len() ==> only_creates(
                #[trigger] missing_commands(has_set, has_chain)[i],
            ),
{
    let all = missing_commands(has_set, has_chain);
    law_table_becomes_complete(has_set, has_chain);
    assert forall|i: int| 0 <= i < all.len() implies only_creates(#[trigger] all[i]) by {
        if !(!has_chain && all[i] == create_chain()) {
            let k = choose|k: int| 0 <= k < NEEDED_SETS && !has_set(#[trigger] set_name(k)) && all[i] == create_set(k);
            assert(all[i] == create_set(k));
        }
    }
}

/// An action that fails, such as a run that nft rejects, ends the update: nothing more is run.
pub proof fn law_failed_action_ends_the_update(
    before: Replacement,
    after: Replacement,
    action: NftAction,
    later: NftEvent,
)
    requires
        before.awaits(NftEvent::Failed),
        update_step(before, NftEvent::Failed, after, action),
    ensures
        action == NftAction::Failed(UpdateError::Action),
        !after.awaits(later),
{
}

/// The updates, events and actions of a run: every event is what the update waited for.
pub open spec fn is_update(updates: Seq<Replacement>, events: Seq<NftEvent>, actions: Seq<NftAction>) -> bool {
    &&& updates.len() == events.len() + 1
    &&& actions.len() == events.len()
    &&& updates[0].stage is Table
    &&& forall|i: int| 0 <= i < updates.len() ==> (#[trigger] updates[i]).wf()
    &&& forall|i: int|
        #![trigger events[i]]
        0 <= i < events.len() ==> updates[i].awaits(events[i]) && update_step(
            updates[i],
            events[i],
            updates[i + 1],
            actions[i],
        )
}

/// Event `j` reports, as was asked, that the set at `i` holds the networks.
pub open spec fn reports_set(events: Seq<NftEvent>, actions: Seq<NftAction>, j: int, i: int, nets: Seq<IpNet>) -> bool {
    &&& actions[j - 1] == NftAction::ListSet(i as usize)
    &&& events[j] matches NftEvent::SetListed { listed, report } && listed && set_report_ok(report) && nets == held_by(
        report->0,
    )
}

/// Before event `k` the sets of the changed lists were reported to hold these networks.
pub open spec fn were_read(
    events: Seq<NftEvent>,
    actions: Seq<NftAction>,
    k: int,
    request: Request,
    sets: Seq<Seq<IpNet>>,
) -> bool {
    forall|i: int|
        0 <= i < sets.len() && (#[trigger] request.lists@[i]) is Some ==> exists|j: int|
            0 < j < k && #[trigger] reports_set(events, actions, j, i, sets[i])
}

/// An update that goes on has read what it says it has.
proof fn lemma_continues(
    events: Seq<NftEvent>,
    actions: Seq<NftAction>,
    k: int,
    request: Request,
    read: Seq<Seq<IpNet>>,
    after: Replacement,
    action: NftAction,
)
    requires
        request.lists@.len() == DOWNLOADED_SETS,
        read.len() <= DOWNLOADED_SETS,
        were_read(events, actions, k, request, read),
        continues(request, read, after, action),
    ensures
        after.request == request,
        were_read(events, actions, k, request, net_views(after.current@)),
        after.stage is ReadSet ==> action == NftAction::ListSet(after.current@.len() as usize)
            && after.current@.len() < DOWNLOADED_SETS,
        after.stage is Apply ==> after.current@.len() == DOWNLOADED_SETS,
{
    let j = next_update(request.lists@, read.len());
    lemma_next_update(request.lists@, read.len());
    let sets = padded(read, j);
    assert(net_views(after.current@) == sets);
    assert(sets.len() == j);
    assert forall|i: int| 0 <= i < sets.len() && (#[trigger] request.lists@[i]) is Some implies exists|m: int|
        0 < m < k && #[trigger] reports_set(events, actions, m, i, sets[i]) by {
        assert(i < read.len());
        assert(sets[i] == read[i]);
    }
}

/// What an update knows at every stage: the request stays the same, and what it holds of the sets
/// was reported.
proof fn lemma_update_state(updates: Seq<Replacement>, events: Seq<NftEvent>, actions: Seq<NftAction>, k: int)
    requires
        is_update(updates, events, actions),
        0 <= k < updates.len(),
    ensures
        updates[k].stage is Ended || updates[k].request == updates[0].request,
        updates[k].stage is ReadSet ==> k > 0 && actions[k - 1] == NftAction::ListSet(
            updates[k].current@.len() as usize,
        ),
        updates[k].stage is ReadSet || updates[k].stage is Apply ==> were_read(
            events,
            actions,
            k,
            updates[0].request,
            net_views(updates[k].current@),
        ),
        updates[k].stage is Apply ==> updates[k].current@.len() == DOWNLOADED_SETS,
    decreases k,
{
    if k > 0 {
        let before = updates[k - 1];
        let after = updates[k];
        let request = updates[0].request;
        let none = Seq::<Seq<IpNet>>::empty();
        lemma_update_state(updates, events, actions, k - 1);
        assert(updates[0].wf() && before.wf());
        assert(update_step(before, events[k - 1], after, actions[k - 1]));
        match (before.stage, events[k - 1]) {
            (_, NftEvent::Failed) => {},
            (Stage::ReadSet, NftEvent::SetListed { listed, report }) => if !(after.stage is Ended) {
                let i = before.current@.len();
                let sets = net_views(before.current@);
                let read = sets.push(held_by(report->0));
                assert(reports_set(events, actions, k - 1, i as int, read[i as int]));
                assert forall|m: int| 0 <= m < read.len() && (#[trigger] request.lists@[m]) is Some implies exists|
                    j: int,
                | 0 < j < k && #[trigger] reports_set(events, actions, j, m, read[m]) by {
                    if m < i {
                        let j = choose|j: int| 0 < j < k - 1 && #[trigger] reports_set(events, actions, j, m, sets[m]);
                        assert(reports_set(events, actions, j, m, read[m]));
                    }
                }
                lemma_continues(events, actions, k, request, read, after, actions[k - 1]);
            },
            _ => if after.stage is ReadSet || after.stage is Apply {
                lemma_continues(events, actions, k, request, none, after, actions[k - 1]);
            },
        }
    }
}

/// An update that finishes has run the commands of its request last, made for what the sets of
/// the changed lists were reported to hold.
pub proof fn law_finished_update_ran_its_request(
    updates: Seq<Replacement>,
    events: Seq<NftEvent>,
    actions: Seq<NftAction>,
    k: int,
)
    requires
        is_update(updates, events, actions),
        0 <= k < events.len(),
        actions[k] is Done,
    ensures
        k >= 1,
        ({
            let request = updates[0].request;
            let current = net_views(updates[k].current@);
            &&& runs(actions[k - 1], request.commands(current))
            &&& request.reads_back(current)
            &&& current.len() == DOWNLOADED_SETS
            &&& sets_valid(current)
            &&& were_read(events, actions, k, request, current)
        }),
{
    lemma_update_state(updates, events, actions, k);
    assert(update_step(updates[k], events[k], updates[k + 1], actions[k]));
    assert(updates[k].stage is Apply);
    assert(k >= 1);
    assert(updates[k].wf());
    assert(update_step(updates[k - 1], events[k - 1], updates[k], actions[k - 1]));
    lemma_update_state(updates, events, actions, k - 1);
}

/// The sets that the table must have, each with what it holds.
pub proof fn law_needed_sets()
    ensures
        set_name(0) == "FireholL1"@ && set_type(0) == SetType::Ipv4Addr,
        set_name(1) == "FireholL2"@ && set_type(1) == SetType::Ipv4Addr,
        set_name(2) == "FullBogonsIpv4"@ && set_type(2) == SetType::Ipv4Addr,
        set_name(3) == "FullBogonsIpv6"@ && set_type(3) == SetType::Ipv6Addr,
        set_name(4) == "firehol_whitelist_ipv4"@ && set_type(4) == SetType::Ipv4Addr,
        set_name(5) == "firehol_whitelist_ipv6"@ && set_type(5) == SetType::Ipv6Addr,
        set_name(6) == "GithubWhitelistIPv4"@ && set_type(6) == SetType::Ipv4Addr,
        set_name(7) == "GithubWhitelistIPv6"@ && set_type(7) == SetType::Ipv6Addr,
        NEEDED_SETS == 8,
        DOWNLOADED_SETS == 4,
{
}

/// The table must have a set of this name for such addresses.
pub open spec fn is_needed(name: Seq<char>, kind: SetType) -> bool {
    ||| name == "FireholL1"@ && kind == SetType::Ipv4Addr
    ||| name == "FireholL2"@ && kind == SetType::Ipv4Addr
    ||| name == "FullBogonsIpv4"@ && kind == SetType::Ipv4Addr
    ||| name == "FullBogonsIpv6"@ && kind == SetType::Ipv6Addr
    ||| name == "firehol_whitelist_ipv4"@ && kind == SetType::Ipv4Addr
    ||| name == "firehol_whitelist_ipv6"@ && kind == SetType::Ipv6Addr
    ||| name == "GithubWhitelistIPv4"@ && kind == SetType::Ipv4Addr
    ||| name == "GithubWhitelistIPv6"@ && kind == SetType::Ipv6Addr
}

/// What is created is exactly what the table lacks: each needed set that is not there, for networks
/// of its family, and the chain if it is not there.
pub proof fn law_only_what_is_missing_is_created(
    has_set: spec_fn(Seq<char>) -> bool,
    has_chain: bool,
    name: Seq<char>,
    kind: SetType,
)
    ensures
        missing_commands(has_set, has_chain).contains(
            ObjectView::Add(
                ListObjectView::NetSet {
                    family: NfFamily::INet,
                    table: "firehol"@,
                    name,
                    set_type: kind,
                    interval: true,
                },
            ),
        ) <==> is_needed(name, kind) && !has_set(name),
        missing_commands(has_set, has_chain).contains(
            ObjectView::Add(
                ListObjectView::Chain {
                    family: NfFamily::INet,
                    table: "firehol"@,
                    name: "firehol_prerouting"@,
                    base: Some(
                        BaseChain {
                            chain_type: NfChainType::Filter,
                            hook: NfHook::Prerouting,
                            prio: (-500) as i32,
                            policy: NfChainPolicy::Accept,
                        },
                    ),
                },
            ),
        ) <==> !has_chain,
        missing_commands(has_set, has_chain).len() == (!has_set("FireholL1"@)) as int + (!has_set("FireholL2"@)) as int
            + (!has_set("FullBogonsIpv4"@)) as int + (!has_set("FullBogonsIpv6"@)) as int
            + (!has_set("firehol_whitelist_ipv4"@)) as int + (!has_set("firehol_whitelist_ipv6"@)) as int
            + (!has_set("GithubWhitelistIPv4"@)) as int + (!has_set("GithubWhitelistIPv6"@)) as int + (!has_chain) as int,
{
    let all = missing_commands(has_set, has_chain);
    law_table_becomes_complete(has_set, has_chain);
    reveal_with_fuel(missing_sets, 9);
    let command = ObjectView::Add(
        ListObjectView::NetSet { family: NfFamily::INet, table: "firehol"@, name, set_type: kind, interval: true },
    );
    if all.contains(command) {
        let k = all.index_of(command);
        assert(all[k] == command);
        let i = choose|i: int| 0 <= i < NEEDED_SETS && !has_set(#[trigger] set_name(i)) && all[k] == create_set(i);
        assert(name == set_name(i) && kind == set_type(i));
        assert(i == 0 || i == 1 || i == 2 || i == 3 || i == 4 || i == 5 || i == 6 || i == 7);
    }
    if is_needed(name, kind) && !has_set(name) {
        let i = if name == set_name(0) && kind == set_type(0) {
            0int
        } else if name == set_name(1) && kind == set_type(1) {
            1int
        } else if name == set_name(2) && kind == set_type(2) {
            2int
        } else if name == set_name(3) && kind == set_type(3) {
            3int
        } else if name == set_name(4) && kind == set_type(4) {
            4int
        } else if name == set_name(5) && kind == set_type(5) {
            5int
        } else if name == set_name(6) && kind == set_type(6) {
            6int
        } else {
            7int
        };
        assert(set_name(i) == name && set_type(i) == kind);
        assert(all.contains(create_set(i)));
    }
    if all.contains(create_chain()) {
        let k = all.index_of(create_chain());
        assert(all[k] == create_chain());
    }
}

/// The next set that is read is that of the first list from there on that is to be updated. The
/// commands are run only once no such list is left.
pub proof fn law_every_updated_list_is_read(
    request: Request,
    current: Seq<Seq<IpNet>>,
    after: Replacement,
    action: NftAction,
)
    requires
        request.lists@.len() == 4,
        current.len() <= 4,
        continues(request, current, after, action),
    ensures
        action matches NftAction::ListSet(j) ==> {
            &&& current.len() <= j < 4
            &&& request.lists@[j as int] is Some
            &&& forall|m: int| current.len() <= m < j ==> (#[trigger] request.lists@[m]) is None
            &&& after.current@.len() == j
        },
        !(action is ListSet) ==> action is Run && forall|m: int|
            current.len() <= m < 4 ==> (#[trigger] request.lists@[m]) is None,
        forall|m: int| 0 <= m < current.len() ==> #[trigger] after.current@[m]@ == current[m],
{
    lemma_next_update(request.lists@, current.len());
    let j = next_update(request.lists@, current.len());
    lemma_found(request.lists@, current.len());
    let read = padded(current, j);
    assert(net_views(after.current@) == read);
    assert(read.len() == j);
    assert(net_views(after.current@).len() == after.current@.len());
    assert forall|m: int| 0 <= m < current.len() implies #[trigger] after.current@[m]@ == current[m] by {
        assert(net_views(after.current@)[m] == read[m]);
    }
}

/// The list that a search finds is to be updated.
proof fn lemma_found(lists: Seq<Option<Vec<IpNet>>>, i: nat)
    ensures
        next_update(lists, i) < DOWNLOADED_SETS ==> lists[next_update(lists, i) as int] is Some,
    decreases DOWNLOADED_SETS - i,
{
    if i < DOWNLOADED_SETS && lists[i as int] is None {
        lemma_found(lists, i + 1);
    }
}

/// What a report says of a set decides how the update goes on: a set that could not be listed, a
/// report that is not well formed and an element that is no network each end it, with the place
/// of the set.
pub proof fn law_unusable_report_ends_the_update(
    before: Replacement,
    listed: bool,
    report: Option<Json>,
    after: Replacement,
    action: NftAction,
)
    requires
        before.stage is ReadSet,
        update_step(before, NftEvent::SetListed { listed, report }, after, action),
    ensures
        ({
            let i = before.current@.len();
            let read = report is Some && set_ok(report->0);
            let named = all_valid(set_elements(report->0));
            &&& !listed ==> action == NftAction::Failed(UpdateError::SetUnlisted(i as usize))
            &&& listed && !read ==> action == NftAction::Failed(UpdateError::SetMalformed(i as usize))
            &&& listed && read && !named ==> (action matches NftAction::Failed(UpdateError::SetInvalid(at, _)) && at == i)
            &&& listed && read && named ==> action is ListSet || action is Run
            &&& action is Failed ==> after.stage is Ended
        }),
{
}

/// What a report says that a set holds: exactly the elements at all places of all entries, each
/// named by its lowest address, in ascending order.
pub proof fn law_set_holds_what_is_reported(report: Json, net: IpNet, k: int, l: int)
    requires
        set_ok(report),
    ensures
        held_by(report).contains(net) <==> exists|i: int, j: int, named: IpNet|
            element_at(report, i, j) is Some && #[trigger] element_reads(element_at(report, i, j)->0, named)
                && named.truncated() == net,
        0 <= k < l < held_by(report).len() ==> net_lt(held_by(report)[k], held_by(report)[l]),
{
    let property = |n: IpNet| set_has(report, n);
    let elements = set_elements(report);
    let nets = elements.map_values(|element: ElementView| element_network(element)->0.truncated());
    assert forall|n: IpNet| #[trigger] property(n) implies nets.contains(n) by {
        let i = choose|i: int| 0 <= i < elements.len() && element_names(#[trigger] elements[i], n);
        assert(nets[i] == n);
    }
    lemma_listed_exists(nets, property);
    assert(held_by(report).contains(net) <==> property(net));
    law_every_element_counts(report, net);
}

/// A value of a whitelist, at whatever place, that is neither a network nor an address ends the
/// update, and the first such value is handed back: that of IPv4 before that of IPv6.
pub proof fn law_unreadable_value_ends_the_update(request: Request, after: Replacement, action: NftAction)
    requires
        begins(request, after, action),
    ensures
        ({
            let bad4 = request.whitelist_ipv4 matches Some(list) && exists|i: int|
                0 <= i < list@.len() && !is_readable((#[trigger] list@[i])@);
            let bad6 = request.whitelist_ipv6 matches Some(list) && exists|i: int|
                0 <= i < list@.len() && !is_readable((#[trigger] list@[i])@);
            &&& action is Failed <==> bad4 || bad6
            &&& bad4 ==> (action matches NftAction::Failed(UpdateError::InvalidWhitelist(value)) && exists|i: int|
                0 <= i < request.whitelist_ipv4->0@.len() && (#[trigger] request.whitelist_ipv4->0@[i])@ == value@
                    && !is_readable(value@))
            &&& !bad4 && bad6 ==> (action matches NftAction::Failed(UpdateError::InvalidWhitelist(value)) && exists|i: int|
                0 <= i < request.whitelist_ipv6->0@.len() && (#[trigger] request.whitelist_ipv6->0@[i])@ == value@
                    && !is_readable(value@))
        }),
{
    lemma_given_readable(request.whitelist_ipv4);
    lemma_given_readable(request.whitelist_ipv6);
    if !given_named(request.whitelist_ipv4) {
        let list = request.whitelist_ipv4->0@;
        let value = action->Failed_0->InvalidWhitelist_0;
        let i = choose|i: int| #[trigger] first_unnamed(list, i) && value@ == list[i]@;
        law_every_value_counts(list, i);
        assert(list[i]@ == value@);
    } else if !given_named(request.whitelist_ipv6) {
        let list = request.whitelist_ipv6->0@;
        let value = action->Failed_0->InvalidWhitelist_0;
        let i = choose|i: int| #[trigger] first_unnamed(list, i) && value@ == list[i]@;
        law_every_value_counts(list, i);
        assert(list[i]@ == value@);
    }
}

proof fn lemma_given_readable(list: Option<Vec<String>>)
    ensures
        given_named(list) <==> (list matches Some(values) ==> forall|i: int|
            0 <= i < values@.len() ==> is_readable((#[trigger] values@[i])@)),
{
    if let Some(values) = list {
        if values@.len() > 0 {
            law_every_value_counts(values@, 0);
        }
    }
}

/// The report of the table decides what is created first: without a table, the table and then all
/// that it needs; with one, what its report lacks. A report that is not well formed ends the update.
pub proof fn law_table_report_decides(
    before: Replacement,
    listed: bool,
    report: Option<Json>,
    after: Replacement,
    action: NftAction,
)
    requires
        before.stage is Table,
        update_step(before, NftEvent::TableListed { listed, report }, after, action),
    ensures
        !listed ==> after.stage is NewTable && (action matches NftAction::Run(commands) && object_views(commands@) == seq![
            ObjectView::Add(ListObjectView::Table { family: NfFamily::INet, name: "firehol"@ }),
        ]),
        listed && !(report is Some && table_ok(report->0)) ==> after.stage is Ended && action == NftAction::Failed(
            UpdateError::TableMalformed,
        ),
        listed && report is Some && table_ok(report->0) ==> {
            let missing = missing_commands(
                |name: Seq<char>| table_lists(report->0, EntryView::NetSet(name)),
                table_lists(report->0, EntryView::Chain("firehol_prerouting"@)),
            );
            if missing.len() > 0 {
                after.stage is Missing && (action matches NftAction::Run(commands) && object_views(commands@) == missing)
            } else {
                begins(before.request, after, action)
            }
        },
        !listed || after.stage is Missing ==> after.request == before.request,
{
}

/// A new table lacks everything.
pub proof fn law_new_table_gets_everything(
    before: Replacement,
    after: Replacement,
    action: NftAction,
    name: Seq<char>,
    kind: SetType,
)
    requires
        before.stage is NewTable,
        update_step(before, NftEvent::Ran, after, action),
    ensures
        after.stage is Missing,
        after.request == before.request,
        action matches NftAction::Run(commands) && object_views(commands@).len() == 9 && (object_views(
            commands@,
        ).contains(
            ObjectView::Add(
                ListObjectView::NetSet {
                    family: NfFamily::INet,
                    table: "firehol"@,
                    name,
                    set_type: kind,
                    interval: true,
                },
            ),
        ) <==> is_needed(name, kind)),
{
    law_only_what_is_missing_is_created(|set: Seq<char>| false, false, name, kind);
}

/// The commands of an update: those of the whitelists that are given; then those of each list that
/// is given, for the set of its own; and in any case the renewal of the chain at last.
pub proof fn law_commands_of_an_update(request: Request, current: Seq<Seq<IpNet>>)
    ensures
        ({
            let ipv4 = match request.whitelist_ipv4 {
                Some(list) => Some(list@),
                None => None,
            };
            let ipv6 = match request.whitelist_ipv6 {
                Some(list) => Some(list@),
                None => None,
            };
            let github = match request.github_networks {
                Some(nets) => Some(nets@),
                None => None,
            };
            let part0 = match request.lists@[0] {
                Some(wanted) => list_commands("FireholL1"@, current[0], wanted@),
                None => Seq::empty(),
            };
            let part1 = match request.lists@[1] {
                Some(wanted) => list_commands("FireholL2"@, current[1], wanted@),
                None => Seq::empty(),
            };
            let part2 = match request.lists@[2] {
                Some(wanted) => list_commands("FullBogonsIpv4"@, current[2], wanted@),
                None => Seq::empty(),
            };
            let part3 = match request.lists@[3] {
                Some(wanted) => list_commands("FullBogonsIpv6"@, current[3], wanted@),
                None => Seq::empty(),
            };
            request.commands(current) == whitelist_updates(ipv4, ipv6, github) + part0 + part1 + part2 + part3
                + prerouting_commands(request.log_blocked)
        }),
{
    reveal_with_fuel(lists_commands, 5);
    let whitelists = request.whitelists();
    let lists = lists_commands(request.lists@, current, 4);
    assert(request.commands(current) =~= whitelists + lists + prerouting_commands(request.log_blocked));
    let part0 = lists_commands(request.lists@, current, 1);
    let part1 = match request.lists@[1] {
        Some(wanted) => list_commands(set_name(1), current[1], wanted@),
        None => Seq::empty(),
    };
    let part2 = match request.lists@[2] {
        Some(wanted) => list_commands(set_name(2), current[2], wanted@),
        None => Seq::empty(),
    };
    let part3 = match request.lists@[3] {
        Some(wanted) => list_commands(set_name(3), current[3], wanted@),
        None => Seq::empty(),
    };
    assert(part0 =~= match request.lists@[0] {
        Some(wanted) => list_commands(set_name(0), current[0], wanted@),
        None => Seq::empty(),
    });
    assert(lists =~= part0 + part1 + part2 + part3);
    assert(whitelists + lists =~= whitelists + part0 + part1 + part2 + part3);
}

/// The commands for a list: what its set has and the list does not name is deleted, and what the
/// list names and its set does not have is added.
pub proof fn law_list_commands_are_the_difference(name: Seq<char>, current: Seq<IpNet>, wanted: Seq<IpNet>)
    ensures
        exists|gone: Seq<IpNet>, fresh: Seq<IpNet>|
            {
                &&& list_commands(name, current, wanted) == #[trigger] element_commands(name, gone, false)
                    + #[trigger] element_commands(name, fresh, true)
                &&& forall|net: IpNet| #[trigger]
                    gone.contains(net) <==> current.contains(net) && forall|k: int|
                        0 <= k < wanted.len() ==> (#[trigger] wanted[k]).truncated() != net
                &&& forall|net: IpNet| #[trigger]
                    fresh.contains(net) <==> !current.contains(net) && exists|k: int|
                        0 <= k < wanted.len() && (#[trigger] wanted[k]).truncated() == net
            },
{
    let gone = minus(current, normalized(wanted));
    let fresh = minus(normalized(wanted), current);
    lemma_normalized(wanted);
    lemma_minus(current, normalized(wanted));
    lemma_minus(normalized(wanted), current);
    assert forall|net: IpNet| #[trigger] gone.contains(net) <==> current.contains(net) && forall|k: int|
        0 <= k < wanted.len() ==> (#[trigger] wanted[k]).truncated() != net by {
        assert(normalized(wanted).contains(net) <==> names(wanted, net));
    }
    assert forall|net: IpNet| #[trigger] fresh.contains(net) <==> !current.contains(net) && exists|k: int|
        0 <= k < wanted.len() && (#[trigger] wanted[k]).truncated() == net by {
        assert(normalized(wanted).contains(net) <==> names(wanted, net));
    }
    assert(list_commands(name, current, wanted) == element_commands(name, gone, false) + element_commands(name, fresh, true));
}

/// What an update waits for, and how it ends: when its commands were run, or when an action fails.
pub proof fn law_update_waits_for_its_last_action(
    before: Replacement,
    event: NftEvent,
    after: Replacement,
    action: NftAction,
)
    ensures
        before.awaits(event) <==> match before.stage {
            Stage::Table => event is TableListed || event is Failed,
            Stage::NewTable { .. } => event is Ran || event is Failed,
            Stage::Missing => event is Ran || event is Failed,
            Stage::ReadSet => event is SetListed || event is Failed,
            Stage::Apply => event is Ran || event is Failed,
            Stage::Ended => false,
        },
        before.stage is Apply && event is Ran && update_step(before, event, after, action) ==> after.stage is Ended
            && action == NftAction::Done,
        before.stage is Missing && event is Ran && update_step(before, event, after, action) ==> begins(
            before.request,
            after,
            action,
        ),
        event is Failed && update_step(before, event, after, action) ==> after.stage is Ended && action
            == NftAction::Failed(UpdateError::Action),
{
}

} // verus!
