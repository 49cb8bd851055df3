//! Pull requests as the GitHub CLI lists them: which checks have passed, which
//! pull request belongs to a branch, and what the CLI is asked.

use crate::output;
use crate::output::decode;
use crate::output::decode_lossy;
use crate::output::owned;
use crate::text;
use crate::text::format_natural;
use crate::text::same_ignoring_case;
use crate::text::same_text;
use crate::text::trim;
use vstd::prelude::*;
use vstd::string::StringExecFns;

verus! {

/// A pull request in detail.
#[derive(Debug)]
pub struct PrDetails {
    pub head_ref_name: String,
    pub head_repository_owner: RepositoryOwner,
    pub state: String,
    pub is_draft: bool,
    pub title: String,
    pub author: Author,
}

/// The owner of a repository.
#[derive(Debug)]
pub struct RepositoryOwner {
    pub login: String,
}

/// The author of a pull request.
#[derive(Debug)]
pub struct Author {
    pub login: String,
}

impl PrDetails {
    /// Whether the pull request comes from a repository of another owner.
    pub fn is_fork(&self, current_repo_owner: &str) -> (fork: bool)
        ensures
            fork == (self.head_repository_owner.login@ != current_repo_owner@),
    {
        !same_text(self.head_repository_owner.login.as_str(), current_repo_owner)
    }
}

/// Aggregated status of the checks of a pull request.
#[derive(Clone, Copy, Debug, PartialEq, Eq, Structural)]
pub enum CheckState {
    /// All checks passed.
    Success,
    /// Some checks failed.
    Failure { passed: u32, total: u32 },
    /// Checks are still running.
    Pending { passed: u32, total: u32 },
}

/// Summary of a pull request.
#[derive(Clone, Debug, PartialEq, Eq)]
pub struct PrSummary {
    pub number: u32,
    pub title: String,
    pub state: String,
    pub is_draft: bool,
    /// Aggregated status of the checks, if any are configured.
    pub checks: Option<CheckState>,
}

/// Summary of a pull request as mathematics sees it.
pub struct SummaryModel {
    pub number: u32,
    pub title: Seq<char>,
    pub state: Seq<char>,
    pub is_draft: bool,
    pub checks: Option<CheckState>,
}

impl View for PrSummary {
    type V = SummaryModel;

    open spec fn view(&self) -> SummaryModel {
        SummaryModel {
            number: self.number,
            title: self.title@,
            state: self.state@,
            is_draft: self.is_draft,
            checks: self.checks,
        }
    }
}

/// One check: a check run with status and conclusion, or a status context,
/// whose state stands as the status.
#[derive(Debug, PartialEq, Eq)]
pub struct CheckRollupItem {
    pub status: Option<String>,
    pub conclusion: Option<String>,
}

/// How a check counts.
#[derive(Clone, Copy, Debug, PartialEq, Eq, Structural)]
pub enum Outcome {
    Passed,
    Failed,
    /// Neutral or skipped: known, and not counted in the total.
    Skipped,
    Pending,
    /// Anything else.
    Unknown,
}

/// The text, or the empty text where there is none.
pub open spec fn text_or_empty(s: Option<String>) -> Seq<char> {
    match s {
        Some(t) => t@,
        None => Seq::empty(),
    }
}

/// Whether a conclusion means failure.
pub open spec fn failing_conclusion(t: Seq<char>) -> bool {
    ||| t == "FAILURE"@
    ||| t == "CANCELLED"@
    ||| t == "TIMED_OUT"@
    ||| t == "STARTUP_FAILURE"@
    ||| t == "ACTION_REQUIRED"@
}

/// Whether a status means that the check has not ended.
pub open spec fn pending_status(t: Seq<char>) -> bool {
    ||| t == "IN_PROGRESS"@
    ||| t == "QUEUED"@
    ||| t == "PENDING"@
    ||| t == "REQUESTED"@
    ||| t == "WAITING"@
}

/// How a check with this status and conclusion counts. Success goes before
/// failure, failure before skipping, skipping before waiting.
pub open spec fn outcome_of(status: Seq<char>, conclusion: Seq<char>) -> Outcome {
    if conclusion == "SUCCESS"@ || status == "SUCCESS"@ {
        Outcome::Passed
    } else if failing_conclusion(conclusion) || status == "FAILURE"@ || status == "ERROR"@ {
        Outcome::Failed
    } else if conclusion == "NEUTRAL"@ || conclusion == "SKIPPED"@ {
        Outcome::Skipped
    } else if pending_status(status) {
        Outcome::Pending
    } else {
        Outcome::Unknown
    }
}

impl CheckRollupItem {
    /// How the check counts.
    pub open spec fn counts_as(self) -> Outcome {
        outcome_of(text_or_empty(self.status), text_or_empty(self.conclusion))
    }

    /// How the check counts.
    pub fn outcome(&self) -> (outcome: Outcome)
        ensures
            outcome == self.counts_as(),
    {
        let status: &str = or_empty(&self.status);
        let conclusion: &str = or_empty(&self.conclusion);
        if same_text(conclusion, "SUCCESS") || same_text(status, "SUCCESS") {
            Outcome::Passed
        } else if same_text(conclusion, "FAILURE") || same_text(conclusion, "CANCELLED")
            || same_text(conclusion, "TIMED_OUT") || same_text(conclusion, "STARTUP_FAILURE")
            || same_text(conclusion, "ACTION_REQUIRED") || same_text(status, "FAILURE")
            || same_text(status, "ERROR") {
            Outcome::Failed
        } else if same_text(conclusion, "NEUTRAL") || same_text(conclusion, "SKIPPED") {
            Outcome::Skipped
        } else if same_text(status, "IN_PROGRESS") || same_text(status, "QUEUED") || same_text(
            status,
            "PENDING",
        ) || same_text(status, "REQUESTED") || same_text(status, "WAITING") {
            Outcome::Pending
        } else {
            Outcome::Unknown
        }
    }
}

fn or_empty(s: &Option<String>) -> (t: &str)
    ensures
        t@ == text_or_empty(*s),
{
    match s {
        Some(t) => t.as_str(),
        None => {
            proof {
                reveal_strlit("");
            }
            assert(""@ =~= Seq::empty());
            ""
        },
    }
}

/// How the checks in a list count.
pub open spec fn outcomes(checks: Seq<CheckRollupItem>) -> Seq<Outcome> {
    checks.map_values(|c: CheckRollupItem| c.counts_as())
}

/// How often an outcome occurs in a list.
pub open spec fn tally(list: Seq<Outcome>, outcome: Outcome) -> nat {
    list.to_multiset().count(outcome)
}

/// How many checks count in the total: all that passed, failed or wait.
pub open spec fn active(list: Seq<Outcome>) -> nat {
    tally(list, Outcome::Passed) + tally(list, Outcome::Failed) + tally(list, Outcome::Pending)
}

/// The aggregated status. Failure goes before waiting. Without an active check
/// it is success where some were skipped, and nothing otherwise.
pub open spec fn aggregate(list: Seq<Outcome>) -> Option<CheckState> {
    if active(list) == 0 {
        if tally(list, Outcome::Skipped) > 0 {
            Some(CheckState::Success)
        } else {
            None
        }
    } else if tally(list, Outcome::Failed) > 0 {
        Some(
            CheckState::Failure {
                passed: tally(list, Outcome::Passed) as u32,
                total: active(list) as u32,
            },
        )
    } else if tally(list, Outcome::Pending) > 0 {
        Some(
            CheckState::Pending {
                passed: tally(list, Outcome::Passed) as u32,
                total: active(list) as u32,
            },
        )
    } else {
        Some(CheckState::Success)
    }
}

/// Whether the numbers of checks fit the counters.
pub open spec fn countable(list: Seq<Outcome>) -> bool {
    active(list) <= u32::MAX && tally(list, Outcome::Skipped) <= u32::MAX
}

/// The numbers of checks by outcome.
struct Tally {
    passed: u64,
    failed: u64,
    pending: u64,
    skipped: u64,
}

impl Tally {
    spec fn of(self, list: Seq<Outcome>) -> bool {
        &&& self.passed == tally(list, Outcome::Passed)
        &&& self.failed == tally(list, Outcome::Failed)
        &&& self.pending == tally(list, Outcome::Pending)
        &&& self.skipped == tally(list, Outcome::Skipped)
        &&& self.passed + self.failed + self.pending + self.skipped <= list.len()
    }
}

fn count(checks: &[CheckRollupItem]) -> (tally: Tally)
    ensures
        tally.of(outcomes(checks@)),
{
    broadcast use vstd::seq_lib::group_to_multiset_ensures;

    let ghost all = outcomes(checks@);
    let mut t: Tally = Tally { passed: 0, failed: 0, pending: 0, skipped: 0 };
    let mut i: usize = 0;
    assert(all.take(0) =~= Seq::<Outcome>::empty());
    while i < checks.len()
        invariant
            all == outcomes(checks@),
            i <= checks@.len(),
            t.of(all.take(i as int)),
        decreases checks@.len() - i,
    {
        broadcast use vstd::seq_lib::group_to_multiset_ensures;

        let outcome: Outcome = checks[i].outcome();
        assert(all.take(i + 1) =~= all.take(i as int).push(outcome));
        match outcome {
            Outcome::Passed => {
                t.passed = t.passed + 1;
            },
            Outcome::Failed => {
                t.failed = t.failed + 1;
            },
            Outcome::Skipped => {
                t.skipped = t.skipped + 1;
            },
            Outcome::Pending => {
                t.pending = t.pending + 1;
            },
            Outcome::Unknown => {},
        }
        i += 1;
    }
    assert(all.take(checks@.len() as int) =~= all);
    t
}

/// Whether the numbers of checks fit the counters of `aggregate_checks`.
pub fn can_aggregate(checks: &[CheckRollupItem]) -> (yes: bool)
    ensures
        yes == countable(outcomes(checks@)),
{
    let t: Tally = count(checks);
    let limit: u64 = 0xffff_ffff;
    t.passed <= limit && t.failed <= limit && t.pending <= limit && t.passed + t.failed + t.pending
        <= limit && t.skipped <= limit
}

/// Aggregates the checks of a pull request.
pub fn aggregate_checks(checks: &[CheckRollupItem]) -> (state: Option<CheckState>)
    requires
        countable(outcomes(checks@)),
    ensures
        state == aggregate(outcomes(checks@)),
{
    let t: Tally = count(checks);
    let passed: u32 = t.passed as u32;
    let total: u32 = (t.passed + t.failed + t.pending) as u32;
    if total == 0 {
        if t.skipped > 0 {
            Some(CheckState::Success)
        } else {
            None
        }
    } else if t.failed > 0 {
        Some(CheckState::Failure { passed, total })
    } else if t.pending > 0 {
        Some(CheckState::Pending { passed, total })
    } else {
        Some(CheckState::Success)
    }
}

/// The order of the checks does not matter.
pub proof fn law_order_irrelevant(a: Seq<CheckRollupItem>, b: Seq<CheckRollupItem>)
    requires
        a.to_multiset() == b.to_multiset(),
    ensures
        aggregate(outcomes(a)) == aggregate(outcomes(b)),
{
    lemma_outcomes_permuted(a, b);
}

proof fn lemma_outcomes_permuted(a: Seq<CheckRollupItem>, b: Seq<CheckRollupItem>)
    requires
        a.to_multiset() == b.to_multiset(),
    ensures
        outcomes(a).to_multiset() == outcomes(b).to_multiset(),
    decreases a.len(),
{
    broadcast use vstd::seq_lib::group_to_multiset_ensures;

    assert(a.len() == a.to_multiset().len());
    assert(b.len() == b.to_multiset().len());
    if a.len() == 0 {
        assert(a =~= b);
    } else {
        let x = a.last();
        let part = a.drop_last();
        assert(a =~= part.push(x));
        assert(a.to_multiset() =~= part.to_multiset().insert(x));
        assert(b.to_multiset().contains(x));
        assert(b.contains(x));
        let k = choose|k: int| 0 <= k < b.len() && b[k] == x;
        assert(b.remove(k).to_multiset() =~= b.to_multiset().remove(x));
        assert(part.to_multiset() =~= b.remove(k).to_multiset());
        lemma_outcomes_permuted(part, b.remove(k));
        assert(outcomes(a) =~= outcomes(part).push(x.counts_as()));
        assert(outcomes(b.remove(k)) =~= outcomes(b).remove(k));
        assert(outcomes(b)[k] == x.counts_as());
        assert(outcomes(b).remove(k).to_multiset() =~= outcomes(b).to_multiset().remove(
            x.counts_as(),
        ));
        assert(outcomes(b).contains(outcomes(b)[k]));
        assert(outcomes(b).to_multiset().count(x.counts_as()) > 0);
        assert(outcomes(a).to_multiset() =~= outcomes(b).to_multiset());
    }
}

proof fn lemma_tally_push(list: Seq<Outcome>, added: Outcome, outcome: Outcome)
    ensures
        tally(list.push(added), outcome) == tally(list, outcome) + if added == outcome {
            1nat
        } else {
            0nat
        },
{
    broadcast use vstd::seq_lib::group_to_multiset_ensures;

}

proof fn lemma_active_bound(list: Seq<Outcome>)
    ensures
        active(list) + tally(list, Outcome::Skipped) <= list.len(),
        list.len() == 0 ==> active(list) + tally(list, Outcome::Skipped) == 0,
    decreases list.len(),
{
    broadcast use vstd::seq_lib::group_to_multiset_ensures;

    if list.len() == 0 {
        assert(list =~= Seq::<Outcome>::empty());
    } else {
        let part = list.drop_last();
        assert(list =~= part.push(list.last()));
        lemma_active_bound(part);
        lemma_tally_push(part, list.last(), Outcome::Passed);
        lemma_tally_push(part, list.last(), Outcome::Failed);
        lemma_tally_push(part, list.last(), Outcome::Pending);
        lemma_tally_push(part, list.last(), Outcome::Skipped);
    }
}

/// A failed check makes the aggregate a failure, whatever else waits or passed,
/// and fewer checks have passed than there are.
pub proof fn law_failure_takes_priority(list: Seq<Outcome>)
    requires
        countable(list),
    ensures
        list.contains(Outcome::Failed) <==> aggregate(list) is Some && aggregate(list)->0 is Failure,
        list.contains(Outcome::Failed) ==> aggregate(list)->0->Failure_passed
            < aggregate(list)->0->Failure_total <= list.len(),
{
    broadcast use vstd::seq_lib::group_to_multiset_ensures;

    lemma_active_bound(list);
}

/// Without a failed check a waiting one makes the aggregate pending, and fewer
/// checks have passed than there are.
pub proof fn law_pending_without_failure(list: Seq<Outcome>)
    requires
        countable(list),
    ensures
        !list.contains(Outcome::Failed) && list.contains(Outcome::Pending) <==> aggregate(
            list,
        ) is Some && aggregate(list)->0 is Pending,
        aggregate(list) is Some && aggregate(list)->0 is Pending ==> aggregate(
            list,
        )->0->Pending_passed < aggregate(list)->0->Pending_total <= list.len(),
{
    broadcast use vstd::seq_lib::group_to_multiset_ensures;

    lemma_active_bound(list);
}

/// Success means that a check passed or was skipped and none failed or waits.
pub proof fn law_success(list: Seq<Outcome>)
    ensures
        aggregate(list) == Some(CheckState::Success) <==> !list.contains(Outcome::Failed)
            && !list.contains(Outcome::Pending) && (list.contains(Outcome::Passed)
            || list.contains(Outcome::Skipped)),
{
    broadcast use vstd::seq_lib::group_to_multiset_ensures;

    lemma_active_bound(list);
}

/// There is no aggregate where no check is known.
pub proof fn law_nothing_known(list: Seq<Outcome>)
    ensures
        aggregate(list) is None <==> forall|i: int|
            0 <= i < list.len() ==> (#[trigger] list[i]) == Outcome::Unknown,
{
    broadcast use vstd::seq_lib::group_to_multiset_ensures;

    if forall|i: int| 0 <= i < list.len() ==> (#[trigger] list[i]) == Outcome::Unknown {
        assert(!list.contains(Outcome::Passed));
        assert(!list.contains(Outcome::Failed));
        assert(!list.contains(Outcome::Pending));
        assert(!list.contains(Outcome::Skipped));
    }
    if aggregate(list) is None {
        assert forall|i: int| 0 <= i < list.len() implies (#[trigger] list[i])
            == Outcome::Unknown by {
            assert(list.contains(list[i]));
            assert(tally(list, list[i]) > 0);
        }
    }
}

/// A skipped check does not count where others do, and an unknown one never does.
pub proof fn law_skipped_not_counted(list: Seq<Outcome>)
    ensures
        active(list) > 0 ==> aggregate(list.push(Outcome::Skipped)) == aggregate(list),
        aggregate(list.push(Outcome::Unknown)) == aggregate(list),
{
    let skipped = Outcome::Skipped;
    let unknown = Outcome::Unknown;
    lemma_tally_push(list, skipped, Outcome::Passed);
    lemma_tally_push(list, skipped, Outcome::Failed);
    lemma_tally_push(list, skipped, Outcome::Pending);
    lemma_tally_push(list, skipped, Outcome::Skipped);
    lemma_tally_push(list, unknown, Outcome::Passed);
    lemma_tally_push(list, unknown, Outcome::Failed);
    lemma_tally_push(list, unknown, Outcome::Pending);
    lemma_tally_push(list, unknown, Outcome::Skipped);
}

/// A pull request in a list that names the owners of the head repositories.
#[derive(Debug)]
pub struct PrListResult {
    pub number: u32,
    pub title: String,
    pub state: String,
    pub is_draft: bool,
    pub head_repository_owner: RepositoryOwner,
}

impl PrListResult {
    /// Whether the head repository belongs to the owner. Names of GitHub users
    /// do not distinguish upper and lower case.
    pub open spec fn owned_by(self, owner: Seq<char>) -> bool {
        text::equal_ignoring_case(self.head_repository_owner.login@, owner)
    }

    /// The summary, without checks.
    pub open spec fn summary(self) -> SummaryModel {
        SummaryModel {
            number: self.number,
            title: self.title@,
            state: self.state@,
            is_draft: self.is_draft,
            checks: None,
        }
    }
}

/// Whether the first pull request of the owner stands at `i`.
pub open spec fn first_owned(prs: Seq<PrListResult>, owner: Seq<char>, i: int) -> bool {
    &&& 0 <= i < prs.len()
    &&& (#[trigger] prs[i]).owned_by(owner)
    &&& forall|j: int| 0 <= j < i ==> !(#[trigger] prs[j]).owned_by(owner)
}

/// Finds the first pull request of the owner in a list of those for a branch;
/// `listing` is nothing where the GitHub CLI gave no list.
pub fn find_pr_by_head_ref(owner: &str, listing: Option<Vec<PrListResult>>) -> (found: Option<
    PrSummary,
>)
    ensures
        match found {
            Some(summary) => listing is Some && exists|i: int|
                #[trigger] first_owned(listing->0@, owner@, i) && summary@
                    == listing->0@[i].summary(),
            None => listing is Some ==> forall|i: int|
                0 <= i < listing->0@.len() ==> !(#[trigger] listing->0@[i]).owned_by(owner@),
        },
{
    let prs: Vec<PrListResult> = match listing {
        Some(prs) => prs,
        None => {
            return None;
        },
    };
    let ghost all = prs@;
    for pr in iter: prs.into_iter()
        invariant
            iter.seq() == all,
            listing == Some(prs),
            prs@ == all,
            forall|j: int| 0 <= j < iter.index() ==> !(#[trigger] all[j]).owned_by(owner@),
    {
        let ghost at = iter.index() as int;
        assert(all[at] == pr);
        if same_ignoring_case(pr.head_repository_owner.login.as_str(), owner) {
            let summary: PrSummary = PrSummary {
                number: pr.number,
                title: pr.title,
                state: pr.state,
                is_draft: pr.is_draft,
                checks: None,
            };
            assert(first_owned(listing->0@, owner@, at) && summary@ == listing->0@[at].summary());
            return Some(summary);
        }
    }
    None
}

/// A pull request in a list that names head branches and checks.
#[derive(Debug)]
pub struct PrBatchItem {
    pub number: u32,
    pub title: String,
    pub state: String,
    pub is_draft: bool,
    pub head_ref_name: String,
    pub status_check_rollup: Vec<CheckRollupItem>,
}

impl PrBatchItem {
    /// The summary, with the aggregated checks.
    pub open spec fn summary(self) -> SummaryModel {
        SummaryModel {
            number: self.number,
            title: self.title@,
            state: self.state@,
            is_draft: self.is_draft,
            checks: aggregate(outcomes(self.status_check_rollup@)),
        }
    }

    /// Whether the checks can be aggregated.
    pub open spec fn countable(self) -> bool {
        countable(outcomes(self.status_check_rollup@))
    }

    /// Whether the checks can be aggregated.
    pub fn is_countable(&self) -> (yes: bool)
        ensures
            yes == self.countable(),
    {
        can_aggregate(self.status_check_rollup.as_slice())
    }
}

/// Whether the checks of every pull request can be aggregated.
pub open spec fn all_countable(prs: Seq<PrBatchItem>) -> bool {
    forall|i: int| 0 <= i < prs.len() ==> (#[trigger] prs[i]).countable()
}

/// Summaries of pull requests by head branch.
#[derive(Debug, PartialEq, Eq)]
pub struct PrMap {
    /// The branches with their summaries, each branch once.
    pub entries: Vec<(String, PrSummary)>,
}

/// The summaries by branch that a list of entries holds; a later entry replaces
/// an earlier one.
pub open spec fn map_of(entries: Seq<(String, PrSummary)>) -> Map<Seq<char>, SummaryModel>
    decreases entries.len(),
{
    if entries.len() == 0 {
        Map::empty()
    } else {
        map_of(entries.drop_last()).insert(entries.last().0@, entries.last().1@)
    }
}

/// Whether no branch occurs twice.
pub open spec fn distinct_branches(entries: Seq<(String, PrSummary)>) -> bool {
    forall|i: int, j: int|
        0 <= i < j < entries.len() ==> (#[trigger] entries[i]).0@ != (#[trigger] entries[j]).0@
}

impl View for PrMap {
    type V = Map<Seq<char>, SummaryModel>;

    open spec fn view(&self) -> Map<Seq<char>, SummaryModel> {
        map_of(self.entries@)
    }
}

proof fn lemma_map_of(entries: Seq<(String, PrSummary)>)
    requires
        distinct_branches(entries),
    ensures
        forall|i: int|
            0 <= i < entries.len() ==> map_of(entries).contains_key((#[trigger] entries[i]).0@)
                && map_of(entries)[entries[i].0@] == entries[i].1@,
        forall|key: Seq<char>| #[trigger]
            map_of(entries).contains_key(key) ==> exists|i: int|
                0 <= i < entries.len() && (#[trigger] entries[i]).0@ == key,
    decreases entries.len(),
{
    if entries.len() > 0 {
        let part = entries.drop_last();
        assert(distinct_branches(part)) by {
            assert forall|i: int, j: int| 0 <= i < j < part.len() implies (#[trigger] part[i]).0@
                != (#[trigger] part[j]).0@ by {
                assert(part[i] == entries[i] && part[j] == entries[j]);
            }
        }
        lemma_map_of(part);
        assert forall|i: int| 0 <= i < entries.len() implies map_of(entries).contains_key(
            (#[trigger] entries[i]).0@,
        ) && map_of(entries)[entries[i].0@] == entries[i].1@ by {
            if i < part.len() {
                assert(part[i] == entries[i]);
                assert(entries[i].0@ != entries[entries.len() - 1].0@);
            }
        }
        assert forall|key: Seq<char>| #[trigger]
            map_of(entries).contains_key(key) implies exists|i: int|
            0 <= i < entries.len() && (#[trigger] entries[i]).0@ == key by {
            if key == entries.last().0@ {
                assert(entries[entries.len() - 1].0@ == key);
            } else {
                assert(map_of(part).contains_key(key));
                let i = choose|i: int| 0 <= i < part.len() && (#[trigger] part[i]).0@ == key;
                assert(entries[i].0@ == key);
            }
        }
    }
}

impl PrMap {
    /// Whether each branch occurs once.
    pub open spec fn well_formed(self) -> bool {
        distinct_branches(self.entries@)
    }

    /// A map without entries.
    pub fn new() -> (map: PrMap)
        ensures
            map.well_formed(),
            map@ == Map::<Seq<char>, SummaryModel>::empty(),
    {
        PrMap { entries: Vec::new() }
    }

    /// Binds a branch to a summary, in place of an earlier one.
    pub fn insert(&mut self, branch: String, summary: PrSummary)
        requires
            old(self).well_formed(),
        ensures
            final(self).well_formed(),
            final(self)@ == old(self)@.insert(branch@, summary@),
    {
        let ghost before = self.entries@;
        let ghost key = branch@;
        let ghost value = summary@;
        let mut i: usize = 0;
        while i < self.entries.len() && !same_text(self.entries[i].0.as_str(), branch.as_str())
            invariant
                self.entries@ == before,
                i <= before.len(),
                forall|j: int| 0 <= j < i ==> (#[trigger] before[j]).0@ != branch@,
            decreases before.len() - i,
        {
            i += 1;
        }
        if i < self.entries.len() {
            self.entries.set(i, (branch, summary));
        } else {
            self.entries.push((branch, summary));
        }
        proof {
            let after = self.entries@;
            let at = i as int;
            assert(after[at].0@ == key && after[at].1@ == value);
            assert forall|m: int, n: int| 0 <= m < n < after.len() implies (#[trigger] after[m]).0@
                != (#[trigger] after[n]).0@ by {
                if m != at {
                    assert(after[m] == before[m]);
                }
                if n != at {
                    assert(after[n] == before[n]);
                }
                if at < before.len() {
                    assert(before[m].0@ != before[n].0@);
                }
            }
            lemma_map_of(before);
            lemma_map_of(after);
            assert forall|k: Seq<char>| #[trigger]
                map_of(after).contains_key(k) == map_of(before).insert(key, value).contains_key(
                    k,
                ) by {
                if map_of(after).contains_key(k) {
                    let n = choose|n: int| 0 <= n < after.len() && (#[trigger] after[n]).0@ == k;
                    if n != at {
                        assert(after[n] == before[n]);
                    }
                }
                if map_of(before).contains_key(k) {
                    let n = choose|n: int| 0 <= n < before.len() && (#[trigger] before[n]).0@ == k;
                    if n != at {
                        assert(after[n] == before[n]);
                    } else {
                        assert(after[at].0@ == k);
                    }
                }
                assert(map_of(after).contains_key(after[at].0@));
            }
            assert forall|k: Seq<char>| #[trigger]
                map_of(after).contains_key(k) implies map_of(after)[k] == map_of(before).insert(
                key,
                value,
            )[k] by {
                let n = choose|n: int| 0 <= n < after.len() && (#[trigger] after[n]).0@ == k;
                if n == at {
                    assert(map_of(after)[after[at].0@] == value);
                } else {
                    assert(after[n] == before[n]);
                    assert(after[n].0@ != key) by {
                        if n < at {
                            assert(before[n].0@ != key);
                        } else {
                            assert(after[at].0@ != after[n].0@);
                        }
                    }
                    assert(map_of(before)[before[n].0@] == before[n].1@);
                }
            }
            assert(map_of(after) =~= map_of(before).insert(key, value));
        }
    }
}

/// The summaries by branch of a list of pull requests; a later pull request
/// replaces an earlier one of the same branch.
pub open spec fn summaries(prs: Seq<PrBatchItem>) -> Map<Seq<char>, SummaryModel>
    decreases prs.len(),
{
    if prs.len() == 0 {
        Map::empty()
    } else {
        summaries(prs.drop_last()).insert(prs.last().head_ref_name@, prs.last().summary())
    }
}

fn summarize(pr: PrBatchItem) -> (result: (String, PrSummary))
    requires
        pr.countable(),
    ensures
        result.0@ == pr.head_ref_name@,
        result.1@ == pr.summary(),
{
    let checks: Option<CheckState> = aggregate_checks(pr.status_check_rollup.as_slice());
    (
        pr.head_ref_name,
        PrSummary {
            number: pr.number,
            title: pr.title,
            state: pr.state,
            is_draft: pr.is_draft,
            checks,
        },
    )
}

/// Summarizes the pull requests of a repository by head branch; `listing` is
/// nothing where the GitHub CLI gave no list.
pub fn list_prs(listing: Option<Vec<PrBatchItem>>) -> (map: PrMap)
    requires
        listing is Some ==> all_countable(listing->0@),
    ensures
        map.well_formed(),
        map@ == match listing {
            Some(prs) => summaries(prs@),
            None => Map::empty(),
        },
{
    let mut map: PrMap = PrMap::new();
    let prs: Vec<PrBatchItem> = match listing {
        Some(prs) => prs,
        None => {
            return map;
        },
    };
    let ghost all = prs@;
    assert(all.take(0) =~= Seq::<PrBatchItem>::empty());
    for pr in iter: prs.into_iter()
        invariant
            iter.seq() == all,
            all_countable(all),
            map.well_formed(),
            map@ == summaries(all.take(iter.index() as int)),
    {
        let ghost at = iter.index() as int;
        proof {
            assert(all[at] == pr);
            assert(all.take(at + 1).drop_last() =~= all.take(at));
            assert(all.take(at + 1).last() == pr);
        }
        let (branch, summary) = summarize(pr);
        map.insert(branch, summary);
    }
    assert(all.take(all.len() as int) =~= all);
    map
}

/// The summaries by branch of the first pull request in each list.
pub open spec fn first_summaries(listings: Seq<Option<Vec<PrBatchItem>>>) -> Map<
    Seq<char>,
    SummaryModel,
>
    decreases listings.len(),
{
    if listings.len() == 0 {
        Map::empty()
    } else {
        let before = first_summaries(listings.drop_last());
        match listings.last() {
            Some(prs) => if prs@.len() > 0 {
                before.insert(prs@[0].head_ref_name@, prs@[0].summary())
            } else {
                before
            },
            None => before,
        }
    }
}

/// Whether the checks of the first pull request in each list can be aggregated.
pub open spec fn first_countable(listings: Seq<Option<Vec<PrBatchItem>>>) -> bool {
    forall|i: int|
        0 <= i < listings.len() && (#[trigger] listings[i]) is Some && listings[i]->0@.len() > 0
            ==> listings[i]->0@[0].countable()
}

/// Summarizes the pull requests of single branches. Each list holds what the
/// GitHub CLI found for one branch; a branch for which it gave no list, or an
/// empty one, is passed over.
pub fn list_prs_for_branches(listings: Vec<Option<Vec<PrBatchItem>>>) -> (map: PrMap)
    requires
        first_countable(listings@),
    ensures
        map.well_formed(),
        map@ == first_summaries(listings@),
{
    let mut map: PrMap = PrMap::new();
    let ghost all = listings@;
    assert(all.take(0) =~= Seq::<Option<Vec<PrBatchItem>>>::empty());
    for listing in iter: listings.into_iter()
        invariant
            iter.seq() == all,
            first_countable(all),
            map.well_formed(),
            map@ == first_summaries(all.take(iter.index() as int)),
    {
        let ghost at = iter.index() as int;
        proof {
            assert(all[at] == listing);
            assert(all.take(at + 1).drop_last() =~= all.take(at));
            assert(all.take(at + 1).last() == listing);
        }
        if let Some(prs) = listing {
            let mut prs: Vec<PrBatchItem> = prs;
            if prs.len() > 0 {
                let (branch, summary) = summarize(prs.remove(0));
                map.insert(branch, summary);
            }
        }
    }
    assert(all.take(all.len() as int) =~= all);
    map
}

/// Whether the pull request at `i` has the branch.
pub open spec fn has_branch(prs: Seq<PrBatchItem>, branch: Seq<char>, i: int) -> bool {
    0 <= i < prs.len() && prs[i].head_ref_name@ == branch
}

/// Whether the pull request at `i` is the last that has the branch.
pub open spec fn last_with(prs: Seq<PrBatchItem>, branch: Seq<char>, i: int) -> bool {
    has_branch(prs, branch, i) && forall|j: int| i < j ==> !#[trigger] has_branch(prs, branch, j)
}

/// Where the last pull request has another branch, the branch is where it was
/// without it.
proof fn lemma_branch_before(prs: Seq<PrBatchItem>, branch: Seq<char>)
    requires
        prs.len() > 0,
        prs.last().head_ref_name@ != branch,
    ensures
        forall|i: int| #[trigger]
            has_branch(prs, branch, i) <==> has_branch(prs.drop_last(), branch, i),
{
    let part = prs.drop_last();
    assert forall|i: int| #[trigger] has_branch(prs, branch, i) <==> has_branch(part, branch, i) by {
        if 0 <= i < part.len() {
            assert(part[i] == prs[i]);
        }
    }
}

/// A branch is in the map exactly where a pull request has it.
pub proof fn law_branches_of_prs(prs: Seq<PrBatchItem>, branch: Seq<char>)
    ensures
        summaries(prs).contains_key(branch) <==> exists|i: int| #[trigger]
            has_branch(prs, branch, i),
    decreases prs.len(),
{
    if prs.len() > 0 {
        if prs.last().head_ref_name@ == branch {
            assert(has_branch(prs, branch, prs.len() - 1));
        } else {
            let part = prs.drop_last();
            law_branches_of_prs(part, branch);
            lemma_branch_before(prs, branch);
            if exists|i: int| #[trigger] has_branch(part, branch, i) {
                let i = choose|i: int| #[trigger] has_branch(part, branch, i);
                assert(has_branch(prs, branch, i));
            }
        }
    }
}

/// The last pull request that has a branch is the one in the map.
pub proof fn law_last_pr_of_branch(prs: Seq<PrBatchItem>, branch: Seq<char>, i: int)
    requires
        last_with(prs, branch, i),
    ensures
        summaries(prs).contains_key(branch),
        summaries(prs)[branch] == prs[i].summary(),
    decreases prs.len(),
{
    let last = prs.len() - 1;
    if prs[last].head_ref_name@ == branch {
        assert(has_branch(prs, branch, last));
    } else {
        lemma_branch_before(prs, branch);
        assert(has_branch(prs.drop_last(), branch, i));
        assert forall|j: int| i < j implies !#[trigger] has_branch(
            prs.drop_last(),
            branch,
            j,
        ) by {
            assert(!has_branch(prs, branch, j));
        }
        law_last_pr_of_branch(prs.drop_last(), branch, i);
    }
}

/// How a run of the GitHub CLI ended.
#[derive(Debug, PartialEq, Eq)]
pub enum GhRun {
    /// The CLI is not installed.
    NotFound,
    /// The CLI could not be run for another reason.
    NotRun,
    /// The CLI ran to its end.
    Finished {
        /// Whether it reported success.
        success: bool,
        stdout: Vec<u8>,
        stderr: Vec<u8>,
    },
}

/// Why the GitHub CLI gave no answer.
#[derive(Debug)]
pub enum GhError {
    /// The CLI is needed and is not installed.
    MissingCli,
    /// The CLI could not be run.
    NotRun,
    /// The CLI did not find the pull request; `stderr` is what it said.
    FetchFailed { pr_number: u32, stderr: String },
    /// The answer is not UTF-8.
    NotUtf8(std::string::FromUtf8Error),
}

/// Why the GitHub CLI gave no answer, as mathematics sees it.
pub enum GhFault {
    MissingCli,
    NotRun,
    FetchFailed { pr_number: u32, stderr: Seq<char> },
    NotUtf8(Seq<char>),
}

impl View for GhError {
    type V = GhFault;

    open spec fn view(&self) -> GhFault {
        match self {
            GhError::MissingCli => GhFault::MissingCli,
            GhError::NotRun => GhFault::NotRun,
            GhError::FetchFailed { pr_number, stderr } => GhFault::FetchFailed {
                pr_number: *pr_number,
                stderr: stderr@,
            },
            GhError::NotUtf8(cause) => GhFault::NotUtf8(output::utf8_error_text(*cause)),
        }
    }
}

/// What a fault is reported as.
pub open spec fn fault_text(fault: GhFault) -> Seq<char> {
    match fault {
        GhFault::MissingCli => "GitHub CLI (gh) is required for --pr. Install from https://cli.github.com"@,
        GhFault::NotRun => "Failed to execute gh command"@,
        GhFault::FetchFailed { pr_number, stderr } => "Failed to fetch PR #"@ + text::decimal(
            pr_number as nat,
        ) + ": "@ + stderr,
        GhFault::NotUtf8(_) => "gh output is not valid UTF-8"@,
    }
}

impl GhError {
    /// The message that reports the error.
    pub fn message(&self) -> (message: String)
        ensures
            message@ == fault_text(self@),
    {
        match self {
            GhError::MissingCli => {
                "GitHub CLI (gh) is required for --pr. Install from https://cli.github.com".to_owned()
            },
            GhError::NotRun => "Failed to execute gh command".to_owned(),
            GhError::FetchFailed { pr_number, stderr } => {
                "Failed to fetch PR #".to_owned().concat(
                    format_natural(*pr_number as u64).as_str(),
                ).concat(": ").concat(stderr.as_str())
            },
            GhError::NotUtf8(_) => "gh output is not valid UTF-8".to_owned(),
        }
    }
}

/// The text of an answer in bytes.
pub open spec fn answer_text(stdout: Seq<u8>) -> Result<Seq<char>, GhFault> {
    if vstd::utf8::valid_utf8(stdout) {
        Ok(vstd::utf8::decode_utf8(stdout))
    } else {
        Err(GhFault::NotUtf8(output::utf8_fault(stdout)))
    }
}

/// The text of the answer to a request for a list. There is none where the CLI
/// is not installed or reports failure, which counts as an empty list.
pub open spec fn list_answer(run: GhRun) -> Result<Option<Seq<char>>, GhFault> {
    match run {
        GhRun::NotFound => Ok(None),
        GhRun::NotRun => Err(GhFault::NotRun),
        GhRun::Finished { success, stdout, .. } => if !success {
            Ok(None)
        } else {
            match answer_text(stdout@) {
                Ok(answer) => Ok(Some(answer)),
                Err(fault) => Err(fault),
            }
        },
    }
}

/// The text of the answer to a request for a list of pull requests.
pub fn list_reply(run: GhRun) -> (reply: Result<Option<String>, GhError>)
    ensures
        match reply {
            Ok(Some(answer)) => list_answer(run) == Ok::<_, GhFault>(Some(answer@)),
            Ok(None) => list_answer(run) == Ok::<_, GhFault>(None::<Seq<char>>),
            Err(error) => list_answer(run) == Err::<Option<Seq<char>>, _>(error@),
        },
{
    match run {
        GhRun::NotFound => Ok(None),
        GhRun::NotRun => Err(GhError::NotRun),
        GhRun::Finished { success, stdout, .. } => if !success {
            Ok(None)
        } else {
            match decode(stdout) {
                Ok(answer) => Ok(Some(answer)),
                Err(error) => Err(GhError::NotUtf8(error)),
            }
        },
    }
}

/// The bytes of the answer to a request for a list in a given repository. There
/// are none where the CLI could not be run or reports failure, which counts as
/// an empty list.
pub open spec fn repo_answer(run: GhRun) -> Option<Seq<u8>> {
    match run {
        GhRun::Finished { success: true, stdout, .. } => Some(stdout@),
        _ => None,
    }
}

/// The bytes of the answer to a request for a list in a given repository. Every
/// failure counts as an empty list.
pub fn repo_reply(run: GhRun) -> (reply: Option<Vec<u8>>)
    ensures
        match reply {
            Some(bytes) => repo_answer(run) == Some(bytes@),
            None => repo_answer(run) is None,
        },
{
    match run {
        GhRun::Finished { success, stdout, .. } => if success {
            Some(stdout)
        } else {
            None
        },
        _ => None,
    }
}

/// Both requests for a list see one answer: where two runs print the same, the
/// text that the one gives is what the bytes that the other gives encode. Where
/// the one gives no list, a run that ended alike gives none to the other.
pub proof fn law_same_answer(here: GhRun, there: GhRun)
    requires
        here is Finished,
        there is Finished,
        here->success == there->success,
        here->stdout@ == there->stdout@,
    ensures
        list_answer(here) matches Ok(Some(answer)) ==> repo_answer(there) matches Some(bytes)
            && answer_text(bytes) == Ok::<_, GhFault>(answer),
        repo_answer(there) matches Some(bytes) ==> list_answer(here) == match answer_text(bytes) {
            Ok(answer) => Ok::<_, GhFault>(Some(answer)),
            Err(fault) => Err(fault),
        },
        list_answer(here) == Ok::<_, GhFault>(None::<Seq<char>>) <==> repo_answer(there) is None,
{
}

/// The text of the answer to a request for a pull request.
pub open spec fn details_answer(run: GhRun, pr_number: u32) -> Result<Seq<char>, GhFault> {
    match run {
        GhRun::NotFound => Err(GhFault::MissingCli),
        GhRun::NotRun => Err(GhFault::NotRun),
        GhRun::Finished { success, stdout, stderr } => if !success {
            Err(
                GhFault::FetchFailed {
                    pr_number,
                    stderr: text::trimmed(output::lossy_text(stderr@)),
                },
            )
        } else {
            answer_text(stdout@)
        },
    }
}

/// The text of the answer to a request for the details of a pull request.
pub fn details_reply(run: GhRun, pr_number: u32) -> (reply: Result<String, GhError>)
    ensures
        match reply {
            Ok(answer) => details_answer(run, pr_number) == Ok::<_, GhFault>(answer@),
            Err(error) => details_answer(run, pr_number) == Err::<Seq<char>, _>(error@),
        },
{
    match run {
        GhRun::NotFound => Err(GhError::MissingCli),
        GhRun::NotRun => Err(GhError::NotRun),
        GhRun::Finished { success, stdout, stderr } => if !success {
            let said: String = decode_lossy(&stderr);
            Err(GhError::FetchFailed { pr_number, stderr: trim(said.as_str()).to_owned() })
        } else {
            match decode(stdout) {
                Ok(answer) => Ok(answer),
                Err(error) => Err(GhError::NotUtf8(error)),
            }
        },
    }
}

/// The arguments that ask the CLI for the pull requests of a branch with their
/// owners. The CLI matches the branch alone, so that the owner is looked for in
/// the answer.
pub fn head_ref_query(branch: &str) -> (args: Vec<String>)
    ensures
        output::texts(args@) == seq![
            "pr"@,
            "list"@,
            "--head"@,
            branch@,
            "--state"@,
            "all"@,
            "--json"@,
            "number,title,state,isDraft,headRepositoryOwner"@,
            "--limit"@,
            "50"@,
        ],
{
    owned(
        vec![
            "pr",
            "list",
            "--head",
            branch,
            "--state",
            "all",
            "--json",
            "number,title,state,isDraft,headRepositoryOwner",
            "--limit",
            "50",
        ],
    )
}

/// The arguments that ask the CLI for the details of a pull request.
pub fn details_query(pr_number: u32) -> (args: Vec<String>)
    ensures
        output::texts(args@) == seq![
            "pr"@,
            "view"@,
            text::decimal(pr_number as nat),
            "--json"@,
            "headRefName,headRepositoryOwner,state,isDraft,title,author"@,
        ],
{
    let number: String = format_natural(pr_number as u64);
    owned(
        vec![
            "pr",
            "view",
            number.as_str(),
            "--json",
            "headRefName,headRepositoryOwner,state,isDraft,title,author",
        ],
    )
}

/// The limit for a request that is to give all pull requests. The CLI wants a
/// limit; this is the largest that it takes on every machine.
pub const NO_LIMIT: u32 = 0x7fff_ffff;

/// The arguments that ask the CLI for all pull requests of the current
/// repository, open, closed and merged.
pub fn list_query() -> (args: Vec<String>)
    ensures
        output::texts(args@) == seq![
            "pr"@,
            "list"@,
            "--state"@,
            "all"@,
            "--json"@,
            "number,title,state,isDraft,headRefName,statusCheckRollup"@,
            "--limit"@,
            text::decimal(NO_LIMIT as nat),
        ],
{
    let limit: String = format_natural(NO_LIMIT as u64);
    owned(
        vec![
            "pr",
            "list",
            "--state",
            "all",
            "--json",
            "number,title,state,isDraft,headRefName,statusCheckRollup",
            "--limit",
            limit.as_str(),
        ],
    )
}

/// What the CLI lists of all pull requests under a limit: the first ones.
pub open spec fn listed(all: Seq<PrBatchItem>, limit: nat) -> Seq<PrBatchItem> {
    if all.len() <= limit {
        all
    } else {
        all.take(limit as int)
    }
}

/// Where the CLI answers the request for all pull requests in full, every one of
/// them has its branch in the map. There are to be no more than the limit, the
/// largest number that the CLI can be asked for.
pub proof fn law_all_prs_in_map(all: Seq<PrBatchItem>, i: int)
    requires
        all.len() <= NO_LIMIT,
        0 <= i < all.len(),
    ensures
        summaries(listed(all, NO_LIMIT as nat)).contains_key(all[i].head_ref_name@),
{
    law_branches_of_prs(all, all[i].head_ref_name@);
    assert(has_branch(all, all[i].head_ref_name@, i));
}

/// The arguments that ask the CLI for pull requests of a given repository, open,
/// closed and merged, up to 200 of them.
pub fn repo_list_query() -> (args: Vec<String>)
    ensures
        output::texts(args@) == seq![
            "pr"@,
            "list"@,
            "--state"@,
            "all"@,
            "--json"@,
            "number,title,state,isDraft,headRefName,statusCheckRollup"@,
            "--limit"@,
            "200"@,
        ],
{
    owned(
        vec![
            "pr",
            "list",
            "--state",
            "all",
            "--json",
            "number,title,state,isDraft,headRefName,statusCheckRollup",
            "--limit",
            "200",
        ],
    )
}

/// The arguments that ask the CLI for the latest pull request of a branch.
pub fn branch_query(branch: &str) -> (args: Vec<String>)
    ensures
        output::texts(args@) == seq![
            "pr"@,
            "list"@,
            "--head"@,
            branch@,
            "--state"@,
            "all"@,
            "--json"@,
            "number,title,state,isDraft,headRefName,statusCheckRollup"@,
            "--limit"@,
            "1"@,
        ],
{
    owned(
        vec![
            "pr",
            "list",
            "--head",
            branch,
            "--state",
            "all",
            "--json",
            "number,title,state,isDraft,headRefName,statusCheckRollup",
            "--limit",
            "1",
        ],
    )
}

/// A check that says nothing in a field counts as one with an empty text there.
/// It counts as passed where one of its texts says success. Failing that, it is
/// failed by each of the texts that mean failure, then skipped by its conclusion,
/// then pending by its status.
pub proof fn law_outcome(check: CheckRollupItem)
    ensures
        ({
            let status = match check.status {
                Some(t) => t@,
                None => ""@,
            };
            let conclusion = match check.conclusion {
                Some(t) => t@,
                None => ""@,
            };
            let passed = status == "SUCCESS"@ || conclusion == "SUCCESS"@;
            let failed = conclusion == "FAILURE"@ || conclusion == "CANCELLED"@ || conclusion
                == "TIMED_OUT"@ || conclusion == "STARTUP_FAILURE"@ || conclusion
                == "ACTION_REQUIRED"@ || status == "FAILURE"@ || status == "ERROR"@;
            let skipped = conclusion == "NEUTRAL"@ || conclusion == "SKIPPED"@;
            let pending = status == "IN_PROGRESS"@ || status == "QUEUED"@ || status == "PENDING"@
                || status == "REQUESTED"@ || status == "WAITING"@;
            &&& check.counts_as() is Passed <==> passed
            &&& check.counts_as() is Failed <==> !passed && failed
            &&& check.counts_as() is Skipped <==> !passed && !failed && skipped
            &&& check.counts_as() is Pending <==> !passed && !failed && !skipped && pending
        }),
{
    reveal_strlit("");
    assert(""@ =~= Seq::<char>::empty());
}

/// Every check of a list counts, in its place.
pub proof fn law_outcomes(checks: Seq<CheckRollupItem>)
    ensures
        outcomes(checks).len() == checks.len(),
        forall|i: int|
            0 <= i < checks.len() ==> (#[trigger] outcomes(checks)[i]) == checks[i].counts_as(),
{
}

proof fn lemma_tally_filter(list: Seq<Outcome>)
    ensures
        tally(list, Outcome::Passed) == list.filter(|o: Outcome| o is Passed).len(),
        tally(list, Outcome::Skipped) == list.filter(|o: Outcome| o is Skipped).len(),
        active(list) == list.filter(|o: Outcome| o is Passed || o is Failed || o is Pending).len(),
    decreases list.len(),
{
    broadcast use vstd::seq_lib::group_to_multiset_ensures;

    reveal(Seq::filter);
    if list.len() == 0 {
        assert(list =~= Seq::<Outcome>::empty());
    } else {
        let part = list.drop_last();
        let last = list.last();
        assert(list =~= part.push(last));
        lemma_tally_filter(part);
        lemma_tally_push(part, last, Outcome::Passed);
        lemma_tally_push(part, last, Outcome::Failed);
        lemma_tally_push(part, last, Outcome::Pending);
        lemma_tally_push(part, last, Outcome::Skipped);
    }
}

/// The numbers in an aggregate count the checks: `passed` those that passed, and
/// `total` those that passed, failed or wait.
pub proof fn law_counts(list: Seq<Outcome>)
    requires
        countable(list),
    ensures
        aggregate(list) matches Some(CheckState::Failure { passed, total }) ==> passed
            == list.filter(|o: Outcome| o is Passed).len() && total == list.filter(
            |o: Outcome| o is Passed || o is Failed || o is Pending,
        ).len(),
        aggregate(list) matches Some(CheckState::Pending { passed, total }) ==> passed
            == list.filter(|o: Outcome| o is Passed).len() && total == list.filter(
            |o: Outcome| o is Passed || o is Failed || o is Pending,
        ).len(),
{
    lemma_tally_filter(list);
}

/// Checks can be aggregated exactly where the counters hold their numbers.
pub proof fn law_countable(list: Seq<Outcome>)
    ensures
        countable(list) <==> list.filter(
            |o: Outcome| o is Passed || o is Failed || o is Pending,
        ).len() <= 0xffff_ffff && list.filter(|o: Outcome| o is Skipped).len() <= 0xffff_ffff,
        list.len() <= 0xffff_ffff ==> countable(list),
{
    lemma_tally_filter(list);
    lemma_active_bound(list);
}

/// One check more counts in the total of a failure, and in its passed ones only
/// where it passed.
pub proof fn law_one_check_more(list: Seq<Outcome>, check: Outcome)
    requires
        countable(list.push(check)),
        countable(list),
        aggregate(list) is Some,
        aggregate(list)->0 is Failure,
    ensures
        ({
            let passed = aggregate(list)->0->Failure_passed;
            let total = aggregate(list)->0->Failure_total;
            let after = aggregate(list.push(check));
            &&& after is Some && after->0 is Failure
            &&& after->0->Failure_passed == passed + if check is Passed {
                1int
            } else {
                0int
            }
            &&& after->0->Failure_total == total + if check is Skipped || check is Unknown {
                0int
            } else {
                1int
            }
        }),
{
    lemma_tally_push(list, check, Outcome::Passed);
    lemma_tally_push(list, check, Outcome::Failed);
    lemma_tally_push(list, check, Outcome::Pending);
    lemma_tally_push(list, check, Outcome::Skipped);
}

/// A pull request belongs to an owner exactly where the logins are equal up to
/// the case of ASCII letters.
pub proof fn law_owned_by(pr: PrListResult, owner: Seq<char>)
    ensures
        ({
            let login = pr.head_repository_owner.login@;
            pr.owned_by(owner) <==> login.len() == owner.len() && forall|i: int|
                0 <= i < login.len() ==> (#[trigger] login[i]) == owner[i] || ('A' <= login[i]
                    <= 'Z' && owner[i] as int == login[i] as int + 32) || ('A' <= owner[i] <= 'Z'
                    && login[i] as int == owner[i] as int + 32)
        }),
{
    text::law_equal_ignoring_case(pr.head_repository_owner.login@, owner);
}

/// The first pull request of an owner is one of theirs with none of theirs before
/// it, and there is one wherever they have any.
pub proof fn law_first_owned(prs: Seq<PrListResult>, owner: Seq<char>, i: int)
    ensures
        first_owned(prs, owner, i) <==> 0 <= i < prs.len() && prs[i].owned_by(owner) && forall|j: int|
            0 <= j < i ==> !(#[trigger] prs[j]).owned_by(owner),
        0 <= i < prs.len() && prs[i].owned_by(owner) ==> exists|k: int|
            k <= i && #[trigger] first_owned(prs, owner, k),
    decreases i,
{
    if 0 <= i < prs.len() && prs[i].owned_by(owner) {
        if forall|j: int| 0 <= j < i ==> !(#[trigger] prs[j]).owned_by(owner) {
            assert(first_owned(prs, owner, i));
        } else {
            let j = choose|j: int| 0 <= j < i && (#[trigger] prs[j]).owned_by(owner);
            law_first_owned(prs, owner, j);
            let k = choose|k: int| k <= j && #[trigger] first_owned(prs, owner, k);
            assert(k <= i && first_owned(prs, owner, k));
        }
    }
}

/// A summary has what the pull request says, of a search by owner without
/// checks, of a list with the aggregate of its checks.
pub proof fn law_summary(found: PrListResult, listed: PrBatchItem, summary: PrSummary)
    ensures
        found.summary().number == found.number,
        found.summary().title == found.title@,
        found.summary().state == found.state@,
        found.summary().is_draft == found.is_draft,
        found.summary().checks is None,
        listed.summary().number == listed.number,
        listed.summary().title == listed.title@,
        listed.summary().state == listed.state@,
        listed.summary().is_draft == listed.is_draft,
        listed.summary().checks == aggregate(outcomes(listed.status_check_rollup@)),
        summary@.number == summary.number,
        summary@.title == summary.title@,
        summary@.state == summary.state@,
        summary@.is_draft == summary.is_draft,
        summary@.checks == summary.checks,
{
}

/// A list of pull requests can be summarized exactly where the checks of each can
/// be aggregated; of lists for single branches the first of each counts.
pub proof fn law_lists_countable(
    prs: Seq<PrBatchItem>,
    listings: Seq<Option<Vec<PrBatchItem>>>,
)
    ensures
        all_countable(prs) <==> forall|i: int|
            0 <= i < prs.len() ==> countable(
                outcomes((#[trigger] prs[i]).status_check_rollup@),
            ),
        first_countable(listings) <==> forall|i: int|
            0 <= i < listings.len() ==> ((#[trigger] listings[i]) matches Some(list)
                ==> (list@.len() > 0 ==> countable(outcomes(list@[0].status_check_rollup@)))),
{
    assert(all_countable(prs) ==> forall|i: int|
        0 <= i < prs.len() ==> (#[trigger] prs[i]).countable());
    if first_countable(listings) {
        assert forall|i: int| 0 <= i < listings.len() implies ((
        #[trigger] listings[i]) matches Some(list) ==> (list@.len() > 0 ==> countable(
            outcomes(list@[0].status_check_rollup@),
        ))) by {
            if listings[i] is Some && listings[i]->0@.len() > 0 {
                assert(listings[i]->0@[0].countable());
            }
        }
    }
}

/// A map holds the entries that it lists, each branch once and nothing else.
pub proof fn law_map_entries(map: PrMap, branch: Seq<char>)
    requires
        map.well_formed(),
    ensures
        forall|i: int, j: int|
            0 <= i < j < map.entries@.len() ==> (#[trigger] map.entries@[i]).0@
                != (#[trigger] map.entries@[j]).0@,
        forall|i: int|
            0 <= i < map.entries@.len() ==> map@.contains_key((#[trigger] map.entries@[i]).0@)
                && map@[map.entries@[i].0@] == map.entries@[i].1@,
        map@.contains_key(branch) ==> exists|i: int|
            0 <= i < map.entries@.len() && (#[trigger] map.entries@[i]).0@ == branch,
{
    lemma_map_of(map.entries@);
}

/// Whether the first pull request of the list at `i` has the branch.
pub open spec fn heads(
    listings: Seq<Option<Vec<PrBatchItem>>>,
    branch: Seq<char>,
    i: int,
) -> bool {
    &&& 0 <= i < listings.len()
    &&& listings[i] is Some
    &&& listings[i]->0@.len() > 0
    &&& listings[i]->0@[0].head_ref_name@ == branch
}

proof fn lemma_heads_before(listings: Seq<Option<Vec<PrBatchItem>>>, branch: Seq<char>)
    requires
        listings.len() > 0,
    ensures
        forall|i: int|
            i < listings.len() - 1 ==> #[trigger] heads(listings, branch, i) == heads(
                listings.drop_last(),
                branch,
                i,
            ),
{
    let part = listings.drop_last();
    assert forall|i: int| i < listings.len() - 1 implies #[trigger] heads(listings, branch, i)
        == heads(part, branch, i) by {
        if 0 <= i {
            assert(part[i] == listings[i]);
        }
    }
}

/// Of lists for single branches, the map has exactly the branches of the first
/// pull request of each list that is there and not empty, whatever its state.
pub proof fn law_branches_of_listings(
    listings: Seq<Option<Vec<PrBatchItem>>>,
    branch: Seq<char>,
)
    ensures
        first_summaries(listings).contains_key(branch) <==> exists|i: int| #[trigger]
            heads(listings, branch, i),
    decreases listings.len(),
{
    if listings.len() > 0 {
        let part = listings.drop_last();
        let last = listings.len() - 1;
        law_branches_of_listings(part, branch);
        lemma_heads_before(listings, branch);
        if exists|i: int| #[trigger] heads(part, branch, i) {
            let i = choose|i: int| #[trigger] heads(part, branch, i);
            assert(heads(listings, branch, i));
        }
        if exists|i: int| #[trigger] heads(listings, branch, i) {
            let i = choose|i: int| #[trigger] heads(listings, branch, i);
            if i < last {
                assert(heads(part, branch, i));
            }
        }
        if first_summaries(listings).contains_key(branch) && !first_summaries(part).contains_key(
            branch,
        ) {
            assert(heads(listings, branch, last));
        }
    }
}

/// A branch is bound to the first pull request of the last list whose first pull
/// request has it.
pub proof fn law_first_pr_of_listing(
    listings: Seq<Option<Vec<PrBatchItem>>>,
    branch: Seq<char>,
    i: int,
)
    requires
        heads(listings, branch, i),
        forall|j: int| i < j ==> !#[trigger] heads(listings, branch, j),
    ensures
        first_summaries(listings).contains_key(branch),
        first_summaries(listings)[branch] == listings[i]->0@[0].summary(),
    decreases listings.len(),
{
    let part = listings.drop_last();
    let last = listings.len() - 1;
    if i < last {
        lemma_heads_before(listings, branch);
        assert(!heads(listings, branch, last));
        assert(heads(part, branch, i));
        assert forall|j: int| i < j implies !#[trigger] heads(part, branch, j) by {
            if j < last {
                assert(!heads(listings, branch, j));
            }
        }
        law_first_pr_of_listing(part, branch, i);
        assert(part[i] == listings[i]);
    }
}

/// What each end of a run means: without the CLI, and where it reports failure,
/// there is no list; the details of a pull request are an error then, with what
/// the CLI said, trimmed. Another reason not to run is an error for both, but for
/// a list in a given repository. The output of a success is the answer.
pub proof fn law_replies(run: GhRun, pr_number: u32)
    ensures
        run is NotFound ==> list_answer(run) == Ok::<_, GhFault>(None::<Seq<char>>)
            && repo_answer(run) is None && details_answer(run, pr_number) == Err::<Seq<char>, _>(
            GhFault::MissingCli,
        ),
        run is NotRun ==> list_answer(run) == Err::<Option<Seq<char>>, _>(GhFault::NotRun)
            && repo_answer(run) is None && details_answer(run, pr_number) == Err::<Seq<char>, _>(
            GhFault::NotRun,
        ),
        run matches GhRun::Finished { success, stdout, stderr } ==> {
            &&& !success ==> list_answer(run) == Ok::<_, GhFault>(None::<Seq<char>>)
            &&& !success ==> repo_answer(run) is None
            &&& !success ==> details_answer(run, pr_number) == Err::<Seq<char>, _>(
                GhFault::FetchFailed {
                    pr_number,
                    stderr: text::trimmed(output::lossy_text(stderr@)),
                },
            )
            &&& success ==> repo_answer(run) == Some(stdout@)
            &&& success && vstd::utf8::valid_utf8(stdout@) ==> list_answer(run) == Ok::<_, GhFault>(
                Some(vstd::utf8::decode_utf8(stdout@)),
            ) && details_answer(run, pr_number) == Ok::<_, GhFault>(
                vstd::utf8::decode_utf8(stdout@),
            )
            &&& success && !vstd::utf8::valid_utf8(stdout@) ==> list_answer(run) == Err::<
                Option<Seq<char>>,
                _,
            >(GhFault::NotUtf8(output::utf8_fault(stdout@))) && details_answer(run, pr_number)
                == Err::<Seq<char>, _>(GhFault::NotUtf8(output::utf8_fault(stdout@)))
        },
{
}

/// What each error is reported as.
pub proof fn law_messages(error: GhError)
    ensures
        error is MissingCli ==> fault_text(error@)
            == "GitHub CLI (gh) is required for --pr. Install from https://cli.github.com"@,
        error is NotRun ==> fault_text(error@) == "Failed to execute gh command"@,
        error is NotUtf8 ==> fault_text(error@) == "gh output is not valid UTF-8"@,
        error matches GhError::FetchFailed { pr_number, stderr } ==> fault_text(error@)
            == "Failed to fetch PR #"@ + text::decimal(pr_number as nat) + ": "@ + stderr@,
        error is MissingCli <==> error@ is MissingCli,
        error is NotRun <==> error@ is NotRun,
        error matches GhError::FetchFailed { pr_number, stderr } ==> error@ == (
        GhFault::FetchFailed { pr_number, stderr: stderr@ }),
        error matches GhError::NotUtf8(cause) ==> error@ == GhFault::NotUtf8(
            output::utf8_error_text(cause),
        ),
{
}

} // verus!
