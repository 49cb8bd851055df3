//! The dashboard's background work: which paths to ask git about, and which
//! branches of which repositories to look up on GitHub.
//!
//! A path is an integer here, which the caller hands out so that equal paths
//! have equal integers.

use crate::text;
use crate::text::same_text;
use crate::text::text_precedes;
use std::collections::HashMap;
use vstd::prelude::*;

verus! {

/// How many repositories are looked up at a time, at most.
pub const MAX_WORKERS: usize = 4;

/// A worktree.
#[derive(Debug, PartialEq, Eq)]
pub struct Worktree {
    pub path: u64,
    pub branch: String,
    /// Whether this is the main worktree of its project.
    pub is_main: bool,
    /// The name of its project.
    pub project: String,
}

/// What the dashboard knows.
#[derive(Debug)]
pub struct Dashboard {
    /// The paths of all agents.
    pub all_agents: Vec<u64>,
    /// The paths of the agents on display.
    pub agents: Vec<u64>,
    /// The worktrees on display.
    pub worktrees: Vec<Worktree>,
    /// All worktrees.
    pub all_worktrees: Vec<Worktree>,
    /// The branch that git reported for a path, if it reported one.
    pub git_statuses: HashMap<u64, Option<String>>,
    /// The root of the repository at a path.
    pub repo_roots: HashMap<u64, u64>,
    /// The root of the project that the user has chosen.
    pub worktree_project_override: Option<u64>,
    /// The worktree that the dashboard was opened in.
    pub current_worktree: Option<u64>,
}

/// The branches to look up in a repository.
#[derive(Debug, PartialEq, Eq)]
pub struct RepoBranches {
    pub root: u64,
    pub branches: Vec<String>,
}

/// What a request to look up pull requests leads to.
#[derive(Debug, PartialEq, Eq)]
pub enum FetchPlan {
    /// A look-up is under way already.
    Busy,
    /// There is nothing to look up.
    Nothing,
    /// Look up these repositories in this order, so many at a time.
    Fetch { repos: Vec<RepoBranches>, workers: usize },
}

/// The paths in `paths`, then those in `more` that have not occurred.
pub open spec fn with_new(paths: Seq<u64>, more: Seq<u64>) -> Seq<u64>
    decreases more.len(),
{
    if more.len() == 0 {
        paths
    } else {
        let before = with_new(paths, more.drop_last());
        if before.contains(more.last()) {
            before
        } else {
            before.push(more.last())
        }
    }
}

/// The paths of worktrees.
pub open spec fn worktree_paths(worktrees: Seq<Worktree>) -> Seq<u64> {
    worktrees.map_values(|w: Worktree| w.path)
}

fn has_path(paths: &Vec<u64>, path: u64) -> (yes: bool)
    ensures
        yes == paths@.contains(path),
{
    let mut i: usize = 0;
    while i < paths.len()
        invariant
            i <= paths@.len(),
            forall|j: int| 0 <= j < i ==> paths@[j] != path,
        decreases paths@.len() - i,
    {
        if paths[i] == path {
            return true;
        }
        i += 1;
    }
    false
}

/// Every path of both lists is in the joined list, which begins with the first.
pub proof fn law_all_paths_asked(paths: Seq<u64>, more: Seq<u64>)
    ensures
        paths.len() <= with_new(paths, more).len(),
        with_new(paths, more).take(paths.len() as int) == paths,
        forall|p: u64|
            with_new(paths, more).contains(p) <==> paths.contains(p) || #[trigger] more.contains(p),
    decreases more.len(),
{
    let after = with_new(paths, more);
    if more.len() == 0 {
        assert(paths.take(paths.len() as int) =~= paths);
    } else {
        let part = more.drop_last();
        let before = with_new(paths, part);
        law_all_paths_asked(paths, part);
        assert(after.take(paths.len() as int) =~= before.take(paths.len() as int));
        assert forall|p: u64|
            after.contains(p) <==> paths.contains(p) || #[trigger] more.contains(p) by {
            assert(before.contains(p) <==> paths.contains(p) || part.contains(p));
            if part.contains(p) {
                let i = choose|i: int| 0 <= i < part.len() && part[i] == p;
                assert(more[i] == p);
            }
            if more.contains(p) {
                let i = choose|i: int| 0 <= i < more.len() && more[i] == p;
                if i < part.len() {
                    assert(part[i] == p);
                }
            }
            if before.contains(p) {
                let i = choose|i: int| 0 <= i < before.len() && before[i] == p;
                assert(after[i] == p);
            }
            if after.contains(p) && !before.contains(p) {
                let i = choose|i: int| 0 <= i < after.len() && after[i] == p;
                if i < before.len() {
                    assert(before[i] == p);
                }
                assert(more[more.len() - 1] == p);
            }
            assert(before.contains(more.last()) || after[before.len() as int] == more.last());
        }
    }
}

/// No path is appended that has occurred.
pub proof fn law_no_path_appended_twice(paths: Seq<u64>, more: Seq<u64>, i: int, j: int)
    requires
        paths.len() <= j < with_new(paths, more).len(),
        0 <= i < j,
    ensures
        with_new(paths, more)[i] != with_new(paths, more)[j],
    decreases more.len(),
{
    if more.len() > 0 {
        let before = with_new(paths, more.drop_last());
        if j < before.len() {
            law_no_path_appended_twice(paths, more.drop_last(), i, j);
        } else {
            assert(with_new(paths, more)[i] == before[i]);
        }
    }
}

/// Whether a branch is one that pull requests are merged into.
pub open spec fn trunk(branch: Seq<char>) -> bool {
    branch == "main"@ || branch == "master"@
}

fn is_trunk(branch: &str) -> (yes: bool)
    ensures
        yes == trunk(branch@),
{
    same_text(branch, "main") || same_text(branch, "master")
}

/// The path of the main worktree of a project; of several, the last one.
pub open spec fn main_path(worktrees: Seq<Worktree>, project: Seq<char>) -> Option<u64>
    decreases worktrees.len(),
{
    if worktrees.len() == 0 {
        None
    } else if worktrees.last().is_main && worktrees.last().project@ == project {
        Some(worktrees.last().path)
    } else {
        main_path(worktrees.drop_last(), project)
    }
}

fn find_main(worktrees: &Vec<Worktree>, project: &str) -> (root: Option<u64>)
    ensures
        root == main_path(worktrees@, project@),
{
    let mut i: usize = worktrees.len();
    assert(worktrees@.take(i as int) =~= worktrees@);
    while i > 0
        invariant
            i <= worktrees@.len(),
            main_path(worktrees@, project@) == main_path(worktrees@.take(i as int), project@),
        decreases i,
    {
        let w: &Worktree = &worktrees[i - 1];
        proof {
            assert(worktrees@.take(i as int).last() == *w);
            assert(worktrees@.take(i as int).drop_last() =~= worktrees@.take(i - 1));
        }
        if w.is_main && same_text(w.project.as_str(), project) {
            return Some(w.path);
        }
        i -= 1;
    }
    None
}

impl Dashboard {
    /// Whether the branch of the agent at `i` is to be looked up in the repository.
    pub open spec fn agent_wants(self, i: int, repo: u64, branch: Seq<char>) -> bool {
        let path = self.agents@[i];
        &&& self.git_statuses@.contains_key(path)
        &&& self.git_statuses@[path] is Some
        &&& self.git_statuses@[path]->0@ == branch
        &&& !trunk(branch)
        &&& self.repo_roots@.contains_key(path)
        &&& self.repo_roots@[path] == repo
    }

    /// Whether the branch of the worktree at `i` is to be looked up in the
    /// repository, which is the main worktree of its project.
    pub open spec fn worktree_wants(self, i: int, repo: u64, branch: Seq<char>) -> bool {
        let w = self.all_worktrees@[i];
        &&& !w.is_main
        &&& w.branch@ == branch
        &&& !trunk(branch)
        &&& main_path(self.all_worktrees@, w.project@) == Some(repo)
    }

    /// Whether one of the first `agents` agents or the first `worktrees`
    /// worktrees asks for the branch in the repository.
    pub open spec fn asked(self, agents: int, worktrees: int, repo: u64, branch: Seq<char>) -> bool {
        ||| exists|i: int| 0 <= i < agents && #[trigger] self.agent_wants(i, repo, branch)
        ||| exists|i: int| 0 <= i < worktrees && #[trigger] self.worktree_wants(i, repo, branch)
    }

    /// Whether a branch is to be looked up in a repository.
    pub open spec fn wants(self, repo: u64, branch: Seq<char>) -> bool {
        self.asked(
            self.agents@.len() as int,
            self.all_worktrees@.len() as int,
            repo,
            branch,
        )
    }

    /// The repository that is looked up first: the chosen project, or else the
    /// repository of the current worktree.
    pub open spec fn priority(self) -> Option<u64> {
        match self.worktree_project_override {
            Some(root) => Some(root),
            None => match self.current_worktree {
                Some(path) => if self.repo_roots@.contains_key(path) {
                    Some(self.repo_roots@[path])
                } else {
                    None
                },
                None => None,
            },
        }
    }

    fn find_priority(&self) -> (repo: Option<u64>)
        ensures
            repo == self.priority(),
    {
        broadcast use vstd::std_specs::hash::group_hash_axioms;

        match self.worktree_project_override {
            Some(root) => Some(root),
            None => match self.current_worktree {
                Some(path) => match self.repo_roots.get(&path) {
                    Some(root) => Some(*root),
                    None => None,
                },
                None => None,
            },
        }
    }

    /// The paths to ask git about, or nothing where it is being asked already:
    /// those of all agents, then those of worktrees that have not occurred.
    pub fn plan_git_status_fetch(&self, busy: bool) -> (paths: Option<Vec<u64>>)
        ensures
            paths is None <==> busy,
            paths is Some ==> paths->0@ == with_new(
                self.all_agents@,
                worktree_paths(self.worktrees@),
            ),
    {
        if busy {
            return None;
        }
        let ghost more = worktree_paths(self.worktrees@);
        let mut paths: Vec<u64> = Vec::new();
        let mut k: usize = 0;
        while k < self.all_agents.len()
            invariant
                k <= self.all_agents@.len(),
                paths@ == self.all_agents@.take(k as int),
            decreases self.all_agents@.len() - k,
        {
            paths.push(self.all_agents[k]);
            assert(paths@ =~= self.all_agents@.take(k + 1));
            k += 1;
        }
        assert(paths@ =~= self.all_agents@);
        let mut i: usize = 0;
        assert(more.take(0) =~= Seq::<u64>::empty());
        while i < self.worktrees.len()
            invariant
                more == worktree_paths(self.worktrees@),
                i <= self.worktrees@.len(),
                paths@ == with_new(self.all_agents@, more.take(i as int)),
            decreases self.worktrees@.len() - i,
        {
            let path: u64 = self.worktrees[i].path;
            proof {
                assert(more.take(i + 1).drop_last() =~= more.take(i as int));
                assert(more.take(i + 1).last() == path);
            }
            if !has_path(&paths, path) {
                paths.push(path);
            }
            i += 1;
        }
        assert(more.take(self.worktrees@.len() as int) =~= more);
        Some(paths)
    }
}

/// Whether the texts stand in ascending order, none twice.
pub open spec fn ascending(list: Seq<String>) -> bool {
    forall|i: int, j: int|
        0 <= i < j < list.len() ==> text::precedes((#[trigger] list[i])@, (#[trigger] list[j])@)
}

/// Whether a list holds a branch.
pub open spec fn lists(list: Seq<String>, branch: Seq<char>) -> bool {
    exists|i: int| 0 <= i < list.len() && (#[trigger] list[i])@ == branch
}

/// Whether a branch is to be looked up in a repository.
pub open spec fn assigned(repos: Seq<RepoBranches>, repo: u64, branch: Seq<char>) -> bool {
    exists|k: int|
        0 <= k < repos.len() && (#[trigger] repos[k]).root == repo && lists(
            repos[k].branches@,
            branch,
        )
}

/// Whether no repository occurs twice and each has branches, in ascending order.
pub open spec fn well_formed(repos: Seq<RepoBranches>) -> bool {
    &&& forall|i: int, j: int|
        0 <= i < j < repos.len() ==> (#[trigger] repos[i]).root != (#[trigger] repos[j]).root
    &&& forall|k: int| 0 <= k < repos.len() ==> (#[trigger] repos[k]).branches@.len() > 0
    &&& forall|k: int| 0 <= k < repos.len() ==> ascending((#[trigger] repos[k]).branches@)
}

/// Inserts a branch where it belongs, unless the list holds it.
fn add_branch(list: &mut Vec<String>, branch: &str)
    requires
        ascending(old(list)@),
    ensures
        ascending(final(list)@),
        final(list)@.len() > 0,
        forall|b: Seq<char>|
            #[trigger] lists(final(list)@, b) <==> lists(old(list)@, b) || b == branch@,
{
    let ghost before = list@;
    let mut at: usize = 0;
    while at < list.len() && text_precedes(list[at].as_str(), branch)
        invariant
            list@ == before,
            at <= list@.len(),
            forall|j: int| 0 <= j < at ==> text::precedes((#[trigger] before[j])@, branch@),
        decreases list@.len() - at,
    {
        at += 1;
    }
    if at < list.len() && same_text(list[at].as_str(), branch) {
        assert(lists(before, branch@)) by {
            assert(before[at as int]@ == branch@);
        }
    } else {
        list.insert(at, branch.to_owned());
        proof {
            let after = list@;
            assert forall|j: int| at <= j < before.len() implies text::precedes(
                branch@,
                (#[trigger] before[j])@,
            ) by {
                text::lemma_precedes_total(before[at as int]@, branch@);
                if at < j {
                    text::lemma_precedes_transitive(branch@, before[at as int]@, before[j]@);
                }
            }
            assert forall|i: int, j: int| 0 <= i < j < after.len() implies text::precedes(
                (#[trigger] after[i])@,
                (#[trigger] after[j])@,
            ) by {
                if i != at {
                    assert(after[i] == before[if i < at { i } else { i - 1 }]);
                }
                if j != at {
                    assert(after[j] == before[if j < at { j } else { j - 1 }]);
                }
            }
            assert forall|b: Seq<char>|
                #[trigger] lists(after, b) <==> lists(before, b) || b == branch@ by {
                if lists(before, b) {
                    let i = choose|i: int| 0 <= i < before.len() && (#[trigger] before[i])@ == b;
                    assert(after[if i < at { i } else { i + 1 }] == before[i]);
                }
                if b == branch@ {
                    assert(after[at as int]@ == b);
                }
                if lists(after, b) {
                    let i = choose|i: int| 0 <= i < after.len() && (#[trigger] after[i])@ == b;
                    if i != at {
                        assert(after[i] == before[if i < at { i } else { i - 1 }]);
                    }
                }
            }
        }
    }
}

/// The place of a repository, or the number of repositories where it has none.
fn find_repo(repos: &Vec<RepoBranches>, root: u64) -> (at: usize)
    ensures
        at <= repos@.len(),
        at < repos@.len() ==> repos@[at as int].root == root,
        forall|k: int| 0 <= k < at ==> (#[trigger] repos@[k]).root != root,
{
    let mut at: usize = 0;
    while at < repos.len() && repos[at].root != root
        invariant
            at <= repos@.len(),
            forall|k: int| 0 <= k < at ==> (#[trigger] repos@[k]).root != root,
        decreases repos@.len() - at,
    {
        at += 1;
    }
    at
}

/// Notes a branch to be looked up in a repository.
fn assign(repos: &mut Vec<RepoBranches>, root: u64, branch: &str)
    requires
        well_formed(old(repos)@),
    ensures
        well_formed(final(repos)@),
        forall|r: u64, b: Seq<char>|
            #[trigger] assigned(final(repos)@, r, b) <==> assigned(old(repos)@, r, b) || (r == root
                && b == branch@),
{
    let ghost before = repos@;
    let at: usize = find_repo(repos, root);
    if at < repos.len() {
        let mut entry: RepoBranches = repos.remove(at);
        let ghost listed = entry.branches@;
        add_branch(&mut entry.branches, branch);
        let ghost grown = entry;
        repos.insert(at, entry);
        proof {
            let after = repos@;
            assert(after =~= before.update(at as int, grown));
            assert forall|r: u64, b: Seq<char>|
                #[trigger] assigned(after, r, b) <==> assigned(before, r, b) || (r == root && b
                    == branch@) by {
                assert(lists(grown.branches@, b) <==> lists(listed, b) || b == branch@);
                if assigned(before, r, b) {
                    let k = choose|k: int|
                        0 <= k < before.len() && (#[trigger] before[k]).root == r && lists(
                            before[k].branches@,
                            b,
                        );
                    assert(after[k].root == r && lists(after[k].branches@, b));
                }
                if r == root && b == branch@ {
                    assert(after[at as int].root == r && lists(after[at as int].branches@, b));
                }
                if assigned(after, r, b) {
                    let k = choose|k: int|
                        0 <= k < after.len() && (#[trigger] after[k]).root == r && lists(
                            after[k].branches@,
                            b,
                        );
                    assert(before[k].root == r);
                }
            }
        }
    } else {
        let mut branches: Vec<String> = Vec::new();
        add_branch(&mut branches, branch);
        let ghost listed = branches@;
        repos.push(RepoBranches { root, branches });
        proof {
            let after = repos@;
            assert forall|r: u64, b: Seq<char>|
                #[trigger] assigned(after, r, b) <==> assigned(before, r, b) || (r == root && b
                    == branch@) by {
                assert(lists(listed, b) <==> b == branch@);
                if assigned(before, r, b) {
                    let k = choose|k: int|
                        0 <= k < before.len() && (#[trigger] before[k]).root == r && lists(
                            before[k].branches@,
                            b,
                        );
                    assert(after[k] == before[k]);
                }
                if r == root && b == branch@ {
                    assert(after[before.len() as int].root == r);
                }
                if assigned(after, r, b) {
                    let k = choose|k: int|
                        0 <= k < after.len() && (#[trigger] after[k]).root == r && lists(
                            after[k].branches@,
                            b,
                        );
                    if k < before.len() {
                        assert(before[k] == after[k]);
                    }
                }
            }
        }
    }
}

/// The same repositories, with the one at `at` first and the others in their order.
pub open spec fn moved_first(repos: Seq<RepoBranches>, at: int) -> Seq<RepoBranches> {
    seq![repos[at]] + repos.remove(at)
}

/// Moves the repository of the priority to the front, where it occurs.
fn put_first(repos: &mut Vec<RepoBranches>, priority: Option<u64>)
    requires
        well_formed(old(repos)@),
    ensures
        well_formed(final(repos)@),
        final(repos)@.len() == old(repos)@.len(),
        forall|k: int|
            0 <= k < old(repos)@.len() && Some((#[trigger] old(repos)@[k]).root) == priority
                ==> final(repos)@ == moved_first(old(repos)@, k),
        (forall|k: int|
            0 <= k < old(repos)@.len() ==> Some((#[trigger] old(repos)@[k]).root) != priority)
            ==> final(repos)@ == old(repos)@,
        forall|r: u64, b: Seq<char>|
            #[trigger] assigned(final(repos)@, r, b) <==> assigned(old(repos)@, r, b),
{
    let ghost before = repos@;
    if let Some(root) = priority {
        let at: usize = find_repo(repos, root);
        if at < repos.len() {
            let entry: RepoBranches = repos.remove(at);
            repos.insert(0, entry);
            proof {
                let after = repos@;
                assert(after =~= moved_first(before, at as int));
                assert forall|r: u64, b: Seq<char>|
                    #[trigger] assigned(after, r, b) <==> assigned(before, r, b) by {
                    if assigned(before, r, b) {
                        let k = choose|k: int|
                            0 <= k < before.len() && (#[trigger] before[k]).root == r && lists(
                                before[k].branches@,
                                b,
                            );
                        let to = if k == at {
                            0
                        } else if k < at {
                            k + 1
                        } else {
                            k
                        };
                        assert(after[to] == before[k]);
                    }
                    if assigned(after, r, b) {
                        let k = choose|k: int|
                            0 <= k < after.len() && (#[trigger] after[k]).root == r && lists(
                                after[k].branches@,
                                b,
                            );
                        let from = if k == 0 {
                            at as int
                        } else if k <= at {
                            k - 1
                        } else {
                            k
                        };
                        assert(after[k] == before[from]);
                    }
                }
            }
        }
    }
}

impl Dashboard {
    /// The branches that the agents on display ask for.
    fn collect_agents(&self) -> (repos: Vec<RepoBranches>)
        ensures
            well_formed(repos@),
            forall|r: u64, b: Seq<char>|
                #[trigger] assigned(repos@, r, b) <==> self.asked(
                    self.agents@.len() as int,
                    0,
                    r,
                    b,
                ),
    {
        broadcast use vstd::std_specs::hash::group_hash_axioms;

        let mut repos: Vec<RepoBranches> = Vec::new();
        let mut i: usize = 0;
        while i < self.agents.len()
            invariant
                i <= self.agents@.len(),
                well_formed(repos@),
                forall|r: u64, b: Seq<char>|
                    #[trigger] assigned(repos@, r, b) <==> self.asked(i as int, 0, r, b),
            decreases self.agents@.len() - i,
        {
            let path: u64 = self.agents[i];
            let ghost before = repos@;
            if let Some(Some(branch)) = self.git_statuses.get(&path) {
                if !is_trunk(branch.as_str()) {
                    if let Some(root) = self.repo_roots.get(&path) {
                        assign(&mut repos, *root, branch.as_str());
                    }
                }
            }
            proof {
                assert forall|r: u64, b: Seq<char>|
                    #[trigger] assigned(repos@, r, b) <==> self.asked(i + 1, 0, r, b) by {
                    assert(assigned(before, r, b) <==> self.asked(i as int, 0, r, b));
                    assert(assigned(repos@, r, b) <==> assigned(before, r, b) || self.agent_wants(
                        i as int,
                        r,
                        b,
                    ));
                }
            }
            i += 1;
        }
        repos
    }

    /// Adds the branches that worktrees ask for.
    fn collect_worktrees(&self, repos: &mut Vec<RepoBranches>)
        requires
            well_formed(old(repos)@),
            forall|r: u64, b: Seq<char>|
                #[trigger] assigned(old(repos)@, r, b) <==> self.asked(
                    self.agents@.len() as int,
                    0,
                    r,
                    b,
                ),
        ensures
            well_formed(final(repos)@),
            forall|r: u64, b: Seq<char>|
                #[trigger] assigned(final(repos)@, r, b) <==> self.wants(r, b),
    {
        let ghost n = self.agents@.len() as int;
        let mut i: usize = 0;
        while i < self.all_worktrees.len()
            invariant
                n == self.agents@.len(),
                i <= self.all_worktrees@.len(),
                well_formed(repos@),
                forall|r: u64, b: Seq<char>|
                    #[trigger] assigned(repos@, r, b) <==> self.asked(n, i as int, r, b),
            decreases self.all_worktrees@.len() - i,
        {
            let w: &Worktree = &self.all_worktrees[i];
            let ghost before = repos@;
            if !w.is_main && !is_trunk(w.branch.as_str()) {
                if let Some(root) = find_main(&self.all_worktrees, w.project.as_str()) {
                    assign(repos, root, w.branch.as_str());
                }
            }
            proof {
                assert forall|r: u64, b: Seq<char>|
                    #[trigger] assigned(repos@, r, b) <==> self.asked(n, i + 1, r, b) by {
                    assert(assigned(before, r, b) <==> self.asked(n, i as int, r, b));
                    assert(assigned(repos@, r, b) <==> assigned(before, r, b)
                        || self.worktree_wants(i as int, r, b));
                }
            }
            i += 1;
        }
    }

    /// What to look up on GitHub: the branches of the agents on display and of
    /// all worktrees, by repository, with the repository of the current project
    /// first. `busy` says that a look-up is under way. The repositories after
    /// the first stand in no order that a caller may rely on.
    pub fn plan_pr_status_fetch(&self, busy: bool) -> (plan: FetchPlan)
        ensures
            plan is Busy <==> busy,
            plan is Nothing <==> !busy && forall|r: u64, b: Seq<char>| !#[trigger] self.wants(r, b),
            plan matches FetchPlan::Fetch { repos, workers } ==> {
                &&& well_formed(repos@)
                &&& forall|r: u64, b: Seq<char>|
                    #[trigger] assigned(repos@, r, b) <==> self.wants(r, b)
                &&& forall|b: Seq<char>|
                    self.priority() is Some && #[trigger] self.wants(self.priority()->0, b)
                        ==> repos@[0].root == self.priority()->0
                &&& repos@.len() > 0
                &&& workers == if repos@.len() < 4 {
                    repos@.len()
                } else {
                    4
                }
            },
            forall|i: int|
                0 <= i < self.agents@.len() && self.git_statuses@.contains_key(
                    #[trigger] self.agents@[i],
                ) && self.repo_roots@.contains_key(self.agents@[i]) && !busy ==> (
                self.git_statuses@[self.agents@[i]] matches Some(branch) ==> branch@ == "main"@
                    || branch@ == "master"@ || looks_up(
                    plan,
                    self.repo_roots@[self.agents@[i]],
                    branch@,
                )),
            forall|i: int, m: int|
                0 <= i < self.all_worktrees@.len() && !(#[trigger] self.all_worktrees@[i]).is_main
                    && main_at(self.all_worktrees@, self.all_worktrees@[i].project@, m) && !busy
                    ==> self.all_worktrees@[i].branch@ == "main"@
                    || self.all_worktrees@[i].branch@ == "master"@ || looks_up(
                    plan,
                    (#[trigger] self.all_worktrees@[m]).path,
                    self.all_worktrees@[i].branch@,
                ),
            forall|repo: u64, branch: Seq<char>| #[trigger]
                looks_up(plan, repo, branch) ==> branch != "main"@ && branch != "master"@ && (
                self.agent_at(repo, branch) || self.worktree_at(repo, branch)),
    {
        if busy {
            return FetchPlan::Busy;
        }
        let mut repos: Vec<RepoBranches> = self.collect_agents();
        self.collect_worktrees(&mut repos);
        if repos.len() == 0 {
            proof {
                assert forall|r: u64, b: Seq<char>| !#[trigger] self.wants(r, b) by {
                    assert(assigned(repos@, r, b) <==> self.wants(r, b));
                }
                lemma_plan_complete(*self, FetchPlan::Nothing);
            }
            return FetchPlan::Nothing;
        }
        proof {
            let first = repos@[0];
            assert(lists(first.branches@, first.branches@[0]@));
            assert(assigned(repos@, first.root, first.branches@[0]@));
            assert(self.wants(first.root, first.branches@[0]@));
        }
        let ghost collected = repos@;
        let priority: Option<u64> = self.find_priority();
        put_first(&mut repos, priority);
        proof {
            assert forall|b: Seq<char>|
                priority is Some && #[trigger] self.wants(
                    priority->0,
                    b,
                ) implies repos@[0].root == priority->0 by {
                assert(assigned(collected, priority->0, b));
            }
            assert forall|r: u64, b: Seq<char>|
                #[trigger] assigned(repos@, r, b) <==> self.wants(r, b) by {
                assert(assigned(collected, r, b) <==> self.wants(r, b));
            }
        }
        let workers: usize = if repos.len() < MAX_WORKERS {
            repos.len()
        } else {
            MAX_WORKERS
        };
        let plan: FetchPlan = FetchPlan::Fetch { repos, workers };
        proof {
            lemma_plan_complete(*self, plan);
        }
        plan
    }
}

impl FetchPlan {
    /// Whether the request was taken up: it was not while a look-up was under way.
    pub fn started(&self) -> (yes: bool)
        ensures
            yes == !(self is Busy),
    {
        match self {
            FetchPlan::Busy => false,
            _ => true,
        }
    }
}

/// A branch that pull requests are merged into is never looked up.
pub proof fn law_trunk_never_wanted(dashboard: Dashboard, repo: u64, branch: Seq<char>)
    requires
        dashboard.wants(repo, branch),
    ensures
        !trunk(branch),
{
}

/// No branch is looked up twice in a repository.
pub proof fn law_no_branch_twice(repos: Seq<RepoBranches>, k: int, i: int, l: int, j: int)
    requires
        well_formed(repos),
        0 <= k < repos.len(),
        0 <= l < repos.len(),
        0 <= i < repos[k].branches@.len(),
        0 <= j < repos[l].branches@.len(),
        repos[k].root == repos[l].root,
        repos[k].branches@[i]@ == repos[l].branches@[j]@,
    ensures
        k == l,
        i == j,
{
    text::lemma_precedes_irreflexive(repos[k].branches@[i]@);
}

/// Whether a plan looks up a branch in a repository: it has the branch among
/// those of the repository.
pub open spec fn looks_up(plan: FetchPlan, repo: u64, branch: Seq<char>) -> bool {
    plan matches FetchPlan::Fetch { repos, .. } && exists|k: int, n: int|
        0 <= k < repos@.len() && 0 <= n < repos@[k].branches@.len() && repos@[k].root == repo
            && (#[trigger] repos@[k].branches@[n])@ == branch
}

/// Whether the worktree at `m` is the last of the main ones of a project.
pub open spec fn main_at(worktrees: Seq<Worktree>, project: Seq<char>, m: int) -> bool {
    &&& 0 <= m < worktrees.len()
    &&& worktrees[m].is_main
    &&& worktrees[m].project@ == project
    &&& forall|j: int|
        m < j < worktrees.len() ==> !((#[trigger] worktrees[j]).is_main && worktrees[j].project@
            == project)
}

impl Dashboard {
    /// Whether an agent on display works in the repository on the branch.
    pub open spec fn agent_at(self, repo: u64, branch: Seq<char>) -> bool {
        exists|i: int|
            0 <= i < self.agents@.len() && self.git_statuses@.contains_key(
                #[trigger] self.agents@[i],
            ) && self.git_statuses@[self.agents@[i]] is Some
                && self.git_statuses@[self.agents@[i]]->0@ == branch
                && self.repo_roots@.contains_key(self.agents@[i])
                && self.repo_roots@[self.agents@[i]] == repo
    }

    /// Whether a worktree other than a main one is on the branch and the
    /// repository is the main worktree of its project.
    pub open spec fn worktree_at(self, repo: u64, branch: Seq<char>) -> bool {
        exists|i: int, m: int|
            0 <= i < self.all_worktrees@.len() && !(#[trigger] self.all_worktrees@[i]).is_main
                && self.all_worktrees@[i].branch@ == branch && main_at(
                self.all_worktrees@,
                self.all_worktrees@[i].project@,
                m,
            ) && (#[trigger] self.all_worktrees@[m]).path == repo
    }
}

/// The main worktree of a project is the last one that is marked so, and there is
/// none exactly where none is marked.
pub proof fn law_main_path(worktrees: Seq<Worktree>, project: Seq<char>)
    ensures
        forall|m: int| #[trigger]
            main_at(worktrees, project, m) ==> main_path(worktrees, project) == Some(
                worktrees[m].path,
            ),
        main_path(worktrees, project) is Some ==> exists|m: int| #[trigger]
            main_at(worktrees, project, m) && main_path(worktrees, project) == Some(
                worktrees[m].path,
            ),
        main_path(worktrees, project) is None <==> forall|m: int|
            0 <= m < worktrees.len() ==> !((#[trigger] worktrees[m]).is_main && worktrees[m].project@
                == project),
    decreases worktrees.len(),
{
    if worktrees.len() > 0 {
        let part = worktrees.drop_last();
        let last = worktrees.len() - 1;
        law_main_path(part, project);
        assert forall|j: int| 0 <= j < part.len() implies (#[trigger] part[j]) == worktrees[j] by {}
        if worktrees[last].is_main && worktrees[last].project@ == project {
            assert(main_at(worktrees, project, last));
            assert forall|m: int| #[trigger] main_at(worktrees, project, m) implies m == last by {}
        } else {
            assert forall|m: int| #[trigger] main_at(worktrees, project, m) implies main_path(
                worktrees,
                project,
            ) == Some(worktrees[m].path) by {
                assert forall|j: int| m < j < part.len() implies !((#[trigger] part[j]).is_main
                    && part[j].project@ == project) by {
                    assert(part[j] == worktrees[j]);
                }
                assert(main_at(part, project, m));
            }
            if main_path(worktrees, project) is Some {
                let m = choose|m: int| #[trigger]
                    main_at(part, project, m) && main_path(part, project) == Some(part[m].path);
                assert forall|j: int| m < j < worktrees.len() implies !((
                #[trigger] worktrees[j]).is_main && worktrees[j].project@ == project) by {
                    if j < last {
                        assert(part[j] == worktrees[j]);
                    }
                }
                assert(main_at(worktrees, project, m));
                assert(part[m].is_main);
            } else {
                assert forall|m: int| 0 <= m < worktrees.len() implies !((
                #[trigger] worktrees[m]).is_main && worktrees[m].project@ == project) by {
                    if m < last {
                        assert(part[m] == worktrees[m]);
                    }
                }
            }
        }
    }
}

/// A branch is wanted in a repository exactly where it is neither `main` nor
/// `master` and an agent on display works there on it, wherever the agent's path
/// lies, or a worktree of the project is on it.
pub proof fn law_wanted(dashboard: Dashboard, repo: u64, branch: Seq<char>)
    ensures
        dashboard.wants(repo, branch) <==> branch != "main"@ && branch != "master"@ && (
        dashboard.agent_at(repo, branch) || dashboard.worktree_at(repo, branch)),
{
    let agents = dashboard.agents@;
    let trees = dashboard.all_worktrees@;
    if dashboard.wants(repo, branch) {
        if exists|i: int| 0 <= i < agents.len() && #[trigger] dashboard.agent_wants(i, repo, branch) {
            let i = choose|i: int|
                0 <= i < agents.len() && #[trigger] dashboard.agent_wants(i, repo, branch);
            assert(dashboard.git_statuses@.contains_key(dashboard.agents@[i]));
            assert(dashboard.agent_at(repo, branch));
        } else {
            let i = choose|i: int|
                0 <= i < trees.len() && #[trigger] dashboard.worktree_wants(i, repo, branch);
            law_main_path(trees, trees[i].project@);
            let m = choose|m: int| #[trigger]
                main_at(trees, trees[i].project@, m) && main_path(trees, trees[i].project@) == Some(
                    trees[m].path,
                );
            assert(!dashboard.all_worktrees@[i].is_main);
            assert(dashboard.all_worktrees@[m].path == repo);
            assert(dashboard.worktree_at(repo, branch));
        }
    }
    if branch != "main"@ && branch != "master"@ {
        if dashboard.agent_at(repo, branch) {
            let i = choose|i: int|
                0 <= i < dashboard.agents@.len() && dashboard.git_statuses@.contains_key(
                    #[trigger] dashboard.agents@[i],
                ) && dashboard.git_statuses@[dashboard.agents@[i]] is Some
                    && dashboard.git_statuses@[dashboard.agents@[i]]->0@ == branch
                    && dashboard.repo_roots@.contains_key(dashboard.agents@[i])
                    && dashboard.repo_roots@[dashboard.agents@[i]] == repo;
            assert(dashboard.agent_wants(i, repo, branch));
        }
        if dashboard.worktree_at(repo, branch) {
            let (i, m) = choose|i: int, m: int|
                0 <= i < dashboard.all_worktrees@.len() && !(
                #[trigger] dashboard.all_worktrees@[i]).is_main
                    && dashboard.all_worktrees@[i].branch@ == branch && main_at(
                    dashboard.all_worktrees@,
                    dashboard.all_worktrees@[i].project@,
                    m,
                ) && (#[trigger] dashboard.all_worktrees@[m]).path == repo;
            law_main_path(trees, trees[i].project@);
            assert(dashboard.worktree_wants(i, repo, branch));
        }
    }
}

/// A branch is assigned to a repository exactly where an entry of the repository
/// lists it.
pub proof fn law_assigned(repos: Seq<RepoBranches>, repo: u64, branch: Seq<char>)
    ensures
        assigned(repos, repo, branch) <==> exists|k: int, n: int|
            0 <= k < repos.len() && 0 <= n < repos[k].branches@.len() && repos[k].root == repo && (
            #[trigger] repos[k].branches@[n])@ == branch,
{
    if assigned(repos, repo, branch) {
        let k = choose|k: int|
            0 <= k < repos.len() && (#[trigger] repos[k]).root == repo && lists(
                repos[k].branches@,
                branch,
            );
        let list = repos[k].branches@;
        let n = choose|n: int| 0 <= n < list.len() && (#[trigger] list[n])@ == branch;
        assert(repos[k].branches@[n]@ == branch);
    }
    if exists|k: int, n: int|
        0 <= k < repos.len() && 0 <= n < repos[k].branches@.len() && repos[k].root == repo && (
        #[trigger] repos[k].branches@[n])@ == branch {
        let (k, n) = choose|k: int, n: int|
            0 <= k < repos.len() && 0 <= n < repos[k].branches@.len() && repos[k].root == repo && (
            #[trigger] repos[k].branches@[n])@ == branch;
        assert(lists(repos[k].branches@, branch));
        assert(repos[k].root == repo);
    }
}

/// The branches of a repository stand in ascending order, and each repository has
/// some and occurs once.
pub proof fn law_plan_order(repos: Seq<RepoBranches>, k: int, l: int, i: int, j: int)
    requires
        well_formed(repos),
        0 <= k < repos.len(),
    ensures
        repos[k].branches@.len() > 0,
        0 <= l < repos.len() && l != k ==> repos[k].root != repos[l].root,
        0 <= i < j < repos[k].branches@.len() ==> exists|at: int|
            text::decided_at(repos[k].branches@[i]@, repos[k].branches@[j]@, at),
{
    if 0 <= l < repos.len() && l < k {
        assert(repos[l].root != repos[k].root);
    }
    if 0 <= i < j < repos[k].branches@.len() {
        text::law_precedes(repos[k].branches@[i]@, repos[k].branches@[j]@);
    }
}

proof fn lemma_plan_complete(dashboard: Dashboard, plan: FetchPlan)
    requires
        plan is Nothing ==> forall|r: u64, b: Seq<char>| !#[trigger] dashboard.wants(r, b),
        plan matches FetchPlan::Fetch { repos, .. } ==> forall|r: u64, b: Seq<char>|
            #[trigger] assigned(repos@, r, b) <==> dashboard.wants(r, b),
        !(plan is Busy),
    ensures
        forall|i: int|
            0 <= i < dashboard.agents@.len() && dashboard.git_statuses@.contains_key(
                #[trigger] dashboard.agents@[i],
            ) && dashboard.repo_roots@.contains_key(dashboard.agents@[i]) ==> (
            dashboard.git_statuses@[dashboard.agents@[i]] matches Some(branch) ==> branch@
                == "main"@ || branch@ == "master"@ || looks_up(
                plan,
                dashboard.repo_roots@[dashboard.agents@[i]],
                branch@,
            )),
        forall|i: int, m: int|
            0 <= i < dashboard.all_worktrees@.len() && !(
            #[trigger] dashboard.all_worktrees@[i]).is_main && main_at(
                dashboard.all_worktrees@,
                dashboard.all_worktrees@[i].project@,
                m,
            ) ==> dashboard.all_worktrees@[i].branch@ == "main"@
                || dashboard.all_worktrees@[i].branch@ == "master"@ || looks_up(
                plan,
                (#[trigger] dashboard.all_worktrees@[m]).path,
                dashboard.all_worktrees@[i].branch@,
            ),
        forall|repo: u64, branch: Seq<char>| #[trigger]
            looks_up(plan, repo, branch) ==> branch != "main"@ && branch != "master"@ && (
            dashboard.agent_at(repo, branch) || dashboard.worktree_at(repo, branch)),
{
    assert forall|repo: u64, branch: Seq<char>| #[trigger] looks_up(plan, repo, branch)
        == dashboard.wants(repo, branch) by {
        if let FetchPlan::Fetch { repos, .. } = plan {
            law_assigned(repos@, repo, branch);
            assert(assigned(repos@, repo, branch) <==> dashboard.wants(repo, branch));
        } else {
            assert(!dashboard.wants(repo, branch));
        }
    }
    assert forall|repo: u64, branch: Seq<char>| #[trigger]
        looks_up(plan, repo, branch) implies branch != "main"@ && branch != "master"@ && (
    dashboard.agent_at(repo, branch) || dashboard.worktree_at(repo, branch)) by {
        law_wanted(dashboard, repo, branch);
    }
    assert forall|i: int|
        0 <= i < dashboard.agents@.len() && dashboard.git_statuses@.contains_key(
            #[trigger] dashboard.agents@[i],
        ) && dashboard.repo_roots@.contains_key(dashboard.agents@[i]) implies (
    dashboard.git_statuses@[dashboard.agents@[i]] matches Some(branch) ==> branch@ == "main"@
        || branch@ == "master"@ || looks_up(
        plan,
        dashboard.repo_roots@[dashboard.agents@[i]],
        branch@,
    )) by {
        if let Some(branch) = dashboard.git_statuses@[dashboard.agents@[i]] {
            let repo = dashboard.repo_roots@[dashboard.agents@[i]];
            law_wanted(dashboard, repo, branch@);
            assert(dashboard.agent_at(repo, branch@));
            assert(looks_up(plan, repo, branch@) == dashboard.wants(repo, branch@));
        }
    }
    assert forall|i: int, m: int|
        0 <= i < dashboard.all_worktrees@.len() && !(#[trigger] dashboard.all_worktrees@[i]).is_main
            && main_at(
            dashboard.all_worktrees@,
            dashboard.all_worktrees@[i].project@,
            m,
        ) implies dashboard.all_worktrees@[i].branch@ == "main"@
        || dashboard.all_worktrees@[i].branch@ == "master"@ || looks_up(
        plan,
        (#[trigger] dashboard.all_worktrees@[m]).path,
        dashboard.all_worktrees@[i].branch@,
    ) by {
        let repo = dashboard.all_worktrees@[m].path;
        let branch = dashboard.all_worktrees@[i].branch@;
        law_wanted(dashboard, repo, branch);
        assert(dashboard.worktree_at(repo, branch));
        assert(looks_up(plan, repo, branch) == dashboard.wants(repo, branch));
    }
}

/// The chosen project goes first; without one the repository of the current
/// worktree does, where it is known.
pub proof fn law_priority(dashboard: Dashboard)
    ensures
        dashboard.worktree_project_override is Some ==> dashboard.priority()
            == dashboard.worktree_project_override,
        dashboard.worktree_project_override is None && dashboard.current_worktree is None
            ==> dashboard.priority() is None,
        dashboard.worktree_project_override is None ==> (
        dashboard.current_worktree matches Some(path) ==> {
            &&& dashboard.repo_roots@.contains_key(path) ==> dashboard.priority() == Some(
                dashboard.repo_roots@[path],
            )
            &&& !dashboard.repo_roots@.contains_key(path) ==> dashboard.priority() is None
        }),
{
}

/// A path that has not occurred is asked about after the others, one that has is
/// not asked about again, and paths are taken one after the other.
pub proof fn law_paths_in_turn(paths: Seq<u64>, path: u64, first: Seq<u64>, second: Seq<u64>)
    ensures
        with_new(paths, Seq::empty()) == paths,
        (exists|i: int| 0 <= i < paths.len() && (#[trigger] paths[i]) == path) ==> with_new(
            paths,
            seq![path],
        ) == paths,
        (forall|i: int| 0 <= i < paths.len() ==> (#[trigger] paths[i]) != path) ==> with_new(
            paths,
            seq![path],
        ) == paths.push(path),
        with_new(paths, first + second) == with_new(with_new(paths, first), second),
    decreases second.len(),
{
    assert(seq![path].drop_last() =~= Seq::<u64>::empty());
    assert(seq![path].last() == path);
    assert(with_new(paths, Seq::empty()) == paths);
    if second.len() == 0 {
        assert(first + second =~= first);
    } else {
        law_paths_in_turn(paths, path, first, second.drop_last());
        assert((first + second).drop_last() =~= first + second.drop_last());
        assert((first + second).last() == second.last());
    }
}

/// The paths of worktrees are theirs, in their order.
pub proof fn law_worktree_paths(worktrees: Seq<Worktree>)
    ensures
        worktree_paths(worktrees).len() == worktrees.len(),
        forall|i: int|
            0 <= i < worktrees.len() ==> worktree_paths(worktrees)[i] == (
            #[trigger] worktrees[i]).path,
{
}

} // verus!
