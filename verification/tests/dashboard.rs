use std::collections::HashMap;
use workmux::dashboard::{Dashboard, FetchPlan, RepoBranches, Worktree, MAX_WORKERS};

fn empty() -> Dashboard {
    Dashboard {
        all_agents: vec![],
        agents: vec![],
        worktrees: vec![],
        all_worktrees: vec![],
        git_statuses: HashMap::new(),
        repo_roots: HashMap::new(),
        worktree_project_override: None,
        current_worktree: None,
    }
}

fn worktree(path: u64, branch: &str, is_main: bool, project: &str) -> Worktree {
    Worktree { path, branch: branch.to_string(), is_main, project: project.to_string() }
}

fn repo(root: u64, branches: &[&str]) -> RepoBranches {
    RepoBranches { root, branches: branches.iter().map(|b| b.to_string()).collect() }
}

fn fetched(plan: FetchPlan) -> Vec<RepoBranches> {
    match plan {
        FetchPlan::Fetch { repos, .. } => repos,
        other => panic!("{:?}", other),
    }
}

fn with_agents(agents: &[(u64, u64, &str)]) -> Dashboard {
    let mut dashboard = empty();
    for (path, root, branch) in agents {
        dashboard.agents.push(*path);
        dashboard.git_statuses.insert(*path, Some(branch.to_string()));
        dashboard.repo_roots.insert(*path, *root);
    }
    dashboard
}

#[test]
fn git_status_fetch_asks_agents_and_new_worktrees() {
    let mut dashboard = empty();
    dashboard.all_agents = vec![3, 1, 3];
    dashboard.worktrees = vec![
        worktree(1, "a", false, "p"),
        worktree(2, "b", false, "p"),
        worktree(2, "b", false, "p"),
    ];
    assert_eq!(dashboard.plan_git_status_fetch(false), Some(vec![3, 1, 3, 2]));
    assert_eq!(dashboard.plan_git_status_fetch(true), None);
    assert_eq!(empty().plan_git_status_fetch(false), Some(vec![]));
}

#[test]
fn pr_fetch_while_busy() {
    let plan = with_agents(&[(1, 10, "a")]).plan_pr_status_fetch(true);
    assert_eq!(plan, FetchPlan::Busy);
    assert!(!plan.started());
}

#[test]
fn pr_fetch_with_nothing_to_do() {
    let plan = empty().plan_pr_status_fetch(false);
    assert_eq!(plan, FetchPlan::Nothing);
    assert!(plan.started());
}

#[test]
fn pr_fetch_skips_trunks_and_unknown_paths() {
    let mut dashboard = with_agents(&[(1, 10, "main"), (2, 10, "master"), (3, 10, "a"), (4, 10, "b")]);
    dashboard.git_statuses.remove(&3);
    dashboard.git_statuses.insert(4, None);
    dashboard.agents.push(5);
    dashboard.git_statuses.insert(5, Some("c".to_string()));
    assert_eq!(dashboard.plan_pr_status_fetch(false), FetchPlan::Nothing);
}

#[test]
fn pr_fetch_sorts_branches_and_drops_repeats() {
    let dashboard =
        with_agents(&[(1, 10, "b"), (2, 10, "a"), (3, 10, "b"), (4, 10, "ab"), (5, 10, "B")]);
    let plan = dashboard.plan_pr_status_fetch(false);
    assert!(plan.started());
    assert_eq!(
        plan,
        FetchPlan::Fetch { repos: vec![repo(10, &["B", "a", "ab", "b"])], workers: 1 }
    );
}

#[test]
fn pr_fetch_finds_the_main_worktree() {
    let mut dashboard = with_agents(&[(2, 1, "agent")]);
    dashboard.all_worktrees = vec![
        worktree(1, "trunk", true, "p"),
        worktree(2, "tree", false, "p"),
        worktree(3, "main", false, "p"),
        worktree(4, "lost", false, "q"),
        worktree(5, "agent", false, "p"),
    ];
    assert_eq!(
        fetched(dashboard.plan_pr_status_fetch(false)),
        vec![repo(1, &["agent", "tree"])]
    );
    dashboard.all_worktrees.push(worktree(6, "other", true, "p"));
    let mut repos = fetched(dashboard.plan_pr_status_fetch(false));
    repos.sort_by_key(|r| r.root);
    assert_eq!(repos, vec![repo(1, &["agent"]), repo(6, &["agent", "tree"])]);
}

#[test]
fn pr_fetch_puts_the_current_project_first() {
    let mut dashboard = with_agents(&[(1, 10, "a"), (2, 20, "b"), (3, 30, "c")]);
    dashboard.current_worktree = Some(3);
    assert_eq!(fetched(dashboard.plan_pr_status_fetch(false))[0], repo(30, &["c"]));
    dashboard.worktree_project_override = Some(20);
    assert_eq!(fetched(dashboard.plan_pr_status_fetch(false))[0], repo(20, &["b"]));
    dashboard.worktree_project_override = Some(99);
    assert_eq!(fetched(dashboard.plan_pr_status_fetch(false)).len(), 3);
}

#[test]
fn pr_fetch_bounds_the_workers() {
    let mut agents: Vec<(u64, u64, &str)> = vec![];
    for i in 0..6 {
        agents.push((i, 100 + i, "x"));
        let expected = if agents.len() < MAX_WORKERS { agents.len() } else { 4 };
        match with_agents(&agents).plan_pr_status_fetch(false) {
            FetchPlan::Fetch { repos, workers } => {
                assert_eq!(repos.len(), agents.len());
                assert_eq!(workers, expected);
            }
            other => panic!("{:?}", other),
        }
    }
}
