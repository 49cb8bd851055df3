use workmux::github::{
    aggregate_checks, branch_query, can_aggregate, details_query, details_reply,
    find_pr_by_head_ref, head_ref_query, list_prs, list_prs_for_branches, list_query, list_reply,
    repo_list_query, repo_reply, Author, CheckRollupItem, CheckState, GhError, GhRun, Outcome, PrBatchItem,
    PrDetails, PrListResult, PrMap, PrSummary, RepositoryOwner,
};

fn check_item(status: Option<&str>, conclusion: Option<&str>) -> CheckRollupItem {
    CheckRollupItem {
        status: status.map(String::from),
        conclusion: conclusion.map(String::from),
    }
}

#[test]
fn aggregate_checks_empty() {
    assert_eq!(aggregate_checks(&[]), None);
}

#[test]
fn aggregate_checks_all_success() {
    let checks = vec![
        check_item(Some("COMPLETED"), Some("SUCCESS")),
        check_item(Some("COMPLETED"), Some("SUCCESS")),
    ];
    assert_eq!(aggregate_checks(&checks), Some(CheckState::Success));
}

#[test]
fn aggregate_checks_with_failure() {
    let checks = vec![
        check_item(Some("COMPLETED"), Some("SUCCESS")),
        check_item(Some("COMPLETED"), Some("FAILURE")),
    ];
    assert_eq!(
        aggregate_checks(&checks),
        Some(CheckState::Failure {
            passed: 1,
            total: 2
        })
    );
}

#[test]
fn aggregate_checks_with_pending() {
    let checks = vec![
        check_item(Some("COMPLETED"), Some("SUCCESS")),
        check_item(Some("IN_PROGRESS"), None),
    ];
    assert_eq!(
        aggregate_checks(&checks),
        Some(CheckState::Pending {
            passed: 1,
            total: 2
        })
    );
}

#[test]
fn aggregate_checks_failure_takes_priority_over_pending() {
    let checks = vec![
        check_item(Some("COMPLETED"), Some("SUCCESS")),
        check_item(Some("COMPLETED"), Some("FAILURE")),
        check_item(Some("IN_PROGRESS"), None),
    ];
    assert_eq!(
        aggregate_checks(&checks),
        Some(CheckState::Failure {
            passed: 1,
            total: 3
        })
    );
}

#[test]
fn aggregate_checks_status_context_success() {
    // StatusContext uses "state" field (aliased to status) with values like SUCCESS
    let checks = vec![check_item(Some("SUCCESS"), None)];
    assert_eq!(aggregate_checks(&checks), Some(CheckState::Success));
}

#[test]
fn aggregate_checks_status_context_pending() {
    let checks = vec![check_item(Some("PENDING"), None)];
    assert_eq!(
        aggregate_checks(&checks),
        Some(CheckState::Pending {
            passed: 0,
            total: 1
        })
    );
}

#[test]
fn aggregate_checks_status_context_error() {
    let checks = vec![check_item(Some("ERROR"), None)];
    assert_eq!(
        aggregate_checks(&checks),
        Some(CheckState::Failure {
            passed: 0,
            total: 1
        })
    );
}

#[test]
fn aggregate_checks_all_skipped_returns_success() {
    let checks = vec![
        check_item(Some("COMPLETED"), Some("SKIPPED")),
        check_item(Some("COMPLETED"), Some("NEUTRAL")),
    ];
    assert_eq!(aggregate_checks(&checks), Some(CheckState::Success));
}

#[test]
fn aggregate_checks_skipped_not_counted_in_total() {
    let checks = vec![
        check_item(Some("COMPLETED"), Some("SUCCESS")),
        check_item(Some("COMPLETED"), Some("SKIPPED")),
        check_item(Some("IN_PROGRESS"), None),
    ];
    // Only SUCCESS and IN_PROGRESS count toward total (2), not SKIPPED
    assert_eq!(
        aggregate_checks(&checks),
        Some(CheckState::Pending {
            passed: 1,
            total: 2
        })
    );
}

#[test]
fn aggregate_checks_cancelled_is_failure() {
    let checks = vec![check_item(Some("COMPLETED"), Some("CANCELLED"))];
    assert_eq!(
        aggregate_checks(&checks),
        Some(CheckState::Failure {
            passed: 0,
            total: 1
        })
    );
}

#[test]
fn aggregate_checks_timed_out_is_failure() {
    let checks = vec![check_item(Some("COMPLETED"), Some("TIMED_OUT"))];
    assert_eq!(
        aggregate_checks(&checks),
        Some(CheckState::Failure {
            passed: 0,
            total: 1
        })
    );
}

#[test]
fn aggregate_checks_mixed_check_types() {
    // Mix of CheckRun (status/conclusion) and StatusContext (state only)
    let checks = vec![
        check_item(Some("COMPLETED"), Some("SUCCESS")), // CheckRun success
        check_item(Some("IN_PROGRESS"), None),          // CheckRun pending
        check_item(Some("SUCCESS"), None),              // StatusContext success
    ];
    assert_eq!(
        aggregate_checks(&checks),
        Some(CheckState::Pending {
            passed: 2,
            total: 3
        })
    );
}

#[test]
fn aggregate_checks_queued_is_pending() {
    let checks = vec![check_item(Some("QUEUED"), None)];
    assert_eq!(
        aggregate_checks(&checks),
        Some(CheckState::Pending {
            passed: 0,
            total: 1
        })
    );
}

#[test]
fn aggregate_checks_waiting_is_pending() {
    let checks = vec![check_item(Some("WAITING"), None)];
    assert_eq!(
        aggregate_checks(&checks),
        Some(CheckState::Pending {
            passed: 0,
            total: 1
        })
    );
}

#[test]
fn outcome_of_each_check() {
    let passed = [(Some("X"), Some("SUCCESS")), (Some("SUCCESS"), Some("FAILURE"))];
    for (status, conclusion) in passed {
        assert_eq!(check_item(status, conclusion).outcome(), Outcome::Passed);
    }
    for conclusion in ["FAILURE", "CANCELLED", "TIMED_OUT", "STARTUP_FAILURE", "ACTION_REQUIRED"] {
        assert_eq!(check_item(None, Some(conclusion)).outcome(), Outcome::Failed);
    }
    for status in ["FAILURE", "ERROR"] {
        assert_eq!(check_item(Some(status), Some("SKIPPED")).outcome(), Outcome::Failed);
    }
    for conclusion in ["NEUTRAL", "SKIPPED"] {
        assert_eq!(check_item(Some("QUEUED"), Some(conclusion)).outcome(), Outcome::Skipped);
    }
    for status in ["IN_PROGRESS", "QUEUED", "PENDING", "REQUESTED", "WAITING"] {
        assert_eq!(check_item(Some(status), None).outcome(), Outcome::Pending);
    }
    for status in [None, Some(""), Some("COMPLETED"), Some("success")] {
        assert_eq!(check_item(status, None).outcome(), Outcome::Unknown);
    }
}

#[test]
fn aggregate_checks_only_unknown() {
    assert_eq!(aggregate_checks(&[check_item(Some("COMPLETED"), None)]), None);
}

#[test]
fn aggregate_checks_ignores_the_order() {
    let forth = [
        check_item(None, Some("SUCCESS")),
        check_item(None, Some("FAILURE")),
        check_item(Some("WAITING"), None),
    ];
    let back = [
        check_item(Some("WAITING"), None),
        check_item(None, Some("FAILURE")),
        check_item(None, Some("SUCCESS")),
    ];
    assert_eq!(aggregate_checks(&forth), Some(CheckState::Failure { passed: 1, total: 3 }));
    assert_eq!(aggregate_checks(&forth), aggregate_checks(&back));
}

#[test]
fn can_aggregate_ordinary_lists() {
    assert!(can_aggregate(&[]));
    assert!(can_aggregate(&[check_item(Some("QUEUED"), None)]));
}

fn details(owner: &str) -> PrDetails {
    PrDetails {
        head_ref_name: "fix".to_string(),
        head_repository_owner: RepositoryOwner { login: owner.to_string() },
        state: "OPEN".to_string(),
        is_draft: false,
        title: "Fix".to_string(),
        author: Author { login: "someone".to_string() },
    }
}

#[test]
fn is_fork_compares_owners_exactly() {
    assert!(!details("acme").is_fork("acme"));
    assert!(details("acme").is_fork("Acme"));
    assert!(details("other").is_fork("acme"));
}

fn listed(number: u32, owner: &str) -> PrListResult {
    PrListResult {
        number,
        title: format!("PR {}", number),
        state: "MERGED".to_string(),
        is_draft: true,
        head_repository_owner: RepositoryOwner { login: owner.to_string() },
    }
}

#[test]
fn find_pr_takes_the_first_of_the_owner() {
    let found = find_pr_by_head_ref(
        "ACME",
        Some(vec![listed(1, "other"), listed(2, "Acme"), listed(3, "acme")]),
    );
    assert_eq!(
        found,
        Some(PrSummary {
            number: 2,
            title: "PR 2".to_string(),
            state: "MERGED".to_string(),
            is_draft: true,
            checks: None,
        })
    );
}

#[test]
fn find_pr_without_a_match() {
    assert_eq!(find_pr_by_head_ref("acme", Some(vec![listed(1, "acme2")])), None);
    assert_eq!(find_pr_by_head_ref("acme", Some(vec![])), None);
    assert_eq!(find_pr_by_head_ref("acme", None), None);
}

fn batch(number: u32, branch: &str, checks: Vec<CheckRollupItem>) -> PrBatchItem {
    PrBatchItem {
        number,
        title: format!("PR {}", number),
        state: "OPEN".to_string(),
        is_draft: false,
        head_ref_name: branch.to_string(),
        status_check_rollup: checks,
    }
}

fn numbers(map: &PrMap) -> Vec<(String, u32)> {
    let mut found: Vec<(String, u32)> =
        map.entries.iter().map(|(branch, pr)| (branch.clone(), pr.number)).collect();
    found.sort();
    found
}

#[test]
fn list_prs_keeps_the_last_of_a_branch() {
    let map = list_prs(Some(vec![
        batch(1, "a", vec![]),
        batch(2, "b", vec![check_item(None, Some("SUCCESS"))]),
        batch(3, "a", vec![check_item(Some("QUEUED"), None)]),
    ]));
    assert_eq!(numbers(&map), vec![("a".to_string(), 3), ("b".to_string(), 2)]);
    for (branch, pr) in &map.entries {
        let checks = if branch == "a" {
            CheckState::Pending { passed: 0, total: 1 }
        } else {
            CheckState::Success
        };
        assert_eq!(pr.checks, Some(checks));
    }
}

#[test]
fn list_prs_without_an_answer() {
    assert_eq!(list_prs(None), PrMap::new());
    assert_eq!(list_prs(Some(vec![])), PrMap::new());
}

#[test]
fn list_prs_for_branches_takes_the_first_of_each_answer() {
    let map = list_prs_for_branches(vec![
        Some(vec![batch(1, "a", vec![]), batch(9, "z", vec![])]),
        None,
        Some(vec![]),
        Some(vec![batch(2, "b", vec![])]),
        Some(vec![batch(3, "a", vec![])]),
    ]);
    assert_eq!(numbers(&map), vec![("a".to_string(), 3), ("b".to_string(), 2)]);
}

#[test]
fn pr_map_replaces() {
    let summary = |number: u32| PrSummary {
        number,
        title: String::new(),
        state: String::new(),
        is_draft: false,
        checks: None,
    };
    let mut map = PrMap::new();
    map.insert("a".to_string(), summary(1));
    map.insert("b".to_string(), summary(2));
    map.insert("a".to_string(), summary(3));
    assert_eq!(numbers(&map), vec![("a".to_string(), 3), ("b".to_string(), 2)]);
}

#[test]
fn is_countable_ordinary_items() {
    assert!(batch(1, "a", vec![check_item(Some("QUEUED"), None)]).is_countable());
}

fn finished(success: bool, stdout: &[u8], stderr: &[u8]) -> GhRun {
    GhRun::Finished { success, stdout: stdout.to_vec(), stderr: stderr.to_vec() }
}

#[test]
fn list_reply_of_each_run() {
    assert_eq!(list_reply(GhRun::NotFound).unwrap(), None);
    assert_eq!(list_reply(finished(false, b"[]", b"no")).unwrap(), None);
    assert_eq!(list_reply(finished(true, "[\"\u{e9}\"]".as_bytes(), b"")).unwrap(), Some("[\"\u{e9}\"]".to_string()));
    let error = list_reply(GhRun::NotRun).unwrap_err();
    assert_eq!(error.message(), "Failed to execute gh command");
    let error = list_reply(finished(true, b"\xff", b"")).unwrap_err();
    assert_eq!(error.message(), "gh output is not valid UTF-8");
    match error {
        GhError::NotUtf8(cause) => {
            assert_eq!(cause.to_string(), "invalid utf-8 sequence of 1 bytes from index 0");
        }
        other => panic!("{:?}", other),
    }
}

#[test]
fn repo_reply_of_each_run() {
    assert_eq!(repo_reply(GhRun::NotFound), None);
    assert_eq!(repo_reply(GhRun::NotRun), None);
    assert_eq!(repo_reply(finished(false, b"[]", b"")), None);
    assert_eq!(repo_reply(finished(true, b"\xff[]", b"")), Some(b"\xff[]".to_vec()));
}

#[test]
fn both_list_replies_see_one_answer() {
    let run = || finished(true, "[\"\u{e9}\"]".as_bytes(), b"noise");
    let text = list_reply(run()).unwrap().unwrap();
    assert_eq!(repo_reply(run()), Some(text.into_bytes()));
    assert_eq!(list_reply(finished(false, b"[]", b"")).unwrap(), None);
    assert_eq!(repo_reply(finished(false, b"[]", b"")), None);
}

#[test]
fn details_reply_of_each_run() {
    assert_eq!(details_reply(finished(true, b"{}", b""), 7).unwrap(), "{}");
    let error = details_reply(GhRun::NotFound, 7).unwrap_err();
    assert_eq!(
        error.message(),
        "GitHub CLI (gh) is required for --pr. Install from https://cli.github.com"
    );
    let error = details_reply(GhRun::NotRun, 7).unwrap_err();
    assert_eq!(error.message(), "Failed to execute gh command");
    let error = details_reply(finished(false, b"", b" no such \xff PR\n"), 4096).unwrap_err();
    assert_eq!(error.message(), "Failed to fetch PR #4096: no such \u{fffd} PR");
    let error = details_reply(finished(true, b"\xc3", b""), 7).unwrap_err();
    assert_eq!(error.message(), "gh output is not valid UTF-8");
}

#[test]
fn queries_name_the_branch_or_number() {
    assert_eq!(
        head_ref_query("my branch"),
        vec![
            "pr", "list", "--head", "my branch", "--state", "all", "--json",
            "number,title,state,isDraft,headRepositoryOwner", "--limit", "50",
        ]
    );
    assert_eq!(
        details_query(120),
        vec![
            "pr", "view", "120", "--json",
            "headRefName,headRepositoryOwner,state,isDraft,title,author",
        ]
    );
    assert_eq!(details_query(0)[2], "0");
    assert_eq!(
        list_query(),
        vec![
            "pr", "list", "--state", "all", "--json",
            "number,title,state,isDraft,headRefName,statusCheckRollup", "--limit", "2147483647",
        ]
    );
    assert_eq!(
        repo_list_query(),
        vec![
            "pr", "list", "--state", "all", "--json",
            "number,title,state,isDraft,headRefName,statusCheckRollup", "--limit", "200",
        ]
    );
    assert_eq!(
        branch_query("b"),
        vec![
            "pr", "list", "--head", "b", "--state", "all", "--json",
            "number,title,state,isDraft,headRefName,statusCheckRollup", "--limit", "1",
        ]
    );
}
