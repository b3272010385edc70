use repo_check::classify::ClassifyError;
use repo_check::issues::Issues;

fn counts(issues: &Issues) -> [usize; 6] {
    [
        issues.no_git_repo().len(),
        issues.no_remote().len(),
        issues.current_branch_untracked().len(),
        issues.not_committed().len(),
        issues.not_pushed().len(),
        issues.have_diverged().len(),
    ]
}

#[test]
fn new_report_is_empty() {
    let issues = Issues::new();
    assert_eq!(issues.dir_searched(), 0);
    assert_eq!(counts(&issues), [0, 0, 0, 0, 0, 0]);
}

#[test]
fn default_report_is_empty() {
    let issues = Issues::default();
    assert_eq!(issues.dir_searched(), 0);
    assert_eq!(counts(&issues), [0, 0, 0, 0, 0, 0]);
}

#[test]
fn classified_path_lands_in_exactly_one_bucket() {
    let mut issues = Issues::new();
    issues
        .classify_repo(
            String::from("/work/a"),
            b"",
            b"fatal: not a git repository",
            b"",
            b"",
        )
        .unwrap();
    assert_eq!(issues.dir_searched(), 1);
    assert_eq!(counts(&issues), [1, 0, 0, 0, 0, 0]);
    assert_eq!(issues.no_git_repo()[0], "/work/a");
}

#[test]
fn healthy_repository_is_counted_but_recorded_nowhere() {
    let mut issues = Issues::new();
    issues
        .classify_repo(
            String::from("/work/ok"),
            b"nothing to commit, working tree clean",
            b"",
            b"origin\n",
            b"* main 1234abc [origin/main] msg",
        )
        .unwrap();
    assert_eq!(issues.dir_searched(), 1);
    assert_eq!(counts(&issues), [0, 0, 0, 0, 0, 0]);
}

#[test]
fn searched_counts_every_classification_call() {
    let mut issues = Issues::new();
    issues
        .classify_repo(String::from("/a"), b"", b"fatal: not a git repository", b"", b"")
        .unwrap();
    issues
        .classify_repo(
            String::from("/b"),
            b"nothing to commit",
            b"",
            b"origin\n",
            b"* main 1 [origin/main] m",
        )
        .unwrap();
    issues
        .classify_repo(String::from("/c"), b"Untracked files:", b"", b"origin\n", b"* main 1 [origin/main] m")
        .unwrap();
    assert_eq!(issues.dir_searched(), 3);
    assert_eq!(counts(&issues), [1, 0, 0, 1, 0, 0]);
}

#[test]
fn fatal_interpretation_error_still_counts_the_repository() {
    let mut issues = Issues::new();
    let r = issues.classify_repo(
        String::from("/weird"),
        b"",
        b"",
        b"origin\n",
        b"no marker line here",
    );
    assert_eq!(r, Err(ClassifyError::NoCurrentBranch));
    assert_eq!(issues.dir_searched(), 1);
    assert_eq!(counts(&issues), [0, 0, 0, 0, 0, 0]);
}

#[test]
fn each_category_gets_its_own_bucket() {
    let mut issues = Issues::new();
    issues
        .classify_repo(String::from("/p1"), b"", b"fatal: not a git repository", b"", b"")
        .unwrap();
    issues.classify_repo(String::from("/p2"), b"", b"", b"", b"").unwrap();
    issues
        .classify_repo(String::from("/p3"), b"", b"", b"origin\n", b"* main 1 [origin/other] m")
        .unwrap();
    issues
        .classify_repo(
            String::from("/p4"),
            b"Untracked files:",
            b"",
            b"origin\n",
            b"* main 1 [origin/main] m",
        )
        .unwrap();
    issues
        .classify_repo(
            String::from("/p5"),
            b"Your branch is ahead of 'origin/main' by 2 commits.",
            b"",
            b"origin\n",
            b"* main 1 [origin/main] m",
        )
        .unwrap();
    issues
        .classify_repo(
            String::from("/p6"),
            b"Your branch and 'origin/main' have diverged,",
            b"",
            b"origin\n",
            b"* main 1 [origin/main] m",
        )
        .unwrap();
    assert_eq!(issues.dir_searched(), 6);
    assert_eq!(counts(&issues), [1, 1, 1, 1, 1, 1]);
    assert_eq!(issues.no_git_repo()[0], "/p1");
    assert_eq!(issues.no_remote()[0], "/p2");
    assert_eq!(issues.current_branch_untracked()[0], "/p3");
    assert_eq!(issues.not_committed()[0], "/p4");
    assert_eq!(issues.not_pushed()[0], "/p5");
    assert_eq!(issues.have_diverged()[0], "/p6");

    // each path appears in exactly one of the six sequences
    for p in ["/p1", "/p2", "/p3", "/p4", "/p5", "/p6"] {
        let hits = [
            issues.no_git_repo(),
            issues.no_remote(),
            issues.current_branch_untracked(),
            issues.not_committed(),
            issues.not_pushed(),
            issues.have_diverged(),
        ]
        .iter()
        .filter(|v| v.iter().any(|q| q == p))
        .count();
        assert_eq!(hits, 1);
    }
}
