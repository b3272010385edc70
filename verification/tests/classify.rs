use repo_check::classify::{classify_outputs, Classification, ClassifyError};

#[test]
fn scenario_fatal_status_means_no_git_repo() {
    let r = classify_outputs(b"", b"fatal: not a git repository", b"", b"");
    assert_eq!(r, Ok(Classification::NoGitRepo));
}

#[test]
fn fatal_must_be_a_prefix_of_stderr() {
    // the fatal text elsewhere in stderr does not make the directory a non-repo
    let r = classify_outputs(
        b"",
        b"warning: fatal: not a git repository",
        b"origin\n",
        b"* main 1234abc [origin/main] msg",
    );
    assert_eq!(r, Ok(Classification::Healthy));
}

#[test]
fn scenario_empty_remote_list_means_no_remote() {
    let r = classify_outputs(b"", b"", b"", b"");
    assert_eq!(r, Ok(Classification::NoRemote));
}

#[test]
fn scenario_tracking_other_branch_means_untracked() {
    let r = classify_outputs(
        b"",
        b"",
        b"origin\n",
        b"* main 1234abc [origin/feature] message",
    );
    assert_eq!(r, Ok(Classification::CurrentBranchUntracked));
}

#[test]
fn scenario_untracked_files_mean_not_committed() {
    let r = classify_outputs(
        b"On branch main\nUntracked files:\n  new.txt\n",
        b"",
        b"origin\n",
        b"* main 1234abc [origin/main] msg",
    );
    assert_eq!(r, Ok(Classification::NotCommitted));
}

#[test]
fn staged_changes_mean_not_committed() {
    let r = classify_outputs(
        b"On branch main\nChanges to be committed:\n  a.txt\n",
        b"",
        b"origin\n",
        b"* main 1234abc [origin/main] msg",
    );
    assert_eq!(r, Ok(Classification::NotCommitted));
}

#[test]
fn unstaged_changes_mean_not_committed() {
    let r = classify_outputs(
        b"On branch main\nChanges not staged for commit:\n  a.txt\n",
        b"",
        b"origin\n",
        b"* main 1234abc [origin/main] msg",
    );
    assert_eq!(r, Ok(Classification::NotCommitted));
}

#[test]
fn scenario_ahead_means_not_pushed() {
    let r = classify_outputs(
        b"On branch main\nYour branch is ahead of 'origin/main' by 2 commits.\n",
        b"",
        b"origin\n",
        b"* main 1234abc [origin/main] msg",
    );
    assert_eq!(r, Ok(Classification::NotPushed));
}

#[test]
fn diverged_branches_are_reported() {
    let r = classify_outputs(
        b"On branch main\nYour branch and 'origin/main' have diverged,\n",
        b"",
        b"origin\n",
        b"* main 1234abc [origin/main] msg",
    );
    assert_eq!(r, Ok(Classification::HaveDiverged));
}

#[test]
fn clean_tracked_repository_is_healthy() {
    let r = classify_outputs(
        b"On branch main\nnothing to commit, working tree clean\n",
        b"",
        b"origin\n",
        b"* main 1234abc [origin/main] msg\n  other 9abc [origin/other] x\n",
    );
    assert_eq!(r, Ok(Classification::Healthy));
}

#[test]
fn uncommitted_wins_over_ahead() {
    // precedence: uncommitted changes are reported before unpushed commits
    let r = classify_outputs(
        b"Untracked files:\nYour branch is ahead of 'origin/main' by 1 commit.\n",
        b"",
        b"origin\n",
        b"* main 1234abc [origin/main] msg",
    );
    assert_eq!(r, Ok(Classification::NotCommitted));
}

#[test]
fn no_marker_line_is_a_fatal_interpretation_error() {
    let r = classify_outputs(b"", b"", b"origin\n", b"  main 1234abc [origin/main] msg");
    assert_eq!(r, Err(ClassifyError::NoCurrentBranch));
}

#[test]
fn bare_star_line_is_not_a_marker() {
    // a line holding only `*` names no branch; the search goes on and fails
    let r = classify_outputs(b"", b"", b"origin\n", b"*\n");
    assert_eq!(r, Err(ClassifyError::NoCurrentBranch));
}

#[test]
fn invalid_utf8_tracking_info_is_a_fatal_interpretation_error() {
    let r = classify_outputs(b"", b"", b"origin\n", b"\xff\xfe* main");
    assert_eq!(r, Err(ClassifyError::BranchOutputNotUtf8));
}

#[test]
fn fatal_status_wins_over_invalid_utf8() {
    // the decision tree stops at the first match; tracking info is never read
    let r = classify_outputs(b"", b"fatal: not a git repository", b"origin\n", b"\xff\xfe");
    assert_eq!(r, Ok(Classification::NoGitRepo));
}

#[test]
fn branch_name_ends_at_the_next_space() {
    // branch `ma` tracks `origin/ma`: the needle is `[origin/ma`, found here
    let r = classify_outputs(b"", b"", b"origin\n", b"* ma in [origin/ma] msg");
    assert_eq!(r, Ok(Classification::Healthy));
}

#[test]
fn crlf_line_still_names_the_branch() {
    let r = classify_outputs(b"", b"", b"origin\n", b"* main\r\nnothing [origin/main]");
    assert_eq!(r, Ok(Classification::Healthy));
}
