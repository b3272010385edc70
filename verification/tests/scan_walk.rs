use repo_check::issues::Issues;
use repo_check::scan::{scan_tree, DirNode, RepoQueries};

fn repo(path: &str, status_stdout: &[u8], status_stderr: &[u8], remote: &[u8], branch: &[u8]) -> DirNode {
    DirNode {
        path: String::from(path),
        repo: Some(RepoQueries {
            status_stdout: status_stdout.to_vec(),
            status_stderr: status_stderr.to_vec(),
            remote_stdout: remote.to_vec(),
            branch_stdout: branch.to_vec(),
        }),
        children: Vec::new(),
    }
}

fn plain(path: &str, children: Vec<DirNode>) -> DirNode {
    DirNode { path: String::from(path), repo: None, children }
}

fn sample_tree() -> DirNode {
    plain(
        "/root",
        vec![
            repo("/root/bad", b"", b"fatal: not a git repository", b"", b""),
            plain(
                "/root/sub",
                vec![repo(
                    "/root/sub/dirty",
                    b"Untracked files:",
                    b"",
                    b"origin\n",
                    b"* main 1 [origin/main] m",
                )],
            ),
        ],
    )
}

#[test]
fn depth_zero_scans_nothing() {
    let tree = sample_tree();
    let mut issues = Issues::new();
    scan_tree(&tree, 0, &mut issues).unwrap();
    assert_eq!(issues.dir_searched(), 0);
    assert_eq!(issues.no_git_repo().len(), 0);
    assert_eq!(issues.not_committed().len(), 0);
}

#[test]
fn scan_finds_repositories_at_both_levels() {
    let tree = sample_tree();
    let mut issues = Issues::new();
    scan_tree(&tree, 3, &mut issues).unwrap();
    assert_eq!(issues.dir_searched(), 2);
    assert_eq!(issues.no_git_repo(), &vec![String::from("/root/bad")]);
    assert_eq!(issues.not_committed(), &vec![String::from("/root/sub/dirty")]);
}

#[test]
fn depth_limit_cuts_deep_repositories_off() {
    let tree = sample_tree();
    let mut issues = Issues::new();
    // depth 2: /root and its children are visited, /root/sub/dirty is too deep
    scan_tree(&tree, 2, &mut issues).unwrap();
    assert_eq!(issues.dir_searched(), 1);
    assert_eq!(issues.no_git_repo(), &vec![String::from("/root/bad")]);
    assert_eq!(issues.not_committed().len(), 0);
}

#[test]
fn repository_is_a_leaf_of_the_scan() {
    // a repository whose subdirectories also carry repositories: the scan
    // classifies the parent and never looks below it
    let mut parent = repo(
        "/root/outer",
        b"nothing to commit",
        b"",
        b"origin\n",
        b"* main 1 [origin/main] m",
    );
    parent.children = vec![repo(
        "/root/outer/inner",
        b"",
        b"fatal: not a git repository",
        b"",
        b"",
    )];
    let tree = plain("/root", vec![parent]);
    let mut issues = Issues::new();
    scan_tree(&tree, 5, &mut issues).unwrap();
    assert_eq!(issues.dir_searched(), 1);
    assert_eq!(issues.no_git_repo().len(), 0);
}

#[test]
fn scan_stops_on_an_uninterpretable_repository() {
    let tree = plain(
        "/root",
        vec![repo("/root/odd", b"", b"", b"origin\n", b"no marker")],
    );
    let mut issues = Issues::new();
    let r = scan_tree(&tree, 2, &mut issues);
    assert!(r.is_err());
    assert_eq!(issues.dir_searched(), 1);
}

#[test]
fn scanning_an_unchanged_tree_twice_gives_identical_reports() {
    let mut first = Issues::new();
    scan_tree(&sample_tree(), 3, &mut first).unwrap();
    let mut second = Issues::new();
    scan_tree(&sample_tree(), 3, &mut second).unwrap();
    assert_eq!(first.dir_searched(), second.dir_searched());
    assert_eq!(first.no_git_repo(), second.no_git_repo());
    assert_eq!(first.no_remote(), second.no_remote());
    assert_eq!(
        first.current_branch_untracked(),
        second.current_branch_untracked()
    );
    assert_eq!(first.not_committed(), second.not_committed());
    assert_eq!(first.not_pushed(), second.not_pushed());
    assert_eq!(first.have_diverged(), second.have_diverged());
}
