use repo_check::args::{Args, ColorOptions};
use repo_check::issues::Issues;

fn args(verbose: bool) -> Args {
    Args {
        no_fetch: true,
        verbose,
        recurse_limit: 3,
        color: ColorOptions::Never,
        path: String::from("."),
    }
}

#[test]
fn empty_report_prints_the_all_clear() {
    colored::control::set_override(false);
    let issues = Issues::new();
    assert_eq!(issues.output(&args(false)), "No issues found :)");
}

#[test]
fn one_issue_prints_its_section_with_count_and_path() {
    colored::control::set_override(false);
    let mut issues = Issues::new();
    issues
        .classify_repo(String::from("/work/a"), b"", b"fatal: not a git repository", b"", b"")
        .unwrap();
    assert_eq!(
        issues.output(&args(false)),
        "Non Git Repos ........................ 1\n    /work/a"
    );
}

#[test]
fn sections_without_issues_are_left_out() {
    colored::control::set_override(false);
    let mut issues = Issues::new();
    issues
        .classify_repo(
            String::from("/work/ahead"),
            b"Your branch is ahead of 'origin/main' by 2 commits.",
            b"",
            b"origin\n",
            b"* main 1 [origin/main] m",
        )
        .unwrap();
    let out = issues.output(&args(false));
    assert_eq!(out, "Repos with Un-pushed Commits ......... 1\n    /work/ahead");
    assert!(!out.contains("Non Git Repos"));
}

#[test]
fn verbose_prints_every_section() {
    colored::control::set_override(false);
    let issues = Issues::new();
    let out = issues.output(&args(true));
    assert_eq!(
        out,
        "Non Git Repos ........................ 0\n\
         Repos with No Remote Origin .......... 0\n\
         Repos with Current Branch Untracked .. 0\n\
         Repos with Uncommitted Files ......... 0\n\
         Repos with Un-pushed Commits ......... 0\n\
         Repos with Diverged Branches ......... 0"
    );
}

#[test]
fn two_paths_in_one_section_keep_their_order() {
    colored::control::set_override(false);
    let mut issues = Issues::new();
    issues
        .classify_repo(String::from("/a"), b"", b"fatal: not a git repository", b"", b"")
        .unwrap();
    issues
        .classify_repo(String::from("/b"), b"", b"fatal: not a git repository", b"", b"")
        .unwrap();
    assert_eq!(
        issues.output(&args(false)),
        "Non Git Repos ........................ 2\n    /a\n    /b"
    );
}

#[test]
fn counts_above_nine_print_all_digits() {
    colored::control::set_override(false);
    let mut issues = Issues::new();
    for i in 0..12 {
        issues
            .classify_repo(format!("/r{}", i), b"", b"fatal: not a git repository", b"", b"")
            .unwrap();
    }
    let out = issues.output(&args(false));
    assert!(out.starts_with("Non Git Repos ........................ 12\n"));
}
