use repo_check::args::{Args, ColorOptions};
use repo_check::issues::Issues;

// This file forces colors on; the plain renderings live in their own file
// so that the global color override is never switched both ways in one
// process.

#[test]
fn forced_colors_wrap_the_title_in_style_codes() {
    colored::control::set_override(true);
    let mut issues = Issues::new();
    issues
        .classify_repo(String::from("/work/a"), b"", b"fatal: not a git repository", b"", b"")
        .unwrap();
    let args = Args {
        no_fetch: true,
        verbose: false,
        recurse_limit: 3,
        color: ColorOptions::Always,
        path: String::from("."),
    };
    let out = issues.output(&args);
    // the painting is not the identity: style codes appear
    assert!(out.contains('\u{1b}'));
    // and the title and path still appear in the styled text
    assert!(out.contains("Non Git Repos"));
    assert!(out.contains("    /work/a"));
}
