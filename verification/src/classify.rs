//! Classification of one repository from the raw text of the three status
//! queries: the working-tree status (stdout and stderr), the remote list, and
//! the per-branch tracking info.

use vstd::prelude::*;

use crate::needles::{
    ahead_marker, ahead_marker_bytes, diverged_marker, diverged_marker_bytes, fatal_not_a_repo,
    fatal_not_a_repo_bytes, origin_token, origin_token_bytes, staged_marker, staged_marker_bytes,
    tracking_prefix, tracking_prefix_bytes, unstaged_marker, unstaged_marker_bytes,
    untracked_marker, untracked_marker_bytes,
};
use crate::text::{contains_seq, starts_with_seq};

verus! {

/// The issue category a repository falls under, or `Healthy` when none does.
/// The categories are mutually exclusive: classification is a decision tree
/// and the first match wins.
#[derive(Debug, Clone, Copy, PartialEq, Eq, Structural)]
pub enum Classification {
    NoGitRepo,
    NoRemote,
    CurrentBranchUntracked,
    NotCommitted,
    NotPushed,
    HaveDiverged,
    Healthy,
}

/// The tracking-info output could not be interpreted; the whole scan stops.
#[derive(Debug, Clone, Copy, PartialEq, Eq, Structural)]
pub enum ClassifyError {
    /// The tracking-info output was not valid UTF-8.
    BranchOutputNotUtf8,
    /// No line of the tracking-info output marks a checked-out branch.
    NoCurrentBranch,
}

/// The index of the first occurrence of `b` in `s` at or after `i`, or
/// `s.len()` when there is none.
pub open spec fn find_byte(s: Seq<u8>, b: u8, i: int) -> int
    decreases s.len() - i,
{
    if i >= s.len() {
        s.len() as int
    } else if s[i] == b {
        i
    } else {
        find_byte(s, b, i + 1)
    }
}

proof fn lemma_find_byte(s: Seq<u8>, b: u8, i: int)
    requires
        0 <= i <= s.len(),
    ensures
        i <= find_byte(s, b, i) <= s.len(),
        forall|k: int| i <= k < find_byte(s, b, i) ==> s[k] != b,
        find_byte(s, b, i) < s.len() ==> s[find_byte(s, b, i)] == b,
    decreases s.len() - i,
{
    if i < s.len() && s[i] != b {
        lemma_find_byte(s, b, i + 1);
    }
}

/// A position with no `b` before it (from `i` on) and `b` or the end at it
/// is exactly `find_byte`.
proof fn lemma_find_byte_unique(s: Seq<u8>, b: u8, i: int, e: int)
    requires
        0 <= i <= e <= s.len(),
        forall|k: int| i <= k < e ==> s[k] != b,
        e < s.len() ==> s[e] == b,
    ensures
        find_byte(s, b, i) == e,
{
    lemma_find_byte(s, b, i);
    let f = find_byte(s, b, i);
    if f < e {
        assert(s[f] != b);
    }
    if e < f {
        assert(s[e] != b);
    }
}

/// One line as `str::lines` yields it: a single trailing carriage return is
/// dropped.
pub open spec fn strip_cr(l: Seq<u8>) -> Seq<u8> {
    if l.len() > 0 && l.last() == 13 {
        l.drop_last()
    } else {
        l
    }
}

/// Whether the first space-separated token of the line is exactly `*`, the
/// marker git puts on the checked-out branch.
pub open spec fn line_marks_current(l: Seq<u8>) -> bool {
    l.len() >= 1 && l[0] == 42 && (l.len() == 1 || l[1] == 32)
}

/// The second space-separated token of a line whose first token is `*`: the
/// name of the checked-out branch. `None` when the line does not mark the
/// checked-out branch or has no second token.
pub open spec fn branch_of_line(l: Seq<u8>) -> Option<Seq<u8>> {
    if line_marks_current(l) && l.len() >= 2 {
        Some(l.subrange(2, find_byte(l, 32, 2)))
    } else {
        None
    }
}

/// The checked-out branch name found by walking the tracking-info output line
/// by line from position `i`.
pub open spec fn find_branch(s: Seq<u8>, i: int) -> Option<Seq<u8>>
    decreases s.len() - i,
    when 0 <= i <= s.len()
    via find_branch_decreases
{
    if i >= s.len() {
        None
    } else {
        let e = find_byte(s, 10, i);
        let l = strip_cr(s.subrange(i, e));
        match branch_of_line(l) {
            Some(b) => Some(b),
            None => {
                if e >= s.len() {
                    None
                } else {
                    find_branch(s, e + 1)
                }
            },
        }
    }
}

#[via_fn]
proof fn find_branch_decreases(s: Seq<u8>, i: int) {
    lemma_find_byte(s, 10, i);
}

/// The needle whose presence in the tracking-info output shows that the
/// checked-out branch has a remote-tracking branch: `[origin/` followed by
/// the branch name.
pub open spec fn tracking_needle(branch: Seq<u8>) -> Seq<u8> {
    tracking_prefix() + branch
}

/// What classification the three query outputs lead to, in precedence order:
/// first a fatal status error, then a missing `origin` remote, then an
/// untracked checked-out branch, then uncommitted changes, then unpushed
/// commits, then diverged branches; a repository matching none is healthy.
/// Interpreting the tracking info fails when that output is not UTF-8 or
/// names no checked-out branch.
pub open spec fn classify_spec(
    status_stdout: Seq<u8>,
    status_stderr: Seq<u8>,
    remote_stdout: Seq<u8>,
    branch_stdout: Seq<u8>,
) -> Result<Classification, ClassifyError> {
    if starts_with_seq(status_stderr, fatal_not_a_repo()) {
        Ok(Classification::NoGitRepo)
    } else if !contains_seq(remote_stdout, origin_token()) {
        Ok(Classification::NoRemote)
    } else if !vstd::utf8::valid_utf8(branch_stdout) {
        Err(ClassifyError::BranchOutputNotUtf8)
    } else {
        match find_branch(branch_stdout, 0) {
            None => Err(ClassifyError::NoCurrentBranch),
            Some(branch) => {
                if !contains_seq(branch_stdout, tracking_needle(branch)) {
                    Ok(Classification::CurrentBranchUntracked)
                } else if contains_seq(status_stdout, staged_marker()) || contains_seq(
                    status_stdout,
                    unstaged_marker(),
                ) || contains_seq(status_stdout, untracked_marker()) {
                    Ok(Classification::NotCommitted)
                } else if contains_seq(status_stdout, ahead_marker()) {
                    Ok(Classification::NotPushed)
                } else if contains_seq(status_stdout, diverged_marker()) {
                    Ok(Classification::HaveDiverged)
                } else {
                    Ok(Classification::Healthy)
                }
            },
        }
    }
}

/// Relies on `core::str::from_utf8`: it returns `Ok` exactly on valid UTF-8,
/// as vstd's `valid_utf8` defines it.
#[verifier::external_body]
fn utf8_ok(b: &[u8]) -> (r: bool)
    ensures
        r == vstd::utf8::valid_utf8(b@),
{
    core::str::from_utf8(b).is_ok()
}

/// The name of the checked-out branch in the tracking-info output: the second
/// token of the first line whose first space-separated token is `*`.
pub fn find_current_branch(s: &[u8]) -> (r: Option<Vec<u8>>)
    ensures
        match r {
            Some(v) => find_branch(s@, 0) == Some::<Seq<u8>>(v@),
            None => find_branch(s@, 0) is None,
        },
{
    let mut i: usize = 0;
    loop
        invariant
            0 <= i <= s@.len(),
            find_branch(s@, 0) == find_branch(s@, i as int),
        decreases s@.len() - i,
    {
        if i >= s.len() {
            return None;
        }
        // find the end of the line
        let mut e: usize = i;
        while e < s.len() && s[e] != 10
            invariant
                i <= e <= s@.len(),
                forall|k: int| i <= k < e ==> s@[k] != 10,
            decreases s@.len() - e,
        {
            e += 1;
        }
        proof {
            lemma_find_byte_unique(s@, 10, i as int, e as int);
        }
        // drop a trailing carriage return
        let e2: usize = if e > i && s[e - 1] == 13 {
            e - 1
        } else {
            e
        };
        proof {
            let l0 = s@.subrange(i as int, e as int);
            if e > i && s@[e - 1] == 13 {
                assert(l0.last() == 13);
                assert(strip_cr(l0) =~= s@.subrange(i as int, e2 as int));
            } else {
                assert(strip_cr(l0) =~= s@.subrange(i as int, e2 as int));
            }
        }
        let ghost l = s@.subrange(i as int, e2 as int);
        if e2 > i && s[i] == 42 && (e2 - i == 1 || s[i + 1] == 32) {
            assert(line_marks_current(l));
            if e2 - i >= 2 {
                // the branch name runs to the next space or the end of the line
                let mut sp: usize = i + 2;
                while sp < e2 && s[sp] != 32
                    invariant
                        i + 2 <= sp <= e2 <= s@.len(),
                        forall|k: int| i + 2 <= k < sp ==> s@[k] != 32,
                    decreases e2 - sp,
                {
                    sp += 1;
                }
                proof {
                    assert forall|k: int| 2 <= k < sp - i implies l[k] != 32 by {
                        assert(l[k] == s@[i + k]);
                    }
                    if sp < e2 {
                        assert(l[sp - i] == s@[sp as int]);
                    }
                    lemma_find_byte_unique(l, 32, 2, sp - i);
                }
                let mut v: Vec<u8> = Vec::new();
                let mut k: usize = i + 2;
                while k < sp
                    invariant
                        i + 2 <= k <= sp <= s@.len(),
                        v@ == s@.subrange(i + 2, k as int),
                    decreases sp - k,
                {
                    v.push(s[k]);
                    proof {
                        assert(v@ =~= s@.subrange(i + 2, k + 1));
                    }
                    k += 1;
                }
                proof {
                    assert(branch_of_line(l) == Some(l.subrange(2, sp - i)));
                    assert(l.subrange(2, sp - i) =~= s@.subrange(i + 2, sp as int));
                    assert(find_branch(s@, i as int) == Some(v@));
                }
                return Some(v);
            }
            // the marker line has no second token: keep looking
        }
        proof {
            assert(branch_of_line(l) is None);
        }
        if e >= s.len() {
            assert(find_branch(s@, i as int) is None);
            return None;
        }
        proof {
            assert(find_branch(s@, i as int) == find_branch(s@, e + 1));
        }
        i = e + 1;
    }
}

/// The classification that the outputs of the three status queries determine.
/// The result is a function of exactly these inputs, and follows the
/// precedence order of `classify_spec`.
pub fn classify_outputs(
    status_stdout: &[u8],
    status_stderr: &[u8],
    remote_stdout: &[u8],
    branch_stdout: &[u8],
) -> (r: Result<Classification, ClassifyError>)
    ensures
        r == classify_spec(status_stdout@, status_stderr@, remote_stdout@, branch_stdout@),
{
    let fatal = fatal_not_a_repo_bytes();
    if crate::text::starts_with(status_stderr, fatal.as_slice()) {
        return Ok(Classification::NoGitRepo);
    }
    let origin = origin_token_bytes();
    if !crate::issues::is_sub(remote_stdout, origin.as_slice()) {
        return Ok(Classification::NoRemote);
    }
    if !utf8_ok(branch_stdout) {
        return Err(ClassifyError::BranchOutputNotUtf8);
    }
    match find_current_branch(branch_stdout) {
        None => Err(ClassifyError::NoCurrentBranch),
        Some(branch) => {
            let mut needle = tracking_prefix_bytes();
            let mut k: usize = 0;
            while k < branch.len()
                invariant
                    0 <= k <= branch@.len(),
                    needle@ == tracking_prefix() + branch@.subrange(0, k as int),
                decreases branch@.len() - k,
            {
                needle.push(branch[k]);
                proof {
                    assert(needle@ =~= tracking_prefix() + branch@.subrange(0, k + 1));
                }
                k += 1;
            }
            proof {
                assert(branch@.subrange(0, branch@.len() as int) =~= branch@);
            }
            if !crate::issues::is_sub(branch_stdout, needle.as_slice()) {
                return Ok(Classification::CurrentBranchUntracked);
            }
            let staged = staged_marker_bytes();
            let unstaged = unstaged_marker_bytes();
            let untracked = untracked_marker_bytes();
            if crate::issues::is_sub(status_stdout, staged.as_slice()) || crate::issues::is_sub(
                status_stdout,
                unstaged.as_slice(),
            ) || crate::issues::is_sub(status_stdout, untracked.as_slice()) {
                return Ok(Classification::NotCommitted);
            }
            let ahead = ahead_marker_bytes();
            if crate::issues::is_sub(status_stdout, ahead.as_slice()) {
                return Ok(Classification::NotPushed);
            }
            let diverged = diverged_marker_bytes();
            if crate::issues::is_sub(status_stdout, diverged.as_slice()) {
                return Ok(Classification::HaveDiverged);
            }
            Ok(Classification::Healthy)
        },
    }
}

/// Classification reads nothing but the three query outputs: on equal
/// outputs it is equal, whatever else differs between two scans.
pub proof fn lemma_classify_deterministic(
    s1: Seq<u8>, e1: Seq<u8>, r1: Seq<u8>, b1: Seq<u8>,
    s2: Seq<u8>, e2: Seq<u8>, r2: Seq<u8>, b2: Seq<u8>,
)
    requires
        s1 == s2,
        e1 == e2,
        r1 == r2,
        b1 == b2,
    ensures
        classify_spec(s1, e1, r1, b1) == classify_spec(s2, e2, r2, b2),
{
}

} // verus!
