//! The fixed byte strings that classification searches for in the output
//! of the version-control client, each as a spec sequence and as an
//! executable vector proved equal to it.

use vstd::prelude::*;

verus! {

/// `"fatal: not a git repository"`: the error git status prints outside a repository.
pub open spec fn fatal_not_a_repo() -> Seq<u8> {
    seq![102, 97, 116, 97, 108, 58, 32, 110, 111, 116, 32, 97, 32, 103, 105, 116, 32, 114, 101, 112, 111, 115, 105, 116, 111, 114, 121u8]
}

/// The bytes of `"fatal: not a git repository"`.
pub fn fatal_not_a_repo_bytes() -> (v: Vec<u8>)
    ensures
        v@ == fatal_not_a_repo(),
{
    let mut v: Vec<u8> = Vec::new();
    v.push(102u8);
    v.push(97u8);
    v.push(116u8);
    v.push(97u8);
    v.push(108u8);
    v.push(58u8);
    v.push(32u8);
    v.push(110u8);
    v.push(111u8);
    v.push(116u8);
    v.push(32u8);
    v.push(97u8);
    v.push(32u8);
    v.push(103u8);
    v.push(105u8);
    v.push(116u8);
    v.push(32u8);
    v.push(114u8);
    v.push(101u8);
    v.push(112u8);
    v.push(111u8);
    v.push(115u8);
    v.push(105u8);
    v.push(116u8);
    v.push(111u8);
    v.push(114u8);
    v.push(121u8);
    proof { assert(v@ =~= fatal_not_a_repo()); }
    v
}

/// `"origin"`: the remote name the scan requires.
pub open spec fn origin_token() -> Seq<u8> {
    seq![111, 114, 105, 103, 105, 110u8]
}

/// The bytes of `"origin"`.
pub fn origin_token_bytes() -> (v: Vec<u8>)
    ensures
        v@ == origin_token(),
{
    let mut v: Vec<u8> = Vec::new();
    v.push(111u8);
    v.push(114u8);
    v.push(105u8);
    v.push(103u8);
    v.push(105u8);
    v.push(110u8);
    proof { assert(v@ =~= origin_token()); }
    v
}

/// `"Changes to be committed:"`: git status heading for staged changes.
pub open spec fn staged_marker() -> Seq<u8> {
    seq![67, 104, 97, 110, 103, 101, 115, 32, 116, 111, 32, 98, 101, 32, 99, 111, 109, 109, 105, 116, 116, 101, 100, 58u8]
}

/// The bytes of `"Changes to be committed:"`.
pub fn staged_marker_bytes() -> (v: Vec<u8>)
    ensures
        v@ == staged_marker(),
{
    let mut v: Vec<u8> = Vec::new();
    v.push(67u8);
    v.push(104u8);
    v.push(97u8);
    v.push(110u8);
    v.push(103u8);
    v.push(101u8);
    v.push(115u8);
    v.push(32u8);
    v.push(116u8);
    v.push(111u8);
    v.push(32u8);
    v.push(98u8);
    v.push(101u8);
    v.push(32u8);
    v.push(99u8);
    v.push(111u8);
    v.push(109u8);
    v.push(109u8);
    v.push(105u8);
    v.push(116u8);
    v.push(116u8);
    v.push(101u8);
    v.push(100u8);
    v.push(58u8);
    proof { assert(v@ =~= staged_marker()); }
    v
}

/// `"Changes not staged for commit:"`: git status heading for unstaged changes.
pub open spec fn unstaged_marker() -> Seq<u8> {
    seq![67, 104, 97, 110, 103, 101, 115, 32, 110, 111, 116, 32, 115, 116, 97, 103, 101, 100, 32, 102, 111, 114, 32, 99, 111, 109, 109, 105, 116, 58u8]
}

/// The bytes of `"Changes not staged for commit:"`.
pub fn unstaged_marker_bytes() -> (v: Vec<u8>)
    ensures
        v@ == unstaged_marker(),
{
    let mut v: Vec<u8> = Vec::new();
    v.push(67u8);
    v.push(104u8);
    v.push(97u8);
    v.push(110u8);
    v.push(103u8);
    v.push(101u8);
    v.push(115u8);
    v.push(32u8);
    v.push(110u8);
    v.push(111u8);
    v.push(116u8);
    v.push(32u8);
    v.push(115u8);
    v.push(116u8);
    v.push(97u8);
    v.push(103u8);
    v.push(101u8);
    v.push(100u8);
    v.push(32u8);
    v.push(102u8);
    v.push(111u8);
    v.push(114u8);
    v.push(32u8);
    v.push(99u8);
    v.push(111u8);
    v.push(109u8);
    v.push(109u8);
    v.push(105u8);
    v.push(116u8);
    v.push(58u8);
    proof { assert(v@ =~= unstaged_marker()); }
    v
}

/// `"Untracked files:"`: git status heading for untracked files.
pub open spec fn untracked_marker() -> Seq<u8> {
    seq![85, 110, 116, 114, 97, 99, 107, 101, 100, 32, 102, 105, 108, 101, 115, 58u8]
}

/// The bytes of `"Untracked files:"`.
pub fn untracked_marker_bytes() -> (v: Vec<u8>)
    ensures
        v@ == untracked_marker(),
{
    let mut v: Vec<u8> = Vec::new();
    v.push(85u8);
    v.push(110u8);
    v.push(116u8);
    v.push(114u8);
    v.push(97u8);
    v.push(99u8);
    v.push(107u8);
    v.push(101u8);
    v.push(100u8);
    v.push(32u8);
    v.push(102u8);
    v.push(105u8);
    v.push(108u8);
    v.push(101u8);
    v.push(115u8);
    v.push(58u8);
    proof { assert(v@ =~= untracked_marker()); }
    v
}

/// `"Your branch is ahead of"`: git status phrase for unpushed commits.
pub open spec fn ahead_marker() -> Seq<u8> {
    seq![89, 111, 117, 114, 32, 98, 114, 97, 110, 99, 104, 32, 105, 115, 32, 97, 104, 101, 97, 100, 32, 111, 102u8]
}

/// The bytes of `"Your branch is ahead of"`.
pub fn ahead_marker_bytes() -> (v: Vec<u8>)
    ensures
        v@ == ahead_marker(),
{
    let mut v: Vec<u8> = Vec::new();
    v.push(89u8);
    v.push(111u8);
    v.push(117u8);
    v.push(114u8);
    v.push(32u8);
    v.push(98u8);
    v.push(114u8);
    v.push(97u8);
    v.push(110u8);
    v.push(99u8);
    v.push(104u8);
    v.push(32u8);
    v.push(105u8);
    v.push(115u8);
    v.push(32u8);
    v.push(97u8);
    v.push(104u8);
    v.push(101u8);
    v.push(97u8);
    v.push(100u8);
    v.push(32u8);
    v.push(111u8);
    v.push(102u8);
    proof { assert(v@ =~= ahead_marker()); }
    v
}

/// `"have diverged"`: git status phrase for diverged branches.
pub open spec fn diverged_marker() -> Seq<u8> {
    seq![104, 97, 118, 101, 32, 100, 105, 118, 101, 114, 103, 101, 100u8]
}

/// The bytes of `"have diverged"`.
pub fn diverged_marker_bytes() -> (v: Vec<u8>)
    ensures
        v@ == diverged_marker(),
{
    let mut v: Vec<u8> = Vec::new();
    v.push(104u8);
    v.push(97u8);
    v.push(118u8);
    v.push(101u8);
    v.push(32u8);
    v.push(100u8);
    v.push(105u8);
    v.push(118u8);
    v.push(101u8);
    v.push(114u8);
    v.push(103u8);
    v.push(101u8);
    v.push(100u8);
    proof { assert(v@ =~= diverged_marker()); }
    v
}

/// `"[origin/"`: start of the remote-tracking note in git branch -vv.
pub open spec fn tracking_prefix() -> Seq<u8> {
    seq![91, 111, 114, 105, 103, 105, 110, 47u8]
}

/// The bytes of `"[origin/"`.
pub fn tracking_prefix_bytes() -> (v: Vec<u8>)
    ensures
        v@ == tracking_prefix(),
{
    let mut v: Vec<u8> = Vec::new();
    v.push(91u8);
    v.push(111u8);
    v.push(114u8);
    v.push(105u8);
    v.push(103u8);
    v.push(105u8);
    v.push(110u8);
    v.push(47u8);
    proof { assert(v@ =~= tracking_prefix()); }
    v
}

} // verus!
