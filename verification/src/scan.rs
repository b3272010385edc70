//! The Traversal Engine over a modelled directory tree: directories are
//! visited up to a depth limit, a directory recognized as a repository is
//! classified from its query outputs and never recursed into, and every other
//! directory has its children visited with one level less of budget. The
//! caller that walks a real filesystem performs the same steps directory by
//! directory through [`crate::issues::Issues::classify_repo`]; the tree form
//! here lets the whole walk be stated and proved as one function.

use vstd::prelude::*;

use crate::classify::{classify_spec, Classification, ClassifyError};
use crate::issues::{
    buckets_containing, buckets_no_duplicates, bump, lemma_record_exclusive, record_spec, Issues,
    IssuesView,
};

verus! {

/// The raw output of the three status queries run in one repository.
#[derive(Debug, Clone)]
pub struct RepoQueries {
    pub status_stdout: Vec<u8>,
    pub status_stderr: Vec<u8>,
    pub remote_stdout: Vec<u8>,
    pub branch_stdout: Vec<u8>,
}

/// One directory of the tree a scan walks: its path, the query outputs when
/// the directory carries a version-control marker (`None` when it does not),
/// and its subdirectories.
#[derive(Debug)]
pub struct DirNode {
    pub path: String,
    pub repo: Option<RepoQueries>,
    pub children: Vec<DirNode>,
}

/// The report a scan of `node` with `depth` levels of budget turns `v` into,
/// or the fatal error that stopped it.
pub open spec fn scan_spec(v: IssuesView, node: DirNode, depth: u32) -> Result<
    IssuesView,
    ClassifyError,
>
    decreases depth, 1int, 0int,
{
    if depth == 0 {
        Ok(v)
    } else {
        match node.repo {
            Some(q) => match classify_spec(
                q.status_stdout@,
                q.status_stderr@,
                q.remote_stdout@,
                q.branch_stdout@,
            ) {
                Ok(c) => Ok(record_spec(bump(v), node.path@, c)),
                Err(e) => Err(e),
            },
            None => scan_children_spec(v, node.children@, 0, depth),
        }
    }
}

/// The scan of the children from index `i` on, each with one level less of
/// budget, threading the report left to right.
pub open spec fn scan_children_spec(
    v: IssuesView,
    cs: Seq<DirNode>,
    i: int,
    depth: u32,
) -> Result<IssuesView, ClassifyError>
    decreases depth, 0int, cs.len() - i,
    when depth >= 1
{
    if i >= cs.len() {
        Ok(v)
    } else {
        match scan_spec(v, cs[i], (depth - 1) as u32) {
            Ok(v2) => scan_children_spec(v2, cs, i + 1, depth),
            Err(e) => Err(e),
        }
    }
}

/// How many repositories a scan of `node` with budget `depth` inspects.
pub open spec fn repo_count(node: DirNode, depth: u32) -> nat
    decreases depth, 1int, 0int,
{
    if depth == 0 {
        0
    } else if node.repo is Some {
        1
    } else {
        repo_count_children(node.children@, 0, depth)
    }
}

/// How many repositories the children from index `i` on hold within budget.
pub open spec fn repo_count_children(cs: Seq<DirNode>, i: int, depth: u32) -> nat
    decreases depth, 0int, cs.len() - i,
    when depth >= 1
{
    if i >= cs.len() {
        0
    } else {
        repo_count(cs[i], (depth - 1) as u32) + repo_count_children(cs, i + 1, depth)
    }
}

/// A finished scan has inspected exactly `repo_count` repositories: the
/// search counter equals the number of classification calls the walk made,
/// however many of the repositories were flagged.
pub proof fn lemma_scan_searched(v: IssuesView, node: DirNode, depth: u32)
    ensures
        match scan_spec(v, node, depth) {
            Ok(v2) => v2.dir_searched == v.dir_searched + repo_count(node, depth),
            Err(_) => true,
        },
    decreases depth, 1int, 0int,
{
    if depth != 0 && node.repo is None {
        lemma_scan_children_searched(v, node.children@, 0, depth);
    }
}

proof fn lemma_scan_children_searched(v: IssuesView, cs: Seq<DirNode>, i: int, depth: u32)
    requires
        depth >= 1,
        0 <= i,
    ensures
        match scan_children_spec(v, cs, i, depth) {
            Ok(v2) => v2.dir_searched == v.dir_searched + repo_count_children(cs, i, depth),
            Err(_) => true,
        },
    decreases depth, 0int, cs.len() - i,
{
    if i < cs.len() {
        lemma_scan_searched(v, cs[i], (depth - 1) as u32);
        match scan_spec(v, cs[i], (depth - 1) as u32) {
            Ok(v2) => lemma_scan_children_searched(v2, cs, i + 1, depth),
            Err(_) => {},
        }
    }
}

/// Each inspected repository is recorded at most once: a finished scan has
/// grown the six category sequences by at most as many entries as the
/// repositories it inspected.
pub proof fn lemma_scan_recorded_bound(v: IssuesView, node: DirNode, depth: u32)
    ensures
        match scan_spec(v, node, depth) {
            Ok(v2) => crate::issues::total_recorded(v2) - crate::issues::total_recorded(v)
                <= v2.dir_searched - v.dir_searched,
            Err(_) => true,
        },
    decreases depth, 1int, 0int,
{
    if depth != 0 && node.repo is None {
        lemma_scan_children_recorded_bound(v, node.children@, 0, depth);
    }
}

proof fn lemma_scan_children_recorded_bound(v: IssuesView, cs: Seq<DirNode>, i: int, depth: u32)
    requires
        depth >= 1,
        0 <= i,
    ensures
        match scan_children_spec(v, cs, i, depth) {
            Ok(v2) => crate::issues::total_recorded(v2) - crate::issues::total_recorded(v)
                <= v2.dir_searched - v.dir_searched,
            Err(_) => true,
        },
    decreases depth, 0int, cs.len() - i,
{
    if i < cs.len() {
        lemma_scan_recorded_bound(v, cs[i], (depth - 1) as u32);
        lemma_scan_searched(v, cs[i], (depth - 1) as u32);
        match scan_spec(v, cs[i], (depth - 1) as u32) {
            Ok(v2) => lemma_scan_children_recorded_bound(v2, cs, i + 1, depth),
            Err(_) => {},
        }
    }
}

/// The report has only grown from `a` to `b`: each of the six sequences of
/// `a` is a prefix of its sequence in `b`, and the search counter has not
/// decreased.
pub open spec fn report_grows(a: IssuesView, b: IssuesView) -> bool {
    &&& a.dir_searched <= b.dir_searched
    &&& a.no_git_repo.is_prefix_of(b.no_git_repo)
    &&& a.no_remote.is_prefix_of(b.no_remote)
    &&& a.current_branch_untracked.is_prefix_of(b.current_branch_untracked)
    &&& a.not_committed.is_prefix_of(b.not_committed)
    &&& a.not_pushed.is_prefix_of(b.not_pushed)
    &&& a.have_diverged.is_prefix_of(b.have_diverged)
}

proof fn lemma_grows_refl(a: IssuesView)
    ensures
        report_grows(a, a),
{
    assert(a.no_git_repo.subrange(0, a.no_git_repo.len() as int) =~= a.no_git_repo);
    assert(a.no_remote.subrange(0, a.no_remote.len() as int) =~= a.no_remote);
    assert(a.current_branch_untracked.subrange(0, a.current_branch_untracked.len() as int)
        =~= a.current_branch_untracked);
    assert(a.not_committed.subrange(0, a.not_committed.len() as int) =~= a.not_committed);
    assert(a.not_pushed.subrange(0, a.not_pushed.len() as int) =~= a.not_pushed);
    assert(a.have_diverged.subrange(0, a.have_diverged.len() as int) =~= a.have_diverged);
}

proof fn lemma_grows_trans(a: IssuesView, b: IssuesView, c: IssuesView)
    requires
        report_grows(a, b),
        report_grows(b, c),
    ensures
        report_grows(a, c),
{
    assert(a.no_git_repo =~= c.no_git_repo.subrange(0, a.no_git_repo.len() as int));
    assert(a.no_remote =~= c.no_remote.subrange(0, a.no_remote.len() as int));
    assert(a.current_branch_untracked =~= c.current_branch_untracked.subrange(
        0,
        a.current_branch_untracked.len() as int,
    ));
    assert(a.not_committed =~= c.not_committed.subrange(0, a.not_committed.len() as int));
    assert(a.not_pushed =~= c.not_pushed.subrange(0, a.not_pushed.len() as int));
    assert(a.have_diverged =~= c.have_diverged.subrange(0, a.have_diverged.len() as int));
}

proof fn lemma_record_grows(v: IssuesView, path: Seq<char>, c: Classification)
    ensures
        report_grows(v, record_spec(bump(v), path, c)),
{
    lemma_grows_refl(v);
    assert(v.no_git_repo.push(path).subrange(0, v.no_git_repo.len() as int) =~= v.no_git_repo);
    assert(v.no_remote.push(path).subrange(0, v.no_remote.len() as int) =~= v.no_remote);
    assert(v.current_branch_untracked.push(path).subrange(
        0,
        v.current_branch_untracked.len() as int,
    ) =~= v.current_branch_untracked);
    assert(v.not_committed.push(path).subrange(0, v.not_committed.len() as int)
        =~= v.not_committed);
    assert(v.not_pushed.push(path).subrange(0, v.not_pushed.len() as int) =~= v.not_pushed);
    assert(v.have_diverged.push(path).subrange(0, v.have_diverged.len() as int)
        =~= v.have_diverged);
}

/// A scan only adds to the report: what stood in it stands there still, in
/// place, whatever the scan went on to record.
pub proof fn lemma_scan_grows(v: IssuesView, node: DirNode, depth: u32)
    ensures
        match scan_spec(v, node, depth) {
            Ok(v2) => report_grows(v, v2),
            Err(_) => true,
        },
    decreases depth, 1int, 0int,
{
    if depth == 0 {
        lemma_grows_refl(v);
    } else {
        match node.repo {
            Some(q) => {
                match classify_spec(
                    q.status_stdout@,
                    q.status_stderr@,
                    q.remote_stdout@,
                    q.branch_stdout@,
                ) {
                    Ok(c) => lemma_record_grows(v, node.path@, c),
                    Err(_) => {},
                }
            },
            None => lemma_scan_children_grows(v, node.children@, 0, depth),
        }
    }
}

proof fn lemma_scan_children_grows(v: IssuesView, cs: Seq<DirNode>, i: int, depth: u32)
    requires
        depth >= 1,
        0 <= i,
    ensures
        match scan_children_spec(v, cs, i, depth) {
            Ok(v2) => report_grows(v, v2),
            Err(_) => true,
        },
    decreases depth, 0int, cs.len() - i,
{
    if i >= cs.len() {
        lemma_grows_refl(v);
    } else {
        lemma_scan_grows(v, cs[i], (depth - 1) as u32);
        match scan_spec(v, cs[i], (depth - 1) as u32) {
            Ok(v2) => {
                lemma_scan_children_grows(v2, cs, i + 1, depth);
                match scan_children_spec(v2, cs, i + 1, depth) {
                    Ok(v3) => lemma_grows_trans(v, v2, v3),
                    Err(_) => {},
                }
            },
            Err(_) => {},
        }
    }
}

/// Walks the tree and classifies each repository found within the depth
/// budget, exactly as `scan_spec` says; on a fatal interpretation error the
/// scan stops and reports it, and what the report already held is still
/// there, in place.
pub fn scan_tree(node: &DirNode, depth: u32, issues: &mut Issues) -> (r: Result<(), ClassifyError>)
    requires
        old(issues)@.dir_searched + repo_count(*node, depth) <= i32::MAX,
    ensures
        match r {
            Ok(()) => Ok::<IssuesView, ClassifyError>(final(issues)@) == scan_spec(
                old(issues)@,
                *node,
                depth,
            ),
            Err(e) => scan_spec(old(issues)@, *node, depth) == Err::<IssuesView, ClassifyError>(e)
                && report_grows(old(issues)@, final(issues)@),
        },
    decreases depth,
{
    if depth == 0 {
        return Ok(());
    }
    match &node.repo {
        Some(q) => {
            let res = issues.classify_repo(
                node.path.clone(),
                q.status_stdout.as_slice(),
                q.status_stderr.as_slice(),
                q.remote_stdout.as_slice(),
                q.branch_stdout.as_slice(),
            );
            proof {
                if res is Err {
                    lemma_grows_refl(old(issues)@);
                }
            }
            res
        },
        None => {
            let ghost v0 = issues@;
            proof {
                lemma_grows_refl(v0);
            }
            let mut idx: usize = 0;
            while idx < node.children.len()
                invariant
                    depth >= 1,
                    node.repo is None,
                    v0 == old(issues)@,
                    report_grows(v0, issues@),
                    0 <= idx <= node.children@.len(),
                    issues@.dir_searched + repo_count_children(node.children@, idx as int, depth)
                        <= i32::MAX,
                    scan_children_spec(v0, node.children@, 0, depth) == scan_children_spec(
                        issues@,
                        node.children@,
                        idx as int,
                        depth,
                    ),
                decreases node.children@.len() - idx,
            {
                let ghost before = issues@;
                let child_res = scan_tree(&node.children[idx], depth - 1, issues);
                match child_res {
                    Ok(()) => {
                        proof {
                            lemma_scan_searched(before, node.children@[idx as int], (depth - 1) as u32);
                            lemma_scan_grows(before, node.children@[idx as int], (depth - 1) as u32);
                            lemma_grows_trans(v0, before, issues@);
                        }
                        idx += 1;
                    },
                    Err(e) => {
                        proof {
                            assert(scan_children_spec(before, node.children@, idx as int, depth)
                                == Err::<IssuesView, ClassifyError>(e));
                            lemma_grows_trans(v0, before, issues@);
                        }
                        return Err(e);
                    },
                }
            }
            Ok(())
        },
    }
}

/// The paths of the repositories a scan of `node` inspects, in visit order.
pub open spec fn repo_paths(node: DirNode, depth: u32) -> Seq<Seq<char>>
    decreases depth, 1int, 0int,
{
    if depth == 0 {
        Seq::empty()
    } else if node.repo is Some {
        seq![node.path@]
    } else {
        repo_paths_children(node.children@, 0, depth)
    }
}

/// The repository paths of the children from index `i` on.
pub open spec fn repo_paths_children(cs: Seq<DirNode>, i: int, depth: u32) -> Seq<Seq<char>>
    decreases depth, 0int, cs.len() - i,
    when depth >= 1
{
    if i >= cs.len() {
        Seq::empty()
    } else {
        repo_paths(cs[i], (depth - 1) as u32) + repo_paths_children(cs, i + 1, depth)
    }
}

proof fn lemma_concat_contains<A>(a: Seq<A>, b: Seq<A>, x: A)
    ensures
        (a + b).contains(x) <==> a.contains(x) || b.contains(x),
{
    if (a + b).contains(x) {
        let i = choose|i: int| 0 <= i < (a + b).len() && (a + b)[i] == x;
        if i < a.len() {
            assert(a[i] == x);
        } else {
            assert(b[i - a.len()] == x);
        }
    }
    if a.contains(x) {
        let i = choose|i: int| 0 <= i < a.len() && a[i] == x;
        assert((a + b)[i] == x);
    }
    if b.contains(x) {
        let i = choose|i: int| 0 <= i < b.len() && b[i] == x;
        assert((a + b)[a.len() + i] == x);
    }
}

/// The six sequences stay a partition across a whole scan: when the tree
/// repeats no repository path and none of its repository paths is recorded
/// yet, the finished scan holds each of them in at most one category, every
/// other path exactly as before, and no sequence has acquired a duplicate.
pub proof fn lemma_scan_partition(v: IssuesView, node: DirNode, depth: u32)
    requires
        forall|p: Seq<char>|
            #[trigger] repo_paths(node, depth).contains(p) ==> buckets_containing(v, p) == 0,
        repo_paths(node, depth).no_duplicates(),
    ensures
        match scan_spec(v, node, depth) {
            Ok(v2) => {
                &&& forall|p: Seq<char>|
                    #[trigger] repo_paths(node, depth).contains(p) ==> buckets_containing(v2, p)
                        <= 1
                &&& forall|p: Seq<char>|
                    !(#[trigger] repo_paths(node, depth).contains(p)) ==> buckets_containing(
                        v2,
                        p,
                    ) == buckets_containing(v, p)
                &&& buckets_no_duplicates(v) ==> buckets_no_duplicates(v2)
            },
            Err(_) => true,
        },
    decreases depth, 1int, 0int,
{
    if depth != 0 {
        match node.repo {
            Some(q) => {
                match classify_spec(
                    q.status_stdout@,
                    q.status_stderr@,
                    q.remote_stdout@,
                    q.branch_stdout@,
                ) {
                    Ok(c) => {
                        let paths = repo_paths(node, depth);
                        assert(paths[0] == node.path@);
                        assert(paths.contains(node.path@));
                        assert(buckets_containing(bump(v), node.path@) == 0);
                        lemma_record_exclusive(bump(v), node.path@, c);
                        assert forall|p: Seq<char>| #[trigger] paths.contains(p) implies p
                            == node.path@ by {
                            let i = choose|i: int| 0 <= i < paths.len() && paths[i] == p;
                        }
                        let v2 = record_spec(bump(v), node.path@, c);
                        assert(scan_spec(v, node, depth) == Ok::<IssuesView, ClassifyError>(v2));
                        assert forall|p: Seq<char>| #[trigger] paths.contains(p) implies
                            buckets_containing(v2, p) <= 1 by {
                            assert(p == node.path@);
                        }
                        assert forall|p: Seq<char>| !(#[trigger] paths.contains(p)) implies
                            buckets_containing(v2, p) == buckets_containing(v, p) by {
                            assert(p != node.path@);
                            assert(buckets_containing(v2, p) == buckets_containing(bump(v), p));
                        }
                    },
                    Err(_) => {},
                }
            },
            None => {
                let cs = node.children@;
                assert(repo_paths(node, depth) == repo_paths_children(cs, 0, depth));
                assert forall|p: Seq<char>|
                    #[trigger] repo_paths_children(cs, 0, depth).contains(p) implies
                    buckets_containing(v, p) == 0 by {
                    assert(repo_paths(node, depth).contains(p));
                }
                lemma_scan_children_partition(v, node.children@, 0, depth);
                match scan_children_spec(v, cs, 0, depth) {
                    Ok(v2) => {
                        assert forall|p: Seq<char>|
                            #[trigger] repo_paths(node, depth).contains(p) implies
                            buckets_containing(v2, p) <= 1 by {
                            assert(repo_paths_children(cs, 0, depth).contains(p));
                        }
                        assert forall|p: Seq<char>|
                            !(#[trigger] repo_paths(node, depth).contains(p)) implies
                            buckets_containing(v2, p) == buckets_containing(v, p) by {
                            assert(!repo_paths_children(cs, 0, depth).contains(p));
                        }
                    },
                    Err(_) => {},
                }
            },
        }
    }
}

proof fn lemma_scan_children_partition(v: IssuesView, cs: Seq<DirNode>, i: int, depth: u32)
    requires
        depth >= 1,
        0 <= i,
        forall|p: Seq<char>|
            #[trigger] repo_paths_children(cs, i, depth).contains(p) ==> buckets_containing(v, p)
                == 0,
        repo_paths_children(cs, i, depth).no_duplicates(),
    ensures
        match scan_children_spec(v, cs, i, depth) {
            Ok(v2) => {
                &&& forall|p: Seq<char>|
                    #[trigger] repo_paths_children(cs, i, depth).contains(p)
                        ==> buckets_containing(v2, p) <= 1
                &&& forall|p: Seq<char>|
                    !(#[trigger] repo_paths_children(cs, i, depth).contains(p))
                        ==> buckets_containing(v2, p) == buckets_containing(v, p)
                &&& buckets_no_duplicates(v) ==> buckets_no_duplicates(v2)
            },
            Err(_) => true,
        },
    decreases depth, 0int, cs.len() - i,
{
    if i < cs.len() {
        let d1 = (depth - 1) as u32;
        let ps = repo_paths(cs[i], d1);
        let rest = repo_paths_children(cs, i + 1, depth);
        let full = repo_paths_children(cs, i, depth);
        assert(full == ps + rest);
        // the parts of a duplicate-free concatenation are duplicate-free
        assert(ps.no_duplicates()) by {
            assert forall|a: int, b: int|
                0 <= a < ps.len() && 0 <= b < ps.len() && a != b implies ps[a] != ps[b] by {
                assert(full[a] == ps[a]);
                assert(full[b] == ps[b]);
            }
        }
        assert(rest.no_duplicates()) by {
            assert forall|a: int, b: int|
                0 <= a < rest.len() && 0 <= b < rest.len() && a != b implies rest[a] != rest[b] by {
                assert(full[ps.len() + a] == rest[a]);
                assert(full[ps.len() + b] == rest[b]);
            }
        }
        // and they share no path
        assert forall|p: Seq<char>| #[trigger] ps.contains(p) implies !rest.contains(p) by {
            if rest.contains(p) {
                let a = choose|a: int| 0 <= a < ps.len() && ps[a] == p;
                let b = choose|b: int| 0 <= b < rest.len() && rest[b] == p;
                assert(full[a] == p);
                assert(full[ps.len() + b] == p);
            }
        }
        assert forall|p: Seq<char>| #[trigger] ps.contains(p) implies buckets_containing(v, p)
            == 0 by {
            lemma_concat_contains(ps, rest, p);
        }
        lemma_scan_partition(v, cs[i], d1);
        match scan_spec(v, cs[i], d1) {
            Ok(v1) => {
                assert forall|p: Seq<char>| #[trigger] rest.contains(p) implies buckets_containing(
                    v1,
                    p,
                ) == 0 by {
                    lemma_concat_contains(ps, rest, p);
                    assert(full.contains(p));
                    assert(buckets_containing(v, p) == 0);
                    assert(!ps.contains(p));
                    assert(buckets_containing(v1, p) == buckets_containing(v, p));
                }
                lemma_scan_children_partition(v1, cs, i + 1, depth);
                match scan_children_spec(v1, cs, i + 1, depth) {
                    Ok(v2) => {
                        assert forall|p: Seq<char>| #[trigger] full.contains(p) implies
                            buckets_containing(v2, p) <= 1 by {
                            lemma_concat_contains(ps, rest, p);
                        }
                        assert forall|p: Seq<char>| !(#[trigger] full.contains(p)) implies
                            buckets_containing(v2, p) == buckets_containing(v, p) by {
                            lemma_concat_contains(ps, rest, p);
                        }
                    },
                    Err(_) => {},
                }
            },
            Err(_) => {},
        }
    }
}

/// A scan with no depth budget inspects nothing: the report comes back as it
/// went in, whatever the tree holds.
pub proof fn lemma_depth_zero(v: IssuesView, node: DirNode)
    ensures
        scan_spec(v, node, 0) == Ok::<IssuesView, ClassifyError>(v),
{
}

/// A directory recognized as a repository is a leaf of the scan: two such
/// directories that agree on path and query outputs scan alike, however
/// their subdirectories differ.
pub proof fn lemma_repo_is_leaf(v: IssuesView, a: DirNode, b: DirNode, depth: u32)
    requires
        a.repo is Some,
        a.path == b.path,
        a.repo == b.repo,
    ensures
        scan_spec(v, a, depth) == scan_spec(v, b, depth),
{
}

/// The scan reads nothing but the tree: against an unchanged tree, a second
/// scan from an equal starting report produces an identical report.
pub proof fn lemma_scan_repeatable(v1: IssuesView, v2: IssuesView, node: DirNode, depth: u32)
    requires
        v1 == v2,
    ensures
        scan_spec(v1, node, depth) == scan_spec(v2, node, depth),
{
}

} // verus!
