//! The issue report and the classification of a repository from the raw text
//! of the version-control status queries.

use vstd::prelude::*;

use crate::args::Args;
use crate::classify::{classify_outputs, classify_spec, Classification, ClassifyError};
use crate::render::{
    block, dec_str, lemma_styled_plain, no_esc, paint_all_clear, section, section_text, styled,
};
use crate::text::contains_seq;
use vstd::seq_lib::lemma_seq_contains_after_push;

verus! {

/// The accumulated result of one scan: how many repositories were inspected,
/// and the paths recorded under each issue category.
#[derive(Debug, Clone)]
pub struct Issues {
    dir_searched: i32,
    no_git_repo: Vec<String>,
    no_remote: Vec<String>,
    current_branch_untracked: Vec<String>,
    not_committed: Vec<String>,
    not_pushed: Vec<String>,
    have_diverged: Vec<String>,
}

/// The mathematical content of an [`Issues`] value.
#[verifier::ext_equal]
pub struct IssuesView {
    pub dir_searched: int,
    pub no_git_repo: Seq<Seq<char>>,
    pub no_remote: Seq<Seq<char>>,
    pub current_branch_untracked: Seq<Seq<char>>,
    pub not_committed: Seq<Seq<char>>,
    pub not_pushed: Seq<Seq<char>>,
    pub have_diverged: Seq<Seq<char>>,
}

impl View for Issues {
    type V = IssuesView;

    closed spec fn view(&self) -> IssuesView {
        IssuesView {
            dir_searched: self.dir_searched as int,
            no_git_repo: self.no_git_repo.deep_view(),
            no_remote: self.no_remote.deep_view(),
            current_branch_untracked: self.current_branch_untracked.deep_view(),
            not_committed: self.not_committed.deep_view(),
            not_pushed: self.not_pushed.deep_view(),
            have_diverged: self.have_diverged.deep_view(),
        }
    }
}

/// The report a scan starts from: nothing inspected, nothing recorded.
pub open spec fn empty_issues() -> IssuesView {
    IssuesView {
        dir_searched: 0,
        no_git_repo: Seq::empty(),
        no_remote: Seq::empty(),
        current_branch_untracked: Seq::empty(),
        not_committed: Seq::empty(),
        not_pushed: Seq::empty(),
        have_diverged: Seq::empty(),
    }
}

impl Issues {
    /// An empty report.
    pub fn new() -> (r: Issues)
        ensures
            r@ == empty_issues(),
    {
        let r = Issues {
            dir_searched: 0,
            no_git_repo: Vec::new(),
            no_remote: Vec::new(),
            current_branch_untracked: Vec::new(),
            not_committed: Vec::new(),
            not_pushed: Vec::new(),
            have_diverged: Vec::new(),
        };
        proof {
            assert(r@.no_git_repo =~= Seq::<Seq<char>>::empty());
            assert(r@.no_remote =~= Seq::<Seq<char>>::empty());
            assert(r@.current_branch_untracked =~= Seq::<Seq<char>>::empty());
            assert(r@.not_committed =~= Seq::<Seq<char>>::empty());
            assert(r@.not_pushed =~= Seq::<Seq<char>>::empty());
            assert(r@.have_diverged =~= Seq::<Seq<char>>::empty());
        }
        r
    }

    /// How many repositories the scan has inspected so far.
    pub fn dir_searched(&self) -> (r: i32)
        ensures
            r == self@.dir_searched,
    {
        self.dir_searched
    }

    /// The paths that were not git repositories at all.
    pub fn no_git_repo(&self) -> (r: &Vec<String>)
        ensures
            r.deep_view() == self@.no_git_repo,
    {
        &self.no_git_repo
    }

    /// The repositories with no remote named `origin`.
    pub fn no_remote(&self) -> (r: &Vec<String>)
        ensures
            r.deep_view() == self@.no_remote,
    {
        &self.no_remote
    }

    /// The repositories whose checked-out branch tracks no remote branch.
    pub fn current_branch_untracked(&self) -> (r: &Vec<String>)
        ensures
            r.deep_view() == self@.current_branch_untracked,
    {
        &self.current_branch_untracked
    }

    /// The repositories with staged, unstaged or untracked changes.
    pub fn not_committed(&self) -> (r: &Vec<String>)
        ensures
            r.deep_view() == self@.not_committed,
    {
        &self.not_committed
    }

    /// The repositories whose branch is ahead of its upstream.
    pub fn not_pushed(&self) -> (r: &Vec<String>)
        ensures
            r.deep_view() == self@.not_pushed,
    {
        &self.not_pushed
    }

    /// The repositories whose branch has diverged from its upstream.
    pub fn have_diverged(&self) -> (r: &Vec<String>)
        ensures
            r.deep_view() == self@.have_diverged,
    {
        &self.have_diverged
    }
}

impl Default for Issues {
    fn default() -> (r: Issues)
        ensures
            r@ == empty_issues(),
    {
        Issues::new()
    }
}

/// Whether the report records no issue at all.
pub open spec fn all_empty(v: IssuesView) -> bool {
    &&& v.no_git_repo.len() == 0
    &&& v.no_remote.len() == 0
    &&& v.current_branch_untracked.len() == 0
    &&& v.not_committed.len() == 0
    &&& v.not_pushed.len() == 0
    &&& v.have_diverged.len() == 0
}

/// The whole rendered report, given the styled form of each shown title and
/// count: the shown sections in their fixed order, first to last, and
/// nothing else.
pub open spec fn report_text(
    v: IssuesView,
    verbose: bool,
    t1: Seq<char>, c1: Seq<char>,
    t2: Seq<char>, c2: Seq<char>,
    t3: Seq<char>, c3: Seq<char>,
    t4: Seq<char>, c4: Seq<char>,
    t5: Seq<char>, c5: Seq<char>,
    t6: Seq<char>, c6: Seq<char>,
) -> Seq<char> {
    block(
        block(
            block(
                block(
                    block(
                        block(
                            Seq::empty(),
                            verbose || v.no_git_repo.len() > 0,
                            t1, 24, c1, v.no_git_repo,
                        ),
                        verbose || v.no_remote.len() > 0,
                        t2, 10, c2, v.no_remote,
                    ),
                    verbose || v.current_branch_untracked.len() > 0,
                    t3, 2, c3, v.current_branch_untracked,
                ),
                verbose || v.not_committed.len() > 0,
                t4, 9, c4, v.not_committed,
            ),
            verbose || v.not_pushed.len() > 0,
            t5, 9, c5, v.not_pushed,
        ),
        verbose || v.have_diverged.len() > 0,
        t6, 9, c6, v.have_diverged,
    )
}

impl Issues {
    /// Renders the report for the terminal: one section per issue category
    /// with its count and its paths, sections with nothing recorded left out
    /// unless `verbose`, and an all-clear message when there is nothing to
    /// show. Styling is opaque here, but it only wraps text in color codes,
    /// so the result is pinned exactly up to those codes: it is the styled
    /// all-clear message alone, or the shown sections in order — each title,
    /// its count in decimal, and its paths on their own indented lines — and
    /// nothing besides.
    #[verifier::rlimit(100)]
    #[verifier::spinoff_prover]
    pub fn output(&self, args: &Args) -> (r: String)
        ensures
            !args.verbose && all_empty(self@) ==> styled(r@, "No issues found :)"@),
            args.verbose || !all_empty(self@) ==> exists|
                t1: Seq<char>, c1: Seq<char>,
                t2: Seq<char>, c2: Seq<char>,
                t3: Seq<char>, c3: Seq<char>,
                t4: Seq<char>, c4: Seq<char>,
                t5: Seq<char>, c5: Seq<char>,
                t6: Seq<char>, c6: Seq<char>,
            |
                {
                    &&& r@ == #[trigger] report_text(
                        self@, args.verbose, t1, c1, t2, c2, t3, c3, t4, c4, t5, c5, t6, c6,
                    )
                    &&& styled(t1, "Non Git Repos"@)
                    &&& styled(t2, "Repos with No Remote Origin"@)
                    &&& styled(t3, "Repos with Current Branch Untracked"@)
                    &&& styled(t4, "Repos with Uncommitted Files"@)
                    &&& styled(t5, "Repos with Un-pushed Commits"@)
                    &&& styled(t6, "Repos with Diverged Branches"@)
                    &&& styled(c1, dec_str(self@.no_git_repo.len() as nat))
                    &&& styled(c2, dec_str(self@.no_remote.len() as nat))
                    &&& styled(c3, dec_str(self@.current_branch_untracked.len() as nat))
                    &&& styled(c4, dec_str(self@.not_committed.len() as nat))
                    &&& styled(c5, dec_str(self@.not_pushed.len() as nat))
                    &&& styled(c6, dec_str(self@.have_diverged.len() as nat))
                },
    {
        let any = args.verbose || self.no_git_repo.len() > 0 || self.no_remote.len() > 0
            || self.current_branch_untracked.len() > 0 || self.not_committed.len() > 0
            || self.not_pushed.len() > 0 || self.have_diverged.len() > 0;
        if !any {
            proof {
                reveal_strlit("No issues found :)");
                assert(no_esc("No issues found :)"@));
            }
            return paint_all_clear("No issues found :)");
        }
        proof {
            reveal_strlit("Non Git Repos");
            reveal_strlit("Repos with No Remote Origin");
            reveal_strlit("Repos with Current Branch Untracked");
            reveal_strlit("Repos with Uncommitted Files");
            reveal_strlit("Repos with Un-pushed Commits");
            reveal_strlit("Repos with Diverged Branches");
            reveal_strlit(" ");
            assert(no_esc("Non Git Repos"@));
            assert(no_esc("Repos with No Remote Origin"@));
            assert(no_esc("Repos with Current Branch Untracked"@));
            assert(no_esc("Repos with Uncommitted Files"@));
            assert(no_esc("Repos with Un-pushed Commits"@));
            assert(no_esc("Repos with Diverged Branches"@));
        }
        let mut s = String::new();
        let mut first = true;
        let ghost mut tw1: Seq<char> = "Non Git Repos"@;
        let ghost mut cw1: Seq<char> = dec_str(self@.no_git_repo.len() as nat);
        let ghost g0 = s@;
        let shown1 = section(args.verbose, &mut s, &mut first, "Non Git Repos", 24, &self.no_git_repo);
        proof {
            if shown1 {
                let (pt, pc) = choose|pt: Seq<char>, pc: Seq<char>|
                    {
                        &&& s@ == g0 + Seq::<char>::empty() + #[trigger] section_text(
                            pt, 24nat, pc, self.no_git_repo.deep_view(),
                        )
                        &&& styled(pt, "Non Git Repos"@)
                        &&& styled(pc, dec_str(self@.no_git_repo.len() as nat))
                    };
                tw1 = pt;
                cw1 = pc;
            } else {
                lemma_styled_plain(tw1);
                lemma_styled_plain(cw1);
            }
            assert(s@ == block(
                g0, args.verbose || self@.no_git_repo.len() > 0, tw1, 24, cw1, self@.no_git_repo,
            ));
            assert(first == (s@.len() == 0));
        }
        let ghost g1 = s@;
        let ghost mut tw2: Seq<char> = "Repos with No Remote Origin"@;
        let ghost mut cw2: Seq<char> = dec_str(self@.no_remote.len() as nat);
        let shown2 = section(
            args.verbose, &mut s, &mut first, "Repos with No Remote Origin", 10, &self.no_remote,
        );
        proof {
            if shown2 {
                let ghost sep: Seq<char> = if g1.len() == 0 { Seq::empty() } else { "\n"@ };
                let (pt, pc) = choose|pt: Seq<char>, pc: Seq<char>|
                    {
                        &&& s@ == g1 + sep + #[trigger] section_text(
                            pt, 10nat, pc, self.no_remote.deep_view(),
                        )
                        &&& styled(pt, "Repos with No Remote Origin"@)
                        &&& styled(pc, dec_str(self@.no_remote.len() as nat))
                    };
                tw2 = pt;
                cw2 = pc;
            } else {
                lemma_styled_plain(tw2);
                lemma_styled_plain(cw2);
            }
            assert(s@ == block(
                g1, args.verbose || self@.no_remote.len() > 0, tw2, 10, cw2, self@.no_remote,
            ));
            assert(first == (s@.len() == 0));
        }
        let ghost g2 = s@;
        let ghost mut tw3: Seq<char> = "Repos with Current Branch Untracked"@;
        let ghost mut cw3: Seq<char> = dec_str(self@.current_branch_untracked.len() as nat);
        let shown3 = section(
            args.verbose, &mut s, &mut first, "Repos with Current Branch Untracked", 2,
            &self.current_branch_untracked,
        );
        proof {
            if shown3 {
                let ghost sep: Seq<char> = if g2.len() == 0 { Seq::empty() } else { "\n"@ };
                let (pt, pc) = choose|pt: Seq<char>, pc: Seq<char>|
                    {
                        &&& s@ == g2 + sep + #[trigger] section_text(
                            pt, 2nat, pc, self.current_branch_untracked.deep_view(),
                        )
                        &&& styled(pt, "Repos with Current Branch Untracked"@)
                        &&& styled(pc, dec_str(self@.current_branch_untracked.len() as nat))
                    };
                tw3 = pt;
                cw3 = pc;
            } else {
                lemma_styled_plain(tw3);
                lemma_styled_plain(cw3);
            }
            assert(s@ == block(
                g2, args.verbose || self@.current_branch_untracked.len() > 0, tw3, 2, cw3,
                self@.current_branch_untracked,
            ));
            assert(first == (s@.len() == 0));
        }
        let ghost g3 = s@;
        let ghost mut tw4: Seq<char> = "Repos with Uncommitted Files"@;
        let ghost mut cw4: Seq<char> = dec_str(self@.not_committed.len() as nat);
        let shown4 = section(
            args.verbose, &mut s, &mut first, "Repos with Uncommitted Files", 9,
            &self.not_committed,
        );
        proof {
            if shown4 {
                let ghost sep: Seq<char> = if g3.len() == 0 { Seq::empty() } else { "\n"@ };
                let (pt, pc) = choose|pt: Seq<char>, pc: Seq<char>|
                    {
                        &&& s@ == g3 + sep + #[trigger] section_text(
                            pt, 9nat, pc, self.not_committed.deep_view(),
                        )
                        &&& styled(pt, "Repos with Uncommitted Files"@)
                        &&& styled(pc, dec_str(self@.not_committed.len() as nat))
                    };
                tw4 = pt;
                cw4 = pc;
            } else {
                lemma_styled_plain(tw4);
                lemma_styled_plain(cw4);
            }
            assert(s@ == block(
                g3, args.verbose || self@.not_committed.len() > 0, tw4, 9, cw4,
                self@.not_committed,
            ));
            assert(first == (s@.len() == 0));
        }
        let ghost g4 = s@;
        let ghost mut tw5: Seq<char> = "Repos with Un-pushed Commits"@;
        let ghost mut cw5: Seq<char> = dec_str(self@.not_pushed.len() as nat);
        let shown5 = section(
            args.verbose, &mut s, &mut first, "Repos with Un-pushed Commits", 9, &self.not_pushed,
        );
        proof {
            if shown5 {
                let ghost sep: Seq<char> = if g4.len() == 0 { Seq::empty() } else { "\n"@ };
                let (pt, pc) = choose|pt: Seq<char>, pc: Seq<char>|
                    {
                        &&& s@ == g4 + sep + #[trigger] section_text(
                            pt, 9nat, pc, self.not_pushed.deep_view(),
                        )
                        &&& styled(pt, "Repos with Un-pushed Commits"@)
                        &&& styled(pc, dec_str(self@.not_pushed.len() as nat))
                    };
                tw5 = pt;
                cw5 = pc;
            } else {
                lemma_styled_plain(tw5);
                lemma_styled_plain(cw5);
            }
            assert(s@ == block(
                g4, args.verbose || self@.not_pushed.len() > 0, tw5, 9, cw5, self@.not_pushed,
            ));
            assert(first == (s@.len() == 0));
        }
        let ghost g5 = s@;
        let ghost mut tw6: Seq<char> = "Repos with Diverged Branches"@;
        let ghost mut cw6: Seq<char> = dec_str(self@.have_diverged.len() as nat);
        let shown6 = section(
            args.verbose, &mut s, &mut first, "Repos with Diverged Branches", 9,
            &self.have_diverged,
        );
        proof {
            if shown6 {
                let ghost sep: Seq<char> = if g5.len() == 0 { Seq::empty() } else { "\n"@ };
                let (pt, pc) = choose|pt: Seq<char>, pc: Seq<char>|
                    {
                        &&& s@ == g5 + sep + #[trigger] section_text(
                            pt, 9nat, pc, self.have_diverged.deep_view(),
                        )
                        &&& styled(pt, "Repos with Diverged Branches"@)
                        &&& styled(pc, dec_str(self@.have_diverged.len() as nat))
                    };
                tw6 = pt;
                cw6 = pc;
            } else {
                lemma_styled_plain(tw6);
                lemma_styled_plain(cw6);
            }
            assert(s@ == block(
                g5, args.verbose || self@.have_diverged.len() > 0, tw6, 9, cw6,
                self@.have_diverged,
            ));
            assert(s@ == report_text(
                self@, args.verbose, tw1, cw1, tw2, cw2, tw3, cw3, tw4, cw4, tw5, cw5, tw6, cw6,
            ));
        }
        s
    }
}

/// The report after one more repository has been inspected.
pub open spec fn bump(v: IssuesView) -> IssuesView {
    IssuesView { dir_searched: v.dir_searched + 1, ..v }
}

/// The report after one repository at `path` has been classified as `c`:
/// the path is appended to the one sequence of its category, a healthy
/// repository is recorded nowhere, and everything else is unchanged.
pub open spec fn record_spec(v: IssuesView, path: Seq<char>, c: Classification) -> IssuesView {
    match c {
        Classification::NoGitRepo => IssuesView { no_git_repo: v.no_git_repo.push(path), ..v },
        Classification::NoRemote => IssuesView { no_remote: v.no_remote.push(path), ..v },
        Classification::CurrentBranchUntracked => IssuesView {
            current_branch_untracked: v.current_branch_untracked.push(path),
            ..v
        },
        Classification::NotCommitted => IssuesView {
            not_committed: v.not_committed.push(path),
            ..v
        },
        Classification::NotPushed => IssuesView { not_pushed: v.not_pushed.push(path), ..v },
        Classification::HaveDiverged => IssuesView {
            have_diverged: v.have_diverged.push(path),
            ..v
        },
        Classification::Healthy => v,
    }
}

/// How many entries the six category sequences hold in all.
pub open spec fn total_recorded(v: IssuesView) -> int {
    v.no_git_repo.len() as int + v.no_remote.len() as int + v.current_branch_untracked.len() as int
        + v.not_committed.len() as int + v.not_pushed.len() as int + v.have_diverged.len() as int
}

/// Every category sequence is free of duplicate paths.
pub open spec fn buckets_no_duplicates(v: IssuesView) -> bool {
    &&& v.no_git_repo.no_duplicates()
    &&& v.no_remote.no_duplicates()
    &&& v.current_branch_untracked.no_duplicates()
    &&& v.not_committed.no_duplicates()
    &&& v.not_pushed.no_duplicates()
    &&& v.have_diverged.no_duplicates()
}

proof fn lemma_push_no_dup(s: Seq<Seq<char>>, x: Seq<char>)
    requires
        s.no_duplicates(),
        !s.contains(x),
    ensures
        s.push(x).no_duplicates(),
{
    assert forall|a: int, b: int|
        0 <= a < s.push(x).len() && 0 <= b < s.push(x).len() && a != b implies s.push(x)[a]
        != s.push(x)[b] by {
        if a < s.len() && b == s.len() {
            if s[a] == x {
                assert(s.contains(x));
            }
        } else if b < s.len() && a == s.len() {
            if s[b] == x {
                assert(s.contains(x));
            }
        }
    }
}

/// In how many of the six category sequences `p` occurs.
pub open spec fn buckets_containing(v: IssuesView, p: Seq<char>) -> int {
    (if v.no_git_repo.contains(p) {
        1int
    } else {
        0int
    }) + (if v.no_remote.contains(p) {
        1int
    } else {
        0int
    }) + (if v.current_branch_untracked.contains(p) {
        1int
    } else {
        0int
    }) + (if v.not_committed.contains(p) {
        1int
    } else {
        0int
    }) + (if v.not_pushed.contains(p) {
        1int
    } else {
        0int
    }) + (if v.have_diverged.contains(p) {
        1int
    } else {
        0int
    })
}

/// Classifying one repository keeps the six sequences a partition: a path
/// that stood in no category stands afterwards in at most one, the
/// membership of every other path is untouched, and no sequence acquires a
/// duplicate.
pub proof fn lemma_record_exclusive(v: IssuesView, path: Seq<char>, c: Classification)
    requires
        buckets_containing(v, path) == 0,
    ensures
        buckets_containing(record_spec(v, path, c), path) <= 1,
        forall|q: Seq<char>|
            q != path ==> buckets_containing(record_spec(v, path, c), q) == buckets_containing(
                v,
                q,
            ),
        buckets_no_duplicates(v) ==> buckets_no_duplicates(record_spec(v, path, c)),
{
    broadcast use lemma_seq_contains_after_push;

    if buckets_no_duplicates(v) {
        match c {
            Classification::NoGitRepo => lemma_push_no_dup(v.no_git_repo, path),
            Classification::NoRemote => lemma_push_no_dup(v.no_remote, path),
            Classification::CurrentBranchUntracked => lemma_push_no_dup(
                v.current_branch_untracked,
                path,
            ),
            Classification::NotCommitted => lemma_push_no_dup(v.not_committed, path),
            Classification::NotPushed => lemma_push_no_dup(v.not_pushed, path),
            Classification::HaveDiverged => lemma_push_no_dup(v.have_diverged, path),
            Classification::Healthy => {},
        }
    }
}

impl Issues {
    /// The Repository Classifier: counts the repository as inspected, reads
    /// the three query outputs, and records `directory` under the one issue
    /// category they determine — or returns the fatal interpretation error,
    /// recording nothing.
    pub fn classify_repo(
        &mut self,
        directory: String,
        status_stdout: &[u8],
        status_stderr: &[u8],
        remote_stdout: &[u8],
        branch_stdout: &[u8],
    ) -> (r: Result<(), ClassifyError>)
        requires
            old(self)@.dir_searched < i32::MAX,
        ensures
            match classify_spec(status_stdout@, status_stderr@, remote_stdout@, branch_stdout@) {
                Ok(c) => r == Ok::<(), ClassifyError>(()) && final(self)@ == record_spec(
                    bump(old(self)@),
                    directory@,
                    c,
                ),
                Err(e) => r == Err::<(), ClassifyError>(e) && final(self)@ == bump(old(self)@),
            },
    {
        self.dir_searched = self.dir_searched + 1;
        let ghost bumped = self@;
        proof {
            assert(bumped =~= bump(old(self)@));
        }
        match classify_outputs(status_stdout, status_stderr, remote_stdout, branch_stdout) {
            Ok(c) => {
                match c {
                    Classification::NoGitRepo => self.no_git_repo.push(directory),
                    Classification::NoRemote => self.no_remote.push(directory),
                    Classification::CurrentBranchUntracked => self.current_branch_untracked.push(
                        directory,
                    ),
                    Classification::NotCommitted => self.not_committed.push(directory),
                    Classification::NotPushed => self.not_pushed.push(directory),
                    Classification::HaveDiverged => self.have_diverged.push(directory),
                    Classification::Healthy => {},
                }
                proof {
                    assert(self@ =~= record_spec(bumped, directory@, c));
                }
                Ok(())
            },
            Err(e) => Err(e),
        }
    }
}

/// Whether `needle` occurs as a contiguous byte run inside `haystack`.
/// The empty needle is deliberately defined to occur in every haystack,
/// the mathematical reading of the contract; every needle the classifier
/// searches for is non-empty.
pub fn is_sub(haystack: &[u8], needle: &[u8]) -> (r: bool)
    ensures
        r == contains_seq(haystack@, needle@),
{
    if needle.len() == 0 {
        proof {
            assert(haystack@.subrange(0, 0 + needle@.len() as int) =~= needle@);
        }
        return true;
    }
    if needle.len() > haystack.len() {
        assert(!contains_seq(haystack@, needle@));
        return false;
    }
    let mut i: usize = 0;
    let hlen: usize = haystack.len();
    let last = hlen - needle.len();
    while i <= last
        invariant
            1 <= needle@.len() <= haystack@.len(),
            hlen == haystack@.len(),
            last == haystack@.len() - needle@.len(),
            0 <= i <= last + 1,
            forall|k: int|
                0 <= k < i ==> #[trigger] haystack@.subrange(k, k + needle@.len()) != needle@,
        decreases last + 1 - i,
    {
        if crate::text::matches_at(haystack, needle, i) {
            return true;
        }
        i += 1;
    }
    false
}

} // verus!
