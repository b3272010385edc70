//! Rendering of the report as terminal text. The layout is fixed here; the
//! coloring of titles, counts and the all-clear message comes from the
//! `colored` crate behind trusted wrappers. Styling never invents or drops
//! text: each styled piece is the input itself with at most color codes
//! around it, so the rendered report is pinned exactly, up to those codes.

use colored::Colorize;
use vstd::prelude::*;

use vstd::string::StringExecFns;

verus! {

/// Text free of the escape character. `colored` passes such text through
/// into its styled output unchanged; text that already holds escape codes it
/// may rewrite.
pub open spec fn no_esc(s: Seq<char>) -> bool {
    forall|k: int| 0 <= k < s.len() ==> s[k] != '\u{1b}'
}

/// The characters a terminal style code is made of.
pub open spec fn is_style_char(c: char) -> bool {
    c == '\u{1b}' || c == '[' || c == ';' || c == 'm' || ('0' <= c && c <= '9')
}

/// Text made of style-code characters only (the empty text among it).
pub open spec fn style_chars(s: Seq<char>) -> bool {
    forall|k: int| 0 <= k < s.len() ==> is_style_char(s[k])
}

/// `text` wrapped in a prefix and a suffix.
pub open spec fn wrapped(pre: Seq<char>, text: Seq<char>, suf: Seq<char>) -> Seq<char> {
    pre + text + suf
}

/// `painted` is `text` itself with at most style codes around it: what the
/// styling of this crate may turn a piece of text into.
pub open spec fn styled(painted: Seq<char>, text: Seq<char>) -> bool {
    exists|pre: Seq<char>, suf: Seq<char>|
        painted == #[trigger] wrapped(pre, text, suf) && style_chars(pre) && style_chars(suf)
}

/// Unstyled text is one of the styled forms of itself.
pub proof fn lemma_styled_plain(t: Seq<char>)
    ensures
        styled(t, t),
{
    assert(style_chars(Seq::<char>::empty()));
    assert(wrapped(Seq::empty(), t, Seq::empty()) =~= t);
}

/// The digit character for `n < 10`.
pub open spec fn dec_digit(n: nat) -> char {
    if n == 0 {
        '0'
    } else if n == 1 {
        '1'
    } else if n == 2 {
        '2'
    } else if n == 3 {
        '3'
    } else if n == 4 {
        '4'
    } else if n == 5 {
        '5'
    } else if n == 6 {
        '6'
    } else if n == 7 {
        '7'
    } else if n == 8 {
        '8'
    } else {
        '9'
    }
}

/// The decimal digits of `n`, most significant first.
pub open spec fn dec_str(n: nat) -> Seq<char>
    decreases n,
{
    if n < 10 {
        seq![dec_digit(n)]
    } else {
        dec_str(n / 10).push(dec_digit(n % 10))
    }
}

/// Decimal digits hold no escape character.
pub proof fn lemma_dec_str_no_esc(n: nat)
    ensures
        no_esc(dec_str(n)),
    decreases n,
{
    if n < 10 {
        assert forall|k: int| 0 <= k < dec_str(n).len() implies dec_str(n)[k] != '\u{1b}' by {
            assert(dec_str(n)[k] == dec_digit(n));
        }
    } else {
        lemma_dec_str_no_esc(n / 10);
        assert forall|k: int| 0 <= k < dec_str(n).len() implies dec_str(n)[k] != '\u{1b}' by {
            if k < dec_str(n / 10).len() {
                assert(dec_str(n)[k] == dec_str(n / 10)[k]);
            } else {
                assert(dec_str(n)[k] == dec_digit(n % 10));
            }
        }
    }
}

/// A dotted rule of `pad` dots.
pub open spec fn dots(pad: nat) -> Seq<char>
    decreases pad,
{
    if pad == 0 {
        Seq::empty()
    } else {
        dots((pad - 1) as nat).push('.')
    }
}

/// One indented line per recorded path, each preceded by a line break.
pub open spec fn path_lines(paths: Seq<Seq<char>>) -> Seq<char>
    decreases paths.len(),
{
    if paths.len() == 0 {
        Seq::empty()
    } else {
        path_lines(paths.drop_last()) + "\n    "@ + paths.last()
    }
}

/// One section of the report: the styled title, the dotted rule, the styled
/// count, then the recorded paths line by line.
pub open spec fn section_text(
    painted_title: Seq<char>,
    pad: nat,
    painted_count: Seq<char>,
    paths: Seq<Seq<char>>,
) -> Seq<char> {
    painted_title + " "@ + dots(pad) + " "@ + painted_count + path_lines(paths)
}

/// The report after one more section: unchanged when the section is not
/// shown, else the section's text appended, preceded by a line break unless
/// it opens the report.
pub open spec fn block(
    prev: Seq<char>,
    shown: bool,
    painted_title: Seq<char>,
    pad: nat,
    painted_count: Seq<char>,
    paths: Seq<Seq<char>>,
) -> Seq<char> {
    if shown {
        prev + (if prev.len() == 0 {
            Seq::<char>::empty()
        } else {
            "\n"@
        }) + section_text(painted_title, pad, painted_count, paths)
    } else {
        prev
    }
}

/// Relies on the standard `Display` for `usize`: it prints the decimal
/// digits of the value.
#[verifier::external_body]
pub(crate) fn usize_to_string(u: usize) -> (r: String)
    ensures
        r@ == dec_str(u as nat),
{
    u.to_string()
}

/// Relies on colored's `Colorize::bold` and `Colorize::blue`, the styling of
/// a section title: with colors off the styled form prints the input itself,
/// with colors on it prints a style code, the input, and the reset code —
/// for input free of escape characters, which colored may rewrite.
#[verifier::external_body]
pub(crate) fn paint_title(s: &str) -> (r: String)
    ensures
        no_esc(s@) ==> styled(r@, s@),
{
    format!("{}", s.bold().blue())
}

/// Relies on colored's `Colorize::bold` and `Colorize::red`, the styling of
/// a nonzero count; the styled form wraps the input as `paint_title`'s does.
#[verifier::external_body]
pub(crate) fn paint_alert(s: &str) -> (r: String)
    ensures
        no_esc(s@) ==> styled(r@, s@),
{
    format!("{}", s.bold().red())
}

/// Relies on colored's `Colorize::green`, the styling of a zero count; the
/// styled form wraps the input as `paint_title`'s does.
#[verifier::external_body]
pub(crate) fn paint_good(s: &str) -> (r: String)
    ensures
        no_esc(s@) ==> styled(r@, s@),
{
    format!("{}", s.green())
}

/// Relies on colored's `Colorize::bold` and `Colorize::green`, the styling
/// of the all-clear message; the styled form wraps the input as
/// `paint_title`'s does.
#[verifier::external_body]
pub(crate) fn paint_all_clear(s: &str) -> (r: String)
    ensures
        no_esc(s@) ==> styled(r@, s@),
{
    format!("{}", s.bold().green())
}

/// Appends one section of the report to `s`, exactly as `section_text` lays
/// it out: a title line with a dotted rule and the count of `contents`, then
/// one indented line per recorded path. A section with nothing recorded is
/// left out unless `verbose` asks for it. Every line is preceded by a line
/// break except the first of the report.
#[verifier::loop_isolation(false)]
pub(crate) fn section(
    verbose: bool,
    s: &mut String,
    first: &mut bool,
    title: &str,
    pad: usize,
    contents: &Vec<String>,
) -> (shown: bool)
    requires
        no_esc(title@),
    ensures
        shown == (verbose || contents@.len() > 0),
        !shown ==> final(s)@ == old(s)@ && *final(first) == *old(first),
        shown ==> !*final(first) && exists|pt: Seq<char>, pc: Seq<char>|
            {
                &&& final(s)@ == old(s)@ + (if *old(first) {
                    Seq::<char>::empty()
                } else {
                    "\n"@
                }) + #[trigger] section_text(pt, pad as nat, pc, contents.deep_view())
                &&& styled(pt, title@)
                &&& styled(pc, dec_str(contents@.len() as nat))
            },
{
    if !verbose && contents.len() == 0 {
        return false;
    }
    let ghost s0 = s@;
    let ghost sep: Seq<char> = if *first {
        Seq::empty()
    } else {
        "\n"@
    };
    if !*first {
        s.append("\n");
    }
    *first = false;
    proof {
        assert(s@ =~= s0 + sep);
    }
    let painted = paint_title(title);
    s.append(painted.as_str());
    s.append(" ");
    let ghost base = s@;
    proof {
        assert(base =~= s0 + sep + painted@ + " "@);
    }
    let mut k: usize = 0;
    while k < pad
        invariant
            0 <= k <= pad,
            s@ == base + dots(k as nat),
        decreases pad - k,
    {
        s.append(".");
        proof {
            reveal_strlit(".");
            assert(dots((k + 1) as nat) =~= dots(k as nat) + "."@);
            assert(s@ =~= base + dots((k + 1) as nat));
        }
        k += 1;
    }
    s.append(" ");
    let count = usize_to_string(contents.len());
    proof {
        lemma_dec_str_no_esc(contents@.len() as nat);
    }
    let painted_count = if contents.len() > 0 {
        paint_alert(count.as_str())
    } else {
        paint_good(count.as_str())
    };
    s.append(painted_count.as_str());
    let ghost hdr = s@;
    proof {
        assert(hdr =~= s0 + sep + (painted@ + " "@ + dots(pad as nat) + " "@ + painted_count@));
    }
    let mut j: usize = 0;
    while j < contents.len()
        invariant
            0 <= j <= contents@.len(),
            s@ == hdr + path_lines(contents.deep_view().subrange(0, j as int)),
        decreases contents@.len() - j,
    {
        s.append("\n");
        s.append("    ");
        s.append(contents[j].as_str());
        proof {
            let pv = contents.deep_view();
            reveal_strlit("\n");
            reveal_strlit("    ");
            reveal_strlit("\n    ");
            assert("\n"@ + "    "@ =~= "\n    "@);
            assert(pv.subrange(0, j + 1).drop_last() =~= pv.subrange(0, j as int));
            assert(pv.subrange(0, j + 1).last() == pv[j as int]);
            assert(s@ =~= hdr + path_lines(pv.subrange(0, j + 1)));
        }
        j += 1;
    }
    proof {
        assert(contents.deep_view().subrange(0, contents.deep_view().len() as int)
            =~= contents.deep_view());
        assert(s@ =~= s0 + sep + section_text(
            painted@,
            pad as nat,
            painted_count@,
            contents.deep_view(),
        ));
    }
    true
}

} // verus!
