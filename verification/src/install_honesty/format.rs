//! Width measurement of styled lines and the post-deploy report lines.

use vstd::prelude::*;
use super::victory::{law_victory_box_widths, victory_box, VICTORY_BOX_INNER};
use crate::decimal::{decimal, push_decimal};
use crate::text::{chars_of, is_ascii_letter};

verus! {

/// The visible text of `s` from a given state: an escape followed by `[`
/// opens a control sequence that runs through its first ASCII letter; any
/// other escape is dropped alone.
pub open spec fn ansi_visible(s: Seq<char>, in_sequence: bool) -> Seq<char>
    decreases s.len(),
{
    if s.len() == 0 {
        Seq::empty()
    } else if in_sequence {
        ansi_visible(s.drop_first(), !is_ascii_letter(s[0]))
    } else if s[0] == '\x1b' {
        if s.len() > 1 && s[1] == '[' {
            ansi_visible(s.skip(2), true)
        } else {
            ansi_visible(s.drop_first(), false)
        }
    } else {
        seq![s[0]] + ansi_visible(s.drop_first(), false)
    }
}

/// `s` without its escape sequences.
pub open spec fn stripped(s: Seq<char>) -> Seq<char> {
    ansi_visible(s, false)
}

/// Strip simple CSI ANSI sequences for width measurement.
pub fn strip_ansi(s: &str) -> (out: String)
    ensures
        out@ == stripped(s@),
{
    let chars = chars_of(s);
    let mut out = String::new();
    let mut in_sequence = false;
    let mut i: usize = 0;
    assert(chars@.skip(0) =~= chars@);
    while i < chars.len()
        invariant
            i <= chars@.len(),
            chars@ == s@,
            out@ + ansi_visible(chars@.skip(i as int), in_sequence) == stripped(s@),
        decreases chars.len() - i,
    {
        let ghost rest = chars@.skip(i as int);
        assert(rest[0] == chars@[i as int]);
        assert(rest.drop_first() =~= chars@.skip(i + 1));
        let c = chars[i];
        if in_sequence {
            if ('a' <= c && c <= 'z') || ('A' <= c && c <= 'Z') {
                in_sequence = false;
            }
            i = i + 1;
        } else if c == '\x1b' {
            if i + 1 < chars.len() && chars[i + 1] == '[' {
                assert(rest[1] == chars@[i + 1]);
                assert(rest.skip(2) =~= chars@.skip(i + 2));
                in_sequence = true;
                i = i + 2;
            } else {
                i = i + 1;
            }
        } else {
            let ghost before = out@;
            out.push(c);
            assert(before + ansi_visible(rest, false) =~= out@ + ansi_visible(
                chars@.skip(i + 1),
                false,
            ));
            i = i + 1;
        }
    }
    assert(chars@.skip(i as int) =~= Seq::<char>::empty());
    assert(out@ =~= out@ + ansi_visible(chars@.skip(i as int), in_sequence));
    out
}

/// The visible width of line `i`.
pub open spec fn visible_width(lines: Seq<Seq<char>>, i: int) -> int {
    stripped(lines[i]).len() as int
}

/// Every non-empty line has the same visible width.
pub open spec fn widths_agree(lines: Seq<Seq<char>>) -> bool {
    forall|i: int, j: int|
        0 <= i < lines.len() && 0 <= j < lines.len() && visible_width(lines, i) > 0
            && visible_width(lines, j) > 0 ==> #[trigger] visible_width(lines, i)
            == #[trigger] visible_width(lines, j)
}

/// True if all non-empty lines have the same character length after stripping ANSI.
pub fn lines_same_width(lines: &[&str]) -> (r: bool)
    ensures
        r == widths_agree(lines@.map_values(|l: &str| l@)),
{
    let ghost views = lines@.map_values(|l: &str| l@);
    let mut first: Option<usize> = None;
    let mut i: usize = 0;
    while i < lines.len()
        invariant
            i <= lines@.len(),
            views == lines@.map_values(|l: &str| l@),
            match first {
                None => forall|k: int| 0 <= k < i ==> visible_width(views, k) == 0,
                Some(w) => w > 0 && (exists|k: int| 0 <= k < i && visible_width(views, k) == w)
                    && forall|k: int|
                    0 <= k < i && visible_width(views, k) > 0 ==> visible_width(views, k) == w,
            },
        decreases lines.len() - i,
    {
        let visible = strip_ansi(lines[i]);
        let w = visible.unicode_len();
        assert(views[i as int] == lines@[i as int]@);
        assert(w == visible_width(views, i as int));
        if w > 0 {
            match first {
                None => {
                    first = Some(w);
                },
                Some(f) => {
                    if f != w {
                        proof {
                            let k = choose|k: int| 0 <= k < i && visible_width(views, k) == f;
                            assert(visible_width(views, k) != visible_width(views, i as int));
                        }
                        return false;
                    }
                },
            }
        }
        i = i + 1;
    }
    true
}

/// The deploy result line.
pub open spec fn deploy_result(present: nat, planned: nat) -> Seq<char> {
    if present >= planned && planned > 0 {
        "Deploy finished — all "@ + decimal(present) + " planned package(s) present."@
    } else if planned == 0 {
        "Deploy finished — empty plan."@
    } else {
        "Deploy finished — "@ + decimal(present) + "/"@ + decimal(planned)
            + " planned package(s) present."@
    }
}

/// Deploy result line (honest).
pub fn format_deploy_result(present: usize, planned: usize) -> (line: String)
    ensures
        line@ == deploy_result(present as nat, planned as nat),
{
    if present >= planned && planned > 0 {
        let mut line = String::from_str("Deploy finished — all ");
        push_decimal(&mut line, present);
        line.append(" planned package(s) present.");
        line
    } else if planned == 0 {
        String::from_str("Deploy finished — empty plan.")
    } else {
        let mut line = String::from_str("Deploy finished — ");
        push_decimal(&mut line, present);
        line.append("/");
        push_decimal(&mut line, planned);
        line.append(" planned package(s) present.");
        line
    }
}

/// COSMIC line after deploy (truthful about package presence, not panel dock state).
pub fn format_cosmic_line(planned: bool, installed: bool) -> (line: Option<String>)
    ensures
        !planned ==> line is None,
        planned && installed ==> (line matches Some(l) && l@
            == "COSMIC  Package idle-cosmic is installed — add from panel settings if not docked."@),
        planned && !installed ==> (line matches Some(l) && l@
            == "COSMIC  idle-cosmic was planned but is not installed."@),
{
    if !planned {
        return None;
    }
    if installed {
        Some(
            String::from_str(
                "COSMIC  Package idle-cosmic is installed — add from panel settings if not docked.",
            ),
        )
    } else {
        Some(String::from_str("COSMIC  idle-cosmic was planned but is not installed."))
    }
}

/// Text without escape characters is its own visible text.
pub proof fn lemma_stripped_plain(s: Seq<char>)
    requires
        !s.contains('\x1b'),
    ensures
        stripped(s) == s,
    decreases s.len(),
{
    if s.len() > 0 {
        assert(s[0] != '\x1b') by {
            if s[0] == '\x1b' {
                assert(s.contains('\x1b'));
            }
        }
        assert(!s.drop_first().contains('\x1b')) by {
            if s.drop_first().contains('\x1b') {
                let k = choose|k: int| 0 <= k < s.drop_first().len() && #[trigger] s.drop_first()[k]
                    == '\x1b';
                assert(s[k + 1] == '\x1b');
            }
        }
        lemma_stripped_plain(s.drop_first());
        assert(seq![s[0]] + s.drop_first() =~= s);
    } else {
        assert(s =~= Seq::<char>::empty());
    }
}

/// For any title without escape characters, the victory box passes the
/// equal-width check: every line shows the same number of columns.
pub proof fn law_victory_box_same_width(title: Seq<char>)
    requires
        !title.contains('\x1b'),
    ensures
        widths_agree(victory_box(title)),
        forall|i: int| 0 <= i < 5 ==> visible_width(victory_box(title), i) == VICTORY_BOX_INNER + 2,
{
    law_victory_box_widths(title);
    let lines = victory_box(title);
    assert forall|i: int| 0 <= i < 5 implies visible_width(lines, i) == VICTORY_BOX_INNER + 2 by {
        assert(!lines[i].contains('\x1b')) by {
            if lines[i].contains('\x1b') {
                lemma_box_line_plain(title, i);
            }
        }
        lemma_stripped_plain(lines[i]);
    }
}

proof fn lemma_box_line_plain(title: Seq<char>, i: int)
    requires
        !title.contains('\x1b'),
        0 <= i < 5,
    ensures
        !victory_box(title)[i].contains('\x1b'),
{
    let line = victory_box(title)[i];
    if line.contains('\x1b') {
        let k = choose|k: int| 0 <= k < line.len() && #[trigger] line[k] == '\x1b';
        if i == 2 {
            let label = super::victory::title_label(title);
            super::victory::law_centered_width(label, VICTORY_BOX_INNER as nat);
            let body = super::victory::centered(label, VICTORY_BOX_INNER as nat);
            assert(line =~= seq!['║'] + body + seq!['║']);
            assert(body[k - 1] == '\x1b');
            if label.len() >= VICTORY_BOX_INNER {
                assert(label[k - 1] == '\x1b');
                assert(label =~= seq!['✦'] + "  "@ + title + "  "@ + seq!['✦']);
                reveal_strlit("  ");
                assert(title[k - 1 - 3] == '\x1b');
            } else {
                let pad = (VICTORY_BOX_INNER - label.len()) as nat;
                let left = pad / 2;
                reveal_strlit("  ");
                assert(label =~= seq!['✦'] + "  "@ + title + "  "@ + seq!['✦']);
                assert(label[k - 1 - left] == '\x1b');
                assert(title[k - 1 - left - 3] == '\x1b');
            }
        }
    }
}

} // verus!
