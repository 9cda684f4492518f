//! The closing banner: which title the install earned, and the fixed-width
//! box it is drawn in.

use vstd::prelude::*;
use crate::text::{chars_of, push_chars, push_repeat, repeat_char, slice_range};

verus! {

/// Victory banner title + note (truthful post-deploy).
pub fn victory_banner(all_present: bool, daemon_active: bool) -> (r: (&'static str, &'static str))
    ensures
        all_present && daemon_active ==> r.0@ == "INSTALL FINISHED"@ && r.1@
            == "packages present · daemon active"@,
        all_present && !daemon_active ==> r.0@ == "PACKAGES INSTALLED"@ && r.1@
            == "daemon not active yet — see notes above"@,
        !all_present ==> r.0@ == "INSTALL PARTIAL"@ && r.1@
            == "some planned packages missing — see list above"@,
{
    if all_present && daemon_active {
        ("INSTALL FINISHED", "packages present · daemon active")
    } else if all_present {
        ("PACKAGES INSTALLED", "daemon not active yet — see notes above")
    } else {
        ("INSTALL PARTIAL", "some planned packages missing — see list above")
    }
}

/// Fixed-width box content: character columns between the two `║` borders.
/// All victory box rows must share the same total char length so the right
/// edge stays flush in a monospace terminal.
pub const VICTORY_BOX_INNER: usize = 54;

/// Ornament used around the title. Prefer a single-cell glyph; `✦` is
/// East-Asian-width Neutral and renders as 1 cell on typical Linux TTYs.
pub const VICTORY_ORNAMENT: char = '✦';

/// `text` in exactly `width` columns: cut to the first `width` characters
/// when too long, else padded with spaces, the left pad half the padding
/// rounded down.
pub open spec fn centered(text: Seq<char>, width: nat) -> Seq<char> {
    if text.len() >= width {
        text.take(width as int)
    } else {
        let pad = (width - text.len()) as nat;
        repeat_char(' ', pad / 2) + text + repeat_char(' ', (pad - pad / 2) as nat)
    }
}

/// Center `text` in exactly `width` character columns (pad/truncate by char count).
pub fn center_in_width(text: &str, width: usize) -> (r: String)
    ensures
        r@ == centered(text@, width as nat),
{
    let chars = chars_of(text);
    let mut r = String::new();
    if chars.len() >= width {
        let head = slice_range(&chars, 0, width);
        push_chars(&mut r, &head);
        assert(chars@.subrange(0, width as int) =~= chars@.take(width as int));
        assert(r@ =~= centered(text@, width as nat));
        return r;
    }
    let pad = width - chars.len();
    let left = pad / 2;
    let right = pad - left;
    push_repeat(&mut r, ' ', left);
    push_chars(&mut r, &chars);
    push_repeat(&mut r, ' ', right);
    assert(r@ =~= centered(text@, width as nat));
    r
}

/// The title label: ornament, two spaces, title, two spaces, ornament.
pub open spec fn title_label(title: Seq<char>) -> Seq<char> {
    seq![VICTORY_ORNAMENT] + "  "@ + title + "  "@ + seq![VICTORY_ORNAMENT]
}

/// Inner body only (no borders): ornament + title + ornament, centered.
pub fn format_victory_title_body(title: &str) -> (body: String)
    ensures
        body@ == centered(title_label(title@), VICTORY_BOX_INNER as nat),
{
    let mut label = String::new();
    label.push(VICTORY_ORNAMENT);
    label.append("  ");
    label.append(title);
    label.append("  ");
    label.push(VICTORY_ORNAMENT);
    assert(label@ =~= title_label(title@));
    center_in_width(label.as_str(), VICTORY_BOX_INNER)
}

/// The title row of the box.
pub open spec fn title_row(title: Seq<char>) -> Seq<char> {
    seq!['║'] + centered(title_label(title), VICTORY_BOX_INNER as nat) + seq!['║']
}

/// One content row: `║` + centered title body + `║`.
pub fn format_victory_box_title_row(title: &str) -> (row: String)
    ensures
        row@ == title_row(title@),
{
    let body = format_victory_title_body(title);
    let mut row = String::new();
    row.push('║');
    row.append(body.as_str());
    row.push('║');
    assert(row@ =~= title_row(title@));
    row
}

/// The five lines of the box: top border, blank row, title row, blank row,
/// bottom border.
pub open spec fn victory_box(title: Seq<char>) -> Seq<Seq<char>> {
    let bar = repeat_char('═', VICTORY_BOX_INNER as nat);
    let blank = repeat_char(' ', VICTORY_BOX_INNER as nat);
    seq![
        seq!['╔'] + bar + seq!['╗'],
        seq!['║'] + blank + seq!['║'],
        title_row(title),
        seq!['║'] + blank + seq!['║'],
        seq!['╚'] + bar + seq!['╝'],
    ]
}

fn bordered(left: char, fill: char, right: char) -> (r: String)
    ensures
        r@ == seq![left] + repeat_char(fill, VICTORY_BOX_INNER as nat) + seq![right],
{
    let mut r = String::new();
    r.push(left);
    push_repeat(&mut r, fill, VICTORY_BOX_INNER);
    r.push(right);
    assert(r@ =~= seq![left] + repeat_char(fill, VICTORY_BOX_INNER as nat) + seq![right]);
    r
}

/// Full victory box (5 lines, no leading indent, no ANSI). All lines equal width.
pub fn format_victory_box(title: &str) -> (lines: [String; 5])
    ensures
        lines@.map_values(|l: String| l@) == victory_box(title@),
{
    let top = bordered('╔', '═', '╗');
    let blank1 = bordered('║', ' ', '║');
    let row = format_victory_box_title_row(title);
    let blank2 = bordered('║', ' ', '║');
    let bottom = bordered('╚', '═', '╝');
    let lines = [top, blank1, row, blank2, bottom];
    assert(lines@.map_values(|l: String| l@) =~= victory_box(title@));
    lines
}

/// Border line for the victory box (top/bottom style without corners for width check).
pub fn victory_box_border_inner_width() -> (w: usize)
    ensures
        w == VICTORY_BOX_INNER,
{
    VICTORY_BOX_INNER
}

/// Centering gives exactly `width` columns, and when the text fits it sits
/// between pads that differ by at most one column.
pub proof fn law_centered_width(text: Seq<char>, width: nat)
    ensures
        centered(text, width).len() == width,
        text.len() < width ==> ({
            let pad = (width - text.len()) as nat;
            &&& centered(text, width).subrange(
                (pad / 2) as int,
                (pad / 2) as int + text.len(),
            ) == text
            &&& (pad - pad / 2) - pad / 2 <= 1
        }),
{
    if text.len() < width {
        let pad = (width - text.len()) as nat;
        let c = centered(text, width);
        assert(c.subrange((pad / 2) as int, (pad / 2) as int + text.len()) =~= text);
    }
}

/// Every line of the victory box is the same number of characters: the
/// inner width plus the two borders.
pub proof fn law_victory_box_widths(title: Seq<char>)
    ensures
        forall|i: int|
            0 <= i < 5 ==> (#[trigger] victory_box(title)[i]).len() == VICTORY_BOX_INNER + 2,
{
    law_centered_width(title_label(title), VICTORY_BOX_INNER as nat);
}

} // verus!
