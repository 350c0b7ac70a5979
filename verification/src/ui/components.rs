//! A bordered panel of fixed width, centred in the terminal.
//!
//! The panel gives the lines to show; writing them out is the caller's part.
use vstd::prelude::*;

use crate::text::{chars_of, extend_chars, string_of};
use crate::ui::style::{
    centered, centered_styled, ends_in_seq, esc, is_final, lemma_visible_concat, lemma_visible_plain,
    lemma_visible_repeat, push_repeat, repeat_char, style, styled, visible, visible_count,
    visible_width, BLUE, BOLD, CYAN, RESET, WHITE,
};

verus! {

/// The width of the panel for a terminal of `cols` columns: four less, kept within 16 to 96.
pub open spec fn layout_width(cols: nat) -> nat {
    let w: nat = if cols >= 4 { (cols - 4) as nat } else { 0 };
    if w < 16 {
        16
    } else if w > 96 {
        96
    } else {
        w
    }
}

/// The columns left of the panel: half of what the panel and its frame leave free.
pub open spec fn layout_gutter(cols: nat) -> nat {
    let used = layout_width(cols) + 4;
    (if cols >= used { (cols - used) as nat } else { 0nat }) / 2
}

/// Where a panel stands in the terminal.
#[derive(Clone, Copy)]
pub struct PanelLayout {
    width: usize,
    gutter: usize,
}

impl PanelLayout {
    #[verifier::type_invariant]
    spec fn layout_inv(self) -> bool {
        16 <= self.width <= 96
    }

    /// The width of the panel's content.
    pub closed spec fn content_width(self) -> nat {
        self.width as nat
    }

    /// The columns left of the panel.
    pub closed spec fn left_gutter(self) -> nat {
        self.gutter as nat
    }

    /// The layout for a terminal of `cols` columns.
    pub fn new(cols: usize) -> (res: PanelLayout)
        ensures
            res.content_width() == layout_width(cols as nat),
            res.left_gutter() == layout_gutter(cols as nat),
    {
        let w = cols.saturating_sub(4);
        let width = if w < 16 {
            16
        } else if w > 96 {
            96
        } else {
            w
        };
        let gutter = cols.saturating_sub(width + 4) / 2;
        PanelLayout { width, gutter }
    }
}

/// The plain frame of a panel line, before its content.
pub open spec fn line_start(gutter: nat) -> Seq<char> {
    repeat_char(' ', gutter) + seq!['│', ' ']
}

/// A line of the panel: the gutter, the left frame, the content padded to the width, the
/// right frame.
pub open spec fn panel_line(gutter: nat, width: nat, content: Seq<char>) -> Seq<char> {
    let pad: nat = if width >= visible(content) { (width - visible(content)) as nat } else { 0 };
    line_start(gutter) + content + repeat_char(' ', pad) + seq![' ', '│']
}

/// A border line: the gutter, a corner, the fill across the width and its frame, a corner.
pub open spec fn border(gutter: nat, width: nat, left: char, fill: char, right: char) -> Seq<char> {
    repeat_char(' ', gutter) + seq![left] + repeat_char(fill, width + 2) + seq![right]
}

/// A section title in bold white, a space, and a rule over the rest of the width.
pub open spec fn section_header(width: nat, title: Seq<char>) -> Seq<char> {
    let used = title.len() + 3;
    let fill: nat = if width >= used { (width - used) as nat } else { 0 };
    styled(title, BOLD@, Some(WHITE@)) + seq![' '] + repeat_char('─', fill)
}

/// A key in brackets, bold cyan.
pub open spec fn keycap_text(label: Seq<char>) -> Seq<char> {
    styled(seq!['['] + label + seq![']'], BOLD@, Some(CYAN@))
}

/// A status: the icon bold in its colour, then the message bold white.
pub open spec fn status_text(icon: Seq<char>, color: Seq<char>, message: Seq<char>) -> Seq<char> {
    styled(icon, BOLD@, Some(color)) + seq![' '] + styled(message, BOLD@, Some(WHITE@))
}

/// A label and its value: the label and a colon bold blue, the value white.
pub open spec fn key_value_text(label: Seq<char>, value: Seq<char>) -> Seq<char> {
    styled(label + seq![':'], BOLD@, Some(BLUE@)) + seq![' '] + styled(value, RESET@, Some(WHITE@))
}

/// A bordered panel.
#[derive(Clone, Copy)]
pub struct BoxPanel {
    width: usize,
    gutter: usize,
}

impl BoxPanel {
    #[verifier::type_invariant]
    spec fn panel_inv(self) -> bool {
        16 <= self.width <= 96
    }

    /// The width of the panel's content.
    pub closed spec fn content_width(self) -> nat {
        self.width as nat
    }

    /// The columns left of the panel.
    pub closed spec fn left_gutter(self) -> nat {
        self.gutter as nat
    }

    /// A panel placed as `layout` says.
    pub fn new(layout: PanelLayout) -> (res: BoxPanel)
        ensures
            res.content_width() == layout.content_width(),
            res.left_gutter() == layout.left_gutter(),
    {
        proof {
            use_type_invariant(&layout);
        }
        BoxPanel { width: layout.width, gutter: layout.gutter }
    }

    /// The width of the panel's content.
    pub fn width(&self) -> (res: usize)
        ensures
            res == self.content_width(),
            16 <= res <= 96,
    {
        proof {
            use_type_invariant(self);
        }
        self.width
    }

    fn format_border(&self, left: char, fill: char, right: char) -> (res: String)
        ensures
            res@ == border(self.left_gutter(), self.content_width(), left, fill, right),
    {
        proof {
            use_type_invariant(self);
        }
        let mut out: Vec<char> = Vec::new();
        push_repeat(&mut out, ' ', self.gutter);
        out.push(left);
        push_repeat(&mut out, fill, self.width + 2);
        out.push(right);
        string_of(&out)
    }

    /// The top border line.
    pub fn print_top(&self) -> (res: String)
        ensures
            res@ == border(self.left_gutter(), self.content_width(), '┌', '─', '┐'),
    {
        self.format_border('┌', '─', '┐')
    }

    /// The bottom border line.
    pub fn print_bottom(&self) -> (res: String)
        ensures
            res@ == border(self.left_gutter(), self.content_width(), '└', '─', '┘'),
    {
        self.format_border('└', '─', '┘')
    }

    /// The panel line that holds `content`.
    pub fn format_line(&self, content: &str) -> (res: String)
        ensures
            res@ == panel_line(self.left_gutter(), self.content_width(), content@),
    {
        let visible_len = visible_width(content);
        let padding = self.width.saturating_sub(visible_len);
        let mut out: Vec<char> = Vec::new();
        push_repeat(&mut out, ' ', self.gutter);
        out.push('│');
        out.push(' ');
        let body = chars_of(content);
        extend_chars(&mut out, &body);
        push_repeat(&mut out, ' ', padding);
        out.push(' ');
        out.push('│');
        assert(out@ =~= panel_line(self.left_gutter(), self.content_width(), content@));
        string_of(&out)
    }

    /// The panel line that holds `content` (the line that `format_line` makes).
    pub fn print_line(&self, content: &str) -> (res: String)
        ensures
            res@ == panel_line(self.left_gutter(), self.content_width(), content@),
    {
        self.format_line(content)
    }

    /// The header of a section titled `title`.
    pub fn format_section_header(&self, title: &str) -> (res: String)
        ensures
            res@ == section_header(self.content_width(), title@),
    {
        proof {
            use_type_invariant(self);
        }
        let header = style(title, BOLD, Some(WHITE));
        let t = chars_of(title);
        let fill: usize = if t.len() < self.width {
            self.width.saturating_sub(t.len() + 3)
        } else {
            0
        };
        let mut out = chars_of(header.as_str());
        out.push(' ');
        push_repeat(&mut out, '─', fill);
        string_of(&out)
    }

    /// The line that shows `content` centred in the panel.
    pub fn print_centered_line(&self, content: &str) -> (res: String)
        ensures
            res@ == panel_line(self.left_gutter(), self.content_width(), centered(content@, self.content_width())),
    {
        let c = centered_styled(content, self.width);
        self.format_line(c.as_str())
    }

    /// The two lines that open a section titled `title`: a blank line and the header.
    pub fn print_section_header(&self, title: &str) -> (res: Vec<String>)
        ensures
            res@.len() == 2,
            res@[0]@ == panel_line(self.left_gutter(), self.content_width(), seq![]),
            res@[1]@ == panel_line(self.left_gutter(), self.content_width(), section_header(self.content_width(), title@)),
    {
        let mut lines: Vec<String> = Vec::new();
        let blank = self.format_line("");
        proof {
            reveal_strlit("");
        }
        lines.push(blank);
        let header = self.format_section_header(title);
        lines.push(self.format_line(header.as_str()));
        lines
    }

    /// The line that shows `label` and its `value`.
    pub fn print_key_value(&self, label: &str, value: &str) -> (res: String)
        ensures
            res@ == panel_line(self.left_gutter(), self.content_width(), key_value_text(label@, value@)),
    {
        let mut l = chars_of(label);
        l.push(':');
        let label_text = string_of(&l);
        let mut out = chars_of(style(label_text.as_str(), BOLD, Some(BLUE)).as_str());
        out.push(' ');
        let v = style(value, RESET, Some(WHITE));
        extend_chars(&mut out, &chars_of(v.as_str()));
        let line = string_of(&out);
        assert(l@ =~= label@ + seq![':']);
        assert(line@ =~= key_value_text(label@, value@));
        self.format_line(line.as_str())
    }

    /// The line that shows the key `key` and what it does.
    pub fn print_help(&self, key: &str, title: &str) -> (res: String)
        ensures
            res@ == panel_line(self.left_gutter(), self.content_width(), keycap_text(key@) + seq![' '] + title@),
    {
        let mut out = chars_of(keycap(key).as_str());
        out.push(' ');
        extend_chars(&mut out, &chars_of(title));
        let line = string_of(&out);
        assert(line@ =~= keycap_text(key@) + seq![' '] + title@);
        self.format_line(line.as_str())
    }

    /// The three lines of a status box: top border, the status, bottom border.
    pub fn print_status(&self, icon: &str, color: &str, message: &str) -> (res: Vec<String>)
        ensures
            res@.len() == 3,
            res@[0]@ == border(self.left_gutter(), self.content_width(), '┌', '─', '┐'),
            res@[1]@ == panel_line(self.left_gutter(), self.content_width(), status_text(icon@, color@, message@)),
            res@[2]@ == border(self.left_gutter(), self.content_width(), '└', '─', '┘'),
    {
        let mut lines: Vec<String> = Vec::new();
        lines.push(self.print_top());
        let status = status_line(icon, color, message);
        lines.push(self.format_line(status.as_str()));
        lines.push(self.print_bottom());
        lines
    }
}

/// `label` in brackets, bold cyan.
pub fn keycap(label: &str) -> (res: String)
    ensures
        res@ == keycap_text(label@),
{
    let mut k: Vec<char> = Vec::new();
    k.push('[');
    extend_chars(&mut k, &chars_of(label));
    k.push(']');
    let text = string_of(&k);
    style(text.as_str(), BOLD, Some(CYAN))
}

/// The icon bold in `color`, then the message bold white.
pub fn status_line(icon: &str, color: &str, message: &str) -> (res: String)
    ensures
        res@ == status_text(icon@, color@, message@),
{
    let mut out = chars_of(style(icon, BOLD, Some(color)).as_str());
    out.push(' ');
    extend_chars(&mut out, &chars_of(style(message, BOLD, Some(WHITE)).as_str()));
    string_of(&out)
}

// ---------------------------------------------------------------------------
// Widths
// ---------------------------------------------------------------------------
/// A panel line is as wide as the gutter, the frame and the wider of the panel's width and
/// the content, where the content does not leave an escape sequence open.
pub proof fn lemma_panel_line_width(gutter: nat, width: nat, content: Seq<char>)
    requires
        !ends_in_seq(content, false),
    ensures
        visible(panel_line(gutter, width, content)) == gutter + 4 + if width >= visible(content) {
            width
        } else {
            visible(content)
        },
{
    let start = line_start(gutter);
    let pad: nat = if width >= visible(content) { (width - visible(content)) as nat } else { 0 };
    let spaces = repeat_char(' ', pad);
    let end = seq![' ', '│'];
    assert(!start.contains(esc())) by {
        if start.contains(esc()) {
            let k = choose|k: int| 0 <= k < start.len() && start[k] == esc();
            if k < gutter {
                assert(start[k] == ' ');
            }
        }
    }
    lemma_visible_plain(start);
    assert(start.last() == ' ');
    lemma_visible_concat(start, content, false);
    let a = start + content;
    lemma_visible_repeat(' ', pad);
    if pad > 0 {
        assert(spaces[0] == ' ');
    }
    lemma_visible_concat(a, spaces, false);
    let b = a + spaces;
    assert(!end.contains(esc())) by {
        assert(end[0] != esc() && end[1] != esc());
    }
    lemma_visible_plain(end);
    assert(end[0] == ' ');
    lemma_visible_concat(b, end, false);
    assert(panel_line(gutter, width, content) == b + end);
}

/// The rest of a control sequence, up to its final `m`, takes no column and closes it.
proof fn lemma_sequence_tail(t: Seq<char>)
    requires
        t.len() >= 1,
        t.last() == 'm',
        forall|i: int| 0 <= i < t.len() - 1 ==> !is_final(#[trigger] t[i]),
    ensures
        visible_count(t, true) == 0,
        !ends_in_seq(t, true),
    decreases t.len(),
{
    if t.len() == 1 {
        assert(is_final(t[0]));
        assert(t.drop_first() =~= Seq::<char>::empty());
        assert(visible_count(t.drop_first(), false) == 0);
        assert(!ends_in_seq(t.drop_first(), false));
        assert(visible_count(t, true) == visible_count(t.drop_first(), false));
        assert(ends_in_seq(t, true) == ends_in_seq(t.drop_first(), false));
    } else {
        let u = t.drop_first();
        assert(!is_final(t[0]));
        assert forall|i: int| 0 <= i < u.len() - 1 implies !is_final(#[trigger] u[i]) by {
            assert(u[i] == t[i + 1]);
        }
        lemma_sequence_tail(u);
        assert(visible_count(t, true) == visible_count(u, true));
        assert(ends_in_seq(t, true) == ends_in_seq(u, true));
    }
}

/// A style sequence (`ESC [`, parameters, `m`) takes no column and is closed.
proof fn lemma_sgr_width(s: Seq<char>)
    requires
        s.len() >= 3,
        s[0] == esc(),
        s[1] == '[',
        s.last() == 'm',
        forall|i: int| 2 <= i < s.len() - 1 ==> !is_final(#[trigger] s[i]),
    ensures
        visible_count(s, false) == 0,
        !ends_in_seq(s, false),
{
    let t = s.skip(2);
    assert forall|i: int| 0 <= i < t.len() - 1 implies !is_final(#[trigger] t[i]) by {
        assert(t[i] == s[i + 2]);
    }
    lemma_sequence_tail(t);
}

/// The styled text of a title without escape characters is as wide as the title.
pub proof fn lemma_styled_plain_width(title: Seq<char>, color: Seq<char>)
    requires
        !title.contains(esc()),
        color == WHITE@ || color == CYAN@ || color == BLUE@,
    ensures
        visible(styled(title, BOLD@, Some(color))) == title.len(),
        !ends_in_seq(styled(title, BOLD@, Some(color)), false),
{
    reveal_strlit("\x1b[1m");
    reveal_strlit("\x1b[37m");
    reveal_strlit("\x1b[36m");
    reveal_strlit("\x1b[34m");
    reveal_strlit("\x1b[0m");
    let bold = BOLD@;
    let reset = RESET@;
    assert(bold =~= seq!['\x1b', '[', '1', 'm']);
    assert(reset =~= seq!['\x1b', '[', '0', 'm']);
    assert(WHITE@ =~= seq!['\x1b', '[', '3', '7', 'm']);
    assert(CYAN@ =~= seq!['\x1b', '[', '3', '6', 'm']);
    assert(BLUE@ =~= seq!['\x1b', '[', '3', '4', 'm']);
    lemma_sgr_width(bold);
    lemma_sgr_width(reset);
    lemma_sgr_width(color);
    lemma_visible_concat(bold, color, false);
    lemma_visible_plain(title);
    lemma_visible_concat(bold + color, title, false);
    if title.len() > 0 {
        assert(title.last() != esc());
    } else {
        assert((bold + color).last() == 'm');
    }
    lemma_visible_concat(bold + color + title, reset, false);
}

/// A section header over a title without escape characters takes the title, a space and the
/// rule: never more than the panel's width when the title is shorter than that width.
pub proof fn lemma_section_header_width(width: nat, title: Seq<char>)
    requires
        !title.contains(esc()),
    ensures
        visible(section_header(width, title)) == title.len() + 1 + if width >= title.len() + 3 {
            (width - title.len() - 3) as nat
        } else {
            0
        },
        title.len() < width ==> visible(section_header(width, title)) <= width,
{
    reveal_strlit("\x1b[37m");
    let s = styled(title, BOLD@, Some(WHITE@));
    lemma_styled_plain_width(title, WHITE@);
    let used = title.len() + 3;
    let fill: nat = if width >= used { (width - used) as nat } else { 0 };
    reveal_strlit("\x1b[0m");
    assert(s.last() == 'm');
    assert(!seq![' '].contains(esc())) by {
        assert(seq![' '][0] == ' ');
    }
    lemma_visible_plain(seq![' ']);
    lemma_visible_concat(s, seq![' '], false);
    lemma_visible_repeat('─', fill);
    lemma_visible_concat(s + seq![' '], repeat_char('─', fill), false);
}

} // verus!
