//! The lines of the zessionz list: an entry's line, and which part of a long list or of the
//! layout choices is shown.
use vstd::prelude::*;

use crate::text::{chars_of, extend_chars, string_of};
use crate::ui::style::{style, styled, BLUE, BOLD, CYAN, DIM, GREEN, MAGENTA, WHITE, YELLOW};
use crate::zessionz::item::{ItemView, SessionItem};

verus! {

/// `input` cut to `max_len` characters, the last of them an ellipsis when it was cut.
pub open spec fn truncated(input: Seq<char>, max_len: nat) -> Seq<char> {
    if input.len() <= max_len {
        input
    } else if max_len <= 1 {
        input.take(max_len as int)
    } else {
        input.take(max_len - 1) + seq!['…']
    }
}

/// Cuts `input` to `max_len` characters (see [`truncated`]).
pub fn truncate(input: &str, max_len: usize) -> (res: String)
    ensures
        res@ == truncated(input@, max_len as nat),
{
    let chars = chars_of(input);
    if chars.len() <= max_len {
        return string_of(&chars);
    }
    let keep = if max_len <= 1 { max_len } else { max_len - 1 };
    let mut out: Vec<char> = Vec::new();
    let mut i: usize = 0;
    while i < keep
        invariant
            i <= keep < chars@.len(),
            out@ == chars@.take(i as int),
        decreases keep - i,
    {
        out.push(chars[i]);
        i = i + 1;
        assert(out@ =~= chars@.take(i as int));
    }
    if max_len > 1 {
        out.push('…');
    }
    string_of(&out)
}

/// The arrow that marks the selected entry, or a space.
pub open spec fn marker(selected: bool) -> Seq<char> {
    if selected {
        styled("→"@, BOLD@, Some(CYAN@))
    } else {
        " "@
    }
}

/// The line of an entry: the marker, an icon, and the entry's name and details; a
/// directory's path is cut to half the panel's width.
pub open spec fn item_line(item: ItemView, selected: bool, width: nat) -> Seq<char> {
    match item {
        ItemView::ExistingSession { name, directory, is_current } => {
            let current = if is_current { " "@ + styled("★ current"@, BOLD@, Some(GREEN@)) } else { seq![] };
            marker(selected) + " "@ + styled("●"@, BOLD@, Some(GREEN@)) + " "@ + styled(name, BOLD@, Some(WHITE@))
                + styled(" ("@ + directory + ")"@ + current, DIM@, Some(BLUE@))
        },
        ItemView::ResurrectableSession { name, duration_text } => marker(selected) + " "@ + styled(
            "↺"@,
            BOLD@,
            Some(YELLOW@),
        ) + " "@ + styled(name, BOLD@, Some(WHITE@)) + " "@ + styled(duration_text, DIM@, Some(BLUE@)),
        ItemView::Directory { path, session_name } => marker(selected) + " "@ + styled("○"@, BOLD@, Some(MAGENTA@))
            + " "@ + truncated(path, width / 2) + " "@ + styled("["@ + session_name + "]"@, DIM@, Some(BLUE@)),
    }
}

fn push_str(out: &mut Vec<char>, s: &str)
    ensures
        final(out)@ == old(out)@ + s@,
{
    extend_chars(out, &chars_of(s));
}

/// The line of an entry of the list (see [`item_line`]).
pub fn render_item_line(item: &SessionItem, selected: bool, width: usize) -> (res: String)
    ensures
        res@ == item_line(item@, selected, width as nat),
{
    let mut out: Vec<char> = Vec::new();
    if selected {
        push_str(&mut out, style("→", BOLD, Some(CYAN)).as_str());
    } else {
        push_str(&mut out, " ");
    }
    push_str(&mut out, " ");
    match item {
        SessionItem::ExistingSession { name, directory, is_current } => {
            push_str(&mut out, style("●", BOLD, Some(GREEN)).as_str());
            push_str(&mut out, " ");
            push_str(&mut out, style(name.as_str(), BOLD, Some(WHITE)).as_str());
            let mut detail = chars_of(" (");
            push_str(&mut detail, directory.as_str());
            push_str(&mut detail, ")");
            if *is_current {
                push_str(&mut detail, " ");
                push_str(&mut detail, style("★ current", BOLD, Some(GREEN)).as_str());
            }
            push_str(&mut out, style(string_of(&detail).as_str(), DIM, Some(BLUE)).as_str());
        },
        SessionItem::ResurrectableSession { name, duration_text } => {
            push_str(&mut out, style("↺", BOLD, Some(YELLOW)).as_str());
            push_str(&mut out, " ");
            push_str(&mut out, style(name.as_str(), BOLD, Some(WHITE)).as_str());
            push_str(&mut out, " ");
            push_str(&mut out, style(duration_text.as_str(), DIM, Some(BLUE)).as_str());
        },
        SessionItem::Directory { path, session_name } => {
            push_str(&mut out, style("○", BOLD, Some(MAGENTA)).as_str());
            push_str(&mut out, " ");
            push_str(&mut out, truncate(path.as_str(), width / 2).as_str());
            push_str(&mut out, " ");
            let mut tag = chars_of("[");
            push_str(&mut tag, session_name.as_str());
            push_str(&mut tag, "]");
            push_str(&mut out, style(string_of(&tag).as_str(), DIM, Some(BLUE)).as_str());
        },
    }
    let res = string_of(&out);
    assert(res@ =~= item_line(item@, selected, width as nat));
    res
}

/// How many rows a list of `len` entries shows: `max_rows`, at least 3, at most `len`.
pub open spec fn shown_rows(len: nat, max_rows: nat) -> nat {
    let r = if max_rows < 3 { 3 } else { max_rows };
    if r < len { r } else { len }
}

/// The first row shown: the selection kept near the middle, the window kept inside the
/// list.
pub open spec fn first_shown(len: nat, selected: nat, max_rows: nat) -> nat {
    let rows = shown_rows(len, max_rows);
    let half = rows / 2;
    let start: nat = if selected >= half { (selected - half) as nat } else { 0 };
    if start < len - rows { start } else { (len - rows) as nat }
}

/// The part of a list of `len` entries that is shown, as the first index and the number of
/// entries; nothing for an empty list.
pub fn visible_range(len: usize, selected_index: usize, max_rows: usize) -> (res: (usize, usize))
    ensures
        len == 0 ==> res == (0usize, 0usize),
        len > 0 ==> res.0 == first_shown(len as nat, selected_index as nat, max_rows as nat) && res.1 == shown_rows(
            len as nat,
            max_rows as nat,
        ),
        res.0 + res.1 <= len,
{
    if len == 0 {
        return (0, 0);
    }
    let r = if max_rows < 3 { 3 } else { max_rows };
    let rows = if r < len { r } else { len };
    let half = rows / 2;
    let start = if selected_index >= half { selected_index - half } else { 0 };
    let start = if start < len - rows { start } else { len - rows };
    (start, rows)
}

/// The layout choices shown in the form: "No layout" then the layouts, as index, label and
/// whether it is the chosen one, for the rows from `start` on.
pub open spec fn layout_rows(names: Seq<Seq<char>>, selected: nat, start: nat, rows: nat) -> Seq<(nat, Seq<char>, bool)> {
    let options = seq!["No layout"@] + names;
    let end: nat = if start + rows < options.len() { start + rows } else { options.len() };
    Seq::new(
        if start <= end { (end - start) as nat } else { 0 },
        |k: int| ((start + k) as nat, options[start + k], start + k == selected),
    )
}

/// The first layout row shown.
pub open spec fn first_layout_shown(selected: nat, max_rows: nat, count: nat) -> nat {
    let r = if max_rows < 3 { 3 } else { max_rows };
    let rows = if r < count { r } else { count };
    let half = rows / 2;
    let start: nat = if selected >= half { (selected - half) as nat } else { 0 };
    let limit: nat = if count >= rows { (count - rows) as nat } else { 0 };
    if start < limit { start } else { limit }
}

/// The layout choices shown in the form, for layouts named `names`, the choice
/// `selected_layout_index`, at most `max_rows` rows and `layout_count` choices in all.
pub fn visible_layout_slice(names: &Vec<String>, selected_layout_index: usize, max_rows: usize, layout_count: usize) -> (res: Vec<(usize, String, bool)>)
    ensures
        res@.map_values(|e: (usize, String, bool)| (e.0 as nat, e.1@, e.2)) == layout_rows(
            names@.map_values(|s: String| s@),
            selected_layout_index as nat,
            first_layout_shown(selected_layout_index as nat, max_rows as nat, layout_count as nat),
            if (if max_rows < 3 { 3 } else { max_rows }) < layout_count {
                (if max_rows < 3 { 3 } else { max_rows }) as nat
            } else {
                layout_count as nat
            },
        ),
{
    let ghost nv = names@.map_values(|s: String| s@);
    let mut options: Vec<String> = Vec::new();
    options.push(String::from_str("No layout"));
    let mut i: usize = 0;
    while i < names.len()
        invariant
            i <= names@.len(),
            nv == names@.map_values(|s: String| s@),
            options@.map_values(|s: String| s@) == seq!["No layout"@] + nv.take(i as int),
        decreases names@.len() - i,
    {
        let ghost before = options@.map_values(|s: String| s@);
        options.push(names[i].clone());
        assert(options@.map_values(|s: String| s@) =~= before.push(nv[i as int]));
        assert(seq!["No layout"@] + nv.take(i + 1) =~= (seq!["No layout"@] + nv.take(i as int)).push(nv[i as int]));
        i = i + 1;
    }
    assert(nv.take(names@.len() as int) =~= nv);
    let ghost ov = options@.map_values(|s: String| s@);
    let r = if max_rows < 3 { 3 } else { max_rows };
    let rows = if r < layout_count { r } else { layout_count };
    let half = rows / 2;
    let start = if selected_layout_index >= half { selected_layout_index - half } else { 0 };
    let limit = if layout_count >= rows { layout_count - rows } else { 0 };
    let start = if start < limit { start } else { limit };
    let ghost expected = layout_rows(nv, selected_layout_index as nat, start as nat, rows as nat);
    let len = options.len();
    if start >= len {
        assert(expected =~= Seq::<(nat, Seq<char>, bool)>::empty());
        return Vec::new();
    }
    let end = if rows < len - start { start + rows } else { len };
    let mut res: Vec<(usize, String, bool)> = Vec::new();
    let mut k: usize = start;
    while k < end
        invariant
            start <= k <= end <= options@.len(),
            ov == options@.map_values(|s: String| s@),
            ov == seq!["No layout"@] + nv,
            expected == layout_rows(nv, selected_layout_index as nat, start as nat, rows as nat),
            expected.len() == end - start,
            res@.map_values(|e: (usize, String, bool)| (e.0 as nat, e.1@, e.2)) == expected.take(k - start),
        decreases end - k,
    {
        let ghost before = res@.map_values(|e: (usize, String, bool)| (e.0 as nat, e.1@, e.2));
        let entry = (k, options[k].clone(), k == selected_layout_index);
        res.push(entry);
        assert(ov[k as int] == options@[k as int]@);
        assert(res@.map_values(|e: (usize, String, bool)| (e.0 as nat, e.1@, e.2)) =~= before.push(
            (k as nat, ov[k as int], k == selected_layout_index),
        ));
        assert(expected.take(k + 1 - start) =~= expected.take(k - start).push(expected[k - start]));
        k = k + 1;
    }
    assert(expected.take(end - start) =~= expected);
    res
}

} // verus!
