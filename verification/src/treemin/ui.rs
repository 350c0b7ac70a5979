//! The lines that the treemin panel shows: the status, or the configuration, the branch
//! input, the session list and the key help.
use vstd::prelude::*;

use crate::paths::{file_name, file_name_of, same_path, same_path_spec, strip_path_prefix, strip_prefix_of};
use crate::text::{chars_of, extend_chars, string_of};
use crate::treemin::config::{Config, ConfigView, WorktreeNamingPattern};
use crate::treemin::naming::{path_join, path_join_exec};
use crate::treemin::sessions::{entry_views, EntryView, WorktreeSessionEntry};
use crate::treemin::state::{Status, StatusView};
use crate::ui::components::{layout_gutter, layout_width, border, key_value_text, keycap_text, panel_line, section_header, status_text, BoxPanel, PanelLayout};
use crate::ui::style::{style, styled, BLUE, BOLD, CYAN, DIM, GREEN, MAGENTA, RED, RESET, WHITE, YELLOW};

verus! {

/// The lines printed above the panel.
pub const TOP_PADDING_LINES: usize = 2;

pub open spec fn texts(v: Seq<String>) -> Seq<Seq<char>> {
    v.map_values(|s: String| s@)
}

/// How a naming pattern is shown.
pub open spec fn pattern_text(p: WorktreeNamingPattern) -> Seq<char> {
    match p {
        WorktreeNamingPattern::Branch => "<branch>"@,
        WorktreeNamingPattern::Hash => "<hash>"@,
        WorktreeNamingPattern::BranchHash => "<branch>-<hash>"@,
    }
}

/// How a naming pattern is shown.
pub fn pattern_display(pattern: &WorktreeNamingPattern) -> (res: &'static str)
    ensures
        res@ == pattern_text(*pattern),
{
    match pattern {
        WorktreeNamingPattern::Branch => "<branch>",
        WorktreeNamingPattern::Hash => "<hash>",
        WorktreeNamingPattern::BranchHash => "<branch>-<hash>",
    }
}

/// Where an entry's worktree is, as shown: its directory name for the main worktree, its
/// path under the worktree directory for a linked one, else its directory name.
pub open spec fn display_name(path: Option<Seq<char>>, root: Option<Seq<char>>, config: ConfigView) -> Seq<char> {
    match path {
        None => "session only"@,
        Some(p) => {
            let is_root = match root {
                Some(r) => same_path_spec(r, p),
                None => false,
            };
            let name_or = |fallback: Seq<char>|
                match file_name_of(p) {
                    Some(n) => n,
                    None => fallback,
                };
            if is_root {
                name_or("main"@)
            } else {
                match root {
                    Some(r) => match strip_prefix_of(p, path_join(r, config.worktree_dir_name)) {
                        Some(rel) => rel,
                        None => name_or("worktree"@),
                    },
                    None => name_or("worktree"@),
                }
            }
        },
    }
}

fn file_name_or(path: &str, fallback: &str) -> (res: String)
    ensures
        res@ == match file_name_of(path@) {
            Some(n) => n,
            None => fallback@,
        },
{
    match file_name(path) {
        Some(n) => n,
        None => String::from_str(fallback),
    }
}

/// Where an entry's worktree is, as shown.
pub fn worktree_display_name(path: Option<&str>, repo_root: Option<&str>, config: &Config) -> (res: String)
    ensures
        res@ == display_name(
            match path { Some(p) => Some(p@), None => None },
            match repo_root { Some(r) => Some(r@), None => None },
            config@,
        ),
{
    let p = match path {
        None => {
            return String::from_str("session only");
        },
        Some(p) => p,
    };
    let is_root = match repo_root {
        Some(r) => same_path(r, p),
        None => false,
    };
    if is_root {
        return file_name_or(p, "main");
    }
    if let Some(r) = repo_root {
        let base = string_of(&path_join_exec(&chars_of(r), &chars_of(config.worktree_dir_name.as_str())));
        if let Some(rel) = strip_path_prefix(p, base.as_str()) {
            return rel;
        }
    }
    file_name_or(p, "worktree")
}

/// The line of one entry: the selection marker, the branch, the session name, where the
/// worktree is, and a mark on the current entry.
pub open spec fn entry_text(e: EntryView, selected: bool, root: Option<Seq<char>>, config: ConfigView) -> Seq<char> {
    let marker = if selected { styled("→"@, BOLD@, Some(CYAN@)) } else { styled(" "@, RESET@, None) };
    let tail = if e.is_current {
        seq![' '] + display_name(e.path, root, config) + seq![' '] + styled("★ current"@, BOLD@, Some(GREEN@))
    } else {
        seq![' '] + display_name(e.path, root, config)
    };
    marker + seq![' '] + styled("⎇"@, BOLD@, Some(MAGENTA@)) + seq![' '] + styled(e.branch, BOLD@, Some(WHITE@)) + seq![' ']
        + styled(seq!['['] + e.session_name + seq![']'], DIM@, Some(BLUE@)) + tail
}

pub(crate) fn entry_line(entry: &WorktreeSessionEntry, selected: bool, repo_root: Option<&str>, config: &Config) -> (res: String)
    ensures
        res@ == entry_text(
            entry@,
            selected,
            match repo_root { Some(r) => Some(r@), None => None },
            config@,
        ),
{
    let marker = if selected { style("→", BOLD, Some(CYAN)) } else { style(" ", RESET, None) };
    let location = worktree_display_name(
        match &entry.path { Some(p) => Some(p.as_str()), None => None },
        repo_root,
        config,
    );
    let mut out = chars_of(marker.as_str());
    out.push(' ');
    extend_chars(&mut out, &chars_of(style("⎇", BOLD, Some(MAGENTA)).as_str()));
    out.push(' ');
    extend_chars(&mut out, &chars_of(style(entry.branch.as_str(), BOLD, Some(WHITE)).as_str()));
    out.push(' ');
    let mut bracketed: Vec<char> = Vec::new();
    bracketed.push('[');
    extend_chars(&mut bracketed, &chars_of(entry.session_name.as_str()));
    bracketed.push(']');
    let bracketed = string_of(&bracketed);
    extend_chars(&mut out, &chars_of(style(bracketed.as_str(), DIM, Some(BLUE)).as_str()));
    out.push(' ');
    extend_chars(&mut out, &chars_of(location.as_str()));
    if entry.is_current {
        out.push(' ');
        extend_chars(&mut out, &chars_of(style("★ current", BOLD, Some(GREEN)).as_str()));
    }
    let res = string_of(&out);
    assert(res@ =~= entry_text(
        entry@,
        selected,
        match repo_root { Some(r) => Some(r@), None => None },
        config@,
    ));
    res
}

/// The lines of the session list.
pub open spec fn entry_lines(
    g: nat,
    w: nat,
    sessions: Seq<EntryView>,
    selected: Option<nat>,
    root: Option<Seq<char>>,
    config: ConfigView,
) -> Seq<Seq<char>> {
    Seq::new(
        sessions.len(),
        |i: int| panel_line(g, w, entry_text(sessions[i], selected == Some(i as nat), root, config)),
    )
}

/// The session format shown in the configuration.
pub open spec fn session_format(config: ConfigView, repo_name: Seq<char>) -> Seq<char> {
    match config.session_prefix {
        Some(p) => p + "-<repo>-<branch>-<hash>"@,
        None => repo_name + "|<worktree>"@,
    }
}

pub open spec fn kv_text(g: nat, w: nat, label: Seq<char>, value: Seq<char>) -> Seq<char> {
    panel_line(g, w, key_value_text(label, value))
}

pub open spec fn section_lines(g: nat, w: nat, title: Seq<char>) -> Seq<Seq<char>> {
    seq![panel_line(g, w, seq![]), panel_line(g, w, section_header(w, title))]
}

/// The configuration section.
pub open spec fn config_block(g: nat, w: nat, root: Option<Seq<char>>, repo_name: Option<Seq<char>>, config: ConfigView) -> Seq<Seq<char>> {
    let root_text = match root {
        Some(r) => r,
        None => "Detecting repository root..."@,
    };
    let name = match repo_name {
        Some(n) => n,
        None => seq![],
    };
    section_lines(g, w, "Configuration"@) + seq![
        kv_text(g, w, "Repo"@, root_text),
        kv_text(g, w, "Worktree base"@, "<repo>/"@ + config.worktree_dir_name + "/"@ + pattern_text(config.worktree_naming_pattern)),
        kv_text(g, w, "Session name"@, session_format(config, name)),
    ] + match config.base_branch {
        Some(b) => seq![kv_text(g, w, "Base branch"@, b)],
        None => seq![],
    } + if config.auto_fetch {
        seq![kv_text(g, w, "Auto-fetch"@, "enabled (remote: "@ + config.remote + ")"@)]
    } else {
        seq![]
    }
}

/// The branch input section.
pub open spec fn input_block(g: nat, w: nat, branch_input: Seq<char>) -> Seq<Seq<char>> {
    let branch_value = if branch_input.len() == 0 {
        styled("type a branch name"@, DIM@, Some(WHITE@))
    } else {
        styled(branch_input, BOLD@, Some(CYAN@))
    };
    section_lines(g, w, "Create Worktree"@) + seq![
        panel_line(g, w, styled("Press Ctrl+H to show help"@, DIM@, Some(WHITE@))),
        panel_line(g, w, styled("⎇ Branch"@, BOLD@, Some(MAGENTA@)) + seq![' '] + branch_value),
    ]
}

/// The session list section.
pub open spec fn list_block(
    g: nat,
    w: nat,
    sessions: Seq<EntryView>,
    selected: Option<nat>,
    root: Option<Seq<char>>,
    config: ConfigView,
) -> Seq<Seq<char>> {
    section_lines(g, w, "Worktree Sessions"@) + if sessions.len() == 0 {
        seq![panel_line(g, w, styled("No git worktrees found for this repository."@, DIM@, Some(WHITE@)))]
    } else {
        entry_lines(g, w, sessions, selected, root, config)
    }
}

pub open spec fn help_text(g: nat, w: nat, key: Seq<char>, title: Seq<char>) -> Seq<char> {
    panel_line(g, w, keycap_text(key) + seq![' '] + title)
}

/// The key help box.
pub open spec fn help_block(g: nat, w: nat) -> Seq<Seq<char>> {
    seq![
        border(g, w, '┌', '─', '┐'),
        help_text(g, w, "Enter"@, "create or switch"@),
        help_text(g, w, "Up/Down"@, "move selection"@),
        help_text(g, w, "Ctrl+D"@, "delete session"@),
        help_text(g, w, "Ctrl+H"@, "toggle help"@),
        help_text(g, w, "Esc"@, "clear input or close"@),
        border(g, w, '└', '─', '┘'),
    ]
}

/// The lines of the panel when the plugin is ready.
pub open spec fn ready_lines(
    g: nat,
    w: nat,
    root: Option<Seq<char>>,
    repo_name: Option<Seq<char>>,
    config: ConfigView,
    branch_input: Seq<char>,
    sessions: Seq<EntryView>,
    selected: Option<nat>,
    show_help: bool,
) -> Seq<Seq<char>> {
    seq![seq![], border(g, w, '┌', '─', '┐')] + config_block(g, w, root, repo_name, config) + input_block(g, w, branch_input)
        + list_block(g, w, sessions, selected, root, config) + seq![border(g, w, '└', '─', '┘'), seq![]]
        + if show_help { help_block(g, w) } else { seq![] }
}

/// The lines of a status box.
pub open spec fn status_box(g: nat, w: nat, icon: Seq<char>, color: Seq<char>, message: Seq<char>) -> Seq<Seq<char>> {
    seq![border(g, w, '┌', '─', '┐'), panel_line(g, w, status_text(icon, color, message)), border(g, w, '└', '─', '┘')]
}

/// Everything the plugin shows: two blank lines, then the status box or, when ready, the
/// panel.
pub open spec fn rendered_lines(
    status: StatusView,
    root: Option<Seq<char>>,
    repo_name: Option<Seq<char>>,
    config: ConfigView,
    branch_input: Seq<char>,
    sessions: Seq<EntryView>,
    selected: Option<nat>,
    show_help: bool,
    g: nat,
    w: nat,
) -> Seq<Seq<char>> {
    seq![seq![], seq![]] + match status {
        StatusView::Loading => status_box(g, w, "⟳"@, YELLOW@, "Waiting for permissions..."@),
        StatusView::Busy(m) => status_box(g, w, "⟳"@, BLUE@, m),
        StatusView::Error(m) => status_box(g, w, "✗"@, RED@, "Error: "@ + m),
        StatusView::Success(m) => status_box(g, w, "✓"@, GREEN@, m),
        StatusView::Ready => ready_lines(g, w, root, repo_name, config, branch_input, sessions, selected, show_help),
    }
}

pub(crate) fn push_all(lines: &mut Vec<String>, more: Vec<String>)
    ensures
        texts(final(lines)@) == texts(old(lines)@) + texts(more@),
{
    let ghost start = texts(lines@);
    let mut i: usize = 0;
    while i < more.len()
        invariant
            i <= more@.len(),
            texts(lines@) == start + texts(more@).take(i as int),
        decreases more@.len() - i,
    {
        let ghost before = lines@;
        lines.push(more[i].clone());
        assert(texts(lines@) =~= start + texts(more@).take(i + 1)) by {
            assert(texts(lines@) =~= texts(before).push(more@[i as int]@));
            assert(texts(more@).take(i + 1) =~= texts(more@).take(i as int).push(more@[i as int]@));
        }
        i = i + 1;
    }
    assert(texts(more@).take(more@.len() as int) =~= texts(more@));
}

pub(crate) fn kv_line(panel: &BoxPanel, label: &str, value: &str, lines: &mut Vec<String>)
    ensures
        texts(final(lines)@) == texts(old(lines)@).push(
            panel_line(panel.left_gutter(), panel.content_width(), key_value_text(label@, value@)),
        ),
{
    let ghost before = lines@;
    let l = panel.print_key_value(label, value);
    lines.push(l);
    assert(texts(lines@) =~= texts(before).push(l@));
}

pub(crate) fn push_line(lines: &mut Vec<String>, line: String)
    ensures
        texts(final(lines)@) == texts(old(lines)@).push(line@),
{
    let ghost before = lines@;
    let ghost lv = line@;
    lines.push(line);
    assert(texts(lines@) =~= texts(before).push(lv));
}

fn help_line(panel: &BoxPanel, key: &str, title: &str, lines: &mut Vec<String>)
    ensures
        texts(final(lines)@) == texts(old(lines)@).push(
            panel_line(panel.left_gutter(), panel.content_width(), keycap_text(key@) + seq![' '] + title@),
        ),
{
    let l = panel.print_help(key, title);
    push_line(lines, l);
}

pub(crate) fn section(panel: &BoxPanel, title: &str, lines: &mut Vec<String>)
    ensures
        texts(final(lines)@) == texts(old(lines)@) + section_lines(panel.left_gutter(), panel.content_width(), title@),
{
    let more = panel.print_section_header(title);
    assert(texts(more@) =~= section_lines(panel.left_gutter(), panel.content_width(), title@));
    push_all(lines, more);
}

fn config_panel(panel: &BoxPanel, repo_root: Option<&str>, repo_name: Option<&str>, config: &Config) -> (res: Vec<String>)
    ensures
        texts(res@) == config_block(
            panel.left_gutter(),
            panel.content_width(),
            match repo_root { Some(r) => Some(r@), None => None },
            match repo_name { Some(r) => Some(r@), None => None },
            config@,
        ),
{
    let mut lines: Vec<String> = Vec::new();
    section(panel, "Configuration", &mut lines);
    let root_text = match repo_root {
        Some(r) => String::from_str(r),
        None => String::from_str("Detecting repository root..."),
    };
    kv_line(panel, "Repo", root_text.as_str(), &mut lines);
    let mut base = chars_of("<repo>/");
    extend_chars(&mut base, &chars_of(config.worktree_dir_name.as_str()));
    extend_chars(&mut base, &chars_of("/"));
    extend_chars(&mut base, &chars_of(pattern_display(&config.worktree_naming_pattern)));
    let base = string_of(&base);
    kv_line(panel, "Worktree base", base.as_str(), &mut lines);
    let format = match &config.session_prefix {
        Some(p) => {
            let mut f = chars_of(p.as_str());
            extend_chars(&mut f, &chars_of("-<repo>-<branch>-<hash>"));
            string_of(&f)
        },
        None => {
            let mut f = match repo_name {
                Some(n) => chars_of(n),
                None => Vec::new(),
            };
            extend_chars(&mut f, &chars_of("|<worktree>"));
            string_of(&f)
        },
    };
    kv_line(panel, "Session name", format.as_str(), &mut lines);
    let ghost fixed = texts(lines@);
    if let Some(b) = &config.base_branch {
        kv_line(panel, "Base branch", b.as_str(), &mut lines);
    }
    let ghost with_base = texts(lines@);
    if config.auto_fetch {
        let mut f = chars_of("enabled (remote: ");
        extend_chars(&mut f, &chars_of(config.remote.as_str()));
        extend_chars(&mut f, &chars_of(")"));
        let f = string_of(&f);
        kv_line(panel, "Auto-fetch", f.as_str(), &mut lines);
    }
    proof {
        let g = panel.left_gutter();
        let w = panel.content_width();
        let cfg = config@;
        let base_lines = match cfg.base_branch {
            Some(b) => seq![kv_text(g, w, "Base branch"@, b)],
            None => Seq::<Seq<char>>::empty(),
        };
        let fetch_lines = if cfg.auto_fetch {
            seq![kv_text(g, w, "Auto-fetch"@, "enabled (remote: "@ + cfg.remote + ")"@)]
        } else {
            Seq::<Seq<char>>::empty()
        };
        assert(with_base =~= fixed + base_lines);
        assert(texts(lines@) =~= with_base + fetch_lines);
    }
    lines
}

fn input_panel(panel: &BoxPanel, branch_input: &str) -> (res: Vec<String>)
    ensures
        texts(res@) == input_block(panel.left_gutter(), panel.content_width(), branch_input@),
{
    let mut lines: Vec<String> = Vec::new();
    section(panel, "Create Worktree", &mut lines);
    let hint = style("Press Ctrl+H to show help", DIM, Some(WHITE));
    push_line(&mut lines, panel.format_line(hint.as_str()));
    let value = if chars_of(branch_input).len() == 0 {
        style("type a branch name", DIM, Some(WHITE))
    } else {
        style(branch_input, BOLD, Some(CYAN))
    };
    let mut branch_line = chars_of(style("⎇ Branch", BOLD, Some(MAGENTA)).as_str());
    branch_line.push(' ');
    extend_chars(&mut branch_line, &chars_of(value.as_str()));
    let branch_line = string_of(&branch_line);
    let ghost bv = if branch_input@.len() == 0 {
        styled("type a branch name"@, DIM@, Some(WHITE@))
    } else {
        styled(branch_input@, BOLD@, Some(CYAN@))
    };
    assert(value@ == bv);
    assert(branch_line@ =~= styled("⎇ Branch"@, BOLD@, Some(MAGENTA@)) + seq![' '] + bv);
    push_line(&mut lines, panel.format_line(branch_line.as_str()));
    assert(texts(lines@) =~= input_block(panel.left_gutter(), panel.content_width(), branch_input@));
    lines
}

fn list_panel(
    panel: &BoxPanel,
    worktree_sessions: &[WorktreeSessionEntry],
    selected_index: Option<usize>,
    repo_root: Option<&str>,
    config: &Config,
) -> (res: Vec<String>)
    ensures
        texts(res@) == list_block(
            panel.left_gutter(),
            panel.content_width(),
            entry_views(worktree_sessions@),
            match selected_index { Some(i) => Some(i as nat), None => None },
            match repo_root { Some(r) => Some(r@), None => None },
            config@,
        ),
{
    let ghost g = panel.left_gutter();
    let ghost w = panel.content_width();
    let mut lines: Vec<String> = Vec::new();
    section(panel, "Worktree Sessions", &mut lines);
    let ghost before_list = texts(lines@);
    let ghost sv = entry_views(worktree_sessions@);
    let ghost sel = match selected_index { Some(i) => Some(i as nat), None => None };
    let ghost rv = match repo_root { Some(r) => Some(r@), None => None };
    if worktree_sessions.len() == 0 {
        let empty = style("No git worktrees found for this repository.", DIM, Some(WHITE));
        push_line(&mut lines, panel.format_line(empty.as_str()));
    } else {
        let mut i: usize = 0;
        while i < worktree_sessions.len()
            invariant
                i <= worktree_sessions@.len(),
                sv == entry_views(worktree_sessions@),
                sel == match selected_index { Some(i) => Some(i as nat), None => None },
                rv == match repo_root { Some(r) => Some(r@), None => None },
                g == panel.left_gutter(),
                w == panel.content_width(),
                texts(lines@) == before_list + entry_lines(g, w, sv, sel, rv, config@).take(i as int),
            decreases worktree_sessions@.len() - i,
        {
            let selected = match selected_index {
                Some(s) => s == i,
                None => false,
            };
            let l = entry_line(&worktree_sessions[i], selected, repo_root, config);
            let line = panel.format_line(l.as_str());
            push_line(&mut lines, line);
            assert(entry_lines(g, w, sv, sel, rv, config@).take(i + 1) =~= entry_lines(g, w, sv, sel, rv, config@).take(
                i as int,
            ).push(entry_lines(g, w, sv, sel, rv, config@)[i as int]));
            i = i + 1;
        }
        assert(entry_lines(g, w, sv, sel, rv, config@).take(worktree_sessions@.len() as int) =~= entry_lines(
            g,
            w,
            sv,
            sel,
            rv,
            config@,
        ));
    }
    lines
}

fn help_panel(panel: &BoxPanel) -> (res: Vec<String>)
    ensures
        texts(res@) == help_block(panel.left_gutter(), panel.content_width()),
{
    let mut lines: Vec<String> = Vec::new();
    push_line(&mut lines, panel.print_top());
    help_line(panel, "Enter", "create or switch", &mut lines);
    help_line(panel, "Up/Down", "move selection", &mut lines);
    help_line(panel, "Ctrl+D", "delete session", &mut lines);
    help_line(panel, "Ctrl+H", "toggle help", &mut lines);
    help_line(panel, "Esc", "clear input or close", &mut lines);
    push_line(&mut lines, panel.print_bottom());
    assert(texts(lines@) =~= help_block(panel.left_gutter(), panel.content_width()));
    lines
}

fn ready_panel(
    repo_root: Option<&str>,
    repo_name: Option<&str>,
    config: &Config,
    branch_input: &str,
    worktree_sessions: &[WorktreeSessionEntry],
    selected_index: Option<usize>,
    show_help: bool,
    panel: BoxPanel,
) -> (res: Vec<String>)
    ensures
        texts(res@) == ready_lines(
            panel.left_gutter(),
            panel.content_width(),
            match repo_root { Some(r) => Some(r@), None => None },
            match repo_name { Some(r) => Some(r@), None => None },
            config@,
            branch_input@,
            entry_views(worktree_sessions@),
            match selected_index { Some(i) => Some(i as nat), None => None },
            show_help,
        ),
{
    let mut lines: Vec<String> = Vec::new();
    push_line(&mut lines, String::new());
    push_line(&mut lines, panel.print_top());
    push_all(&mut lines, config_panel(&panel, repo_root, repo_name, config));
    push_all(&mut lines, input_panel(&panel, branch_input));
    push_all(&mut lines, list_panel(&panel, worktree_sessions, selected_index, repo_root, config));
    push_line(&mut lines, panel.print_bottom());
    push_line(&mut lines, String::new());
    let ghost before_help = texts(lines@);
    if show_help {
        push_all(&mut lines, help_panel(&panel));
    }
    proof {
        reveal_strlit("");
        if !show_help {
            assert(texts(lines@) =~= before_help + Seq::<Seq<char>>::empty());
        }
    }
    lines
}

/// Everything the plugin shows for a terminal of `cols` columns, line by line.
pub fn render(
    status: &Status,
    repo_root: Option<&str>,
    repo_name: Option<&str>,
    config: &Config,
    branch_input: &str,
    worktree_sessions: &[WorktreeSessionEntry],
    selected_index: Option<usize>,
    show_help: bool,
    cols: usize,
) -> (res: Vec<String>)
    ensures
        texts(res@) == rendered_lines(
            status@,
            match repo_root { Some(r) => Some(r@), None => None },
            match repo_name { Some(r) => Some(r@), None => None },
            config@,
            branch_input@,
            entry_views(worktree_sessions@),
            match selected_index { Some(i) => Some(i as nat), None => None },
            show_help,
            layout_gutter(cols as nat),
            layout_width(cols as nat),
        ),
{
    let panel = BoxPanel::new(PanelLayout::new(cols));
    let mut lines: Vec<String> = Vec::new();
    push_line(&mut lines, String::new());
    push_line(&mut lines, String::new());
    let body = match status {
        Status::Loading => panel.print_status("⟳", YELLOW, "Waiting for permissions..."),
        Status::Busy(m) => panel.print_status("⟳", BLUE, m.as_str()),
        Status::Error(m) => {
            let mut t = chars_of("Error: ");
            extend_chars(&mut t, &chars_of(m.as_str()));
            let t = string_of(&t);
            panel.print_status("✗", RED, t.as_str())
        },
        Status::Success(m) => panel.print_status("✓", GREEN, m.as_str()),
        Status::Ready => ready_panel(
            repo_root,
            repo_name,
            config,
            branch_input,
            worktree_sessions,
            selected_index,
            show_help,
            panel,
        ),
    };
    push_all(&mut lines, body);
    proof {
        reveal_strlit("");
    }
    lines
}

} // verus!
