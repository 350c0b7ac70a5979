//! The lines of the first zitree panel: a title box, then the status box or, when ready,
//! the configuration, the branch input, the session list and the key help.
use vstd::prelude::*;

use crate::text::{chars_of, extend_chars, string_of};
use crate::treemin::config::{Config, ConfigView};
use crate::treemin::sessions::{entry_views, EntryView, WorktreeSessionEntry};
use crate::treemin::state::{Status, StatusView};
use crate::treemin::ui::{
    entry_line, entry_text, kv_line, kv_text, pattern_display, pattern_text, push_all, push_line, section,
    section_lines, texts,
};
use crate::ui::components::{border, keycap, keycap_text, layout_gutter, layout_width, panel_line, status_text, BoxPanel, PanelLayout};
use crate::ui::style::{centered, style, styled, BLUE, BOLD, CYAN, DIM, GREEN, MAGENTA, RED, WHITE, YELLOW};
use crate::zitree::naming::{session_name, session_name_spec};

verus! {

/// The session name shown in the configuration: the prefix's pattern, or the session name
/// the typed branch would get, followed by the pattern's tail.
pub open spec fn session_format(config: ConfigView, name: Seq<char>) -> Seq<char> {
    match config.session_prefix {
        Some(p) => p + "-<repo>-<branch>-<hash>"@,
        None => name + "-<branch>-<hash>"@,
    }
}

/// The configuration section.
pub open spec fn config_lines(g: nat, w: nat, root: Option<Seq<char>>, name: Seq<char>, config: ConfigView) -> Seq<Seq<char>> {
    let root_text = match root {
        Some(r) => r,
        None => "Detecting repository root..."@,
    };
    section_lines(g, w, "Configuration"@) + seq![
        kv_text(g, w, "Repo"@, root_text),
        kv_text(g, w, "Worktree base"@, "<repo>/"@ + config.worktree_dir_name + "/"@ + pattern_text(config.worktree_naming_pattern)),
        kv_text(g, w, "Session name"@, session_format(config, name)),
    ] + match config.base_branch {
        Some(b) => seq![kv_text(g, w, "Base branch"@, b)],
        None => seq![],
    } + if config.auto_fetch {
        seq![kv_text(g, w, "Auto-fetch"@, "enabled (remote: "@ + config.remote + ")"@)]
    } else {
        seq![]
    }
}

/// The branch input section.
pub open spec fn input_lines(g: nat, w: nat, branch_input: Seq<char>) -> Seq<Seq<char>> {
    let branch_value = if branch_input.len() == 0 {
        styled("type a branch name"@, DIM@, Some(WHITE@))
    } else {
        styled(branch_input, BOLD@, Some(CYAN@))
    };
    section_lines(g, w, "Create Worktree"@) + seq![
        panel_line(g, w, styled("⎇ Branch"@, BOLD@, Some(MAGENTA@)) + seq![' '] + branch_value),
    ]
}

/// The session list section, with the entry at `selected` marked.
pub open spec fn list_lines(g: nat, w: nat, sessions: Seq<EntryView>, selected: nat, root: Option<Seq<char>>, config: ConfigView) -> Seq<Seq<char>> {
    section_lines(g, w, "Worktree Sessions"@) + if sessions.len() == 0 {
        seq![panel_line(g, w, styled("No git worktrees found for this repository."@, DIM@, Some(WHITE@)))]
    } else {
        Seq::new(sessions.len(), |i: int| panel_line(g, w, entry_text(sessions[i], i == selected, root, config)))
    }
}

/// A key and what it does, with a trailing space.
pub open spec fn help_text(g: nat, w: nat, key: Seq<char>, title: Seq<char>) -> Seq<char> {
    panel_line(g, w, keycap_text(key) + seq![' '] + title + seq![' '])
}

/// The key help box.
pub open spec fn help_lines(g: nat, w: nat) -> Seq<Seq<char>> {
    seq![
        border(g, w, '┌', '─', '┐'),
        help_text(g, w, "Enter"@, "create or switch"@),
        help_text(g, w, "Up/Down"@, "move selection"@),
        help_text(g, w, "Delete"@, "delete session"@),
        help_text(g, w, "Esc"@, "clear input"@),
        border(g, w, '└', '─', '┘'),
    ]
}

/// The panel of a ready plugin.
pub open spec fn ready_view(
    g: nat,
    w: nat,
    root: Option<Seq<char>>,
    name: Seq<char>,
    config: ConfigView,
    branch_input: Seq<char>,
    sessions: Seq<EntryView>,
    selected: nat,
) -> Seq<Seq<char>> {
    seq![border(g, w, '┌', '─', '┐')] + config_lines(g, w, root, name, config) + input_lines(g, w, branch_input)
        + list_lines(g, w, sessions, selected, root, config) + seq![border(g, w, '└', '─', '┘'), seq![]] + help_lines(g, w)
}

/// The status box.
pub open spec fn status_lines(g: nat, w: nat, icon: Seq<char>, color: Seq<char>, message: Seq<char>) -> Seq<Seq<char>> {
    seq![border(g, w, '┌', '─', '┐'), panel_line(g, w, status_text(icon, color, message)), border(g, w, '└', '─', '┘')]
}

/// The title box and a blank line.
pub open spec fn title_lines(g: nat, w: nat) -> Seq<Seq<char>> {
    seq![
        border(g, w, '┌', '─', '┐'),
        panel_line(g, w, centered(styled("zitree"@, BOLD@, Some(WHITE@)), w)),
        border(g, w, '└', '─', '┘'),
        seq![],
    ]
}

/// Everything the panel shows.
pub open spec fn rendered_lines(
    status: StatusView,
    root: Option<Seq<char>>,
    repo_name: Option<Seq<char>>,
    config: ConfigView,
    branch_input: Seq<char>,
    sessions: Seq<EntryView>,
    selected: nat,
    g: nat,
    w: nat,
) -> Seq<Seq<char>> {
    title_lines(g, w) + match status {
        StatusView::Loading => status_lines(g, w, "⟳"@, YELLOW@, "Waiting for permissions..."@),
        StatusView::Busy(m) => status_lines(g, w, "⟳"@, BLUE@, m),
        StatusView::Error(m) => status_lines(g, w, "✗"@, RED@, "Error: "@ + m),
        StatusView::Success(m) => status_lines(g, w, "✓"@, GREEN@, m),
        StatusView::Ready => ready_view(
            g,
            w,
            root,
            session_name_spec(repo_name, branch_input, config.session_prefix),
            config,
            branch_input,
            sessions,
            selected,
        ),
    }
}

fn config_section(panel: &BoxPanel, repo_root: Option<&str>, name: &str, config: &Config) -> (res: Vec<String>)
    ensures
        texts(res@) == config_lines(
            panel.left_gutter(),
            panel.content_width(),
            match repo_root { Some(r) => Some(r@), None => None },
            name@,
            config@,
        ),
{
    let mut lines: Vec<String> = Vec::new();
    section(panel, "Configuration", &mut lines);
    let root_text = match repo_root {
        Some(r) => String::from_str(r),
        None => String::from_str("Detecting repository root..."),
    };
    kv_line(panel, "Repo", root_text.as_str(), &mut lines);
    let mut base = chars_of("<repo>/");
    extend_chars(&mut base, &chars_of(config.worktree_dir_name.as_str()));
    extend_chars(&mut base, &chars_of("/"));
    extend_chars(&mut base, &chars_of(pattern_display(&config.worktree_naming_pattern)));
    let base = string_of(&base);
    kv_line(panel, "Worktree base", base.as_str(), &mut lines);
    let format = match &config.session_prefix {
        Some(p) => {
            let mut f = chars_of(p.as_str());
            extend_chars(&mut f, &chars_of("-<repo>-<branch>-<hash>"));
            string_of(&f)
        },
        None => {
            let mut f = chars_of(name);
            extend_chars(&mut f, &chars_of("-<branch>-<hash>"));
            string_of(&f)
        },
    };
    kv_line(panel, "Session name", format.as_str(), &mut lines);
    let ghost fixed = texts(lines@);
    if let Some(b) = &config.base_branch {
        kv_line(panel, "Base branch", b.as_str(), &mut lines);
    }
    let ghost with_base = texts(lines@);
    if config.auto_fetch {
        let mut f = chars_of("enabled (remote: ");
        extend_chars(&mut f, &chars_of(config.remote.as_str()));
        extend_chars(&mut f, &chars_of(")"));
        let f = string_of(&f);
        kv_line(panel, "Auto-fetch", f.as_str(), &mut lines);
    }
    proof {
        let g = panel.left_gutter();
        let w = panel.content_width();
        let cfg = config@;
        let base_lines = match cfg.base_branch {
            Some(b) => seq![kv_text(g, w, "Base branch"@, b)],
            None => Seq::<Seq<char>>::empty(),
        };
        let fetch_lines = if cfg.auto_fetch {
            seq![kv_text(g, w, "Auto-fetch"@, "enabled (remote: "@ + cfg.remote + ")"@)]
        } else {
            Seq::<Seq<char>>::empty()
        };
        assert(with_base =~= fixed + base_lines);
        assert(texts(lines@) =~= with_base + fetch_lines);
    }
    lines
}

fn input_section(panel: &BoxPanel, branch_input: &str) -> (res: Vec<String>)
    ensures
        texts(res@) == input_lines(panel.left_gutter(), panel.content_width(), branch_input@),
{
    let mut lines: Vec<String> = Vec::new();
    section(panel, "Create Worktree", &mut lines);
    let value = if chars_of(branch_input).len() == 0 {
        style("type a branch name", DIM, Some(WHITE))
    } else {
        style(branch_input, BOLD, Some(CYAN))
    };
    let mut branch_line = chars_of(style("⎇ Branch", BOLD, Some(MAGENTA)).as_str());
    branch_line.push(' ');
    extend_chars(&mut branch_line, &chars_of(value.as_str()));
    let branch_line = string_of(&branch_line);
    let ghost bv = if branch_input@.len() == 0 {
        styled("type a branch name"@, DIM@, Some(WHITE@))
    } else {
        styled(branch_input@, BOLD@, Some(CYAN@))
    };
    assert(value@ == bv);
    assert(branch_line@ =~= styled("⎇ Branch"@, BOLD@, Some(MAGENTA@)) + seq![' '] + bv);
    push_line(&mut lines, panel.format_line(branch_line.as_str()));
    assert(texts(lines@) =~= input_lines(panel.left_gutter(), panel.content_width(), branch_input@));
    lines
}

fn list_section(
    panel: &BoxPanel,
    worktree_sessions: &[WorktreeSessionEntry],
    selected_index: usize,
    repo_root: Option<&str>,
    config: &Config,
) -> (res: Vec<String>)
    ensures
        texts(res@) == list_lines(
            panel.left_gutter(),
            panel.content_width(),
            entry_views(worktree_sessions@),
            selected_index as nat,
            match repo_root { Some(r) => Some(r@), None => None },
            config@,
        ),
{
    let ghost g = panel.left_gutter();
    let ghost w = panel.content_width();
    let mut lines: Vec<String> = Vec::new();
    section(panel, "Worktree Sessions", &mut lines);
    let ghost before_list = texts(lines@);
    let ghost sv = entry_views(worktree_sessions@);
    let ghost rv = match repo_root { Some(r) => Some(r@), None => None };
    let ghost all = Seq::new(
        sv.len(),
        |i: int| panel_line(g, w, entry_text(sv[i], i == selected_index as nat, rv, config@)),
    );
    if worktree_sessions.len() == 0 {
        let empty = style("No git worktrees found for this repository.", DIM, Some(WHITE));
        push_line(&mut lines, panel.format_line(empty.as_str()));
    } else {
        let mut i: usize = 0;
        while i < worktree_sessions.len()
            invariant
                i <= worktree_sessions@.len(),
                sv == entry_views(worktree_sessions@),
                rv == match repo_root { Some(r) => Some(r@), None => None },
                g == panel.left_gutter(),
                w == panel.content_width(),
                all == Seq::new(sv.len(), |k: int| panel_line(g, w, entry_text(sv[k], k == selected_index as nat, rv, config@))),
                texts(lines@) == before_list + all.take(i as int),
            decreases worktree_sessions@.len() - i,
        {
            let l = entry_line(&worktree_sessions[i], i == selected_index, repo_root, config);
            let line = panel.format_line(l.as_str());
            push_line(&mut lines, line);
            assert(all.take(i + 1) =~= all.take(i as int).push(all[i as int]));
            i = i + 1;
        }
        assert(all.take(worktree_sessions@.len() as int) =~= all);
    }
    lines
}

fn help_line(panel: &BoxPanel, key: &str, title: &str, lines: &mut Vec<String>)
    ensures
        texts(final(lines)@) == texts(old(lines)@).push(help_text(panel.left_gutter(), panel.content_width(), key@, title@)),
{
    let mut out = chars_of(keycap(key).as_str());
    out.push(' ');
    extend_chars(&mut out, &chars_of(title));
    out.push(' ');
    let content = string_of(&out);
    assert(content@ =~= keycap_text(key@) + seq![' '] + title@ + seq![' ']);
    push_line(lines, panel.format_line(content.as_str()));
}

fn help_section(panel: &BoxPanel) -> (res: Vec<String>)
    ensures
        texts(res@) == help_lines(panel.left_gutter(), panel.content_width()),
{
    let mut lines: Vec<String> = Vec::new();
    push_line(&mut lines, panel.print_top());
    help_line(panel, "Enter", "create or switch", &mut lines);
    help_line(panel, "Up/Down", "move selection", &mut lines);
    help_line(panel, "Delete", "delete session", &mut lines);
    help_line(panel, "Esc", "clear input", &mut lines);
    push_line(&mut lines, panel.print_bottom());
    assert(texts(lines@) =~= help_lines(panel.left_gutter(), panel.content_width()));
    lines
}

/// Everything the panel shows for a terminal of `cols` columns, line by line.  A ready
/// plugin knows its repository's name.
pub fn render(
    status: &Status,
    repo_root: Option<&str>,
    repo_name: Option<&str>,
    config: &Config,
    branch_input: &str,
    worktree_sessions: &[WorktreeSessionEntry],
    selected_index: usize,
    cols: usize,
) -> (res: Vec<String>)
    requires
        status@ is Ready ==> repo_name is Some,
    ensures
        texts(res@) == rendered_lines(
            status@,
            match repo_root { Some(r) => Some(r@), None => None },
            match repo_name { Some(r) => Some(r@), None => None },
            config@,
            branch_input@,
            entry_views(worktree_sessions@),
            selected_index as nat,
            layout_gutter(cols as nat),
            layout_width(cols as nat),
        ),
{
    let panel = BoxPanel::new(PanelLayout::new(cols));
    let mut lines: Vec<String> = Vec::new();
    push_line(&mut lines, panel.print_top());
    push_line(&mut lines, panel.print_centered_line(style("zitree", BOLD, Some(WHITE)).as_str()));
    push_line(&mut lines, panel.print_bottom());
    push_line(&mut lines, String::new());
    let body = match status {
        Status::Loading => panel.print_status("⟳", YELLOW, "Waiting for permissions..."),
        Status::Busy(m) => panel.print_status("⟳", BLUE, m.as_str()),
        Status::Error(m) => {
            let mut t = chars_of("Error: ");
            extend_chars(&mut t, &chars_of(m.as_str()));
            let t = string_of(&t);
            panel.print_status("✗", RED, t.as_str())
        },
        Status::Success(m) => panel.print_status("✓", GREEN, m.as_str()),
        Status::Ready => {
            let name = session_name(repo_name, branch_input, config);
            let mut ready: Vec<String> = Vec::new();
            push_line(&mut ready, panel.print_top());
            push_all(&mut ready, config_section(&panel, repo_root, name.as_str(), config));
            push_all(&mut ready, input_section(&panel, branch_input));
            push_all(&mut ready, list_section(&panel, worktree_sessions, selected_index, repo_root, config));
            push_line(&mut ready, panel.print_bottom());
            push_line(&mut ready, String::new());
            push_all(&mut ready, help_section(&panel));
            proof {
                reveal_strlit("");
            }
            ready
        },
    };
    push_all(&mut lines, body);
    proof {
        reveal_strlit("");
    }
    lines
}

} // verus!
