//! The seshmin plugin's state, and how it answers each event: the host hands in what
//! happened (a permission answer, a finished command, a session update, a key) and gets
//! back the effects to perform (switch or delete a session, run zoxide, hide the plugin).
use std::collections::BTreeMap;

use vstd::prelude::*;

use crate::paths::{lossy_text, utf8_lossy};
use crate::seshmin::config::{kdl_config, Config, ConfigView};
use crate::seshmin::item::{group_of, in_list_order, lemma_sorted_items, comes_before, item_views, selectable_item, sort_items, sorted_items, zoxide_item, ItemView, SessionItem};
use crate::seshmin::manager::{
    ages_valid, copy_layouts, lemma_live_not_in, lemma_names_not_in, current_from, dead_not_in, dead_views, incremented_name, layout_views, live_not_in,
    live_views, names_not_in, LayoutRef, LiveSession, LiveView, ManagerView, ResurrectableSession, SessionDeletion,
    SessionManager,
};
use crate::seshmin::search::{insert_result, matches_of, result_before, sorted_results, first_selectable_result, ResultView, cleared_search, cyclic_selectable, lemma_wrapped_index, refreshed, SearchEngine, SearchView};
use crate::seshmin::session::{matching_directory, matching_from, session_name_problem, validate_session_name};
use crate::seshmin::zoxide::{
    directories_spec, directory_views, entry_views, naming_defined, try_parse_directories, zoxide_lines,
    zoxide_lines_spec, pair_views, DirectoryView, ZoxideDirectory, MAX_SESSION_NAME_LEN,
};
use crate::string_map::lookup;
use crate::treemin::config::opt_view;
use crate::text::{str_eq, char_is_control, chars_of, extend_chars, is_control, lines, string_of, trim, trim_exec};
use crate::treemin::state::{BareKey, KeyInput};

verus! {

/// The context key that marks the zoxide query among the commands the plugin runs.
pub const ZOXIDE_QUERY_CONTEXT: &'static str = "zoxide_query";

/// What humantime writes for a duration of `secs` seconds and `nanos` nanoseconds.
pub uninterp spec fn humantime_text(secs: u64, nanos: u32) -> Seq<char>;

/// `humantime::format_duration(Duration::new(secs, nanos)).to_string()`.  Claimed: the
/// result is the named value `humantime_text(secs, nanos)`, which the source writes as `0s`
/// for the zero duration.  `nanos` below one second keeps `Duration::new` from carrying.
#[verifier::external_body]
fn format_age(secs: u64, nanos: u32) -> (res: String)
    requires
        nanos < 1_000_000_000,
    ensures
        res@ == humantime_text(secs, nanos),
        secs == 0 && nanos == 0 ==> res@ == "0s"@,
{
    humantime::format_duration(std::time::Duration::new(secs, nanos)).to_string()
}

/// What the plugin is doing.
#[derive(Debug, Clone, PartialEq, Eq)]
pub enum Status {
    Loading,
    Busy(String),
    Error(String),
    Ready,
}

pub enum StatusView {
    Loading,
    Busy(Seq<char>),
    Error(Seq<char>),
    Ready,
}

impl View for Status {
    type V = StatusView;

    open spec fn view(&self) -> StatusView {
        match self {
            Status::Loading => StatusView::Loading,
            Status::Busy(m) => StatusView::Busy(m@),
            Status::Error(m) => StatusView::Error(m@),
            Status::Ready => StatusView::Ready,
        }
    }
}

/// The screen shown: the list, or the form for a new session.
#[derive(Debug, Clone, Copy, PartialEq, Eq, Structural)]
pub enum ActiveScreen {
    Main,
    NewSession,
}

/// Which entries the list shows.
#[derive(Debug, Clone, Copy, PartialEq, Eq, Structural)]
pub enum ItemFilter {
    All,
    ZoxideOnly,
    NonZoxideOnly,
}

pub open spec fn next_filter(f: ItemFilter) -> ItemFilter {
    match f {
        ItemFilter::All => ItemFilter::ZoxideOnly,
        ItemFilter::ZoxideOnly => ItemFilter::NonZoxideOnly,
        ItemFilter::NonZoxideOnly => ItemFilter::All,
    }
}

pub open spec fn filter_label(f: ItemFilter) -> Seq<char> {
    match f {
        ItemFilter::All => "all"@,
        ItemFilter::ZoxideOnly => "zoxide only"@,
        ItemFilter::NonZoxideOnly => "non-zoxide only"@,
    }
}

impl ItemFilter {
    /// The filter that Ctrl+F switches to: all, zoxide only, non-zoxide only, and round.
    pub fn next(self) -> (res: ItemFilter)
        ensures
            res == next_filter(self),
    {
        match self {
            ItemFilter::All => ItemFilter::ZoxideOnly,
            ItemFilter::ZoxideOnly => ItemFilter::NonZoxideOnly,
            ItemFilter::NonZoxideOnly => ItemFilter::All,
        }
    }

    /// The name the status line gives the filter.
    pub fn label(self) -> (res: &'static str)
        ensures
            res@ == filter_label(self),
    {
        match self {
            ItemFilter::All => "all",
            ItemFilter::ZoxideOnly => "zoxide only",
            ItemFilter::NonZoxideOnly => "non-zoxide only",
        }
    }
}

/// A session being set up: its directory, its name and the layout chosen (0 for none, `i`
/// for the `i`-th layout).
pub struct DraftSession {
    pub directory: String,
    pub session_name: String,
    pub layouts: Vec<LayoutRef>,
    pub selected_layout_index: usize,
}

pub struct DraftView {
    pub directory: Seq<char>,
    pub session_name: Seq<char>,
    pub layouts: Seq<(Seq<char>, u64)>,
    pub selected_layout_index: usize,
}

impl View for DraftSession {
    type V = DraftView;

    open spec fn view(&self) -> DraftView {
        DraftView {
            directory: self.directory@,
            session_name: self.session_name@,
            layouts: layout_views(self.layouts@),
            selected_layout_index: self.selected_layout_index,
        }
    }
}

impl DraftSession {
    /// How many layouts can be chosen.
    pub fn layout_count(&self) -> (res: usize)
        ensures
            res == self@.layouts.len(),
    {
        self.layouts.len()
    }

    pub fn duplicate(&self) -> (res: DraftSession)
        ensures
            res@ == self@,
    {
        DraftSession {
            directory: self.directory.clone(),
            session_name: self.session_name.clone(),
            layouts: copy_layouts(&self.layouts),
            selected_layout_index: self.selected_layout_index,
        }
    }
}

pub open spec fn draft_view(d: Option<DraftSession>) -> Option<DraftView> {
    match d {
        Some(x) => Some(x@),
        None => None,
    }
}

/// What the host is asked to do.
pub enum Effect {
    /// Run `zoxide query -l -s`, marked with [`ZOXIDE_QUERY_CONTEXT`].
    QueryZoxide,
    SwitchSession { session: String },
    /// Start the session in `cwd` with the layout.
    SwitchSessionWithLayout { session: String, layout: LayoutRef, cwd: String },
    /// Start the session in `cwd` with the default layout.
    SwitchSessionWithCwd { session: String, cwd: String },
    /// Delete a resurrectable session.
    DeleteDeadSession { session: String },
    /// Kill a live session.
    KillSession { session: String },
    HideSelf,
}

pub enum EffectView {
    QueryZoxide,
    SwitchSession { session: Seq<char> },
    SwitchSessionWithLayout { session: Seq<char>, layout: (Seq<char>, u64), cwd: Seq<char> },
    SwitchSessionWithCwd { session: Seq<char>, cwd: Seq<char> },
    DeleteDeadSession { session: Seq<char> },
    KillSession { session: Seq<char> },
    HideSelf,
}

impl View for Effect {
    type V = EffectView;

    open spec fn view(&self) -> EffectView {
        match self {
            Effect::QueryZoxide => EffectView::QueryZoxide,
            Effect::SwitchSession { session } => EffectView::SwitchSession { session: session@ },
            Effect::SwitchSessionWithLayout { session, layout, cwd } => EffectView::SwitchSessionWithLayout {
                session: session@,
                layout: (layout.name@, layout.id),
                cwd: cwd@,
            },
            Effect::SwitchSessionWithCwd { session, cwd } => EffectView::SwitchSessionWithCwd {
                session: session@,
                cwd: cwd@,
            },
            Effect::DeleteDeadSession { session } => EffectView::DeleteDeadSession { session: session@ },
            Effect::KillSession { session } => EffectView::KillSession { session: session@ },
            Effect::HideSelf => EffectView::HideSelf,
        }
    }
}

pub open spec fn effect_views(v: Seq<Effect>) -> Seq<EffectView> {
    v.map_values(|e: Effect| e@)
}

/// The seshmin plugin.
pub struct State {
    pub config: Config,
    pub status: Status,
    pub active_screen: ActiveScreen,
    pub draft_session: Option<DraftSession>,
    pub session_manager: SessionManager,
    pub directories: Vec<ZoxideDirectory>,
    pub search_engine: SearchEngine,
    pub selected_index: usize,
    pub show_help: bool,
    pub item_filter: ItemFilter,
    pub sessions_loaded: bool,
    pub directories_loaded: bool,
}

/// A [`State`] as mathematical values.
pub struct StateView {
    pub config: ConfigView,
    pub status: StatusView,
    pub screen: ActiveScreen,
    pub draft: Option<DraftView>,
    pub manager: ManagerView,
    pub directories: Seq<DirectoryView>,
    pub search: SearchView,
    pub selected_index: usize,
    pub show_help: bool,
    pub filter: ItemFilter,
    pub sessions_loaded: bool,
    pub directories_loaded: bool,
}

impl View for State {
    type V = StateView;

    open spec fn view(&self) -> StateView {
        StateView {
            config: self.config@,
            status: self.status@,
            screen: self.active_screen,
            draft: draft_view(self.draft_session),
            manager: self.session_manager@,
            directories: directory_views(self.directories@),
            search: self.search_engine@,
            selected_index: self.selected_index,
            show_help: self.show_help,
            filter: self.item_filter,
            sessions_loaded: self.sessions_loaded,
            directories_loaded: self.directories_loaded,
        }
    }
}

// ---------------------------------------------------------------------------
// The list
// ---------------------------------------------------------------------------
/// The entry of a live session: with the directory it was started in, if any.
pub open spec fn live_item(l: LiveView, dirs: Seq<DirectoryView>, sep: Seq<char>) -> ItemView {
    match matching_from(l.name, dirs, sep, 0) {
        Some(k) => ItemView::ExistingSession {
            name: l.name,
            directory: dirs[k as int].directory,
            is_current: l.current,
            is_directory_session: true,
            zoxide_ranking: Some(dirs[k as int].ranking),
        },
        None => ItemView::ExistingSession {
            name: l.name,
            directory: seq![],
            is_current: l.current,
            is_directory_session: false,
            zoxide_ranking: None,
        },
    }
}

/// How a resurrectable session's age is shown.
pub open spec fn age_text(secs: u64, nanos: u32) -> Seq<char> {
    "created "@ + humantime_text(secs, nanos) + " ago"@
}

/// The entry of a resurrectable session.
pub open spec fn dead_item(d: (Seq<char>, u64, u32), dirs: Seq<DirectoryView>, sep: Seq<char>) -> ItemView {
    match matching_from(d.0, dirs, sep, 0) {
        Some(k) => ItemView::ResurrectableSession {
            name: d.0,
            duration_text: age_text(d.1, d.2),
            is_directory_session: true,
            zoxide_ranking: Some(dirs[k as int].ranking),
        },
        None => ItemView::ResurrectableSession {
            name: d.0,
            duration_text: age_text(d.1, d.2),
            is_directory_session: false,
            zoxide_ranking: None,
        },
    }
}

pub open spec fn dir_item(d: DirectoryView) -> ItemView {
    ItemView::Directory { path: d.directory, session_name: d.session_name, zoxide_ranking: d.ranking }
}

pub open spec fn live_items(s: StateView) -> Seq<ItemView> {
    s.manager.live.map_values(|l: LiveView| live_item(l, s.directories, s.config.session_separator))
}

pub open spec fn dead_items(s: StateView) -> Seq<ItemView> {
    if s.config.show_resurrectable_sessions {
        s.manager.dead.map_values(
            |d: (Seq<char>, u64, u32)| dead_item(d, s.directories, s.config.session_separator),
        )
    } else {
        seq![]
    }
}

pub open spec fn dir_items(s: StateView) -> Seq<ItemView> {
    s.directories.map_values(|d: DirectoryView| dir_item(d))
}

/// Every entry the plugin knows: live sessions, resurrectable ones when they are shown,
/// then directories.
pub open spec fn listed(s: StateView) -> Seq<ItemView> {
    live_items(s) + dead_items(s) + dir_items(s)
}

pub open spec fn passes(f: ItemFilter, i: ItemView) -> bool {
    match f {
        ItemFilter::All => true,
        ItemFilter::ZoxideOnly => zoxide_item(i),
        ItemFilter::NonZoxideOnly => !zoxide_item(i),
    }
}

/// The entries that the filter lets through, in order.
pub open spec fn kept_items(items: Seq<ItemView>, f: ItemFilter) -> Seq<ItemView>
    decreases items.len(),
{
    if items.len() == 0 {
        seq![]
    } else if passes(f, items.last()) {
        kept_items(items.drop_last(), f).push(items.last())
    } else {
        kept_items(items.drop_last(), f)
    }
}

/// The list without a search: the entries the filter lets through, in list order.
pub open spec fn base_items(s: StateView) -> Seq<ItemView> {
    sorted_items(kept_items(listed(s), s.filter))
}

pub open spec fn searching(s: StateView) -> bool {
    s.search.term.len() > 0
}

/// The list shown: the search results while a term is typed, else the whole list.
pub open spec fn display_items_spec(s: StateView) -> Seq<ItemView> {
    if searching(s) {
        s.search.results.map_values(|r: crate::seshmin::search::ResultView| r.item)
    } else {
        base_items(s)
    }
}

/// The selected entry: the selected search result while searching, else the entry at the
/// selected index if it can be selected.
pub open spec fn selected_item_spec(s: StateView) -> Option<ItemView> {
    if searching(s) {
        match s.search.selected {
            Some(i) => if i < s.search.results.len() {
                Some(s.search.results[i as int].item)
            } else {
                None
            },
            None => None,
        }
    } else {
        let items = base_items(s);
        if s.selected_index < items.len() && selectable_item(items[s.selected_index as int]) {
            Some(items[s.selected_index as int])
        } else {
            None
        }
    }
}

pub open spec fn opt_item(o: Option<SessionItem>) -> Option<ItemView> {
    match o {
        Some(i) => Some(i@),
        None => None,
    }
}

// ---------------------------------------------------------------------------
// What each event does
// ---------------------------------------------------------------------------
/// The status the loading flags call for.
pub open spec fn sync_status_spec(s: StateView) -> StatusView {
    if s.sessions_loaded && s.directories_loaded {
        StatusView::Ready
    } else if s.directories_loaded {
        StatusView::Busy("Loading sessions..."@)
    } else if s.sessions_loaded {
        StatusView::Busy("Loading zoxide directories..."@)
    } else {
        StatusView::Loading
    }
}

pub open spec fn synced(s: StateView) -> StateView {
    StateView { status: sync_status_spec(s), ..s }
}

/// A running search is run again against the current list.
pub open spec fn search_refreshed(s: StateView) -> StateView {
    if searching(s) {
        StateView { search: refreshed(s.search.term, base_items(s)), ..s }
    } else {
        s
    }
}

pub open spec fn clamped(s: StateView) -> StateView {
    StateView { selected_index: clamped_index(display_items_spec(s), s.selected_index), ..s }
}

/// The search with its selection moved to the next (or previous) selectable result.
pub open spec fn moved_search(v: SearchView, forward: bool) -> SearchView {
    match v.selected {
        None => v,
        Some(i) => SearchView {
            selected: match cyclic_selectable(v.results, i as nat, forward, 1) {
                Some(k) => Some(k as usize),
                None => None,
            },
            ..v
        },
    }
}

/// The selection moved down (`forward`) or up, wrapping around, to a selectable entry.
pub open spec fn moved(s: StateView, forward: bool) -> StateView {
    if searching(s) {
        StateView { search: moved_search(s.search, forward), ..s }
    } else {
        match cyclic_item(base_items(s), s.selected_index as nat, forward, 1) {
            Some(k) => StateView { selected_index: k as usize, ..s },
            None => s,
        }
    }
}

/// The layouts of the current session.
pub open spec fn current_layouts(m: ManagerView) -> Seq<(Seq<char>, u64)> {
    match current_from(m.live, 0) {
        Some(i) => m.live[i as int].layouts,
        None => seq![],
    }
}

/// The first layout of that name, from `from` on.
pub open spec fn first_layout_named(layouts: Seq<(Seq<char>, u64)>, name: Seq<char>, from: int) -> Option<nat>
    decreases layouts.len() - from,
{
    if from < 0 || from >= layouts.len() {
        None
    } else if layouts[from].0 == name {
        Some(from as nat)
    } else {
        first_layout_named(layouts, name, from + 1)
    }
}

/// How a new session is started: with the configured default layout when asked to and when
/// one of `layouts` has its name, else in `cwd` alone.
pub open spec fn launch(
    session: Seq<char>,
    cwd: Seq<char>,
    layouts: Seq<(Seq<char>, u64)>,
    default_layout: Option<Seq<char>>,
    use_default_layout: bool,
) -> EffectView {
    if use_default_layout {
        match default_layout {
            Some(name) => match first_layout_named(layouts, name, 0) {
                Some(i) => EffectView::SwitchSessionWithLayout { session, layout: layouts[i as int], cwd },
                None => EffectView::SwitchSessionWithCwd { session, cwd },
            },
            None => EffectView::SwitchSessionWithCwd { session, cwd },
        }
    } else {
        EffectView::SwitchSessionWithCwd { session, cwd }
    }
}

pub open spec fn switch_to(session: Seq<char>) -> Seq<EffectView> {
    seq![EffectView::SwitchSession { session }, EffectView::HideSelf]
}

pub open spec fn with_error(s: StateView, message: Seq<char>) -> StateView {
    StateView { status: StatusView::Error(message), ..s }
}

/// The name a new session in a directory gets: the directory's session name, counted up
/// past the names taken and cut to the socket-safe length.
pub open spec fn next_session_name(s: StateView, session_name: Seq<char>) -> Seq<char> {
    incremented_name(s.manager, session_name, s.config.session_separator, MAX_SESSION_NAME_LEN as nat)
}

/// Starting the session of a directory: a resurrectable session of that very name is
/// switched to; else a new session under the next free name, if that name is acceptable.
pub open spec fn directory_session_step(s: StateView, path: Seq<char>, session_name: Seq<char>, use_default_layout: bool) -> (StateView, Seq<EffectView>) {
    if s.manager.resurrectable.contains(session_name) {
        (s, switch_to(session_name))
    } else {
        let next = next_session_name(s, session_name);
        match session_name_problem(next) {
            Some(message) => (with_error(s, message), seq![]),
            None => (
                s,
                seq![
                    launch(next, path, current_layouts(s.manager), s.config.default_layout, use_default_layout),
                    EffectView::HideSelf,
                ],
            ),
        }
    }
}

/// Enter on the list: a session is switched to; a directory gets a session at once when a
/// default layout is configured, else the form for a new session opens.
pub open spec fn enter_step(s: StateView) -> (StateView, Seq<EffectView>) {
    match selected_item_spec(s) {
        None => (s, seq![]),
        Some(ItemView::ExistingSession { name, .. }) => (s, switch_to(name)),
        Some(ItemView::ResurrectableSession { name, .. }) => (s, switch_to(name)),
        Some(ItemView::Directory { path, session_name, .. }) => if s.config.default_layout is Some {
            directory_session_step(s, path, session_name, true)
        } else {
            (
                StateView {
                    draft: Some(
                        DraftView {
                            directory: path,
                            session_name: next_session_name(s, session_name),
                            layouts: current_layouts(s.manager),
                            selected_layout_index: 0,
                        },
                    ),
                    screen: ActiveScreen::NewSession,
                    status: StatusView::Ready,
                    ..s
                },
                seq![],
            )
        },
    }
}

/// Ctrl+Enter on the list: a session is switched to, a directory gets a session at once.
pub open spec fn quick_create_step(s: StateView) -> (StateView, Seq<EffectView>) {
    match selected_item_spec(s) {
        None => (with_error(s, "Select a directory or session first."@), seq![]),
        Some(ItemView::ExistingSession { name, .. }) => (s, switch_to(name)),
        Some(ItemView::ResurrectableSession { name, .. }) => (s, switch_to(name)),
        Some(ItemView::Directory { path, session_name, .. }) => directory_session_step(s, path, session_name, true),
    }
}

/// The entry a deletion is aimed at: the selected search result, or the entry at the
/// selected index whether or not it can be selected.
pub open spec fn delete_target(s: StateView) -> Option<ItemView> {
    if searching(s) {
        selected_item_spec(s)
    } else {
        let items = base_items(s);
        if s.selected_index < items.len() {
            Some(items[s.selected_index as int])
        } else {
            None
        }
    }
}

pub open spec fn deletion(m: ManagerView, name: Seq<char>) -> EffectView {
    if m.resurrectable.contains(name) {
        EffectView::DeleteDeadSession { session: name }
    } else {
        EffectView::KillSession { session: name }
    }
}

/// Ctrl+D: a session other than the current one is deleted; anything else is refused.
pub open spec fn delete_step(s: StateView) -> (StateView, Seq<EffectView>) {
    match delete_target(s) {
        None => (with_error(s, "Select a session first."@), seq![]),
        Some(ItemView::Directory { .. }) => (with_error(s, "Select a live or resurrectable session to delete it."@), seq![]),
        Some(ItemView::ExistingSession { name, is_current, .. }) => if is_current {
            (with_error(s, "Cannot delete the current session from inside itself."@), seq![])
        } else {
            (StateView { status: StatusView::Ready, ..s }, seq![deletion(s.manager, name)])
        },
        Some(ItemView::ResurrectableSession { name, .. }) => (
            StateView { status: StatusView::Ready, ..s },
            seq![deletion(s.manager, name)],
        ),
    }
}

/// How the session of the form is started: with the default layout (Ctrl+Enter), else
/// with the layout chosen in the form, if any.
pub open spec fn draft_launch(d: DraftView, default_layout: Option<Seq<char>>, use_default_layout: bool) -> EffectView {
    if use_default_layout {
        launch(d.session_name, d.directory, d.layouts, default_layout, true)
    } else if d.selected_layout_index == 0 {
        EffectView::SwitchSessionWithCwd { session: d.session_name, cwd: d.directory }
    } else if d.selected_layout_index - 1 < d.layouts.len() {
        EffectView::SwitchSessionWithLayout {
            session: d.session_name,
            layout: d.layouts[d.selected_layout_index - 1],
            cwd: d.directory,
        }
    } else {
        EffectView::SwitchSessionWithCwd { session: d.session_name, cwd: d.directory }
    }
}

pub open spec fn is_current_name(m: ManagerView, name: Seq<char>) -> bool {
    match current_from(m.live, 0) {
        Some(i) => m.live[i as int].name == name,
        None => false,
    }
}

/// Enter in the form: the session is created unless its name is refused or is the current
/// session's.
pub open spec fn draft_create_step(s: StateView, use_default_layout: bool) -> (StateView, Seq<EffectView>) {
    match s.draft {
        None => (s, seq![]),
        Some(d) => match session_name_problem(d.session_name) {
            Some(message) => (with_error(s, message), seq![]),
            None => if is_current_name(s.manager, d.session_name) {
                (with_error(s, "Cannot create a session with the current session name."@), seq![])
            } else {
                (s, seq![draft_launch(d, s.config.default_layout, use_default_layout), EffectView::HideSelf])
            },
        },
    }
}

pub open spec fn with_search(s: StateView, v: SearchView) -> StateView {
    StateView { search: v, ..s }
}

/// A key on the list.  The flag says whether the plugin should be drawn again.
pub open spec fn main_key_step(s: StateView, key: KeyInput) -> (StateView, Seq<EffectView>, bool) {
    let b = key.bare_key;
    let plain = key.no_modifiers;
    let ctrl = key.ctrl;
    if b == BareKey::Up && plain {
        (moved(s, false), seq![], true)
    } else if b == BareKey::Down && plain {
        (moved(s, true), seq![], true)
    } else if b == BareKey::Enter && plain {
        (enter_step(s).0, enter_step(s).1, true)
    } else if b == BareKey::Enter && ctrl {
        (quick_create_step(s).0, quick_create_step(s).1, true)
    } else if b == BareKey::Char('d') && ctrl {
        (delete_step(s).0, delete_step(s).1, true)
    } else if b == BareKey::Char('h') && ctrl {
        (StateView { show_help: !s.show_help, ..s }, seq![], true)
    } else if b == BareKey::Char('f') && ctrl {
        (clamped(search_refreshed(StateView { filter: next_filter(s.filter), ..s })), seq![], true)
    } else if b == BareKey::Backspace && plain {
        let term = if s.search.term.len() > 0 { s.search.term.drop_last() } else { s.search.term };
        (with_search(s, refreshed(term, base_items(s))), seq![], true)
    } else if b == BareKey::Esc && plain {
        if searching(s) {
            (clamped(with_search(s, cleared_search())), seq![], true)
        } else {
            (s, seq![EffectView::HideSelf], false)
        }
    } else if b == BareKey::Char('c') && ctrl {
        (s, seq![EffectView::HideSelf], false)
    } else if b == BareKey::Char('r') && ctrl {
        (
            StateView { directories_loaded: false, status: StatusView::Busy("Refreshing zoxide directories..."@), ..s },
            seq![EffectView::QueryZoxide],
            true,
        )
    } else {
        match b {
            BareKey::Char(c) => if plain && !is_control(c) {
                (with_search(s, refreshed(s.search.term.push(c), base_items(s))), seq![], true)
            } else {
                (s, seq![], false)
            },
            _ => (s, seq![], false),
        }
    }
}

pub open spec fn with_draft(s: StateView, d: DraftView) -> StateView {
    StateView { draft: Some(d), ..s }
}

/// A key in the form for a new session.
pub open spec fn new_session_key_step(s: StateView, key: KeyInput) -> (StateView, Seq<EffectView>, bool) {
    match s.draft {
        None => (StateView { screen: ActiveScreen::Main, ..s }, seq![], true),
        Some(d) => {
            let b = key.bare_key;
            let plain = key.no_modifiers;
            let ctrl = key.ctrl;
            if b == BareKey::Up && plain {
                let sel: usize = if d.selected_layout_index == 0 {
                    d.layouts.len() as usize
                } else {
                    (d.selected_layout_index - 1) as usize
                };
                (with_draft(s, DraftView { selected_layout_index: sel, ..d }), seq![], true)
            } else if b == BareKey::Down && plain {
                let sel: usize = if d.selected_layout_index >= d.layouts.len() {
                    0
                } else {
                    (d.selected_layout_index + 1) as usize
                };
                (with_draft(s, DraftView { selected_layout_index: sel, ..d }), seq![], true)
            } else if b == BareKey::Backspace && plain {
                let name = if d.session_name.len() > 0 { d.session_name.drop_last() } else { d.session_name };
                (with_draft(s, DraftView { session_name: name, ..d }), seq![], true)
            } else if b == BareKey::Esc && plain {
                (StateView { screen: ActiveScreen::Main, draft: None, ..s }, seq![], true)
            } else if b == BareKey::Enter && plain {
                (draft_create_step(s, false).0, draft_create_step(s, false).1, true)
            } else if b == BareKey::Enter && ctrl {
                (draft_create_step(s, true).0, draft_create_step(s, true).1, true)
            } else {
                match b {
                    BareKey::Char(c) => if plain && !is_control(c) {
                        (with_draft(s, DraftView { session_name: d.session_name.push(c), ..d }), seq![], true)
                    } else {
                        (s, seq![], false)
                    },
                    _ => (s, seq![], false),
                }
            }
        },
    }
}

/// A key: Esc clears an error; otherwise keys count only once the plugin is ready or shows
/// an error, and go to the screen shown.
pub open spec fn key_step(s: StateView, key: KeyInput) -> (StateView, Seq<EffectView>, bool) {
    if s.status is Error && key.bare_key == BareKey::Esc && key.no_modifiers {
        (synced(s), seq![], true)
    } else if !(s.status is Ready || s.status is Error) {
        (s, seq![], false)
    } else {
        match s.screen {
            ActiveScreen::Main => main_key_step(s, key),
            ActiveScreen::NewSession => new_session_key_step(s, key),
        }
    }
}

/// The state after the plugin is loaded with the KDL map `m`.
pub open spec fn loaded_state(s: StateView, m: Map<Seq<char>, Seq<char>>) -> StateView {
    StateView {
        config: kdl_config(m),
        status: StatusView::Loading,
        screen: ActiveScreen::Main,
        draft: None,
        filter: ItemFilter::All,
        sessions_loaded: false,
        directories_loaded: false,
        ..s
    }
}

/// The answer to the permission request: granted starts the zoxide query.
pub open spec fn permission_step(s: StateView, granted: bool) -> (StateView, Seq<EffectView>) {
    if granted {
        (StateView { status: StatusView::Busy("Loading zoxide directories..."@), ..s }, seq![EffectView::QueryZoxide])
    } else {
        (with_error(s, "Permission request was denied. Reload the plugin and grant access."@), seq![])
    }
}

/// The message for a failed zoxide query, with what it wrote to stderr.
pub open spec fn zoxide_failure(stderr: Seq<u8>) -> Seq<char> {
    let detail = trim(lossy_text(stderr));
    "Failed to run zoxide. "@ + if detail.len() == 0 {
        "Is zoxide installed and on PATH?"@
    } else {
        detail
    }
}

/// The state once the zoxide listing is read: the directories replaced, the search and the
/// selection brought up to date, the status recomputed.
pub open spec fn directories_step(s: StateView, entries: Seq<(u64, Seq<char>)>) -> StateView {
    let s1 = StateView { directories: directories_spec(entries, s.config), directories_loaded: true, ..s };
    synced(clamped(search_refreshed(s1)))
}

/// The sessions without those in `managed` (nothing is dropped when `managed` is empty).
pub open spec fn unmanaged(m: ManagerView, managed: Seq<Seq<char>>) -> ManagerView {
    if managed.len() == 0 {
        m
    } else {
        ManagerView {
            live: live_not_in(m.live, managed),
            resurrectable: names_not_in(m.resurrectable, managed),
            dead: dead_not_in(m.dead, managed),
        }
    }
}

/// The state after a session update: the sessions replaced, those another plugin manages
/// dropped, the search and the selection brought up to date, the status recomputed.
pub open spec fn sessions_step(s: StateView, live: Seq<LiveView>, dead: Seq<ResurrectableSession>, managed: Seq<Seq<char>>) -> StateView {
    let m = ManagerView {
        live,
        resurrectable: dead.map_values(|r: ResurrectableSession| r.name@),
        dead: dead_views(dead),
    };
    let s1 = StateView { manager: unmanaged(m, managed), sessions_loaded: true, ..s };
    synced(clamped(search_refreshed(s1)))
}

// ---------------------------------------------------------------------------
// Laws
// ---------------------------------------------------------------------------
proof fn lemma_kept_items_pass(items: Seq<ItemView>, f: ItemFilter)
    ensures
        forall|i: int| 0 <= i < kept_items(items, f).len() ==> passes(f, #[trigger] kept_items(items, f)[i]),
    decreases items.len(),
{
    if items.len() > 0 {
        let k0 = kept_items(items.drop_last(), f);
        lemma_kept_items_pass(items.drop_last(), f);
        let k = kept_items(items, f);
        assert forall|i: int| 0 <= i < k.len() implies passes(f, #[trigger] k[i]) by {
            if i < k0.len() {
                assert(k[i] == k0[i]);
            }
        }
    }
}

/// The list keeps only the entries that the filter lets through, and shows them in list
/// order: the current session first, then live directory sessions, other live sessions,
/// and the rest, each group by zoxide rank and then by name.
pub proof fn lemma_list_filtered_and_ordered(s: StateView)
    ensures
        forall|i: int| 0 <= i < base_items(s).len() ==> passes(s.filter, #[trigger] base_items(s)[i]),
        in_list_order(base_items(s)),
        forall|i: int, j: int| 0 <= i < j < base_items(s).len() ==> group_of(#[trigger] base_items(s)[i]) <= group_of(
            #[trigger] base_items(s)[j],
        ),
{
    let k = kept_items(listed(s), s.filter);
    lemma_kept_items_pass(listed(s), s.filter);
    lemma_sorted_items(k);
    let b = base_items(s);
    assert forall|i: int| 0 <= i < b.len() implies passes(s.filter, #[trigger] b[i]) by {
        let m = choose|m: int| 0 <= m < k.len() && k[m] == b[i];
        assert(passes(s.filter, k[m]));
    }
    assert forall|i: int, j: int| 0 <= i < j < b.len() implies group_of(#[trigger] b[i]) <= group_of(#[trigger] b[j]) by {
        assert(!comes_before(b[j], b[i]));
    }
}

/// The first selectable entry from `from` on is found when there is one.
pub proof fn lemma_first_selectable_from(items: Seq<ItemView>, from: int)
    ensures
        first_selectable_from(items, from) matches Some(k) ==> from <= k < items.len() && selectable_item(items[k as int]),
        (exists|k: int| 0 <= from <= k < items.len() && selectable_item(#[trigger] items[k])) ==> first_selectable_from(items, from) is Some,
    decreases items.len() - from,
{
    if 0 <= from < items.len() && !selectable_item(items[from]) {
        lemma_first_selectable_from(items, from + 1);
        if exists|k: int| 0 <= from <= k < items.len() && selectable_item(#[trigger] items[k]) {
            let k = choose|k: int| 0 <= from <= k < items.len() && selectable_item(#[trigger] items[k]);
            assert(k != from);
        }
    }
}

/// After the list changes, the selection rests inside the list, and on an entry that can be
/// selected whenever there is one: the current session is shown but never selected.
pub proof fn lemma_clamp_selects_when_possible(items: Seq<ItemView>, index: usize)
    requires
        0 < items.len() <= usize::MAX,
    ensures
        clamped_index(items, index) < items.len(),
        (exists|k: int| 0 <= k < items.len() && selectable_item(#[trigger] items[k])) ==> selectable_item(
            items[clamped_index(items, index) as int],
        ),
{
    lemma_first_selectable_from(items, 0);
}

/// Stepping with wrap-around lands on a selectable entry of the list.
pub proof fn lemma_cyclic_item(items: Seq<ItemView>, current: nat, forward: bool, step: nat)
    ensures
        cyclic_item(items, current, forward, step) matches Some(k) ==> k < items.len() && selectable_item(items[k as int]),
    decreases items.len() + 1 - step,
{
    if items.len() > 0 && step <= items.len() {
        let n = items.len();
        let index: nat = if forward { (current + step) % n } else { ((current + n - step) % (n as int)) as nat };
        if !selectable_item(items[index as int]) {
            lemma_cyclic_item(items, current, forward, step + 1);
        }
    }
}

/// Up and Down on the list leave the selection where it is or move it to an entry that can
/// be selected.
pub proof fn lemma_moves_land_on_selectable(s: StateView, forward: bool)
    requires
        !searching(s),
        base_items(s).len() <= usize::MAX,
    ensures
        moved(s, forward).selected_index == s.selected_index || (moved(s, forward).selected_index < base_items(s).len()
            && selectable_item(base_items(s)[moved(s, forward).selected_index as int])),
{
    lemma_cyclic_item(base_items(s), s.selected_index as nat, forward, 1);
}

/// The search selects a result that can be selected, or nothing.
pub open spec fn search_selection_selectable(v: SearchView) -> bool {
    v.selected matches Some(i) ==> i < v.results.len() && selectable_item(v.results[i as int].item)
}

proof fn lemma_matches_len(items: Seq<ItemView>, term: Seq<char>)
    ensures
        matches_of(items, term).len() <= items.len(),
    decreases items.len(),
{
    if items.len() > 0 {
        lemma_matches_len(items.drop_last(), term);
    }
}

proof fn lemma_insert_result_len(s: Seq<ResultView>, x: ResultView)
    ensures
        insert_result(s, x).len() == s.len() + 1,
    decreases s.len(),
{
    if s.len() > 0 && !result_before(x, s[0]) {
        lemma_insert_result_len(s.drop_first(), x);
    }
}

proof fn lemma_sorted_results_len(s: Seq<ResultView>)
    ensures
        sorted_results(s).len() == s.len(),
    decreases s.len(),
{
    if s.len() > 0 {
        lemma_sorted_results_len(s.drop_last());
        lemma_insert_result_len(sorted_results(s.drop_last()), s.last());
    }
}

proof fn lemma_first_selectable_result(r: Seq<ResultView>, from: int)
    ensures
        first_selectable_result(r, from) matches Some(k) ==> k < r.len() && selectable_item(r[k as int].item),
    decreases r.len() - from,
{
    if 0 <= from < r.len() && !selectable_item(r[from].item) {
        lemma_first_selectable_result(r, from + 1);
    }
}

proof fn lemma_cyclic_result(r: Seq<ResultView>, current: nat, forward: bool, step: nat)
    ensures
        cyclic_selectable(r, current, forward, step) matches Some(k) ==> k < r.len() && selectable_item(r[k as int].item),
    decreases r.len() + 1 - step,
{
    if r.len() > 0 && step <= r.len() {
        let n = r.len();
        let index: nat = if forward { (current + step) % n } else { ((current + n - step) % (n as int)) as nat };
        if !selectable_item(r[index as int].item) {
            lemma_cyclic_result(r, current, forward, step + 1);
        }
    }
}

/// Typing, deleting a character, clearing and moving keep the search's selection on a
/// result that can be selected.
pub proof fn lemma_search_selection_stays_selectable(term: Seq<char>, items: Seq<ItemView>, v: SearchView, forward: bool)
    requires
        items.len() <= usize::MAX,
        v.results.len() <= usize::MAX,
    ensures
        search_selection_selectable(refreshed(term, items)),
        search_selection_selectable(cleared_search()),
        search_selection_selectable(v) ==> search_selection_selectable(moved_search(v, forward)),
{
    let r = refreshed(term, items);
    lemma_matches_len(items, term);
    lemma_sorted_results_len(matches_of(items, term));
    lemma_first_selectable_result(r.results, 0);
    if let Some(i) = v.selected {
        lemma_cyclic_result(v.results, i as nat, forward, 1);
    }
}

/// The selected entry is never the current session (while the search's selection is on a
/// selectable result, which every operation on the search keeps).
pub proof fn lemma_selection_is_never_current(s: StateView)
    requires
        search_selection_selectable(s.search),
    ensures
        selected_item_spec(s) matches Some(item) ==> selectable_item(item),
{
}

/// While the plugin is loading or busy, keys do nothing.
pub proof fn lemma_keys_wait_until_ready(s: StateView, key: KeyInput)
    requires
        s.status is Loading || s.status is Busy,
    ensures
        key_step(s, key) == (s, Seq::<EffectView>::empty(), false),
{
}

/// Esc on an error clears it: the status goes back to what loading calls for.
pub proof fn lemma_esc_clears_error(s: StateView, key: KeyInput)
    requires
        s.status is Error,
        key.bare_key == BareKey::Esc,
        key.no_modifiers,
    ensures
        key_step(s, key).0.status == sync_status_spec(s),
        !(key_step(s, key).0.status is Error),
        key_step(s, key).2,
{
}

/// A deletion is only ever asked for a live session other than the current one, or a
/// resurrectable one, and names it.
pub proof fn lemma_delete_spares_current(s: StateView)
    ensures
        delete_step(s).1.len() > 0 ==> match delete_target(s) {
            Some(ItemView::ExistingSession { name, is_current, .. }) => !is_current && delete_step(s).1 == seq![
                deletion(s.manager, name),
            ],
            Some(ItemView::ResurrectableSession { name, .. }) => delete_step(s).1 == seq![deletion(s.manager, name)],
            _ => false,
        },
{
}

/// Enter on a directory opens the form for a new session only when no default layout is
/// configured; with a default layout, Enter on any entry does what Ctrl+Enter does and
/// starts the directory's session at once.
pub proof fn lemma_enter_form_only_without_default_layout(s: StateView)
    requires
        s.screen is Main,
        selected_item_spec(s) is Some,
    ensures
        selected_item_spec(s)->0 is Directory ==> ((enter_step(s).0.screen is NewSession) <==> s.config.default_layout is None),
        s.config.default_layout is Some ==> enter_step(s) == quick_create_step(s),
{
}

/// Sessions that treemin manages never reach the list: after a session update, no live or
/// resurrectable session the plugin keeps has a managed name, and every session with another
/// name is kept.
pub proof fn lemma_managed_sessions_dropped(
    s: StateView,
    live: Seq<LiveView>,
    dead: Seq<ResurrectableSession>,
    managed: Seq<Seq<char>>,
)
    ensures
        ({
            let m = sessions_step(s, live, dead, managed).manager;
            &&& forall|i: int| 0 <= i < m.live.len() ==> !managed.contains(#[trigger] m.live[i].name)
            &&& forall|i: int| 0 <= i < m.resurrectable.len() ==> !managed.contains(#[trigger] m.resurrectable[i])
            &&& forall|j: int| 0 <= j < live.len() && !managed.contains(#[trigger] live[j].name) ==> m.live.contains(
                live[j],
            )
            &&& forall|j: int| 0 <= j < dead.len() && !managed.contains(#[trigger] dead[j].name@)
                ==> m.resurrectable.contains(dead[j].name@)
        }),
{
    let names = dead.map_values(|r: ResurrectableSession| r.name@);
    lemma_live_not_in(live, managed);
    lemma_names_not_in(names, managed);
    let m = sessions_step(s, live, dead, managed).manager;
    assert forall|j: int| 0 <= j < dead.len() && !managed.contains(#[trigger] dead[j].name@) implies m.resurrectable.contains(
        dead[j].name@,
    ) by {
        assert(names[j] == dead[j].name@);
        if managed.len() == 0 {
            assert(m.resurrectable[j] == names[j]);
        }
    }
    assert forall|j: int| 0 <= j < live.len() && !managed.contains(#[trigger] live[j].name) implies m.live.contains(
        live[j],
    ) by {
        if managed.len() == 0 {
            assert(m.live[j] == live[j]);
        }
    }
}

/// Ctrl+F on the list moves to the next filter (all, zoxide only, non-zoxide only, and round
/// again: three presses give the filter back), redraws, and brings the selection back onto
/// the new list.
pub proof fn lemma_ctrl_f_cycles_filters(s: StateView, key: KeyInput)
    requires
        s.status is Ready || s.status is Error,
        s.screen is Main,
        key.bare_key == BareKey::Char('f'),
        key.ctrl,
    ensures
        key_step(s, key).0.filter == next_filter(s.filter),
        key_step(s, key).0 == clamped(search_refreshed(StateView { filter: next_filter(s.filter), ..s })),
        key_step(s, key).1.len() == 0,
        key_step(s, key).2,
        next_filter(next_filter(next_filter(s.filter))) == s.filter,
        next_filter(s.filter) != s.filter,
{
}

/// The plugin is ready exactly when both the sessions and the directories are loaded.
pub proof fn lemma_ready_when_loaded(s: StateView)
    ensures
        (sync_status_spec(s) is Ready) <==> (s.sessions_loaded && s.directories_loaded),
{
}

fn live_item_exec(l: &LiveSession, dirs: &Vec<ZoxideDirectory>, sep: &str) -> (res: SessionItem)
    ensures
        res@ == live_item(l@, directory_views(dirs@), sep@),
{
    match matching_directory(l.name.as_str(), dirs, sep) {
        Some(k) => {
            assert(directory_views(dirs@)[k as int] == dirs@[k as int]@);
            SessionItem::ExistingSession {
                name: l.name.clone(),
                directory: dirs[k].directory.clone(),
                is_current: l.is_current_session,
                is_directory_session: true,
                zoxide_ranking: Some(dirs[k].ranking),
            }
        },
        None => {
            let directory = String::new();
            assert(directory@ =~= seq![]);
            SessionItem::ExistingSession {
                name: l.name.clone(),
                directory,
                is_current: l.is_current_session,
                is_directory_session: false,
                zoxide_ranking: None,
            }
        },
    }
}

fn age_text_exec(secs: u64, nanos: u32) -> (res: String)
    requires
        nanos < 1_000_000_000,
    ensures
        res@ == age_text(secs, nanos),
{
    let mut out = chars_of("created ");
    extend_chars(&mut out, &chars_of(format_age(secs, nanos).as_str()));
    extend_chars(&mut out, &chars_of(" ago"));
    string_of(&out)
}

fn dead_item_exec(r: &ResurrectableSession, dirs: &Vec<ZoxideDirectory>, sep: &str) -> (res: SessionItem)
    requires
        r.nanos < 1_000_000_000,
    ensures
        res@ == dead_item((r.name@, r.secs, r.nanos), directory_views(dirs@), sep@),
{
    let text = age_text_exec(r.secs, r.nanos);
    match matching_directory(r.name.as_str(), dirs, sep) {
        Some(k) => {
            assert(directory_views(dirs@)[k as int] == dirs@[k as int]@);
            SessionItem::ResurrectableSession {
                name: r.name.clone(),
                duration_text: text,
                is_directory_session: true,
                zoxide_ranking: Some(dirs[k].ranking),
            }
        },
        None => SessionItem::ResurrectableSession {
            name: r.name.clone(),
            duration_text: text,
            is_directory_session: false,
            zoxide_ranking: None,
        },
    }
}

fn passes_exec(f: ItemFilter, item: &SessionItem) -> (res: bool)
    ensures
        res == passes(f, item@),
{
    match f {
        ItemFilter::All => true,
        ItemFilter::ZoxideOnly => item.is_zoxide_item(),
        ItemFilter::NonZoxideOnly => !item.is_zoxide_item(),
    }
}

/// The first selectable entry, from `from` on.
pub open spec fn first_selectable_from(items: Seq<ItemView>, from: int) -> Option<nat>
    decreases items.len() - from,
{
    if from < 0 || from >= items.len() {
        None
    } else if selectable_item(items[from]) {
        Some(from as nat)
    } else {
        first_selectable_from(items, from + 1)
    }
}

/// The selected index after the list changed: kept inside the list, and moved to the first
/// selectable entry if it rests on one that cannot be selected.
pub open spec fn clamped_index(items: Seq<ItemView>, index: usize) -> usize {
    if items.len() == 0 {
        0
    } else {
        let i: usize = if index >= items.len() { (items.len() - 1) as usize } else { index };
        if !selectable_item(items[i as int]) {
            match first_selectable_from(items, 0) {
                Some(k) => k as usize,
                None => i,
            }
        } else {
            i
        }
    }
}

/// Steps from `current` (forward or back, wrapping around) to the first selectable entry;
/// `step` counts the steps taken.
pub open spec fn cyclic_item(items: Seq<ItemView>, current: nat, forward: bool, step: nat) -> Option<nat>
    decreases items.len() + 1 - step,
{
    if items.len() == 0 || step > items.len() {
        None
    } else {
        let n = items.len();
        let index: nat = if forward { (current + step) % n } else { ((current + n - step) % (n as int)) as nat };
        if selectable_item(items[index as int]) {
            Some(index)
        } else {
            cyclic_item(items, current, forward, step + 1)
        }
    }
}

fn first_selectable_exec(items: &Vec<SessionItem>) -> (res: Option<usize>)
    ensures
        res == match first_selectable_from(item_views(items@), 0) {
            Some(k) => Some(k as usize),
            None => None::<usize>,
        },
{
    let ghost iv = item_views(items@);
    let mut i: usize = 0;
    while i < items.len()
        invariant
            i <= items@.len(),
            iv == item_views(items@),
            first_selectable_from(iv, 0) == first_selectable_from(iv, i as int),
        decreases items@.len() - i,
    {
        assert(iv[i as int] == items@[i as int]@);
        if items[i].is_selectable() {
            return Some(i);
        }
        i = i + 1;
    }
    None
}

fn cyclic_item_exec(items: &Vec<SessionItem>, current: usize, forward: bool) -> (res: Option<usize>)
    ensures
        res == match cyclic_item(item_views(items@), current as nat, forward, 1) {
            Some(k) => Some(k as usize),
            None => None::<usize>,
        },
{
    let ghost s = item_views(items@);
    let n = items.len();
    if n == 0 {
        return None;
    }
    let c = current % n;
    let mut step: usize = 1;
    while step <= n
        invariant
            1 <= step <= n + 1,
            n == s.len(),
            s == item_views(items@),
            c == current % n,
            cyclic_item(s, current as nat, forward, 1) == cyclic_item(s, current as nat, forward, step as nat),
        decreases n + 1 - step,
    {
        let index = if forward {
            if step < n - c {
                c + step
            } else {
                step - (n - c)
            }
        } else if step <= c {
            c - step
        } else {
            c + (n - step)
        };
        proof {
            lemma_wrapped_index(current as int, c as int, step as int, n as int);
        }
        assert(s[index as int] == items@[index as int]@);
        if items[index].is_selectable() {
            return Some(index);
        }
        assert(cyclic_item(s, current as nat, forward, step as nat) == cyclic_item(
            s,
            current as nat,
            forward,
            (step + 1) as nat,
        ));
        if step == n {
            assert(cyclic_item(s, current as nat, forward, (step + 1) as nat) is None);
            return None;
        }
        step = step + 1;
    }
    None
}

impl State {
    /// The whole list, without a search: live sessions, resurrectable ones when shown, and
    /// directories, those the filter lets through, in list order.
    pub fn base_display_items(&self) -> (res: Vec<SessionItem>)
        ensures
            item_views(res@) == base_items(self@),
    {
        let ghost sv = self@;
        let ghost a = live_items(sv);
        let ghost b = dead_items(sv);
        let ghost c = dir_items(sv);
        let sep = self.config.session_separator.as_str();
        let mut all: Vec<SessionItem> = Vec::new();
        let live = self.session_manager.sessions();
        let mut i: usize = 0;
        assert(a.take(0) =~= item_views(all@));
        while i < live.len()
            invariant
                i <= live@.len(),
                sv == self@,
                a == live_items(sv),
                live_views(live@) == sv.manager.live,
                sep@ == sv.config.session_separator,
                item_views(all@) == a.take(i as int),
            decreases live@.len() - i,
        {
            let item = live_item_exec(&live[i], &self.directories, sep);
            assert(live_views(live@)[i as int] == live@[i as int]@);
            let ghost before = all@;
            all.push(item);
            assert(item_views(all@) =~= item_views(before).push(item@));
            assert(a.take(i + 1) =~= a.take(i as int).push(a[i as int]));
            i = i + 1;
        }
        assert(a.take(live@.len() as int) =~= a);
        assert(item_views(all@) =~= a + b.take(0));
        if self.config.show_resurrectable_sessions {
            let dead = self.session_manager.resurrectable_sessions();
            let mut j: usize = 0;
            while j < dead.len()
                invariant
                    j <= dead@.len(),
                    sv == self@,
                    sv.config.show_resurrectable_sessions,
                    a == live_items(sv),
                    b == dead_items(sv),
                    dead_views(dead@) == sv.manager.dead,
                    ages_valid(dead@),
                    sep@ == sv.config.session_separator,
                    item_views(all@) == a + b.take(j as int),
                decreases dead@.len() - j,
            {
                assert(dead@[j as int].nanos < 1_000_000_000);
                let item = dead_item_exec(&dead[j], &self.directories, sep);
                assert(dead_views(dead@)[j as int] == (dead@[j as int].name@, dead@[j as int].secs, dead@[j as int].nanos));
                let ghost before = all@;
                all.push(item);
                assert(item_views(all@) =~= item_views(before).push(item@));
                assert(b.take(j + 1) =~= b.take(j as int).push(b[j as int]));
                assert(a + b.take(j + 1) =~= (a + b.take(j as int)).push(b[j as int]));
                j = j + 1;
            }
            assert(b.take(dead@.len() as int) =~= b);
        } else {
            assert(b =~= seq![]);
        }
        assert(item_views(all@) =~= a + b + c.take(0));
        let mut k: usize = 0;
        while k < self.directories.len()
            invariant
                k <= self.directories@.len(),
                sv == self@,
                a == live_items(sv),
                b == dead_items(sv),
                c == dir_items(sv),
                item_views(all@) == a + b + c.take(k as int),
            decreases self.directories@.len() - k,
        {
            let d = &self.directories[k];
            let item = SessionItem::Directory {
                path: d.directory.clone(),
                session_name: d.session_name.clone(),
                zoxide_ranking: d.ranking,
            };
            let ghost before = all@;
            all.push(item);
            assert(item_views(all@) =~= item_views(before).push(item@));
            assert(c.take(k + 1) =~= c.take(k as int).push(c[k as int]));
            assert(a + b + c.take(k + 1) =~= (a + b + c.take(k as int)).push(c[k as int]));
            k = k + 1;
        }
        assert(c.take(self.directories@.len() as int) =~= c);
        let ghost l = listed(sv);
        assert(item_views(all@) == l);
        // The filter.
        let mut kept: Vec<SessionItem> = Vec::new();
        let mut m: usize = 0;
        assert(l.take(0) =~= Seq::<ItemView>::empty());
        assert(item_views(kept@) =~= Seq::<ItemView>::empty());
        while m < all.len()
            invariant
                m <= all@.len(),
                l == item_views(all@),
                sv == self@,
                item_views(kept@) == kept_items(l.take(m as int), sv.filter),
            decreases all@.len() - m,
        {
            assert(l.take(m + 1).drop_last() == l.take(m as int));
            assert(l.take(m + 1).last() == all@[m as int]@);
            if passes_exec(self.item_filter, &all[m]) {
                let ghost before = kept@;
                let item = all[m].duplicate();
                kept.push(item);
                assert(item_views(kept@) =~= item_views(before).push(item@));
            }
            m = m + 1;
        }
        assert(l.take(all@.len() as int) == l);
        sort_items(kept)
    }

    /// The list shown: the search results while a term is typed, else the whole list.
    pub fn display_items(&self) -> (res: Vec<SessionItem>)
        ensures
            item_views(res@) == display_items_spec(self@),
    {
        if self.search_engine.is_searching() {
            let results = self.search_engine.results();
            let ghost rv = self@.search.results;
            let mut out: Vec<SessionItem> = Vec::new();
            let mut i: usize = 0;
            while i < results.len()
                invariant
                    i <= results@.len(),
                    rv == crate::seshmin::search::result_views(results@),
                    item_views(out@) == rv.take(i as int).map_values(|r: crate::seshmin::search::ResultView| r.item),
                decreases results@.len() - i,
            {
                let item = results[i].item.duplicate();
                let ghost before = out@;
                out.push(item);
                assert(item_views(out@) =~= item_views(before).push(item@));
                assert(rv[i as int] == results@[i as int]@);
                assert(item_views(out@) =~= rv.take(i + 1).map_values(|r: crate::seshmin::search::ResultView| r.item));
                i = i + 1;
            }
            assert(rv.take(results@.len() as int) =~= rv);
            out
        } else {
            self.base_display_items()
        }
    }

    /// The index the list highlights.
    pub fn selected_index(&self) -> (res: usize)
        ensures
            res == if searching(self@) {
                match self@.search.selected {
                    Some(i) => i,
                    None => 0,
                }
            } else {
                self@.selected_index
            },
    {
        if self.search_engine.is_searching() {
            match self.search_engine.selected_index() {
                Some(i) => i,
                None => 0,
            }
        } else {
            self.selected_index
        }
    }

    pub fn search_term(&self) -> (res: &str)
        ensures
            res@ == self@.search.term,
    {
        self.search_engine.search_term()
    }

    pub fn directory_count(&self) -> (res: usize)
        ensures
            res == self@.directories.len(),
    {
        self.directories.len()
    }

    pub fn session_count(&self) -> (res: usize)
        ensures
            res == self@.manager.live.len(),
    {
        self.session_manager.sessions().len()
    }

    /// The selected entry, if one that can be selected is.
    pub fn selected_item(&self) -> (res: Option<SessionItem>)
        ensures
            opt_item(res) == selected_item_spec(self@),
    {
        if self.search_engine.is_searching() {
            self.search_engine.selected_item()
        } else {
            let items = self.base_display_items();
            if self.selected_index < items.len() && items[self.selected_index].is_selectable() {
                Some(items[self.selected_index].duplicate())
            } else {
                None
            }
        }
    }
}

fn switch_effects(session: String) -> (res: Vec<Effect>)
    ensures
        effect_views(res@) == switch_to(session@),
{
    let res = vec![Effect::SwitchSession { session }, Effect::HideSelf];
    assert(effect_views(res@) =~= switch_to(session@));
    res
}

fn one_effect(e: Effect) -> (res: Vec<Effect>)
    ensures
        effect_views(res@) == seq![e@],
{
    let ghost ev = e@;
    let res = vec![e];
    assert(effect_views(res@) =~= seq![ev]);
    res
}

fn launch_and_hide(e: Effect) -> (res: Vec<Effect>)
    ensures
        effect_views(res@) == seq![e@, EffectView::HideSelf],
{
    let ghost ev = e@;
    let res = vec![e, Effect::HideSelf];
    assert(effect_views(res@) =~= seq![ev, EffectView::HideSelf]);
    res
}

fn copy_layout(l: &LayoutRef) -> (res: LayoutRef)
    ensures
        res.name@ == l.name@,
        res.id == l.id,
{
    LayoutRef { name: l.name.clone(), id: l.id }
}

fn first_layout_named_exec(layouts: &Vec<LayoutRef>, name: &str) -> (res: Option<usize>)
    ensures
        match res {
            Some(i) => i < layouts@.len() && first_layout_named(layout_views(layouts@), name@, 0) == Some(i as nat),
            None => first_layout_named(layout_views(layouts@), name@, 0) is None,
        },
{
    let ghost lv = layout_views(layouts@);
    let mut i: usize = 0;
    while i < layouts.len()
        invariant
            i <= layouts@.len(),
            lv == layout_views(layouts@),
            first_layout_named(lv, name@, 0) == first_layout_named(lv, name@, i as int),
        decreases layouts@.len() - i,
    {
        assert(lv[i as int] == (layouts@[i as int].name@, layouts@[i as int].id));
        if str_eq(layouts[i].name.as_str(), name) {
            return Some(i);
        }
        i = i + 1;
    }
    None
}

fn launch_exec(
    session: String,
    cwd: String,
    layouts: &Vec<LayoutRef>,
    default_layout: &Option<String>,
    use_default_layout: bool,
) -> (res: Effect)
    ensures
        res@ == launch(session@, cwd@, layout_views(layouts@), opt_view(*default_layout), use_default_layout),
{
    if use_default_layout {
        match default_layout {
            Some(name) => match first_layout_named_exec(layouts, name.as_str()) {
                Some(i) => {
                    assert(layout_views(layouts@)[i as int] == (layouts@[i as int].name@, layouts@[i as int].id));
                    Effect::SwitchSessionWithLayout { session, layout: copy_layout(&layouts[i]), cwd }
                },
                None => Effect::SwitchSessionWithCwd { session, cwd },
            },
            None => Effect::SwitchSessionWithCwd { session, cwd },
        }
    } else {
        Effect::SwitchSessionWithCwd { session, cwd }
    }
}

impl State {
    /// The state before anything is loaded: the default configuration, loading, the list
    /// screen, no sessions, directories or search.
    pub fn default() -> (res: State)
        ensures
            res@.config.default_layout is None,
            res@.config.session_separator == "."@,
            !res@.config.show_resurrectable_sessions,
            res@.config.base_paths.len() == 0,
            res@.config.search_directories.len() == 0,
            res@.config.ignored_directories.len() == 0,
            res@.status == StatusView::Loading,
            res@.screen == ActiveScreen::Main,
            res@.draft is None,
            res@.manager.live.len() == 0,
            res@.manager.resurrectable.len() == 0,
            res@.manager.dead.len() == 0,
            res@.directories.len() == 0,
            res@.search == cleared_search(),
            res@.selected_index == 0,
            !res@.show_help,
            res@.filter == ItemFilter::All,
            !res@.sessions_loaded,
            !res@.directories_loaded,
    {
        State {
            config: Config::default(),
            status: Status::Loading,
            active_screen: ActiveScreen::Main,
            draft_session: None,
            session_manager: SessionManager::new(),
            directories: Vec::new(),
            search_engine: SearchEngine::new(),
            selected_index: 0,
            show_help: false,
            item_filter: ItemFilter::All,
            sessions_loaded: false,
            directories_loaded: false,
        }
    }

    /// Sets the status from the loading flags.
    pub fn sync_status(&mut self)
        ensures
            final(self)@ == synced(old(self)@),
    {
        self.status = if self.sessions_loaded && self.directories_loaded {
            Status::Ready
        } else if self.directories_loaded {
            Status::Busy(String::from_str("Loading sessions..."))
        } else if self.sessions_loaded {
            Status::Busy(String::from_str("Loading zoxide directories..."))
        } else {
            Status::Loading
        };
    }

    /// Runs a running search again against the current list.
    pub fn refresh_search(&mut self)
        ensures
            final(self)@ == search_refreshed(old(self)@),
    {
        if self.search_engine.is_searching() {
            let items = self.base_display_items();
            self.search_engine.refresh(&items);
        }
    }

    /// Keeps the selected index inside the list shown, on a selectable entry where there is
    /// one.
    pub fn clamp_selection(&mut self)
        ensures
            final(self)@ == clamped(old(self)@),
    {
        let items = self.display_items();
        let n = items.len();
        if n == 0 {
            self.selected_index = 0;
        } else if self.selected_index >= n {
            self.selected_index = n - 1;
        }
        if n > 0 && !items[self.selected_index].is_selectable() {
            if let Some(k) = first_selectable_exec(&items) {
                self.selected_index = k;
            }
        }
        proof {
            if n > 0 {
                let ghost i: usize = if old(self).selected_index >= n { (n - 1) as usize } else { old(self).selected_index };
                assert(item_views(items@)[i as int] == items@[i as int]@);
            }
        }
    }

    /// Moves the selection down (`forward`) or up to the next selectable entry, wrapping
    /// around.
    pub fn move_selection(&mut self, forward: bool)
        ensures
            final(self)@ == moved(old(self)@, forward),
    {
        if self.search_engine.is_searching() {
            if forward {
                self.search_engine.move_down();
            } else {
                self.search_engine.move_up();
            }
            return;
        }
        let items = self.base_display_items();
        if let Some(k) = cyclic_item_exec(&items, self.selected_index, forward) {
            self.selected_index = k;
        }
    }

    /// Starts the session of a directory, or switches to the resurrectable session of that
    /// name.
    pub fn create_directory_session(&mut self, path: String, session_name: String, use_default_layout: bool) -> (res: Vec<Effect>)
        ensures
            final(self)@ == directory_session_step(old(self)@, path@, session_name@, use_default_layout).0,
            effect_views(res@) == directory_session_step(old(self)@, path@, session_name@, use_default_layout).1,
    {
        if let Some(name) = self.session_manager.resurrectable_session_name(session_name.as_str()) {
            return switch_effects(name);
        }
        let next = self.session_manager.generate_incremented_name(
            session_name.as_str(),
            self.config.session_separator.as_str(),
            MAX_SESSION_NAME_LEN,
        );
        match validate_session_name(next.as_str()) {
            Err(message) => {
                self.status = Status::Error(message);
                Vec::new()
            },
            Ok(()) => {
                let layouts = self.session_manager.current_layouts();
                proof {
                    if current_from(self@.manager.live, 0) is None {
                        assert(layout_views(layouts@) =~= current_layouts(self@.manager));
                    }
                }
                let e = launch_exec(next, path, &layouts, &self.config.default_layout, use_default_layout);
                launch_and_hide(e)
            },
        }
    }

    /// Enter on the list.
    pub fn handle_enter_on_main(&mut self) -> (res: Vec<Effect>)
        ensures
            final(self)@ == enter_step(old(self)@).0,
            effect_views(res@) == enter_step(old(self)@).1,
    {
        match self.selected_item() {
            None => Vec::new(),
            Some(SessionItem::ExistingSession { name, .. }) => switch_effects(name),
            Some(SessionItem::ResurrectableSession { name, .. }) => switch_effects(name),
            Some(SessionItem::Directory { path, session_name, .. }) => {
                if self.config.default_layout.is_some() {
                    self.create_directory_session(path, session_name, true)
                } else {
                    let next = self.session_manager.generate_incremented_name(
                        session_name.as_str(),
                        self.config.session_separator.as_str(),
                        MAX_SESSION_NAME_LEN,
                    );
                    let layouts = self.session_manager.current_layouts();
                    proof {
                        if current_from(self@.manager.live, 0) is None {
                            assert(layout_views(layouts@) =~= current_layouts(self@.manager));
                        }
                    }
                    self.draft_session = Some(
                        DraftSession { directory: path, session_name: next, layouts, selected_layout_index: 0 },
                    );
                    self.active_screen = ActiveScreen::NewSession;
                    self.status = Status::Ready;
                    Vec::new()
                }
            },
        }
    }

    /// Ctrl+Enter on the list.
    pub fn quick_create_selected_item(&mut self) -> (res: Vec<Effect>)
        ensures
            final(self)@ == quick_create_step(old(self)@).0,
            effect_views(res@) == quick_create_step(old(self)@).1,
    {
        match self.selected_item() {
            None => {
                self.status = Status::Error(String::from_str("Select a directory or session first."));
                Vec::new()
            },
            Some(SessionItem::ExistingSession { name, .. }) => switch_effects(name),
            Some(SessionItem::ResurrectableSession { name, .. }) => switch_effects(name),
            Some(SessionItem::Directory { path, session_name, .. }) => self.create_directory_session(path, session_name, true),
        }
    }

    fn delete_target(&self) -> (res: Option<SessionItem>)
        ensures
            opt_item(res) == delete_target(self@),
    {
        if self.search_engine.is_searching() {
            self.search_engine.selected_item()
        } else {
            let items = self.base_display_items();
            if self.selected_index < items.len() {
                Some(items[self.selected_index].duplicate())
            } else {
                None
            }
        }
    }

    fn deletion_effect(&self, name: &str) -> (res: Effect)
        ensures
            res@ == deletion(self@.manager, name@),
    {
        match self.session_manager.delete_session(name) {
            SessionDeletion::DeleteDead(n) => Effect::DeleteDeadSession { session: n },
            SessionDeletion::Kill(n) => Effect::KillSession { session: n },
        }
    }

    /// Ctrl+D on the list.
    pub fn delete_selected_item(&mut self) -> (res: Vec<Effect>)
        ensures
            final(self)@ == delete_step(old(self)@).0,
            effect_views(res@) == delete_step(old(self)@).1,
    {
        match self.delete_target() {
            None => {
                self.status = Status::Error(String::from_str("Select a session first."));
                Vec::new()
            },
            Some(SessionItem::Directory { .. }) => {
                self.status = Status::Error(String::from_str("Select a live or resurrectable session to delete it."));
                Vec::new()
            },
            Some(SessionItem::ExistingSession { name, is_current, .. }) => {
                if is_current {
                    self.status = Status::Error(String::from_str("Cannot delete the current session from inside itself."));
                    Vec::new()
                } else {
                    let e = self.deletion_effect(name.as_str());
                    self.status = Status::Ready;
                    one_effect(e)
                }
            },
            Some(SessionItem::ResurrectableSession { name, .. }) => {
                let e = self.deletion_effect(name.as_str());
                self.status = Status::Ready;
                one_effect(e)
            },
        }
    }

    /// Enter (or Ctrl+Enter, with the default layout) in the form for a new session.
    pub fn create_draft_session(&mut self, use_default_layout: bool) -> (res: Vec<Effect>)
        ensures
            final(self)@ == draft_create_step(old(self)@, use_default_layout).0,
            effect_views(res@) == draft_create_step(old(self)@, use_default_layout).1,
    {
        let draft = match &self.draft_session {
            Some(d) => d.duplicate(),
            None => return Vec::new(),
        };
        match validate_session_name(draft.session_name.as_str()) {
            Err(message) => {
                self.status = Status::Error(message);
                return Vec::new();
            },
            Ok(()) => {},
        }
        let is_current = match self.session_manager.current_session_name() {
            Some(n) => str_eq(n.as_str(), draft.session_name.as_str()),
            None => false,
        };
        if is_current {
            self.status = Status::Error(String::from_str("Cannot create a session with the current session name."));
            return Vec::new();
        }
        let e = if use_default_layout {
            launch_exec(draft.session_name.clone(), draft.directory.clone(), &draft.layouts, &self.config.default_layout, true)
        } else if draft.selected_layout_index == 0 {
            Effect::SwitchSessionWithCwd { session: draft.session_name.clone(), cwd: draft.directory.clone() }
        } else if draft.selected_layout_index - 1 < draft.layouts.len() {
            let i = draft.selected_layout_index - 1;
            assert(layout_views(draft.layouts@)[i as int] == (draft.layouts@[i as int].name@, draft.layouts@[i as int].id));
            Effect::SwitchSessionWithLayout {
                session: draft.session_name.clone(),
                layout: copy_layout(&draft.layouts[i]),
                cwd: draft.directory.clone(),
            }
        } else {
            Effect::SwitchSessionWithCwd { session: draft.session_name.clone(), cwd: draft.directory.clone() }
        };
        launch_and_hide(e)
    }
}

impl State {
    fn handle_main_key(&mut self, key: KeyInput) -> (res: (bool, Vec<Effect>))
        ensures
            final(self)@ == main_key_step(old(self)@, key).0,
            effect_views(res.1@) == main_key_step(old(self)@, key).1,
            res.0 == main_key_step(old(self)@, key).2,
    {
        match key.bare_key {
            BareKey::Up => {
                if key.no_modifiers {
                    self.move_selection(false);
                    (true, Vec::new())
                } else {
                    (false, Vec::new())
                }
            },
            BareKey::Down => {
                if key.no_modifiers {
                    self.move_selection(true);
                    (true, Vec::new())
                } else {
                    (false, Vec::new())
                }
            },
            BareKey::Enter => {
                if key.no_modifiers {
                    (true, self.handle_enter_on_main())
                } else if key.ctrl {
                    (true, self.quick_create_selected_item())
                } else {
                    (false, Vec::new())
                }
            },
            BareKey::Backspace => {
                if key.no_modifiers {
                    let items = self.base_display_items();
                    self.search_engine.backspace(&items);
                    (true, Vec::new())
                } else {
                    (false, Vec::new())
                }
            },
            BareKey::Esc => {
                if key.no_modifiers {
                    if self.search_engine.is_searching() {
                        self.search_engine.clear();
                        self.clamp_selection();
                        (true, Vec::new())
                    } else {
                        (false, one_effect(Effect::HideSelf))
                    }
                } else {
                    (false, Vec::new())
                }
            },
            BareKey::Char(c) => {
                if c == 'd' && key.ctrl {
                    (true, self.delete_selected_item())
                } else if c == 'h' && key.ctrl {
                    self.show_help = !self.show_help;
                    (true, Vec::new())
                } else if c == 'f' && key.ctrl {
                    self.item_filter = self.item_filter.next();
                    self.refresh_search();
                    self.clamp_selection();
                    (true, Vec::new())
                } else if c == 'c' && key.ctrl {
                    (false, one_effect(Effect::HideSelf))
                } else if c == 'r' && key.ctrl {
                    self.directories_loaded = false;
                    self.status = Status::Busy(String::from_str("Refreshing zoxide directories..."));
                    (true, one_effect(Effect::QueryZoxide))
                } else if key.no_modifiers && !char_is_control(c) {
                    let items = self.base_display_items();
                    self.search_engine.add_char(c, &items);
                    (true, Vec::new())
                } else {
                    (false, Vec::new())
                }
            },
            BareKey::Other => (false, Vec::new()),
        }
    }

    fn handle_new_session_key(&mut self, key: KeyInput) -> (res: (bool, Vec<Effect>))
        ensures
            final(self)@ == new_session_key_step(old(self)@, key).0,
            effect_views(res.1@) == new_session_key_step(old(self)@, key).1,
            res.0 == new_session_key_step(old(self)@, key).2,
    {
        let mut draft = match &self.draft_session {
            Some(d) => d.duplicate(),
            None => {
                self.active_screen = ActiveScreen::Main;
                return (true, Vec::new());
            },
        };
        match key.bare_key {
            BareKey::Up => {
                if key.no_modifiers {
                    if draft.selected_layout_index == 0 {
                        draft.selected_layout_index = draft.layouts.len();
                    } else {
                        draft.selected_layout_index = draft.selected_layout_index - 1;
                    }
                    self.draft_session = Some(draft);
                    (true, Vec::new())
                } else {
                    (false, Vec::new())
                }
            },
            BareKey::Down => {
                if key.no_modifiers {
                    if draft.selected_layout_index >= draft.layouts.len() {
                        draft.selected_layout_index = 0;
                    } else {
                        draft.selected_layout_index = draft.selected_layout_index + 1;
                    }
                    self.draft_session = Some(draft);
                    (true, Vec::new())
                } else {
                    (false, Vec::new())
                }
            },
            BareKey::Backspace => {
                if key.no_modifiers {
                    let mut name = chars_of(draft.session_name.as_str());
                    if name.len() > 0 {
                        name.pop();
                    }
                    draft.session_name = string_of(&name);
                    self.draft_session = Some(draft);
                    (true, Vec::new())
                } else {
                    (false, Vec::new())
                }
            },
            BareKey::Esc => {
                if key.no_modifiers {
                    self.active_screen = ActiveScreen::Main;
                    self.draft_session = None;
                    (true, Vec::new())
                } else {
                    (false, Vec::new())
                }
            },
            BareKey::Enter => {
                if key.no_modifiers {
                    (true, self.create_draft_session(false))
                } else if key.ctrl {
                    (true, self.create_draft_session(true))
                } else {
                    (false, Vec::new())
                }
            },
            BareKey::Char(c) => {
                if key.no_modifiers && !char_is_control(c) {
                    let mut name = chars_of(draft.session_name.as_str());
                    name.push(c);
                    draft.session_name = string_of(&name);
                    self.draft_session = Some(draft);
                    (true, Vec::new())
                } else {
                    (false, Vec::new())
                }
            },
            BareKey::Other => (false, Vec::new()),
        }
    }

    /// A key.  The flag says whether the plugin should be drawn again.
    pub fn handle_key(&mut self, key: KeyInput) -> (res: (bool, Vec<Effect>))
        ensures
            final(self)@ == key_step(old(self)@, key).0,
            effect_views(res.1@) == key_step(old(self)@, key).1,
            res.0 == key_step(old(self)@, key).2,
    {
        let is_error = match &self.status {
            Status::Error(_) => true,
            _ => false,
        };
        let is_ready = match &self.status {
            Status::Ready => true,
            _ => false,
        };
        let is_esc = match key.bare_key {
            BareKey::Esc => true,
            _ => false,
        };
        if is_error && is_esc && key.no_modifiers {
            self.sync_status();
            return (true, Vec::new());
        }
        if !(is_ready || is_error) {
            return (false, Vec::new());
        }
        match self.active_screen {
            ActiveScreen::Main => self.handle_main_key(key),
            ActiveScreen::NewSession => self.handle_new_session_key(key),
        }
    }

    /// Loads the plugin with the configuration given in the KDL layout.
    pub fn load(&mut self, configuration: BTreeMap<String, String>)
        ensures
            final(self)@ == loaded_state(old(self)@, configuration.deep_view()),
    {
        self.config = Config::from_kdl(configuration);
        self.status = Status::Loading;
        self.active_screen = ActiveScreen::Main;
        self.draft_session = None;
        self.item_filter = ItemFilter::All;
        self.sessions_loaded = false;
        self.directories_loaded = false;
    }

    /// The answer to the permission request.
    pub fn permission_result(&mut self, granted: bool) -> (res: Vec<Effect>)
        ensures
            final(self)@ == permission_step(old(self)@, granted).0,
            effect_views(res@) == permission_step(old(self)@, granted).1,
    {
        if granted {
            self.status = Status::Busy(String::from_str("Loading zoxide directories..."));
            one_effect(Effect::QueryZoxide)
        } else {
            self.status = Status::Error(
                String::from_str("Permission request was denied. Reload the plugin and grant access."),
            );
            Vec::new()
        }
    }

    /// A command finished.  Only the zoxide query (marked in `context`) matters: on success
    /// its lines are handed back, as score text and path, for the scores to be read and the
    /// result given to [`State::load_directories`]; on failure the status says why.
    pub fn handle_run_command_result(
        &mut self,
        exit_code: Option<i32>,
        stdout: &Vec<u8>,
        stderr: &Vec<u8>,
        context: &BTreeMap<String, String>,
    ) -> (res: Option<Vec<(String, String)>>)
        ensures
            !context.deep_view().contains_key(ZOXIDE_QUERY_CONTEXT@) ==> final(self)@ == old(self)@ && res is None,
            context.deep_view().contains_key(ZOXIDE_QUERY_CONTEXT@) && exit_code == Some(0i32) ==> final(self)@
                == old(self)@ && res is Some && pair_views(res->0@) == zoxide_lines_spec(lines(lossy_text(stdout@))),
            context.deep_view().contains_key(ZOXIDE_QUERY_CONTEXT@) && exit_code != Some(0i32) ==> final(self)@
                == with_error(old(self)@, zoxide_failure(stderr@)) && res is None,
    {
        if lookup(context, ZOXIDE_QUERY_CONTEXT).is_none() {
            return None;
        }
        if exit_code == Some(0i32) {
            let output = utf8_lossy(stdout.as_slice());
            Some(zoxide_lines(output.as_str()))
        } else {
            let detail = trim_exec(&chars_of(utf8_lossy(stderr.as_slice()).as_str()));
            let mut message = chars_of("Failed to run zoxide. ");
            if detail.len() == 0 {
                extend_chars(&mut message, &chars_of("Is zoxide installed and on PATH?"));
            } else {
                extend_chars(&mut message, &detail);
            }
            self.status = Status::Error(string_of(&message));
            None
        }
    }

    /// The zoxide listing, read: the rank and path of each line in order.  The directories
    /// are replaced and the list brought up to date.  Where naming a directory would cut a
    /// name inside a character nothing changes and the result is `false`.
    pub fn load_directories(&mut self, entries: &Vec<(u64, String)>) -> (res: bool)
        ensures
            res == naming_defined(entry_views(entries@), old(self)@.config),
            res ==> final(self)@ == directories_step(old(self)@, entry_views(entries@)),
            !res ==> final(self)@ == old(self)@,
    {
        match try_parse_directories(entries, &self.config) {
            None => false,
            Some(directories) => {
                self.directories = directories;
                self.directories_loaded = true;
                self.refresh_search();
                self.clamp_selection();
                self.sync_status();
                true
            },
        }
    }

    /// Drops the sessions that another plugin manages (those named in `managed`).
    pub fn filter_managed_sessions(&mut self, managed: &Vec<String>)
        ensures
            final(self)@ == (StateView {
                manager: unmanaged(old(self)@.manager, managed@.map_values(|m: String| m@)),
                ..old(self)@
            }),
    {
        if managed.len() == 0 {
            return;
        }
        self.session_manager.retain_sessions(managed);
        self.session_manager.retain_resurrectable_sessions(managed);
    }

    /// Zellij reported its sessions: `managed` names those another plugin manages, which
    /// the list leaves out.
    pub fn session_update(&mut self, sessions: Vec<LiveSession>, resurrectable: Vec<ResurrectableSession>, managed: &Vec<String>)
        requires
            ages_valid(resurrectable@),
        ensures
            final(self)@ == sessions_step(old(self)@, live_views(sessions@), resurrectable@, managed@.map_values(|m: String| m@)),
    {
        self.session_manager.update_sessions(sessions);
        self.session_manager.update_resurrectable_sessions(resurrectable);
        self.filter_managed_sessions(managed);
        self.sessions_loaded = true;
        self.refresh_search();
        self.clamp_selection();
        self.sync_status();
    }
}

} // verus!
