//! The session list of treemin: one entry per known worktree, matched against the live
//! Zellij sessions, the current worktree first, and the selection kept off the current entry.
use vstd::prelude::*;

use crate::paths::same_path_spec;
use crate::paths::same_path;
use crate::text::{lemma_lex_lt_irreflexive, lemma_lex_lt_transitive, lex_less, lex_lt, str_eq};
use crate::treemin::commands::{LocationView, WorktreeLocation};
use crate::treemin::config::{opt_view, Config};
use crate::treemin::naming::{session_name, session_name_candidates, session_name_candidates_spec, session_name_spec};

verus! {

/// A worktree with the session that belongs to it.
#[derive(Clone, Debug, PartialEq, Eq)]
pub struct WorktreeSessionEntry {
    pub branch: String,
    pub path: Option<String>,
    pub session_name: String,
    pub live_session_name: Option<String>,
    pub has_live_session: bool,
    pub is_current: bool,
}

/// A [`WorktreeSessionEntry`] with its texts as character sequences.
pub struct EntryView {
    pub branch: Seq<char>,
    pub path: Option<Seq<char>>,
    pub session_name: Seq<char>,
    pub live_session_name: Option<Seq<char>>,
    pub has_live_session: bool,
    pub is_current: bool,
}

impl View for WorktreeSessionEntry {
    type V = EntryView;

    open spec fn view(&self) -> EntryView {
        EntryView {
            branch: self.branch@,
            path: opt_view(self.path),
            session_name: self.session_name@,
            live_session_name: opt_view(self.live_session_name),
            has_live_session: self.has_live_session,
            is_current: self.is_current,
        }
    }
}

pub open spec fn entry_views(v: Seq<WorktreeSessionEntry>) -> Seq<EntryView> {
    v.map_values(|e: WorktreeSessionEntry| e@)
}

pub open spec fn location_views(v: Seq<WorktreeLocation>) -> Seq<LocationView> {
    v.map_values(|l: WorktreeLocation| l@)
}

pub open spec fn string_views(v: Seq<String>) -> Seq<Seq<char>> {
    v.map_values(|s: String| s@)
}

// ---------------------------------------------------------------------------
// Matching live sessions
// ---------------------------------------------------------------------------
/// The first live session, in the order Zellij lists them, that is one of the candidates.
pub open spec fn first_match(live: Seq<Seq<char>>, candidates: Seq<Seq<char>>) -> Option<Seq<char>>
    decreases live.len(),
{
    if live.len() == 0 {
        None
    } else if candidates.contains(live[0]) {
        Some(live[0])
    } else {
        first_match(live.drop_first(), candidates)
    }
}

/// The live session of a worktree: the first live session whose name is a candidate name
/// of the worktree.
pub open spec fn matching_live_spec(
    repo: Option<Seq<char>>,
    branch: Seq<char>,
    prefix: Option<Seq<char>>,
    siblings: Seq<Seq<char>>,
    is_main: bool,
    live: Seq<Seq<char>>,
) -> Option<Seq<char>> {
    first_match(live, session_name_candidates_spec(repo, branch, prefix, siblings, is_main))
}

pub(crate) fn contains_string(v: &Vec<String>, x: &str) -> (res: bool)
    ensures
        res == string_views(v@).contains(x@),
{
    let mut i: usize = 0;
    while i < v.len()
        invariant
            i <= v@.len(),
            forall|k: int| 0 <= k < i ==> v@[k]@ != x@,
        decreases v@.len() - i,
    {
        if str_eq(v[i].as_str(), x) {
            assert(string_views(v@)[i as int] == x@);
            return true;
        }
        i = i + 1;
    }
    assert forall|k: int| 0 <= k < v@.len() implies string_views(v@)[k] != x@ by {
        assert(string_views(v@)[k] == v@[k]@);
    }
    false
}

/// The first live session that is one of the candidates.
fn first_live_match(live: &[String], candidates: &Vec<String>) -> (res: Option<String>)
    ensures
        opt_view(res) == first_match(live@.map_values(|s: String| s@), string_views(candidates@)),
{
    let ghost cv = string_views(candidates@);
    let ghost lv = live@.map_values(|s: String| s@);
    let mut i: usize = 0;
    assert(lv.skip(0) == lv);
    while i < live.len()
        invariant
            i <= live@.len(),
            lv == live@.map_values(|s: String| s@),
            cv == string_views(candidates@),
            first_match(lv, cv) == first_match(lv.skip(i as int), cv),
        decreases live@.len() - i,
    {
        assert(lv.skip(i as int)[0] == live@[i as int]@);
        assert(lv.skip(i as int).drop_first() == lv.skip(i + 1));
        if contains_string(candidates, live[i].as_str()) {
            return Some(live[i].clone());
        }
        i = i + 1;
    }
    assert(lv.skip(i as int) =~= Seq::<Seq<char>>::empty());
    None
}

/// The live session that belongs to a worktree, if any.
pub fn matching_worktree_live_session_name(
    repo_name: Option<&str>,
    branch: &str,
    config: &Config,
    sibling_branches: &[String],
    is_main_worktree: bool,
    live_session_names: &[String],
) -> (res: Option<String>)
    ensures
        opt_view(res) == matching_live_spec(
            match repo_name { Some(r) => Some(r@), None => None },
            branch@,
            opt_view(config.session_prefix),
            sibling_branches@.map_values(|b: String| b@),
            is_main_worktree,
            live_session_names@.map_values(|s: String| s@),
        ),
{
    let candidates = session_name_candidates(repo_name, branch, config, sibling_branches, is_main_worktree);
    assert(string_views(candidates@) =~= candidates@.map_values(|s: String| s@));
    first_live_match(live_session_names, &candidates)
}

// ---------------------------------------------------------------------------
// Building the list
// ---------------------------------------------------------------------------
/// Whether entry `a` is listed before entry `b`: the current worktree first, then by branch.
pub open spec fn entry_before(a: EntryView, b: EntryView) -> bool {
    (a.is_current && !b.is_current) || (a.is_current == b.is_current && lex_lt(a.branch, b.branch))
}

/// Inserts `x` before the first entry that it is listed before (a stable insertion).
pub open spec fn insert_entry(s: Seq<EntryView>, x: EntryView) -> Seq<EntryView>
    decreases s.len(),
{
    if s.len() == 0 {
        seq![x]
    } else if entry_before(x, s[0]) {
        seq![x] + s
    } else {
        seq![s[0]] + insert_entry(s.drop_first(), x)
    }
}

/// The entries in listing order, entries that compare equal keeping their order (a stable
/// sort, as `sort_by` is).
pub open spec fn sort_entries(s: Seq<EntryView>) -> Seq<EntryView>
    decreases s.len(),
{
    if s.len() == 0 {
        seq![]
    } else {
        insert_entry(sort_entries(s.drop_last()), s.last())
    }
}

/// Whether a worktree path is the repository root.
pub open spec fn is_main_path(repo_root: Option<Seq<char>>, path: Seq<char>) -> bool {
    match repo_root {
        Some(r) => same_path_spec(r, path),
        None => false,
    }
}

/// The entry of one worktree.
pub open spec fn entry_for(
    repo_root: Option<Seq<char>>,
    repo_name: Seq<char>,
    prefix: Option<Seq<char>>,
    siblings: Seq<Seq<char>>,
    live: Seq<Seq<char>>,
    w: LocationView,
) -> EntryView {
    let is_main = is_main_path(repo_root, w.path);
    let matched = matching_live_spec(Some(repo_name), w.branch, prefix, siblings, is_main, live);
    EntryView {
        branch: w.branch,
        path: Some(w.path),
        session_name: session_name_spec(Some(repo_name), w.branch, siblings, is_main),
        live_session_name: matched,
        has_live_session: matched is Some,
        is_current: w.is_current,
    }
}

/// The branches of the known worktrees.
pub open spec fn branches_of(known: Seq<LocationView>) -> Seq<Seq<char>> {
    known.map_values(|w: LocationView| w.branch)
}

/// The session list: nothing before the repository is named; otherwise one entry per known
/// worktree, in listing order.
pub open spec fn worktree_sessions_spec(
    repo_root: Option<Seq<char>>,
    repo_name: Option<Seq<char>>,
    prefix: Option<Seq<char>>,
    known: Seq<LocationView>,
    live: Seq<Seq<char>>,
) -> Seq<EntryView> {
    match repo_name {
        None => seq![],
        Some(name) => sort_entries(
            known.map_values(|w: LocationView| entry_for(repo_root, name, prefix, branches_of(known), live, w)),
        ),
    }
}

pub(crate) fn branches(known: &[WorktreeLocation]) -> (res: Vec<String>)
    ensures
        res@.map_values(|b: String| b@) == branches_of(location_views(known@)),
{
    let mut res: Vec<String> = Vec::new();
    let mut i: usize = 0;
    while i < known.len()
        invariant
            i <= known@.len(),
            res@.len() == i,
            forall|k: int| 0 <= k < i ==> #[trigger] res@[k]@ == known@[k].branch@,
        decreases known@.len() - i,
    {
        res.push(known[i].branch.clone());
        i = i + 1;
    }
    assert(res@.map_values(|b: String| b@) =~= branches_of(location_views(known@)));
    res
}

pub(crate) fn clone_entry(e: &WorktreeSessionEntry) -> (res: WorktreeSessionEntry)
    ensures
        res@ == e@,
{
    WorktreeSessionEntry {
        branch: e.branch.clone(),
        path: e.path.clone(),
        session_name: e.session_name.clone(),
        live_session_name: e.live_session_name.clone(),
        has_live_session: e.has_live_session,
        is_current: e.is_current,
    }
}

fn entry_is_before(a: &WorktreeSessionEntry, b: &WorktreeSessionEntry) -> (res: bool)
    ensures
        res == entry_before(a@, b@),
{
    (a.is_current && !b.is_current) || (a.is_current == b.is_current && lex_less(
        &crate::text::chars_of(a.branch.as_str()),
        &crate::text::chars_of(b.branch.as_str()),
    ))
}

fn insert_entry_exec(sorted: &mut Vec<WorktreeSessionEntry>, x: WorktreeSessionEntry)
    ensures
        entry_views(final(sorted)@) == insert_entry(entry_views(old(sorted)@), x@),
{
    let ghost s = entry_views(sorted@);
    let mut i: usize = 0;
    assert(s.skip(0) == s);
    assert(s.take(0) + insert_entry(s, x@) =~= insert_entry(s, x@));
    while i < sorted.len() && !entry_is_before(&x, &sorted[i])
        invariant
            i <= sorted@.len(),
            s == entry_views(sorted@),
            insert_entry(s, x@) == s.take(i as int) + insert_entry(s.skip(i as int), x@),
        decreases sorted@.len() - i,
    {
        let ghost t = s.skip(i as int);
        assert(t[0] == sorted@[i as int]@);
        assert(t.drop_first() == s.skip(i + 1));
        assert(s.take(i + 1) == s.take(i as int) + seq![t[0]]);
        i = i + 1;
    }
    let ghost xv = x@;
    proof {
        if i < s.len() {
            assert(s.skip(i as int)[0] == sorted@[i as int]@);
        } else {
            assert(s.skip(i as int) =~= Seq::<EntryView>::empty());
        }
        assert(s.take(i as int) + (seq![xv] + s.skip(i as int)) =~= s.insert(i as int, xv));
    }
    sorted.insert(i, x);
    assert(entry_views(sorted@) =~= s.insert(i as int, xv));
}

/// The session list for the known worktrees, matched against the live sessions.
#[verifier::rlimit(40)]
pub fn build_worktree_sessions(
    repo_root: Option<&str>,
    repo_name: Option<&str>,
    config: &Config,
    known_worktrees: &[WorktreeLocation],
    live_session_names: &[String],
) -> (res: Vec<WorktreeSessionEntry>)
    ensures
        entry_views(res@) == worktree_sessions_spec(
            match repo_root { Some(r) => Some(r@), None => None },
            match repo_name { Some(r) => Some(r@), None => None },
            opt_view(config.session_prefix),
            location_views(known_worktrees@),
            live_session_names@.map_values(|s: String| s@),
        ),
{
    let name = match repo_name {
        None => {
            return Vec::new();
        },
        Some(n) => n,
    };
    let ghost root_v: Option<Seq<char>> = match repo_root { Some(r) => Some(r@), None => None };
    let ghost known_v = location_views(known_worktrees@);
    let ghost live_v = live_session_names@.map_values(|s: String| s@);
    let ghost prefix_v = opt_view(config.session_prefix);
    let ghost mapped = known_v.map_values(|w: LocationView| entry_for(root_v, name@, prefix_v, branches_of(known_v), live_v, w));
    let siblings = branches(known_worktrees);
    let mut sessions: Vec<WorktreeSessionEntry> = Vec::new();
    let mut i: usize = 0;
    assert(mapped.take(0) =~= Seq::<EntryView>::empty());
    assert(entry_views(sessions@) =~= Seq::<EntryView>::empty());
    while i < known_worktrees.len()
        invariant
            i <= known_worktrees@.len(),
            known_v == location_views(known_worktrees@),
            mapped == known_v.map_values(|w: LocationView| entry_for(root_v, name@, prefix_v, branches_of(known_v), live_v, w)),
            siblings@.map_values(|b: String| b@) == branches_of(known_v),
            live_v == live_session_names@.map_values(|s: String| s@),
            prefix_v == opt_view(config.session_prefix),
            root_v == match repo_root { Some(r) => Some(r@), None => None },
            entry_views(sessions@) == sort_entries(mapped.take(i as int)),
        decreases known_worktrees@.len() - i,
    {
        let w = &known_worktrees[i];
        let is_main = match repo_root {
            Some(r) => same_path(r, w.path.as_str()),
            None => false,
        };
        let live = matching_worktree_live_session_name(
            Some(name),
            w.branch.as_str(),
            config,
            &siblings,
            is_main,
            live_session_names,
        );
        let session = session_name(Some(name), w.branch.as_str(), &siblings, is_main);
        let has_live = live.is_some();
        let entry = WorktreeSessionEntry {
            branch: w.branch.clone(),
            path: Some(w.path.clone()),
            session_name: session,
            live_session_name: live,
            has_live_session: has_live,
            is_current: w.is_current,
        };
        assert(entry@ == mapped[i as int]);
        assert(mapped.take(i + 1).drop_last() == mapped.take(i as int));
        assert(mapped.take(i + 1).last() == mapped[i as int]);
        insert_entry_exec(&mut sessions, entry);
        i = i + 1;
    }
    assert(mapped.take(known_worktrees@.len() as int) == mapped);
    sessions
}

// ---------------------------------------------------------------------------
// Selection
// ---------------------------------------------------------------------------
/// The name by which the selection follows an entry across rebuilds: its live session, or
/// else its generated session name.
pub open spec fn selection_key(e: EntryView) -> Seq<char> {
    match e.live_session_name {
        Some(l) => l,
        None => e.session_name,
    }
}

/// The first entry at or after `from` that is not the current one.
pub open spec fn first_selectable_from(s: Seq<EntryView>, from: int) -> Option<nat>
    decreases s.len() - from,
{
    if from < 0 || from >= s.len() {
        None
    } else if !s[from].is_current {
        Some(from as nat)
    } else {
        first_selectable_from(s, from + 1)
    }
}

/// The last entry before `before` that is not the current one.
pub open spec fn last_selectable_before(s: Seq<EntryView>, before: int) -> Option<nat>
    decreases before,
{
    if before <= 0 || before > s.len() {
        None
    } else if !s[before - 1].is_current {
        Some((before - 1) as nat)
    } else {
        last_selectable_before(s, before - 1)
    }
}

/// The first entry, not the current one, whose selection key is `key`.
pub open spec fn keyed_from(s: Seq<EntryView>, key: Seq<char>, from: int) -> Option<nat>
    decreases s.len() - from,
{
    if from < 0 || from >= s.len() {
        None
    } else if !s[from].is_current && selection_key(s[from]) == key {
        Some(from as nat)
    } else {
        keyed_from(s, key, from + 1)
    }
}

/// The selection after a rebuild: the entry that was selected before, else the first entry
/// that is not the current one.
pub open spec fn selection_for(s: Seq<EntryView>, previous: Option<Seq<char>>) -> Option<nat> {
    if s.len() == 0 {
        None
    } else {
        match previous {
            Some(k) => match keyed_from(s, k, 0) {
                Some(i) => Some(i),
                None => first_selectable_from(s, 0),
            },
            None => first_selectable_from(s, 0),
        }
    }
}

/// The selection one step up: the nearest selectable entry above, else the first one.
pub open spec fn previous_selection(s: Seq<EntryView>, current: nat) -> Option<nat> {
    match last_selectable_before(s, if current <= s.len() { current as int } else { s.len() as int }) {
        Some(i) => Some(i),
        None => first_selectable_from(s, 0),
    }
}

/// The selection one step down: the nearest selectable entry below, else the first one.
pub open spec fn next_selection(s: Seq<EntryView>, current: nat) -> Option<nat> {
    match first_selectable_from(s, current as int + 1) {
        Some(i) => Some(i),
        None => first_selectable_from(s, 0),
    }
}

/// Whether no entry is listed before an entry ahead of it.
pub open spec fn entries_sorted(s: Seq<EntryView>) -> bool {
    forall|i: int, j: int| 0 <= i < j < s.len() ==> !entry_before(#[trigger] s[j], #[trigger] s[i])
}

proof fn lemma_entry_before_order(a: EntryView, b: EntryView, c: EntryView)
    ensures
        !entry_before(a, a),
        entry_before(a, b) && entry_before(b, c) ==> entry_before(a, c),
{
    lemma_lex_lt_irreflexive(a.branch);
    if entry_before(a, b) && entry_before(b, c) && a.is_current == c.is_current {
        lemma_lex_lt_transitive(a.branch, b.branch, c.branch);
    }
}

/// Inserting puts `x` somewhere into the list and keeps it sorted.
proof fn lemma_insert_entry(s: Seq<EntryView>, x: EntryView)
    requires
        entries_sorted(s),
    ensures
        entries_sorted(insert_entry(s, x)),
        exists|k: int| 0 <= k <= s.len() && insert_entry(s, x) == s.insert(k, x),
    decreases s.len(),
{
    if s.len() == 0 {
        assert(insert_entry(s, x) =~= s.insert(0, x));
    } else if entry_before(x, s[0]) {
        let r = insert_entry(s, x);
        assert(r =~= s.insert(0, x));
        assert forall|i: int, j: int| 0 <= i < j < r.len() implies !entry_before(#[trigger] r[j], #[trigger] r[i]) by {
            if i == 0 {
                lemma_entry_before_order(r[j], x, s[0]);
                if j > 1 {
                    assert(!entry_before(s[j - 1], s[0]));
                }
            }
        }
    } else {
        let rest = s.drop_first();
        lemma_insert_entry(rest, x);
        let k = choose|k: int| 0 <= k <= rest.len() && insert_entry(rest, x) == rest.insert(k, x);
        let r = insert_entry(s, x);
        assert(r =~= s.insert(k + 1, x));
        assert forall|i: int, j: int| 0 <= i < j < r.len() implies !entry_before(#[trigger] r[j], #[trigger] r[i]) by {
            if i == 0 {
                if j == k + 1 {
                } else if j < k + 1 {
                    assert(r[j] == s[j]);
                } else {
                    assert(r[j] == s[j - 1]);
                }
            } else {
                assert(r[i] == insert_entry(rest, x)[i - 1]);
                assert(r[j] == insert_entry(rest, x)[j - 1]);
            }
        }
    }
}

/// [`sort_entries`] sorts: the result is in listing order and holds the same entries.
proof fn lemma_sort_entries(s: Seq<EntryView>)
    ensures
        entries_sorted(sort_entries(s)),
        sort_entries(s).to_multiset() == s.to_multiset(),
    decreases s.len(),
{
    broadcast use vstd::seq_lib::group_to_multiset_ensures;
    if s.len() > 0 {
        lemma_sort_entries(s.drop_last());
        let t = sort_entries(s.drop_last());
        lemma_insert_entry(t, s.last());
        let k = choose|k: int| 0 <= k <= t.len() && insert_entry(t, s.last()) == t.insert(k, s.last());
        assert(s == s.drop_last().push(s.last()));
    }
}

/// The session list shows exactly the repository's known worktrees, one entry each, the
/// current one first and the others by branch; an entry's live session is one of the live
/// sessions.  Before the repository is named, the list is empty.
pub proof fn lemma_session_list_shows_worktrees(
    repo_root: Option<Seq<char>>,
    repo_name: Option<Seq<char>>,
    prefix: Option<Seq<char>>,
    known: Seq<LocationView>,
    live: Seq<Seq<char>>,
)
    ensures
        repo_name is None ==> worktree_sessions_spec(repo_root, repo_name, prefix, known, live).len() == 0,
        repo_name matches Some(name) ==> worktree_sessions_spec(repo_root, repo_name, prefix, known, live).to_multiset()
            == known.map_values(|w: LocationView| entry_for(repo_root, name, prefix, branches_of(known), live, w)).to_multiset(),
        entries_sorted(worktree_sessions_spec(repo_root, repo_name, prefix, known, live)),
        forall|i: int| 0 <= i < worktree_sessions_spec(repo_root, repo_name, prefix, known, live).len()
            ==> ((#[trigger] worktree_sessions_spec(repo_root, repo_name, prefix, known, live)[i]).live_session_name
            matches Some(l) ==> live.contains(l)),
{
    broadcast use vstd::seq_lib::group_to_multiset_ensures;
    if let Some(name) = repo_name {
        let entries = known.map_values(|w: LocationView| entry_for(repo_root, name, prefix, branches_of(known), live, w));
        lemma_sort_entries(entries);
        let list = worktree_sessions_spec(repo_root, repo_name, prefix, known, live);
        assert forall|i: int| 0 <= i < list.len() implies ((#[trigger] list[i]).live_session_name matches Some(l)
            ==> live.contains(l)) by {
            assert(list.to_multiset().count(list[i]) > 0);
            assert(entries.contains(list[i]));
            let j = choose|j: int| 0 <= j < entries.len() && entries[j] == list[i];
            let w = known[j];
            let cands = session_name_candidates_spec(
                Some(name),
                w.branch,
                prefix,
                branches_of(known),
                is_main_path(repo_root, w.path),
            );
            lemma_first_match_live(live, cands);
        }
    }
}

proof fn lemma_first_match_live(live: Seq<Seq<char>>, candidates: Seq<Seq<char>>)
    ensures
        first_match(live, candidates) matches Some(l) ==> live.contains(l),
    decreases live.len(),
{
    if live.len() > 0 && !candidates.contains(live[0]) {
        lemma_first_match_live(live.drop_first(), candidates);
        if let Some(l) = first_match(live.drop_first(), candidates) {
            let k = choose|k: int| 0 <= k < live.drop_first().len() && live.drop_first()[k] == l;
            assert(live[k + 1] == l);
        }
    } else if live.len() > 0 {
        assert(live[0] == live[0]);
    }
}

/// What the selection may rest on: an entry of the list that is not the current one.
pub open spec fn selectable(s: Seq<EntryView>, i: Option<nat>) -> bool {
    match i {
        Some(k) => k < s.len() && !s[k as int].is_current,
        None => true,
    }
}

/// The first selectable entry from `from` on is selectable and not before `from`.
pub proof fn lemma_first_selectable(s: Seq<EntryView>, from: int)
    ensures
        selectable(s, first_selectable_from(s, from)),
        first_selectable_from(s, from) matches Some(k) ==> from <= k,
    decreases s.len() - from,
{
    if from >= 0 && from < s.len() && s[from].is_current {
        lemma_first_selectable(s, from + 1);
    }
}

/// The last selectable entry before `before` is selectable.
pub proof fn lemma_last_selectable(s: Seq<EntryView>, before: int)
    ensures
        selectable(s, last_selectable_before(s, before)),
    decreases before,
{
    if before > 0 && before <= s.len() && s[before - 1].is_current {
        lemma_last_selectable(s, before - 1);
    }
}

/// The entry found by its key is selectable.
pub proof fn lemma_keyed(s: Seq<EntryView>, key: Seq<char>, from: int)
    ensures
        selectable(s, keyed_from(s, key, from)),
    decreases s.len() - from,
{
    if from >= 0 && from < s.len() && !(!s[from].is_current && selection_key(s[from]) == key) {
        lemma_keyed(s, key, from + 1);
    }
}

/// The key of an entry.
pub fn session_selection_key(entry: &WorktreeSessionEntry) -> (res: String)
    ensures
        res@ == selection_key(entry@),
{
    match &entry.live_session_name {
        Some(l) => l.clone(),
        None => entry.session_name.clone(),
    }
}

/// The first entry at or after `from` that is not the current one.
fn first_selectable_from_exec(sessions: &[WorktreeSessionEntry], from: usize) -> (res: Option<usize>)
    ensures
        res == match first_selectable_from(entry_views(sessions@), from as int) {
            Some(k) => Some(k as usize),
            None => None::<usize>,
        },
{
    let ghost s = entry_views(sessions@);
    let mut i: usize = from;
    while i < sessions.len()
        invariant
            from <= i,
            s == entry_views(sessions@),
            first_selectable_from(s, from as int) == first_selectable_from(s, i as int),
        decreases sessions@.len() - i,
    {
        assert(s[i as int] == sessions@[i as int]@);
        if !sessions[i].is_current {
            return Some(i);
        }
        i = i + 1;
    }
    None
}

/// The first entry that is not the current one.
pub fn first_selectable_index(sessions: &[WorktreeSessionEntry]) -> (res: Option<usize>)
    ensures
        res == match first_selectable_from(entry_views(sessions@), 0) {
            Some(k) => Some(k as usize),
            None => None::<usize>,
        },
{
    first_selectable_from_exec(sessions, 0)
}

/// The selection one step up from `current_index`.
pub fn previous_selectable_index(sessions: &[WorktreeSessionEntry], current_index: usize) -> (res: Option<usize>)
    ensures
        res == match previous_selection(entry_views(sessions@), current_index as nat) {
            Some(k) => Some(k as usize),
            None => None::<usize>,
        },
{
    let ghost s = entry_views(sessions@);
    let mut i: usize = if current_index <= sessions.len() { current_index } else { sessions.len() };
    let ghost start = i as int;
    while i > 0
        invariant
            i <= sessions@.len(),
            s == entry_views(sessions@),
            last_selectable_before(s, start) == last_selectable_before(s, i as int),
            start == (if current_index <= sessions@.len() { current_index as int } else { sessions@.len() as int }),
        decreases i,
    {
        assert(s[i - 1] == sessions@[i - 1]@);
        if !sessions[i - 1].is_current {
            return Some(i - 1);
        }
        i = i - 1;
    }
    first_selectable_index(sessions)
}

/// The selection one step down from `current_index`.
pub fn next_selectable_index(sessions: &[WorktreeSessionEntry], current_index: usize) -> (res: Option<usize>)
    ensures
        res == match next_selection(entry_views(sessions@), current_index as nat) {
            Some(k) => Some(k as usize),
            None => None::<usize>,
        },
{
    let found = if current_index < sessions.len() {
        first_selectable_from_exec(sessions, current_index + 1)
    } else {
        None
    };
    match found {
        Some(i) => Some(i),
        None => first_selectable_index(sessions),
    }
}

/// The selection after the list was rebuilt.
pub fn selected_index_for_sessions(sessions: &[WorktreeSessionEntry], previous_selection: Option<&str>) -> (res: Option<usize>)
    ensures
        res == match selection_for(entry_views(sessions@), match previous_selection { Some(p) => Some(p@), None => None }) {
            Some(k) => Some(k as usize),
            None => None::<usize>,
        },
{
    if sessions.len() == 0 {
        return None;
    }
    if let Some(previous) = previous_selection {
        let ghost s = entry_views(sessions@);
        let mut i: usize = 0;
        while i < sessions.len()
            invariant
                i <= sessions@.len(),
                s == entry_views(sessions@),
                sessions@.len() > 0,
                previous_selection == Some(previous),
                keyed_from(s, previous@, 0) == keyed_from(s, previous@, i as int),
            decreases sessions@.len() - i,
        {
            assert(s[i as int] == sessions@[i as int]@);
            if !sessions[i].is_current {
                let key = session_selection_key(&sessions[i]);
                if str_eq(key.as_str(), previous) {
                    return Some(i);
                }
            }
            i = i + 1;
        }
    }
    first_selectable_index(sessions)
}

} // verus!
