//! The entries of the seshmin list: live sessions, resurrectable sessions and zoxide
//! directories, and the order they are shown in.
use std::cmp::Ordering;

use vstd::prelude::*;

use crate::text::{chars_of, lex_less, lex_lt, lemma_lex_lt_irreflexive, lemma_lex_lt_transitive};

verus! {

/// An entry of the list.  A rank orders directories as zoxide's scores do, higher first.
#[allow(inconsistent_fields)]
#[derive(Debug, Clone, PartialEq, Eq)]
pub enum SessionItem {
    ExistingSession {
        name: String,
        directory: String,
        is_current: bool,
        is_directory_session: bool,
        zoxide_ranking: Option<u64>,
    },
    ResurrectableSession {
        name: String,
        duration_text: String,
        is_directory_session: bool,
        zoxide_ranking: Option<u64>,
    },
    Directory { path: String, session_name: String, zoxide_ranking: u64 },
}

#[allow(inconsistent_fields)]
pub enum ItemView {
    ExistingSession {
        name: Seq<char>,
        directory: Seq<char>,
        is_current: bool,
        is_directory_session: bool,
        zoxide_ranking: Option<u64>,
    },
    ResurrectableSession {
        name: Seq<char>,
        duration_text: Seq<char>,
        is_directory_session: bool,
        zoxide_ranking: Option<u64>,
    },
    Directory { path: Seq<char>, session_name: Seq<char>, zoxide_ranking: u64 },
}

impl View for SessionItem {
    type V = ItemView;

    open spec fn view(&self) -> ItemView {
        match self {
            SessionItem::ExistingSession { name, directory, is_current, is_directory_session, zoxide_ranking } => ItemView::ExistingSession {
                name: name@,
                directory: directory@,
                is_current: *is_current,
                is_directory_session: *is_directory_session,
                zoxide_ranking: *zoxide_ranking,
            },
            SessionItem::ResurrectableSession { name, duration_text, is_directory_session, zoxide_ranking } => ItemView::ResurrectableSession {
                name: name@,
                duration_text: duration_text@,
                is_directory_session: *is_directory_session,
                zoxide_ranking: *zoxide_ranking,
            },
            SessionItem::Directory { path, session_name, zoxide_ranking } => ItemView::Directory {
                path: path@,
                session_name: session_name@,
                zoxide_ranking: *zoxide_ranking,
            },
        }
    }
}

pub open spec fn item_views(v: Seq<SessionItem>) -> Seq<ItemView> {
    v.map_values(|i: SessionItem| i@)
}

/// Every entry can be selected but the current session.
pub open spec fn selectable_item(i: ItemView) -> bool {
    !(i matches ItemView::ExistingSession { is_current: true, .. })
}

/// Whether the entry comes from zoxide: a directory, or a session named after one.
pub open spec fn zoxide_item(i: ItemView) -> bool {
    match i {
        ItemView::ExistingSession { is_directory_session, .. } => is_directory_session,
        ItemView::ResurrectableSession { is_directory_session, .. } => is_directory_session,
        ItemView::Directory { .. } => true,
    }
}

/// The group an entry is listed in: the current session, live directory sessions, other
/// live sessions, then everything else.
pub open spec fn group_of(i: ItemView) -> u8 {
    match i {
        ItemView::ExistingSession { is_current: true, .. } => 0,
        ItemView::ExistingSession { is_directory_session, .. } => if is_directory_session { 1 } else { 2 },
        _ => 3,
    }
}

pub open spec fn ranking_of(i: ItemView) -> Option<u64> {
    match i {
        ItemView::ExistingSession { zoxide_ranking, .. } => zoxide_ranking,
        ItemView::ResurrectableSession { zoxide_ranking, .. } => zoxide_ranking,
        ItemView::Directory { zoxide_ranking, .. } => Some(zoxide_ranking),
    }
}

pub open spec fn label_of(i: ItemView) -> Seq<char> {
    match i {
        ItemView::ExistingSession { name, .. } => name,
        ItemView::ResurrectableSession { name, .. } => name,
        ItemView::Directory { path, .. } => path,
    }
}

/// The order of the list: by group, then by rank (higher first, ranked before unranked),
/// then by label.
pub open spec fn display_order(a: ItemView, b: ItemView) -> Ordering {
    if group_of(a) < group_of(b) {
        Ordering::Less
    } else if group_of(b) < group_of(a) {
        Ordering::Greater
    } else {
        match (ranking_of(a), ranking_of(b)) {
            (Some(x), Some(y)) if x != y => if y < x { Ordering::Less } else { Ordering::Greater },
            (Some(_), None) => Ordering::Less,
            (None, Some(_)) => Ordering::Greater,
            _ => if lex_lt(label_of(a), label_of(b)) {
                Ordering::Less
            } else if lex_lt(label_of(b), label_of(a)) {
                Ordering::Greater
            } else {
                Ordering::Equal
            },
        }
    }
}

impl SessionItem {
    /// A copy of the entry.
    pub fn duplicate(&self) -> (res: SessionItem)
        ensures
            res@ == self@,
    {
        match self {
            SessionItem::ExistingSession { name, directory, is_current, is_directory_session, zoxide_ranking } => SessionItem::ExistingSession {
                name: name.clone(),
                directory: directory.clone(),
                is_current: *is_current,
                is_directory_session: *is_directory_session,
                zoxide_ranking: *zoxide_ranking,
            },
            SessionItem::ResurrectableSession { name, duration_text, is_directory_session, zoxide_ranking } => SessionItem::ResurrectableSession {
                name: name.clone(),
                duration_text: duration_text.clone(),
                is_directory_session: *is_directory_session,
                zoxide_ranking: *zoxide_ranking,
            },
            SessionItem::Directory { path, session_name, zoxide_ranking } => SessionItem::Directory {
                path: path.clone(),
                session_name: session_name.clone(),
                zoxide_ranking: *zoxide_ranking,
            },
        }
    }

    /// Whether the entry can be selected: every one but the current session.
    pub fn is_selectable(&self) -> (res: bool)
        ensures
            res == selectable_item(self@),
    {
        match self {
            SessionItem::ExistingSession { is_current, .. } => !*is_current,
            _ => true,
        }
    }

    /// Whether the entry comes from zoxide.
    pub fn is_zoxide_item(&self) -> (res: bool)
        ensures
            res == zoxide_item(self@),
    {
        match self {
            SessionItem::ExistingSession { is_directory_session, .. } => *is_directory_session,
            SessionItem::ResurrectableSession { is_directory_session, .. } => *is_directory_session,
            SessionItem::Directory { .. } => true,
        }
    }

    /// The group the entry is listed in.
    pub fn sort_group(&self) -> (res: u8)
        ensures
            res == group_of(self@),
    {
        match self {
            SessionItem::ExistingSession { is_current, is_directory_session, .. } => {
                if *is_current {
                    0
                } else if *is_directory_session {
                    1
                } else {
                    2
                }
            },
            _ => 3,
        }
    }

    /// The rank of the entry's directory, if it has one.
    pub fn zoxide_ranking(&self) -> (res: Option<u64>)
        ensures
            res == ranking_of(self@),
    {
        match self {
            SessionItem::ExistingSession { zoxide_ranking, .. } => *zoxide_ranking,
            SessionItem::ResurrectableSession { zoxide_ranking, .. } => *zoxide_ranking,
            SessionItem::Directory { zoxide_ranking, .. } => Some(*zoxide_ranking),
        }
    }

    /// The session name, or the directory path.
    pub fn label(&self) -> (res: &str)
        ensures
            res@ == label_of(self@),
    {
        match self {
            SessionItem::ExistingSession { name, .. } => name.as_str(),
            SessionItem::ResurrectableSession { name, .. } => name.as_str(),
            SessionItem::Directory { path, .. } => path.as_str(),
        }
    }

    /// How two entries are ordered in the list.
    pub fn compare_for_display(&self, other: &SessionItem) -> (res: Ordering)
        ensures
            res == display_order(self@, other@),
    {
        let ga = self.sort_group();
        let gb = other.sort_group();
        if ga < gb {
            return Ordering::Less;
        }
        if gb < ga {
            return Ordering::Greater;
        }
        match (self.zoxide_ranking(), other.zoxide_ranking()) {
            (Some(x), Some(y)) => {
                if y < x {
                    return Ordering::Less;
                }
                if x < y {
                    return Ordering::Greater;
                }
            },
            (Some(_), None) => {
                return Ordering::Less;
            },
            (None, Some(_)) => {
                return Ordering::Greater;
            },
            (None, None) => {},
        }
        let la = chars_of(self.label());
        let lb = chars_of(other.label());
        if lex_less(&la, &lb) {
            Ordering::Less
        } else if lex_less(&lb, &la) {
            Ordering::Greater
        } else {
            Ordering::Equal
        }
    }
}

/// Whether entry `a` is listed before entry `b`.
pub open spec fn comes_before(a: ItemView, b: ItemView) -> bool {
    display_order(a, b) == Ordering::Less
}

/// Inserts `x` before the first entry that comes after it (a stable insertion).
pub open spec fn insert_item(s: Seq<ItemView>, x: ItemView) -> Seq<ItemView>
    decreases s.len(),
{
    if s.len() == 0 {
        seq![x]
    } else if comes_before(x, s[0]) {
        seq![x] + s
    } else {
        seq![s[0]] + insert_item(s.drop_first(), x)
    }
}

/// The entries in list order, equal ones keeping their order (a stable sort).
pub open spec fn sorted_items(s: Seq<ItemView>) -> Seq<ItemView>
    decreases s.len(),
{
    if s.len() == 0 {
        seq![]
    } else {
        insert_item(sorted_items(s.drop_last()), s.last())
    }
}

fn insert_item_exec(sorted: &mut Vec<SessionItem>, x: SessionItem)
    ensures
        item_views(final(sorted)@) == insert_item(item_views(old(sorted)@), x@),
{
    let ghost s = item_views(sorted@);
    let mut i: usize = 0;
    assert(s.skip(0) == s);
    assert(s.take(0) + insert_item(s, x@) =~= insert_item(s, x@));
    while i < sorted.len() && !is_less(&x, &sorted[i])
        invariant
            i <= sorted@.len(),
            s == item_views(sorted@),
            insert_item(s, x@) == s.take(i as int) + insert_item(s.skip(i as int), x@),
        decreases sorted@.len() - i,
    {
        let ghost t = s.skip(i as int);
        assert(t[0] == sorted@[i as int]@);
        assert(t.drop_first() == s.skip(i + 1));
        assert(s.take(i + 1) == s.take(i as int) + seq![t[0]]);
        i = i + 1;
    }
    let ghost xv = x@;
    proof {
        if i < s.len() {
            assert(s.skip(i as int)[0] == sorted@[i as int]@);
        } else {
            assert(s.skip(i as int) =~= Seq::<ItemView>::empty());
        }
        assert(s.take(i as int) + (seq![xv] + s.skip(i as int)) =~= s.insert(i as int, xv));
    }
    sorted.insert(i, x);
    assert(item_views(sorted@) =~= s.insert(i as int, xv));
}

/// Whether entry `a` is listed before entry `b`.
pub fn item_comes_before(a: &SessionItem, b: &SessionItem) -> (res: bool)
    ensures
        res == comes_before(a@, b@),
{
    is_less(a, b)
}

fn is_less(a: &SessionItem, b: &SessionItem) -> (res: bool)
    ensures
        res == comes_before(a@, b@),
{
    match a.compare_for_display(b) {
        Ordering::Less => true,
        _ => false,
    }
}

/// Sorts the entries into list order (stable).
pub fn sort_items(items: Vec<SessionItem>) -> (res: Vec<SessionItem>)
    ensures
        item_views(res@) == sorted_items(item_views(items@)),
{
    let ghost iv = item_views(items@);
    let mut sorted: Vec<SessionItem> = Vec::new();
    let mut i: usize = 0;
    assert(iv.take(0) =~= Seq::<ItemView>::empty());
    assert(item_views(sorted@) =~= Seq::<ItemView>::empty());
    while i < items.len()
        invariant
            i <= items@.len(),
            iv == item_views(items@),
            item_views(sorted@) == sorted_items(iv.take(i as int)),
        decreases items@.len() - i,
    {
        assert(iv.take(i + 1).drop_last() == iv.take(i as int));
        assert(iv.take(i + 1).last() == items@[i as int]@);
        insert_item_exec(&mut sorted, items[i].duplicate());
        i = i + 1;
    }
    assert(iv.take(items@.len() as int) == iv);
    sorted
}

/// No entry comes before itself.
pub proof fn lemma_comes_before_irreflexive(a: ItemView)
    ensures
        !comes_before(a, a),
{
    lemma_lex_lt_irreflexive(label_of(a));
}

/// The list order is transitive.
pub proof fn lemma_comes_before_transitive(a: ItemView, b: ItemView, c: ItemView)
    requires
        comes_before(a, b),
        comes_before(b, c),
    ensures
        comes_before(a, c),
{
    if lex_lt(label_of(a), label_of(b)) && lex_lt(label_of(b), label_of(c)) {
        lemma_lex_lt_transitive(label_of(a), label_of(b), label_of(c));
    }
}

/// An entry that comes before another does not also come after it.
pub proof fn lemma_comes_before_asymmetric(a: ItemView, b: ItemView)
    requires
        comes_before(a, b),
    ensures
        !comes_before(b, a),
{
    if comes_before(b, a) {
        lemma_comes_before_transitive(a, b, a);
        lemma_comes_before_irreflexive(a);
    }
}

/// No entry of `s` comes before an entry listed earlier.
pub open spec fn in_list_order(s: Seq<ItemView>) -> bool {
    forall|i: int, j: int| 0 <= i < j < s.len() ==> !comes_before(#[trigger] s[j], #[trigger] s[i])
}

proof fn lemma_insert_item(s: Seq<ItemView>, x: ItemView)
    ensures
        insert_item(s, x).len() == s.len() + 1,
        forall|i: int| 0 <= i < insert_item(s, x).len() ==> (#[trigger] insert_item(s, x)[i] == x || s.contains(insert_item(s, x)[i])),
        in_list_order(s) ==> in_list_order(insert_item(s, x)),
    decreases s.len(),
{
    let r = insert_item(s, x);
    if s.len() == 0 {
    } else if comes_before(x, s[0]) {
        assert forall|i: int| 0 <= i < r.len() implies (#[trigger] r[i] == x || s.contains(r[i])) by {
            if i > 0 {
                assert(r[i] == s[i - 1]);
            }
        }
        if in_list_order(s) {
            assert forall|i: int, j: int| 0 <= i < j < r.len() implies !comes_before(#[trigger] r[j], #[trigger] r[i]) by {
                if i == 0 {
                    assert(r[j] == s[j - 1]);
                    if j - 1 == 0 {
                        lemma_comes_before_asymmetric(x, s[0]);
                    } else if comes_before(s[j - 1], x) {
                        lemma_comes_before_transitive(s[j - 1], x, s[0]);
                    }
                } else {
                    assert(r[i] == s[i - 1] && r[j] == s[j - 1]);
                }
            }
        }
    } else {
        let t = s.drop_first();
        lemma_insert_item(t, x);
        let q = insert_item(t, x);
        assert forall|i: int| 0 <= i < r.len() implies (#[trigger] r[i] == x || s.contains(r[i])) by {
            if i == 0 {
                assert(s[0] == r[0]);
            } else {
                assert(r[i] == q[i - 1]);
                if r[i] != x {
                    let m = choose|m: int| 0 <= m < t.len() && t[m] == r[i];
                    assert(s[m + 1] == r[i]);
                }
            }
        }
        if in_list_order(s) {
            assert forall|i: int, j: int| 0 <= i < j < t.len() implies !comes_before(#[trigger] t[j], #[trigger] t[i]) by {
                assert(t[i] == s[i + 1] && t[j] == s[j + 1]);
            }
            assert forall|i: int, j: int| 0 <= i < j < r.len() implies !comes_before(#[trigger] r[j], #[trigger] r[i]) by {
                if i == 0 {
                    let y = q[j - 1];
                    assert(r[j] == y);
                    if y != x {
                        let m = choose|m: int| 0 <= m < t.len() && t[m] == y;
                        assert(s[m + 1] == y);
                    }
                } else {
                    assert(r[i] == q[i - 1] && r[j] == q[j - 1]);
                }
            }
        }
    }
}

/// Sorting keeps the entries (as many, each one of the input) and puts them in list order.
pub proof fn lemma_sorted_items(s: Seq<ItemView>)
    ensures
        sorted_items(s).len() == s.len(),
        forall|i: int| 0 <= i < sorted_items(s).len() ==> s.contains(#[trigger] sorted_items(s)[i]),
        in_list_order(sorted_items(s)),
    decreases s.len(),
{
    if s.len() > 0 {
        let t = s.drop_last();
        lemma_sorted_items(t);
        lemma_insert_item(sorted_items(t), s.last());
        let r = sorted_items(s);
        assert forall|i: int| 0 <= i < r.len() implies s.contains(#[trigger] r[i]) by {
            if r[i] == s.last() {
                assert(s[s.len() - 1] == r[i]);
            } else {
                let m = choose|m: int| 0 <= m < sorted_items(t).len() && sorted_items(t)[m] == r[i];
                let q = choose|q: int| 0 <= q < t.len() && t[q] == sorted_items(t)[m];
                assert(s[q] == r[i]);
            }
        }
    }
}

} // verus!
