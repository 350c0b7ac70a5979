//! Fuzzy search over the list: the entries that match the typed term, best match first,
//! and a selection that skips the current session.
use fuzzy_matcher::FuzzyMatcher;
use vstd::prelude::*;

use crate::seshmin::item::{comes_before, item_views, lemma_comes_before_irreflexive, lemma_comes_before_transitive, selectable_item, ItemView, SessionItem};
use crate::text::{chars_of, extend_chars, string_of};

verus! {

/// What the skim fuzzy matcher scores a text against a pattern, if it matches.
pub uninterp spec fn skim_score(choice: Seq<char>, pattern: Seq<char>) -> Option<i64>;

/// `SkimMatcherV2::default().use_cache(true).fuzzy_match(choice, pattern)`.  Claimed: the
/// result is the named value `skim_score(choice, pattern)`, which the source makes `Some(0)`
/// for an empty pattern.
#[verifier::external_body]
fn fuzzy_score(choice: &str, pattern: &str) -> (res: Option<i64>)
    ensures
        res == skim_score(choice@, pattern@),
        pattern@.len() == 0 ==> res == Some(0i64),
{
    fuzzy_matcher::skim::SkimMatcherV2::default().use_cache(true).fuzzy_match(choice, pattern)
}

/// The text that search matches against: a live session's name, directory and whether it is
/// current; a resurrectable session's name and age; a directory's path and session name.
pub open spec fn search_text_spec(i: ItemView) -> Seq<char> {
    match i {
        ItemView::ExistingSession { name, directory, is_current, .. } => name + seq![' '] + directory + if is_current {
            " current"@
        } else {
            seq![]
        },
        ItemView::ResurrectableSession { name, duration_text, .. } => name + seq![' '] + duration_text,
        ItemView::Directory { path, session_name, .. } => path + seq![' '] + session_name,
    }
}

/// The text that search matches an entry against.
pub fn search_text(item: &SessionItem) -> (res: String)
    ensures
        res@ == search_text_spec(item@),
{
    match item {
        SessionItem::ExistingSession { name, directory, is_current, .. } => {
            let mut out = chars_of(name.as_str());
            out.push(' ');
            extend_chars(&mut out, &chars_of(directory.as_str()));
            if *is_current {
                extend_chars(&mut out, &chars_of(" current"));
            }
            let res = string_of(&out);
            proof {
                reveal_strlit("");
            }
            assert(res@ =~= search_text_spec(item@));
            res
        },
        SessionItem::ResurrectableSession { name, duration_text, .. } => {
            let mut out = chars_of(name.as_str());
            out.push(' ');
            extend_chars(&mut out, &chars_of(duration_text.as_str()));
            string_of(&out)
        },
        SessionItem::Directory { path, session_name, .. } => {
            let mut out = chars_of(path.as_str());
            out.push(' ');
            extend_chars(&mut out, &chars_of(session_name.as_str()));
            string_of(&out)
        },
    }
}

/// An entry that matched, with its score.
#[derive(Debug, Clone)]
pub struct SearchResult {
    pub item: SessionItem,
    pub score: i64,
}

pub struct ResultView {
    pub item: ItemView,
    pub score: i64,
}

impl View for SearchResult {
    type V = ResultView;

    open spec fn view(&self) -> ResultView {
        ResultView { item: self.item@, score: self.score }
    }
}

pub open spec fn result_views(v: Seq<SearchResult>) -> Seq<ResultView> {
    v.map_values(|r: SearchResult| r@)
}

/// Whether result `a` is listed before `b`: higher score first, then list order.
pub open spec fn result_before(a: ResultView, b: ResultView) -> bool {
    a.score > b.score || (a.score == b.score && comes_before(a.item, b.item))
}

pub open spec fn insert_result(s: Seq<ResultView>, x: ResultView) -> Seq<ResultView>
    decreases s.len(),
{
    if s.len() == 0 {
        seq![x]
    } else if result_before(x, s[0]) {
        seq![x] + s
    } else {
        seq![s[0]] + insert_result(s.drop_first(), x)
    }
}

/// The results, best first, equal ones keeping their order (a stable sort).
pub open spec fn sorted_results(s: Seq<ResultView>) -> Seq<ResultView>
    decreases s.len(),
{
    if s.len() == 0 {
        seq![]
    } else {
        insert_result(sorted_results(s.drop_last()), s.last())
    }
}

/// The entries that match `term`, with their scores, in list order.
pub open spec fn matches_of(items: Seq<ItemView>, term: Seq<char>) -> Seq<ResultView>
    decreases items.len(),
{
    if items.len() == 0 {
        seq![]
    } else {
        match skim_score(search_text_spec(items.last()), term) {
            Some(score) => matches_of(items.drop_last(), term).push(ResultView { item: items.last(), score }),
            None => matches_of(items.drop_last(), term),
        }
    }
}

/// The first result, from `from` on, that can be selected.
pub open spec fn first_selectable_result(s: Seq<ResultView>, from: int) -> Option<nat>
    decreases s.len() - from,
{
    if from < 0 || from >= s.len() {
        None
    } else if selectable_item(s[from].item) {
        Some(from as nat)
    } else {
        first_selectable_result(s, from + 1)
    }
}

/// Steps from `current` (forward or back, wrapping around) to the first selectable result;
/// `step` counts the steps taken.
pub open spec fn cyclic_selectable(s: Seq<ResultView>, current: nat, forward: bool, step: nat) -> Option<nat>
    decreases s.len() + 1 - step,
{
    if s.len() == 0 || step > s.len() {
        None
    } else {
        let n = s.len();
        let index: nat = if forward { (current + step) % n } else { ((current + n - step) % (n as int)) as nat };
        if selectable_item(s[index as int].item) {
            Some(index)
        } else {
            cyclic_selectable(s, current, forward, step + 1)
        }
    }
}

/// Whether no result is listed before a result ahead of it.
pub open spec fn results_sorted(s: Seq<ResultView>) -> bool {
    forall|i: int, j: int| 0 <= i < j < s.len() ==> !result_before(#[trigger] s[j], #[trigger] s[i])
}

proof fn lemma_result_before_order(a: ResultView, b: ResultView, c: ResultView)
    ensures
        !result_before(a, a),
        result_before(a, b) && result_before(b, c) ==> result_before(a, c),
{
    lemma_comes_before_irreflexive(a.item);
    if result_before(a, b) && result_before(b, c) && a.score == b.score && b.score == c.score {
        lemma_comes_before_transitive(a.item, b.item, c.item);
    }
}

proof fn lemma_insert_result(s: Seq<ResultView>, x: ResultView)
    requires
        results_sorted(s),
    ensures
        results_sorted(insert_result(s, x)),
        exists|k: int| 0 <= k <= s.len() && insert_result(s, x) == s.insert(k, x),
    decreases s.len(),
{
    if s.len() == 0 {
        assert(insert_result(s, x) =~= s.insert(0, x));
    } else if result_before(x, s[0]) {
        let r = insert_result(s, x);
        assert(r =~= s.insert(0, x));
        assert forall|i: int, j: int| 0 <= i < j < r.len() implies !result_before(#[trigger] r[j], #[trigger] r[i]) by {
            if i == 0 {
                lemma_result_before_order(r[j], x, s[0]);
                if j > 1 {
                    assert(!result_before(s[j - 1], s[0]));
                }
            }
        }
    } else {
        let rest = s.drop_first();
        lemma_insert_result(rest, x);
        let k = choose|k: int| 0 <= k <= rest.len() && insert_result(rest, x) == rest.insert(k, x);
        let r = insert_result(s, x);
        assert(r =~= s.insert(k + 1, x));
        assert forall|i: int, j: int| 0 <= i < j < r.len() implies !result_before(#[trigger] r[j], #[trigger] r[i]) by {
            if i == 0 {
                if j == k + 1 {
                } else if j < k + 1 {
                    assert(r[j] == s[j]);
                } else {
                    assert(r[j] == s[j - 1]);
                }
            } else {
                assert(r[i] == insert_result(rest, x)[i - 1]);
                assert(r[j] == insert_result(rest, x)[j - 1]);
            }
        }
    }
}

proof fn lemma_sorted_results(s: Seq<ResultView>)
    ensures
        results_sorted(sorted_results(s)),
        sorted_results(s).to_multiset() == s.to_multiset(),
    decreases s.len(),
{
    broadcast use vstd::seq_lib::group_to_multiset_ensures;
    if s.len() > 0 {
        lemma_sorted_results(s.drop_last());
        let t = sorted_results(s.drop_last());
        lemma_insert_result(t, s.last());
        let k = choose|k: int| 0 <= k <= t.len() && insert_result(t, s.last()) == t.insert(k, s.last());
        assert(s == s.drop_last().push(s.last()));
    }
}

proof fn lemma_matches_of(items: Seq<ItemView>, term: Seq<char>)
    ensures
        forall|k: int| 0 <= k < matches_of(items, term).len() ==> {
            let r = #[trigger] matches_of(items, term)[k];
            &&& items.contains(r.item)
            &&& skim_score(search_text_spec(r.item), term) == Some(r.score)
        },
        forall|j: int| 0 <= j < items.len() && #[trigger] skim_score(search_text_spec(items[j]), term) is Some ==> exists|k: int|
            0 <= k < matches_of(items, term).len() && matches_of(items, term)[k].item == items[j],
    decreases items.len(),
{
    if items.len() > 0 {
        let front = items.drop_last();
        lemma_matches_of(front, term);
        let rest = matches_of(front, term);
        let m = matches_of(items, term);
        assert forall|k: int| 0 <= k < m.len() implies {
            let r = #[trigger] m[k];
            &&& items.contains(r.item)
            &&& skim_score(search_text_spec(r.item), term) == Some(r.score)
        } by {
            if k < rest.len() {
                assert(m[k] == rest[k]);
                let j = choose|j: int| 0 <= j < front.len() && front[j] == rest[k].item;
                assert(items[j] == front[j]);
            } else {
                assert(items[items.len() - 1] == items.last());
            }
        }
        assert forall|j: int| 0 <= j < items.len() && #[trigger] skim_score(search_text_spec(items[j]), term) is Some implies exists|k: int|
            0 <= k < m.len() && m[k].item == items[j] by {
            if j < items.len() - 1 {
                assert(front[j] == items[j]);
                let k = choose|k: int| 0 <= k < rest.len() && rest[k].item == front[j];
                assert(m[k] == rest[k]);
            } else {
                assert(m[m.len() - 1].item == items.last());
            }
        }
    }
}

/// A search shows exactly the entries that match its term, each with its fuzzy score, best
/// score first and equal scores in list order; an empty term shows nothing.
pub proof fn lemma_search_results(term: Seq<char>, items: Seq<ItemView>)
    ensures
        term.len() == 0 ==> refreshed(term, items).results.len() == 0,
        results_sorted(refreshed(term, items).results),
        forall|k: int| 0 <= k < refreshed(term, items).results.len() ==> {
            let r = #[trigger] refreshed(term, items).results[k];
            &&& items.contains(r.item)
            &&& skim_score(search_text_spec(r.item), term) == Some(r.score)
        },
        term.len() > 0 ==> forall|j: int| 0 <= j < items.len() && #[trigger] skim_score(search_text_spec(items[j]), term) is Some
            ==> exists|k: int| 0 <= k < refreshed(term, items).results.len() && refreshed(term, items).results[k].item == items[j],
{
    broadcast use vstd::seq_lib::group_to_multiset_ensures;
    if term.len() > 0 {
        let m = matches_of(items, term);
        let r = sorted_results(m);
        lemma_matches_of(items, term);
        lemma_sorted_results(m);
        assert forall|k: int| 0 <= k < r.len() implies {
            let x = #[trigger] r[k];
            &&& items.contains(x.item)
            &&& skim_score(search_text_spec(x.item), term) == Some(x.score)
        } by {
            assert(r.to_multiset().count(r[k]) > 0);
            assert(m.contains(r[k]));
            let i = choose|i: int| 0 <= i < m.len() && m[i] == r[k];
        }
        assert forall|j: int| 0 <= j < items.len() && #[trigger] skim_score(search_text_spec(items[j]), term) is Some implies exists|k: int|
            0 <= k < r.len() && r[k].item == items[j] by {
            let i = choose|i: int| 0 <= i < m.len() && m[i].item == items[j];
            assert(m.to_multiset().count(m[i]) > 0);
            assert(r.contains(m[i]));
        }
    }
}

/// Stepping `step` places forward or back from `current`, modulo `n`, lands where stepping
/// from `current % n` without wrapping, or with one wrap, lands.
pub proof fn lemma_wrapped_index(current: int, c: int, step: int, n: int)
    requires
        0 <= current,
        n > 0,
        c == current % n,
        1 <= step <= n,
    ensures
        (current + step) % n == (if c + step < n { c + step } else { c + step - n }),
        (current + n - step) % n == (if step <= c { c - step } else { c + n - step }),
{
    vstd::arithmetic::div_mod::lemma_mod_bound(current, n);
    vstd::arithmetic::div_mod::lemma_small_mod(c as nat, n as nat);
    vstd::arithmetic::div_mod::lemma_add_mod_noop(current, step, n);
    vstd::arithmetic::div_mod::lemma_add_mod_noop(c, step, n);
    vstd::arithmetic::div_mod::lemma_add_mod_noop(current, n - step, n);
    vstd::arithmetic::div_mod::lemma_add_mod_noop(c, n - step, n);
    if c + step < n {
        vstd::arithmetic::div_mod::lemma_small_mod((c + step) as nat, n as nat);
    } else {
        vstd::arithmetic::div_mod::lemma_mod_sub_multiples_vanish(c + step, n);
        vstd::arithmetic::div_mod::lemma_small_mod((c + step - n) as nat, n as nat);
    }
    if step <= c {
        vstd::arithmetic::div_mod::lemma_mod_sub_multiples_vanish(c + n - step, n);
        vstd::arithmetic::div_mod::lemma_small_mod((c - step) as nat, n as nat);
    } else {
        vstd::arithmetic::div_mod::lemma_small_mod((c + n - step) as nat, n as nat);
    }
}

/// The search state: the term typed so far, the results, and the selected result.
pub struct SearchEngine {
    search_term: String,
    results: Vec<SearchResult>,
    selected_index: Option<usize>,
}

pub struct SearchView {
    pub term: Seq<char>,
    pub results: Seq<ResultView>,
    pub selected: Option<usize>,
}

impl View for SearchEngine {
    type V = SearchView;

    closed spec fn view(&self) -> SearchView {
        SearchView { term: self.search_term@, results: result_views(self.results@), selected: self.selected_index }
    }
}

/// No term, no results, nothing selected.
pub open spec fn cleared_search() -> SearchView {
    SearchView { term: seq![], results: seq![], selected: None }
}

/// The search after refreshing against `items`: nothing for an empty term, else the
/// matching entries best first, and the first selectable one selected.
pub open spec fn refreshed(term: Seq<char>, items: Seq<ItemView>) -> SearchView {
    if term.len() == 0 {
        SearchView { term, results: seq![], selected: None }
    } else {
        let r = sorted_results(matches_of(items, term));
        SearchView {
            term,
            results: r,
            selected: match first_selectable_result(r, 0) {
                Some(i) => Some(i as usize),
                None => None,
            },
        }
    }
}

fn clone_result(r: &SearchResult) -> (res: SearchResult)
    ensures
        res@ == r@,
{
    SearchResult { item: r.item.duplicate(), score: r.score }
}

fn insert_result_exec(sorted: &mut Vec<SearchResult>, x: SearchResult)
    ensures
        result_views(final(sorted)@) == insert_result(result_views(old(sorted)@), x@),
{
    let ghost s = result_views(sorted@);
    let mut i: usize = 0;
    assert(s.skip(0) == s);
    assert(s.take(0) + insert_result(s, x@) =~= insert_result(s, x@));
    while i < sorted.len() && !result_is_before(&x, &sorted[i])
        invariant
            i <= sorted@.len(),
            s == result_views(sorted@),
            insert_result(s, x@) == s.take(i as int) + insert_result(s.skip(i as int), x@),
        decreases sorted@.len() - i,
    {
        let ghost t = s.skip(i as int);
        assert(t[0] == sorted@[i as int]@);
        assert(t.drop_first() == s.skip(i + 1));
        assert(s.take(i + 1) == s.take(i as int) + seq![t[0]]);
        i = i + 1;
    }
    let ghost xv = x@;
    proof {
        if i < s.len() {
            assert(s.skip(i as int)[0] == sorted@[i as int]@);
        } else {
            assert(s.skip(i as int) =~= Seq::<ResultView>::empty());
        }
        assert(s.take(i as int) + (seq![xv] + s.skip(i as int)) =~= s.insert(i as int, xv));
    }
    sorted.insert(i, x);
    assert(result_views(sorted@) =~= s.insert(i as int, xv));
}

fn result_is_before(a: &SearchResult, b: &SearchResult) -> (res: bool)
    ensures
        res == result_before(a@, b@),
{
    a.score > b.score || (a.score == b.score && crate::seshmin::item::item_comes_before(&a.item, &b.item))
}

impl Default for SearchEngine {
    /// No term, no results.
    fn default() -> (res: SearchEngine)
        ensures
            res@ == cleared_search(),
    {
        SearchEngine::new()
    }
}

impl SearchEngine {
    /// No term, no results.
    pub fn new() -> (res: SearchEngine)
        ensures
            res@ == cleared_search(),
    {
        let res = SearchEngine { search_term: String::new(), results: Vec::new(), selected_index: None };
        assert(res@.term =~= seq![]);
        assert(res@.results =~= seq![]);
        res
    }

    pub fn search_term(&self) -> (res: &str)
        ensures
            res@ == self@.term,
    {
        self.search_term.as_str()
    }

    /// Whether a term is typed.
    pub fn is_searching(&self) -> (res: bool)
        ensures
            res == (self@.term.len() > 0),
    {
        chars_of(self.search_term.as_str()).len() > 0
    }

    pub fn results(&self) -> (res: &Vec<SearchResult>)
        ensures
            result_views(res@) == self@.results,
    {
        &self.results
    }

    pub fn selected_index(&self) -> (res: Option<usize>)
        ensures
            res == self@.selected,
    {
        self.selected_index
    }

    /// The selected entry.
    pub fn selected_item(&self) -> (res: Option<SessionItem>)
        ensures
            match self@.selected {
                Some(i) => if i < self@.results.len() {
                    res is Some && res->0@ == self@.results[i as int].item
                } else {
                    res is None
                },
                None => res is None,
            },
    {
        match self.selected_index {
            Some(i) => if i < self.results.len() {
                assert(self@.results[i as int] == self.results@[i as int]@);
                Some(self.results[i].item.duplicate())
            } else {
                None
            },
            None => None,
        }
    }

    /// Types a character and searches again.
    pub fn add_char(&mut self, character: char, items: &Vec<SessionItem>)
        ensures
            final(self)@ == refreshed(old(self)@.term.push(character), item_views(items@)),
    {
        let mut t = chars_of(self.search_term.as_str());
        t.push(character);
        self.search_term = string_of(&t);
        self.refresh(items);
    }

    /// Deletes the last character of the term and searches again.
    pub fn backspace(&mut self, items: &Vec<SessionItem>)
        ensures
            final(self)@ == refreshed(
                if old(self)@.term.len() > 0 { old(self)@.term.drop_last() } else { old(self)@.term },
                item_views(items@),
            ),
    {
        let mut t = chars_of(self.search_term.as_str());
        if t.len() > 0 {
            t.pop();
        }
        self.search_term = string_of(&t);
        self.refresh(items);
    }

    /// Clears the term and the results.
    pub fn clear(&mut self)
        ensures
            final(self)@ == cleared_search(),
    {
        self.search_term = String::new();
        self.results = Vec::new();
        self.selected_index = None;
        assert(self@.term =~= seq![]);
        assert(self@.results =~= seq![]);
    }

    /// Searches `items` for the term again.
    pub fn refresh(&mut self, items: &Vec<SessionItem>)
        ensures
            final(self)@ == refreshed(old(self)@.term, item_views(items@)),
    {
        if chars_of(self.search_term.as_str()).len() == 0 {
            self.results = Vec::new();
            self.selected_index = None;
            assert(result_views(self.results@) =~= Seq::<ResultView>::empty());
            return;
        }
        let ghost term = self@.term;
        let ghost iv = item_views(items@);
        let mut matched: Vec<SearchResult> = Vec::new();
        let mut i: usize = 0;
        assert(iv.take(0) =~= Seq::<ItemView>::empty());
        assert(result_views(matched@) =~= Seq::<ResultView>::empty());
        while i < items.len()
            invariant
                i <= items@.len(),
                iv == item_views(items@),
                term == self.search_term@,
                result_views(matched@) == matches_of(iv.take(i as int), term),
            decreases items@.len() - i,
        {
            assert(iv.take(i + 1).drop_last() == iv.take(i as int));
            assert(iv.take(i + 1).last() == items@[i as int]@);
            let text = search_text(&items[i]);
            if let Some(score) = fuzzy_score(text.as_str(), self.search_term.as_str()) {
                let ghost before = matched@;
                let r = SearchResult { item: items[i].duplicate(), score };
                let ghost rv = r@;
                matched.push(r);
                assert(result_views(matched@) =~= result_views(before).push(rv));
            }
            i = i + 1;
        }
        assert(iv.take(items@.len() as int) == iv);
        let ghost mv = result_views(matched@);
        let mut sorted: Vec<SearchResult> = Vec::new();
        let mut j: usize = 0;
        assert(mv.take(0) =~= Seq::<ResultView>::empty());
        assert(result_views(sorted@) =~= Seq::<ResultView>::empty());
        while j < matched.len()
            invariant
                j <= matched@.len(),
                mv == result_views(matched@),
                result_views(sorted@) == sorted_results(mv.take(j as int)),
            decreases matched@.len() - j,
        {
            assert(mv.take(j + 1).drop_last() == mv.take(j as int));
            assert(mv.take(j + 1).last() == matched@[j as int]@);
            insert_result_exec(&mut sorted, clone_result(&matched[j]));
            j = j + 1;
        }
        assert(mv.take(matched@.len() as int) == mv);
        self.results = sorted;
        self.selected_index = self.first_selectable_index();
    }

    fn first_selectable_index(&self) -> (res: Option<usize>)
        ensures
            res == match first_selectable_result(self@.results, 0) {
                Some(i) => Some(i as usize),
                None => None::<usize>,
            },
    {
        let ghost s = self@.results;
        let mut i: usize = 0;
        while i < self.results.len()
            invariant
                i <= self.results@.len(),
                s == self@.results,
                first_selectable_result(s, 0) == first_selectable_result(s, i as int),
            decreases self.results@.len() - i,
        {
            assert(s[i as int] == self.results@[i as int]@);
            if self.results[i].item.is_selectable() {
                return Some(i);
            }
            i = i + 1;
        }
        None
    }

    /// The next selectable result, stepping forward or back from `current_index` with
    /// wrap-around.
    fn next_selectable_index(&self, current_index: usize, forward: bool) -> (res: Option<usize>)
        ensures
            res == match cyclic_selectable(self@.results, current_index as nat, forward, 1) {
                Some(i) => Some(i as usize),
                None => None::<usize>,
            },
    {
        let ghost s = self@.results;
        let n = self.results.len();
        if n == 0 {
            return None;
        }
        let c = current_index % n;
        let mut step: usize = 1;
        while step <= n
            invariant
                1 <= step <= n + 1,
                n == s.len(),
                s == self@.results,
                c == current_index % n,
                cyclic_selectable(s, current_index as nat, forward, 1) == cyclic_selectable(s, current_index as nat, forward, step as nat),
            decreases n + 1 - step,
        {
            let index = if forward {
                if step < n - c {
                    c + step
                } else {
                    step - (n - c)
                }
            } else if step <= c {
                c - step
            } else {
                c + (n - step)
            };
            proof {
                lemma_wrapped_index(current_index as int, c as int, step as int, n as int);
            }
            assert(s[index as int] == self.results@[index as int]@);
            if self.results[index].item.is_selectable() {
                return Some(index);
            }
            assert(cyclic_selectable(s, current_index as nat, forward, step as nat) == cyclic_selectable(
                s,
                current_index as nat,
                forward,
                (step + 1) as nat,
            ));
            if step == n {
                assert(cyclic_selectable(s, current_index as nat, forward, (step + 1) as nat) is None);
                return None;
            }
            step = step + 1;
        }
        None
    }

    /// Moves the selection up to the previous selectable result, wrapping around.
    pub fn move_up(&mut self)
        ensures
            final(self)@ == match old(self)@.selected {
                None => old(self)@,
                Some(i) => SearchView {
                    selected: match cyclic_selectable(old(self)@.results, i as nat, false, 1) {
                        Some(k) => Some(k as usize),
                        None => None,
                    },
                    ..old(self)@
                },
            },
    {
        if let Some(i) = self.selected_index {
            self.selected_index = self.next_selectable_index(i, false);
        }
    }

    /// Moves the selection down to the next selectable result, wrapping around.
    pub fn move_down(&mut self)
        ensures
            final(self)@ == match old(self)@.selected {
                None => old(self)@,
                Some(i) => SearchView {
                    selected: match cyclic_selectable(old(self)@.results, i as nat, true, 1) {
                        Some(k) => Some(k as usize),
                        None => None,
                    },
                    ..old(self)@
                },
            },
    {
        if let Some(i) = self.selected_index {
            self.selected_index = self.next_selectable_index(i, true);
        }
    }
}

} // verus!
