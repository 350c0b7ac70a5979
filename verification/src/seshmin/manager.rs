//! The sessions that Zellij reports, live and resurrectable, and the names that new
//! sessions get so as not to clash with them.
use vstd::prelude::*;

use crate::text::{
    char_width, chars_eq, chars_of, copy_chars, decimal_chars, decimal_text, extend_chars,
    occurs_at, occurs_at_exec, slice_chars, starts_with, string_of, utf8_len, all_ascii, is_digit,
    lemma_ascii_utf8_len, lemma_utf8_len_concat, radix_text,
};
use crate::treemin::naming::{lemma_decimal_digits, lemma_decimal_injective, lemma_decimal_len_small};

verus! {

/// A layout that a live session offers, by name; `id` lets the host find it again.
#[derive(Debug, Clone, PartialEq, Eq)]
pub struct LayoutRef {
    pub name: String,
    pub id: u64,
}

/// A live session.
#[derive(Debug, Clone, PartialEq, Eq)]
pub struct LiveSession {
    pub name: String,
    pub is_current_session: bool,
    pub available_layouts: Vec<LayoutRef>,
}

/// A session that can be resurrected, and how long ago it was created.
#[derive(Debug, Clone, PartialEq, Eq)]
pub struct ResurrectableSession {
    pub name: String,
    pub secs: u64,
    pub nanos: u32,
}

/// The sessions known to the plugin.
pub struct SessionManager {
    sessions: Vec<LiveSession>,
    resurrectable_sessions: Vec<ResurrectableSession>,
}

/// A layout by name and id.
pub open spec fn layout_views(v: Seq<LayoutRef>) -> Seq<(Seq<char>, u64)> {
    v.map_values(|l: LayoutRef| (l.name@, l.id))
}

/// A live session: its name, whether it is the current one, and its layouts.
pub struct LiveView {
    pub name: Seq<char>,
    pub current: bool,
    pub layouts: Seq<(Seq<char>, u64)>,
}

impl View for LiveSession {
    type V = LiveView;

    open spec fn view(&self) -> LiveView {
        LiveView { name: self.name@, current: self.is_current_session, layouts: layout_views(self.available_layouts@) }
    }
}

pub open spec fn live_views(v: Seq<LiveSession>) -> Seq<LiveView> {
    v.map_values(|s: LiveSession| s@)
}

/// A [`SessionManager`]: the live sessions, the names of the resurrectable ones, and the
/// resurrectable ones with their ages (seconds and nanoseconds).
pub struct ManagerView {
    pub live: Seq<LiveView>,
    pub resurrectable: Seq<Seq<char>>,
    pub dead: Seq<(Seq<char>, u64, u32)>,
}

/// A resurrectable session as its name and age.
pub open spec fn dead_views(v: Seq<ResurrectableSession>) -> Seq<(Seq<char>, u64, u32)> {
    v.map_values(|r: ResurrectableSession| (r.name@, r.secs, r.nanos))
}

/// Every age is a valid duration: its nanoseconds are below one second.
pub open spec fn ages_valid(v: Seq<ResurrectableSession>) -> bool {
    forall|i: int| 0 <= i < v.len() ==> #[trigger] v[i].nanos < 1_000_000_000
}

impl View for SessionManager {
    type V = ManagerView;

    closed spec fn view(&self) -> ManagerView {
        ManagerView {
            live: live_views(self.sessions@),
            resurrectable: self.resurrectable_sessions@.map_values(|r: ResurrectableSession| r.name@),
            dead: dead_views(self.resurrectable_sessions@),
        }
    }
}

impl SessionManager {
    #[verifier::type_invariant]
    spec fn ages_are_durations(self) -> bool {
        ages_valid(self.resurrectable_sessions@)
    }
}

/// The names of the resurrectable sessions are the names of their entries.
pub proof fn lemma_dead_names(m: ManagerView, v: Seq<ResurrectableSession>)
    requires
        m.resurrectable == v.map_values(|r: ResurrectableSession| r.name@),
        m.dead == dead_views(v),
    ensures
        m.resurrectable == m.dead.map_values(|e: (Seq<char>, u64, u32)| e.0),
{
    assert(m.resurrectable =~= m.dead.map_values(|e: (Seq<char>, u64, u32)| e.0));
}

/// The names of all sessions: the live ones, then the resurrectable ones.
pub open spec fn all_names(m: ManagerView) -> Seq<Seq<char>> {
    m.live.map_values(|s: LiveView| s.name) + m.resurrectable
}

/// The first live session that is the current one, from `from` on.
pub open spec fn current_from(live: Seq<LiveView>, from: int) -> Option<nat>
    decreases live.len() - from,
{
    if from < 0 || from >= live.len() {
        None
    } else if live[from].current {
        Some(from as nat)
    } else {
        current_from(live, from + 1)
    }
}

pub open spec fn name_exists(m: ManagerView, name: Seq<char>) -> bool {
    all_names(m).contains(name)
}

/// `str::rsplit_once(sep)`: the text before and after the last occurrence of `sep` (for the
/// empty separator, the whole text and nothing).
pub open spec fn rsplit_once(s: Seq<char>, sep: Seq<char>) -> Option<(Seq<char>, Seq<char>)> {
    if sep.len() == 0 {
        Some((s, seq![]))
    } else if exists|i: int| occurs_at(s, sep, i) {
        let i = choose|i: int| occurs_at(s, sep, i) && forall|j: int| i < j ==> !occurs_at(s, sep, j);
        Some((s.take(i), s.skip(i + sep.len())))
    } else {
        None
    }
}

/// The name a session was incremented from: what comes before its last separator, when
/// what follows is a non-empty run of ASCII digits.
pub open spec fn incremented_prefix(name: Seq<char>, sep: Seq<char>) -> Option<Seq<char>> {
    match rsplit_once(name, sep) {
        Some((prefix, suffix)) => if suffix.len() > 0 && forall|i: int| 0 <= i < suffix.len() ==> '0' <= #[trigger] suffix[i] <= '9' {
            Some(prefix)
        } else {
            None
        },
        None => None,
    }
}

/// The longest incremented prefix among `names` that `base` starts with (the last of equally
/// long ones).
pub open spec fn longest_prefix(names: Seq<Seq<char>>, base: Seq<char>, sep: Seq<char>) -> Option<Seq<char>>
    decreases names.len(),
{
    if names.len() == 0 {
        None
    } else {
        let before = longest_prefix(names.drop_last(), base, sep);
        match incremented_prefix(names.last(), sep) {
            Some(p) => if starts_with(base, p) && (before is None || utf8_len(p) >= utf8_len(before->0)) {
                Some(p)
            } else {
                before
            },
            None => before,
        }
    }
}

/// The first `n` characters of `s`.
pub open spec fn first_chars(s: Seq<char>, n: nat) -> Seq<char> {
    if n < s.len() {
        s.take(n as int)
    } else {
        s
    }
}

pub open spec fn sat_sub(a: nat, b: nat) -> nat {
    if a >= b {
        (a - b) as nat
    } else {
        0
    }
}

/// `base` cut to leave room for `suffix` within `max_len` bytes (cut by characters), then
/// `suffix`.
pub open spec fn fitted(base: Seq<char>, suffix: Seq<char>, max_len: nat) -> Seq<char> {
    first_chars(base, sat_sub(max_len, utf8_len(suffix))) + suffix
}

pub open spec fn counter_suffix(sep: Seq<char>, counter: nat) -> Seq<char> {
    sep + decimal_text(counter)
}

/// Some incremented form of `base` (counters 2 to 1000) is taken.
pub open spec fn has_incremented_name_spec(m: ManagerView, base: Seq<char>, sep: Seq<char>, max_len: nat) -> bool {
    exists|c: nat| 2 <= c <= 1000 && name_exists(m, #[trigger] fitted(base, counter_suffix(sep, c), max_len))
}

/// The first incremented form of `base`, from `counter` to 1000, that is free.
pub open spec fn first_free(m: ManagerView, base: Seq<char>, sep: Seq<char>, max_len: nat, counter: nat) -> Option<Seq<char>>
    decreases 1001 - counter,
{
    if counter > 1000 {
        None
    } else if !name_exists(m, fitted(base, counter_suffix(sep, counter), max_len)) {
        Some(fitted(base, counter_suffix(sep, counter), max_len))
    } else {
        first_free(m, base, sep, max_len, counter + 1)
    }
}

/// The name a new session named after `base` gets: `base` itself when it fits, is free and
/// no incremented name continues from a prefix of it; else the first free incremented form
/// (of that prefix, or of `base` cut to fit), or `base` cut to fit when that and its
/// incremented forms are free; `<base><sep>overflow` when all thousand are taken.
pub open spec fn incremented_name(m: ManagerView, base: Seq<char>, sep: Seq<char>, max_len: nat) -> Seq<char> {
    let prefix = longest_prefix(all_names(m), base, sep);
    let overflow = fitted(base, sep + "overflow"@, max_len);
    if utf8_len(base) <= max_len && !name_exists(m, base) && prefix is None {
        base
    } else if prefix is None && utf8_len(base) > max_len && !name_exists(m, first_chars(base, max_len))
        && !has_incremented_name_spec(m, base, sep, max_len) {
        first_chars(base, max_len)
    } else {
        let increment_base = match prefix {
            Some(p) => p,
            None => if utf8_len(base) > max_len { first_chars(base, max_len) } else { base },
        };
        match first_free(m, increment_base, sep, max_len, 2) {
            Some(n) => n,
            None => overflow,
        }
    }
}

proof fn lemma_first_free_is_free(m: ManagerView, base: Seq<char>, sep: Seq<char>, max_len: nat, counter: nat)
    ensures
        first_free(m, base, sep, max_len, counter) matches Some(n) ==> !name_exists(m, n),
    decreases 1001 - counter,
{
    if counter <= 1000 && name_exists(m, fitted(base, counter_suffix(sep, counter), max_len)) {
        lemma_first_free_is_free(m, base, sep, max_len, counter + 1);
    }
}

/// A generated session name is never the name of an existing (live or resurrectable)
/// session, unless every numbered form up to 1000 is taken and the `overflow` form is used.
pub proof fn lemma_incremented_name_is_new(m: ManagerView, base: Seq<char>, sep: Seq<char>, max_len: nat)
    ensures
        !name_exists(m, incremented_name(m, base, sep, max_len)) || incremented_name(m, base, sep, max_len) == fitted(
            base,
            sep + "overflow"@,
            max_len,
        ),
{
    let prefix = longest_prefix(all_names(m), base, sep);
    let increment_base = match prefix {
        Some(p) => p,
        None => if utf8_len(base) > max_len { first_chars(base, max_len) } else { base },
    };
    lemma_first_free_is_free(m, increment_base, sep, max_len, 2);
}

proof fn lemma_digits_ascii(n: nat)
    requires
        n <= 1000,
    ensures
        all_ascii(decimal_text(n)),
        utf8_len(decimal_text(n)) == decimal_text(n).len(),
        decimal_text(n).len() <= 4,
        decimal_text(n).len() >= 1,
        forall|i: int| 0 <= i < decimal_text(n).len() ==> is_digit(#[trigger] decimal_text(n)[i]),
{
    lemma_decimal_digits(n);
    lemma_decimal_len_small(n);
    let d = decimal_text(n);
    assert forall|i: int| 0 <= i < d.len() implies (d[i] as u32) < 0x80 by {
        assert(is_digit(d[i]));
    }
    lemma_ascii_utf8_len(d);
    reveal_with_fuel(radix_text, 2);
}

/// The numbered forms of a name are all different when the separator ends in something
/// other than a digit.
proof fn lemma_fitted_injective(base: Seq<char>, sep: Seq<char>, max_len: nat, c1: nat, c2: nat)
    requires
        c1 != c2,
        c1 <= 1000,
        c2 <= 1000,
        sep.len() > 0,
        !is_digit(sep.last()),
    ensures
        fitted(base, counter_suffix(sep, c1), max_len) != fitted(base, counter_suffix(sep, c2), max_len),
{
    let d1 = decimal_text(c1);
    let d2 = decimal_text(c2);
    lemma_digits_ascii(c1);
    lemma_digits_ascii(c2);
    let u1 = counter_suffix(sep, c1);
    let u2 = counter_suffix(sep, c2);
    lemma_utf8_len_concat(sep, d1);
    lemma_utf8_len_concat(sep, d2);
    let t1 = first_chars(base, sat_sub(max_len, utf8_len(u1)));
    let t2 = first_chars(base, sat_sub(max_len, utf8_len(u2)));
    let x1 = fitted(base, u1, max_len);
    let x2 = fitted(base, u2, max_len);
    assert(x1 == t1 + u1);
    assert(x2 == t2 + u2);
    if x1 == x2 {
        if d1.len() == d2.len() {
            assert(t1 == t2);
            assert(u1 == x1.skip(t1.len() as int));
            assert(u2 == x2.skip(t2.len() as int));
            assert(d1 == u1.skip(sep.len() as int));
            assert(d2 == u2.skip(sep.len() as int));
            lemma_decimal_injective(c1, c2);
        } else if d1.len() < d2.len() {
            let p = x1.len() - d1.len() - 1;
            assert(x1[p] == u1[sep.len() - 1]);
            assert(u1[sep.len() - 1] == sep.last());
            assert(x2[p] == u2[p - t2.len()]);
            assert(x2[p] == d2[p - t2.len() - sep.len()]);
        } else {
            let p = x2.len() - d2.len() - 1;
            assert(x2[p] == u2[sep.len() - 1]);
            assert(u2[sep.len() - 1] == sep.last());
            assert(x1[p] == u1[p - t1.len()]);
            assert(x1[p] == d1[p - t1.len() - sep.len()]);
        }
    }
}

proof fn lemma_first_free_some(m: ManagerView, base: Seq<char>, sep: Seq<char>, max_len: nat, counter: nat, k: nat)
    requires
        counter <= k <= 1000,
        !name_exists(m, fitted(base, counter_suffix(sep, k), max_len)),
    ensures
        first_free(m, base, sep, max_len, counter) is Some,
    decreases 1001 - counter,
{
    if name_exists(m, fitted(base, counter_suffix(sep, counter), max_len)) {
        lemma_first_free_some(m, base, sep, max_len, counter + 1, k);
    }
}

/// With fewer than 999 sessions, some numbered form `.2` to `.1000` of any name is free.
proof fn lemma_some_form_free(m: ManagerView, base: Seq<char>, sep: Seq<char>, max_len: nat)
    requires
        all_names(m).len() < 999,
        sep.len() > 0,
        !is_digit(sep.last()),
    ensures
        first_free(m, base, sep, max_len, 2) is Some,
{
    let cands = Seq::new(999, |i: int| fitted(base, counter_suffix(sep, (i + 2) as nat), max_len));
    assert forall|i: int, j: int| 0 <= i < cands.len() && 0 <= j < cands.len() && i != j implies cands[i] != cands[j] by {
        lemma_fitted_injective(base, sep, max_len, (i + 2) as nat, (j + 2) as nat);
    }
    assert(cands.no_duplicates());
    cands.unique_seq_to_set();
    all_names(m).lemma_cardinality_of_set();
    if forall|i: int| 0 <= i < cands.len() ==> name_exists(m, #[trigger] cands[i]) {
        assert(cands.to_set().subset_of(all_names(m).to_set()));
        vstd::set_lib::lemma_len_subset(cands.to_set(), all_names(m).to_set());
        assert(false);
    }
    let i = choose|i: int| 0 <= i < cands.len() && !name_exists(m, #[trigger] cands[i]);
    lemma_first_free_some(m, base, sep, max_len, 2, (i + 2) as nat);
}

proof fn lemma_longest_prefix_starts(names: Seq<Seq<char>>, base: Seq<char>, sep: Seq<char>)
    ensures
        longest_prefix(names, base, sep) matches Some(p) ==> starts_with(base, p),
    decreases names.len(),
{
    if names.len() > 0 {
        lemma_longest_prefix_starts(names.drop_last(), base, sep);
    }
}

proof fn lemma_ascii_take(s: Seq<char>, n: int)
    requires
        all_ascii(s),
        0 <= n <= s.len(),
    ensures
        all_ascii(s.take(n)),
{
    assert forall|i: int| 0 <= i < s.take(n).len() implies (s.take(n)[i] as u32) < 0x80 by {
        assert(s.take(n)[i] == s[i]);
    }
}

/// With fewer than 999 sessions and a separator that does not end in a digit, a new
/// session always gets a free name: never one of a live or resurrectable session.  For an
/// ASCII name and separator, with room for the separator and four digits, the name also
/// fits in `max_len` bytes.
pub proof fn lemma_free_name_found(m: ManagerView, base: Seq<char>, sep: Seq<char>, max_len: nat)
    requires
        all_names(m).len() < 999,
        sep.len() > 0,
        !is_digit(sep.last()),
    ensures
        !name_exists(m, incremented_name(m, base, sep, max_len)),
        all_ascii(base) && all_ascii(sep) && utf8_len(sep) + 4 <= max_len ==> utf8_len(
            incremented_name(m, base, sep, max_len),
        ) <= max_len,
{
    let prefix = longest_prefix(all_names(m), base, sep);
    let increment_base = match prefix {
        Some(p) => p,
        None => if utf8_len(base) > max_len { first_chars(base, max_len) } else { base },
    };
    lemma_first_free_is_free(m, increment_base, sep, max_len, 2);
    lemma_some_form_free(m, increment_base, sep, max_len);
    if all_ascii(base) && all_ascii(sep) && utf8_len(sep) + 4 <= max_len {
        lemma_longest_prefix_starts(all_names(m), base, sep);
        lemma_ascii_utf8_len(base);
        if max_len < base.len() {
            lemma_ascii_take(base, max_len as int);
            lemma_ascii_utf8_len(base.take(max_len as int));
        }
        if let Some(p) = prefix {
            lemma_ascii_take(base, p.len() as int);
            assert(base.take(p.len() as int) == p);
        }
        assert(all_ascii(increment_base));
        if let Some(c) = first_free(m, increment_base, sep, max_len, 2) {
            lemma_first_free_form(m, increment_base, sep, max_len, 2);
            let k = choose|k: nat| 2 <= k <= 1000 && c == fitted(increment_base, counter_suffix(sep, k), max_len);
            lemma_digits_ascii(k);
            let u = counter_suffix(sep, k);
            lemma_utf8_len_concat(sep, decimal_text(k));
            let t = first_chars(increment_base, sat_sub(max_len, utf8_len(u)));
            if sat_sub(max_len, utf8_len(u)) < increment_base.len() {
                lemma_ascii_take(increment_base, sat_sub(max_len, utf8_len(u)) as int);
            }
            lemma_ascii_utf8_len(t);
            lemma_utf8_len_concat(t, u);
        }
    }
}

proof fn lemma_first_free_form(m: ManagerView, base: Seq<char>, sep: Seq<char>, max_len: nat, counter: nat)
    requires
        counter >= 2,
    ensures
        first_free(m, base, sep, max_len, counter) matches Some(c) ==> exists|k: nat|
            counter <= k <= 1000 && c == fitted(base, counter_suffix(sep, k), max_len),
    decreases 1001 - counter,
{
    if counter <= 1000 && name_exists(m, fitted(base, counter_suffix(sep, counter), max_len)) {
        lemma_first_free_form(m, base, sep, max_len, counter + 1);
    }
}

/// The smaller of the UTF-8 length of `s` and `cap`.
fn byte_len_min(s: &[char], cap: usize) -> (res: usize)
    ensures
        res == if utf8_len(s@) < cap { utf8_len(s@) } else { cap as nat },
{
    let mut total: usize = 0;
    let mut i: usize = 0;
    assert(s@.skip(0) == s@);
    while i < s.len()
        invariant
            i <= s@.len(),
            total < cap || (total == cap && i == 0 && cap == 0),
            utf8_len(s@) == total + utf8_len(s@.skip(i as int)),
        decreases s@.len() - i,
    {
        let w = char_width(s[i]);
        assert(s@.skip(i as int).drop_first() == s@.skip(i + 1));
        if w >= cap - total {
            return cap;
        }
        total = total + w;
        i = i + 1;
    }
    assert(s@.skip(i as int) =~= Seq::<char>::empty());
    total
}

fn first_chars_exec(s: &[char], n: usize) -> (res: Vec<char>)
    ensures
        res@ == first_chars(s@, n as nat),
{
    if n < s.len() {
        slice_chars(s, 0, n)
    } else {
        copy_chars(s)
    }
}

fn fitted_exec(base: &[char], suffix: &[char], max_len: usize) -> (res: Vec<char>)
    ensures
        res@ == fitted(base@, suffix@, max_len as nat),
{
    let used = byte_len_min(suffix, max_len);
    let mut out = first_chars_exec(base, max_len - used);
    extend_chars(&mut out, suffix);
    out
}

fn counter_suffix_exec(sep: &[char], counter: u64) -> (res: Vec<char>)
    ensures
        res@ == counter_suffix(sep@, counter as nat),
{
    let mut out = copy_chars(sep);
    extend_chars(&mut out, &decimal_chars(counter));
    out
}

impl Default for SessionManager {
    /// A manager that knows no session.
    fn default() -> (res: SessionManager)
        ensures
            res@.live.len() == 0,
            res@.resurrectable.len() == 0,
            res@.dead.len() == 0,
    {
        SessionManager::new()
    }
}

impl SessionManager {
    /// A manager that knows no session.
    pub fn new() -> (res: SessionManager)
        ensures
            res@.live.len() == 0,
            res@.resurrectable.len() == 0,
            res@.dead.len() == 0,
    {
        SessionManager { sessions: Vec::new(), resurrectable_sessions: Vec::new() }
    }

    pub fn update_sessions(&mut self, sessions: Vec<LiveSession>)
        ensures
            final(self)@.live == live_views(sessions@),
            final(self)@.resurrectable == old(self)@.resurrectable,
            final(self)@.dead == old(self)@.dead,
    {
        proof {
            use_type_invariant(&*self);
        }
        self.sessions = sessions;
    }

    pub fn update_resurrectable_sessions(&mut self, sessions: Vec<ResurrectableSession>)
        requires
            ages_valid(sessions@),
        ensures
            final(self)@.resurrectable == sessions@.map_values(|r: ResurrectableSession| r.name@),
            final(self)@.dead == dead_views(sessions@),
            final(self)@.live == old(self)@.live,
    {
        self.resurrectable_sessions = sessions;
    }

    pub fn sessions(&self) -> (res: &Vec<LiveSession>)
        ensures
            live_views(res@) == self@.live,
    {
        &self.sessions
    }

    pub fn resurrectable_sessions(&self) -> (res: &Vec<ResurrectableSession>)
        ensures
            res@.map_values(|r: ResurrectableSession| r.name@) == self@.resurrectable,
            dead_views(res@) == self@.dead,
            ages_valid(res@),
    {
        proof {
            use_type_invariant(self);
        }
        &self.resurrectable_sessions
    }

    /// Whether a session of that name exists, live or resurrectable.
    pub fn name_exists(&self, candidate: &[char]) -> (res: bool)
        ensures
            res == name_exists(self@, candidate@),
    {
        let ghost names = all_names(self@);
        let ghost nl = self@.live.len();
        let mut i: usize = 0;
        while i < self.sessions.len()
            invariant
                i <= self.sessions@.len(),
                names == all_names(self@),
                nl == self.sessions@.len(),
                forall|k: int| 0 <= k < i ==> names[k] != candidate@,
            decreases self.sessions@.len() - i,
        {
            assert(names[i as int] == self.sessions@[i as int].name@);
            if chars_eq(&chars_of(self.sessions[i].name.as_str()), candidate) {
                return true;
            }
            i = i + 1;
        }
        let mut j: usize = 0;
        while j < self.resurrectable_sessions.len()
            invariant
                j <= self.resurrectable_sessions@.len(),
                names == all_names(self@),
                nl == self.sessions@.len(),
                names.len() == nl + self.resurrectable_sessions@.len(),
                forall|k: int| 0 <= k < nl + j ==> names[k] != candidate@,
            decreases self.resurrectable_sessions@.len() - j,
        {
            assert(names[nl + j] == self.resurrectable_sessions@[j as int].name@);
            if chars_eq(&chars_of(self.resurrectable_sessions[j].name.as_str()), candidate) {
                return true;
            }
            j = j + 1;
        }
        false
    }

    /// The name of the current session.
    pub fn current_session_name(&self) -> (res: Option<String>)
        ensures
            match current_from(self@.live, 0) {
                Some(i) => res is Some && res->0@ == self@.live[i as int].name,
                None => res is None,
            },
    {
        match self.current_index() {
            Some(i) => {
                assert(self@.live[i as int] == self.sessions@[i as int]@);
                Some(self.sessions[i].name.clone())
            },
            None => None,
        }
    }

    fn current_index(&self) -> (res: Option<usize>)
        ensures
            res is None <==> current_from(self@.live, 0) is None,
            res matches Some(k) ==> current_from(self@.live, 0) == Some(k as nat) && k < self@.live.len(),
    {
        let ghost lv = self@.live;
        let mut i: usize = 0;
        while i < self.sessions.len()
            invariant
                i <= self.sessions@.len(),
                lv == self@.live,
                lv == live_views(self.sessions@),
                current_from(lv, 0) == current_from(lv, i as int),
            decreases self.sessions@.len() - i,
        {
            assert(lv[i as int] == self.sessions@[i as int]@);
            if self.sessions[i].is_current_session {
                return Some(i);
            }
            i = i + 1;
        }
        None
    }

    /// The layouts that the current session offers (none without a current session).
    pub fn current_layouts(&self) -> (res: Vec<LayoutRef>)
        ensures
            match current_from(self@.live, 0) {
                Some(i) => layout_views(res@) == self@.live[i as int].layouts,
                None => res@.len() == 0,
            },
    {
        match self.current_index() {
            Some(i) => {
                assert(self@.live[i as int] == self.sessions@[i as int]@);
                copy_layouts(&self.sessions[i].available_layouts)
            },
            None => Vec::new(),
        }
    }

    /// The session of that name among the resurrectable ones.
    pub fn resurrectable_session_name(&self, session_name: &str) -> (res: Option<String>)
        ensures
            match res {
                Some(n) => n@ == session_name@ && self@.resurrectable.contains(session_name@),
                None => !self@.resurrectable.contains(session_name@),
            },
    {
        let ghost r = self@.resurrectable;
        let mut i: usize = 0;
        while i < self.resurrectable_sessions.len()
            invariant
                i <= self.resurrectable_sessions@.len(),
                r == self@.resurrectable,
                forall|k: int| 0 <= k < i ==> r[k] != session_name@,
            decreases self.resurrectable_sessions@.len() - i,
        {
            assert(r[i as int] == self.resurrectable_sessions@[i as int].name@);
            if crate::text::str_eq(self.resurrectable_sessions[i].name.as_str(), session_name) {
                return Some(self.resurrectable_sessions[i].name.clone());
            }
            i = i + 1;
        }
        None
    }

    /// Whether some incremented form of `base` is taken.
    fn has_incremented_name(&self, base: &[char], sep: &[char], max_len: usize) -> (res: bool)
        ensures
            res == has_incremented_name_spec(self@, base@, sep@, max_len as nat),
    {
        let mut counter: u64 = 2;
        while counter <= 1000
            invariant
                2 <= counter <= 1001,
                forall|c: nat| 2 <= c < counter ==> !name_exists(self@, #[trigger] fitted(base@, counter_suffix(sep@, c), max_len as nat)),
            decreases 1001 - counter,
        {
            let suffix = counter_suffix_exec(sep, counter);
            let candidate = fitted_exec(base, &suffix, max_len);
            if self.name_exists(&candidate) {
                return true;
            }
            counter = counter + 1;
        }
        false
    }

    /// The first free incremented form of `base`.
    fn first_free_name(&self, base: &[char], sep: &[char], max_len: usize) -> (res: Option<Vec<char>>)
        ensures
            match first_free(self@, base@, sep@, max_len as nat, 2) {
                Some(n) => res is Some && res->0@ == n,
                None => res is None,
            },
    {
        let mut counter: u64 = 2;
        while counter <= 1000
            invariant
                2 <= counter <= 1001,
                first_free(self@, base@, sep@, max_len as nat, 2) == first_free(self@, base@, sep@, max_len as nat, counter as nat),
            decreases 1001 - counter,
        {
            let suffix = counter_suffix_exec(sep, counter);
            let candidate = fitted_exec(base, &suffix, max_len);
            if !self.name_exists(&candidate) {
                return Some(candidate);
            }
            counter = counter + 1;
        }
        None
    }

    /// The names of all sessions, as character vectors.
    fn all_names_exec(&self) -> (res: Vec<Vec<char>>)
        ensures
            res@.map_values(|v: Vec<char>| v@) == all_names(self@),
    {
        let ghost live = self@.live.map_values(|s: LiveView| s.name);
        let ghost dead = self@.resurrectable;
        let mut names_v: Vec<Vec<char>> = Vec::new();
        let mut i: usize = 0;
        while i < self.sessions.len()
            invariant
                i <= self.sessions@.len(),
                live == self@.live.map_values(|s: LiveView| s.name),
                self@.live == live_views(self.sessions@),
                names_v@.map_values(|v: Vec<char>| v@) == live.take(i as int),
            decreases self.sessions@.len() - i,
        {
            let ghost before = names_v@.map_values(|v: Vec<char>| v@);
            let n = chars_of(self.sessions[i].name.as_str());
            let ghost nv = n@;
            names_v.push(n);
            assert(names_v@.map_values(|v: Vec<char>| v@) =~= before.push(nv));
            assert(live[i as int] == self.sessions@[i as int].name@);
            assert(live.take(i + 1) =~= live.take(i as int).push(live[i as int]));
            i = i + 1;
        }
        assert(live.take(live.len() as int) =~= live);
        let ghost head = names_v@.map_values(|v: Vec<char>| v@);
        let mut j: usize = 0;
        assert(head + dead.take(0) =~= head);
        while j < self.resurrectable_sessions.len()
            invariant
                j <= self.resurrectable_sessions@.len(),
                dead == self@.resurrectable,
                dead == self.resurrectable_sessions@.map_values(|r: ResurrectableSession| r.name@),
                names_v@.map_values(|v: Vec<char>| v@) == head + dead.take(j as int),
            decreases self.resurrectable_sessions@.len() - j,
        {
            let ghost before = names_v@.map_values(|v: Vec<char>| v@);
            let n = chars_of(self.resurrectable_sessions[j].name.as_str());
            let ghost nv = n@;
            names_v.push(n);
            assert(names_v@.map_values(|v: Vec<char>| v@) =~= before.push(nv));
            assert(dead[j as int] == self.resurrectable_sessions@[j as int].name@);
            assert(dead.take(j + 1) =~= dead.take(j as int).push(dead[j as int]));
            j = j + 1;
        }
        assert(dead.take(dead.len() as int) =~= dead);
        names_v
    }

    /// The longest incremented prefix, among all session names, that `base` starts with.
    fn existing_incremented_prefix(&self, base: &[char], sep: &[char]) -> (res: Option<Vec<char>>)
        ensures
            match longest_prefix(all_names(self@), base@, sep@) {
                Some(p) => res is Some && res->0@ == p,
                None => res is None,
            },
    {
        let names = self.all_names_exec();
        longest_prefix_exec(&names, base, sep)
    }

    /// The name for a new session named after `base_name`, at most `max_len` bytes where the
    /// separator allows, that clashes with no session (see [`incremented_name`]).
    pub fn generate_incremented_name(&self, base_name: &str, separator: &str, max_len: usize) -> (res: String)
        ensures
            res@ == incremented_name(self@, base_name@, separator@, max_len as nat),
    {
        let base = chars_of(base_name);
        let sep = chars_of(separator);
        let prefix = self.existing_incremented_prefix(&base, &sep);
        let base_too_long = bytes_exceed(&base, max_len);
        if !base_too_long && !self.name_exists(&base) && prefix.is_none() {
            return string_of(&base);
        }
        let increment_base = match prefix {
            Some(p) => p,
            None => {
                if base_too_long {
                    let truncated = first_chars_exec(&base, max_len);
                    if !self.name_exists(&truncated) && !self.has_incremented_name(&base, &sep, max_len) {
                        return string_of(&truncated);
                    }
                    truncated
                } else {
                    copy_chars(&base)
                }
            },
        };
        match self.first_free_name(&increment_base, &sep, max_len) {
            Some(n) => string_of(&n),
            None => {
                let mut suffix = copy_chars(&sep);
                extend_chars(&mut suffix, &chars_of("overflow"));
                string_of(&fitted_exec(&base, &suffix, max_len))
            },
        }
    }
}

pub(crate) fn copy_layouts(v: &Vec<LayoutRef>) -> (res: Vec<LayoutRef>)
    ensures
        layout_views(res@) == layout_views(v@),
{
    let mut res: Vec<LayoutRef> = Vec::new();
    let mut i: usize = 0;
    while i < v.len()
        invariant
            i <= v@.len(),
            layout_views(res@) == layout_views(v@).take(i as int),
        decreases v@.len() - i,
    {
        let ghost before = res@;
        let l = LayoutRef { name: v[i].name.clone(), id: v[i].id };
        res.push(l);
        assert(layout_views(res@) =~= layout_views(before).push((v@[i as int].name@, v@[i as int].id)));
        assert(layout_views(v@).take(i + 1) =~= layout_views(v@).take(i as int).push((v@[i as int].name@, v@[i as int].id)));
        i = i + 1;
    }
    assert(layout_views(v@).take(v@.len() as int) =~= layout_views(v@));
    res
}

/// Whether the UTF-8 encoding of `s` is longer than `max` bytes.
fn bytes_exceed(s: &[char], max: usize) -> (res: bool)
    ensures
        res == (utf8_len(s@) > max),
{
    let mut total: usize = 0;
    let mut i: usize = 0;
    assert(s@.skip(0) == s@);
    while i < s.len()
        invariant
            i <= s@.len(),
            total <= max,
            utf8_len(s@) == total + utf8_len(s@.skip(i as int)),
        decreases s@.len() - i,
    {
        let w = char_width(s[i]);
        assert(s@.skip(i as int).drop_first() == s@.skip(i + 1));
        if w > max - total {
            proof {
                crate::text::lemma_utf8_len_nonneg(s@.skip(i + 1));
            }
            return true;
        }
        total = total + w;
        i = i + 1;
    }
    assert(s@.skip(i as int) =~= Seq::<char>::empty());
    false
}

fn incremented_prefix_exec(name: &[char], sep: &[char]) -> (res: Option<Vec<char>>)
    ensures
        match incremented_prefix(name@, sep@) {
            Some(p) => res is Some && res->0@ == p,
            None => res is None,
        },
{
    if sep.len() == 0 {
        return None;
    }
    // The last occurrence of the separator.
    let mut i: usize = name.len();
    let mut found = false;
    loop
        invariant_except_break
            i <= name@.len(),
            !found,
            sep@.len() > 0,
            forall|j: int| i < j ==> !occurs_at(name@, sep@, j),
        ensures
            found ==> occurs_at(name@, sep@, i as int) && forall|j: int| i < j ==> !occurs_at(name@, sep@, j),
            !found ==> forall|j: int| 0 <= j ==> !occurs_at(name@, sep@, j),
        decreases i,
    {
        if occurs_at_exec(name, sep, i) {
            found = true;
            break;
        }
        if i == 0 {
            break;
        }
        i = i - 1;
    }
    if !found {
        assert(!(exists|j: int| occurs_at(name@, sep@, j)));
        return None;
    }
    proof {
        let k = choose|k: int| occurs_at(name@, sep@, k) && forall|j: int| k < j ==> !occurs_at(name@, sep@, j);
        assert(k == i as int) by {
            if k < i {
            } else if k > i {
            }
        }
    }
    let suffix = slice_chars(name, i + sep.len(), name.len());
    if suffix.len() == 0 {
        return None;
    }
    if !all_digits(&suffix) {
        return None;
    }
    Some(slice_chars(name, 0, i))
}

fn all_digits(s: &[char]) -> (res: bool)
    ensures
        res == forall|m: int| 0 <= m < s@.len() ==> '0' <= #[trigger] s@[m] <= '9',
{
    let mut k: usize = 0;
    while k < s.len()
        invariant
            k <= s@.len(),
            forall|m: int| 0 <= m < k ==> '0' <= #[trigger] s@[m] <= '9',
        decreases s@.len() - k,
    {
        if !('0' <= s[k] && s[k] <= '9') {
            return false;
        }
        k = k + 1;
    }
    true
}

fn longest_prefix_exec(names: &Vec<Vec<char>>, base: &[char], sep: &[char]) -> (res: Option<Vec<char>>)
    ensures
        match longest_prefix(names@.map_values(|v: Vec<char>| v@), base@, sep@) {
            Some(p) => res is Some && res->0@ == p,
            None => res is None,
        },
{
    let ghost nv = names@.map_values(|v: Vec<char>| v@);
    let mut best: Option<Vec<char>> = None;
    let mut i: usize = 0;
    assert(nv.take(0) =~= Seq::<Seq<char>>::empty());
    while i < names.len()
        invariant
            i <= names@.len(),
            nv == names@.map_values(|v: Vec<char>| v@),
            match longest_prefix(nv.take(i as int), base@, sep@) {
                Some(p) => best is Some && best->0@ == p,
                None => best is None,
            },
        decreases names@.len() - i,
    {
        assert(nv.take(i + 1).drop_last() == nv.take(i as int));
        assert(nv.take(i + 1).last() == names@[i as int]@);
        if let Some(p) = incremented_prefix_exec(&names[i], sep) {
            if crate::text::has_prefix(base, &p) {
                let replace = match &best {
                    None => true,
                    Some(b) => !longer_than(b, &p),
                };
                if replace {
                    best = Some(p);
                }
            }
        }
        i = i + 1;
    }
    assert(nv.take(names@.len() as int) == nv);
    best
}

/// Whether `a` is longer than `b` in UTF-8 bytes.
fn longer_than(a: &[char], b: &[char]) -> (res: bool)
    ensures
        res == (utf8_len(a@) > utf8_len(b@)),
{
    crate::seshmin::zoxide::longer_in_bytes(a, b)
}


/// How a session is deleted: a resurrectable one is deleted, a live one killed.
#[derive(Debug, Clone, PartialEq, Eq)]
pub enum SessionDeletion {
    DeleteDead(String),
    Kill(String),
}

/// The live sessions whose names are not in `excluded`, in order.
pub open spec fn live_not_in(live: Seq<LiveView>, excluded: Seq<Seq<char>>) -> Seq<LiveView>
    decreases live.len(),
{
    if live.len() == 0 {
        seq![]
    } else if excluded.contains(live.last().name) {
        live_not_in(live.drop_last(), excluded)
    } else {
        live_not_in(live.drop_last(), excluded).push(live.last())
    }
}

/// The names not in `excluded`, in order.
pub open spec fn names_not_in(names: Seq<Seq<char>>, excluded: Seq<Seq<char>>) -> Seq<Seq<char>>
    decreases names.len(),
{
    if names.len() == 0 {
        seq![]
    } else if excluded.contains(names.last()) {
        names_not_in(names.drop_last(), excluded)
    } else {
        names_not_in(names.drop_last(), excluded).push(names.last())
    }
}

/// The resurrectable sessions whose names are not in `excluded`, in order.
pub open spec fn dead_not_in(dead: Seq<(Seq<char>, u64, u32)>, excluded: Seq<Seq<char>>) -> Seq<(Seq<char>, u64, u32)>
    decreases dead.len(),
{
    if dead.len() == 0 {
        seq![]
    } else if excluded.contains(dead.last().0) {
        dead_not_in(dead.drop_last(), excluded)
    } else {
        dead_not_in(dead.drop_last(), excluded).push(dead.last())
    }
}

/// [`live_not_in`] drops exactly the sessions named in `excluded`.
pub proof fn lemma_live_not_in(live: Seq<LiveView>, excluded: Seq<Seq<char>>)
    ensures
        forall|i: int| 0 <= i < live_not_in(live, excluded).len() ==> !excluded.contains(
            #[trigger] live_not_in(live, excluded)[i].name,
        ),
        forall|j: int| 0 <= j < live.len() && !excluded.contains(#[trigger] live[j].name) ==> live_not_in(
            live,
            excluded,
        ).contains(live[j]),
    decreases live.len(),
{
    if live.len() > 0 {
        let rest = live_not_in(live.drop_last(), excluded);
        lemma_live_not_in(live.drop_last(), excluded);
        let r = live_not_in(live, excluded);
        assert forall|i: int| 0 <= i < r.len() implies !excluded.contains(#[trigger] r[i].name) by {
            if i < rest.len() {
                assert(r[i] == rest[i]);
            }
        }
        assert forall|j: int| 0 <= j < live.len() && !excluded.contains(#[trigger] live[j].name) implies r.contains(
            live[j],
        ) by {
            if j < live.len() - 1 {
                assert(live.drop_last()[j] == live[j]);
                let k = choose|k: int| 0 <= k < rest.len() && rest[k] == live[j];
                assert(r[k] == rest[k]);
            } else {
                assert(r[r.len() - 1] == live[j]);
            }
        }
    }
}

/// [`names_not_in`] drops exactly the names in `excluded`.
pub proof fn lemma_names_not_in(names: Seq<Seq<char>>, excluded: Seq<Seq<char>>)
    ensures
        forall|i: int| 0 <= i < names_not_in(names, excluded).len() ==> !excluded.contains(
            #[trigger] names_not_in(names, excluded)[i],
        ),
        forall|j: int| 0 <= j < names.len() && !excluded.contains(#[trigger] names[j]) ==> names_not_in(
            names,
            excluded,
        ).contains(names[j]),
    decreases names.len(),
{
    if names.len() > 0 {
        let rest = names_not_in(names.drop_last(), excluded);
        lemma_names_not_in(names.drop_last(), excluded);
        let r = names_not_in(names, excluded);
        assert forall|i: int| 0 <= i < r.len() implies !excluded.contains(#[trigger] r[i]) by {
            if i < rest.len() {
                assert(r[i] == rest[i]);
            }
        }
        assert forall|j: int| 0 <= j < names.len() && !excluded.contains(#[trigger] names[j]) implies r.contains(
            names[j],
        ) by {
            if j < names.len() - 1 {
                assert(names.drop_last()[j] == names[j]);
                let k = choose|k: int| 0 <= k < rest.len() && rest[k] == names[j];
                assert(r[k] == rest[k]);
            } else {
                assert(r[r.len() - 1] == names[j]);
            }
        }
    }
}

fn contains_name(v: &Vec<String>, x: &str) -> (res: bool)
    ensures
        res == v@.map_values(|s: String| s@).contains(x@),
{
    let ghost sv = v@.map_values(|s: String| s@);
    let mut i: usize = 0;
    while i < v.len()
        invariant
            i <= v@.len(),
            sv == v@.map_values(|s: String| s@),
            forall|k: int| 0 <= k < i ==> sv[k] != x@,
        decreases v@.len() - i,
    {
        assert(sv[i as int] == v@[i as int]@);
        if crate::text::str_eq(v[i].as_str(), x) {
            return true;
        }
        i = i + 1;
    }
    false
}

impl SessionManager {
    /// Drops the live sessions whose names are in `excluded`.
    pub fn retain_sessions(&mut self, excluded: &Vec<String>)
        ensures
            final(self)@.live == live_not_in(old(self)@.live, excluded@.map_values(|s: String| s@)),
            final(self)@.resurrectable == old(self)@.resurrectable,
            final(self)@.dead == old(self)@.dead,
    {
        proof {
            use_type_invariant(&*self);
        }
        let ghost lv = self@.live;
        let ghost ex = excluded@.map_values(|s: String| s@);
        let mut kept: Vec<LiveSession> = Vec::new();
        let mut i: usize = 0;
        assert(lv.take(0) =~= Seq::<LiveView>::empty());
        assert(live_views(kept@) =~= Seq::<LiveView>::empty());
        while i < self.sessions.len()
            invariant
                i <= self.sessions@.len(),
                lv == live_views(self.sessions@),
                ex == excluded@.map_values(|s: String| s@),
                live_views(kept@) == live_not_in(lv.take(i as int), ex),
            decreases self.sessions@.len() - i,
        {
            assert(lv.take(i + 1).drop_last() == lv.take(i as int));
            assert(lv.take(i + 1).last() == self.sessions@[i as int]@);
            if !contains_name(excluded, self.sessions[i].name.as_str()) {
                let ghost before = kept@;
                let s = LiveSession {
                    name: self.sessions[i].name.clone(),
                    is_current_session: self.sessions[i].is_current_session,
                    available_layouts: copy_layouts(&self.sessions[i].available_layouts),
                };
                kept.push(s);
                assert(live_views(kept@) =~= live_views(before).push(self.sessions@[i as int]@));
            }
            i = i + 1;
        }
        assert(lv.take(lv.len() as int) == lv);
        self.sessions = kept;
    }

    /// Drops the resurrectable sessions whose names are in `excluded`.
    pub fn retain_resurrectable_sessions(&mut self, excluded: &Vec<String>)
        ensures
            final(self)@.resurrectable == names_not_in(old(self)@.resurrectable, excluded@.map_values(|s: String| s@)),
            final(self)@.dead == dead_not_in(old(self)@.dead, excluded@.map_values(|s: String| s@)),
            final(self)@.live == old(self)@.live,
    {
        proof {
            use_type_invariant(&*self);
        }
        let ghost rv = self@.resurrectable;
        let ghost dv = self@.dead;
        let ghost ex = excluded@.map_values(|s: String| s@);
        let mut kept: Vec<ResurrectableSession> = Vec::new();
        let mut i: usize = 0;
        assert(rv.take(0) =~= Seq::<Seq<char>>::empty());
        assert(kept@.map_values(|r: ResurrectableSession| r.name@) =~= Seq::<Seq<char>>::empty());
        assert(dv.take(0) =~= Seq::<(Seq<char>, u64, u32)>::empty());
        assert(dead_views(kept@) =~= Seq::<(Seq<char>, u64, u32)>::empty());
        while i < self.resurrectable_sessions.len()
            invariant
                i <= self.resurrectable_sessions@.len(),
                rv == self.resurrectable_sessions@.map_values(|r: ResurrectableSession| r.name@),
                dv == dead_views(self.resurrectable_sessions@),
                ages_valid(self.resurrectable_sessions@),
                ages_valid(kept@),
                ex == excluded@.map_values(|s: String| s@),
                kept@.map_values(|r: ResurrectableSession| r.name@) == names_not_in(rv.take(i as int), ex),
                dead_views(kept@) == dead_not_in(dv.take(i as int), ex),
            decreases self.resurrectable_sessions@.len() - i,
        {
            assert(rv.take(i + 1).drop_last() == rv.take(i as int));
            assert(rv.take(i + 1).last() == self.resurrectable_sessions@[i as int].name@);
            assert(dv.take(i + 1).drop_last() == dv.take(i as int));
            assert(dv.take(i + 1).last() == dead_views(self.resurrectable_sessions@)[i as int]);
            if !contains_name(excluded, self.resurrectable_sessions[i].name.as_str()) {
                let ghost before = kept@;
                let r = ResurrectableSession {
                    name: self.resurrectable_sessions[i].name.clone(),
                    secs: self.resurrectable_sessions[i].secs,
                    nanos: self.resurrectable_sessions[i].nanos,
                };
                kept.push(r);
                assert(kept@.map_values(|r: ResurrectableSession| r.name@) =~= before.map_values(
                    |r: ResurrectableSession| r.name@,
                ).push(self.resurrectable_sessions@[i as int].name@));
                assert(dead_views(kept@) =~= dead_views(before).push(dv[i as int]));
            }
            i = i + 1;
        }
        assert(rv.take(rv.len() as int) == rv);
        assert(dv.take(dv.len() as int) == dv);
        self.resurrectable_sessions = kept;
    }

    /// How to delete the session of that name: delete it where it is resurrectable, else
    /// kill it.
    pub fn delete_session(&self, session_name: &str) -> (res: SessionDeletion)
        ensures
            match res {
                SessionDeletion::DeleteDead(n) => n@ == session_name@ && self@.resurrectable.contains(session_name@),
                SessionDeletion::Kill(n) => n@ == session_name@ && !self@.resurrectable.contains(session_name@),
            },
    {
        match self.resurrectable_session_name(session_name) {
            Some(n) => SessionDeletion::DeleteDead(n),
            None => SessionDeletion::Kill(String::from_str(session_name)),
        }
    }
}

} // verus!
