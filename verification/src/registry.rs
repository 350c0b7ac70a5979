//! The set of sessions that treemin manages, recorded one name per line in a file of the
//! treemin namespace.
//!
//! Reading and writing that file is the caller's part: the registry takes what a read
//! returned and gives back the listing, the answer, or the contents to write.
//!
//! The set of names is held as a `Vec<String>` in strictly increasing byte order, the order
//! in which a `BTreeSet<String>` iterates; that order is the invariant that keeps each name
//! once.  vstd's specification of `BTreeSet` holds only for keys whose ordering it models
//! (`obeys_cmp`), and it does not model that of `String`.
use vstd::prelude::*;

use crate::host_storage::{HostStorage, StorageError, StorageErrorKind, HOST_ROOT};
use crate::text::{
    chars_eq, chars_of, extend_chars, is_ws, lemma_lex_lt_asymmetric,
    lemma_lex_lt_irreflexive, lemma_lex_lt_total, lemma_lex_lt_transitive, lex_less, lex_lt,
    lines, lines_exec, split_acc, trimmed_nonblank, split_char, string_of, strip_cr, trim, trim_end, trim_exec,
    trim_start,
};
use crate::treemin::naming::{path_join, path_join_exec};

verus! {

/// The namespace directory of treemin under the host root.
pub const TREEMIN_NAMESPACE: &'static str = "treemin";

/// The file, inside the namespace, that lists the managed sessions.
pub const TREEMIN_SESSIONS_FILE: &'static str = "sessions/managed.txt";

// ---------------------------------------------------------------------------
// The model: a set of names, listed in increasing order
// ---------------------------------------------------------------------------
/// Names in strictly increasing byte order.
pub open spec fn strictly_asc(s: Seq<Seq<char>>) -> bool {
    forall|i: int, j: int| 0 <= i < j < s.len() ==> lex_lt(#[trigger] s[i], #[trigger] s[j])
}

/// `s` lists each member of `names` once, in increasing order.
pub open spec fn lists(s: Seq<Seq<char>>, names: Set<Seq<char>>) -> bool {
    strictly_asc(s) && s.to_set() == names
}

/// The increasing listing of a set of names (there is at most one, see
/// [`lemma_listing_unique`]).
pub open spec fn sorted_names(names: Set<Seq<char>>) -> Seq<Seq<char>> {
    choose|s: Seq<Seq<char>>| lists(s, names)
}

/// The text of each string.
pub open spec fn texts(v: Seq<String>) -> Seq<Seq<char>> {
    v.map_values(|s: String| s@)
}

/// The text of each character vector.
pub open spec fn char_texts(v: Seq<Vec<char>>) -> Seq<Seq<char>> {
    v.map_values(|s: Vec<char>| s@)
}

/// The session names that file contents record.
pub open spec fn recorded_names(contents: Seq<char>) -> Set<Seq<char>> {
    trimmed_nonblank(lines(contents)).to_set()
}

/// File contents for a listing: each name followed by a newline.
pub open spec fn rendered(s: Seq<Seq<char>>) -> Seq<char>
    decreases s.len(),
{
    if s.len() == 0 {
        seq![]
    } else {
        s[0] + seq!['\n'] + rendered(s.drop_first())
    }
}

/// A name that a line of the file can hold and give back unchanged: not empty, on one line,
/// and without whitespace at either end.
pub open spec fn is_entry(n: Seq<char>) -> bool {
    n.len() > 0 && !is_ws(n[0]) && !is_ws(n.last()) && !n.contains('\n')
}

/// Two increasing listings of the same set are the same sequence.
pub proof fn lemma_listing_unique(a: Seq<Seq<char>>, b: Seq<Seq<char>>, names: Set<Seq<char>>)
    requires
        lists(a, names),
        lists(b, names),
    ensures
        a == b,
    decreases a.len(),
{
    if a.len() == 0 {
        if b.len() > 0 {
            assert(b.to_set().contains(b[0]));
        }
        assert(b.len() == 0);
        assert(a =~= b);
    } else {
        assert(a.to_set().contains(a[0]));
        assert(b.len() > 0);
        assert(b.to_set().contains(b[0]));
        // The first element of each is the least member of the set.
        let k = choose|k: int| 0 <= k < b.len() && b[k] == a[0];
        let m = choose|m: int| 0 <= m < a.len() && a[m] == b[0];
        if a[0] != b[0] {
            assert(k > 0 && m > 0);
            assert(lex_lt(b[0], b[k]));
            assert(lex_lt(a[0], a[m]));
            lemma_lex_lt_asymmetric(a[0], b[0]);
        }
        let a1 = a.drop_first();
        let b1 = b.drop_first();
        let rest = names.remove(a[0]);
        assert(strictly_asc(a1)) by {
            assert forall|i: int, j: int| 0 <= i < j < a1.len() implies lex_lt(#[trigger] a1[i], #[trigger] a1[j]) by {
                assert(a1[i] == a[i + 1] && a1[j] == a[j + 1]);
            }
        }
        assert(strictly_asc(b1)) by {
            assert forall|i: int, j: int| 0 <= i < j < b1.len() implies lex_lt(#[trigger] b1[i], #[trigger] b1[j]) by {
                assert(b1[i] == b[i + 1] && b1[j] == b[j + 1]);
            }
        }
        lemma_drop_first_set(a);
        lemma_drop_first_set(b);
        lemma_listing_unique(a1, b1, rest);
        assert(a =~= seq![a[0]] + a1);
        assert(b =~= seq![b[0]] + b1);
    }
}

/// Dropping the least element of an increasing listing removes it from the set.
proof fn lemma_drop_first_set(a: Seq<Seq<char>>)
    requires
        strictly_asc(a),
        a.len() > 0,
    ensures
        a.drop_first().to_set() == a.to_set().remove(a[0]),
{
    let t = a.drop_first();
    assert forall|y| t.to_set().contains(y) implies a.to_set().remove(a[0]).contains(y) by {
        let k = choose|k: int| 0 <= k < t.len() && t[k] == y;
        assert(a[k + 1] == y);
        assert(lex_lt(a[0], a[k + 1]));
        lemma_lex_lt_irreflexive(y);
    }
    assert forall|y| a.to_set().remove(a[0]).contains(y) implies t.to_set().contains(y) by {
        let k = choose|k: int| 0 <= k < a.len() && a[k] == y;
        assert(k > 0);
        assert(t[k - 1] == y);
    }
    assert(t.to_set() =~= a.to_set().remove(a[0]));
}

/// The listing chosen by [`sorted_names`] is the one given.
pub proof fn lemma_sorted_names(s: Seq<Seq<char>>, names: Set<Seq<char>>)
    requires
        lists(s, names),
    ensures
        sorted_names(names) == s,
{
    let c = sorted_names(names);
    assert(lists(c, names));
    lemma_listing_unique(c, s, names);
}


// ---------------------------------------------------------------------------
// What a written file reads back as
// ---------------------------------------------------------------------------
proof fn lemma_split_acc_no_sep(s: Seq<char>, c: char, cur: Seq<char>)
    requires
        !s.contains(c),
    ensures
        split_acc(s, c, cur) == seq![cur + s],
    decreases s.len(),
{
    if s.len() == 0 {
        assert(cur + s =~= cur);
    } else {
        assert(s[0] != c);
        assert(!s.drop_first().contains(c)) by {
            if s.drop_first().contains(c) {
                let k = choose|k: int| 0 <= k < s.drop_first().len() && s.drop_first()[k] == c;
                assert(s[k + 1] == c);
            }
        }
        lemma_split_acc_no_sep(s.drop_first(), c, cur.push(s[0]));
        assert(cur.push(s[0]) + s.drop_first() =~= cur + s);
    }
}

proof fn lemma_split_acc_sep(x: Seq<char>, rest: Seq<char>, c: char, cur: Seq<char>)
    requires
        !x.contains(c),
    ensures
        split_acc(x + seq![c] + rest, c, cur) == seq![cur + x] + split_acc(rest, c, seq![]),
    decreases x.len(),
{
    let w = x + seq![c] + rest;
    if x.len() == 0 {
        assert(w[0] == c);
        assert(w.drop_first() =~= rest);
        assert(cur + x =~= cur);
    } else {
        assert(w[0] == x[0] && x[0] != c);
        assert(w.drop_first() =~= x.drop_first() + seq![c] + rest);
        assert(!x.drop_first().contains(c)) by {
            if x.drop_first().contains(c) {
                let k = choose|k: int| 0 <= k < x.drop_first().len() && x.drop_first()[k] == c;
                assert(x[k + 1] == c);
            }
        }
        lemma_split_acc_sep(x.drop_first(), rest, c, cur.push(x[0]));
        assert(cur.push(x[0]) + x.drop_first() =~= cur + x);
    }
}

proof fn lemma_split_rendered(s: Seq<Seq<char>>)
    requires
        forall|i: int| 0 <= i < s.len() ==> !(#[trigger] s[i]).contains('\n'),
    ensures
        split_char(rendered(s), '\n') == s.push(seq![]),
    decreases s.len(),
{
    if s.len() == 0 {
        assert(s.push(seq![]) =~= seq![Seq::<char>::empty()]);
    } else {
        let t = s.drop_first();
        assert forall|i: int| 0 <= i < t.len() implies !(#[trigger] t[i]).contains('\n') by {
            assert(t[i] == s[i + 1]);
        }
        lemma_split_rendered(t);
        lemma_split_acc_sep(s[0], rendered(t), '\n', seq![]);
        assert(Seq::<char>::empty() + s[0] =~= s[0]);
        assert(seq![s[0]] + t.push(seq![]) =~= s.push(seq![]));
    }
}

/// Facts about `trim_start`: it leaves a suffix that does not start with whitespace.
proof fn lemma_trim_start(x: Seq<char>)
    ensures
        trim_start(x).len() <= x.len(),
        x.skip(x.len() - trim_start(x).len()) == trim_start(x),
        trim_start(x).len() > 0 ==> !is_ws(trim_start(x)[0]),
    decreases x.len(),
{
    if x.len() > 0 && is_ws(x[0]) {
        lemma_trim_start(x.drop_first());
        assert(x.skip(x.len() - trim_start(x).len()) =~= x.drop_first().skip(
            x.drop_first().len() - trim_start(x.drop_first()).len(),
        ));
    } else {
        assert(x.skip(0) == x);
    }
}

/// Facts about `trim_end`: it leaves a prefix that does not end with whitespace.
proof fn lemma_trim_end(x: Seq<char>)
    ensures
        trim_end(x).len() <= x.len(),
        x.take(trim_end(x).len() as int) == trim_end(x),
        trim_end(x).len() > 0 ==> !is_ws(trim_end(x).last()),
    decreases x.len(),
{
    if x.len() > 0 && is_ws(x.last()) {
        lemma_trim_end(x.drop_last());
        assert(x.take(trim_end(x).len() as int) =~= x.drop_last().take(trim_end(x.drop_last()).len() as int));
    } else {
        assert(x.take(x.len() as int) == x);
    }
}

/// A trimmed line that is not blank is an entry.
proof fn lemma_trim_is_entry(x: Seq<char>)
    requires
        !x.contains('\n'),
        trim(x).len() > 0,
    ensures
        is_entry(trim(x)),
{
    let y = trim_start(x);
    lemma_trim_start(x);
    lemma_trim_end(y);
    let t = trim(x);
    assert(t[0] == y[0]);
    if t.contains('\n') {
        let k = choose|k: int| 0 <= k < t.len() && t[k] == '\n';
        assert(y[k] == '\n');
        assert(x[x.len() - y.len() + k] == '\n');
    }
}

/// An entry is its own trim.
proof fn lemma_entry_trim(x: Seq<char>)
    requires
        is_entry(x),
    ensures
        trim(x) == x,
{
    assert(trim_start(x) == x);
    assert(trim_end(x) == x);
}

proof fn lemma_split_acc_pieces(s: Seq<char>, c: char, cur: Seq<char>)
    requires
        !cur.contains(c),
    ensures
        forall|k: int| 0 <= k < split_acc(s, c, cur).len() ==> !(#[trigger] split_acc(s, c, cur)[k]).contains(c),
    decreases s.len(),
{
    if s.len() == 0 {
        assert(split_acc(s, c, cur) == seq![cur]);
        assert(split_acc(s, c, cur)[0] == cur);
    } else {
        if s[0] == c {
            assert(!Seq::<char>::empty().contains(c));
            lemma_split_acc_pieces(s.drop_first(), c, seq![]);
            let r = split_acc(s.drop_first(), c, seq![]);
            assert forall|k: int| 0 <= k < split_acc(s, c, cur).len() implies !(#[trigger] split_acc(s, c, cur)[k]).contains(c) by {
                if k > 0 {
                    assert(split_acc(s, c, cur)[k] == r[k - 1]);
                } else {
                    assert(split_acc(s, c, cur)[k] == cur);
                }
            }
        } else {
            assert(!cur.push(s[0]).contains(c)) by {
                if cur.push(s[0]).contains(c) {
                    let k = choose|k: int| 0 <= k < cur.push(s[0]).len() && cur.push(s[0])[k] == c;
                    if k < cur.len() {
                        assert(cur[k] == c);
                    }
                }
            }
            lemma_split_acc_pieces(s.drop_first(), c, cur.push(s[0]));
            assert(split_acc(s, c, cur) == split_acc(s.drop_first(), c, cur.push(s[0])));
        }
    }
}

/// Every name that file contents record is an entry.
proof fn lemma_recorded_are_entries(contents: Seq<char>)
    ensures
        forall|x: Seq<char>| recorded_names(contents).contains(x) ==> is_entry(x),
{
    let p = split_char(contents, '\n');
    assert(!Seq::<char>::empty().contains('\n'));
    lemma_split_acc_pieces(contents, '\n', seq![]);
    crate::text::lemma_split_acc_nonempty(contents, '\n', seq![]);
    let ls = lines(contents);
    assert forall|k: int| 0 <= k < ls.len() implies !(#[trigger] ls[k]).contains('\n') by {
        if k < p.len() - 1 {
            assert(ls[k] == strip_cr(p[k]));
            assert(!p[k].contains('\n'));
            if strip_cr(p[k]).contains('\n') {
                let j = choose|j: int| 0 <= j < strip_cr(p[k]).len() && strip_cr(p[k])[j] == '\n';
                assert(p[k][j] == '\n');
            }
        } else {
            assert(ls[k] == p.last());
            assert(!p[p.len() - 1].contains('\n'));
        }
    }
    lemma_trimmed_lines_are_entries(ls);
}

proof fn lemma_trimmed_lines_are_entries(ls: Seq<Seq<char>>)
    requires
        forall|k: int| 0 <= k < ls.len() ==> !(#[trigger] ls[k]).contains('\n'),
    ensures
        forall|x: Seq<char>| trimmed_nonblank(ls).to_set().contains(x) ==> is_entry(x),
    decreases ls.len(),
{
    if ls.len() > 0 {
        let t = ls.drop_last();
        assert forall|k: int| 0 <= k < t.len() implies !(#[trigger] t[k]).contains('\n') by {
            assert(t[k] == ls[k]);
        }
        lemma_trimmed_lines_are_entries(t);
        assert(!ls[ls.len() - 1].contains('\n'));
        assert forall|x: Seq<char>| trimmed_nonblank(ls).to_set().contains(x) implies is_entry(x) by {
            let e = trimmed_nonblank(ls);
            let k = choose|k: int| 0 <= k < e.len() && e[k] == x;
            if trim(ls.last()).len() == 0 {
            } else if k < e.len() - 1 {
                assert(trimmed_nonblank(t)[k] == x);
                assert(trimmed_nonblank(t).to_set().contains(x));
            } else {
                lemma_trim_is_entry(ls.last());
            }
        }
    }
}

proof fn lemma_trimmed_nonblank_of_entries(s: Seq<Seq<char>>)
    requires
        forall|i: int| 0 <= i < s.len() ==> is_entry(#[trigger] s[i]),
    ensures
        trimmed_nonblank(s) == s,
    decreases s.len(),
{
    if s.len() > 0 {
        let t = s.drop_last();
        assert forall|i: int| 0 <= i < t.len() implies is_entry(#[trigger] t[i]) by {
            assert(t[i] == s[i]);
        }
        lemma_trimmed_nonblank_of_entries(t);
        assert(is_entry(s[s.len() - 1]));
        lemma_entry_trim(s.last());
        assert(t.push(s.last()) =~= s);
    }
}

/// Rendering a listing of entries and reading it back gives the same names.
pub proof fn lemma_rendered_round_trip(s: Seq<Seq<char>>)
    requires
        forall|i: int| 0 <= i < s.len() ==> is_entry(#[trigger] s[i]),
    ensures
        recorded_names(rendered(s)) == s.to_set(),
{
    assert forall|i: int| 0 <= i < s.len() implies !(#[trigger] s[i]).contains('\n') by {
        assert(is_entry(s[i]));
    }
    lemma_split_rendered(s);
    let p = s.push(seq![]);
    assert(p.take(p.len() - 1) =~= s);
    assert(s.map_values(|x: Seq<char>| strip_cr(x)) =~= s) by {
        assert forall|i: int| 0 <= i < s.len() implies strip_cr(#[trigger] s[i]) == s[i] by {
            assert(is_entry(s[i]));
            assert(is_ws('\r'));
        }
    }
    assert(lines(rendered(s)) == s);
    lemma_trimmed_nonblank_of_entries(s);
}

/// A listing exists for the names of any sequence.
proof fn lemma_listing_exists(list: Seq<Seq<char>>)
    ensures
        lists(crate::text::sort_desc_dedup(list).reverse(), list.to_set()),
{
    let d = crate::text::sort_desc_dedup(list);
    crate::text::lemma_sort_desc_dedup(list);
    let r = d.reverse();
    assert forall|i: int, j: int| 0 <= i < j < r.len() implies lex_lt(#[trigger] r[i], #[trigger] r[j]) by {
        assert(r[i] == d[d.len() - 1 - i] && r[j] == d[d.len() - 1 - j]);
    }
    assert(r.to_set() =~= d.to_set()) by {
        assert forall|y| r.to_set().contains(y) implies d.to_set().contains(y) by {
            let k = choose|k: int| 0 <= k < r.len() && r[k] == y;
            assert(d[d.len() - 1 - k] == y);
        }
        assert forall|y| d.to_set().contains(y) implies r.to_set().contains(y) by {
            let k = choose|k: int| 0 <= k < d.len() && d[k] == y;
            assert(r[d.len() - 1 - k] == y);
        }
    }
}

// ---------------------------------------------------------------------------
// Keeping a listing
// ---------------------------------------------------------------------------
/// Adds `x` to an increasing listing, where it is not already there.
fn insert_name(names: &mut Vec<Vec<char>>, x: Vec<char>)
    requires
        strictly_asc(char_texts(old(names)@)),
    ensures
        lists(char_texts(final(names)@), char_texts(old(names)@).to_set().insert(x@)),
{
    let ghost s = char_texts(names@);
    let mut i: usize = 0;
    while i < names.len() && lex_less(&names[i], &x)
        invariant
            i <= names@.len(),
            s == char_texts(names@),
            strictly_asc(s),
            forall|k: int| 0 <= k < i ==> lex_lt(#[trigger] s[k], x@),
        decreases names@.len() - i,
    {
        i = i + 1;
    }
    if i < names.len() && chars_eq(&names[i], &x) {
        assert(s.to_set().insert(x@) =~= s.to_set()) by {
            assert(s[i as int] == x@);
        }
        return;
    }
    let ghost xv = x@;
    names.insert(i, x);
    let ghost r = s.insert(i as int, xv);
    assert(char_texts(names@) =~= r);
    proof {
        if i < s.len() {
            lemma_lex_lt_total(s[i as int], xv);
        }
    }
    assert forall|a: int, b: int| 0 <= a < b < r.len() implies lex_lt(#[trigger] r[a], #[trigger] r[b]) by {
        if b < i {
        } else if b == i {
            assert(r[b] == xv && r[a] == s[a]);
        } else if a < i {
            assert(r[a] == s[a] && r[b] == s[b - 1]);
            if a < b - 1 {
            }
        } else if a == i {
            assert(r[b] == s[b - 1]);
            if b - 1 > i {
                lemma_lex_lt_transitive(xv, s[i as int], s[b - 1]);
            }
        } else {
            assert(r[a] == s[a - 1] && r[b] == s[b - 1]);
        }
    }
    assert(r.to_set() =~= s.to_set().insert(xv)) by {
        assert forall|y| r.to_set().contains(y) implies s.to_set().insert(xv).contains(y) by {
            let k = choose|k: int| 0 <= k < r.len() && r[k] == y;
            if k < i {
                assert(s[k] == y);
            } else if k > i {
                assert(s[k - 1] == y);
            }
        }
        assert forall|y| s.to_set().insert(xv).contains(y) implies r.to_set().contains(y) by {
            if y == xv {
                assert(r[i as int] == xv);
            } else {
                let k = choose|k: int| 0 <= k < s.len() && s[k] == y;
                if k < i {
                    assert(r[k] == y);
                } else {
                    assert(r[k + 1] == y);
                }
            }
        }
    }
}

/// Removes `x` from an increasing listing, where it is there.
fn remove_name(names: &mut Vec<Vec<char>>, x: &[char])
    requires
        strictly_asc(char_texts(old(names)@)),
    ensures
        lists(char_texts(final(names)@), char_texts(old(names)@).to_set().remove(x@)),
{
    let ghost s = char_texts(names@);
    let mut i: usize = 0;
    while i < names.len() && !chars_eq(&names[i], x)
        invariant
            i <= names@.len(),
            s == char_texts(names@),
            forall|k: int| 0 <= k < i ==> s[k] != x@,
        decreases names@.len() - i,
    {
        i = i + 1;
    }
    if i == names.len() {
        assert(s.to_set().remove(x@) =~= s.to_set());
        return;
    }
    names.remove(i);
    let ghost r = s.remove(i as int);
    assert(char_texts(names@) =~= r);
    assert forall|a: int, b: int| 0 <= a < b < r.len() implies lex_lt(#[trigger] r[a], #[trigger] r[b]) by {
        if b < i {
        } else if a < i {
            assert(r[a] == s[a] && r[b] == s[b + 1]);
        } else {
            assert(r[a] == s[a + 1] && r[b] == s[b + 1]);
        }
    }
    assert(r.to_set() =~= s.to_set().remove(x@)) by {
        assert forall|y| r.to_set().contains(y) implies s.to_set().remove(x@).contains(y) by {
            let k = choose|k: int| 0 <= k < r.len() && r[k] == y;
            if k < i {
                assert(s[k] == y);
                assert(lex_lt(s[k], s[i as int]));
                lemma_lex_lt_irreflexive(y);
            } else {
                assert(s[k + 1] == y);
                assert(lex_lt(s[i as int], s[k + 1]));
                lemma_lex_lt_irreflexive(y);
            }
        }
        assert forall|y| s.to_set().remove(x@).contains(y) implies r.to_set().contains(y) by {
            let k = choose|k: int| 0 <= k < s.len() && s[k] == y;
            if k < i {
                assert(r[k] == y);
            } else {
                assert(k != i);
                assert(r[k - 1] == y);
            }
        }
    }
}

/// The listing as strings.
fn to_strings(names: &Vec<Vec<char>>) -> (res: Vec<String>)
    ensures
        texts(res@) == char_texts(names@),
{
    let mut res: Vec<String> = Vec::new();
    let mut i: usize = 0;
    while i < names.len()
        invariant
            i <= names@.len(),
            texts(res@) == char_texts(names@).take(i as int),
        decreases names@.len() - i,
    {
        let ghost before = res@;
        let s = string_of(&names[i]);
        res.push(s);
        assert(texts(res@) =~= char_texts(names@).take(i + 1)) by {
            assert(res@ == before.push(s));
            assert(texts(res@) =~= texts(before).push(s@));
            assert(char_texts(names@).take(i + 1) =~= char_texts(names@).take(i as int).push(names@[i as int]@));
        }
        i = i + 1;
    }
    assert(char_texts(names@).take(names@.len() as int) =~= char_texts(names@));
    res
}

/// The names recorded in `contents`, in increasing order.
fn recorded_listing(contents: &str) -> (res: Vec<Vec<char>>)
    ensures
        lists(char_texts(res@), recorded_names(contents@)),
{
    let c = chars_of(contents);
    let ls = lines_exec(&c);
    let ghost lv = lines(contents@);
    let mut names: Vec<Vec<char>> = Vec::new();
    let mut i: usize = 0;
    assert(lv.take(0) =~= Seq::<Seq<char>>::empty());
    assert(char_texts(names@) =~= Seq::<Seq<char>>::empty());
    assert(Seq::<Seq<char>>::empty().to_set() =~= Set::<Seq<char>>::empty());
    while i < ls.len()
        invariant
            i <= ls@.len() == lv.len(),
            lv == lines(contents@),
            forall|k: int| 0 <= k < ls@.len() ==> #[trigger] ls@[k]@ == lv[k],
            lists(char_texts(names@), trimmed_nonblank(lv.take(i as int)).to_set()),
        decreases ls@.len() - i,
    {
        assert(lv.take(i + 1).drop_last() == lv.take(i as int));
        assert(lv.take(i + 1).last() == lv[i as int]);
        let t = trim_exec(&ls[i]);
        if t.len() > 0 {
            let ghost before = trimmed_nonblank(lv.take(i as int));
            insert_name(&mut names, t);
            assert(trimmed_nonblank(lv.take(i + 1)) == before.push(trim(lv[i as int])));
            assert(before.push(trim(lv[i as int])).to_set() == before.to_set().insert(trim(lv[i as int]))) by {
                before.lemma_push_to_set_commute(trim(lv[i as int]));
            }
        }
        i = i + 1;
    }
    assert(lv.take(ls@.len() as int) == lv);
    names
}

/// The contents of the file for a listing: each name on a line of its own.
fn render_names(names: &Vec<Vec<char>>) -> (res: String)
    ensures
        res@ == rendered(char_texts(names@)),
{
    let ghost s = char_texts(names@);
    let mut out: Vec<char> = Vec::new();
    let mut i: usize = 0;
    assert(s.skip(0) == s);
    assert(out@ + rendered(s) =~= rendered(s));
    while i < names.len()
        invariant
            i <= names@.len(),
            s == char_texts(names@),
            out@ + rendered(s.skip(i as int)) == rendered(s),
        decreases names@.len() - i,
    {
        assert(s.skip(i as int).drop_first() == s.skip(i + 1));
        assert(s.skip(i as int)[0] == s[i as int]);
        extend_chars(&mut out, &names[i]);
        out.push('\n');
        i = i + 1;
    }
    assert(s.skip(names@.len() as int) =~= Seq::<Seq<char>>::empty());
    assert(out@ + rendered(s.skip(names@.len() as int)) == out@);
    string_of(&out)
}

// ---------------------------------------------------------------------------
// The registry
// ---------------------------------------------------------------------------
/// What a read of the registry file means: the names it records, no names where the file
/// does not exist, or the read's own error.
pub open spec fn read_names(read: Result<String, StorageError>) -> Result<Set<Seq<char>>, StorageError> {
    match read {
        Ok(contents) => Ok(recorded_names(contents@)),
        Err(e) => if e.kind == StorageErrorKind::NotFound {
            Ok(Set::empty())
        } else {
            Err(e)
        },
    }
}

/// The managed-session list of treemin, kept in its host storage.
#[derive(Clone, Debug)]
pub struct TreeminSessionRegistry {
    storage: HostStorage,
}

impl View for TreeminSessionRegistry {
    type V = Seq<char>;

    /// The namespace directory that holds the list.
    closed spec fn view(&self) -> Seq<char> {
        self.storage@
    }
}

/// A single path component other than `..` is a valid relative path.
proof fn lemma_component_is_valid(n: Seq<char>)
    requires
        n.len() > 0,
        !n.contains('/'),
        n != ".."@,
    ensures
        crate::host_storage::relative_path_problem(n) is None,
{
    assert(n[0] != '/');
    lemma_split_acc_no_sep(n, '/', seq![]);
    assert(Seq::<char>::empty() + n =~= n);
    assert(split_char(n, '/') == seq![n]);
}

proof fn lemma_namespace_is_valid()
    ensures
        crate::host_storage::relative_path_problem(TREEMIN_NAMESPACE@) is None,
{
    reveal_strlit("treemin");
    reveal_strlit("..");
    assert(!TREEMIN_NAMESPACE@.contains('/')) by {
        assert forall|k: int| 0 <= k < TREEMIN_NAMESPACE@.len() implies TREEMIN_NAMESPACE@[k] != '/' by {}
    }
    lemma_component_is_valid(TREEMIN_NAMESPACE@);
}

/// The listing of a set of names that the registry can produce, as a vector.
fn listing_of(read: Result<String, StorageError>) -> (res: Result<Vec<Vec<char>>, StorageError>)
    ensures
        match read_names(read) {
            Ok(names) => res is Ok && lists(char_texts(res->Ok_0@), names),
            Err(e) => res == Err::<Vec<Vec<char>>, StorageError>(e),
        },
{
    match read {
        Ok(contents) => Ok(recorded_listing(contents.as_str())),
        Err(error) => {
            if error.kind == StorageErrorKind::NotFound {
                let names: Vec<Vec<char>> = Vec::new();
                assert(char_texts(names@) =~= Seq::<Seq<char>>::empty());
                assert(Seq::<Seq<char>>::empty().to_set() =~= Set::<Seq<char>>::empty());
                Ok(names)
            } else {
                Err(error)
            }
        },
    }
}

impl TreeminSessionRegistry {
    /// The registry of treemin under the host root.
    pub fn new() -> (res: Result<TreeminSessionRegistry, StorageError>)
        ensures
            res is Ok,
            res->Ok_0@ == path_join(HOST_ROOT@, TREEMIN_NAMESPACE@),
    {
        proof {
            lemma_namespace_is_valid();
        }
        let storage = HostStorage::new(TREEMIN_NAMESPACE)?;
        Ok(TreeminSessionRegistry { storage })
    }

    /// A registry kept in the given storage.
    pub fn with_storage(storage: HostStorage) -> (res: TreeminSessionRegistry)
        ensures
            res@ == storage@,
    {
        TreeminSessionRegistry { storage }
    }

    /// The storage that holds the list.
    pub fn storage(&self) -> (res: &HostStorage)
        ensures
            res@ == self@,
    {
        &self.storage
    }

    /// The file that holds the list.
    pub fn sessions_file(&self) -> (res: String)
        ensures
            res@ == path_join(self@, TREEMIN_SESSIONS_FILE@),
    {
        let root = chars_of(self.storage.root());
        let file = chars_of(TREEMIN_SESSIONS_FILE);
        string_of(&path_join_exec(&root, &file))
    }

    /// The managed sessions, in increasing order, given what reading the file returned.
    pub fn list(&self, read: Result<String, StorageError>) -> (res: Result<Vec<String>, StorageError>)
        ensures
            match read_names(read) {
                Ok(names) => res is Ok && texts(res->Ok_0@) == sorted_names(names),
                Err(e) => res == Err::<Vec<String>, StorageError>(e),
            },
    {
        let names = listing_of(read)?;
        proof {
            lemma_sorted_names(char_texts(names@), char_texts(names@).to_set());
        }
        Ok(to_strings(&names))
    }

    /// Whether `session_name` is managed, given what reading the file returned.
    pub fn contains(&self, read: Result<String, StorageError>, session_name: &str) -> (res: Result<bool, StorageError>)
        ensures
            match read_names(read) {
                Ok(names) => res == Ok::<bool, StorageError>(names.contains(session_name@)),
                Err(e) => res == Err::<bool, StorageError>(e),
            },
    {
        let ghost read_set = read_names(read);
        let names = listing_of(read)?;
        let ghost s = char_texts(names@);
        let x = chars_of(session_name);
        let mut i: usize = 0;
        while i < names.len()
            invariant
                i <= names@.len(),
                s == char_texts(names@),
                read_set is Ok,
                read_set == read_names(read),
                s.to_set() == read_set->Ok_0,
                x@ == session_name@,
                forall|k: int| 0 <= k < i ==> s[k] != x@,
            decreases names@.len() - i,
        {
            if chars_eq(&names[i], &x) {
                assert(s.to_set().contains(x@)) by {
                    assert(s[i as int] == x@);
                }
                return Ok(true);
            }
            i = i + 1;
        }
        Ok(false)
    }

    /// The contents to write so that `session_name` is managed too, given what reading the
    /// file returned.
    pub fn add(&self, read: Result<String, StorageError>, session_name: &str) -> (res: Result<String, StorageError>)
        ensures
            match read_names(read) {
                Ok(names) => res is Ok && res->Ok_0@ == rendered(sorted_names(names.insert(session_name@))),
                Err(e) => res == Err::<String, StorageError>(e),
            },
    {
        let mut names = listing_of(read)?;
        let ghost before = char_texts(names@);
        insert_name(&mut names, chars_of(session_name));
        proof {
            lemma_sorted_names(char_texts(names@), before.to_set().insert(session_name@));
        }
        Ok(render_names(&names))
    }

    /// The contents to write so that `session_name` is no longer managed, given what reading
    /// the file returned.
    pub fn remove(&self, read: Result<String, StorageError>, session_name: &str) -> (res: Result<String, StorageError>)
        ensures
            match read_names(read) {
                Ok(names) => res is Ok && res->Ok_0@ == rendered(sorted_names(names.remove(session_name@))),
                Err(e) => res == Err::<String, StorageError>(e),
            },
    {
        let mut names = listing_of(read)?;
        let ghost before = char_texts(names@);
        let x = chars_of(session_name);
        remove_name(&mut names, &x);
        proof {
            lemma_sorted_names(char_texts(names@), before.to_set().remove(session_name@));
        }
        Ok(render_names(&names))
    }
}

/// The registry of treemin, where its storage can be had.
pub fn treemin_registry() -> (res: Option<TreeminSessionRegistry>)
    ensures
        res is Some,
        res->0@ == path_join(HOST_ROOT@, TREEMIN_NAMESPACE@),
{
    TreeminSessionRegistry::new().ok()
}

/// A registry for tests, kept in the namespace `treemin-test` under `root`.
pub fn test_treemin_registry(root: &str) -> (res: TreeminSessionRegistry)
    ensures
        res@ == path_join(root@, "treemin-test"@),
{
    proof {
        reveal_strlit("treemin-test");
        reveal_strlit("..");
        assert(!"treemin-test"@.contains('/')) by {
            assert forall|k: int| 0 <= k < "treemin-test"@.len() implies "treemin-test"@[k] != '/' by {}
        }
        lemma_component_is_valid("treemin-test"@);
    }
    TreeminSessionRegistry::with_storage(HostStorage::joined(root, "treemin-test"))
}

// ---------------------------------------------------------------------------
// Laws
// ---------------------------------------------------------------------------
/// The members of `s` other than `x`, in order.
pub open spec fn all_but(s: Seq<Seq<char>>, x: Seq<char>) -> Seq<Seq<char>>
    decreases s.len(),
{
    if s.len() == 0 {
        seq![]
    } else if s.last() == x {
        all_but(s.drop_last(), x)
    } else {
        all_but(s.drop_last(), x).push(s.last())
    }
}

/// Removing a name leaves every other name and only those.
pub proof fn lemma_all_but(s: Seq<Seq<char>>, x: Seq<char>)
    ensures
        all_but(s, x).to_set() == s.to_set().remove(x),
    decreases s.len(),
{
    if s.len() == 0 {
        assert(s.to_set() =~= Set::<Seq<char>>::empty());
        assert(Seq::<Seq<char>>::empty().to_set() =~= Set::<Seq<char>>::empty());
        assert(Set::<Seq<char>>::empty().remove(x) =~= Set::<Seq<char>>::empty());
    } else {
        let t = s.drop_last();
        lemma_all_but(t, x);
        assert(s == t.push(s.last()));
        t.lemma_push_to_set_commute(s.last());
        if s.last() == x {
            assert(t.to_set().remove(x) =~= t.to_set().insert(x).remove(x));
        } else {
            all_but(t, x).lemma_push_to_set_commute(s.last());
            assert(t.to_set().remove(x).insert(s.last()) =~= t.to_set().insert(s.last()).remove(x));
        }
    }
}

/// A set of names read from the registry has a listing, and every name in it is an entry.
proof fn lemma_read_names_listed(read: Result<String, StorageError>, extra: Seq<char>)
    requires
        read_names(read) is Ok,
    ensures
        forall|x: Seq<char>| (#[trigger] read_names(read)->Ok_0.contains(x)) ==> is_entry(x),
        lists(sorted_names(read_names(read)->Ok_0.insert(extra)), read_names(read)->Ok_0.insert(extra)),
        lists(sorted_names(read_names(read)->Ok_0.remove(extra)), read_names(read)->Ok_0.remove(extra)),
{
    let base: Seq<Seq<char>> = match read {
        Ok(contents) => trimmed_nonblank(lines(contents@)),
        Err(_) => seq![],
    };
    assert(base.to_set() == read_names(read)->Ok_0) by {
        match read {
            Ok(contents) => {},
            Err(_) => {
                assert(base.to_set() =~= Set::<Seq<char>>::empty());
            },
        }
    }
    match read {
        Ok(contents) => lemma_recorded_are_entries(contents@),
        Err(_) => {},
    }
    let with = base.push(extra);
    base.lemma_push_to_set_commute(extra);
    lemma_listing_exists(with);
    let without = all_but(base, extra);
    lemma_all_but(base, extra);
    lemma_listing_exists(without);
}

/// What `add` writes reads back as the names read before with `session_name` added, when
/// the name is an entry (not empty, one line, no whitespace at its ends).
pub proof fn lemma_add_then_list(read: Result<String, StorageError>, session_name: Seq<char>)
    requires
        read_names(read) is Ok,
        is_entry(session_name),
    ensures
        recorded_names(rendered(sorted_names(read_names(read)->Ok_0.insert(session_name))))
            == read_names(read)->Ok_0.insert(session_name),
{
    lemma_read_names_listed(read, session_name);
    let names = read_names(read)->Ok_0.insert(session_name);
    let s = sorted_names(names);
    assert forall|i: int| 0 <= i < s.len() implies is_entry(#[trigger] s[i]) by {
        assert(s.to_set().contains(s[i]));
        if s[i] != session_name {
            assert(read_names(read)->Ok_0.contains(s[i]));
        }
    }
    lemma_rendered_round_trip(s);
}

/// What `remove` writes reads back as the names read before without `session_name`.
pub proof fn lemma_remove_then_list(read: Result<String, StorageError>, session_name: Seq<char>)
    requires
        read_names(read) is Ok,
    ensures
        recorded_names(rendered(sorted_names(read_names(read)->Ok_0.remove(session_name))))
            == read_names(read)->Ok_0.remove(session_name),
{
    lemma_read_names_listed(read, session_name);
    let names = read_names(read)->Ok_0.remove(session_name);
    let s = sorted_names(names);
    assert forall|i: int| 0 <= i < s.len() implies is_entry(#[trigger] s[i]) by {
        assert(s.to_set().contains(s[i]));
        assert(read_names(read)->Ok_0.contains(s[i]));
    }
    lemma_rendered_round_trip(s);
}

/// Adding a name that was not recorded and then removing it gives back the names read at
/// first; adding a name twice records the same names as adding it once.
pub proof fn lemma_add_then_remove(read: Result<String, StorageError>, session_name: Seq<char>)
    requires
        read_names(read) is Ok,
        is_entry(session_name),
    ensures
        ({
            let before = read_names(read)->Ok_0;
            let after_add = recorded_names(rendered(sorted_names(before.insert(session_name))));
            &&& !before.contains(session_name) ==> recorded_names(rendered(sorted_names(after_add.remove(session_name))))
                == before
            &&& recorded_names(rendered(sorted_names(after_add.insert(session_name)))) == after_add
        }),
{
    let before = read_names(read)->Ok_0;
    lemma_add_then_list(read, session_name);
    lemma_remove_then_list(read, session_name);
    assert(before.insert(session_name).insert(session_name) =~= before.insert(session_name));
    if !before.contains(session_name) {
        assert(before.insert(session_name).remove(session_name) =~= before);
        assert(before.remove(session_name) =~= before);
    }
}

} // verus!
