//! zoxide directories for zessionz: every directory of the listing gets a session name made
//! of as few trailing path segments as tell it apart from the other directories.
use vstd::prelude::*;

use crate::paths::{path_starts_with, path_starts_with_spec};
use crate::zessionz::config::{Config, ConfigView};
use crate::seshmin::zoxide::{
    context_name, directory_views, lemma_sort_by_rank, lemma_truncated_within_fits, entry_views, insert_by_rank_exec, normalize_path, normalized,
    path_segments, slice_vecs, sort_by_rank, texts, truncate_within, truncated_within, DirectoryView,
    ZoxideDirectory,
};
use crate::text::{
    chars_eq, chars_of, copy_chars, join_exec, join_seqs, nonempty_pieces, split_char, split_char_exec, str_eq,
    string_of, utf8_len,
};

verus! {

/// The longest session name zessionz gives, in bytes.
pub const MAX_SESSION_NAME_LEN: usize = 29;

/// The segments of a path taken relative to its base path.
pub open spec fn segments_of(path: Seq<char>, bases: Seq<Seq<char>>) -> Seq<Seq<char>> {
    path_segments(normalized(path, bases))
}

/// Whether the directory lies inside another directory of the listing.
pub open spec fn nested_in(path: Seq<char>, all: Seq<Seq<char>>) -> bool {
    exists|i: int| 0 <= i < all.len() && all[i] != path && path_starts_with_spec(path, #[trigger] all[i])
}

/// Whether `ctx` trailing segments tell `path` apart from every other directory of the
/// listing with the same last segment.
pub open spec fn distinct_at(path: Seq<char>, all: Seq<Seq<char>>, bases: Seq<Seq<char>>, sep: Seq<char>, ctx: nat) -> bool {
    let segs = segments_of(path, bases);
    forall|i: int|
        0 <= i < all.len() && all[i] != path && segments_of(#[trigger] all[i], bases).len() > 0 && segments_of(
            all[i],
            bases,
        ).last() == segs.last() ==> {
            let o = segments_of(all[i], bases);
            o.len() < ctx || context_name(o, sep, ctx) != context_name(segs, sep, ctx)
        }
}

/// The fewest trailing segments, from `ctx` on, that tell the directory apart.
pub open spec fn first_distinct(path: Seq<char>, all: Seq<Seq<char>>, bases: Seq<Seq<char>>, sep: Seq<char>, ctx: nat) -> Option<nat>
    decreases segments_of(path, bases).len() + 1 - ctx,
{
    if ctx > segments_of(path, bases).len() {
        None
    } else if distinct_at(path, all, bases, sep, ctx) {
        Some(ctx)
    } else {
        first_distinct(path, all, bases, sep, ctx + 1)
    }
}

/// The session name of a directory of the listing `all`: `root` for no segments; else the
/// fewest trailing segments (two at least when it lies inside another directory) that no
/// other directory with the same last segment ends in, or the whole path; kept within
/// [`MAX_SESSION_NAME_LEN`] bytes.  `None` where a cut falls inside a character.
pub open spec fn session_name_of(path: Seq<char>, all: Seq<Seq<char>>, config: ConfigView) -> Option<Seq<char>> {
    let segs = segments_of(path, config.base_paths);
    let sep = config.session_separator;
    if segs.len() == 0 {
        Some("root"@)
    } else {
        let min: nat = if nested_in(path, all) { 2 } else { 1 };
        match first_distinct(path, all, config.base_paths, sep, min) {
            Some(k) => truncated_within(context_name(segs, sep, k), sep, MAX_SESSION_NAME_LEN as nat),
            None => truncated_within(join_seqs(segs, sep), sep, MAX_SESSION_NAME_LEN as nat),
        }
    }
}

pub open spec fn entry_paths(entries: Seq<(u64, Seq<char>)>) -> Seq<Seq<char>> {
    entries.map_values(|e: (u64, Seq<char>)| e.1)
}

/// Whether every directory of the listing can be named.
pub open spec fn all_named(entries: Seq<(u64, Seq<char>)>, config: ConfigView) -> bool {
    forall|i: int| 0 <= i < entries.len() ==> (#[trigger] session_name_of(entries[i].1, entry_paths(entries), config)) is Some
}

/// The directory list: every directory of the listing, named, then sorted by rank.
pub open spec fn directories_of(entries: Seq<(u64, Seq<char>)>, config: ConfigView) -> Seq<DirectoryView> {
    let all = entry_paths(entries);
    sort_by_rank(
        Seq::new(
            entries.len(),
            |i: int| DirectoryView {
                ranking: entries[i].0,
                directory: entries[i].1,
                session_name: session_name_of(entries[i].1, all, config)->0,
            },
        ),
    )
}

/// The non-empty segments of a path.
fn segments_exec(path: &[char]) -> (res: Vec<Vec<char>>)
    ensures
        res@.map_values(|v: Vec<char>| v@) == path_segments(path@),
{
    let pieces = split_char_exec(path, '/');
    let ghost pv = split_char(path@, '/');
    let mut segments: Vec<Vec<char>> = Vec::new();
    let mut i: usize = 0;
    assert(pv.take(0) =~= Seq::<Seq<char>>::empty());
    assert(segments@.map_values(|v: Vec<char>| v@) =~= Seq::<Seq<char>>::empty());
    while i < pieces.len()
        invariant
            i <= pieces@.len() == pv.len(),
            pv == split_char(path@, '/'),
            forall|k: int| 0 <= k < pieces@.len() ==> #[trigger] pieces@[k]@ == pv[k],
            segments@.map_values(|v: Vec<char>| v@) == nonempty_pieces(pv.take(i as int)),
        decreases pieces@.len() - i,
    {
        assert(pv.take(i + 1).drop_last() == pv.take(i as int));
        assert(pv.take(i + 1).last() == pv[i as int]);
        if pieces[i].len() > 0 {
            let ghost before = segments@.map_values(|v: Vec<char>| v@);
            let c = copy_chars(&pieces[i]);
            let ghost cv = c@;
            segments.push(c);
            assert(segments@.map_values(|v: Vec<char>| v@) =~= before.push(cv));
        }
        i = i + 1;
    }
    assert(pv.take(pieces@.len() as int) == pv);
    segments
}

fn segments_of_exec(path: &str, config: &Config) -> (res: Vec<Vec<char>>)
    ensures
        res@.map_values(|v: Vec<char>| v@) == segments_of(path@, config@.base_paths),
{
    let n = normalize_path(path, &config.base_paths);
    segments_exec(&chars_of(n.as_str()))
}

/// The last `k` segments joined by the separator.
fn context_exec(segs: &Vec<Vec<char>>, sep: &[char], k: usize) -> (res: Vec<char>)
    requires
        k <= segs@.len(),
    ensures
        res@ == context_name(segs@.map_values(|v: Vec<char>| v@), sep@, k as nat),
{
    let tail = slice_vecs(segs, segs.len() - k);
    join_exec(&tail, sep)
}

/// Whether the directory lies inside another directory of the listing.
fn is_nested_in_paths(path: &str, all: &Vec<String>) -> (res: bool)
    ensures
        res == nested_in(path@, texts(all@)),
{
    let ghost av = texts(all@);
    let mut i: usize = 0;
    while i < all.len()
        invariant
            i <= all@.len(),
            av == texts(all@),
            forall|k: int| 0 <= k < i ==> !(av[k] != path@ && path_starts_with_spec(path@, #[trigger] av[k])),
        decreases all@.len() - i,
    {
        assert(av[i as int] == all@[i as int]@);
        if !str_eq(all[i].as_str(), path) && path_starts_with(path, all[i].as_str()) {
            return true;
        }
        i = i + 1;
    }
    false
}

fn distinct_at_exec(path: &str, segs: &Vec<Vec<char>>, all: &Vec<String>, config: &Config, ctx: usize) -> (res: bool)
    requires
        segs@.map_values(|v: Vec<char>| v@) == segments_of(path@, config@.base_paths),
        1 <= ctx <= segs@.len(),
    ensures
        res == distinct_at(path@, texts(all@), config@.base_paths, config@.session_separator, ctx as nat),
{
    let ghost av = texts(all@);
    let ghost sv = segs@.map_values(|v: Vec<char>| v@);
    let ghost bases = config@.base_paths;
    let ghost sep = config@.session_separator;
    let sep_chars = chars_of(config.session_separator.as_str());
    let mine = context_exec(segs, &sep_chars, ctx);
    let basename = &segs[segs.len() - 1];
    assert(basename@ == sv.last());
    let mut i: usize = 0;
    while i < all.len()
        invariant
            i <= all@.len(),
            av == texts(all@),
            sv == segs@.map_values(|v: Vec<char>| v@),
            sv == segments_of(path@, bases),
            bases == config@.base_paths,
            sep == config@.session_separator,
            sep_chars@ == sep,
            1 <= ctx <= sv.len(),
            basename@ == sv.last(),
            mine@ == context_name(sv, sep, ctx as nat),
            forall|k: int|
                0 <= k < i && av[k] != path@ && segments_of(#[trigger] av[k], bases).len() > 0 && segments_of(av[k], bases).last()
                    == sv.last() ==> {
                    let o = segments_of(av[k], bases);
                    o.len() < ctx || context_name(o, sep, ctx as nat) != context_name(sv, sep, ctx as nat)
                },
        decreases all@.len() - i,
    {
        assert(av[i as int] == all@[i as int]@);
        if !str_eq(all[i].as_str(), path) {
            let other = segments_of_exec(all[i].as_str(), config);
            let ghost ov = other@.map_values(|v: Vec<char>| v@);
            if other.len() > 0 {
                assert(other@[other@.len() - 1]@ == ov.last());
                if chars_eq(&other[other.len() - 1], basename) {
                    if other.len() >= ctx {
                        let theirs = context_exec(&other, &sep_chars, ctx);
                        if chars_eq(&theirs, &mine) {
                            return false;
                        }
                    }
                }
            }
        }
        i = i + 1;
    }
    true
}

/// The session name of `path` among the directories `all` (see [`session_name_of`]).
pub fn generate_session_name(path: &str, all: &Vec<String>, config: &Config) -> (res: Option<String>)
    ensures
        match session_name_of(path@, texts(all@), config@) {
            Some(n) => res is Some && res->0@ == n,
            None => res is None,
        },
{
    let segs = segments_of_exec(path, config);
    let ghost sv = segs@.map_values(|v: Vec<char>| v@);
    let sep = chars_of(config.session_separator.as_str());
    if segs.len() == 0 {
        return Some(String::from_str("root"));
    }
    let n = segs.len();
    let min: usize = if is_nested_in_paths(path, all) { 2 } else { 1 };
    let mut ctx = min;
    while ctx <= n
        invariant
            min == (if nested_in(path@, texts(all@)) { 2usize } else { 1usize }),
            min <= ctx <= n + 1,
            n == segs@.len(),
            sv == segs@.map_values(|v: Vec<char>| v@),
            sv == segments_of(path@, config@.base_paths),
            sv.len() == n,
            sep@ == config@.session_separator,
            first_distinct(path@, texts(all@), config@.base_paths, config@.session_separator, min as nat)
                == first_distinct(path@, texts(all@), config@.base_paths, config@.session_separator, ctx as nat),
        ensures
            first_distinct(path@, texts(all@), config@.base_paths, config@.session_separator, min as nat) is None,
        decreases n + 1 - ctx,
    {
        if distinct_at_exec(path, &segs, all, config, ctx) {
            assert(first_distinct(path@, texts(all@), config@.base_paths, config@.session_separator, ctx as nat)
                == Some(ctx as nat));
            let candidate = context_exec(&segs, &sep, ctx);
            return match truncate_within(&candidate, &sep, MAX_SESSION_NAME_LEN) {
                Some(t) => Some(string_of(&t)),
                None => None,
            };
        }
        assert(first_distinct(path@, texts(all@), config@.base_paths, config@.session_separator, ctx as nat)
            == first_distinct(path@, texts(all@), config@.base_paths, config@.session_separator, (ctx + 1) as nat));
        if ctx == n {
            assert(first_distinct(path@, texts(all@), config@.base_paths, config@.session_separator, (ctx + 1) as nat) is None);
            break;
        }
        ctx = ctx + 1;
    }
    let whole = join_exec(&segs, &sep);
    match truncate_within(&whole, &sep, MAX_SESSION_NAME_LEN) {
        Some(t) => Some(string_of(&t)),
        None => None,
    }
}

/// The directories of a zoxide listing (`entries`: the rank and path of each line in
/// order), each named among all of them, highest rank first; `None` where a name cannot be
/// cut to size (where the naming panics).
pub fn parse_directories(entries: &Vec<(u64, String)>, config: &Config) -> (res: Option<Vec<ZoxideDirectory>>)
    ensures
        res is Some <==> all_named(entry_views(entries@), config@),
        res matches Some(d) ==> directory_views(d@) == directories_of(entry_views(entries@), config@),
{
    let ghost ev = entry_views(entries@);
    let mut all: Vec<String> = Vec::new();
    let mut i: usize = 0;
    while i < entries.len()
        invariant
            i <= entries@.len(),
            ev == entry_views(entries@),
            texts(all@) == entry_paths(ev).take(i as int),
        decreases entries@.len() - i,
    {
        let ghost before = texts(all@);
        all.push(entries[i].1.clone());
        assert(texts(all@) =~= before.push(ev[i as int].1));
        assert(entry_paths(ev).take(i + 1) =~= entry_paths(ev).take(i as int).push(ev[i as int].1));
        i = i + 1;
    }
    assert(entry_paths(ev).take(entries@.len() as int) =~= entry_paths(ev));
    let ghost paths = entry_paths(ev);
    let ghost named = Seq::new(
        ev.len(),
        |k: int| DirectoryView { ranking: ev[k].0, directory: ev[k].1, session_name: session_name_of(ev[k].1, paths, config@)->0 },
    );
    let mut sorted: Vec<ZoxideDirectory> = Vec::new();
    let mut j: usize = 0;
    assert(named.take(0) =~= Seq::<DirectoryView>::empty());
    while j < entries.len()
        invariant
            j <= entries@.len(),
            ev == entry_views(entries@),
            paths == entry_paths(ev),
            texts(all@) == paths,
            named.len() == ev.len(),
            forall|k: int| 0 <= k < ev.len() ==> #[trigger] named[k] == (DirectoryView {
                ranking: ev[k].0,
                directory: ev[k].1,
                session_name: session_name_of(ev[k].1, paths, config@)->0,
            }),
            forall|k: int| 0 <= k < j ==> (#[trigger] session_name_of(ev[k].1, paths, config@)) is Some,
            directory_views(sorted@) == sort_by_rank(named.take(j as int)),
        decreases entries@.len() - j,
    {
        assert(ev[j as int] == (entries@[j as int].0, entries@[j as int].1@));
        let name = match generate_session_name(entries[j].1.as_str(), &all, config) {
            Some(n) => n,
            None => {
                assert(session_name_of(ev[j as int].1, entry_paths(ev), config@) is None);
                assert(!all_named(ev, config@));
                return None;
            },
        };
        let d = ZoxideDirectory { ranking: entries[j].0, directory: entries[j].1.clone(), session_name: name };
        assert(d@ == named[j as int]);
        assert(named.take(j + 1).drop_last() =~= named.take(j as int));
        assert(named.take(j + 1).last() == named[j as int]);
        insert_by_rank_exec(&mut sorted, d);
        j = j + 1;
    }
    assert(named.take(entries@.len() as int) =~= named);
    assert(named =~= Seq::new(
        entry_views(entries@).len(),
        |k: int| DirectoryView {
            ranking: entry_views(entries@)[k].0,
            directory: entry_views(entries@)[k].1,
            session_name: session_name_of(entry_views(entries@)[k].1, entry_paths(entry_views(entries@)), config@)->0,
        },
    ));
    Some(sorted)
}

/// Every session name fits in [`MAX_SESSION_NAME_LEN`] bytes.
pub proof fn lemma_session_name_fits(path: Seq<char>, all: Seq<Seq<char>>, config: ConfigView)
    ensures
        session_name_of(path, all, config) matches Some(n) ==> utf8_len(n) <= MAX_SESSION_NAME_LEN,
{
    reveal_strlit("root");
    let segs = segments_of(path, config.base_paths);
    let sep = config.session_separator;
    if segs.len() == 0 {
        assert(utf8_len("root"@) == 4) by {
            reveal_with_fuel(utf8_len, 5);
        }
    } else {
        let min: nat = if nested_in(path, all) { 2 } else { 1 };
        match first_distinct(path, all, config.base_paths, sep, min) {
            Some(k) => lemma_truncated_within_fits(context_name(segs, sep, k), sep, MAX_SESSION_NAME_LEN as nat),
            None => lemma_truncated_within_fits(join_seqs(segs, sep), sep, MAX_SESSION_NAME_LEN as nat),
        }
    }
}

/// The directory list holds every directory of the listing, highest rank first, each with a
/// session name of at most [`MAX_SESSION_NAME_LEN`] bytes.
pub proof fn lemma_directories_of(entries: Seq<(u64, Seq<char>)>, config: ConfigView)
    requires
        all_named(entries, config),
    ensures
        directories_of(entries, config).len() == entries.len(),
        forall|i: int| 0 <= i < directories_of(entries, config).len() ==> utf8_len(
            (#[trigger] directories_of(entries, config)[i]).session_name,
        ) <= MAX_SESSION_NAME_LEN,
        forall|i: int, j: int| 0 <= i < j < directories_of(entries, config).len() ==> #[trigger] directories_of(entries, config)[i].ranking
            >= #[trigger] directories_of(entries, config)[j].ranking,
{
    let all = entry_paths(entries);
    let named = Seq::new(
        entries.len(),
        |i: int| DirectoryView { ranking: entries[i].0, directory: entries[i].1, session_name: session_name_of(entries[i].1, all, config)->0 },
    );
    lemma_sort_by_rank(named);
    let r = directories_of(entries, config);
    assert forall|i: int| 0 <= i < r.len() implies utf8_len((#[trigger] r[i]).session_name) <= MAX_SESSION_NAME_LEN by {
        let q = choose|q: int| 0 <= q < named.len() && named[q] == r[i];
        assert(session_name_of(entries[q].1, all, config) is Some);
        lemma_session_name_fits(entries[q].1, all, config);
    }
}

} // verus!
