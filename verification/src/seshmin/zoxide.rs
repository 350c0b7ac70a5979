//! zoxide directories: reading `zoxide query -l -s`, keeping the directories searched and
//! not ignored, and naming a session after each one.
//!
//! zoxide ranks directories by a decimal score; here the rank is an integer that orders the
//! directories as their scores do (the caller reads the scores).
use vstd::prelude::*;

use crate::seshmin::config::{Config, ConfigView};
use crate::text::{
    byte_len_exceeds, byte_prefix, byte_prefix_checked, chars_eq, chars_of, copy_chars,
    join_exec, join_seqs, lemma_byte_prefix_len, lines, lines_exec,
    nonempty_pieces, slice_chars, split_char, split_char_exec, split_once, split_once_exec,
    split_str, split_str_exec, starts_with, string_of, trim, trim_end_char, trim_end_char_exec,
    trim_exec, trim_start_char, trim_start_char_exec, trim_start_str, trim_start_str_exec,
    utf8_len, all_ascii, lemma_ascii_utf8_len, split_acc, split_str_acc,
};

verus! {

/// The longest session name, in bytes, that keeps the session's socket path short enough.
pub const MAX_SESSION_NAME_LEN: usize = 24;

/// A directory that zoxide knows, with its rank and the session named after it.
#[derive(Debug, Clone, PartialEq, Eq)]
pub struct ZoxideDirectory {
    pub ranking: u64,
    pub directory: String,
    pub session_name: String,
}

pub struct DirectoryView {
    pub ranking: u64,
    pub directory: Seq<char>,
    pub session_name: Seq<char>,
}

impl View for ZoxideDirectory {
    type V = DirectoryView;

    open spec fn view(&self) -> DirectoryView {
        DirectoryView { ranking: self.ranking, directory: self.directory@, session_name: self.session_name@ }
    }
}

pub open spec fn directory_views(v: Seq<ZoxideDirectory>) -> Seq<DirectoryView> {
    v.map_values(|d: ZoxideDirectory| d@)
}

pub open spec fn texts(v: Seq<String>) -> Seq<Seq<char>> {
    v.map_values(|s: String| s@)
}

// ---------------------------------------------------------------------------
// Reading the listing
// ---------------------------------------------------------------------------
/// A line of `zoxide query -l -s`: the score and the path, split at the first space of the
/// trimmed line; nothing for a blank line or one without a space.
pub open spec fn zoxide_line(line: Seq<char>) -> Option<(Seq<char>, Seq<char>)> {
    if trim(line).len() == 0 {
        None
    } else {
        split_once(trim(line), ' ')
    }
}

/// The lines of the listing that hold a score and a path.
pub open spec fn zoxide_lines_spec(ls: Seq<Seq<char>>) -> Seq<(Seq<char>, Seq<char>)>
    decreases ls.len(),
{
    if ls.len() == 0 {
        seq![]
    } else {
        match zoxide_line(ls.last()) {
            Some(p) => zoxide_lines_spec(ls.drop_last()).push(p),
            None => zoxide_lines_spec(ls.drop_last()),
        }
    }
}

pub open spec fn pair_views(v: Seq<(String, String)>) -> Seq<(Seq<char>, Seq<char>)> {
    v.map_values(|p: (String, String)| (p.0@, p.1@))
}

/// The score text and the path of each line of `zoxide query -l -s` output.
pub fn zoxide_lines(output: &str) -> (res: Vec<(String, String)>)
    ensures
        pair_views(res@) == zoxide_lines_spec(lines(output@)),
{
    let ls = lines_exec(&chars_of(output));
    let ghost lv = lines(output@);
    let mut res: Vec<(String, String)> = Vec::new();
    let mut i: usize = 0;
    assert(lv.take(0) =~= Seq::<Seq<char>>::empty());
    assert(pair_views(res@) =~= Seq::<(Seq<char>, Seq<char>)>::empty());
    while i < ls.len()
        invariant
            i <= ls@.len() == lv.len(),
            lv == lines(output@),
            forall|k: int| 0 <= k < ls@.len() ==> #[trigger] ls@[k]@ == lv[k],
            pair_views(res@) == zoxide_lines_spec(lv.take(i as int)),
        decreases ls@.len() - i,
    {
        assert(lv.take(i + 1).drop_last() == lv.take(i as int));
        assert(lv.take(i + 1).last() == lv[i as int]);
        let t = trim_exec(&ls[i]);
        if t.len() > 0 {
            if let Some((score, path)) = split_once_exec(&t, ' ') {
                let ghost before = res@;
                let pair = (string_of(&score), string_of(&path));
                let ghost pv = (pair.0@, pair.1@);
                res.push(pair);
                assert(pair_views(res@) =~= pair_views(before).push(pv));
            }
        }
        i = i + 1;
    }
    assert(lv.take(ls@.len() as int) == lv);
    res
}

// ---------------------------------------------------------------------------
// Search, ignored and base directories
// ---------------------------------------------------------------------------
/// `path` is `dir` or lies below it (`dir` without trailing slashes).
pub open spec fn is_at_or_below(path: Seq<char>, dir: Seq<char>) -> bool {
    path == dir || (starts_with(path, dir) && path.len() > dir.len() && path[dir.len() as int] == '/')
}

/// `path` is one of `dirs` (each taken without trailing slashes) or lies below one.
pub open spec fn under_any(path: Seq<char>, dirs: Seq<Seq<char>>) -> bool {
    exists|i: int| 0 <= i < dirs.len() && is_at_or_below(path, trim_end_char(#[trigger] dirs[i], '/'))
}

/// Whether a directory is searched: every one when no search directory is set.
pub open spec fn is_searched(path: Seq<char>, search: Seq<Seq<char>>) -> bool {
    search.len() == 0 || under_any(path, search)
}

fn at_or_below(path: &[char], dir: &[char]) -> (res: bool)
    ensures
        res == is_at_or_below(path@, dir@),
{
    if chars_eq(path, dir) {
        return true;
    }
    dir.len() < path.len() && crate::text::has_prefix(path, dir) && path[dir.len()] == '/'
}

fn under_any_exec(path: &[char], dirs: &Vec<String>) -> (res: bool)
    ensures
        res == under_any(path@, texts(dirs@)),
{
    let ghost dv = texts(dirs@);
    let mut i: usize = 0;
    while i < dirs.len()
        invariant
            i <= dirs@.len(),
            dv == texts(dirs@),
            forall|k: int| 0 <= k < i ==> !is_at_or_below(path@, trim_end_char(#[trigger] dv[k], '/')),
        decreases dirs@.len() - i,
    {
        let d = trim_end_char_exec(&chars_of(dirs[i].as_str()), '/');
        assert(dv[i as int] == dirs@[i as int]@);
        if at_or_below(path, &d) {
            return true;
        }
        i = i + 1;
    }
    false
}

/// Whether `path` lies in one of the ignored directories.
pub fn is_ignored_directory(path: &str, ignored_directories: &Vec<String>) -> (res: bool)
    ensures
        res == under_any(path@, texts(ignored_directories@)),
{
    under_any_exec(&chars_of(path), ignored_directories)
}

/// Whether `path` lies in one of the search directories (all do when there are none).
pub fn is_searched_directory(path: &str, search_directories: &Vec<String>) -> (res: bool)
    ensures
        res == is_searched(path@, texts(search_directories@)),
{
    search_directories.len() == 0 || under_any_exec(&chars_of(path), search_directories)
}

/// The longest base path (without trailing slashes) that `path` is at or below; among
/// equally long ones the first.
pub open spec fn best_base(path: Seq<char>, bases: Seq<Seq<char>>) -> Option<Seq<char>>
    decreases bases.len(),
{
    if bases.len() == 0 {
        None
    } else {
        let b = best_base(path, bases.drop_last());
        let c = trim_end_char(bases.last(), '/');
        if is_at_or_below(path, c) && (b is None || utf8_len(c) > utf8_len(b->0)) {
            Some(c)
        } else {
            b
        }
    }
}

/// `path` relative to its longest base path; unchanged when it has none or is one.
pub open spec fn normalized(path: Seq<char>, bases: Seq<Seq<char>>) -> Seq<char> {
    match best_base(path, bases) {
        None => path,
        Some(b) => if path == b {
            path
        } else {
            trim_start_char(trim_start_str(path, b), '/')
        },
    }
}

/// Whether the UTF-8 encoding of `a` is longer than that of `b`.
pub(crate) fn longer_in_bytes(a: &[char], b: &[char]) -> (res: bool)
    ensures
        res == (utf8_len(a@) > utf8_len(b@)),
{
    // Walk both, keeping the difference of the bytes seen small; neither total need fit a
    // machine word.
    let ghost sa = a@;
    let ghost sb = b@;
    let mut i: usize = 0;
    let mut j: usize = 0;
    let mut balance: i64 = 0;
    assert(sa.skip(0) == sa && sb.skip(0) == sb);
    while i < a.len() || j < b.len()
        invariant
            i <= a@.len(),
            j <= b@.len(),
            sa == a@,
            sb == b@,
            -3 <= balance <= 4,
            utf8_len(sa) - utf8_len(sb) == balance + utf8_len(sa.skip(i as int)) - utf8_len(sb.skip(j as int)),
        decreases a@.len() - i + b@.len() - j,
    {
        if balance <= 0 {
            if i < a.len() {
                let w = crate::text::char_width(a[i]);
                assert(sa.skip(i as int).drop_first() == sa.skip(i + 1));
                balance = balance + w as i64;
                i = i + 1;
            } else {
                assert(sa.skip(i as int) =~= Seq::<char>::empty());
                return false;
            }
        } else {
            if j < b.len() {
                let w = crate::text::char_width(b[j]);
                assert(sb.skip(j as int).drop_first() == sb.skip(j + 1));
                balance = balance - w as i64;
                j = j + 1;
            } else {
                assert(sb.skip(j as int) =~= Seq::<char>::empty());
                return true;
            }
        }
    }
    assert(sa.skip(i as int) =~= Seq::<char>::empty());
    assert(sb.skip(j as int) =~= Seq::<char>::empty());
    balance > 0
}


fn best_base_exec(path: &[char], bases: &Vec<String>) -> (res: Option<Vec<char>>)
    ensures
        match best_base(path@, texts(bases@)) {
            Some(b) => res is Some && res->0@ == b,
            None => res is None,
        },
{
    let ghost bv = texts(bases@);
    let mut best: Option<Vec<char>> = None;
    let mut i: usize = 0;
    assert(bv.take(0) =~= Seq::<Seq<char>>::empty());
    while i < bases.len()
        invariant
            i <= bases@.len(),
            bv == texts(bases@),
            match best_base(path@, bv.take(i as int)) {
                Some(b) => best is Some && best->0@ == b,
                None => best is None,
            },
        decreases bases@.len() - i,
    {
        assert(bv.take(i + 1).drop_last() == bv.take(i as int));
        assert(bv.take(i + 1).last() == bases@[i as int]@);
        let c = trim_end_char_exec(&chars_of(bases[i].as_str()), '/');
        if at_or_below(path, &c) {
            let better = match &best {
                None => true,
                Some(b) => longer_in_bytes(&c, b),
            };
            if better {
                best = Some(c);
            }
        }
        i = i + 1;
    }
    assert(bv.take(bases@.len() as int) == bv);
    best
}

/// `path` relative to its longest base path.
pub fn normalize_path(path: &str, base_paths: &Vec<String>) -> (res: String)
    ensures
        res@ == normalized(path@, texts(base_paths@)),
{
    let p = chars_of(path);
    match best_base_exec(&p, base_paths) {
        None => string_of(&p),
        Some(b) => {
            if chars_eq(&p, &b) {
                string_of(&p)
            } else {
                let rest = trim_start_str_exec(&p, &b);
                string_of(&trim_start_char_exec(&rest, '/'))
            }
        },
    }
}

// ---------------------------------------------------------------------------
// Session names
// ---------------------------------------------------------------------------
/// The non-empty components of a path.
pub open spec fn path_segments(path: Seq<char>) -> Seq<Seq<char>> {
    nonempty_pieces(split_char(path, '/'))
}

pub open spec fn is_part_separator(c: char) -> bool {
    c == '-' || c == '_'
}

/// The first character of each part of `s` between `-` and `_` separators, skipping empty
/// parts; `at_start` says whether a part starts here.
pub open spec fn initials(s: Seq<char>, at_start: bool) -> Seq<char>
    decreases s.len(),
{
    if s.len() == 0 {
        seq![]
    } else if is_part_separator(s[0]) {
        initials(s.drop_first(), true)
    } else if at_start {
        seq![s[0]] + initials(s.drop_first(), false)
    } else {
        initials(s.drop_first(), false)
    }
}

/// A segment abbreviated: unchanged up to 3 bytes; the initials of its parts joined by `-`
/// when it has `-` or `_`; else its first 3 characters.
pub open spec fn abbreviated(seg: Seq<char>) -> Seq<char> {
    if utf8_len(seg) <= 3 {
        seg
    } else if seg.contains('-') || seg.contains('_') {
        join_seqs(initials(seg, true).map_values(|c: char| seq![c]), seq!['-'])
    } else if seg.len() >= 3 {
        seg.take(3)
    } else {
        seg
    }
}

/// A segment cut to `max` bytes; `None` where the cut falls inside a character (where the
/// slicing panics).
pub open spec fn truncated_segment(seg: Seq<char>, max: nat) -> Option<Seq<char>> {
    if utf8_len(seg) <= max {
        Some(seg)
    } else {
        byte_prefix(seg, max)
    }
}

/// The parts of a long name shortened: every part abbreviated but the last, which is cut to
/// 12 bytes.
pub open spec fn shortened_parts(parts: Seq<Seq<char>>) -> Option<Seq<Seq<char>>> {
    if parts.len() == 0 {
        Some(seq![])
    } else {
        match truncated_segment(parts.last(), 12) {
            Some(t) => Some(parts.drop_last().map_values(|p: Seq<char>| abbreviated(p)).push(t)),
            None => None,
        }
    }
}

/// A candidate name kept within `max` bytes: unchanged if it fits, else with its parts
/// shortened, and cut to the limit if that is still too long; `None` where a cut falls
/// inside a character.
pub open spec fn truncated_within(candidate: Seq<char>, separator: Seq<char>, max: nat) -> Option<Seq<char>> {
    if utf8_len(candidate) <= max {
        Some(candidate)
    } else {
        match shortened_parts(split_str(candidate, separator)) {
            None => None,
            Some(parts) => {
                let a = join_seqs(parts, separator);
                if utf8_len(a) <= max {
                    Some(a)
                } else {
                    byte_prefix(a, max)
                }
            },
        }
    }
}

/// A candidate name kept within [`MAX_SESSION_NAME_LEN`] bytes (see [`truncated_within`]).
pub open spec fn truncated_candidate(candidate: Seq<char>, separator: Seq<char>) -> Option<Seq<char>> {
    truncated_within(candidate, separator, MAX_SESSION_NAME_LEN as nat)
}

/// The last `k` segments joined by the separator.
pub open spec fn context_name(segments: Seq<Seq<char>>, separator: Seq<char>, k: nat) -> Seq<char> {
    join_seqs(segments.skip(segments.len() - k), separator)
}

/// The first candidate, from `k` trailing segments on, that is not taken yet; the whole path
/// when every candidate is taken.
pub open spec fn name_from(segments: Seq<Seq<char>>, separator: Seq<char>, taken: Seq<Seq<char>>, k: nat) -> Option<Seq<char>>
    decreases segments.len() + 1 - k,
{
    if k > segments.len() {
        truncated_candidate(join_seqs(segments, separator), separator)
    } else {
        match truncated_candidate(context_name(segments, separator, k), separator) {
            None => None,
            Some(c) => if !taken.contains(c) {
                Some(c)
            } else {
                name_from(segments, separator, taken, k + 1)
            },
        }
    }
}

/// The session name of a (normalized) path: `root` for no segments, else its basename, or
/// more trailing segments while the shorter names are taken.
pub open spec fn generated_name(path: Seq<char>, taken: Seq<Seq<char>>, separator: Seq<char>) -> Option<Seq<char>> {
    let segments = path_segments(path);
    if segments.len() == 0 {
        Some("root"@)
    } else {
        name_from(segments, separator, taken, 1)
    }
}

fn initials_exec(s: &[char]) -> (res: Vec<char>)
    ensures
        res@ == initials(s@, true),
{
    let mut res: Vec<char> = Vec::new();
    let mut at_start = true;
    let mut i: usize = 0;
    assert(s@.skip(0) == s@);
    assert(res@ + initials(s@, true) =~= initials(s@, true));
    while i < s.len()
        invariant
            i <= s@.len(),
            res@ + initials(s@.skip(i as int), at_start) == initials(s@, true),
        decreases s@.len() - i,
    {
        let ghost rest = s@.skip(i as int);
        assert(rest.drop_first() == s@.skip(i + 1));
        let c = s[i];
        if c == '-' || c == '_' {
            at_start = true;
        } else {
            if at_start {
                let ghost before = res@;
                res.push(c);
                assert(before + (seq![c] + initials(rest.drop_first(), false)) =~= res@ + initials(
                    rest.drop_first(),
                    false,
                ));
            }
            at_start = false;
        }
        i = i + 1;
    }
    assert(s@.skip(i as int) =~= Seq::<char>::empty());
    assert(res@ + Seq::<char>::empty() =~= res@);
    res
}

/// Shortens a path segment (see [`abbreviated`]).
pub fn abbreviate_segment(segment: &[char]) -> (res: Vec<char>)
    ensures
        res@ == abbreviated(segment@),
{
    if !byte_len_exceeds(segment, 3) {
        return copy_chars(segment);
    }
    if crate::text::contains_char(segment, '-') || crate::text::contains_char(segment, '_') {
        let firsts = initials_exec(segment);
        let mut parts: Vec<Vec<char>> = Vec::new();
        let mut i: usize = 0;
        while i < firsts.len()
            invariant
                i <= firsts@.len(),
                parts@.map_values(|v: Vec<char>| v@) == firsts@.take(i as int).map_values(|c: char| seq![c]),
            decreases firsts@.len() - i,
        {
            let ghost before = parts@.map_values(|v: Vec<char>| v@);
            let mut one: Vec<char> = Vec::new();
            one.push(firsts[i]);
            assert(one@ =~= seq![firsts@[i as int]]);
            let ghost ov = one@;
            parts.push(one);
            assert(parts@.map_values(|v: Vec<char>| v@) =~= before.push(ov));
            assert(firsts@.take(i + 1).map_values(|c: char| seq![c]) =~= firsts@.take(i as int).map_values(
                |c: char| seq![c],
            ).push(seq![firsts@[i as int]]));
            i = i + 1;
        }
        assert(firsts@.take(firsts@.len() as int) == firsts@);
        let dash: [char; 1] = ['-'];
        assert(dash@ == seq!['-']);
        return join_exec(&parts, &dash);
    }
    if segment.len() >= 3 {
        slice_chars(segment, 0, 3)
    } else {
        copy_chars(segment)
    }
}

fn truncate_segment(segment: &[char], max_len: usize) -> (res: Option<Vec<char>>)
    ensures
        match truncated_segment(segment@, max_len as nat) {
            Some(t) => res is Some && res->0@ == t,
            None => res is None,
        },
{
    if !byte_len_exceeds(segment, max_len) {
        Some(copy_chars(segment))
    } else {
        byte_prefix_checked(segment, max_len)
    }
}

/// Keeps a candidate name within [`MAX_SESSION_NAME_LEN`] bytes (see
/// [`truncated_candidate`]).
pub fn truncate_candidate(candidate: &[char], separator: &[char]) -> (res: Option<Vec<char>>)
    ensures
        match truncated_candidate(candidate@, separator@) {
            Some(t) => res is Some && res->0@ == t,
            None => res is None,
        },
{
    truncate_within(candidate, separator, MAX_SESSION_NAME_LEN)
}

/// Keeps a candidate name within `max_len` bytes (see [`truncated_within`]).
pub fn truncate_within(candidate: &[char], separator: &[char], max_len: usize) -> (res: Option<Vec<char>>)
    ensures
        match truncated_within(candidate@, separator@, max_len as nat) {
            Some(t) => res is Some && res->0@ == t,
            None => res is None,
        },
{
    if !byte_len_exceeds(candidate, max_len) {
        return Some(copy_chars(candidate));
    }
    let segments = split_str_exec(candidate, separator);
    let ghost sv = split_str(candidate@, separator@);
    let mut parts: Vec<Vec<char>> = Vec::new();
    if segments.len() > 0 {
        let last = segments.len() - 1;
        let mut i: usize = 0;
        while i < last
            invariant
                i <= last,
                last + 1 == segments@.len(),
                segments@.map_values(|v: Vec<char>| v@) == sv,
                parts@.map_values(|v: Vec<char>| v@) == sv.take(i as int).map_values(|p: Seq<char>| abbreviated(p)),
            decreases last - i,
        {
            let ghost before = parts@.map_values(|v: Vec<char>| v@);
            let a = abbreviate_segment(&segments[i]);
            let ghost av = a@;
            parts.push(a);
            assert(segments@[i as int]@ == sv[i as int]);
            assert(parts@.map_values(|v: Vec<char>| v@) =~= before.push(av));
            assert(sv.take(i + 1).map_values(|p: Seq<char>| abbreviated(p)) =~= sv.take(i as int).map_values(
                |p: Seq<char>| abbreviated(p),
            ).push(abbreviated(sv[i as int])));
            i = i + 1;
        }
        assert(segments@[last as int]@ == sv.last());
        let t = match truncate_segment(&segments[last], 12) {
            Some(t) => t,
            None => {
                return None;
            },
        };
        let ghost before = parts@.map_values(|v: Vec<char>| v@);
        let ghost tv = t@;
        parts.push(t);
        assert(parts@.map_values(|v: Vec<char>| v@) =~= before.push(tv));
        assert(sv.take(last as int) =~= sv.drop_last());
    } else {
        assert(parts@.map_values(|v: Vec<char>| v@) =~= Seq::<Seq<char>>::empty());
    }
    let a = join_exec(&parts, separator);
    if !byte_len_exceeds(&a, max_len) {
        Some(a)
    } else {
        byte_prefix_checked(&a, max_len)
    }
}

fn contains_text(names: &Vec<Vec<char>>, x: &[char]) -> (res: bool)
    ensures
        res == names@.map_values(|v: Vec<char>| v@).contains(x@),
{
    let ghost nv = names@.map_values(|v: Vec<char>| v@);
    let mut i: usize = 0;
    while i < names.len()
        invariant
            i <= names@.len(),
            nv == names@.map_values(|v: Vec<char>| v@),
            forall|k: int| 0 <= k < i ==> nv[k] != x@,
        decreases names@.len() - i,
    {
        assert(nv[i as int] == names@[i as int]@);
        if chars_eq(&names[i], x) {
            return true;
        }
        i = i + 1;
    }
    false
}

/// The session name of a normalized path, given the names already taken (see
/// [`generated_name`]).
pub fn generate_session_name(path: &[char], assigned_names: &Vec<Vec<char>>, separator: &[char]) -> (res: Option<Vec<char>>)
    ensures
        match generated_name(path@, assigned_names@.map_values(|v: Vec<char>| v@), separator@) {
            Some(n) => res is Some && res->0@ == n,
            None => res is None,
        },
{
    let pieces = split_char_exec(path, '/');
    let ghost pv = split_char(path@, '/');
    let mut segments: Vec<Vec<char>> = Vec::new();
    let mut i: usize = 0;
    assert(pv.take(0) =~= Seq::<Seq<char>>::empty());
    assert(segments@.map_values(|v: Vec<char>| v@) =~= Seq::<Seq<char>>::empty());
    while i < pieces.len()
        invariant
            i <= pieces@.len() == pv.len(),
            pv == split_char(path@, '/'),
            forall|k: int| 0 <= k < pieces@.len() ==> #[trigger] pieces@[k]@ == pv[k],
            segments@.map_values(|v: Vec<char>| v@) == nonempty_pieces(pv.take(i as int)),
        decreases pieces@.len() - i,
    {
        assert(pv.take(i + 1).drop_last() == pv.take(i as int));
        assert(pv.take(i + 1).last() == pv[i as int]);
        if pieces[i].len() > 0 {
            let ghost before = segments@.map_values(|v: Vec<char>| v@);
            let c = copy_chars(&pieces[i]);
            let ghost cv = c@;
            segments.push(c);
            assert(segments@.map_values(|v: Vec<char>| v@) =~= before.push(cv));
        }
        i = i + 1;
    }
    assert(pv.take(pieces@.len() as int) == pv);
    let ghost sv = segments@.map_values(|v: Vec<char>| v@);
    let ghost taken = assigned_names@.map_values(|v: Vec<char>| v@);
    if segments.len() == 0 {
        let root = chars_of("root");
        return Some(root);
    }
    let n = segments.len();
    let mut j: usize = 0;
    while j < n
        invariant
            j <= n,
            n == segments@.len(),
            sv == segments@.map_values(|v: Vec<char>| v@),
            sv == path_segments(path@),
            taken == assigned_names@.map_values(|v: Vec<char>| v@),
            name_from(sv, separator@, taken, 1) == name_from(sv, separator@, taken, (j + 1) as nat),
        decreases n - j,
    {
        let k = j + 1;
        let tail = slice_vecs(&segments, n - k);
        assert(tail@.map_values(|v: Vec<char>| v@) =~= sv.skip(sv.len() - k));
        let joined = join_exec(&tail, separator);
        let candidate = truncate_candidate(&joined, separator)?;
        if !contains_text(assigned_names, &candidate) {
            return Some(candidate);
        }
        j = j + 1;
    }
    let whole = join_exec(&segments, separator);
    truncate_candidate(&whole, separator)
}

/// The vectors of `v` from `from` on, copied.
pub(crate) fn slice_vecs(v: &Vec<Vec<char>>, from: usize) -> (res: Vec<Vec<char>>)
    requires
        from <= v@.len(),
    ensures
        res@.map_values(|x: Vec<char>| x@) == v@.map_values(|x: Vec<char>| x@).skip(from as int),
{
    let mut res: Vec<Vec<char>> = Vec::new();
    let mut i: usize = from;
    while i < v.len()
        invariant
            from <= i <= v@.len(),
            res@.map_values(|x: Vec<char>| x@) == v@.map_values(|x: Vec<char>| x@).subrange(from as int, i as int),
        decreases v@.len() - i,
    {
        let ghost before = res@.map_values(|x: Vec<char>| x@);
        let c = copy_chars(&v[i]);
        let ghost cv = c@;
        res.push(c);
        assert(res@.map_values(|x: Vec<char>| x@) =~= before.push(cv));
        assert(v@.map_values(|x: Vec<char>| x@).subrange(from as int, i + 1) =~= v@.map_values(|x: Vec<char>| x@).subrange(
            from as int,
            i as int,
        ).push(v@[i as int]@));
        i = i + 1;
    }
    assert(v@.map_values(|x: Vec<char>| x@).subrange(from as int, v@.len() as int) =~= v@.map_values(|x: Vec<char>| x@).skip(
        from as int,
    ));
    res
}


// ---------------------------------------------------------------------------
// The directory list
// ---------------------------------------------------------------------------
/// The ranked paths that are searched and not ignored, in order.
pub open spec fn kept(entries: Seq<(u64, Seq<char>)>, config: ConfigView) -> Seq<(u64, Seq<char>)>
    decreases entries.len(),
{
    if entries.len() == 0 {
        seq![]
    } else {
        let e = entries.last();
        if is_searched(e.1, config.search_directories) && !under_any(e.1, config.ignored_directories) {
            kept(entries.drop_last(), config).push(e)
        } else {
            kept(entries.drop_last(), config)
        }
    }
}

/// The session names given to the paths in order, each avoiding the names given before it;
/// `None` where naming one would cut inside a character.
pub open spec fn assigned_names(paths: Seq<Seq<char>>, config: ConfigView) -> Option<Seq<Seq<char>>>
    decreases paths.len(),
{
    if paths.len() == 0 {
        Some(seq![])
    } else {
        match assigned_names(paths.drop_last(), config) {
            None => None,
            Some(previous) => match generated_name(
                normalized(paths.last(), config.base_paths),
                previous,
                config.session_separator,
            ) {
                None => None,
                Some(n) => Some(previous.push(n)),
            },
        }
    }
}

pub open spec fn paths_of(entries: Seq<(u64, Seq<char>)>) -> Seq<Seq<char>> {
    entries.map_values(|e: (u64, Seq<char>)| e.1)
}

/// Inserts `d` after every directory ranked at least as high (a stable insertion by rank,
/// highest first).
pub open spec fn insert_by_rank(s: Seq<DirectoryView>, d: DirectoryView) -> Seq<DirectoryView>
    decreases s.len(),
{
    if s.len() == 0 {
        seq![d]
    } else if s[0].ranking < d.ranking {
        seq![d] + s
    } else {
        seq![s[0]] + insert_by_rank(s.drop_first(), d)
    }
}

/// The directories by rank, highest first, equal ranks in their order (a stable sort).
pub open spec fn sort_by_rank(s: Seq<DirectoryView>) -> Seq<DirectoryView>
    decreases s.len(),
{
    if s.len() == 0 {
        seq![]
    } else {
        insert_by_rank(sort_by_rank(s.drop_last()), s.last())
    }
}

/// Whether every kept directory can be named without cutting inside a character.
pub open spec fn naming_defined(entries: Seq<(u64, Seq<char>)>, config: ConfigView) -> bool {
    assigned_names(paths_of(kept(entries, config)), config) is Some
}

/// The directory list: the kept directories named in order, then sorted by rank.
pub open spec fn directories_spec(entries: Seq<(u64, Seq<char>)>, config: ConfigView) -> Seq<DirectoryView>
    recommends
        naming_defined(entries, config),
{
    let k = kept(entries, config);
    let names = assigned_names(paths_of(k), config)->0;
    sort_by_rank(Seq::new(k.len(), |i: int| DirectoryView { ranking: k[i].0, directory: k[i].1, session_name: names[i] }))
}

pub open spec fn entry_views(v: Seq<(u64, String)>) -> Seq<(u64, Seq<char>)> {
    v.map_values(|e: (u64, String)| (e.0, e.1@))
}

pub(crate) fn insert_by_rank_exec(sorted: &mut Vec<ZoxideDirectory>, d: ZoxideDirectory)
    ensures
        directory_views(final(sorted)@) == insert_by_rank(directory_views(old(sorted)@), d@),
{
    let ghost s = directory_views(sorted@);
    let mut i: usize = 0;
    assert(s.skip(0) == s);
    assert(s.take(0) + insert_by_rank(s, d@) =~= insert_by_rank(s, d@));
    while i < sorted.len() && !(sorted[i].ranking < d.ranking)
        invariant
            i <= sorted@.len(),
            s == directory_views(sorted@),
            insert_by_rank(s, d@) == s.take(i as int) + insert_by_rank(s.skip(i as int), d@),
        decreases sorted@.len() - i,
    {
        let ghost t = s.skip(i as int);
        assert(t[0] == sorted@[i as int]@);
        assert(t.drop_first() == s.skip(i + 1));
        assert(s.take(i + 1) == s.take(i as int) + seq![t[0]]);
        i = i + 1;
    }
    let ghost dv = d@;
    proof {
        if i < s.len() {
            assert(s.skip(i as int)[0] == sorted@[i as int]@);
        } else {
            assert(s.skip(i as int) =~= Seq::<DirectoryView>::empty());
        }
        assert(s.take(i as int) + (seq![dv] + s.skip(i as int)) =~= s.insert(i as int, dv));
    }
    sorted.insert(i, d);
    assert(directory_views(sorted@) =~= s.insert(i as int, dv));
}

/// The directories of a zoxide listing: `entries` are the rank and path of each line in
/// order; those searched and not ignored are named and sorted by rank, highest first.
pub fn parse_directories(entries: &Vec<(u64, String)>, config: &Config) -> (res: Vec<ZoxideDirectory>)
    requires
        naming_defined(entry_views(entries@), config@),
    ensures
        directory_views(res@) == directories_spec(entry_views(entries@), config@),
{
    match try_parse_directories(entries, config) {
        Some(d) => d,
        None => Vec::new(),
    }
}

/// [`parse_directories`], or `None` where naming a directory would cut a name inside a
/// character (where the naming panics).
pub fn try_parse_directories(entries: &Vec<(u64, String)>, config: &Config) -> (res: Option<Vec<ZoxideDirectory>>)
    ensures
        res is Some <==> naming_defined(entry_views(entries@), config@),
        res matches Some(d) ==> directory_views(d@) == directories_spec(entry_views(entries@), config@),
{
    let ghost ev = entry_views(entries@);
    let ghost cfg = config@;
    // The kept directories, in order.
    let mut kept_v: Vec<(u64, String)> = Vec::new();
    let mut i: usize = 0;
    assert(ev.take(0) =~= Seq::<(u64, Seq<char>)>::empty());
    assert(entry_views(kept_v@) =~= Seq::<(u64, Seq<char>)>::empty());
    while i < entries.len()
        invariant
            i <= entries@.len(),
            ev == entry_views(entries@),
            cfg == config@,
            entry_views(kept_v@) == kept(ev.take(i as int), cfg),
        decreases entries@.len() - i,
    {
        assert(ev.take(i + 1).drop_last() == ev.take(i as int));
        assert(ev.take(i + 1).last() == ev[i as int]);
        let path = entries[i].1.as_str();
        if is_searched_directory(path, &config.search_directories) && !is_ignored_directory(path, &config.ignored_directories) {
            let ghost before = kept_v@;
            let e = (entries[i].0, entries[i].1.clone());
            kept_v.push(e);
            assert(entry_views(kept_v@) =~= entry_views(before).push(ev[i as int]));
        }
        i = i + 1;
    }
    assert(ev.take(entries@.len() as int) == ev);
    let ghost k = kept(ev, cfg);
    // Names, each avoiding the ones given before it.
    let separator = chars_of(config.session_separator.as_str());
    let mut names: Vec<Vec<char>> = Vec::new();
    let mut j: usize = 0;
    proof {
        assert(paths_of(k).take(0) =~= Seq::<Seq<char>>::empty());
        assert(names@.map_values(|v: Vec<char>| v@) =~= Seq::<Seq<char>>::empty());
    }
    while j < kept_v.len()
        invariant
            j <= kept_v@.len(),
            k == entry_views(kept_v@),
            k == kept(ev, cfg),
            ev == entry_views(entries@),
            cfg == config@,
            separator@ == cfg.session_separator,
            names@.len() == j,
            assigned_names(paths_of(k).take(j as int), cfg) == Some(names@.map_values(|v: Vec<char>| v@)),
        decreases kept_v@.len() - j,
    {
        assert(paths_of(k).take(j + 1).drop_last() == paths_of(k).take(j as int));
        assert(paths_of(k).take(j + 1).last() == kept_v@[j as int].1@);
        let normalized_path = normalize_path(kept_v[j].1.as_str(), &config.base_paths);
        let n = match generate_session_name(&chars_of(normalized_path.as_str()), &names, &separator) {
            Some(n) => n,
            None => {
                proof {
                    let pre = paths_of(k).take(j + 1);
                    assert(pre.drop_last() == paths_of(k).take(j as int));
                    assert(pre.last() == kept_v@[j as int].1@);
                    assert(normalized_path@ == normalized(pre.last(), cfg.base_paths));
                    assert(assigned_names(pre, cfg) is None);
                    lemma_assigned_none(paths_of(k), cfg, (j + 1) as nat);
                }
                return None;
            },
        };
        let ghost before = names@.map_values(|v: Vec<char>| v@);
        let ghost nv = n@;
        names.push(n);
        assert(names@.map_values(|v: Vec<char>| v@) =~= before.push(nv));
        j = j + 1;
    }
    assert(paths_of(k).take(kept_v@.len() as int) =~= paths_of(k));
    let ghost nameseq = names@.map_values(|v: Vec<char>| v@);
    let ghost named = Seq::new(k.len(), |i: int| DirectoryView { ranking: k[i].0, directory: k[i].1, session_name: nameseq[i] });
    // Sorted by rank.
    let mut sorted: Vec<ZoxideDirectory> = Vec::new();
    let mut m: usize = 0;
    assert(named.take(0) =~= Seq::<DirectoryView>::empty());
    assert(directory_views(sorted@) =~= Seq::<DirectoryView>::empty());
    while m < kept_v.len()
        invariant
            m <= kept_v@.len(),
            kept_v@.len() == names@.len() == named.len(),
            named == Seq::new(k.len(), |i: int| DirectoryView { ranking: k[i].0, directory: k[i].1, session_name: nameseq[i] }),
            k == entry_views(kept_v@),
            nameseq == names@.map_values(|v: Vec<char>| v@),
            directory_views(sorted@) == sort_by_rank(named.take(m as int)),
        decreases kept_v@.len() - m,
    {
        assert(named.take(m + 1).drop_last() == named.take(m as int));
        assert(named.take(m + 1).last() == named[m as int]);
        let d = ZoxideDirectory { ranking: kept_v[m].0, directory: kept_v[m].1.clone(), session_name: string_of(&names[m]) };
        assert(d@ == named[m as int]);
        insert_by_rank_exec(&mut sorted, d);
        m = m + 1;
    }
    assert(named.take(kept_v@.len() as int) =~= named);
    Some(sorted)
}

/// Where naming a prefix of the paths is undefined, naming all of them is.
proof fn lemma_assigned_none(paths: Seq<Seq<char>>, config: ConfigView, j: nat)
    requires
        j <= paths.len(),
        assigned_names(paths.take(j as int), config) is None,
    ensures
        assigned_names(paths, config) is None,
    decreases paths.len() - j,
{
    if j < paths.len() {
        assert(paths.take(j as int + 1).drop_last() == paths.take(j as int));
        lemma_assigned_none(paths, config, j + 1);
    } else {
        assert(paths.take(j as int) == paths);
    }
}


// ---------------------------------------------------------------------------
// Laws
// ---------------------------------------------------------------------------
/// A kept candidate fits in `max` bytes.
pub proof fn lemma_truncated_within_fits(candidate: Seq<char>, separator: Seq<char>, max: nat)
    ensures
        truncated_within(candidate, separator, max) matches Some(t) ==> utf8_len(t) <= max,
{
    if utf8_len(candidate) > max {
        if let Some(parts) = shortened_parts(split_str(candidate, separator)) {
            let a = join_seqs(parts, separator);
            if utf8_len(a) > max && byte_prefix(a, max) is Some {
                lemma_byte_prefix_len(a, max);
            }
        }
    }
}

proof fn lemma_truncated_fits(candidate: Seq<char>, separator: Seq<char>)
    ensures
        truncated_candidate(candidate, separator) matches Some(t) ==> utf8_len(t) <= MAX_SESSION_NAME_LEN,
{
    lemma_truncated_within_fits(candidate, separator, MAX_SESSION_NAME_LEN as nat);
}

proof fn lemma_name_from_fits(segments: Seq<Seq<char>>, separator: Seq<char>, taken: Seq<Seq<char>>, k: nat)
    ensures
        name_from(segments, separator, taken, k) matches Some(t) ==> utf8_len(t) <= MAX_SESSION_NAME_LEN,
    decreases segments.len() + 1 - k,
{
    if k > segments.len() {
        lemma_truncated_fits(join_seqs(segments, separator), separator);
    } else {
        lemma_truncated_fits(context_name(segments, separator, k), separator);
        lemma_name_from_fits(segments, separator, taken, k + 1);
    }
}

/// Every generated session name fits in [`MAX_SESSION_NAME_LEN`] bytes.
pub proof fn lemma_generated_name_fits(path: Seq<char>, taken: Seq<Seq<char>>, separator: Seq<char>)
    ensures
        generated_name(path, taken, separator) matches Some(n) ==> utf8_len(n) <= MAX_SESSION_NAME_LEN,
{
    reveal_strlit("root");
    if path_segments(path).len() > 0 {
        lemma_name_from_fits(path_segments(path), separator, taken, 1);
    } else {
        assert(utf8_len("root"@) == 4) by {
            reveal_with_fuel(utf8_len, 5);
        }
    }
}

proof fn lemma_assigned_fit(paths: Seq<Seq<char>>, config: ConfigView)
    ensures
        assigned_names(paths, config) matches Some(names) ==> names.len() == paths.len() && forall|i: int|
            0 <= i < names.len() ==> utf8_len(#[trigger] names[i]) <= MAX_SESSION_NAME_LEN,
    decreases paths.len(),
{
    if paths.len() > 0 {
        lemma_assigned_fit(paths.drop_last(), config);
        if let Some(previous) = assigned_names(paths.drop_last(), config) {
            lemma_generated_name_fits(normalized(paths.last(), config.base_paths), previous, config.session_separator);
        }
    }
}

proof fn lemma_kept_members(entries: Seq<(u64, Seq<char>)>, config: ConfigView)
    ensures
        forall|i: int| 0 <= i < kept(entries, config).len() ==> {
            let e = #[trigger] kept(entries, config)[i];
            is_searched(e.1, config.search_directories) && !under_any(e.1, config.ignored_directories)
        },
    decreases entries.len(),
{
    if entries.len() > 0 {
        let t = entries.drop_last();
        lemma_kept_members(t, config);
        let r = kept(entries, config);
        assert forall|i: int| 0 <= i < r.len() implies {
            let e = #[trigger] r[i];
            is_searched(e.1, config.search_directories) && !under_any(e.1, config.ignored_directories)
        } by {
            if i < kept(t, config).len() {
                assert(r[i] == kept(t, config)[i]);
            }
        }
    }
}

proof fn lemma_insert_by_rank(s: Seq<DirectoryView>, d: DirectoryView)
    ensures
        insert_by_rank(s, d).len() == s.len() + 1,
        forall|i: int| 0 <= i < insert_by_rank(s, d).len() ==> (#[trigger] insert_by_rank(s, d)[i] == d || s.contains(insert_by_rank(s, d)[i])),
        (forall|i: int, j: int| 0 <= i < j < s.len() ==> #[trigger] s[i].ranking >= #[trigger] s[j].ranking) ==> forall|i: int, j: int|
            0 <= i < j < insert_by_rank(s, d).len() ==> #[trigger] insert_by_rank(s, d)[i].ranking >= #[trigger] insert_by_rank(s, d)[j].ranking,
    decreases s.len(),
{
    if s.len() > 0 && !(s[0].ranking < d.ranking) {
        let t = s.drop_first();
        lemma_insert_by_rank(t, d);
        let r = insert_by_rank(s, d);
        assert forall|i: int| 0 <= i < r.len() implies (#[trigger] r[i] == d || s.contains(r[i])) by {
            if i == 0 {
                assert(s[0] == r[0]);
            } else {
                assert(r[i] == insert_by_rank(t, d)[i - 1]);
                if r[i] != d {
                    let m = choose|m: int| 0 <= m < t.len() && t[m] == r[i];
                    assert(s[m + 1] == r[i]);
                }
            }
        }
        if forall|i: int, j: int| 0 <= i < j < s.len() ==> #[trigger] s[i].ranking >= #[trigger] s[j].ranking {
            assert forall|i: int, j: int| 0 <= i < j < t.len() implies #[trigger] t[i].ranking >= #[trigger] t[j].ranking by {
                assert(t[i] == s[i + 1] && t[j] == s[j + 1]);
            }
            assert forall|i: int, j: int| 0 <= i < j < r.len() implies #[trigger] r[i].ranking >= #[trigger] r[j].ranking by {
                if i == 0 {
                    let x = insert_by_rank(t, d)[j - 1];
                    assert(r[j] == x);
                    if x != d {
                        let m = choose|m: int| 0 <= m < t.len() && t[m] == x;
                        assert(s[m + 1] == x);
                    }
                } else {
                    assert(r[i] == insert_by_rank(t, d)[i - 1] && r[j] == insert_by_rank(t, d)[j - 1]);
                }
            }
        }
    } else if s.len() > 0 {
        let r = insert_by_rank(s, d);
        assert forall|i: int| 0 <= i < r.len() implies (#[trigger] r[i] == d || s.contains(r[i])) by {
            if i > 0 {
                assert(r[i] == s[i - 1]);
            }
        }
    }
}

pub(crate) proof fn lemma_sort_by_rank(s: Seq<DirectoryView>)
    ensures
        sort_by_rank(s).len() == s.len(),
        forall|i: int| 0 <= i < sort_by_rank(s).len() ==> s.contains(#[trigger] sort_by_rank(s)[i]),
        forall|i: int, j: int| 0 <= i < j < sort_by_rank(s).len() ==> #[trigger] sort_by_rank(s)[i].ranking >= #[trigger] sort_by_rank(s)[j].ranking,
    decreases s.len(),
{
    if s.len() > 0 {
        let t = s.drop_last();
        lemma_sort_by_rank(t);
        lemma_insert_by_rank(sort_by_rank(t), s.last());
        let r = sort_by_rank(s);
        assert forall|i: int| 0 <= i < r.len() implies s.contains(#[trigger] r[i]) by {
            if r[i] == s.last() {
                assert(s[s.len() - 1] == r[i]);
            } else {
                let m = choose|m: int| 0 <= m < sort_by_rank(t).len() && sort_by_rank(t)[m] == r[i];
                let q = choose|q: int| 0 <= q < t.len() && t[q] == sort_by_rank(t)[m];
                assert(s[q] == r[i]);
            }
        }
    }
}

/// The directory list holds only directories that are searched and not ignored, each with
/// a session name of at most [`MAX_SESSION_NAME_LEN`] bytes, highest rank first.
pub proof fn lemma_directories(entries: Seq<(u64, Seq<char>)>, config: ConfigView)
    requires
        naming_defined(entries, config),
    ensures
        forall|i: int| 0 <= i < directories_spec(entries, config).len() ==> {
            let d = #[trigger] directories_spec(entries, config)[i];
            &&& is_searched(d.directory, config.search_directories)
            &&& !under_any(d.directory, config.ignored_directories)
            &&& utf8_len(d.session_name) <= MAX_SESSION_NAME_LEN
        },
        forall|i: int, j: int| 0 <= i < j < directories_spec(entries, config).len() ==> #[trigger] directories_spec(entries, config)[i].ranking
            >= #[trigger] directories_spec(entries, config)[j].ranking,
{
    let k = kept(entries, config);
    let names = assigned_names(paths_of(k), config)->0;
    lemma_assigned_fit(paths_of(k), config);
    lemma_kept_members(entries, config);
    let named = Seq::new(k.len(), |i: int| DirectoryView { ranking: k[i].0, directory: k[i].1, session_name: names[i] });
    lemma_sort_by_rank(named);
    let r = directories_spec(entries, config);
    assert forall|i: int| 0 <= i < r.len() implies {
        let d = #[trigger] r[i];
        &&& is_searched(d.directory, config.search_directories)
        &&& !under_any(d.directory, config.ignored_directories)
        &&& utf8_len(d.session_name) <= MAX_SESSION_NAME_LEN
    } by {
        let q = choose|q: int| 0 <= q < named.len() && named[q] == r[i];
        assert(k[q] == k[q]);
        assert(names[q] == named[q].session_name);
    }
}

// ---------------------------------------------------------------------------
// ASCII paths are always named
// ---------------------------------------------------------------------------
/// Every piece is ASCII.
pub open spec fn pieces_ascii(v: Seq<Seq<char>>) -> bool {
    forall|i: int| 0 <= i < v.len() ==> all_ascii(#[trigger] v[i])
}

proof fn lemma_ascii_skip(s: Seq<char>, k: int)
    requires
        all_ascii(s),
        0 <= k <= s.len(),
    ensures
        all_ascii(s.skip(k)),
{
    assert forall|i: int| 0 <= i < s.skip(k).len() implies (s.skip(k)[i] as u32) < 0x80 by {
        assert(s.skip(k)[i] == s[i + k]);
    }
}

proof fn lemma_ascii_trim_start_str(s: Seq<char>, p: Seq<char>)
    requires
        all_ascii(s),
    ensures
        all_ascii(trim_start_str(s, p)),
    decreases s.len(),
{
    if p.len() > 0 && starts_with(s, p) {
        lemma_ascii_skip(s, p.len() as int);
        lemma_ascii_trim_start_str(s.skip(p.len() as int), p);
    }
}

proof fn lemma_ascii_trim_start_char(s: Seq<char>, c: char)
    requires
        all_ascii(s),
    ensures
        all_ascii(trim_start_char(s, c)),
    decreases s.len(),
{
    if s.len() > 0 && s[0] == c {
        lemma_ascii_skip(s, 1);
        assert(s.skip(1) == s.drop_first());
        lemma_ascii_trim_start_char(s.drop_first(), c);
    }
}

proof fn lemma_ascii_split_acc(s: Seq<char>, c: char, cur: Seq<char>)
    requires
        all_ascii(s),
        all_ascii(cur),
    ensures
        pieces_ascii(split_acc(s, c, cur)),
    decreases s.len(),
{
    if s.len() > 0 {
        lemma_ascii_skip(s, 1);
        assert(s.skip(1) == s.drop_first());
        if s[0] == c {
            lemma_ascii_split_acc(s.drop_first(), c, seq![]);
            let r = split_acc(s, c, cur);
            assert forall|i: int| 0 <= i < r.len() implies all_ascii(#[trigger] r[i]) by {
                if i > 0 {
                    assert(r[i] == split_acc(s.drop_first(), c, seq![])[i - 1]);
                }
            }
        } else {
            assert(all_ascii(cur.push(s[0])));
            lemma_ascii_split_acc(s.drop_first(), c, cur.push(s[0]));
        }
    }
}

proof fn lemma_ascii_nonempty_pieces(v: Seq<Seq<char>>)
    requires
        pieces_ascii(v),
    ensures
        pieces_ascii(nonempty_pieces(v)),
    decreases v.len(),
{
    if v.len() > 0 {
        assert(pieces_ascii(v.drop_last()));
        lemma_ascii_nonempty_pieces(v.drop_last());
    }
}

proof fn lemma_ascii_join(v: Seq<Seq<char>>, sep: Seq<char>)
    requires
        pieces_ascii(v),
        all_ascii(sep),
    ensures
        all_ascii(join_seqs(v, sep)),
    decreases v.len(),
{
    if v.len() > 1 {
        assert(pieces_ascii(v.drop_last()));
        lemma_ascii_join(v.drop_last(), sep);
        assert(all_ascii(v.last()));
    } else if v.len() == 1 {
        assert(all_ascii(v[0]));
    }
}

proof fn lemma_ascii_split_str_acc(s: Seq<char>, p: Seq<char>, cur: Seq<char>)
    requires
        all_ascii(s),
        all_ascii(cur),
    ensures
        pieces_ascii(split_str_acc(s, p, cur)),
    decreases s.len(),
{
    if s.len() > 0 {
        if p.len() > 0 && starts_with(s, p) {
            lemma_ascii_skip(s, p.len() as int);
            lemma_ascii_split_str_acc(s.skip(p.len() as int), p, seq![]);
            let r = split_str_acc(s, p, cur);
            assert forall|i: int| 0 <= i < r.len() implies all_ascii(#[trigger] r[i]) by {
                if i > 0 {
                    assert(r[i] == split_str_acc(s.skip(p.len() as int), p, seq![])[i - 1]);
                }
            }
        } else {
            lemma_ascii_skip(s, 1);
            assert(s.skip(1) == s.drop_first());
            assert(all_ascii(cur.push(s[0])));
            lemma_ascii_split_str_acc(s.drop_first(), p, cur.push(s[0]));
        }
    }
}

proof fn lemma_ascii_split_str(s: Seq<char>, p: Seq<char>)
    requires
        all_ascii(s),
    ensures
        pieces_ascii(split_str(s, p)),
{
    if p.len() == 0 {
        let r = split_str(s, p);
        assert forall|i: int| 0 <= i < r.len() implies all_ascii(#[trigger] r[i]) by {
            if 0 < i < r.len() - 1 {
                assert(r[i] == seq![s[i - 1]]);
            }
        }
    } else {
        lemma_ascii_split_str_acc(s, p, seq![]);
    }
}

proof fn lemma_ascii_initials(s: Seq<char>, at_start: bool)
    requires
        all_ascii(s),
    ensures
        all_ascii(initials(s, at_start)),
    decreases s.len(),
{
    if s.len() > 0 {
        lemma_ascii_skip(s, 1);
        assert(s.skip(1) == s.drop_first());
        lemma_ascii_initials(s.drop_first(), true);
        lemma_ascii_initials(s.drop_first(), false);
    }
}

proof fn lemma_ascii_abbreviated(seg: Seq<char>)
    requires
        all_ascii(seg),
    ensures
        all_ascii(abbreviated(seg)),
{
    if utf8_len(seg) > 3 {
        if seg.contains('-') || seg.contains('_') {
            let ini = initials(seg, true);
            lemma_ascii_initials(seg, true);
            let v = ini.map_values(|c: char| seq![c]);
            assert forall|i: int| 0 <= i < v.len() implies all_ascii(#[trigger] v[i]) by {
                assert(v[i] == seq![ini[i]]);
            }
            lemma_ascii_join(v, seq!['-']);
        } else if seg.len() >= 3 {
            assert forall|i: int| 0 <= i < seg.take(3).len() implies (seg.take(3)[i] as u32) < 0x80 by {
                assert(seg.take(3)[i] == seg[i]);
            }
        }
    }
}

proof fn lemma_ascii_byte_prefix(s: Seq<char>, n: nat)
    requires
        all_ascii(s),
        n <= s.len(),
    ensures
        byte_prefix(s, n) == Some(s.take(n as int)),
    decreases s.len(),
{
    if n > 0 {
        assert((s[0] as u32) < 0x80);
        lemma_ascii_skip(s, 1);
        assert(s.skip(1) == s.drop_first());
        lemma_ascii_byte_prefix(s.drop_first(), (n - 1) as nat);
        assert(seq![s[0]] + s.drop_first().take(n - 1) =~= s.take(n as int));
    } else {
        assert(s.take(0) =~= Seq::<char>::empty());
    }
}

proof fn lemma_ascii_truncated_segment(seg: Seq<char>, max: nat)
    requires
        all_ascii(seg),
    ensures
        truncated_segment(seg, max) is Some,
        all_ascii(truncated_segment(seg, max)->0),
{
    lemma_ascii_utf8_len(seg);
    if utf8_len(seg) > max {
        lemma_ascii_byte_prefix(seg, max);
        assert forall|i: int| 0 <= i < seg.take(max as int).len() implies (seg.take(max as int)[i] as u32) < 0x80 by {
            assert(seg.take(max as int)[i] == seg[i]);
        }
    }
}

proof fn lemma_ascii_shortened(parts: Seq<Seq<char>>)
    requires
        pieces_ascii(parts),
    ensures
        shortened_parts(parts) is Some,
        pieces_ascii(shortened_parts(parts)->0),
{
    if parts.len() > 0 {
        lemma_ascii_truncated_segment(parts.last(), 12);
        let t = truncated_segment(parts.last(), 12)->0;
        let front = parts.drop_last().map_values(|p: Seq<char>| abbreviated(p));
        let r = front.push(t);
        assert forall|i: int| 0 <= i < r.len() implies all_ascii(#[trigger] r[i]) by {
            if i < front.len() {
                assert(all_ascii(parts[i]));
                lemma_ascii_abbreviated(parts[i]);
                assert(r[i] == abbreviated(parts[i]));
            }
        }
    }
}

proof fn lemma_ascii_truncated_within(candidate: Seq<char>, separator: Seq<char>, max: nat)
    requires
        all_ascii(candidate),
        all_ascii(separator),
    ensures
        truncated_within(candidate, separator, max) is Some,
{
    if utf8_len(candidate) > max {
        lemma_ascii_split_str(candidate, separator);
        lemma_ascii_shortened(split_str(candidate, separator));
        let parts = shortened_parts(split_str(candidate, separator))->0;
        let a = join_seqs(parts, separator);
        lemma_ascii_join(parts, separator);
        lemma_ascii_utf8_len(a);
        if utf8_len(a) > max {
            lemma_ascii_byte_prefix(a, max);
        }
    }
}

proof fn lemma_ascii_name_from(segments: Seq<Seq<char>>, separator: Seq<char>, taken: Seq<Seq<char>>, k: nat)
    requires
        pieces_ascii(segments),
        all_ascii(separator),
    ensures
        name_from(segments, separator, taken, k) is Some,
    decreases segments.len() + 1 - k,
{
    if k > segments.len() {
        lemma_ascii_join(segments, separator);
        lemma_ascii_truncated_within(join_seqs(segments, separator), separator, MAX_SESSION_NAME_LEN as nat);
    } else {
        let tail = segments.skip(segments.len() - k);
        assert forall|i: int| 0 <= i < tail.len() implies all_ascii(#[trigger] tail[i]) by {
            assert(tail[i] == segments[i + segments.len() - k]);
        }
        lemma_ascii_join(tail, separator);
        lemma_ascii_truncated_within(context_name(segments, separator, k), separator, MAX_SESSION_NAME_LEN as nat);
        lemma_ascii_name_from(segments, separator, taken, k + 1);
    }
}

proof fn lemma_ascii_assigned(paths: Seq<Seq<char>>, config: ConfigView)
    requires
        pieces_ascii(paths),
        all_ascii(config.session_separator),
    ensures
        assigned_names(paths, config) is Some,
    decreases paths.len(),
{
    if paths.len() > 0 {
        assert(pieces_ascii(paths.drop_last()));
        lemma_ascii_assigned(paths.drop_last(), config);
        let path = paths.last();
        assert(all_ascii(path));
        let n = normalized(path, config.base_paths);
        match best_base(path, config.base_paths) {
            None => {},
            Some(b) => if path != b {
                lemma_ascii_trim_start_str(path, b);
                lemma_ascii_trim_start_char(trim_start_str(path, b), '/');
            },
        }
        assert(all_ascii(n));
        lemma_ascii_split_acc(n, '/', seq![]);
        lemma_ascii_nonempty_pieces(split_char(n, '/'));
        let previous = assigned_names(paths.drop_last(), config)->0;
        if path_segments(n).len() > 0 {
            lemma_ascii_name_from(path_segments(n), config.session_separator, previous, 1);
        }
    }
}

proof fn lemma_kept_paths(entries: Seq<(u64, Seq<char>)>, config: ConfigView)
    requires
        forall|i: int| 0 <= i < entries.len() ==> all_ascii(#[trigger] entries[i].1),
    ensures
        pieces_ascii(paths_of(kept(entries, config))),
    decreases entries.len(),
{
    if entries.len() > 0 {
        lemma_kept_paths(entries.drop_last(), config);
        let k0 = paths_of(kept(entries.drop_last(), config));
        let k = paths_of(kept(entries, config));
        assert(all_ascii(entries.last().1));
        assert forall|i: int| 0 <= i < k.len() implies all_ascii(#[trigger] k[i]) by {
            if i < k0.len() {
                assert(k[i] == k0[i]);
            }
        }
    }
}

/// Directories with ASCII paths, under an ASCII separator, are always named: no name is cut
/// inside a character, so the directory list is defined, every name within
/// [`MAX_SESSION_NAME_LEN`] bytes.
pub proof fn lemma_ascii_naming_defined(entries: Seq<(u64, Seq<char>)>, config: ConfigView)
    requires
        forall|i: int| 0 <= i < entries.len() ==> all_ascii(#[trigger] entries[i].1),
        all_ascii(config.session_separator),
    ensures
        naming_defined(entries, config),
        forall|i: int| 0 <= i < directories_spec(entries, config).len() ==> utf8_len(
            (#[trigger] directories_spec(entries, config)[i]).session_name,
        ) <= MAX_SESSION_NAME_LEN,
{
    lemma_kept_paths(entries, config);
    lemma_ascii_assigned(paths_of(kept(entries, config)), config);
    lemma_directories(entries, config);
}

} // verus!
