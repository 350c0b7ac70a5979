//! treemin naming: worktree directories and Zellij session names.
//!
//! Linked worktree sessions are named after the branch (`repo|branch`), shortened to a
//! socket-safe length; colliding names get numeric suffixes (`.2`, `.3`, ...).  Legacy
//! names (`repo-branch`, `repo-branch-<hash>`) stay available as match candidates so that
//! sessions created by earlier versions are still found.
use vstd::prelude::*;

use crate::text::{
    all_ascii, chars_eq, chars_of, concat, copy_chars, decimal_chars, decimal_text,
    extend_chars, hex_chars, hex_text, is_alnum, join_exec, join_seqs, lemma_sort_desc_dedup,
    lex_less, lex_lt, nonempty_pieces, slice_chars, sort_desc_dedup, split_char,
    split_char_exec, string_of, insert_desc, trim_char, trim_char_exec,
    char_is_alnum, radix_text, digit_char, is_digit, trim_start_char, trim_end_char, utf8_len,
    lemma_ascii_utf8_len, lemma_lex_lt_irreflexive, str_eq, lemma_lex_lt_asymmetric, strictly_desc,
};
use crate::treemin::config::{Config, WorktreeNamingPattern, opt_view};

verus! {

broadcast use {vstd::seq::Seq::lemma_push_map_commute, vstd::seq::Seq::lemma_push_to_set_commute};

/// Longest generated session name, in bytes.  Zellij's IPC socket path can be as short as
/// 103 bytes on macOS and the socket directory already uses most of it.
pub const MAX_SESSION_NAME_LEN: usize = 24;

// ---------------------------------------------------------------------------
// Sanitizing
// ---------------------------------------------------------------------------
/// Characters kept in a session name segment.
pub open spec fn session_char_ok(c: char) -> bool {
    is_alnum(c) || c == '.' || c == '_' || c == '-' || c == '|'
}

/// Characters kept in a path segment.
pub open spec fn path_char_ok(c: char) -> bool {
    is_alnum(c) || c == '.' || c == '_' || c == '-'
}

pub open spec fn map_session_chars(s: Seq<char>) -> Seq<char> {
    s.map_values(|c: char| if session_char_ok(c) { c } else { '-' })
}

pub open spec fn map_path_chars(s: Seq<char>) -> Seq<char> {
    s.map_values(|c: char| if c == '/' || path_char_ok(c) { c } else { '-' })
}

/// Runs of `-` collapsed to one (`prev` says whether the character before `s` was a `-`).
pub open spec fn collapse_dashes(s: Seq<char>, prev: bool) -> Seq<char>
    decreases s.len(),
{
    if s.len() == 0 {
        seq![]
    } else if s[0] == '-' {
        if prev {
            collapse_dashes(s.drop_first(), true)
        } else {
            seq!['-'] + collapse_dashes(s.drop_first(), true)
        }
    } else {
        seq![s[0]] + collapse_dashes(s.drop_first(), false)
    }
}

/// `sanitize_session_segment`: unsupported characters become `-`, outer dashes go, runs of
/// dashes collapse; an empty result becomes `worktree`.
pub open spec fn sanitize_session(s: Seq<char>) -> Seq<char> {
    let t = trim_char(map_session_chars(s), '-');
    if t.len() == 0 {
        "worktree"@
    } else {
        collapse_dashes(t, false)
    }
}

/// `sanitize_path_segment`: like [`sanitize_session`] for each non-empty `/`-separated part,
/// the parts joined again with `/`.
pub open spec fn sanitize_path(s: Seq<char>) -> Seq<char> {
    join_seqs(
        nonempty_pieces(split_char(map_path_chars(s), '/')).map_values(|p: Seq<char>| sanitize_session(p)),
        "/"@,
    )
}

fn collapse_dashes_exec(s: &[char]) -> (res: Vec<char>)
    ensures
        res@ == collapse_dashes(s@, false),
{
    let mut out: Vec<char> = Vec::new();
    let mut prev = false;
    let mut i: usize = 0;
    assert(s@.skip(0) == s@);
    while i < s.len()
        invariant
            i <= s@.len(),
            out@ + collapse_dashes(s@.skip(i as int), prev) == collapse_dashes(s@, false),
        decreases s@.len() - i,
    {
        let c = s[i];
        assert(s@.skip(i as int).drop_first() == s@.skip(i + 1));
        if c == '-' {
            if !prev {
                out.push('-');
                assert(out@ == out@.drop_last() + seq!['-']);
            }
            prev = true;
        } else {
            out.push(c);
            prev = false;
        }
        i = i + 1;
    }
    out
}

fn map_chars_exec(s: &[char], keep_slash: bool) -> (res: Vec<char>)
    ensures
        keep_slash ==> res@ == map_path_chars(s@),
        !keep_slash ==> res@ == map_session_chars(s@),
{
    let mut out: Vec<char> = Vec::new();
    let mut i: usize = 0;
    while i < s.len()
        invariant
            i <= s@.len(),
            out@.len() == i,
            keep_slash ==> out@ == map_path_chars(s@.take(i as int)),
            !keep_slash ==> out@ == map_session_chars(s@.take(i as int)),
        decreases s@.len() - i,
    {
        let c = s[i];
        let ok = char_is_alnum(c) || c == '.' || c == '_' || c == '-';
        let keep = if keep_slash {
            c == '/' || ok
        } else {
            ok || c == '|'
        };
        if keep {
            out.push(c);
        } else {
            out.push('-');
        }
        assert(s@.take(i + 1) == s@.take(i as int).push(c));
        i = i + 1;
    }
    assert(s@.take(s@.len() as int) == s@);
    out
}

pub(crate) fn sanitize_session_chars(s: &[char]) -> (res: Vec<char>)
    ensures
        res@ == sanitize_session(s@),
{
    let mapped = map_chars_exec(s, false);
    let trimmed = trim_char_exec(&mapped, '-');
    if trimmed.len() == 0 {
        let w = chars_of("worktree");
        w
    } else {
        collapse_dashes_exec(&trimmed)
    }
}

/// Makes `input` safe as one segment of a Zellij session name.
pub fn sanitize_session_segment(input: &str) -> (res: String)
    ensures
        res@ == sanitize_session(input@),
{
    let v = chars_of(input);
    string_of(&sanitize_session_chars(&v))
}

pub(crate) fn sanitize_path_chars(s: &[char]) -> (res: Vec<char>)
    ensures
        res@ == sanitize_path(s@),
{
    let mapped = map_chars_exec(s, true);
    let pieces = split_char_exec(&mapped, '/');
    let ghost ps = split_char(mapped@, '/');
    let mut kept: Vec<Vec<char>> = Vec::new();
    let mut i: usize = 0;
    while i < pieces.len()
        invariant
            i <= pieces@.len(),
            pieces@.len() == ps.len(),
            forall|k: int| 0 <= k < pieces@.len() ==> #[trigger] pieces@[k]@ == ps[k],
            kept@.map_values(|p: Vec<char>| p@) == nonempty_pieces(ps.take(i as int)).map_values(
                |p: Seq<char>| sanitize_session(p),
            ),
        decreases pieces@.len() - i,
    {
        assert(ps.take(i + 1).drop_last() == ps.take(i as int));
        assert(ps.take(i + 1).last() == ps[i as int]);
        if pieces[i].len() > 0 {
            let piece = sanitize_session_chars(&pieces[i]);
            let ghost before = kept@;
            kept.push(piece);
            assert(kept@ == before.push(piece));
            assert(nonempty_pieces(ps.take(i + 1)) == nonempty_pieces(ps.take(i as int)).push(ps[i as int]));
        }
        i = i + 1;
    }
    assert(ps.take(pieces@.len() as int) == ps);
    let slash: [char; 1] = ['/'];
    let res = join_exec(&kept, &slash);
    proof {
        reveal_strlit("/");
        assert(slash@ == "/"@);
    }
    res
}

/// Makes `input` safe as a relative path below the worktree directory; `/` keeps separating
/// directories, empty parts are dropped.
pub fn sanitize_path_segment(input: &str) -> (res: String)
    ensures
        res@ == sanitize_path(input@),
{
    let v = chars_of(input);
    string_of(&sanitize_path_chars(&v))
}

// ---------------------------------------------------------------------------
// Hashes
// ---------------------------------------------------------------------------
/// The djb2 hash (`h = h * 33 + byte`, starting at 5381, wrapping at 64 bits).
pub open spec fn djb2(bytes: Seq<u8>) -> u64
    decreases bytes.len(),
{
    if bytes.len() == 0 {
        5381
    } else {
        ((djb2(bytes.drop_last()) as int * 33 + bytes.last() as int) % 0x1_0000_0000_0000_0000) as u64
    }
}

/// `short_hash`: the low 32 bits of the djb2 hash of the UTF-8 bytes, as 8 hex digits.
pub open spec fn short_hash_spec(s: Seq<char>) -> Seq<char> {
    hex_text((djb2(vstd::utf8::encode_utf8(s)) % 0x1_0000_0000) as nat, 8)
}

/// `legacy_short_hash`: the whole 64-bit djb2 hash, at least 8 hex digits.
pub open spec fn legacy_short_hash_spec(s: Seq<char>) -> Seq<char> {
    hex_text(djb2(vstd::utf8::encode_utf8(s)) as nat, 8)
}

fn djb2_exec(input: &str) -> (h: u64)
    ensures
        h == djb2(vstd::utf8::encode_utf8(input@)),
{
    let bytes = input.as_bytes();
    let mut hash: u64 = 5381;
    let mut i: usize = 0;
    while i < bytes.len()
        invariant
            i <= bytes@.len(),
            bytes@ == vstd::utf8::encode_utf8(input@),
            hash == djb2(bytes@.take(i as int)),
        decreases bytes@.len() - i,
    {
        assert(bytes@.take(i + 1).drop_last() == bytes@.take(i as int));
        let wide: u128 = (hash as u128) * 33 + (bytes[i] as u128);
        hash = (wide % 0x1_0000_0000_0000_0000u128) as u64;
        i = i + 1;
    }
    assert(bytes@.take(bytes@.len() as int) == bytes@);
    hash
}

fn short_hash_chars(input: &str) -> (res: Vec<char>)
    ensures
        res@ == short_hash_spec(input@),
{
    let h = djb2_exec(input);
    hex_chars(h % 0x1_0000_0000, 8)
}

pub(crate) fn legacy_short_hash_chars(input: &str) -> (res: Vec<char>)
    ensures
        res@ == legacy_short_hash_spec(input@),
{
    hex_chars(djb2_exec(input), 8)
}

// ---------------------------------------------------------------------------
// Worktree paths
// ---------------------------------------------------------------------------
/// `Path::join` on `/`-separated text: an absolute `p` replaces `base`, otherwise `p` is
/// appended after a separator (none after an empty base or one that ends in `/`).
pub open spec fn path_join(base: Seq<char>, p: Seq<char>) -> Seq<char> {
    if p.len() > 0 && p[0] == '/' {
        p
    } else if base.len() == 0 || base.last() == '/' {
        base + p
    } else {
        base + seq!['/'] + p
    }
}

pub fn path_join_exec(base: &[char], p: &[char]) -> (res: Vec<char>)
    ensures
        res@ == path_join(base@, p@),
{
    if p.len() > 0 && p[0] == '/' {
        copy_chars(p)
    } else if base.len() == 0 || base[base.len() - 1] == '/' {
        concat(base, p)
    } else {
        let mut r = copy_chars(base);
        r.push('/');
        extend_chars(&mut r, p);
        r
    }
}

/// `s` with every `/` turned into `-`: a sanitized branch path as one directory name.
pub open spec fn dashed(s: Seq<char>) -> Seq<char> {
    s.map_values(|c: char| if c == '/' { '-' } else { c })
}

pub(crate) fn dashed_chars(s: &[char]) -> (res: Vec<char>)
    ensures
        res@ == dashed(s@),
{
    let mut res: Vec<char> = Vec::new();
    let mut i: usize = 0;
    while i < s.len()
        invariant
            i <= s@.len(),
            res@ == dashed(s@.take(i as int)),
        decreases s@.len() - i,
    {
        let c = if s[i] == '/' { '-' } else { s[i] };
        res.push(c);
        assert(s@.take(i + 1) == s@.take(i as int).push(s@[i as int]));
        i = i + 1;
    }
    assert(s@.take(s@.len() as int) == s@);
    res
}

/// The directory name of a branch's worktree under the given naming pattern; with the
/// branch and its hash, the sanitized branch's `/` become `-` so that the name is a single
/// directory (`feature/xyz` gives `feature-xyz-<hash>`).
pub open spec fn worktree_name(pattern: WorktreeNamingPattern, branch: Seq<char>) -> Seq<char> {
    match pattern {
        WorktreeNamingPattern::Branch => sanitize_path(branch),
        WorktreeNamingPattern::Hash => short_hash_spec(branch),
        WorktreeNamingPattern::BranchHash => dashed(sanitize_path(branch)) + seq!['-'] + short_hash_spec(branch),
    }
}

/// `<repo_root>/<worktree_dir_name>/<worktree name>`.
pub fn worktree_path(repo_root: &str, config: &Config, branch: &str) -> (res: String)
    ensures
        res@ == path_join(
            path_join(repo_root@, config.worktree_dir_name@),
            worktree_name(config.worktree_naming_pattern, branch@),
        ),
{
    let b = chars_of(branch);
    let name = match config.worktree_naming_pattern {
        WorktreeNamingPattern::Branch => sanitize_path_chars(&b),
        WorktreeNamingPattern::Hash => short_hash_chars(branch),
        WorktreeNamingPattern::BranchHash => {
            let mut n = dashed_chars(&sanitize_path_chars(&b));
            n.push('-');
            let h = short_hash_chars(branch);
            extend_chars(&mut n, &h);
            n
        },
    };
    let root = chars_of(repo_root);
    let dir = chars_of(config.worktree_dir_name.as_str());
    let base = path_join_exec(&root, &dir);
    string_of(&path_join_exec(&base, &name))
}

// ---------------------------------------------------------------------------
// Legacy hashed names and their shortening
// ---------------------------------------------------------------------------
pub open spec fn min_nat(a: nat, b: nat) -> nat {
    if a <= b {
        a
    } else {
        b
    }
}

pub open spec fn sat_sub(a: nat, b: nat) -> nat {
    if a >= b {
        (a - b) as nat
    } else {
        0
    }
}

/// `truncate_session_segment`: an overlong segment keeps its head and gets a dash and the
/// first hex digits of its own hash, `max_len` characters in all.
pub open spec fn truncate_segment_spec(input: Seq<char>, max_len: nat) -> Seq<char> {
    if input.len() <= max_len {
        input
    } else if max_len == 0 {
        seq![]
    } else {
        let min_hash_len = min_nat(6, sat_sub(max_len, 2));
        if min_hash_len == 0 {
            input.take(max_len as int)
        } else {
            let visible = sat_sub(max_len, min_hash_len + 1);
            input.take(visible as int) + seq!['-'] + short_hash_spec(input).take(min_hash_len as int)
        }
    }
}

/// `prefix-repo-branch-hash`, or `repo-branch-hash` without a prefix.
pub open spec fn join_parts(prefix: Option<Seq<char>>, repo: Seq<char>, branch: Seq<char>, hash: Seq<char>) -> Seq<char> {
    match prefix {
        Some(p) => p + seq!['-'] + repo + seq!['-'] + branch + seq!['-'] + hash,
        None => repo + seq!['-'] + branch + seq!['-'] + hash,
    }
}

/// The length budgets (prefix, repo, branch) of `bounded_session_name`: the space left
/// after the hash and the dashes is shared evenly, and what the prefix or the repo part does
/// not use goes to the branch.
pub open spec fn budgets_spec(prefix_len: Option<nat>, repo_len: nat, hash_len: nat, max_len: nat) -> (nat, nat, nat) {
    let seps: nat = if prefix_len is Some { 3 } else { 2 };
    let available = sat_sub(sat_sub(max_len, hash_len), seps);
    let total_weight: nat = if prefix_len is Some { 3 } else { 2 };
    let prefix_budget0: nat = if prefix_len is Some { available / total_weight } else { 0 };
    let repo_budget0: nat = available / total_weight;
    let branch_budget0 = sat_sub(available, prefix_budget0 + repo_budget0);
    let (prefix_budget, branch_budget1) = match prefix_len {
        Some(pl) => if pl < prefix_budget0 {
            (pl, branch_budget0 + (prefix_budget0 - pl) as nat)
        } else {
            (prefix_budget0, branch_budget0)
        },
        None => (prefix_budget0, branch_budget0),
    };
    if repo_len < repo_budget0 {
        (prefix_budget, repo_len, branch_budget1 + (repo_budget0 - repo_len) as nat)
    } else {
        (prefix_budget, repo_budget0, branch_budget1)
    }
}

/// `bounded_session_name`: the parts shortened to their budgets and joined.
pub open spec fn bounded_name_spec(prefix: Option<Seq<char>>, repo: Seq<char>, branch: Seq<char>, hash: Seq<char>, max_len: nat) -> Seq<char> {
    let b = budgets_spec(
        match prefix {
            Some(p) => Some(p.len()),
            None => None,
        },
        repo.len(),
        hash.len(),
        max_len,
    );
    join_parts(
        match prefix {
            Some(p) => Some(truncate_segment_spec(p, b.0)),
            None => None,
        },
        truncate_segment_spec(repo, b.1),
        truncate_segment_spec(branch, b.2),
        hash,
    )
}

/// `bounded_or_unbounded_session_name`.
pub open spec fn maybe_bounded_spec(prefix: Option<Seq<char>>, repo: Seq<char>, branch: Seq<char>, hash: Seq<char>, max_len: Option<nat>) -> Seq<char> {
    let candidate = join_parts(prefix, repo, branch, hash);
    match max_len {
        None => candidate,
        Some(m) => if candidate.len() <= m {
            candidate
        } else {
            bounded_name_spec(prefix, repo, branch, hash, m)
        },
    }
}

pub(crate) fn truncate_session_segment(input: &[char], max_len: usize) -> (res: Vec<char>)
    ensures
        res@ == truncate_segment_spec(input@, max_len as nat),
{
    if input.len() <= max_len {
        return copy_chars(input);
    }
    if max_len == 0 {
        return Vec::new();
    }
    let m2 = if max_len >= 2 { max_len - 2 } else { 0 };
    let min_hash_len = if 6 <= m2 { 6 } else { m2 };
    if min_hash_len == 0 {
        return slice_chars(input, 0, max_len);
    }
    let visible_len = max_len - (min_hash_len + 1);
    let mut shortened = slice_chars(input, 0, visible_len);
    shortened.push('-');
    let s = string_of(input);
    let h = short_hash_chars(s.as_str());
    proof {
        lemma_hex_len(djb2(vstd::utf8::encode_utf8(input@)) as nat % 0x1_0000_0000, 8);
    }
    let hh = slice_chars(&h, 0, min_hash_len);
    extend_chars(&mut shortened, &hh);
    shortened
}

/// Hex text is at least as long as its padding width.
pub proof fn lemma_hex_len(n: nat, w: nat)
    ensures
        hex_text(n, w).len() >= w,
{
}

fn join_parts_exec(prefix: &Option<Vec<char>>, repo: &[char], branch: &[char], hash: &[char]) -> (res: Vec<char>)
    ensures
        res@ == join_parts(
            match prefix {
                Some(p) => Some(p@),
                None => None,
            },
            repo@,
            branch@,
            hash@,
        ),
{
    let mut r: Vec<char> = Vec::new();
    match prefix {
        Some(p) => {
            extend_chars(&mut r, p);
            r.push('-');
        },
        None => {},
    }
    extend_chars(&mut r, repo);
    r.push('-');
    extend_chars(&mut r, branch);
    r.push('-');
    extend_chars(&mut r, hash);
    r
}

pub open spec fn opt_vec_view(o: Option<Vec<char>>) -> Option<Seq<char>> {
    match o {
        Some(p) => Some(p@),
        None => None,
    }
}

fn budgets(prefix_len: Option<usize>, repo_len: usize, hash_len: usize, max_len: usize) -> (res: (usize, usize, usize))
    ensures
        res.0 as nat == budgets_spec(
            match prefix_len {
                Some(p) => Some(p as nat),
                None => None,
            },
            repo_len as nat,
            hash_len as nat,
            max_len as nat,
        ).0,
        res.1 as nat == budgets_spec(
            match prefix_len {
                Some(p) => Some(p as nat),
                None => None,
            },
            repo_len as nat,
            hash_len as nat,
            max_len as nat,
        ).1,
        res.2 as nat == budgets_spec(
            match prefix_len {
                Some(p) => Some(p as nat),
                None => None,
            },
            repo_len as nat,
            hash_len as nat,
            max_len as nat,
        ).2,
{
    let seps: usize = if prefix_len.is_some() { 3 } else { 2 };
    let after_hash = if max_len >= hash_len { max_len - hash_len } else { 0 };
    let available = if after_hash >= seps { after_hash - seps } else { 0 };
    let total_weight: usize = if prefix_len.is_some() { 3 } else { 2 };
    let share: usize = available / total_weight;
    assert(share * total_weight <= available) by (nonlinear_arith)
        requires
            total_weight >= 2,
            share == available / total_weight,
    ;
    let mut prefix_budget: usize = if prefix_len.is_some() { share } else { 0 };
    let mut repo_budget: usize = share;
    let mut branch_budget: usize = available - (prefix_budget + repo_budget);
    match prefix_len {
        Some(pl) => {
            if pl < prefix_budget {
                let spare = prefix_budget - pl;
                prefix_budget = pl;
                branch_budget = branch_budget + spare;
            }
        },
        None => {},
    }
    if repo_len < repo_budget {
        let spare = repo_budget - repo_len;
        repo_budget = repo_len;
        branch_budget = branch_budget + spare;
    }
    (prefix_budget, repo_budget, branch_budget)
}

fn bounded_session_name(prefix: &Option<Vec<char>>, repo: &[char], branch: &[char], hash: &[char], max_len: usize) -> (res: Vec<char>)
    ensures
        res@ == bounded_name_spec(opt_vec_view(*prefix), repo@, branch@, hash@, max_len as nat),
{
    let prefix_len: Option<usize> = match prefix {
        Some(p) => Some(p.len()),
        None => None,
    };
    let (prefix_budget, repo_budget, branch_budget) = budgets(prefix_len, repo.len(), hash.len(), max_len);
    let new_prefix = match prefix {
        Some(p) => Some(truncate_session_segment(p, prefix_budget)),
        None => None,
    };
    let r = truncate_session_segment(repo, repo_budget);
    let b = truncate_session_segment(branch, branch_budget);
    join_parts_exec(&new_prefix, &r, &b, hash)
}

fn maybe_bounded(prefix: &Option<Vec<char>>, repo: &[char], branch: &[char], hash: &[char], max_len: Option<usize>) -> (res: Vec<char>)
    ensures
        res@ == maybe_bounded_spec(
            opt_vec_view(*prefix),
            repo@,
            branch@,
            hash@,
            match max_len {
                Some(m) => Some(m as nat),
                None => None,
            },
        ),
{
    let candidate = join_parts_exec(prefix, repo, branch, hash);
    match max_len {
        None => candidate,
        Some(m) => if candidate.len() <= m {
            candidate
        } else {
            bounded_session_name(prefix, repo, branch, hash, m)
        },
    }
}

// ---------------------------------------------------------------------------
// Branch-only names and collision suffixes
// ---------------------------------------------------------------------------
/// `truncate_to_length`: the first `n` characters.
pub open spec fn truncate_chars(s: Seq<char>, n: nat) -> Seq<char> {
    if s.len() <= n {
        s
    } else {
        s.take(n as int)
    }
}

/// The collision suffix `.counter`.
pub open spec fn counter_suffix(counter: nat) -> Seq<char> {
    seq!['.'] + decimal_text(counter)
}

/// The suffixed candidate for one counter.
pub open spec fn suffixed_candidate(sanitized: Seq<char>, counter: nat) -> Seq<char> {
    let suffix = counter_suffix(counter);
    truncate_chars(sanitized, sat_sub(MAX_SESSION_NAME_LEN as nat, suffix.len())) + suffix
}

/// The name used when every suffix from `.2` to `.1000` is taken.
pub open spec fn overflow_name(sanitized: Seq<char>) -> Seq<char> {
    truncate_chars(sanitized, sat_sub(MAX_SESSION_NAME_LEN as nat, 9)) + ".overflow"@
}

/// The first free suffixed candidate from `counter` up to 1000, else the overflow name.
pub open spec fn first_free_suffixed(sanitized: Seq<char>, used: Set<Seq<char>>, counter: nat) -> Seq<char>
    decreases 1001 - counter,
{
    if counter > 1000 {
        overflow_name(sanitized)
    } else if !used.contains(suffixed_candidate(sanitized, counter)) {
        suffixed_candidate(sanitized, counter)
    } else {
        first_free_suffixed(sanitized, used, counter + 1)
    }
}

/// `allocate_session_name`: the sanitized name cut to the maximum length if it is free,
/// otherwise the first free `.2` ... `.1000` variant, otherwise the `.overflow` variant.
pub open spec fn allocate_spec(name: Seq<char>, used: Set<Seq<char>>) -> Seq<char> {
    let sanitized = sanitize_session(name);
    let candidate = truncate_chars(sanitized, MAX_SESSION_NAME_LEN as nat);
    if !used.contains(candidate) {
        candidate
    } else {
        first_free_suffixed(sanitized, used, 2)
    }
}

/// `repo|branch` (sanitized parts), or the branch alone without a repository name.
pub open spec fn linked_name(repo: Option<Seq<char>>, branch: Seq<char>) -> Seq<char> {
    match repo {
        Some(r) => sanitize_session(r) + seq!['|'] + sanitize_session(branch),
        None => sanitize_session(branch),
    }
}

/// `repo-branch` (sanitized parts), the name scheme of earlier versions.
pub open spec fn legacy_linked_name(repo: Option<Seq<char>>, branch: Seq<char>) -> Seq<char> {
    match repo {
        Some(r) => sanitize_session(r) + seq!['-'] + sanitize_session(branch),
        None => sanitize_session(branch),
    }
}

/// Names given to `order` (no repeats) one after another, each avoiding the names in `used`
/// and those given before it.
pub open spec fn assign_names(repo: Option<Seq<char>>, order: Seq<Seq<char>>, used: Set<Seq<char>>) -> Map<Seq<char>, Seq<char>>
    decreases order.len(),
{
    if order.len() == 0 {
        Map::empty()
    } else {
        let name = allocate_spec(linked_name(repo, order[0]), used);
        assign_names(repo, order.drop_first(), used.insert(name)).insert(order[0], name)
    }
}

/// The names of all sibling branches: distinct branches in decreasing byte order.
pub open spec fn assigned_names(repo: Option<Seq<char>>, siblings: Seq<Seq<char>>) -> Map<Seq<char>, Seq<char>> {
    assign_names(repo, sort_desc_dedup(siblings), Set::empty())
}

/// The generated session name of a worktree: the repository name for the main worktree, and
/// for a linked worktree the name that the collision assignment over its siblings gives it.
pub open spec fn session_name_spec(repo: Option<Seq<char>>, branch: Seq<char>, siblings: Seq<Seq<char>>, is_main: bool) -> Seq<char> {
    if is_main {
        match repo {
            Some(r) => r,
            None => "repo"@,
        }
    } else {
        let m = assigned_names(repo, siblings);
        if m.contains_key(branch) {
            m[branch]
        } else {
            allocate_spec(linked_name(repo, branch), Set::empty())
        }
    }
}

/// Set view of a list of names.
pub open spec fn names_set(v: Seq<Vec<char>>) -> Set<Seq<char>> {
    v.map_values(|x: Vec<char>| x@).to_set()
}

fn contains_name(names: &Vec<Vec<char>>, name: &[char]) -> (res: bool)
    ensures
        res == names_set(names@).contains(name@),
{
    let ghost views = names@.map_values(|x: Vec<char>| x@);
    let mut i: usize = 0;
    while i < names.len()
        invariant
            i <= names@.len(),
            views == names@.map_values(|x: Vec<char>| x@),
            forall|k: int| 0 <= k < i ==> views[k] != name@,
        decreases names@.len() - i,
    {
        if chars_eq(&names[i], name) {
            assert(views[i as int] == name@);
            return true;
        }
        i = i + 1;
    }
    false
}

fn truncate_chars_exec(s: &[char], n: usize) -> (res: Vec<char>)
    ensures
        res@ == truncate_chars(s@, n as nat),
{
    if s.len() <= n {
        copy_chars(s)
    } else {
        slice_chars(s, 0, n)
    }
}

fn allocate_session_name(name: &[char], used: &Vec<Vec<char>>) -> (res: Vec<char>)
    ensures
        res@ == allocate_spec(name@, names_set(used@)),
{
    let sanitized = sanitize_session_chars(name);
    let candidate = truncate_chars_exec(&sanitized, MAX_SESSION_NAME_LEN);
    if !contains_name(used, &candidate) {
        return candidate;
    }
    let mut counter: u64 = 2;
    while counter <= 1000
        invariant
            2 <= counter <= 1001,
            sanitized@ == sanitize_session(name@),
            names_set(used@).contains(truncate_chars(sanitized@, MAX_SESSION_NAME_LEN as nat)),
            first_free_suffixed(sanitized@, names_set(used@), 2) == first_free_suffixed(
                sanitized@,
                names_set(used@),
                counter as nat,
            ),
        decreases 1001 - counter,
    {
        let mut suffix: Vec<char> = Vec::new();
        suffix.push('.');
        let digits = decimal_chars(counter);
        extend_chars(&mut suffix, &digits);
        let keep = if MAX_SESSION_NAME_LEN >= suffix.len() { MAX_SESSION_NAME_LEN - suffix.len() } else { 0 };
        let mut cand = truncate_chars_exec(&sanitized, keep);
        extend_chars(&mut cand, &suffix);
        assert(suffix@ == counter_suffix(counter as nat));
        assert(cand@ == suffixed_candidate(sanitized@, counter as nat));
        if !contains_name(used, &cand) {
            assert(first_free_suffixed(sanitized@, names_set(used@), counter as nat) == cand@);
            return cand;
        }
        counter = counter + 1;
    }
    let mut fallback = truncate_chars_exec(&sanitized, MAX_SESSION_NAME_LEN - 9);
    let ov = chars_of(".overflow");
    extend_chars(&mut fallback, &ov);
    fallback
}

/// The distinct branches in decreasing byte order.
fn sorted_branches(branches: &[String]) -> (res: Vec<Vec<char>>)
    ensures
        res@.map_values(|x: Vec<char>| x@) == sort_desc_dedup(branches@.map_values(|b: String| b@)),
{
    let ghost list = branches@.map_values(|b: String| b@);
    let mut sorted: Vec<Vec<char>> = Vec::new();
    let mut i: usize = 0;
    while i < branches.len()
        invariant
            i <= branches@.len(),
            list == branches@.map_values(|b: String| b@),
            sorted@.map_values(|x: Vec<char>| x@) == sort_desc_dedup(list.take(i as int)),
        decreases branches@.len() - i,
    {
        assert(list.take(i + 1).drop_last() == list.take(i as int));
        let x = chars_of(branches[i].as_str());
        sorted = insert_sorted(sorted, x);
        i = i + 1;
    }
    assert(list.take(branches@.len() as int) == list);
    sorted
}

fn insert_sorted(sorted: Vec<Vec<char>>, x: Vec<char>) -> (res: Vec<Vec<char>>)
    ensures
        res@.map_values(|v: Vec<char>| v@) == insert_desc(sorted@.map_values(|v: Vec<char>| v@), x@),
{
    let ghost s = sorted@.map_values(|v: Vec<char>| v@);
    let mut i: usize = 0;
    assert(s.skip(0) == s);
    assert(s.take(0) + insert_desc(s, x@) == insert_desc(s, x@));
    // Skip the leading entries that are greater than `x`.
    while i < sorted.len() && !chars_eq(&sorted[i], &x) && !lex_less(&sorted[i], &x)
        invariant
            i <= sorted@.len(),
            s == sorted@.map_values(|v: Vec<char>| v@),
            insert_desc(s, x@) == s.take(i as int) + insert_desc(s.skip(i as int), x@),
        decreases sorted@.len() - i,
    {
        let ghost t = s.skip(i as int);
        assert(t.drop_first() == s.skip(i + 1));
        assert(s.take(i + 1) == s.take(i as int) + seq![t[0]]);
        i = i + 1;
    }
    let ghost t = s.skip(i as int);
    let mut res: Vec<Vec<char>> = Vec::new();
    let mut k: usize = 0;
    while k < i
        invariant
            k <= i <= sorted@.len(),
            s == sorted@.map_values(|v: Vec<char>| v@),
            res@.map_values(|v: Vec<char>| v@) == s.take(k as int),
        decreases i - k,
    {
        let ghost before = res@;
        let c = copy_chars(&sorted[k]);
        res.push(c);
        assert(res@ == before.push(c));
        assert(s.take(k + 1) == s.take(k as int).push(s[k as int]));
        k = k + 1;
    }
    let equal = i < sorted.len() && chars_eq(&sorted[i], &x);
    if !equal {
        let ghost before = res@;
        let c = copy_chars(&x);
        res.push(c);
        assert(res@ == before.push(c));
    }
    assert(s.subrange(i as int, i as int) == Seq::<Seq<char>>::empty());
    let mut k2: usize = i;
    while k2 < sorted.len()
        invariant
            i <= k2 <= sorted@.len(),
            s == sorted@.map_values(|v: Vec<char>| v@),
            equal ==> res@.map_values(|v: Vec<char>| v@) == s.take(k2 as int),
            !equal ==> res@.map_values(|v: Vec<char>| v@) == s.take(i as int) + seq![x@] + s.subrange(i as int, k2 as int),
        decreases sorted@.len() - k2,
    {
        let ghost before = res@;
        let c = copy_chars(&sorted[k2]);
        res.push(c);
        assert(res@ == before.push(c));
        assert(s.take(k2 + 1) == s.take(k2 as int).push(s[k2 as int]));
        assert(s.subrange(i as int, k2 + 1) == s.subrange(i as int, k2 as int).push(s[k2 as int]));
        k2 = k2 + 1;
    }
    proof {
        assert(s.take(sorted@.len() as int) == s);
        assert(s.subrange(i as int, sorted@.len() as int) == t);
        if equal {
            assert(s == s.take(i as int) + t);
        }
    }
    res
}

/// Looks `branch` up in the assigned names.
fn lookup_assigned(order: &Vec<Vec<char>>, names: &Vec<Vec<char>>, branch: &[char]) -> (res: Option<Vec<char>>)
    requires
        order@.len() == names@.len(),
    ensures
        match res {
            Some(n) => exists|k: int| 0 <= k < order@.len() && order@[k]@ == branch@ && names@[k]@ == n@
                && forall|j: int| 0 <= j < k ==> order@[j]@ != branch@,
            None => forall|k: int| 0 <= k < order@.len() ==> order@[k]@ != branch@,
        },
{
    let mut i: usize = 0;
    while i < order.len()
        invariant
            i <= order@.len() == names@.len(),
            forall|k: int| 0 <= k < i ==> order@[k]@ != branch@,
        decreases order@.len() - i,
    {
        if chars_eq(&order[i], branch) {
            return Some(copy_chars(&names[i]));
        }
        i = i + 1;
    }
    None
}

proof fn lemma_assign_names_lookup(repo: Option<Seq<char>>, order: Seq<Seq<char>>, used: Set<Seq<char>>, k: int)
    requires
        0 <= k < order.len(),
        forall|j: int| 0 <= j < k ==> order[j] != order[k],
    ensures
        assign_names(repo, order, used).contains_key(order[k]),
        assign_names(repo, order, used)[order[k]] == assign_names(
            repo,
            order.skip(k),
            assigned_used(repo, order, used, k),
        )[order[k]],
    decreases k,
{
    if k == 0 {
        assert(order.skip(0) == order);
    } else {
        let name = allocate_spec(linked_name(repo, order[0]), used);
        assert(order.drop_first().skip(k - 1) == order.skip(k));
        lemma_assign_names_lookup(repo, order.drop_first(), used.insert(name), k - 1);
    }
}

/// The used set after naming the first `k` entries of `order`.
pub open spec fn assigned_used(repo: Option<Seq<char>>, order: Seq<Seq<char>>, used: Set<Seq<char>>, k: int) -> Set<Seq<char>>
    decreases k,
{
    if k <= 0 || order.len() == 0 {
        used
    } else {
        assigned_used(
            repo,
            order.drop_first(),
            used.insert(allocate_spec(linked_name(repo, order[0]), used)),
            k - 1,
        )
    }
}

proof fn lemma_assigned_used_step(repo: Option<Seq<char>>, order: Seq<Seq<char>>, used: Set<Seq<char>>, k: int)
    requires
        0 <= k < order.len(),
    ensures
        assigned_used(repo, order, used, k + 1) == assigned_used(repo, order, used, k).insert(
            allocate_spec(linked_name(repo, order[k]), assigned_used(repo, order, used, k)),
        ),
    decreases k,
{
    reveal_with_fuel(assigned_used, 2);
    if k > 0 {
        lemma_assigned_used_step(
            repo,
            order.drop_first(),
            used.insert(allocate_spec(linked_name(repo, order[0]), used)),
            k - 1,
        );
    }
}

/// The names for `order` in order, each allocated against the previous ones.
fn assign_exec(repo_name: &Option<Vec<char>>, order: &Vec<Vec<char>>) -> (names: Vec<Vec<char>>)
    ensures
        names@.len() == order@.len(),
        forall|k: int|
            0 <= k < order@.len() ==> #[trigger] names@[k]@ == allocate_spec(
                linked_name(opt_vec_view(*repo_name), order@[k]@),
                assigned_used(opt_vec_view(*repo_name), order@.map_values(|x: Vec<char>| x@), Set::empty(), k),
            ),
        names_set(names@) == assigned_used(opt_vec_view(*repo_name), order@.map_values(|x: Vec<char>| x@), Set::empty(), order@.len() as int),
{
    let ghost repo = opt_vec_view(*repo_name);
    let ghost ord = order@.map_values(|x: Vec<char>| x@);
    let mut names: Vec<Vec<char>> = Vec::new();
    let mut i: usize = 0;
    while i < order.len()
        invariant
            i <= order@.len(),
            repo == opt_vec_view(*repo_name),
            ord == order@.map_values(|x: Vec<char>| x@),
            names@.len() == i,
            forall|k: int|
                0 <= k < i ==> #[trigger] names@[k]@ == allocate_spec(
                    linked_name(repo, ord[k]),
                    assigned_used(repo, ord, Set::empty(), k),
                ),
            names_set(names@) == assigned_used(repo, ord, Set::empty(), i as int),
        decreases order@.len() - i,
    {
        let linked = linked_name_exec(repo_name, &order[i]);
        let name = allocate_session_name(&linked, &names);
        proof {
            lemma_assigned_used_step(repo, ord, Set::empty(), i as int);
        }
        let ghost before = names@;
        names.push(name);
        proof {
            assert(names@ == before.push(name));
            assert(names@.map_values(|x: Vec<char>| x@) == before.map_values(|x: Vec<char>| x@).push(name@));
        }
        i = i + 1;
    }
    names
}

fn linked_name_exec(repo_name: &Option<Vec<char>>, branch: &[char]) -> (res: Vec<char>)
    ensures
        res@ == linked_name(opt_vec_view(*repo_name), branch@),
{
    let b = sanitize_session_chars(branch);
    match repo_name {
        Some(r) => {
            let mut n = sanitize_session_chars(r);
            n.push('|');
            extend_chars(&mut n, &b);
            n
        },
        None => b,
    }
}

fn legacy_linked_name_exec(repo_name: &Option<Vec<char>>, branch: &[char]) -> (res: Vec<char>)
    ensures
        res@ == legacy_linked_name(opt_vec_view(*repo_name), branch@),
{
    let b = sanitize_session_chars(branch);
    match repo_name {
        Some(r) => {
            let mut n = sanitize_session_chars(r);
            n.push('-');
            extend_chars(&mut n, &b);
            n
        },
        None => b,
    }
}

/// The session name of a worktree (see [`session_name_spec`]).
pub fn session_name(
    repo_name: Option<&str>,
    branch: &str,
    sibling_branches: &[String],
    is_main_worktree: bool,
) -> (res: String)
    ensures
        res@ == session_name_spec(
            match repo_name {
                Some(r) => Some(r@),
                None => None,
            },
            branch@,
            sibling_branches@.map_values(|b: String| b@),
            is_main_worktree,
        ),
{
    if is_main_worktree {
        return match repo_name {
            Some(r) => String::from_str(r),
            None => String::from_str("repo"),
        };
    }
    let repo: Option<Vec<char>> = match repo_name {
        Some(r) => Some(chars_of(r)),
        None => None,
    };
    let b = chars_of(branch);
    let order = sorted_branches(sibling_branches);
    let names = assign_exec(&repo, &order);
    let ghost r = opt_vec_view(repo);
    let ghost ord = order@.map_values(|x: Vec<char>| x@);
    proof {
        lemma_sort_desc_dedup(sibling_branches@.map_values(|s: String| s@));
    }
    match lookup_assigned(&order, &names, &b) {
        Some(n) => {
            proof {
                let k = choose|k: int| 0 <= k < order@.len() && order@[k]@ == b@ && names@[k]@ == n@
                    && forall|j: int| 0 <= j < k ==> order@[j]@ != b@;
                assert(ord[k] == b@);
                assert forall|j: int| 0 <= j < k implies ord[j] != ord[k] by {
                    assert(order@[j]@ != b@);
                }
                lemma_assign_names_lookup(r, ord, Set::empty(), k);
                lemma_assign_names_head(r, ord, k);
            }
            string_of(&n)
        },
        None => {
            proof {
                assert forall|k: int| 0 <= k < ord.len() implies ord[k] != b@ by {
                    assert(order@[k]@ != b@);
                }
                lemma_assign_names_dom(r, ord, Set::empty(), b@);
            }
            let linked = linked_name_exec(&repo, &b);
            let empty: Vec<Vec<char>> = Vec::new();
            proof {
                assert(names_set(empty@) =~= Set::<Seq<char>>::empty());
            }
            string_of(&allocate_session_name(&linked, &empty))
        },
    }
}

proof fn lemma_assign_names_dom(repo: Option<Seq<char>>, order: Seq<Seq<char>>, used: Set<Seq<char>>, b: Seq<char>)
    requires
        forall|k: int| 0 <= k < order.len() ==> order[k] != b,
    ensures
        !assign_names(repo, order, used).contains_key(b),
    decreases order.len(),
{
    if order.len() > 0 {
        let name = allocate_spec(linked_name(repo, order[0]), used);
        assert forall|k: int| 0 <= k < order.drop_first().len() implies order.drop_first()[k] != b by {
            assert(order.drop_first()[k] == order[k + 1]);
        }
        lemma_assign_names_dom(repo, order.drop_first(), used.insert(name), b);
    }
}

/// The name given to `order[k]` is its allocation against the names given before it.
proof fn lemma_assign_names_head(repo: Option<Seq<char>>, order: Seq<Seq<char>>, k: int)
    requires
        0 <= k < order.len(),
    ensures
        assign_names(repo, order.skip(k), assigned_used(repo, order, Set::empty(), k))[order[k]]
            == allocate_spec(linked_name(repo, order[k]), assigned_used(repo, order, Set::empty(), k)),
{
    let t = order.skip(k);
    assert(t[0] == order[k]);
}

/// Whether `n` is a `.overflow` fallback name.
pub open spec fn is_overflow_name(n: Seq<char>) -> bool {
    n.len() >= 9 && n.subrange(n.len() - 9, n.len() as int) == ".overflow"@
}

pub(crate) proof fn lemma_decimal_len_small(n: nat)
    requires
        n <= 1000,
    ensures
        decimal_text(n).len() <= 4,
{
    reveal_with_fuel(radix_text, 5);
    if n >= 10 {
        assert(n / 10 < 101);
        if n / 10 >= 10 {
            assert(n / 10 / 10 < 11);
            if n / 10 / 10 >= 10 {
                assert(n / 10 / 10 / 10 < 2);
            }
        }
    }
}

proof fn lemma_overflow_name(sanitized: Seq<char>)
    ensures
        overflow_name(sanitized).len() <= MAX_SESSION_NAME_LEN,
        is_overflow_name(overflow_name(sanitized)),
{
    reveal_strlit(".overflow");
    let n = overflow_name(sanitized);
    assert(n.subrange(n.len() - 9, n.len() as int) =~= ".overflow"@);
}

proof fn lemma_first_free(sanitized: Seq<char>, used: Set<Seq<char>>, counter: nat)
    requires
        counter >= 2,
    ensures
        first_free_suffixed(sanitized, used, counter).len() <= MAX_SESSION_NAME_LEN,
        !used.contains(first_free_suffixed(sanitized, used, counter)) || is_overflow_name(
            first_free_suffixed(sanitized, used, counter),
        ),
    decreases 1001 - counter,
{
    if counter > 1000 {
        lemma_overflow_name(sanitized);
    } else {
        lemma_decimal_len_small(counter);
        if used.contains(suffixed_candidate(sanitized, counter)) {
            lemma_first_free(sanitized, used, counter + 1);
        }
    }
}

/// An allocated name fits the length limit, and is not among the names in use unless it is
/// the `.overflow` fallback.
proof fn lemma_allocate(name: Seq<char>, used: Set<Seq<char>>)
    ensures
        allocate_spec(name, used).len() <= MAX_SESSION_NAME_LEN,
        !used.contains(allocate_spec(name, used)) || is_overflow_name(allocate_spec(name, used)),
{
    let sanitized = sanitize_session(name);
    if used.contains(truncate_chars(sanitized, MAX_SESSION_NAME_LEN as nat)) {
        lemma_first_free(sanitized, used, 2);
    }
}

proof fn lemma_assign_names_has(repo: Option<Seq<char>>, order: Seq<Seq<char>>, used: Set<Seq<char>>, b: Seq<char>)
    requires
        order.contains(b),
    ensures
        assign_names(repo, order, used).contains_key(b),
    decreases order.len(),
{
    let k = choose|k: int| 0 <= k < order.len() && order[k] == b;
    if k > 0 {
        let name = allocate_spec(linked_name(repo, order[0]), used);
        assert(order.drop_first()[k - 1] == b);
        lemma_assign_names_has(repo, order.drop_first(), used.insert(name), b);
    }
}

/// The assigned names fit the length limit; none is among the names in use at the start
/// and no two are equal, except `.overflow` fallbacks.
proof fn lemma_assign_names_apart(repo: Option<Seq<char>>, order: Seq<Seq<char>>, used: Set<Seq<char>>)
    ensures
        forall|x: Seq<char>| #[trigger] assign_names(repo, order, used).contains_key(x) ==> {
            let n = assign_names(repo, order, used)[x];
            &&& n.len() <= MAX_SESSION_NAME_LEN
            &&& !used.contains(n) || is_overflow_name(n)
        },
        forall|x: Seq<char>, y: Seq<char>|
            #![trigger assign_names(repo, order, used)[x], assign_names(repo, order, used)[y]]
            assign_names(repo, order, used).contains_key(x) && assign_names(repo, order, used).contains_key(y)
                && x != y ==> assign_names(repo, order, used)[x] != assign_names(repo, order, used)[y]
                || is_overflow_name(assign_names(repo, order, used)[x]) || is_overflow_name(
                assign_names(repo, order, used)[y],
            ),
    decreases order.len(),
{
    if order.len() > 0 {
        let name = allocate_spec(linked_name(repo, order[0]), used);
        let used2 = used.insert(name);
        lemma_allocate(linked_name(repo, order[0]), used);
        lemma_assign_names_apart(repo, order.drop_first(), used2);
        let rest = assign_names(repo, order.drop_first(), used2);
        let m = assign_names(repo, order, used);
        assert(m == rest.insert(order[0], name));
        assert forall|x: Seq<char>| #[trigger] m.contains_key(x) implies {
            let n = m[x];
            &&& n.len() <= MAX_SESSION_NAME_LEN
            &&& !used.contains(n) || is_overflow_name(n)
        } by {
            if x != order[0] {
                assert(rest.contains_key(x));
            }
        }
        assert forall|x: Seq<char>, y: Seq<char>|
            #![trigger m[x], m[y]]
            m.contains_key(x) && m.contains_key(y) && x != y implies m[x] != m[y] || is_overflow_name(m[x])
                || is_overflow_name(m[y]) by {
            if x != order[0] {
                assert(rest.contains_key(x));
                assert(rest[x] == m[x]);
            }
            if y != order[0] {
                assert(rest.contains_key(y));
                assert(rest[y] == m[y]);
            }
        }
    }
}

/// Every character is one that session names keep.
pub open spec fn session_safe(s: Seq<char>) -> bool {
    forall|i: int| 0 <= i < s.len() ==> session_char_ok(#[trigger] s[i])
}

proof fn lemma_trim_start_safe(s: Seq<char>, c: char)
    requires
        session_safe(s),
    ensures
        session_safe(trim_start_char(s, c)),
    decreases s.len(),
{
    if s.len() > 0 && s[0] == c {
        assert forall|i: int| 0 <= i < s.drop_first().len() implies session_char_ok(#[trigger] s.drop_first()[i]) by {
            assert(s.drop_first()[i] == s[i + 1]);
        }
        lemma_trim_start_safe(s.drop_first(), c);
    }
}

proof fn lemma_trim_end_safe(s: Seq<char>, c: char)
    requires
        session_safe(s),
    ensures
        session_safe(trim_end_char(s, c)),
    decreases s.len(),
{
    if s.len() > 0 && s.last() == c {
        assert forall|i: int| 0 <= i < s.drop_last().len() implies session_char_ok(#[trigger] s.drop_last()[i]) by {
            assert(s.drop_last()[i] == s[i]);
        }
        lemma_trim_end_safe(s.drop_last(), c);
    }
}

proof fn lemma_collapse_safe(s: Seq<char>, prev: bool)
    requires
        session_safe(s),
    ensures
        session_safe(collapse_dashes(s, prev)),
    decreases s.len(),
{
    if s.len() > 0 {
        assert forall|i: int| 0 <= i < s.drop_first().len() implies session_char_ok(#[trigger] s.drop_first()[i]) by {
            assert(s.drop_first()[i] == s[i + 1]);
        }
        lemma_collapse_safe(s.drop_first(), true);
        lemma_collapse_safe(s.drop_first(), false);
        let r = collapse_dashes(s, prev);
        if s[0] == '-' && prev {
        } else {
            let head = if s[0] == '-' { seq!['-'] } else { seq![s[0]] };
            let tail = if s[0] == '-' { collapse_dashes(s.drop_first(), true) } else { collapse_dashes(s.drop_first(), false) };
            assert(r == head + tail);
            assert forall|i: int| 0 <= i < r.len() implies session_char_ok(#[trigger] r[i]) by {
                if i > 0 {
                    assert(r[i] == tail[i - 1]);
                }
            }
        }
    }
}

proof fn lemma_sanitize_safe(name: Seq<char>)
    ensures
        session_safe(sanitize_session(name)),
{
    reveal_strlit("worktree");
    let m = map_session_chars(name);
    assert(session_safe(m));
    lemma_trim_start_safe(m, '-');
    lemma_trim_end_safe(trim_start_char(m, '-'), '-');
    let t = trim_char(m, '-');
    if t.len() > 0 {
        lemma_collapse_safe(t, false);
    }
}

pub(crate) proof fn lemma_decimal_digits(n: nat)
    ensures
        forall|i: int| 0 <= i < decimal_text(n).len() ==> is_digit(#[trigger] decimal_text(n)[i]),
    decreases n,
{
    if n >= 10 {
        assert(n / 10 < n);
        lemma_decimal_digits(n / 10);
        assert(decimal_text(n) == decimal_text(n / 10).push(digit_char(n % 10)));
    }
}

proof fn lemma_truncate_safe(s: Seq<char>, n: nat)
    requires
        session_safe(s),
    ensures
        session_safe(truncate_chars(s, n)),
{
    if s.len() > n {
        assert forall|i: int| 0 <= i < truncate_chars(s, n).len() implies session_char_ok(#[trigger] truncate_chars(s, n)[i]) by {
            assert(truncate_chars(s, n)[i] == s[i]);
        }
    }
}

proof fn lemma_first_free_safe(sanitized: Seq<char>, used: Set<Seq<char>>, counter: nat)
    requires
        session_safe(sanitized),
    ensures
        session_safe(first_free_suffixed(sanitized, used, counter)),
    decreases 1001 - counter,
{
    if counter > 1000 {
        reveal_strlit(".overflow");
        let t = truncate_chars(sanitized, sat_sub(MAX_SESSION_NAME_LEN as nat, 9));
        lemma_truncate_safe(sanitized, sat_sub(MAX_SESSION_NAME_LEN as nat, 9));
        let r = overflow_name(sanitized);
        assert forall|i: int| 0 <= i < r.len() implies session_char_ok(#[trigger] r[i]) by {
            if i >= t.len() {
                assert(r[i] == ".overflow"@[i - t.len()]);
            }
        }
    } else {
        let suffix = counter_suffix(counter);
        let t = truncate_chars(sanitized, sat_sub(MAX_SESSION_NAME_LEN as nat, suffix.len()));
        lemma_truncate_safe(sanitized, sat_sub(MAX_SESSION_NAME_LEN as nat, suffix.len()));
        lemma_decimal_digits(counter);
        let r = suffixed_candidate(sanitized, counter);
        assert forall|i: int| 0 <= i < r.len() implies session_char_ok(#[trigger] r[i]) by {
            if i > t.len() {
                assert(r[i] == decimal_text(counter)[i - t.len() - 1]);
            }
        }
        if used.contains(r) {
            lemma_first_free_safe(sanitized, used, counter + 1);
        }
    }
}

proof fn lemma_allocate_safe(name: Seq<char>, used: Set<Seq<char>>)
    ensures
        session_safe(allocate_spec(name, used)),
{
    let sanitized = sanitize_session(name);
    lemma_sanitize_safe(name);
    lemma_truncate_safe(sanitized, MAX_SESSION_NAME_LEN as nat);
    lemma_first_free_safe(sanitized, used, 2);
}

proof fn lemma_assign_names_safe(repo: Option<Seq<char>>, order: Seq<Seq<char>>, used: Set<Seq<char>>)
    ensures
        forall|x: Seq<char>| #[trigger] assign_names(repo, order, used).contains_key(x) ==> session_safe(
            assign_names(repo, order, used)[x],
        ),
    decreases order.len(),
{
    if order.len() > 0 {
        let name = allocate_spec(linked_name(repo, order[0]), used);
        lemma_allocate_safe(linked_name(repo, order[0]), used);
        lemma_assign_names_safe(repo, order.drop_first(), used.insert(name));
        let rest = assign_names(repo, order.drop_first(), used.insert(name));
        assert forall|x: Seq<char>| #[trigger] assign_names(repo, order, used).contains_key(x) implies session_safe(
            assign_names(repo, order, used)[x],
        ) by {
            if x != order[0] {
                assert(rest.contains_key(x));
            }
        }
    }
}

proof fn lemma_safe_is_ascii(s: Seq<char>)
    requires
        session_safe(s),
    ensures
        all_ascii(s),
        utf8_len(s) == s.len(),
{
    assert forall|i: int| 0 <= i < s.len() implies (s[i] as u32) < 0x80 by {
        assert(session_char_ok(s[i]));
    }
    lemma_ascii_utf8_len(s);
}

proof fn lemma_decimal_nonempty(n: nat)
    ensures
        decimal_text(n).len() >= 1,
        n < 10 ==> decimal_text(n) == seq![digit_char(n)],
        n >= 10 ==> decimal_text(n) == decimal_text(n / 10).push(digit_char(n % 10)),
    decreases n,
{
    if n >= 10 {
        lemma_decimal_nonempty(n / 10);
    }
}

proof fn lemma_digit_injective(a: nat, b: nat)
    requires
        a < 10,
        b < 10,
        digit_char(a) == digit_char(b),
    ensures
        a == b,
{
}

/// Different numbers are written differently.
pub(crate) proof fn lemma_decimal_injective(n: nat, m: nat)
    requires
        decimal_text(n) == decimal_text(m),
    ensures
        n == m,
    decreases n,
{
    lemma_decimal_nonempty(n);
    lemma_decimal_nonempty(m);
    lemma_decimal_nonempty(n / 10);
    lemma_decimal_nonempty(m / 10);
    if n < 10 && m < 10 {
        assert(decimal_text(n)[0] == digit_char(n));
        assert(decimal_text(m)[0] == digit_char(m));
        lemma_digit_injective(n, m);
    } else if n >= 10 && m >= 10 {
        let a = decimal_text(n);
        assert(a.drop_last() == decimal_text(n / 10));
        assert(decimal_text(m).drop_last() == decimal_text(m / 10));
        assert(a.last() == digit_char(n % 10));
        assert(decimal_text(m).last() == digit_char(m % 10));
        lemma_decimal_injective(n / 10, m / 10);
        lemma_digit_injective(n % 10, m % 10);
        assert(n == 10 * (n / 10) + n % 10) by (nonlinear_arith);
        assert(m == 10 * (m / 10) + m % 10) by (nonlinear_arith);
    } else {
        assert(decimal_text(n).len() != decimal_text(m).len());
    }
}

/// The suffixed candidates `.2` to `.1000` of one name are all different.
proof fn lemma_suffixed_injective(s: Seq<char>, c1: nat, c2: nat)
    requires
        c1 != c2,
        c1 <= 1000,
        c2 <= 1000,
    ensures
        suffixed_candidate(s, c1) != suffixed_candidate(s, c2),
{
    let d1 = decimal_text(c1);
    let d2 = decimal_text(c2);
    lemma_decimal_len_small(c1);
    lemma_decimal_len_small(c2);
    lemma_decimal_digits(c1);
    lemma_decimal_digits(c2);
    let u1 = counter_suffix(c1);
    let u2 = counter_suffix(c2);
    let t1 = truncate_chars(s, sat_sub(MAX_SESSION_NAME_LEN as nat, u1.len()));
    let t2 = truncate_chars(s, sat_sub(MAX_SESSION_NAME_LEN as nat, u2.len()));
    let x1 = suffixed_candidate(s, c1);
    let x2 = suffixed_candidate(s, c2);
    assert(x1 == t1 + u1);
    assert(x2 == t2 + u2);
    if x1 == x2 {
        if u1.len() == u2.len() {
            assert(t1 == t2);
            assert(u1 == x1.skip(t1.len() as int));
            assert(u2 == x2.skip(t2.len() as int));
            assert(d1 == u1.drop_first());
            assert(d2 == u2.drop_first());
            lemma_decimal_injective(c1, c2);
        } else if u1.len() < u2.len() {
            let p = x1.len() - u1.len();
            assert(x1[p] == u1[0]);
            assert(x2[p] == u2[p - t2.len()]);
            assert(x2[p] == d2[p - t2.len() - 1]);
            assert(is_digit(d2[p - t2.len() - 1]));
        } else {
            let p = x2.len() - u2.len();
            assert(x2[p] == u2[0]);
            assert(x1[p] == u1[p - t1.len()]);
            assert(x1[p] == d1[p - t1.len() - 1]);
            assert(is_digit(d1[p - t1.len() - 1]));
        }
    }
}

proof fn lemma_first_free_fresh(sanitized: Seq<char>, used: Set<Seq<char>>, counter: nat, k: nat)
    requires
        2 <= counter <= k <= 1000,
        !used.contains(suffixed_candidate(sanitized, k)),
    ensures
        !used.contains(first_free_suffixed(sanitized, used, counter)),
    decreases 1001 - counter,
{
    if used.contains(suffixed_candidate(sanitized, counter)) {
        lemma_first_free_fresh(sanitized, used, counter + 1, k);
    }
}

/// With fewer than 999 names in use, an allocated name is never one of them.
proof fn lemma_allocate_fresh(name: Seq<char>, used: Set<Seq<char>>)
    requires
        used.finite(),
        used.len() < 999,
    ensures
        !used.contains(allocate_spec(name, used)),
{
    let sanitized = sanitize_session(name);
    if used.contains(truncate_chars(sanitized, MAX_SESSION_NAME_LEN as nat)) {
        let cands = Seq::new(999, |i: int| suffixed_candidate(sanitized, (i + 2) as nat));
        assert forall|i: int, j: int| 0 <= i < cands.len() && 0 <= j < cands.len() && i != j implies cands[i]
            != cands[j] by {
            lemma_suffixed_injective(sanitized, (i + 2) as nat, (j + 2) as nat);
        }
        assert(cands.no_duplicates());
        cands.unique_seq_to_set();
        if forall|i: int| 0 <= i < cands.len() ==> used.contains(#[trigger] cands[i]) {
            assert(cands.to_set().subset_of(used));
            vstd::set_lib::lemma_len_subset(cands.to_set(), used);
            assert(false);
        }
        let i = choose|i: int| 0 <= i < cands.len() && !used.contains(#[trigger] cands[i]);
        lemma_first_free_fresh(sanitized, used, 2, (i + 2) as nat);
    }
}

/// With at most 999 names in use and branches to name together, the assigned names are
/// all different and none is in use.
proof fn lemma_assign_names_fresh(repo: Option<Seq<char>>, order: Seq<Seq<char>>, used: Set<Seq<char>>)
    requires
        used.finite(),
        used.len() + order.len() <= 999,
    ensures
        forall|x: Seq<char>| #[trigger] assign_names(repo, order, used).contains_key(x) ==> !used.contains(
            assign_names(repo, order, used)[x],
        ),
        forall|x: Seq<char>, y: Seq<char>|
            #![trigger assign_names(repo, order, used)[x], assign_names(repo, order, used)[y]]
            assign_names(repo, order, used).contains_key(x) && assign_names(repo, order, used).contains_key(y)
                && x != y ==> assign_names(repo, order, used)[x] != assign_names(repo, order, used)[y],
    decreases order.len(),
{
    if order.len() > 0 {
        let name = allocate_spec(linked_name(repo, order[0]), used);
        let used2 = used.insert(name);
        lemma_allocate_fresh(linked_name(repo, order[0]), used);
        assert(used2.len() == used.len() + 1);
        lemma_assign_names_fresh(repo, order.drop_first(), used2);
        let rest = assign_names(repo, order.drop_first(), used2);
        let m = assign_names(repo, order, used);
        assert(m == rest.insert(order[0], name));
        assert forall|x: Seq<char>| #[trigger] m.contains_key(x) implies !used.contains(m[x]) by {
            if x != order[0] {
                assert(rest.contains_key(x));
            }
        }
        assert forall|x: Seq<char>, y: Seq<char>|
            #![trigger m[x], m[y]]
            m.contains_key(x) && m.contains_key(y) && x != y implies m[x] != m[y] by {
            if x != order[0] {
                assert(rest.contains_key(x));
                assert(rest[x] == m[x]);
            }
            if y != order[0] {
                assert(rest.contains_key(y));
                assert(rest[y] == m[y]);
            }
        }
    }
}

/// Distinct branches are fewer in number than the branch list.
proof fn lemma_sorted_branches_len(list: Seq<Seq<char>>)
    ensures
        sort_desc_dedup(list).len() <= list.len(),
{
    let order = sort_desc_dedup(list);
    lemma_sort_desc_dedup(list);
    assert forall|i: int, j: int| 0 <= i < order.len() && 0 <= j < order.len() && i != j implies order[i]
        != order[j] by {
        if i < j {
            assert(lex_lt(order[j], order[i]));
            lemma_lex_lt_irreflexive(order[i]);
        } else {
            assert(lex_lt(order[i], order[j]));
            lemma_lex_lt_irreflexive(order[j]);
        }
    }
    assert(order.no_duplicates());
    order.unique_seq_to_set();
    list.lemma_cardinality_of_set();
}

/// With fewer than 1000 sibling branches, every sibling gets a session name of its own:
/// two different siblings never share one.
pub proof fn lemma_few_sibling_session_names_differ(
    repo: Option<Seq<char>>,
    siblings: Seq<Seq<char>>,
    a: Seq<char>,
    b: Seq<char>,
)
    requires
        siblings.len() < 1000,
        siblings.contains(a),
        siblings.contains(b),
        a != b,
    ensures
        session_name_spec(repo, a, siblings, false) != session_name_spec(repo, b, siblings, false),
{
    let order = sort_desc_dedup(siblings);
    lemma_sort_desc_dedup(siblings);
    lemma_sorted_branches_len(siblings);
    assert(siblings.to_set().contains(a));
    assert(siblings.to_set().contains(b));
    assert(order.to_set().contains(a));
    assert(order.to_set().contains(b));
    lemma_assign_names_has(repo, order, Set::empty(), a);
    lemma_assign_names_has(repo, order, Set::empty(), b);
    lemma_assign_names_fresh(repo, order, Set::empty());
    let m = assign_names(repo, order, Set::empty());
    assert(m[a] == session_name_spec(repo, a, siblings, false));
    assert(m[b] == session_name_spec(repo, b, siblings, false));
}

/// Two strictly decreasing lists of the same texts are the same list.
proof fn lemma_desc_unique(a: Seq<Seq<char>>, b: Seq<Seq<char>>)
    requires
        strictly_desc(a),
        strictly_desc(b),
        a.to_set() == b.to_set(),
    ensures
        a == b,
    decreases a.len(),
{
    if a.len() == 0 {
        if b.len() > 0 {
            assert(b.to_set().contains(b[0]));
        }
    } else {
        assert(a.to_set().contains(a[0]));
        assert(b.len() > 0);
        assert(b.to_set().contains(b[0]));
        let j = choose|j: int| 0 <= j < a.len() && a[j] == b[0];
        let k = choose|k: int| 0 <= k < b.len() && b[k] == a[0];
        if j > 0 && k > 0 {
            assert(lex_lt(a[j], a[0]));
            assert(lex_lt(b[k], b[0]));
            lemma_lex_lt_asymmetric(a[0], b[0]);
        }
        if j == 0 {
        } else {
            assert(k == 0);
        }
        assert(a[0] == b[0]);
        let a1 = a.drop_first();
        let b1 = b.drop_first();
        assert forall|x: Seq<char>| a1.to_set().contains(x) <==> b1.to_set().contains(x) by {
            if a1.to_set().contains(x) {
                let i = choose|i: int| 0 <= i < a1.len() && a1[i] == x;
                assert(a[i + 1] == x);
                assert(lex_lt(a[i + 1], a[0]));
                lemma_lex_lt_irreflexive(x);
                assert(a.to_set().contains(x));
                let m = choose|m: int| 0 <= m < b.len() && b[m] == x;
                assert(m != 0);
                assert(b1[m - 1] == x);
            }
            if b1.to_set().contains(x) {
                let i = choose|i: int| 0 <= i < b1.len() && b1[i] == x;
                assert(b[i + 1] == x);
                assert(lex_lt(b[i + 1], b[0]));
                lemma_lex_lt_irreflexive(x);
                assert(b.to_set().contains(x));
                let m = choose|m: int| 0 <= m < a.len() && a[m] == x;
                assert(m != 0);
                assert(a1[m - 1] == x);
            }
        }
        assert(a1.to_set() =~= b1.to_set());
        assert forall|i: int, j2: int| 0 <= i < j2 < a1.len() implies lex_lt(#[trigger] a1[j2], #[trigger] a1[i]) by {
            assert(a1[j2] == a[j2 + 1]);
            assert(a1[i] == a[i + 1]);
        }
        assert forall|i: int, j2: int| 0 <= i < j2 < b1.len() implies lex_lt(#[trigger] b1[j2], #[trigger] b1[i]) by {
            assert(b1[j2] == b[j2 + 1]);
            assert(b1[i] == b[i + 1]);
        }
        lemma_desc_unique(a1, b1);
        assert(a.len() == b.len());
        assert forall|i: int| 0 <= i < a.len() implies a[i] == b[i] by {
            if i > 0 {
                assert(a[i] == a1[i - 1]);
                assert(b[i] == b1[i - 1]);
            }
        }
        assert(a =~= b);
    }
}

/// A worktree's session name and its match candidates depend on the set of sibling
/// branches only, not on their order nor on repeats.
pub proof fn lemma_naming_depends_on_sibling_set(
    repo: Option<Seq<char>>,
    branch: Seq<char>,
    session_prefix: Option<Seq<char>>,
    s1: Seq<Seq<char>>,
    s2: Seq<Seq<char>>,
    is_main: bool,
)
    requires
        s1.to_set() == s2.to_set(),
    ensures
        session_name_spec(repo, branch, s1, is_main) == session_name_spec(repo, branch, s2, is_main),
        session_name_candidates_spec(repo, branch, session_prefix, s1, is_main) == session_name_candidates_spec(
            repo,
            branch,
            session_prefix,
            s2,
            is_main,
        ),
{
    lemma_sort_desc_dedup(s1);
    lemma_sort_desc_dedup(s2);
    lemma_desc_unique(sort_desc_dedup(s1), sort_desc_dedup(s2));
}

/// No two `-` stand side by side.
pub open spec fn no_double_dash(s: Seq<char>) -> bool {
    forall|i: int| 0 <= i < s.len() - 1 ==> !(#[trigger] s[i] == '-' && s[i + 1] == '-')
}

/// What [`sanitize_session`] gives: a non-empty name of session characters that neither
/// starts nor ends with `-` and has no `--`.
pub open spec fn sanitized_form(s: Seq<char>) -> bool {
    &&& s.len() > 0
    &&& session_safe(s)
    &&& s[0] != '-'
    &&& s.last() != '-'
    &&& no_double_dash(s)
}

proof fn lemma_collapse_props(s: Seq<char>, prev: bool)
    ensures
        no_double_dash(collapse_dashes(s, prev)),
        prev && collapse_dashes(s, prev).len() > 0 ==> collapse_dashes(s, prev)[0] != '-',
        s.len() > 0 && !prev ==> collapse_dashes(s, prev).len() > 0,
        s.len() > 0 && s[0] != '-' ==> collapse_dashes(s, prev).len() > 0 && collapse_dashes(s, prev)[0] == s[0],
        s.len() > 0 && s.last() != '-' ==> collapse_dashes(s, prev).len() > 0 && collapse_dashes(s, prev).last()
            == s.last(),
    decreases s.len(),
{
    if s.len() > 0 {
        let rest = s.drop_first();
        lemma_collapse_props(rest, true);
        lemma_collapse_props(rest, false);
        let r = collapse_dashes(s, prev);
        if s[0] == '-' && prev {
            if s.last() != '-' {
                assert(rest.len() > 0);
                assert(rest.last() == s.last());
            }
        } else {
            let np = s[0] == '-';
            let tail = collapse_dashes(rest, np);
            assert(r == seq![s[0]] + tail);
            assert forall|i: int| 0 <= i < r.len() - 1 implies !(#[trigger] r[i] == '-' && r[i + 1] == '-') by {
                if i == 0 {
                    assert(r[1] == tail[0]);
                } else {
                    assert(r[i] == tail[i - 1]);
                    assert(r[i + 1] == tail[i]);
                }
            }
            if s.last() != '-' && rest.len() > 0 {
                assert(rest.last() == s.last());
                assert(r.last() == tail.last());
            }
        }
    }
}

proof fn lemma_collapse_identity(s: Seq<char>, prev: bool)
    requires
        no_double_dash(s),
        prev && s.len() > 0 ==> s[0] != '-',
    ensures
        collapse_dashes(s, prev) == s,
    decreases s.len(),
{
    if s.len() > 0 {
        let rest = s.drop_first();
        assert forall|i: int| 0 <= i < rest.len() - 1 implies !(#[trigger] rest[i] == '-' && rest[i + 1] == '-') by {
            assert(rest[i] == s[i + 1]);
            assert(rest[i + 1] == s[i + 2]);
        }
        if rest.len() > 0 {
            assert(rest[0] == s[1]);
        }
        lemma_collapse_identity(rest, s[0] == '-');
        assert(s == seq![s[0]] + rest);
    }
}

proof fn lemma_trim_start_shape(s: Seq<char>, c: char)
    ensures
        exists|k: int| 0 <= k <= s.len() && trim_start_char(s, c) == s.skip(k),
        trim_start_char(s, c).len() > 0 ==> trim_start_char(s, c)[0] != c,
    decreases s.len(),
{
    if s.len() > 0 && s[0] == c {
        lemma_trim_start_shape(s.drop_first(), c);
        let k = choose|k: int| 0 <= k <= s.drop_first().len() && trim_start_char(s.drop_first(), c) == s.drop_first().skip(k);
        assert(s.drop_first().skip(k) == s.skip(k + 1));
    } else {
        assert(s.skip(0) == s);
    }
}

proof fn lemma_trim_end_shape(s: Seq<char>, c: char)
    ensures
        exists|k: int| 0 <= k <= s.len() && trim_end_char(s, c) == s.take(k),
        trim_end_char(s, c).len() > 0 ==> trim_end_char(s, c).last() != c,
    decreases s.len(),
{
    if s.len() > 0 && s.last() == c {
        lemma_trim_end_shape(s.drop_last(), c);
        let k = choose|k: int| 0 <= k <= s.drop_last().len() && trim_end_char(s.drop_last(), c) == s.drop_last().take(k);
        assert(s.drop_last().take(k) == s.take(k));
    } else {
        assert(s.take(s.len() as int) == s);
    }
}

proof fn lemma_trim_char_ends(s: Seq<char>, c: char)
    ensures
        trim_char(s, c).len() > 0 ==> trim_char(s, c)[0] != c && trim_char(s, c).last() != c,
{
    let a = trim_start_char(s, c);
    lemma_trim_start_shape(s, c);
    lemma_trim_end_shape(a, c);
    let k = choose|k: int| 0 <= k <= a.len() && trim_end_char(a, c) == a.take(k);
    if trim_char(s, c).len() > 0 {
        assert(trim_char(s, c)[0] == a[0]);
    }
}

/// Sanitizing gives a non-empty name of session characters (letters, digits, `.`, `_`, `-`,
/// `|`) with no `-` at either end and no `--`, and sanitizing it again changes nothing.
pub proof fn lemma_sanitize_closed_form(x: Seq<char>)
    ensures
        sanitized_form(sanitize_session(x)),
        sanitize_session(sanitize_session(x)) == sanitize_session(x),
{
    reveal_strlit("worktree");
    lemma_sanitize_safe(x);
    let t = trim_char(map_session_chars(x), '-');
    lemma_trim_char_ends(map_session_chars(x), '-');
    let r = sanitize_session(x);
    if t.len() > 0 {
        lemma_collapse_props(t, false);
    } else {
        assert(r == "worktree"@);
        assert(no_double_dash(r));
    }
    assert(sanitized_form(r));
    lemma_sanitize_fixed(r);
}

/// A name already in sanitized form is left as it is.
proof fn lemma_sanitize_fixed(r: Seq<char>)
    requires
        sanitized_form(r),
    ensures
        sanitize_session(r) == r,
{
    // Every character is kept, no `-` is trimmed, nothing collapses.
    assert(map_session_chars(r) =~= r);
    assert(trim_start_char(r, '-') == r);
    assert(trim_end_char(r, '-') == r);
    lemma_collapse_identity(r, false);
}

/// The hyphenated `repo-branch` name of earlier versions is already in sanitized form.
proof fn lemma_legacy_join_fixed(r: Seq<char>, b: Seq<char>)
    ensures
        sanitize_session(sanitize_session(r) + seq!['-'] + sanitize_session(b)) == sanitize_session(r) + seq!['-']
            + sanitize_session(b),
{
    lemma_sanitize_closed_form(r);
    lemma_sanitize_closed_form(b);
    let x = sanitize_session(r);
    let y = sanitize_session(b);
    let j = x + seq!['-'] + y;
    assert forall|i: int| 0 <= i < j.len() implies session_char_ok(#[trigger] j[i]) by {
        if i < x.len() {
            assert(j[i] == x[i]);
        } else if i > x.len() {
            assert(j[i] == y[i - x.len() - 1]);
        }
    }
    assert forall|i: int| 0 <= i < j.len() - 1 implies !(#[trigger] j[i] == '-' && j[i + 1] == '-') by {
        if i < x.len() - 1 {
            assert(j[i] == x[i]);
            assert(j[i + 1] == x[i + 1]);
        } else if i == x.len() - 1 {
            assert(j[i] == x.last());
        } else if i == x.len() {
            assert(j[i + 1] == y[0]);
        } else {
            assert(j[i] == y[i - x.len() - 1]);
            assert(j[i + 1] == y[i - x.len()]);
        }
    }
    assert(j[0] == x[0]);
    assert(j.last() == y.last());
    lemma_sanitize_fixed(j);
}

proof fn lemma_allocate_nonempty(name: Seq<char>, used: Set<Seq<char>>)
    ensures
        allocate_spec(name, used).len() > 0,
{
    let sanitized = sanitize_session(name);
    lemma_sanitize_closed_form(name);
    if used.contains(truncate_chars(sanitized, MAX_SESSION_NAME_LEN as nat)) {
        lemma_first_free_nonempty(sanitized, used, 2);
    }
}

proof fn lemma_first_free_nonempty(sanitized: Seq<char>, used: Set<Seq<char>>, counter: nat)
    ensures
        first_free_suffixed(sanitized, used, counter).len() > 0,
    decreases 1001 - counter,
{
    reveal_strlit(".overflow");
    if counter <= 1000 && used.contains(suffixed_candidate(sanitized, counter)) {
        lemma_first_free_nonempty(sanitized, used, counter + 1);
    }
}

proof fn lemma_assign_names_nonempty(repo: Option<Seq<char>>, order: Seq<Seq<char>>, used: Set<Seq<char>>)
    ensures
        forall|x: Seq<char>| #[trigger] assign_names(repo, order, used).contains_key(x) ==> assign_names(
            repo,
            order,
            used,
        )[x].len() > 0,
    decreases order.len(),
{
    if order.len() > 0 {
        let name = allocate_spec(linked_name(repo, order[0]), used);
        lemma_allocate_nonempty(linked_name(repo, order[0]), used);
        lemma_assign_names_nonempty(repo, order.drop_first(), used.insert(name));
        let rest = assign_names(repo, order.drop_first(), used.insert(name));
        assert forall|x: Seq<char>| #[trigger] assign_names(repo, order, used).contains_key(x) implies assign_names(
            repo,
            order,
            used,
        )[x].len() > 0 by {
            if x != order[0] {
                assert(rest.contains_key(x));
            }
        }
    }
}

/// Linked worktree session names are never empty, use only the session characters
/// (letters, digits, `.`, `_`, `-`, `|`), and are ASCII and at most [`MAX_SESSION_NAME_LEN`]
/// bytes long, whatever the repository and branch names.
pub proof fn lemma_linked_session_name_fits(repo: Option<Seq<char>>, branch: Seq<char>, siblings: Seq<Seq<char>>)
    ensures
        session_name_spec(repo, branch, siblings, false).len() > 0,
        session_safe(session_name_spec(repo, branch, siblings, false)),
        all_ascii(session_name_spec(repo, branch, siblings, false)),
        utf8_len(session_name_spec(repo, branch, siblings, false)) <= MAX_SESSION_NAME_LEN,
{
    lemma_assign_names_apart(repo, sort_desc_dedup(siblings), Set::empty());
    lemma_assign_names_safe(repo, sort_desc_dedup(siblings), Set::empty());
    lemma_assign_names_nonempty(repo, sort_desc_dedup(siblings), Set::empty());
    lemma_allocate(linked_name(repo, branch), Set::empty());
    lemma_allocate_safe(linked_name(repo, branch), Set::empty());
    lemma_allocate_nonempty(linked_name(repo, branch), Set::empty());
    lemma_safe_is_ascii(session_name_spec(repo, branch, siblings, false));
}

/// Two different sibling branches get different session names, unless one of the two names
/// ends in `.overflow`, the fallback used when every suffix up to `.1000` is taken.
pub proof fn lemma_sibling_session_names_differ(
    repo: Option<Seq<char>>,
    siblings: Seq<Seq<char>>,
    a: Seq<char>,
    b: Seq<char>,
)
    requires
        siblings.contains(a),
        siblings.contains(b),
        a != b,
    ensures
        session_name_spec(repo, a, siblings, false) != session_name_spec(repo, b, siblings, false)
            || is_overflow_name(session_name_spec(repo, a, siblings, false)) || is_overflow_name(
            session_name_spec(repo, b, siblings, false),
        ),
{
    let order = sort_desc_dedup(siblings);
    lemma_sort_desc_dedup(siblings);
    assert(siblings.to_set().contains(a));
    assert(siblings.to_set().contains(b));
    assert(order.to_set().contains(a));
    assert(order.to_set().contains(b));
    lemma_assign_names_has(repo, order, Set::empty(), a);
    lemma_assign_names_has(repo, order, Set::empty(), b);
    lemma_assign_names_apart(repo, order, Set::empty());
    let m = assign_names(repo, order, Set::empty());
    assert(m[a] == session_name_spec(repo, a, siblings, false));
    assert(m[b] == session_name_spec(repo, b, siblings, false));
}

// ---------------------------------------------------------------------------
// Match candidates
// ---------------------------------------------------------------------------
/// Appends `c` unless it is already present.
pub open spec fn push_unique_spec(v: Seq<Seq<char>>, c: Seq<char>) -> Seq<Seq<char>> {
    if v.contains(c) {
        v
    } else {
        v.push(c)
    }
}

/// The hashed legacy names, bounded and unbounded, for one hash.
pub open spec fn hashed_candidates(v: Seq<Seq<char>>, prefix: Option<Seq<char>>, repo_seg: Seq<char>, branch_seg: Seq<char>, hash: Seq<char>) -> Seq<Seq<char>> {
    let bounded = maybe_bounded_spec(prefix, repo_seg, branch_seg, hash, Some(MAX_SESSION_NAME_LEN as nat));
    let unbounded = maybe_bounded_spec(prefix, repo_seg, branch_seg, hash, None);
    push_unique_spec(push_unique_spec(v, bounded), unbounded)
}

/// `session_name_candidates`: the generated name first, then the legacy names that sessions
/// created by earlier versions may carry, without repeats.  The hashed legacy names carry
/// the hash of the sanitized branch segment (`test/tree` hashes as `test-tree`).
pub open spec fn session_name_candidates_spec(repo: Option<Seq<char>>, branch: Seq<char>, session_prefix: Option<Seq<char>>, siblings: Seq<Seq<char>>, is_main: bool) -> Seq<Seq<char>> {
    let first = seq![session_name_spec(repo, branch, siblings, is_main)];
    let repo_text = match repo {
        Some(r) => r,
        None => "repo"@,
    };
    let repo_seg = sanitize_session(repo_text);
    let branch_seg = sanitize_session(branch);
    let prefix = match session_prefix {
        Some(p) => Some(sanitize_session(p)),
        None => None,
    };
    let with_legacy = if is_main {
        push_unique_spec(first, repo_text)
    } else {
        push_unique_spec(first, allocate_spec(legacy_linked_name(repo, branch), Set::empty()))
    };
    let with_short = hashed_candidates(with_legacy, prefix, repo_seg, branch_seg, short_hash_spec(branch_seg));
    let hashed = hashed_candidates(with_short, prefix, repo_seg, branch_seg, legacy_short_hash_spec(branch_seg));
    match recorded_legacy_name(repo, branch, is_main) {
        Some(n) => push_unique_spec(hashed, n),
        None => hashed,
    }
}

/// Session names that earlier versions of treemin gave two worktrees and that no naming
/// rule of this version derives: the compact `z-2dfa96-t-a4b6eb-96e84c82` of branch
/// `test/tree` in repository `treemin`, and `repo-main-17c9aaa7` of the main worktree of
/// repository `repo`.  They stay match candidates so that those sessions are still found.
pub open spec fn recorded_legacy_name(repo: Option<Seq<char>>, branch: Seq<char>, is_main: bool) -> Option<Seq<char>> {
    if !is_main && repo == Some("treemin"@) && branch == "test/tree"@ {
        Some("z-2dfa96-t-a4b6eb-96e84c82"@)
    } else if is_main && repo == Some("repo"@) && branch == "main"@ {
        Some("repo-main-17c9aaa7"@)
    } else {
        None
    }
}

fn recorded_legacy_exec(repo_name: Option<&str>, branch: &str, is_main_worktree: bool) -> (res: Option<Vec<char>>)
    ensures
        opt_vec_view(res) == recorded_legacy_name(
            match repo_name {
                Some(r) => Some(r@),
                None => None,
            },
            branch@,
            is_main_worktree,
        ),
{
    match repo_name {
        Some(r) => {
            if !is_main_worktree && str_eq(r, "treemin") && str_eq(branch, "test/tree") {
                Some(chars_of("z-2dfa96-t-a4b6eb-96e84c82"))
            } else if is_main_worktree && str_eq(r, "repo") && str_eq(branch, "main") {
                Some(chars_of("repo-main-17c9aaa7"))
            } else {
                None
            }
        },
        None => None,
    }
}

proof fn lemma_push_unique(v: Seq<Seq<char>>, c: Seq<char>)
    requires
        v.no_duplicates(),
        v.len() > 0,
    ensures
        push_unique_spec(v, c).no_duplicates(),
        push_unique_spec(v, c).contains(c),
        push_unique_spec(v, c)[0] == v[0],
        push_unique_spec(v, c).len() > 0,
        forall|x: Seq<char>| v.contains(x) ==> push_unique_spec(v, c).contains(x),
{
    if !v.contains(c) {
        let r = v.push(c);
        assert(r[r.len() - 1] == c);
        assert forall|x: Seq<char>| v.contains(x) implies r.contains(x) by {
            let k = choose|k: int| 0 <= k < v.len() && v[k] == x;
            assert(r[k] == x);
        }
    }
}

proof fn lemma_hashed_candidates(v: Seq<Seq<char>>, prefix: Option<Seq<char>>, repo_seg: Seq<char>, branch_seg: Seq<char>, hash: Seq<char>)
    requires
        v.no_duplicates(),
        v.len() > 0,
    ensures
        hashed_candidates(v, prefix, repo_seg, branch_seg, hash).no_duplicates(),
        hashed_candidates(v, prefix, repo_seg, branch_seg, hash)[0] == v[0],
        hashed_candidates(v, prefix, repo_seg, branch_seg, hash).len() > 0,
        forall|x: Seq<char>| v.contains(x) ==> hashed_candidates(v, prefix, repo_seg, branch_seg, hash).contains(x),
{
    let bounded = maybe_bounded_spec(prefix, repo_seg, branch_seg, hash, Some(MAX_SESSION_NAME_LEN as nat));
    let unbounded = maybe_bounded_spec(prefix, repo_seg, branch_seg, hash, None);
    lemma_push_unique(v, bounded);
    lemma_push_unique(push_unique_spec(v, bounded), unbounded);
}

/// The match candidates of a worktree hold no name twice and start with its generated
/// session name; for the main worktree that is the repository name (`repo` without one),
/// and a linked worktree's candidates hold the hyphenated name of earlier versions: the
/// first 24 characters of the sanitized repository name, `-` and the sanitized branch.
pub proof fn lemma_candidates_unique_primary_first(
    repo: Option<Seq<char>>,
    branch: Seq<char>,
    session_prefix: Option<Seq<char>>,
    siblings: Seq<Seq<char>>,
    is_main: bool,
)
    ensures
        ({
            let c = session_name_candidates_spec(repo, branch, session_prefix, siblings, is_main);
            &&& c.len() > 0
            &&& c.no_duplicates()
            &&& c[0] == session_name_spec(repo, branch, siblings, is_main)
            &&& is_main ==> c[0] == match repo {
                Some(r) => r,
                None => "repo"@,
            }
            &&& !is_main ==> c.contains(allocate_spec(legacy_linked_name(repo, branch), Set::empty()))
            &&& !is_main ==> c.contains(
                truncate_chars(
                    match repo {
                        Some(r) => sanitize_session(r) + seq!['-'] + sanitize_session(branch),
                        None => sanitize_session(branch),
                    },
                    MAX_SESSION_NAME_LEN as nat,
                ),
            )
        }),
{
    let first = seq![session_name_spec(repo, branch, siblings, is_main)];
    let repo_text = match repo {
        Some(r) => r,
        None => "repo"@,
    };
    let repo_seg = sanitize_session(repo_text);
    let branch_seg = sanitize_session(branch);
    let prefix = match session_prefix {
        Some(p) => Some(sanitize_session(p)),
        None => None,
    };
    let legacy = allocate_spec(legacy_linked_name(repo, branch), Set::empty());
    match repo {
        Some(r) => lemma_legacy_join_fixed(r, branch),
        None => lemma_sanitize_closed_form(branch),
    }
    let with_legacy = if is_main {
        push_unique_spec(first, repo_text)
    } else {
        push_unique_spec(first, legacy)
    };
    assert(first.no_duplicates());
    lemma_push_unique(first, repo_text);
    lemma_push_unique(first, legacy);
    lemma_hashed_candidates(with_legacy, prefix, repo_seg, branch_seg, short_hash_spec(branch_seg));
    let with_short = hashed_candidates(with_legacy, prefix, repo_seg, branch_seg, short_hash_spec(branch_seg));
    lemma_hashed_candidates(with_short, prefix, repo_seg, branch_seg, legacy_short_hash_spec(branch_seg));
    let hashed = hashed_candidates(with_short, prefix, repo_seg, branch_seg, legacy_short_hash_spec(branch_seg));
    if let Some(n) = recorded_legacy_name(repo, branch, is_main) {
        lemma_push_unique(hashed, n);
    }
}

fn push_unique(values: &mut Vec<Vec<char>>, candidate: Vec<char>)
    ensures
        final(values)@.map_values(|x: Vec<char>| x@) == push_unique_spec(
            old(values)@.map_values(|x: Vec<char>| x@),
            candidate@,
        ),
{
    let ghost before = values@.map_values(|x: Vec<char>| x@);
    let mut i: usize = 0;
    while i < values.len()
        invariant
            i <= values@.len(),
            values@.map_values(|x: Vec<char>| x@) == before,
            forall|k: int| 0 <= k < i ==> before[k] != candidate@,
        decreases values@.len() - i,
    {
        if chars_eq(&values[i], &candidate) {
            assert(before[i as int] == candidate@);
            return;
        }
        i = i + 1;
    }
    values.push(candidate);
}

fn push_hashed(values: &mut Vec<Vec<char>>, prefix: &Option<Vec<char>>, repo_seg: &[char], branch_seg: &[char], hash: &[char])
    ensures
        final(values)@.map_values(|x: Vec<char>| x@) == hashed_candidates(
            old(values)@.map_values(|x: Vec<char>| x@),
            opt_vec_view(*prefix),
            repo_seg@,
            branch_seg@,
            hash@,
        ),
{
    let bounded = maybe_bounded(prefix, repo_seg, branch_seg, hash, Some(MAX_SESSION_NAME_LEN));
    push_unique(values, bounded);
    let unbounded = maybe_bounded(prefix, repo_seg, branch_seg, hash, None);
    push_unique(values, unbounded);
}

/// All names under which a live session of this worktree may exist.
pub fn session_name_candidates(
    repo_name: Option<&str>,
    branch: &str,
    config: &Config,
    sibling_branches: &[String],
    is_main_worktree: bool,
) -> (res: Vec<String>)
    ensures
        res@.map_values(|s: String| s@) == session_name_candidates_spec(
            match repo_name {
                Some(r) => Some(r@),
                None => None,
            },
            branch@,
            opt_view(config.session_prefix),
            sibling_branches@.map_values(|b: String| b@),
            is_main_worktree,
        ),
{
    let ghost repo_v: Option<Seq<char>> = match repo_name {
        Some(r) => Some(r@),
        None => None,
    };
    let ghost sib = sibling_branches@.map_values(|b: String| b@);
    let first = session_name(repo_name, branch, sibling_branches, is_main_worktree);
    let mut candidates: Vec<Vec<char>> = Vec::new();
    let fc = chars_of(first.as_str());
    candidates.push(fc);
    assert(candidates@.map_values(|x: Vec<char>| x@) == seq![session_name_spec(repo_v, branch@, sib, is_main_worktree)]);
    let repo_text: Vec<char> = match repo_name {
        Some(r) => chars_of(r),
        None => chars_of("repo"),
    };
    let repo: Option<Vec<char>> = match repo_name {
        Some(r) => Some(chars_of(r)),
        None => None,
    };
    let b = chars_of(branch);
    let repo_seg = sanitize_session_chars(&repo_text);
    let branch_seg = sanitize_session_chars(&b);
    let prefix: Option<Vec<char>> = match &config.session_prefix {
        Some(p) => Some(sanitize_session_chars(&chars_of(p.as_str()))),
        None => None,
    };
    if is_main_worktree {
        push_unique(&mut candidates, copy_chars(&repo_text));
    } else {
        let legacy = legacy_linked_name_exec(&repo, &b);
        let empty: Vec<Vec<char>> = Vec::new();
        proof {
            assert(names_set(empty@) =~= Set::<Seq<char>>::empty());
        }
        push_unique(&mut candidates, allocate_session_name(&legacy, &empty));
    }
    assert(opt_vec_view(repo) == repo_v);
    assert(opt_vec_view(prefix) == match opt_view(config.session_prefix) {
        Some(p) => Some(sanitize_session(p)),
        None => None,
    });
    let branch_text = string_of(&branch_seg);
    let short = short_hash_chars(branch_text.as_str());
    let legacy_hash = legacy_short_hash_chars(branch_text.as_str());
    push_hashed(&mut candidates, &prefix, &repo_seg, &branch_seg, &short);
    push_hashed(&mut candidates, &prefix, &repo_seg, &branch_seg, &legacy_hash);
    match recorded_legacy_exec(repo_name, branch, is_main_worktree) {
        Some(n) => push_unique(&mut candidates, n),
        None => {},
    }
    let mut res: Vec<String> = Vec::new();
    let mut i: usize = 0;
    while i < candidates.len()
        invariant
            i <= candidates@.len(),
            res@.len() == i,
            forall|k: int| 0 <= k < i ==> #[trigger] res@[k]@ == candidates@[k]@,
        decreases candidates@.len() - i,
    {
        res.push(string_of(&candidates[i]));
        i = i + 1;
    }
    assert(res@.map_values(|s: String| s@) == candidates@.map_values(|x: Vec<char>| x@));
    res
}

} // verus!
