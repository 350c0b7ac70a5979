//! Character-level text helpers shared by the whole crate.
//!
//! Every function here works on the `char` view of a string (`Seq<char>`), and each
//! one is specified by an open spec function of the same name that states the
//! standard-library behaviour it reproduces (`split`, `lines`, `trim`, ...).
use vstd::prelude::*;
use vstd::std_specs::iter::IteratorSpec;

verus! {

broadcast use vstd::string::group_string_axioms;

// ---------------------------------------------------------------------------
// Character classes
// ---------------------------------------------------------------------------
/// `char::is_whitespace`: the Unicode `White_Space` property.
pub open spec fn is_ws(c: char) -> bool {
    let u = c as u32;
    (0x9 <= u && u <= 0xd) || u == 0x20 || u == 0x85 || u == 0xa0 || u == 0x1680 || (0x2000 <= u
        && u <= 0x200a) || u == 0x2028 || u == 0x2029 || u == 0x202f || u == 0x205f || u == 0x3000
}

/// `char::is_control`: the Unicode general category `Cc`.
pub open spec fn is_control(c: char) -> bool {
    let u = c as u32;
    u <= 0x1f || (0x7f <= u && u <= 0x9f)
}

/// `char::is_ascii_digit`.
pub open spec fn is_digit(c: char) -> bool {
    '0' <= c && c <= '9'
}

/// `char::is_ascii_alphanumeric`.
pub open spec fn is_alnum(c: char) -> bool {
    ('a' <= c && c <= 'z') || ('A' <= c && c <= 'Z') || is_digit(c)
}

pub fn char_is_ws(c: char) -> (b: bool)
    ensures
        b == is_ws(c),
{
    let u = c as u32;
    (0x9 <= u && u <= 0xd) || u == 0x20 || u == 0x85 || u == 0xa0 || u == 0x1680 || (0x2000 <= u
        && u <= 0x200a) || u == 0x2028 || u == 0x2029 || u == 0x202f || u == 0x205f || u == 0x3000
}

pub fn char_is_control(c: char) -> (b: bool)
    ensures
        b == is_control(c),
{
    let u = c as u32;
    u <= 0x1f || (0x7f <= u && u <= 0x9f)
}

pub fn char_is_digit(c: char) -> (b: bool)
    ensures
        b == is_digit(c),
{
    '0' <= c && c <= '9'
}

pub fn char_is_alnum(c: char) -> (b: bool)
    ensures
        b == is_alnum(c),
{
    ('a' <= c && c <= 'z') || ('A' <= c && c <= 'Z') || ('0' <= c && c <= '9')
}

// ---------------------------------------------------------------------------
// Conversions between `str`/`String` and `Vec<char>`
// ---------------------------------------------------------------------------
/// Appends one character to a string; this is `String::push`.
#[verifier::external_body]
pub(crate) fn push_char(s: &mut String, c: char)
    ensures
        final(s)@ == old(s)@.push(c),
{
    s.push(c);
}

/// The characters of a string slice, in order.
pub fn chars_of(s: &str) -> (res: Vec<char>)
    ensures
        res@ == s@,
{
    let mut res: Vec<char> = Vec::new();
    for c in it: s.chars()
        invariant
            it.seq() == s@,
            res@ == s@.take(it.index() as int),
    {
        res.push(c);
    }
    res
}

/// Builds a string from a sequence of characters.
pub fn string_of(v: &[char]) -> (res: String)
    ensures
        res@ == v@,
{
    let mut res = String::new();
    let mut i: usize = 0;
    while i < v.len()
        invariant
            i <= v@.len(),
            res@ == v@.subrange(0, i as int),
        decreases v@.len() - i,
    {
        push_char(&mut res, v[i]);
        i = i + 1;
    }
    res
}

/// Appends all characters of `src` to `dst`.
pub fn extend_chars(dst: &mut Vec<char>, src: &[char])
    ensures
        final(dst)@ == old(dst)@ + src@,
{
    let mut i: usize = 0;
    while i < src.len()
        invariant
            i <= src@.len(),
            dst@ == old(dst)@ + src@.subrange(0, i as int),
        decreases src@.len() - i,
    {
        dst.push(src[i]);
        i = i + 1;
    }
}

/// Concatenation of two character sequences.
pub fn concat(a: &[char], b: &[char]) -> (res: Vec<char>)
    ensures
        res@ == a@ + b@,
{
    let mut res: Vec<char> = Vec::new();
    extend_chars(&mut res, a);
    extend_chars(&mut res, b);
    res
}

/// Copy of a character slice.
pub fn copy_chars(a: &[char]) -> (res: Vec<char>)
    ensures
        res@ == a@,
{
    let mut res: Vec<char> = Vec::new();
    extend_chars(&mut res, a);
    res
}

/// The characters `a[from..to]`.
pub fn slice_chars(a: &[char], from: usize, to: usize) -> (res: Vec<char>)
    requires
        from <= to <= a@.len(),
    ensures
        res@ == a@.subrange(from as int, to as int),
{
    let mut res: Vec<char> = Vec::new();
    let mut i = from;
    while i < to
        invariant
            from <= i <= to <= a@.len(),
            res@ == a@.subrange(from as int, i as int),
        decreases to - i,
    {
        res.push(a[i]);
        i = i + 1;
    }
    res
}

/// Character-wise equality.
pub fn chars_eq(a: &[char], b: &[char]) -> (res: bool)
    ensures
        res == (a@ == b@),
{
    if a.len() != b.len() {
        return false;
    }
    let mut i: usize = 0;
    while i < a.len()
        invariant
            a@.len() == b@.len(),
            i <= a@.len(),
            a@.subrange(0, i as int) == b@.subrange(0, i as int),
        decreases a@.len() - i,
    {
        if a[i] != b[i] {
            return false;
        }
        assert(a@.subrange(0, i + 1) == a@.subrange(0, i as int).push(a@[i as int]));
        assert(b@.subrange(0, i + 1) == b@.subrange(0, i as int).push(b@[i as int]));
        i = i + 1;
    }
    assert(a@ == a@.subrange(0, a@.len() as int));
    assert(b@ == b@.subrange(0, b@.len() as int));
    true
}

/// String equality on the character view.
pub fn str_eq(a: &str, b: &str) -> (res: bool)
    ensures
        res == (a@ == b@),
{
    let va = chars_of(a);
    let vb = chars_of(b);
    chars_eq(&va, &vb)
}

// ---------------------------------------------------------------------------
// Prefixes, suffixes and search
// ---------------------------------------------------------------------------
/// `s.starts_with(p)`.
pub open spec fn starts_with(s: Seq<char>, p: Seq<char>) -> bool {
    p.len() <= s.len() && s.take(p.len() as int) == p
}

/// `s.ends_with(p)`.
pub open spec fn ends_with(s: Seq<char>, p: Seq<char>) -> bool {
    p.len() <= s.len() && s.skip(s.len() - p.len()) == p
}

/// `s.strip_prefix(p)`.
pub open spec fn strip_prefix(s: Seq<char>, p: Seq<char>) -> Option<Seq<char>> {
    if starts_with(s, p) {
        Some(s.skip(p.len() as int))
    } else {
        None
    }
}

/// `p` occurs in `s` at position `i`.
pub open spec fn occurs_at(s: Seq<char>, p: Seq<char>, i: int) -> bool {
    0 <= i && i + p.len() <= s.len() && s.subrange(i, i + p.len()) == p
}

/// `s.contains(p)` for a string pattern.
pub open spec fn contains_str(s: Seq<char>, p: Seq<char>) -> bool {
    exists|i: int| occurs_at(s, p, i)
}

pub fn has_prefix(s: &[char], p: &[char]) -> (res: bool)
    ensures
        res == starts_with(s@, p@),
{
    if p.len() > s.len() {
        return false;
    }
    let head = slice_chars(s, 0, p.len());
    chars_eq(&head, p)
}

pub fn has_suffix(s: &[char], p: &[char]) -> (res: bool)
    ensures
        res == ends_with(s@, p@),
{
    if p.len() > s.len() {
        return false;
    }
    let tail = slice_chars(s, s.len() - p.len(), s.len());
    chars_eq(&tail, p)
}

/// Whether `p` occurs in `s` at position `i`.
pub fn occurs_at_exec(s: &[char], p: &[char], i: usize) -> (res: bool)
    ensures
        res == occurs_at(s@, p@, i as int),
{
    if i > s.len() || p.len() > s.len() - i {
        return false;
    }
    let part = slice_chars(s, i, i + p.len());
    chars_eq(&part, p)
}

/// `s.contains(p)`.
pub fn contains_chars(s: &[char], p: &[char]) -> (res: bool)
    ensures
        res == contains_str(s@, p@),
{
    let mut i: usize = 0;
    while i < s.len()
        invariant
            i <= s@.len(),
            forall|j: int| 0 <= j < i ==> !occurs_at(s@, p@, j),
        decreases s@.len() - i,
    {
        if occurs_at_exec(s, p, i) {
            return true;
        }
        i = i + 1;
    }
    if occurs_at_exec(s, p, s.len()) {
        return true;
    }
    assert forall|j: int| !occurs_at(s@, p@, j) by {
        if 0 <= j && j + p@.len() <= s@.len() {
        }
    }
    false
}

/// Whether `c` occurs in `s`.
pub fn contains_char(s: &[char], c: char) -> (res: bool)
    ensures
        res == s@.contains(c),
{
    let mut i: usize = 0;
    while i < s.len()
        invariant
            i <= s@.len(),
            forall|j: int| 0 <= j < i ==> s@[j] != c,
        decreases s@.len() - i,
    {
        if s[i] == c {
            return true;
        }
        i = i + 1;
    }
    false
}

// ---------------------------------------------------------------------------
// Trimming
// ---------------------------------------------------------------------------
/// `str::trim_start`.
pub open spec fn trim_start(s: Seq<char>) -> Seq<char>
    decreases s.len(),
{
    if s.len() > 0 && is_ws(s[0]) {
        trim_start(s.drop_first())
    } else {
        s
    }
}

/// `str::trim_end`.
pub open spec fn trim_end(s: Seq<char>) -> Seq<char>
    decreases s.len(),
{
    if s.len() > 0 && is_ws(s.last()) {
        trim_end(s.drop_last())
    } else {
        s
    }
}

/// `str::trim`.
pub open spec fn trim(s: Seq<char>) -> Seq<char> {
    trim_end(trim_start(s))
}

/// `str::trim_start_matches(c)` for a single character.
pub open spec fn trim_start_char(s: Seq<char>, c: char) -> Seq<char>
    decreases s.len(),
{
    if s.len() > 0 && s[0] == c {
        trim_start_char(s.drop_first(), c)
    } else {
        s
    }
}

/// `str::trim_end_matches(c)` for a single character.
pub open spec fn trim_end_char(s: Seq<char>, c: char) -> Seq<char>
    decreases s.len(),
{
    if s.len() > 0 && s.last() == c {
        trim_end_char(s.drop_last(), c)
    } else {
        s
    }
}

/// `str::trim_matches(c)` for a single character.
pub open spec fn trim_char(s: Seq<char>, c: char) -> Seq<char> {
    trim_end_char(trim_start_char(s, c), c)
}

/// `str::trim_start_matches(p)` for a string pattern.
pub open spec fn trim_start_str(s: Seq<char>, p: Seq<char>) -> Seq<char>
    decreases s.len(),
{
    if p.len() > 0 && starts_with(s, p) {
        trim_start_str(s.skip(p.len() as int), p)
    } else {
        s
    }
}

pub fn trim_start_exec(s: &[char]) -> (res: Vec<char>)
    ensures
        res@ == trim_start(s@),
{
    let mut i: usize = 0;
    assert(s@.skip(0) == s@);
    while i < s.len() && char_is_ws(s[i])
        invariant
            i <= s@.len(),
            trim_start(s@) == trim_start(s@.skip(i as int)),
        decreases s@.len() - i,
    {
        assert(s@.skip(i as int).drop_first() == s@.skip(i + 1));
        i = i + 1;
    }
    slice_chars(s, i, s.len())
}

pub fn trim_end_exec(s: &[char]) -> (res: Vec<char>)
    ensures
        res@ == trim_end(s@),
{
    let mut j: usize = s.len();
    assert(s@.take(s@.len() as int) == s@);
    while j > 0 && char_is_ws(s[j - 1])
        invariant
            j <= s@.len(),
            trim_end(s@) == trim_end(s@.take(j as int)),
        decreases j,
    {
        assert(s@.take(j as int).drop_last() == s@.take(j - 1));
        j = j - 1;
    }
    slice_chars(s, 0, j)
}

pub fn trim_exec(s: &[char]) -> (res: Vec<char>)
    ensures
        res@ == trim(s@),
{
    let a = trim_start_exec(s);
    trim_end_exec(&a)
}

pub fn trim_start_char_exec(s: &[char], c: char) -> (res: Vec<char>)
    ensures
        res@ == trim_start_char(s@, c),
{
    let mut i: usize = 0;
    assert(s@.skip(0) == s@);
    while i < s.len() && s[i] == c
        invariant
            i <= s@.len(),
            trim_start_char(s@, c) == trim_start_char(s@.skip(i as int), c),
        decreases s@.len() - i,
    {
        assert(s@.skip(i as int).drop_first() == s@.skip(i + 1));
        i = i + 1;
    }
    slice_chars(s, i, s.len())
}

pub fn trim_end_char_exec(s: &[char], c: char) -> (res: Vec<char>)
    ensures
        res@ == trim_end_char(s@, c),
{
    let mut j: usize = s.len();
    assert(s@.take(s@.len() as int) == s@);
    while j > 0 && s[j - 1] == c
        invariant
            j <= s@.len(),
            trim_end_char(s@, c) == trim_end_char(s@.take(j as int), c),
        decreases j,
    {
        assert(s@.take(j as int).drop_last() == s@.take(j - 1));
        j = j - 1;
    }
    slice_chars(s, 0, j)
}

pub fn trim_char_exec(s: &[char], c: char) -> (res: Vec<char>)
    ensures
        res@ == trim_char(s@, c),
{
    let a = trim_start_char_exec(s, c);
    trim_end_char_exec(&a, c)
}

pub fn trim_start_str_exec(s: &[char], p: &[char]) -> (res: Vec<char>)
    ensures
        res@ == trim_start_str(s@, p@),
{
    let mut i: usize = 0;
    assert(s@.skip(0) == s@);
    while p.len() > 0 && i <= s.len() && has_prefix(&slice_chars(s, i, s.len()), p)
        invariant
            i <= s@.len(),
            trim_start_str(s@, p@) == trim_start_str(s@.skip(i as int), p@),
        decreases s@.len() - i,
    {
        assert(s@.skip(i as int).skip(p@.len() as int) == s@.skip(i + p@.len()));
        i = i + p.len();
    }
    slice_chars(s, i, s.len())
}

// ---------------------------------------------------------------------------
// Splitting
// ---------------------------------------------------------------------------
/// `str::split(c)` with an accumulated current piece.
pub open spec fn split_acc(s: Seq<char>, c: char, cur: Seq<char>) -> Seq<Seq<char>>
    decreases s.len(),
{
    if s.len() == 0 {
        seq![cur]
    } else if s[0] == c {
        seq![cur] + split_acc(s.drop_first(), c, seq![])
    } else {
        split_acc(s.drop_first(), c, cur.push(s[0]))
    }
}

/// `str::split(c)` for a single character separator.
pub open spec fn split_char(s: Seq<char>, c: char) -> Seq<Seq<char>> {
    split_acc(s, c, seq![])
}

pub fn split_char_exec(s: &[char], c: char) -> (res: Vec<Vec<char>>)
    ensures
        res@.len() == split_char(s@, c).len(),
        forall|k: int| 0 <= k < res@.len() ==> #[trigger] res@[k]@ == split_char(s@, c)[k],
{
    let mut pieces: Vec<Vec<char>> = Vec::new();
    let mut cur: Vec<char> = Vec::new();
    let ghost mut views: Seq<Seq<char>> = seq![];
    let mut i: usize = 0;
    assert(s@.skip(0) == s@);
    assert(views + split_acc(s@, c, cur@) == split_acc(s@, c, cur@));
    while i < s.len()
        invariant
            i <= s@.len(),
            views.len() == pieces@.len(),
            forall|k: int| 0 <= k < pieces@.len() ==> #[trigger] pieces@[k]@ == views[k],
            views + split_acc(s@.skip(i as int), c, cur@) == split_char(s@, c),
        decreases s@.len() - i,
    {
        assert(s@.skip(i as int).drop_first() == s@.skip(i + 1));
        if s[i] == c {
            let piece = cur;
            proof {
                views = views.push(piece@);
                assert(views == (views.drop_last() + seq![piece@]));
            }
            pieces.push(piece);
            cur = Vec::new();
        } else {
            cur.push(s[i]);
        }
        i = i + 1;
    }
    proof {
        views = views.push(cur@);
    }
    pieces.push(cur);
    pieces
}

/// `str::lines`: split at `\n`, drop a final empty piece, strip a `\r` before each `\n`.
pub open spec fn strip_cr(s: Seq<char>) -> Seq<char> {
    if s.len() > 0 && s.last() == '\r' {
        s.drop_last()
    } else {
        s
    }
}

pub open spec fn lines(s: Seq<char>) -> Seq<Seq<char>> {
    let p = split_char(s, '\n');
    let body = p.take(p.len() - 1).map_values(|x: Seq<char>| strip_cr(x));
    if p.last().len() == 0 {
        body
    } else {
        body.push(p.last())
    }
}

/// Splitting always yields at least one piece.
pub proof fn lemma_split_acc_nonempty(s: Seq<char>, c: char, cur: Seq<char>)
    ensures
        split_acc(s, c, cur).len() > 0,
    decreases s.len(),
{
    if s.len() > 0 {
        if s[0] == c {
            lemma_split_acc_nonempty(s.drop_first(), c, seq![]);
        } else {
            lemma_split_acc_nonempty(s.drop_first(), c, cur.push(s[0]));
        }
    }
}

pub fn strip_cr_exec(s: &[char]) -> (res: Vec<char>)
    ensures
        res@ == strip_cr(s@),
{
    if s.len() > 0 && s[s.len() - 1] == '\r' {
        slice_chars(s, 0, s.len() - 1)
    } else {
        copy_chars(s)
    }
}

pub fn lines_exec(s: &[char]) -> (res: Vec<Vec<char>>)
    ensures
        res@.len() == lines(s@).len(),
        forall|k: int| 0 <= k < res@.len() ==> #[trigger] res@[k]@ == lines(s@)[k],
{
    let pieces = split_char_exec(s, '\n');
    let ghost p = split_char(s@, '\n');
    proof {
        lemma_split_acc_nonempty(s@, '\n', seq![]);
    }
    let n = pieces.len();
    let mut res: Vec<Vec<char>> = Vec::new();
    let mut i: usize = 0;
    while i + 1 < n
        invariant
            n == pieces@.len() == p.len(),
            n > 0,
            i < n,
            p == split_char(s@, '\n'),
            forall|k: int| 0 <= k < n ==> #[trigger] pieces@[k]@ == p[k],
            res@.len() == i,
            forall|k: int| 0 <= k < i ==> #[trigger] res@[k]@ == strip_cr(p[k]),
        decreases n - i,
    {
        res.push(strip_cr_exec(&pieces[i]));
        i = i + 1;
    }
    if pieces[n - 1].len() > 0 {
        res.push(copy_chars(&pieces[n - 1]));
    }
    res
}

/// The lines that are not blank, each trimmed.
pub open spec fn trimmed_nonblank(ls: Seq<Seq<char>>) -> Seq<Seq<char>>
    decreases ls.len(),
{
    if ls.len() == 0 {
        seq![]
    } else if trim(ls.last()).len() == 0 {
        trimmed_nonblank(ls.drop_last())
    } else {
        trimmed_nonblank(ls.drop_last()).push(trim(ls.last()))
    }
}

/// `str::split_once(c)`: the text before and after the first `c`.
pub open spec fn split_once(s: Seq<char>, c: char) -> Option<(Seq<char>, Seq<char>)> {
    if s.contains(c) {
        let i = choose|i: int| 0 <= i < s.len() && s[i] == c && forall|j: int| 0 <= j < i ==> s[j] != c;
        Some((s.take(i), s.skip(i + 1)))
    } else {
        None
    }
}

pub fn split_once_exec(s: &[char], c: char) -> (res: Option<(Vec<char>, Vec<char>)>)
    ensures
        match split_once(s@, c) {
            Some((a, b)) => res is Some && (res->0).0@ == a && (res->0).1@ == b,
            None => res is None,
        },
{
    let mut i: usize = 0;
    while i < s.len()
        invariant
            i <= s@.len(),
            forall|j: int| 0 <= j < i ==> s@[j] != c,
        decreases s@.len() - i,
    {
        if s[i] == c {
            let ghost k = choose|k: int| 0 <= k < s@.len() && s@[k] == c && forall|j: int| 0 <= j < k ==> s@[j] != c;
            assert(k == i) by {
                if k < i {
                } else if k > i {
                    assert(s@[i as int] == c);
                }
            }
            return Some((slice_chars(s, 0, i), slice_chars(s, i + 1, s.len())));
        }
        i = i + 1;
    }
    None
}


// ---------------------------------------------------------------------------
// Joining, filtering and ordering
// ---------------------------------------------------------------------------
/// `pieces.join(sep)`.
pub open spec fn join_seqs(pieces: Seq<Seq<char>>, sep: Seq<char>) -> Seq<char>
    decreases pieces.len(),
{
    if pieces.len() == 0 {
        seq![]
    } else if pieces.len() == 1 {
        pieces[0]
    } else {
        join_seqs(pieces.drop_last(), sep) + sep + pieces.last()
    }
}

pub fn join_exec(pieces: &Vec<Vec<char>>, sep: &[char]) -> (res: Vec<char>)
    ensures
        res@ == join_seqs(pieces@.map_values(|p: Vec<char>| p@), sep@),
{
    let ghost views = pieces@.map_values(|p: Vec<char>| p@);
    let mut res: Vec<char> = Vec::new();
    let mut i: usize = 0;
    while i < pieces.len()
        invariant
            i <= pieces@.len(),
            views == pieces@.map_values(|p: Vec<char>| p@),
            res@ == join_seqs(views.take(i as int), sep@),
        decreases pieces@.len() - i,
    {
        assert(views.take(i + 1).drop_last() == views.take(i as int));
        if i > 0 {
            extend_chars(&mut res, sep);
        } else {
            assert(res@ == Seq::<char>::empty());
        }
        extend_chars(&mut res, &pieces[i]);
        i = i + 1;
    }
    assert(views.take(pieces@.len() as int) == views);
    res
}

/// The pieces that are not empty, in order.
pub open spec fn nonempty_pieces(pieces: Seq<Seq<char>>) -> Seq<Seq<char>>
    decreases pieces.len(),
{
    if pieces.len() == 0 {
        seq![]
    } else if pieces.last().len() == 0 {
        nonempty_pieces(pieces.drop_last())
    } else {
        nonempty_pieces(pieces.drop_last()).push(pieces.last())
    }
}

/// Lexicographic order on code points; for UTF-8 text this is the byte order of `str`.
pub open spec fn lex_lt(a: Seq<char>, b: Seq<char>) -> bool
    decreases a.len(),
{
    if a.len() == 0 {
        b.len() > 0
    } else if b.len() == 0 {
        false
    } else if a[0] != b[0] {
        (a[0] as u32) < (b[0] as u32)
    } else {
        lex_lt(a.drop_first(), b.drop_first())
    }
}

pub fn lex_less(a: &[char], b: &[char]) -> (res: bool)
    ensures
        res == lex_lt(a@, b@),
{
    let mut i: usize = 0;
    assert(a@.skip(0) == a@ && b@.skip(0) == b@);
    while i < a.len() && i < b.len() && a[i] == b[i]
        invariant
            i <= a@.len(),
            i <= b@.len(),
            lex_lt(a@, b@) == lex_lt(a@.skip(i as int), b@.skip(i as int)),
        decreases a@.len() - i,
    {
        assert(a@.skip(i as int).drop_first() == a@.skip(i + 1));
        assert(b@.skip(i as int).drop_first() == b@.skip(i + 1));
        i = i + 1;
    }
    if i == a.len() {
        i < b.len()
    } else if i == b.len() {
        false
    } else {
        (a[i] as u32) < (b[i] as u32)
    }
}

/// No text is before itself in byte order.
pub proof fn lemma_lex_lt_irreflexive(a: Seq<char>)
    ensures
        !lex_lt(a, a),
    decreases a.len(),
{
    if a.len() > 0 {
        lemma_lex_lt_irreflexive(a.drop_first());
    }
}

/// Of two different texts, one is before the other in byte order.
pub proof fn lemma_lex_lt_total(a: Seq<char>, b: Seq<char>)
    ensures
        a == b || lex_lt(a, b) || lex_lt(b, a),
    decreases a.len(),
{
    if a.len() > 0 && b.len() > 0 && a[0] == b[0] {
        lemma_lex_lt_total(a.drop_first(), b.drop_first());
        if a.drop_first() == b.drop_first() {
            assert(a == seq![a[0]] + a.drop_first());
            assert(b == seq![b[0]] + b.drop_first());
        }
    } else if a.len() == 0 && b.len() == 0 {
        assert(a == b);
    } else if a.len() > 0 && b.len() > 0 {
        if (a[0] as u32) == (b[0] as u32) {
            vstd::utf8::char_u32_cast(a[0], a[0] as u32);
            vstd::utf8::char_u32_cast(b[0], b[0] as u32);
        }
    }
}

/// Byte order is transitive.
pub proof fn lemma_lex_lt_transitive(a: Seq<char>, b: Seq<char>, c: Seq<char>)
    requires
        lex_lt(a, b),
        lex_lt(b, c),
    ensures
        lex_lt(a, c),
    decreases a.len(),
{
    if a.len() > 0 && b.len() > 0 && c.len() > 0 && a[0] == b[0] && b[0] == c[0] {
        lemma_lex_lt_transitive(a.drop_first(), b.drop_first(), c.drop_first());
    }
}

/// A text before another is not also after it.
pub proof fn lemma_lex_lt_asymmetric(a: Seq<char>, b: Seq<char>)
    requires
        lex_lt(a, b),
    ensures
        !lex_lt(b, a),
    decreases a.len(),
{
    if a.len() > 0 && b.len() > 0 && a[0] == b[0] {
        lemma_lex_lt_asymmetric(a.drop_first(), b.drop_first());
    }
}

/// A sequence in strictly decreasing lexicographic order.
pub open spec fn strictly_desc(s: Seq<Seq<char>>) -> bool {
    forall|i: int, j: int| 0 <= i < j < s.len() ==> lex_lt(#[trigger] s[j], #[trigger] s[i])
}

/// Inserts `x` into a strictly decreasing sequence, keeping it strictly decreasing.
pub open spec fn insert_desc(s: Seq<Seq<char>>, x: Seq<char>) -> Seq<Seq<char>>
    decreases s.len(),
{
    if s.len() == 0 {
        seq![x]
    } else if s[0] == x {
        s
    } else if lex_lt(s[0], x) {
        seq![x] + s
    } else {
        seq![s[0]] + insert_desc(s.drop_first(), x)
    }
}

/// The distinct values of `list` in strictly decreasing order
/// (`sort` then `dedup`, then reversed).
pub open spec fn sort_desc_dedup(list: Seq<Seq<char>>) -> Seq<Seq<char>>
    decreases list.len(),
{
    if list.len() == 0 {
        seq![]
    } else {
        insert_desc(sort_desc_dedup(list.drop_last()), list.last())
    }
}

/// Inserting into a strictly decreasing list keeps it strictly decreasing and adds exactly the new text.
pub proof fn lemma_insert_desc(s: Seq<Seq<char>>, x: Seq<char>)
    requires
        strictly_desc(s),
    ensures
        strictly_desc(insert_desc(s, x)),
        insert_desc(s, x).to_set() == s.to_set().insert(x),
    decreases s.len(),
{
    if s.len() == 0 {
        assert(seq![x].to_set() =~= Set::empty().insert(x)) by {
            assert(seq![x][0] == x);
        }
        assert(s.to_set() =~= Set::empty());
    } else if s[0] == x {
        assert(s.to_set().insert(x) =~= s.to_set()) by {
            assert(s.contains(x));
        }
    } else if lex_lt(s[0], x) {
        let r = seq![x] + s;
        assert forall|i: int, j: int| 0 <= i < j < r.len() implies lex_lt(#[trigger] r[j], #[trigger] r[i]) by {
            if i == 0 {
                if j > 1 {
                    lemma_lex_lt_transitive(s[j - 1], s[0], x);
                }
            }
        }
        assert(r.to_set() =~= s.to_set().insert(x)) by {
            assert forall|y| r.to_set().contains(y) implies s.to_set().insert(x).contains(y) by {
                let k = choose|k: int| 0 <= k < r.len() && r[k] == y;
                if k > 0 {
                    assert(s[k - 1] == y);
                }
            }
            assert forall|y| s.to_set().insert(x).contains(y) implies r.to_set().contains(y) by {
                if y == x {
                    assert(r[0] == x);
                } else {
                    let k = choose|k: int| 0 <= k < s.len() && s[k] == y;
                    assert(r[k + 1] == y);
                }
            }
        }
    } else {
        let t = s.drop_first();
        assert(strictly_desc(t)) by {
            assert forall|i: int, j: int| 0 <= i < j < t.len() implies lex_lt(#[trigger] t[j], #[trigger] t[i]) by {
                assert(t[j] == s[j + 1] && t[i] == s[i + 1]);
            }
        }
        lemma_insert_desc(t, x);
        let it = insert_desc(t, x);
        let r = seq![s[0]] + it;
        lemma_lex_lt_total(s[0], x);
        assert forall|i: int, j: int| 0 <= i < j < r.len() implies lex_lt(#[trigger] r[j], #[trigger] r[i]) by {
            if i == 0 {
                let y = r[j];
                assert(it.to_set().contains(y)) by {
                    assert(it[j - 1] == y);
                }
                if y == x {
                } else {
                    let k = choose|k: int| 0 <= k < t.len() && t[k] == y;
                    assert(s[k + 1] == y);
                }
            } else {
                assert(r[i] == it[i - 1] && r[j] == it[j - 1]);
            }
        }
        assert(r.to_set() =~= s.to_set().insert(x)) by {
            assert forall|y| r.to_set().contains(y) implies s.to_set().insert(x).contains(y) by {
                let k = choose|k: int| 0 <= k < r.len() && r[k] == y;
                if k > 0 {
                    assert(it.to_set().contains(y)) by {
                        assert(it[k - 1] == y);
                    }
                    if y != x {
                        let m = choose|m: int| 0 <= m < t.len() && t[m] == y;
                        assert(s[m + 1] == y);
                    }
                } else {
                    assert(s[0] == y);
                }
            }
            assert forall|y| s.to_set().insert(x).contains(y) implies r.to_set().contains(y) by {
                if y == x {
                    assert(it.to_set().contains(x));
                    let m = choose|m: int| 0 <= m < it.len() && it[m] == x;
                    assert(r[m + 1] == x);
                } else {
                    let k = choose|k: int| 0 <= k < s.len() && s[k] == y;
                    if k == 0 {
                        assert(r[0] == y);
                    } else {
                        assert(t[k - 1] == y);
                        assert(it.to_set().contains(y));
                        let m = choose|m: int| 0 <= m < it.len() && it[m] == y;
                        assert(r[m + 1] == y);
                    }
                }
            }
        }
    }
}

/// Sorting with duplicates removed gives a strictly decreasing list of the same texts.
pub proof fn lemma_sort_desc_dedup(list: Seq<Seq<char>>)
    ensures
        strictly_desc(sort_desc_dedup(list)),
        sort_desc_dedup(list).to_set() == list.to_set(),
    decreases list.len(),
{
    if list.len() == 0 {
        assert(list.to_set() =~= Set::empty());
        assert(Seq::<Seq<char>>::empty().to_set() =~= Set::empty());
    } else {
        lemma_sort_desc_dedup(list.drop_last());
        lemma_insert_desc(sort_desc_dedup(list.drop_last()), list.last());
        assert(list.to_set() =~= list.drop_last().to_set().insert(list.last())) by {
            assert(list == list.drop_last().push(list.last()));
            list.drop_last().lemma_push_to_set_commute(list.last());
        }
    }
}

// ---------------------------------------------------------------------------
// Decimal and hexadecimal formatting
// ---------------------------------------------------------------------------
pub open spec fn digit_char(d: nat) -> char {
    if d == 0 { '0' }
    else if d == 1 { '1' }
    else if d == 2 { '2' }
    else if d == 3 { '3' }
    else if d == 4 { '4' }
    else if d == 5 { '5' }
    else if d == 6 { '6' }
    else if d == 7 { '7' }
    else if d == 8 { '8' }
    else if d == 9 { '9' }
    else if d == 10 { 'a' }
    else if d == 11 { 'b' }
    else if d == 12 { 'c' }
    else if d == 13 { 'd' }
    else if d == 14 { 'e' }
    else { 'f' }
}

/// Digits of `n` in base `b` without leading zeros (`"0"` for zero), as `{}` and `{:x}` print them.
pub open spec fn radix_text(n: nat, b: nat) -> Seq<char>
    decreases n,
{
    if b < 2 || n < b {
        seq![digit_char(n)]
    } else {
        proof {
            assert(n / b < n) by (nonlinear_arith)
                requires
                    n >= b,
                    b >= 2,
            ;
        }
        radix_text(n / b, b).push(digit_char(n % b))
    }
}

/// `format!("{n}")`.
pub open spec fn decimal_text(n: nat) -> Seq<char> {
    radix_text(n, 10)
}

/// `format!("{n:0w$x}")`: lower-case hexadecimal, zero padded on the left to `w` digits.
pub open spec fn hex_text(n: nat, w: nat) -> Seq<char> {
    let t = radix_text(n, 16);
    if t.len() >= w {
        t
    } else {
        Seq::new((w - t.len()) as nat, |i: int| '0') + t
    }
}

fn digit_char_exec(d: u64) -> (c: char)
    requires
        d < 16,
    ensures
        c == digit_char(d as nat),
{
    if d == 0 { '0' }
    else if d == 1 { '1' }
    else if d == 2 { '2' }
    else if d == 3 { '3' }
    else if d == 4 { '4' }
    else if d == 5 { '5' }
    else if d == 6 { '6' }
    else if d == 7 { '7' }
    else if d == 8 { '8' }
    else if d == 9 { '9' }
    else if d == 10 { 'a' }
    else if d == 11 { 'b' }
    else if d == 12 { 'c' }
    else if d == 13 { 'd' }
    else if d == 14 { 'e' }
    else { 'f' }
}

/// Digits of `n` in base `b`.
pub fn radix_chars(n: u64, b: u64) -> (res: Vec<char>)
    requires
        2 <= b <= 16,
    ensures
        res@ == radix_text(n as nat, b as nat),
    decreases n,
{
    if n < b {
        let mut v: Vec<char> = Vec::new();
        v.push(digit_char_exec(n));
        v
    } else {
        assert(n / b < n) by (nonlinear_arith)
            requires
                n >= b,
                b >= 2,
        ;
        let mut v = radix_chars(n / b, b);
        v.push(digit_char_exec(n % b));
        v
    }
}

/// `format!("{n}")`.
pub fn decimal_chars(n: u64) -> (res: Vec<char>)
    ensures
        res@ == decimal_text(n as nat),
{
    radix_chars(n, 10)
}

/// `format!("{n:0w$x}")`.
pub fn hex_chars(n: u64, w: usize) -> (res: Vec<char>)
    ensures
        res@ == hex_text(n as nat, w as nat),
{
    let t = radix_chars(n, 16);
    if t.len() >= w {
        t
    } else {
        let mut res: Vec<char> = Vec::new();
        let pad = w - t.len();
        let mut i: usize = 0;
        while i < pad
            invariant
                i <= pad,
                res@ == Seq::new(i as nat, |k: int| '0'),
            decreases pad - i,
        {
            res.push('0');
            i = i + 1;
        }
        extend_chars(&mut res, &t);
        res
    }
}

// ---------------------------------------------------------------------------
// UTF-8 byte lengths
// ---------------------------------------------------------------------------
/// Number of UTF-8 bytes that encode `c` (`char::len_utf8`).
pub open spec fn utf8_width(c: char) -> nat {
    let u = c as u32;
    if u < 0x80 {
        1
    } else if u < 0x800 {
        2
    } else if u < 0x10000 {
        3
    } else {
        4
    }
}

/// Number of UTF-8 bytes that encode `s` (`str::len`).
pub open spec fn utf8_len(s: Seq<char>) -> nat
    decreases s.len(),
{
    if s.len() == 0 {
        0
    } else {
        utf8_width(s[0]) + utf8_len(s.drop_first())
    }
}

/// The first `n` bytes of `s` as characters (`&s[..n]`); `None` where `n` is not a character
/// boundary of `s` or lies beyond its end, where the slice expression panics.
pub open spec fn byte_prefix(s: Seq<char>, n: nat) -> Option<Seq<char>>
    decreases s.len(),
{
    if n == 0 {
        Some(seq![])
    } else if s.len() == 0 || utf8_width(s[0]) > n {
        None
    } else {
        match byte_prefix(s.drop_first(), (n - utf8_width(s[0])) as nat) {
            Some(r) => Some(seq![s[0]] + r),
            None => None,
        }
    }
}

pub fn char_width(c: char) -> (w: usize)
    ensures
        w == utf8_width(c),
{
    let u = c as u32;
    if u < 0x80 {
        1
    } else if u < 0x800 {
        2
    } else if u < 0x10000 {
        3
    } else {
        4
    }
}

/// Whether the UTF-8 encoding of `s` is longer than `max` bytes.
pub fn byte_len_exceeds(s: &[char], max: usize) -> (res: bool)
    ensures
        res == (utf8_len(s@) > max),
{
    let mut total: usize = 0;
    let mut i: usize = s.len();
    assert(s@.take(s@.len() as int) == s@);
    // Walk from the end so that the running sum matches the recursive definition.
    while i > 0
        invariant
            i <= s@.len(),
            total <= max,
            utf8_len(s@) == utf8_len(s@.take(i as int)) + total,
        decreases i,
    {
        proof {
            lemma_utf8_len_push(s@.take(i - 1), s@[i - 1]);
            assert(s@.take(i - 1).push(s@[i - 1]) == s@.take(i as int));
        }
        let w = char_width(s[i - 1]);
        if w > max - total {
            proof {
                lemma_utf8_len_nonneg(s@.take(i - 1));
            }
            return true;
        }
        total = total + w;
        i = i - 1;
    }
    false
}

/// A UTF-8 length is never negative.
pub proof fn lemma_utf8_len_nonneg(s: Seq<char>)
    ensures
        utf8_len(s) >= 0,
{
}

/// Appending a character adds its UTF-8 width.
pub proof fn lemma_utf8_len_push(s: Seq<char>, c: char)
    ensures
        utf8_len(s.push(c)) == utf8_len(s) + utf8_width(c),
    decreases s.len(),
{
    if s.len() == 0 {
        assert(s.push(c).drop_first() == s);
    } else {
        assert(s.push(c).drop_first() == s.drop_first().push(c));
        lemma_utf8_len_push(s.drop_first(), c);
    }
}

/// The UTF-8 length of two texts together is the sum of their lengths.
pub proof fn lemma_utf8_len_concat(a: Seq<char>, b: Seq<char>)
    ensures
        utf8_len(a + b) == utf8_len(a) + utf8_len(b),
    decreases a.len(),
{
    if a.len() == 0 {
        assert(a + b == b);
    } else {
        assert((a + b).drop_first() == a.drop_first() + b);
        lemma_utf8_len_concat(a.drop_first(), b);
    }
}

/// ASCII text has one byte per character.
pub open spec fn all_ascii(s: Seq<char>) -> bool {
    forall|i: int| 0 <= i < s.len() ==> (s[i] as u32) < 0x80
}

/// ASCII text is as many bytes long as it has characters.
pub proof fn lemma_ascii_utf8_len(s: Seq<char>)
    requires
        all_ascii(s),
    ensures
        utf8_len(s) == s.len(),
    decreases s.len(),
{
    if s.len() > 0 {
        assert(all_ascii(s.drop_first()));
        lemma_ascii_utf8_len(s.drop_first());
    }
}

/// `&s[..n]`; the caller shows that the slice does not panic.
pub fn byte_prefix_exec(s: &[char], n: usize) -> (res: Vec<char>)
    requires
        byte_prefix(s@, n as nat) is Some,
    ensures
        res@ == byte_prefix(s@, n as nat)->0,
{
    let mut i: usize = 0;
    let mut left: usize = n;
    assert(s@.skip(0) == s@);
    assert(s@.take(0) + byte_prefix(s@, n as nat)->0 == byte_prefix(s@, n as nat)->0);
    while left > 0
        invariant
            i <= s@.len(),
            left <= n,
            byte_prefix(s@.skip(i as int), left as nat) is Some,
            byte_prefix(s@, n as nat)->0 == s@.take(i as int) + byte_prefix(s@.skip(i as int), left as nat)->0,
        decreases left,
    {
        let w = char_width(s[i]);
        proof {
            let t = s@.skip(i as int);
            assert(t.drop_first() == s@.skip(i + 1));
            assert(s@.take(i + 1) == s@.take(i as int) + seq![t[0]]);
        }
        left = left - w;
        i = i + 1;
    }
    slice_chars(s, 0, i)
}


/// `&s[..n]` where that is a character boundary, else `None`.
pub fn byte_prefix_checked(s: &[char], n: usize) -> (res: Option<Vec<char>>)
    ensures
        match byte_prefix(s@, n as nat) {
            Some(p) => res is Some && res->0@ == p,
            None => res is None,
        },
{
    let mut i: usize = 0;
    let mut left: usize = n;
    assert(s@.skip(0) == s@);
    while left > 0
        invariant
            i <= s@.len(),
            left <= n,
            byte_prefix(s@, n as nat) == match byte_prefix(s@.skip(i as int), left as nat) {
                Some(r) => Some(s@.take(i as int) + r),
                None => None::<Seq<char>>,
            },
        decreases left,
    {
        let ghost t = s@.skip(i as int);
        if i >= s.len() {
            assert(t.len() == 0);
            return None;
        }
        let w = char_width(s[i]);
        if w > left {
            return None;
        }
        proof {
            assert(t.drop_first() == s@.skip(i + 1));
            assert(s@.take(i + 1) == s@.take(i as int) + seq![t[0]]);
            match byte_prefix(s@.skip(i + 1), (left - w) as nat) {
                Some(r) => {
                    assert(s@.take(i as int) + (seq![t[0]] + r) == s@.take(i + 1) + r);
                },
                None => {},
            }
        }
        left = left - w;
        i = i + 1;
    }
    Some(slice_chars(s, 0, i))
}

/// A prefix of `n` bytes is `n` bytes long.
pub proof fn lemma_byte_prefix_len(s: Seq<char>, n: nat)
    requires
        byte_prefix(s, n) is Some,
    ensures
        utf8_len(byte_prefix(s, n)->0) == n,
    decreases s.len(),
{
    if n > 0 {
        lemma_byte_prefix_len(s.drop_first(), (n - utf8_width(s[0])) as nat);
        let r = byte_prefix(s.drop_first(), (n - utf8_width(s[0])) as nat)->0;
        assert((seq![s[0]] + r).drop_first() == r);
    }
}

/// `str::split(p)`: for a non-empty pattern the pieces between its leftmost matches; for the
/// empty pattern an empty piece, each character, and an empty piece.
pub open spec fn split_str(s: Seq<char>, p: Seq<char>) -> Seq<Seq<char>> {
    if p.len() == 0 {
        seq![Seq::<char>::empty()] + Seq::new(s.len(), |i: int| seq![s[i]]) + seq![Seq::<char>::empty()]
    } else {
        split_str_acc(s, p, seq![])
    }
}

pub open spec fn split_str_acc(s: Seq<char>, p: Seq<char>, cur: Seq<char>) -> Seq<Seq<char>>
    recommends
        p.len() > 0,
    decreases s.len(),
{
    if s.len() == 0 {
        seq![cur]
    } else if p.len() > 0 && starts_with(s, p) {
        seq![cur] + split_str_acc(s.skip(p.len() as int), p, seq![])
    } else {
        split_str_acc(s.drop_first(), p, cur.push(s[0]))
    }
}

pub fn split_str_exec(s: &[char], p: &[char]) -> (res: Vec<Vec<char>>)
    ensures
        res@.map_values(|v: Vec<char>| v@) == split_str(s@, p@),
{
    let mut pieces: Vec<Vec<char>> = Vec::new();
    if p.len() == 0 {
        pieces.push(Vec::new());
        let mut k: usize = 0;
        while k < s.len()
            invariant
                k <= s@.len(),
                p@.len() == 0,
                pieces@.map_values(|v: Vec<char>| v@) == seq![Seq::<char>::empty()] + Seq::new(k as nat, |i: int| seq![s@[i]]),
            decreases s@.len() - k,
        {
            let ghost before = pieces@.map_values(|v: Vec<char>| v@);
            let mut one: Vec<char> = Vec::new();
            one.push(s[k]);
            assert(one@ =~= seq![s@[k as int]]);
            let ghost ov = one@;
            pieces.push(one);
            assert(pieces@.map_values(|v: Vec<char>| v@) =~= before.push(ov));
            assert(pieces@.map_values(|v: Vec<char>| v@) =~= seq![Seq::<char>::empty()] + Seq::new((k + 1) as nat, |i: int| seq![s@[i]]));
            k = k + 1;
        }
        let ghost before = pieces@.map_values(|v: Vec<char>| v@);
        pieces.push(Vec::new());
        assert(pieces@.map_values(|v: Vec<char>| v@) =~= before.push(Seq::<char>::empty()));
        return pieces;
    }
    let mut cur: Vec<char> = Vec::new();
    let mut i: usize = 0;
    assert(s@.skip(0) == s@);
    assert(pieces@.map_values(|v: Vec<char>| v@) + split_str_acc(s@, p@, cur@) =~= split_str_acc(s@, p@, cur@));
    while i < s.len()
        invariant
            i <= s@.len(),
            p@.len() > 0,
            pieces@.map_values(|v: Vec<char>| v@) + split_str_acc(s@.skip(i as int), p@, cur@) == split_str(s@, p@),
        decreases s@.len() - i,
    {
        let ghost rest = s@.skip(i as int);
        let ghost views = pieces@.map_values(|v: Vec<char>| v@);
        let tail = slice_chars(s, i, s.len());
        if has_prefix(&tail, p) {
            assert(rest.skip(p@.len() as int) == s@.skip(i + p@.len()));
            let piece = cur;
            let ghost pv = piece@;
            pieces.push(piece);
            assert(pieces@.map_values(|v: Vec<char>| v@) =~= views.push(pv));
            assert(views.push(pv) + split_str_acc(rest.skip(p@.len() as int), p@, seq![]) =~= views + (seq![pv]
                + split_str_acc(rest.skip(p@.len() as int), p@, seq![])));
            cur = Vec::new();
            assert(cur@ =~= Seq::<char>::empty());
            i = i + p.len();
        } else {
            assert(rest.drop_first() == s@.skip(i + 1));
            cur.push(s[i]);
            i = i + 1;
        }
    }
    let ghost views = pieces@.map_values(|v: Vec<char>| v@);
    assert(s@.skip(i as int) =~= Seq::<char>::empty());
    let ghost cv = cur@;
    pieces.push(cur);
    assert(pieces@.map_values(|v: Vec<char>| v@) =~= views + seq![cv]);
    pieces
}

} // verus!
