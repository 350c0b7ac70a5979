//! ANSI styling and the visible width of styled text.
use vstd::prelude::*;

use crate::text::{chars_of, extend_chars, string_of};

verus! {

pub const RESET: &'static str = "\x1b[0m";
pub const BOLD: &'static str = "\x1b[1m";
pub const DIM: &'static str = "\x1b[2m";
pub const RED: &'static str = "\x1b[31m";
pub const GREEN: &'static str = "\x1b[32m";
pub const YELLOW: &'static str = "\x1b[33m";
pub const BLUE: &'static str = "\x1b[34m";
pub const MAGENTA: &'static str = "\x1b[35m";
pub const CYAN: &'static str = "\x1b[36m";
pub const WHITE: &'static str = "\x1b[37m";

/// The escape character that starts a control sequence.
pub open spec fn esc() -> char {
    '\x1b'
}

/// A character that ends a control sequence (`@` to `~`).
pub open spec fn is_final(c: char) -> bool {
    '@' <= c && c <= '~'
}

/// The number of columns that `s` takes on a terminal, scanning from the given state:
/// `ESC [` opens a control sequence that runs to its final character and takes no column;
/// every other character takes one.
pub open spec fn visible_count(s: Seq<char>, in_seq: bool) -> nat
    decreases s.len(),
{
    if s.len() == 0 {
        0
    } else if in_seq {
        visible_count(s.drop_first(), !is_final(s[0]))
    } else if s[0] == esc() && s.len() > 1 && s[1] == '[' {
        visible_count(s.skip(2), true)
    } else {
        1 + visible_count(s.drop_first(), false)
    }
}

/// Whether a scan of `s` from the given state ends inside a control sequence.
pub open spec fn ends_in_seq(s: Seq<char>, in_seq: bool) -> bool
    decreases s.len(),
{
    if s.len() == 0 {
        in_seq
    } else if in_seq {
        ends_in_seq(s.drop_first(), !is_final(s[0]))
    } else if s[0] == esc() && s.len() > 1 && s[1] == '[' {
        ends_in_seq(s.skip(2), true)
    } else {
        ends_in_seq(s.drop_first(), false)
    }
}

/// The visible width of `s`.
pub open spec fn visible(s: Seq<char>) -> nat {
    visible_count(s, false)
}

/// `input` styled with `modifier` and an optional colour, then reset.
pub open spec fn styled(input: Seq<char>, modifier: Seq<char>, color: Option<Seq<char>>) -> Seq<char> {
    modifier + match color {
        Some(c) => c,
        None => seq![],
    } + input + RESET@
}

/// `n` copies of `c`.
pub open spec fn repeat_char(c: char, n: nat) -> Seq<char> {
    Seq::new(n, |i: int| c)
}

/// `input` preceded by half the columns that it leaves free in `width`.
pub open spec fn centered(input: Seq<char>, width: nat) -> Seq<char> {
    if visible(input) >= width {
        input
    } else {
        repeat_char(' ', ((width - visible(input)) / 2) as nat) + input
    }
}

/// Appends `n` copies of `c`.
pub fn push_repeat(out: &mut Vec<char>, c: char, n: usize)
    ensures
        final(out)@ == old(out)@ + repeat_char(c, n as nat),
{
    let ghost start = out@;
    let mut i: usize = 0;
    while i < n
        invariant
            i <= n,
            out@ == start + repeat_char(c, i as nat),
        decreases n - i,
    {
        out.push(c);
        i = i + 1;
        assert(out@ =~= start + repeat_char(c, i as nat));
    }
}

/// `input` with `modifier` and `color` in front and [`RESET`] after it.
pub fn style(input: &str, modifier: &str, color: Option<&str>) -> (res: String)
    ensures
        res@ == styled(input@, modifier@, match color {
            Some(c) => Some(c@),
            None => None,
        }),
{
    let mut out = chars_of(modifier);
    match color {
        Some(c) => {
            let cc = chars_of(c);
            extend_chars(&mut out, &cc);
        },
        None => {
            assert(out@ + Seq::<char>::empty() =~= out@);
        },
    }
    let body = chars_of(input);
    extend_chars(&mut out, &body);
    let reset = chars_of(RESET);
    extend_chars(&mut out, &reset);
    string_of(&out)
}

/// The number of terminal columns that `input` takes; control sequences take none.
pub fn visible_width(input: &str) -> (res: usize)
    ensures
        res == visible(input@),
{
    let s = chars_of(input);
    visible_width_chars(&s)
}

proof fn lemma_visible_count_bound(s: Seq<char>, in_seq: bool)
    ensures
        visible_count(s, in_seq) <= s.len(),
    decreases s.len(),
{
    if s.len() > 0 {
        if in_seq {
            lemma_visible_count_bound(s.drop_first(), !is_final(s[0]));
        } else if s[0] == esc() && s.len() > 1 && s[1] == '[' {
            lemma_visible_count_bound(s.skip(2), true);
        } else {
            lemma_visible_count_bound(s.drop_first(), false);
        }
    }
}

/// [`visible_width`] on characters.
pub fn visible_width_chars(s: &[char]) -> (res: usize)
    ensures
        res == visible(s@),
{
    let mut width: usize = 0;
    let mut in_seq = false;
    let mut i: usize = 0;
    assert(s@.skip(0) == s@);
    while i < s.len()
        invariant
            i <= s@.len(),
            width <= i,
            width + visible_count(s@.skip(i as int), in_seq) == visible(s@),
        decreases s@.len() - i,
    {
        let ghost rest = s@.skip(i as int);
        proof {
            lemma_visible_count_bound(rest, in_seq);
        }
        if in_seq {
            in_seq = !('@' <= s[i] && s[i] <= '~');
            assert(rest.drop_first() == s@.skip(i + 1));
            i = i + 1;
        } else if s[i] == '\x1b' && i + 1 < s.len() && s[i + 1] == '[' {
            assert(rest.skip(2) == s@.skip(i + 2));
            in_seq = true;
            i = i + 2;
        } else {
            assert(rest.drop_first() == s@.skip(i + 1));
            width = width + 1;
            i = i + 1;
        }
    }
    assert(s@.skip(i as int) =~= Seq::<char>::empty());
    width
}

/// `input` centred in `width` columns by the spaces put before it.
pub fn centered_styled(input: &str, width: usize) -> (res: String)
    ensures
        res@ == centered(input@, width as nat),
{
    let visible_len = visible_width(input);
    if visible_len >= width {
        return string_of(&chars_of(input));
    }
    let padding = (width - visible_len) / 2;
    let mut out: Vec<char> = Vec::new();
    push_repeat(&mut out, ' ', padding);
    let body = chars_of(input);
    extend_chars(&mut out, &body);
    string_of(&out)
}

// ---------------------------------------------------------------------------
// Widths of joined text
// ---------------------------------------------------------------------------
/// The width of two texts side by side is the sum of their widths, the second scanned from
/// where the first left off, unless the first ends with an escape and the second starts with
/// `[` (an escape sequence across the join).
pub proof fn lemma_visible_concat(a: Seq<char>, b: Seq<char>, in_seq: bool)
    requires
        !(a.len() > 0 && a.last() == esc() && b.len() > 0 && b[0] == '['),
    ensures
        visible_count(a + b, in_seq) == visible_count(a, in_seq) + visible_count(b, ends_in_seq(a, in_seq)),
        ends_in_seq(a + b, in_seq) == ends_in_seq(b, ends_in_seq(a, in_seq)),
    decreases a.len(),
{
    if a.len() == 0 {
        assert(a + b =~= b);
    } else if in_seq {
        assert((a + b).drop_first() =~= a.drop_first() + b);
        lemma_visible_concat(a.drop_first(), b, !is_final(a[0]));
    } else if a[0] == esc() && a.len() > 1 && a[1] == '[' {
        assert((a + b).skip(2) =~= a.skip(2) + b);
        lemma_visible_concat(a.skip(2), b, true);
    } else {
        assert((a + b).drop_first() =~= a.drop_first() + b);
        lemma_visible_concat(a.drop_first(), b, false);
    }
}

/// Text without an escape character is as wide as it is long.
pub proof fn lemma_visible_plain(s: Seq<char>)
    requires
        !s.contains(esc()),
    ensures
        visible_count(s, false) == s.len(),
        !ends_in_seq(s, false),
    decreases s.len(),
{
    if s.len() > 0 {
        assert(s[0] != esc());
        assert(!s.drop_first().contains(esc())) by {
            if s.drop_first().contains(esc()) {
                let k = choose|k: int| 0 <= k < s.drop_first().len() && s.drop_first()[k] == esc();
                assert(s[k + 1] == esc());
            }
        }
        lemma_visible_plain(s.drop_first());
    }
}

/// Repeated characters other than the escape character are as wide as their count.
pub proof fn lemma_visible_repeat(c: char, n: nat)
    requires
        c != esc(),
    ensures
        visible_count(repeat_char(c, n), false) == n,
        !ends_in_seq(repeat_char(c, n), false),
{
    assert(!repeat_char(c, n).contains(esc())) by {
        if repeat_char(c, n).contains(esc()) {
            let k = choose|k: int| 0 <= k < repeat_char(c, n).len() && repeat_char(c, n)[k] == esc();
            assert(repeat_char(c, n)[k] == c);
        }
    }
    lemma_visible_plain(repeat_char(c, n));
}

} // verus!
