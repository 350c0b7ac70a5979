//! Which branch names zitree accepts before it asks git for a worktree.
use vstd::prelude::*;

use crate::text::{
    char_is_control, chars_of, contains_chars, contains_str, ends_with, has_prefix, has_suffix,
    is_control, occurs_at, starts_with,
};

verus! {

/// A character that git refuses in a branch name (besides control characters).
pub open spec fn is_forbidden_char(c: char) -> bool {
    c == ' ' || c == '~' || c == '^' || c == ':' || c == '?' || c == '*' || c == '[' || c == '\\'
        || is_control(c)
}

/// What is wrong with a branch name, if anything, in the order the checks are made.
pub open spec fn branch_problem(b: Seq<char>) -> Option<Seq<char>> {
    if starts_with(b, seq!['/']) || ends_with(b, seq!['/']) {
        Some("Branch names cannot start or end with `/`."@)
    } else if contains_str(b, seq!['.', '.']) || contains_str(b, seq!['/', '/']) || contains_str(
        b,
        seq!['@', '{'],
    ) || ends_with(b, seq!['.']) || ends_with(b, seq!['.', 'l', 'o', 'c', 'k']) {
        Some("Branch name contains invalid git ref syntax."@)
    } else if exists|i: int| 0 <= i < b.len() && is_forbidden_char(#[trigger] b[i]) {
        Some("Branch name contains unsupported characters."@)
    } else {
        None
    }
}

/// Checks a branch name against git's ref rules, with the reason when it is refused.
pub fn validate_branch_name(branch: &str) -> (res: Result<(), String>)
    ensures
        match branch_problem(branch@) {
            Some(m) => res is Err && res->Err_0@ == m,
            None => res is Ok,
        },
{
    let b = chars_of(branch);
    let slash: [char; 1] = ['/'];
    if has_prefix(&b, &slash) || has_suffix(&b, &slash) {
        assert(slash@ == seq!['/']);
        return Err(String::from_str("Branch names cannot start or end with `/`."));
    }
    assert(slash@ == seq!['/']);
    let dots: [char; 2] = ['.', '.'];
    let slashes: [char; 2] = ['/', '/'];
    let reflog: [char; 2] = ['@', '{'];
    let dot: [char; 1] = ['.'];
    let lock: [char; 5] = ['.', 'l', 'o', 'c', 'k'];
    assert(dots@ == seq!['.', '.'] && slashes@ == seq!['/', '/'] && reflog@ == seq!['@', '{']);
    assert(dot@ == seq!['.'] && lock@ == seq!['.', 'l', 'o', 'c', 'k']);
    if contains_chars(&b, &dots) || contains_chars(&b, &slashes) || contains_chars(&b, &reflog)
        || has_suffix(&b, &dot) || has_suffix(&b, &lock) {
        return Err(String::from_str("Branch name contains invalid git ref syntax."));
    }
    let mut i: usize = 0;
    while i < b.len()
        invariant
            i <= b@.len(),
            b@ == branch@,
            !(starts_with(b@, seq!['/']) || ends_with(b@, seq!['/'])),
            !(contains_str(b@, seq!['.', '.']) || contains_str(b@, seq!['/', '/']) || contains_str(
                b@,
                seq!['@', '{'],
            ) || ends_with(b@, seq!['.']) || ends_with(b@, seq!['.', 'l', 'o', 'c', 'k'])),
            forall|j: int| 0 <= j < i ==> !is_forbidden_char(#[trigger] b@[j]),
        decreases b@.len() - i,
    {
        let c = b[i];
        if c == ' ' || c == '~' || c == '^' || c == ':' || c == '?' || c == '*' || c == '['
            || c == '\\' || char_is_control(c) {
            assert(is_forbidden_char(b@[i as int]));
            return Err(String::from_str("Branch name contains unsupported characters."));
        }
        i = i + 1;
    }
    Ok(())
}

/// Whether a character may be typed into a branch name: anything but a control character.
pub fn is_branch_char(character: char) -> (res: bool)
    ensures
        res == !is_control(character),
{
    !char_is_control(character)
}

proof fn lemma_pair_occurs(b: Seq<char>, x: char, y: char)
    ensures
        contains_str(b, seq![x, y]) <==> exists|i: int| 0 <= i < b.len() - 1 && b[i] == x && #[trigger] b[i + 1] == y,
{
    if contains_str(b, seq![x, y]) {
        let i = choose|i: int| occurs_at(b, seq![x, y], i);
        assert(b.subrange(i, i + 2)[0] == b[i]);
        assert(b.subrange(i, i + 2)[1] == b[i + 1]);
        assert(b[i + 1] == y);
    }
    if exists|i: int| 0 <= i < b.len() - 1 && b[i] == x && #[trigger] b[i + 1] == y {
        let i = choose|i: int| 0 <= i < b.len() - 1 && b[i] == x && #[trigger] b[i + 1] == y;
        assert(b.subrange(i, i + 2) =~= seq![x, y]);
        assert(occurs_at(b, seq![x, y], i));
    }
}

proof fn lemma_ends(b: Seq<char>, p: Seq<char>)
    ensures
        ends_with(b, p) <==> (p.len() <= b.len() && forall|k: int| 0 <= k < p.len() ==> #[trigger] b[b.len() - p.len() + k] == p[k]),
{
    if p.len() <= b.len() {
        if forall|k: int| 0 <= k < p.len() ==> #[trigger] b[b.len() - p.len() + k] == p[k] {
            assert forall|k: int| 0 <= k < p.len() implies b.skip(b.len() - p.len())[k] == p[k] by {
                assert(b.skip(b.len() - p.len())[k] == b[b.len() - p.len() + k]);
            }
            assert(b.skip(b.len() - p.len()) =~= p);
        }
        if ends_with(b, p) {
            assert forall|k: int| 0 <= k < p.len() implies #[trigger] b[b.len() - p.len() + k] == p[k] by {
                assert(b.skip(b.len() - p.len())[k] == b[b.len() - p.len() + k]);
            }
        }
    }
}

proof fn lemma_starts_slash(b: Seq<char>)
    ensures
        starts_with(b, seq!['/']) <==> (b.len() > 0 && b[0] == '/'),
{
    if b.len() > 0 && b[0] == '/' {
        assert(b.take(1) =~= seq!['/']);
    }
    if starts_with(b, seq!['/']) {
        assert(b.take(1)[0] == b[0]);
    }
}

/// The rules git has for a branch name, in terms of its characters: a branch name is
/// accepted exactly when it neither starts nor ends with `/`, does not end with `.` or
/// `.lock`, has no `..`, `//` or `@{`, and holds no space, `~`, `^`, `:`, `?`, `*`, `[`, `\`
/// or control character.  A single `/` between other characters (`feature/login`) is
/// therefore accepted.  A name refused for a leading or trailing `/` gets that reason; one
/// refused for a character only gets the unsupported-characters reason.
pub proof fn lemma_branch_rules(b: Seq<char>)
    ensures
        branch_problem(b) is None <==> {
            &&& b.len() > 0 ==> b[0] != '/' && b[b.len() - 1] != '/' && b[b.len() - 1] != '.'
            &&& forall|i: int| 0 <= i < b.len() - 1 ==> {
                &&& !(b[i] == '.' && #[trigger] b[i + 1] == '.')
                &&& !(b[i] == '/' && b[i + 1] == '/')
                &&& !(b[i] == '@' && b[i + 1] == '{')
            }
            &&& !(b.len() >= 5 && b[b.len() - 5] == '.' && b[b.len() - 4] == 'l' && b[b.len() - 3] == 'o'
                && b[b.len() - 2] == 'c' && b[b.len() - 1] == 'k')
            &&& forall|i: int| 0 <= i < b.len() ==> {
                let c = #[trigger] b[i];
                &&& c != ' ' && c != '~' && c != '^' && c != ':' && c != '?' && c != '*' && c != '['
                    && c != '\\'
                &&& !((c as u32) <= 0x1f || (0x7f <= (c as u32) && (c as u32) <= 0x9f))
            }
        },
        (branch_problem(b) == Some("Branch names cannot start or end with `/`."@)) <==> (b.len() > 0 && (b[0] == '/'
            || b[b.len() - 1] == '/')),
{
    reveal_strlit("Branch names cannot start or end with `/`.");
    reveal_strlit("Branch name contains invalid git ref syntax.");
    reveal_strlit("Branch name contains unsupported characters.");
    assert("Branch names cannot start or end with `/`."@[11] != "Branch name contains invalid git ref syntax."@[11]);
    assert("Branch names cannot start or end with `/`."@[11] != "Branch name contains unsupported characters."@[11]);
    lemma_starts_slash(b);
    lemma_ends(b, seq!['/']);
    lemma_ends(b, seq!['.']);
    lemma_ends(b, seq!['.', 'l', 'o', 'c', 'k']);
    lemma_pair_occurs(b, '.', '.');
    lemma_pair_occurs(b, '/', '/');
    lemma_pair_occurs(b, '@', '{');
    if b.len() > 0 {
        assert(seq!['/'][0] == '/');
        assert(b[b.len() - 1 + 0] == b[b.len() - 1]);
    }
    if b.len() >= 5 {
        assert(b[b.len() - 5 + 0] == b[b.len() - 5]);
        assert(b[b.len() - 5 + 1] == b[b.len() - 4]);
        assert(b[b.len() - 5 + 2] == b[b.len() - 3]);
        assert(b[b.len() - 5 + 3] == b[b.len() - 2]);
        assert(b[b.len() - 5 + 4] == b[b.len() - 1]);
    }
}

} // verus!
