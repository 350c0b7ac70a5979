//! Checks on session names, and which zoxide directory a session was started in.
use vstd::prelude::*;

use crate::seshmin::zoxide::{directory_views, DirectoryView, ZoxideDirectory, MAX_SESSION_NAME_LEN};
use crate::text::{
    byte_len_exceeds, char_is_digit, chars_of, contains_char, decimal_chars, decimal_text, has_prefix,
    is_digit, slice_chars, strip_prefix, string_of, utf8_len,
};

verus! {

/// The complaint about a session name, if there is one: it is empty, it holds a `/`, or it
/// is longer than the socket-safe limit in bytes.
pub open spec fn session_name_problem(name: Seq<char>) -> Option<Seq<char>> {
    if name.len() == 0 {
        Some("Session name cannot be empty."@)
    } else if name.contains('/') {
        Some("Session name cannot contain '/'."@)
    } else if utf8_len(name) > MAX_SESSION_NAME_LEN {
        Some("Session name must be at most "@ + decimal_text(MAX_SESSION_NAME_LEN as nat) + " bytes."@)
    } else {
        None
    }
}

/// Checks a session name before a session is created with it.
pub fn validate_session_name(session_name: &str) -> (res: Result<(), String>)
    ensures
        match res {
            Ok(()) => session_name_problem(session_name@) is None,
            Err(message) => session_name_problem(session_name@) == Some(message@),
        },
{
    let name = chars_of(session_name);
    if name.len() == 0 {
        return Err(String::from_str("Session name cannot be empty."));
    }
    if contains_char(&name, '/') {
        return Err(String::from_str("Session name cannot contain '/'."));
    }
    if byte_len_exceeds(&name, MAX_SESSION_NAME_LEN) {
        let mut text = chars_of("Session name must be at most ");
        let digits = decimal_chars(MAX_SESSION_NAME_LEN as u64);
        let tail = chars_of(" bytes.");
        crate::text::extend_chars(&mut text, &digits);
        crate::text::extend_chars(&mut text, &tail);
        return Err(string_of(&text));
    }
    Ok(())
}

/// All characters are ASCII digits.
pub open spec fn all_digits(s: Seq<char>) -> bool {
    forall|i: int| 0 <= i < s.len() ==> is_digit(#[trigger] s[i])
}

/// Whether the session `name` was started in the directory whose session is `base`: it is
/// `base` itself, or `base`, the separator and a counter of one or more digits.
pub open spec fn names_directory(name: Seq<char>, base: Seq<char>, separator: Seq<char>) -> bool {
    name == base || match strip_prefix(name, base) {
        Some(rest) => match strip_prefix(rest, separator) {
            Some(counter) => counter.len() > 0 && all_digits(counter),
            None => false,
        },
        None => false,
    }
}

/// The first directory, from `from` on, whose session the session `name` belongs to.
pub open spec fn matching_from(name: Seq<char>, dirs: Seq<DirectoryView>, separator: Seq<char>, from: int) -> Option<nat>
    decreases dirs.len() - from,
{
    if from < 0 || from >= dirs.len() {
        None
    } else if names_directory(name, dirs[from].session_name, separator) {
        Some(from as nat)
    } else {
        matching_from(name, dirs, separator, from + 1)
    }
}

/// A match found from `from` on lies between `from` and the end of the list.
pub proof fn lemma_matching_from_bound(name: Seq<char>, dirs: Seq<DirectoryView>, separator: Seq<char>, from: int)
    ensures
        matching_from(name, dirs, separator, from) matches Some(i) ==> from <= i < dirs.len(),
    decreases dirs.len() - from,
{
    if 0 <= from < dirs.len() && !names_directory(name, dirs[from].session_name, separator) {
        lemma_matching_from_bound(name, dirs, separator, from + 1);
    }
}

fn digits_only(s: &[char]) -> (res: bool)
    ensures
        res == all_digits(s@),
{
    let mut i: usize = 0;
    while i < s.len()
        invariant
            i <= s@.len(),
            forall|j: int| 0 <= j < i ==> is_digit(#[trigger] s@[j]),
        decreases s@.len() - i,
    {
        if !char_is_digit(s[i]) {
            return false;
        }
        i = i + 1;
    }
    true
}

fn names_directory_exec(name: &[char], base: &[char], separator: &[char]) -> (res: bool)
    ensures
        res == names_directory(name@, base@, separator@),
{
    if crate::text::chars_eq(name, base) {
        return true;
    }
    if !has_prefix(name, base) {
        return false;
    }
    let rest = slice_chars(name, base.len(), name.len());
    assert(rest@ == name@.skip(base@.len() as int));
    if !has_prefix(&rest, separator) {
        return false;
    }
    let counter = slice_chars(&rest, separator.len(), rest.len());
    assert(counter@ == rest@.skip(separator@.len() as int));
    counter.len() > 0 && digits_only(&counter)
}

/// The index of the zoxide directory that the session `session_name` was started in: the
/// first whose session it is, or whose session it continues with a numeric counter.
pub fn matching_directory(session_name: &str, directories: &Vec<ZoxideDirectory>, separator: &str) -> (res: Option<usize>)
    ensures
        match res {
            Some(k) => k < directories@.len() && matching_from(session_name@, directory_views(directories@), separator@, 0)
                == Some(k as nat),
            None => matching_from(session_name@, directory_views(directories@), separator@, 0) is None,
        },
{
    proof {
        lemma_matching_from_bound(session_name@, directory_views(directories@), separator@, 0);
    }
    let ghost dirs = directory_views(directories@);
    let name = chars_of(session_name);
    let sep = chars_of(separator);
    let mut i: usize = 0;
    while i < directories.len()
        invariant
            i <= directories@.len(),
            dirs == directory_views(directories@),
            name@ == session_name@,
            sep@ == separator@,
            matching_from(session_name@, dirs, separator@, 0) == matching_from(session_name@, dirs, separator@, i as int),
        decreases directories@.len() - i,
    {
        let base = chars_of(directories[i].session_name.as_str());
        assert(dirs[i as int].session_name == base@);
        if names_directory_exec(&name, &base, &sep) {
            return Some(i);
        }
        i = i + 1;
    }
    None
}

} // verus!
