//! seshmin configuration, from the Zellij KDL map.
use std::collections::BTreeMap;

use vstd::prelude::*;

use crate::string_map::lookup;
use crate::text::{chars_of, split_char, split_char_exec, string_of, trim, trim_exec, trimmed_nonblank};
use crate::treemin::config::{is_true_text, opt_view, trim_to_option, trim_to_option_spec};

verus! {

/// The seshmin plugin configuration.
#[derive(Debug, Clone, PartialEq, Eq)]
pub struct Config {
    pub default_layout: Option<String>,
    pub session_separator: String,
    pub show_resurrectable_sessions: bool,
    pub base_paths: Vec<String>,
    pub search_directories: Vec<String>,
    pub ignored_directories: Vec<String>,
}

pub struct ConfigView {
    pub default_layout: Option<Seq<char>>,
    pub session_separator: Seq<char>,
    pub show_resurrectable_sessions: bool,
    pub base_paths: Seq<Seq<char>>,
    pub search_directories: Seq<Seq<char>>,
    pub ignored_directories: Seq<Seq<char>>,
}

pub open spec fn texts(v: Seq<String>) -> Seq<Seq<char>> {
    v.map_values(|s: String| s@)
}

impl View for Config {
    type V = ConfigView;

    open spec fn view(&self) -> ConfigView {
        ConfigView {
            default_layout: opt_view(self.default_layout),
            session_separator: self.session_separator@,
            show_resurrectable_sessions: self.show_resurrectable_sessions,
            base_paths: texts(self.base_paths@),
            search_directories: texts(self.search_directories@),
            ignored_directories: texts(self.ignored_directories@),
        }
    }
}

/// The list that a KDL value gives: nothing when the key is missing.
pub open spec fn kdl_list(m: Map<Seq<char>, Seq<char>>, key: Seq<char>) -> Seq<Seq<char>> {
    if m.contains_key(key) {
        trimmed_nonblank(split_char(m[key], '|'))
    } else {
        seq![]
    }
}

/// The configuration that the KDL map `m` describes.
pub open spec fn kdl_config(m: Map<Seq<char>, Seq<char>>) -> ConfigView {
    let layout_key = "default_layout"@;
    let separator_key = "session_separator"@;
    let show_key = "show_resurrectable_sessions"@;
    ConfigView {
        default_layout: if m.contains_key(layout_key) { trim_to_option_spec(m[layout_key]) } else { None },
        session_separator: if m.contains_key(separator_key) && trim_to_option_spec(m[separator_key]) is Some {
            trim(m[separator_key])
        } else {
            "."@
        },
        show_resurrectable_sessions: m.contains_key(show_key) && is_true_text(m[show_key]),
        base_paths: kdl_list(m, "base_paths"@),
        search_directories: kdl_list(m, "search_directories"@),
        ignored_directories: kdl_list(m, "ignored_directories"@),
    }
}

/// The items of a `|`-separated list, trimmed, blank ones left out.
pub fn parse_list(value: &str) -> (res: Vec<String>)
    ensures
        texts(res@) == trimmed_nonblank(split_char(value@, '|')),
{
    let pieces = split_char_exec(&chars_of(value), '|');
    let ghost pv = split_char(value@, '|');
    let mut res: Vec<String> = Vec::new();
    let mut i: usize = 0;
    assert(pv.take(0) =~= Seq::<Seq<char>>::empty());
    assert(texts(res@) =~= Seq::<Seq<char>>::empty());
    while i < pieces.len()
        invariant
            i <= pieces@.len() == pv.len(),
            pv == split_char(value@, '|'),
            forall|k: int| 0 <= k < pieces@.len() ==> #[trigger] pieces@[k]@ == pv[k],
            texts(res@) == trimmed_nonblank(pv.take(i as int)),
        decreases pieces@.len() - i,
    {
        assert(pv.take(i + 1).drop_last() == pv.take(i as int));
        assert(pv.take(i + 1).last() == pv[i as int]);
        let t = trim_exec(&pieces[i]);
        if t.len() > 0 {
            let ghost before = res@;
            let s = string_of(&t);
            res.push(s);
            assert(texts(res@) =~= texts(before).push(t@));
        }
        i = i + 1;
    }
    assert(pv.take(pieces@.len() as int) == pv);
    res
}

fn kdl_list_exec(configuration: &BTreeMap<String, String>, key: &str) -> (res: Vec<String>)
    ensures
        texts(res@) == kdl_list(configuration.deep_view(), key@),
{
    match lookup(configuration, key) {
        Some(v) => parse_list(v.as_str()),
        None => {
            let empty: Vec<String> = Vec::new();
            assert(texts(empty@) =~= Seq::<Seq<char>>::empty());
            empty
        },
    }
}

impl Config {
    /// No default layout, `.` between name parts, resurrectable sessions hidden, no base,
    /// search or ignored directories.
    pub fn default() -> (res: Config)
        ensures
            res@.default_layout is None,
            res@.session_separator == "."@,
            !res@.show_resurrectable_sessions,
            res@.base_paths.len() == 0,
            res@.search_directories.len() == 0,
            res@.ignored_directories.len() == 0,
    {
        Config {
            default_layout: None,
            session_separator: String::from_str("."),
            show_resurrectable_sessions: false,
            base_paths: Vec::new(),
            search_directories: Vec::new(),
            ignored_directories: Vec::new(),
        }
    }

    /// Reads the plugin configuration given in the Zellij KDL layout.
    pub fn from_kdl(configuration: BTreeMap<String, String>) -> (res: Config)
        ensures
            res@ == kdl_config(configuration.deep_view()),
    {
        let default_layout = match lookup(&configuration, "default_layout") {
            Some(v) => trim_to_option(v.as_str()),
            None => None,
        };
        let session_separator = match lookup(&configuration, "session_separator") {
            Some(v) => match trim_to_option(v.as_str()) {
                Some(t) => t,
                None => String::from_str("."),
            },
            None => String::from_str("."),
        };
        let show_resurrectable_sessions = match lookup(&configuration, "show_resurrectable_sessions") {
            Some(v) => crate::treemin::config::is_true_value(v.as_str()),
            None => false,
        };
        Config {
            default_layout,
            session_separator,
            show_resurrectable_sessions,
            base_paths: kdl_list_exec(&configuration, "base_paths"),
            search_directories: kdl_list_exec(&configuration, "search_directories"),
            ignored_directories: kdl_list_exec(&configuration, "ignored_directories"),
        }
    }
}

} // verus!
