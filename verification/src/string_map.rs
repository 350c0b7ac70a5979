//! Lookups in the string maps that Zellij hands a plugin: its KDL configuration and the
//! context of a command it ran.
use std::collections::BTreeMap;

use vstd::prelude::*;

verus! {

/// Looks `key` up in a string map (`BTreeMap::get`).  Claimed: the result is the
/// value stored under a key equal to `key`, and `None` exactly when no such key is stored
/// (`String` orders and compares by its characters, so `get` with a `&str` finds the equal key).
#[verifier::external_body]
pub(crate) fn lookup(map: &BTreeMap<String, String>, key: &str) -> (res: Option<String>)
    ensures
        match res {
            Some(v) => map.deep_view().contains_key(key@) && map.deep_view()[key@]
                == v@,
            None => !map.deep_view().contains_key(key@),
        },
{
    map.get(key).cloned()
}

} // verus!
