//! The entries of the zessionz list: live and resurrectable sessions of zoxide directories,
//! and the directories themselves.
use vstd::prelude::*;

verus! {

/// An entry of the list.
#[allow(inconsistent_fields)]
#[derive(Debug, Clone, PartialEq, Eq)]
pub enum SessionItem {
    ExistingSession { name: String, directory: String, is_current: bool },
    ResurrectableSession { name: String, duration_text: String },
    Directory { path: String, session_name: String },
}

#[allow(inconsistent_fields)]
pub enum ItemView {
    ExistingSession { name: Seq<char>, directory: Seq<char>, is_current: bool },
    ResurrectableSession { name: Seq<char>, duration_text: Seq<char> },
    Directory { path: Seq<char>, session_name: Seq<char> },
}

impl View for SessionItem {
    type V = ItemView;

    open spec fn view(&self) -> ItemView {
        match self {
            SessionItem::ExistingSession { name, directory, is_current } => ItemView::ExistingSession {
                name: name@,
                directory: directory@,
                is_current: *is_current,
            },
            SessionItem::ResurrectableSession { name, duration_text } => ItemView::ResurrectableSession {
                name: name@,
                duration_text: duration_text@,
            },
            SessionItem::Directory { path, session_name } => ItemView::Directory {
                path: path@,
                session_name: session_name@,
            },
        }
    }
}

/// The name shown for an entry: the session's name, or the directory's path.
pub open spec fn label_of(i: ItemView) -> Seq<char> {
    match i {
        ItemView::ExistingSession { name, .. } => name,
        ItemView::ResurrectableSession { name, .. } => name,
        ItemView::Directory { path, .. } => path,
    }
}

impl SessionItem {
    /// Whether the entry is a live session.
    pub fn is_existing_session(&self) -> (res: bool)
        ensures
            res == (self@ is ExistingSession),
    {
        match self {
            SessionItem::ExistingSession { .. } => true,
            _ => false,
        }
    }

    pub fn label(&self) -> (res: &str)
        ensures
            res@ == label_of(self@),
    {
        match self {
            SessionItem::ExistingSession { name, .. } => name.as_str(),
            SessionItem::ResurrectableSession { name, .. } => name.as_str(),
            SessionItem::Directory { path, .. } => path.as_str(),
        }
    }
}

} // verus!
