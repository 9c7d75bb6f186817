//! Event shapes shared by the whole watch pipeline: the category of a
//! filesystem change, the raw notification as the OS adapter reports it, and
//! the coalesced event the debouncer emits.
//!
//! Normalization rule (documented, consumers branch on it): when several raw
//! notifications for one path are merged, the latest kind wins, with one
//! exception — a path first seen as `Create` and later modified is still
//! reported as `Create`, since to every consumer the file is simply new.

use vstd::prelude::*;

verus! {

/// The category of one filesystem change.
#[derive(Clone, Copy, PartialEq, Eq, Structural, Debug)]
pub enum EventKind {
    Create,
    Modify,
    Remove,
    Rename,
    Other,
}

/// One raw, OS-reported notification: a kind and the absolute path it
/// touched.  An OS event naming several paths arrives here as one raw
/// notification per path.
pub struct RawChangeEvent {
    pub kind: EventKind,
    pub path: String,
}

/// The coalesced result for one logical change, emitted once the debounce
/// window for its path has closed.
pub struct DebouncedEvent {
    pub kind: EventKind,
    pub paths: Vec<String>,
}

/// The normalization rule for merging the kind of a later raw notification
/// into the kind already pending for the same path.
pub open spec fn merged_kind(first: EventKind, later: EventKind) -> EventKind {
    if first == EventKind::Create && later == EventKind::Modify {
        EventKind::Create
    } else {
        later
    }
}

/// Merges the kind of a later raw notification into the kind already pending
/// for the same path, following the documented normalization rule.
pub fn merge_kind(first: EventKind, later: EventKind) -> (r: EventKind)
    ensures
        r == merged_kind(first, later),
{
    if first == EventKind::Create && later == EventKind::Modify {
        EventKind::Create
    } else {
        later
    }
}

/// The stable, human-readable tag of each change category, as it appears in
/// the `kind` field of a UI notification.
pub open spec fn kind_label_spec(k: EventKind) -> Seq<char> {
    match k {
        EventKind::Create => "create"@,
        EventKind::Modify => "modify"@,
        EventKind::Remove => "remove"@,
        EventKind::Rename => "rename"@,
        EventKind::Other => "other"@,
    }
}

/// Returns the stable tag of a change category.
pub fn kind_label(k: EventKind) -> (r: &'static str)
    ensures
        r@ == kind_label_spec(k),
{
    match k {
        EventKind::Create => "create",
        EventKind::Modify => "modify",
        EventKind::Remove => "remove",
        EventKind::Rename => "rename",
        EventKind::Other => "other",
    }
}

} // verus!
