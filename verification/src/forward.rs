//! The event forwarder's decision logic: shaping one debounced event into
//! the structured notification the UI boundary receives, and the filter that
//! drops anything a torn-down watch left behind.
//!
//! The delivery loop itself — blocking on a channel, pushing the message to
//! the UI process — is I/O and lives outside this crate; it calls
//! [`forward_event`] for every batch it drains and sends exactly what it
//! gets back, so everything that decides *whether* and *what* to deliver is
//! verified here.

use vstd::prelude::*;
use crate::events::{DebouncedEvent, kind_label, kind_label_spec};
use crate::session::{WatchSession, should_forward_model};

verus! {

/// The structured notification pushed to the UI boundary: a human-readable
/// tag of the change category and the absolute paths implicated in the
/// batch.
pub struct ChangeNotification {
    pub kind: String,
    pub paths: Vec<String>,
}

/// Shapes one debounced event into its UI notification: the kind becomes its
/// stable tag, the paths are carried over verbatim, in order.
pub fn to_notification(e: &DebouncedEvent) -> (n: ChangeNotification)
    ensures
        n.kind@ == kind_label_spec(e.kind),
        n.paths@.len() == e.paths@.len(),
        forall|i: int| 0 <= i < e.paths@.len() ==> #[trigger] n.paths@[i]@ == e.paths@[i]@,
{
    let kind = String::from_str(kind_label(e.kind));
    let mut paths: Vec<String> = Vec::new();
    let mut i: usize = 0;
    while i < e.paths.len()
        invariant
            i <= e.paths.len(),
            paths@.len() == i,
            forall|k: int| 0 <= k < i ==> #[trigger] paths@[k]@ == e.paths@[k]@,
        decreases e.paths.len() - i,
    {
        paths.push(e.paths[i].clone());
        i += 1;
    }
    ChangeNotification { kind, paths }
}

/// The forwarder's step for one drained batch: deliver it as a structured
/// notification exactly when the watch that produced it (identified by the
/// epoch stamped on the batch) is still the active one; a batch from a
/// torn-down watch yields nothing.
pub fn forward_event(session: &WatchSession, event_epoch: u64, e: &DebouncedEvent) -> (r: Option<
    ChangeNotification,
>)
    ensures
        r is Some <==> should_forward_model(session@, event_epoch as nat),
        r matches Some(n) ==> {
            &&& n.kind@ == kind_label_spec(e.kind)
            &&& n.paths@.len() == e.paths@.len()
            &&& forall|i: int| 0 <= i < e.paths@.len() ==> #[trigger] n.paths@[i]@ == e.paths@[i]@
        },
{
    if session.should_forward(event_epoch) {
        Some(to_notification(e))
    } else {
        None
    }
}

} // verus!
