//! The watch session: the single owner of "which directory is being watched
//! right now".  It enforces that at most one OS watch handle is held at any
//! instant, that starting a new watch first fully tears down the old one, and
//! that nothing produced by a torn-down watch can still be forwarded.
//!
//! The session itself is pure state-transition logic.  The I/O layer drives
//! it in three moves per `start` request, strictly ordered:
//!
//! 1. [`WatchSession::begin_start`] — validate first (so a failed request
//!    never destroys a working watch), then tear the old watch down and open
//!    a fresh epoch for the one about to be set up;
//! 2. the caller attempts the OS-level setup while the session is inactive;
//! 3. [`WatchSession::commit_start`] on success, or
//!    [`WatchSession::abort_start`] on an OS refusal, which leaves the
//!    session cleanly inactive rather than half-initialized.
//!
//! Every watch instance gets a fresh, strictly increasing epoch number; a
//! debounced batch is stamped with the epoch of the watch that produced it,
//! and [`WatchSession::should_forward`] accepts a batch only if its epoch is
//! the currently active one.  An epoch, once retired, is never active again,
//! which is what makes "no stale event after stop" provable.

use vstd::prelude::*;

verus! {

/// An error reported by a `start` request.
#[derive(Debug)]
pub enum WatchError {
    /// The requested path does not exist or is not a directory: a caller
    /// mistake, surfaced before any teardown happens.
    Validation(String),
    /// The OS refused to establish monitoring for an existing directory.
    Setup(String),
}

impl WatchError {
    /// The descriptive message carried across the session boundary.
    pub fn message(self) -> (r: String)
        ensures
            self matches WatchError::Validation(m) ==> r@ == m@,
            self matches WatchError::Setup(m) ==> r@ == m@,
    {
        match self {
            WatchError::Validation(m) => m,
            WatchError::Setup(m) => m,
        }
    }
}

/// The mathematical state of a session: the watched path (if any), the epoch
/// of the newest watch instance ever opened, and whether a `start` request is
/// between its teardown and its commit.
pub struct SessionView {
    pub watched: Option<Seq<char>>,
    pub epoch: nat,
    pub starting: bool,
}

/// A session is well formed when no watch is active while a new one is still
/// being set up: between teardown and commit the old handle is already gone
/// and the new one is not yet recorded.
pub open spec fn session_wf(v: SessionView) -> bool {
    v.starting ==> v.watched is None
}

/// The state of a freshly created session: inactive, epoch zero.
pub open spec fn init_session() -> SessionView {
    SessionView { watched: None, epoch: 0, starting: false }
}

/// `stop`: tear everything down; the epoch is kept, so the stopped watch's
/// epoch is never handed out again.
pub open spec fn stop_model(v: SessionView) -> SessionView {
    SessionView { watched: None, epoch: v.epoch, starting: false }
}

/// A validated `start`, after teardown of the previous watch and before the
/// OS setup: inactive, with a fresh epoch reserved for the new watch.
pub open spec fn begin_model(v: SessionView) -> SessionView {
    SessionView { watched: None, epoch: v.epoch + 1, starting: true }
}

/// A `start` whose OS setup succeeded: the new path becomes the watched one,
/// under the epoch reserved at `begin`.
pub open spec fn commit_model(v: SessionView, path: Seq<char>) -> SessionView {
    SessionView { watched: Some(path), epoch: v.epoch, starting: false }
}

/// A `start` whose OS setup failed: the session reverts to "no active
/// watch"; the reserved epoch is abandoned, never activated.
pub open spec fn abort_model(v: SessionView) -> SessionView {
    SessionView { watched: None, epoch: v.epoch, starting: false }
}

/// A debounced batch stamped with epoch `e` may reach the UI boundary only
/// while the watch that produced it is the active one.
pub open spec fn should_forward_model(v: SessionView, e: nat) -> bool {
    v.watched is Some && !v.starting && e == v.epoch
}

/// The watch session.  All mutation of the watched path goes through the
/// methods below; callers serialize them (one writer at a time), so each
/// transition sees and produces a consistent state.
pub struct WatchSession {
    watched: Option<String>,
    epoch: u64,
    starting: bool,
}

impl View for WatchSession {
    type V = SessionView;

    closed spec fn view(&self) -> SessionView {
        SessionView {
            watched: match self.watched {
                Some(p) => Some(p@),
                None => None,
            },
            epoch: self.epoch as nat,
            starting: self.starting,
        }
    }
}

impl WatchSession {
    /// A fresh session: no watch active, nothing pending.
    pub fn new() -> (s: Self)
        ensures
            s@ == init_session(),
    {
        WatchSession { watched: None, epoch: 0, starting: false }
    }

    /// Stops the current watch, if any.  Always succeeds; calling it with no
    /// watch active is a no-op.
    pub fn stop(&mut self)
        ensures
            final(self)@ == stop_model(old(self)@),
            old(self)@ == stop_model(old(self)@) ==> final(self)@ == old(self)@,
    {
        self.watched = None;
        self.starting = false;
    }

    /// First half of a `start` request.  Validation comes first: on a path
    /// that does not exist or is not a directory the request fails with a
    /// `Validation` error and the session — including any active watch — is
    /// left exactly as it was.  On a valid path the current watch is torn
    /// down and a fresh epoch is reserved for the watch about to be set up;
    /// the caller must follow up with `commit_start` or `abort_start`.
    ///
    /// `is_existing_dir` is the I/O layer's answer to "does `path` name an
    /// existing directory?", obtained just before the call.
    pub fn begin_start(&mut self, path: &String, is_existing_dir: bool) -> (r: Result<(), WatchError>)
        requires
            session_wf(old(self)@),
            old(self)@.epoch < u64::MAX,
        ensures
            session_wf(final(self)@),
            is_existing_dir ==> r is Ok && final(self)@ == begin_model(old(self)@),
            !is_existing_dir ==> {
                &&& final(self)@ == old(self)@
                &&& r matches Err(WatchError::Validation(m))
                    && m@ == "Path is not an existing directory: "@ + path@
            },
    {
        if !is_existing_dir {
            let mut m = String::from_str("Path is not an existing directory: ");
            m.append(path.as_str());
            return Err(WatchError::Validation(m));
        }
        self.watched = None;
        self.epoch = self.epoch + 1;
        self.starting = true;
        Ok(())
    }

    /// Second half of a successful `start`: the OS watch for `path` is up and
    /// bound to the reserved epoch, so record `path` as the watched one.
    pub fn commit_start(&mut self, path: String)
        requires
            session_wf(old(self)@),
            old(self)@.starting,
        ensures
            session_wf(final(self)@),
            final(self)@ == commit_model(old(self)@, path@),
    {
        self.watched = Some(path);
        self.starting = false;
    }

    /// Second half of a failed `start`: the OS refused to establish the
    /// watch, so the session reverts to "no active watch" — never left
    /// half-initialized.
    pub fn abort_start(&mut self)
        requires
            session_wf(old(self)@),
            old(self)@.starting,
        ensures
            session_wf(final(self)@),
            final(self)@ == abort_model(old(self)@),
    {
        self.watched = None;
        self.starting = false;
    }

    /// Whether a watch is currently active.
    pub fn is_active(&self) -> (r: bool)
        ensures
            r == (self@.watched is Some),
    {
        self.watched.is_some()
    }

    /// The currently watched path, if any.
    pub fn watched_path(&self) -> (r: Option<String>)
        ensures
            r is Some <==> self@.watched is Some,
            r matches Some(p) ==> self@.watched matches Some(w) && p@ == w,
    {
        match &self.watched {
            Some(p) => Some(p.clone()),
            None => None,
        }
    }

    /// The epoch stamped on everything the current (or next) watch produces.
    pub fn current_epoch(&self) -> (r: u64)
        ensures
            r as nat == self@.epoch,
    {
        self.epoch
    }

    /// The forwarder's filter: accept a debounced batch only if it carries
    /// the epoch of the currently active watch.
    pub fn should_forward(&self, event_epoch: u64) -> (r: bool)
        ensures
            r == should_forward_model(self@, event_epoch as nat),
    {
        self.watched.is_some() && !self.starting && event_epoch == self.epoch
    }
}

/// One `start` or `stop` request, as the command surface sees it: a `start`
/// carries the requested path, whether that path named an existing directory
/// at the time, and whether the OS setup (attempted only after validation
/// and teardown) succeeded.
pub enum SessionOp {
    Start { path: Seq<char>, is_existing_dir: bool, setup_ok: bool },
    Stop,
}

/// The effect of one request on the session state.  A `start` factors
/// through `begin_model` — a state holding no handle — before the new watch
/// is committed, so even inside a replacing `start` there is no instant with
/// two handles.
pub open spec fn session_step(v: SessionView, op: SessionOp) -> SessionView {
    match op {
        SessionOp::Stop => stop_model(v),
        SessionOp::Start { path, is_existing_dir, setup_ok } => {
            if !is_existing_dir {
                v
            } else if setup_ok {
                commit_model(begin_model(v), path)
            } else {
                abort_model(begin_model(v))
            }
        },
    }
}

/// The state after a whole sequence of requests.
pub open spec fn session_run(v: SessionView, ops: Seq<SessionOp>) -> SessionView
    decreases ops.len(),
{
    if ops.len() == 0 {
        v
    } else {
        session_run(session_step(v, ops[0]), ops.drop_first())
    }
}

/// How many OS watch handles a state holds: one per active watch, and the
/// session has room for at most one active watch.
pub open spec fn handles_held(v: SessionView) -> nat {
    if v.watched is Some {
        1
    } else {
        0
    }
}

/// The path a sequence of requests leaves active, starting from `cur`: the
/// argument of the most recent `start` that validated and set up
/// successfully, `None` if a `stop` or a setup-failed `start` came after it,
/// and unchanged by a `start` that failed validation (which, by the
/// validate-first policy, leaves the previous watch undisturbed).
pub open spec fn expected_watched(cur: Option<Seq<char>>, ops: Seq<SessionOp>) -> Option<Seq<char>>
    decreases ops.len(),
{
    if ops.len() == 0 {
        cur
    } else {
        let next = match ops[0] {
            SessionOp::Stop => None,
            SessionOp::Start { path, is_existing_dir, setup_ok } => {
                if !is_existing_dir {
                    cur
                } else if setup_ok {
                    Some(path)
                } else {
                    None
                }
            },
        };
        expected_watched(next, ops.drop_first())
    }
}

/// For every sequence of `start` and `stop` requests, in any order: each
/// reached state holds at most one OS watch handle, and the path left active
/// is the most recent successfully started one — or none, if a `stop` or a
/// setup-failed `start` came last among the effective requests.
pub proof fn lemma_session_trace(v: SessionView, ops: Seq<SessionOp>)
    requires
        session_wf(v),
        !v.starting,
    ensures
        session_wf(session_run(v, ops)),
        !session_run(v, ops).starting,
        handles_held(session_run(v, ops)) <= 1,
        session_run(v, ops).watched == expected_watched(v.watched, ops),
    decreases ops.len(),
{
    if ops.len() > 0 {
        lemma_session_trace(session_step(v, ops[0]), ops.drop_first());
    }
}

/// Epoch `e` is retired in state `v`: either a newer watch has been begun
/// since, or `e` is the newest epoch but its watch has been torn down (and no
/// commit for it is pending).  A retired epoch can never be the active one
/// again.
pub open spec fn retired(v: SessionView, e: nat) -> bool {
    e < v.epoch || (e == v.epoch && v.watched is None && !v.starting)
}

/// Immediately after `stop` returns, the epoch of the watch it tore down is
/// retired.
pub proof fn lemma_stop_retires(v: SessionView)
    ensures
        retired(stop_model(v), v.epoch),
{
}

/// No stale delivery: once an epoch is retired — as it is the moment `stop`
/// returns, or the moment a replacing `start` tears the old watch down — no
/// sequence of further requests ever reaches a state that would forward a
/// batch stamped with it.  Buffered leftovers of a stopped watch are thereby
/// dropped at the forwarding filter, not delivered late.
pub proof fn lemma_no_stale_forwarding(v: SessionView, ops: Seq<SessionOp>, e: nat)
    requires
        retired(v, e),
    ensures
        retired(session_run(v, ops), e),
        !should_forward_model(session_run(v, ops), e),
    decreases ops.len(),
{
    if ops.len() > 0 {
        lemma_no_stale_forwarding(session_step(v, ops[0]), ops.drop_first(), e);
    }
}

} // verus!
