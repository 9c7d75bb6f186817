use notewatch::session::{WatchError, WatchSession};

fn start(session: &mut WatchSession, path: &str, is_existing_dir: bool, setup_ok: bool) -> Result<(), WatchError> {
    session.begin_start(&path.to_string(), is_existing_dir)?;
    if setup_ok {
        session.commit_start(path.to_string());
        Ok(())
    } else {
        session.abort_start();
        Err(WatchError::Setup("watch setup refused".to_string()))
    }
}

#[test]
fn fresh_session_is_inactive() {
    let session = WatchSession::new();
    assert!(!session.is_active());
    assert!(session.watched_path().is_none());
}

#[test]
fn stop_without_a_watch_is_a_noop() {
    let mut session = WatchSession::new();
    let epoch = session.current_epoch();
    session.stop();
    assert!(!session.is_active());
    assert!(session.watched_path().is_none());
    assert_eq!(session.current_epoch(), epoch);
}

#[test]
fn start_then_stop() {
    let mut session = WatchSession::new();
    assert!(start(&mut session, "notes", true, true).is_ok());
    assert!(session.is_active());
    assert_eq!(session.watched_path().unwrap(), "notes");
    session.stop();
    assert!(!session.is_active());
    assert!(session.watched_path().is_none());
}

#[test]
fn invalid_start_leaves_previous_watch_undisturbed() {
    let mut session = WatchSession::new();
    assert!(start(&mut session, "notes", true, true).is_ok());
    let epoch = session.current_epoch();

    let r = start(&mut session, "missing", false, true);
    match r {
        Err(WatchError::Validation(m)) => {
            assert_eq!(m, "Path is not an existing directory: missing");
        }
        _ => panic!("expected a validation error"),
    }
    assert!(session.is_active());
    assert_eq!(session.watched_path().unwrap(), "notes");
    assert_eq!(session.current_epoch(), epoch);
}

#[test]
fn failed_setup_reverts_to_no_active_watch() {
    let mut session = WatchSession::new();
    assert!(start(&mut session, "notes", true, true).is_ok());
    let r = start(&mut session, "other", true, false);
    assert!(matches!(r, Err(WatchError::Setup(_))));
    assert!(!session.is_active());
    assert!(session.watched_path().is_none());
}

#[test]
fn replacing_start_switches_to_the_new_path() {
    let mut session = WatchSession::new();
    assert!(start(&mut session, "notes", true, true).is_ok());
    let old_epoch = session.current_epoch();

    assert!(start(&mut session, "other", true, true).is_ok());
    assert!(session.is_active());
    assert_eq!(session.watched_path().unwrap(), "other");
    assert!(session.current_epoch() > old_epoch);

    // nothing produced under the replaced watch may still be forwarded
    assert!(!session.should_forward(old_epoch));
    assert!(session.should_forward(session.current_epoch()));
}

#[test]
fn stopped_watch_is_never_forwarded_again() {
    let mut session = WatchSession::new();
    assert!(start(&mut session, "notes", true, true).is_ok());
    let epoch = session.current_epoch();
    assert!(session.should_forward(epoch));

    session.stop();
    assert!(!session.should_forward(epoch));

    // even after a later watch starts, the stopped epoch stays dead
    assert!(start(&mut session, "other", true, true).is_ok());
    assert!(!session.should_forward(epoch));
}

#[test]
fn active_path_tracks_the_most_recent_successful_start() {
    let mut session = WatchSession::new();
    assert!(start(&mut session, "a", true, true).is_ok());
    assert!(start(&mut session, "b", true, true).is_ok());
    assert!(start(&mut session, "bad", false, true).is_err());
    assert_eq!(session.watched_path().unwrap(), "b");

    session.stop();
    assert!(start(&mut session, "c", true, true).is_ok());
    assert!(start(&mut session, "d", true, false).is_err());
    assert!(session.watched_path().is_none());

    assert!(start(&mut session, "e", true, true).is_ok());
    assert_eq!(session.watched_path().unwrap(), "e");
}

#[test]
fn error_messages_carry_the_description() {
    let e = WatchError::Validation("bad path".to_string());
    assert_eq!(e.message(), "bad path");
    let e = WatchError::Setup("no inotify handles left".to_string());
    assert_eq!(e.message(), "no inotify handles left");
}
