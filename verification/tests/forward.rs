use notewatch::debounce::Debouncer;
use notewatch::events::{kind_label, DebouncedEvent, EventKind, RawChangeEvent};
use notewatch::forward::forward_event;
use notewatch::session::WatchSession;

fn raw(kind: EventKind, path: String) -> RawChangeEvent {
    RawChangeEvent { kind, path }
}

#[test]
fn kind_labels_are_stable() {
    assert_eq!(kind_label(EventKind::Create), "create");
    assert_eq!(kind_label(EventKind::Modify), "modify");
    assert_eq!(kind_label(EventKind::Remove), "remove");
    assert_eq!(kind_label(EventKind::Rename), "rename");
    assert_eq!(kind_label(EventKind::Other), "other");
}

#[test]
fn active_watch_forwards_its_events() {
    let mut session = WatchSession::new();
    let path = "notes".to_string();
    session.begin_start(&path, true).unwrap();
    session.commit_start(path);
    let epoch = session.current_epoch();

    let event = DebouncedEvent {
        kind: EventKind::Modify,
        paths: vec!["notes/a.md".to_string()],
    };
    let n = forward_event(&session, epoch, &event).expect("active watch must forward");
    assert_eq!(n.kind, "modify");
    assert_eq!(n.paths, vec!["notes/a.md".to_string()]);
}

#[test]
fn stale_event_is_dropped_at_the_filter() {
    let mut session = WatchSession::new();
    let path = "notes".to_string();
    session.begin_start(&path, true).unwrap();
    session.commit_start(path);
    let old_epoch = session.current_epoch();

    session.stop();

    let leftover = DebouncedEvent {
        kind: EventKind::Create,
        paths: vec!["notes/b.md".to_string()],
    };
    assert!(forward_event(&session, old_epoch, &leftover).is_none());

    // a later watch must not pick the leftover up either
    let other = "other".to_string();
    session.begin_start(&other, true).unwrap();
    session.commit_start(other);
    assert!(forward_event(&session, old_epoch, &leftover).is_none());
}

#[test]
fn end_to_end_burst_reaches_the_ui_once() {
    let mut session = WatchSession::new();
    let path = "notes".to_string();
    session.begin_start(&path, true).unwrap();
    session.commit_start(path);
    let epoch = session.current_epoch();

    let mut d = Debouncer::new(500);
    d.record(0, raw(EventKind::Create, "notes/a.md".to_string()));
    d.record(30, raw(EventKind::Modify, "notes/a.md".to_string()));
    d.record(60, raw(EventKind::Modify, "notes/a.md".to_string()));
    d.record(90, raw(EventKind::Modify, "notes/a.md".to_string()));

    let batches = d.flush_due(690);
    let mut delivered = Vec::new();
    for b in &batches {
        if let Some(n) = forward_event(&session, epoch, b) {
            delivered.push(n);
        }
    }
    assert_eq!(delivered.len(), 1);
    assert_eq!(delivered[0].kind, "create");
    assert_eq!(delivered[0].paths, vec!["notes/a.md".to_string()]);
}
