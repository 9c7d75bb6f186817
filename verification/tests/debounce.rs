use notewatch::debounce::Debouncer;
use notewatch::events::{merge_kind, EventKind, RawChangeEvent};

fn raw(kind: EventKind, path: String) -> RawChangeEvent {
    RawChangeEvent { kind, path }
}

#[test]
fn burst_for_one_path_yields_one_event() {
    let mut d = Debouncer::new(500);
    // four raw notifications for the same path, all within the window
    d.record(0, raw(EventKind::Modify, "/notes/a.md".to_string()));
    d.record(100, raw(EventKind::Modify, "/notes/a.md".to_string()));
    d.record(200, raw(EventKind::Modify, "/notes/a.md".to_string()));
    d.record(300, raw(EventKind::Modify, "/notes/a.md".to_string()));
    assert_eq!(d.pending_len(), 1);

    // the window keeps being reset: nothing is due before 300 + 500
    let early = d.flush_due(700);
    assert!(early.is_empty());

    let out = d.flush_due(800);
    assert_eq!(out.len(), 1);
    assert!(out[0].kind == EventKind::Modify);
    assert_eq!(out[0].paths, vec!["/notes/a.md".to_string()]);
    assert_eq!(d.pending_len(), 0);
}

#[test]
fn scenario_create_then_three_modifies() {
    // create notes/a.md, modify it three times within 100ms, wait 600ms
    let mut d = Debouncer::new(500);
    d.record(0, raw(EventKind::Create, "notes/a.md".to_string()));
    d.record(30, raw(EventKind::Modify, "notes/a.md".to_string()));
    d.record(60, raw(EventKind::Modify, "notes/a.md".to_string()));
    d.record(90, raw(EventKind::Modify, "notes/a.md".to_string()));

    let out = d.flush_due(690);
    assert_eq!(out.len(), 1);
    // normalization rule: a created-then-modified path is still a creation
    assert!(out[0].kind == EventKind::Create);
    assert_eq!(out[0].paths, vec!["notes/a.md".to_string()]);
}

#[test]
fn distinct_paths_are_not_coalesced() {
    let mut d = Debouncer::new(500);
    d.record(0, raw(EventKind::Create, "a.md".to_string()));
    d.record(10, raw(EventKind::Remove, "b.md".to_string()));
    assert_eq!(d.pending_len(), 2);

    let out = d.flush_due(1000);
    assert_eq!(out.len(), 2);
    // windows closed in arrival order
    assert_eq!(out[0].paths, vec!["a.md".to_string()]);
    assert!(out[0].kind == EventKind::Create);
    assert_eq!(out[1].paths, vec!["b.md".to_string()]);
    assert!(out[1].kind == EventKind::Remove);
}

#[test]
fn flush_emits_only_closed_windows() {
    let mut d = Debouncer::new(500);
    d.record(0, raw(EventKind::Modify, "old.md".to_string()));
    d.record(400, raw(EventKind::Modify, "new.md".to_string()));

    // at 600 only old.md's window (0 + 500) has closed
    let out = d.flush_due(600);
    assert_eq!(out.len(), 1);
    assert_eq!(out[0].paths, vec!["old.md".to_string()]);
    assert_eq!(d.pending_len(), 1);

    let rest = d.flush_due(900);
    assert_eq!(rest.len(), 1);
    assert_eq!(rest[0].paths, vec!["new.md".to_string()]);
}

#[test]
fn a_new_event_reopens_the_path() {
    let mut d = Debouncer::new(500);
    d.record(0, raw(EventKind::Create, "a.md".to_string()));
    let first = d.flush_due(500);
    assert_eq!(first.len(), 1);

    d.record(600, raw(EventKind::Remove, "a.md".to_string()));
    let second = d.flush_due(1100);
    assert_eq!(second.len(), 1);
    assert!(second[0].kind == EventKind::Remove);
}

#[test]
fn kind_merging_follows_the_documented_rule() {
    // create absorbs a later modify
    assert!(merge_kind(EventKind::Create, EventKind::Modify) == EventKind::Create);
    // otherwise the latest kind wins
    assert!(merge_kind(EventKind::Modify, EventKind::Remove) == EventKind::Remove);
    assert!(merge_kind(EventKind::Create, EventKind::Remove) == EventKind::Remove);
    assert!(merge_kind(EventKind::Remove, EventKind::Create) == EventKind::Create);
    assert!(merge_kind(EventKind::Modify, EventKind::Rename) == EventKind::Rename);
    assert!(merge_kind(EventKind::Other, EventKind::Modify) == EventKind::Modify);
}
