use termdeck::sessions::{GenerationCounter, SessionRecord, SessionTable};

fn record(generation: u64, handle: &'static str) -> SessionRecord<&'static str> {
    SessionRecord {
        generation,
        shell: "/bin/bash".to_string(),
        cwd: "/home".to_string(),
        pid: Some(42),
        handle,
    }
}

#[test]
fn a_session_is_found_under_its_id() {
    let mut table = SessionTable::new();
    assert_eq!(table.len(), 0);
    assert!(table.insert("a".to_string(), record(1, "first")).is_none());
    assert_eq!(table.len(), 1);
    assert_eq!(table.get(&"a".to_string()).map(|r| r.handle), Some("first"));
    assert!(table.get(&"b".to_string()).is_none());
    let info = table.terminal_info(&"a".to_string()).expect("running");
    assert_eq!(info.session_id, "a");
    assert_eq!(info.generation, 1);
    assert_eq!(info.shell, "/bin/bash");
    assert_eq!(info.cwd, "/home");
    assert_eq!(info.pid, Some(42));
}

#[test]
fn inserting_under_a_running_id_replaces_the_session() {
    let mut table = SessionTable::new();
    table.insert("a".to_string(), record(1, "first"));
    let previous = table.insert("a".to_string(), record(2, "second"));
    assert_eq!(previous.map(|r| r.handle), Some("first"));
    assert_eq!(table.len(), 1);
    assert_eq!(table.get(&"a".to_string()).map(|r| r.generation), Some(2));
}

#[test]
fn an_exited_session_is_removed_only_if_it_is_still_current() {
    let mut table = SessionTable::new();
    table.insert("a".to_string(), record(2, "second"));
    assert!(table.remove_if_generation(&"a".to_string(), 1).is_none());
    assert_eq!(table.len(), 1);
    assert_eq!(
        table.remove_if_generation(&"a".to_string(), 2).map(|r| r.handle),
        Some("second")
    );
    assert_eq!(table.len(), 0);
    assert!(table.remove_if_generation(&"a".to_string(), 2).is_none());
}

#[test]
fn requests_name_a_running_session() {
    let mut table = SessionTable::new();
    table.insert("term_1".to_string(), record(1, "one"));
    assert_eq!(table.running(&"term_1".to_string()).map(|r| r.handle), Ok("one"));
    assert_eq!(
        table.running(&"term_2".to_string()).map(|r| r.handle),
        Err("Terminal session is not running".to_string())
    );
    assert_eq!(
        table.running(&"../x".to_string()).map(|r| r.handle),
        Err("Invalid terminal session ID".to_string())
    );
}

#[test]
fn removing_takes_the_session_out() {
    let mut table = SessionTable::new();
    table.insert("term_1".to_string(), record(1, "one"));
    assert_eq!(table.remove(&"term_1".to_string()).map(|s| s.handle), Some("one"));
    assert!(table.remove(&"term_1".to_string()).is_none());
    assert_eq!(table.len(), 0);
}

#[test]
fn draining_hands_back_every_session() {
    let mut table = SessionTable::new();
    table.insert("a".to_string(), record(1, "one"));
    table.insert("b".to_string(), record(2, "two"));
    table.insert("c".to_string(), record(3, "three"));
    table.remove(&"b".to_string());
    let mut handles: Vec<&str> = table.drain().into_iter().map(|r| r.handle).collect();
    handles.sort();
    assert_eq!(handles, vec!["one", "three"]);
    assert_eq!(table.len(), 0);
}

#[test]
fn generations_count_up_from_one() {
    let mut counter = GenerationCounter::new();
    assert_eq!(counter.next(), Some(1));
    assert_eq!(counter.next(), Some(2));
    assert_eq!(counter.next(), Some(3));
}

#[test]
fn a_stale_exit_keeps_the_newer_session() {
    let mut counter = GenerationCounter::new();
    let mut table = SessionTable::new();
    let first = counter.next().unwrap();
    table.insert("a".to_string(), record(first, "first"));
    table.remove(&"a".to_string());
    let second = counter.next().unwrap();
    table.insert("a".to_string(), record(second, "second"));
    assert!(table.remove_if_generation(&"a".to_string(), first).is_none());
    assert_eq!(table.get(&"a".to_string()).map(|r| r.handle), Some("second"));
}

#[test]
fn an_exit_leaves_sessions_under_other_ids() {
    let mut table = SessionTable::new();
    table.insert("a".to_string(), record(1, "a"));
    table.insert("b".to_string(), record(2, "b"));
    assert_eq!(table.remove_if_generation(&"a".to_string(), 1).map(|r| r.handle), Some("a"));
    assert!(table.get(&"a".to_string()).is_none());
    assert_eq!(table.get(&"b".to_string()).map(|r| r.handle), Some("b"));
    assert!(table.remove_if_generation(&"b".to_string(), 1).is_none());
    assert_eq!(table.len(), 1);
}
