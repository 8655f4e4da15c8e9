use logwatcher::event::{
    input_event, process_notify_event, AppEvent, ChangeKind, Input, NotifiedPath,
};
use logwatcher::glob::{name_passes, passes_glob};
use logwatcher::keys::{KeyCode, KeyEvent};
use logwatcher::path::FilePath;

fn file(text: &str) -> NotifiedPath {
    NotifiedPath { path: FilePath::from_text(text), is_dir: false }
}

fn directory(text: &str) -> NotifiedPath {
    NotifiedPath { path: FilePath::from_text(text), is_dir: true }
}

#[test]
fn process_create_event_sends_file_changed() {
    let events = process_notify_event(ChangeKind::Create, &vec![file("/tmp/test.txt")], &None);
    assert_eq!(events.len(), 1);
    assert!(matches!(
        &events[0],
        AppEvent::FileChanged(p) if p.same_as(&FilePath::from_text("/tmp/test.txt"))
    ));
}

#[test]
fn process_modify_event_sends_file_changed() {
    let events = process_notify_event(ChangeKind::Modify, &vec![file("/tmp/test.txt")], &None);
    assert_eq!(events.len(), 1);
    assert!(matches!(&events[0], AppEvent::FileChanged(_)));
}

#[test]
fn process_remove_event_sends_file_deleted() {
    let events = process_notify_event(ChangeKind::Remove, &vec![file("/tmp/test.txt")], &None);
    assert_eq!(events.len(), 1);
    assert!(matches!(&events[0], AppEvent::FileDeleted(_)));
}

#[test]
fn process_event_skips_directories() {
    let events = process_notify_event(ChangeKind::Create, &vec![directory("/tmp")], &None);
    assert!(events.is_empty());
}

#[test]
fn process_event_glob_filters_non_matching() {
    let events = process_notify_event(
        ChangeKind::Create,
        &vec![file("/tmp/test.txt")],
        &Some("*.log".to_string()),
    );
    assert!(events.is_empty());
}

#[test]
fn process_event_glob_allows_matching() {
    let events = process_notify_event(
        ChangeKind::Create,
        &vec![file("/tmp/test.log")],
        &Some("*.log".to_string()),
    );
    assert_eq!(events.len(), 1);
    assert!(matches!(&events[0], AppEvent::FileChanged(_)));
}

#[test]
fn process_event_multiple_paths() {
    let events = process_notify_event(
        ChangeKind::Create,
        &vec![file("/tmp/a.txt"), file("/tmp/b.txt")],
        &None,
    );
    assert_eq!(events.len(), 2);
}

#[test]
fn events_keep_the_order_of_the_paths() {
    let events = process_notify_event(
        ChangeKind::Remove,
        &vec![file("/tmp/b.log"), directory("/tmp/d.log"), file("/tmp/c"), file("/tmp/a.log")],
        &Some("*.log".to_string()),
    );
    let mut names = Vec::new();
    for event in &events {
        match event {
            AppEvent::FileDeleted(p) => names.push(p.display()),
            _ => panic!("not a deletion"),
        }
    }
    assert_eq!(names, vec!["/tmp/b.log", "/tmp/a.log"]);
}

#[test]
fn other_changes_make_no_events() {
    let events = process_notify_event(ChangeKind::Other, &vec![file("/tmp/test.txt")], &None);
    assert!(events.is_empty());
}

#[test]
fn a_path_without_a_name_matches_no_pattern() {
    let pattern = Some("*".to_string());
    assert!(!passes_glob(&FilePath::from_text("/"), &pattern));
    assert!(!passes_glob(&FilePath::from_text("/tmp/.."), &pattern));
    assert!(!passes_glob(&FilePath::new(vec![b'/', 0xff]), &pattern));
    assert!(passes_glob(&FilePath::new(vec![b'/', 0xff]), &None));
}

#[test]
fn patterns_match_the_name_alone() {
    let path = FilePath::from_text("/var/log/app/server.log");
    assert!(passes_glob(&path, &Some("server.*".to_string())));
    assert!(passes_glob(&path, &Some("*.{txt,log}".to_string())));
    assert!(passes_glob(&path, &Some("[a-s]erver.log".to_string())));
    assert!(!passes_glob(&path, &Some("app/*.log".to_string())));
    assert!(!passes_glob(&path, &Some("!*.log".to_string())));
}

#[test]
fn a_name_passes_without_a_pattern_or_with_a_match() {
    assert!(name_passes(false, None));
    assert!(name_passes(false, Some(false)));
    assert!(name_passes(true, Some(true)));
    assert!(!name_passes(true, Some(false)));
    assert!(!name_passes(true, None));
}

#[test]
fn only_pressed_keys_and_resizes_make_events() {
    let key = KeyEvent::from(KeyCode::Char('q'));
    assert!(matches!(
        input_event(Input::Key { key, pressed: true }),
        Some(AppEvent::Key(k)) if k == key
    ));
    assert!(input_event(Input::Key { key, pressed: false }).is_none());
    assert!(matches!(input_event(Input::Resize), Some(AppEvent::Resize)));
    assert!(input_event(Input::Other).is_none());
}
