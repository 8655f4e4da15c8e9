use logwatcher::clock::{nanos_between, Clock};
use logwatcher::file_tracker::{FileTracker, MAX_LINES_PER_FILE};
use logwatcher::path::FilePath;

fn path(name: &str) -> FilePath {
    FilePath::from_text(&format!("/tmp/{}", name))
}

fn lines(texts: &[&str]) -> Vec<String> {
    texts.iter().map(|t| t.to_string()).collect()
}

fn tracker(max_panels: usize) -> FileTracker {
    FileTracker::new(max_panels, FilePath::from_text("/tmp"))
}

fn names(t: &FileTracker) -> Vec<String> {
    t.panels.iter().map(|p| p.display_name.clone()).collect()
}

#[test]
fn new_files_get_panels_until_there_are_none() {
    let mut t = tracker(2);
    assert_eq!(t.file_modified_at(path("a"), lines(&["1"]), 2, 10, 1), 0);
    assert_eq!(t.file_modified_at(path("b"), lines(&["2"]), 2, 20, 2), 1);
    assert_eq!(t.active_count(), 2);
    assert_eq!(t.file_modified_at(path("c"), lines(&["3"]), 2, 30, 3), 0);
    assert_eq!(t.active_count(), 2);
    assert_eq!(names(&t), vec!["c", "b"]);
    assert_eq!(t.panel_index(&path("a")), None);
    assert_eq!(t.panel_index(&path("c")), Some(0));
}

#[test]
fn deleted_files_are_given_up_first() {
    let mut t = tracker(3);
    t.file_modified_at(path("a"), Vec::new(), 0, 10, 0);
    t.file_modified_at(path("b"), Vec::new(), 0, 20, 0);
    t.file_modified_at(path("c"), Vec::new(), 0, 30, 0);
    t.file_deleted(&path("c"));
    assert_eq!(t.eviction_candidate(), 2);
    t.file_deleted(&path("b"));
    assert_eq!(t.eviction_candidate(), 1);
    t.file_modified_at(path("b"), Vec::new(), 0, 40, 0);
    assert!(!t.panels[1].is_deleted);
    assert_eq!(t.eviction_candidate(), 2);
}

#[test]
fn of_files_that_changed_together_the_first_goes() {
    let mut t = tracker(2);
    t.file_modified_at(path("a"), Vec::new(), 0, 10, 0);
    t.file_modified_at(path("b"), Vec::new(), 0, 10, 0);
    assert_eq!(t.eviction_candidate(), 0);
}

#[test]
fn a_second_change_replaces_the_first() {
    let mut t = tracker(2);
    t.file_modified_at(path("a"), lines(&["old"]), 4, 10, 1);
    t.panels[0].process_cmd = Some("make".to_string());
    assert_eq!(t.file_modified_at(FilePath::from_text("/tmp//a"), lines(&["new"]), 9, 20, 2), 0);
    assert_eq!(t.active_count(), 1);
    assert_eq!(t.panels[0].lines, vec!["new"]);
    assert_eq!(t.panels[0].last_size, 9);
    assert_eq!(t.panels[0].last_modified, 20);
    assert_eq!(t.panels[0].file_mtime, 2);
    assert_eq!(t.panels[0].process_cmd, Some("make".to_string()));
}

#[test]
fn a_new_file_in_an_old_panel_starts_afresh() {
    let mut t = tracker(1);
    t.file_modified_at(path("a"), lines(&["old"]), 4, 10, 1);
    t.panels[0].process_cmd = Some("make".to_string());
    t.panels[0].process_summary = Some("builds".to_string());
    t.file_modified_at(path("b"), lines(&["new"]), 4, 20, 1);
    assert_eq!(names(&t), vec!["b"]);
    assert_eq!(t.panels[0].process_cmd, None);
    assert_eq!(t.panels[0].process_summary, None);
}

#[test]
fn appending_keeps_the_last_lines() {
    let mut t = tracker(1);
    t.file_modified_at(path("a"), lines(&["first"]), 6, 10, 1);
    t.append_lines_at(0, lines(&["second", "third"]), 20, 30, 2);
    assert_eq!(t.panels[0].lines, vec!["first", "second", "third"]);
    assert_eq!(t.panels[0].last_size, 20);
    assert_eq!(t.panels[0].last_modified, 30);
    assert_eq!(t.panels[0].file_mtime, 2);
    let many: Vec<String> = (0..600).map(|i| format!("line {}", i)).collect();
    t.append_lines_at(0, many, 9000, 40, 3);
    assert_eq!(t.panels[0].lines.len(), MAX_LINES_PER_FILE);
    assert_eq!(t.panels[0].lines[0], "line 100");
    assert_eq!(t.panels[0].lines[499], "line 599");
}

#[test]
fn appending_in_pieces_equals_appending_at_once() {
    let all: Vec<String> = (0..700).map(|i| i.to_string()).collect();
    let mut at_once = tracker(1);
    at_once.file_modified_at(path("a"), lines(&["x"]), 1, 1, 1);
    at_once.append_lines_at(0, all.clone(), 5, 2, 2);
    let mut in_pieces = tracker(1);
    in_pieces.file_modified_at(path("a"), lines(&["x"]), 1, 1, 1);
    in_pieces.append_lines_at(0, all[..300].to_vec(), 3, 2, 2);
    in_pieces.append_lines_at(0, all[300..].to_vec(), 5, 2, 2);
    assert_eq!(at_once.panels[0].lines, in_pieces.panels[0].lines);
}

#[test]
fn sweeping_removes_stale_deleted_files_alone() {
    let mut t = tracker(4);
    for (i, name) in ["a", "b", "c", "d"].iter().enumerate() {
        t.file_modified_at(path(name), Vec::new(), 0, 10 * (i as u128 + 1), 0);
    }
    t.file_deleted(&path("a"));
    t.file_deleted(&path("c"));
    t.gc_stale_at(70, 100);
    assert_eq!(names(&t), vec!["b", "c", "d"]);
    t.gc_stale_at(69, 100);
    assert_eq!(names(&t), vec!["b", "d"]);
    t.gc_stale_at(0, 1000);
    assert_eq!(names(&t), vec!["b", "d"]);
}

#[test]
fn names_are_relative_to_the_watched_directory() {
    let t = tracker(1);
    assert_eq!(t.make_display_name(&path("sub/a.log")), "sub/a.log");
    assert_eq!(t.make_display_name(&FilePath::from_text("/var/a.log")), "/var/a.log");
    assert_eq!(t.make_display_name(&FilePath::from_text("/tmpfile")), "/tmpfile");
}

#[test]
fn deleting_an_unknown_file_changes_nothing() {
    let mut t = tracker(1);
    t.file_modified(path("a"), lines(&["x"]), 2);
    t.file_deleted(&path("b"));
    assert!(!t.panels[0].is_deleted);
    t.append_lines(0, lines(&["y"]), 4);
    assert_eq!(t.panels[0].lines, vec!["x", "y"]);
}

#[test]
fn files_are_given_up_in_the_order_of_their_changes() {
    let mut t = tracker(3);
    t.file_modified(path("a"), Vec::new(), 0);
    t.file_modified(path("b"), Vec::new(), 0);
    t.file_modified(path("c"), Vec::new(), 0);
    assert!(t.panels[0].last_modified <= t.panels[1].last_modified);
    assert!(t.panels[1].last_modified <= t.panels[2].last_modified);
    t.append_lines(0, lines(&["x"]), 2);
    assert!(t.panels[2].last_modified <= t.panels[0].last_modified);
    t.file_modified(path("d"), Vec::new(), 0);
    assert_eq!(names(&t), vec!["a", "d", "c"]);
    t.file_modified(path("e"), Vec::new(), 0);
    assert_eq!(names(&t), vec!["a", "d", "e"]);
}

#[test]
fn a_change_is_never_stamped_before_an_earlier_one() {
    let ahead = 1 << 100;
    let mut t = tracker(3);
    t.file_modified_at(path("a"), Vec::new(), 0, ahead, 0);
    t.file_modified(path("b"), Vec::new(), 0);
    assert_eq!(t.panels[1].last_modified, ahead);
    t.append_lines(1, lines(&["x"]), 2);
    assert_eq!(t.panels[1].last_modified, ahead);
}

#[test]
fn sweeping_takes_what_is_older_than_the_latest_change() {
    let ahead = 1 << 100;
    let mut t = tracker(3);
    t.file_modified_at(path("a"), Vec::new(), 0, ahead - 51, 0);
    t.file_modified_at(path("b"), Vec::new(), 0, ahead - 50, 0);
    t.file_modified_at(path("c"), Vec::new(), 0, ahead, 0);
    t.file_deleted(&path("a"));
    t.file_deleted(&path("b"));
    t.gc_stale(50);
    assert_eq!(names(&t), vec!["b", "c"]);
}

#[test]
fn times_are_counted_from_earlier_to_later() {
    assert_eq!(nanos_between(3, 10), 7);
    assert_eq!(nanos_between(10, 3), 0);
    assert_eq!(nanos_between(-5, 5), 10);
    assert_eq!(nanos_between(-5, -2), 3);
    assert_eq!(nanos_between(i128::MIN, i128::MAX), u128::MAX);
}

#[test]
fn the_clock_runs() {
    let clock = Clock::new();
    let first = clock.now();
    let mut later = clock.now();
    while later <= first {
        later = clock.now();
    }
    assert!(later > first);
    assert!(later < 60_000_000_000);
}
