use logwatcher::app::App;
use logwatcher::cli::Args;
use logwatcher::dispatch::{
    dispatch_event, dispatch_event_at, file_read, file_read_at, handle_file_changed,
    initial_summaries, open_file, open_file_at, process_found, FileContent, FileRequest,
};
use logwatcher::event::AppEvent;
use logwatcher::keys::{command_for, handle_key, Command, KeyCode, KeyEvent};
use logwatcher::path::FilePath;
use logwatcher::scan::{
    initial_scan, scan_cutoff, select_recent, validate_dir, walkdir, ScanEntry, ScannedFile, Tree,
};
use logwatcher::tail_reader::{plan_read, read_new_content, read_tail, ReadPlan};

const SECOND: i128 = 1_000_000_000;
const NOW: i128 = 1_700_000_000 * SECOND;

fn make_args() -> Args {
    Args {
        dir: FilePath::from_text("/watched"),
        max_panels: 4,
        tail_lines: 50,
        stale_seconds: 30,
        tick_rate_ms: 250,
        glob: None,
        llm_api_url: None,
        llm_log_file: None,
        scan_back_minutes: 30,
    }
}

fn path(name: &str) -> FilePath {
    FilePath::from_text(&format!("/watched/{}", name))
}

/// A file of a directory: its name, what it holds, and when it was modified.
struct Stored {
    name: String,
    content: String,
    mtime: i128,
}

fn stored(name: &str, content: &str) -> Stored {
    Stored { name: name.to_string(), content: content.to_string(), mtime: NOW - SECOND }
}

/// Scan a directory that holds some files.
fn scan(app: &mut App, args: &Args, files: &[Stored]) {
    let tree = Tree::Dir(files.iter().map(|f| Tree::File(path(&f.name))).collect());
    let found = walkdir(&tree, &args.glob).unwrap();
    let file_at = |p: &FilePath| files.iter().find(|f| path(&f.name).same_as(p)).unwrap();
    let entries: Vec<ScanEntry> = found
        .into_iter()
        .map(|p| {
            let mtime = Some(file_at(&p).mtime);
            ScanEntry { path: p, mtime }
        })
        .collect();
    let cutoff = scan_cutoff(NOW, args.scan_back_minutes);
    let selected = select_recent(&entries, cutoff, app.max_panels);
    let scanned = selected
        .into_iter()
        .map(|p| {
            let file = file_at(&p);
            let bytes = file.content.as_bytes().to_vec();
            let (lines, size) = read_tail(bytes.len() as u64, &bytes, app.tail_lines);
            let content = Some(FileContent { lines, size, mtime: Some(file.mtime) });
            ScannedFile { path: p, content, process_cmd: None }
        })
        .collect();
    initial_scan(app, scanned);
}

/// Answer a request with what a file holds, or with nothing where there is no file.
fn answer(app: &mut App, request: FileRequest, content: Option<&str>) -> Option<usize> {
    let bytes = content.unwrap_or("").as_bytes().to_vec();
    let size = bytes.len() as u64;
    match request {
        FileRequest::Tail { path, max_lines } => {
            let read = content.map(|_| {
                let (lines, size) = read_tail(size, &bytes, max_lines);
                FileContent { lines, size, mtime: None }
            });
            file_read(app, path, read)
        }
        FileRequest::NewContent { path, last_size, max_lines } => {
            let read = content.map(|_| {
                let part = match plan_read(last_size, size) {
                    ReadPlan::Whole => bytes.clone(),
                    ReadPlan::Nothing => Vec::new(),
                    ReadPlan::From(offset) => bytes[offset as usize..].to_vec(),
                };
                let (lines, size) = read_new_content(last_size, size, &part, max_lines);
                FileContent { lines, size, mtime: None }
            });
            file_read(app, path, read)
        }
    }
}

/// Tell the program that a file has changed, and what it holds now.
fn changed(app: &mut App, name: &str, content: Option<&str>) -> Option<usize> {
    let request = handle_file_changed(app, path(name));
    answer(app, request, content)
}

fn press(app: &mut App, code: KeyCode) {
    handle_key(app, KeyEvent::from(code));
}

#[test]
fn validate_dir_accepts_valid_directory() {
    let result = validate_dir(FilePath::from_text("/watched"), true);
    assert!(result.is_ok());
    assert_eq!(result.unwrap().display(), "/watched");
}

#[test]
fn validate_dir_rejects_file() {
    let result = validate_dir(FilePath::from_text("/watched/not_a_dir.txt"), false);
    assert!(result.is_err());
}

#[test]
fn validate_dir_rejects_nonexistent() {
    let dir = "/nonexistent/path/xyz";
    let result = validate_dir(FilePath::from_text(dir), std::path::Path::new(dir).is_dir());
    assert!(result.is_err());
    assert_eq!(result.unwrap_err().message, "'/nonexistent/path/xyz' is not a directory");
}

#[test]
fn walkdir_finds_files_recursively() {
    let sub = Tree::Dir(vec![Tree::File(path("sub/b.txt"))]);
    let tree = Tree::Dir(vec![sub, Tree::File(path("a.txt"))]);
    let results = walkdir(&tree, &None).unwrap();
    assert_eq!(results.len(), 2);
    assert_eq!(results[0].display(), "/watched/sub/b.txt");
    assert_eq!(results[1].display(), "/watched/a.txt");
}

#[test]
fn walkdir_applies_glob_filter() {
    let tree = Tree::Dir(vec![
        Tree::File(path("a.txt")),
        Tree::File(path("b.log")),
        Tree::File(path("c.txt")),
    ]);
    let results = walkdir(&tree, &Some("*.log".to_string())).unwrap();
    assert_eq!(results.len(), 1);
    assert!(results[0].display().contains("b.log"));
}

#[test]
fn walkdir_empty_dir() {
    let results = walkdir(&Tree::Dir(Vec::new()), &None).unwrap();
    assert!(results.is_empty());
}

#[test]
fn walkdir_skips_directories() {
    let tree = Tree::Dir(vec![Tree::Dir(Vec::new()), Tree::File(path("file.txt")), Tree::Other]);
    let results = walkdir(&tree, &None).unwrap();
    assert_eq!(results.len(), 1);
    assert!(results[0].display().contains("file.txt"));
}

#[test]
fn walkdir_fails_at_the_first_directory_that_cannot_be_listed() {
    let tree = Tree::Dir(vec![
        Tree::File(path("a.txt")),
        Tree::Dir(vec![Tree::Unreadable("first".to_string())]),
        Tree::Unreadable("second".to_string()),
    ]);
    assert_eq!(walkdir(&tree, &None).unwrap_err().message, "first");
}

#[test]
fn initial_scan_skips_old_files() {
    let args = make_args();
    let mut app = App::new(&args);
    let mut old = stored("old.txt", "old content");
    old.mtime = NOW - 2 * 3600 * SECOND;
    scan(&mut app, &args, &[old, stored("new.txt", "new content")]);
    assert_eq!(app.tracker.active_count(), 1);
    assert!(app.tracker.panels[0].display_name.contains("new.txt"));
}

#[test]
fn initial_scan_empty_dir() {
    let args = make_args();
    let mut app = App::new(&args);
    scan(&mut app, &args, &[]);
    assert_eq!(app.tracker.active_count(), 0);
}

#[test]
fn initial_scan_respects_max_panels() {
    let mut args = make_args();
    args.max_panels = 3;
    let files: Vec<Stored> =
        (0..10).map(|i| stored(&format!("file{}.txt", i), "content")).collect();
    let mut app = App::new(&args);
    scan(&mut app, &args, &files);
    assert_eq!(app.tracker.active_count(), 3);
}

#[test]
fn recent_files_come_first_and_ties_keep_their_order() {
    let entry = |name: &str, mtime: Option<i128>| ScanEntry { path: path(name), mtime };
    let entries = vec![
        entry("a", Some(20)),
        entry("b", Some(30)),
        entry("unknown", None),
        entry("c", Some(20)),
        entry("cutoff", Some(10)),
        entry("d", Some(40)),
        entry("old", Some(5)),
    ];
    let names = |limit: usize| -> Vec<String> {
        select_recent(&entries, 10, limit).iter().map(|p| p.display()).collect()
    };
    assert_eq!(names(9), vec!["/watched/d", "/watched/b", "/watched/a", "/watched/c"]);
    assert_eq!(names(2), vec!["/watched/d", "/watched/b"]);
    assert!(names(0).is_empty());
}

#[test]
fn the_cutoff_lies_some_minutes_back() {
    assert_eq!(scan_cutoff(NOW, 30), NOW - 1_800 * SECOND);
    assert_eq!(scan_cutoff(0, 1), -60 * SECOND);
    assert_eq!(scan_cutoff(7, 0), 7);
}

#[test]
fn a_scan_shows_what_it_could_read() {
    let args = make_args();
    let mut app = App::new(&args);
    let content = |lines: &[&str]| {
        Some(FileContent {
            lines: lines.iter().map(|l| l.to_string()).collect(),
            size: 9,
            mtime: Some(77),
        })
    };
    initial_scan(
        &mut app,
        vec![
            ScannedFile {
                path: path("a"),
                content: content(&["one", "two"]),
                process_cmd: Some("make".to_string()),
            },
            ScannedFile { path: path("gone"), content: None, process_cmd: None },
            ScannedFile { path: path("b"), content: content(&[]), process_cmd: None },
        ],
    );
    assert_eq!(app.tracker.active_count(), 2);
    assert_eq!(app.tracker.panels[0].display_name, "a");
    assert_eq!(app.tracker.panels[0].lines, vec!["one", "two"]);
    assert_eq!(app.tracker.panels[0].last_size, 9);
    assert_eq!(app.tracker.panels[0].file_mtime, 77);
    assert_eq!(app.tracker.panels[0].process_cmd, Some("make".to_string()));
    assert_eq!(app.tracker.panels[1].display_name, "b");
    assert_eq!(app.tracker.panels[1].process_cmd, None);
    assert_eq!(app.scroll_offsets, vec![0, 0]);
    let requests = initial_summaries(
        &app,
        &Some("http://llm".to_string()),
        &Some(FilePath::from_text("/log")),
    );
    assert_eq!(requests.len(), 1);
    assert_eq!(requests[0].cmd, "make");
    assert_eq!(requests[0].api_url, "http://llm");
    assert!(requests[0].path.same_as(&path("a")));
    assert_eq!(requests[0].log_file.as_ref().unwrap().display(), "/log");
    assert!(initial_summaries(&app, &None, &None).is_empty());
}

#[test]
fn a_scan_stamps_files_in_the_order_in_which_they_are_opened() {
    let app = app_with(&["a.txt", "b.txt", "c.txt"]);
    let stamps: Vec<u128> = app.tracker.panels.iter().map(|p| p.last_modified).collect();
    assert!(stamps[0] <= stamps[1] && stamps[1] <= stamps[2]);
}

#[test]
fn handle_key_quit() {
    let mut app = App::new(&make_args());
    assert!(!app.should_quit);
    press(&mut app, KeyCode::Char('q'));
    assert!(app.should_quit);
}

/// A program that shows some files.
fn app_with(names: &[&str]) -> App {
    let args = make_args();
    let mut app = App::new(&args);
    let files: Vec<Stored> = names.iter().map(|n| stored(n, "content")).collect();
    scan(&mut app, &args, &files);
    app
}

#[test]
fn handle_key_tab_cycles_panels() {
    let mut app = app_with(&["a.txt", "b.txt", "c.txt", "d.txt"]);
    assert_eq!(app.tracker.active_count(), 4);
    assert_eq!(app.selected_panel, 0);
    press(&mut app, KeyCode::Tab);
    assert_eq!(app.selected_panel, 1);
    press(&mut app, KeyCode::Tab);
    assert_eq!(app.selected_panel, 2);
    press(&mut app, KeyCode::Tab);
    assert_eq!(app.selected_panel, 3);
    press(&mut app, KeyCode::Tab);
    assert_eq!(app.selected_panel, 0);
}

#[test]
fn handle_key_number_selects_panel() {
    let mut app = app_with(&["a.txt", "b.txt", "c.txt", "d.txt"]);
    press(&mut app, KeyCode::Char('3'));
    assert_eq!(app.selected_panel, 2);
    press(&mut app, KeyCode::Char('9'));
    assert_eq!(app.selected_panel, 2);
}

#[test]
fn handle_key_tab_noop_when_empty() {
    let mut app = App::new(&make_args());
    assert_eq!(app.selected_panel, 0);
    press(&mut app, KeyCode::Tab);
    assert_eq!(app.selected_panel, 0);
}

#[test]
fn handle_key_scroll() {
    let mut app = app_with(&["a.txt"]);
    assert_eq!(app.scroll_offsets[0], 0);
    press(&mut app, KeyCode::Up);
    assert_eq!(app.scroll_offsets[0], 1);
    press(&mut app, KeyCode::Up);
    assert_eq!(app.scroll_offsets[0], 2);
    press(&mut app, KeyCode::Down);
    assert_eq!(app.scroll_offsets[0], 1);
    press(&mut app, KeyCode::Down);
    assert_eq!(app.scroll_offsets[0], 0);
    press(&mut app, KeyCode::Down);
    assert_eq!(app.scroll_offsets[0], 0);
}

#[test]
fn handle_key_help_toggle() {
    let mut app = App::new(&make_args());
    assert!(!app.show_help);
    press(&mut app, KeyCode::Char('?'));
    assert!(app.show_help);
    press(&mut app, KeyCode::Char('?'));
    assert!(!app.show_help);
}

#[test]
fn handle_file_changed_new_file() {
    let mut app = App::new(&make_args());
    changed(&mut app, "test.txt", Some("hello\nworld\n"));
    assert!(app.tracker.panel_index(&path("test.txt")).is_some());
    let idx = app.tracker.panel_index(&path("test.txt")).unwrap();
    assert_eq!(app.tracker.panels[idx].lines, vec!["hello", "world"]);
}

#[test]
fn handle_file_changed_appends() {
    let mut app = App::new(&make_args());
    changed(&mut app, "test.txt", Some("line1\n"));
    let idx = app.tracker.panel_index(&path("test.txt")).unwrap();
    let size_after_first = app.tracker.panels[idx].last_size;
    changed(&mut app, "test.txt", Some("line1\nline2\n"));
    let panel = &app.tracker.panels[idx];
    assert_eq!(panel.lines, vec!["line1", "line2"]);
    assert!(panel.last_size > size_after_first);
}

#[test]
fn handle_key_esc_quits() {
    let mut app = App::new(&make_args());
    assert!(!app.should_quit);
    press(&mut app, KeyCode::Esc);
    assert!(app.should_quit);
}

#[test]
fn handle_key_backtab_cycles_reverse() {
    let mut app = app_with(&["a.txt", "b.txt", "c.txt"]);
    assert_eq!(app.selected_panel, 0);
    press(&mut app, KeyCode::BackTab);
    assert_eq!(app.selected_panel, 2);
    press(&mut app, KeyCode::BackTab);
    assert_eq!(app.selected_panel, 1);
    press(&mut app, KeyCode::BackTab);
    assert_eq!(app.selected_panel, 0);
}

#[test]
fn handle_key_page_scroll() {
    let mut app = app_with(&["a.txt"]);
    press(&mut app, KeyCode::PageUp);
    assert_eq!(app.scroll_offsets[0], 20);
    press(&mut app, KeyCode::PageDown);
    assert_eq!(app.scroll_offsets[0], 0);
}

#[test]
fn handle_key_end_resets_scroll() {
    let mut app = app_with(&["a.txt"]);
    press(&mut app, KeyCode::Up);
    press(&mut app, KeyCode::Up);
    assert_eq!(app.scroll_offsets[0], 2);
    press(&mut app, KeyCode::End);
    assert_eq!(app.scroll_offsets[0], 0);
}

#[test]
fn handle_key_home_scrolls_to_top() {
    let args = make_args();
    let content: String = (0..20).map(|i| format!("line {}\n", i)).collect();
    let mut app = App::new(&args);
    scan(&mut app, &args, &[stored("a.txt", &content)]);
    press(&mut app, KeyCode::Home);
    assert_eq!(app.scroll_offsets[0], app.tracker.panels[0].lines.len());
    assert_eq!(app.scroll_offsets[0], 20);
}

#[test]
fn handle_key_vim_bindings() {
    let mut app = app_with(&["a.txt"]);
    press(&mut app, KeyCode::Char('k'));
    assert_eq!(app.scroll_offsets[0], 1);
    press(&mut app, KeyCode::Char('j'));
    assert_eq!(app.scroll_offsets[0], 0);
}

#[test]
fn handle_file_changed_deleted_file() {
    let mut app = App::new(&make_args());
    changed(&mut app, "test.txt", Some("hello\n"));
    assert_eq!(app.tracker.active_count(), 1);
    changed(&mut app, "test.txt", None);
    assert!(app.tracker.panels[0].is_deleted);
}

#[test]
fn clamp_selected_panel_after_gc() {
    let mut app = app_with(&["a.txt", "b.txt", "c.txt"]);
    app.selected_panel = 2;
    for name in ["a.txt", "b.txt", "c.txt"] {
        app.tracker.file_deleted(&path(name));
    }
    app.tracker.gc_stale(0);
    app.clamp_selected_panel();
    assert_eq!(app.tracker.active_count(), 0);
    assert_eq!(app.selected_panel, 0);
}

#[test]
fn ensure_scroll_offset_grows() {
    let mut app = App::new(&make_args());
    assert!(app.scroll_offsets.is_empty());
    app.ensure_scroll_offset(2);
    assert_eq!(app.scroll_offsets.len(), 3);
    assert_eq!(app.scroll_offsets, vec![0, 0, 0]);
}

#[test]
fn handle_file_changed_grows_panels_dynamically() {
    let mut app = App::new(&make_args());
    assert_eq!(app.tracker.active_count(), 0);
    for i in 0..3 {
        changed(&mut app, &format!("f{}.txt", i), Some(&format!("content {}", i)));
    }
    assert_eq!(app.tracker.active_count(), 3);
    assert_eq!(app.scroll_offsets.len(), 3);
}

#[test]
fn handle_file_changed_no_new_content() {
    let mut app = App::new(&make_args());
    changed(&mut app, "test.txt", Some("hello\n"));
    let idx = app.tracker.panel_index(&path("test.txt")).unwrap();
    let size_before = app.tracker.panels[idx].last_size;
    changed(&mut app, "test.txt", Some("hello\n"));
    assert_eq!(app.tracker.panels[idx].last_size, size_before);
}

#[test]
fn clamp_selected_panel_noop_when_valid() {
    let mut app = app_with(&["a.txt", "b.txt", "c.txt"]);
    app.selected_panel = 1;
    app.clamp_selected_panel();
    assert_eq!(app.selected_panel, 1);
}

#[test]
fn clamp_selected_panel_reduces_to_last() {
    let mut app = app_with(&["a.txt", "b.txt", "c.txt"]);
    app.selected_panel = 5;
    app.clamp_selected_panel();
    assert_eq!(app.selected_panel, 2);
}

#[test]
fn handle_key_scroll_noop_when_empty() {
    let mut app = App::new(&make_args());
    press(&mut app, KeyCode::Up);
    press(&mut app, KeyCode::Down);
    press(&mut app, KeyCode::PageUp);
    press(&mut app, KeyCode::PageDown);
    press(&mut app, KeyCode::Home);
    press(&mut app, KeyCode::End);
    press(&mut app, KeyCode::Char('j'));
    press(&mut app, KeyCode::Char('k'));
    press(&mut app, KeyCode::Char('g'));
    press(&mut app, KeyCode::Char('G'));
    assert!(app.scroll_offsets.is_empty());
}

#[test]
fn handle_key_g_uppercase_resets_scroll() {
    let mut app = app_with(&["a.txt"]);
    press(&mut app, KeyCode::Up);
    press(&mut app, KeyCode::Up);
    assert_eq!(app.scroll_offsets[0], 2);
    press(&mut app, KeyCode::Char('G'));
    assert_eq!(app.scroll_offsets[0], 0);
}

#[test]
fn handle_key_unknown_key_is_noop() {
    let mut app = App::new(&make_args());
    press(&mut app, KeyCode::Char('x'));
    assert!(!app.should_quit);
    assert!(!app.show_help);
}

#[test]
fn keys_mean_commands() {
    let with_control = |code: KeyCode| KeyEvent { code, control: true };
    assert_eq!(command_for(with_control(KeyCode::Char('c'))), Command::Quit);
    assert_eq!(command_for(KeyEvent::from(KeyCode::Char('c'))), Command::Nothing);
    assert_eq!(command_for(with_control(KeyCode::Char('q'))), Command::Quit);
    assert_eq!(command_for(KeyEvent::from(KeyCode::Char('1'))), Command::SelectPanel(0));
    assert_eq!(command_for(KeyEvent::from(KeyCode::Char('9'))), Command::SelectPanel(8));
    assert_eq!(command_for(KeyEvent::from(KeyCode::Char('0'))), Command::Nothing);
    assert_eq!(command_for(KeyEvent::from(KeyCode::PageUp)), Command::ScrollUp(20));
    assert_eq!(command_for(KeyEvent::from(KeyCode::Char('j'))), Command::ScrollDown(1));
    assert_eq!(command_for(KeyEvent::from(KeyCode::Char('g'))), Command::ScrollToTop);
    assert_eq!(command_for(KeyEvent::from(KeyCode::Other)), Command::Nothing);
}

#[test]
fn scrolling_concerns_the_selected_panel_alone() {
    let mut app = app_with(&["a.txt", "b.txt", "c.txt"]);
    press(&mut app, KeyCode::Tab);
    press(&mut app, KeyCode::PageUp);
    press(&mut app, KeyCode::Up);
    assert_eq!(app.scroll_offsets, vec![0, 21, 0]);
    press(&mut app, KeyCode::Char('g'));
    assert_eq!(app.scroll_offsets, vec![0, 1, 0]);
}

#[test]
fn scrolling_does_not_overflow() {
    let mut app = app_with(&["a.txt"]);
    app.scroll_offsets[0] = usize::MAX - 5;
    press(&mut app, KeyCode::PageUp);
    assert_eq!(app.scroll_offsets[0], usize::MAX);
    press(&mut app, KeyCode::Up);
    assert_eq!(app.scroll_offsets[0], usize::MAX);
}

#[test]
fn dispatch_event_key_quit() {
    let mut app = App::new(&make_args());
    let request = dispatch_event(&mut app, AppEvent::Key(KeyEvent::from(KeyCode::Char('q'))));
    assert!(request.is_none());
    assert!(app.should_quit);
}

#[test]
fn dispatch_event_resize() {
    let mut app = App::new(&make_args());
    let request = dispatch_event(&mut app, AppEvent::Resize);
    assert!(request.is_none());
    assert!(!app.should_quit);
}

/// Dispatch a change of a file that holds some text.
fn dispatch_changed(app: &mut App, name: &str, content: &str) {
    let request = dispatch_event(app, AppEvent::FileChanged(path(name))).unwrap();
    answer(app, request, Some(content));
}

#[test]
fn dispatch_event_file_changed() {
    let mut app = App::new(&make_args());
    dispatch_changed(&mut app, "test.txt", "hello\n");
    assert_eq!(app.tracker.active_count(), 1);
}

#[test]
fn dispatch_event_file_deleted() {
    let mut app = App::new(&make_args());
    dispatch_changed(&mut app, "test.txt", "hello\n");
    assert_eq!(app.tracker.active_count(), 1);
    dispatch_event(&mut app, AppEvent::FileDeleted(path("test.txt")));
    assert!(app.tracker.panels[0].is_deleted);
}

#[test]
fn dispatch_event_tick_gc() {
    let mut app = App::new(&make_args());
    app.stale_timeout = 0;
    dispatch_changed(&mut app, "test.txt", "hello\n");
    dispatch_event(&mut app, AppEvent::FileDeleted(path("test.txt")));
    dispatch_event(&mut app, AppEvent::Tick);
    assert_eq!(app.tracker.active_count(), 0);
}

#[test]
fn a_tick_sweeps_stale_panels_and_moves_the_selection() {
    let mut app = App::new(&make_args());
    let content = || Some(FileContent { lines: vec!["x".to_string()], size: 2, mtime: Some(0) });
    file_read_at(&mut app, path("a"), content(), 100, 0);
    file_read_at(&mut app, path("b"), content(), 200, 0);
    app.selected_panel = 1;
    app.stale_timeout = 50;
    dispatch_event_at(&mut app, AppEvent::FileDeleted(path("b")), 210);
    dispatch_event_at(&mut app, AppEvent::Tick, 250);
    assert_eq!(app.tracker.active_count(), 2);
    dispatch_event_at(&mut app, AppEvent::Tick, 251);
    assert_eq!(app.tracker.active_count(), 1);
    assert_eq!(app.tracker.panels[0].display_name, "a");
    assert_eq!(app.selected_panel, 0);
}

#[test]
fn requests_say_what_to_read() {
    let mut app = App::new(&make_args());
    match handle_file_changed(&app, path("a")) {
        FileRequest::Tail { path: p, max_lines } => {
            assert!(p.same_as(&path("a")));
            assert_eq!(max_lines, 50);
        }
        _ => panic!("not a tail"),
    }
    changed(&mut app, "a", Some("12345\n"));
    match handle_file_changed(&app, path("a")) {
        FileRequest::NewContent { path: p, last_size, max_lines } => {
            assert!(p.same_as(&path("a")));
            assert_eq!(last_size, 6);
            assert_eq!(max_lines, 50);
        }
        _ => panic!("not new content"),
    }
}

#[test]
fn processes_are_looked_up_until_they_are_known() {
    let mut app = App::new(&make_args());
    let url = Some("http://llm".to_string());
    assert_eq!(changed(&mut app, "a", Some("x\n")), Some(0));
    assert!(process_found(&mut app, 0, &path("a"), None, &url, &None).is_none());
    assert_eq!(changed(&mut app, "a", Some("x\ny\n")), Some(0));
    let request =
        process_found(&mut app, 0, &path("a"), Some("make".to_string()), &url, &None).unwrap();
    assert_eq!(request.cmd, "make");
    assert_eq!(request.api_url, "http://llm");
    assert!(request.path.same_as(&path("a")));
    assert!(request.log_file.is_none());
    assert_eq!(changed(&mut app, "a", Some("x\ny\nz\n")), None);
    assert_eq!(changed(&mut app, "missing", None), None);
    let without = process_found(&mut app, 0, &path("a"), Some("cc".to_string()), &None, &None);
    assert!(without.is_none());
    assert_eq!(app.tracker.panels[0].process_cmd, Some("cc".to_string()));
}

#[test]
fn summaries_reach_the_panel_of_their_file() {
    let mut app = App::new(&make_args());
    changed(&mut app, "a", Some("x\n"));
    changed(&mut app, "b", Some("x\n"));
    let ready = |name: &str| AppEvent::ProcessSummaryReady {
        path: path(name),
        summary: "builds".to_string(),
    };
    dispatch_event(&mut app, ready("b"));
    dispatch_event(&mut app, ready("unknown"));
    assert_eq!(app.tracker.panels[0].process_summary, None);
    assert_eq!(app.tracker.panels[1].process_summary, Some("builds".to_string()));
}

#[test]
fn opened_files_take_their_modification_time_or_today() {
    let mut app = App::new(&make_args());
    let content = |mtime: Option<i128>| FileContent { lines: Vec::new(), size: 0, mtime };
    assert_eq!(open_file_at(&mut app, path("a"), content(Some(5)), 1, 9), 0);
    assert_eq!(open_file_at(&mut app, path("b"), content(None), 1, 9), 1);
    assert_eq!(app.tracker.panels[0].file_mtime, 5);
    assert_eq!(app.tracker.panels[1].file_mtime, 9);
    assert_eq!(open_file(&mut app, path("a"), content(Some(7))), 0);
    assert_eq!(app.tracker.panels[0].file_mtime, 7);
}

#[test]
fn the_program_starts_with_nothing() {
    let app = App::new(&Args::default());
    assert_eq!(app.max_panels, 4);
    assert_eq!(app.tail_lines, 50);
    assert_eq!(app.stale_timeout, 30_000_000_000);
    assert_eq!(app.tracker.watch_root.display(), ".");
    assert_eq!(app.tracker.active_count(), 0);
    assert_eq!(Args::default().tick_rate_ms, 250);
    assert_eq!(Args::default().scan_back_minutes, 30);
}
