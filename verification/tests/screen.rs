use logwatcher::app::App;
use logwatcher::cli::Args;
use logwatcher::keys::{handle_key, KeyCode, KeyEvent};
use logwatcher::layout::{
    bordered_inner, centered_rect, compute_grid, split_off_bottom, Rect,
};
use logwatcher::path::FilePath;
use logwatcher::ui::{
    can_render_bar, format_elapsed_at, format_elapsed_since, render, render_at, render_bar,
    render_help, render_panel, BarText, HelpStyle, Panel, Screen, Scrollbar, TitleStyle,
};

const SECOND: i128 = 1_000_000_000;

fn make_app(max_panels: usize) -> App {
    App::new(&Args { dir: FilePath::from_text("/tmp"), max_panels, ..Args::default() })
}

fn path(text: &str) -> FilePath {
    FilePath::from_text(text)
}

fn lines(texts: &[&str]) -> Vec<String> {
    texts.iter().map(|t| t.to_string()).collect()
}

fn numbered(count: usize) -> Vec<String> {
    (0..count).map(|i| format!("line {}", i)).collect()
}

fn area(width: u16, height: u16) -> Rect {
    Rect { x: 0, y: 0, width, height }
}

fn now() -> i128 {
    std::time::SystemTime::now()
        .duration_since(std::time::UNIX_EPOCH)
        .unwrap()
        .as_nanos() as i128
}

/// All texts that the screen shows.
fn shown(app: &App, area: Rect) -> String {
    let mut s = String::new();
    match render(app, area) {
        Screen::Help { title, lines, .. } => {
            s.push_str(&title);
            for line in lines {
                s.push_str(&line.text);
            }
        }
        Screen::Empty { title, .. } => s.push_str(&title),
        Screen::Panels(panels) => {
            for (i, panel) in panels.iter().enumerate() {
                s.push_str(&panel.title);
                s.push_str(&panel.footer);
                if let Some(content) = &panel.content {
                    s.push_str(&content.text);
                }
                if let Some(bar) = panel.bar_area {
                    match render_bar(&app.tracker.panels[i], bar.width).unwrap() {
                        BarText::Summary { summary, cmd } => {
                            s.push_str(&summary);
                            s.push_str(&cmd.unwrap_or_default());
                        }
                        BarText::Command(cmd) => s.push_str(&cmd),
                    }
                }
            }
        }
    }
    s
}

/// The panels that the screen shows.
fn panels(app: &App, area: Rect) -> Vec<Panel> {
    match render(app, area) {
        Screen::Panels(panels) => panels,
        _ => panic!("no panels"),
    }
}

#[test]
fn format_elapsed_seconds() {
    let result = format_elapsed_since(now() - 5 * SECOND);
    assert!(result.ends_with("s ago"));
}

#[test]
fn format_elapsed_minutes() {
    assert_eq!(format_elapsed_since(now() - 120 * SECOND), "2m ago");
}

#[test]
fn format_elapsed_hours() {
    assert_eq!(format_elapsed_since(now() - 7200 * SECOND), "2h ago");
}

#[test]
fn format_elapsed_just_now() {
    assert_eq!(format_elapsed_since(now()), "0s ago");
}

#[test]
fn elapsed_times_change_units() {
    let at = |seconds: i128| format_elapsed_at(0, seconds * SECOND);
    assert_eq!(at(0), "0s ago");
    assert_eq!(at(59), "59s ago");
    assert_eq!(at(60), "1m ago");
    assert_eq!(at(3599), "59m ago");
    assert_eq!(at(3600), "1h ago");
    assert_eq!(at(100 * 3600), "100h ago");
    assert_eq!(format_elapsed_at(0, SECOND - 1), "0s ago");
    assert_eq!(format_elapsed_at(5 * SECOND, 0), "0s ago");
}

#[test]
fn compute_grid_returns_correct_count() {
    let area = area(100, 50);
    assert_eq!(compute_grid(area, 0).len(), 0);
    assert_eq!(compute_grid(area, 1).len(), 1);
    assert_eq!(compute_grid(area, 2).len(), 2);
    assert_eq!(compute_grid(area, 4).len(), 4);
    assert_eq!(compute_grid(area, 6).len(), 6);
}

#[test]
fn grids_are_cut_at_the_nearest_cells() {
    let whole = area(100, 51);
    assert_eq!(compute_grid(whole, 1), vec![whole]);
    assert_eq!(
        compute_grid(whole, 2),
        vec![
            Rect { x: 0, y: 0, width: 100, height: 26 },
            Rect { x: 0, y: 26, width: 100, height: 25 },
        ]
    );
    assert_eq!(
        compute_grid(whole, 3),
        vec![
            Rect { x: 0, y: 0, width: 50, height: 26 },
            Rect { x: 50, y: 0, width: 50, height: 26 },
            Rect { x: 0, y: 26, width: 100, height: 25 },
        ]
    );
    assert_eq!(
        compute_grid(area(100, 50), 5),
        vec![
            Rect { x: 0, y: 0, width: 33, height: 25 },
            Rect { x: 33, y: 0, width: 34, height: 25 },
            Rect { x: 67, y: 0, width: 33, height: 25 },
            Rect { x: 0, y: 25, width: 50, height: 25 },
            Rect { x: 50, y: 25, width: 50, height: 25 },
        ]
    );
}

/// The cell nearest to a fraction of an extent, the farther one of two.
fn cut(from: u64, to: u64, num: u64, den: u64) -> u16 {
    ((2 * (from * den + (to - from) * num) + den) / (2 * den)) as u16
}

/// The cells of a grid as its rows and columns are cut.
fn expected_grid(a: Rect, n: usize) -> Vec<Rect> {
    let (mut cols, mut rows) = (1, n);
    if n != 2 {
        while cols * cols < n {
            cols += 1;
        }
        rows = (n + cols - 1) / cols;
    }
    let mut cells = Vec::new();
    for i in 0..n {
        let (row, col) = (i / cols, (i % cols) as u64);
        let count = (n - row * cols).min(cols) as u64;
        let (top, bottom) = (a.y as u64, a.bottom() as u64);
        let (left, right) = (a.x as u64, a.right() as u64);
        let y = cut(top, bottom, row as u64, rows as u64);
        let x = cut(left, right, col, count);
        cells.push(Rect {
            x,
            y,
            width: cut(left, right, col + 1, count) - x,
            height: cut(top, bottom, row as u64 + 1, rows as u64) - y,
        });
    }
    cells
}

#[test]
fn grids_agree_with_their_cuts() {
    for n in 1..=40usize {
        for (width, height) in [(0, 0), (1, 1), (3, 2), (7, 13), (80, 24), (211, 63), (65535, 999)] {
            let a = area(width, height);
            assert_eq!(compute_grid(a, n), expected_grid(a, n), "{} in {:?}", n, a);
            let b = Rect { x: 17, y: 5, width: width.min(60000), height };
            assert_eq!(compute_grid(b, n), expected_grid(b, n), "{} in {:?}", n, b);
        }
    }
}

#[test]
fn grids_cover_the_screen_without_overlaps() {
    let a = area(37, 23);
    for n in 1..=12 {
        let cells = compute_grid(a, n);
        for x in 0..a.width {
            for y in 0..a.height {
                let covering = cells
                    .iter()
                    .filter(|c| c.x <= x && x < c.right() && c.y <= y && y < c.bottom())
                    .count();
                assert_eq!(covering, 1);
            }
        }
    }
}

#[test]
fn large_grids_fill_their_rows_in_order() {
    let a = Rect { x: 3, y: 5, width: 450, height: 1 };
    let cells = compute_grid(a, 10_101);
    assert_eq!(cells.len(), 10_101);
    let mut top = a.y;
    for row in cells.chunks(101) {
        let mut left = a.x;
        for cell in row {
            assert_eq!(cell.x, left);
            assert_eq!(cell.y, top);
            assert_eq!(cell.height, row[0].height);
            left = cell.right();
        }
        assert_eq!(left, a.right());
        top = row[0].bottom();
    }
    assert_eq!(top, a.bottom());
}

#[test]
fn render_empty_shows_no_files() {
    let app = make_app(4);
    assert!(shown(&app, area(80, 24)).contains("no files"));
}

#[test]
fn render_one_panel() {
    let mut app = make_app(4);
    app.tracker.file_modified(path("/tmp/test.log"), lines(&["hello world", "second line"]), 24);
    app.ensure_scroll_offset(0);
    let content = shown(&app, area(80, 24));
    assert!(content.contains("test.log"));
    assert!(content.contains("hello world"));
}

fn two_panels() -> App {
    let mut app = make_app(4);
    app.tracker.file_modified(path("/tmp/a.log"), lines(&["aaa"]), 4);
    app.tracker.file_modified(path("/tmp/b.log"), lines(&["bbb"]), 4);
    app.ensure_scroll_offset(1);
    app
}

#[test]
fn render_two_panels() {
    let content = shown(&two_panels(), area(80, 24));
    assert!(content.contains("a.log"));
    assert!(content.contains("b.log"));
}

#[test]
fn render_selected_panel() {
    let mut app = two_panels();
    app.selected_panel = 1;
    assert!(shown(&app, area(80, 24)).contains("b.log"));
    let drawn = panels(&app, area(80, 24));
    assert_eq!(drawn[0].title_style, TitleStyle::Plain);
    assert!(!drawn[0].selected);
    assert_eq!(drawn[1].title_style, TitleStyle::Selected);
    assert!(drawn[1].selected);
}

#[test]
fn render_deleted_panel() {
    let mut app = make_app(4);
    app.tracker.file_modified(path("/tmp/gone.log"), lines(&["old data"]), 9);
    app.tracker.file_deleted(&path("/tmp/gone.log"));
    app.ensure_scroll_offset(0);
    assert!(shown(&app, area(80, 24)).contains("deleted"));
    let drawn = panels(&app, area(80, 24));
    assert_eq!(drawn[0].title, " [1] gone.log [deleted] ");
    assert_eq!(drawn[0].title_style, TitleStyle::Deleted);
}

#[test]
fn render_panel_with_process_cmd() {
    let mut app = make_app(4);
    app.tracker.file_modified(path("/tmp/out.log"), lines(&["output"]), 7);
    app.tracker.panels[0].process_cmd = Some("tail -f /tmp/out.log".to_string());
    app.ensure_scroll_offset(0);
    let content = shown(&app, area(80, 24));
    assert!(content.contains("tail -f /tmp/out.log"));
    assert!(!content.contains("(tail -f"));
}

#[test]
fn render_panel_with_long_process_cmd() {
    let mut app = make_app(4);
    app.tracker.file_modified(path("/tmp/out.log"), lines(&["output"]), 7);
    app.tracker.panels[0].process_cmd = Some("a".repeat(200));
    app.ensure_scroll_offset(0);
    let content = shown(&app, area(80, 24));
    assert!(content.contains("..."));
    assert!(content.contains(&format!("{}...", "a".repeat(153))));
    assert!(!content.contains(&"a".repeat(154)));
}

#[test]
fn render_help_overlay() {
    let mut app = make_app(4);
    app.show_help = true;
    let content = shown(&app, area(80, 40));
    assert!(content.contains("Help"));
    assert!(content.contains("Tab"));
    assert!(content.contains("Quit"));
}

#[test]
fn the_help_has_headings() {
    let lines = render_help();
    assert_eq!(lines.len(), 16);
    assert_eq!(lines[0].style, HelpStyle::Title);
    assert_eq!(lines[0].text, "Logwatcher - Help");
    let headings: Vec<&str> = lines
        .iter()
        .filter(|l| l.style == HelpStyle::Heading)
        .map(|l| l.text.as_str())
        .collect();
    assert_eq!(headings, vec!["Navigation", "Scrolling", "General"]);
    let mut app = make_app(4);
    app.show_help = true;
    match render_at(&app, area(100, 50), 0) {
        Screen::Help { area, title, .. } => {
            assert_eq!(area, Rect { x: 20, y: 8, width: 60, height: 35 });
            assert_eq!(title, " Help ");
        }
        _ => panic!("no help"),
    }
}

fn big_app() -> App {
    let mut app = make_app(4);
    app.tracker.file_modified(path("/tmp/big.log"), numbered(100), 5000);
    app.ensure_scroll_offset(0);
    app
}

#[test]
fn render_with_scrollbar() {
    let drawn = panels(&big_app(), area(80, 24));
    let content = drawn[0].content.as_ref().unwrap();
    assert_eq!(content.scrollbar, Some(Scrollbar { total: 100, position: 78 }));
    assert!(content.text.starts_with("line 78\nline 79\n"));
    assert!(content.text.ends_with("\nline 99"));
}

#[test]
fn render_scrolled_up_panel() {
    let mut app = big_app();
    app.scroll_offsets[0] = 50;
    assert!(!shown(&app, area(80, 24)).contains("line 99"));
    let drawn = panels(&app, area(80, 24));
    let content = drawn[0].content.as_ref().unwrap();
    assert!(content.text.starts_with("line 28\n"));
    assert!(content.text.ends_with("\nline 49"));
}

#[test]
fn centered_rect_fits_inside() {
    let outer = area(100, 50);
    let inner = centered_rect(60, 70, outer);
    assert!(inner.x >= outer.x);
    assert!(inner.y >= outer.y);
    assert!(inner.right() <= outer.right());
    assert!(inner.bottom() <= outer.bottom());
    assert!(inner.width > 0);
    assert!(inner.height > 0);
}

#[test]
fn centered_rects_agree_with_their_cuts() {
    for (width, height) in [(0, 0), (1, 1), (9, 4), (80, 24), (100, 50), (213, 77), (65000, 3)] {
        let r = Rect { x: 3, y: 11, width, height };
        for percent in [0, 1, 15, 33, 60, 70, 99, 100] {
            let side = (100 - percent) / 2;
            let (from, to) = (r.x as u64, r.right() as u64);
            let left = cut(from, to, side, 100);
            let right = cut(from, to, side + percent, 100);
            let (from, to) = (r.y as u64, r.bottom() as u64);
            let top = cut(from, to, side, 100);
            let bottom = cut(from, to, side + percent, 100);
            assert_eq!(
                centered_rect(percent as u16, percent as u16, r),
                Rect { x: left, y: top, width: right - left, height: bottom - top }
            );
        }
    }
}

#[test]
fn render_scroll_beyond_content() {
    let mut app = make_app(4);
    app.tracker.file_modified(path("/tmp/small.log"), lines(&["line1", "line2"]), 12);
    app.ensure_scroll_offset(0);
    app.scroll_offsets[0] = 999;
    let drawn = panels(&app, area(80, 24));
    assert_eq!(drawn[0].content.as_ref().unwrap().text, "");
}

#[test]
fn render_scrollbar_at_top() {
    let mut app = big_app();
    app.scroll_offsets[0] = 90;
    let drawn = panels(&app, area(80, 24));
    let content = drawn[0].content.as_ref().unwrap();
    assert_eq!(content.scrollbar, Some(Scrollbar { total: 100, position: 0 }));
    assert!(content.text.starts_with("line 0\n"));
    assert!(content.text.ends_with("\nline 9"));
}

#[test]
fn jumping_to_the_top_shows_the_first_lines() {
    let mut app = big_app();
    handle_key(&mut app, KeyEvent::from(KeyCode::Home));
    assert_eq!(app.scroll_offsets[0], 100);
    let drawn = panels(&app, area(80, 24));
    let content = drawn[0].content.as_ref().unwrap();
    assert!(content.text.starts_with("line 0\nline 1\n"));
    assert!(content.text.ends_with("\nline 21"));
    assert_eq!(content.scrollbar, Some(Scrollbar { total: 100, position: 0 }));
    handle_key(&mut app, KeyEvent::from(KeyCode::Up));
    let drawn = panels(&app, area(80, 24));
    assert_eq!(drawn[0].content.as_ref().unwrap().text, "");
}

#[test]
fn jumping_to_the_top_of_a_short_file_shows_all_of_it() {
    let mut app = make_app(4);
    app.tracker.file_modified(path("/tmp/a.log"), numbered(20), 100);
    app.ensure_scroll_offset(0);
    handle_key(&mut app, KeyEvent::from(KeyCode::Char('g')));
    assert_eq!(app.scroll_offsets[0], 20);
    let drawn = panels(&app, area(80, 24));
    let content = drawn[0].content.as_ref().unwrap();
    assert_eq!(content.text, numbered(20).join("\n"));
    assert_eq!(content.scrollbar, None);
}

#[test]
fn scrolling_as_far_as_possible_shows_nothing() {
    let mut app = big_app();
    app.scroll_offsets[0] = usize::MAX;
    let drawn = panels(&app, area(80, 24));
    let content = drawn[0].content.as_ref().unwrap();
    assert_eq!(content.text, "");
    assert_eq!(content.scrollbar, Some(Scrollbar { total: 100, position: 0 }));
}

#[test]
fn borders_take_a_cell_on_each_side() {
    assert_eq!(
        bordered_inner(Rect { x: 2, y: 3, width: 10, height: 5 }),
        Rect { x: 3, y: 4, width: 8, height: 3 }
    );
    assert_eq!(
        bordered_inner(Rect { x: 2, y: 3, width: 1, height: 0 }),
        Rect { x: 3, y: 3, width: 0, height: 0 }
    );
    assert_eq!(
        bordered_inner(Rect { x: 65535, y: 65535, width: 0, height: 0 }),
        Rect { x: 65535, y: 65535, width: 0, height: 0 }
    );
}

#[test]
fn the_bar_takes_the_last_rows() {
    for height in 2..60 {
        let r = Rect { x: 4, y: 7, width: 9, height };
        assert_eq!(
            split_off_bottom(r, 2),
            (
                Rect { x: 4, y: 7, width: 9, height: height - 2 },
                Rect { x: 4, y: 7 + height - 2, width: 9, height: 2 },
            )
        );
    }
    let r = area(5, 8);
    assert_eq!(split_off_bottom(r, 8), (area(5, 0), area(5, 8)));
    assert_eq!(split_off_bottom(r, 0).0, r);
}

#[test]
fn panels_show_the_parts_of_a_file() {
    let mut app = make_app(4);
    app.tracker.file_modified_at(path("/tmp/sub/a.log"), lines(&["x"]), 2, 0, 0);
    let panel = render_panel(&app, 0, area(20, 6), 125 * SECOND);
    assert_eq!(panel.title, " [1] sub/a.log ");
    assert_eq!(panel.footer, " 2m ago ");
    assert_eq!(panel.area, area(20, 6));
    assert_eq!(panel.bar_area, None);
    let content = panel.content.unwrap();
    assert_eq!(content.area, Rect { x: 1, y: 1, width: 18, height: 4 });
    assert_eq!(content.text, "x");
    assert_eq!(content.scrollbar, None);
}

#[test]
fn a_bar_needs_room() {
    let mut app = make_app(4);
    app.tracker.file_modified(path("/tmp/a.log"), lines(&["x"]), 2);
    app.tracker.panels[0].process_summary = Some("builds".to_string());
    let at = |height: u16| render_panel(&app, 0, area(20, height), 0);
    assert_eq!(at(4).bar_area, None);
    assert_eq!(at(4).content.unwrap().area.height, 2);
    assert_eq!(at(5).bar_area, Some(Rect { x: 1, y: 2, width: 18, height: 2 }));
    assert_eq!(at(5).content.unwrap().area.height, 1);
    assert!(at(2).content.is_none());
}

#[test]
fn bars_hold_the_summary_and_the_command() {
    let mut app = make_app(4);
    app.tracker.file_modified(path("/tmp/a.log"), Vec::new(), 0);
    let file = &mut app.tracker.panels[0];
    assert!(render_bar(file, 10).is_none());
    file.process_cmd = Some("0123456789".to_string());
    assert!(matches!(render_bar(file, 5), Some(BarText::Command(c)) if c == "0123456789"));
    assert!(matches!(render_bar(file, 4), Some(BarText::Command(c)) if c == "01234..."));
    assert!(matches!(render_bar(file, 1), Some(BarText::Command(c)) if c == "..."));
    file.process_summary = Some("counts".to_string());
    assert!(matches!(
        render_bar(file, 13),
        Some(BarText::Summary { summary, cmd: Some(c) }) if summary == "counts" && c == "0123456789"
    ));
    assert!(matches!(
        render_bar(file, 12),
        Some(BarText::Summary { cmd: Some(c), .. }) if c == "012345678..."
    ));
    file.process_cmd = None;
    assert!(matches!(
        render_bar(file, 2),
        Some(BarText::Summary { summary, cmd: None }) if summary == "counts"
    ));
}

#[test]
fn commands_are_cut_between_characters_alone() {
    let mut app = make_app(4);
    app.tracker.file_modified(path("/tmp/a.log"), Vec::new(), 0);
    let file = &mut app.tracker.panels[0];
    assert!(can_render_bar(file, 0));
    file.process_cmd = Some("\u{e4}\u{e4}\u{e4}\u{e4}\u{e4}\u{e4}".to_string());
    assert!(can_render_bar(file, 6));
    assert!(!can_render_bar(file, 5));
    file.process_summary = Some("s".to_string());
    assert!(can_render_bar(file, 15));
    assert!(!can_render_bar(file, 14));
    assert!(can_render_bar(file, 13));
}
