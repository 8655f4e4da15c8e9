//! What the screen shows.

use crate::app::{App, AppView};
use crate::clock::{nanos_between, time_between, time_of_day, NANOS_PER_SECOND};
use crate::dispatch::FileContentView;
use crate::file_tracker::{lemma_find_panel, lemma_modified, TrackedFile, TrackedFileView};
use crate::keys::Command;
use crate::layout::{
    bordered_inner, centered, centered_rect, compute_grid, grid_cell, inside_border, is_layout,
    piece,
    split_off_bottom, Axis, Rect,
};
use crate::path::same_path;
use crate::tail_reader::last_n;
use crate::text::{
    allows_truncation, can_truncate, decimal, opt_text, push_decimal, texts, truncate, truncated,
};
use vstd::prelude::*;

verus! {

/// A length of time in words, in the largest unit that is not zero.
pub open spec fn elapsed_text(seconds: nat) -> Seq<char> {
    if seconds < 60 {
        decimal(seconds) + "s ago"@
    } else if seconds < 3600 {
        decimal(seconds / 60) + "m ago"@
    } else {
        decimal(seconds / 3600) + "h ago"@
    }
}

/// How long ago a file was modified, in words; a time to come counts as now.
pub open spec fn elapsed_since(mtime: int, now: int) -> Seq<char> {
    elapsed_text((time_between(mtime, now) / (NANOS_PER_SECOND as int)) as nat)
}

/// How long ago a file was modified, in words. Both times are in nanoseconds since the Unix
/// epoch.
pub fn format_elapsed_at(mtime: i128, now: i128) -> (r: String)
    ensures
        r@ == elapsed_since(mtime as int, now as int),
{
    let seconds: u128 = nanos_between(mtime, now) / NANOS_PER_SECOND;
    let mut r = String::new();
    if seconds < 60 {
        push_decimal(&mut r, seconds);
        assert(r@ == decimal(seconds as nat));
        r.append("s ago");
    } else if seconds < 3600 {
        push_decimal(&mut r, seconds / 60);
        assert(r@ == decimal(seconds as nat / 60));
        r.append("m ago");
    } else {
        push_decimal(&mut r, seconds / 3600);
        assert(r@ == decimal(seconds as nat / 3600));
        r.append("h ago");
    }
    r
}

/// How long ago a file was modified, in words, at this moment.
pub fn format_elapsed_since(mtime: i128) -> (r: String)
    ensures
        exists|now: i128| r@ == #[trigger] elapsed_since(mtime as int, now as int),
{
    let now: i128 = time_of_day();
    format_elapsed_at(mtime, now)
}

/// How the title of a panel is set off.
#[derive(Clone, Copy, Debug, PartialEq, Eq, Structural)]
pub enum TitleStyle {
    Deleted,
    Selected,
    Plain,
}

/// The bar that tells which lines of a file are shown.
#[derive(Clone, Copy, Debug, PartialEq, Eq, Structural)]
pub struct Scrollbar {
    /// The number of lines.
    pub total: usize,
    /// The first line that is shown.
    pub position: usize,
}

/// The lines of a file that are shown.
#[derive(Debug)]
pub struct Content {
    pub area: Rect,
    pub text: String,
    pub scrollbar: Option<Scrollbar>,
}

/// What is drawn of one file.
#[derive(Debug)]
pub struct Panel {
    pub area: Rect,
    pub title: String,
    pub title_style: TitleStyle,
    pub selected: bool,
    /// How long ago the file was modified.
    pub footer: String,
    /// Nothing where there is no room.
    pub content: Option<Content>,
    /// Where the process that writes the file is named, if it is.
    pub bar_area: Option<Rect>,
}

/// The title of the panel at an index.
pub open spec fn panel_title(file: TrackedFileView, i: int) -> Seq<char> {
    " ["@ + decimal((i + 1) as nat) + "] "@ + file.display_name + (if file.is_deleted {
        " [deleted]"@
    } else {
        ""@
    }) + " "@
}

/// How the title of a panel is set off: a deleted file before the selection.
pub open spec fn title_style(file: TrackedFileView, selected: bool) -> TitleStyle {
    if file.is_deleted {
        TitleStyle::Deleted
    } else if selected {
        TitleStyle::Selected
    } else {
        TitleStyle::Plain
    }
}

/// Whether a panel has a bar that names the process: it is known, and there is room for more
/// than the bar.
pub open spec fn has_bar(file: TrackedFileView, area: Rect) -> bool {
    (file.process_cmd is Some || file.process_summary is Some) && inside_border(
        area,
    ).height > 2
}

/// Where the process is named: in the last two rows inside the border.
pub open spec fn bar_area(file: TrackedFileView, area: Rect) -> Option<Rect> {
    let inner = inside_border(area);
    if has_bar(file, area) {
        Some(piece(Axis::Vertical, inner, inner.bottom_edge() - 2, inner.bottom_edge()))
    } else {
        None
    }
}

/// Where the lines are shown: inside the border, above the bar.
pub open spec fn content_area(file: TrackedFileView, area: Rect) -> Rect {
    let inner = inside_border(area);
    if has_bar(file, area) {
        piece(Axis::Vertical, inner, inner.y as int, inner.bottom_edge() - 2)
    } else {
        inner
    }
}

/// The line behind the last one that is shown, of a file scrolled up by some lines. A file that
/// is scrolled up by as many lines as it has shows its first page.
pub open spec fn window_end(total: int, scroll: int, height: int) -> int {
    if total > scroll {
        total - scroll
    } else if total < scroll {
        0
    } else if total > height {
        height
    } else {
        total
    }
}

/// The first line that is shown.
pub open spec fn window_start(total: int, scroll: int, height: int) -> int {
    if window_end(total, scroll, height) > height {
        window_end(total, scroll, height) - height
    } else {
        0
    }
}

/// The lines that are shown.
pub open spec fn visible<T>(lines: Seq<T>, scroll: int, height: int) -> Seq<T> {
    lines.subrange(
        window_start(lines.len() as int, scroll, height),
        window_end(lines.len() as int, scroll, height),
    )
}

/// Lines with a line feed between them.
pub open spec fn joined(lines: Seq<Seq<char>>) -> Seq<char>
    decreases lines.len(),
{
    if lines.len() == 0 {
        Seq::empty()
    } else if lines.len() == 1 {
        lines[0]
    } else {
        joined(lines.drop_last()) + "\n"@ + lines.last()
    }
}

/// The scrollbar, where there are more lines than rows.
pub open spec fn scrollbar_of(total: int, scroll: int, height: int) -> Option<Scrollbar> {
    if total > height {
        Some(
            Scrollbar {
                total: total as usize,
                position: (if total > scroll + height {
                    total - scroll - height
                } else {
                    0
                }) as usize,
            },
        )
    } else {
        None
    }
}

/// The scroll offset of a panel, which is zero until it is scrolled.
pub open spec fn scroll_of(app: AppView, i: int) -> int {
    if i < app.scroll_offsets.len() {
        app.scroll_offsets[i] as int
    } else {
        0
    }
}

/// What is drawn shows the lines of a file that it should.
pub open spec fn shows_content(
    content: Content,
    lines: Seq<Seq<char>>,
    scroll: int,
    area: Rect,
) -> bool {
    &&& content.area == area
    &&& content.text@ == joined(visible(lines, scroll, area.height as int))
    &&& content.scrollbar == scrollbar_of(lines.len() as int, scroll, area.height as int)
}

/// What is drawn shows the panel at an index in its area at some time of day.
pub open spec fn shows_panel(panel: Panel, app: AppView, i: int, area: Rect, now: int) -> bool {
    let file = app.tracker.panels[i];
    &&& panel.area == area
    &&& panel.title@ == panel_title(file, i)
    &&& panel.title_style == title_style(file, i == app.selected_panel)
    &&& panel.selected == (i == app.selected_panel)
    &&& panel.footer@ == " "@ + elapsed_since(file.file_mtime, now) + " "@
    &&& panel.bar_area == bar_area(file, area)
    &&& panel.content is Some <==> content_area(file, area).height > 0
    &&& panel.content matches Some(content) ==> shows_content(
        content,
        file.lines,
        scroll_of(app, i),
        content_area(file, area),
    )
}

/// Join lines with a line feed between them.
fn join_lines(lines: &Vec<String>, from: usize, to: usize) -> (r: String)
    requires
        from <= to <= lines@.len(),
    ensures
        r@ == joined(texts(lines@).subrange(from as int, to as int)),
{
    let mut r = String::new();
    let mut i: usize = from;
    while i < to
        invariant
            from <= i <= to <= lines@.len(),
            r@ == joined(texts(lines@).subrange(from as int, i as int)),
        decreases to - i,
    {
        proof {
            let next = texts(lines@).subrange(from as int, i + 1);
            assert(next.drop_last() == texts(lines@).subrange(from as int, i as int));
            assert(next.last() == lines@[i as int]@);
            assert(Seq::<char>::empty() + lines@[i as int]@ == lines@[i as int]@);
        }
        if i > from {
            r.append("\n");
        }
        r.append(lines[i].as_str());
        i += 1;
    }
    r
}

/// The lines of a file that are shown in an area.
fn render_content(file: &TrackedFile, scroll: usize, area: Rect) -> (r: Content)
    ensures
        shows_content(r, file@.lines, scroll as int, area),
{
    let height: usize = area.height as usize;
    let total: usize = file.lines.len();
    let end: usize = if total > scroll {
        total - scroll
    } else if total < scroll {
        0
    } else if total > height {
        height
    } else {
        total
    };
    let start: usize = if end > height {
        end - height
    } else {
        0
    };
    let scrollbar = if total > height {
        Some(Scrollbar { total, position: start_of_scrollbar(total, scroll, height) })
    } else {
        None
    };
    Content { area, text: join_lines(&file.lines, start, end), scrollbar }
}

/// Where the scrollbar stands.
fn start_of_scrollbar(total: usize, scroll: usize, height: usize) -> (r: usize)
    ensures
        r == if total > scroll + height {
            total - scroll - height
        } else {
            0
        },
{
    if total > scroll && total - scroll > height {
        total - scroll - height
    } else {
        0
    }
}

/// What is drawn of the panel at an index, in an area and at a time of day in nanoseconds since
/// the Unix epoch.
pub fn render_panel(app: &App, panel_idx: usize, area: Rect, now: i128) -> (r: Panel)
    requires
        panel_idx < app@.active(),
        area.fits(),
    ensures
        shows_panel(r, app@, panel_idx as int, area, now as int),
{
    let file = &app.tracker.panels[panel_idx];
    assert(app@.tracker.panels[panel_idx as int] == file@);
    let selected: bool = panel_idx == app.selected_panel;
    let mut title = " [".to_string();
    push_decimal(&mut title, panel_idx as u128 + 1);
    title.append("] ");
    title.append(file.display_name.as_str());
    title.append(
        if file.is_deleted {
            " [deleted]"
        } else {
            ""
        },
    );
    title.append(" ");
    let title_style = if file.is_deleted {
        TitleStyle::Deleted
    } else if selected {
        TitleStyle::Selected
    } else {
        TitleStyle::Plain
    };
    let mut footer = " ".to_string();
    footer.append(format_elapsed_at(file.file_mtime, now).as_str());
    footer.append(" ");
    let inner = bordered_inner(area);
    let has_bar: bool = file.process_cmd.is_some() || file.process_summary.is_some();
    let mut bar_area: Option<Rect> = None;
    let mut content_area = inner;
    if has_bar && inner.height > 2 {
        let (above, below) = split_off_bottom(inner, 2);
        content_area = above;
        bar_area = Some(below);
    }
    let scroll: usize = if panel_idx < app.scroll_offsets.len() {
        app.scroll_offsets[panel_idx]
    } else {
        0
    };
    let content = if content_area.height == 0 {
        None
    } else {
        Some(render_content(file, scroll, content_area))
    };
    Panel { area, title, title_style, selected, footer, content, bar_area }
}

/// What the bar at the bottom of a panel says of the process that writes the file.
#[derive(Debug)]
pub enum BarText {
    /// A summary in the first row, and the command line in the second, where it is known.
    Summary { summary: String, cmd: Option<String> },
    /// The command line in both rows.
    Command(String),
}

/// What a bar says, apart from how it is stored.
pub enum BarTextView {
    Summary { summary: Seq<char>, cmd: Option<Seq<char>> },
    Command(Seq<char>),
}

impl View for BarText {
    type V = BarTextView;

    open spec fn view(&self) -> BarTextView {
        match self {
            BarText::Summary { summary, cmd } => BarTextView::Summary {
                summary: summary@,
                cmd: opt_text(*cmd),
            },
            BarText::Command(cmd) => BarTextView::Command(cmd@),
        }
    }
}

/// What is left of a number of cells beside an ellipsis.
pub open spec fn before_ellipsis(cells: int) -> int {
    if cells > 3 {
        cells - 3
    } else {
        0
    }
}

/// The command line in one row of a bar. It is cut as soon as it would touch the last three
/// cells.
pub open spec fn one_row(cmd: Seq<char>, width: int) -> Seq<char> {
    truncated(cmd, before_ellipsis(width), before_ellipsis(width), "..."@)
}

/// The command line in two rows of a bar. It is cut where it does not fit.
pub open spec fn two_rows(cmd: Seq<char>, width: int) -> Seq<char> {
    truncated(cmd, 2 * width, before_ellipsis(2 * width), "..."@)
}

/// What the bar of a panel says, where the process that writes the file is known.
pub open spec fn bar_text(file: TrackedFileView, width: int) -> Option<BarTextView> {
    match (file.process_summary, file.process_cmd) {
        (Some(summary), Some(cmd)) => Some(
            BarTextView::Summary { summary, cmd: Some(one_row(cmd, width)) },
        ),
        (Some(summary), None) => Some(BarTextView::Summary { summary, cmd: None }),
        (None, Some(cmd)) => Some(BarTextView::Command(two_rows(cmd, width))),
        (None, None) => None,
    }
}

/// Whether the command line can be cut as the bar of a panel needs it.
pub open spec fn bar_text_fits(file: TrackedFileView, width: int) -> bool {
    match (file.process_summary, file.process_cmd) {
        (Some(_), Some(cmd)) => can_truncate(cmd, before_ellipsis(width), before_ellipsis(width)),
        (None, Some(cmd)) => can_truncate(cmd, 2 * width, before_ellipsis(2 * width)),
        (_, None) => true,
    }
}

/// What is left of a number of cells beside an ellipsis.
fn room_before_ellipsis(cells: usize) -> (r: usize)
    ensures
        r == before_ellipsis(cells as int),
{
    if cells > 3 {
        cells - 3
    } else {
        0
    }
}

/// Whether the command line can be cut as the bar of a panel needs it.
pub fn can_render_bar(file: &TrackedFile, width: u16) -> (r: bool)
    ensures
        r == bar_text_fits(file@, width as int),
{
    match (&file.process_summary, &file.process_cmd) {
        (Some(_), Some(cmd)) => {
            let room: usize = room_before_ellipsis(width as usize);
            allows_truncation(cmd.as_str(), room, room)
        },
        (None, Some(cmd)) => {
            let cells: usize = 2 * (width as usize);
            allows_truncation(cmd.as_str(), cells, room_before_ellipsis(cells))
        },
        (_, None) => true,
    }
}

/// What the bar of a panel says, where the process that writes the file is known.
pub fn render_bar(file: &TrackedFile, width: u16) -> (r: Option<BarText>)
    requires
        bar_text_fits(file@, width as int),
    ensures
        r is Some <==> bar_text(file@, width as int) is Some,
        r matches Some(text) ==> Some(text@) == bar_text(file@, width as int),
{
    match (&file.process_summary, &file.process_cmd) {
        (Some(summary), Some(cmd)) => {
            let room: usize = room_before_ellipsis(width as usize);
            Some(
                BarText::Summary {
                    summary: summary.clone(),
                    cmd: Some(truncate(cmd.as_str(), room, room, "...")),
                },
            )
        },
        (Some(summary), None) => Some(BarText::Summary { summary: summary.clone(), cmd: None }),
        (None, Some(cmd)) => {
            let cells: usize = 2 * (width as usize);
            Some(
                BarText::Command(
                    truncate(cmd.as_str(), cells, room_before_ellipsis(cells), "..."),
                ),
            )
        },
        (None, None) => None,
    }
}

/// How a line of the help is set off.
#[derive(Clone, Copy, Debug, PartialEq, Eq, Structural)]
pub enum HelpStyle {
    Title,
    Heading,
    Plain,
}

/// A line of the help.
#[derive(Debug)]
pub struct HelpLine {
    pub style: HelpStyle,
    pub text: String,
}

/// The lines of the help, apart from how they are stored.
pub open spec fn help_views(lines: Seq<HelpLine>) -> Seq<(HelpStyle, Seq<char>)> {
    lines.map_values(|l: HelpLine| (l.style, l.text@))
}

/// The help.
pub open spec fn help_text() -> Seq<(HelpStyle, Seq<char>)> {
    seq![
        (HelpStyle::Title, "Logwatcher - Help"@),
        (HelpStyle::Plain, ""@),
        (HelpStyle::Heading, "Navigation"@),
        (HelpStyle::Plain, "  Tab / Shift+Tab    Cycle panels"@),
        (HelpStyle::Plain, "  1-9                Select panel directly"@),
        (HelpStyle::Plain, ""@),
        (HelpStyle::Heading, "Scrolling"@),
        (HelpStyle::Plain, "  j / Down           Scroll down (newer)"@),
        (HelpStyle::Plain, "  k / Up             Scroll up (older)"@),
        (HelpStyle::Plain, "  PgUp / PgDn        Scroll by page"@),
        (HelpStyle::Plain, "  G / End            Jump to bottom (follow)"@),
        (HelpStyle::Plain, "  g / Home           Jump to top"@),
        (HelpStyle::Plain, ""@),
        (HelpStyle::Heading, "General"@),
        (HelpStyle::Plain, "  ?                  Toggle this help"@),
        (HelpStyle::Plain, "  q / Esc            Quit"@),
    ]
}

/// A line of the help.
fn help_line(style: HelpStyle, text: &str) -> (r: HelpLine)
    ensures
        r.style == style,
        r.text@ == text@,
{
    HelpLine { style, text: text.to_string() }
}

/// The lines of the help.
pub fn render_help() -> (r: Vec<HelpLine>)
    ensures
        help_views(r@) == help_text(),
{
    vec![
        help_line(HelpStyle::Title, "Logwatcher - Help"),
        help_line(HelpStyle::Plain, ""),
        help_line(HelpStyle::Heading, "Navigation"),
        help_line(HelpStyle::Plain, "  Tab / Shift+Tab    Cycle panels"),
        help_line(HelpStyle::Plain, "  1-9                Select panel directly"),
        help_line(HelpStyle::Plain, ""),
        help_line(HelpStyle::Heading, "Scrolling"),
        help_line(HelpStyle::Plain, "  j / Down           Scroll down (newer)"),
        help_line(HelpStyle::Plain, "  k / Up             Scroll up (older)"),
        help_line(HelpStyle::Plain, "  PgUp / PgDn        Scroll by page"),
        help_line(HelpStyle::Plain, "  G / End            Jump to bottom (follow)"),
        help_line(HelpStyle::Plain, "  g / Home           Jump to top"),
        help_line(HelpStyle::Plain, ""),
        help_line(HelpStyle::Heading, "General"),
        help_line(HelpStyle::Plain, "  ?                  Toggle this help"),
        help_line(HelpStyle::Plain, "  q / Esc            Quit"),
    ]
}

/// What the whole screen shows.
#[derive(Debug)]
pub enum Screen {
    /// The help, in the middle of the screen.
    Help { area: Rect, title: String, lines: Vec<HelpLine> },
    /// Only a border: there are no files.
    Empty { area: Rect, title: String },
    /// The files.
    Panels(Vec<Panel>),
}

/// What is drawn shows the state of the program in an area at some time of day: the help while
/// it is asked for, else one panel for each file, each in its cell of the grid.
pub open spec fn shows_app(screen: Screen, app: AppView, area: Rect, now: int) -> bool {
    if app.show_help {
        &&& screen is Help
        &&& screen->Help_area == centered(60, 70, area)
        &&& screen->Help_title@ == " Help "@
        &&& help_views(screen->lines@) == help_text()
    } else if app.active() == 0 {
        &&& screen is Empty
        &&& screen->Empty_area == area
        &&& screen->Empty_title@ == " logwatcher (no files) "@
    } else {
        &&& screen is Panels
        &&& screen->Panels_0@.len() == app.active()
        &&& is_layout(area, screen->Panels_0@.map_values(|p: Panel| p.area))
        &&& forall|i: int|
            0 <= i < app.active() ==> {
                let panel = #[trigger] screen->Panels_0@[i];
                &&& panel.area.within(area)
                &&& app.active() <= 10_000 ==> panel.area == grid_cell(
                    area,
                    app.active() as nat,
                    i,
                )
                &&& shows_panel(panel, app, i, panel.area, now)
            }
    }
}

/// What the screen shows at a time of day, in nanoseconds since the Unix epoch.
pub fn render_at(app: &App, area: Rect, now: i128) -> (r: Screen)
    requires
        area.fits(),
        app@.active() < 0x10_0000_0000_0000,
    ensures
        shows_app(r, app@, area, now as int),
{
    if app.show_help {
        return Screen::Help {
            area: centered_rect(60, 70, area),
            title: " Help ".to_string(),
            lines: render_help(),
        };
    }
    let n: usize = app.tracker.active_count();
    if n == 0 {
        return Screen::Empty { area, title: " logwatcher (no files) ".to_string() };
    }
    let areas = compute_grid(area, n);
    let mut panels: Vec<Panel> = Vec::new();
    let mut i: usize = 0;
    while i < n
        invariant
            i <= n,
            n == app@.active(),
            areas@.len() == n,
            panels@.len() == i,
            forall|k: int| 0 <= k < n ==> (#[trigger] areas@[k]).fits(),
            forall|k: int|
                0 <= k < i ==> shows_panel(
                    #[trigger] panels@[k],
                    app@,
                    k,
                    areas@[k],
                    now as int,
                ),
        decreases n - i,
    {
        panels.push(render_panel(app, i, areas[i], now));
        i += 1;
    }
    assert(panels@.map_values(|p: Panel| p.area) =~= areas@);
    Screen::Panels(panels)
}

/// What the screen shows at this moment.
pub fn render(app: &App, area: Rect) -> (r: Screen)
    requires
        area.fits(),
        app@.active() < 0x10_0000_0000_0000,
    ensures
        exists|now: i128| #[trigger] shows_app(r, app@, area, now as int),
{
    let now: i128 = time_of_day();
    render_at(app, area, now)
}

/// A panel shows no more lines than it has rows, and they are lines of the file that follow
/// each other.
pub proof fn law_window_is_bounded<T>(lines: Seq<T>, scroll: int, height: int)
    requires
        0 <= scroll,
        0 <= height,
    ensures
        visible(lines, scroll, height).len() <= height,
        0 <= window_start(lines.len() as int, scroll, height) <= window_end(
            lines.len() as int,
            scroll,
            height,
        ) <= lines.len(),
{
}

/// A panel that is not scrolled up shows the last lines of its file, and so follows the file as
/// it grows.
pub proof fn law_bottom_shows_the_last_lines<T>(lines: Seq<T>, height: int)
    requires
        0 <= height,
    ensures
        visible(lines, 0, height) == last_n(lines, height as nat),
        lines.len() > 0 && height > 0 ==> visible(lines, 0, height).last() == lines.last(),
{
}

/// When new lines of a changed file were read, the panel that shows the file shows the last of
/// them, unless it is scrolled up or has no room.
pub proof fn law_new_lines_are_seen(
    a: AppView,
    path: Seq<u8>,
    content: FileContentView,
    now: int,
    today: int,
    height: int,
)
    requires
        a.inv(),
        a.max_panels > 0,
        content.lines.len() > 0,
        height > 0,
    ensures
        ({
            let after = a.file_was_read(path, Some(content), now, today);
            let i = a.tracker.slot_for(path);
            &&& 0 <= i < after.active()
            &&& same_path(after.tracker.panels[i].path, path)
            &&& visible(after.tracker.panels[i].lines, 0, height).last() == content.lines.last()
        }),
{
    let after = a.file_was_read(path, Some(content), now, today);
    let i = a.tracker.slot_for(path);
    lemma_find_panel(a.tracker.panels, path, 0);
    lemma_modified(
        a.tracker,
        path,
        content.lines,
        content.size,
        now,
        content.modified_on(today),
    );
    law_bottom_shows_the_last_lines(after.tracker.panels[i].lines, height);
}

/// Scrolling up by one line moves the lines that are shown by one, as long as there are older
/// ones.
pub proof fn law_scrolling_moves_the_window<T>(lines: Seq<T>, scroll: int, height: int)
    requires
        0 <= scroll,
        0 <= height,
        scroll + height < lines.len(),
    ensures
        visible(lines, scroll, height).len() == height,
        visible(lines, scroll + 1, height).len() == height,
        forall|i: int|
            0 <= i < height - 1 ==> #[trigger] visible(lines, scroll, height)[i] == visible(
                lines,
                scroll + 1,
                height,
            )[i + 1],
{
}

/// Jumping to the top shows the first lines of the selected file, as many as there is room for.
pub proof fn law_jumping_to_the_top_shows_the_first_lines(a: AppView, height: int)
    requires
        a.selection_ok(),
        a.active() > 0,
        0 < height,
        0 < a.tracker.panels[a.selected_panel].lines.len() <= usize::MAX,
    ensures
        ({
            let after = a.after(Command::ScrollToTop);
            let lines = after.tracker.panels[after.selected_panel].lines;
            let shown = visible(lines, scroll_of(after, after.selected_panel), height);
            &&& after.tracker == a.tracker
            &&& after.selected_panel == a.selected_panel
            &&& shown.is_prefix_of(lines)
            &&& shown.len() == if lines.len() > height {
                height
            } else {
                lines.len() as int
            }
            &&& shown[0] == lines[0]
        }),
{
}

/// A panel that is scrolled up by more lines than its file has shows nothing.
pub proof fn law_scrolled_past_the_top_shows_nothing<T>(lines: Seq<T>, scroll: int, height: int)
    requires
        scroll > lines.len(),
        0 <= height,
    ensures
        visible(lines, scroll, height).len() == 0,
{
}

/// A file that fits into its panel has no scrollbar; the scrollbar of any other stands at the
/// first line that is shown.
pub proof fn law_scrollbar_shows_the_position(total: int, scroll: int, height: int)
    requires
        0 <= scroll,
        0 <= height,
        0 <= total <= usize::MAX,
    ensures
        scrollbar_of(total, scroll, height) is None <==> total <= height,
        total > height ==> scrollbar_of(total, scroll, height)->0.position == window_start(
            total,
            scroll,
            height,
        ),
{
}

} // verus!
