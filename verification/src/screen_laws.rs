//! What the screen shows of the state.

use crate::app::AppView;
use crate::file_tracker::TrackedFileView;
use crate::layout::{centered, Rect};
use crate::text::{decimal, truncated};
use crate::ui::{
    bar_text, elapsed_since, help_text, help_views, joined, shows_app, shows_panel, visible, BarTextView,
    HelpStyle, Panel, Screen, TitleStyle,
};
use vstd::prelude::*;
use vstd::utf8::*;

verus! {

/// Lines stand one below the other, in order, with one line feed between two of them.
pub proof fn law_lines_are_joined_in_order(lines: Seq<Seq<char>>, last: Seq<char>)
    ensures
        joined(Seq::empty()) == Seq::<char>::empty(),
        joined(seq![last]) == last,
        lines.len() > 0 ==> joined(lines.push(last)) == joined(lines) + seq!['\n'] + last,
{
    reveal_strlit("\n");
    assert("\n"@ == seq!['\n']);
    assert(lines.push(last).drop_last() == lines);
}

/// What a panel shows of its file depends on its own scroll offset alone. Not scrolled up it shows
/// the last lines, scrolled up those that many lines further up, as many as it has rows; scrolled
/// up by all lines it shows the first ones, and by more it shows nothing. Which panel is selected,
/// and how far any other panel is scrolled, does not matter.
pub proof fn law_panel_shows_what_it_is_scrolled_to(
    panel: Panel,
    a: AppView,
    i: int,
    area: Rect,
    now: int,
)
    requires
        shows_panel(panel, a, i, area, now),
        panel.content is Some,
        0 <= i < a.active(),
        a.tracker.panels[i].lines.len() <= usize::MAX,
    ensures
        ({
            let content = panel.content->0;
            let lines = a.tracker.panels[i].lines;
            let n = lines.len() as int;
            let rows = content.area.height as int;
            let up = if i < a.scroll_offsets.len() {
                a.scroll_offsets[i] as int
            } else {
                0
            };
            &&& up + rows <= n ==> content.text@ == joined(
                lines.subrange(n - up - rows, n - up),
            )
            &&& up < n < up + rows ==> content.text@ == joined(lines.subrange(0, n - up))
            &&& up == n && rows <= n ==> content.text@ == joined(lines.subrange(0, rows))
            &&& up == n && n < rows ==> content.text@ == joined(lines)
            &&& up > n ==> content.text@.len() == 0
            &&& content.scrollbar is Some <==> n > rows
            &&& content.scrollbar matches Some(bar) ==> bar.total == n && bar.position == if up
                + rows <= n {
                n - up - rows
            } else {
                0
            }
        }),
{
    let content = panel.content->0;
    let lines = a.tracker.panels[i].lines;
    let n = lines.len() as int;
    let rows = content.area.height as int;
    let up = if i < a.scroll_offsets.len() {
        a.scroll_offsets[i] as int
    } else {
        0
    };
    let shown = visible(lines, up, rows);
    if up + rows <= n && up < n {
        assert(shown == lines.subrange(n - up - rows, n - up));
    }
    if up == n && n < rows {
        assert(shown == lines);
    }
    if up == n && rows == 0 {
        assert(shown == lines.subrange(n - up - rows, n - up));
    }
    if up > n {
        assert(shown.len() == 0);
    }
}

/// A panel tells its number, the name of its file and whether it is deleted, is set off by what it
/// is, and tells how long ago its file was modified.
pub proof fn law_panel_is_labelled(panel: Panel, a: AppView, i: int, area: Rect, now: int)
    requires
        shows_panel(panel, a, i, area, now),
        0 <= i < a.active(),
    ensures
        ({
            let file = a.tracker.panels[i];
            let front = seq![' ', '['] + decimal((i + 1) as nat) + seq![']', ' ']
                + file.display_name;
            &&& panel.area == area
            &&& !file.is_deleted ==> panel.title@ == front + seq![' ']
            &&& file.is_deleted ==> panel.title@ == front + " [deleted]"@ + seq![' ']
            &&& panel.title_style == TitleStyle::Deleted <==> file.is_deleted
            &&& panel.title_style == TitleStyle::Selected <==> !file.is_deleted && i
                == a.selected_panel
            &&& panel.selected <==> i == a.selected_panel
            &&& panel.footer@ == seq![' '] + elapsed_since(file.file_mtime, now) + seq![' ']
        }),
{
    reveal_strlit(" [");
    reveal_strlit("] ");
    reveal_strlit(" ");
    reveal_strlit("");
    assert(" ["@ == seq![' ', '[']);
    assert("] "@ == seq![']', ' ']);
    assert(" "@ == seq![' ']);
    assert(""@ == Seq::<char>::empty());
    let file = a.tracker.panels[i];
    let front = seq![' ', '['] + decimal((i + 1) as nat) + seq![']', ' '] + file.display_name;
    assert(front + Seq::<char>::empty() == front);
}

/// Inside the border of a panel stand its lines, and below them, where its process or a summary is
/// known and more than two rows are left, two rows that name the process. Both take the whole
/// width, and together all rows.
pub proof fn law_panel_is_divided(panel: Panel, a: AppView, i: int, area: Rect, now: int)
    requires
        shows_panel(panel, a, i, area, now),
        0 <= i < a.active(),
        area.fits(),
        area.width >= 2,
    ensures
        ({
            let file = a.tracker.panels[i];
            let named = file.process_cmd is Some || file.process_summary is Some;
            &&& panel.content is Some <==> area.height > 2
            &&& panel.bar_area is Some <==> named && area.height > 4
            &&& panel.content matches Some(c) ==> {
                &&& c.area.x == area.x + 1
                &&& c.area.y == area.y + 1
                &&& c.area.width == area.width - 2
                &&& c.area.height == area.height - if panel.bar_area is Some {
                    4int
                } else {
                    2int
                }
            }
            &&& panel.bar_area matches Some(bar) ==> {
                &&& bar.x == area.x + 1
                &&& bar.y == area.y + area.height - 3
                &&& bar.width == area.width - 2
                &&& bar.height == 2
            }
        }),
{
}

/// The screen shows the help while it is asked for, no files while there are none, and else every
/// file in its own panel.
pub proof fn law_screen_shows_the_state(screen: Screen, a: AppView, area: Rect, now: int, i: int)
    requires
        shows_app(screen, a, area, now),
    ensures
        screen is Help <==> a.show_help,
        screen is Empty <==> !a.show_help && a.active() == 0,
        screen is Panels <==> !a.show_help && a.active() > 0,
        screen matches Screen::Empty { area: all, title } ==> all == area && title@
            == " logwatcher (no files) "@,
        screen matches Screen::Help { area: middle, title, lines } ==> middle == centered(
            60,
            70,
            area,
        ) && title@ == " Help "@ && lines@.len() == help_text().len() && (0 <= i
            < help_text().len() ==> (lines@[i].style, lines@[i].text@) == help_text()[i]),
        screen matches Screen::Panels(panels) ==> panels@.len() == a.active() && (0 <= i
            < a.active() ==> shows_panel(panels@[i], a, i, panels@[i].area, now)
            && panels@[i].area.within(area)),
{
    if a.show_help && 0 <= i < help_text().len() {
        assert(help_views(screen->lines@)[i] == help_text()[i]);
    }
    assert(screen is Help ==> help_views(screen->lines@).len() == screen->lines@.len());
}

/// A number is written as its digits, the highest first.
pub proof fn law_numbers_are_written_in_digits(tens: nat, ones: nat)
    requires
        ones < 10,
    ensures
        decimal(ones) == seq![(48 + ones) as char],
        tens > 0 ==> decimal((10 * tens + ones) as nat) == decimal(tens) + decimal(ones),
{
    let n = (10 * tens + ones) as nat;
    assert(n / 10 == tens && n % 10 == ones);
    if tens > 0 {
        assert(decimal(n) == decimal(tens) + decimal(ones));
    }
}

/// The time since a file was modified is told in seconds below a minute, in whole minutes below an
/// hour and else in whole hours; a time to come counts as now.
pub proof fn law_elapsed_time_is_rounded_down(mtime: int, now: int, count: int)
    requires
        0 <= count,
    ensures
        ({
            let nanos = now - mtime;
            let second = 1_000_000_000int;
            &&& count < 60 && count * second <= nanos < (count + 1) * second ==> elapsed_since(
                mtime,
                now,
            ) == decimal(count as nat) + "s ago"@
            &&& nanos < 0 ==> elapsed_since(mtime, now) == decimal(0) + "s ago"@
            &&& 1 <= count < 60 && count * 60 * second <= nanos < (count + 1) * 60 * second
                ==> elapsed_since(mtime, now) == decimal(count as nat) + "m ago"@
            &&& 1 <= count && count * 3600 * second <= nanos < (count + 1) * 3600 * second
                ==> elapsed_since(mtime, now) == decimal(count as nat) + "h ago"@
        }),
{
}

/// A text that is not too long is kept as it is; of any other the beginning is kept, up to exactly
/// the bytes that are asked for, and the mark stands behind it.
pub proof fn law_truncation_keeps_the_beginning(
    t: Seq<char>,
    limit: int,
    keep: int,
    mark: Seq<char>,
) -> (kept: int)
    requires
        0 <= keep <= limit,
        encode_utf8(t).len() > limit ==> is_char_boundary(encode_utf8(t), keep),
    ensures
        encode_utf8(t).len() <= limit ==> truncated(t, limit, keep, mark) == t,
        encode_utf8(t).len() > limit ==> 0 <= kept <= t.len() && encode_utf8(t.take(kept)).len()
            == keep && truncated(t, limit, keep, mark) == t.take(kept) + mark,
{
    if encode_utf8(t).len() > limit {
        let bytes = encode_utf8(t);
        encode_utf8_valid_utf8(t);
        valid_utf8_split(bytes, keep);
        decode_utf8_split(bytes, keep);
        encode_utf8_decode_utf8(t);
        let head = bytes.subrange(0, keep);
        let tail = bytes.subrange(keep, bytes.len() as int);
        assert(bytes.take(keep) == head);
        decode_utf8_encode_utf8(head);
        let start = decode_utf8(head);
        assert(t == start + decode_utf8(tail));
        assert(t.take(start.len() as int) == start);
        start.len() as int
    } else {
        0
    }
}

/// The bar names the process by its summary, where there is one, with the command line in one row
/// below it; else by the command line in two rows. A command line that is too long for that is
/// cut, and ends with three dots that stand in the last cells.
pub proof fn law_bar_names_the_process(file: TrackedFileView, width: int)
    requires
        0 <= width,
    ensures
        bar_text(file, width) is None <==> file.process_summary is None && file.process_cmd is None,
        bar_text(file, width) matches Some(BarTextView::Summary { summary, cmd }) ==> Some(summary)
            == file.process_summary && (cmd is Some <==> file.process_cmd is Some) && (
        file.process_cmd matches Some(c) ==> cmd == Some(
            truncated(
                c,
                if width < 3 {
                    0
                } else {
                    width - 3
                },
                if width < 3 {
                    0
                } else {
                    width - 3
                },
                seq!['.', '.', '.'],
            ),
        )),
        bar_text(file, width) matches Some(BarTextView::Command(cmd)) ==> file.process_summary
            is None && (file.process_cmd matches Some(c) && cmd == truncated(
            c,
            2 * width,
            if width < 2 {
                0
            } else {
                2 * width - 3
            },
            seq!['.', '.', '.'],
        )),
{
    reveal_strlit("...");
    assert("..."@ == seq!['.', '.', '.']);
}

/// The help names the keys and what they do.
pub proof fn law_help_names_the_keys()
    ensures
        help_text().len() == 16,
        help_text().contains((HelpStyle::Plain, "  Tab / Shift+Tab    Cycle panels"@)),
        help_text().contains((HelpStyle::Plain, "  1-9                Select panel directly"@)),
        help_text().contains((HelpStyle::Plain, "  j / Down           Scroll down (newer)"@)),
        help_text().contains((HelpStyle::Plain, "  k / Up             Scroll up (older)"@)),
        help_text().contains((HelpStyle::Plain, "  PgUp / PgDn        Scroll by page"@)),
        help_text().contains((HelpStyle::Plain, "  G / End            Jump to bottom (follow)"@)),
        help_text().contains((HelpStyle::Plain, "  g / Home           Jump to top"@)),
        help_text().contains((HelpStyle::Plain, "  ?                  Toggle this help"@)),
        help_text().contains((HelpStyle::Plain, "  q / Esc            Quit"@)),
{
    let h = help_text();
    assert(h[3].0 is Plain && h[4].0 is Plain && h[7].0 is Plain && h[8].0 is Plain);
    assert(h[9].0 is Plain && h[10].0 is Plain && h[11].0 is Plain && h[14].0 is Plain);
    assert(h[15].0 is Plain);
}

} // verus!
