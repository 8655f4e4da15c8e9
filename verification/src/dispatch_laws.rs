//! What events and reading do to the panels, and what they ask for.

use crate::app::{clamped, offsets_reaching, AppView};
use crate::dispatch::{
    summaries_of, summary_request, FileContentView, FileRequestView, SummaryRequestView,
};
use crate::event::AppEventView;
use crate::file_tracker::{lemma_find_panel, lemma_modified, lemma_same_paths_keep_inv, TrackedFileView};
use crate::key_laws::pressed;
use crate::keys::{KeyCode, KeyEvent};
use crate::panel_laws::{
    law_new_file_starts_afresh, law_new_file_takes_the_right_panel, law_shown_files_are_found,
    law_sweep_takes_the_stale,
};
use crate::path::same_path;
use crate::tracker_laws::law_changed_file_is_found;
use vstd::prelude::*;

verus! {

/// All but the panels and the scroll offsets of two states agree.
pub open spec fn same_settings(a: AppView, b: AppView) -> bool {
    &&& b.should_quit == a.should_quit
    &&& b.show_help == a.show_help
    &&& b.max_panels == a.max_panels
    &&& b.tail_lines == a.tail_lines
    &&& b.stale_timeout == a.stale_timeout
    &&& b.tracker.max_panels == a.tracker.max_panels
    &&& b.tracker.watch_root == a.tracker.watch_root
}

/// Of a file that is shown, what stands behind the bytes known of that very file is asked for; of
/// any other file, its last lines.
pub proof fn law_requests_are_about_the_file(a: AppView, path: Seq<u8>, i: int)
    requires
        a.inv(),
    ensures
        0 <= i < a.active() && same_path(a.tracker.panels[i].path, path) ==> a.request_for(path) == (
        FileRequestView::NewContent {
            path,
            last_size: a.tracker.panels[i].last_size,
            max_lines: a.tail_lines,
        }),
        (forall|k: int|
            0 <= k < a.active() ==> !same_path((#[trigger] a.tracker.panels[k]).path, path))
            ==> a.request_for(path) == (FileRequestView::Tail { path, max_lines: a.tail_lines }),
{
    lemma_find_panel(a.tracker.panels, path, 0);
    if 0 <= i < a.active() {
        law_shown_files_are_found(a.tracker, path, i);
    }
}

/// Once a file was read, the next request for it asks for what stands behind its size then, and
/// goes on to do so while other files are read that do not take its panel.
pub proof fn law_reading_goes_on_where_it_stopped(
    a: AppView,
    path: Seq<u8>,
    content: FileContentView,
    now: int,
    today: int,
    other: Seq<u8>,
    other_content: Option<FileContentView>,
    later: int,
    later_today: int,
)
    requires
        a.inv(),
        a.max_panels > 0,
        !same_path(other, path),
    ensures
        ({
            let read = a.file_was_read(path, Some(content), now, today);
            let next = read.file_was_read(other, other_content, later, later_today);
            let request = FileRequestView::NewContent {
                path,
                last_size: content.size,
                max_lines: a.tail_lines,
            };
            &&& read.request_for(path) == request
            &&& next.request_for(path) == request || next.tracker.index_of(path) is None
        }),
{
    let read = a.file_was_read(path, Some(content), now, today);
    let next = read.file_was_read(other, other_content, later, later_today);
    law_read_file(a, path, Some(content), now, today, 0);
    assert(read.inv());
    law_read_file(read, other, other_content, later, later_today, 0);
    lemma_find_panel(read.tracker.panels, path, 0);
    let i = read.tracker.index_of(path)->0;
    law_shown_files_are_found(read.tracker, path, i);
    lemma_find_panel(next.tracker.panels, path, 0);
    if next.tracker.index_of(path) is Some {
        let k = next.tracker.index_of(path)->0;
        law_read_file(read, other, other_content, later, later_today, k);
        law_shown_files_are_found(next.tracker, path, k);
        if next.tracker.index_of(other) == Some(k) {
            lemma_find_panel(next.tracker.panels, other, 0);
            assert(same_path(next.tracker.panels[k].path, other));
        }
        if k < read.active() {
            assert(next.tracker.panels[k].path == read.tracker.panels[k].path);
            law_shown_files_are_found(read.tracker, path, k);
        }
    }
}

/// Reading a changed file changes its own panel alone: it is there afterwards if it could be read,
/// a file that was shown has the new lines behind the old ones, or stays as it is but for its size
/// and its stamp where there are none, and one that could not be read is marked as deleted. Any
/// other panel `j` stays as it is.
pub proof fn law_read_file(
    a: AppView,
    path: Seq<u8>,
    content: Option<FileContentView>,
    now: int,
    today: int,
    j: int,
)
    requires
        a.inv(),
        a.max_panels > 0,
    ensures
        ({
            let after = a.file_was_read(path, content, now, today);
            let known = a.tracker.index_of(path);
            let found = after.tracker.index_of(path);
            &&& after.inv()
            &&& same_settings(a, after)
            &&& after.selected_panel == a.selected_panel
            &&& after.active() >= a.active()
            &&& 0 <= j < a.active() && found != Some(j) ==> after.tracker.panels[j]
                == a.tracker.panels[j]
            &&& after.active() > a.active() ==> after.active() == a.active() + 1 && found == Some(
                a.active(),
            )
            &&& content is None ==> found == known && after.active() == a.active()
            &&& content is None && known is None ==> after == a
            &&& known is Some ==> found == known
            &&& known is Some || content is None ==> after.scroll_offsets == a.scroll_offsets
            &&& 0 <= j < a.scroll_offsets.len() ==> after.scroll_offsets[j] == a.scroll_offsets[j]
            &&& a.scroll_offsets.len() <= j < after.scroll_offsets.len() ==> after.scroll_offsets[j]
                == 0
            &&& content matches Some(c) ==> {
                let panel = after.tracker.panels[found->0];
                let mtime = match c.mtime {
                    Some(m) => m as int,
                    None => today,
                };
                &&& found is Some
                &&& panel.last_size == c.size
                &&& panel.last_modified == now
                &&& known is None ==> panel.lines == c.lines && panel.file_mtime == mtime
                    && panel.path == path && panel.process_cmd is None && !panel.is_deleted
                &&& known is None ==> found->0 < after.scroll_offsets.len()
                &&& known matches Some(i) ==> {
                    let shown = a.tracker.panels[i];
                    let all = shown.lines + c.lines;
                    &&& panel.path == shown.path
                    &&& panel.display_name == shown.display_name
                    &&& panel.is_deleted == shown.is_deleted
                    &&& panel.process_cmd == shown.process_cmd
                    &&& panel.process_summary == shown.process_summary
                    &&& c.lines.len() == 0 ==> panel.lines == shown.lines && panel.file_mtime
                        == shown.file_mtime
                    &&& c.lines.len() > 0 ==> panel.file_mtime == mtime
                    &&& c.lines.len() > 0 && all.len() <= 500 ==> panel.lines == all
                    &&& c.lines.len() > 0 && all.len() > 500 ==> panel.lines == all.subrange(
                        all.len() - 500,
                        all.len() as int,
                    )
                }
            }
            &&& content is None && known is Some ==> after.tracker.panels[known->0] == (
            TrackedFileView { is_deleted: true, ..a.tracker.panels[known->0] })
        }),
{
    let after = a.file_was_read(path, content, now, today);
    lemma_find_panel(a.tracker.panels, path, 0);
    match (a.tracker.index_of(path), content) {
        (Some(i), _) => {
            assert forall|k: int| 0 <= k < a.active() implies (
            #[trigger] after.tracker.panels[k]).path == a.tracker.panels[k].path by {}
            lemma_same_paths_keep_inv(a.tracker, after.tracker);
            law_shown_files_are_found(after.tracker, path, i);
        },
        (None, Some(c)) => {
            let mtime = c.modified_on(today);
            lemma_modified(a.tracker, path, c.lines, c.size, now, mtime);
            law_changed_file_is_found(a.tracker, path, c.lines, c.size, now, mtime);
            law_new_file_takes_the_right_panel(a.tracker, path, c.lines, c.size, now, mtime, j);
            law_new_file_starts_afresh(a.tracker, path, c.lines, c.size, now, mtime);
        },
        (None, None) => {},
    }
}

/// After a file was read, the process of its own panel is looked up, if the file was just opened
/// or its process is not known; and no other.
pub proof fn law_lookups_are_about_the_file(
    a: AppView,
    path: Seq<u8>,
    content: Option<FileContentView>,
    now: int,
    today: int,
)
    requires
        a.inv(),
        a.max_panels > 0,
    ensures
        ({
            let after = a.file_was_read(path, content, now, today);
            let found = after.tracker.index_of(path);
            let wanted = content is Some && after.tracker.panels[found->0].process_cmd is None;
            &&& wanted ==> a.lookup_after(path, content) == found && found is Some
            &&& !wanted ==> a.lookup_after(path, content) is None
        }),
{
    law_read_file(a, path, content, now, today, 0);
    if content is Some && a.tracker.index_of(path) is None {
        let c = content->0;
        law_changed_file_is_found(
            a.tracker,
            path,
            c.lines,
            c.size,
            now,
            c.modified_on(today),
        );
    }
}

/// What process was found is kept with the panel that it was looked up for, and nothing else
/// changes.
pub proof fn law_process_belongs_to_its_panel(
    a: AppView,
    i: int,
    cmd: Option<Seq<char>>,
    j: int,
)
    requires
        0 <= i < a.active(),
        0 <= j < a.active(),
    ensures
        ({
            let after = a.process_known(i, cmd);
            &&& after.tracker.panels.len() == a.tracker.panels.len()
            &&& same_settings(a, after)
            &&& after.selected_panel == a.selected_panel
            &&& after.scroll_offsets == a.scroll_offsets
            &&& after.tracker.panels[j] == if j == i {
                TrackedFileView { process_cmd: cmd, ..a.tracker.panels[j] }
            } else {
                a.tracker.panels[j]
            }
        }),
{
}

/// A summary is kept with the panel that shows its file, and nothing else changes.
pub proof fn law_summary_belongs_to_its_file(
    a: AppView,
    path: Seq<u8>,
    summary: Seq<char>,
    now: int,
    j: int,
)
    requires
        a.inv(),
    ensures
        ({
            let after = a.dispatched(AppEventView::ProcessSummaryReady { path, summary }, now);
            &&& after.tracker.panels.len() == a.tracker.panels.len()
            &&& same_settings(a, after)
            &&& after.selected_panel == a.selected_panel
            &&& after.scroll_offsets == a.scroll_offsets
            &&& 0 <= j < a.active() ==> after.tracker.panels[j] == if same_path(a.tracker.panels[j].path, path) {
                TrackedFileView { process_summary: Some(summary), ..a.tracker.panels[j] }
            } else {
                a.tracker.panels[j]
            }
        }),
{
    lemma_find_panel(a.tracker.panels, path, 0);
    if 0 <= j < a.active() {
        law_shown_files_are_found(a.tracker, path, j);
    }
}

/// A resize changes nothing, nor does a changed file before it is read; a deleted file is marked
/// in the panel that shows it and nowhere else; a key does what it does.
pub proof fn law_events_do_what_they_say(a: AppView, path: Seq<u8>, now: int, j: int)
    requires
        a.inv(),
    ensures
        a.dispatched(AppEventView::Resize, now) == a,
        a.dispatched(AppEventView::FileChanged(path), now) == a,
        ({
            let after = a.dispatched(AppEventView::FileDeleted(path), now);
            &&& after.tracker.panels.len() == a.tracker.panels.len()
            &&& same_settings(a, after)
            &&& after.selected_panel == a.selected_panel
            &&& after.scroll_offsets == a.scroll_offsets
            &&& 0 <= j < a.active() ==> after.tracker.panels[j] == if same_path(a.tracker.panels[j].path, path) {
                TrackedFileView { is_deleted: true, ..a.tracker.panels[j] }
            } else {
                a.tracker.panels[j]
            }
        }),
        forall|code: KeyCode, control: bool|
            #[trigger] pressed(a, code, control) == a.dispatched(
                AppEventView::Key(KeyEvent { code, control }),
                now,
            ),
{
    lemma_find_panel(a.tracker.panels, path, 0);
    if 0 <= j < a.active() {
        law_shown_files_are_found(a.tracker, path, j);
    }
}

/// A tick takes the panels of files that are deleted and have not changed for longer than the
/// timeout, and no other. The selected panel stays selected by its number; where that is gone, the
/// last one is.
pub proof fn law_tick_sweeps_and_clamps(a: AppView, now: int, i: int)
    requires
        a.inv(),
        0 <= a.selected_panel,
        0 <= a.stale_timeout,
    ensures
        ({
            let after = a.dispatched(AppEventView::Tick, now);
            let panel = a.tracker.panels[i];
            let stale = panel.is_deleted && now - panel.last_modified > a.stale_timeout;
            let n = after.active();
            &&& same_settings(a, after)
            &&& after.scroll_offsets == a.scroll_offsets
            &&& 0 <= i < a.active() ==> (stale <==> !after.tracker.panels.contains(panel))
            &&& after.active() <= a.active()
            &&& a.selected_panel < n ==> after.selected_panel == a.selected_panel
            &&& a.selected_panel >= n && n > 0 ==> after.selected_panel == n - 1
            &&& n == 0 ==> after.selected_panel == 0
        }),
{
    broadcast use vstd::seq_lib::group_filter_ensures;

    if 0 <= i < a.active() {
        law_sweep_takes_the_stale(a.tracker, now, a.stale_timeout, i);
    }
}

/// A selection that is in order is on a panel that exists, or on the first where there is none;
/// the nearest one that exists is the same or the last.
pub proof fn law_selection_is_on_a_panel(a: AppView, selected: int, active: int)
    requires
        0 <= selected,
        0 <= active,
    ensures
        a.selection_ok() <==> 0 <= a.selected_panel && (a.selected_panel < a.active() || (
        a.selected_panel == 0 && a.active() == 0)),
        selected < active ==> clamped(selected, active) == selected,
        selected >= active && active > 0 ==> clamped(selected, active) == active - 1,
        active == 0 ==> clamped(selected, active) == 0,
{
}

/// Making room for a scroll offset keeps those there are and adds zeros, no more than are needed.
pub proof fn law_new_offsets_are_zero(offsets: Seq<usize>, i: int, k: int)
    requires
        0 <= i,
    ensures
        ({
            let after = offsets_reaching(offsets, i);
            &&& after.len() == if i < offsets.len() {
                offsets.len() as int
            } else {
                i + 1
            }
            &&& 0 <= k < offsets.len() ==> after[k] == offsets[k]
            &&& offsets.len() <= k < after.len() ==> after[k] == 0
        }),
{
}

/// A summary is asked for exactly when the process is known and there is a place to ask at, and
/// the request is about that file and that process.
pub proof fn law_summaries_are_asked_for(
    path: Seq<u8>,
    cmd: Option<Seq<char>>,
    api_url: Option<Seq<char>>,
    log_file: Option<Seq<u8>>,
)
    ensures
        summary_request(path, cmd, api_url, log_file) is Some <==> cmd is Some && api_url is Some,
        summary_request(path, cmd, api_url, log_file) matches Some(q) ==> q.path == path && Some(
            q.cmd,
        ) == cmd && Some(q.api_url) == api_url && q.log_file == log_file,
{
}

/// At the start each panel whose process is known makes one request, in the order of the panels,
/// and none without a place to ask at.
pub proof fn law_each_known_process_is_asked_about(
    panels: Seq<TrackedFileView>,
    panel: TrackedFileView,
    api_url: Option<Seq<char>>,
    log_file: Option<Seq<u8>>,
)
    ensures
        summaries_of(Seq::empty(), api_url, log_file) == Seq::<SummaryRequestView>::empty(),
        panel.process_cmd is None || api_url is None ==> summaries_of(
            panels.push(panel),
            api_url,
            log_file,
        ) == summaries_of(panels, api_url, log_file),
        panel.process_cmd is Some && api_url is Some ==> summaries_of(
            panels.push(panel),
            api_url,
            log_file,
        ) == summaries_of(panels, api_url, log_file).push(
            SummaryRequestView {
                path: panel.path,
                cmd: panel.process_cmd->0,
                api_url: api_url->0,
                log_file,
            },
        ),
{
    let wanted = |p: TrackedFileView|
        summary_request(p.path, p.process_cmd, api_url, log_file) is Some;
    let request = |p: TrackedFileView| summary_request(p.path, p.process_cmd, api_url, log_file)->0;
    reveal(Seq::filter);
    assert(panels.push(panel).drop_last() == panels);
    let kept = panels.filter(wanted);
    assert(kept.push(panel).map_values(request) == kept.map_values(request).push(request(panel)));
    assert(Seq::<TrackedFileView>::empty().filter(wanted).map_values(request)
        == Seq::<SummaryRequestView>::empty());
}

} // verus!
