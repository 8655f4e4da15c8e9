//! What each change does to each panel.

use crate::file_tracker::{
    candidate, goes_before, is_candidate, is_stale, lemma_candidate_exists, lemma_find_panel,
    lemma_modified, TrackedFileView, TrackerView,
};
use crate::path::{relative_to, same_path};
use crate::text::utf8_lossy;
use crate::tracker_laws::{law_changed_file_is_found, law_sweep_is_exact};
use vstd::prelude::*;

verus! {

/// A file is found in the panel that shows it, and in none where none does.
pub proof fn law_shown_files_are_found(t: TrackerView, path: Seq<u8>, i: int)
    requires
        t.inv(),
        0 <= i < t.panels.len(),
    ensures
        same_path(t.panels[i].path, path) <==> t.index_of(path) == Some(i),
        t.index_of(path) matches Some(k) ==> 0 <= k < t.panels.len() && same_path(
            t.panels[k].path,
            path,
        ),
{
    lemma_find_panel(t.panels, path, 0);
    if same_path(t.panels[i].path, path) {
        let k = t.index_of(path)->0;
        if k != i {
            assert(same_path(t.panels[k].path, t.panels[i].path));
        }
    }
}

/// While there is room, a new file gets a panel behind all others. Without room it gets the panel
/// of a deleted file if there is one, of those the one that has gone without a change for longest,
/// and of several such the first.
pub proof fn law_new_file_takes_the_right_panel(
    t: TrackerView,
    path: Seq<u8>,
    lines: Seq<Seq<char>>,
    size: int,
    now: int,
    mtime: int,
    j: int,
)
    requires
        t.inv(),
        t.max_panels > 0,
        t.index_of(path) is None,
    ensures
        ({
            let after = t.modified(path, lines, size, now, mtime);
            let i = after.index_of(path)->0;
            &&& after.index_of(path) is Some
            &&& after.max_panels == t.max_panels
            &&& after.watch_root == t.watch_root
            &&& t.panels.len() < t.max_panels ==> i == t.panels.len() && after.panels.len()
                == t.panels.len() + 1 && after.panels.drop_last() == t.panels
            &&& t.panels.len() == t.max_panels ==> after.panels.len() == t.panels.len()
            &&& t.panels.len() == t.max_panels && 0 <= j < t.panels.len() ==> {
                let gone = t.panels[i];
                &&& j != i ==> after.panels[j] == t.panels[j]
                &&& t.panels[j].is_deleted ==> gone.is_deleted
                &&& t.panels[j].is_deleted == gone.is_deleted ==> gone.last_modified
                    <= t.panels[j].last_modified
                &&& t.panels[j].is_deleted == gone.is_deleted && gone.last_modified
                    == t.panels[j].last_modified ==> i <= j
            }
        }),
{
    law_changed_file_is_found(t, path, lines, size, now, mtime);
    lemma_modified(t, path, lines, size, now, mtime);
    if t.panels.len() == t.max_panels {
        lemma_candidate_exists(t.panels);
        let i = candidate(t.panels);
        assert(is_candidate(t.panels, i));
        if 0 <= j < t.panels.len() && j != i {
            assert(goes_before(t.panels, i, j));
        }
    } else {
        assert(t.modified(path, lines, size, now, mtime).panels.drop_last() == t.panels);
    }
}

/// A new file shows what was read of it and nothing of the file whose panel it takes; its name is
/// its path, less the watched directory where it lies under it.
pub proof fn law_new_file_starts_afresh(
    t: TrackerView,
    path: Seq<u8>,
    lines: Seq<Seq<char>>,
    size: int,
    now: int,
    mtime: int,
)
    requires
        t.inv(),
        t.max_panels > 0,
        t.index_of(path) is None,
    ensures
        ({
            let after = t.modified(path, lines, size, now, mtime);
            let panel = after.panels[after.index_of(path)->0];
            &&& panel.path == path
            &&& panel.lines == lines
            &&& panel.last_modified == now
            &&& panel.last_size == size
            &&& !panel.is_deleted
            &&& panel.process_cmd is None
            &&& panel.process_summary is None
            &&& panel.file_mtime == mtime
            &&& relative_to(path, t.watch_root) matches Some(rest) ==> panel.display_name
                == utf8_lossy(rest)
            &&& relative_to(path, t.watch_root) is None ==> panel.display_name == utf8_lossy(path)
        }),
{
    law_changed_file_is_found(t, path, lines, size, now, mtime);
    lemma_modified(t, path, lines, size, now, mtime);
}

/// A file that is shown keeps its panel, its name and its process when it changes, and shows what
/// was read of it now; every other panel stays as it is.
pub proof fn law_known_file_keeps_its_panel(
    t: TrackerView,
    path: Seq<u8>,
    lines: Seq<Seq<char>>,
    size: int,
    now: int,
    mtime: int,
    i: int,
    j: int,
)
    requires
        t.inv(),
        0 <= i < t.panels.len(),
        same_path(t.panels[i].path, path),
    ensures
        ({
            let after = t.modified(path, lines, size, now, mtime);
            let old_panel = t.panels[i];
            &&& after.panels.len() == t.panels.len()
            &&& after.max_panels == t.max_panels
            &&& after.watch_root == t.watch_root
            &&& 0 <= j < t.panels.len() && j != i ==> after.panels[j] == t.panels[j]
            &&& after.panels[i] == (TrackedFileView {
                path: old_panel.path,
                display_name: old_panel.display_name,
                lines,
                last_modified: now,
                last_size: size,
                is_deleted: false,
                process_cmd: old_panel.process_cmd,
                process_summary: old_panel.process_summary,
                file_mtime: mtime,
            })
        }),
{
    law_shown_files_are_found(t, path, i);
}

/// Appending to a panel adds the lines behind those it has, keeps its path, name, process and
/// whether it is deleted, and leaves every other panel as it is.
pub proof fn law_appending_touches_one_panel(
    t: TrackerView,
    i: int,
    lines: Seq<Seq<char>>,
    size: int,
    now: int,
    mtime: int,
    j: int,
)
    requires
        0 <= i < t.panels.len(),
    ensures
        ({
            let after = t.appended(i, lines, size, now, mtime);
            let all = t.panels[i].lines + lines;
            let shown = after.panels[i].lines;
            &&& after.panels.len() == t.panels.len()
            &&& after.max_panels == t.max_panels
            &&& after.watch_root == t.watch_root
            &&& 0 <= j < t.panels.len() && j != i ==> after.panels[j] == t.panels[j]
            &&& after.panels[i] == (TrackedFileView {
                lines: shown,
                last_modified: now,
                last_size: size,
                file_mtime: mtime,
                ..t.panels[i]
            })
            &&& all.len() <= 500 ==> shown == all
            &&& all.len() > 500 ==> shown == all.subrange(all.len() - 500, all.len() as int)
        }),
{
}

/// Deleting a file marks the panel that shows it and leaves everything else as it is.
pub proof fn law_deleting_touches_one_mark(t: TrackerView, path: Seq<u8>, i: int)
    requires
        t.inv(),
        0 <= i < t.panels.len(),
    ensures
        ({
            let after = t.deleted(path);
            &&& after.panels.len() == t.panels.len()
            &&& after.max_panels == t.max_panels
            &&& after.watch_root == t.watch_root
            &&& same_path(t.panels[i].path, path) ==> after.panels[i] == (TrackedFileView {
                is_deleted: true,
                ..t.panels[i]
            })
            &&& !same_path(t.panels[i].path, path) ==> after.panels[i] == t.panels[i]
        }),
{
    lemma_find_panel(t.panels, path, 0);
    law_shown_files_are_found(t, path, i);
}

/// A sweep takes a panel exactly when its file is deleted and has not changed for longer than the
/// timeout. The panels that stay keep their order and what they show.
pub proof fn law_sweep_takes_the_stale(t: TrackerView, now: int, timeout: int, i: int)
    requires
        t.inv(),
        0 <= timeout,
        0 <= i < t.panels.len(),
    ensures
        ({
            let after = t.swept(now, timeout);
            let panel = t.panels[i];
            let stale = panel.is_deleted && now - panel.last_modified > timeout;
            &&& after.max_panels == t.max_panels
            &&& after.watch_root == t.watch_root
            &&& stale <==> !after.panels.contains(panel)
            &&& stale <==> after.index_of(panel.path) is None
        }),
{
    let live = |p: TrackedFileView| !is_stale(p, now, timeout);
    let after = t.swept(now, timeout);
    let panel = t.panels[i];
    broadcast use vstd::seq_lib::group_filter_ensures;

    law_sweep_is_exact(t, now, timeout);
    lemma_find_panel(after.panels, panel.path, 0);
    if live(panel) {
        assert(after.panels.contains(panel));
        let k = choose|k: int| 0 <= k < after.panels.len() && after.panels[k] == panel;
        assert(same_path(after.panels[k].path, panel.path));
    } else {
        if after.panels.contains(panel) {
            let k = choose|k: int| 0 <= k < after.panels.len() && after.panels[k] == panel;
            assert(live(after.panels[k]));
        }
        if after.index_of(panel.path) is Some {
            let f = after.index_of(panel.path)->0;
            assert(t.panels.contains(after.panels[f]));
            let g = choose|g: int| 0 <= g < t.panels.len() && t.panels[g] == after.panels[f];
            if g != i {
                assert(same_path(t.panels[g].path, t.panels[i].path));
            }
            assert(live(after.panels[f]));
        }
    }
}

/// A sweep keeps the order of the panels that stay.
pub proof fn law_sweep_keeps_the_order(t: TrackerView, now: int, timeout: int) -> (from: Seq<int>)
    ensures
        ({
            let after = t.swept(now, timeout);
            &&& from.len() == after.panels.len()
            &&& forall|k: int|
                0 <= k < from.len() ==> 0 <= #[trigger] from[k] < t.panels.len() && after.panels[k]
                    == t.panels[from[k]]
            &&& forall|k: int, l: int|
                0 <= k < l < from.len() ==> #[trigger] from[k] < #[trigger] from[l]
        }),
{
    lemma_filter_order(
        t.panels,
        |p: TrackedFileView| !is_stale(p, now, timeout),
    )
}

/// What passes a filter keeps its order.
proof fn lemma_filter_order<T>(s: Seq<T>, keep: spec_fn(T) -> bool) -> (from: Seq<int>)
    ensures
        from.len() == s.filter(keep).len(),
        forall|k: int|
            0 <= k < from.len() ==> 0 <= #[trigger] from[k] < s.len() && s.filter(keep)[k]
                == s[from[k]],
        forall|k: int, l: int| 0 <= k < l < from.len() ==> #[trigger] from[k] < #[trigger] from[l],
    decreases s.len(),
{
    reveal(Seq::filter);
    if s.len() == 0 {
        Seq::empty()
    } else {
        let fewer = lemma_filter_order(s.drop_last(), keep);
        if keep(s.last()) {
            fewer.push(s.len() - 1)
        } else {
            fewer
        }
    }
}

} // verus!
