//! What holds of the panels across several changes.

use crate::file_tracker::{
    candidate, find_panel, goes_before, is_stale, lemma_candidate_exists, lemma_find_panel,
    lemma_modified, TrackedFileView, TrackerView, MAX_LINES_PER_FILE,
};
use crate::path::same_path;
use crate::tail_reader::last_n;
use crate::text::lemma_filter_all;
use vstd::prelude::*;

verus! {

/// A changed file is found afterwards in the panel that was assigned to it, with its new lines
/// and size, and is not marked as deleted.
pub proof fn law_changed_file_is_found(
    t: TrackerView,
    path: Seq<u8>,
    lines: Seq<Seq<char>>,
    size: int,
    now: int,
    mtime: int,
)
    requires
        t.inv(),
        t.max_panels > 0,
    ensures
        ({
            let after = t.modified(path, lines, size, now, mtime);
            let i = t.slot_for(path);
            &&& after.index_of(path) == Some(i)
            &&& same_path(after.panels[i].path, path)
            &&& after.panels[i].lines == lines
            &&& after.panels[i].last_size == size
            &&& after.panels[i].last_modified == now
            &&& !after.panels[i].is_deleted
        }),
{
    lemma_modified(t, path, lines, size, now, mtime);
    lemma_find_panel(t.panels, path, 0);
    let after = t.modified(path, lines, size, now, mtime);
    let i = t.slot_for(path);
    lemma_find_panel(after.panels, path, 0);
    assert(same_path(after.panels[i].path, path));
    let found = after.index_of(path);
    assert(found is Some);
    let k = found->0;
    if k != i {
        assert(same_path(after.panels[k].path, after.panels[i].path));
    }
}

/// A changed file leaves every panel but its own as it was, and a panel is added only at the end
/// and only below the limit.
pub proof fn law_changed_file_touches_one_panel(
    t: TrackerView,
    path: Seq<u8>,
    lines: Seq<Seq<char>>,
    size: int,
    now: int,
    mtime: int,
)
    requires
        t.inv(),
        t.max_panels > 0,
    ensures
        ({
            let after = t.modified(path, lines, size, now, mtime);
            &&& forall|j: int|
                0 <= j < t.panels.len() && j != t.slot_for(path) ==> #[trigger] after.panels[j]
                    == t.panels[j]
            &&& after.panels.len() == if t.index_of(path) is None && t.panels.len()
                < t.max_panels {
                t.panels.len() + 1
            } else {
                t.panels.len()
            }
        }),
{
    lemma_modified(t, path, lines, size, now, mtime);
    lemma_find_panel(t.panels, path, 0);
}

/// When a panel is given up, it is that of a deleted file if there is one, and no panel of the
/// same kind has gone without a change for longer.
pub proof fn law_deleted_and_least_recent_go_first(panels: Seq<TrackedFileView>, j: int)
    requires
        0 <= j < panels.len(),
    ensures
        0 <= candidate(panels) < panels.len(),
        panels[j].is_deleted ==> panels[candidate(panels)].is_deleted,
        panels[j].is_deleted == panels[candidate(panels)].is_deleted
            ==> panels[candidate(panels)].last_modified <= panels[j].last_modified,
{
    lemma_candidate_exists(panels);
    if j != candidate(panels) {
        assert(goes_before(panels, candidate(panels), j));
    }
}

/// A changed file counts as changed last: no file has a later stamp, and as long as another file
/// is deleted or has an earlier one, the panel of the changed file is not the next to be given up.
pub proof fn law_changed_file_counts_as_latest(
    t: TrackerView,
    path: Seq<u8>,
    lines: Seq<Seq<char>>,
    size: int,
    now: int,
    mtime: int,
    j: int,
)
    requires
        t.inv(),
        t.max_panels > 0,
        t.all_by(now),
        0 <= j < t.modified(path, lines, size, now, mtime).panels.len(),
        j != t.slot_for(path),
    ensures
        ({
            let after = t.modified(path, lines, size, now, mtime);
            let i = t.slot_for(path);
            &&& after.all_by(after.panels[i].last_modified)
            &&& after.panels[j].is_deleted || after.panels[j].last_modified < now ==> goes_before(
                after.panels,
                j,
                i,
            ) && candidate(after.panels) != i
        }),
{
    law_changed_file_is_found(t, path, lines, size, now, mtime);
    lemma_modified(t, path, lines, size, now, mtime);
    let after = t.modified(path, lines, size, now, mtime);
    let i = t.slot_for(path);
    assert(after.panels[j] == t.panels[j]);
    lemma_candidate_exists(after.panels);
    if candidate(after.panels) == i {
        assert(goes_before(after.panels, i, j));
    }
}

/// Of two files that change one after the other, and that are both still shown, the first is
/// given up before the second, unless they change at the same reading of the clock.
pub proof fn law_files_are_given_up_in_the_order_of_changes(
    t: TrackerView,
    path1: Seq<u8>,
    lines1: Seq<Seq<char>>,
    size1: int,
    now1: int,
    mtime1: int,
    path2: Seq<u8>,
    lines2: Seq<Seq<char>>,
    size2: int,
    now2: int,
    mtime2: int,
)
    requires
        t.inv(),
        t.max_panels > 0,
        !same_path(path1, path2),
        t.modified(path1, lines1, size1, now1, mtime1).all_by(now2),
        t.modified(path1, lines1, size1, now1, mtime1).modified(
            path2,
            lines2,
            size2,
            now2,
            mtime2,
        ).index_of(path1) is Some,
    ensures
        ({
            let after = t.modified(path1, lines1, size1, now1, mtime1).modified(
                path2,
                lines2,
                size2,
                now2,
                mtime2,
            );
            let i = after.index_of(path1)->0;
            let j = after.index_of(path2)->0;
            &&& after.index_of(path2) is Some
            &&& after.panels[i].last_modified == now1
            &&& after.panels[j].last_modified == now2
            &&& now1 <= now2
            &&& now1 < now2 ==> goes_before(after.panels, i, j)
        }),
{
    let once = t.modified(path1, lines1, size1, now1, mtime1);
    let after = once.modified(path2, lines2, size2, now2, mtime2);
    law_changed_file_is_found(t, path1, lines1, size1, now1, mtime1);
    lemma_modified(t, path1, lines1, size1, now1, mtime1);
    law_changed_file_is_found(once, path2, lines2, size2, now2, mtime2);
    lemma_modified(once, path2, lines2, size2, now2, mtime2);
    lemma_find_panel(after.panels, path1, 0);
    let i = after.index_of(path1)->0;
    let j = after.index_of(path2)->0;
    let k = t.slot_for(path1);
    assert(once.panels[k].last_modified <= now2);
    if i == j {
        assert(same_path(after.panels[i].path, path1));
        assert(same_path(after.panels[i].path, path2));
    }
    assert(after.panels[i] == once.panels[i]);
    if i != k {
        assert(same_path(once.panels[i].path, once.panels[k].path));
    }
}

/// As long as what happens is stamped with readings of the clock that do not go back, no stamp is
/// later than the clock.
pub proof fn law_stamps_do_not_run_ahead(
    t: TrackerView,
    path: Seq<u8>,
    i: int,
    lines: Seq<Seq<char>>,
    size: int,
    now: int,
    mtime: int,
    timeout: int,
)
    requires
        t.inv(),
        t.all_by(now),
    ensures
        t.max_panels > 0 ==> t.modified(path, lines, size, now, mtime).all_by(now),
        0 <= i < t.panels.len() ==> t.appended(i, lines, size, now, mtime).all_by(now),
        t.deleted(path).all_by(now),
        t.swept(now, timeout).all_by(now),
        forall|later: int| now <= later ==> #[trigger] t.all_by(later),
{
    lemma_find_panel(t.panels, path, 0);
    if t.max_panels > 0 {
        lemma_modified(t, path, lines, size, now, mtime);
    }
    law_sweep_is_exact(t, now, timeout);
    assert forall|k: int| 0 <= k < t.swept(now, timeout).panels.len() implies (
    #[trigger] t.swept(now, timeout).panels[k]).last_modified <= now by {
        assert(t.panels.contains(t.swept(now, timeout).panels[k]));
        let g = choose|g: int|
            0 <= g < t.panels.len() && t.panels[g] == t.swept(now, timeout).panels[k];
        assert(t.panels[g].last_modified <= now);
    }
}

/// A deleted file that has gone without a change for longer than the timeout before the latest
/// change of all is always swept.
pub proof fn law_old_deleted_files_are_swept(
    t: TrackerView,
    now: int,
    timeout: int,
    i: int,
    latest: int,
)
    requires
        t.inv(),
        t.all_by(now),
        0 <= timeout,
        0 <= i < t.panels.len(),
        0 <= latest < t.panels.len(),
        t.panels[i].is_deleted,
        t.panels[latest].last_modified - t.panels[i].last_modified > timeout,
    ensures
        t.swept(now, timeout).index_of(t.panels[i].path) is None,
{
    law_sweep_is_exact(t, now, timeout);
    let after = t.swept(now, timeout);
    let path = t.panels[i].path;
    assert(t.panels[latest].last_modified <= now);
    lemma_find_panel(after.panels, path, 0);
    if after.index_of(path) is Some {
        let f = after.index_of(path)->0;
        assert(!is_stale(after.panels[f], now, timeout));
        assert(t.panels.contains(after.panels[f]));
        let g = choose|g: int| 0 <= g < t.panels.len() && t.panels[g] == after.panels[f];
        if g != i {
            assert(same_path(t.panels[g].path, t.panels[i].path));
        }
    }
}

/// A file that is shown keeps its panel when other files change below the limit.
pub proof fn law_no_panel_is_given_up_below_the_limit(
    t: TrackerView,
    path: Seq<u8>,
    lines: Seq<Seq<char>>,
    size: int,
    now: int,
    mtime: int,
    other: Seq<u8>,
)
    requires
        t.inv(),
        t.panels.len() < t.max_panels,
        t.index_of(other) is Some,
    ensures
        t.modified(path, lines, size, now, mtime).index_of(other) == t.index_of(other),
{
    lemma_modified(t, path, lines, size, now, mtime);
    lemma_find_panel(t.panels, other, 0);
    lemma_find_panel(t.panels, path, 0);
    let after = t.modified(path, lines, size, now, mtime);
    lemma_find_panel(after.panels, other, 0);
    let k = t.index_of(other)->0;
    assert(after.panels[k].path == t.panels[k].path);
    let f = after.index_of(other)->0;
    if f < k {
        assert(after.panels[f].path == t.panels[f].path);
    }
}

/// Of two changes of the same file only the second shows.
pub proof fn law_second_change_replaces_the_first(
    t: TrackerView,
    path: Seq<u8>,
    lines1: Seq<Seq<char>>,
    size1: int,
    now1: int,
    mtime1: int,
    lines2: Seq<Seq<char>>,
    size2: int,
    now2: int,
    mtime2: int,
)
    requires
        t.inv(),
        t.max_panels > 0,
    ensures
        t.modified(path, lines1, size1, now1, mtime1).modified(path, lines2, size2, now2, mtime2)
            == t.modified(path, lines2, size2, now2, mtime2),
{
    law_changed_file_is_found(t, path, lines1, size1, now1, mtime1);
    lemma_modified(t, path, lines1, size1, now1, mtime1);
    let once = t.modified(path, lines1, size1, now1, mtime1);
    let twice = once.modified(path, lines2, size2, now2, mtime2);
    let direct = t.modified(path, lines2, size2, now2, mtime2);
    let i = t.slot_for(path);
    lemma_find_panel(t.panels, path, 0);
    assert(twice.panels[i] == direct.panels[i]);
    assert(twice.panels =~= direct.panels);
}

/// A file keeps its panel however its path is spelled.
pub proof fn law_spelling_does_not_matter(t: TrackerView, path: Seq<u8>, other: Seq<u8>)
    requires
        same_path(path, other),
    ensures
        t.index_of(path) == t.index_of(other),
{
    lemma_same_spelling(t.panels, path, other, 0);
}

/// The search for a file does not depend on how its path is spelled.
proof fn lemma_same_spelling(
    panels: Seq<TrackedFileView>,
    path: Seq<u8>,
    other: Seq<u8>,
    from: int,
)
    requires
        same_path(path, other),
        0 <= from,
    ensures
        find_panel(panels, path, from) == find_panel(panels, other, from),
    decreases panels.len() - from,
{
    if from < panels.len() {
        lemma_same_spelling(panels, path, other, from + 1);
    }
}

/// Appending in two steps shows what appending at once shows.
pub proof fn law_appending_in_pieces(
    t: TrackerView,
    i: int,
    first: Seq<Seq<char>>,
    size1: int,
    now1: int,
    mtime1: int,
    second: Seq<Seq<char>>,
    size2: int,
    now2: int,
    mtime2: int,
)
    requires
        0 <= i < t.panels.len(),
    ensures
        t.appended(i, first, size1, now1, mtime1).appended(i, second, size2, now2, mtime2)
            == t.appended(i, first + second, size2, now2, mtime2),
{
    let lines = t.panels[i].lines;
    let max = MAX_LINES_PER_FILE as nat;
    assert(last_n(last_n(lines + first, max) + second, max) =~= last_n(
        lines + (first + second),
        max,
    ));
    let once = t.appended(i, first, size1, now1, mtime1);
    assert(once.appended(i, second, size2, now2, mtime2).panels =~= t.appended(
        i,
        first + second,
        size2,
        now2,
        mtime2,
    ).panels);
}

/// A panel that is appended to keeps at most the fixed number of lines, and they are the last
/// ones of the old and the new together.
pub proof fn law_appending_keeps_the_last_lines(
    t: TrackerView,
    i: int,
    lines: Seq<Seq<char>>,
    size: int,
    now: int,
    mtime: int,
)
    requires
        0 <= i < t.panels.len(),
    ensures
        ({
            let shown = t.appended(i, lines, size, now, mtime).panels[i].lines;
            &&& shown.len() <= MAX_LINES_PER_FILE
            &&& shown.is_suffix_of(t.panels[i].lines + lines)
            &&& t.panels[i].lines.len() + lines.len() <= MAX_LINES_PER_FILE ==> shown
                == t.panels[i].lines + lines
        }),
{
}

/// Deleting marks the file's panel and nothing else, and deleting again changes nothing.
pub proof fn law_deleting_marks_and_keeps(t: TrackerView, path: Seq<u8>)
    requires
        t.inv(),
    ensures
        t.deleted(path).deleted(path) == t.deleted(path),
        t.deleted(path).panels.len() == t.panels.len(),
        t.deleted(path).index_of(path) == t.index_of(path),
        t.index_of(path) matches Some(i) ==> t.deleted(path).panels[i].is_deleted && t.deleted(
            path,
        ).panels[i].lines == t.panels[i].lines,
        t.index_of(path) is None ==> t.deleted(path) == t,
{
    lemma_find_panel(t.panels, path, 0);
    if t.index_of(path) is Some {
        let i = t.index_of(path)->0;
        let after = t.deleted(path);
        lemma_find_panel(after.panels, path, 0);
        assert(after.panels[i].path == t.panels[i].path);
        let k = after.index_of(path)->0;
        if k != i {
            assert(after.panels[k].path == t.panels[k].path);
        }
        assert(after.deleted(path).panels =~= after.panels);
    }
}

/// A deleted file that changes again is shown again in the same panel.
pub proof fn law_deleted_file_can_return(
    t: TrackerView,
    path: Seq<u8>,
    lines: Seq<Seq<char>>,
    size: int,
    now: int,
    mtime: int,
)
    requires
        t.inv(),
        t.index_of(path) is Some,
    ensures
        t.deleted(path).modified(path, lines, size, now, mtime) == t.modified(
            path,
            lines,
            size,
            now,
            mtime,
        ),
{
    law_deleting_marks_and_keeps(t, path);
    lemma_find_panel(t.panels, path, 0);
    assert(t.deleted(path).modified(path, lines, size, now, mtime).panels =~= t.modified(
        path,
        lines,
        size,
        now,
        mtime,
    ).panels);
}

/// Sweeping removes exactly the panels of files that are deleted and stale: none of those is
/// left, each of the others is, and sweeping again at the same time removes nothing more.
pub proof fn law_sweep_is_exact(t: TrackerView, now: int, timeout: int)
    ensures
        forall|i: int|
            0 <= i < t.swept(now, timeout).panels.len() ==> !is_stale(
                #[trigger] t.swept(now, timeout).panels[i],
                now,
                timeout,
            ),
        forall|i: int|
            0 <= i < t.panels.len() && !is_stale(#[trigger] t.panels[i], now, timeout) ==> t.swept(
                now,
                timeout,
            ).panels.contains(t.panels[i]),
        forall|i: int|
            0 <= i < t.swept(now, timeout).panels.len() ==> t.panels.contains(
                #[trigger] t.swept(now, timeout).panels[i],
            ),
        t.swept(now, timeout).swept(now, timeout) == t.swept(now, timeout),
{
    let live = |p: TrackedFileView| !is_stale(p, now, timeout);
    let kept = t.panels.filter(live);
    broadcast use vstd::seq_lib::group_filter_ensures;

    assert forall|i: int| 0 <= i < kept.len() implies !is_stale(
        #[trigger] kept[i],
        now,
        timeout,
    ) by {
        assert(live(kept[i]));
    }
    assert forall|i: int|
        0 <= i < t.panels.len() && !is_stale(#[trigger] t.panels[i], now, timeout) implies kept
        .contains(t.panels[i]) by {
        assert(live(t.panels[i]));
    }
    assert forall|i: int| 0 <= i < kept.len() implies t.panels.contains(#[trigger] kept[i]) by {
        assert(kept.contains(kept[i]));
        t.panels.lemma_filter_contains_rev(live, kept[i]);
    }
    lemma_filter_all(kept, live);
}

/// A file that is not deleted keeps its panel through a sweep, with what it shows.
pub proof fn law_sweep_keeps_live_files(t: TrackerView, now: int, timeout: int, path: Seq<u8>)
    requires
        t.inv(),
        t.index_of(path) matches Some(i) && !t.panels[i].is_deleted,
    ensures
        ({
            let after = t.swept(now, timeout);
            &&& after.index_of(path) is Some
            &&& after.panels[after.index_of(path)->0] == t.panels[t.index_of(path)->0]
        }),
{
    law_sweep_is_exact(t, now, timeout);
    lemma_find_panel(t.panels, path, 0);
    let i = t.index_of(path)->0;
    let after = t.swept(now, timeout);
    assert(!is_stale(t.panels[i], now, timeout));
    assert(after.panels.contains(t.panels[i]));
    let k = choose|k: int| 0 <= k < after.panels.len() && after.panels[k] == t.panels[i];
    lemma_find_panel(after.panels, path, 0);
    assert(same_path(after.panels[k].path, path));
    let f = after.index_of(path)->0;
    assert(t.panels.contains(after.panels[f]));
    let g = choose|g: int| 0 <= g < t.panels.len() && t.panels[g] == after.panels[f];
    if g != i {
        assert(same_path(t.panels[g].path, t.panels[i].path));
    }
}

} // verus!
