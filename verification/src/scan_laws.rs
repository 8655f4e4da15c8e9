//! Which files the program starts with.

use crate::app::AppView;
use crate::dispatch_laws::same_settings;
use crate::file_tracker::{lemma_modified, lemma_same_paths_keep_inv};
use crate::glob::passes;
use crate::panel_laws::law_shown_files_are_found;
use crate::path::{same_path, FilePath};
use crate::scan::{
    comes_before, files_of, files_of_all, first_paths, holds, is_ranking, is_recent, ScanEntry, ScannedFileView,
    Tree,
};
use crate::tracker_laws::{law_changed_file_is_found, law_changed_file_touches_one_panel};
use vstd::prelude::*;

verus! {

/// A walk lists what it comes to in order: a watched file is found, one that is not watched is
/// not, and behind the files of the trees before it come those of the next, down to any depth. The
/// first directory that cannot be listed ends the walk.
pub proof fn law_walk_goes_in_order(
    trees: Seq<Tree>,
    next: Tree,
    entries: Vec<Tree>,
    path: FilePath,
    reason: String,
    pattern: Option<Seq<char>>,
)
    ensures
        passes(path@, pattern) ==> files_of(Tree::File(path), pattern) == Ok::<
            Seq<Seq<u8>>,
            Seq<char>,
        >(seq![path@]),
        !passes(path@, pattern) ==> files_of(Tree::File(path), pattern) == Ok::<
            Seq<Seq<u8>>,
            Seq<char>,
        >(Seq::empty()),
        files_of(Tree::Other, pattern) == Ok::<Seq<Seq<u8>>, Seq<char>>(Seq::empty()),
        files_of(Tree::Unreadable(reason), pattern) == Err::<Seq<Seq<u8>>, Seq<char>>(reason@),
        files_of(Tree::Dir(entries), pattern) == files_of_all(entries@, pattern),
        files_of_all(Seq::empty(), pattern) == Ok::<Seq<Seq<u8>>, Seq<char>>(Seq::empty()),
        ({
            let before = files_of_all(trees, pattern);
            let own = files_of(next, pattern);
            let after = files_of_all(trees.push(next), pattern);
            &&& before is Err ==> after == before
            &&& before is Ok && own is Err ==> after == own
            &&& before is Ok && own is Ok ==> after == Ok::<Seq<Seq<u8>>, Seq<char>>(
                before->Ok_0 + own->Ok_0,
            )
        }),
{
    assert(trees.push(next).drop_last() == trees);
}

/// A walk that comes to its end has found every file of the tree that passes the pattern.
pub proof fn law_walk_misses_nothing(tree: Tree, pattern: Option<Seq<char>>, path: Seq<u8>)
    requires
        holds(tree, path),
        passes(path, pattern),
    ensures
        files_of(tree, pattern) matches Ok(files) ==> files.contains(path),
    decreases tree,
{
    match tree {
        Tree::Dir(entries) => {
            let i = choose|i: int|
                0 <= i < entries@.len() && holds(#[trigger] entries@[i], path);
            assert(decreases_to!(tree => entries));
            assert(decreases_to!(entries@ => entries@[i]));
            law_walk_misses_nothing(entries@[i], pattern, path);
            lemma_all_found(entries@, pattern, path, i);
        },
        Tree::File(p) => {
            assert(seq![path][0] == path);
        },
        _ => {},
    }
}

/// What is found in one of several trees is found in all.
proof fn lemma_all_found(trees: Seq<Tree>, pattern: Option<Seq<char>>, path: Seq<u8>, i: int)
    requires
        0 <= i < trees.len(),
        files_of(trees[i], pattern) matches Ok(files) ==> files.contains(path),
    ensures
        files_of_all(trees, pattern) matches Ok(files) ==> files.contains(path),
    decreases trees.len(),
{
    let fewer = trees.drop_last();
    if files_of_all(trees, pattern) is Ok {
        let head = files_of_all(fewer, pattern)->Ok_0;
        let more = files_of(trees.last(), pattern)->Ok_0;
        if i == trees.len() - 1 {
            let k = choose|k: int| 0 <= k < more.len() && more[k] == path;
            assert((head + more)[head.len() + k] == path);
        } else {
            lemma_all_found(fewer, pattern, path, i);
            let k = choose|k: int| 0 <= k < head.len() && head[k] == path;
            assert((head + more)[k] == path);
        }
    }
}

/// Whether a directory that cannot be listed stands in a tree.
pub open spec fn has_unreadable(tree: Tree) -> bool
    decreases tree,
{
    match tree {
        Tree::Unreadable(_) => true,
        Tree::Dir(entries) => exists|i: int|
            0 <= i < entries@.len() && has_unreadable(#[trigger] entries@[i]),
        _ => false,
    }
}

/// A walk fails exactly where a directory that cannot be listed stands in the tree.
pub proof fn law_walk_fails_where_it_cannot_list(tree: Tree, pattern: Option<Seq<char>>)
    ensures
        files_of(tree, pattern) is Err <==> has_unreadable(tree),
    decreases tree,
{
    match tree {
        Tree::Dir(entries) => {
            assert(decreases_to!(tree => entries));
            lemma_walks_fail(entries@, pattern);
        },
        _ => {},
    }
}

/// Several walks fail exactly where one does.
proof fn lemma_walks_fail(trees: Seq<Tree>, pattern: Option<Seq<char>>)
    ensures
        files_of_all(trees, pattern) is Err <==> exists|i: int|
            0 <= i < trees.len() && has_unreadable(#[trigger] trees[i]),
    decreases trees,
{
    if trees.len() > 0 {
        let fewer = trees.drop_last();
        lemma_walks_fail(fewer, pattern);
        law_walk_fails_where_it_cannot_list(trees.last(), pattern);
        if files_of_all(fewer, pattern) is Err {
            let i = choose|i: int| 0 <= i < fewer.len() && has_unreadable(#[trigger] fewer[i]);
            assert(has_unreadable(trees[i]));
        } else if files_of(trees.last(), pattern) is Err {
            assert(has_unreadable(trees[trees.len() - 1]));
        } else {
            assert forall|i: int| 0 <= i < trees.len() implies !has_unreadable(
                #[trigger] trees[i],
            ) by {
                if i < fewer.len() {
                    assert(!has_unreadable(fewer[i]));
                }
            }
        }
    }
}

/// The files that are opened at the start were all modified after the point in time, each comes
/// before those modified earlier, and of two modified at once the one found first comes first. A
/// file that was modified after the point in time is left out only where the limit is reached,
/// and only for files that were modified no earlier.
pub proof fn law_start_takes_the_latest_in_order(
    entries: Seq<ScanEntry>,
    cutoff: int,
    order: Seq<int>,
    limit: nat,
    j: int,
    k: int,
    e: int,
)
    requires
        is_ranking(entries, cutoff, order),
        0 <= j <= k < first_paths(entries, order, limit).len(),
        0 <= e < entries.len(),
    ensures
        ({
            let opened = first_paths(entries, order, limit);
            let (x, y) = (entries[order[j]], entries[order[k]]);
            &&& opened.len() <= limit
            &&& 0 <= order[j] < entries.len() && 0 <= order[k] < entries.len()
            &&& opened[j] == x.path@ && opened[k] == y.path@
            &&& x.mtime is Some && x.mtime->0 > cutoff
            &&& y.mtime is Some && y.mtime->0 > cutoff
            &&& j == k || x.mtime->0 > y.mtime->0 || (x.mtime->0 == y.mtime->0 && order[j] < order[k])
            &&& entries[e].mtime is Some && entries[e].mtime->0 > cutoff ==> order.take(
                opened.len() as int,
            ).contains(e) || (opened.len() == limit && entries[e].mtime->0 <= y.mtime->0)
        }),
{
    let opened = first_paths(entries, order, limit);
    if j < k {
        assert(comes_before(entries, order[j], order[k]));
    }
    if is_recent(entries[e], cutoff) {
        assert(order.contains(e));
        let p = choose|p: int| 0 <= p < order.len() && order[p] == e;
        if p < opened.len() {
            assert(order.take(opened.len() as int)[p] == e);
        } else {
            assert(comes_before(entries, order[k], order[p]));
        }
    }
}

/// A file that is opened at the start is shown with what was read of it and with its process, and
/// touches no other panel but the one it takes; one that could not be read changes nothing.
pub proof fn law_scanned_file_is_shown(
    a: AppView,
    file: ScannedFileView,
    now: int,
    today: int,
    j: int,
)
    requires
        a.inv(),
        a.max_panels > 0,
    ensures
        file.content is None ==> a.with_scanned(file, now, today) == a,
        file.content matches Some(c) ==> {
            let after = a.with_scanned(file, now, today);
            let found = after.tracker.index_of(file.path);
            let panel = after.tracker.panels[found->0];
            &&& found is Some
            &&& same_settings(a, after)
            &&& after.selected_panel == a.selected_panel
            &&& panel.lines == c.lines
            &&& panel.last_size == c.size
            &&& panel.last_modified == now
            &&& panel.file_mtime == match c.mtime {
                Some(m) => m as int,
                None => today,
            }
            &&& panel.process_cmd == file.process_cmd
            &&& !panel.is_deleted
            &&& found->0 < after.scroll_offsets.len()
            &&& 0 <= j < a.scroll_offsets.len() ==> after.scroll_offsets[j] == a.scroll_offsets[j]
            &&& a.scroll_offsets.len() <= j < after.scroll_offsets.len() ==> after.scroll_offsets[j]
                == 0
            &&& 0 <= j < a.active() && found != Some(j) ==> after.tracker.panels[j]
                == a.tracker.panels[j]
            &&& a.active() <= after.active() <= a.active() + 1
        },
{
    if file.content is Some {
        let c = file.content->0;
        let mtime = c.modified_on(today);
        let t = a.tracker;
        let opened = t.modified(file.path, c.lines, c.size, now, mtime);
        let i = t.slot_for(file.path);
        lemma_modified(t, file.path, c.lines, c.size, now, mtime);
        law_changed_file_is_found(t, file.path, c.lines, c.size, now, mtime);
        law_changed_file_touches_one_panel(t, file.path, c.lines, c.size, now, mtime);
        let after = a.with_scanned(file, now, today);
        assert forall|k: int| 0 <= k < opened.panels.len() implies (
        #[trigger] after.tracker.panels[k]).path == opened.panels[k].path by {}
        lemma_same_paths_keep_inv(opened, after.tracker);
        assert(same_path(after.tracker.panels[i].path, file.path));
        law_shown_files_are_found(after.tracker, file.path, i);
    }
}

/// As many files are opened at the start as the limit allows: where it is not reached, every file
/// that was modified after the point in time is among them.
pub proof fn law_start_leaves_none_out(
    entries: Seq<ScanEntry>,
    cutoff: int,
    order: Seq<int>,
    limit: nat,
    e: int,
)
    requires
        is_ranking(entries, cutoff, order),
        0 <= e < entries.len(),
        entries[e].mtime is Some,
        entries[e].mtime->0 > cutoff,
    ensures
        first_paths(entries, order, limit).len() == limit || first_paths(
            entries,
            order,
            limit,
        ).contains(entries[e].path@),
{
    assert(is_recent(entries[e], cutoff));
    assert(order.contains(e));
    let p = choose|p: int| 0 <= p < order.len() && order[p] == e;
    let opened = first_paths(entries, order, limit);
    if opened.len() != limit {
        assert(opened[p] == entries[e].path@);
    }
}

/// The files are opened one after the other, from the first to the last, each at its own time and
/// each where those before it have left the panels.
pub proof fn law_scanned_files_are_opened_in_order(
    a: AppView,
    files: Seq<ScannedFileView>,
    times: Seq<(int, int)>,
    file: ScannedFileView,
    now: int,
    today: int,
)
    requires
        times.len() == files.len(),
    ensures
        a.scanned(Seq::empty(), Seq::empty()) == a,
        a.scanned(files.push(file), times.push((now, today))) == a.scanned(
            files,
            times,
        ).with_scanned(file, now, today),
{
    assert(files.push(file).drop_last() == files);
    assert(times.push((now, today)).drop_last() == times);
}

} // verus!
