//! Finding the files to start with.

use crate::app::{App, AppView};
use crate::clock::{time_of_day, NANOS_PER_SECOND};
use crate::dispatch::{content_view, open_file_at, process_found, FileContent, FileContentView};
use crate::file_tracker::{lemma_find_panel, lemma_modified, TrackerView};
use crate::glob::{passes, passes_glob, path_fits, pattern_fits};
use crate::path::{same_path, FilePath};
use crate::text::{opt_text, utf8_lossy};
use vstd::prelude::*;
use vstd::utf8::*;

verus! {

/// Why a scan cannot be made.
#[derive(Debug)]
pub struct ScanError {
    pub message: String,
}

/// The directory to watch, if it is one: `is_dir` says whether it is.
pub fn validate_dir(dir: FilePath, is_dir: bool) -> (r: Result<FilePath, ScanError>)
    ensures
        r is Ok <==> is_dir,
        r matches Ok(d) ==> d@ == dir@,
        r matches Err(e) ==> e.message@ == "'"@ + utf8_lossy(dir@) + "' is not a directory"@,
        r matches Err(e) ==> valid_utf8(dir@) ==> e.message@ == "'"@ + decode_utf8(dir@)
            + "' is not a directory"@,
{
    if !is_dir {
        let mut message = "'".to_string();
        message.append(dir.display().as_str());
        message.append("' is not a directory");
        return Err(ScanError { message });
    }
    Ok(dir)
}

/// What was found at a path.
#[derive(Debug)]
pub enum Tree {
    File(FilePath),
    /// A directory with what was found in it, in the order in which it was listed.
    Dir(Vec<Tree>),
    /// A directory that could not be listed, with the reason.
    Unreadable(String),
    /// Neither a file nor a directory.
    Other,
}

/// The watched files of a tree in the order in which they are listed, or the reason why the
/// first directory that could not be listed could not.
pub open spec fn files_of(tree: Tree, pattern: Option<Seq<char>>) -> Result<
    Seq<Seq<u8>>,
    Seq<char>,
>
    decreases tree,
{
    match tree {
        Tree::File(path) => if passes(path@, pattern) {
            Ok(seq![path@])
        } else {
            Ok(Seq::empty())
        },
        Tree::Dir(entries) => files_of_all(entries@, pattern),
        Tree::Unreadable(reason) => Err(reason@),
        Tree::Other => Ok(Seq::empty()),
    }
}

/// The watched files of several trees, one tree after the other.
pub open spec fn files_of_all(trees: Seq<Tree>, pattern: Option<Seq<char>>) -> Result<
    Seq<Seq<u8>>,
    Seq<char>,
>
    decreases trees,
{
    if trees.len() == 0 {
        Ok(Seq::empty())
    } else {
        match files_of_all(trees.drop_last(), pattern) {
            Err(reason) => Err(reason),
            Ok(files) => match files_of(trees.last(), pattern) {
                Err(reason) => Err(reason),
                Ok(more) => Ok(files + more),
            },
        }
    }
}

/// The watched files of a tree that are listed before the first directory that could not be.
pub open spec fn files_until(tree: Tree, pattern: Option<Seq<char>>) -> Seq<Seq<u8>>
    decreases tree,
{
    match tree {
        Tree::File(path) => if passes(path@, pattern) {
            seq![path@]
        } else {
            Seq::empty()
        },
        Tree::Dir(entries) => files_until_all(entries@, pattern),
        Tree::Unreadable(_) | Tree::Other => Seq::empty(),
    }
}

/// The watched files of several trees that are listed before the first directory that could not
/// be.
pub open spec fn files_until_all(trees: Seq<Tree>, pattern: Option<Seq<char>>) -> Seq<Seq<u8>>
    decreases trees,
{
    if trees.len() == 0 {
        Seq::empty()
    } else if files_of_all(trees.drop_last(), pattern) is Err {
        files_until_all(trees.drop_last(), pattern)
    } else {
        files_until_all(trees.drop_last(), pattern) + files_until(trees.last(), pattern)
    }
}

/// Whether a file is one of a tree.
pub open spec fn holds(tree: Tree, path: Seq<u8>) -> bool
    decreases tree,
{
    match tree {
        Tree::File(p) => p@ == path,
        Tree::Dir(entries) => exists|i: int|
            0 <= i < entries@.len() && holds(#[trigger] entries@[i], path),
        Tree::Unreadable(_) | Tree::Other => false,
    }
}

/// Whether every path of a tree is short enough to be matched.
pub open spec fn tree_fits(tree: Tree) -> bool
    decreases tree,
{
    match tree {
        Tree::File(path) => path_fits(path@),
        Tree::Dir(entries) => forall|i: int|
            0 <= i < entries@.len() ==> tree_fits(#[trigger] entries@[i]),
        _ => true,
    }
}

/// The paths of a list of files.
pub open spec fn path_views(paths: Seq<FilePath>) -> Seq<Seq<u8>> {
    paths.map_values(|p: FilePath| p@)
}

/// Append the watched files of a tree to those found so far.
fn walk(tree: &Tree, glob_pattern: &Option<String>, results: &mut Vec<FilePath>) -> (r: Result<
    (),
    ScanError,
>)
    requires
        tree_fits(*tree),
        pattern_fits(opt_text(*glob_pattern)),
    ensures
        r is Ok <==> files_of(*tree, opt_text(*glob_pattern)) is Ok,
        files_of(*tree, opt_text(*glob_pattern)) matches Err(reason) ==> r->Err_0.message@
            == reason,
        path_views(final(results)@) == path_views(old(results)@) + files_until(
            *tree,
            opt_text(*glob_pattern),
        ),
        path_views(old(results)@).is_prefix_of(path_views(final(results)@)),
        forall|i: int|
            old(results)@.len() <= i < final(results)@.len() ==> passes(
                (#[trigger] final(results)@[i])@,
                opt_text(*glob_pattern),
            ) && holds(*tree, final(results)@[i]@),
    decreases tree,
{
    let ghost pattern = opt_text(*glob_pattern);
    let ghost before = results@;
    proof {
        assert(path_views(before) + Seq::<Seq<u8>>::empty() == path_views(before));
    }
    let r = match tree {
        Tree::File(path) => {
            if passes_glob(path, glob_pattern) {
                results.push(path.duplicate());
                assert(path_views(results@) == path_views(before) + seq![path@]);
            }
            Ok(())
        },
        Tree::Dir(entries) => {
            assert(decreases_to!(tree => entries));
            walk_all(entries, glob_pattern, results)
        },
        Tree::Unreadable(reason) => Err(ScanError { message: reason.clone() }),
        Tree::Other => Ok(()),
    };
    proof {
        let files = files_until(*tree, pattern);
        law_walk_finds_watched_files(*tree, pattern);
        assert forall|i: int| before.len() <= i < results@.len() implies passes(
            (#[trigger] results@[i])@,
            pattern,
        ) && holds(*tree, results@[i]@) by {
            assert(path_views(results@)[i] == files[i - before.len()]);
        }
    }
    r
}

/// Append the watched files of several trees to those found so far.
fn walk_all(
    entries: &Vec<Tree>,
    glob_pattern: &Option<String>,
    results: &mut Vec<FilePath>,
) -> (r: Result<(), ScanError>)
    requires
        forall|i: int| 0 <= i < entries@.len() ==> tree_fits(#[trigger] entries@[i]),
        pattern_fits(opt_text(*glob_pattern)),
    ensures
        r is Ok <==> files_of_all(entries@, opt_text(*glob_pattern)) is Ok,
        files_of_all(entries@, opt_text(*glob_pattern)) matches Err(reason) ==> r->Err_0.message@
            == reason,
        path_views(final(results)@) == path_views(old(results)@) + files_until_all(
            entries@,
            opt_text(*glob_pattern),
        ),
    decreases entries,
{
    let ghost pattern = opt_text(*glob_pattern);
    let ghost before = results@;
    let mut i: usize = 0;
    proof {
        assert(entries@.take(0) == Seq::<Tree>::empty());
        assert(path_views(before) + Seq::<Seq<u8>>::empty() == path_views(before));
    }
    while i < entries.len()
        invariant
            i <= entries@.len(),
            forall|k: int| 0 <= k < entries@.len() ==> tree_fits(#[trigger] entries@[k]),
            pattern == opt_text(*glob_pattern),
            pattern_fits(pattern),
            before == old(results)@,
            files_of_all(entries@.take(i as int), pattern) is Ok,
            path_views(results@) == path_views(before) + files_until_all(
                entries@.take(i as int),
                pattern,
            ),
        decreases entries@.len() - i,
    {
        let ghost k = i as int;
        proof {
            assert(entries@.take(k + 1).drop_last() == entries@.take(k));
            assert(entries@.take(k + 1).last() == entries@[k]);
            assert(decreases_to!(entries@ => entries@[k]));
        }
        let step = walk(&entries[i], glob_pattern, results);
        proof {
            let files = files_until_all(entries@.take(k), pattern);
            let more = files_until(entries@[k], pattern);
            assert(path_views(before) + files + more == path_views(before) + (files + more));
        }
        match step {
            Ok(_) => {},
            Err(e) => {
                proof {
                    lemma_error_stays(entries@, pattern, k + 1);
                }
                return Err(e);
            },
        }
        i += 1;
    }
    assert(entries@.take(i as int) == entries@);
    Ok(())
}

/// Once a directory could not be listed, what comes later does not matter.
proof fn lemma_error_stays(trees: Seq<Tree>, pattern: Option<Seq<char>>, n: int)
    requires
        0 <= n <= trees.len(),
        files_of_all(trees.take(n), pattern) is Err,
    ensures
        files_of_all(trees, pattern) == files_of_all(trees.take(n), pattern),
        files_until_all(trees, pattern) == files_until_all(trees.take(n), pattern),
    decreases trees.len(),
{
    if n == trees.len() {
        assert(trees.take(n) == trees);
    } else {
        assert(trees.drop_last().take(n) == trees.take(n));
        lemma_error_stays(trees.drop_last(), pattern, n);
    }
}

/// A walk that does not fail finds all watched files of a tree.
proof fn lemma_files_until(tree: Tree, pattern: Option<Seq<char>>)
    ensures
        files_of(tree, pattern) matches Ok(files) ==> files_until(tree, pattern) == files,
    decreases tree,
{
    match tree {
        Tree::Dir(entries) => {
            assert(decreases_to!(tree => entries));
            lemma_files_until_all(entries@, pattern);
        },
        _ => {},
    }
}

/// Walks that do not fail find all watched files of several trees.
proof fn lemma_files_until_all(trees: Seq<Tree>, pattern: Option<Seq<char>>)
    ensures
        files_of_all(trees, pattern) matches Ok(files) ==> files_until_all(trees, pattern) == files,
    decreases trees,
{
    if trees.len() > 0 {
        lemma_files_until_all(trees.drop_last(), pattern);
        lemma_files_until(trees.last(), pattern);
    }
}

/// The watched files of a directory and its subdirectories.
pub fn walkdir(tree: &Tree, glob_pattern: &Option<String>) -> (r: Result<
    Vec<FilePath>,
    ScanError,
>)
    requires
        tree_fits(*tree),
        pattern_fits(opt_text(*glob_pattern)),
    ensures
        r is Ok <==> files_of(*tree, opt_text(*glob_pattern)) is Ok,
        r matches Ok(files) ==> Ok::<Seq<Seq<u8>>, Seq<char>>(path_views(files@)) == files_of(
            *tree,
            opt_text(*glob_pattern),
        ),
        r matches Err(e) ==> Err::<Seq<Seq<u8>>, Seq<char>>(e.message@) == files_of(
            *tree,
            opt_text(*glob_pattern),
        ),
{
    let mut results: Vec<FilePath> = Vec::new();
    match walk(tree, glob_pattern, &mut results) {
        Ok(_) => {
            proof {
                let files = files_of(*tree, opt_text(*glob_pattern))->Ok_0;
                lemma_files_until(*tree, opt_text(*glob_pattern));
                assert(path_views(Seq::<FilePath>::empty()) + files == files);
            }
            Ok(results)
        },
        Err(e) => Err(e),
    }
}

/// A file found by the walk, with its modification time in nanoseconds since the Unix epoch,
/// where it is known.
#[derive(Debug)]
pub struct ScanEntry {
    pub path: FilePath,
    pub mtime: Option<i128>,
}

/// Whether a file was modified after a point in time.
pub open spec fn is_recent(entry: ScanEntry, cutoff: int) -> bool {
    entry.mtime matches Some(m) && m > cutoff
}

/// Whether entry `i` comes before entry `j`: it was modified later, or at the same time and was
/// found earlier.
pub open spec fn comes_before(entries: Seq<ScanEntry>, i: int, j: int) -> bool {
    let a = entries[i].mtime->0;
    let b = entries[j].mtime->0;
    a > b || (a == b && i < j)
}

/// `order` lists the entries modified after a point in time, each once, the latest first.
pub open spec fn is_ranking(entries: Seq<ScanEntry>, cutoff: int, order: Seq<int>) -> bool {
    &&& forall|k: int|
        0 <= k < order.len() ==> 0 <= #[trigger] order[k] < entries.len() && is_recent(
            entries[order[k]],
            cutoff,
        )
    &&& forall|a: int, b: int|
        0 <= a < b < order.len() ==> comes_before(
            entries,
            #[trigger] order[a],
            #[trigger] order[b],
        )
    &&& forall|i: int|
        0 <= i < entries.len() && is_recent(#[trigger] entries[i], cutoff) ==> order.contains(i)
}

/// The paths of the first entries of a ranking, at most `limit` of them.
pub open spec fn first_paths(entries: Seq<ScanEntry>, order: Seq<int>, limit: nat) -> Seq<Seq<u8>> {
    order.take(
        if order.len() > limit {
            limit as int
        } else {
            order.len() as int
        },
    ).map_values(|i: int| entries[i].path@)
}

/// The indices of a ranking as mathematical integers.
pub open spec fn as_ints(order: Seq<usize>) -> Seq<int> {
    order.map_values(|i: usize| i as int)
}

/// The entries modified after a point in time, the latest first.
fn rank(entries: &Vec<ScanEntry>, cutoff: i128) -> (r: Vec<usize>)
    ensures
        is_ranking(entries@, cutoff as int, as_ints(r@)),
{
    let mut order: Vec<usize> = Vec::new();
    let mut i: usize = 0;
    assert(entries@.take(0) == Seq::<ScanEntry>::empty());
    while i < entries.len()
        invariant
            i <= entries@.len(),
            forall|k: int|
                0 <= k < order@.len() ==> (#[trigger] order@[k]) < i && is_recent(
                    entries@[order@[k] as int],
                    cutoff as int,
                ),
            forall|a: int, b: int|
                0 <= a < b < order@.len() ==> comes_before(
                    entries@,
                    (#[trigger] order@[a]) as int,
                    (#[trigger] order@[b]) as int,
                ),
            forall|j: int|
                0 <= j < i && is_recent(#[trigger] entries@[j], cutoff as int)
                    ==> order@.contains(j as usize),
        decreases entries@.len() - i,
    {
        let ghost before = order@;
        match entries[i].mtime {
            Some(m) => {
                if m > cutoff {
                    let mut at: usize = 0;
                    let mut done: bool = false;
                    while at < order.len() && !done
                        invariant
                            at <= order@.len(),
                            i < entries@.len(),
                            entries@[i as int].mtime == Some(m),
                            order@ == before,
                            forall|k: int|
                                0 <= k < order@.len() ==> (#[trigger] order@[k]) < i && is_recent(
                                    entries@[order@[k] as int],
                                    cutoff as int,
                                ),
                            forall|k: int|
                                0 <= k < at ==> comes_before(
                                    entries@,
                                    (#[trigger] order@[k]) as int,
                                    i as int,
                                ),
                            done ==> at < order@.len() && comes_before(
                                entries@,
                                i as int,
                                order@[at as int] as int,
                            ),
                        decreases
                            order@.len() - at + if done {
                                0int
                            } else {
                                1int
                            },
                    {
                        let other: usize = order[at];
                        match entries[other].mtime {
                            Some(o) => {
                                if o < m {
                                    done = true;
                                } else {
                                    at += 1;
                                }
                            },
                            None => {
                                assert(is_recent(entries@[other as int], cutoff as int));
                                at += 1;
                            },
                        }
                    }
                    order.insert(at, i);
                    proof {
                        lemma_insert(entries@, before, at as int, i, order@);
                        assert forall|j: int|
                            0 <= j < i + 1 && is_recent(
                                #[trigger] entries@[j],
                                cutoff as int,
                            ) implies order@.contains(j as usize) by {
                            if j == i {
                                assert(order@[at as int] == i);
                            } else {
                                assert(before.contains(j as usize));
                                let k = choose|k: int|
                                    0 <= k < before.len() && before[k] == j as usize;
                                if k < at {
                                    assert(order@[k] == j as usize);
                                } else {
                                    assert(order@[k + 1] == j as usize);
                                }
                            }
                        }
                    }
                }
            },
            None => {},
        }
        i += 1;
    }
    proof {
        let ints = as_ints(order@);
        assert forall|j: int|
            0 <= j < entries@.len() && is_recent(
                #[trigger] entries@[j],
                cutoff as int,
            ) implies ints.contains(j) by {
            assert(order@.contains(j as usize));
            let k = choose|k: int| 0 <= k < order@.len() && order@[k] == j as usize;
            assert(ints[k] == j);
        }
    }
    order
}

/// Putting an entry at its place keeps the order.
proof fn lemma_insert(
    entries: Seq<ScanEntry>,
    before: Seq<usize>,
    at: int,
    i: usize,
    after: Seq<usize>,
)
    requires
        0 <= at <= before.len(),
        after == before.insert(at, i),
        forall|a: int, b: int|
            0 <= a < b < before.len() ==> comes_before(
                entries,
                (#[trigger] before[a]) as int,
                (#[trigger] before[b]) as int,
            ),
        forall|k: int|
            0 <= k < at ==> comes_before(entries, (#[trigger] before[k]) as int, i as int),
        at < before.len() ==> comes_before(entries, i as int, before[at] as int),
    ensures
        forall|a: int, b: int|
            0 <= a < b < after.len() ==> comes_before(
                entries,
                (#[trigger] after[a]) as int,
                (#[trigger] after[b]) as int,
            ),
{
    assert forall|a: int, b: int| 0 <= a < b < after.len() implies comes_before(
        entries,
        (#[trigger] after[a]) as int,
        (#[trigger] after[b]) as int,
    ) by {
        let pa = if a < at {
            a
        } else {
            a - 1
        };
        let pb = if b < at {
            b
        } else {
            b - 1
        };
        if a == at {
            if b - 1 > at {
                assert(comes_before(entries, before[at] as int, before[b - 1] as int));
            }
        } else if b == at {
            assert(comes_before(entries, before[a] as int, i as int));
        } else {
            assert(after[a] == before[pa]);
            assert(after[b] == before[pb]);
            assert(comes_before(entries, before[pa] as int, before[pb] as int));
        }
    }
}

/// The files to open at the start: those modified after a point in time, the latest first, and
/// at most `limit` of them.
pub fn select_recent(entries: &Vec<ScanEntry>, cutoff: i128, limit: usize) -> (r: Vec<FilePath>)
    ensures
        exists|order: Seq<int>| #[trigger]
            is_ranking(entries@, cutoff as int, order) && path_views(r@) == first_paths(
                entries@,
                order,
                limit as nat,
            ),
{
    let order = rank(entries, cutoff);
    let count: usize = if order.len() > limit {
        limit
    } else {
        order.len()
    };
    let mut r: Vec<FilePath> = Vec::new();
    let mut k: usize = 0;
    let ghost ints = as_ints(order@);
    while k < count
        invariant
            k <= count <= order@.len(),
            ints == as_ints(order@),
            is_ranking(entries@, cutoff as int, ints),
            path_views(r@) == ints.take(k as int).map_values(|i: int| entries@[i].path@),
        decreases count - k,
    {
        let ghost before = r@;
        assert(ints[k as int] == order@[k as int]);
        r.push(entries[order[k]].path.duplicate());
        proof {
            assert(path_views(r@) == path_views(before).push(r@.last()@));
            assert(ints.take(k + 1) == ints.take(k as int).push(ints[k as int]));
            assert(path_views(r@) == ints.take(k + 1).map_values(|i: int| entries@[i].path@));
        }
        k += 1;
    }
    r
}

/// The point in time that lies some minutes before another, both in nanoseconds since the Unix
/// epoch.
pub fn scan_cutoff(now: i128, scan_back_minutes: u64) -> (r: i128)
    requires
        scan_back_minutes * 60 <= u64::MAX,
        now - scan_back_minutes * 60 * NANOS_PER_SECOND >= i64::MIN * NANOS_PER_SECOND,
    ensures
        r == now - scan_back_minutes * 60 * NANOS_PER_SECOND,
{
    let seconds: u64 = scan_back_minutes * 60;
    let nanos: i128 = (seconds as i128) * 1_000_000_000;
    now - nanos
}

/// A file that was selected at the start.
#[derive(Debug)]
pub struct ScannedFile {
    pub path: FilePath,
    /// The last lines of the file, if it could be read.
    pub content: Option<FileContent>,
    /// The process that writes the file, if one was found.
    pub process_cmd: Option<String>,
}

/// What a file that was selected at the start is, apart from how it is stored.
pub struct ScannedFileView {
    pub path: Seq<u8>,
    pub content: Option<FileContentView>,
    pub process_cmd: Option<Seq<char>>,
}

impl View for ScannedFile {
    type V = ScannedFileView;

    open spec fn view(&self) -> ScannedFileView {
        ScannedFileView {
            path: self.path@,
            content: content_view(self.content),
            process_cmd: opt_text(self.process_cmd),
        }
    }
}

/// The files that were selected at the start, apart from how they are stored.
pub open spec fn scanned_views(files: Seq<ScannedFile>) -> Seq<ScannedFileView> {
    files.map_values(|f: ScannedFile| f@)
}

impl AppView {
    /// The state after a file was opened at the start, or could not be read.
    pub open spec fn with_scanned(self, file: ScannedFileView, now: int, today: int) -> AppView {
        match file.content {
            Some(content) => self.opened(file.path, content, now, today).process_known(
                self.tracker.slot_for(file.path),
                file.process_cmd,
            ),
            None => self,
        }
    }

    /// The state after files were opened at the start, one after the other. Of each time, the
    /// first number is the reading of the tracker's clock, the second the time of day.
    pub open spec fn scanned(self, files: Seq<ScannedFileView>, times: Seq<(int, int)>) -> AppView
        decreases files.len(),
    {
        if files.len() == 0 {
            self
        } else {
            self.scanned(files.drop_last(), times.drop_last()).with_scanned(
                files.last(),
                times.last().0,
                times.last().1,
            )
        }
    }
}

/// Readings of the tracker's clock run on: none is earlier than a change that is known, and none
/// earlier than the one before it.
pub open spec fn run_on(tracker: TrackerView, times: Seq<(int, int)>) -> bool {
    &&& forall|k: int| 0 <= k < times.len() ==> tracker.all_by((#[trigger] times[k]).0)
    &&& forall|j: int, k: int|
        0 <= j <= k < times.len() ==> (#[trigger] times[j]).0 <= (#[trigger] times[k]).0
}

/// Open the files that were selected at the start; those that could not be read are left out.
pub fn initial_scan(app: &mut App, files: Vec<ScannedFile>)
    requires
        old(app).inv(),
        files@.len() > 0 ==> old(app).max_panels > 0,
    ensures
        final(app).inv(),
        final(app).tracker.clock == old(app).tracker.clock,
        exists|times: Seq<(int, int)>|
            times.len() == files@.len() && run_on(old(app)@.tracker, times) && final(app)@ == #[trigger] old(app)@.scanned(
                scanned_views(files@),
                times,
            ),
{
    let ghost start = app@;
    let ghost all = scanned_views(files@);
    let ghost mut times: Seq<(int, int)> = Seq::empty();
    let mut files = files;
    let mut now: u128 = app.tracker.reading();
    proof {
        assert(all.take(0) == Seq::<ScannedFileView>::empty());
        assert(scanned_views(files@) == all.skip(0));
    }
    while files.len() > 0
        invariant
            files@.len() <= all.len(),
            scanned_views(files@) == all.skip(all.len() - files@.len()),
            times.len() == all.len() - files@.len(),
            all.len() > 0 ==> app.max_panels > 0,
            app.inv(),
            app.tracker.clock == old(app).tracker.clock,
            start.tracker.all_by(now as int),
            run_on(start.tracker, times),
            forall|k: int| 0 <= k < times.len() ==> (#[trigger] times[k]).0 <= now,
            app@ == start.scanned(all.take(times.len() as int), times),
        decreases files@.len(),
    {
        let ghost before = app@;
        let ghost k = times.len() as int;
        let ghost rest = files@;
        assert(scanned_views(rest)[0] == all[k]);
        let file = files.remove(0);
        let reading: u128 = app.tracker.reading();
        if reading > now {
            now = reading;
        }
        let today: i128 = time_of_day();
        match file.content {
            Some(content) => {
                let path = file.path;
                let copy = path.duplicate();
                let idx: usize = open_file_at(app, copy, content, now, today);
                process_found(app, idx, &path, file.process_cmd, &None, &None);
            },
            None => {},
        }
        proof {
            let later = times.push((now as int, today as int));
            assert(all.take(k + 1).drop_last() == all.take(k));
            assert(all.take(k + 1).last() == all[k]);
            assert(later.drop_last() == times);
            assert(app@ == before.with_scanned(all[k], now as int, today as int));
            assert forall|i: int| 0 <= i < files@.len() implies #[trigger] scanned_views(files@)[i]
                == all.skip(k + 1)[i] by {
                assert(files@[i] == rest[i + 1]);
                assert(scanned_views(rest)[i + 1] == all.skip(k)[i + 1]);
            }
            assert(scanned_views(files@) =~= all.skip(k + 1));
            times = later;
        }
    }
    assert(all.take(all.len() as int) == all);
}

/// The files that could be read.
pub open spec fn readable(files: Seq<ScannedFileView>) -> Seq<ScannedFileView> {
    files.filter(|f: ScannedFileView| f.content is Some)
}

/// No two files are the same.
pub open spec fn all_different(files: Seq<ScannedFileView>) -> bool {
    forall|i: int, j: int|
        0 <= i < j < files.len() ==> !same_path(
            (#[trigger] files[i]).path,
            (#[trigger] files[j]).path,
        )
}

/// The start shows every file that was selected and could be read, in the order in which they
/// were selected, with its last lines and its process.
pub proof fn law_start_shows_the_files(
    a: AppView,
    files: Seq<ScannedFileView>,
    times: Seq<(int, int)>,
)
    requires
        a.inv(),
        a.active() == 0,
        files.len() <= a.max_panels,
        times.len() == files.len(),
        all_different(files),
    ensures
        ({
            let panels = a.scanned(files, times).tracker.panels;
            &&& a.scanned(files, times).inv()
            &&& panels.len() == readable(files).len()
            &&& forall|i: int|
                0 <= i < panels.len() ==> {
                    let file = readable(files)[i];
                    &&& (#[trigger] panels[i]).path == file.path
                    &&& panels[i].lines == file.content->0.lines
                    &&& panels[i].last_size == file.content->0.size
                    &&& panels[i].process_cmd == file.process_cmd
                    &&& !panels[i].is_deleted
                }
            &&& panels.len() > 0 ==> a.scanned(files, times).scroll_offsets.len() >= panels.len()
        }),
    decreases files.len(),
{
    let has_content = |f: ScannedFileView| f.content is Some;
    reveal(Seq::filter);
    if files.len() > 0 {
        let fewer = files.drop_last();
        let file = files.last();
        law_start_shows_the_files(a, fewer, times.drop_last());
        let before = a.scanned(fewer, times.drop_last());
        let shown = readable(fewer);
        lemma_scanned_keeps(a, fewer, times.drop_last());
        assert forall|i: int| 0 <= i < shown.len() implies !same_path(
            (#[trigger] shown[i]).path,
            file.path,
        ) by {
            fewer.lemma_filter_contains_rev(has_content, shown[i]);
            let k = choose|k: int| 0 <= k < fewer.len() && fewer[k] == shown[i];
            assert(files[k] == shown[i]);
        }
        fewer.lemma_filter_len(has_content);
        lemma_find_panel(before.tracker.panels, file.path, 0);
        if before.tracker.index_of(file.path) is Some {
            let i = before.tracker.index_of(file.path)->0;
            assert(before.tracker.panels[i].path == shown[i].path);
        }
        if file.content is Some {
            let c = file.content->0;
            lemma_modified(
                before.tracker,
                file.path,
                c.lines,
                c.size,
                times.last().0,
                c.modified_on(times.last().1),
            );
        }
    }
}

/// Opening files at the start keeps the limits.
proof fn lemma_scanned_keeps(a: AppView, files: Seq<ScannedFileView>, times: Seq<(int, int)>)
    ensures
        a.scanned(files, times).max_panels == a.max_panels,
        a.scanned(files, times).tracker.max_panels == a.tracker.max_panels,
    decreases files.len(),
{
    if files.len() > 0 {
        lemma_scanned_keeps(a, files.drop_last(), times.drop_last());
    }
}

/// There is only one ranking: which files are opened, and in which order, does not depend on
/// how they are sorted.
pub proof fn law_ranking_is_unique(
    entries: Seq<ScanEntry>,
    cutoff: int,
    x: Seq<int>,
    y: Seq<int>,
)
    requires
        is_ranking(entries, cutoff, x),
        is_ranking(entries, cutoff, y),
    ensures
        x == y,
{
    lemma_rankings_agree(entries, cutoff, x, y, x.len() as int);
    lemma_rankings_agree(entries, cutoff, y, x, y.len() as int);
    assert(x =~= y);
}

/// The first `n` entries of one ranking are those of another.
proof fn lemma_rankings_agree(
    entries: Seq<ScanEntry>,
    cutoff: int,
    x: Seq<int>,
    y: Seq<int>,
    n: int,
)
    requires
        is_ranking(entries, cutoff, x),
        is_ranking(entries, cutoff, y),
        0 <= n <= x.len(),
    ensures
        n <= y.len(),
        forall|k: int| 0 <= k < n ==> x[k] == y[k],
    decreases n,
{
    if n > 0 {
        let k = n - 1;
        lemma_rankings_agree(entries, cutoff, x, y, k);
        assert(is_recent(entries[x[k]], cutoff));
        assert(y.contains(x[k]));
        let p = choose|p: int| 0 <= p < y.len() && y[p] == x[k];
        if p < k {
            assert(x[p] == y[p]);
            assert(comes_before(entries, x[p], x[k]));
        } else if p > k {
            assert(is_recent(entries[y[k]], cutoff));
            assert(x.contains(y[k]));
            let q = choose|q: int| 0 <= q < x.len() && x[q] == y[k];
            if q < k {
                assert(x[q] == y[q]);
                assert(comes_before(entries, y[q], y[k]));
            } else {
                assert(comes_before(entries, y[k], y[p]));
                if q > k {
                    assert(comes_before(entries, x[k], x[q]));
                }
            }
        }
    }
}

/// No file that is left out at the start was modified later than one that is opened.
pub proof fn law_latest_files_are_opened(
    entries: Seq<ScanEntry>,
    cutoff: int,
    order: Seq<int>,
    limit: nat,
    opened: int,
    left_out: int,
)
    requires
        is_ranking(entries, cutoff, order),
        0 <= opened < first_paths(entries, order, limit).len(),
        0 <= left_out < entries.len(),
        is_recent(entries[left_out], cutoff),
        forall|k: int|
            0 <= k < first_paths(entries, order, limit).len() ==> #[trigger] order[k] != left_out,
    ensures
        first_paths(entries, order, limit).len() == limit,
        entries[order[opened]].mtime->0 >= entries[left_out].mtime->0,
{
    assert(order.contains(left_out));
    let p = choose|p: int| 0 <= p < order.len() && order[p] == left_out;
    assert(comes_before(entries, order[opened], order[p]));
}

/// At most `limit` files are opened at the start, and all of them are recent.
pub proof fn law_start_respects_the_limit(
    entries: Seq<ScanEntry>,
    cutoff: int,
    order: Seq<int>,
    limit: nat,
)
    requires
        is_ranking(entries, cutoff, order),
    ensures
        first_paths(entries, order, limit).len() <= limit,
        forall|k: int|
            0 <= k < first_paths(entries, order, limit).len() ==> is_recent(
                entries[#[trigger] order[k]],
                cutoff,
            ) && first_paths(entries, order, limit)[k] == entries[order[k]].path@,
{
}

/// Every file that a walk finds is one of the tree and passes the pattern, whether or not the walk
/// comes to its end.
pub proof fn law_walk_finds_watched_files(tree: Tree, pattern: Option<Seq<char>>)
    ensures
        forall|i: int|
            0 <= i < files_until(tree, pattern).len() ==> passes(
                #[trigger] files_until(tree, pattern)[i],
                pattern,
            ) && holds(tree, files_until(tree, pattern)[i]),
        files_of(tree, pattern) matches Ok(files) ==> files == files_until(tree, pattern),
    decreases tree,
{
    lemma_files_until(tree, pattern);
    match tree {
        Tree::Dir(entries) => {
            let files = files_until(tree, pattern);
            assert(decreases_to!(tree => entries));
            lemma_walks_find_watched_files(entries@, pattern);
            assert forall|i: int| 0 <= i < files.len() implies passes(#[trigger] files[i], pattern)
                && holds(tree, files[i]) by {
                assert(files[i] == files_until_all(entries@, pattern)[i]);
                let k = choose|k: int|
                    0 <= k < entries@.len() && holds(#[trigger] entries@[k], files[i]);
                assert(holds(entries@[k], files[i]));
            }
        },
        _ => {},
    }
}

/// Whether a file is one of several trees.
pub open spec fn held_by_one(trees: Seq<Tree>, path: Seq<u8>) -> bool {
    exists|k: int| 0 <= k < trees.len() && holds(#[trigger] trees[k], path)
}

/// Every file that several walks find is one of the trees and passes the pattern.
proof fn lemma_walks_find_watched_files(trees: Seq<Tree>, pattern: Option<Seq<char>>)
    ensures
        forall|i: int|
            0 <= i < files_until_all(trees, pattern).len() ==> passes(
                #[trigger] files_until_all(trees, pattern)[i],
                pattern,
            ) && held_by_one(trees, files_until_all(trees, pattern)[i]),
    decreases trees,
{
    if trees.len() > 0 {
        let fewer = trees.drop_last();
        let files = files_until_all(trees, pattern);
        let head = files_until_all(fewer, pattern);
        lemma_walks_find_watched_files(fewer, pattern);
        law_walk_finds_watched_files(trees.last(), pattern);
        assert forall|i: int| 0 <= i < files.len() implies passes(#[trigger] files[i], pattern)
            && held_by_one(trees, files[i]) by {
            if i < head.len() {
                assert(files[i] == head[i]);
                let k = choose|k: int| 0 <= k < fewer.len() && holds(#[trigger] fewer[k], head[i]);
                assert(holds(trees[k], files[i]));
            } else {
                assert(files[i] == files_until(trees.last(), pattern)[i - head.len()]);
                assert(holds(trees[trees.len() - 1], files[i]));
            }
        }
    }
}

} // verus!
