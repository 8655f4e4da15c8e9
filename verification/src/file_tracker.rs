//! Which files occupy which panels.

use crate::clock::{time_between, time_of_day, Clock};
use crate::path::{relative_to, same_path, FilePath};
use crate::tail_reader::last_n;
use crate::text::{opt_text, texts, utf8_lossy};
use vstd::prelude::*;
use vstd::utf8::*;

verus! {

/// The most lines that a panel keeps of a file that grows.
pub const MAX_LINES_PER_FILE: usize = 500;

/// State for a single tracked file.
#[derive(Debug)]
pub struct TrackedFile {
    pub path: FilePath,
    pub display_name: String,
    pub lines: Vec<String>,
    /// When the file last changed, on the tracker's clock.
    pub last_modified: u128,
    pub last_size: u64,
    pub is_deleted: bool,
    /// The command line of the process that writes the file, where one was found.
    pub process_cmd: Option<String>,
    /// A summary of what that process does, where one was made.
    pub process_summary: Option<String>,
    /// The modification time of the file, in nanoseconds since the Unix epoch.
    pub file_mtime: i128,
}

/// What a tracked file is, apart from how it is stored.
#[verifier::ext_equal]
pub struct TrackedFileView {
    pub path: Seq<u8>,
    pub display_name: Seq<char>,
    pub lines: Seq<Seq<char>>,
    pub last_modified: int,
    pub last_size: int,
    pub is_deleted: bool,
    pub process_cmd: Option<Seq<char>>,
    pub process_summary: Option<Seq<char>>,
    pub file_mtime: int,
}

impl View for TrackedFile {
    type V = TrackedFileView;

    open spec fn view(&self) -> TrackedFileView {
        TrackedFileView {
            path: self.path@,
            display_name: self.display_name@,
            lines: texts(self.lines@),
            last_modified: self.last_modified as int,
            last_size: self.last_size as int,
            is_deleted: self.is_deleted,
            process_cmd: opt_text(self.process_cmd),
            process_summary: opt_text(self.process_summary),
            file_mtime: self.file_mtime as int,
        }
    }
}

/// The panels and the settings of a tracker.
#[verifier::ext_equal]
pub struct TrackerView {
    pub panels: Seq<TrackedFileView>,
    pub max_panels: nat,
    pub watch_root: Seq<u8>,
}

/// The first panel from `from` on that shows the file at a path.
pub open spec fn find_panel(
    panels: Seq<TrackedFileView>,
    path: Seq<u8>,
    from: int,
) -> Option<int>
    decreases panels.len() - from,
{
    if from < 0 || from >= panels.len() {
        None
    } else if same_path(panels[from].path, path) {
        Some(from)
    } else {
        find_panel(panels, path, from + 1)
    }
}

/// Whether panel `i` is given up before panel `j`: deleted files go before others, then the one
/// that changed longest ago, then the one that stands first.
pub open spec fn goes_before(panels: Seq<TrackedFileView>, i: int, j: int) -> bool {
    let a = panels[i];
    let b = panels[j];
    if a.is_deleted != b.is_deleted {
        a.is_deleted
    } else if a.last_modified != b.last_modified {
        a.last_modified < b.last_modified
    } else {
        i < j
    }
}

/// Panel `i` is the one given up when a panel is needed.
pub open spec fn is_candidate(panels: Seq<TrackedFileView>, i: int) -> bool {
    &&& 0 <= i < panels.len()
    &&& forall|j: int| 0 <= j < panels.len() && j != i ==> goes_before(panels, i, j)
}

/// The panel given up when a panel is needed.
pub open spec fn candidate(panels: Seq<TrackedFileView>) -> int {
    choose|i: int| is_candidate(panels, i)
}

/// No two panels are given up first.
pub proof fn lemma_candidate_is(panels: Seq<TrackedFileView>, i: int)
    requires
        is_candidate(panels, i),
    ensures
        candidate(panels) == i,
{
    let c = candidate(panels);
    assert(is_candidate(panels, c));
    if c != i {
        assert(goes_before(panels, i, c));
        assert(goes_before(panels, c, i));
    }
}

/// Whether a panel is cleared: its file is deleted and has not changed for longer than a timeout.
pub open spec fn is_stale(panel: TrackedFileView, now: int, timeout: int) -> bool {
    panel.is_deleted && time_between(panel.last_modified, now) > timeout
}

impl TrackerView {
    /// At most `max_panels` panels are in use, and no file has two.
    pub open spec fn inv(self) -> bool {
        &&& self.panels.len() <= self.max_panels
        &&& forall|i: int, j: int|
            0 <= i < j < self.panels.len() ==> !same_path(
                (#[trigger] self.panels[i]).path,
                (#[trigger] self.panels[j]).path,
            )
    }

    /// No file has changed after a reading of the tracker's clock.
    pub open spec fn all_by(self, now: int) -> bool {
        forall|i: int|
            0 <= i < self.panels.len() ==> (#[trigger] self.panels[i]).last_modified <= now
    }

    /// The panel that shows the file at a path.
    pub open spec fn index_of(self, path: Seq<u8>) -> Option<int> {
        find_panel(self.panels, path, 0)
    }

    /// The name that a file goes by: its path behind the watched directory, or its whole path
    /// where it does not lie under that directory.
    pub open spec fn name_of(self, path: Seq<u8>) -> Seq<char> {
        match relative_to(path, self.watch_root) {
            Some(rest) => utf8_lossy(rest),
            None => utf8_lossy(path),
        }
    }

    /// The panel that a changed file gets: its own, else a new one, else that of another file.
    pub open spec fn slot_for(self, path: Seq<u8>) -> int {
        match self.index_of(path) {
            Some(i) => i,
            None => if self.panels.len() < self.max_panels {
                self.panels.len() as int
            } else {
                candidate(self.panels)
            },
        }
    }

    /// What a panel shows of a changed file.
    pub open spec fn changed_file(
        self,
        path: Seq<u8>,
        lines: Seq<Seq<char>>,
        size: int,
        now: int,
        mtime: int,
    ) -> TrackedFileView {
        match self.index_of(path) {
            Some(i) => TrackedFileView {
                lines,
                last_modified: now,
                last_size: size,
                is_deleted: false,
                file_mtime: mtime,
                ..self.panels[i]
            },
            None => TrackedFileView {
                path,
                display_name: self.name_of(path),
                lines,
                last_modified: now,
                last_size: size,
                is_deleted: false,
                process_cmd: None,
                process_summary: None,
                file_mtime: mtime,
            },
        }
    }

    /// The tracker with one panel replaced, or added at the end.
    pub open spec fn with_panel(self, i: int, panel: TrackedFileView) -> TrackerView {
        TrackerView {
            panels: if i == self.panels.len() {
                self.panels.push(panel)
            } else {
                self.panels.update(i, panel)
            },
            ..self
        }
    }

    /// The tracker after a file was created or modified.
    pub open spec fn modified(
        self,
        path: Seq<u8>,
        lines: Seq<Seq<char>>,
        size: int,
        now: int,
        mtime: int,
    ) -> TrackerView {
        self.with_panel(
            self.slot_for(path),
            self.changed_file(path, lines, size, now, mtime),
        )
    }

    /// The tracker after lines were appended to a file; the last lines are kept.
    pub open spec fn appended(
        self,
        i: int,
        lines: Seq<Seq<char>>,
        size: int,
        now: int,
        mtime: int,
    ) -> TrackerView {
        self.with_panel(
            i,
            TrackedFileView {
                lines: last_n(self.panels[i].lines + lines, MAX_LINES_PER_FILE as nat),
                last_modified: now,
                last_size: size,
                file_mtime: mtime,
                ..self.panels[i]
            },
        )
    }

    /// The tracker after a file was deleted.
    pub open spec fn deleted(self, path: Seq<u8>) -> TrackerView {
        match self.index_of(path) {
            Some(i) => self.with_panel(i, TrackedFileView { is_deleted: true, ..self.panels[i] }),
            None => self,
        }
    }

    /// The tracker without the panels of files that are deleted and stale.
    pub open spec fn swept(self, now: int, timeout: int) -> TrackerView {
        TrackerView {
            panels: self.panels.filter(|p: TrackedFileView| !is_stale(p, now, timeout)),
            ..self
        }
    }
}

/// Manages which files occupy which panels.
#[derive(Debug)]
pub struct FileTracker {
    pub panels: Vec<TrackedFile>,
    pub max_panels: usize,
    pub watch_root: FilePath,
    pub clock: Clock,
}

impl View for FileTracker {
    type V = TrackerView;

    open spec fn view(&self) -> TrackerView {
        TrackerView {
            panels: self.panels@.map_values(|t: TrackedFile| t@),
            max_panels: self.max_panels as nat,
            watch_root: self.watch_root@,
        }
    }
}

impl FileTracker {
    /// At most `max_panels` panels are in use, and no file has two.
    pub open spec fn inv(&self) -> bool {
        self@.inv()
    }

    /// A tracker without panels.
    pub fn new(max_panels: usize, watch_root: FilePath) -> (r: FileTracker)
        ensures
            r@ == (TrackerView {
                panels: Seq::empty(),
                max_panels: max_panels as nat,
                watch_root: watch_root@,
            }),
            r.inv(),
    {
        let panels: Vec<TrackedFile> = Vec::new();
        let r = FileTracker { panels, max_panels, watch_root, clock: Clock::new() };
        assert(r@.panels == Seq::<TrackedFileView>::empty());
        r
    }

    /// The number of panels in use.
    pub fn active_count(&self) -> (r: usize)
        ensures
            r == self@.panels.len(),
    {
        self.panels.len()
    }

    /// Look up the panel index for a given path.
    pub fn panel_index(&self, path: &FilePath) -> (r: Option<usize>)
        ensures
            r is Some <==> self@.index_of(path@) is Some,
            r matches Some(i) ==> self@.index_of(path@) == Some(i as int) && i
                < self@.panels.len(),
    {
        let mut i: usize = 0;
        while i < self.panels.len()
            invariant
                i <= self.panels@.len(),
                self@.index_of(path@) == find_panel(self@.panels, path@, i as int),
            decreases self.panels@.len() - i,
        {
            assert(self@.panels[i as int] == self.panels@[i as int]@);
            if self.panels[i].path.same_as(path) {
                return Some(i);
            }
            i += 1;
        }
        None
    }

    /// The time on the tracker's clock, by which every file has changed that has.
    pub(crate) fn reading(&self) -> (r: u128)
        ensures
            self@.all_by(r as int),
    {
        let mut now: u128 = self.clock.now();
        let mut i: usize = 0;
        while i < self.panels.len()
            invariant
                i <= self.panels@.len(),
                forall|k: int| 0 <= k < i ==> (#[trigger] self@.panels[k]).last_modified <= now,
            decreases self.panels@.len() - i,
        {
            assert(self@.panels[i as int] == self.panels@[i as int]@);
            if self.panels[i].last_modified > now {
                now = self.panels[i].last_modified;
            }
            i += 1;
        }
        now
    }

    /// The panel to give up when one is needed: that of a deleted file before any other, and
    /// among those the one that changed longest ago.
    pub fn eviction_candidate(&self) -> (r: usize)
        requires
            self@.panels.len() > 0,
        ensures
            is_candidate(self@.panels, r as int),
            r == candidate(self@.panels),
    {
        let mut best: usize = 0;
        let mut i: usize = 1;
        let ghost panels = self@.panels;
        assert(panels[0] == self.panels@[0]@);
        while i < self.panels.len()
            invariant
                best < i <= self.panels@.len(),
                panels == self@.panels,
                forall|j: int| 0 <= j < i && j != best ==> goes_before(panels, best as int, j),
            decreases self.panels@.len() - i,
        {
            proof {
                assert(panels[i as int] == self.panels@[i as int]@);
                assert(panels[best as int] == self.panels@[best as int]@);
            }
            let deleted: bool = self.panels[i].is_deleted;
            let best_deleted: bool = self.panels[best].is_deleted;
            if (deleted && !best_deleted) || (deleted == best_deleted
                && self.panels[i].last_modified < self.panels[best].last_modified) {
                let ghost prev = best as int;
                best = i;
                proof {
                    assert forall|j: int| 0 <= j < i implies goes_before(
                        panels,
                        best as int,
                        j,
                    ) by {
                        assert(j != prev ==> goes_before(panels, prev, j));
                    }
                }
            }
            i += 1;
        }
        proof {
            assert(is_candidate(panels, best as int));
            lemma_candidate_is(panels, best as int);
        }
        best
    }

    /// The name to show for a path.
    pub fn make_display_name(&self, path: &FilePath) -> (r: String)
        ensures
            r@ == self@.name_of(path@),
            relative_to(path@, self.watch_root@) matches Some(rest) ==> valid_utf8(rest) ==> r@
                == decode_utf8(rest),
            relative_to(path@, self.watch_root@) is None && valid_utf8(path@) ==> r@
                == decode_utf8(path@),
    {
        match path.strip_prefix(&self.watch_root) {
            Some(rest) => rest.display(),
            None => path.display(),
        }
    }

    /// Called when a file is created or modified with initial content.
    /// Returns the panel index that was assigned.
    ///
    /// `now` is the reading of the tracker's clock, `mtime` the file's modification time.
    pub fn file_modified_at(
        &mut self,
        path: FilePath,
        lines: Vec<String>,
        file_size: u64,
        now: u128,
        mtime: i128,
    ) -> (r: usize)
        requires
            old(self).inv(),
            old(self).max_panels > 0,
        ensures
            final(self).inv(),
            final(self).clock == old(self).clock,
            r == old(self)@.slot_for(path@),
            final(self)@ == old(self)@.modified(
                path@,
                texts(lines@),
                file_size as int,
                now as int,
                mtime as int,
            ),
    {
        let ghost before = self@;
        proof {
            lemma_modified(before, path@, texts(lines@), file_size as int, now as int, mtime as int);
        }
        match self.panel_index(&path) {
            Some(idx) => {
                self.panels[idx].lines = lines;
                self.panels[idx].last_modified = now;
                self.panels[idx].last_size = file_size;
                self.panels[idx].is_deleted = false;
                self.panels[idx].file_mtime = mtime;
                assert(self@.panels =~= before.modified(
                    path@,
                    texts(lines@),
                    file_size as int,
                    now as int,
                    mtime as int,
                ).panels);
                idx
            },
            None => {
                let display_name = self.make_display_name(&path);
                let idx: usize = if self.panels.len() < self.max_panels {
                    self.panels.len()
                } else {
                    self.eviction_candidate()
                };
                let fresh = TrackedFile {
                    path,
                    display_name,
                    lines,
                    last_modified: now,
                    last_size: file_size,
                    is_deleted: false,
                    process_cmd: None,
                    process_summary: None,
                    file_mtime: mtime,
                };
                if idx == self.panels.len() {
                    self.panels.push(fresh);
                } else {
                    self.panels[idx] = fresh;
                }
                assert(self@.panels =~= before.modified(
                    path@,
                    texts(lines@),
                    file_size as int,
                    now as int,
                    mtime as int,
                ).panels);
                idx
            },
        }
    }

    /// Called when a file is created or modified with initial content.
    /// Returns the panel index that was assigned.
    ///
    /// The file counts as modified now.
    pub fn file_modified(
        &mut self,
        path: FilePath,
        lines: Vec<String>,
        file_size: u64,
    ) -> (r: usize)
        requires
            old(self).inv(),
            old(self).max_panels > 0,
        ensures
            final(self).inv(),
            final(self).clock == old(self).clock,
            r == old(self)@.slot_for(path@),
            exists|now: u128, mtime: i128|
                old(self)@.all_by(now as int) && final(self)@ == #[trigger] old(self)@.modified(
                    path@,
                    texts(lines@),
                    file_size as int,
                    now as int,
                    mtime as int,
                ),
    {
        let now: u128 = self.reading();
        let mtime: i128 = time_of_day();
        self.file_modified_at(path, lines, file_size, now, mtime)
    }

    /// Append new lines to a panel, of which the last are kept.
    ///
    /// `now` is the reading of the tracker's clock, `mtime` the file's modification time.
    pub fn append_lines_at(
        &mut self,
        panel_idx: usize,
        new_lines: Vec<String>,
        new_size: u64,
        now: u128,
        mtime: i128,
    )
        requires
            old(self).inv(),
            panel_idx < old(self)@.panels.len(),
        ensures
            final(self).inv(),
            final(self).clock == old(self).clock,
            final(self)@ == old(self)@.appended(
                panel_idx as int,
                texts(new_lines@),
                new_size as int,
                now as int,
                mtime as int,
            ),
    {
        let ghost before = self@;
        let ghost k = panel_idx as int;
        let ghost added = texts(new_lines@);
        let ghost old_lines = self.panels@[k].lines@;
        let mut new_lines = new_lines;
        let ghost joined = old_lines + new_lines@;
        self.panels[panel_idx].lines.append(&mut new_lines);
        let len: usize = self.panels[panel_idx].lines.len();
        if len > MAX_LINES_PER_FILE {
            let kept = self.panels[panel_idx].lines.split_off(len - MAX_LINES_PER_FILE);
            self.panels[panel_idx].lines = kept;
        }
        self.panels[panel_idx].last_modified = now;
        self.panels[panel_idx].last_size = new_size;
        self.panels[panel_idx].file_mtime = mtime;
        proof {
            assert(before.panels[k].lines + added == texts(joined));
            assert(self.panels@[k]@.lines == last_n(texts(joined), MAX_LINES_PER_FILE as nat));
            assert(self@.panels =~= before.appended(
                k,
                added,
                new_size as int,
                now as int,
                mtime as int,
            ).panels);
            lemma_same_paths_keep_inv(before, self@);
        }
    }

    /// Append new lines to an already-tracked panel.
    ///
    /// The file counts as modified now.
    pub fn append_lines(&mut self, panel_idx: usize, new_lines: Vec<String>, new_size: u64)
        requires
            old(self).inv(),
            panel_idx < old(self)@.panels.len(),
        ensures
            final(self).inv(),
            final(self).clock == old(self).clock,
            exists|now: u128, mtime: i128|
                old(self)@.all_by(now as int) && final(self)@ == #[trigger] old(self)@.appended(
                    panel_idx as int,
                    texts(new_lines@),
                    new_size as int,
                    now as int,
                    mtime as int,
                ),
    {
        let now: u128 = self.reading();
        let mtime: i128 = time_of_day();
        self.append_lines_at(panel_idx, new_lines, new_size, now, mtime);
    }

    /// Called when a file is deleted.
    pub fn file_deleted(&mut self, path: &FilePath)
        requires
            old(self).inv(),
        ensures
            final(self).inv(),
            final(self).clock == old(self).clock,
            final(self)@ == old(self)@.deleted(path@),
    {
        let ghost before = self@;
        match self.panel_index(path) {
            Some(idx) => {
                self.panels[idx].is_deleted = true;
                proof {
                    assert(self@.panels =~= before.deleted(path@).panels);
                    lemma_same_paths_keep_inv(before, self@);
                }
            },
            None => {},
        }
    }

    /// Remove panels for deleted files that have been stale longer than the timeout.
    ///
    /// `now` is the reading of the tracker's clock; the timeout is in nanoseconds.
    pub fn gc_stale_at(&mut self, timeout: u128, now: u128)
        requires
            old(self).inv(),
        ensures
            final(self).inv(),
            final(self).clock == old(self).clock,
            final(self)@ == old(self)@.swept(now as int, timeout as int),
    {
        let ghost before = self@;
        let ghost live = |p: TrackedFileView| !is_stale(p, now as int, timeout as int);
        let ghost view = |t: TrackedFile| t@;
        let mut i: usize = 0;
        let ghost mut seen: int = 0;
        proof {
            reveal(Seq::filter);
            assert(before.panels.take(0) == Seq::<TrackedFileView>::empty());
            assert(self@.panels.take(0) == before.panels.take(0).filter(live));
            assert(self@.panels.skip(0) == before.panels.skip(0));
        }
        while i < self.panels.len()
            invariant
                i <= self.panels@.len(),
                0 <= seen <= before.panels.len(),
                self.max_panels == before.max_panels,
                self.watch_root@ == before.watch_root,
                self.clock == old(self).clock,
                live == (|p: TrackedFileView| !is_stale(p, now as int, timeout as int)),
                self@.panels.take(i as int) == before.panels.take(seen).filter(live),
                self@.panels.skip(i as int) == before.panels.skip(seen),
            decreases self.panels@.len() - i,
        {
            let ghost cur = self@.panels;
            proof {
                assert(cur.skip(i as int).len() == before.panels.skip(seen).len());
                assert(cur.skip(i as int)[0] == cur[i as int]);
                assert(before.panels.skip(seen)[0] == before.panels[seen]);
                assert(before.panels.take(seen + 1).drop_last() == before.panels.take(seen));
                reveal(Seq::filter);
            }
            let stale: bool = self.panels[i].is_deleted && now > self.panels[i].last_modified
                && now - self.panels[i].last_modified > timeout;
            if stale {
                let _gone = self.panels.remove(i);
                proof {
                    assert(self@.panels =~= cur.remove(i as int));
                    assert(self@.panels.take(i as int) == cur.take(i as int));
                    assert(self@.panels.skip(i as int) == cur.skip(i as int).skip(1));
                }
            } else {
                i += 1;
                proof {
                    assert(cur.take(i as int) == cur.take(i - 1).push(cur[i - 1]));
                    assert(cur.skip(i as int) == cur.skip(i - 1).skip(1));
                }
            }
            proof {
                assert(before.panels.skip(seen).skip(1) == before.panels.skip(seen + 1));
                seen = seen + 1;
            }
        }
        proof {
            assert(self@.panels.skip(i as int).len() == 0);
            assert(before.panels.take(seen) == before.panels);
            assert(self@.panels.take(i as int) == self@.panels);
            lemma_filter_keeps_inv(before, live);
        }
    }

    /// Remove panels for deleted files that have been stale longer than the timeout, which is in
    /// nanoseconds.
    pub fn gc_stale(&mut self, timeout: u128)
        requires
            old(self).inv(),
        ensures
            final(self).inv(),
            final(self).clock == old(self).clock,
            exists|now: u128|
                old(self)@.all_by(now as int) && final(self)@ == #[trigger] old(self)@.swept(
                    now as int,
                    timeout as int,
                ),
    {
        let now: u128 = self.reading();
        self.gc_stale_at(timeout, now);
    }
}

/// A tracker whose panels show the same paths keeps the invariant.
pub proof fn lemma_same_paths_keep_inv(before: TrackerView, after: TrackerView)
    requires
        before.inv(),
        after.max_panels == before.max_panels,
        after.panels.len() == before.panels.len(),
        forall|i: int|
            0 <= i < after.panels.len() ==> (#[trigger] after.panels[i]).path
                == before.panels[i].path,
    ensures
        after.inv(),
{
    assert forall|i: int, j: int| 0 <= i < j < after.panels.len() implies !same_path(
        (#[trigger] after.panels[i]).path,
        (#[trigger] after.panels[j]).path,
    ) by {
        assert(!same_path(before.panels[i].path, before.panels[j].path));
    }
}

/// Leaving panels out keeps them apart.
pub proof fn lemma_filter_keeps_inv(t: TrackerView, keep: spec_fn(TrackedFileView) -> bool)
    requires
        t.inv(),
    ensures
        (TrackerView { panels: t.panels.filter(keep), ..t }).inv(),
    decreases t.panels.len(),
{
    reveal(Seq::filter);
    if t.panels.len() > 0 {
        let front = TrackerView { panels: t.panels.drop_last(), ..t };
        lemma_filter_keeps_inv(front, keep);
        let kept = front.panels.filter(keep);
        let last = t.panels.last();
        front.panels.lemma_filter_len(keep);
        assert forall|i: int| 0 <= i < kept.len() implies !same_path(
            (#[trigger] kept[i]).path,
            last.path,
        ) by {
            assert(kept.contains(kept[i]));
            front.panels.lemma_filter_contains_rev(keep, kept[i]);
            let k = choose|k: int| 0 <= k < front.panels.len() && front.panels[k] == kept[i];
            assert(t.panels[k] == kept[i]);
            assert(!same_path(t.panels[k].path, t.panels[t.panels.len() - 1].path));
        }
    }
}

/// The first panel found shows the path, and none before it does.
pub proof fn lemma_find_panel(panels: Seq<TrackedFileView>, path: Seq<u8>, from: int)
    requires
        0 <= from,
    ensures
        find_panel(panels, path, from) matches Some(i) ==> from <= i < panels.len() && same_path(
            panels[i].path,
            path,
        ) && forall|j: int| from <= j < i ==> !same_path((#[trigger] panels[j]).path, path),
        find_panel(panels, path, from) is None ==> forall|j: int|
            from <= j < panels.len() ==> !same_path((#[trigger] panels[j]).path, path),
    decreases panels.len() - from,
{
    if from < panels.len() && !same_path(panels[from].path, path) {
        lemma_find_panel(panels, path, from + 1);
    }
}

/// There is a panel to give up among any panels.
pub proof fn lemma_candidate_exists(panels: Seq<TrackedFileView>)
    requires
        panels.len() > 0,
    ensures
        is_candidate(panels, candidate(panels)),
    decreases panels.len(),
{
    if panels.len() == 1 {
        assert(is_candidate(panels, 0));
    } else {
        let rest = panels.drop_last();
        lemma_candidate_exists(rest);
        let c = candidate(rest);
        let n = panels.len() - 1;
        assert forall|j: int| 0 <= j < n && j != c implies goes_before(panels, c, j) by {
            assert(goes_before(rest, c, j));
        }
        if goes_before(panels, c, n) {
            assert(is_candidate(panels, c));
        } else {
            assert forall|j: int| 0 <= j < panels.len() && j != n implies goes_before(
                panels,
                n,
                j,
            ) by {
                if j != c {
                    assert(goes_before(panels, c, j));
                }
            }
            assert(is_candidate(panels, n));
        }
    }
}

/// Showing a changed file keeps the tracker's invariant.
pub proof fn lemma_modified(
    t: TrackerView,
    path: Seq<u8>,
    lines: Seq<Seq<char>>,
    size: int,
    now: int,
    mtime: int,
)
    requires
        t.inv(),
        t.max_panels > 0,
    ensures
        t.modified(path, lines, size, now, mtime).inv(),
        0 <= t.slot_for(path) <= t.panels.len(),
        t.slot_for(path) < t.max_panels,
{
    lemma_find_panel(t.panels, path, 0);
    if t.index_of(path) is None && t.panels.len() >= t.max_panels {
        lemma_candidate_exists(t.panels);
    }
}

} // verus!
