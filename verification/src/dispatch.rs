//! How events change the state, and what they ask to be read or looked up.

use crate::app::{clamped, App, AppView};
use crate::clock::time_of_day;
use crate::event::{AppEvent, AppEventView};
use crate::file_tracker::{
    is_stale, lemma_filter_keeps_inv, lemma_find_panel, lemma_modified, lemma_same_paths_keep_inv,
    TrackedFileView,
};
use crate::keys::{command_of, handle_key, law_commands_keep_selection_and_files};
use crate::path::FilePath;
use crate::text::{opt_text, texts};
use crate::tracker_laws::{law_changed_file_is_found, law_deleting_marks_and_keeps};
use vstd::prelude::*;

verus! {

/// What has to be read of a file that has changed.
#[derive(Debug)]
pub enum FileRequest {
    /// The file is shown: read what was appended to the bytes that are known.
    NewContent { path: FilePath, last_size: u64, max_lines: usize },
    /// The file is not shown: read its last lines.
    Tail { path: FilePath, max_lines: usize },
}

/// What a request is, apart from how it is stored.
pub enum FileRequestView {
    NewContent { path: Seq<u8>, last_size: int, max_lines: nat },
    Tail { path: Seq<u8>, max_lines: nat },
}

impl View for FileRequest {
    type V = FileRequestView;

    open spec fn view(&self) -> FileRequestView {
        match self {
            FileRequest::NewContent { path, last_size, max_lines } => FileRequestView::NewContent {
                path: path@,
                last_size: *last_size as int,
                max_lines: *max_lines as nat,
            },
            FileRequest::Tail { path, max_lines } => FileRequestView::Tail {
                path: path@,
                max_lines: *max_lines as nat,
            },
        }
    }
}

/// What was read of a file.
#[derive(Debug)]
pub struct FileContent {
    pub lines: Vec<String>,
    /// The size of the file.
    pub size: u64,
    /// The modification time of the file in nanoseconds since the Unix epoch, where it is known.
    pub mtime: Option<i128>,
}

/// What a file's content is, apart from how it is stored.
pub struct FileContentView {
    pub lines: Seq<Seq<char>>,
    pub size: int,
    pub mtime: Option<i128>,
}

impl View for FileContent {
    type V = FileContentView;

    open spec fn view(&self) -> FileContentView {
        FileContentView { lines: texts(self.lines@), size: self.size as int, mtime: self.mtime }
    }
}

/// What reading a file gave, if it could be read.
pub open spec fn content_view(content: Option<FileContent>) -> Option<FileContentView> {
    match content {
        Some(c) => Some(c@),
        None => None,
    }
}

impl FileContentView {
    /// When the file was modified: today, unless it is known otherwise.
    pub open spec fn modified_on(self, today: int) -> int {
        match self.mtime {
            Some(m) => m as int,
            None => today,
        }
    }
}

/// A request for a summary of what a process does.
#[derive(Debug)]
pub struct SummaryRequest {
    pub path: FilePath,
    pub cmd: String,
    pub api_url: String,
    pub log_file: Option<FilePath>,
}

/// The path of an optional file.
pub open spec fn opt_path(path: Option<FilePath>) -> Option<Seq<u8>> {
    match path {
        Some(p) => Some(p@),
        None => None,
    }
}

/// What a request for a summary is, apart from how it is stored.
pub struct SummaryRequestView {
    pub path: Seq<u8>,
    pub cmd: Seq<char>,
    pub api_url: Seq<char>,
    pub log_file: Option<Seq<u8>>,
}

impl View for SummaryRequest {
    type V = SummaryRequestView;

    open spec fn view(&self) -> SummaryRequestView {
        SummaryRequestView {
            path: self.path@,
            cmd: self.cmd@,
            api_url: self.api_url@,
            log_file: opt_path(self.log_file),
        }
    }
}

/// The request for a summary that a process makes: one where the process is known and there is
/// a place to ask at.
pub open spec fn summary_request(
    path: Seq<u8>,
    cmd: Option<Seq<char>>,
    api_url: Option<Seq<char>>,
    log_file: Option<Seq<u8>>,
) -> Option<SummaryRequestView> {
    match (cmd, api_url) {
        (Some(cmd), Some(api_url)) => Some(SummaryRequestView { path, cmd, api_url, log_file }),
        _ => None,
    }
}

impl AppView {
    /// What has to be read when the file at a path has changed.
    pub open spec fn request_for(self, path: Seq<u8>) -> FileRequestView {
        match self.tracker.index_of(path) {
            Some(i) => FileRequestView::NewContent {
                path,
                last_size: self.tracker.panels[i].last_size,
                max_lines: self.tail_lines,
            },
            None => FileRequestView::Tail { path, max_lines: self.tail_lines },
        }
    }

    /// The state after a file was opened in a panel.
    pub open spec fn opened(
        self,
        path: Seq<u8>,
        content: FileContentView,
        now: int,
        today: int,
    ) -> AppView {
        self.with_tracker(
            self.tracker.modified(
                path,
                content.lines,
                content.size,
                now,
                content.modified_on(today),
            ),
        ).reaching(self.tracker.slot_for(path))
    }

    /// The state after what was requested of a changed file was read, or could not be.
    ///
    /// A file that is shown gets the new lines, or only its new size where there are none, and
    /// is marked as deleted where it could not be read. A file that is not shown gets a panel,
    /// unless it could not be read.
    pub open spec fn file_was_read(
        self,
        path: Seq<u8>,
        content: Option<FileContentView>,
        now: int,
        today: int,
    ) -> AppView {
        match (self.tracker.index_of(path), content) {
            (Some(i), Some(c)) => if c.lines.len() > 0 {
                self.with_tracker(
                    self.tracker.appended(i, c.lines, c.size, now, c.modified_on(today)),
                )
            } else {
                self.with_tracker(
                    self.tracker.with_panel(
                        i,
                        TrackedFileView {
                            last_size: c.size,
                            last_modified: now,
                            ..self.tracker.panels[i]
                        },
                    ),
                )
            },
            (Some(_), None) => self.with_tracker(self.tracker.deleted(path)),
            (None, Some(c)) => self.opened(path, c, now, today),
            (None, None) => self,
        }
    }

    /// The panel whose process has to be looked up after a file was read: that of a file that
    /// was just opened, or of one whose process is not known yet.
    pub open spec fn lookup_after(
        self,
        path: Seq<u8>,
        content: Option<FileContentView>,
    ) -> Option<int> {
        match (self.tracker.index_of(path), content) {
            (Some(i), Some(_)) => if self.tracker.panels[i].process_cmd is None {
                Some(i)
            } else {
                None
            },
            (None, Some(_)) => Some(self.tracker.slot_for(path)),
            (_, None) => None,
        }
    }

    /// The state after a panel's process was looked up.
    pub open spec fn process_known(self, i: int, cmd: Option<Seq<char>>) -> AppView {
        self.with_tracker(
            self.tracker.with_panel(
                i,
                TrackedFileView { process_cmd: cmd, ..self.tracker.panels[i] },
            ),
        )
    }

    /// The state after a summary was made for the file at a path.
    pub open spec fn summarized(self, path: Seq<u8>, summary: Seq<char>) -> AppView {
        match self.tracker.index_of(path) {
            Some(i) => self.with_tracker(
                self.tracker.with_panel(
                    i,
                    TrackedFileView { process_summary: Some(summary), ..self.tracker.panels[i] },
                ),
            ),
            None => self,
        }
    }

    /// The state after a tick: stale panels are gone, and a panel that exists is selected.
    pub open spec fn ticked(self, now: int) -> AppView {
        let swept = self.with_tracker(self.tracker.swept(now, self.stale_timeout));
        AppView { selected_panel: clamped(swept.selected_panel, swept.active()), ..swept }
    }

    /// The state after an event. A changed file changes nothing before it is read.
    pub open spec fn dispatched(self, event: AppEventView, now: int) -> AppView {
        match event {
            AppEventView::Key(key) => self.after(command_of(key)),
            AppEventView::Resize => self,
            AppEventView::Tick => self.ticked(now),
            AppEventView::FileChanged(_) => self,
            AppEventView::FileDeleted(path) => self.with_tracker(self.tracker.deleted(path)),
            AppEventView::ProcessSummaryReady { path, summary } => self.summarized(path, summary),
        }
    }

    /// Whether an event can be dispatched: a key has to be one that can be handled.
    pub open spec fn can_dispatch(self, event: AppEventView) -> bool {
        event matches AppEventView::Key(key) ==> self.can_handle(key)
    }
}

/// What has to be read when the file at a path has changed.
pub fn handle_file_changed(app: &App, path: FilePath) -> (r: FileRequest)
    ensures
        r@ == app@.request_for(path@),
{
    match app.tracker.panel_index(&path) {
        Some(idx) => {
            assert(app@.tracker.panels[idx as int] == app.tracker.panels@[idx as int]@);
            FileRequest::NewContent {
                path,
                last_size: app.tracker.panels[idx].last_size,
                max_lines: app.tail_lines,
            }
        },
        None => FileRequest::Tail { path, max_lines: app.tail_lines },
    }
}

/// Show a file that was read, and return its panel.
///
/// `now` is the reading of the tracker's clock, `today` the time of day in nanoseconds since the
/// Unix epoch.
pub fn open_file_at(
    app: &mut App,
    path: FilePath,
    content: FileContent,
    now: u128,
    today: i128,
) -> (r: usize)
    requires
        old(app).inv(),
        old(app).max_panels > 0,
    ensures
        final(app).inv(),
        final(app).tracker.clock == old(app).tracker.clock,
        r == old(app)@.tracker.slot_for(path@),
        r < final(app)@.active(),
        final(app)@ == old(app)@.opened(path@, content@, now as int, today as int),
{
    let mtime: i128 = match content.mtime {
        Some(m) => m,
        None => today,
    };
    proof {
        lemma_modified(
            app@.tracker,
            path@,
            content@.lines,
            content@.size,
            now as int,
            mtime as int,
        );
    }
    let idx: usize = app.tracker.file_modified_at(path, content.lines, content.size, now, mtime);
    app.ensure_scroll_offset(idx);
    idx
}

/// Show a file that was found by a scan, and return its panel.
pub fn open_file(app: &mut App, path: FilePath, content: FileContent) -> (r: usize)
    requires
        old(app).inv(),
        old(app).max_panels > 0,
    ensures
        final(app).inv(),
        final(app).tracker.clock == old(app).tracker.clock,
        r == old(app)@.tracker.slot_for(path@),
        r < final(app)@.active(),
        exists|now: u128, today: i128|
            old(app)@.tracker.all_by(now as int) && final(app)@ == #[trigger] old(app)@.opened(
                path@,
                content@,
                now as int,
                today as int,
            ),
{
    let now: u128 = app.tracker.reading();
    let today: i128 = time_of_day();
    open_file_at(app, path, content, now, today)
}

/// Show what was read of a changed file, or that it could not be read. Returns the panel whose
/// process has to be looked up, if any.
///
/// `now` is the reading of the tracker's clock, `today` the time of day in nanoseconds since the
/// Unix epoch.
pub fn file_read_at(
    app: &mut App,
    path: FilePath,
    content: Option<FileContent>,
    now: u128,
    today: i128,
) -> (r: Option<usize>)
    requires
        old(app).inv(),
        content is Some && old(app)@.tracker.index_of(path@) is None ==> old(app).max_panels > 0,
    ensures
        final(app).inv(),
        final(app).tracker.clock == old(app).tracker.clock,
        final(app)@ == old(app)@.file_was_read(
            path@,
            content_view(content),
            now as int,
            today as int,
        ),
        r is Some <==> old(app)@.lookup_after(path@, content_view(content)) is Some,
        r matches Some(i) ==> old(app)@.lookup_after(path@, content_view(content)) == Some(
            i as int,
        ) && i < final(app)@.active(),
{
    let ghost before = app@;
    let ghost tracker = before.tracker;
    match app.tracker.panel_index(&path) {
        Some(idx) => {
            let ghost k = idx as int;
            match content {
                Some(c) => {
                    assert(tracker.panels[k] == app.tracker.panels@[k]@);
                    let unknown: bool = app.tracker.panels[idx].process_cmd.is_none();
                    if c.lines.len() > 0 {
                        let mtime: i128 = match c.mtime {
                            Some(m) => m,
                            None => today,
                        };
                        app.tracker.append_lines_at(idx, c.lines, c.size, now, mtime);
                    } else {
                        app.tracker.panels[idx].last_size = c.size;
                        app.tracker.panels[idx].last_modified = now;
                        proof {
                            assert(app@.tracker.panels =~= before.file_was_read(
                                path@,
                                Some(c@),
                                now as int,
                                today as int,
                            ).tracker.panels);
                            lemma_same_paths_keep_inv(tracker, app@.tracker);
                        }
                    }
                    if unknown {
                        Some(idx)
                    } else {
                        None
                    }
                },
                None => {
                    app.tracker.file_deleted(&path);
                    None
                },
            }
        },
        None => match content {
            Some(c) => Some(open_file_at(app, path, c, now, today)),
            None => None,
        },
    }
}

/// Show what was read of a changed file, or that it could not be read. Returns the panel whose
/// process has to be looked up, if any.
pub fn file_read(app: &mut App, path: FilePath, content: Option<FileContent>) -> (r: Option<usize>)
    requires
        old(app).inv(),
        content is Some && old(app)@.tracker.index_of(path@) is None ==> old(app).max_panels > 0,
    ensures
        final(app).inv(),
        final(app).tracker.clock == old(app).tracker.clock,
        exists|now: u128, today: i128|
            old(app)@.tracker.all_by(now as int) && final(app)@ == #[trigger] old(app)@.file_was_read(
                path@,
                content_view(content),
                now as int,
                today as int,
            ),
        r is Some <==> old(app)@.lookup_after(path@, content_view(content)) is Some,
        r matches Some(i) ==> old(app)@.lookup_after(path@, content_view(content)) == Some(
            i as int,
        ) && i < final(app)@.active(),
{
    let now: u128 = app.tracker.reading();
    let today: i128 = time_of_day();
    file_read_at(app, path, content, now, today)
}

/// A copy of an optional path.
fn copy_path(path: &Option<FilePath>) -> (r: Option<FilePath>)
    ensures
        opt_path(r) == opt_path(*path),
{
    match path {
        Some(p) => Some(p.duplicate()),
        None => None,
    }
}

/// The request for a summary that a process makes, if any.
fn make_request(
    path: &FilePath,
    cmd: &Option<String>,
    llm_api_url: &Option<String>,
    llm_log_file: &Option<FilePath>,
) -> (r: Option<SummaryRequest>)
    ensures
        r is Some <==> summary_request(
            path@,
            opt_text(*cmd),
            opt_text(*llm_api_url),
            opt_path(*llm_log_file),
        ) is Some,
        r matches Some(q) ==> Some(q@) == summary_request(
            path@,
            opt_text(*cmd),
            opt_text(*llm_api_url),
            opt_path(*llm_log_file),
        ),
{
    match (llm_api_url, cmd) {
        (Some(url), Some(c)) => Some(
            SummaryRequest {
                path: path.duplicate(),
                cmd: c.clone(),
                api_url: url.clone(),
                log_file: copy_path(llm_log_file),
            },
        ),
        _ => None,
    }
}

/// Record what process writes the file of a panel, where one was found. Returns the request for
/// a summary to send, if any.
pub fn process_found(
    app: &mut App,
    panel_idx: usize,
    path: &FilePath,
    cmd: Option<String>,
    llm_api_url: &Option<String>,
    llm_log_file: &Option<FilePath>,
) -> (r: Option<SummaryRequest>)
    requires
        old(app).inv(),
        panel_idx < old(app)@.active(),
    ensures
        final(app).inv(),
        final(app).tracker.clock == old(app).tracker.clock,
        final(app)@ == old(app)@.process_known(panel_idx as int, opt_text(cmd)),
        r is Some <==> summary_request(
            path@,
            opt_text(cmd),
            opt_text(*llm_api_url),
            opt_path(*llm_log_file),
        ) is Some,
        r matches Some(q) ==> Some(q@) == summary_request(
            path@,
            opt_text(cmd),
            opt_text(*llm_api_url),
            opt_path(*llm_log_file),
        ),
{
    let ghost before = app@;
    let request = make_request(path, &cmd, llm_api_url, llm_log_file);
    app.tracker.panels[panel_idx].process_cmd = cmd;
    proof {
        assert(app@.tracker.panels =~= before.process_known(
            panel_idx as int,
            opt_text(cmd),
        ).tracker.panels);
        lemma_same_paths_keep_inv(before.tracker, app@.tracker);
    }
    request
}

/// The requests for summaries that the panels make, from the first to the last.
pub open spec fn summaries_of(
    panels: Seq<TrackedFileView>,
    api_url: Option<Seq<char>>,
    log_file: Option<Seq<u8>>,
) -> Seq<SummaryRequestView> {
    panels.filter(
        |p: TrackedFileView| summary_request(p.path, p.process_cmd, api_url, log_file) is Some,
    ).map_values(
        |p: TrackedFileView| summary_request(p.path, p.process_cmd, api_url, log_file)->0,
    )
}

/// The requests for summaries of the files that the first scan has opened.
pub fn initial_summaries(
    app: &App,
    llm_api_url: &Option<String>,
    llm_log_file: &Option<FilePath>,
) -> (r: Vec<SummaryRequest>)
    ensures
        r@.map_values(|q: SummaryRequest| q@) == summaries_of(
            app@.tracker.panels,
            opt_text(*llm_api_url),
            opt_path(*llm_log_file),
        ),
{
    let mut r: Vec<SummaryRequest> = Vec::new();
    let ghost url = opt_text(*llm_api_url);
    let ghost log = opt_path(*llm_log_file);
    let ghost panels = app@.tracker.panels;
    let ghost view = |q: SummaryRequest| q@;
    let ghost wanted = |p: TrackedFileView|
        summary_request(p.path, p.process_cmd, url, log) is Some;
    let ghost request = |p: TrackedFileView| summary_request(p.path, p.process_cmd, url, log)->0;
    let mut i: usize = 0;
    proof {
        reveal(Seq::filter);
        assert(panels.take(0) == Seq::<TrackedFileView>::empty());
        assert(r@.map_values(view) == panels.take(0).filter(wanted).map_values(request));
    }
    while i < app.tracker.panels.len()
        invariant
            i <= app.tracker.panels@.len(),
            url == opt_text(*llm_api_url),
            log == opt_path(*llm_log_file),
            panels == app@.tracker.panels,
            view == (|q: SummaryRequest| q@),
            wanted == (|p: TrackedFileView|
                summary_request(p.path, p.process_cmd, url, log) is Some),
            request == (|p: TrackedFileView|
                summary_request(p.path, p.process_cmd, url, log)->0),
            r@.map_values(view) == panels.take(i as int).filter(wanted).map_values(request),
        decreases app.tracker.panels@.len() - i,
    {
        let ghost before = r@;
        proof {
            assert(panels[i as int] == app.tracker.panels@[i as int]@);
            assert(panels.take(i + 1).drop_last() == panels.take(i as int));
            reveal(Seq::filter);
        }
        let q = make_request(
            &app.tracker.panels[i].path,
            &app.tracker.panels[i].process_cmd,
            llm_api_url,
            llm_log_file,
        );
        match q {
            Some(q) => {
                r.push(q);
                proof {
                    let kept = panels.take(i as int).filter(wanted);
                    assert(panels.take(i + 1).filter(wanted) == kept.push(panels[i as int]));
                    assert(kept.push(panels[i as int]).map_values(request) == kept.map_values(
                        request,
                    ).push(request(panels[i as int])));
                    assert(r@.map_values(view) == before.map_values(view).push(q@));
                }
            },
            None => {},
        }
        i += 1;
    }
    assert(panels.take(i as int) == panels);
    r
}

/// React to an event. Returns what has to be read of a file that has changed, if one has.
///
/// `now` is the reading of the tracker's clock.
pub fn dispatch_event_at(app: &mut App, event: AppEvent, now: u128) -> (r: Option<FileRequest>)
    requires
        old(app).inv(),
        old(app)@.can_dispatch(event@),
    ensures
        final(app).inv(),
        final(app).tracker.clock == old(app).tracker.clock,
        final(app)@ == old(app)@.dispatched(event@, now as int),
        r is Some <==> event is FileChanged,
        event@ matches AppEventView::FileChanged(path) ==> r->0@ == old(app)@.request_for(path),
{
    let ghost before = app@;
    match event {
        AppEvent::Key(key) => {
            handle_key(app, key);
            None
        },
        AppEvent::Resize => None,
        AppEvent::FileChanged(path) => Some(handle_file_changed(app, path)),
        AppEvent::FileDeleted(path) => {
            app.tracker.file_deleted(&path);
            None
        },
        AppEvent::Tick => {
            let timeout: u128 = app.stale_timeout;
            app.tracker.gc_stale_at(timeout, now);
            app.clamp_selected_panel();
            None
        },
        AppEvent::ProcessSummaryReady { path, summary } => {
            match app.tracker.panel_index(&path) {
                Some(idx) => {
                    app.tracker.panels[idx].process_summary = Some(summary);
                    proof {
                        assert(app@.tracker.panels =~= before.summarized(
                            path@,
                            summary@,
                        ).tracker.panels);
                        lemma_same_paths_keep_inv(before.tracker, app@.tracker);
                    }
                },
                None => {},
            }
            None
        },
    }
}

/// React to an event. Returns what has to be read of a file that has changed, if one has.
pub fn dispatch_event(app: &mut App, event: AppEvent) -> (r: Option<FileRequest>)
    requires
        old(app).inv(),
        old(app)@.can_dispatch(event@),
    ensures
        final(app).inv(),
        final(app).tracker.clock == old(app).tracker.clock,
        exists|now: u128|
            old(app)@.tracker.all_by(now as int) && final(app)@ == #[trigger] old(app)@.dispatched(
                event@,
                now as int,
            ),
        r is Some <==> event is FileChanged,
        event@ matches AppEventView::FileChanged(path) ==> r->0@ == old(app)@.request_for(path),
{
    let now: u128 = app.tracker.reading();
    dispatch_event_at(app, event, now)
}

/// While a panel that exists is selected, every key can be handled, and every event leaves a
/// panel selected that exists.
pub proof fn law_events_keep_selection(a: AppView, event: AppEventView, now: int)
    requires
        a.inv(),
        a.max_panels <= usize::MAX,
        a.selection_ok(),
    ensures
        a.can_dispatch(event),
        a.dispatched(event, now).selection_ok(),
        a.dispatched(event, now).inv(),
{
    match event {
        AppEventView::Key(key) => {
            law_commands_keep_selection_and_files(a, command_of(key));
        },
        AppEventView::Tick => {
            lemma_filter_keeps_inv(
                a.tracker,
                |p: TrackedFileView| !is_stale(p, now, a.stale_timeout),
            );
        },
        AppEventView::FileDeleted(path) => {
            lemma_find_panel(a.tracker.panels, path, 0);
            lemma_same_paths_keep_inv(a.tracker, a.tracker.deleted(path));
        },
        AppEventView::ProcessSummaryReady { path, summary } => {
            lemma_find_panel(a.tracker.panels, path, 0);
            lemma_same_paths_keep_inv(a.tracker, a.summarized(path, summary).tracker);
        },
        _ => {},
    }
}

/// Reading a changed file keeps the selection on a panel that exists, and never shows more
/// panels than there may be.
pub proof fn law_reading_keeps_selection(
    a: AppView,
    path: Seq<u8>,
    content: Option<FileContentView>,
    now: int,
    today: int,
)
    requires
        a.inv(),
        a.max_panels > 0,
        a.selection_ok(),
    ensures
        a.file_was_read(path, content, now, today).selection_ok(),
        a.file_was_read(path, content, now, today).active() <= a.max_panels,
        a.file_was_read(path, content, now, today).active() >= a.active(),
{
    lemma_find_panel(a.tracker.panels, path, 0);
    if content is Some {
        let c = content->0;
        lemma_modified(a.tracker, path, c.lines, c.size, now, c.modified_on(today));
    }
}

/// A file that has changed and could be read is shown afterwards; one that could not is not
/// opened, and is marked as deleted if it was shown.
pub proof fn law_changed_file_is_shown(
    a: AppView,
    path: Seq<u8>,
    content: Option<FileContentView>,
    now: int,
    today: int,
)
    requires
        a.inv(),
        a.max_panels > 0,
    ensures
        ({
            let after = a.file_was_read(path, content, now, today);
            &&& content is Some ==> after.tracker.index_of(path) is Some
            &&& content is None ==> after.tracker.index_of(path) == a.tracker.index_of(path)
            &&& content is None && a.tracker.index_of(path) is Some
                ==> after.tracker.panels[a.tracker.index_of(path)->0].is_deleted
        }),
{
    let after = a.file_was_read(path, content, now, today);
    lemma_find_panel(a.tracker.panels, path, 0);
    lemma_find_panel(after.tracker.panels, path, 0);
    match (a.tracker.index_of(path), content) {
        (Some(i), Some(c)) => {
            assert(after.tracker.panels[i].path == a.tracker.panels[i].path);
        },
        (Some(i), None) => {
            law_deleting_marks_and_keeps(a.tracker, path);
        },
        (None, Some(c)) => {
            law_changed_file_is_found(
                a.tracker,
                path,
                c.lines,
                c.size,
                now,
                c.modified_on(today),
            );
        },
        (None, None) => {},
    }
}

} // verus!
