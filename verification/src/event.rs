//! The events that the program reacts to, and where they come from.

use crate::glob::{passes, passes_glob, path_fits, pattern_fits};
use crate::keys::KeyEvent;
use crate::path::FilePath;
use crate::text::opt_text;
use vstd::prelude::*;

verus! {

/// Something that happened.
#[derive(Debug)]
pub enum AppEvent {
    Key(KeyEvent),
    Resize,
    Tick,
    FileChanged(FilePath),
    FileDeleted(FilePath),
    ProcessSummaryReady { path: FilePath, summary: String },
}

/// What an event is, apart from how it is stored.
pub enum AppEventView {
    Key(KeyEvent),
    Resize,
    Tick,
    FileChanged(Seq<u8>),
    FileDeleted(Seq<u8>),
    ProcessSummaryReady { path: Seq<u8>, summary: Seq<char> },
}

impl View for AppEvent {
    type V = AppEventView;

    open spec fn view(&self) -> AppEventView {
        match self {
            AppEvent::Key(key) => AppEventView::Key(*key),
            AppEvent::Resize => AppEventView::Resize,
            AppEvent::Tick => AppEventView::Tick,
            AppEvent::FileChanged(path) => AppEventView::FileChanged(path@),
            AppEvent::FileDeleted(path) => AppEventView::FileDeleted(path@),
            AppEvent::ProcessSummaryReady { path, summary } => AppEventView::ProcessSummaryReady {
                path: path@,
                summary: summary@,
            },
        }
    }
}

/// The views of a list of events.
pub open spec fn event_views(events: Seq<AppEvent>) -> Seq<AppEventView> {
    events.map_values(|e: AppEvent| e@)
}

/// What the terminal reports.
#[derive(Clone, Copy, Debug, PartialEq, Eq, Structural)]
pub enum Input {
    /// A key was pressed, or held down or released.
    Key { key: KeyEvent, pressed: bool },
    Resize,
    Other,
}

/// The event that a report of the terminal makes, if any: only a key that is pressed counts.
pub fn input_event(input: Input) -> (r: Option<AppEvent>)
    ensures
        match input {
            Input::Key { key, pressed } => if pressed {
                r matches Some(e) && e@ == AppEventView::Key(key)
            } else {
                r is None
            },
            Input::Resize => r matches Some(e) && e@ == AppEventView::Resize,
            Input::Other => r is None,
        },
{
    match input {
        Input::Key { key, pressed } => if pressed {
            Some(AppEvent::Key(key))
        } else {
            None
        },
        Input::Resize => Some(AppEvent::Resize),
        Input::Other => None,
    }
}

/// What the filesystem watcher says has happened.
#[derive(Clone, Copy, Debug, PartialEq, Eq, Structural)]
pub enum ChangeKind {
    Create,
    Modify,
    Remove,
    Other,
}

/// A path that the filesystem watcher names.
#[derive(Debug)]
pub struct NotifiedPath {
    pub path: FilePath,
    /// Whether it is a directory.
    pub is_dir: bool,
}

/// Whether a path that the watcher names is one of a watched file.
pub open spec fn is_watched(p: NotifiedPath, pattern: Option<Seq<char>>) -> bool {
    !p.is_dir && passes(p.path@, pattern)
}

/// The event that a kind of change makes of a path, if any.
pub open spec fn change_event(kind: ChangeKind, path: Seq<u8>) -> Option<AppEventView> {
    match kind {
        ChangeKind::Create | ChangeKind::Modify => Some(AppEventView::FileChanged(path)),
        ChangeKind::Remove => Some(AppEventView::FileDeleted(path)),
        ChangeKind::Other => None,
    }
}

/// The events that a report of the watcher makes: one for each watched file that it names, in
/// order, where the kind of change matters at all.
pub open spec fn notified_events(
    kind: ChangeKind,
    paths: Seq<NotifiedPath>,
    pattern: Option<Seq<char>>,
) -> Seq<AppEventView> {
    if kind == ChangeKind::Other {
        Seq::empty()
    } else {
        paths.filter(|p: NotifiedPath| is_watched(p, pattern)).map_values(
            |p: NotifiedPath| change_event(kind, p.path@)->0,
        )
    }
}

/// Process a single filesystem event: apply the glob filter, and make an event of each file.
pub fn process_notify_event(
    kind: ChangeKind,
    paths: &Vec<NotifiedPath>,
    glob_pattern: &Option<String>,
) -> (r: Vec<AppEvent>)
    requires
        pattern_fits(opt_text(*glob_pattern)),
        forall|i: int| 0 <= i < paths@.len() ==> path_fits((#[trigger] paths@[i]).path@),
    ensures
        event_views(r@) == notified_events(kind, paths@, opt_text(*glob_pattern)),
{
    let mut r: Vec<AppEvent> = Vec::new();
    let ghost pattern = opt_text(*glob_pattern);
    let ghost watched = |p: NotifiedPath| is_watched(p, pattern);
    let ghost event = |p: NotifiedPath| change_event(kind, p.path@)->0;
    let mut i: usize = 0;
    proof {
        reveal(Seq::filter);
        assert(paths@.take(0) == Seq::<NotifiedPath>::empty());
        assert(event_views(r@) == notified_events(kind, paths@.take(0), pattern));
    }
    while i < paths.len()
        invariant
            i <= paths@.len(),
            pattern == opt_text(*glob_pattern),
            pattern_fits(pattern),
            forall|k: int| 0 <= k < paths@.len() ==> path_fits((#[trigger] paths@[k]).path@),
            watched == (|p: NotifiedPath| is_watched(p, pattern)),
            event == (|p: NotifiedPath| change_event(kind, p.path@)->0),
            event_views(r@) == notified_events(kind, paths@.take(i as int), pattern),
        decreases paths@.len() - i,
    {
        let ghost before = r@;
        proof {
            assert(paths@.take(i + 1).drop_last() == paths@.take(i as int));
            reveal(Seq::filter);
        }
        if !paths[i].is_dir && passes_glob(&paths[i].path, glob_pattern) {
            match kind {
                ChangeKind::Create | ChangeKind::Modify => {
                    r.push(AppEvent::FileChanged(paths[i].path.duplicate()));
                },
                ChangeKind::Remove => {
                    r.push(AppEvent::FileDeleted(paths[i].path.duplicate()));
                },
                ChangeKind::Other => {},
            }
            proof {
                if kind != ChangeKind::Other {
                    let kept = paths@.take(i as int).filter(watched);
                    assert(paths@.take(i + 1).filter(watched) == kept.push(paths@[i as int]));
                    assert(kept.push(paths@[i as int]).map_values(event) == kept.map_values(
                        event,
                    ).push(event(paths@[i as int])));
                    assert(event_views(r@) == event_views(before).push(r@.last()@));
                }
            }
        }
        i += 1;
    }
    assert(paths@.take(i as int) == paths@);
    r
}

/// A directory makes no event, nor does a file whose name does not match.
pub proof fn law_only_watched_files_make_events(
    kind: ChangeKind,
    paths: Seq<NotifiedPath>,
    pattern: Option<Seq<char>>,
    i: int,
)
    requires
        0 <= i < notified_events(kind, paths, pattern).len(),
    ensures
        exists|k: int|
            #![trigger paths[k]]
            0 <= k < paths.len() && is_watched(paths[k], pattern) && Some(
                notified_events(kind, paths, pattern)[i],
            ) == change_event(kind, paths[k].path@),
{
    let watched = |p: NotifiedPath| is_watched(p, pattern);
    let kept = paths.filter(watched);
    paths.lemma_filter_pred(watched, i);
    assert(kept.contains(kept[i]));
    paths.lemma_filter_contains_rev(watched, kept[i]);
    let k = choose|k: int| 0 <= k < paths.len() && paths[k] == kept[i];
    assert(is_watched(paths[k], pattern));
}

/// Each further path that the watcher names makes at most one further event, behind those of the
/// paths before it: a file that passes the pattern was changed where it was created or modified,
/// and deleted where it was removed. A directory makes none, nor does any other kind of change.
pub proof fn law_each_path_makes_its_event(
    kind: ChangeKind,
    paths: Seq<NotifiedPath>,
    p: NotifiedPath,
    pattern: Option<Seq<char>>,
)
    ensures
        ({
            let before = notified_events(kind, paths, pattern);
            let after = notified_events(kind, paths.push(p), pattern);
            let counts = !p.is_dir && passes(p.path@, pattern);
            &&& notified_events(kind, Seq::empty(), pattern) == Seq::<AppEventView>::empty()
            &&& !counts || kind is Other ==> after == before
            &&& counts && (kind is Create || kind is Modify) ==> after == before.push(
                AppEventView::FileChanged(p.path@),
            )
            &&& counts && kind is Remove ==> after == before.push(
                AppEventView::FileDeleted(p.path@),
            )
        }),
{
    let watched = |q: NotifiedPath| is_watched(q, pattern);
    let event = |q: NotifiedPath| change_event(kind, q.path@)->0;
    reveal(Seq::filter);
    assert(paths.push(p).drop_last() == paths);
    let kept = paths.filter(watched);
    assert(kept.push(p).map_values(event) == kept.map_values(event).push(event(p)));
    assert(Seq::<NotifiedPath>::empty().filter(watched).map_values(event)
        == Seq::<AppEventView>::empty());
}

} // verus!
