//! The state of the program between events.

use crate::cli::Args;
use crate::clock::NANOS_PER_SECOND;
use crate::file_tracker::{FileTracker, TrackedFileView, TrackerView};
use vstd::prelude::*;

verus! {

/// Everything that events change and that the screen shows.
#[derive(Debug)]
pub struct App {
    pub should_quit: bool,
    pub tracker: FileTracker,
    pub max_panels: usize,
    pub tail_lines: usize,
    /// How long the panel of a deleted file stays, in nanoseconds.
    pub stale_timeout: u128,
    /// By how many lines each panel is scrolled up from the end.
    pub scroll_offsets: Vec<usize>,
    pub selected_panel: usize,
    pub show_help: bool,
}

/// What the state of the program is, apart from how it is stored.
#[verifier::ext_equal]
pub struct AppView {
    pub should_quit: bool,
    pub tracker: TrackerView,
    pub max_panels: nat,
    pub tail_lines: nat,
    pub stale_timeout: int,
    pub scroll_offsets: Seq<usize>,
    pub selected_panel: int,
    pub show_help: bool,
}

impl View for App {
    type V = AppView;

    open spec fn view(&self) -> AppView {
        AppView {
            should_quit: self.should_quit,
            tracker: self.tracker@,
            max_panels: self.max_panels as nat,
            tail_lines: self.tail_lines as nat,
            stale_timeout: self.stale_timeout as int,
            scroll_offsets: self.scroll_offsets@,
            selected_panel: self.selected_panel as int,
            show_help: self.show_help,
        }
    }
}

/// Scroll offsets that reach panel `i`, those that were missing at zero.
pub open spec fn offsets_reaching(offsets: Seq<usize>, i: int) -> Seq<usize> {
    if i < offsets.len() {
        offsets
    } else {
        offsets + Seq::new((i + 1 - offsets.len()) as nat, |k: int| 0usize)
    }
}

/// The panel nearest to `selected` that exists, or the first where there is none.
pub open spec fn clamped(selected: int, active: int) -> int {
    if selected < active {
        selected
    } else if active > 0 {
        active - 1
    } else {
        0
    }
}

impl AppView {
    /// The tracker is sound and has the limit that the program was started with.
    pub open spec fn inv(self) -> bool {
        &&& self.tracker.inv()
        &&& self.tracker.max_panels == self.max_panels
    }

    /// The number of panels in use.
    pub open spec fn active(self) -> int {
        self.tracker.panels.len() as int
    }

    /// A panel that exists is selected, or the first where there is none.
    pub open spec fn selection_ok(self) -> bool {
        0 <= self.selected_panel && self.selected_panel == clamped(
            self.selected_panel,
            self.active(),
        )
    }

    /// The state with scroll offsets that reach panel `i`.
    pub open spec fn reaching(self, i: int) -> AppView {
        AppView { scroll_offsets: offsets_reaching(self.scroll_offsets, i), ..self }
    }

    /// The state with another tracker.
    pub open spec fn with_tracker(self, tracker: TrackerView) -> AppView {
        AppView { tracker, ..self }
    }
}

impl App {
    /// The tracker is sound and has the limit that the program was started with.
    pub open spec fn inv(&self) -> bool {
        self@.inv()
    }

    /// The state at the start: no panel is in use. The directory of the arguments is the one that
    /// is watched, in the form in which changed files under it are reported.
    pub fn new(args: &Args) -> (r: App)
        ensures
            r.inv(),
            r@.selection_ok(),
            r@ == (AppView {
                should_quit: false,
                tracker: TrackerView {
                    panels: Seq::<TrackedFileView>::empty(),
                    max_panels: args.max_panels as nat,
                    watch_root: args.dir@,
                },
                max_panels: args.max_panels as nat,
                tail_lines: args.tail_lines as nat,
                stale_timeout: args.stale_seconds * NANOS_PER_SECOND,
                scroll_offsets: Seq::empty(),
                selected_panel: 0,
                show_help: false,
            }),
    {
        let scroll_offsets: Vec<usize> = Vec::new();
        assert((args.stale_seconds as u128) * NANOS_PER_SECOND <= u128::MAX) by (nonlinear_arith)
            requires
                args.stale_seconds <= u64::MAX,
                NANOS_PER_SECOND == 1_000_000_000u128,
        ;
        App {
            should_quit: false,
            tracker: FileTracker::new(args.max_panels, args.dir.duplicate()),
            max_panels: args.max_panels,
            tail_lines: args.tail_lines,
            stale_timeout: (args.stale_seconds as u128) * NANOS_PER_SECOND,
            scroll_offsets,
            selected_panel: 0,
            show_help: false,
        }
    }

    /// Make sure that a panel has a scroll offset.
    pub fn ensure_scroll_offset(&mut self, idx: usize)
        requires
            idx < usize::MAX,
        ensures
            final(self)@ == old(self)@.reaching(idx as int),
            final(self).tracker.clock == old(self).tracker.clock,
            idx < final(self)@.scroll_offsets.len(),
    {
        let ghost before = self.scroll_offsets@;
        let ghost start = self@;
        while self.scroll_offsets.len() <= idx
            invariant
                idx < usize::MAX,
                before.len() <= self.scroll_offsets@.len(),
                self.scroll_offsets@.len() <= before.len() || self.scroll_offsets@.len() <= idx + 1,
                self.scroll_offsets@ == before + Seq::new(
                    (self.scroll_offsets@.len() - before.len()) as nat,
                    |k: int| 0usize,
                ),
                self@ == (AppView { scroll_offsets: self.scroll_offsets@, ..start }),
                self.tracker.clock == old(self).tracker.clock,
            decreases idx + 1 - self.scroll_offsets@.len(),
        {
            self.scroll_offsets.push(0);
        }
        assert(self.scroll_offsets@ == offsets_reaching(before, idx as int));
    }

    /// Select the last panel if the selected one no longer exists.
    pub fn clamp_selected_panel(&mut self)
        ensures
            final(self)@ == (AppView {
                selected_panel: clamped(old(self)@.selected_panel, old(self)@.active()),
                ..old(self)@
            }),
            final(self)@.selection_ok(),
            final(self).tracker.clock == old(self).tracker.clock,
    {
        let count: usize = self.tracker.active_count();
        if self.selected_panel >= count {
            self.selected_panel = if count > 0 {
                count - 1
            } else {
                0
            };
        }
    }
}

} // verus!
