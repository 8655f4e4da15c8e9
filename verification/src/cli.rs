//! The settings that the program is started with.

use crate::path::FilePath;
use vstd::prelude::*;
use vstd::utf8::encode_utf8;

verus! {

/// Panels shown at the same time, unless set otherwise.
pub const DEFAULT_PANELS: usize = 4;

/// Lines read when a file is opened, unless set otherwise.
pub const DEFAULT_TAIL_LINES: usize = 50;

/// Seconds before the panel of a deleted file is cleared, unless set otherwise.
pub const DEFAULT_STALE_SECONDS: u64 = 30;

/// Milliseconds between two refreshes, unless set otherwise.
pub const DEFAULT_TICK_RATE_MS: u64 = 250;

/// Minutes that the first scan looks back, unless set otherwise.
pub const DEFAULT_SCAN_BACK_MINUTES: u64 = 30;

/// What the program was asked to do.
#[derive(Debug)]
pub struct Args {
    /// Directory to watch for file changes
    pub dir: FilePath,
    /// Maximum number of panels (files tailed simultaneously)
    pub max_panels: usize,
    /// Number of lines to read initially when opening a file
    pub tail_lines: usize,
    /// Seconds of inactivity before a panel can be recycled
    pub stale_seconds: u64,
    /// Tick rate in milliseconds for UI refresh
    pub tick_rate_ms: u64,
    /// Glob pattern to filter files (e.g. "*.log", "*.txt")
    pub glob: Option<String>,
    /// OpenAI-compatible endpoint for process summaries
    pub llm_api_url: Option<String>,
    /// File to log LLM requests and responses to
    pub llm_log_file: Option<FilePath>,
    /// How many minutes to scan back on startup
    pub scan_back_minutes: u64,
}

impl Default for Args {
    fn default() -> (r: Args)
        ensures
            r.dir@ == encode_utf8("."@),
            r.max_panels == DEFAULT_PANELS,
            r.tail_lines == DEFAULT_TAIL_LINES,
            r.stale_seconds == DEFAULT_STALE_SECONDS,
            r.tick_rate_ms == DEFAULT_TICK_RATE_MS,
            r.glob is None,
            r.llm_api_url is None,
            r.llm_log_file is None,
            r.scan_back_minutes == DEFAULT_SCAN_BACK_MINUTES,
    {
        Args {
            dir: FilePath::from_text("."),
            max_panels: DEFAULT_PANELS,
            tail_lines: DEFAULT_TAIL_LINES,
            stale_seconds: DEFAULT_STALE_SECONDS,
            tick_rate_ms: DEFAULT_TICK_RATE_MS,
            glob: None,
            llm_api_url: None,
            llm_log_file: None,
            scan_back_minutes: DEFAULT_SCAN_BACK_MINUTES,
        }
    }
}

} // verus!
