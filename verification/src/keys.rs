//! What the keys do.

use crate::app::{offsets_reaching, App, AppView};
use vstd::prelude::*;

verus! {

/// A key of the keyboard.
#[derive(Clone, Copy, Debug, PartialEq, Eq, Structural)]
pub enum KeyCode {
    Char(char),
    Esc,
    Tab,
    BackTab,
    Up,
    Down,
    PageUp,
    PageDown,
    Home,
    End,
    /// A key that has no meaning here.
    Other,
}

/// A key that was pressed.
#[derive(Clone, Copy, Debug, PartialEq, Eq, Structural)]
pub struct KeyEvent {
    pub code: KeyCode,
    /// Whether the control key was held down.
    pub control: bool,
}

impl From<KeyCode> for KeyEvent {
    fn from(code: KeyCode) -> (r: KeyEvent) {
        KeyEvent { code, control: false }
    }
}

impl vstd::std_specs::convert::FromSpecImpl<KeyCode> for KeyEvent {
    open spec fn obeys_from_spec() -> bool {
        true
    }

    open spec fn from_spec(code: KeyCode) -> KeyEvent {
        KeyEvent { code, control: false }
    }
}

/// What a key asks for.
#[derive(Clone, Copy, Debug, PartialEq, Eq, Structural)]
pub enum Command {
    Quit,
    NextPanel,
    PreviousPanel,
    SelectPanel(usize),
    /// Scroll the selected panel towards older lines.
    ScrollUp(usize),
    /// Scroll the selected panel towards newer lines.
    ScrollDown(usize),
    ScrollToTop,
    ScrollToBottom,
    ToggleHelp,
    Nothing,
}

/// Lines that a page key scrolls by.
pub const PAGE: usize = 20;

/// What a key asks for.
pub open spec fn command_of(key: KeyEvent) -> Command {
    match key.code {
        KeyCode::Esc => Command::Quit,
        KeyCode::Tab => Command::NextPanel,
        KeyCode::BackTab => Command::PreviousPanel,
        KeyCode::Up => Command::ScrollUp(1),
        KeyCode::Down => Command::ScrollDown(1),
        KeyCode::PageUp => Command::ScrollUp(PAGE),
        KeyCode::PageDown => Command::ScrollDown(PAGE),
        KeyCode::Home => Command::ScrollToTop,
        KeyCode::End => Command::ScrollToBottom,
        KeyCode::Other => Command::Nothing,
        KeyCode::Char(c) => if c == 'q' || (c == 'c' && key.control) {
            Command::Quit
        } else if '1' <= c <= '9' {
            Command::SelectPanel((c as int - '1' as int) as usize)
        } else if c == 'k' {
            Command::ScrollUp(1)
        } else if c == 'j' {
            Command::ScrollDown(1)
        } else if c == 'g' {
            Command::ScrollToTop
        } else if c == 'G' {
            Command::ScrollToBottom
        } else if c == '?' {
            Command::ToggleHelp
        } else {
            Command::Nothing
        },
    }
}

/// What a key asks for.
pub fn command_for(key: KeyEvent) -> (r: Command)
    ensures
        r == command_of(key),
{
    match key.code {
        KeyCode::Esc => Command::Quit,
        KeyCode::Tab => Command::NextPanel,
        KeyCode::BackTab => Command::PreviousPanel,
        KeyCode::Up => Command::ScrollUp(1),
        KeyCode::Down => Command::ScrollDown(1),
        KeyCode::PageUp => Command::ScrollUp(PAGE),
        KeyCode::PageDown => Command::ScrollDown(PAGE),
        KeyCode::Home => Command::ScrollToTop,
        KeyCode::End => Command::ScrollToBottom,
        KeyCode::Other => Command::Nothing,
        KeyCode::Char(c) => {
            if c == 'q' || (c == 'c' && key.control) {
                Command::Quit
            } else if '1' <= c && c <= '9' {
                Command::SelectPanel((c as usize) - ('1' as usize))
            } else if c == 'k' {
                Command::ScrollUp(1)
            } else if c == 'j' {
                Command::ScrollDown(1)
            } else if c == 'g' {
                Command::ScrollToTop
            } else if c == 'G' {
                Command::ScrollToBottom
            } else if c == '?' {
                Command::ToggleHelp
            } else {
                Command::Nothing
            }
        },
    }
}

/// The nearest machine number to an integer.
pub open spec fn saturated(n: int) -> usize {
    if n < 0 {
        0
    } else if n > usize::MAX {
        usize::MAX
    } else {
        n as usize
    }
}

impl AppView {
    /// The scroll offset of the selected panel.
    pub open spec fn offset(self) -> int {
        offsets_reaching(self.scroll_offsets, self.selected_panel)[self.selected_panel] as int
    }

    /// The state with the selected panel scrolled to an offset.
    pub open spec fn scrolled_to(self, offset: int) -> AppView {
        AppView {
            scroll_offsets: offsets_reaching(self.scroll_offsets, self.selected_panel).update(
                self.selected_panel,
                saturated(offset),
            ),
            ..self
        }
    }

    /// The state after a command. Without a panel there is nothing to select or to scroll.
    pub open spec fn after(self, command: Command) -> AppView {
        let n = self.active();
        match command {
            Command::Quit => AppView { should_quit: true, ..self },
            Command::ToggleHelp => AppView { show_help: !self.show_help, ..self },
            Command::NextPanel => if n > 0 {
                AppView { selected_panel: (self.selected_panel + 1) % n, ..self }
            } else {
                self
            },
            Command::PreviousPanel => if n == 0 {
                self
            } else if self.selected_panel == 0 {
                AppView { selected_panel: n - 1, ..self }
            } else {
                AppView { selected_panel: self.selected_panel - 1, ..self }
            },
            Command::SelectPanel(i) => if i < n {
                AppView { selected_panel: i as int, ..self }
            } else {
                self
            },
            Command::ScrollUp(by) => if n > 0 {
                self.scrolled_to(self.offset() + by)
            } else {
                self
            },
            Command::ScrollDown(by) => if n > 0 {
                self.scrolled_to(self.offset() - by)
            } else {
                self
            },
            Command::ScrollToTop => if n > 0 {
                self.scrolled_to(self.tracker.panels[self.selected_panel].lines.len() as int)
            } else {
                self
            },
            Command::ScrollToBottom => if n > 0 {
                self.scrolled_to(0)
            } else {
                self
            },
            Command::Nothing => self,
        }
    }

    /// Whether a key can be handled: the top of a panel can only be sought in one that exists.
    /// The number of the panel that a key moves on from, or scrolls, is not the last there can be.
    pub open spec fn can_handle(self, key: KeyEvent) -> bool {
        match command_of(key) {
            Command::ScrollToTop => self.active() == 0 || self.selected_panel < self.active(),
            Command::NextPanel
            | Command::ScrollUp(_)
            | Command::ScrollDown(_)
            | Command::ScrollToBottom => self.active() == 0 || self.selected_panel < usize::MAX,
            _ => true,
        }
    }
}

/// Carry out what a key asks for.
pub fn handle_key(app: &mut App, key: KeyEvent)
    requires
        old(app)@.can_handle(key),
    ensures
        final(app)@ == old(app)@.after(command_of(key)),
        old(app).inv() ==> final(app).inv(),
        final(app).tracker.clock == old(app).tracker.clock,
{
    let ghost before = app@;
    let active: usize = app.tracker.active_count();
    let command = command_for(key);
    match command {
        Command::Quit => {
            app.should_quit = true;
        },
        Command::ToggleHelp => {
            app.show_help = !app.show_help;
        },
        Command::NextPanel => {
            if active > 0 {
                app.selected_panel = (app.selected_panel + 1) % active;
            }
        },
        Command::PreviousPanel => {
            if active > 0 {
                app.selected_panel = if app.selected_panel == 0 {
                    active - 1
                } else {
                    app.selected_panel - 1
                };
            }
        },
        Command::SelectPanel(idx) => {
            if idx < active {
                app.selected_panel = idx;
            }
        },
        Command::Nothing => {},
        Command::ScrollUp(_) | Command::ScrollDown(_) | Command::ScrollToTop
        | Command::ScrollToBottom => {
            if active == 0 {
                return ;
            }
            let selected: usize = app.selected_panel;
            app.ensure_scroll_offset(selected);
            let offset: usize = app.scroll_offsets[selected];
            let moved: usize = match command {
                Command::ScrollUp(by) => offset.saturating_add(by),
                Command::ScrollDown(by) => offset.saturating_sub(by),
                Command::ScrollToTop => app.tracker.panels[selected].lines.len(),
                _ => 0,
            };
            app.scroll_offsets[selected] = moved;
            proof {
                if command == Command::ScrollToTop {
                    assert(before.tracker.panels[selected as int] == old(
                        app,
                    ).tracker.panels@[selected as int]@);
                }
                assert(app.scroll_offsets@ =~= before.after(command).scroll_offsets);
            }
        },
    }
}

/// Tab and Shift+Tab undo each other.
pub proof fn law_cycling_back_and_forth(a: AppView)
    requires
        a.selection_ok(),
    ensures
        a.after(Command::NextPanel).after(Command::PreviousPanel) == a,
        a.after(Command::PreviousPanel).after(Command::NextPanel) == a,
{
    let n = a.active();
    if n > 0 {
        let s = a.selected_panel;
        if s + 1 < n {
            vstd::arithmetic::div_mod::lemma_small_mod((s + 1) as nat, n as nat);
        } else {
            vstd::arithmetic::div_mod::lemma_mod_self_0(n);
        }
        if s > 0 {
            vstd::arithmetic::div_mod::lemma_small_mod(s as nat, n as nat);
        } else {
            vstd::arithmetic::div_mod::lemma_mod_self_0(n);
        }
    }
}

/// The state after a command given `times` times.
pub open spec fn repeated(a: AppView, command: Command, times: nat) -> AppView
    decreases times,
{
    if times == 0 {
        a
    } else {
        repeated(a, command, (times - 1) as nat).after(command)
    }
}

/// Pressing Tab moves on one panel at a time, and as often as there are panels comes back to
/// where it began.
pub proof fn law_tab_cycles_through_all_panels(a: AppView, times: nat)
    requires
        a.selection_ok(),
        a.active() > 0,
    ensures
        repeated(a, Command::NextPanel, times).selected_panel == (a.selected_panel + times)
            % a.active(),
        repeated(a, Command::NextPanel, times).tracker == a.tracker,
        repeated(a, Command::NextPanel, a.active() as nat).selected_panel == a.selected_panel,
{
    lemma_repeated_tab(a, times);
    lemma_repeated_tab(a, a.active() as nat);
    vstd::arithmetic::div_mod::lemma_mod_add_multiples_vanish(a.selected_panel, a.active());
    vstd::arithmetic::div_mod::lemma_small_mod(a.selected_panel as nat, a.active() as nat);
}

/// Each Tab moves on by one panel.
proof fn lemma_repeated_tab(a: AppView, times: nat)
    requires
        a.selection_ok(),
        a.active() > 0,
    ensures
        repeated(a, Command::NextPanel, times).selected_panel == (a.selected_panel + times)
            % a.active(),
        repeated(a, Command::NextPanel, times).tracker == a.tracker,
    decreases times,
{
    let n = a.active();
    if times == 0 {
        vstd::arithmetic::div_mod::lemma_small_mod(a.selected_panel as nat, n as nat);
    } else {
        lemma_repeated_tab(a, (times - 1) as nat);
        vstd::arithmetic::div_mod::lemma_add_mod_noop(a.selected_panel + times - 1, 1, n);
        vstd::arithmetic::div_mod::lemma_mod_twice(a.selected_panel + times - 1, n);
        vstd::arithmetic::div_mod::lemma_add_mod_noop(
            (a.selected_panel + times - 1) % n,
            1,
            n,
        );
    }
}

/// Every command keeps the selection on a panel that exists, and leaves the files alone.
pub proof fn law_commands_keep_selection_and_files(a: AppView, command: Command)
    requires
        a.selection_ok(),
    ensures
        a.after(command).selection_ok(),
        a.after(command).tracker == a.tracker,
        a.after(command).max_panels == a.max_panels,
        a.after(command).tail_lines == a.tail_lines,
        a.after(command).stale_timeout == a.stale_timeout,
        a.should_quit ==> a.after(command).should_quit,
{
    if a.active() > 0 {
        vstd::arithmetic::div_mod::lemma_mod_bound(a.selected_panel + 1, a.active());
    }
}

/// With no panel in use, no command selects or scrolls anything.
pub proof fn law_commands_without_panels(a: AppView, command: Command)
    requires
        a.active() == 0,
    ensures
        a.after(command).selected_panel == a.selected_panel,
        a.after(command).scroll_offsets == a.scroll_offsets,
{
}

/// Asking for help twice changes nothing.
pub proof fn law_help_toggles(a: AppView)
    ensures
        a.after(Command::ToggleHelp).show_help == !a.show_help,
        a.after(Command::ToggleHelp).after(Command::ToggleHelp) == a,
{
}

/// Scrolling up and then down by as much comes back to the same offset.
pub proof fn law_scrolling_back(a: AppView, by: usize)
    requires
        a.selection_ok(),
        a.active() > 0,
        a.offset() + by <= usize::MAX,
    ensures
        a.after(Command::ScrollUp(by)).after(Command::ScrollDown(by)).offset() == a.offset(),
        a.after(Command::ScrollUp(by)).offset() == a.offset() + by,
{
}

/// Scrolling touches the selected panel only.
pub proof fn law_scrolling_is_per_panel(a: AppView, command: Command, j: int)
    requires
        a.selection_ok(),
        0 <= j < a.scroll_offsets.len(),
        j != a.selected_panel,
    ensures
        j < a.after(command).scroll_offsets.len(),
        a.after(command).scroll_offsets[j] == a.scroll_offsets[j],
{
}

/// Jumping to the bottom always ends at offset zero, from which scrolling down does not move.
pub proof fn law_bottom_is_followed(a: AppView, by: usize)
    requires
        a.selection_ok(),
        a.active() > 0,
    ensures
        a.after(Command::ScrollToBottom).offset() == 0,
        a.after(Command::ScrollToBottom).after(Command::ScrollDown(by)).offset() == 0,
{
}

} // verus!
