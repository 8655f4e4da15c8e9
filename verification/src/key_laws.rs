//! What the keys do.

use crate::app::AppView;
use crate::keys::{command_of, KeyCode, KeyEvent};
use vstd::prelude::*;

verus! {

/// The state after a key was pressed.
pub open spec fn pressed(a: AppView, code: KeyCode, control: bool) -> AppView {
    a.after(command_of(KeyEvent { code, control }))
}

/// By how many lines the selected panel is scrolled up.
pub open spec fn own_offset(a: AppView) -> int {
    if a.selected_panel < a.scroll_offsets.len() {
        a.scroll_offsets[a.selected_panel] as int
    } else {
        0
    }
}

/// Two states differ in the scroll offset of the selected panel alone.
pub open spec fn only_scrolled(a: AppView, b: AppView) -> bool {
    &&& b.should_quit == a.should_quit
    &&& b.show_help == a.show_help
    &&& b.tracker == a.tracker
    &&& b.max_panels == a.max_panels
    &&& b.tail_lines == a.tail_lines
    &&& b.stale_timeout == a.stale_timeout
    &&& b.selected_panel == a.selected_panel
    &&& a.selected_panel < b.scroll_offsets.len()
    &&& a.scroll_offsets.len() <= b.scroll_offsets.len()
    &&& forall|j: int|
        0 <= j < b.scroll_offsets.len() && j != a.selected_panel
            ==> #[trigger] b.scroll_offsets[j] == if j < a.scroll_offsets.len() {
            a.scroll_offsets[j]
        } else {
            0
        }
}

/// Two states differ in the selected panel alone.
pub open spec fn only_selected(a: AppView, b: AppView) -> bool {
    b == (AppView { selected_panel: b.selected_panel, ..a })
}

/// The keys that scroll move the selected panel and nothing else: by a line, by a page of twenty
/// lines, as far as there are numbers, to the top and to the bottom.
pub proof fn law_scroll_keys(a: AppView, control: bool)
    requires
        a.selection_ok(),
        a.active() > 0,
        a.tracker.panels[a.selected_panel].lines.len() <= usize::MAX,
    ensures
        ({
            let o = own_offset(a);
            let max = usize::MAX as int;
            let up = pressed(a, KeyCode::Up, control);
            let down = pressed(a, KeyCode::Down, control);
            let page_up = pressed(a, KeyCode::PageUp, control);
            let page_down = pressed(a, KeyCode::PageDown, control);
            let home = pressed(a, KeyCode::Home, control);
            let end = pressed(a, KeyCode::End, control);
            &&& only_scrolled(a, up) && only_scrolled(a, down)
            &&& only_scrolled(a, page_up) && only_scrolled(a, page_down)
            &&& only_scrolled(a, home) && only_scrolled(a, end)
            &&& o < max ==> own_offset(up) == o + 1
            &&& o == max ==> own_offset(up) == o
            &&& o > 0 ==> own_offset(down) == o - 1
            &&& o == 0 ==> own_offset(down) == 0
            &&& o + 20 <= max ==> own_offset(page_up) == o + 20
            &&& o + 20 > max ==> own_offset(page_up) == max
            &&& o >= 20 ==> own_offset(page_down) == o - 20
            &&& o < 20 ==> own_offset(page_down) == 0
            &&& own_offset(home) == a.tracker.panels[a.selected_panel].lines.len()
            &&& own_offset(end) == 0
            &&& pressed(a, KeyCode::Char('k'), control) == up
            &&& pressed(a, KeyCode::Char('j'), control) == down
            &&& pressed(a, KeyCode::Char('g'), control) == home
            &&& pressed(a, KeyCode::Char('G'), control) == end
        }),
{
}

/// What one key that scrolls does another one undoes, as long as the offset does not reach the
/// last number there is; and a page is as far as twenty lines.
pub proof fn law_scroll_keys_undo_each_other(a: AppView, control: bool)
    requires
        a.selection_ok(),
        a.active() > 0,
        own_offset(a) + 20 <= usize::MAX,
    ensures
        ({
            let up = pressed(a, KeyCode::Up, control);
            let page_up = pressed(a, KeyCode::PageUp, control);
            let page_down = pressed(a, KeyCode::PageDown, control);
            &&& own_offset(pressed(page_up, KeyCode::PageDown, control)) == own_offset(a)
            &&& own_offset(pressed(up, KeyCode::Down, control)) == own_offset(a)
            &&& own_offset(a) >= 20 ==> own_offset(pressed(page_down, KeyCode::PageUp, control))
                == own_offset(a)
            &&& own_offset(page_up) - own_offset(a) == 20 * (own_offset(up) - own_offset(a))
        }),
{
}

/// The keys that select move the selection and nothing else: to the next panel and the one
/// before, around the ends, and to the panel of a number, where there is one.
pub proof fn law_select_keys(a: AppView, control: bool, digit: char)
    requires
        a.selection_ok(),
        '1' <= digit <= '9',
    ensures
        ({
            let n = a.active();
            let s = a.selected_panel;
            let tab = pressed(a, KeyCode::Tab, control);
            let back = pressed(a, KeyCode::BackTab, control);
            let number = pressed(a, KeyCode::Char(digit), control);
            let k = digit as int - '1' as int;
            &&& only_selected(a, tab) && only_selected(a, back) && only_selected(a, number)
            &&& s + 1 < n ==> tab.selected_panel == s + 1
            &&& s + 1 >= n ==> tab.selected_panel == 0
            &&& n > 0 && s > 0 ==> back.selected_panel == s - 1
            &&& n > 0 && s == 0 ==> back.selected_panel == n - 1
            &&& n == 0 ==> back.selected_panel == s
            &&& k < n ==> number.selected_panel == k
            &&& k >= n ==> number.selected_panel == s
        }),
{
    let n = a.active();
    let s = a.selected_panel;
    if n > 0 {
        if s + 1 < n {
            vstd::arithmetic::div_mod::lemma_small_mod((s + 1) as nat, n as nat);
        } else {
            vstd::arithmetic::div_mod::lemma_mod_self_0(n);
        }
    }
}

/// The program ends with `q`, Escape and Control+C and with no other key, the help comes and goes
/// with `?` alone, and neither changes anything else.
pub proof fn law_quit_and_help_keys(a: AppView, key: KeyEvent)
    ensures
        ({
            let b = a.after(command_of(key));
            let quits = key.code == KeyCode::Esc || key.code == KeyCode::Char('q') || (key.code
                == KeyCode::Char('c') && key.control);
            let helps = key.code == KeyCode::Char('?');
            &&& b.should_quit == (a.should_quit || quits)
            &&& b.show_help == (a.show_help != helps)
            &&& quits ==> b == (AppView { should_quit: true, ..a })
            &&& helps ==> b == (AppView { show_help: !a.show_help, ..a })
        }),
{
}

/// A key that is not among those that quit, help, select or scroll does nothing.
pub proof fn law_other_keys_do_nothing(a: AppView, key: KeyEvent)
    requires
        key.code matches KeyCode::Char(c) ==> !('1' <= c <= '9') && c != 'q' && c != '?' && c != 'j'
            && c != 'k' && c != 'g' && c != 'G' && !(c == 'c' && key.control),
        key.code is Char || key.code is Other,
    ensures
        a.after(command_of(key)) == a,
{
}

} // verus!
