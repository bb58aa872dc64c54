//! What the items and keys of the settings panel mean.

use vstd::prelude::*;

use crate::keys::KeyCode;
use crate::render::BorderStyle;
use crate::settings;
use crate::settings::{Settings, SettingsAction};

verus! {

/// The items of the panel from top to bottom: five border styles, the status
/// bar, the tab bar, typing into all panes, and closing the panel.
pub proof fn items_do_what_they_name(s: Settings)
    ensures
        settings::activated(s, 0).0.border_style == BorderStyle::Single,
        settings::activated(s, 1).0.border_style == BorderStyle::Rounded,
        settings::activated(s, 2).0.border_style == BorderStyle::Heavy,
        settings::activated(s, 3).0.border_style == BorderStyle::Double,
        settings::activated(s, 4).0.border_style == BorderStyle::Blank,
        settings::activated(s, 5).0 == (Settings { show_status_bar: !s.show_status_bar, ..s }),
        settings::activated(s, 6).0 == (Settings { show_tab_bar: !s.show_tab_bar, ..s }),
        settings::activated(s, 7) == (s, SettingsAction::BroadcastToggle),
        settings::activated(s, 8) == (Settings { visible: false, ..s }, SettingsAction::Close),
        forall|i: int|
            0 <= i < 7 ==> (#[trigger] settings::activated(s, i)).1 == SettingsAction::Changed,
{
}

/// Up goes to the item above, Down to the one below, and neither leaves the
/// panel. Both have a letter and a tab key that do the same.
pub proof fn keys_move_the_focus(s: Settings)
    requires
        s.wf(),
    ensures
        ({
            let up = settings::key_handled(s, KeyCode::Up);
            let down = settings::key_handled(s, KeyCode::Down);
            &&& s.focused > 0 ==> up.0.focused == s.focused - 1
            &&& s.focused == 0 ==> up.0.focused == 0
            &&& s.focused < 8 ==> down.0.focused == s.focused + 1
            &&& s.focused == 8 ==> down.0.focused == 8
            &&& up.0 == (Settings { focused: up.0.focused, ..s })
            &&& down.0 == (Settings { focused: down.0.focused, ..s })
            &&& settings::key_handled(s, KeyCode::Char('k')) == up
            &&& settings::key_handled(s, KeyCode::BackTab) == up
            &&& settings::key_handled(s, KeyCode::Char('j')) == down
            &&& settings::key_handled(s, KeyCode::Tab) == down
        }),
{
}

/// On a border style, Right goes to the next style, Left to the one before, all
/// around; on a switch both turn it. Each has a letter that does the same.
pub proof fn keys_change_the_border(s: Settings)
    requires
        s.wf(),
    ensures
        ({
            let left = settings::key_handled(s, KeyCode::Left);
            let right = settings::key_handled(s, KeyCode::Right);
            &&& settings::key_handled(s, KeyCode::Char('h')) == left
            &&& settings::key_handled(s, KeyCode::Char('l')) == right
            &&& s.focused < 5 ==> right.0.border_style == (match s.border_style {
                BorderStyle::Single => BorderStyle::Rounded,
                BorderStyle::Rounded => BorderStyle::Heavy,
                BorderStyle::Heavy => BorderStyle::Double,
                BorderStyle::Double => BorderStyle::Blank,
                BorderStyle::Blank => BorderStyle::Single,
            })
            &&& s.focused < 5 ==> left.0.border_style == (match s.border_style {
                BorderStyle::Single => BorderStyle::Blank,
                BorderStyle::Rounded => BorderStyle::Single,
                BorderStyle::Heavy => BorderStyle::Rounded,
                BorderStyle::Double => BorderStyle::Heavy,
                BorderStyle::Blank => BorderStyle::Double,
            })
            &&& 5 <= s.focused < 8 ==> left == right && left == settings::activated(
                s,
                s.focused as int,
            )
        }),
{
}

/// A digit picks a border style, Enter and the space bar do what the item in
/// focus does, and Esc and `q` close the panel.
pub proof fn keys_pick_and_close(s: Settings)
    ensures
        settings::key_handled(s, KeyCode::Char('1')).0.border_style == BorderStyle::Single,
        settings::key_handled(s, KeyCode::Char('2')).0.border_style == BorderStyle::Rounded,
        settings::key_handled(s, KeyCode::Char('3')).0.border_style == BorderStyle::Heavy,
        settings::key_handled(s, KeyCode::Char('4')).0.border_style == BorderStyle::Double,
        settings::key_handled(s, KeyCode::Char('5')).0.border_style == BorderStyle::Blank,
        settings::key_handled(s, KeyCode::Enter) == settings::activated(s, s.focused as int),
        settings::key_handled(s, KeyCode::Char(' ')) == settings::activated(s, s.focused as int),
        settings::key_handled(s, KeyCode::Esc) == (
            Settings { visible: false, ..s },
            SettingsAction::Close,
        ),
        settings::key_handled(s, KeyCode::Char('q')) == (
            Settings { visible: false, ..s },
            SettingsAction::Close,
        ),
{
}

/// The panel is 52 cells wide and 20 high and stands in the middle of the
/// screen. A click beside it closes it; one on the row of an item does what the
/// item does. The border styles stand from the sixth row on, the three switches
/// from the thirteenth, and the closing item on the seventeenth.
pub proof fn clicks_hit_the_items(s: Settings, mx: u16, my: u16, tw: u16, th: u16)
    requires
        tw >= 52,
        th >= 20,
    ensures
        ({
            let x = mx - (tw - 52) / 2;
            let y = my - (th - 20) / 2;
            let hit = settings::click_handled(s, mx, my, tw, th);
            &&& !(0 <= x < 52 && 0 <= y < 20) ==> hit == (
                Settings { visible: false, ..s },
                SettingsAction::Close,
            )
            &&& 0 <= x < 52 && 5 <= y < 10 ==> hit.0.border_style == (if y == 5 {
                BorderStyle::Single
            } else if y == 6 {
                BorderStyle::Rounded
            } else if y == 7 {
                BorderStyle::Heavy
            } else if y == 8 {
                BorderStyle::Double
            } else {
                BorderStyle::Blank
            })
            &&& 0 <= x < 52 && y == 12 ==> hit.0.show_status_bar == !s.show_status_bar
                && hit.0.show_tab_bar == s.show_tab_bar
            &&& 0 <= x < 52 && y == 13 ==> hit.0.show_tab_bar == !s.show_tab_bar
                && hit.0.show_status_bar == s.show_status_bar
            &&& 0 <= x < 52 && y == 14 ==> hit.1 == SettingsAction::BroadcastToggle
            &&& 0 <= x < 52 && y == 16 ==> hit.1 == SettingsAction::Close && !hit.0.visible
        }),
{
}

} // verus!
