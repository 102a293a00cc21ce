//! Decision logic behind a module's reactive bindings: which script a mouse
//! button or scroll direction dispatches to, and how the script-driven
//! visibility state machine behaves.

use vstd::prelude::*;

verus! {

/// Common configuration options which can be set on every module. Each
/// optional field holds the command of the script bound to that event.
#[derive(Debug, Clone, PartialEq)]
pub struct CommonConfig {
    pub show_if: Option<String>,
    pub on_click_left: Option<String>,
    pub on_click_right: Option<String>,
    pub on_click_middle: Option<String>,
    pub on_scroll_up: Option<String>,
    pub on_scroll_down: Option<String>,
    pub on_mouse_enter: Option<String>,
    pub on_mouse_exit: Option<String>,
    pub tooltip: Option<String>,
}

/// A common configuration with no binding set at all.
pub open spec fn config_unbound(c: CommonConfig) -> bool {
    c.show_if is None && c.on_click_left is None && c.on_click_right is None
        && c.on_click_middle is None && c.on_scroll_up is None && c.on_scroll_down is None
        && c.on_mouse_enter is None && c.on_mouse_exit is None && c.tooltip is None
}

impl Default for CommonConfig {
    /// A configuration with no binding set.
    fn default() -> (r: Self)
        ensures
            config_unbound(r),
    {
        CommonConfig {
            show_if: None,
            on_click_left: None,
            on_click_right: None,
            on_click_middle: None,
            on_scroll_up: None,
            on_scroll_down: None,
            on_mouse_enter: None,
            on_mouse_exit: None,
            tooltip: None,
        }
    }
}

/// A scroll direction as delivered by the toolkit.
#[derive(Debug, Clone, Copy, PartialEq, Eq)]
pub enum ScrollDirection {
    Up,
    Down,
    Left,
    Right,
    Smooth,
}

/// The script bound to a button-press event: buttons 1, 2 and 3 dispatch to
/// the left, middle and right click scripts; other buttons are no-ops.
pub open spec fn click_binding(c: CommonConfig, button: u32) -> Option<Seq<char>> {
    if button == 1 {
        c.on_click_left.deep_view()
    } else if button == 2 {
        c.on_click_middle.deep_view()
    } else if button == 3 {
        c.on_click_right.deep_view()
    } else {
        None
    }
}

/// The script bound to a scroll event: up and down dispatch to their
/// scripts; other directions are no-ops.
pub open spec fn scroll_binding(c: CommonConfig, direction: ScrollDirection) -> Option<Seq<char>> {
    match direction {
        ScrollDirection::Up => c.on_scroll_up.deep_view(),
        ScrollDirection::Down => c.on_scroll_down.deep_view(),
        _ => None,
    }
}

impl CommonConfig {
    /// The oneshot script to run for a press of `button`, if any.
    pub fn click_script(&self, button: u32) -> (r: Option<&String>)
        ensures
            r.deep_view() == click_binding(*self, button),
    {
        match button {
            1 => self.on_click_left.as_ref(),
            2 => self.on_click_middle.as_ref(),
            3 => self.on_click_right.as_ref(),
            _ => None,
        }
    }

    /// The oneshot script to run for a scroll in `direction`, if any.
    pub fn scroll_script(&self, direction: ScrollDirection) -> (r: Option<&String>)
        ensures
            r.deep_view() == scroll_binding(*self, direction),
    {
        match direction {
            ScrollDirection::Up => self.on_scroll_up.as_ref(),
            ScrollDirection::Down => self.on_scroll_down.as_ref(),
            _ => None,
        }
    }

    /// Whether the module's container is visible before any poll result
    /// arrives: permanently shown exactly when no `show_if` script is
    /// configured, hidden until the first result otherwise.
    pub fn initial_visibility(&self) -> (visible: bool)
        ensures
            visible == (self.show_if is None),
    {
        self.show_if.is_none()
    }
}

/// The container's visibility after a `show_if` poll result is delivered:
/// shown exactly when the script's most recent run succeeded, whatever the
/// earlier state was.
pub fn visibility_after_poll(success: bool) -> (visible: bool)
    ensures
        visible == success,
{
    success
}

/// A bar's edge position on the screen.
#[derive(Debug, Clone, Copy, PartialEq, Eq)]
pub enum BarPosition {
    Top,
    Bottom,
    Left,
    Right,
}

/// A module's location along the bar.
#[derive(Debug, Clone, Copy, PartialEq, Eq)]
pub enum ModuleLocation {
    Left,
    Center,
    Right,
}

/// A vertical alignment for the popup's main menu.
#[derive(Debug, Clone, Copy, PartialEq, Eq)]
pub enum Alignment {
    Start,
    End,
}

/// The popup alignment rule: fixed-height menus always align to the top;
/// otherwise the bar position decides, and on a vertical bar the module's
/// location does.
pub open spec fn alignment_rule(
    has_fixed_height: bool,
    position: BarPosition,
    location: ModuleLocation,
) -> Alignment {
    if has_fixed_height {
        Alignment::Start
    } else {
        match position {
            BarPosition::Top => Alignment::Start,
            BarPosition::Bottom => Alignment::End,
            _ => match location {
                ModuleLocation::Left => Alignment::Start,
                ModuleLocation::Center => Alignment::Start,
                ModuleLocation::Right => Alignment::End,
            },
        }
    }
}

/// Decides how the popup's main menu is aligned vertically.
pub fn popup_alignment(
    has_fixed_height: bool,
    position: BarPosition,
    location: ModuleLocation,
) -> (a: Alignment)
    ensures
        a == alignment_rule(has_fixed_height, position, location),
{
    if has_fixed_height {
        return Alignment::Start;
    }
    match position {
        BarPosition::Top => Alignment::Start,
        BarPosition::Bottom => Alignment::End,
        _ => match location {
            ModuleLocation::Left => Alignment::Start,
            ModuleLocation::Center => Alignment::Start,
            ModuleLocation::Right => Alignment::End,
        },
    }
}

} // verus!
