//! Screen state and the buttons of the handheld.
use vstd::prelude::*;

verus! {

/// The state of the main menu: which entry is selected.
pub struct MainMenuState {
    pub selected_index: usize,
}

impl MainMenuState {
    /// The menu with its first entry selected.
    pub fn new() -> (r: MainMenuState)
        ensures
            r.selected_index == 0,
    {
        MainMenuState { selected_index: 0 }
    }
}

/// The buttons as they are printed on the device.
#[derive(Debug, Copy, Clone, PartialEq, Eq, Hash)]
pub enum BrickButton {
    A,
    B,
    X,
    Y,
    DPadUp,
    DPadDown,
    DPadLeft,
    DPadRight,
    Power,
    VolumeUp,
    VolumeDown,
    LeftShoulder,
    RightShoulder,
    LeftStick,
    RightStick,
    Start,
    Back,
    Guide,
}

/// The analog axes that the application reads.
#[derive(Debug, Copy, Clone, PartialEq, Eq, Hash)]
pub enum BrickAxis {
    TriggerLeft,
    TriggerRight,
}

/// The buttons of a game controller as the input layer reports them.
#[derive(Debug, Copy, Clone, PartialEq, Eq, Hash)]
pub enum PadButton {
    A,
    B,
    X,
    Y,
    Back,
    Guide,
    Start,
    LeftStick,
    RightStick,
    LeftShoulder,
    RightShoulder,
    DPadUp,
    DPadDown,
    DPadLeft,
    DPadRight,
    Misc,
}

pub open spec fn spec_brick_button(b: PadButton) -> Option<BrickButton> {
    match b {
        PadButton::B => Some(BrickButton::A),
        PadButton::A => Some(BrickButton::B),
        PadButton::Y => Some(BrickButton::X),
        PadButton::X => Some(BrickButton::Y),
        PadButton::DPadUp => Some(BrickButton::DPadUp),
        PadButton::DPadDown => Some(BrickButton::DPadDown),
        PadButton::DPadLeft => Some(BrickButton::DPadLeft),
        PadButton::DPadRight => Some(BrickButton::DPadRight),
        PadButton::Start => Some(BrickButton::Start),
        PadButton::Back => Some(BrickButton::Back),
        PadButton::Guide => Some(BrickButton::Guide),
        PadButton::LeftShoulder => Some(BrickButton::LeftShoulder),
        PadButton::RightShoulder => Some(BrickButton::RightShoulder),
        PadButton::RightStick => Some(BrickButton::RightStick),
        PadButton::LeftStick => Some(BrickButton::LeftStick),
        PadButton::Misc => None,
    }
}

/// The device button behind a controller button. The face buttons are
/// wired crosswise: the controller's B is the device's A, its Y the
/// device's X, and the other way round.
pub fn brick_button(b: PadButton) -> (r: Option<BrickButton>)
    ensures
        r == spec_brick_button(b),
{
    match b {
        PadButton::B => Some(BrickButton::A),
        PadButton::A => Some(BrickButton::B),
        PadButton::Y => Some(BrickButton::X),
        PadButton::X => Some(BrickButton::Y),
        PadButton::DPadUp => Some(BrickButton::DPadUp),
        PadButton::DPadDown => Some(BrickButton::DPadDown),
        PadButton::DPadLeft => Some(BrickButton::DPadLeft),
        PadButton::DPadRight => Some(BrickButton::DPadRight),
        PadButton::Start => Some(BrickButton::Start),
        PadButton::Back => Some(BrickButton::Back),
        PadButton::Guide => Some(BrickButton::Guide),
        PadButton::LeftShoulder => Some(BrickButton::LeftShoulder),
        PadButton::RightShoulder => Some(BrickButton::RightShoulder),
        PadButton::RightStick => Some(BrickButton::RightStick),
        PadButton::LeftStick => Some(BrickButton::LeftStick),
        PadButton::Misc => None,
    }
}

/// The volume buttons arrive as joystick buttons 14 (up) and 13 (down).
pub fn joystick_button(index: u8) -> (r: Option<BrickButton>)
    ensures
        r == (if index == 14 {
            Some(BrickButton::VolumeUp)
        } else if index == 13 {
            Some(BrickButton::VolumeDown)
        } else {
            None
        }),
{
    if index == 14 {
        Some(BrickButton::VolumeUp)
    } else if index == 13 {
        Some(BrickButton::VolumeDown)
    } else {
        None
    }
}

/// The triggers arrive as joystick axes 2 (left) and 5 (right).
pub fn joystick_axis(index: u8) -> (r: Option<BrickAxis>)
    ensures
        r == (if index == 2 {
            Some(BrickAxis::TriggerLeft)
        } else if index == 5 {
            Some(BrickAxis::TriggerRight)
        } else {
            None
        }),
{
    if index == 2 {
        Some(BrickAxis::TriggerLeft)
    } else if index == 5 {
        Some(BrickAxis::TriggerRight)
    } else {
        None
    }
}

/// The selected row of a list and the first row shown in its window.
#[derive(Debug, Copy, Clone, PartialEq, Eq)]
pub struct ListCursor {
    pub selected_index: usize,
    pub first_visible: usize,
}

/// `i` held within `[0, total - 1]`.
pub open spec fn clamped_index(i: int, total: int) -> int {
    if i < 0 {
        0
    } else if i > total - 1 {
        total - 1
    } else {
        i
    }
}

impl ListCursor {
    /// The first row selected and shown.
    pub fn new() -> (r: ListCursor)
        ensures
            r.selected_index == 0,
            r.first_visible == 0,
    {
        ListCursor { selected_index: 0, first_visible: 0 }
    }

    /// Moves the selection by `delta` rows within a list of `total` rows,
    /// and scrolls the window of `visible` rows by whole rows just enough
    /// to keep the selection in it.
    pub fn move_selection(&mut self, delta: isize, total: usize, visible: usize)
        requires
            total > 0,
        ensures
            final(self).selected_index == clamped_index(old(self).selected_index + delta, total as int),
            final(self).first_visible == if final(self).selected_index < old(self).first_visible {
                final(self).selected_index as int
            } else if final(self).selected_index >= old(self).first_visible + visible {
                final(self).selected_index - visible + 1
            } else {
                old(self).first_visible as int
            },
    {
        let target: i128 = self.selected_index as i128 + delta as i128;
        let new_index: usize = if target < 0 {
            0
        } else if target > total as i128 - 1 {
            total - 1
        } else {
            target as usize
        };
        self.selected_index = new_index;
        if new_index < self.first_visible {
            self.first_visible = new_index;
        } else if new_index as u128 >= self.first_visible as u128 + visible as u128 {
            self.first_visible = new_index - visible + 1;
        }
    }
}

} // verus!
