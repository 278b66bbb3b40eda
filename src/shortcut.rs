//! Keyboard shortcuts: which key and modifier combinations trigger what.
use vstd::prelude::*;

verus! {

/// What a shortcut does.
#[derive(Clone, Copy, PartialEq, Eq, Structural)]
pub enum Function {
    Paste,
    ZoomIn,
    ZoomOut,
}

/// The effect of a shortcut, for the window to carry out.
#[derive(Clone, Copy, PartialEq, Eq, Structural)]
pub enum Effect {
    /// Paste the current selection.
    Paste,
    /// Re-resolve the font with its size moved by this many points.
    Zoom(i32),
}

impl Function {
    /// Paste pastes; zooming in and out moves the font size by one point.
    pub fn execute(&self) -> (r: Effect)
        ensures
            r == (match *self {
                Function::Paste => Effect::Paste,
                Function::ZoomIn => Effect::Zoom(1),
                Function::ZoomOut => Effect::Zoom(-1i32),
            }),
    {
        match self {
            Function::Paste => Effect::Paste,
            Function::ZoomIn => Effect::Zoom(1),
            Function::ZoomOut => Effect::Zoom(-1),
        }
    }
}

/// Relies on x11::keysym::XK_Insert, the keysym of the Insert key.
#[verifier::external_body]
fn key_insert() -> (r: u32)
    ensures
        r == 0xFF63,
{
    x11::keysym::XK_Insert
}

/// Relies on x11::keysym::XK_Up, the keysym of the Up arrow key.
#[verifier::external_body]
fn key_up() -> (r: u32)
    ensures
        r == 0xFF52,
{
    x11::keysym::XK_Up
}

/// Relies on x11::keysym::XK_Down, the keysym of the Down arrow key.
#[verifier::external_body]
fn key_down() -> (r: u32)
    ensures
        r == 0xFF54,
{
    x11::keysym::XK_Down
}

/// Relies on x11::xlib::ShiftMask, the modifier bit of Shift.
#[verifier::external_body]
fn shift_mask() -> (r: u32)
    ensures
        r == 0x01,
{
    x11::xlib::ShiftMask
}

/// Relies on x11::xlib::ControlMask, the modifier bit of Control.
#[verifier::external_body]
fn control_mask() -> (r: u32)
    ensures
        r == 0x04,
{
    x11::xlib::ControlMask
}

/// The shortcut table, first match wins: Shift+Insert pastes, Control+Up
/// zooms in, Control+Down zooms out. Only keysyms of the function-key block
/// (low sixteen bits at `0xFD00` or above) are considered; a modifier counts
/// when its bit is among `state`'s.
pub open spec fn shortcut_for(key: u64, state: u32) -> Option<Function> {
    let k = (key % 0x1_0000_0000) as u32;
    if k % 0x10000 < 0xFD00 {
        None
    } else if k == 0xFF63 && state & 0x01 != 0 {
        Some(Function::Paste)
    } else if k == 0xFF52 && state & 0x04 != 0 {
        Some(Function::ZoomIn)
    } else if k == 0xFF54 && state & 0x04 != 0 {
        Some(Function::ZoomOut)
    } else {
        None
    }
}

/// The function bound to a key and modifier state, if any.
pub fn find_shortcut(k: u64, state: u32) -> (r: Option<Function>)
    ensures
        r == shortcut_for(k, state),
{
    let k = (k % 0x1_0000_0000) as u32;
    assert(k & 0xFFFF == k % 0x10000) by (bit_vector);
    if k & 0xFFFF < 0xFD00 {
        return None;
    }
    if k == key_insert() && state & shift_mask() != 0 {
        return Some(Function::Paste);
    }
    if k == key_up() && state & control_mask() != 0 {
        return Some(Function::ZoomIn);
    }
    if k == key_down() && state & control_mask() != 0 {
        return Some(Function::ZoomOut);
    }
    None
}

} // verus!
