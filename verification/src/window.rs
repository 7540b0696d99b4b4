//! The main window: when it shows, when it hides, and where it stands.

use vstd::prelude::*;

verus! {

/// What is done with the main window.
#[derive(Debug, Clone, Copy, PartialEq, Eq, Structural)]
pub enum WindowAction {
    /// Nothing.
    Leave,
    /// It is hidden.
    Hide,
    /// It is put in its place, unless it has been before, and shown.
    Show,
    /// It is shown where it is.
    ShowInPlace,
}

/// What the window does when it is toggled.
pub fn toggle(visible: bool) -> (r: WindowAction)
    ensures
        r == (if visible {
            WindowAction::Hide
        } else {
            WindowAction::Show
        }),
{
    if visible {
        WindowAction::Hide
    } else {
        WindowAction::Show
    }
}

/// What the window does on a click on the tray icon: it is toggled, but where it is to stay open
/// it is only ever shown.
pub fn tray_click(auto_hide: bool, visible: bool) -> (r: WindowAction)
    ensures
        r == (if !auto_hide {
            WindowAction::ShowInPlace
        } else if visible {
            WindowAction::Hide
        } else {
            WindowAction::Show
        }),
{
    if auto_hide {
        toggle(visible)
    } else {
        WindowAction::ShowInPlace
    }
}

/// What the window does when it loses the focus: it hides, unless it is to stay open.
pub fn focus_lost(auto_hide: bool) -> (r: WindowAction)
    ensures
        r == (if auto_hide {
            WindowAction::Hide
        } else {
            WindowAction::Leave
        }),
{
    if auto_hide {
        WindowAction::Hide
    } else {
        WindowAction::Leave
    }
}

/// Whether the window hides by itself from now on, and what it does, when "Keep Open" has been
/// checked or unchecked.
pub fn keep_open(checked: bool) -> (r: (bool, WindowAction))
    ensures
        r.0 == !checked,
        r.1 == (if checked {
            WindowAction::ShowInPlace
        } else {
            WindowAction::Leave
        }),
{
    if checked {
        (false, WindowAction::ShowInPlace)
    } else {
        (true, WindowAction::Leave)
    }
}

/// Whether the window is still to be put in its place: only the first time that it is shown, so
/// that it stays where the user has moved it.
pub fn position_once(positioned: &mut bool) -> (r: bool)
    ensures
        r == !*old(positioned),
        *final(positioned),
{
    let first = !*positioned;
    *positioned = true;
    first
}

/// A monitor: where it begins and how large it is, in pixels.
#[derive(Debug, Clone, Copy, PartialEq, Eq)]
pub struct Monitor {
    pub x: i32,
    pub y: i32,
    pub width: u32,
    pub height: u32,
}

/// A length as a signed 32-bit number: lengths from 2^31 on come out negative.
pub open spec fn signed(n: u32) -> int {
    if n <= i32::MAX {
        n as int
    } else {
        n - 0x1_0000_0000
    }
}

/// Where a window of length `size` begins so that it ends `margin` before the end of a monitor
/// that begins at `from`: not before the monitor itself.
pub open spec fn corner(from: int, extent: int, size: int, margin: int) -> int {
    let at = from + extent - size - margin;
    if at < from {
        from
    } else {
        at
    }
}

/// Whether the corner can be reckoned, from left to right, in 32 bits.
pub open spec fn corner_fits(from: int, extent: int, size: int, margin: int) -> bool {
    &&& i32::MIN <= from + extent <= i32::MAX
    &&& i32::MIN <= from + extent - size <= i32::MAX
    &&& i32::MIN <= from + extent - size - margin <= i32::MAX
}

/// Whether the place of the window can be reckoned in 32 bits.
pub fn placement_fits(monitor: &Monitor, width: u32, height: u32, margin: i32) -> (r: bool)
    ensures
        r == (corner_fits(
            monitor.x as int,
            signed(monitor.width),
            signed(width),
            margin as int,
        ) && corner_fits(
            monitor.y as int,
            signed(monitor.height),
            signed(height),
            margin as int,
        )),
{
    axis_fits(monitor.x, monitor.width, width, margin) && axis_fits(
        monitor.y,
        monitor.height,
        height,
        margin,
    )
}

/// A length as a signed 32-bit number.
fn to_signed(n: u32) -> (r: i32)
    ensures
        r == signed(n),
{
    if n <= i32::MAX as u32 {
        n as i32
    } else {
        (n as i64 - 0x1_0000_0000) as i32
    }
}

/// Whether the corner can be reckoned in 32 bits.
fn axis_fits(from: i32, extent: u32, size: u32, margin: i32) -> (r: bool)
    ensures
        r == corner_fits(from as int, signed(extent), signed(size), margin as int),
{
    let least: i64 = i32::MIN as i64;
    let most: i64 = i32::MAX as i64;
    let end: i64 = from as i64 + to_signed(extent) as i64;
    let start: i64 = end - to_signed(size) as i64;
    let at: i64 = start - margin as i64;
    least <= end && end <= most && least <= start && start <= most && least <= at && at <= most
}

/// The corner, reckoned in 32 bits.
fn axis_corner(from: i32, extent: u32, size: u32, margin: i32) -> (r: i32)
    requires
        corner_fits(from as int, signed(extent), signed(size), margin as int),
    ensures
        r == corner(from as int, signed(extent), signed(size), margin as int),
{
    let at: i32 = from + to_signed(extent) - to_signed(size) - margin;
    if at < from {
        from
    } else {
        at
    }
}

/// The place of a window at the bottom right of a monitor.
pub fn bottom_right(monitor: &Monitor, width: u32, height: u32, margin: i32) -> (r: (i32, i32))
    requires
        corner_fits(monitor.x as int, signed(monitor.width), signed(width), margin as int),
        corner_fits(monitor.y as int, signed(monitor.height), signed(height), margin as int),
    ensures
        r.0 == corner(monitor.x as int, signed(monitor.width), signed(width), margin as int),
        r.1 == corner(monitor.y as int, signed(monitor.height), signed(height), margin as int),
{
    (
        axis_corner(monitor.x, monitor.width, width, margin),
        axis_corner(monitor.y, monitor.height, height, margin),
    )
}

/// A window that is no larger than the monitor ends the margin before the end of the monitor, where
/// it fits with the margin; it never begins before the monitor.
pub proof fn window_stays_on_monitor(from: int, extent: int, size: int, margin: int)
    requires
        0 <= size,
        0 <= margin,
    ensures
        from <= corner(from, extent, size, margin),
        size + margin <= extent ==> corner(from, extent, size, margin) + size + margin == from
            + extent,
{
}

/// A window that does not fit with its margin begins where the monitor does.
pub proof fn large_window_begins_with_monitor(from: int, extent: int, size: int, margin: int)
    requires
        size + margin >= extent,
    ensures
        corner(from, extent, size, margin) == from,
{
}

/// A length that 31 bits can hold is taken as it is; any other is taken modulo 2^32 to a negative number.
pub proof fn lengths_are_signed(n: u32)
    ensures
        i32::MIN <= signed(n) <= i32::MAX,
        signed(n) == n || signed(n) + 0x1_0000_0000 == n,
{
}

} // verus!
