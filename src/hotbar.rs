use vstd::prelude::*;

verus! {

/// Number of hotbar slots.
pub const HOTBAR_SLOTS: u8 = 9;

/// The slot selected after moving `delta` slots from `index`: past the
/// last slot it wraps to the first, before the first to the last.
pub open spec fn scrolled_slot(index: int, delta: int) -> int {
    if index + delta < 0 {
        8
    } else if index + delta > 8 {
        0
    } else {
        index + delta
    }
}

/// Moves the hotbar selection by `delta` slots, wrapping around the nine slots.
pub fn scroll_hotbar(index: u8, delta: i8) -> (r: u8)
    ensures
        r == scrolled_slot(index as int, delta as int),
        r < HOTBAR_SLOTS,
{
    let next: i16 = index as i16 + delta as i16;
    if next < 0 {
        8
    } else if next > 8 {
        0
    } else {
        next as u8
    }
}

} // verus!
