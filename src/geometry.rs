use vstd::prelude::*;

verus! {

/// An OS-assigned window identifier, compared by value. Zero means "no window".
#[derive(Clone, Copy, Debug, PartialEq, Eq, Structural)]
pub struct WindowHandle {
    pub value: isize,
}

/// A window's bounding box in screen coordinates.
#[derive(Clone, Copy, Debug, PartialEq, Eq, Structural)]
pub struct Rect {
    pub left: i32,
    pub top: i32,
    pub right: i32,
    pub bottom: i32,
}

/// Width and height must both exceed this for a window to enter a snapshot.
pub const MIN_EXTENT: i32 = 30;

impl WindowHandle {
    pub open spec fn is_null_spec(self) -> bool {
        self.value == 0
    }

    /// The handle that stands for no window at all.
    pub fn null() -> (r: WindowHandle)
        ensures
            r.is_null_spec(),
    {
        WindowHandle { value: 0 }
    }

    pub fn is_null(&self) -> (r: bool)
        ensures
            r == self.is_null_spec(),
    {
        self.value == 0
    }
}

impl Rect {
    pub open spec fn width_spec(self) -> int {
        self.right - self.left
    }

    pub open spec fn height_spec(self) -> int {
        self.bottom - self.top
    }

    /// Both sides strictly longer than `MIN_EXTENT`.
    pub open spec fn large_enough_spec(self) -> bool {
        self.width_spec() > MIN_EXTENT as int && self.height_spec() > MIN_EXTENT as int
    }

    /// Whether the rectangle is large enough to belong to a user window.
    pub fn large_enough(&self) -> (r: bool)
        ensures
            r == self.large_enough_spec(),
    {
        let w: i64 = self.right as i64 - self.left as i64;
        let h: i64 = self.bottom as i64 - self.top as i64;
        w > MIN_EXTENT as i64 && h > MIN_EXTENT as i64
    }
}

/// What enumeration admits into a snapshot: visible, not minimized, and with
/// a measured rectangle that is large enough.
pub open spec fn admitted_spec(visible: bool, minimized: bool, rect: Option<Rect>) -> bool {
    visible && !minimized && match rect {
        Some(r) => r.large_enough_spec(),
        None => false,
    }
}

/// Decides whether an enumerated window enters the snapshot. `rect` is `None`
/// where the rectangle could not be measured.
pub fn admit_to_snapshot(visible: bool, minimized: bool, rect: Option<Rect>) -> (r: bool)
    ensures
        r == admitted_spec(visible, minimized, rect),
{
    if !visible || minimized {
        return false;
    }
    match rect {
        Some(r) => r.large_enough(),
        None => false,
    }
}

} // verus!
