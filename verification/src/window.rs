//! Window state kept across minimal-mode switches, and the clamping
//! rules for persisted bounds and opacity.

use vstd::prelude::*;

use crate::models::WindowBounds;

verus! {

/// Minimum window width in pixels.
pub const MIN_WINDOW_WIDTH: u32 = 300;

/// Minimum window height in pixels.
pub const MIN_WINDOW_HEIGHT: u32 = 200;

/// Minimum opacity, in thousandths (30%).
pub const MIN_OPACITY_MILLI: u32 = 300;

/// Maximum opacity, in thousandths (100%).
pub const MAX_OPACITY_MILLI: u32 = 1000;

/// Tracks the bounds saved before entering minimal mode and whether
/// the window currently is in minimal mode. The surrounding program
/// owns one instance behind its own lock; these methods only touch
/// the in-memory state.
pub struct WindowManager {
    normal_bounds: Option<WindowBounds>,
    minimal_mode: bool,
}

impl WindowManager {
    /// A fresh manager: not in minimal mode, no saved bounds.
    pub fn new() -> (r: WindowManager)
        ensures
            !r.in_minimal_mode(),
            r.saved_bounds() is None,
    {
        WindowManager { normal_bounds: None, minimal_mode: false }
    }

    /// Whether the window is in minimal mode.
    pub closed spec fn in_minimal_mode(&self) -> bool {
        self.minimal_mode
    }

    /// The bounds saved on entering minimal mode, if any.
    pub closed spec fn saved_bounds(&self) -> Option<WindowBounds> {
        self.normal_bounds
    }

    /// Returns whether the window is currently in minimal mode.
    pub fn is_in_minimal_mode(&self) -> (r: bool)
        ensures
            r == self.in_minimal_mode(),
    {
        self.minimal_mode
    }

    /// Sets the minimal-mode state, leaving the saved bounds alone.
    pub fn set_minimal_mode(&mut self, enabled: bool)
        ensures
            final(self).in_minimal_mode() == enabled,
            final(self).saved_bounds() == old(self).saved_bounds(),
    {
        self.minimal_mode = enabled;
    }

    /// Saves the given bounds as the normal-mode bounds.
    pub fn save_normal_bounds(&mut self, bounds: WindowBounds)
        ensures
            final(self).saved_bounds() == Some(bounds),
            final(self).in_minimal_mode() == old(self).in_minimal_mode(),
    {
        self.normal_bounds = Some(bounds);
    }

    /// Returns the saved normal-mode bounds, or `None` when nothing
    /// was saved.
    pub fn get_normal_bounds(&self) -> (r: Option<WindowBounds>)
        ensures
            r == self.saved_bounds(),
    {
        self.normal_bounds
    }

    /// Forgets the saved normal-mode bounds.
    pub fn clear_normal_bounds(&mut self)
        ensures
            final(self).saved_bounds() is None,
            final(self).in_minimal_mode() == old(self).in_minimal_mode(),
    {
        self.normal_bounds = None;
    }

    /// Clamps an opacity (in thousandths) to [`MIN_OPACITY_MILLI`],
    /// [`MAX_OPACITY_MILLI`]. Identity on values already inside the
    /// interval.
    pub fn clamp_opacity(opacity_milli: u32) -> (r: u32)
        ensures
            MIN_OPACITY_MILLI <= r <= MAX_OPACITY_MILLI,
            opacity_milli < MIN_OPACITY_MILLI ==> r == MIN_OPACITY_MILLI,
            opacity_milli > MAX_OPACITY_MILLI ==> r == MAX_OPACITY_MILLI,
            MIN_OPACITY_MILLI <= opacity_milli <= MAX_OPACITY_MILLI ==> r == opacity_milli,
    {
        if opacity_milli < MIN_OPACITY_MILLI {
            MIN_OPACITY_MILLI
        } else if opacity_milli > MAX_OPACITY_MILLI {
            MAX_OPACITY_MILLI
        } else {
            opacity_milli
        }
    }

    /// Raises width and height to the minimum window size, leaving
    /// the position untouched. Identity on bounds already within the
    /// minimums.
    pub fn clamp_bounds(bounds: WindowBounds) -> (r: WindowBounds)
        ensures
            r == spec_clamp_bounds(bounds),
            r.width >= MIN_WINDOW_WIDTH,
            r.height >= MIN_WINDOW_HEIGHT,
            r.x == bounds.x,
            r.y == bounds.y,
            bounds.width >= MIN_WINDOW_WIDTH ==> r.width == bounds.width,
            bounds.height >= MIN_WINDOW_HEIGHT ==> r.height == bounds.height,
            bounds.width >= MIN_WINDOW_WIDTH && bounds.height >= MIN_WINDOW_HEIGHT ==> r
                == bounds,
    {
        WindowBounds {
            width: if bounds.width >= MIN_WINDOW_WIDTH {
                bounds.width
            } else {
                MIN_WINDOW_WIDTH
            },
            height: if bounds.height >= MIN_WINDOW_HEIGHT {
                bounds.height
            } else {
                MIN_WINDOW_HEIGHT
            },
            x: bounds.x,
            y: bounds.y,
        }
    }
}

/// Width and height raised to the minimums, position untouched.
pub open spec fn spec_clamp_bounds(b: WindowBounds) -> WindowBounds {
    WindowBounds {
        width: if b.width >= MIN_WINDOW_WIDTH {
            b.width
        } else {
            MIN_WINDOW_WIDTH
        },
        height: if b.height >= MIN_WINDOW_HEIGHT {
            b.height
        } else {
            MIN_WINDOW_HEIGHT
        },
        x: b.x,
        y: b.y,
    }
}

impl WindowManager {
    /// What a reported window resize or move persists as the normal
    /// bounds: nothing while minimal mode is active (its small size
    /// must not overwrite the normal bounds), otherwise the bounds
    /// clamped to the minimum window size.
    pub fn bounds_to_persist(&self, bounds: WindowBounds) -> (r: Option<WindowBounds>)
        ensures
            self.in_minimal_mode() ==> r is None,
            !self.in_minimal_mode() ==> r == Some(spec_clamp_bounds(bounds)),
    {
        if self.is_in_minimal_mode() {
            None
        } else {
            Some(WindowManager::clamp_bounds(bounds))
        }
    }
}

impl Default for WindowManager {
    /// Same as [`WindowManager::new`].
    fn default() -> (r: WindowManager)
        ensures
            !r.in_minimal_mode(),
            r.saved_bounds() is None,
    {
        WindowManager::new()
    }
}

} // verus!
