//! The backlight device model and its clamped update algorithm.

use vstd::prelude::*;

verus! {

/// A display backlight.
///
/// The struct is a disposable view of the device: the stored values are
/// refreshed from the device (via [`Backlight::update`]) before every
/// mutation, never trusted across calls.  The device itself is the single
/// source of truth; the unverified shell around this library reads and
/// writes its control files and hands the plain values in and out.
pub struct Backlight {
    /// Name of the device directory under the backlight root.
    pub device: String,
    /// Brightness last reported by the device.
    pub cur_bright: i128,
    /// Lower bound on brightness; every known device has floor zero.
    pub min_bright: i128,
    /// Upper bound last reported by the device.
    pub max_bright: i128,
}

/// Represents the operations you can perform on the backlight.
#[derive(Clone, Copy, Debug, PartialEq, Eq, Structural)]
pub enum Ops {
    /// Increase the brightness.
    Increase,
    /// Decrease the brightness.
    Decrease,
    /// Set the brightness to an absolute value.
    Assign,
}

/// Constrain `v` to `[lo, hi]` by saturating at the nearer bound.
pub open spec fn clamp(v: int, lo: int, hi: int) -> int {
    if v < lo {
        lo
    } else if v > hi {
        hi
    } else {
        v
    }
}

/// The unclamped target of an operation against current brightness `cur`.
pub open spec fn raw_target(op: Ops, cur: int, value: int) -> int {
    match op {
        Ops::Increase => cur + value,
        Ops::Decrease => cur - value,
        Ops::Assign => value,
    }
}

/// The brightness stored by an operation: the raw target, clamped to the
/// device bounds `[0, max]`.
pub open spec fn next_brightness(op: Ops, cur: int, value: int, max: int) -> int {
    clamp(raw_target(op, cur, value), 0, max)
}

impl Backlight {
    /// The bounds a live device reports: a floor of zero and non-negative
    /// readings, so clamping is well defined.
    pub open spec fn wf(self) -> bool {
        &&& self.min_bright == 0
        &&& 0 <= self.cur_bright
        &&& 0 <= self.max_bright
    }

    /// Creates a new backlight bound to the named device.
    ///
    /// Does not probe the device: the stored readings start at zero and
    /// are refreshed before every operation.
    pub fn new(device: String) -> (bl: Self)
        ensures
            bl.device@ == device@,
            bl.cur_bright == 0,
            bl.min_bright == 0,
            bl.max_bright == 0,
            bl.wf(),
    {
        Self { device, cur_bright: 0, min_bright: 0, max_bright: 0 }
    }

    /// Refreshes the stored readings with values just read from the
    /// device's `brightness` and `max_brightness` control files.
    ///
    /// Both files hold unsigned decimal integers, so the fresh readings
    /// are non-negative.
    pub fn update(&mut self, cur: i128, max: i128)
        requires
            0 <= cur,
            0 <= max,
        ensures
            final(self).device@ == old(self).device@,
            final(self).cur_bright == cur,
            final(self).max_bright == max,
            final(self).min_bright == old(self).min_bright,
            old(self).wf() ==> final(self).wf(),
    {
        self.cur_bright = cur;
        self.max_bright = max;
    }

    /// Sets the backlight's brightness.
    ///
    /// Computes the operation's target against the current readings,
    /// clamps it into `[0, max_bright]`, records it as the new current
    /// brightness and returns it, for the caller to write back to the
    /// device.  The arithmetic saturates: a huge decrement lands on the
    /// floor and a huge increment on the ceiling, never a wrapped value.
    pub fn set_brightness(&mut self, op: Ops, value: i128) -> (target: i128)
        requires
            old(self).wf(),
        ensures
            target as int == next_brightness(
                op,
                old(self).cur_bright as int,
                value as int,
                old(self).max_bright as int,
            ),
            0 <= target <= old(self).max_bright,
            final(self).cur_bright == target,
            final(self).device@ == old(self).device@,
            final(self).min_bright == old(self).min_bright,
            final(self).max_bright == old(self).max_bright,
            final(self).wf(),
    {
        let raw: Option<i128> = match op {
            Ops::Increase => self.cur_bright.checked_add(value),
            Ops::Decrease => self.cur_bright.checked_sub(value),
            Ops::Assign => Some(value),
        };
        let target: i128 = match raw {
            Some(t) => {
                if t < self.min_bright {
                    self.min_bright
                } else if t > self.max_bright {
                    self.max_bright
                } else {
                    t
                }
            },
            // The exact target exceeds the i128 range.  The current value
            // is non-negative, so only overflow past the maximum can
            // happen, and the target clamps to the ceiling.
            None => self.max_bright,
        };
        self.cur_bright = target;
        target
    }
}

/// Law: assigning an absolute value stores exactly that value clamped to
/// the device bounds, whatever the current brightness — for any integer,
/// negative and past-the-ceiling values included.
pub proof fn lemma_assign_stores_clamp(cur: int, value: int, max: int)
    ensures
        next_brightness(Ops::Assign, cur, value, max) == clamp(value, 0, max),
{
}

/// Law: a decrement at least as large as the current brightness saturates
/// at the floor, never wrapping to a positive value.
pub proof fn lemma_decrease_saturates_at_floor(cur: int, dec: int, max: int)
    requires
        0 <= cur <= dec,
        0 <= max,
    ensures
        next_brightness(Ops::Decrease, cur, dec, max) == 0,
{
}

/// Law: an increment stores the minimum of the exact sum and the ceiling.
pub proof fn lemma_increase_stores_min(cur: int, inc: int, max: int)
    requires
        0 <= cur,
        0 <= inc,
    ensures
        next_brightness(Ops::Increase, cur, inc, max) == vstd::math::min(cur + inc, max),
{
}

/// Law: setting the same value twice in succession, with no outside
/// mutation in between, stores what setting it once stores.
pub proof fn lemma_set_idempotent(cur: int, value: int, max: int)
    ensures
        next_brightness(
            Ops::Assign,
            next_brightness(Ops::Assign, cur, value, max),
            value,
            max,
        ) == next_brightness(Ops::Assign, cur, value, max),
{
}

} // verus!
