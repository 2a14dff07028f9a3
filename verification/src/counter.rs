//! A saturating signed counter, the smallest stateful piece the host embeds.

use vstd::prelude::*;

verus! {

/// Counter state: one signed value, stepped up and down with saturation at
/// the machine bounds instead of wrapping.
pub struct Counter {
    value: i32,
}

impl Counter {
    /// The held value.
    pub closed spec fn value_spec(&self) -> int {
        self.value as int
    }

    /// A counter starting at zero.
    pub fn new() -> (r: Counter)
        ensures
            r.value_spec() == 0,
    {
        Counter { value: 0 }
    }

    /// A counter starting at a chosen value.
    pub fn with_value(initial: i32) -> (r: Counter)
        ensures
            r.value_spec() == initial,
    {
        Counter { value: initial }
    }

    /// Step up by one, saturating at the maximum, and return the new value.
    pub fn increment(&mut self) -> (r: i32)
        ensures
            final(self).value_spec() == (if old(self).value_spec() == i32::MAX {
                i32::MAX as int
            } else {
                old(self).value_spec() + 1
            }),
            r == final(self).value_spec(),
    {
        if self.value < i32::MAX {
            self.value = self.value + 1;
        }
        self.value
    }

    /// Step down by one, saturating at the minimum, and return the new
    /// value.
    pub fn decrement(&mut self) -> (r: i32)
        ensures
            final(self).value_spec() == (if old(self).value_spec() == i32::MIN {
                i32::MIN as int
            } else {
                old(self).value_spec() - 1
            }),
            r == final(self).value_spec(),
    {
        if self.value > i32::MIN {
            self.value = self.value - 1;
        }
        self.value
    }

    /// The current value.
    pub fn get_value(&self) -> (r: i32)
        ensures
            r == self.value_spec(),
    {
        self.value
    }

    /// Reset to zero.
    pub fn reset(&mut self)
        ensures
            final(self).value_spec() == 0,
    {
        self.value = 0;
    }

    /// Overwrite the value.
    pub fn set_value(&mut self, value: i32)
        ensures
            final(self).value_spec() == value,
    {
        self.value = value;
    }
}

} // verus!
