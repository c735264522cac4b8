use vstd::prelude::*;

verus! {

/// The largest texture side a page is decoded to.
pub const MAX_TEXTURE_SIDE: u32 = 16384;

/// How many permits are taken after an attempt to take one, `used` of
/// `max` being taken before.
pub open spec fn after_acquire(used: u32, max: u32) -> u32 {
    if used < max {
        (used + 1) as u32
    } else {
        used
    }
}

/// How many permits are taken after one is given back, `used` being taken
/// before.
pub open spec fn after_release(used: u32) -> u32 {
    if used > 0 {
        (used - 1) as u32
    } else {
        0
    }
}

/// The decode permits: how many are taken, out of how many.
pub struct SlotCount {
    used: u32,
    max: u32,
}

impl SlotCount {
    pub closed spec fn used_spec(&self) -> u32 {
        self.used
    }

    pub closed spec fn max_spec(&self) -> u32 {
        self.max
    }

    /// `max` permits, none taken.
    pub fn new(max: u32) -> (r: Self)
        ensures
            r.used_spec() == 0,
            r.max_spec() == max,
    {
        SlotCount { used: 0, max }
    }

    /// Takes a permit when one is free.  Returns whether it did.
    pub fn acquire(&mut self) -> (r: bool)
        ensures
            r == (old(self).used_spec() < old(self).max_spec()),
            final(self).used_spec() == after_acquire(old(self).used_spec(), old(self).max_spec()),
            final(self).max_spec() == old(self).max_spec(),
    {
        if self.used < self.max {
            self.used += 1;
            true
        } else {
            false
        }
    }

    /// Gives a permit back (none when none is taken).
    pub fn release(&mut self)
        ensures
            final(self).used_spec() == after_release(old(self).used_spec()),
            final(self).max_spec() == old(self).max_spec(),
    {
        self.used = self.used.saturating_sub(1);
    }
}

/// Tries to take a decode permit from `slots`; the caller waits for a
/// release and tries again while this says no.
pub fn acquire_permit(slots: &mut SlotCount) -> (r: bool)
    ensures
        r == (old(slots).used_spec() < old(slots).max_spec()),
        final(slots).used_spec() == after_acquire(old(slots).used_spec(), old(slots).max_spec()),
        final(slots).max_spec() == old(slots).max_spec(),
{
    slots.acquire()
}

/// Gives a decode permit back to `slots`.
pub fn release_permit(slots: &mut SlotCount)
    ensures
        final(slots).used_spec() == after_release(old(slots).used_spec()),
        final(slots).max_spec() == old(slots).max_spec(),
{
    slots.release();
}

/// Taking a permit when one is free and giving it back leaves the count
/// as it was; the count never passes the maximum.
pub proof fn lemma_acquire_release(used: u32, max: u32)
    requires
        used <= max,
    ensures
        used < max ==> after_release(after_acquire(used, max)) == used,
        after_acquire(used, max) <= max,
        after_release(used) <= max,
{
}

} // verus!
