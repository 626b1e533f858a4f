//! A constant-period loop.
use vstd::prelude::*;

use crate::context::{Runtime, RuntimeView};
use crate::select::Selectable;
use crate::sleep::{GenericSleep, SleepAction};

verus! {

/// A loop that runs once every period, without drift: each cycle is due one
/// period after the previous one was due, not after it ran.
pub struct Loop {
    last_time: u64,
    delta: u64,
}

impl Loop {
    /// The instant the last cycle was due.
    pub closed spec fn last(&self) -> u64 {
        self.last_time
    }

    /// The period.
    pub closed spec fn period(&self) -> u64 {
        self.delta
    }

    /// The instant the next cycle is due, if it is representable.
    pub open spec fn due(&self) -> Option<u64> {
        if self.last() + self.period() <= u64::MAX {
            Some((self.last() + self.period()) as u64)
        } else {
            None
        }
    }

    /// A loop with period `delta`, its first cycle due one period after `now`.
    pub fn new(delta: u64, now: u64) -> (r: Loop)
        ensures
            r.last() == now,
            r.period() == delta,
    {
        Loop { last_time: now, delta }
    }

    /// Moves on to the next cycle and returns the blocking call that waits
    /// for it, the clock reading `now`.
    pub fn delay(&mut self, now: u64) -> (r: SleepAction)
        requires
            old(self).last() + old(self).period() <= u64::MAX,
        ensures
            final(self).period() == old(self).period(),
            final(self).last() == old(self).last() + old(self).period(),
            r == GenericSleep::Timestamp(final(self).last()).spec_action(now),
    {
        self.last_time = self.last_time + self.delta;
        GenericSleep::Timestamp(self.last_time).action(now)
    }

    /// Moves on to the next cycle if it is due at `now`; returns whether it
    /// was.
    pub fn tick(&mut self, now: u64) -> (r: bool)
        ensures
            r == (old(self).due() is Some && old(self).due()->0 <= now),
            final(self).period() == old(self).period(),
            final(self).last() == if r {
                old(self).due()->0
            } else {
                old(self).last()
            },
    {
        match self.last_time.checked_add(self.delta) {
            Some(t) => {
                if t <= now {
                    self.last_time = t;
                    true
                } else {
                    false
                }
            },
            None => false,
        }
    }

    /// The event that occurs when the next cycle is due.
    pub fn next<'a>(&'a mut self) -> (r: LoopSelect<'a>)
        ensures
            r.state() == *old(self),
            *final(self) == *final(r.lp),
    {
        LoopSelect { lp: self }
    }
}

/// The event that occurs when the next cycle of a [`Loop`] is due. Polling it
/// when it is ready moves the loop on by one period.
pub struct LoopSelect<'a> {
    /// The loop whose next cycle is awaited.
    pub lp: &'a mut Loop,
}

impl<'a> LoopSelect<'a> {
    /// The loop, as it stands.
    pub closed spec fn state(&self) -> Loop {
        *self.lp
    }
}

impl<'a> Selectable<()> for LoopSelect<'a> {
    open spec fn ready(&self, rt: RuntimeView) -> bool {
        self.state().due() is Some && self.state().due()->0 <= rt.now
    }

    open spec fn produces(&self, rt: RuntimeView, t: ()) -> bool {
        true
    }

    /// Only the loop moves on; the runtime is untouched.
    open spec fn completed(&self, rt: RuntimeView) -> RuntimeView {
        rt
    }

    /// The event holds no registration.
    open spec fn released(&self, rt: RuntimeView) -> RuntimeView {
        rt
    }

    open spec fn spec_sleep(&self, rt: RuntimeView) -> GenericSleep {
        GenericSleep::Timestamp(
            match self.state().due() {
                Some(t) => t,
                None => u64::MAX,
            },
        )
    }

    /// Completing moves the loop on by one period, through [`Loop::tick`].
    fn poll(self, rt: &mut Runtime) -> (r: Result<(), Self>)
        ensures
            r is Ok ==> final(self.lp).last() == self.state().due()->0
                && final(self.lp).period() == self.state().period(),
    {
        let due = match self.lp.last_time.checked_add(self.lp.delta) {
            Some(t) => t <= rt.now(),
            None => false,
        };
        if due {
            self.lp.tick(rt.now());
            Ok(())
        } else {
            Err(self)
        }
    }

    fn sleep(&self, rt: &Runtime) -> (r: GenericSleep) {
        GenericSleep::Timestamp(self.lp.last_time.saturating_add(self.lp.delta))
    }

    fn release(self, rt: &mut Runtime) {
    }
}

} // verus!
