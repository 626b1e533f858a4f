//! The sleep-time algebra: what a waiting task blocks on, and until when.
use vstd::prelude::*;

verus! {

/// The timeout value that makes a notification wait unbounded.
pub const TIMEOUT_MAX: u32 = 0xffff_ffff;

/// A future instant to sleep until. All times are milliseconds since system
/// start.
#[derive(Clone, Copy, Debug, PartialEq, Eq, Structural)]
pub enum GenericSleep {
    /// Ready when the task's notification count becomes nonzero, and no later
    /// than the deadline, if there is one.
    NotifyTake(Option<u64>),
    /// Ready at an explicit timestamp.
    Timestamp(u64),
}

/// The blocking primitive a task calls to carry out a [`GenericSleep`].
#[derive(Clone, Copy, Debug, PartialEq, Eq, Structural)]
pub enum SleepAction {
    /// Block on the task's own notification counter for at most `timeout`
    /// milliseconds; [`TIMEOUT_MAX`] means without bound.
    NotifyTake { timeout: u32 },
    /// Delay the task for this many milliseconds.
    Delay { millis: u64 },
    /// The instant has already passed: do not block.
    Proceed,
}

/// The smaller of two optional deadlines, where an absent deadline is
/// infinitely late.
pub open spec fn earliest(a: Option<u64>, b: Option<u64>) -> Option<u64> {
    match (a, b) {
        (None, _) => b,
        (_, None) => a,
        (Some(x), Some(y)) => Some(if x <= y { x } else { y }),
    }
}

impl GenericSleep {
    /// The latest instant at which the sleep ends; `None` when only a
    /// notification can end it.
    pub open spec fn wake_time(self) -> Option<u64> {
        match self {
            GenericSleep::NotifyTake(d) => d,
            GenericSleep::Timestamp(t) => Some(t),
        }
    }

    /// The earlier of two sleeps. Two timestamps give a timestamp; as soon as
    /// one side waits for a notification, so does the result.
    pub open spec fn spec_combine(self, other: Self) -> Self {
        match (self, other) {
            (GenericSleep::Timestamp(a), GenericSleep::Timestamp(b)) => GenericSleep::Timestamp(
                if a <= b { a } else { b },
            ),
            _ => GenericSleep::NotifyTake(earliest(self.wake_time(), other.wake_time())),
        }
    }

    /// What blocking call ends this sleep, when the clock reads `now`.
    pub open spec fn spec_action(self, now: u64) -> SleepAction {
        match self {
            GenericSleep::NotifyTake(None) => SleepAction::NotifyTake { timeout: TIMEOUT_MAX },
            GenericSleep::NotifyTake(Some(d)) => SleepAction::NotifyTake {
                timeout: if d <= now {
                    0
                } else if d - now < TIMEOUT_MAX {
                    (d - now) as u32
                } else {
                    (TIMEOUT_MAX - 1) as u32
                },
            },
            GenericSleep::Timestamp(t) => if now <= t {
                SleepAction::Delay { millis: (t - now) as u64 }
            } else {
                SleepAction::Proceed
            },
        }
    }

    /// The timestamp represented by `self`, if there is one.
    pub fn timeout(self) -> (r: Option<u64>)
        ensures
            r == self.wake_time(),
    {
        match self {
            GenericSleep::NotifyTake(v) => v,
            GenericSleep::Timestamp(v) => Some(v),
        }
    }

    /// Combines two sleeps into one that ends at the earlier of the two.
    pub fn combine(self, other: Self) -> (r: Self)
        ensures
            r == self.spec_combine(other),
    {
        match (self, other) {
            (GenericSleep::Timestamp(a), GenericSleep::Timestamp(b)) => {
                GenericSleep::Timestamp(if a <= b { a } else { b })
            },
            (a, b) => {
                let d = match (a.timeout(), b.timeout()) {
                    (None, y) => y,
                    (x, None) => x,
                    (Some(x), Some(y)) => Some(if x <= y { x } else { y }),
                };
                GenericSleep::NotifyTake(d)
            },
        }
    }

    /// The blocking call that carries out this sleep when the clock reads
    /// `now`: a bounded or unbounded notification wait, a delay, or nothing
    /// when the instant has passed. A finite timeout too long for the counter
    /// is cut to the longest finite one.
    pub fn action(self, now: u64) -> (r: SleepAction)
        ensures
            r == self.spec_action(now),
    {
        match self {
            GenericSleep::NotifyTake(None) => SleepAction::NotifyTake { timeout: TIMEOUT_MAX },
            GenericSleep::NotifyTake(Some(d)) => {
                let timeout: u32 = if d <= now {
                    0
                } else if d - now < TIMEOUT_MAX as u64 {
                    (d - now) as u32
                } else {
                    TIMEOUT_MAX - 1
                };
                SleepAction::NotifyTake { timeout }
            },
            GenericSleep::Timestamp(t) => {
                if now <= t {
                    SleepAction::Delay { millis: t - now }
                } else {
                    SleepAction::Proceed
                }
            },
        }
    }
}

/// Combining is symmetric, and the combined sleep never ends later than the
/// earlier of the two it was made from.
pub proof fn lemma_combine_commutative_earliest(a: GenericSleep, b: GenericSleep)
    ensures
        a.spec_combine(b) == b.spec_combine(a),
        a.spec_combine(b).wake_time() == earliest(a.wake_time(), b.wake_time()),
        a.wake_time() is Some ==> a.spec_combine(b).wake_time()->0 <= a.wake_time()->0,
        b.wake_time() is Some ==> a.spec_combine(b).wake_time()->0 <= b.wake_time()->0,
{
}

/// Combining is associative.
pub proof fn lemma_combine_associative(a: GenericSleep, b: GenericSleep, c: GenericSleep)
    ensures
        a.spec_combine(b).spec_combine(c) == a.spec_combine(b.spec_combine(c)),
{
}

/// Once either side waits for a notification, so does the combination: it is
/// never reduced to a plain timestamp.
pub proof fn lemma_combine_keeps_notify(a: GenericSleep, b: GenericSleep)
    requires
        a is NotifyTake || b is NotifyTake,
    ensures
        a.spec_combine(b) is NotifyTake,
{
}

} // verus!
