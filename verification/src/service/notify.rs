//! Recurring notifications: a timer that is due every `interval`
//! milliseconds from its registration on.

use vstd::prelude::*;

verus! {

/// One recurring notification.
#[derive(Debug, Clone, Copy, PartialEq, Eq, Structural)]
pub struct NotifySchedule {
    /// The token that the handler is given.
    pub token: u64,
    /// Milliseconds between two notifications; at least 1.
    pub interval: u64,
    /// When the next notification is due, in milliseconds; `None` once the
    /// clock cannot express it.
    pub next_due: Option<u64>,
}

/// How many notifications with first due time `next_due` and the given
/// interval are due at `now`.
pub open spec fn due_count(next_due: u64, interval: u64, now: u64) -> nat {
    if now < next_due {
        0
    } else {
        (1 + (now - next_due) / interval as int) as nat
    }
}

impl NotifySchedule {
    /// The interval is positive, and so is the time at which the next
    /// notification is due.
    pub open spec fn wf(self) -> bool {
        &&& self.interval >= 1
        &&& self.next_due matches Some(due) ==> due >= 1
    }

    /// What is due at `now`.
    pub open spec fn spec_due(self, now: u64) -> nat {
        match self.next_due {
            Some(due) => due_count(due, self.interval, now),
            None => 0,
        }
    }

    /// The schedule once what is due at `now` has been delivered.
    pub open spec fn spec_after(self, now: u64) -> NotifySchedule {
        match self.next_due {
            Some(due) => {
                let then = due + due_count(due, self.interval, now) * self.interval;
                NotifySchedule {
                    token: self.token,
                    interval: self.interval,
                    next_due: if then <= u64::MAX {
                        Some(then as u64)
                    } else {
                        None
                    },
                }
            },
            None => self,
        }
    }

    /// A notification registered at `now`: first due one interval later.
    /// There is no schedule with an interval of zero.
    pub fn new(token: u64, interval: u64, now: u64) -> (s: Option<NotifySchedule>)
        ensures
            s == if interval == 0 {
                None
            } else {
                Some(
                    NotifySchedule {
                        token,
                        interval,
                        next_due: if now + interval <= u64::MAX {
                            Some((now + interval) as u64)
                        } else {
                            None
                        },
                    },
                )
            },
            s matches Some(schedule) ==> schedule.wf(),
    {
        if interval == 0 {
            None
        } else {
            Some(NotifySchedule { token, interval, next_due: now.checked_add(interval) })
        }
    }

    /// Says how many notifications are due at `now`, and moves the
    /// schedule past them.
    pub fn poll(&mut self, now: u64) -> (count: u64)
        requires
            old(self).wf(),
        ensures
            final(self).wf(),
            count == old(self).spec_due(now),
            *final(self) == old(self).spec_after(now),
    {
        match self.next_due {
            None => 0,
            Some(due) => {
                if now < due {
                    assert(due + 0 * self.interval == due) by (nonlinear_arith);
                    0
                } else {
                    let passed = (now - due) / self.interval;
                    assert(passed <= now - due) by (nonlinear_arith)
                        requires
                            passed == (now - due) as int / self.interval as int,
                            self.interval >= 1,
                            now >= due,
                    ;
                    assert(passed * self.interval <= now - due) by (nonlinear_arith)
                        requires
                            passed == (now - due) as int / self.interval as int,
                            self.interval >= 1,
                            now >= due,
                    ;
                    let covered = passed * self.interval;
                    let last = due + covered;
                    assert(due + (1 + passed) * self.interval == last + self.interval)
                        by (nonlinear_arith)
                        requires
                            last == due + passed * self.interval,
                    ;
                    self.next_due = last.checked_add(self.interval);
                    passed + 1
                }
            },
        }
    }
}

/// A notification registered with interval `interval` has been due at
/// least `k` times once `k` intervals have passed since its registration.
pub proof fn lemma_due_at_least(registered: u64, interval: u64, now: u64, k: nat)
    requires
        interval >= 1,
        registered + interval <= u64::MAX,
        now >= registered + k * interval,
    ensures
        due_count((registered + interval) as u64, interval, now) >= k,
{
    if k > 0 {
        let due = (registered + interval) as u64;
        assert(now - due >= (k - 1) * interval) by (nonlinear_arith)
            requires
                now >= registered + k * interval,
                due == registered + interval,
        ;
        assert((now - due) / interval as int >= k - 1) by (nonlinear_arith)
            requires
                now - due >= (k - 1) * interval,
                interval >= 1,
        ;
    }
}

} // verus!
