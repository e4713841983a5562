//! The vocabulary between the service and its users, and the rules of the
//! service that need no input or output to be stated.

use vstd::prelude::*;
use std::collections::VecDeque;
use crate::error::Error;
use crate::service::event::ServiceTask;
use crate::SessionId;

pub mod config;
pub mod event;
pub mod notify;

verus! {

/// Hands out session ids in increasing order, each at most once.
#[derive(Debug, PartialEq, Eq)]
pub struct SessionIds {
    /// The id that is handed out next.
    pub next: usize,
}

impl SessionIds {
    /// A source of ids that starts at 1.
    pub fn new() -> (ids: SessionIds)
        ensures
            ids.next == 1,
    {
        SessionIds { next: 1 }
    }

    /// The id for a new session: greater than every id handed out before.
    /// There is none once the ids are used up.
    pub fn assign(&mut self) -> (id: Option<SessionId>)
        ensures
            match id {
                Some(id) => id.0 == old(self).next && final(self).next == old(self).next + 1,
                None => old(self).next == usize::MAX && final(self).next == usize::MAX,
            },
    {
        if self.next == usize::MAX {
            None
        } else {
            let id = SessionId(self.next);
            self.next = self.next + 1;
            Some(id)
        }
    }
}

/// The ids that `count` requests get from a source whose next id is
/// `next`, as far as the ids last.
pub open spec fn assigned(next: usize, count: nat) -> Seq<SessionId>
    decreases count,
{
    if count == 0 || next == usize::MAX {
        Seq::empty()
    } else {
        seq![SessionId(next)] + assigned((next + 1) as usize, (count - 1) as nat)
    }
}

/// An id, once assigned, is never assigned again: the ids that a source
/// hands out are strictly increasing.
pub proof fn lemma_ids_never_reused(next: usize, count: nat)
    ensures
        forall|i: int, j: int|
            0 <= i < j < assigned(next, count).len() ==> (#[trigger] assigned(next, count)[i]).0
                < (#[trigger] assigned(next, count)[j]).0,
        forall|i: int|
            0 <= i < assigned(next, count).len() ==> (#[trigger] assigned(next, count)[i]).0
                >= next,
    decreases count,
{
    if count == 0 || next == usize::MAX {
    } else {
        let rest = assigned((next + 1) as usize, (count - 1) as nat);
        lemma_ids_never_reused((next + 1) as usize, (count - 1) as nat);
        let all = assigned(next, count);
        assert forall|i: int, j: int| 0 <= i < j < all.len() implies (#[trigger] all[i]).0 < (
        #[trigger] all[j]).0 by {
            assert(all[j] == rest[j - 1]);
            if i > 0 {
                assert(all[i] == rest[i - 1]);
            }
        }
        assert forall|i: int| 0 <= i < all.len() implies (#[trigger] all[i]).0 >= next by {
            if i > 0 {
                assert(all[i] == rest[i - 1]);
            }
        }
    }
}

/// The tasks that wait for the service. They are served in the order in
/// which they were submitted, and no more than `capacity` of them wait at
/// any time.
pub struct TaskQueue {
    pub tasks: VecDeque<ServiceTask>,
    pub capacity: usize,
}

impl TaskQueue {
    /// No more tasks wait than the queue has room for.
    pub open spec fn wf(self) -> bool {
        self.tasks@.len() <= self.capacity
    }

    /// An empty queue with room for `capacity` tasks.
    pub fn new(capacity: usize) -> (q: TaskQueue)
        ensures
            q.wf(),
            q.capacity == capacity,
            q.tasks@.len() == 0,
    {
        TaskQueue { tasks: VecDeque::new(), capacity }
    }

    /// Submits a task. It goes behind the tasks that wait; if the queue is
    /// full it is handed back in the error.
    pub fn submit(&mut self, task: ServiceTask) -> (r: Result<(), Error<ServiceTask>>)
        requires
            old(self).wf(),
        ensures
            final(self).wf(),
            final(self).capacity == old(self).capacity,
            old(self).tasks@.len() < old(self).capacity ==> r is Ok && final(self).tasks@ == old(
                self,
            ).tasks@.push(task),
            old(self).tasks@.len() >= old(self).capacity ==> r == Err::<(), Error<ServiceTask>>(
                Error::TaskFull(task),
            ) && final(self).tasks@ == old(self).tasks@,
    {
        if self.tasks.len() < self.capacity {
            self.tasks.push_back(task);
            Ok(())
        } else {
            Err(Error::TaskFull(task))
        }
    }

    /// Takes the task that has waited longest, if any waits.
    pub fn next(&mut self) -> (r: Option<ServiceTask>)
        requires
            old(self).wf(),
        ensures
            final(self).wf(),
            final(self).capacity == old(self).capacity,
            match r {
                Some(task) => {
                    &&& old(self).tasks@.len() > 0
                    &&& task == old(self).tasks@[0]
                    &&& final(self).tasks@ == old(self).tasks@.drop_first()
                },
                None => old(self).tasks@.len() == 0 && final(self).tasks@ == old(self).tasks@,
            },
    {
        self.tasks.pop_front()
    }
}

/// Where a service is in its life.
#[derive(Debug, Clone, Copy, PartialEq, Eq, Structural)]
pub enum ServiceState {
    /// The service is being put together.
    Building,
    /// The service runs.
    Running,
    /// The service has been told to stop and winds down.
    ShuttingDown,
    /// The service is over.
    Stopped,
}

/// What a service still has to look after.
#[derive(Debug, Clone, Copy, PartialEq, Eq, Structural)]
pub struct Load {
    pub sessions: usize,
    pub listeners: usize,
    pub pending_tasks: usize,
    pub futures: usize,
}

impl Load {
    /// Nothing is left: no session, no listener, no pending task, no
    /// future.
    pub open spec fn spec_is_empty(self) -> bool {
        self.sessions == 0 && self.listeners == 0 && self.pending_tasks == 0 && self.futures == 0
    }

    /// Whether nothing is left.
    pub fn is_empty(&self) -> (r: bool)
        ensures
            r == self.spec_is_empty(),
    {
        self.sessions == 0 && self.listeners == 0 && self.pending_tasks == 0 && self.futures == 0
    }
}

impl ServiceState {
    /// The state after a tick that found `load`. A running service stops
    /// when nothing is left, unless it runs forever; a service that winds
    /// down stops when nothing is left.
    pub open spec fn spec_after_tick(self, forever: bool, load: Load) -> ServiceState {
        match self {
            ServiceState::Running => if !forever && load.spec_is_empty() {
                ServiceState::Stopped
            } else {
                ServiceState::Running
            },
            ServiceState::ShuttingDown => if load.spec_is_empty() {
                ServiceState::Stopped
            } else {
                ServiceState::ShuttingDown
            },
            _ => self,
        }
    }

    /// A built service starts to run.
    pub fn start(self) -> (next: ServiceState)
        ensures
            next == if self == ServiceState::Building {
                ServiceState::Running
            } else {
                self
            },
    {
        match self {
            ServiceState::Building => ServiceState::Running,
            _ => self,
        }
    }

    /// A running service is told to stop.
    pub fn shutdown(self) -> (next: ServiceState)
        ensures
            next == if self == ServiceState::Running {
                ServiceState::ShuttingDown
            } else {
                self
            },
    {
        match self {
            ServiceState::Running => ServiceState::ShuttingDown,
            _ => self,
        }
    }

    /// The state after a tick that found `load`.
    pub fn after_tick(self, forever: bool, load: &Load) -> (next: ServiceState)
        ensures
            next == self.spec_after_tick(forever, *load),
    {
        match self {
            ServiceState::Running => if !forever && load.is_empty() {
                ServiceState::Stopped
            } else {
                ServiceState::Running
            },
            ServiceState::ShuttingDown => if load.is_empty() {
                ServiceState::Stopped
            } else {
                ServiceState::ShuttingDown
            },
            _ => self,
        }
    }
}

/// A service that runs forever never stops of itself.
pub proof fn lemma_forever_keeps_running(load: Load)
    ensures
        ServiceState::Running.spec_after_tick(true, load) == ServiceState::Running,
{
}

} // verus!
