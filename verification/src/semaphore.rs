//! The semaphore: tracks the in-flight count against the controller's limit,
//! keeps suspended callers in a FIFO queue of tickets, and issues
//! single-use [`Permit`]s.
//!
//! The semaphore itself is a pure state machine; it never blocks. A caller that
//! cannot be granted at once takes a ticket and re-checks with
//! [`AimdSemaphore::try_grant`] after every wakeup, so an asynchronous
//! wrapper only has to hold the semaphore under one exclusion domain and notify
//! after every state change that can create capacity. Tickets are issued
//! in increasing order, so the queue is always sorted by arrival and the
//! front of the queue is the earliest waiter.

use crate::aimd::{failure_limit, success_limit, Aimd, AimdConfig, ConfigError, config_error_spec};
use vstd::prelude::*;

verus! {

/// A single-use capability for one unit of granted concurrency.
///
/// Only the semaphore creates permits; a permit is consumed, exactly once, by
/// [`AimdSemaphore::release`]. The type is deliberately not `Clone` or
/// `Copy`, so ownership transfers and never duplicates.
#[derive(Debug)]
#[must_use]
pub struct Permit {
    token: (),
}

/// What an acquire attempt decided.
#[derive(Debug)]
pub enum AcquireOutcome {
    /// Capacity was free and no one was queued ahead: a permit, at once.
    Granted(Permit),
    /// The caller must wait; the ticket marks its place in the FIFO queue.
    Queued(u64),
}

/// Mathematical image of an [`AimdSemaphore`].
pub ghost struct SemView {
    /// The configuration the semaphore was built with.
    pub config: AimdConfig,
    /// The controller's current limit.
    pub limit: int,
    /// Count of live outstanding permits.
    pub acquired: nat,
    /// Tickets of the suspended callers, in arrival order.
    pub queue: Seq<u64>,
    /// The ticket the next queued caller will draw.
    pub next_ticket: u64,
    /// How many permits were ever created.
    pub created: nat,
    /// How many permits were ever released.
    pub released: nat,
}

/// The tickets stand in strictly increasing order: earlier arrivals sit
/// closer to the front.
pub open spec fn tickets_ordered(q: Seq<u64>) -> bool {
    forall|i: int, j: int| 0 <= i < j < q.len() ==> #[trigger] q[i] < #[trigger] q[j]
}

/// Every queued ticket was drawn before `next`.
pub open spec fn tickets_below(q: Seq<u64>, next: u64) -> bool {
    forall|i: int| 0 <= i < q.len() ==> #[trigger] q[i] < next
}

/// `max(0, limit - acquired)`: how many more permits the semaphore could grant.
/// Never negative, even when a shrunken limit leaves the semaphore
/// over-committed.
pub open spec fn available_spec(v: SemView) -> int {
    if v.limit > v.acquired {
        v.limit - v.acquired
    } else {
        0
    }
}

/// A waiter is queued and capacity is free: a wakeup is due.
pub open spec fn can_wake(v: SemView) -> bool {
    v.queue.len() > 0 && v.acquired < v.limit
}

/// An immediate grant is allowed: capacity is free and nobody waits ahead.
pub open spec fn can_grant_now(v: SemView) -> bool {
    v.queue.len() == 0 && v.acquired < v.limit
}

/// Ticket `t` may be granted: it is at the front of the queue and capacity
/// is free.
pub open spec fn grantable(v: SemView, t: u64) -> bool {
    can_wake(v) && v.queue[0] == t
}

/// The semaphore: the AIMD controller, the in-flight count, and the FIFO queue
/// of waiting tickets. All operations are O(1) or O(queue) and
/// non-blocking; the caller serializes access under one exclusion domain.
pub struct AimdSemaphore {
    state: Aimd,
    acquired: u64,
    queue: Vec<u64>,
    next_ticket: u64,
    created: Ghost<nat>,
    released: Ghost<nat>,
}

impl View for AimdSemaphore {
    type V = SemView;

    closed spec fn view(&self) -> SemView {
        SemView {
            config: self.state@.config,
            limit: self.state@.limit,
            acquired: self.acquired as nat,
            queue: self.queue@,
            next_ticket: self.next_ticket,
            created: self.created@,
            released: self.released@,
        }
    }
}

impl AimdSemaphore {
    /// The semaphore's invariant, preserved by every operation:
    /// the limit lies in `[min, max]`; the in-flight count equals the
    /// number of permits created minus the number released; and the queue
    /// holds tickets in arrival order, all drawn before `next_ticket`.
    pub open spec fn inv(&self) -> bool {
        &&& self@.config.wf()
        &&& self@.config.min as int <= self@.limit <= self@.config.max as int
        &&& self@.released <= self@.created
        &&& self@.acquired == self@.created - self@.released
        &&& tickets_ordered(self@.queue)
        &&& tickets_below(self@.queue, self@.next_ticket)
    }

    /// Validates the configuration and builds an idle semaphore whose limit
    /// starts at `max`. An invalid configuration fails construction with
    /// the first violation, and no semaphore is created.
    pub fn new(config: AimdConfig) -> (r: Result<AimdSemaphore, ConfigError>)
        ensures
            r is Ok <==> config.wf(),
            r matches Ok(s) ==> {
                &&& s.inv()
                &&& s@.config == config
                &&& s@.limit == config.max as int
                &&& s@.acquired == 0
                &&& s@.queue.len() == 0
                &&& s@.next_ticket == 0
                &&& s@.created == 0
                &&& s@.released == 0
            },
            r matches Err(e) ==> e == config_error_spec(config),
    {
        match config.validate() {
            Ok(_) => Ok(
                AimdSemaphore {
                    state: Aimd::new(config),
                    acquired: 0,
                    queue: Vec::new(),
                    next_ticket: 0,
                    created: Ghost(0),
                    released: Ghost(0),
                },
            ),
            Err(e) => Err(e),
        }
    }

    /// The controller's current limit.
    pub fn limit(&self) -> (r: u64)
        ensures
            r as int == self@.limit,
    {
        self.state.limit()
    }

    /// `max(0, limit - acquired)`, with saturating subtraction: how many
    /// more permits could be granted right now. Zero, never negative, when
    /// failures have shrunk the limit below the in-flight count.
    pub fn available(&self) -> (r: u64)
        ensures
            r as int == available_spec(self@),
    {
        self.state.limit().saturating_sub(self.acquired)
    }

    /// Count of live outstanding permits.
    pub fn acquired(&self) -> (r: u64)
        ensures
            r as nat == self@.acquired,
    {
        self.acquired
    }

    /// How many callers wait in the queue.
    pub fn waiting(&self) -> (r: usize)
        ensures
            r as nat == self@.queue.len(),
    {
        self.queue.len()
    }

    /// Whether another ticket can still be drawn.
    pub fn can_queue(&self) -> (r: bool)
        ensures
            r == (self@.next_ticket < u64::MAX),
    {
        self.next_ticket < u64::MAX
    }

    /// Reports success to the controller: the limit takes one additive
    /// step up, clamped to `max`, and nothing else changes. A wakeup may
    /// now be due even without a release.
    pub fn success(&mut self)
        requires
            old(self).inv(),
        ensures
            final(self).inv(),
            final(self)@ == (SemView {
                limit: success_limit(old(self)@.limit, old(self)@.config),
                ..old(self)@
            }),
            final(self)@.limit >= old(self)@.limit,
    {
        self.state.success();
    }

    /// Reports failure to the controller: the limit shrinks by the
    /// decrease factor, clamped to `min`, and nothing else changes.
    /// Permits already granted beyond the new limit stay granted.
    pub fn failure(&mut self)
        requires
            old(self).inv(),
        ensures
            final(self).inv(),
            final(self)@ == (SemView {
                limit: failure_limit(old(self)@.limit, old(self)@.config),
                ..old(self)@
            }),
            final(self)@.limit <= old(self)@.limit,
    {
        self.state.failure();
    }

    /// One acquire attempt, made under the exclusion domain. When capacity
    /// is free and nobody is queued ahead, the in-flight count rises by
    /// one and a permit is granted at once; otherwise the caller draws the
    /// next ticket and joins the back of the queue, and the count does not
    /// move.
    pub fn start_acquire(&mut self) -> (r: AcquireOutcome)
        requires
            old(self).inv(),
            old(self)@.next_ticket < u64::MAX,
        ensures
            final(self).inv(),
            can_grant_now(old(self)@) ==> {
                &&& r is Granted
                &&& final(self)@ == (SemView {
                    acquired: old(self)@.acquired + 1,
                    created: old(self)@.created + 1,
                    ..old(self)@
                })
            },
            !can_grant_now(old(self)@) ==> {
                &&& (r matches AcquireOutcome::Queued(t) && t == old(self)@.next_ticket)
                &&& final(self)@ == (SemView {
                    queue: old(self)@.queue.push(old(self)@.next_ticket),
                    next_ticket: (old(self)@.next_ticket + 1) as u64,
                    ..old(self)@
                })
            },
    {
        if self.queue.is_empty() && self.acquired < self.state.limit() {
            self.acquired = self.acquired + 1;
            self.created = Ghost(self.created@ + 1);
            AcquireOutcome::Granted(Permit { token: () })
        } else {
            let t: u64 = self.next_ticket;
            self.next_ticket = self.next_ticket + 1;
            self.queue.push(t);
            proof {
                lemma_push_keeps_order(old(self)@.queue, t, self.next_ticket);
            }
            AcquireOutcome::Queued(t)
        }
    }

    /// One re-check by a woken waiter, under the exclusion domain. The
    /// ticket is granted exactly when it sits at the front of the queue
    /// and capacity is free — so among queued waiters, the earliest is
    /// always granted first. Otherwise nothing changes and the caller
    /// keeps waiting.
    pub fn try_grant(&mut self, ticket: u64) -> (r: Option<Permit>)
        requires
            old(self).inv(),
        ensures
            final(self).inv(),
            grantable(old(self)@, ticket) ==> {
                &&& r is Some
                &&& final(self)@ == (SemView {
                    acquired: old(self)@.acquired + 1,
                    created: old(self)@.created + 1,
                    queue: old(self)@.queue.subrange(1, old(self)@.queue.len() as int),
                    ..old(self)@
                })
            },
            !grantable(old(self)@, ticket) ==> {
                &&& r is None
                &&& final(self)@ == old(self)@
            },
    {
        if !self.queue.is_empty() {
            let front: u64 = self.queue[0];
            if front == ticket && self.acquired < self.state.limit() {
                self.queue.remove(0);
                self.acquired = self.acquired + 1;
                self.created = Ghost(self.created@ + 1);
                proof {
                    lemma_remove_keeps_order(old(self)@.queue, 0, self.next_ticket);
                    assert(old(self)@.queue.remove(0) =~= old(self)@.queue.subrange(
                        1,
                        old(self)@.queue.len() as int,
                    ));
                }
                return Some(Permit { token: () });
            }
        }
        None
    }

    /// Abandons a pending acquire: the ticket leaves the queue, later
    /// waiters keep their order, and the in-flight count is untouched —
    /// no permit is produced and none is leaked. A ticket that is not
    /// queued (already granted, or already cancelled) is a no-op.
    pub fn cancel(&mut self, ticket: u64)
        requires
            old(self).inv(),
        ensures
            final(self).inv(),
            !final(self)@.queue.contains(ticket),
            old(self)@.queue.contains(ticket) ==> exists|i: int|
                0 <= i < old(self)@.queue.len() && old(self)@.queue[i] == ticket
                    && final(self)@ == (SemView {
                    queue: old(self)@.queue.remove(i),
                    ..old(self)@
                }),
            !old(self)@.queue.contains(ticket) ==> final(self)@ == old(self)@,
    {
        match index_of_ticket(&self.queue, ticket) {
            Some(i) => {
                self.queue.remove(i);
                proof {
                    lemma_remove_keeps_order(old(self)@.queue, i as int, self.next_ticket);
                    lemma_removed_ticket_gone(old(self)@.queue, i as int);
                }
            },
            None => {},
        }
    }

    /// Releases a permit: the permit dies here, and the in-flight count
    /// drops by one. The count is guarded so that it can never go
    /// negative; with permits handed out only by this semaphore, the guard is
    /// never hit.
    pub fn release(&mut self, permit: Permit)
        requires
            old(self).inv(),
        ensures
            final(self).inv(),
            old(self)@.acquired > 0 ==> final(self)@ == (SemView {
                acquired: (old(self)@.acquired - 1) as nat,
                released: old(self)@.released + 1,
                ..old(self)@
            }),
            old(self)@.acquired == 0 ==> final(self)@ == old(self)@,
    {
        let Permit { token: _ } = permit;
        if self.acquired > 0 {
            self.acquired = self.acquired - 1;
            self.released = Ghost(self.released@ + 1);
        }
    }

    /// Whether a wakeup is due: a waiter is queued and capacity is free.
    /// An asynchronous wrapper checks this after every release, success or
    /// failure, and notifies the waiters when it holds, so no wakeup is
    /// lost.
    pub fn has_grantable_waiter(&self) -> (r: bool)
        ensures
            r == can_wake(self@),
    {
        !self.queue.is_empty() && self.acquired < self.state.limit()
    }
}

/// Where ticket `t` sits in `q`, or `None` when it is not queued.
fn index_of_ticket(q: &Vec<u64>, ticket: u64) -> (r: Option<usize>)
    ensures
        r matches Some(i) ==> i < q@.len() && q@[i as int] == ticket,
        r is None ==> !q@.contains(ticket),
{
    let mut i: usize = 0;
    while i < q.len()
        invariant
            i <= q@.len(),
            forall|j: int| 0 <= j < i ==> q@[j] != ticket,
        decreases q@.len() - i,
    {
        if q[i] == ticket {
            return Some(i);
        }
        i = i + 1;
    }
    None
}

/// Appending a fresh ticket, larger than everything queued, keeps the
/// queue in arrival order.
proof fn lemma_push_keeps_order(q: Seq<u64>, t: u64, next: u64)
    requires
        tickets_ordered(q),
        tickets_below(q, t),
        t < next,
    ensures
        tickets_ordered(q.push(t)),
        tickets_below(q.push(t), next),
{
    let p = q.push(t);
    assert forall|i: int, j: int| 0 <= i < j < p.len() implies #[trigger] p[i] < #[trigger] p[j] by {
        if j < q.len() {
            assert(q[i] < q[j]);
        } else {
            assert(p[j] == t);
            assert(p[i] == q[i]);
        }
    }
    assert forall|i: int| 0 <= i < p.len() implies #[trigger] p[i] < next by {
        if i < q.len() {
            assert(p[i] == q[i]);
        } else {
            assert(p[i] == t);
        }
    }
}

/// Removing any ticket keeps the remaining queue in arrival order.
proof fn lemma_remove_keeps_order(q: Seq<u64>, at: int, next: u64)
    requires
        tickets_ordered(q),
        tickets_below(q, next),
        0 <= at < q.len(),
    ensures
        tickets_ordered(q.remove(at)),
        tickets_below(q.remove(at), next),
{
    let p = q.remove(at);
    assert forall|i: int, j: int| 0 <= i < j < p.len() implies #[trigger] p[i] < #[trigger] p[j] by {
        if i < at {
            assert(p[i] == q[i]);
        } else {
            assert(p[i] == q[i + 1]);
        }
        if j < at {
            assert(p[j] == q[j]);
        } else {
            assert(p[j] == q[j + 1]);
        }
    }
    assert forall|i: int| 0 <= i < p.len() implies #[trigger] p[i] < next by {
        if i < at {
            assert(p[i] == q[i]);
        } else {
            assert(p[i] == q[i + 1]);
        }
    }
}

/// Tickets are unique in an ordered queue, so removing one removes its
/// only occurrence.
proof fn lemma_removed_ticket_gone(q: Seq<u64>, at: int)
    requires
        tickets_ordered(q),
        0 <= at < q.len(),
    ensures
        !q.remove(at).contains(q[at]),
{
    let p = q.remove(at);
    assert forall|k: int| 0 <= k < p.len() implies #[trigger] p[k] != q[at] by {
        if k < at {
            assert(p[k] == q[k]);
            assert(q[k] < q[at]);
        } else {
            assert(p[k] == q[k + 1]);
            assert(q[at] < q[k + 1]);
        }
    }
}

/// The balance law: at every instant observed under the exclusion domain,
/// the in-flight count equals the number of permits created minus the
/// number released, and it is never negative.
pub proof fn lemma_permit_balance(s: &AimdSemaphore)
    requires
        s.inv(),
    ensures
        s@.released <= s@.created,
        s@.acquired == s@.created - s@.released,
        s@.acquired >= 0,
{
}

/// The bounds law: the limit always lies in `[min, max]`.
pub proof fn lemma_limit_in_bounds(s: &AimdSemaphore)
    requires
        s.inv(),
    ensures
        s@.config.min as int <= s@.limit <= s@.config.max as int,
{
}

/// The FIFO law: whenever a ticket may be granted, it is the front of the
/// queue, and no queued waiter arrived before it — with one slot free, the
/// earliest-queued waiter is granted first.
pub proof fn lemma_fifo_earliest_granted(s: &AimdSemaphore, t: u64)
    requires
        s.inv(),
        grantable(s@, t),
    ensures
        t == s@.queue[0],
        forall|j: int| 0 <= j < s@.queue.len() ==> t <= #[trigger] s@.queue[j],
{
    assert forall|j: int| 0 <= j < s@.queue.len() implies t <= #[trigger] s@.queue[j] by {
        if j > 0 {
            assert(s@.queue[0] < s@.queue[j]);
        }
    }
}

} // verus!
