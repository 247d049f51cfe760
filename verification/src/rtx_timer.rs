//! The retransmission timer: when to retransmit, and when to give up.

use crate::rto::{backed_off, calculate_next_timeout, law_backoff_in_numbers};
use vstd::arithmetic::power2::{lemma2_to64, pow2};
use vstd::prelude::*;

verus! {

/// Which exchange a timer guards.
#[derive(Clone, Copy, Debug, PartialEq, Eq, Structural)]
pub enum RtxTimerId {
    T1Init,
    T1Cookie,
    T2Shutdown,
    T3RTX,
}

/// A retransmission timer. With `max_retrans` at zero it retransmits until it is stopped and
/// never fails.
#[derive(Clone, Copy, Debug, PartialEq, Eq, Structural)]
pub struct RtxTimer {
    id: RtxTimerId,
    max_retrans: usize,
    running: bool,
}

/// One run of a timer, from its start to its end.
#[derive(Clone, Copy, Debug, PartialEq, Eq, Structural)]
pub struct RtxRun {
    id: RtxTimerId,
    max_retrans: usize,
    rto: u64,
    n_rtos: usize,
}

/// What a run waits for.
#[derive(Clone, Copy, Debug, PartialEq, Eq, Structural)]
pub enum RtxEvent {
    /// The interval has passed, with the observer still there to be told or not.
    Expired { observer_alive: bool },
    /// The timer was stopped.
    Closed,
}

/// What a run does next.
#[derive(Clone, Copy, Debug, PartialEq, Eq, Structural)]
pub enum RtxAction {
    /// Tell the observer of the `n`-th timeout in a row, and wait again.
    Timeout { id: RtxTimerId, n: usize },
    /// Tell the observer that retransmission failed, and end, with the timer no longer running.
    Failure { id: RtxTimerId },
    /// End, with the timer no longer running.
    Abandon,
    /// End; the timer is stopped already.
    Close,
}

/// What the `n`-th expiry in a row leads to.
pub open spec fn on_expiry(
    id: RtxTimerId,
    max_retrans: usize,
    n: usize,
    observer_alive: bool,
) -> RtxAction {
    if !observer_alive {
        RtxAction::Abandon
    } else if max_retrans == 0 || n <= max_retrans {
        RtxAction::Timeout { id, n }
    } else {
        RtxAction::Failure { id }
    }
}

/// The run goes on after this action.
pub open spec fn goes_on(action: RtxAction) -> bool {
    action is Timeout
}

/// The run's end clears the timer.
pub open spec fn clears(action: RtxAction) -> bool {
    action is Failure || action is Abandon
}

impl RtxTimer {
    pub closed spec fn spec_id(self) -> RtxTimerId {
        self.id
    }

    pub closed spec fn max(self) -> usize {
        self.max_retrans
    }

    pub closed spec fn runs(self) -> bool {
        self.running
    }

    /// A timer that is not running.
    pub fn new(id: RtxTimerId, max_retrans: usize) -> (r: RtxTimer)
        ensures
            r.spec_id() == id,
            r.max() == max_retrans,
            !r.runs(),
    {
        RtxTimer { id, max_retrans, running: false }
    }

    /// Starts the timer, unless it is running. The timeout is taken as it is given, below the
    /// least one too.
    pub fn start(&mut self, rto: u64) -> (r: Option<RtxRun>)
        ensures
            final(self).spec_id() == old(self).spec_id(),
            final(self).max() == old(self).max(),
            final(self).runs(),
            r is Some == !old(self).runs(),
            r matches Some(run) ==> {
                &&& run.spec_id() == old(self).spec_id()
                &&& run.max() == old(self).max()
                &&& run.spec_rto() == rto
                &&& run.count() == 0
            },
    {
        if self.running {
            return None;
        }
        self.running = true;
        Some(RtxRun { id: self.id, max_retrans: self.max_retrans, rto, n_rtos: 0 })
    }

    pub fn stop(&mut self)
        ensures
            final(self).spec_id() == old(self).spec_id(),
            final(self).max() == old(self).max(),
            !final(self).runs(),
    {
        self.running = false;
    }

    pub fn is_running(&self) -> (r: bool)
        ensures
            r == self.runs(),
    {
        self.running
    }

    /// Takes note of what a run did, and tells whether the run goes on.
    pub fn acted(&mut self, action: RtxAction) -> (r: bool)
        ensures
            final(self).spec_id() == old(self).spec_id(),
            final(self).max() == old(self).max(),
            final(self).runs() == (old(self).runs() && !clears(action)),
            r == goes_on(action),
            match action {
                RtxAction::Timeout { .. } => r && final(self).runs() == old(self).runs(),
                RtxAction::Failure { .. } => !r && !final(self).runs(),
                RtxAction::Abandon => !r && !final(self).runs(),
                RtxAction::Close => !r && final(self).runs() == old(self).runs(),
            },
    {
        match action {
            RtxAction::Timeout { .. } => true,
            RtxAction::Failure { .. } | RtxAction::Abandon => {
                self.running = false;
                false
            },
            RtxAction::Close => false,
        }
    }
}

impl RtxRun {
    pub closed spec fn spec_id(self) -> RtxTimerId {
        self.id
    }

    pub closed spec fn max(self) -> usize {
        self.max_retrans
    }

    pub closed spec fn spec_rto(self) -> u64 {
        self.rto
    }

    /// How often the interval has passed.
    pub closed spec fn count(self) -> usize {
        self.n_rtos
    }

    /// How often the interval has passed.
    pub fn expiries(&self) -> (r: usize)
        ensures
            r == self.count(),
    {
        self.n_rtos
    }

    /// How long to wait now, in milliseconds: the timeout, doubled for each time it has passed.
    pub fn interval(&self) -> (r: u64)
        ensures
            r == backed_off(self.spec_rto(), self.count() as nat),
    {
        calculate_next_timeout(self.rto, self.n_rtos)
    }

    /// Takes what came first, the interval's end or the timer's stop.
    pub fn step(&mut self, event: RtxEvent) -> (r: RtxAction)
        requires
            event is Expired ==> old(self).count() < usize::MAX,
        ensures
            final(self).spec_id() == old(self).spec_id(),
            final(self).max() == old(self).max(),
            final(self).spec_rto() == old(self).spec_rto(),
            match event {
                RtxEvent::Expired { observer_alive } => {
                    &&& final(self).count() == old(self).count() + 1
                    &&& r == on_expiry(
                        old(self).spec_id(),
                        old(self).max(),
                        final(self).count(),
                        observer_alive,
                    )
                    &&& !observer_alive ==> r is Abandon
                    &&& observer_alive && (old(self).max() == 0 || old(self).count()
                        < old(self).max()) ==> r == (RtxAction::Timeout {
                        id: old(self).spec_id(),
                        n: final(self).count(),
                    })
                    &&& observer_alive && old(self).max() != 0 && old(self).count()
                        >= old(self).max() ==> r == (RtxAction::Failure {
                        id: old(self).spec_id(),
                    })
                },
                RtxEvent::Closed => {
                    &&& *final(self) == *old(self)
                    &&& r is Close
                },
            },
    {
        match event {
            RtxEvent::Expired { observer_alive } => {
                self.n_rtos = self.n_rtos + 1;
                if !observer_alive {
                    RtxAction::Abandon
                } else if self.max_retrans == 0 || self.n_rtos <= self.max_retrans {
                    RtxAction::Timeout { id: self.id, n: self.n_rtos }
                } else {
                    RtxAction::Failure { id: self.id }
                }
            },
            RtxEvent::Closed => RtxAction::Close,
        }
    }
}

/// An observer that stays is told of exactly the first `max_retrans` timeouts, counted from one,
/// and then of the failure, which ends the run.
pub proof fn law_failure_after_the_last_retransmission(
    id: RtxTimerId,
    max_retrans: usize,
    n: usize,
)
    requires
        max_retrans > 0,
    ensures
        n <= max_retrans ==> on_expiry(id, max_retrans, n, true) == (RtxAction::Timeout { id, n }),
        n > max_retrans ==> on_expiry(id, max_retrans, n, true) == (RtxAction::Failure { id }),
        goes_on(on_expiry(id, max_retrans, n, true)) <==> n <= max_retrans,
{
}

/// Without a maximum there is no failure: the run goes on for as long as the observer is there.
pub proof fn law_no_failure_without_a_maximum(id: RtxTimerId, n: usize, observer_alive: bool)
    ensures
        !(on_expiry(id, 0, n, observer_alive) is Failure),
        goes_on(on_expiry(id, 0, n, observer_alive)) <==> observer_alive,
{
}

/// A run whose observer is gone is given up, however often it expired and whatever the maximum.
pub proof fn law_run_without_observer_is_given_up(id: RtxTimerId, max_retrans: usize, n: usize)
    ensures
        on_expiry(id, max_retrans, n, false) is Abandon,
        clears(on_expiry(id, max_retrans, n, false)),
        !goes_on(on_expiry(id, max_retrans, n, false)),
{
}

/// A timer runs on after a timeout alone, and no longer runs after a failure or once it is given
/// up.
pub proof fn law_what_ends_a_run(action: RtxAction)
    ensures
        goes_on(action) <==> action is Timeout,
        clears(action) <==> action is Failure || action is Abandon,
        !(goes_on(action) && clears(action)),
{
}

/// A run first waits for its timeout, and then twice as long each time, for 60 seconds at most.
pub proof fn law_interval_doubles(run: &RtxRun, r: u64)
    requires
        call_ensures(RtxRun::interval, (run,), r),
    ensures
        r <= 60000,
        run.count() == 0 && run.spec_rto() <= 60000 ==> r == run.spec_rto(),
        run.count() < 31 && run.spec_rto() * pow2(run.count() as nat) <= 60000 ==> r
            == run.spec_rto() * pow2(run.count() as nat),
        run.count() < 31 && 60000 < run.spec_rto() * pow2(run.count() as nat)
            < 0x1_0000_0000_0000_0000 ==> r == 60000,
        run.count() >= 31 ==> r == 60000,
{
    lemma2_to64();
    law_backoff_in_numbers(run.spec_rto(), run.count() as nat);
    assert(run.spec_rto() * pow2(run.count() as nat) >= 0) by (nonlinear_arith);
    assert(run.count() == 0 ==> run.spec_rto() * pow2(run.count() as nat) == run.spec_rto())
        by (nonlinear_arith)
        requires
            pow2(0) == 1,
    ;
}

} // verus!
