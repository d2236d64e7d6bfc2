//! The two-phase shutdown of the child.
//!
//! A shutdown first asks the child to stop, then waits a bounded time for
//! the child's acknowledgement or exit, and then kills and reaps the child
//! whether or not it answered. The coordinator decides each step; the host
//! performs it. Only the first request starts a shutdown, so the child is
//! asked once and killed once however often a shutdown is requested.

use vstd::prelude::*;

verus! {

/// The command that asks the child to stop, as written to its input.
pub const SHUTDOWN_COMMAND: &'static str = "shutdown\n";

/// Where a shutdown stands.
#[derive(Clone, Copy, Debug, PartialEq, Eq, Structural)]
pub enum ShutdownPhase {
    /// No shutdown was requested.
    Running,
    /// The child was asked to stop and has the grace period to answer.
    ShutdownRequested,
    /// The child answered, or exited, within the grace period.
    Acknowledged,
    /// The grace period ran out without an answer.
    TimedOut,
    /// The child was killed and reaped.
    Terminated,
}

/// What the host does next.
#[derive(Clone, Copy, Debug, PartialEq, Eq, Structural)]
pub enum ShutdownAction {
    /// Nothing: no shutdown is under way, or another caller carries it out.
    Nothing,
    /// Write the shutdown command to the child's input, ignoring a failure,
    /// then wait for the signal.
    SendRequest,
    /// Wait for the signal, at most this many milliseconds more.
    Wait(u64),
    /// Kill the child and reap it.
    KillAndReap,
}

/// Phase and grace period of a coordinator.
pub struct CoordinatorView {
    pub phase: ShutdownPhase,
    pub grace_ms: u64,
}

/// One call on a coordinator.
pub enum ShutdownOp {
    /// A shutdown is requested with this grace period in milliseconds.
    Request(u64),
    /// The wait is looked at: whether the signal has fired, and the
    /// milliseconds waited since the request.
    Poll(bool, u64),
    /// The kill and reap are done.
    Reaped,
}

/// A coordinator before any shutdown.
pub open spec fn initial() -> CoordinatorView {
    CoordinatorView { phase: ShutdownPhase::Running, grace_ms: 0 }
}

/// The coordinator after a call.
pub open spec fn next_state(s: CoordinatorView, op: ShutdownOp) -> CoordinatorView {
    match (s.phase, op) {
        (ShutdownPhase::Running, ShutdownOp::Request(grace_ms)) => CoordinatorView {
            phase: ShutdownPhase::ShutdownRequested,
            grace_ms,
        },
        (ShutdownPhase::ShutdownRequested, ShutdownOp::Poll(fired, elapsed_ms)) => if fired {
            CoordinatorView { phase: ShutdownPhase::Acknowledged, ..s }
        } else if elapsed_ms >= s.grace_ms {
            CoordinatorView { phase: ShutdownPhase::TimedOut, ..s }
        } else {
            s
        },
        (ShutdownPhase::Acknowledged, ShutdownOp::Reaped) | (
            ShutdownPhase::TimedOut,
            ShutdownOp::Reaped,
        ) => CoordinatorView { phase: ShutdownPhase::Terminated, ..s },
        _ => s,
    }
}

/// What the host is told to do by a call.
pub open spec fn action_of(s: CoordinatorView, op: ShutdownOp) -> ShutdownAction {
    match (s.phase, op) {
        (ShutdownPhase::Running, ShutdownOp::Request(_)) => ShutdownAction::SendRequest,
        (ShutdownPhase::ShutdownRequested, ShutdownOp::Poll(fired, elapsed_ms)) => if fired
            || elapsed_ms >= s.grace_ms {
            ShutdownAction::KillAndReap
        } else {
            ShutdownAction::Wait((s.grace_ms - elapsed_ms) as u64)
        },
        _ => ShutdownAction::Nothing,
    }
}

/// The coordinator after the calls `ops`, in order.
pub open spec fn state_after(s: CoordinatorView, ops: Seq<ShutdownOp>) -> CoordinatorView
    decreases ops.len(),
{
    if ops.len() == 0 {
        s
    } else {
        next_state(state_after(s, ops.drop_last()), ops.last())
    }
}

/// How often the calls `ops`, made in order on `s`, tell the host `action`.
pub open spec fn times_told(s: CoordinatorView, ops: Seq<ShutdownOp>, action: ShutdownAction) -> nat
    decreases ops.len(),
{
    if ops.len() == 0 {
        0
    } else {
        let before = ops.drop_last();
        let told: nat = if action_of(state_after(s, before), ops.last()) == action {
            1
        } else {
            0
        };
        times_told(s, before, action) + told
    }
}

/// How far a shutdown has come: phases only move forward.
pub open spec fn rank(phase: ShutdownPhase) -> nat {
    match phase {
        ShutdownPhase::Running => 0,
        ShutdownPhase::ShutdownRequested => 1,
        ShutdownPhase::Acknowledged => 2,
        ShutdownPhase::TimedOut => 2,
        ShutdownPhase::Terminated => 3,
    }
}

/// Kills that are still to come from a phase: one until the wait has ended.
pub open spec fn kills_left(phase: ShutdownPhase) -> nat {
    if rank(phase) <= 1 {
        1
    } else {
        0
    }
}

/// Requests that are still to come from a phase: one until the first request.
pub open spec fn requests_left(phase: ShutdownPhase) -> nat {
    if rank(phase) == 0 {
        1
    } else {
        0
    }
}

/// From any state, whatever calls follow: the host is told to kill exactly
/// when the wait ends, and to send the request exactly when the shutdown
/// starts, and the phase never moves back.
pub proof fn lemma_told_as_phases_pass(s: CoordinatorView, ops: Seq<ShutdownOp>)
    ensures
        times_told(s, ops, ShutdownAction::KillAndReap) + kills_left(state_after(s, ops).phase)
            == kills_left(s.phase),
        times_told(s, ops, ShutdownAction::SendRequest) + requests_left(
            state_after(s, ops).phase,
        ) == requests_left(s.phase),
        rank(s.phase) <= rank(state_after(s, ops).phase),
    decreases ops.len(),
{
    if ops.len() > 0 {
        lemma_told_as_phases_pass(s, ops.drop_last());
    }
}

/// A shutdown is carried out once: however the calls on a fresh
/// coordinator follow one another, and however often a shutdown is
/// requested, the host is told to send the request at most once and to kill
/// and reap at most once. Once the wait has ended, it was told each exactly
/// once.
pub proof fn lemma_shutdown_happens_once(ops: Seq<ShutdownOp>)
    ensures
        times_told(initial(), ops, ShutdownAction::SendRequest) <= 1,
        times_told(initial(), ops, ShutdownAction::KillAndReap) <= 1,
        rank(state_after(initial(), ops).phase) >= 2 ==> times_told(
            initial(),
            ops,
            ShutdownAction::SendRequest,
        ) == 1 && times_told(initial(), ops, ShutdownAction::KillAndReap) == 1,
{
    lemma_told_as_phases_pass(initial(), ops);
}

/// A second request is a no-op: once a shutdown was requested, a request
/// changes nothing and tells the host nothing.
pub proof fn lemma_repeated_request_is_noop(s: CoordinatorView, grace_ms: u64)
    requires
        s.phase != ShutdownPhase::Running,
    ensures
        next_state(s, ShutdownOp::Request(grace_ms)) == s,
        action_of(s, ShutdownOp::Request(grace_ms)) == ShutdownAction::Nothing,
{
}

/// The child is never left alive: once a shutdown was requested, the first
/// look at the wait that finds the signal fired or the grace period over
/// tells the host to kill and reap; no kill is told before the request.
pub proof fn lemma_wait_ends_in_kill(s: CoordinatorView, fired: bool, elapsed_ms: u64)
    ensures
        action_of(s, ShutdownOp::Poll(fired, elapsed_ms)) == ShutdownAction::KillAndReap <==> (
        s.phase == ShutdownPhase::ShutdownRequested && (fired || elapsed_ms >= s.grace_ms)),
        action_of(s, ShutdownOp::Poll(fired, elapsed_ms)) matches ShutdownAction::Wait(more)
            ==> !fired && elapsed_ms + more == s.grace_ms && more > 0,
{
}

/// One-shot signal that the child has acknowledged the shutdown or exited.
#[derive(Debug, PartialEq, Eq)]
pub struct ShutdownSignal {
    fired: bool,
}

impl View for ShutdownSignal {
    type V = bool;

    /// Whether the signal has fired.
    closed spec fn view(&self) -> bool {
        self.fired
    }
}

impl ShutdownSignal {
    /// A signal that has not fired.
    pub fn new() -> (signal: Self)
        ensures
            !signal@,
    {
        ShutdownSignal { fired: false }
    }

    /// Fires the signal. Returns whether this call fired it; firing a fired
    /// signal changes nothing.
    pub fn fire(&mut self) -> (first: bool)
        ensures
            final(self)@,
            first == !old(self)@,
    {
        let first = !self.fired;
        self.fired = true;
        first
    }

    /// Whether the signal has fired.
    pub fn is_fired(&self) -> (fired: bool)
        ensures
            fired == self@,
    {
        self.fired
    }
}

/// Decides the steps of a shutdown.
#[derive(Debug, PartialEq, Eq)]
pub struct ShutdownCoordinator {
    phase: ShutdownPhase,
    grace_ms: u64,
}

impl View for ShutdownCoordinator {
    type V = CoordinatorView;

    closed spec fn view(&self) -> CoordinatorView {
        CoordinatorView { phase: self.phase, grace_ms: self.grace_ms }
    }
}

impl ShutdownCoordinator {
    /// A coordinator for a running child.
    pub fn new() -> (coordinator: Self)
        ensures
            coordinator@ == initial(),
    {
        ShutdownCoordinator { phase: ShutdownPhase::Running, grace_ms: 0 }
    }

    /// Where the shutdown stands.
    pub fn phase(&self) -> (phase: ShutdownPhase)
        ensures
            phase == self@.phase,
    {
        self.phase
    }

    /// Requests a shutdown with a grace period of `grace_ms` milliseconds.
    /// The first request tells the host to send the shutdown command; any
    /// later one tells it nothing.
    pub fn request(&mut self, grace_ms: u64) -> (action: ShutdownAction)
        ensures
            final(self)@ == next_state(old(self)@, ShutdownOp::Request(grace_ms)),
            action == action_of(old(self)@, ShutdownOp::Request(grace_ms)),
    {
        match self.phase {
            ShutdownPhase::Running => {
                self.phase = ShutdownPhase::ShutdownRequested;
                self.grace_ms = grace_ms;
                ShutdownAction::SendRequest
            },
            _ => ShutdownAction::Nothing,
        }
    }

    /// Looks at the wait that follows the request: `fired` says whether the
    /// signal has fired, `elapsed_ms` how long the wait has lasted. While
    /// the wait is on, a fired signal or a spent grace period ends it and
    /// tells the host to kill and reap; otherwise the host waits for what is
    /// left of the grace period. In any other phase the host is told
    /// nothing.
    pub fn poll(&mut self, fired: bool, elapsed_ms: u64) -> (action: ShutdownAction)
        ensures
            final(self)@ == next_state(old(self)@, ShutdownOp::Poll(fired, elapsed_ms)),
            action == action_of(old(self)@, ShutdownOp::Poll(fired, elapsed_ms)),
    {
        match self.phase {
            ShutdownPhase::ShutdownRequested => {
                if fired {
                    self.phase = ShutdownPhase::Acknowledged;
                    ShutdownAction::KillAndReap
                } else if elapsed_ms >= self.grace_ms {
                    self.phase = ShutdownPhase::TimedOut;
                    ShutdownAction::KillAndReap
                } else {
                    ShutdownAction::Wait(self.grace_ms - elapsed_ms)
                }
            },
            _ => ShutdownAction::Nothing,
        }
    }

    /// Records that the child was killed and reaped.
    pub fn reaped(&mut self)
        ensures
            final(self)@ == next_state(old(self)@, ShutdownOp::Reaped),
    {
        match self.phase {
            ShutdownPhase::Acknowledged | ShutdownPhase::TimedOut => {
                self.phase = ShutdownPhase::Terminated;
            },
            _ => {},
        }
    }
}

} // verus!
