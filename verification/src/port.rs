//! The cell that holds the child's port once it is known.
//!
//! The cell is written at most once: the first published port stays, and
//! later publications change nothing. A reader that finds the cell unset
//! waits, up to a timeout, for a publication. The waiting itself belongs to
//! the host; this module decides, from the cell and the time waited so far,
//! how a wait goes on.

use vstd::prelude::*;

verus! {

/// The cell after one publication: the first port stays.
pub open spec fn publish_spec(cell: Option<u16>, port: u16) -> Option<u16> {
    match cell {
        None => Some(port),
        Some(first) => Some(first),
    }
}

/// The cell after the publications `ports`, in order.
pub open spec fn publish_all(cell: Option<u16>, ports: Seq<u16>) -> Option<u16>
    decreases ports.len(),
{
    if ports.len() == 0 {
        cell
    } else {
        publish_spec(publish_all(cell, ports.drop_last()), ports.last())
    }
}

/// How a wait for the port goes on.
#[derive(Clone, Copy, Debug, PartialEq, Eq, Structural)]
pub enum AwaitStep {
    /// The port is known: the wait ends with it.
    Ready(u16),
    /// The port is unknown and the timeout has not run out: wait for a
    /// publication, at most this many milliseconds more.
    Wait(u64),
    /// The port is unknown and the timeout has run out: the wait fails.
    TimedOut,
}

/// How a wait goes on for a reader that has waited `elapsed_ms` of its
/// `timeout_ms`. A known port ends the wait at once, whatever the time.
pub open spec fn await_spec(cell: Option<u16>, elapsed_ms: u64, timeout_ms: u64) -> AwaitStep {
    match cell {
        Some(port) => AwaitStep::Ready(port),
        None => if elapsed_ms >= timeout_ms {
            AwaitStep::TimedOut
        } else {
            AwaitStep::Wait((timeout_ms - elapsed_ms) as u64)
        },
    }
}

/// The first publication decides: after any publications into an unset
/// cell the cell holds the first of them, and every reader is handed that
/// port, however long it has waited and whatever its timeout.
pub proof fn lemma_first_writer_wins(ports: Seq<u16>, elapsed_ms: u64, timeout_ms: u64)
    requires
        ports.len() > 0,
    ensures
        publish_all(None, ports) == Some(ports[0]),
        await_spec(publish_all(None, ports), elapsed_ms, timeout_ms) == AwaitStep::Ready(ports[0]),
    decreases ports.len(),
{
    if ports.len() > 1 {
        lemma_first_writer_wins(ports.drop_last(), elapsed_ms, timeout_ms);
    } else {
        assert(publish_all(None, ports.drop_last()) == None::<u16>);
    }
}

/// A set cell never changes: publications into it leave it as it is.
pub proof fn lemma_discovered_is_stable(port: u16, ports: Seq<u16>)
    ensures
        publish_all(Some(port), ports) == Some(port),
    decreases ports.len(),
{
    if ports.len() > 0 {
        lemma_discovered_is_stable(port, ports.drop_last());
    }
}

/// All readers of a set cell are handed the same port: what a reader gets
/// depends neither on how long it has waited nor on its timeout.
pub proof fn lemma_readers_agree(cell: Option<u16>, elapsed_a: u64, timeout_a: u64, elapsed_b: u64, timeout_b: u64)
    requires
        cell is Some,
    ensures
        await_spec(cell, elapsed_a, timeout_a) == AwaitStep::Ready(cell->0),
        await_spec(cell, elapsed_a, timeout_a) == await_spec(cell, elapsed_b, timeout_b),
{
}

/// A wait fails only when the whole timeout has passed without a
/// publication, and then it does fail.
pub proof fn lemma_timeout_is_exact(cell: Option<u16>, elapsed_ms: u64, timeout_ms: u64)
    ensures
        await_spec(cell, elapsed_ms, timeout_ms) is TimedOut <==> (cell is None && elapsed_ms
            >= timeout_ms),
        await_spec(cell, elapsed_ms, timeout_ms) matches AwaitStep::Wait(more) ==> elapsed_ms
            + more == timeout_ms && more > 0,
{
}

/// Write-once cell for the child's port: what a port publisher writes
/// and its readers await.
#[derive(Debug, PartialEq, Eq)]
pub struct PortCell {
    port: Option<u16>,
}

impl View for PortCell {
    type V = Option<u16>;

    /// `None` while the port is unknown, `Some` of the port once it is set.
    closed spec fn view(&self) -> Option<u16> {
        self.port
    }
}

impl PortCell {
    /// An unset cell.
    pub fn new() -> (cell: Self)
        ensures
            cell@ is None,
    {
        PortCell { port: None }
    }

    /// Records `port` if the cell is unset, and changes nothing otherwise.
    /// Returns whether this call set the cell.
    pub fn publish(&mut self, port: u16) -> (first: bool)
        ensures
            final(self)@ == publish_spec(old(self)@, port),
            first == (old(self)@ is None),
    {
        match self.port {
            None => {
                self.port = Some(port);
                true
            },
            Some(_) => false,
        }
    }

    /// The port, if it is known.
    pub fn get(&self) -> (port: Option<u16>)
        ensures
            port == self@,
    {
        self.port
    }

    /// Decides how a reader that has waited `elapsed_ms` of its `timeout_ms`
    /// goes on: with the port if it is known, and otherwise with a further
    /// wait of what is left of the timeout, or with a failure when nothing is
    /// left.
    pub fn await_step(&self, elapsed_ms: u64, timeout_ms: u64) -> (step: AwaitStep)
        ensures
            step == await_spec(self@, elapsed_ms, timeout_ms),
    {
        match self.port {
            Some(port) => AwaitStep::Ready(port),
            None => if elapsed_ms >= timeout_ms {
                AwaitStep::TimedOut
            } else {
                AwaitStep::Wait(timeout_ms - elapsed_ms)
            },
        }
    }
}

} // verus!
