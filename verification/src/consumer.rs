//! The consumer's polling cycle: scan the region, hand the records to a
//! renderer, wait, and scan again.

use vstd::prelude::*;
use crate::ipc::Ipc;
use crate::region::scan;
use crate::user_record::UserRecord;

verus! {

/// Number of seconds that the console renderer lets pass between two
/// cycles.
pub const CONSOLE_INTERVAL_SECS: u64 = 1;

/// The two ways in which records are presented.
#[derive(Debug, Clone, Copy, PartialEq, Eq)]
pub enum Renderer {
    /// A table that is drawn anew whenever its host asks for a repaint.
    Table,
    /// One printed line for each record.
    Console,
}

/// The states of a consumer.
#[derive(Debug, Clone, Copy, PartialEq, Eq)]
pub enum ConsumerState {
    /// No cycle has run yet.
    Idle,
    /// The consumer scans the region once in each cycle.
    Polling,
}

/// What a consumer waits for between one cycle and the next.
#[derive(Debug, Clone, Copy, PartialEq, Eq)]
pub enum Cadence {
    /// The next repaint that the host asks for.
    Repaint,
    /// The given number of seconds.
    Interval(u64),
}

/// The outcome of one cycle: what to render, and what to wait for
/// before the next cycle.
pub struct Cycle {
    /// The records that the scan returned.
    pub records: Vec<UserRecord>,
    /// What to wait for once the records are rendered.
    pub wait: Cadence,
}

/// A consumer: the renderer it feeds and its state.
#[derive(Debug, Clone, Copy, PartialEq, Eq)]
pub struct Consumer {
    /// The renderer that receives the records of each cycle.
    pub renderer: Renderer,
    /// Whether a cycle has run.
    pub state: ConsumerState,
}

/// The cadence of a renderer: the table follows the repaints of its host,
/// the console a fixed interval.
pub open spec fn cadence_of(renderer: Renderer) -> Cadence {
    match renderer {
        Renderer::Table => Cadence::Repaint,
        Renderer::Console => Cadence::Interval(CONSOLE_INTERVAL_SECS),
    }
}

impl Consumer {
    /// A consumer for the given renderer that has not run a cycle yet.
    pub fn new(renderer: Renderer) -> (consumer: Consumer)
        ensures
            consumer == (Consumer { renderer, state: ConsumerState::Idle }),
    {
        Consumer { renderer, state: ConsumerState::Idle }
    }

    /// What this consumer waits for between two cycles.
    pub fn cadence(&self) -> (cadence: Cadence)
        ensures
            cadence == cadence_of(self.renderer),
    {
        match self.renderer {
            Renderer::Table => Cadence::Repaint,
            Renderer::Console => Cadence::Interval(CONSOLE_INTERVAL_SECS),
        }
    }

    /// Runs one cycle: scans the region and says what to wait for. The
    /// consumer is polling from its first cycle on, and a cycle carries
    /// nothing over to the next but that; each returns what the region
    /// holds at that moment.
    pub fn cycle(&mut self, ipc: &Ipc) -> (cycle: Cycle)
        ensures
            *final(self) == (Consumer { renderer: old(self).renderer, state: ConsumerState::Polling }),
            cycle.records.deep_view() == scan(ipc@.region),
            cycle.wait == cadence_of(old(self).renderer),
    {
        self.state = ConsumerState::Polling;
        Cycle { records: ipc.read_user_records(), wait: self.cadence() }
    }
}

} // verus!
