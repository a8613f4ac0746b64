//! Single-flight metadata cache decisions: who builds, who waits, what a
//! waiter observes, and how a finished or abandoned attempt is published.
//! Each operation is one critical section; the caller holds the lock, waits
//! on its condition variable and notifies when told to.

use vstd::prelude::*;

use crate::query::{QueryError};
use crate::{IoFailure, VcdError, VcdMeta};

verus! {

/// Where the shared metadata stands.
#[derive(Debug, Clone)]
pub enum MetadataPhase {
    Absent,
    Building { attempt: u64, waiters: usize },
    Ready(VcdMeta),
    /// A failed attempt keeps its error until every waiter registered on
    /// it has observed the failure.
    Failed { attempt: u64, error: VcdError, pending_waiters: usize },
}

/// What a caller does after one look at the cache.
#[derive(Debug, Clone)]
pub enum MetadataPoll {
    /// Use this metadata.
    Ready(VcdMeta),
    /// Report this error; `notify` when this was the last registered waiter.
    Failed { error: VcdError, notify: bool },
    /// Wait for a change, registered on this attempt.
    Wait { attempt: u64 },
    /// Build the metadata as this attempt, then publish it.
    Build { attempt: u64 },
    /// No attempt identifier is left.
    Exhausted(VcdError),
}

pub open spec fn exhausted_text() -> Seq<char> {
    "metadata attempt identifier space exhausted"@
}

pub open spec fn panicked_text() -> Seq<char> {
    "metadata builder panicked"@
}

/// A copy of an error.
pub fn copy_vcd_error(e: &VcdError) -> (c: VcdError)
    ensures
        c == *e,
{
    match e {
        VcdError::Io(f) => VcdError::Io(IoFailure { kind: f.kind, message: f.message.clone(), generation_mismatch: f.generation_mismatch }),
        VcdError::MissingEndDefinitions => VcdError::MissingEndDefinitions,
        VcdError::DuplicateSignal(s) => VcdError::DuplicateSignal(s.clone()),
        VcdError::MissingSignals(s) => VcdError::MissingSignals(s.clone()),
        VcdError::MissingSignal(s) => VcdError::MissingSignal(s.clone()),
        VcdError::InvalidOccurrence => VcdError::InvalidOccurrence,
        VcdError::Parse(s) => VcdError::Parse(s.clone()),
    }
}

fn copy_meta(m: &VcdMeta) -> (c: VcdMeta)
    ensures
        c == *m,
{
    VcdMeta { timescale: m.timescale, signal_count: m.signal_count, start_time: m.start_time, end_time: m.end_time }
}

/// The cache's state: the next attempt identifier and the phase.
pub struct MetadataState {
    next_attempt: u64,
    phase: MetadataPhase,
}

impl MetadataState {
    pub closed spec fn spec_next(&self) -> u64 {
        self.next_attempt
    }

    pub closed spec fn spec_phase(&self) -> MetadataPhase {
        self.phase
    }

    /// Every attempt in the phase was already handed out.
    pub open spec fn wf(&self) -> bool {
        match self.spec_phase() {
            MetadataPhase::Building { attempt, .. } => attempt < self.spec_next(),
            MetadataPhase::Failed { attempt, .. } => attempt < self.spec_next(),
            _ => true,
        }
    }

    pub fn new() -> (s: Self)
        ensures
            s.wf(),
            s.spec_next() == 1,
            s.spec_phase() is Absent,
    {
        MetadataState { next_attempt: 1, phase: MetadataPhase::Absent }
    }

    pub fn is_ready(&self) -> (b: bool)
        ensures
            b == self.spec_phase() is Ready,
    {
        match self.phase {
            MetadataPhase::Ready(_) => true,
            _ => false,
        }
    }

    /// One look by a caller that may already be registered on an attempt:
    /// ready metadata is returned; a failure is reported (acknowledging it
    /// when registered on that attempt); a build in progress is waited for
    /// (registering once); with nothing present, this caller builds a fresh
    /// attempt.
    pub fn poll(&mut self, waiting_for: Option<u64>) -> (r: MetadataPoll)
        requires
            old(self).wf(),
        ensures
            final(self).wf(),
            match old(self).spec_phase() {
                MetadataPhase::Ready(m) => r == MetadataPoll::Ready(m) && *final(self) == *old(self),
                MetadataPhase::Failed { attempt, error, pending_waiters } => {
                    let ack = waiting_for == Some(attempt) && pending_waiters > 0;
                    &&& r matches MetadataPoll::Failed { error: e, notify } && e == error && notify == (ack && pending_waiters == 1)
                    &&& final(self).spec_next() == old(self).spec_next()
                    &&& final(self).spec_phase() == if ack {
                        MetadataPhase::Failed { attempt, error, pending_waiters: (pending_waiters - 1) as usize }
                    } else {
                        old(self).spec_phase()
                    }
                },
                MetadataPhase::Building { attempt, waiters } => {
                    &&& r == MetadataPoll::Wait { attempt }
                    &&& final(self).spec_next() == old(self).spec_next()
                    &&& final(self).spec_phase() == if waiting_for is None {
                        MetadataPhase::Building { attempt, waiters: if waiters == usize::MAX { waiters } else { (waiters + 1) as usize } }
                    } else {
                        old(self).spec_phase()
                    }
                },
                MetadataPhase::Absent => if old(self).spec_next() == u64::MAX {
                    &&& r matches MetadataPoll::Exhausted(VcdError::Parse(m)) && m@ == exhausted_text()
                    &&& *final(self) == *old(self)
                } else {
                    &&& r == MetadataPoll::Build { attempt: old(self).spec_next() }
                    &&& final(self).spec_next() == old(self).spec_next() + 1
                    &&& final(self).spec_phase() == MetadataPhase::Building { attempt: old(self).spec_next(), waiters: 0 }
                },
            },
    {
        match &mut self.phase {
            MetadataPhase::Ready(m) => MetadataPoll::Ready(copy_meta(m)),
            MetadataPhase::Failed { attempt, error, pending_waiters } => {
                let e = copy_vcd_error(error);
                let mut notify = false;
                if waiting_for == Some(*attempt) && *pending_waiters > 0 {
                    *pending_waiters = *pending_waiters - 1;
                    notify = *pending_waiters == 0;
                }
                MetadataPoll::Failed { error: e, notify }
            },
            MetadataPhase::Building { attempt, waiters } => {
                let a = *attempt;
                if waiting_for.is_none() {
                    *waiters = waiters.saturating_add(1);
                }
                MetadataPoll::Wait { attempt: a }
            },
            MetadataPhase::Absent => {
                if self.next_attempt == u64::MAX {
                    return MetadataPoll::Exhausted(VcdError::Parse(String::from_str("metadata attempt identifier space exhausted")));
                }
                let attempt = self.next_attempt;
                self.next_attempt = self.next_attempt + 1;
                self.phase = MetadataPhase::Building { attempt, waiters: 0 };
                MetadataPoll::Build { attempt }
            },
        }
    }

    /// Publish the outcome of building `attempt`: metadata becomes ready; a
    /// failure is kept, with the number of registered waiters that must
    /// still observe it.
    pub fn publish(&mut self, attempt: u64, result: Result<VcdMeta, VcdError>) -> (published: bool)
        requires
            old(self).wf(),
        ensures
            final(self).wf(),
            final(self).spec_next() == old(self).spec_next(),
            published == (old(self).spec_phase() matches MetadataPhase::Building { attempt: a, .. } && a == attempt),
            !published ==> *final(self) == *old(self),
            published ==> match result {
                Ok(m) => final(self).spec_phase() == MetadataPhase::Ready(m),
                Err(e) => final(self).spec_phase() == MetadataPhase::Failed {
                    attempt,
                    error: e,
                    pending_waiters: old(self).spec_phase()->Building_waiters,
                },
            },
    {
        let waiters = match &self.phase {
            MetadataPhase::Building { attempt: active, waiters } => {
                if *active != attempt {
                    return false;
                }
                *waiters
            },
            _ => {
                return false;
            },
        };
        match result {
            Ok(m) => {
                self.phase = MetadataPhase::Ready(m);
            },
            Err(e) => {
                self.phase = MetadataPhase::Failed { attempt, error: e, pending_waiters: waiters };
            },
        }
        true
    }

    /// Publish the outcome of a policy-limited build: source and VCD
    /// failures are kept like [`MetadataState::publish`]; any other failure
    /// (cancellation, deadline, budgets) is transient and lets a waiter
    /// build a fresh attempt.
    pub fn publish_query(&mut self, attempt: u64, result: Result<VcdMeta, QueryError>) -> (published: bool)
        requires
            old(self).wf(),
        ensures
            final(self).wf(),
            final(self).spec_next() == old(self).spec_next(),
            published == (old(self).spec_phase() matches MetadataPhase::Building { attempt: a, .. } && a == attempt),
            !published ==> *final(self) == *old(self),
            published ==> match result {
                Ok(m) => final(self).spec_phase() == MetadataPhase::Ready(m),
                Err(QueryError::StaleSource(e)) => final(self).spec_phase() matches MetadataPhase::Failed { error, .. } && error == e,
                Err(QueryError::Vcd(e)) => final(self).spec_phase() matches MetadataPhase::Failed { error, .. } && error == e,
                Err(QueryError::SourceUnavailable(f)) => final(self).spec_phase() matches MetadataPhase::Failed { error, .. } && error == VcdError::Io(f),
                Err(_) => final(self).spec_phase() is Absent,
            },
    {
        match result {
            Ok(m) => self.publish(attempt, Ok(m)),
            Err(QueryError::StaleSource(e)) => self.publish(attempt, Err(e)),
            Err(QueryError::Vcd(e)) => self.publish(attempt, Err(e)),
            Err(QueryError::SourceUnavailable(f)) => self.publish(attempt, Err(VcdError::Io(f))),
            Err(_) => {
                match &self.phase {
                    MetadataPhase::Building { attempt: active, .. } => {
                        if *active != attempt {
                            return false;
                        }
                    },
                    _ => {
                        return false;
                    },
                }
                self.phase = MetadataPhase::Absent;
                true
            },
        }
    }

    /// A builder of `attempt` stopped without publishing (it panicked).
    pub fn abandon(&mut self, attempt: u64) -> (changed: bool)
        requires
            old(self).wf(),
        ensures
            final(self).wf(),
            final(self).spec_next() == old(self).spec_next(),
            changed == (old(self).spec_phase() matches MetadataPhase::Building { attempt: a, .. } && a == attempt),
            !changed ==> *final(self) == *old(self),
            changed ==> (final(self).spec_phase() matches MetadataPhase::Failed { attempt: a, error: VcdError::Parse(m), .. } && a == attempt && m@ == panicked_text()),
    {
        self.publish(attempt, Err(VcdError::Parse(String::from_str("metadata builder panicked"))))
    }

    /// A waiter registered on `attempt` leaves without observing its
    /// outcome; returns whether waiters must be notified (it was the last
    /// one a failure waited for).
    pub fn release(&mut self, attempt: u64) -> (notify: bool)
        requires
            old(self).wf(),
        ensures
            final(self).wf(),
            final(self).spec_next() == old(self).spec_next(),
            match old(self).spec_phase() {
                MetadataPhase::Building { attempt: a, waiters } => notify == false && final(self).spec_phase() == if a == attempt && waiters > 0 {
                    MetadataPhase::Building { attempt: a, waiters: (waiters - 1) as usize }
                } else {
                    old(self).spec_phase()
                },
                MetadataPhase::Failed { attempt: a, error, pending_waiters } => if a == attempt && pending_waiters > 0 {
                    notify == (pending_waiters == 1) && final(self).spec_phase() == MetadataPhase::Failed { attempt: a, error, pending_waiters: (pending_waiters - 1) as usize }
                } else {
                    notify == false && final(self).spec_phase() == old(self).spec_phase()
                },
                _ => notify == false && final(self).spec_phase() == old(self).spec_phase(),
            },
    {
        match &mut self.phase {
            MetadataPhase::Building { attempt: a, waiters } => {
                if *a == attempt && *waiters > 0 {
                    *waiters = *waiters - 1;
                }
                false
            },
            MetadataPhase::Failed { attempt: a, pending_waiters, .. } => {
                if *a == attempt && *pending_waiters > 0 {
                    *pending_waiters = *pending_waiters - 1;
                    *pending_waiters == 0
                } else {
                    false
                }
            },
            _ => false,
        }
    }

    /// One step of a retry: a failure nobody still waits on is cleared (the
    /// caller then builds through [`MetadataState::poll`]); a failure with
    /// pending waiters must be waited out (`true`).
    pub fn retry_step(&mut self) -> (must_wait: bool)
        requires
            old(self).wf(),
        ensures
            final(self).wf(),
            final(self).spec_next() == old(self).spec_next(),
            match old(self).spec_phase() {
                MetadataPhase::Failed { pending_waiters, .. } => if pending_waiters == 0 {
                    !must_wait && final(self).spec_phase() is Absent
                } else {
                    must_wait && *final(self) == *old(self)
                },
                _ => !must_wait && *final(self) == *old(self),
            },
    {
        match &self.phase {
            MetadataPhase::Failed { pending_waiters, .. } => {
                if *pending_waiters == 0 {
                    self.phase = MetadataPhase::Absent;
                    false
                } else {
                    true
                }
            },
            _ => false,
        }
    }
}

} // verus!
