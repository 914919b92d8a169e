//! The polling reconciler: one long-lived task per program that fetches the
//! program's accounts, ingests each record, sleeps, and starts over until it
//! is cancelled.

use crate::ingest::{IngestError, IngestPlan, PlanView};
use crate::query::SourceError;
use crate::record::{batch_plans, next_plan, plans_from, LedgerRecord};
use vstd::prelude::*;

verus! {

/// Seconds between two fetches of the same program.
pub const POLL_INTERVAL_SECS: u64 = 10;

#[derive(Debug, Clone, PartialEq, Eq)]
pub enum PollPhase {
    Fetching,
    Ingesting,
    Sleeping,
    Stopped,
}

/// What the task is asked to do next.
#[derive(Debug, PartialEq, Eq)]
pub enum PollAction {
    /// Ask the ledger for the program's accounts.
    FetchAccounts,
    /// Run an ingestion of this plan to its end.
    Ingest(IngestPlan),
    /// Wait this many seconds.
    Sleep(u64),
    /// End the task.
    Stop,
}

/// What the task reports back.
#[derive(Debug, PartialEq, Eq)]
pub enum PollEvent {
    Fetched(Result<Vec<LedgerRecord>, SourceError>),
    Ingested(Result<(), IngestError>),
    Woke,
    /// The task is asked to end, at any suspension point.
    Cancelled,
}

/// The decisions of one program's polling task.
#[derive(Debug)]
pub struct Poller {
    pub program_id: String,
    pub interval_secs: u64,
    pub phase: PollPhase,
    pub records: Vec<LedgerRecord>,
    pub next: usize,
}

impl Poller {
    pub open spec fn wf(&self) -> bool {
        self.next <= self.records@.len()
    }

    /// The plans of the fetched batch that are still to be ingested.
    pub open spec fn remaining(&self) -> Seq<PlanView> {
        plans_from(self.program_id@, self.records@, self.next as int)
    }

    /// Whether `event` answers the action that the task last asked for.
    pub open spec fn accepts(&self, event: &PollEvent) -> bool {
        match self.phase {
            PollPhase::Fetching => event is Fetched || event is Cancelled,
            PollPhase::Ingesting => event is Ingested || event is Cancelled,
            PollPhase::Sleeping => event is Woke || event is Cancelled,
            PollPhase::Stopped => event is Cancelled,
        }
    }

    /// A task for `program_id` that waits `interval_secs` between fetches;
    /// it starts by fetching.
    pub fn new(program_id: String, interval_secs: u64) -> (r: (Poller, PollAction))
        ensures
            r.0.program_id == program_id,
            r.0.interval_secs == interval_secs,
            r.0.phase is Fetching,
            r.0.wf(),
            r.1 is FetchAccounts,
    {
        (
            Poller {
                program_id,
                interval_secs,
                phase: PollPhase::Fetching,
                records: Vec::new(),
                next: 0,
            },
            PollAction::FetchAccounts,
        )
    }

    fn advance(&mut self) -> (a: PollAction)
        requires
            old(self).wf(),
        ensures
            final(self).wf(),
            final(self).program_id == old(self).program_id,
            final(self).interval_secs == old(self).interval_secs,
            final(self).records == old(self).records,
            old(self).remaining().len() > 0 ==> final(self).phase is Ingesting && (a matches PollAction::Ingest(
                plan,
            ) && plan@ == old(self).remaining()[0]) && final(self).remaining() == old(
                self,
            ).remaining().drop_first(),
            old(self).remaining().len() == 0 ==> final(self).phase is Sleeping && a == PollAction::Sleep(
                old(self).interval_secs,
            ),
    {
        let (k, plan) = next_plan(self.program_id.as_str(), &self.records, self.next);
        self.next = k;
        match plan {
            Some(plan) => {
                self.phase = PollPhase::Ingesting;
                PollAction::Ingest(plan)
            },
            None => {
                self.phase = PollPhase::Sleeping;
                PollAction::Sleep(self.interval_secs)
            },
        }
    }

    /// Takes the outcome of the action last asked for, and says what to do
    /// next. No failure ends the task: only a cancellation does.
    pub fn step(&mut self, event: PollEvent) -> (a: PollAction)
        requires
            old(self).wf(),
            old(self).accepts(&event),
        ensures
            final(self).wf(),
            final(self).program_id == old(self).program_id,
            final(self).interval_secs == old(self).interval_secs,
            event is Cancelled <==> final(self).phase is Stopped,
            event is Cancelled ==> a is Stop,
            a is Stop ==> event is Cancelled,
            event is Woke ==> final(self).phase is Fetching && a is FetchAccounts,
            // A failed fetch waits for the next round.
            event matches PollEvent::Fetched(Err(_)) ==> final(self).phase is Sleeping && a
                == PollAction::Sleep(old(self).interval_secs),
            // Fetched records: malformed ones are skipped, the others are ingested in order.
            event matches PollEvent::Fetched(Ok(recs)) ==> ({
                let plans = batch_plans(old(self).program_id@, recs@);
                &&& plans.len() == 0 ==> final(self).phase is Sleeping && a == PollAction::Sleep(
                    old(self).interval_secs,
                )
                &&& plans.len() > 0 ==> final(self).phase is Ingesting && (a matches PollAction::Ingest(
                    plan,
                ) && plan@ == plans[0]) && final(self).remaining() == plans.drop_first()
            }),
            // An ingestion, failed or not, is followed by the next record of the batch.
            event is Ingested ==> ({
                let rem = old(self).remaining();
                &&& rem.len() > 0 ==> final(self).phase is Ingesting && (a matches PollAction::Ingest(
                    plan,
                ) && plan@ == rem[0]) && final(self).remaining() == rem.drop_first()
                &&& rem.len() == 0 ==> final(self).phase is Sleeping && a == PollAction::Sleep(
                    old(self).interval_secs,
                )
            }),
    {
        match event {
            PollEvent::Cancelled => {
                self.phase = PollPhase::Stopped;
                PollAction::Stop
            },
            PollEvent::Woke => {
                self.phase = PollPhase::Fetching;
                PollAction::FetchAccounts
            },
            PollEvent::Fetched(Err(_)) => {
                self.phase = PollPhase::Sleeping;
                PollAction::Sleep(self.interval_secs)
            },
            PollEvent::Fetched(Ok(recs)) => {
                self.records = recs;
                self.next = 0;
                assert(self.records@.subrange(0, self.records@.len() as int) =~= self.records@);
                self.advance()
            },
            PollEvent::Ingested(_) => self.advance(),
        }
    }
}

} // verus!
