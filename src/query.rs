//! The write-through query: serve a program's discriminators from the store,
//! and on a miss fetch the program's accounts, ingest them, and ask again.

use crate::graph::{Discriminator, DiscriminatorView};
use crate::ingest::{IngestError, IngestPlan, StoreError};
use crate::record::{batch_plans, next_plan, plans_from, LedgerRecord};
use vstd::prelude::*;
use vstd::string::StringExecFns;

verus! {

/// Why the ledger could not list a program's accounts.
#[derive(Debug, Clone, PartialEq, Eq)]
pub struct SourceError {
    pub message: String,
}

#[derive(Debug, Clone, PartialEq, Eq)]
pub enum QueryError {
    /// The ledger could not be reached.
    SourceUnavailable(SourceError),
    /// The store could not be queried.
    StoreRead(StoreError),
    /// A record could not be ingested; the rest of the batch was abandoned.
    StoreWrite(IngestError),
    /// Nothing stored for the program, and nothing on the ledger to ingest.
    NotFound,
}

pub open spec fn views(rows: Seq<Discriminator>) -> Seq<DiscriminatorView> {
    rows.map_values(|d: Discriminator| d@)
}

/// The rows that belong to program `p`, in order.
pub open spec fn of_program(p: Seq<char>, rows: Seq<Discriminator>) -> Seq<DiscriminatorView>
    decreases rows.len(),
{
    if rows.len() == 0 {
        Seq::empty()
    } else {
        let rest = of_program(p, rows.drop_first());
        if rows[0].program_id@ == p {
            seq![rows[0]@] + rest
        } else {
            rest
        }
    }
}

/// Keeps the rows of the store's answer that belong to `program_id`, whatever
/// else the store's prefix query let through.
pub fn select_for_program(program_id: &str, rows: Vec<Discriminator>) -> (r: Vec<Discriminator>)
    ensures
        views(r@) == of_program(program_id@, rows@),
{
    let pid = String::from_str(program_id);
    let ghost all = rows@;
    let mut rows = rows;
    let mut out: Vec<Discriminator> = Vec::new();
    while rows.len() > 0
        invariant
            pid@ == program_id@,
            of_program(program_id@, all) == views(out@) + of_program(program_id@, rows@),
        decreases rows@.len(),
    {
        let ghost before = rows@;
        let d = rows.remove(0);
        assert(before.drop_first() =~= rows@);
        if d.program_id == pid {
            let ghost o = out@;
            out.push(d);
            assert(views(out@) =~= views(o) + seq![d@]);
        }
    }
    assert(views(out@) + Seq::<DiscriminatorView>::empty() =~= views(out@));
    out
}

#[derive(Debug, Clone, PartialEq, Eq)]
pub enum QueryPhase {
    /// Asking the store for what it holds.
    CheckingCache,
    /// Asking the ledger for the program's accounts.
    Fetching,
    /// Ingesting the fetched records one after another.
    Ingesting,
    /// Asking the store again, after ingesting.
    Requerying,
    Answered,
}

/// What the caller is asked to do next.
#[derive(Debug, PartialEq, Eq)]
pub enum QueryAction {
    /// Ask the store for the discriminators under the program's prefix.
    ReadStore,
    /// Ask the ledger for the program's accounts.
    FetchAccounts,
    /// Run an ingestion of this plan to its end.
    Ingest(IngestPlan),
    /// The query is over, with this answer.
    Respond(Result<Vec<Discriminator>, QueryError>),
}

/// What the caller reports back.
#[derive(Debug, PartialEq, Eq)]
pub enum QueryEvent {
    StoreRead(Result<Vec<Discriminator>, StoreError>),
    Fetched(Result<Vec<LedgerRecord>, SourceError>),
    Ingested(Result<(), IngestError>),
}

/// One query in progress. The caller performs each action it is handed and
/// reports the outcome back through `step`.
#[derive(Debug)]
pub struct WriteThroughQuery {
    pub program_id: String,
    pub phase: QueryPhase,
    pub records: Vec<LedgerRecord>,
    pub next: usize,
}

impl WriteThroughQuery {
    pub open spec fn wf(&self) -> bool {
        self.next <= self.records@.len()
    }

    /// The plans of the fetched batch that are still to be ingested.
    pub open spec fn remaining(&self) -> Seq<crate::ingest::PlanView> {
        plans_from(self.program_id@, self.records@, self.next as int)
    }

    /// Whether `event` answers the action that the query last asked for.
    pub open spec fn accepts(&self, event: &QueryEvent) -> bool {
        match self.phase {
            QueryPhase::CheckingCache | QueryPhase::Requerying => event is StoreRead,
            QueryPhase::Fetching => event is Fetched,
            QueryPhase::Ingesting => event is Ingested,
            QueryPhase::Answered => false,
        }
    }

    /// Starts a query for `program_id`: the store is asked first.
    pub fn start(program_id: String) -> (r: (WriteThroughQuery, QueryAction))
        ensures
            r.0.program_id == program_id,
            r.0.phase is CheckingCache,
            r.0.wf(),
            r.1 is ReadStore,
    {
        (
            WriteThroughQuery {
                program_id,
                phase: QueryPhase::CheckingCache,
                records: Vec::new(),
                next: 0,
            },
            QueryAction::ReadStore,
        )
    }

    fn advance(&mut self) -> (a: QueryAction)
        requires
            old(self).wf(),
        ensures
            final(self).wf(),
            final(self).program_id == old(self).program_id,
            final(self).records == old(self).records,
            old(self).remaining().len() > 0 ==> (a matches QueryAction::Ingest(plan) && plan@
                == old(self).remaining()[0] && final(self).remaining() == old(
                self,
            ).remaining().drop_first()),
            old(self).remaining().len() == 0 ==> a is ReadStore,
    {
        let (k, plan) = next_plan(self.program_id.as_str(), &self.records, self.next);
        self.next = k;
        match plan {
            Some(plan) => QueryAction::Ingest(plan),
            None => QueryAction::ReadStore,
        }
    }

    /// Takes the outcome of the action last asked for, and says what to do next.
    pub fn step(&mut self, event: QueryEvent) -> (a: QueryAction)
        requires
            old(self).wf(),
            old(self).accepts(&event),
        ensures
            final(self).wf(),
            final(self).program_id == old(self).program_id,
            // The ledger is consulted only when the store holds nothing for the program.
            a is FetchAccounts ==> old(self).phase is CheckingCache && (event matches QueryEvent::StoreRead(
                Ok(rows),
            ) && of_program(old(self).program_id@, rows@).len() == 0),
            // A cache hit is answered from the store.
            old(self).phase is CheckingCache ==> (event matches QueryEvent::StoreRead(Ok(rows)) ==> (
            of_program(old(self).program_id@, rows@).len() > 0 ==> final(self).phase is Answered && (
            a matches QueryAction::Respond(Ok(v)) && views(v@) == of_program(
                old(self).program_id@,
                rows@,
            )))),
            old(self).phase is CheckingCache ==> (event matches QueryEvent::StoreRead(Ok(rows)) ==> (
            of_program(old(self).program_id@, rows@).len() == 0 ==> final(self).phase is Fetching
                && a is FetchAccounts)),
            old(self).phase is Requerying ==> (event matches QueryEvent::StoreRead(Ok(rows)) ==> (final(self).phase is Answered && (a matches QueryAction::Respond(Ok(v)) && views(v@) == of_program(
                old(self).program_id@,
                rows@,
            )))),
            event matches QueryEvent::StoreRead(Err(e)) ==> final(self).phase is Answered && a
                == QueryAction::Respond(Err(QueryError::StoreRead(e))),
            event matches QueryEvent::Fetched(Err(e)) ==> final(self).phase is Answered && a
                == QueryAction::Respond(Err(QueryError::SourceUnavailable(e))),
            // Fetched records: malformed ones are skipped, the others are ingested in order.
            event matches QueryEvent::Fetched(Ok(recs)) ==> ({
                let plans = batch_plans(old(self).program_id@, recs@);
                &&& plans.len() == 0 ==> final(self).phase is Answered && a == QueryAction::Respond(
                    Err(QueryError::NotFound),
                )
                &&& plans.len() > 0 ==> final(self).phase is Ingesting && (a matches QueryAction::Ingest(
                    plan,
                ) && plan@ == plans[0]) && final(self).remaining() == plans.drop_first()
            }),
            event matches QueryEvent::Ingested(Err(e)) ==> final(self).phase is Answered && a
                == QueryAction::Respond(Err(QueryError::StoreWrite(e))),
            event matches QueryEvent::Ingested(Ok(())) ==> ({
                let rem = old(self).remaining();
                &&& rem.len() > 0 ==> final(self).phase is Ingesting && (a matches QueryAction::Ingest(
                    plan,
                ) && plan@ == rem[0]) && final(self).remaining() == rem.drop_first()
                &&& rem.len() == 0 ==> final(self).phase is Requerying && a is ReadStore
            }),
    {
        match event {
            QueryEvent::StoreRead(Err(e)) => {
                self.phase = QueryPhase::Answered;
                QueryAction::Respond(Err(QueryError::StoreRead(e)))
            },
            QueryEvent::StoreRead(Ok(rows)) => {
                let checking = match self.phase {
                    QueryPhase::CheckingCache => true,
                    _ => false,
                };
                let found = select_for_program(self.program_id.as_str(), rows);
                if checking && found.len() == 0 {
                    self.phase = QueryPhase::Fetching;
                    QueryAction::FetchAccounts
                } else {
                    self.phase = QueryPhase::Answered;
                    QueryAction::Respond(Ok(found))
                }
            },
            QueryEvent::Fetched(Err(e)) => {
                self.phase = QueryPhase::Answered;
                QueryAction::Respond(Err(QueryError::SourceUnavailable(e)))
            },
            QueryEvent::Fetched(Ok(recs)) => {
                self.records = recs;
                self.next = 0;
                assert(self.records@.subrange(0, self.records@.len() as int) =~= self.records@);
                let a = self.advance();
                match a {
                    QueryAction::Ingest(_) => {
                        self.phase = QueryPhase::Ingesting;
                        a
                    },
                    _ => {
                        self.phase = QueryPhase::Answered;
                        QueryAction::Respond(Err(QueryError::NotFound))
                    },
                }
            },
            QueryEvent::Ingested(Err(e)) => {
                self.phase = QueryPhase::Answered;
                QueryAction::Respond(Err(QueryError::StoreWrite(e)))
            },
            QueryEvent::Ingested(Ok(())) => {
                let a = self.advance();
                match a {
                    QueryAction::Ingest(_) => {
                        self.phase = QueryPhase::Ingesting;
                    },
                    _ => {
                        self.phase = QueryPhase::Requerying;
                    },
                }
                a
            },
        }
    }
}

} // verus!
