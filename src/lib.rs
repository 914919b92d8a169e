//! Ingestion and write-through caching engine for a graph of on-chain
//! program discriminators and the instructions they tag.
//!
//! The store and the ledger are outside collaborators: the engines here are
//! state machines that say which write, query or fetch to perform next, and
//! take its outcome back.

pub mod graph;
pub mod ingest;
pub mod keys;
pub mod poller;
pub mod query;
pub mod record;

pub use graph::{
    required_collections, Collection, ContributedBy, Discriminator, HasDiscriminator, Instruction,
    MappedTo, Program, User,
};
pub use ingest::{IngestAction, IngestError, IngestPhase, IngestPlan, Ingestion, StoreError};
pub use keys::{derive_key, escape_key, namespaced_key, sanitize_key, KeyError};
pub use poller::{PollAction, PollEvent, PollPhase, Poller, POLL_INTERVAL_SECS};
pub use query::{
    select_for_program, QueryAction, QueryError, QueryEvent, QueryPhase, SourceError,
    WriteThroughQuery,
};
pub use record::{decode, next_plan, DecodeError, DiscriminatorFetcher, LedgerRecord, HEADER_LEN};
