use std::collections::BTreeMap;

use disc_graph::{
    derive_key, required_collections, select_for_program, Collection, Discriminator, IngestAction,
    IngestError, IngestPhase, IngestPlan, Ingestion, Instruction, LedgerRecord, PollAction,
    PollEvent, PollPhase, Poller, QueryAction, QueryError, QueryEvent, SourceError, StoreError,
    WriteThroughQuery, POLL_INTERVAL_SECS,
};

/// A store with overwrite semantics: one document per (collection, key).
#[derive(Default)]
struct FakeStore {
    docs: BTreeMap<(String, String), String>,
    discriminators: BTreeMap<String, Discriminator>,
    failing_edge: Option<usize>,
    failing_node: Option<usize>,
    write_calls: usize,
    read_calls: usize,
}

impl FakeStore {
    fn put(&mut self, collection: &str, key: &str, doc: String) {
        self.write_calls += 1;
        self.docs.insert((collection.to_string(), key.to_string()), doc);
    }

    fn count(&self, collection: &str) -> usize {
        self.docs.keys().filter(|(c, _)| c == collection).count()
    }

    fn read_prefix(&mut self, program_id: &str) -> Vec<Discriminator> {
        self.read_calls += 1;
        self.discriminators
            .values()
            .filter(|d| d.key.starts_with(program_id))
            .cloned()
            .collect()
    }
}

fn outcome(fail_at: Option<usize>, i: usize) -> Result<(), StoreError> {
    if fail_at == Some(i) {
        Err(StoreError { message: "refused".to_string() })
    } else {
        Ok(())
    }
}

fn run_ingest(store: &mut FakeStore, plan: IngestPlan) -> Result<(), IngestError> {
    let (mut ingestion, mut action) = Ingestion::begin(plan);
    loop {
        action = match action {
            IngestAction::WriteNodes => {
                let p = ingestion.plan.clone();
                let mut results = Vec::new();
                for (i, (c, k, d)) in [
                    ("Programs", p.program.key.clone(), format!("{:?}", p.program)),
                    ("Discriminators", p.discriminator.key.clone(), format!("{:?}", p.discriminator)),
                    ("Instructions", p.instruction.key.clone(), format!("{:?}", p.instruction)),
                    ("Users", p.user.key.clone(), format!("{:?}", p.user)),
                ]
                .into_iter()
                .enumerate()
                {
                    let r = outcome(store.failing_node, i);
                    if r.is_ok() {
                        store.put(c, &k, d);
                        if c == "Discriminators" {
                            store.discriminators.insert(k.clone(), p.discriminator.clone());
                        }
                    }
                    results.push(r);
                }
                ingestion.step(results)
            }
            IngestAction::WriteEdges => {
                let p = ingestion.plan.clone();
                let mut results = Vec::new();
                for (i, (c, k, d)) in [
                    ("HasDiscriminator", p.has_discriminator.key.clone(), format!("{:?}", p.has_discriminator)),
                    ("MappedTo", p.mapped_to.key.clone(), format!("{:?}", p.mapped_to)),
                    ("ContributedBy", p.contributed_by.key.clone(), format!("{:?}", p.contributed_by)),
                ]
                .into_iter()
                .enumerate()
                {
                    let r = outcome(store.failing_edge, i);
                    if r.is_ok() {
                        store.put(c, &k, d);
                    }
                    results.push(r);
                }
                ingestion.step(results)
            }
            IngestAction::Finish(r) => return r,
        }
    }
}

fn run_query(
    store: &mut FakeStore,
    ledger: &dyn Fn() -> Result<Vec<LedgerRecord>, SourceError>,
    fetches: &mut usize,
    program_id: &str,
) -> Result<Vec<Discriminator>, QueryError> {
    let (mut query, mut action) = WriteThroughQuery::start(program_id.to_string());
    loop {
        action = match action {
            QueryAction::ReadStore => {
                let rows = store.read_prefix(program_id);
                query.step(QueryEvent::StoreRead(Ok(rows)))
            }
            QueryAction::FetchAccounts => {
                *fetches += 1;
                query.step(QueryEvent::Fetched(ledger()))
            }
            QueryAction::Ingest(plan) => {
                let r = run_ingest(store, plan);
                query.step(QueryEvent::Ingested(r))
            }
            QueryAction::Respond(r) => return r,
        }
    }
}

fn rec(account: &str, data: Vec<u8>) -> LedgerRecord {
    LedgerRecord { account: account.to_string(), data }
}

fn sixteen() -> Vec<u8> {
    (1u8..=16).collect()
}

#[test]
fn plan_holds_the_documents_of_one_record() {
    let plan = IngestPlan::new("P1", &[1, 2, 3, 4, 5, 6, 7, 8], &[9, 10], "U1").unwrap();
    let dk = derive_key("P1", &[1, 2, 3, 4, 5, 6, 7, 8]).unwrap();
    let ik = derive_key("P1", &[9, 10]).unwrap();
    assert_eq!(plan.program.key, "P1");
    assert_eq!(plan.program.id, "P1");
    assert_eq!(plan.discriminator.key, dk);
    assert_eq!(plan.discriminator.program_id, "P1");
    assert_eq!(plan.discriminator.discriminator_id, "0102030405060708");
    assert_eq!(plan.discriminator.discriminator_data, vec![1, 2, 3, 4, 5, 6, 7, 8]);
    assert_eq!(plan.discriminator.user_id, "U1");
    assert_eq!(
        plan.discriminator.instruction,
        Instruction { key: ik.clone(), instruction_id: "090a".to_string(), instruction_data: vec![9, 10] }
    );
    assert_eq!(plan.instruction, plan.discriminator.instruction);
    assert_eq!(plan.user.key, "U1");
    assert_eq!(plan.has_discriminator.from, "Programs/P1");
    assert_eq!(plan.has_discriminator.to, format!("Discriminators/{}", dk));
    assert_eq!(plan.has_discriminator.key, format!("P1-{}", dk));
    assert_eq!(plan.mapped_to.from, format!("Discriminators/{}", dk));
    assert_eq!(plan.mapped_to.to, format!("Instructions/{}", ik));
    assert_eq!(plan.mapped_to.key, format!("{}-{}", dk, ik));
    assert_eq!(plan.contributed_by.to, "Users/U1");
    assert_eq!(plan.contributed_by.key, format!("{}-U1", dk));
}

#[test]
fn plan_escapes_program_and_user_keys() {
    let plan = IngestPlan::new("a/b", &[1; 8], &[2], "u/1").unwrap();
    assert_eq!(plan.program.key, "a_sb");
    assert_eq!(plan.program.id, "a/b");
    assert_eq!(plan.user.key, "u_s1");
    assert_eq!(plan.user.id, "u/1");
    assert_eq!(plan.has_discriminator.from, "Programs/a_sb");
    assert!(plan.discriminator.key.starts_with("a_sb:"));
}

#[test]
fn lookalike_programs_do_not_share_keys() {
    let a = IngestPlan::new("a/b", &[1; 8], &[2], "U").unwrap();
    let b = IngestPlan::new("a_b", &[1; 8], &[2], "U").unwrap();
    assert_ne!(a.program.key, b.program.key);
    assert_ne!(a.discriminator.key, b.discriminator.key);
    assert_ne!(a.instruction.key, b.instruction.key);
    assert_ne!(a.has_discriminator.key, b.has_discriminator.key);
}

#[test]
fn ingestions_of_lookalike_programs_commute() {
    let plan_a = || IngestPlan::new("a/b", &[1; 8], &[2], "U").unwrap();
    let plan_b = || IngestPlan::new("a_b", &[1; 8], &[2], "U").unwrap();
    let mut first = FakeStore::default();
    run_ingest(&mut first, plan_a()).unwrap();
    run_ingest(&mut first, plan_b()).unwrap();
    let mut second = FakeStore::default();
    run_ingest(&mut second, plan_b()).unwrap();
    run_ingest(&mut second, plan_a()).unwrap();
    assert_eq!(first.docs, second.docs);
    assert_eq!(first.count("Discriminators"), 2);
}

#[test]
fn edge_keys_keep_ends_apart() {
    let a = IngestPlan::new("p-q", &[1; 8], &[2], "r").unwrap();
    let b = IngestPlan::new("p", &[1; 8], &[2], "q-r").unwrap();
    assert_ne!(a.contributed_by.key, b.contributed_by.key);
    assert!(!a.discriminator.key.contains('-'));
    assert!(!b.user.key.contains('-'));
}

#[test]
fn plan_refuses_empty_parts() {
    assert_eq!(IngestPlan::new("P1", &[], &[1], "U1"), Err(IngestError::InvalidInput));
    assert_eq!(IngestPlan::new("P1", &[1; 8], &[], "U1"), Err(IngestError::InvalidInput));
}

#[test]
fn ingestion_writes_nodes_then_edges() {
    let plan = IngestPlan::new("P1", &[1; 8], &[2], "U1").unwrap();
    let (mut ing, a) = Ingestion::begin(plan);
    assert_eq!(a, IngestAction::WriteNodes);
    assert_eq!(ing.phase, IngestPhase::WritingNodes);
    let a = ing.step(vec![Ok(()), Ok(()), Ok(()), Ok(())]);
    assert_eq!(a, IngestAction::WriteEdges);
    let a = ing.step(vec![Ok(()), Ok(()), Ok(())]);
    assert_eq!(a, IngestAction::Finish(Ok(())));
    assert_eq!(ing.phase, IngestPhase::Finished);
}

#[test]
fn node_failure_stops_before_edges() {
    let plan = IngestPlan::new("P1", &[1; 8], &[2], "U1").unwrap();
    let (mut ing, _) = Ingestion::begin(plan);
    let e1 = StoreError { message: "first".to_string() };
    let e2 = StoreError { message: "second".to_string() };
    let a = ing.step(vec![Ok(()), Ok(()), Err(e1.clone()), Err(e2)]);
    assert_eq!(
        a,
        IngestAction::Finish(Err(IngestError::NodeWrite { collection: Collection::Instructions, cause: e1 }))
    );
}

#[test]
fn edge_failure_names_the_edge_collection() {
    let plan = IngestPlan::new("P1", &[1; 8], &[2], "U1").unwrap();
    let (mut ing, _) = Ingestion::begin(plan);
    ing.step(vec![Ok(()), Ok(()), Ok(()), Ok(())]);
    let e = StoreError { message: "edge".to_string() };
    let a = ing.step(vec![Ok(()), Ok(()), Err(e.clone())]);
    assert_eq!(
        a,
        IngestAction::Finish(Err(IngestError::EdgeWrite { collection: Collection::ContributedBy, cause: e }))
    );
}

#[test]
fn ingesting_twice_keeps_one_of_each_document() {
    let mut store = FakeStore::default();
    let plan = || IngestPlan::new("P1", &[1; 8], &[2, 3], "U1").unwrap();
    run_ingest(&mut store, plan()).unwrap();
    let after_once = store.docs.clone();
    run_ingest(&mut store, plan()).unwrap();
    assert_eq!(store.docs, after_once);
    assert_eq!(store.count("Discriminators"), 1);
    assert_eq!(store.count("Instructions"), 1);
    assert_eq!(store.docs.len(), 7);
}

#[test]
fn retry_after_edge_failure_leaves_one_set() {
    let mut clean = FakeStore::default();
    run_ingest(&mut clean, IngestPlan::new("P1", &[1; 8], &[2, 3], "U1").unwrap()).unwrap();

    let mut store = FakeStore { failing_edge: Some(1), ..FakeStore::default() };
    let r = run_ingest(&mut store, IngestPlan::new("P1", &[1; 8], &[2, 3], "U1").unwrap());
    assert!(matches!(r, Err(IngestError::EdgeWrite { collection: Collection::MappedTo, .. })));
    assert_eq!(store.count("Discriminators"), 1);
    store.failing_edge = None;
    run_ingest(&mut store, IngestPlan::new("P1", &[1; 8], &[2, 3], "U1").unwrap()).unwrap();
    assert_eq!(store.docs, clean.docs);
}

#[test]
fn node_failure_writes_no_edge() {
    let mut store = FakeStore { failing_node: Some(0), ..FakeStore::default() };
    let r = run_ingest(&mut store, IngestPlan::new("P1", &[1; 8], &[2], "U1").unwrap());
    assert!(matches!(r, Err(IngestError::NodeWrite { collection: Collection::Programs, .. })));
    assert_eq!(store.count("HasDiscriminator") + store.count("MappedTo") + store.count("ContributedBy"), 0);
}

#[test]
fn round_trip_finds_the_ingested_record() {
    let mut store = FakeStore::default();
    run_ingest(&mut store, IngestPlan::new("P", &[4; 8], &[5, 6, 7], "U").unwrap()).unwrap();
    let mut fetches = 0;
    let got = run_query(&mut store, &|| Ok(vec![]), &mut fetches, "P").unwrap();
    assert_eq!(got.len(), 1);
    assert_eq!(got[0].discriminator_data, vec![4; 8]);
    assert_eq!(got[0].instruction.instruction_data, vec![5, 6, 7]);
}

#[test]
fn end_to_end_ingest_then_query() {
    let mut store = FakeStore::default();
    let mut fetches = 0;
    let ledger = || Ok(vec![rec("U1", sixteen())]);
    let got = run_query(&mut store, &ledger, &mut fetches, "P1").unwrap();
    assert_eq!(fetches, 1);
    assert_eq!(got.len(), 1);
    assert_eq!(got[0].discriminator_id, "0102030405060708");
    assert_eq!(got[0].instruction.instruction_id, "090a0b0c0d0e0f10");
    assert_eq!(got[0].user_id, "U1");
    assert_eq!(got[0].program_id, "P1");
}

#[test]
fn cache_hit_does_not_fetch() {
    let mut store = FakeStore::default();
    run_ingest(&mut store, IngestPlan::new("P1", &[1; 8], &[2], "U1").unwrap()).unwrap();
    let mut fetches = 0;
    let ledger = || Err(SourceError { message: "must not be asked".to_string() });
    let got = run_query(&mut store, &ledger, &mut fetches, "P1").unwrap();
    assert_eq!(fetches, 0);
    assert_eq!(got.len(), 1);
}

#[test]
fn zero_accounts_is_not_found() {
    let mut store = FakeStore::default();
    let mut fetches = 0;
    let r = run_query(&mut store, &|| Ok(vec![]), &mut fetches, "P2");
    assert_eq!(r, Err(QueryError::NotFound));
    assert_eq!(fetches, 1);
    assert_eq!(store.write_calls, 0);
}

#[test]
fn only_malformed_accounts_is_not_found() {
    let mut store = FakeStore::default();
    let mut fetches = 0;
    let r = run_query(&mut store, &|| Ok(vec![rec("A", vec![1, 2, 3, 4])]), &mut fetches, "P2");
    assert_eq!(r, Err(QueryError::NotFound));
    assert_eq!(store.write_calls, 0);
}

#[test]
fn malformed_record_is_skipped_and_the_rest_ingested() {
    let mut store = FakeStore::default();
    let mut fetches = 0;
    let ledger = || Ok(vec![rec("A", vec![1, 2, 3, 4]), rec("B", sixteen())]);
    let got = run_query(&mut store, &ledger, &mut fetches, "P1").unwrap();
    assert_eq!(got.len(), 1);
    assert_eq!(got[0].user_id, "B");
    assert_eq!(store.write_calls, 7);
}

#[test]
fn ledger_failure_is_source_unavailable() {
    let mut store = FakeStore::default();
    let mut fetches = 0;
    let e = SourceError { message: "rpc down".to_string() };
    let r = run_query(&mut store, &|| Err(e.clone()), &mut fetches, "P1");
    assert_eq!(r, Err(QueryError::SourceUnavailable(e)));
}

#[test]
fn store_read_failure_is_reported() {
    let (mut q, _) = WriteThroughQuery::start("P1".to_string());
    let e = StoreError { message: "query failed".to_string() };
    let a = q.step(QueryEvent::StoreRead(Err(e.clone())));
    assert_eq!(a, QueryAction::Respond(Err(QueryError::StoreRead(e))));
}

#[test]
fn ingest_failure_aborts_the_batch() {
    let mut store = FakeStore { failing_node: Some(1), ..FakeStore::default() };
    let mut fetches = 0;
    let ledger = || Ok(vec![rec("A", sixteen()), rec("B", vec![3; 10])]);
    let r = run_query(&mut store, &ledger, &mut fetches, "P1");
    assert!(matches!(
        r,
        Err(QueryError::StoreWrite(IngestError::NodeWrite { collection: Collection::Discriminators, .. }))
    ));
    assert!(store.docs.keys().all(|(_, k)| !k.contains("B")));
}

#[test]
fn selection_drops_other_programs() {
    let a = IngestPlan::new("P1", &[1; 8], &[2], "U").unwrap().discriminator;
    let b = IngestPlan::new("P10", &[1; 8], &[2], "U").unwrap().discriminator;
    let c = IngestPlan::new("P1", &[3; 8], &[2], "U").unwrap().discriminator;
    let kept = select_for_program("P1", vec![a.clone(), b, c.clone()]);
    assert_eq!(kept, vec![a, c]);
}

#[test]
fn required_collections_lists_all_seven() {
    let names: Vec<&str> = required_collections().into_iter().map(|c| c.name()).collect();
    assert_eq!(
        names,
        vec!["Programs", "Discriminators", "Instructions", "Users", "HasDiscriminator", "MappedTo", "ContributedBy"]
    );
}

#[test]
fn poller_sleeps_after_a_failed_fetch() {
    let (mut p, a) = Poller::new("P1".to_string(), POLL_INTERVAL_SECS);
    assert_eq!(a, PollAction::FetchAccounts);
    let a = p.step(PollEvent::Fetched(Err(SourceError { message: "down".to_string() })));
    assert_eq!(a, PollAction::Sleep(10));
    assert_eq!(p.step(PollEvent::Woke), PollAction::FetchAccounts);
}

#[test]
fn poller_continues_after_an_ingest_failure() {
    let (mut p, _) = Poller::new("P1".to_string(), 5);
    let a = p.step(PollEvent::Fetched(Ok(vec![
        rec("A", sixteen()),
        rec("B", vec![1, 2, 3, 4]),
        rec("C", vec![7; 9]),
    ])));
    match a {
        PollAction::Ingest(plan) => assert_eq!(plan.user.id, "A"),
        other => panic!("expected an ingestion, got {:?}", other),
    }
    let e = IngestError::InvalidInput;
    match p.step(PollEvent::Ingested(Err(e))) {
        PollAction::Ingest(plan) => assert_eq!(plan.user.id, "C"),
        other => panic!("expected an ingestion, got {:?}", other),
    }
    assert_eq!(p.step(PollEvent::Ingested(Ok(()))), PollAction::Sleep(5));
    assert_eq!(p.phase, PollPhase::Sleeping);
}

#[test]
fn poller_stops_only_when_cancelled() {
    let (mut p, _) = Poller::new("P1".to_string(), 10);
    assert_eq!(p.step(PollEvent::Fetched(Ok(vec![]))), PollAction::Sleep(10));
    assert_eq!(p.step(PollEvent::Cancelled), PollAction::Stop);
    assert_eq!(p.phase, PollPhase::Stopped);
}
