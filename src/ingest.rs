//! The ingestion engine: the documents that one record becomes, and the
//! two-phase protocol that writes them (all nodes, then all edges).

use crate::graph::{
    apply_writes, consistent, lemma_absorbed, lemma_commute, lemma_apply_concat, lemma_last_write_wins, GraphState, Collection, ContributedBy, Discriminator, DiscriminatorView, DocView, EdgeView, HasDiscriminator,
    Instruction, InstructionView, MappedTo, Program, ProgramView, User, UserView, Write,
};
use crate::keys::{
    derive_key, derived_key, encode_hex, escape_key, escaped, free_of, hex_lower,
    lemma_derived_key_injective, lemma_derived_key_separators, lemma_escaped_injective,
    lemma_escaped_separators, lemma_split_at, sha256_of,
};
use vstd::prelude::*;
use vstd::slice::slice_to_vec;
use vstd::string::StringExecFns;

verus! {

/// Why the store refused a write or a query.
#[derive(Debug, Clone, PartialEq, Eq)]
pub struct StoreError {
    pub message: String,
}

#[derive(Debug, Clone, PartialEq, Eq)]
pub enum IngestError {
    /// A discriminator or an instruction without bytes.
    InvalidInput,
    /// A node could not be written; no edge was attempted.
    NodeWrite { collection: Collection, cause: StoreError },
    /// An edge could not be written; the nodes are in place.
    EdgeWrite { collection: Collection, cause: StoreError },
}

/// `<collection>/<key>`: how an edge names a document.
pub open spec fn doc_ref(c: Collection, key: Seq<char>) -> Seq<char> {
    c.spec_name() + seq!['/'] + key
}

/// The key of an edge, made of the keys of its two ends; no node key holds
/// `-`, so the key gives back both ends.
pub open spec fn edge_key(from_key: Seq<char>, to_key: Seq<char>) -> Seq<char> {
    from_key + seq!['-'] + to_key
}

pub struct PlanView {
    pub program: ProgramView,
    pub discriminator: DiscriminatorView,
    pub instruction: InstructionView,
    pub user: UserView,
    pub has_discriminator: EdgeView,
    pub mapped_to: EdgeView,
    pub contributed_by: EdgeView,
}

/// The documents that ingesting `(d, i)` contributed by `u` under program `p` writes.
pub open spec fn planned(p: Seq<char>, d: Seq<u8>, i: Seq<u8>, u: Seq<char>) -> PlanView {
    let pk = escaped(p);
    let dk = derived_key(p, d);
    let ik = derived_key(p, i);
    let uk = escaped(u);
    let instruction = InstructionView { key: ik, instruction_id: hex_lower(i), instruction_data: i };
    PlanView {
        program: ProgramView { key: pk, id: p },
        discriminator: DiscriminatorView {
            key: dk,
            program_id: p,
            discriminator_id: hex_lower(d),
            discriminator_data: d,
            instruction,
            user_id: u,
        },
        instruction,
        user: UserView { key: uk, id: u },
        has_discriminator: EdgeView {
            key: edge_key(pk, dk),
            from: doc_ref(Collection::Programs, pk),
            to: doc_ref(Collection::Discriminators, dk),
        },
        mapped_to: EdgeView {
            key: edge_key(dk, ik),
            from: doc_ref(Collection::Discriminators, dk),
            to: doc_ref(Collection::Instructions, ik),
        },
        contributed_by: EdgeView {
            key: edge_key(dk, uk),
            from: doc_ref(Collection::Discriminators, dk),
            to: doc_ref(Collection::Users, uk),
        },
    }
}

impl PlanView {
    /// The node upserts, in the order Programs, Discriminators, Instructions, Users.
    pub open spec fn node_writes(self) -> Seq<Write> {
        seq![
            Write {
                collection: Collection::Programs,
                key: self.program.key,
                doc: DocView::Program(self.program),
            },
            Write {
                collection: Collection::Discriminators,
                key: self.discriminator.key,
                doc: DocView::Discriminator(self.discriminator),
            },
            Write {
                collection: Collection::Instructions,
                key: self.instruction.key,
                doc: DocView::Instruction(self.instruction),
            },
            Write { collection: Collection::Users, key: self.user.key, doc: DocView::User(self.user) },
        ]
    }

    /// The edge upserts, in the order HasDiscriminator, MappedTo, ContributedBy.
    pub open spec fn edge_writes(self) -> Seq<Write> {
        seq![
            Write {
                collection: Collection::HasDiscriminator,
                key: self.has_discriminator.key,
                doc: DocView::Edge(self.has_discriminator),
            },
            Write {
                collection: Collection::MappedTo,
                key: self.mapped_to.key,
                doc: DocView::Edge(self.mapped_to),
            },
            Write {
                collection: Collection::ContributedBy,
                key: self.contributed_by.key,
                doc: DocView::Edge(self.contributed_by),
            },
        ]
    }

    /// Everything one successful ingestion writes: nodes first, then edges.
    pub open spec fn writes(self) -> Seq<Write> {
        self.node_writes() + self.edge_writes()
    }
}

/// The seven documents of one record, ready to be written.
#[derive(Debug, Clone, PartialEq, Eq)]
pub struct IngestPlan {
    pub program: Program,
    pub discriminator: Discriminator,
    pub instruction: Instruction,
    pub user: User,
    pub has_discriminator: HasDiscriminator,
    pub mapped_to: MappedTo,
    pub contributed_by: ContributedBy,
}

impl View for IngestPlan {
    type V = PlanView;

    open spec fn view(&self) -> PlanView {
        PlanView {
            program: self.program@,
            discriminator: self.discriminator@,
            instruction: self.instruction@,
            user: self.user@,
            has_discriminator: self.has_discriminator@,
            mapped_to: self.mapped_to@,
            contributed_by: self.contributed_by@,
        }
    }
}

fn make_doc_ref(c: Collection, key: &String) -> (r: String)
    ensures
        r@ == doc_ref(c, key@),
{
    let mut r = String::from_str(c.name());
    proof {
        reveal_strlit("/");
    }
    r.append("/");
    r.append(key.as_str());
    r
}

fn make_edge_key(from_key: &String, to_key: &String) -> (r: String)
    ensures
        r@ == edge_key(from_key@, to_key@),
{
    let mut r = from_key.clone();
    proof {
        reveal_strlit("-");
    }
    r.append("-");
    r.append(to_key.as_str());
    r
}

fn make_instruction(key: &String, instruction_bytes: &[u8]) -> (r: Instruction)
    ensures
        r@ == (InstructionView {
            key: key@,
            instruction_id: hex_lower(instruction_bytes@),
            instruction_data: instruction_bytes@,
        }),
{
    Instruction {
        key: key.clone(),
        instruction_id: encode_hex(instruction_bytes),
        instruction_data: slice_to_vec(instruction_bytes),
    }
}

impl IngestPlan {
    /// The documents that ingesting one record writes. A record whose
    /// discriminator or instruction is empty has no key, and is refused.
    pub fn new(program_id: &str, discriminator_bytes: &[u8], instruction_bytes: &[u8], user_id: &str)
        -> (r: Result<IngestPlan, IngestError>)
        ensures
            r is Err <==> (discriminator_bytes@.len() == 0 || instruction_bytes@.len() == 0),
            r matches Err(e) ==> e is InvalidInput,
            r matches Ok(plan) ==> plan@ == planned(
                program_id@,
                discriminator_bytes@,
                instruction_bytes@,
                user_id@,
            ),
    {
        let dk = match derive_key(program_id, discriminator_bytes) {
            Ok(k) => k,
            Err(_) => {
                return Err(IngestError::InvalidInput);
            },
        };
        let ik = match derive_key(program_id, instruction_bytes) {
            Ok(k) => k,
            Err(_) => {
                return Err(IngestError::InvalidInput);
            },
        };
        let pk = escape_key(program_id);
        let uk = escape_key(user_id);
        let program = Program { key: pk.clone(), id: String::from_str(program_id) };
        let discriminator = Discriminator {
            key: dk.clone(),
            program_id: String::from_str(program_id),
            discriminator_id: encode_hex(discriminator_bytes),
            discriminator_data: slice_to_vec(discriminator_bytes),
            instruction: make_instruction(&ik, instruction_bytes),
            user_id: String::from_str(user_id),
        };
        let instruction = make_instruction(&ik, instruction_bytes);
        let user = User { key: uk.clone(), id: String::from_str(user_id) };
        let has_discriminator = HasDiscriminator {
            key: make_edge_key(&pk, &dk),
            from: make_doc_ref(Collection::Programs, &pk),
            to: make_doc_ref(Collection::Discriminators, &dk),
        };
        let mapped_to = MappedTo {
            key: make_edge_key(&dk, &ik),
            from: make_doc_ref(Collection::Discriminators, &dk),
            to: make_doc_ref(Collection::Instructions, &ik),
        };
        let contributed_by = ContributedBy {
            key: make_edge_key(&dk, &uk),
            from: make_doc_ref(Collection::Discriminators, &dk),
            to: make_doc_ref(Collection::Users, &uk),
        };
        Ok(IngestPlan {
            program,
            discriminator,
            instruction,
            user,
            has_discriminator,
            mapped_to,
            contributed_by,
        })
    }
}

/// The discriminators of program `p` that the store holds.
pub open spec fn discriminators_of(g: GraphState, p: Seq<char>) -> Set<DiscriminatorView> {
    Set::new(
        |dv: DiscriminatorView|
            dv.program_id == p && exists|k: Seq<char>|
                g.contains_key((Collection::Discriminators, k)) && g[(Collection::Discriminators, k)]
                    == DocView::Discriminator(dv),
    )
}

proof fn lemma_plan_writes_shape(v: PlanView)
    ensures
        v.writes().len() == 7,
        v.writes()[0] == v.node_writes()[0],
        v.writes()[1] == v.node_writes()[1],
        v.writes()[2] == v.node_writes()[2],
        v.writes()[3] == v.node_writes()[3],
        v.writes()[4] == v.edge_writes()[0],
        v.writes()[5] == v.edge_writes()[1],
        v.writes()[6] == v.edge_writes()[2],
        v.writes()[0].collection == Collection::Programs,
        v.writes()[1].collection == Collection::Discriminators,
        v.writes()[2].collection == Collection::Instructions,
        v.writes()[3].collection == Collection::Users,
        v.writes()[4].collection == Collection::HasDiscriminator,
        v.writes()[5].collection == Collection::MappedTo,
        v.writes()[6].collection == Collection::ContributedBy,
{
}

/// After one ingestion, the discriminator node and the instruction node
/// stand under their derived keys with the planned content.
proof fn lemma_ingested_nodes(s: GraphState, p: Seq<char>, d: Seq<u8>, i: Seq<u8>, u: Seq<char>)
    ensures
        ({
            let v = planned(p, d, i, u);
            let g = apply_writes(s, v.writes());
            &&& g.contains_key((Collection::Discriminators, derived_key(p, d)))
            &&& g[(Collection::Discriminators, derived_key(p, d))] == DocView::Discriminator(
                v.discriminator,
            )
            &&& g.contains_key((Collection::Instructions, derived_key(p, i)))
            &&& g[(Collection::Instructions, derived_key(p, i))] == DocView::Instruction(
                v.instruction,
            )
        }),
{
    let v = planned(p, d, i, u);
    let w = v.writes();
    lemma_plan_writes_shape(v);
    assert forall|k: int| 1 < k < w.len() implies #[trigger] w[k].location() != w[1].location() by {
        if k == 2 {
        } else if k == 3 {
        } else if k == 4 {
        } else if k == 5 {
        } else {
        }
    }
    lemma_last_write_wins(s, w, 1);
    assert forall|k: int| 2 < k < w.len() implies #[trigger] w[k].location() != w[2].location() by {
        if k == 3 {
        } else if k == 4 {
        } else if k == 5 {
        } else {
        }
    }
    lemma_last_write_wins(s, w, 2);
}

/// Ingesting the same record twice leaves the store exactly as ingesting it
/// once: a single discriminator node and a single instruction node under the
/// derived keys, with unchanged content.
pub proof fn lemma_ingest_idempotent(s: GraphState, p: Seq<char>, d: Seq<u8>, i: Seq<u8>, u: Seq<char>)
    ensures
        ({
            let v = planned(p, d, i, u);
            let once = apply_writes(s, v.writes());
            &&& apply_writes(once, v.writes()) == once
            &&& once.contains_key((Collection::Discriminators, derived_key(p, d)))
            &&& once.contains_key((Collection::Instructions, derived_key(p, i)))
            &&& once[(Collection::Discriminators, derived_key(p, d))] == DocView::Discriminator(
                v.discriminator,
            )
            &&& once[(Collection::Instructions, derived_key(p, i))] == DocView::Instruction(
                v.instruction,
            )
        }),
{
    let v = planned(p, d, i, u);
    lemma_absorbed(s, v.writes(), v.writes());
    lemma_ingested_nodes(s, p, d, i, u);
}

/// When the node phase succeeded and the edge phase failed after any of the
/// edges had landed, a retry that completes leaves the store exactly as one
/// clean ingestion would: no node or edge is doubled.
pub proof fn lemma_retry_after_edge_failure(
    s: GraphState,
    p: Seq<char>,
    d: Seq<u8>,
    i: Seq<u8>,
    u: Seq<char>,
    landed: Seq<Write>,
)
    requires
        forall|k: int|
            0 <= k < landed.len() ==> planned(p, d, i, u).edge_writes().contains(#[trigger] landed[k]),
    ensures
        ({
            let v = planned(p, d, i, u);
            let failed = apply_writes(apply_writes(s, v.node_writes()), landed);
            apply_writes(failed, v.writes()) == apply_writes(s, v.writes())
        }),
{
    let v = planned(p, d, i, u);
    let first = v.node_writes() + landed;
    lemma_apply_concat(s, v.node_writes(), landed);
    assert forall|k: int| 0 <= k < first.len() implies v.writes().contains(#[trigger] first[k]) by {
        if k < 4 {
            assert(v.writes()[k] == first[k]);
        } else {
            assert(v.edge_writes().contains(landed[k - 4]));
            let m = choose|m: int| 0 <= m < 3 && v.edge_writes()[m] == landed[k - 4];
            assert(v.writes()[m + 4] == first[k]);
        }
    }
    lemma_absorbed(s, first, v.writes());
}

/// Ingesting `(d, i)` under `p` and then asking for the discriminators of
/// `p` finds one whose bytes are `d`, linked to an instruction whose bytes
/// are `i`.
pub proof fn lemma_round_trip(s: GraphState, p: Seq<char>, d: Seq<u8>, i: Seq<u8>, u: Seq<char>)
    ensures
        exists|dv: DiscriminatorView|
            discriminators_of(apply_writes(s, planned(p, d, i, u).writes()), p).contains(dv)
                && dv.discriminator_data == d && dv.instruction.instruction_data == i,
{
    let v = planned(p, d, i, u);
    let g = apply_writes(s, v.writes());
    lemma_ingested_nodes(s, p, d, i, u);
    assert(discriminators_of(g, p).contains(v.discriminator));
}

/// Equal edge keys over node keys come from the same two ends.
pub proof fn lemma_edge_key_injective(a: Seq<char>, b: Seq<char>, c: Seq<char>, d: Seq<char>)
    requires
        edge_key(a, b) == edge_key(c, d),
        free_of(a, '-'),
        free_of(c, '-'),
    ensures
        a == c,
        b == d,
{
    lemma_split_at(a, b, c, d, '-');
}

/// Two ingestions never put different documents at one location, as long
/// as the hash has no collision on their bytes and a discriminator of a
/// program is seen with one instruction and one user.
pub proof fn lemma_plans_agree(
    p1: Seq<char>,
    d1: Seq<u8>,
    i1: Seq<u8>,
    u1: Seq<char>,
    p2: Seq<char>,
    d2: Seq<u8>,
    i2: Seq<u8>,
    u2: Seq<char>,
)
    requires
        sha256_of(d1) == sha256_of(d2) ==> d1 == d2,
        sha256_of(i1) == sha256_of(i2) ==> i1 == i2,
        p1 == p2 && d1 == d2 ==> i1 == i2 && u1 == u2,
    ensures
        consistent(planned(p1, d1, i1, u1).writes(), planned(p2, d2, i2, u2).writes()),
{
    let v1 = planned(p1, d1, i1, u1);
    let v2 = planned(p2, d2, i2, u2);
    let w1 = v1.writes();
    let w2 = v2.writes();
    lemma_plan_writes_shape(v1);
    lemma_plan_writes_shape(v2);
    lemma_escaped_separators(p1);
    lemma_escaped_separators(p2);
    lemma_escaped_separators(u1);
    lemma_escaped_separators(u2);
    lemma_derived_key_separators(p1, d1);
    lemma_derived_key_separators(p2, d2);
    assert forall|j: int, k: int|
        0 <= j < w1.len() && 0 <= k < w2.len() && #[trigger] w1[j].location()
            == #[trigger] w2[k].location() implies w1[j].doc == w2[k].doc by {
        assert(w1[j].collection == w2[k].collection);
        if j == 0 {
            assert(w2[k] == w2[0]);
            lemma_escaped_injective(p1, p2);
        } else if j == 1 {
            assert(w2[k] == w2[1]);
            lemma_derived_key_injective(p1, d1, p2, d2);
        } else if j == 2 {
            assert(w2[k] == w2[2]);
            lemma_derived_key_injective(p1, i1, p2, i2);
        } else if j == 3 {
            assert(w2[k] == w2[3]);
            lemma_escaped_injective(u1, u2);
        } else if j == 4 {
            assert(w2[k] == w2[4]);
            lemma_edge_key_injective(v1.program.key, v1.discriminator.key, v2.program.key, v2.discriminator.key);
            lemma_escaped_injective(p1, p2);
            lemma_derived_key_injective(p1, d1, p2, d2);
        } else if j == 5 {
            assert(w2[k] == w2[5]);
            lemma_edge_key_injective(v1.discriminator.key, v1.instruction.key, v2.discriminator.key, v2.instruction.key);
            lemma_derived_key_injective(p1, d1, p2, d2);
            lemma_derived_key_injective(p1, i1, p2, i2);
        } else {
            assert(w2[k] == w2[6]);
            lemma_edge_key_injective(v1.discriminator.key, v1.user.key, v2.discriminator.key, v2.user.key);
            lemma_derived_key_injective(p1, d1, p2, d2);
            lemma_escaped_injective(u1, u2);
        }
    }
}

/// Under the same conditions, two ingestions commute: the store ends the
/// same whichever of them lands first.
pub proof fn lemma_ingestions_commute(
    s: GraphState,
    p1: Seq<char>,
    d1: Seq<u8>,
    i1: Seq<u8>,
    u1: Seq<char>,
    p2: Seq<char>,
    d2: Seq<u8>,
    i2: Seq<u8>,
    u2: Seq<char>,
)
    requires
        sha256_of(d1) == sha256_of(d2) ==> d1 == d2,
        sha256_of(i1) == sha256_of(i2) ==> i1 == i2,
        p1 == p2 && d1 == d2 ==> i1 == i2 && u1 == u2,
    ensures
        ({
            let w1 = planned(p1, d1, i1, u1).writes();
            let w2 = planned(p2, d2, i2, u2).writes();
            apply_writes(apply_writes(s, w1), w2) == apply_writes(apply_writes(s, w2), w1)
        }),
{
    lemma_plans_agree(p1, d1, i1, u1, p2, d2, i2, u2);
    lemma_commute(s, planned(p1, d1, i1, u1).writes(), planned(p2, d2, i2, u2).writes());
}

/// The node collections, in the order their writes are reported.
pub open spec fn node_collections() -> Seq<Collection> {
    seq![Collection::Programs, Collection::Discriminators, Collection::Instructions, Collection::Users]
}

/// The edge collections, in the order their writes are reported.
pub open spec fn edge_collections() -> Seq<Collection> {
    seq![Collection::HasDiscriminator, Collection::MappedTo, Collection::ContributedBy]
}

pub open spec fn all_ok(results: Seq<Result<(), StoreError>>) -> bool {
    forall|k: int| 0 <= k < results.len() ==> (#[trigger] results[k]) is Ok
}

/// `e` is the first failure of `results`, reported as a failure of the
/// matching collection of `order`.
pub open spec fn first_failure_is(
    results: Seq<Result<(), StoreError>>,
    order: Seq<Collection>,
    collection: Collection,
    cause: StoreError,
) -> bool {
    exists|j: int|
        0 <= j < results.len() && results[j] == Err::<(), StoreError>(cause) && order[j] == collection
            && all_ok(results.subrange(0, j))
}

fn first_failure(results: &Vec<Result<(), StoreError>>) -> (r: Option<usize>)
    ensures
        r is None <==> all_ok(results@),
        r matches Some(j) ==> j < results@.len() && results@[j as int] is Err && all_ok(
            results@.subrange(0, j as int),
        ),
{
    let mut j: usize = 0;
    while j < results.len()
        invariant
            j <= results@.len(),
            all_ok(results@.subrange(0, j as int)),
        decreases results@.len() - j,
    {
        if results[j].is_err() {
            return Some(j);
        }
        assert(results@.subrange(0, j + 1) =~= results@.subrange(0, j as int).push(results@[j as int]));
        j = j + 1;
    }
    assert(results@.subrange(0, j as int) =~= results@);
    None
}

fn failure_cause(results: Vec<Result<(), StoreError>>, j: usize) -> (r: StoreError)
    requires
        j < results@.len(),
        results@[j as int] is Err,
    ensures
        results@[j as int] == Err::<(), StoreError>(r),
{
    let mut results = results;
    match results.remove(j) {
        Err(e) => e,
        Ok(()) => StoreError { message: String::new() },
    }
}

fn collection_at(order: &Vec<Collection>, j: usize) -> (r: Collection)
    requires
        j < order@.len(),
    ensures
        r == order@[j as int],
{
    order[j]
}

#[derive(Debug, Clone, PartialEq, Eq)]
pub enum IngestPhase {
    /// The four node writes are under way.
    WritingNodes,
    /// The nodes are stored; the three edge writes are under way.
    WritingEdges,
    Finished,
}

/// What the caller is asked to do next.
#[derive(Debug, PartialEq, Eq)]
pub enum IngestAction {
    /// Upsert `program`, `discriminator`, `instruction` and `user` of the
    /// plan, and report the four results in that order.
    WriteNodes,
    /// Upsert `has_discriminator`, `mapped_to` and `contributed_by` of the
    /// plan, and report the three results in that order.
    WriteEdges,
    /// The ingestion is over, with this outcome.
    Finish(Result<(), IngestError>),
}

/// One ingestion in progress. The caller performs each action it is handed
/// and reports the results back through `step`.
#[derive(Debug)]
pub struct Ingestion {
    pub plan: IngestPlan,
    pub phase: IngestPhase,
}

impl Ingestion {
    /// Starts an ingestion: the nodes are written first.
    pub fn begin(plan: IngestPlan) -> (r: (Ingestion, IngestAction))
        ensures
            r.0.plan == plan,
            r.0.phase is WritingNodes,
            r.1 is WriteNodes,
    {
        (Ingestion { plan, phase: IngestPhase::WritingNodes }, IngestAction::WriteNodes)
    }

    /// Takes the results of the writes last asked for. Edges are asked for
    /// only once all four nodes are stored; the first failure of a phase, in
    /// the order of that phase's writes, ends the ingestion.
    pub fn step(&mut self, results: Vec<Result<(), StoreError>>) -> (a: IngestAction)
        requires
            !(old(self).phase is Finished),
            old(self).phase is WritingNodes ==> results@.len() == 4,
            old(self).phase is WritingEdges ==> results@.len() == 3,
        ensures
            final(self).plan == old(self).plan,
            old(self).phase is WritingNodes && all_ok(results@) ==> final(self).phase is WritingEdges
                && a is WriteEdges,
            old(self).phase is WritingEdges && all_ok(results@) ==> final(self).phase is Finished
                && a == IngestAction::Finish(Ok(())),
            !all_ok(results@) ==> final(self).phase is Finished,
            old(self).phase is WritingNodes && !all_ok(results@) ==> exists|c: Collection, e: StoreError|
                a == IngestAction::Finish(Err(IngestError::NodeWrite { collection: c, cause: e }))
                    && first_failure_is(results@, node_collections(), c, e),
            old(self).phase is WritingEdges && !all_ok(results@) ==> exists|c: Collection, e: StoreError|
                a == IngestAction::Finish(Err(IngestError::EdgeWrite { collection: c, cause: e }))
                    && first_failure_is(results@, edge_collections(), c, e),
    {
        let nodes = match self.phase {
            IngestPhase::WritingNodes => true,
            _ => false,
        };
        match first_failure(&results) {
            None => {
                if nodes {
                    self.phase = IngestPhase::WritingEdges;
                    IngestAction::WriteEdges
                } else {
                    self.phase = IngestPhase::Finished;
                    IngestAction::Finish(Ok(()))
                }
            },
            Some(j) => {
                let ghost rs = results@;
                let cause = failure_cause(results, j);
                self.phase = IngestPhase::Finished;
                if nodes {
                    let order = vec![
                        Collection::Programs,
                        Collection::Discriminators,
                        Collection::Instructions,
                        Collection::Users,
                    ];
                    assert(order@ == node_collections());
                    let c = collection_at(&order, j);
                    assert(first_failure_is(rs, node_collections(), c, cause));
                    IngestAction::Finish(Err(IngestError::NodeWrite { collection: c, cause }))
                } else {
                    let order = vec![
                        Collection::HasDiscriminator,
                        Collection::MappedTo,
                        Collection::ContributedBy,
                    ];
                    assert(order@ == edge_collections());
                    let c = collection_at(&order, j);
                    assert(first_failure_is(rs, edge_collections(), c, cause));
                    IngestAction::Finish(Err(IngestError::EdgeWrite { collection: c, cause }))
                }
            },
        }
    }
}

} // verus!
