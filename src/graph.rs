//! Documents of the graph store, and a model of the store as a map from
//! (collection, key) to document, in which every write overwrites.

use vstd::prelude::*;

verus! {

#[derive(Debug, Clone, Copy, PartialEq, Eq, Structural)]
pub enum Collection {
    Programs,
    Discriminators,
    Instructions,
    Users,
    HasDiscriminator,
    MappedTo,
    ContributedBy,
}

impl Collection {
    pub open spec fn spec_name(self) -> Seq<char> {
        match self {
            Collection::Programs => "Programs"@,
            Collection::Discriminators => "Discriminators"@,
            Collection::Instructions => "Instructions"@,
            Collection::Users => "Users"@,
            Collection::HasDiscriminator => "HasDiscriminator"@,
            Collection::MappedTo => "MappedTo"@,
            Collection::ContributedBy => "ContributedBy"@,
        }
    }

    /// The collection's name in the store.
    pub fn name(self) -> (r: &'static str)
        ensures
            r@ == self.spec_name(),
    {
        match self {
            Collection::Programs => "Programs",
            Collection::Discriminators => "Discriminators",
            Collection::Instructions => "Instructions",
            Collection::Users => "Users",
            Collection::HasDiscriminator => "HasDiscriminator",
            Collection::MappedTo => "MappedTo",
            Collection::ContributedBy => "ContributedBy",
        }
    }
}

/// Every collection the graph needs, node collections first.
pub open spec fn all_collections() -> Seq<Collection> {
    seq![
        Collection::Programs,
        Collection::Discriminators,
        Collection::Instructions,
        Collection::Users,
        Collection::HasDiscriminator,
        Collection::MappedTo,
        Collection::ContributedBy,
    ]
}

/// The collections to provision before the graph is used.
pub fn required_collections() -> (r: Vec<Collection>)
    ensures
        r@ == all_collections(),
{
    let r = vec![
        Collection::Programs,
        Collection::Discriminators,
        Collection::Instructions,
        Collection::Users,
        Collection::HasDiscriminator,
        Collection::MappedTo,
        Collection::ContributedBy,
    ];
    assert(r@ == all_collections());
    r
}

pub struct ProgramView {
    pub key: Seq<char>,
    pub id: Seq<char>,
}

pub struct InstructionView {
    pub key: Seq<char>,
    pub instruction_id: Seq<char>,
    pub instruction_data: Seq<u8>,
}

pub struct DiscriminatorView {
    pub key: Seq<char>,
    pub program_id: Seq<char>,
    pub discriminator_id: Seq<char>,
    pub discriminator_data: Seq<u8>,
    pub instruction: InstructionView,
    pub user_id: Seq<char>,
}

pub struct UserView {
    pub key: Seq<char>,
    pub id: Seq<char>,
}

pub struct EdgeView {
    pub key: Seq<char>,
    pub from: Seq<char>,
    pub to: Seq<char>,
}

/// A program node.
#[derive(Debug, Clone, PartialEq, Eq)]
pub struct Program {
    pub key: String,
    pub id: String,
}

/// An instruction node: the payload that follows a discriminator.
#[derive(Debug, Clone, PartialEq, Eq)]
pub struct Instruction {
    pub key: String,
    /// Hexadecimal text of `instruction_data`.
    pub instruction_id: String,
    pub instruction_data: Vec<u8>,
}

/// A discriminator node, with the instruction it was last seen with.
#[derive(Debug, Clone, PartialEq, Eq)]
pub struct Discriminator {
    pub key: String,
    pub program_id: String,
    /// Hexadecimal text of `discriminator_data`.
    pub discriminator_id: String,
    pub discriminator_data: Vec<u8>,
    pub instruction: Instruction,
    pub user_id: String,
}

/// A user node: the account that contributed a record.
#[derive(Debug, Clone, PartialEq, Eq)]
pub struct User {
    pub key: String,
    pub id: String,
}

/// Edge from a program to one of its discriminators.
#[derive(Debug, Clone, PartialEq, Eq)]
pub struct HasDiscriminator {
    pub key: String,
    pub from: String,
    pub to: String,
}

/// Edge from a discriminator to its instruction.
#[derive(Debug, Clone, PartialEq, Eq)]
pub struct MappedTo {
    pub key: String,
    pub from: String,
    pub to: String,
}

/// Edge from a discriminator to the user that contributed it.
#[derive(Debug, Clone, PartialEq, Eq)]
pub struct ContributedBy {
    pub key: String,
    pub from: String,
    pub to: String,
}

impl View for Program {
    type V = ProgramView;

    open spec fn view(&self) -> ProgramView {
        ProgramView { key: self.key@, id: self.id@ }
    }
}

impl View for Instruction {
    type V = InstructionView;

    open spec fn view(&self) -> InstructionView {
        InstructionView {
            key: self.key@,
            instruction_id: self.instruction_id@,
            instruction_data: self.instruction_data@,
        }
    }
}

impl View for Discriminator {
    type V = DiscriminatorView;

    open spec fn view(&self) -> DiscriminatorView {
        DiscriminatorView {
            key: self.key@,
            program_id: self.program_id@,
            discriminator_id: self.discriminator_id@,
            discriminator_data: self.discriminator_data@,
            instruction: self.instruction@,
            user_id: self.user_id@,
        }
    }
}

impl View for User {
    type V = UserView;

    open spec fn view(&self) -> UserView {
        UserView { key: self.key@, id: self.id@ }
    }
}

impl View for HasDiscriminator {
    type V = EdgeView;

    open spec fn view(&self) -> EdgeView {
        EdgeView { key: self.key@, from: self.from@, to: self.to@ }
    }
}

impl View for MappedTo {
    type V = EdgeView;

    open spec fn view(&self) -> EdgeView {
        EdgeView { key: self.key@, from: self.from@, to: self.to@ }
    }
}

impl View for ContributedBy {
    type V = EdgeView;

    open spec fn view(&self) -> EdgeView {
        EdgeView { key: self.key@, from: self.from@, to: self.to@ }
    }
}

/// What a document of the store holds.
pub enum DocView {
    Program(ProgramView),
    Discriminator(DiscriminatorView),
    Instruction(InstructionView),
    User(UserView),
    Edge(EdgeView),
}

/// One upsert: the document `doc` stored under `key` in `collection`.
pub struct Write {
    pub collection: Collection,
    pub key: Seq<char>,
    pub doc: DocView,
}

impl Write {
    pub open spec fn location(self) -> (Collection, Seq<char>) {
        (self.collection, self.key)
    }
}

/// The store: at most one document per key in each collection.
pub type GraphState = Map<(Collection, Seq<char>), DocView>;

/// The store after the writes `w`, in order, each replacing what its key held.
pub open spec fn apply_writes(s: GraphState, w: Seq<Write>) -> GraphState
    decreases w.len(),
{
    if w.len() == 0 {
        s
    } else {
        apply_writes(s, w.drop_last()).insert(w.last().location(), w.last().doc)
    }
}

/// The locations that the writes `w` touch.
pub open spec fn locations(w: Seq<Write>) -> Set<(Collection, Seq<char>)>
    decreases w.len(),
{
    if w.len() == 0 {
        Set::empty()
    } else {
        locations(w.drop_last()).insert(w.last().location())
    }
}

/// `s` and `t` hold the same documents at every location outside `x`.
pub open spec fn agree_outside(s: GraphState, t: GraphState, x: Set<(Collection, Seq<char>)>) -> bool {
    forall|l: (Collection, Seq<char>)|
        !x.contains(l) ==> {
            &&& (s.contains_key(l) ==> t.contains_key(l) && s[l] == t[l])
            &&& (t.contains_key(l) ==> s.contains_key(l))
        }
}

/// Writes leave every location that they do not touch as it was.
pub proof fn lemma_writes_frame(s: GraphState, w: Seq<Write>)
    ensures
        agree_outside(apply_writes(s, w), s, locations(w)),
    decreases w.len(),
{
    if w.len() > 0 {
        lemma_writes_frame(s, w.drop_last());
    }
}

/// Two stores that agree outside `x` agree, after the same writes, outside
/// what is left of `x` once the locations written are taken out.
pub proof fn lemma_writes_preserve_agreement(
    s: GraphState,
    t: GraphState,
    x: Set<(Collection, Seq<char>)>,
    w: Seq<Write>,
)
    requires
        agree_outside(s, t, x),
    ensures
        agree_outside(apply_writes(s, w), apply_writes(t, w), x.difference(locations(w))),
    decreases w.len(),
{
    if w.len() > 0 {
        let w0 = w.drop_last();
        let last = w.last().location();
        lemma_writes_preserve_agreement(s, t, x, w0);
        let a = apply_writes(s, w);
        let b = apply_writes(t, w);
        let y = x.difference(locations(w));
        assert forall|l: (Collection, Seq<char>)| !y.contains(l) && a.contains_key(l) implies
            b.contains_key(l) && a[l] == b[l] by {
            if l != last {
                assert(!x.difference(locations(w0)).contains(l));
            }
        }
        assert forall|l: (Collection, Seq<char>)| !y.contains(l) && b.contains_key(l) implies
            a.contains_key(l) by {
            if l != last {
                assert(!x.difference(locations(w0)).contains(l));
            }
        }
        assert(agree_outside(a, b, y));
    } else {
        assert(x.difference(locations(w)) =~= x);
    }
}

/// Writes that touch only locations that `w` also touches leave no trace
/// once `w` has been applied after them: what the store holds afterwards
/// is what `w` alone makes of it.
pub proof fn lemma_overwritten(s: GraphState, p: Seq<Write>, w: Seq<Write>)
    requires
        locations(p).subset_of(locations(w)),
    ensures
        apply_writes(apply_writes(s, p), w) == apply_writes(s, w),
{
    lemma_writes_frame(s, p);
    assert(agree_outside(apply_writes(s, p), s, locations(w)));
    lemma_writes_preserve_agreement(apply_writes(s, p), s, locations(w), w);
    let a = apply_writes(apply_writes(s, p), w);
    let b = apply_writes(s, w);
    assert forall|l: (Collection, Seq<char>)| a.dom().contains(l) implies b.dom().contains(l) by {
        assert(!locations(w).difference(locations(w)).contains(l));
    }
    assert forall|l: (Collection, Seq<char>)| b.dom().contains(l) implies a.dom().contains(l) by {
        assert(!locations(w).difference(locations(w)).contains(l));
    }
    assert(a.dom() =~= b.dom());
    assert(a =~= b);
}

/// Applying `a` then `b` is applying their concatenation.
pub proof fn lemma_apply_concat(s: GraphState, a: Seq<Write>, b: Seq<Write>)
    ensures
        apply_writes(s, a + b) == apply_writes(apply_writes(s, a), b),
    decreases b.len(),
{
    if b.len() == 0 {
        assert(a + b =~= a);
    } else {
        lemma_apply_concat(s, a, b.drop_last());
        assert((a + b).drop_last() =~= a + b.drop_last());
    }
}

/// A location is touched by `w` exactly when some write of `w` is there.
pub proof fn lemma_locations(w: Seq<Write>, l: (Collection, Seq<char>))
    ensures
        locations(w).contains(l) <==> exists|k: int| 0 <= k < w.len() && w[k].location() == l,
    decreases w.len(),
{
    if w.len() > 0 {
        let w0 = w.drop_last();
        lemma_locations(w0, l);
        if locations(w0).contains(l) {
            let k = choose|k: int| 0 <= k < w0.len() && w0[k].location() == l;
            assert(w[k] == w0[k]);
        }
        if exists|k: int| 0 <= k < w.len() && w[k].location() == l {
            let k = choose|k: int| 0 <= k < w.len() && w[k].location() == l;
            if k < w.len() - 1 {
                assert(w0[k] == w[k]);
            }
        }
    }
}

/// The document at a location is the one its last write put there.
pub proof fn lemma_last_write_wins(s: GraphState, w: Seq<Write>, j: int)
    requires
        0 <= j < w.len(),
        forall|k: int| j < k < w.len() ==> w[k].location() != w[j].location(),
    ensures
        apply_writes(s, w).contains_key(w[j].location()),
        apply_writes(s, w)[w[j].location()] == w[j].doc,
    decreases w.len(),
{
    if j < w.len() - 1 {
        let w0 = w.drop_last();
        assert forall|k: int| j < k < w0.len() implies w0[k].location() != w0[j].location() by {
            assert(w0[k] == w[k]);
        }
        lemma_last_write_wins(s, w0, j);
        assert(w0[j] == w[j]);
    }
}

/// Writes that are each one of the writes of `w` leave no trace once `w`
/// has been applied after them.
pub proof fn lemma_absorbed(s: GraphState, p: Seq<Write>, w: Seq<Write>)
    requires
        forall|k: int| 0 <= k < p.len() ==> w.contains(#[trigger] p[k]),
    ensures
        apply_writes(apply_writes(s, p), w) == apply_writes(s, w),
{
    assert forall|l: (Collection, Seq<char>)| locations(p).contains(l) implies locations(w).contains(l) by {
        lemma_locations(p, l);
        let k = choose|k: int| 0 <= k < p.len() && p[k].location() == l;
        assert(w.contains(p[k]));
        let m = choose|m: int| 0 <= m < w.len() && w[m] == p[k];
        lemma_locations(w, l);
    }
    lemma_overwritten(s, p, w);
}

/// The last write of `w` to `l`, when `w` writes there.
pub proof fn lemma_last_write(s: GraphState, w: Seq<Write>, l: (Collection, Seq<char>)) -> (k: int)
    requires
        locations(w).contains(l),
    ensures
        0 <= k < w.len(),
        w[k].location() == l,
        forall|m: int| k < m < w.len() ==> w[m].location() != l,
        apply_writes(s, w).contains_key(l),
        apply_writes(s, w)[l] == w[k].doc,
    decreases w.len(),
{
    let w0 = w.drop_last();
    if w.last().location() == l {
        (w.len() - 1) as int
    } else {
        let k = lemma_last_write(s, w0, l);
        assert(w[k] == w0[k]);
        assert forall|m: int| k < m < w.len() implies w[m].location() != l by {
            if m < w.len() - 1 {
                assert(w[m] == w0[m]);
            }
        }
        k
    }
}

/// Two writes of `a` and `b` at one location always put the same document there.
pub open spec fn consistent(a: Seq<Write>, b: Seq<Write>) -> bool {
    forall|j: int, k: int|
        0 <= j < a.len() && 0 <= k < b.len() && #[trigger] a[j].location() == #[trigger] b[k].location()
            ==> a[j].doc == b[k].doc
}

proof fn lemma_same_last(w: Seq<Write>, l: (Collection, Seq<char>), k1: int, k2: int)
    requires
        0 <= k1 < w.len(),
        0 <= k2 < w.len(),
        w[k1].location() == l,
        w[k2].location() == l,
        forall|m: int| k1 < m < w.len() ==> w[m].location() != l,
        forall|m: int| k2 < m < w.len() ==> w[m].location() != l,
    ensures
        k1 == k2,
{
}

/// Writes that never disagree on a location commute.
pub proof fn lemma_commute(s: GraphState, a: Seq<Write>, b: Seq<Write>)
    requires
        consistent(a, b),
    ensures
        apply_writes(apply_writes(s, a), b) == apply_writes(apply_writes(s, b), a),
{
    let sa = apply_writes(s, a);
    let sb = apply_writes(s, b);
    let x = apply_writes(sa, b);
    let y = apply_writes(sb, a);
    lemma_writes_frame(s, a);
    lemma_writes_frame(s, b);
    lemma_writes_frame(sa, b);
    lemma_writes_frame(sb, a);
    assert forall|l: (Collection, Seq<char>)| x.contains_key(l) implies y.contains_key(l) && x[l] == y[l] by {
        if locations(b).contains(l) {
            let kb = lemma_last_write(sa, b, l);
            if locations(a).contains(l) {
                let ka = lemma_last_write(sb, a, l);
                assert(a[ka].doc == b[kb].doc);
            } else {
                let kb2 = lemma_last_write(s, b, l);
                lemma_same_last(b, l, kb, kb2);
            }
        } else if locations(a).contains(l) {
            let ka = lemma_last_write(sb, a, l);
            let ka2 = lemma_last_write(s, a, l);
            lemma_same_last(a, l, ka, ka2);
        }
    }
    assert forall|l: (Collection, Seq<char>)| y.dom().contains(l) implies x.dom().contains(l) by {
        if locations(b).contains(l) {
            lemma_last_write(sa, b, l);
        } else if locations(a).contains(l) {
            lemma_last_write(s, a, l);
        }
    }
    assert forall|l: (Collection, Seq<char>)| x.dom().contains(l) implies y.dom().contains(l) by {
        if locations(a).contains(l) {
            lemma_last_write(sb, a, l);
        } else if locations(b).contains(l) {
            lemma_last_write(s, b, l);
        }
    }
    assert(x.dom() =~= y.dom());
    assert(x =~= y);
}

} // verus!
