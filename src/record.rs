//! Raw ledger records: splitting one into its discriminator and its
//! instruction, and the plans that a batch of records becomes.

use crate::ingest::{planned, IngestPlan, PlanView};
use crate::keys::{encode_hex, hex_lower};
use vstd::prelude::*;
use vstd::slice::{slice_subrange, slice_to_vec};

verus! {

/// The width of the discriminator at the head of a record.
pub const HEADER_LEN: usize = 8;

/// One account of a program as the ledger lists it: its address and its data.
#[derive(Debug, Clone, PartialEq, Eq)]
pub struct LedgerRecord {
    pub account: String,
    pub data: Vec<u8>,
}

#[derive(Debug, Clone, Copy, PartialEq, Eq, Structural)]
pub enum DecodeError {
    /// Shorter than the discriminator header.
    Malformed,
}

/// Splits `raw` into the discriminator (its first `HEADER_LEN` bytes) and
/// the instruction (the rest).
pub fn decode(raw: &[u8]) -> (r: Result<(Vec<u8>, Vec<u8>), DecodeError>)
    ensures
        r is Err <==> raw@.len() < HEADER_LEN,
        r matches Ok((d, i)) ==> d@ == raw@.subrange(0, HEADER_LEN as int) && i@ == raw@.subrange(
            HEADER_LEN as int,
            raw@.len() as int,
        ),
{
    if raw.len() < HEADER_LEN {
        return Err(DecodeError::Malformed);
    }
    let d = slice_to_vec(slice_subrange(raw, 0, HEADER_LEN));
    let i = slice_to_vec(slice_subrange(raw, HEADER_LEN, raw.len()));
    Ok((d, i))
}

/// A record that decodes into a discriminator and a non-empty instruction.
pub open spec fn ingestible(data: Seq<u8>) -> bool {
    data.len() > HEADER_LEN
}

/// The plan of one ingestible record: its account is the contributing user.
pub open spec fn record_plan(p: Seq<char>, r: LedgerRecord) -> PlanView {
    planned(
        p,
        r.data@.subrange(0, HEADER_LEN as int),
        r.data@.subrange(HEADER_LEN as int, r.data@.len() as int),
        r.account@,
    )
}

/// The plans of a batch, in order; records that cannot be ingested are skipped.
pub open spec fn batch_plans(p: Seq<char>, records: Seq<LedgerRecord>) -> Seq<PlanView>
    decreases records.len(),
{
    if records.len() == 0 {
        Seq::empty()
    } else {
        let rest = batch_plans(p, records.drop_first());
        if ingestible(records[0].data@) {
            seq![record_plan(p, records[0])] + rest
        } else {
            rest
        }
    }
}

/// A record too short to carry a discriminator is skipped without a store
/// call, and the records after it in the batch are still ingested.
pub proof fn lemma_malformed_skipped(p: Seq<char>, bad: LedgerRecord, rest: Seq<LedgerRecord>)
    requires
        bad.data@.len() < HEADER_LEN,
    ensures
        batch_plans(p, seq![bad] + rest) == batch_plans(p, rest),
{
    assert((seq![bad] + rest).drop_first() =~= rest);
}

/// The plans still to come in `records` from position `from` on.
pub open spec fn plans_from(p: Seq<char>, records: Seq<LedgerRecord>, from: int) -> Seq<PlanView> {
    batch_plans(p, records.subrange(from, records.len() as int))
}

/// The plan of the first ingestible record at or after `from`, with the
/// position just past it; records before it are skipped without a store call.
pub fn next_plan(program_id: &str, records: &Vec<LedgerRecord>, from: usize) -> (r: (
    usize,
    Option<IngestPlan>,
))
    requires
        from <= records@.len(),
    ensures
        from <= r.0 <= records@.len(),
        r.1 is None ==> r.0 == records@.len() && plans_from(program_id@, records@, from as int)
            == Seq::<PlanView>::empty(),
        r.1 matches Some(plan) ==> r.0 > from && plans_from(program_id@, records@, from as int)
            == seq![plan@] + plans_from(program_id@, records@, r.0 as int),
{
    let n = records.len();
    let mut i = from;
    while i < n
        invariant
            n == records@.len(),
            from <= i <= n,
            plans_from(program_id@, records@, from as int) == plans_from(
                program_id@,
                records@,
                i as int,
            ),
        decreases n - i,
    {
        let rec = &records[i];
        assert(records@.subrange(i as int, n as int).drop_first() =~= records@.subrange(
            i + 1,
            n as int,
        ));
        if rec.data.len() > HEADER_LEN {
            match decode(rec.data.as_slice()) {
                Ok((d, ins)) => {
                    match IngestPlan::new(program_id, d.as_slice(), ins.as_slice(), rec.account.as_str()) {
                        Ok(plan) => {
                            return (i + 1, Some(plan));
                        },
                        Err(_) => {},
                    }
                },
                Err(_) => {},
            }
        }
        i = i + 1;
    }
    assert(records@.subrange(n as int, n as int) =~= Seq::<LedgerRecord>::empty());
    (n, None)
}

/// The distinct discriminators, as hexadecimal text, of the records that
/// are long enough to carry one.
pub open spec fn discriminator_hexes(records: Seq<LedgerRecord>) -> Set<Seq<char>> {
    Set::new(
        |h: Seq<char>|
            exists|k: int|
                0 <= k < records.len() && records[k].data@.len() >= HEADER_LEN && h == hex_lower(
                    records[k].data@.subrange(0, HEADER_LEN as int),
                ),
    )
}

/// The texts held by `v`.
pub open spec fn texts(v: Seq<String>) -> Set<Seq<char>> {
    Set::new(|h: Seq<char>| exists|k: int| 0 <= k < v.len() && v[k]@ == h)
}

/// No text occurs twice in `v`.
pub open spec fn distinct_texts(v: Seq<String>) -> bool {
    forall|a: int, b: int| 0 <= a < b < v.len() ==> v[a]@ != v[b]@
}

/// Collects the discriminators seen in a batch of records.
#[derive(Debug, Clone, Copy)]
pub struct DiscriminatorFetcher;

fn contains_text(v: &Vec<String>, s: &String) -> (r: bool)
    ensures
        r == texts(v@).contains(s@),
{
    let mut j: usize = 0;
    while j < v.len()
        invariant
            j <= v@.len(),
            forall|k: int| 0 <= k < j ==> v@[k]@ != s@,
        decreases v@.len() - j,
    {
        if v[j] == *s {
            return true;
        }
        j = j + 1;
    }
    false
}

proof fn lemma_hexes_step(prev: Seq<LedgerRecord>, next: Seq<LedgerRecord>, rec: LedgerRecord)
    requires
        next == prev.push(rec),
    ensures
        rec.data@.len() >= HEADER_LEN ==> discriminator_hexes(next) == discriminator_hexes(
            prev,
        ).insert(hex_lower(rec.data@.subrange(0, HEADER_LEN as int))),
        rec.data@.len() < HEADER_LEN ==> discriminator_hexes(next) == discriminator_hexes(prev),
{
    let n = prev.len() as int;
    let x = hex_lower(rec.data@.subrange(0, HEADER_LEN as int));
    let want = if rec.data@.len() >= HEADER_LEN {
        discriminator_hexes(prev).insert(x)
    } else {
        discriminator_hexes(prev)
    };
    assert forall|h: Seq<char>| discriminator_hexes(next).contains(h) implies want.contains(h) by {
        let k = choose|k: int|
            0 <= k < next.len() && next[k].data@.len() >= HEADER_LEN && h == hex_lower(
                next[k].data@.subrange(0, HEADER_LEN as int),
            );
        if k < n {
            assert(prev[k] == next[k]);
        }
    }
    assert forall|h: Seq<char>| want.contains(h) implies discriminator_hexes(next).contains(h) by {
        if discriminator_hexes(prev).contains(h) {
            let k = choose|k: int|
                0 <= k < prev.len() && prev[k].data@.len() >= HEADER_LEN && h == hex_lower(
                    prev[k].data@.subrange(0, HEADER_LEN as int),
                );
            assert(prev[k] == next[k]);
        } else {
            assert(next[n] == rec);
        }
    }
    assert(discriminator_hexes(next) =~= want);
}

impl DiscriminatorFetcher {
    /// The distinct discriminators of `accounts`, each once, in order of
    /// first appearance; records shorter than the header are skipped.
    pub fn fetch_discriminators(accounts: &Vec<LedgerRecord>) -> (r: Result<Vec<String>, String>)
        ensures
            r is Ok,
            r matches Ok(v) ==> distinct_texts(v@) && texts(v@) == discriminator_hexes(accounts@),
    {
        let mut out: Vec<String> = Vec::new();
        let mut i: usize = 0;
        assert(texts(out@) =~= discriminator_hexes(accounts@.subrange(0, 0)));
        while i < accounts.len()
            invariant
                i <= accounts@.len(),
                distinct_texts(out@),
                texts(out@) == discriminator_hexes(accounts@.subrange(0, i as int)),
            decreases accounts@.len() - i,
        {
            let ghost prev = accounts@.subrange(0, i as int);
            let ghost next = accounts@.subrange(0, i + 1);
            let rec = &accounts[i];
            assert(next == prev.push(*rec));
            proof {
                lemma_hexes_step(prev, next, *rec);
            }
            if let Ok((d, _)) = decode(rec.data.as_slice()) {
                let hex = encode_hex(d.as_slice());
                let ghost before = out@;
                if !contains_text(&out, &hex) {
                    out.push(hex);
                    assert forall|h: Seq<char>| texts(out@).contains(h) implies texts(
                        before,
                    ).insert(hex@).contains(h) by {
                        let k = choose|k: int| 0 <= k < out@.len() && out@[k]@ == h;
                        if k < before.len() {
                            assert(out@[k] == before[k]);
                        }
                    }
                    assert forall|h: Seq<char>| texts(before).insert(hex@).contains(h) implies texts(
                        out@,
                    ).contains(h) by {
                        if texts(before).contains(h) {
                            let k = choose|k: int| 0 <= k < before.len() && before[k]@ == h;
                            assert(out@[k] == before[k]);
                        } else {
                            assert(out@[before.len() as int]@ == h);
                        }
                    }
                    assert(texts(out@) =~= texts(before).insert(hex@));
                } else {
                    assert(texts(out@) =~= texts(before).insert(hex@));
                }
            }
            i = i + 1;
        }
        assert(accounts@.subrange(0, i as int) =~= accounts@);
        Ok(out)
    }
}

} // verus!
