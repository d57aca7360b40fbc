//! The synchronization worker's logic for one tick: settle the fetch,
//! then process the batch record by record, isolating record-level
//! failures from the batch and tick-level failures from the store.

use vstd::prelude::*;

use crate::client;
use crate::client::FetchError;
use crate::client::FetchOutcome;
use crate::client::RawView;
use crate::database::Database;
use crate::database::NodeView;
use crate::normalize;
use crate::normalize::spec_normalized;
use crate::normalize::ts_in_range;

verus! {

/// What one record does to the store: a representable timestamp upserts
/// the normalized record under its public key; any other record leaves
/// the store untouched.
pub open spec fn spec_apply_record(m: Map<Seq<char>, NodeView>, r: RawView) -> Map<
    Seq<char>,
    NodeView,
> {
    if ts_in_range(r.first_seen as int) {
        m.insert(r.public_key, spec_normalized(r))
    } else {
        m
    }
}

/// What one batch does to the store: each record applied in order,
/// independently of the others.
pub open spec fn spec_apply_batch(m: Map<Seq<char>, NodeView>, raws: Seq<RawView>) -> Map<
    Seq<char>,
    NodeView,
>
    decreases raws.len(),
{
    if raws.len() == 0 {
        m
    } else {
        spec_apply_record(spec_apply_batch(m, raws.drop_last()), raws.last())
    }
}

/// How many records of a batch fail normalization.
pub open spec fn spec_skipped_count(raws: Seq<RawView>) -> nat
    decreases raws.len(),
{
    if raws.len() == 0 {
        0
    } else {
        spec_skipped_count(raws.drop_last()) + if ts_in_range(raws.last().first_seen as int) {
            0nat
        } else {
            1nat
        }
    }
}

/// Processes one fetched batch: normalizes each record and upserts the
/// result, skipping any record whose timestamp is out of range. Returns
/// how many records were skipped.
#[verifier::loop_isolation(false)]
pub fn process_batch(db: &mut Database, records: &Vec<client::Node>) -> (skipped: usize)
    requires
        old(db).wf(),
    ensures
        final(db).wf(),
        final(db)@ == spec_apply_batch(old(db)@, records@.map_values(|n: client::Node| n@)),
        skipped == spec_skipped_count(records@.map_values(|n: client::Node| n@)),
{
    let ghost m0 = db@;
    let ghost mapped = records@.map_values(|n: client::Node| n@);
    let n = records.len();
    let mut skipped: usize = 0;
    let mut i: usize = 0;
    while i < n
        invariant
            i <= n,
            skipped <= i,
            skipped == spec_skipped_count(mapped.take(i as int)),
            db.wf(),
            db@ == spec_apply_batch(m0, mapped.take(i as int)),
        decreases n - i,
    {
        proof {
            assert(mapped.take(i + 1).drop_last() =~= mapped.take(i as int));
            assert(mapped.take(i + 1).last() == mapped[i as int]);
        }
        match normalize::normalize(&records[i]) {
            Ok(node) => {
                db.insert_node(node);
            },
            Err(_) => {
                skipped = skipped + 1;
            },
        }
        i = i + 1;
    }
    proof {
        assert(mapped.take(n as int) =~= mapped);
    }
    skipped
}

/// Runs the record-processing part of one tick against the settled fetch
/// outcome. A transport failure abandons the tick with the store
/// entirely unchanged; an undecodable payload leaves the store unchanged
/// as an empty batch; a decoded batch is applied record by record.
pub fn tick(db: &mut Database, outcome: FetchOutcome) -> (r: Result<usize, FetchError>)
    requires
        old(db).wf(),
    ensures
        final(db).wf(),
        outcome is Transport ==> (r matches Err(e) && e is Transport) && final(db)@ == old(db)@,
        outcome is Undecodable ==> r == Ok::<usize, FetchError>(0) && final(db)@ == old(db)@,
        outcome matches FetchOutcome::Payload(p) ==> (r matches Ok(skipped) && skipped
            == spec_skipped_count(p@.map_values(|n: client::Node| n@))) && final(db)@
            == spec_apply_batch(old(db)@, p@.map_values(|n: client::Node| n@)),
{
    match client::resolve_fetch(outcome) {
        Ok(records) => {
            let skipped = process_batch(db, &records);
            proof {
                if records@.len() == 0 {
                    assert(records@.map_values(|n: client::Node| n@) =~= Seq::<RawView>::empty());
                }
            }
            Ok(skipped)
        },
        Err(e) => Err(e),
    }
}

/// Law: a record that fails normalization contributes nothing to a
/// batch — the batch acts on the store exactly as the batch without it.
pub proof fn lemma_batch_isolation(m: Map<Seq<char>, NodeView>, raws: Seq<RawView>, j: int)
    requires
        0 <= j < raws.len(),
        !ts_in_range(raws[j].first_seen as int),
    ensures
        spec_apply_batch(m, raws) == spec_apply_batch(m, raws.remove(j)),
    decreases raws.len(),
{
    if j == raws.len() - 1 {
        assert(raws.remove(j) =~= raws.drop_last());
    } else {
        assert(raws.remove(j).drop_last() =~= raws.drop_last().remove(j));
        assert(raws.remove(j).last() == raws.last());
        lemma_batch_isolation(m, raws.drop_last(), j);
    }
}

/// Law: a key whose every batch record fails normalization keeps its
/// prior stored row — present exactly as before, or absent as before.
pub proof fn lemma_batch_preserves_key(m: Map<Seq<char>, NodeView>, raws: Seq<RawView>, k: Seq<
    char,
>)
    requires
        forall|i: int|
            0 <= i < raws.len() && raws[i].public_key == k ==> !ts_in_range(
                raws[i].first_seen as int,
            ),
    ensures
        spec_apply_batch(m, raws).contains_key(k) == m.contains_key(k),
        m.contains_key(k) ==> spec_apply_batch(m, raws)[k] == m[k],
    decreases raws.len(),
{
    if raws.len() > 0 {
        lemma_batch_preserves_key(m, raws.drop_last(), k);
        assert(forall|i: int|
            0 <= i < raws.len() - 1 ==> raws.drop_last()[i] == #[trigger] raws[i]);
    }
}

} // verus!
