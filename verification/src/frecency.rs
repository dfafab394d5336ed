//! The frecency-ranked item database.
//!
//! A [`FrecencyDB`] holds one record per item, keyed by the item's stable
//! identity, together with a store-wide reference time and half-life.  All
//! raw scores are valid baselines as of the reference time; the scorer in
//! [`crate::score`] converts them to effective scores at a later instant.
//!
//! The reconciliation (merge) engine absorbs a fresh scan into the store:
//! records whose item is still present keep their identity and raw score, so
//! a rescan never resets learned preferences; records whose item disappeared
//! are dropped; new items enter with score zero.

use vstd::prelude::*;
use vstd::string::StringExecFns;

use crate::item::DBItem;
use crate::score::{
    update_spec, update_frecency, valid_half_life, DEFAULT_HALF_LIFE_MS, SCORE_CAP,
};

verus! {

/// One stored record: an item, its stable identity, and its raw score in
/// millipoints as of the store's reference time.
pub struct Record<T> {
    /// The item's stable identity.
    pub id: u64,
    /// The raw frecency score, in millipoints, as of the reference time.
    pub score: u64,
    /// The stored item.
    pub item: T,
}

/// An item handed out of the database together with its identity.
pub struct Container<T> {
    /// The record's stable identity.
    pub id: u64,
    /// A copy of the stored item.
    pub item: T,
}

/// An error of the frecency database.
#[derive(Debug)]
pub enum FrecencyDBError {
    /// The database file could not be opened; holds the path.
    FileOpen(String),
    /// The database file could not be created; holds the path.
    FileCreate(String),
    /// The database file could not be written; holds the path.
    FileWrite(String),
    /// The persisted bytes could not be parsed back; holds the path or a
    /// description of the source.
    ParseDB(String),
    /// No record carries the requested identity.
    NotFound,
}

impl FrecencyDBError {
    /// A human-readable description of the error: what failed, and on
    /// which file where one is involved.
    pub fn message(&self) -> (r: String)
        ensures
            match self {
                FrecencyDBError::FileOpen(path) => r@ == "Error opening apps database file "@
                    + path@,
                FrecencyDBError::FileCreate(path) => r@ == "Error creating apps database file "@
                    + path@,
                FrecencyDBError::FileWrite(path) => r@ == "Error writing to apps database file "@
                    + path@,
                FrecencyDBError::ParseDB(path) => r@ == "Error parsing apps database file "@
                    + path@,
                FrecencyDBError::NotFound => r@
                    == "No item in the apps database has the requested id"@,
            },
    {
        let mut s = String::new();
        match self {
            FrecencyDBError::FileOpen(path) => {
                s.append("Error opening apps database file ");
                s.append(path.as_str());
            },
            FrecencyDBError::FileCreate(path) => {
                s.append("Error creating apps database file ");
                s.append(path.as_str());
            },
            FrecencyDBError::FileWrite(path) => {
                s.append("Error writing to apps database file ");
                s.append(path.as_str());
            },
            FrecencyDBError::ParseDB(path) => {
                s.append("Error parsing apps database file ");
                s.append(path.as_str());
            },
            FrecencyDBError::NotFound => {
                s.append("No item in the apps database has the requested id");
            },
        }
        s
    }
}

/// Does some record in `recs` carry identity `id`?
pub open spec fn has_rec_id<T>(recs: Seq<Record<T>>, id: u64) -> bool {
    exists|k: int| 0 <= k < recs.len() && (#[trigger] recs[k]).id == id
}

/// Does some item in `items` have identity `id`?
pub open spec fn scanned_has_id<T: DBItem>(items: Seq<T>, id: u64) -> bool {
    exists|k: int| 0 <= k < items.len() && (#[trigger] items[k]).identity_spec() == id
}

/// The records of `old` whose item is still present in the scan, in their
/// original order, unchanged: identity and raw score survive a rescan.
pub open spec fn retained_recs<T: DBItem>(old: Seq<Record<T>>, items: Seq<T>) -> Seq<Record<T>>
    decreases old.len(),
{
    if old.len() == 0 {
        Seq::empty()
    } else {
        retained_recs(old.drop_last(), items) + if scanned_has_id(items, old.last().id) {
            seq![old.last()]
        } else {
            Seq::empty()
        }
    }
}

/// Fresh records for the scanned items that are new to the store, in scan
/// order, one per identity (the first occurrence wins), each with score zero.
pub open spec fn added_recs<T: DBItem>(old: Seq<Record<T>>, items: Seq<T>) -> Seq<Record<T>>
    decreases items.len(),
{
    if items.len() == 0 {
        Seq::empty()
    } else {
        let prefix = items.drop_last();
        let it = items.last();
        added_recs(old, prefix) + if has_rec_id(old, it.identity_spec()) || scanned_has_id(
            prefix,
            it.identity_spec(),
        ) {
            Seq::empty()
        } else {
            seq![(Record { id: it.identity_spec(), score: 0u64, item: it })]
        }
    }
}

/// The record set after reconciling `old` against the scan `items`.
pub open spec fn merge_spec<T: DBItem>(old: Seq<Record<T>>, items: Seq<T>) -> Seq<Record<T>> {
    retained_recs(old, items) + added_recs(old, items)
}

/// No two records of `recs` share an identity.
pub open spec fn unique_ids<T>(recs: Seq<Record<T>>) -> bool {
    forall|i: int, j: int|
        0 <= i < j < recs.len() ==> (#[trigger] recs[i]).id != (#[trigger] recs[j]).id
}

/// Carrying an identity is invariant under concatenation of record sets.
proof fn lemma_has_rec_id_concat<T>(a: Seq<Record<T>>, b: Seq<Record<T>>, id: u64)
    ensures
        has_rec_id(a + b, id) <==> (has_rec_id(a, id) || has_rec_id(b, id)),
{
    if has_rec_id(a + b, id) {
        let k = choose|k: int| 0 <= k < (a + b).len() && (#[trigger] (a + b)[k]).id == id;
        if k < a.len() {
            assert(a[k].id == id);
        } else {
            assert(b[k - a.len()].id == id);
        }
    }
    if has_rec_id(a, id) {
        let k = choose|k: int| 0 <= k < a.len() && (#[trigger] a[k]).id == id;
        assert((a + b)[k].id == id);
    }
    if has_rec_id(b, id) {
        let k = choose|k: int| 0 <= k < b.len() && (#[trigger] b[k]).id == id;
        assert((a + b)[a.len() + k].id == id);
    }
}

/// What retention does: it keeps exactly the records whose identity the scan
/// still carries, each of them a record of the old set, no identity twice.
proof fn lemma_retained_props<T: DBItem>(old: Seq<Record<T>>, items: Seq<T>)
    requires
        unique_ids(old),
    ensures
        forall|k: int|
            0 <= k < retained_recs(old, items).len() ==> old.contains(
                #[trigger] retained_recs(old, items)[k],
            ),
        forall|id: u64|
            #[trigger] has_rec_id(retained_recs(old, items), id) <==> (has_rec_id(old, id)
                && scanned_has_id(items, id)),
        unique_ids(retained_recs(old, items)),
    decreases old.len(),
{
    let ret = retained_recs(old, items);
    if old.len() == 0 {
        assert(forall|id: u64| !(#[trigger] has_rec_id(ret, id)));
        assert(forall|id: u64| !(#[trigger] has_rec_id(old, id)));
    } else {
        let prev = old.drop_last();
        let last = old.last();
        assert forall|i: int, j: int| 0 <= i < j < prev.len() implies (#[trigger] prev[i]).id != (
        #[trigger] prev[j]).id by {
            assert(prev[i] == old[i]);
            assert(prev[j] == old[j]);
        }
        lemma_retained_props(prev, items);
        let ret_prev = retained_recs(prev, items);
        // membership in the shorter prefix lifts to the full sequence
        assert forall|k: int| 0 <= k < ret_prev.len() implies old.contains(
            #[trigger] ret_prev[k],
        ) by {
            let i = choose|i: int| 0 <= i < prev.len() && prev[i] == ret_prev[k];
            assert(old[i] == ret_prev[k]);
        }
        // the last record's identity occurs nowhere in the prefix
        assert forall|k: int| 0 <= k < prev.len() implies (#[trigger] prev[k]).id != last.id by {
            assert(prev[k] == old[k]);
            assert(old[k].id != old[old.len() - 1].id);
        }
        if has_rec_id(ret_prev, last.id) {
            assert(has_rec_id(prev, last.id));
            let k = choose|k: int| 0 <= k < prev.len() && (#[trigger] prev[k]).id == last.id;
            assert(false);
        }
        if scanned_has_id(items, last.id) {
            assert(ret == ret_prev + seq![last]);
            assert(old.contains(last)) by {
                assert(old[old.len() - 1] == last);
            }
            assert forall|k: int| 0 <= k < ret.len() implies old.contains(#[trigger] ret[k]) by {
                if k < ret_prev.len() {
                    assert(ret[k] == ret_prev[k]);
                } else {
                    assert(ret[k] == last);
                }
            }
            assert forall|id: u64| #[trigger] has_rec_id(ret, id) implies (has_rec_id(old, id)
                && scanned_has_id(items, id)) by {
                lemma_has_rec_id_concat(ret_prev, seq![last], id);
                if has_rec_id(ret_prev, id) {
                    let k = choose|k: int|
                        0 <= k < prev.len() && (#[trigger] prev[k]).id == id;
                    assert(old[k].id == id);
                } else {
                    assert(seq![last][0].id == id);
                    assert(old[old.len() - 1].id == id);
                }
            }
            assert forall|id: u64|
                has_rec_id(old, id) && scanned_has_id(items, id) implies #[trigger] has_rec_id(
                ret,
                id,
            ) by {
                lemma_has_rec_id_concat(ret_prev, seq![last], id);
                let k = choose|k: int| 0 <= k < old.len() && (#[trigger] old[k]).id == id;
                if k < old.len() - 1 {
                    assert(prev[k].id == id);
                    assert(has_rec_id(prev, id));
                } else {
                    assert(seq![last][0].id == id);
                    assert(has_rec_id(seq![last], id));
                }
            }
            assert forall|i: int, j: int| 0 <= i < j < ret.len() implies (#[trigger] ret[i]).id
                != (#[trigger] ret[j]).id by {
                if j < ret_prev.len() {
                    assert(ret[i] == ret_prev[i] && ret[j] == ret_prev[j]);
                } else {
                    assert(ret[j] == last);
                    assert(ret[i] == ret_prev[i]);
                    if ret_prev[i].id == last.id {
                        assert(has_rec_id(ret_prev, last.id));
                    }
                }
            }
        } else {
            assert(ret == ret_prev);
            assert forall|id: u64| #[trigger] has_rec_id(ret, id) implies (has_rec_id(old, id)
                && scanned_has_id(items, id)) by {
                let k = choose|k: int|
                    0 <= k < prev.len() && (#[trigger] prev[k]).id == id;
                assert(old[k].id == id);
            }
            assert forall|id: u64|
                has_rec_id(old, id) && scanned_has_id(items, id) implies #[trigger] has_rec_id(
                ret,
                id,
            ) by {
                let k = choose|k: int| 0 <= k < old.len() && (#[trigger] old[k]).id == id;
                if k < old.len() - 1 {
                    assert(prev[k].id == id);
                    assert(has_rec_id(prev, id));
                } else {
                    // the last record's identity is not scanned, so id is not this one
                    assert(old[k] == last);
                }
            }
        }
    }
}

/// What addition does: it creates exactly one score-zero record for each
/// scanned identity the old set lacks, keyed by its item's own identity.
proof fn lemma_added_props<T: DBItem>(old: Seq<Record<T>>, items: Seq<T>)
    ensures
        forall|k: int|
            0 <= k < added_recs(old, items).len() ==> {
                &&& (#[trigger] added_recs(old, items)[k]).score == 0
                &&& added_recs(old, items)[k].id == added_recs(old, items)[k].item.identity_spec()
            },
        forall|id: u64|
            #[trigger] has_rec_id(added_recs(old, items), id) <==> (scanned_has_id(items, id)
                && !has_rec_id(old, id)),
        unique_ids(added_recs(old, items)),
    decreases items.len(),
{
    let added = added_recs(old, items);
    if items.len() == 0 {
        assert(forall|id: u64| !(#[trigger] has_rec_id(added, id)));
        assert(forall|id: u64| !(#[trigger] scanned_has_id(items, id)));
    } else {
        let prefix = items.drop_last();
        let it = items.last();
        lemma_added_props(old, prefix);
        let added_prev = added_recs(old, prefix);
        let fresh = !has_rec_id(old, it.identity_spec()) && !scanned_has_id(
            prefix,
            it.identity_spec(),
        );
        let newrec = Record { id: it.identity_spec(), score: 0u64, item: it };
        assert forall|id: u64|
            scanned_has_id(items, id) implies (scanned_has_id(prefix, id) || it.identity_spec()
            == id) by {
            let k = choose|k: int|
                0 <= k < items.len() && (#[trigger] items[k]).identity_spec() == id;
            if k < items.len() - 1 {
                assert(prefix[k].identity_spec() == id);
            } else {
                assert(items[k] == it);
            }
        }
        assert forall|id: u64| scanned_has_id(prefix, id) implies scanned_has_id(items, id) by {
            let k = choose|k: int|
                0 <= k < prefix.len() && (#[trigger] prefix[k]).identity_spec() == id;
            assert(items[k].identity_spec() == id);
        }
        if fresh {
            assert(added == added_prev + seq![newrec]);
            assert forall|id: u64| #[trigger] has_rec_id(added, id) implies (scanned_has_id(
                items,
                id,
            ) && !has_rec_id(old, id)) by {
                lemma_has_rec_id_concat(added_prev, seq![newrec], id);
                if !has_rec_id(added_prev, id) {
                    assert(seq![newrec][0].id == id);
                    assert(items[items.len() - 1].identity_spec() == id);
                }
            }
            assert forall|id: u64|
                scanned_has_id(items, id) && !has_rec_id(old, id) implies #[trigger] has_rec_id(
                added,
                id,
            ) by {
                lemma_has_rec_id_concat(added_prev, seq![newrec], id);
                if !scanned_has_id(prefix, id) {
                    assert(it.identity_spec() == id);
                    assert(seq![newrec][0].id == id);
                    assert(has_rec_id(seq![newrec], id));
                }
            }
            assert forall|i: int, j: int| 0 <= i < j < added.len() implies (#[trigger] added[i]).id
                != (#[trigger] added[j]).id by {
                if j < added_prev.len() {
                    assert(added[i] == added_prev[i] && added[j] == added_prev[j]);
                } else {
                    assert(added[j] == newrec);
                    assert(added[i] == added_prev[i]);
                    if added_prev[i].id == newrec.id {
                        assert(has_rec_id(added_prev, newrec.id));
                    }
                }
            }
            assert forall|k: int| 0 <= k < added.len() implies {
                &&& (#[trigger] added[k]).score == 0
                &&& added[k].id == added[k].item.identity_spec()
            } by {
                if k < added_prev.len() {
                    assert(added[k] == added_prev[k]);
                } else {
                    assert(added[k] == newrec);
                }
            }
        } else {
            assert(added == added_prev);
            assert forall|id: u64|
                scanned_has_id(items, id) && !has_rec_id(old, id) implies #[trigger] has_rec_id(
                added,
                id,
            ) by {
                if !scanned_has_id(prefix, id) {
                    assert(it.identity_spec() == id);
                }
            }
        }
    }
}

/// What reconciliation does, in full: the post-merge identity set is exactly
/// the scan's identity set; surviving records are old records, kept whole;
/// new records carry score zero; no identity occurs twice.
pub proof fn lemma_merge_props<T: DBItem>(old: Seq<Record<T>>, items: Seq<T>)
    requires
        unique_ids(old),
    ensures
        forall|id: u64|
            #[trigger] has_rec_id(merge_spec(old, items), id) <==> scanned_has_id(items, id),
        unique_ids(merge_spec(old, items)),
        forall|k: int|
            0 <= k < merge_spec(old, items).len() ==> old.contains(#[trigger] merge_spec(old, items)[k])
                || (merge_spec(old, items)[k].score == 0 && merge_spec(old, items)[k].id
                == merge_spec(old, items)[k].item.identity_spec() && !has_rec_id(
                old,
                merge_spec(old, items)[k].id,
            )),
{
    let ret = retained_recs(old, items);
    let added = added_recs(old, items);
    let merged = merge_spec(old, items);
    lemma_retained_props(old, items);
    lemma_added_props(old, items);
    assert forall|id: u64| #[trigger] has_rec_id(merged, id) <==> scanned_has_id(items, id) by {
        lemma_has_rec_id_concat(ret, added, id);
        if scanned_has_id(items, id) && !has_rec_id(ret, id) {
            assert(!(has_rec_id(old, id) && scanned_has_id(items, id)));
            assert(has_rec_id(added, id));
        }
    }
    assert forall|i: int, j: int| 0 <= i < j < merged.len() implies (#[trigger] merged[i]).id != (
    #[trigger] merged[j]).id by {
        if j < ret.len() {
            assert(merged[i] == ret[i] && merged[j] == ret[j]);
        } else if i >= ret.len() {
            assert(merged[i] == added[i - ret.len()] && merged[j] == added[j - ret.len()]);
        } else {
            assert(merged[i] == ret[i] && merged[j] == added[j - ret.len()]);
            if ret[i].id == added[j - ret.len()].id {
                assert(has_rec_id(ret, merged[i].id));
                assert(has_rec_id(added, merged[j].id));
            }
        }
    }
    assert forall|k: int| 0 <= k < merged.len() implies old.contains(#[trigger] merged[k]) || (
    merged[k].score == 0 && merged[k].id == merged[k].item.identity_spec() && !has_rec_id(
        old,
        merged[k].id,
    )) by {
        if k < ret.len() {
            assert(merged[k] == ret[k]);
        } else {
            assert(merged[k] == added[k - ret.len()]);
            assert(has_rec_id(added, merged[k].id)) by {
                assert(added[k - ret.len()].id == merged[k].id);
            }
        }
    }
}

/// Is `x` among the first `n` identities of `ids`?
pub(crate) fn id_in_prefix(ids: &Vec<u64>, n: usize, x: u64) -> (r: bool)
    requires
        n <= ids@.len(),
    ensures
        r == ids@.take(n as int).contains(x),
{
    let mut i: usize = 0;
    while i < n
        invariant
            i <= n <= ids@.len(),
            forall|k: int| 0 <= k < i ==> ids@[k] != x,
        decreases n - i,
    {
        if ids[i] == x {
            proof {
                assert(ids@.take(n as int)[i as int] == x);
            }
            return true;
        }
        i = i + 1;
    }
    proof {
        if ids@.take(n as int).contains(x) {
            let k = choose|k: int| 0 <= k < n && ids@.take(n as int)[k] == x;
            assert(ids@[k] == x);
        }
    }
    false
}

/// An identity sequence made by `map_values` over items carries exactly the
/// scanned identities.
proof fn lemma_item_ids_contains<T: DBItem>(items: Seq<T>, ids: Seq<u64>, x: u64)
    requires
        ids == items.map_values(|t: T| t.identity_spec()),
    ensures
        ids.contains(x) <==> scanned_has_id(items, x),
{
    if ids.contains(x) {
        let k = choose|k: int| 0 <= k < ids.len() && ids[k] == x;
        assert(items[k].identity_spec() == x);
    }
    if scanned_has_id(items, x) {
        let k = choose|k: int| 0 <= k < items.len() && (#[trigger] items[k]).identity_spec() == x;
        assert(ids[k] == x);
    }
}

/// An identity sequence made by `map_values` over records carries exactly
/// the stored identities.
proof fn lemma_rec_ids_contains<T>(recs: Seq<Record<T>>, ids: Seq<u64>, x: u64)
    requires
        ids == recs.map_values(|r: Record<T>| r.id),
    ensures
        ids.contains(x) <==> has_rec_id(recs, x),
{
    if ids.contains(x) {
        let k = choose|k: int| 0 <= k < ids.len() && ids[k] == x;
        assert(recs[k].id == x);
    }
    if has_rec_id(recs, x) {
        let k = choose|k: int| 0 <= k < recs.len() && (#[trigger] recs[k]).id == x;
        assert(ids[k] == x);
    }
}

/// Merge-identity: merging a scan whose identities are exactly the stored
/// ones leaves every record — identity, score and item — unchanged.
pub proof fn lemma_merge_identity<T: DBItem>(old: Seq<Record<T>>, items: Seq<T>)
    requires
        unique_ids(old),
        forall|i: int| 0 <= i < old.len() ==> scanned_has_id(items, (#[trigger] old[i]).id),
        forall|j: int|
            0 <= j < items.len() ==> has_rec_id(old, (#[trigger] items[j]).identity_spec()),
    ensures
        merge_spec(old, items) == old,
{
    lemma_retained_all(old, items);
    lemma_added_none(old, items);
    assert(merge_spec(old, items) =~= old);
}

/// When every stored identity is still scanned, retention keeps the whole
/// old record sequence, in order.
proof fn lemma_retained_all<T: DBItem>(old: Seq<Record<T>>, items: Seq<T>)
    requires
        forall|i: int| 0 <= i < old.len() ==> scanned_has_id(items, (#[trigger] old[i]).id),
    ensures
        retained_recs(old, items) == old,
    decreases old.len(),
{
    if old.len() == 0 {
        assert(retained_recs(old, items) =~= old);
    } else {
        let prev = old.drop_last();
        assert forall|i: int| 0 <= i < prev.len() implies scanned_has_id(
            items,
            (#[trigger] prev[i]).id,
        ) by {
            assert(prev[i] == old[i]);
        }
        lemma_retained_all(prev, items);
        assert(scanned_has_id(items, old.last().id)) by {
            assert(old[old.len() - 1] == old.last());
        }
        assert(retained_recs(old, items) =~= old);
    }
}

/// When every scanned identity is already stored, nothing is added.
proof fn lemma_added_none<T: DBItem>(old: Seq<Record<T>>, items: Seq<T>)
    requires
        forall|j: int|
            0 <= j < items.len() ==> has_rec_id(old, (#[trigger] items[j]).identity_spec()),
    ensures
        added_recs(old, items) == Seq::<Record<T>>::empty(),
    decreases items.len(),
{
    if items.len() == 0 {
        assert(added_recs(old, items) =~= Seq::<Record<T>>::empty());
    } else {
        let prefix = items.drop_last();
        assert forall|j: int| 0 <= j < prefix.len() implies has_rec_id(
            old,
            (#[trigger] prefix[j]).identity_spec(),
        ) by {
            assert(prefix[j] == items[j]);
        }
        lemma_added_none(old, prefix);
        assert(has_rec_id(old, items.last().identity_spec())) by {
            assert(items[items.len() - 1] == items.last());
        }
        assert(added_recs(old, items) =~= Seq::<Record<T>>::empty());
    }
}

/// Merge-removal: an identity absent from the scan is absent from the
/// post-merge record set.
pub proof fn lemma_merge_removal<T: DBItem>(old: Seq<Record<T>>, items: Seq<T>, id: u64)
    requires
        unique_ids(old),
        !scanned_has_id(items, id),
    ensures
        !has_rec_id(merge_spec(old, items), id),
{
    lemma_merge_props(old, items);
}

/// Merge-addition: an identity that is scanned but not yet stored gets
/// exactly one post-merge record, and that record's score is zero.
pub proof fn lemma_merge_addition<T: DBItem>(old: Seq<Record<T>>, items: Seq<T>, id: u64)
    requires
        unique_ids(old),
        scanned_has_id(items, id),
        !has_rec_id(old, id),
    ensures
        has_rec_id(merge_spec(old, items), id),
        forall|k: int|
            0 <= k < merge_spec(old, items).len() && (#[trigger] merge_spec(old, items)[k]).id
                == id ==> merge_spec(old, items)[k].score == 0,
        forall|k: int, l: int|
            0 <= k < merge_spec(old, items).len() && 0 <= l < merge_spec(old, items).len() && (
            #[trigger] merge_spec(old, items)[k]).id == id && (#[trigger] merge_spec(
                old,
                items,
            )[l]).id == id ==> k == l,
{
    lemma_merge_props(old, items);
    let merged = merge_spec(old, items);
    assert forall|k: int|
        0 <= k < merged.len() && (#[trigger] merged[k]).id == id implies merged[k].score == 0 by {
        if old.contains(merged[k]) {
            let i = choose|i: int| 0 <= i < old.len() && old[i] == merged[k];
            assert(old[i].id == id);
            assert(has_rec_id(old, id));
        }
    }
}

/// A frecency-ranked store of items, generic over the item capability set
/// (stable sort string, equality, identity).
pub struct FrecencyDB<T: DBItem> {
    /// The stored records, one per item identity.
    pub records: Vec<Record<T>>,
    /// The wall-clock time (milliseconds since the epoch) at which all raw
    /// scores are valid baselines.
    pub reference_time: u64,
    /// The decay constant shared by all records, in milliseconds.
    pub half_life: u64,
}

impl<T: DBItem> FrecencyDB<T> {
    /// The stored records, as a mathematical sequence.
    pub open spec fn recs(&self) -> Seq<Record<T>> {
        self.records@
    }

    /// The store's reference time, in milliseconds since the epoch.
    pub open spec fn reference_time_spec(&self) -> u64 {
        self.reference_time
    }

    /// The store's half-life, in milliseconds.
    pub open spec fn half_life_spec(&self) -> u64 {
        self.half_life
    }

    /// The database invariant: a usable half-life; every score at most the
    /// cap; no two records with one identity; every record keyed by its own
    /// item's identity.
    pub open spec fn wf(&self) -> bool {
        &&& valid_half_life(self.half_life)
        &&& unique_ids(self.records@)
        &&& forall|i: int|
            0 <= i < self.records@.len() ==> (#[trigger] self.records@[i]).score <= SCORE_CAP
        &&& forall|i: int|
            0 <= i < self.records@.len() ==> (#[trigger] self.records@[i]).id
                == self.records@[i].item.identity_spec()
    }

    /// Milliseconds elapsed from the reference time to `now_ms`, never
    /// negative: a clock reading from before the reference time counts as no
    /// elapsed time at all.
    pub open spec fn elapsed_spec(&self, now_ms: u64) -> u64 {
        if now_ms >= self.reference_time {
            (now_ms - self.reference_time) as u64
        } else {
            0u64
        }
    }

    /// Milliseconds elapsed since the reference time.
    pub(crate) fn millis_elapsed(&self, now_ms: u64) -> (r: u64)
        ensures
            r == self.elapsed_spec(now_ms),
    {
        if now_ms >= self.reference_time {
            now_ms - self.reference_time
        } else {
            0
        }
    }

    /// The reference time, in milliseconds since the epoch.
    pub fn reference_time(&self) -> (r: u64)
        ensures
            r == self.reference_time_spec(),
    {
        self.reference_time
    }

    /// The half-life, in milliseconds.
    pub fn half_life(&self) -> (r: u64)
        ensures
            r == self.half_life_spec(),
    {
        self.half_life
    }

    /// Copies of the stored items, in record order.
    pub fn items(&self) -> (r: Vec<T>)
        ensures
            r@.len() == self.recs().len(),
            forall|i: int| 0 <= i < r@.len() ==> r@[i] == self.recs()[i].item,
    {
        let mut out: Vec<T> = Vec::new();
        let mut i: usize = 0;
        while i < self.records.len()
            invariant
                i <= self.records@.len(),
                out@.len() == i,
                forall|k: int| 0 <= k < i ==> out@[k] == self.records@[k].item,
            decreases self.records@.len() - i,
        {
            out.push(self.records[i].item.duplicate());
            i = i + 1;
        }
        out
    }

    /// Look a record up by identity; `None` when no record has it.
    pub fn get_by_id(&self, id: u64) -> (r: Option<Container<T>>)
        ensures
            match r {
                Some(c) => {
                    &&& has_rec_id(self.recs(), id)
                    &&& c.id == id
                    &&& exists|k: int|
                        0 <= k < self.recs().len() && (#[trigger] self.recs()[k]).id == id
                            && c.item == self.recs()[k].item
                },
                None => !has_rec_id(self.recs(), id),
            },
    {
        let mut i: usize = 0;
        while i < self.records.len()
            invariant
                i <= self.records@.len(),
                forall|k: int| 0 <= k < i ==> (#[trigger] self.records@[k]).id != id,
            decreases self.records@.len() - i,
        {
            if self.records[i].id == id {
                return Some(Container { id, item: self.records[i].item.duplicate() });
            }
            i = i + 1;
        }
        None
    }

    /// Update the score of the record with identity `id` for one launch
    /// event of weight `weight` (in whole points) at wall-clock time
    /// `now_ms`.  Returns [`FrecencyDBError::NotFound`], and changes
    /// nothing, when no record has that identity.
    pub fn update_score(&mut self, id: u64, weight: u32, now_ms: u64) -> (r: Result<
        (),
        FrecencyDBError,
    >)
        requires
            old(self).wf(),
        ensures
            final(self).wf(),
            final(self).reference_time_spec() == old(self).reference_time_spec(),
            final(self).half_life_spec() == old(self).half_life_spec(),
            match r {
                Ok(()) => {
                    &&& has_rec_id(old(self).recs(), id)
                    &&& final(self).recs().len() == old(self).recs().len()
                    &&& forall|k: int|
                        0 <= k < old(self).recs().len() && (#[trigger] old(self).recs()[k]).id
                            != id ==> final(self).recs()[k] == old(self).recs()[k]
                    &&& forall|k: int|
                        0 <= k < old(self).recs().len() && (#[trigger] old(self).recs()[k]).id
                            == id ==> {
                            &&& final(self).recs()[k].id == id
                            &&& final(self).recs()[k].item == old(self).recs()[k].item
                            &&& final(self).recs()[k].score == update_spec(
                                old(self).recs()[k].score,
                                weight,
                                old(self).elapsed_spec(now_ms),
                                old(self).half_life_spec(),
                            )
                        }
                },
                Err(e) => {
                    &&& e is NotFound
                    &&& !has_rec_id(old(self).recs(), id)
                    &&& final(self).recs() == old(self).recs()
                },
            },
    {
        let elapsed = self.millis_elapsed(now_ms);
        let half_life = self.half_life;
        let n = self.records.len();
        let mut i: usize = 0;
        while i < n
            invariant
                n == self.records@.len(),
                i <= n,
                self.wf(),
                valid_half_life(half_life),
                half_life == old(self).half_life,
                elapsed == old(self).elapsed_spec(now_ms),
                self.records@ == old(self).records@,
                self.reference_time == old(self).reference_time,
                self.half_life == old(self).half_life,
                forall|k: int| 0 <= k < i ==> (#[trigger] self.records@[k]).id != id,
            decreases n - i,
        {
            if self.records[i].id == id {
                let new_score = update_frecency(self.records[i].score, weight, elapsed, half_life);
                let rid = self.records[i].id;
                let item = self.records[i].item.duplicate();
                let slot = vstd::std_specs::vec::vec_index_mut(&mut self.records, i);
                *slot = Record { id: rid, score: new_score, item };
                return Ok(());
            }
            i = i + 1;
        }
        Err(FrecencyDBError::NotFound)
    }

    /// Create a fresh store from an initial scan: the reference time is
    /// `now_ms`, the half-life the three-day default, and every item enters
    /// with score zero (duplicates by identity collapse to their first
    /// occurrence).
    pub fn new(items: Vec<T>, now_ms: u64) -> (r: FrecencyDB<T>)
        ensures
            r.wf(),
            r.recs() == merge_spec(Seq::<Record<T>>::empty(), items@),
            r.reference_time_spec() == now_ms,
            r.half_life_spec() == DEFAULT_HALF_LIFE_MS,
    {
        let mut db = FrecencyDB {
            records: Vec::new(),
            reference_time: now_ms,
            half_life: DEFAULT_HALF_LIFE_MS,
        };
        db.merge_new_entries(items);
        db
    }

    /// Reconcile the store against a fresh scan.
    ///
    /// Records whose item identity the scan still carries survive whole —
    /// same identity, same raw score, same stored item — so a rescan never
    /// resets learned preferences.  Records whose identity disappeared are
    /// dropped.  Scanned items new to the store are appended, in scan order,
    /// with score zero, one record per identity.  The reference time and the
    /// half-life never change.
    pub fn merge_new_entries(&mut self, items: Vec<T>)
        requires
            old(self).wf(),
        ensures
            final(self).wf(),
            final(self).recs() == merge_spec(old(self).recs(), items@),
            final(self).reference_time_spec() == old(self).reference_time_spec(),
            final(self).half_life_spec() == old(self).half_life_spec(),
    {
        let ghost orig = self.records@;
        // the identities of the scanned items, in scan order
        let mut scanned_ids: Vec<u64> = Vec::new();
        let mut j: usize = 0;
        while j < items.len()
            invariant
                j <= items@.len(),
                scanned_ids@ == items@.take(j as int).map_values(|t: T| t.identity_spec()),
            decreases items@.len() - j,
        {
            let id = vstd::std_specs::vec::vec_index(&items, j).identity();
            scanned_ids.push(id);
            proof {
                assert(items@.take(j as int + 1).map_values(|t: T| t.identity_spec())
                    =~= items@.take(j as int).map_values(|t: T| t.identity_spec()).push(
                    items@[j as int].identity_spec(),
                ));
            }
            j = j + 1;
        }
        proof {
            assert(items@.take(items@.len() as int) =~= items@);
        }
        // the identities already stored, in record order
        let mut old_ids: Vec<u64> = Vec::new();
        let mut i: usize = 0;
        while i < self.records.len()
            invariant
                i <= self.records@.len(),
                self.records@ == orig,
                self == old(self),
                old_ids@ == orig.take(i as int).map_values(|r: Record<T>| r.id),
            decreases self.records@.len() - i,
        {
            old_ids.push(self.records[i].id);
            proof {
                assert(orig.take(i as int + 1).map_values(|r: Record<T>| r.id)
                    =~= orig.take(i as int).map_values(|r: Record<T>| r.id).push(
                    orig[i as int].id,
                ));
            }
            i = i + 1;
        }
        proof {
            assert(orig.take(orig.len() as int) =~= orig);
        }
        // first phase: keep the records whose identity is still scanned
        let mut old_records: Vec<Record<T>> = Vec::new();
        core::mem::swap(&mut self.records, &mut old_records);
        let n = old_records.len();
        let mut i: usize = 0;
        while i < n
            invariant
                n == orig.len(),
                i <= n,
                old_records@ == orig.skip(i as int),
                self.records@ == retained_recs(orig.take(i as int), items@),
                scanned_ids@ == items@.map_values(|t: T| t.identity_spec()),
                self.reference_time == old(self).reference_time,
                self.half_life == old(self).half_life,
            decreases n - i,
        {
            let rec = old_records.remove(0);
            proof {
                assert(orig.skip(i as int)[0] == orig[i as int]);
                assert(orig.skip(i as int).remove(0) =~= orig.skip(i as int + 1));
            }
            let keep = id_in_prefix(&scanned_ids, scanned_ids.len(), rec.id);
            proof {
                assert(scanned_ids@.take(scanned_ids@.len() as int) =~= scanned_ids@);
                lemma_item_ids_contains(items@, scanned_ids@, rec.id);
                assert(orig.take(i as int + 1).drop_last() =~= orig.take(i as int));
                assert(orig.take(i as int + 1).last() == orig[i as int]);
            }
            if keep {
                self.records.push(rec);
                proof {
                    assert(self.records@ =~= retained_recs(orig.take(i as int + 1), items@));
                }
            } else {
                proof {
                    assert(self.records@ =~= retained_recs(orig.take(i as int + 1), items@));
                }
            }
            i = i + 1;
        }
        proof {
            assert(orig.take(n as int) =~= orig);
        }
        // second phase: append fresh records for the identities new to the
        // store, first occurrence first
        let m = items.len();
        let mut j: usize = 0;
        while j < m
            invariant
                m == items@.len(),
                j <= m,
                self.records@ == retained_recs(orig, items@) + added_recs(
                    orig,
                    items@.take(j as int),
                ),
                scanned_ids@ == items@.map_values(|t: T| t.identity_spec()),
                old_ids@ == orig.map_values(|r: Record<T>| r.id),
                self.reference_time == old(self).reference_time,
                self.half_life == old(self).half_life,
            decreases m - j,
        {
            let idj = scanned_ids[j];
            let in_old = id_in_prefix(&old_ids, old_ids.len(), idj);
            let in_prefix = id_in_prefix(&scanned_ids, j, idj);
            proof {
                assert(old_ids@.take(old_ids@.len() as int) =~= old_ids@);
                lemma_rec_ids_contains(orig, old_ids@, idj);
                assert(scanned_ids@.take(j as int) =~= items@.take(j as int).map_values(
                    |t: T| t.identity_spec(),
                ));
                lemma_item_ids_contains(items@.take(j as int), scanned_ids@.take(j as int), idj);
                assert(items@.take(j as int + 1).drop_last() =~= items@.take(j as int));
                assert(items@.take(j as int + 1).last() == items@[j as int]);
            }
            if !in_old && !in_prefix {
                let dup = vstd::std_specs::vec::vec_index(&items, j).duplicate();
                self.records.push(Record { id: idj, score: 0, item: dup });
                proof {
                    assert(self.records@ =~= retained_recs(orig, items@) + added_recs(
                        orig,
                        items@.take(j as int + 1),
                    ));
                }
            } else {
                proof {
                    assert(added_recs(orig, items@.take(j as int + 1)) =~= added_recs(
                        orig,
                        items@.take(j as int),
                    ));
                }
            }
            j = j + 1;
        }
        proof {
            assert(items@.take(m as int) =~= items@);
            lemma_merge_props(orig, items@);
            assert forall|k: int| 0 <= k < self.records@.len() implies (
            #[trigger] self.records@[k]).score <= SCORE_CAP && self.records@[k].id
                == self.records@[k].item.identity_spec() by {
                if old(self).recs().contains(self.records@[k]) {
                    let idx = choose|idx: int|
                        0 <= idx < orig.len() && orig[idx] == self.records@[k];
                }
            }
        }
    }

    /// Update the score of `item`'s record by one launch of weight 1.
    pub fn update(&mut self, item: &T, now_ms: u64) -> (r: Result<(), FrecencyDBError>)
        requires
            old(self).wf(),
        ensures
            final(self).wf(),
            final(self).reference_time_spec() == old(self).reference_time_spec(),
            final(self).half_life_spec() == old(self).half_life_spec(),
            match r {
                Ok(()) => {
                    &&& has_rec_id(old(self).recs(), item.identity_spec())
                    &&& final(self).recs().len() == old(self).recs().len()
                    &&& forall|k: int|
                        0 <= k < old(self).recs().len() && (#[trigger] old(self).recs()[k]).id
                            != item.identity_spec() ==> final(self).recs()[k] == old(self).recs()[k]
                    &&& forall|k: int|
                        0 <= k < old(self).recs().len() && (#[trigger] old(self).recs()[k]).id
                            == item.identity_spec() ==> {
                            &&& final(self).recs()[k].id == item.identity_spec()
                            &&& final(self).recs()[k].item == old(self).recs()[k].item
                            &&& final(self).recs()[k].score == update_spec(
                                old(self).recs()[k].score,
                                1u32,
                                old(self).elapsed_spec(now_ms),
                                old(self).half_life_spec(),
                            )
                        }
                },
                Err(e) => {
                    &&& e is NotFound
                    &&& !has_rec_id(old(self).recs(), item.identity_spec())
                    &&& final(self).recs() == old(self).recs()
                },
            },
    {
        let id = item.identity();
        self.update_score(id, 1, now_ms)
    }
}

} // verus!
