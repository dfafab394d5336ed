//! The ranking engine.
//!
//! Given search text, every stored item gets a textual relevance from an
//! external fuzzy matcher; items with no match, or relevance zero or less,
//! are discarded.  The rest are ordered by a sort key that blends the
//! effective frecency score at "now" with the relevance — a plain additive
//! blend, with the relevance expressed in the same millipoint unit as the
//! scores — descending, ties resolved by insertion order, and the list is
//! cut to the caller's limit.  The operation reads the store and mutates
//! nothing.
//!
//! The fuzzy matcher treats empty search text as matching everything with
//! relevance 0; since only strictly positive relevance qualifies, an empty
//! search therefore matches nothing, consistently.

use vstd::prelude::*;

use crate::frecency::{Container, FrecencyDB, Record};
use crate::item::DBItem;
use crate::score::{effective_spec, effective_score, SCALE};

verus! {

/// The relevance the external fuzzy matcher assigns to a choice string for
/// a search pattern: `None` when the pattern does not match the choice at
/// all.  The result depends on the two strings alone.
pub uninterp spec fn fuzzy_score(choice: Seq<char>, pattern: Seq<char>) -> Option<i64>;

/// Relies on fuzzy_matcher's `skim::fuzzy_match`: a pure function of the
/// choice and pattern strings — `None` when the pattern cannot be matched,
/// and `Some(0)` whenever the pattern is empty.
#[verifier::external_body]
fn fuzzy_match_relevance(choice: &str, pattern: &str) -> (r: Option<i64>)
    ensures
        r == fuzzy_score(choice@, pattern@),
        pattern@.len() == 0 ==> r == Some(0i64),
{
    fuzzy_matcher::skim::fuzzy_match(choice, pattern)
}

/// Does record `k` of `recs` qualify for the ranked list under `search`:
/// its sort text fuzzy-matches with strictly positive relevance?
pub open spec fn qualifies<T: DBItem>(recs: Seq<Record<T>>, k: int, search: Seq<char>) -> bool {
    &&& 0 <= k < recs.len()
    &&& match fuzzy_score(recs[k].item.sort_text_spec(), search) {
        Some(rel) => rel > 0,
        None => false,
    }
}

/// The sort key of qualifying record `k`: its effective frecency score at
/// the given elapsed time plus its relevance, in millipoints.
pub open spec fn rec_rank_key<T: DBItem>(
    recs: Seq<Record<T>>,
    k: int,
    search: Seq<char>,
    elapsed: u64,
    half_life: u64,
) -> int
    recommends
        qualifies(recs, k, search),
{
    effective_spec(recs[k].score, elapsed, half_life) + fuzzy_score(
        recs[k].item.sort_text_spec(),
        search,
    )->Some_0 * SCALE as int
}

/// The sort key of the unique record carrying identity `id`.
pub open spec fn key_of_id<T: DBItem>(
    recs: Seq<Record<T>>,
    search: Seq<char>,
    elapsed: u64,
    half_life: u64,
    id: u64,
) -> int {
    let k = choose|k: int| 0 <= k < recs.len() && (#[trigger] recs[k]).id == id;
    rec_rank_key(recs, k, search, elapsed, half_life)
}

/// How many of the first `upto` records qualify under `search`.
pub open spec fn count_qualifying<T: DBItem>(
    recs: Seq<Record<T>>,
    search: Seq<char>,
    upto: int,
) -> int
    decreases upto,
{
    if upto <= 0 {
        0
    } else {
        count_qualifying(recs, search, upto - 1) + if qualifies(recs, upto - 1, search) {
            1int
        } else {
            0int
        }
    }
}

/// Does the ranked output carry identity `id`?
pub open spec fn out_has_id<T>(out: Seq<Container<T>>, id: u64) -> bool {
    exists|x: int| 0 <= x < out.len() && (#[trigger] out[x]).id == id
}

/// One entry the output is built from: a copy of a qualifying record's item
/// and identity, tagged with its sort key.
struct Ranked<T> {
    key: u128,
    id: u64,
    item: T,
}

/// The entry mirrors a qualifying record, key included.
spec fn entry_ok<T: DBItem>(
    recs: Seq<Record<T>>,
    search: Seq<char>,
    elapsed: u64,
    half_life: u64,
    e: Ranked<T>,
) -> bool {
    exists|k: int|
        {
            &&& #[trigger] qualifies(recs, k, search)
            &&& recs[k].id == e.id
            &&& recs[k].item == e.item
            &&& e.key as int == rec_rank_key(recs, k, search, elapsed, half_life)
        }
}

/// Does the working list carry identity `id`?
spec fn ent_has_id<T>(s: Seq<Ranked<T>>, id: u64) -> bool {
    exists|x: int| 0 <= x < s.len() && (#[trigger] s[x]).id == id
}

/// For a record set without repeated identities, a well-formed entry's key
/// is the key of its identity.
proof fn lemma_entry_key<T: DBItem>(
    recs: Seq<Record<T>>,
    search: Seq<char>,
    elapsed: u64,
    half_life: u64,
    e: Ranked<T>,
)
    requires
        crate::frecency::unique_ids(recs),
        entry_ok(recs, search, elapsed, half_life, e),
    ensures
        key_of_id(recs, search, elapsed, half_life, e.id) == e.key as int,
{
    let k = choose|k: int|
        {
            &&& #[trigger] qualifies(recs, k, search)
            &&& recs[k].id == e.id
            &&& recs[k].item == e.item
            &&& e.key as int == rec_rank_key(recs, k, search, elapsed, half_life)
        };
    let k2 = choose|k2: int| 0 <= k2 < recs.len() && (#[trigger] recs[k2]).id == e.id;
    assert(recs[k].id == e.id);
    if k != k2 {
        assert(recs[k].id != recs[k2].id);
    }
}

impl<T: DBItem> FrecencyDB<T> {
    /// The items in rank order for the given search text, highest sort key
    /// first, cut to `num_items` entries when a limit is given.
    ///
    /// The result holds a copy of every record whose sort text
    /// fuzzy-matches the search with strictly positive relevance — each
    /// identity once — ordered by descending sort key (effective frecency
    /// at `now_ms` plus relevance, in millipoints; ties keep their relative
    /// order).  When the limit cuts the list, only records whose key does
    /// not exceed the last kept key are left out.  Empty search text
    /// matches nothing.  The store itself is not changed.
    pub fn get_ranked_list(&self, search: &str, num_items: Option<usize>, now_ms: u64) -> (r: Vec<
        Container<T>,
    >)
        requires
            self.wf(),
        ensures
            forall|x: int|
                0 <= x < r@.len() ==> exists|k: int|
                    {
                        &&& #[trigger] qualifies(self.recs(), k, search@)
                        &&& self.recs()[k].id == (#[trigger] r@[x]).id
                        &&& self.recs()[k].item == r@[x].item
                    },
            forall|x: int, y: int|
                0 <= x < y < r@.len() ==> (#[trigger] r@[x]).id != (#[trigger] r@[y]).id,
            forall|x: int, y: int|
                0 <= x < y < r@.len() ==> key_of_id(
                    self.recs(),
                    search@,
                    self.elapsed_spec(now_ms),
                    self.half_life_spec(),
                    (#[trigger] r@[x]).id,
                ) >= key_of_id(
                    self.recs(),
                    search@,
                    self.elapsed_spec(now_ms),
                    self.half_life_spec(),
                    (#[trigger] r@[y]).id,
                ),
            match num_items {
                Some(n) => r@.len() == vstd::math::min(
                    count_qualifying(self.recs(), search@, self.recs().len() as int),
                    n as int,
                ),
                None => r@.len() == count_qualifying(
                    self.recs(),
                    search@,
                    self.recs().len() as int,
                ),
            },
            forall|k: int|
                #[trigger] qualifies(self.recs(), k, search@) && !out_has_id(
                    r@,
                    self.recs()[k].id,
                ) ==> num_items is Some && r@.len() == num_items->Some_0 && (r@.len() > 0
                    ==> rec_rank_key(
                    self.recs(),
                    k,
                    search@,
                    self.elapsed_spec(now_ms),
                    self.half_life_spec(),
                ) <= key_of_id(
                    self.recs(),
                    search@,
                    self.elapsed_spec(now_ms),
                    self.half_life_spec(),
                    r@[r@.len() - 1].id,
                )),
            search@.len() == 0 ==> r@.len() == 0,
    {
        let ghost recs = self.recs();
        let ghost searchq = search@;
        let elapsed = self.millis_elapsed(now_ms);
        let half_life = self.half_life;
        let n = self.records.len();

        // gather the qualifying records, in store order, with their keys
        let mut entries: Vec<Ranked<T>> = Vec::new();
        let mut i: usize = 0;
        while i < n
            invariant
                self.wf(),
                recs == self.recs(),
                searchq == search@,
                elapsed == self.elapsed_spec(now_ms),
                half_life == self.half_life_spec(),
                n == recs.len(),
                i <= n,
                forall|x: int|
                    0 <= x < entries@.len() ==> entry_ok(
                        recs,
                        searchq,
                        elapsed,
                        half_life,
                        #[trigger] entries@[x],
                    ),
                forall|x: int|
                    0 <= x < entries@.len() ==> exists|k: int|
                        0 <= k < i && (#[trigger] entries@[x]).id == recs[k].id,
                forall|x: int, y: int|
                    0 <= x < y < entries@.len() ==> (#[trigger] entries@[x]).id != (
                    #[trigger] entries@[y]).id,
                forall|k: int|
                    0 <= k < i && #[trigger] qualifies(recs, k, searchq) ==> ent_has_id(
                        entries@,
                        recs[k].id,
                    ),
                entries@.len() == count_qualifying(recs, searchq, i as int),
                searchq.len() == 0 ==> entries@.len() == 0,
            decreases n - i,
        {
            let rec = &self.records[i];
            let rel_opt = fuzzy_match_relevance(rec.item.get_sort_string(), search);
            let ghost before = entries@;
            let mut added = false;
            match rel_opt {
                Some(rel) => {
                    if rel > 0 {
                        let eff = effective_score(rec.score, elapsed, half_life);
                        let key = eff as u128 + (rel as u128) * (SCALE as u128);
                        entries.push(Ranked { key, id: rec.id, item: rec.item.duplicate() });
                        added = true;
                        proof {
                            assert(qualifies(recs, i as int, searchq));
                            assert(entries@[before.len() as int].key as int == rec_rank_key(
                                recs,
                                i as int,
                                searchq,
                                elapsed,
                                half_life,
                            ));
                            assert(ent_has_id(entries@, recs[i as int].id));
                        }
                    }
                },
                None => {},
            }
            proof {
                if !added {
                    assert(!qualifies(recs, i as int, searchq));
                }
                assert forall|k: int|
                    0 <= k < i + 1 && #[trigger] qualifies(recs, k, searchq) implies ent_has_id(
                    entries@,
                    recs[k].id,
                ) by {
                    if k < i {
                        assert(ent_has_id(before, recs[k].id));
                        let x = choose|x: int|
                            0 <= x < before.len() && (#[trigger] before[x]).id == recs[k].id;
                        assert(entries@[x].id == recs[k].id);
                    }
                }
            }
            i = i + 1;
        }

        // order them by descending key; the earliest maximum leaves first,
        // so equal keys keep their insertion order
        let mut sorted: Vec<Ranked<T>> = Vec::new();
        while entries.len() > 0
            invariant
                self.wf(),
                recs == self.recs(),
                searchq == search@,
                elapsed == self.elapsed_spec(now_ms),
                half_life == self.half_life_spec(),
                forall|x: int|
                    0 <= x < entries@.len() ==> entry_ok(
                        recs,
                        searchq,
                        elapsed,
                        half_life,
                        #[trigger] entries@[x],
                    ),
                forall|x: int|
                    0 <= x < sorted@.len() ==> entry_ok(
                        recs,
                        searchq,
                        elapsed,
                        half_life,
                        #[trigger] sorted@[x],
                    ),
                forall|x: int, y: int|
                    0 <= x < y < entries@.len() ==> (#[trigger] entries@[x]).id != (
                    #[trigger] entries@[y]).id,
                forall|x: int, y: int|
                    0 <= x < y < sorted@.len() ==> (#[trigger] sorted@[x]).id != (
                    #[trigger] sorted@[y]).id,
                forall|x: int, y: int|
                    0 <= x < sorted@.len() && 0 <= y < entries@.len() ==> (
                    #[trigger] sorted@[x]).id != (#[trigger] entries@[y]).id,
                forall|x: int, y: int|
                    0 <= x < y < sorted@.len() ==> (#[trigger] sorted@[x]).key >= (
                    #[trigger] sorted@[y]).key,
                sorted@.len() > 0 ==> forall|x: int|
                    0 <= x < entries@.len() ==> (#[trigger] entries@[x]).key <= sorted@[sorted@.len()
                        - 1].key,
                forall|k: int|
                    #[trigger] qualifies(recs, k, searchq) ==> ent_has_id(entries@, recs[k].id)
                        || ent_has_id(sorted@, recs[k].id),
                sorted@.len() + entries@.len() == count_qualifying(recs, searchq, recs.len() as int),
            decreases entries@.len(),
        {
            // find the first entry with the greatest key
            let mut best: usize = 0;
            let mut x: usize = 1;
            while x < entries.len()
                invariant
                    entries@.len() > 0,
                    best < x <= entries@.len(),
                    forall|w: int| 0 <= w < x ==> (#[trigger] entries@[w]).key <= entries@[
                        best as int].key,
                decreases entries@.len() - x,
            {
                if entries[x].key > entries[best].key {
                    best = x;
                }
                x = x + 1;
            }
            let ghost before_e = entries@;
            let ghost before_s = sorted@;
            let e = entries.remove(best);
            sorted.push(e);
            proof {
                assert(sorted@ == before_s.push(before_e[best as int]));
                assert forall|x: int| 0 <= x < entries@.len() implies (#[trigger] entries@[x])
                    == if x < best as int {
                    before_e[x]
                } else {
                    before_e[x + 1]
                } by {}
                assert forall|k: int|
                    #[trigger] qualifies(recs, k, searchq) implies ent_has_id(entries@, recs[k].id)
                    || ent_has_id(sorted@, recs[k].id) by {
                    if ent_has_id(before_e, recs[k].id) {
                        let w = choose|w: int|
                            0 <= w < before_e.len() && (#[trigger] before_e[w]).id == recs[k].id;
                        if w == best as int {
                            assert(sorted@[sorted@.len() - 1].id == recs[k].id);
                        } else if w < best as int {
                            assert(entries@[w].id == recs[k].id);
                        } else {
                            assert(entries@[w - 1].id == recs[k].id);
                        }
                    } else {
                        let w = choose|w: int|
                            0 <= w < before_s.len() && (#[trigger] before_s[w]).id == recs[k].id;
                        assert(sorted@[w].id == recs[k].id);
                    }
                }
            }
        }

        // cut to the limit and strip the keys
        let total = sorted.len();
        let limit = match num_items {
            Some(nlim) => if nlim < total {
                nlim
            } else {
                total
            },
            None => total,
        };
        let mut out: Vec<Container<T>> = Vec::new();
        let mut x: usize = 0;
        while x < limit
            invariant
                limit <= total == sorted@.len(),
                x <= limit,
                out@.len() == x,
                forall|w: int|
                    0 <= w < x ==> (#[trigger] out@[w]).id == sorted@[w].id && out@[w].item
                        == sorted@[w].item,
            decreases limit - x,
        {
            let e = &sorted[x];
            out.push(Container { id: e.id, item: e.item.duplicate() });
            x = x + 1;
        }

        proof {
            // membership, distinctness and order carry over from `sorted`
            assert forall|x: int| 0 <= x < out@.len() implies exists|k: int|
                {
                    &&& #[trigger] qualifies(recs, k, searchq)
                    &&& recs[k].id == (#[trigger] out@[x]).id
                    &&& recs[k].item == out@[x].item
                } by {
                assert(entry_ok(recs, searchq, elapsed, half_life, sorted@[x]));
            }
            assert forall|x: int, y: int| 0 <= x < y < out@.len() implies key_of_id(
                recs,
                searchq,
                elapsed,
                half_life,
                (#[trigger] out@[x]).id,
            ) >= key_of_id(recs, searchq, elapsed, half_life, (#[trigger] out@[y]).id) by {
                lemma_entry_key(recs, searchq, elapsed, half_life, sorted@[x]);
                lemma_entry_key(recs, searchq, elapsed, half_life, sorted@[y]);
            }
            // a qualifying record missing from the output was cut by the
            // limit, and its key does not beat the last kept key
            assert forall|k: int|
                #[trigger] qualifies(recs, k, searchq) && !out_has_id(out@, recs[k].id) implies (
            num_items is Some && out@.len() == num_items->Some_0 && (out@.len() > 0
                ==> rec_rank_key(recs, k, searchq, elapsed, half_life) <= key_of_id(
                recs,
                searchq,
                elapsed,
                half_life,
                out@[out@.len() - 1].id,
            ))) by {
                assert(ent_has_id(sorted@, recs[k].id));
                let w = choose|w: int|
                    0 <= w < sorted@.len() && (#[trigger] sorted@[w]).id == recs[k].id;
                if w < limit as int {
                    assert(out@[w].id == recs[k].id);
                    assert(out_has_id(out@, recs[k].id));
                } else {
                    assert(limit < total);
                    if out@.len() > 0 {
                        let e = sorted@[w];
                        assert(entry_ok(recs, searchq, elapsed, half_life, e));
                        let k2 = choose|k2: int|
                            {
                                &&& #[trigger] qualifies(recs, k2, searchq)
                                &&& recs[k2].id == e.id
                                &&& recs[k2].item == e.item
                                &&& e.key as int == rec_rank_key(
                                    recs,
                                    k2,
                                    searchq,
                                    elapsed,
                                    half_life,
                                )
                            };
                        if k2 != k {
                            assert(recs[k2].id != recs[k].id);
                        }
                        assert(sorted@[w].key <= sorted@[limit - 1].key);
                        lemma_entry_key(recs, searchq, elapsed, half_life, sorted@[limit - 1]);
                    }
                }
            }
        }
        out
    }
}

} // verus!
