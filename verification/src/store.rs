//! The record store: an append-only-positioned sequence of records with
//! a parallel computed-data sidecar and a key-to-position index, plus
//! relevance-ranked search over it.
//!
//! The sequence, the sidecar and the index are mutated together inside
//! single `&mut self` operations, so index maintenance can never be
//! split from the sequence write it indexes.

use vstd::prelude::*;

use crate::data::{ComputedData, ComputedV, DetailedSearchResult, PageV, ResultV,
    ScrapedMainPageEnum, UniqueString, key_of, preview_of, EMBED_WIDTH};
use crate::rank::score_of;
use crate::topk::{TopKSelector, has_pos, pair_ge, topk_fold, lemma_topk_props};
use crate::StoreError;

verus! {

/// The view of an option of computed data.
pub open spec fn opt_comp_view(o: Option<ComputedData>) -> Option<ComputedV> {
    match o {
        Option::Some(c) => Option::Some(c@),
        Option::None => Option::None,
    }
}

/// Some record in the sequence carries this key.
pub open spec fn has_key(recs: Seq<PageV>, k: Seq<char>) -> bool {
    exists|p: int| 0 <= p < recs.len() && key_of(#[trigger] recs[p]) == k
}

/// The position of the record carrying this key.
pub open spec fn pos_of_key(recs: Seq<PageV>, k: Seq<char>) -> int {
    choose|p: int| 0 <= p < recs.len() && key_of(#[trigger] recs[p]) == k
}

/// The candidate (score, position) stream of a search: every position in
/// order, scored, except that a negative score is excluded when the
/// query is non-empty.
pub open spec fn cand_seq(recs: Seq<PageV>, q: Seq<char>, n: int) -> Seq<(i64, usize)>
    decreases n,
{
    if n <= 0 {
        Seq::empty()
    } else {
        let pre = cand_seq(recs, q, n - 1);
        let s = score_of(recs[n - 1], q);
        if s < 0 && q.len() != 0 {
            pre
        } else {
            pre.push((s as i64, (n - 1) as usize))
        }
    }
}

/// The search answers drawn from a selection of (score, position) pairs.
pub open spec fn result_views(recs: Seq<PageV>, pairs: Seq<(i64, usize)>) -> Seq<ResultV> {
    Seq::new(
        pairs.len(),
        |j: int|
            ResultV {
                id: pairs[j].1 as int,
                rank: pairs[j].0 as int,
                event: key_of(recs[pairs[j].1 as int]),
                page: preview_of(recs[pairs[j].1 as int]),
            },
    )
}

/// What a search returns: the top-k of the candidate stream, dressed as
/// answers.
pub open spec fn search_spec(recs: Seq<PageV>, q: Seq<char>, k: nat) -> Seq<ResultV> {
    result_views(recs, topk_fold(cand_seq(recs, q, recs.len() as int), k))
}

/// Every score fits the fixed-point range.
pub proof fn lemma_score_in_range(p: PageV, q: Seq<char>)
    ensures
        i64::MIN <= score_of(p, q) <= i64::MAX,
{
    match p {
        PageV::Journey2025(j) => {
            let f = j.followers as int;
            let st = j.stonks as int;
            assert(score_of(p, q) == f * 10000 + st * 2000);
            assert(0 <= f * 10000 <= 655350000) by (nonlinear_arith)
                requires
                    0 <= f <= 65535,
            ;
            assert(0 <= st * 2000 <= 131070000) by (nonlinear_arith)
                requires
                    0 <= st <= 65535,
            ;
        },
        PageV::Summer2025(s) => {},
    }
}

/// The candidate stream holds exactly the passing positions, in order,
/// each carrying its record's score.
pub proof fn lemma_cand_elems(recs: Seq<PageV>, q: Seq<char>, n: int)
    requires
        0 <= n <= recs.len(),
        n <= usize::MAX,
    ensures
        forall|j: int|
            0 <= j < cand_seq(recs, q, n).len() ==> {
                let pr = #[trigger] cand_seq(recs, q, n)[j];
                0 <= pr.1 < n && pr.0 as int == score_of(recs[pr.1 as int], q) && (q.len() != 0
                    ==> pr.0 >= 0)
            },
        forall|i: int, j: int|
            0 <= i < j < cand_seq(recs, q, n).len() ==> (#[trigger] cand_seq(recs, q, n)[i]).1 < (
            #[trigger] cand_seq(recs, q, n)[j]).1,
        q.len() == 0 ==> cand_seq(recs, q, n).len() == n,
        forall|p: usize|
            p < n && (q.len() == 0 || score_of(recs[p as int], q) >= 0) ==> has_pos(
                cand_seq(recs, q, n),
                p,
            ),
    decreases n,
{
    if n > 0 {
        lemma_cand_elems(recs, q, n - 1);
        lemma_score_in_range(recs[n - 1], q);
        let pre = cand_seq(recs, q, n - 1);
        let c = cand_seq(recs, q, n);
        let s = score_of(recs[n - 1], q);
        if s < 0 && q.len() != 0 {
        } else {
            let p = (s as i64, (n - 1) as usize);
            assert(c[c.len() - 1] == p);
            assert forall|p2: usize|
                p2 < n && (q.len() == 0 || score_of(recs[p2 as int], q) >= 0) implies has_pos(
                c,
                p2,
            ) by {
                if p2 < n - 1 {
                    assert(has_pos(pre, p2));
                    let w = choose|w: int| 0 <= w < pre.len() && (#[trigger] pre[w]).1 == p2;
                    assert(c[w].1 == p2);
                } else {
                    assert(c[c.len() - 1].1 == p2);
                }
            }
        }
    }
}

/// The store: the record sequence, its computed-data sidecar, and the
/// key-to-position index.
pub struct Database {
    records: Vec<ScrapedMainPageEnum>,
    computed: Vec<Option<ComputedData>>,
    index: Vec<(UniqueString, usize)>,
}

impl Database {
    /// The stored records, by position.
    pub closed spec fn recs(self) -> Seq<PageV> {
        Seq::new(self.records@.len(), |i: int| self.records@[i]@)
    }

    /// The computed-data sidecar, by position.
    pub closed spec fn comps(self) -> Seq<Option<ComputedV>> {
        Seq::new(self.computed@.len(), |i: int| opt_comp_view(self.computed@[i]))
    }

    /// The key-to-position index, in insertion order.
    pub closed spec fn idx(self) -> Seq<(Seq<char>, int)> {
        Seq::new(self.index@.len(), |i: int| (self.index@[i].0@, self.index@[i].1 as int))
    }

    /// The store's invariant: the sidecar and the index run parallel to
    /// the sequence, the index maps each record's key to its position,
    /// keys are unique store-wide, and attached computed data is
    /// well-formed.
    pub open spec fn wf(self) -> bool {
        &&& self.comps().len() == self.recs().len()
        &&& self.idx().len() == self.recs().len()
        &&& forall|j: int|
            0 <= j < self.idx().len() ==> #[trigger] self.idx()[j] == (
            key_of(self.recs()[j]),
            j,
        )
        &&& forall|i: int, j: int|
            0 <= i < j < self.recs().len() ==> key_of(#[trigger] self.recs()[i]) != key_of(
                #[trigger] self.recs()[j],
            )
        &&& forall|i: int|
            0 <= i < self.comps().len() && (#[trigger] self.comps()[i]) is Some
                ==> self.comps()[i]->0.embedding.len() == EMBED_WIDTH
    }

    /// The stored sequence always fits the machine's address space.
    pub proof fn lemma_len_bound(self)
        ensures
            self.recs().len() <= usize::MAX,
    {
        vstd::std_specs::vec::axiom_spec_len(&self.records);
    }

    /// An empty store with no backing file.
    pub fn new_non_backed() -> (r: Database)
        ensures
            r.wf(),
            r.recs() == Seq::<PageV>::empty(),
            r.comps() == Seq::<Option<ComputedV>>::empty(),
            r.idx() == Seq::<(Seq<char>, int)>::empty(),
    {
        let r = Database { records: Vec::new(), computed: Vec::new(), index: Vec::new() };
        proof {
            assert(r.recs() =~= Seq::<PageV>::empty());
            assert(r.comps() =~= Seq::<Option<ComputedV>>::empty());
            assert(r.idx() =~= Seq::<(Seq<char>, int)>::empty());
        }
        r
    }

    /// Look a key up in the index.
    fn find_position(&self, key: &UniqueString) -> (r: Option<usize>)
        requires
            self.wf(),
        ensures
            match r {
                Option::Some(p) => p < self.recs().len() && key_of(self.recs()[p as int]) == key@,
                Option::None => !has_key(self.recs(), key@),
            },
    {
        let n = self.index.len();
        let mut i: usize = 0;
        while i < n
            invariant
                self.wf(),
                n == self.index@.len(),
                i <= n,
                forall|j: int| 0 <= j < i ==> key_of(self.recs()[j]) != key@,
            decreases n - i,
        {
            let e = &self.index[i];
            if e.0.0 == key.0 {
                proof {
                    assert(self.idx()[i as int] == (key_of(self.recs()[i as int]), i as int));
                    assert(self.idx()[i as int].0 == self.index@[i as int].0@);
                }
                return Some(e.1);
            }
            proof {
                assert(self.idx()[i as int].0 == self.index@[i as int].0@);
                assert(key_of(self.recs()[i as int]) != key@);
            }
            i = i + 1;
        }
        None
    }

    /// Upsert: an entry whose key is present overwrites the record at
    /// its position and clears that position's computed data; a new key
    /// appends the entry at the tail and indexes it. Sequence, sidecar
    /// and index move together in this one exclusive operation.
    pub fn add_entry(&mut self, entry: ScrapedMainPageEnum)
        requires
            old(self).wf(),
        ensures
            final(self).wf(),
            has_key(old(self).recs(), key_of(entry@)) ==> (final(self).recs() == old(self).recs()
                .update(pos_of_key(old(self).recs(), key_of(entry@)), entry@)
                && final(self).comps() == old(self).comps()
                .update(pos_of_key(old(self).recs(), key_of(entry@)), Option::<ComputedV>::None)
                && final(self).idx() == old(self).idx()),
            !has_key(old(self).recs(), key_of(entry@)) ==> (final(self).recs() == old(self).recs()
                .push(entry@)
                && final(self).comps() == old(self).comps().push(Option::<ComputedV>::None)
                && final(self).idx() == old(self).idx()
                .push((key_of(entry@), old(self).recs().len() as int))),
    {
        let key = entry.unique_string();
        match self.find_position(&key) {
            Option::Some(p) => {
                proof {
                    assert(has_key(self.recs(), key@));
                    let q = pos_of_key(self.recs(), key_of(entry@));
                    assert(0 <= q < self.recs().len() && key_of(self.recs()[q]) == key_of(entry@));
                    assert(q == p as int);
                }
                let ghost old_recs = self.recs();
                let ghost old_comps = self.comps();
                let ghost old_idx = self.idx();
                self.records[p] = entry;
                self.computed[p] = Option::None;
                proof {
                    assert(self.recs() =~= old_recs.update(p as int, entry@));
                    assert(self.comps() =~= old_comps.update(p as int, Option::<ComputedV>::None));
                    assert(self.idx() =~= old_idx);
                    assert(key_of(self.recs()[p as int]) == key_of(old_recs[p as int]));
                    assert(self.wf());
                }
            },
            Option::None => {
                let ghost old_recs = self.recs();
                let ghost old_comps = self.comps();
                let ghost old_idx = self.idx();
                let pos = self.records.len();
                self.records.push(entry);
                self.computed.push(Option::None);
                self.index.push((key, pos));
                proof {
                    assert(self.recs() =~= old_recs.push(entry@));
                    assert(self.comps() =~= old_comps.push(Option::<ComputedV>::None));
                    assert(self.idx() =~= old_idx.push((key_of(entry@), old_recs.len() as int)));
                    assert(self.wf());
                }
            },
        }
    }

    /// Replace the computed data at a position; out-of-range positions
    /// are refused with `NotFound` and change nothing.
    pub fn set_extras(&mut self, index: usize, computed: ComputedData) -> (r: Result<
        (),
        StoreError,
    >)
        requires
            old(self).wf(),
            computed.wf(),
        ensures
            final(self).wf(),
            final(self).recs() == old(self).recs(),
            final(self).idx() == old(self).idx(),
            index < old(self).recs().len() ==> r == Result::<(), StoreError>::Ok(())
                && final(self).comps() == old(self).comps()
                .update(index as int, Option::Some(computed@)),
            index >= old(self).recs().len() ==> r == Result::<(), StoreError>::Err(
                StoreError::NotFound) && final(self).comps() == old(self).comps(),
    {
        if index < self.computed.len() {
            let ghost old_comps = self.comps();
            self.computed[index] = Option::Some(computed);
            proof {
                assert(self.comps() =~= old_comps.update(index as int, Option::Some(computed@)));
                assert(self.recs() =~= old(self).recs());
                assert(self.idx() =~= old(self).idx());
            }
            Ok(())
        } else {
            Err(StoreError::NotFound)
        }
    }

    /// Read-only search: score every record, drop negative scores when
    /// the query is non-empty, keep the best `k` and dress them as
    /// ordered answers.
    pub fn search_and_rank(&self, query: &String, k: usize) -> (res: Vec<DetailedSearchResult>)
        requires
            self.wf(),
        ensures
            res@.len() == search_spec(self.recs(), query@, k as nat).len(),
            forall|j: int|
                0 <= j < res@.len() ==> (#[trigger] res@[j])@ == search_spec(
                    self.recs(),
                    query@,
                    k as nat,
                )[j],
    {
        let ghost recs = self.recs();
        let ghost q = query@;
        let n = self.records.len();
        let mut sel = TopKSelector::new(k);
        let mut i: usize = 0;
        while i < n
            invariant
                self.wf(),
                recs == self.recs(),
                q == query@,
                n == self.records@.len(),
                i <= n,
                sel.wf(),
                sel.capacity() == k as nat,
                sel@ == topk_fold(cand_seq(recs, q, i as int), k as nat),
            decreases n - i,
        {
            let rec = &self.records[i];
            let extra = self.computed[i].as_ref();
            let s = rec.rank(query, extra);
            proof {
                assert(recs[i as int] == self.records@[i as int]@);
            }
            let ghost pre = cand_seq(recs, q, i as int);
            if s < 0 && !query.as_str().is_empty() {
                proof {
                    assert(cand_seq(recs, q, i + 1) == pre);
                }
            } else {
                sel.offer(s, i);
                proof {
                    let c1 = cand_seq(recs, q, i + 1);
                    assert(c1 == pre.push((s, i)));
                    assert(c1.drop_last() =~= pre);
                    assert(c1.last() == (s, i));
                    assert(topk_fold(c1, k as nat) == sel@);
                }
            }
            i = i + 1;
        }
        let ghost cand = cand_seq(recs, q, recs.len() as int);
        let pairs = sel.into_sorted_vec();
        proof {
            assert(pairs@ == topk_fold(cand, k as nat));
            lemma_cand_elems(recs, q, recs.len() as int);
            lemma_topk_props(cand, k as nat);
            assert forall|j: int| 0 <= j < pairs@.len() implies (#[trigger] pairs@[j]).1
                < recs.len() && pairs@[j].0 as int == score_of(recs[pairs@[j].1 as int], q) by {
                assert(cand.contains(pairs@[j]));
                let w = choose|w: int| 0 <= w < cand.len() && cand[w] == pairs@[j];
                assert(cand[w].1 < recs.len());
            }
        }
        let ghost views = result_views(recs, pairs@);
        let mut res: Vec<DetailedSearchResult> = Vec::new();
        let mut j: usize = 0;
        while j < pairs.len()
            invariant
                self.wf(),
                recs == self.recs(),
                views == result_views(recs, pairs@),
                j <= pairs@.len(),
                forall|m: int|
                    0 <= m < pairs@.len() ==> (#[trigger] pairs@[m]).1 < self.records@.len(),
                recs.len() == self.records@.len(),
                res@.len() == j,
                forall|m: int| 0 <= m < j ==> (#[trigger] res@[m])@ == views[m],
            decreases pairs@.len() - j,
        {
            let pr = pairs[j];
            let rec = &self.records[pr.1];
            proof {
                assert(recs[pr.1 as int] == self.records@[pr.1 as int]@);
            }
            let out = DetailedSearchResult {
                id: pr.1,
                rank: pr.0,
                event: rec.unique_string().0,
                page: rec.preview(),
            };
            proof {
                assert(out@ == views[j as int]);
            }
            res.push(out);
            j = j + 1;
        }
        res
    }
}

/// A decoded snapshot that can stand as a store: the sidecar runs
/// parallel to the records, keys are unique, and computed data is
/// well-formed.
pub open spec fn snapshot_wf(recs: Seq<PageV>, comps: Seq<Option<ComputedV>>) -> bool {
    &&& comps.len() == recs.len()
    &&& forall|i: int, j: int|
        0 <= i < j < recs.len() ==> key_of(#[trigger] recs[i]) != key_of(#[trigger] recs[j])
    &&& forall|i: int|
        0 <= i < comps.len() && (#[trigger] comps[i]) is Some ==> comps[i]->0.embedding.len()
            == EMBED_WIDTH
}

impl Database {
    /// Serialize the whole store as one snapshot document.
    pub fn to_snapshot(&self) -> (r: String)
        ensures
            r@ == crate::codec::enc_store(self.recs(), self.comps()),
    {
        let chars = crate::snapshot::encode_store_text(&self.records, &self.computed);
        proof {
            assert(Seq::new(self.records@.len(), |i: int| self.records@[i]@) =~= self.recs());
            assert(Seq::new(self.computed@.len(), |i: int| opt_comp_view(self.computed@[i]))
                =~= self.comps());
        }
        crate::text::string_of_chars(&chars)
    }

    /// Rebuild a store from a snapshot document, rebuilding the index by
    /// a full scan; a text that does not parse as a well-formed snapshot
    /// yields the empty store.
    pub fn from_snapshot(text: &str) -> (r: Database)
        ensures
            r.wf(),
            match crate::codec::parse_store(text@) {
                Option::Some((recs, comps)) => if snapshot_wf(recs, comps) {
                    r.recs() == recs && r.comps() == comps
                } else {
                    r.recs().len() == 0
                },
                Option::None => r.recs().len() == 0,
            },
    {
        match crate::snapshot::decode_store_text(text) {
            Option::None => Database::new_non_backed(),
            Option::Some((records, computed)) => {
                let ghost recs = Seq::new(records@.len(), |k: int| records@[k]@);
                let ghost comps = Seq::new(
                    computed@.len(),
                    |k: int| opt_comp_view(computed@[k]),
                );
                if records.len() != computed.len() {
                    return Database::new_non_backed();
                }
                let mut ci: usize = 0;
                while ci < computed.len()
                    invariant
                        crate::codec::parse_store(text@) == Option::Some((recs, comps)),
                        comps == Seq::new(computed@.len(), |k: int| opt_comp_view(computed@[k])),
                        ci <= computed@.len(),
                        forall|i: int|
                            0 <= i < ci && (#[trigger] comps[i]) is Some
                                ==> comps[i]->0.embedding.len() == EMBED_WIDTH,
                    decreases computed@.len() - ci,
                {
                    match &computed[ci] {
                        Option::Some(cd) => {
                            if cd.embedding.len() != EMBED_WIDTH {
                                proof {
                                    assert(comps[ci as int] is Some);
                                    assert(comps[ci as int]->0.embedding.len() != EMBED_WIDTH);
                                }
                                return Database::new_non_backed();
                            }
                        },
                        Option::None => {},
                    }
                    ci = ci + 1;
                }
                let mut index: Vec<(UniqueString, usize)> = Vec::new();
                let mut p: usize = 0;
                while p < records.len()
                    invariant
                        crate::codec::parse_store(text@) == Option::Some((recs, comps)),
                        recs == Seq::new(records@.len(), |k: int| records@[k]@),
                        p <= records@.len(),
                        index@.len() == p,
                        forall|j: int|
                            0 <= j < p ==> (#[trigger] index@[j]).0@ == key_of(recs[j])
                                && index@[j].1 == j,
                        forall|i: int, j: int|
                            0 <= i < j < p ==> key_of(#[trigger] recs[i]) != key_of(
                                #[trigger] recs[j],
                            ),
                    decreases records@.len() - p,
                {
                    let key = records[p].unique_string();
                    proof {
                        assert(recs[p as int] == records@[p as int]@);
                    }
                    let mut j: usize = 0;
                    while j < index.len()
                        invariant
                            crate::codec::parse_store(text@) == Option::Some((recs, comps)),
                            recs == Seq::new(records@.len(), |k: int| records@[k]@),
                            p < records@.len(),
                            index@.len() == p,
                            key@ == key_of(recs[p as int]),
                            forall|j2: int|
                                0 <= j2 < p ==> (#[trigger] index@[j2]).0@ == key_of(recs[j2])
                                    && index@[j2].1 == j2,
                            j <= p,
                            forall|j2: int| 0 <= j2 < j ==> key_of(#[trigger] recs[j2]) != key@,
                        decreases index@.len() - j,
                    {
                        let e = &index[j];
                        if e.0.0 == key.0 {
                            // a duplicate key: the snapshot cannot stand
                            proof {
                                assert(index@[j as int].0@ == key_of(recs[j as int]));
                                assert(key_of(recs[j as int]) == key_of(recs[p as int]));
                                assert(!snapshot_wf(recs, comps));
                            }
                            return Database::new_non_backed();
                        }
                        j = j + 1;
                    }
                    index.push((key, p));
                    p = p + 1;
                }
                let r = Database { records, computed, index };
                proof {
                    assert(r.recs() =~= recs);
                    assert(r.comps() =~= comps);
                    assert(r.idx() =~= Seq::new(r.index@.len(), |i: int| (r.index@[i].0@,
                    r.index@[i].1 as int)));
                    assert(forall|j: int|
                        0 <= j < r.idx().len() ==> #[trigger] r.idx()[j] == (
                        key_of(r.recs()[j]),
                        j,
                    ));
                    assert(r.wf());
                    assert(snapshot_wf(recs, comps));
                }
                r
            },
        }
    }
}

/// Law: a saved snapshot parses back to the same records and computed
/// data, and it satisfies the conditions under which loading rebuilds
/// the same store with a freshly derived index.
pub proof fn lemma_save_then_load(d: Database)
    requires
        d.wf(),
        d.recs().len() <= u64::MAX,
    ensures
        crate::codec::parse_store(crate::codec::enc_store(d.recs(), d.comps()))
            == Option::Some((d.recs(), d.comps())),
        snapshot_wf(d.recs(), d.comps()),
{
    crate::codec::lemma_snapshot_round_trip(d.recs(), d.comps());
}

/// Law: a search returns at most `k` answers, sorted strictly descending
/// by score, ties broken by ascending position.
pub proof fn lemma_search_ordered(recs: Seq<PageV>, q: Seq<char>, k: nat)
    requires
        recs.len() <= usize::MAX,
    ensures
        search_spec(recs, q, k).len() <= k,
        forall|i: int, j: int|
            0 <= i < j < search_spec(recs, q, k).len() ==> ((#[trigger] search_spec(
                recs,
                q,
                k,
            )[i]).rank > (#[trigger] search_spec(recs, q, k)[j]).rank || (search_spec(
                recs,
                q,
                k,
            )[i].rank == search_spec(recs, q, k)[j].rank && search_spec(recs, q, k)[i].id
                < search_spec(recs, q, k)[j].id)),
{
    let cand = cand_seq(recs, q, recs.len() as int);
    lemma_cand_elems(recs, q, recs.len() as int);
    lemma_topk_props(cand, k);
    let pairs = topk_fold(cand, k);
    let ss = search_spec(recs, q, k);
    assert forall|i: int, j: int| 0 <= i < j < ss.len() implies ((#[trigger] ss[i]).rank > (
    #[trigger] ss[j]).rank || (ss[i].rank == ss[j].rank && ss[i].id < ss[j].id)) by {
        assert(pair_ge(pairs[i], pairs[j]));
        assert(pairs[i].1 != pairs[j].1);
    }
}

/// Law: with a non-empty query no answer carries a negative score; with
/// an empty query the filter is off and every record is a candidate.
pub proof fn lemma_search_filter(recs: Seq<PageV>, q: Seq<char>, k: nat)
    requires
        recs.len() <= usize::MAX,
    ensures
        q.len() != 0 ==> forall|j: int|
            0 <= j < search_spec(recs, q, k).len() ==> (#[trigger] search_spec(recs, q, k)[j]).rank
                >= 0,
        q.len() == 0 ==> cand_seq(recs, q, recs.len() as int).len() == recs.len(),
{
    let cand = cand_seq(recs, q, recs.len() as int);
    lemma_cand_elems(recs, q, recs.len() as int);
    lemma_topk_props(cand, k);
    let pairs = topk_fold(cand, k);
    if q.len() != 0 {
        assert forall|j: int| 0 <= j < search_spec(recs, q, k).len() implies (
        #[trigger] search_spec(recs, q, k)[j]).rank >= 0 by {
            assert(cand.contains(pairs[j]));
            let w = choose|w: int| 0 <= w < cand.len() && cand[w] == pairs[j];
            assert(cand[w].0 >= 0);
        }
    }
}

/// Law: a search keeps as many candidates as the capacity allows, and a
/// record that passes the filter either appears among the answers or is
/// outranked by every answer.
pub proof fn lemma_search_complete(recs: Seq<PageV>, q: Seq<char>, k: nat)
    requires
        recs.len() <= usize::MAX,
    ensures
        search_spec(recs, q, k).len() == if cand_seq(recs, q, recs.len() as int).len() < k {
            cand_seq(recs, q, recs.len() as int).len()
        } else {
            k
        },
        forall|p: usize|
            p < recs.len() && (q.len() == 0 || score_of(recs[p as int], q) >= 0) ==> ((exists|j: int|
                0 <= j < search_spec(recs, q, k).len() && (#[trigger] search_spec(recs, q, k)[j]).id
                    == p as int) || (forall|j: int|
                0 <= j < search_spec(recs, q, k).len() ==> ((#[trigger] search_spec(
                    recs,
                    q,
                    k,
                )[j]).rank > score_of(recs[p as int], q) || (search_spec(recs, q, k)[j].rank
                    == score_of(recs[p as int], q) && search_spec(recs, q, k)[j].id < p as int)))),
{
    let cand = cand_seq(recs, q, recs.len() as int);
    lemma_cand_elems(recs, q, recs.len() as int);
    lemma_topk_props(cand, k);
    let pairs = topk_fold(cand, k);
    let ss = search_spec(recs, q, k);
    assert forall|p: usize|
        p < recs.len() && (q.len() == 0 || score_of(recs[p as int], q) >= 0) implies ((exists|j: int|
        0 <= j < ss.len() && (#[trigger] ss[j]).id == p as int) || (forall|j: int|
        0 <= j < ss.len() ==> ((#[trigger] ss[j]).rank > score_of(recs[p as int], q) || (ss[j].rank
            == score_of(recs[p as int], q) && ss[j].id < p as int)))) by {
        assert(has_pos(cand, p));
        let w = choose|w: int| 0 <= w < cand.len() && (#[trigger] cand[w]).1 == p;
        assert(cand[w] == (score_of(recs[p as int], q) as i64, p));
        lemma_score_in_range(recs[p as int], q);
        if !(exists|j: int| 0 <= j < ss.len() && (#[trigger] ss[j]).id == p as int) {
            assert(!has_pos(pairs, p)) by {
                if has_pos(pairs, p) {
                    let j = choose|j: int| 0 <= j < pairs.len() && (#[trigger] pairs[j]).1 == p;
                    assert(ss[j].id == p as int);
                }
            }
            assert forall|j: int| 0 <= j < ss.len() implies ((#[trigger] ss[j]).rank > score_of(
                recs[p as int],
                q,
            ) || (ss[j].rank == score_of(recs[p as int], q) && ss[j].id < p as int)) by {
                assert(pair_ge(pairs[j], cand[w]));
                assert(pairs[j].1 != p);
            }
        }
    }
}

} // verus!
