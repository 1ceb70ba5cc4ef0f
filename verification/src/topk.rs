//! Bounded top-k selection over a stream of (score, position) pairs.
//!
//! While below capacity every pair is inserted; once full, the current
//! minimum is replaced only when the new score is strictly greater. The
//! kept pairs are held sorted descending by score, ties broken by
//! ascending position, so that draining them is immediate and the result
//! is deterministic and independent of insertion order.

use vstd::prelude::*;

verus! {

/// `a` ranks at least as high as `b`: higher score, or the same score at
/// an earlier position.
pub open spec fn pair_ge(a: (i64, usize), b: (i64, usize)) -> bool {
    a.0 > b.0 || (a.0 == b.0 && a.1 <= b.1)
}

/// Sorted descending by score, ties ascending by position.
pub open spec fn sorted_desc(s: Seq<(i64, usize)>) -> bool {
    forall|i: int, j: int| 0 <= i < j < s.len() ==> pair_ge(#[trigger] s[i], #[trigger] s[j])
}

/// Some kept pair sits at position `pos`.
pub open spec fn has_pos(s: Seq<(i64, usize)>, pos: usize) -> bool {
    exists|j: int| 0 <= j < s.len() && (#[trigger] s[j]).1 == pos
}

/// Insertion into a sorted sequence, before the first lower-ranked pair.
pub open spec fn insert_desc(s: Seq<(i64, usize)>, p: (i64, usize)) -> Seq<(i64, usize)>
    decreases s.len(),
{
    if s.len() == 0 {
        seq![p]
    } else if pair_ge(s[0], p) {
        seq![s[0]] + insert_desc(s.drop_first(), p)
    } else {
        seq![p] + s
    }
}

/// One offer to a selector of capacity `cap` holding `s`: insert while
/// below capacity; once full, replace the lowest-ranked pair only when
/// the new score is strictly greater.
pub open spec fn offer_spec(s: Seq<(i64, usize)>, cap: nat, p: (i64, usize)) -> Seq<(i64, usize)> {
    if s.len() < cap {
        insert_desc(s, p)
    } else if s.len() > 0 && p.0 > s.last().0 {
        insert_desc(s.drop_last(), p)
    } else {
        s
    }
}

/// The selector's contents after a whole stream of offers.
pub open spec fn topk_fold(c: Seq<(i64, usize)>, cap: nat) -> Seq<(i64, usize)>
    decreases c.len(),
{
    if c.len() == 0 {
        Seq::empty()
    } else {
        offer_spec(topk_fold(c.drop_last(), cap), cap, c.last())
    }
}

pub proof fn lemma_insert_desc_len(s: Seq<(i64, usize)>, p: (i64, usize))
    ensures
        insert_desc(s, p).len() == s.len() + 1,
    decreases s.len(),
{
    if s.len() > 0 && pair_ge(s[0], p) {
        lemma_insert_desc_len(s.drop_first(), p);
    }
}

/// Insertion keeps exactly the old pairs plus the new one.
pub proof fn lemma_insert_desc_elems(s: Seq<(i64, usize)>, p: (i64, usize))
    ensures
        forall|j: int|
            0 <= j < insert_desc(s, p).len() ==> (s.contains(#[trigger] insert_desc(s, p)[j])
                || insert_desc(s, p)[j] == p),
        insert_desc(s, p).contains(p),
        forall|x: (i64, usize)| s.contains(x) ==> insert_desc(s, p).contains(x),
    decreases s.len(),
{
    lemma_insert_desc_len(s, p);
    if s.len() == 0 {
        assert(insert_desc(s, p)[0] == p);
    } else if pair_ge(s[0], p) {
        lemma_insert_desc_elems(s.drop_first(), p);
        let r = insert_desc(s, p);
        let rt = insert_desc(s.drop_first(), p);
        assert forall|j: int| 0 <= j < r.len() implies (s.contains(#[trigger] r[j]) || r[j]
            == p) by {
            if j == 0 {
                assert(s[0] == r[0]);
            } else {
                assert(r[j] == rt[j - 1]);
                if s.drop_first().contains(rt[j - 1]) {
                    let w = choose|w: int|
                        0 <= w < s.drop_first().len() && s.drop_first()[w] == rt[j - 1];
                    assert(s[w + 1] == rt[j - 1]);
                }
            }
        }
        assert(r.contains(p)) by {
            let w = choose|w: int| 0 <= w < rt.len() && rt[w] == p;
            assert(r[w + 1] == p);
        }
        assert forall|x: (i64, usize)| s.contains(x) implies r.contains(x) by {
            let w = choose|w: int| 0 <= w < s.len() && s[w] == x;
            if w == 0 {
                assert(r[0] == x);
            } else {
                assert(s.drop_first()[w - 1] == x);
                assert(s.drop_first().contains(x));
                let w2 = choose|w2: int| 0 <= w2 < rt.len() && rt[w2] == x;
                assert(r[w2 + 1] == x);
            }
        }
    } else {
        let r = insert_desc(s, p);
        assert(r[0] == p);
        assert(r.contains(p));
        assert forall|j: int| 0 <= j < r.len() implies (s.contains(#[trigger] r[j]) || r[j]
            == p) by {
            if j > 0 {
                assert(r[j] == s[j - 1]);
            }
        }
        assert forall|x: (i64, usize)| s.contains(x) implies r.contains(x) by {
            let w = choose|w: int| 0 <= w < s.len() && s[w] == x;
            assert(r[w + 1] == x);
        }
    }
}

/// All kept positions are pairwise distinct.
pub open spec fn distinct_pos(s: Seq<(i64, usize)>) -> bool {
    forall|i: int, j: int|
        0 <= i < j < s.len() ==> (#[trigger] s[i]).1 != (#[trigger] s[j]).1
}

/// Insertion of a fresh position keeps positions distinct.
pub proof fn lemma_insert_desc_distinct(s: Seq<(i64, usize)>, p: (i64, usize))
    requires
        distinct_pos(s),
        forall|j: int| 0 <= j < s.len() ==> (#[trigger] s[j]).1 != p.1,
    ensures
        distinct_pos(insert_desc(s, p)),
    decreases s.len(),
{
    lemma_insert_desc_len(s, p);
    if s.len() == 0 {
    } else if pair_ge(s[0], p) {
        assert(distinct_pos(s.drop_first()));
        lemma_insert_desc_distinct(s.drop_first(), p);
        lemma_insert_desc_elems(s.drop_first(), p);
        let r = insert_desc(s, p);
        let rt = insert_desc(s.drop_first(), p);
        assert forall|i: int, j: int| 0 <= i < j < r.len() implies (#[trigger] r[i]).1 != (
        #[trigger] r[j]).1 by {
            if i == 0 {
                assert(r[j] == rt[j - 1]);
                if s.drop_first().contains(rt[j - 1]) {
                    let w = choose|w: int|
                        0 <= w < s.drop_first().len() && s.drop_first()[w] == rt[j - 1];
                    assert(s[w + 1] == rt[j - 1]);
                } else {
                    assert(rt[j - 1] == p);
                }
            } else {
                assert(r[i] == rt[i - 1] && r[j] == rt[j - 1]);
            }
        }
    } else {
        let r = insert_desc(s, p);
        assert forall|i: int, j: int| 0 <= i < j < r.len() implies (#[trigger] r[i]).1 != (
        #[trigger] r[j]).1 by {
            if i > 0 {
                assert(r[i] == s[i - 1] && r[j] == s[j - 1]);
            } else {
                assert(r[j] == s[j - 1]);
            }
        }
    }
}

/// Insertion into a sorted sequence leaves it sorted.
pub proof fn lemma_insert_desc_sorted(s: Seq<(i64, usize)>, p: (i64, usize))
    requires
        sorted_desc(s),
    ensures
        sorted_desc(insert_desc(s, p)),
    decreases s.len(),
{
    lemma_insert_desc_len(s, p);
    if s.len() == 0 {
    } else if pair_ge(s[0], p) {
        assert(sorted_desc(s.drop_first()));
        lemma_insert_desc_sorted(s.drop_first(), p);
        lemma_insert_desc_elems(s.drop_first(), p);
        let r = insert_desc(s, p);
        let rt = insert_desc(s.drop_first(), p);
        assert forall|i: int, j: int| 0 <= i < j < r.len() implies pair_ge(
            #[trigger] r[i],
            #[trigger] r[j],
        ) by {
            if i == 0 {
                assert(r[j] == rt[j - 1]);
                if s.drop_first().contains(rt[j - 1]) {
                    let w = choose|w: int|
                        0 <= w < s.drop_first().len() && s.drop_first()[w] == rt[j - 1];
                    assert(s[w + 1] == rt[j - 1]);
                    assert(pair_ge(s[0], s[w + 1]));
                } else {
                    assert(rt[j - 1] == p);
                }
            } else {
                assert(r[i] == rt[i - 1] && r[j] == rt[j - 1]);
            }
        }
    }
}

/// What a full stream of offers selects: at most `cap` pairs, sorted,
/// all drawn from the stream at pairwise distinct positions, every
/// stream pair outranking none of them unless it was kept, and as many
/// pairs kept as the stream and the capacity allow.
pub proof fn lemma_topk_props(c: Seq<(i64, usize)>, cap: nat)
    requires
        forall|i: int, j: int| 0 <= i < j < c.len() ==> (#[trigger] c[i]).1 < (#[trigger] c[j]).1,
    ensures
        sorted_desc(topk_fold(c, cap)),
        topk_fold(c, cap).len() == if c.len() < cap {
            c.len()
        } else {
            cap
        },
        forall|j: int| 0 <= j < topk_fold(c, cap).len() ==> c.contains(#[trigger] topk_fold(c, cap)[j]),
        distinct_pos(topk_fold(c, cap)),
        topk_fold(c, cap).len() < cap ==> forall|i: int|
            0 <= i < c.len() ==> has_pos(topk_fold(c, cap), (#[trigger] c[i]).1),
        forall|i: int|
            0 <= i < c.len() && !has_pos(topk_fold(c, cap), (#[trigger] c[i]).1) ==> forall|j: int|
                0 <= j < topk_fold(c, cap).len() ==> pair_ge(#[trigger] topk_fold(c, cap)[j], c[i]),
    decreases c.len(),
{
    if c.len() == 0 {
    } else {
        let c0 = c.drop_last();
        let p = c.last();
        let s = topk_fold(c0, cap);
        let r = topk_fold(c, cap);
        lemma_topk_props(c0, cap);
        assert(forall|x: (i64, usize)| c0.contains(x) ==> c.contains(x)) by {
            assert forall|x: (i64, usize)| c0.contains(x) implies c.contains(x) by {
                let w = choose|w: int| 0 <= w < c0.len() && c0[w] == x;
                assert(c[w] == x);
            }
        }
        // every kept pair's position is strictly below the new pair's
        assert forall|j: int| 0 <= j < s.len() implies (#[trigger] s[j]).1 < p.1 by {
            assert(c0.contains(s[j]));
            let w = choose|w: int| 0 <= w < c0.len() && c0[w] == s[j];
            assert(c[w].1 < c[c.len() - 1].1);
        }
        if s.len() < cap {
            assert(r == insert_desc(s, p));
            lemma_insert_desc_sorted(s, p);
            lemma_insert_desc_len(s, p);
            lemma_insert_desc_elems(s, p);
            lemma_insert_desc_distinct(s, p);
            assert forall|i: int|
                0 <= i < c.len() && r.len() < cap implies has_pos(r, (#[trigger] c[i]).1) by {
                if i < c.len() - 1 {
                    assert(c0[i] == c[i]);
                    assert(has_pos(s, c0[i].1));
                    let w = choose|w: int| 0 <= w < s.len() && s[w].1 == c[i].1;
                    assert(s.contains(s[w]));
                    assert(r.contains(s[w]));
                    let w2 = choose|w2: int| 0 <= w2 < r.len() && r[w2] == s[w];
                    assert(has_pos(r, c[i].1));
                } else {
                    let w2 = choose|w2: int| 0 <= w2 < r.len() && r[w2] == p;
                    assert(has_pos(r, c[i].1));
                }
            }
            assert forall|i: int|
                0 <= i < c.len() && !has_pos(r, (#[trigger] c[i]).1) implies forall|j: int|
                    0 <= j < r.len() ==> pair_ge(#[trigger] r[j], c[i]) by {
                assert(i < c.len() - 1) by {
                    if i == c.len() - 1 {
                        let w2 = choose|w2: int| 0 <= w2 < r.len() && r[w2] == p;
                        assert(has_pos(r, c[i].1));
                    }
                }
                assert(!has_pos(s, c[i].1)) by {
                    if has_pos(s, c[i].1) {
                        let w = choose|w: int| 0 <= w < s.len() && s[w].1 == c[i].1;
                        assert(s.contains(s[w]));
                        assert(r.contains(s[w]));
                        let w2 = choose|w2: int| 0 <= w2 < r.len() && r[w2] == s[w];
                        assert(has_pos(r, c[i].1));
                    }
                }
                // nothing is excluded while the selector is below capacity
                assert(c0[i] == c[i]);
                assert(has_pos(s, c0[i].1));
                assert(false);
            }
        } else if s.len() > 0 && p.0 > s.last().0 {
            let st = s.drop_last();
            let m = s.last();
            assert(r == insert_desc(st, p));
            assert(sorted_desc(st));
            lemma_insert_desc_sorted(st, p);
            lemma_insert_desc_len(st, p);
            lemma_insert_desc_elems(st, p);
            assert(forall|j: int| 0 <= j < st.len() ==> st[j] == s[j]);
            assert(distinct_pos(st));
            lemma_insert_desc_distinct(st, p);
            assert forall|j: int| 0 <= j < r.len() implies c.contains(#[trigger] r[j]) by {
                if st.contains(r[j]) {
                    let w = choose|w: int| 0 <= w < st.len() && st[w] == r[j];
                    assert(s[w] == r[j]);
                    assert(s.contains(r[j]));
                } else {
                    assert(r[j] == p);
                    assert(c[c.len() - 1] == p);
                }
            }
            assert forall|i: int|
                0 <= i < c.len() && !has_pos(r, (#[trigger] c[i]).1) implies forall|j: int|
                    0 <= j < r.len() ==> pair_ge(#[trigger] r[j], c[i]) by {
                assert(i < c.len() - 1) by {
                    if i == c.len() - 1 {
                        let w2 = choose|w2: int| 0 <= w2 < r.len() && r[w2] == p;
                        assert(has_pos(r, c[i].1));
                    }
                }
                // c[i] is excluded from r: either it was already excluded
                // from s, or it is the dropped minimum m
                if has_pos(s, c[i].1) {
                    let w = choose|w: int| 0 <= w < s.len() && s[w].1 == c[i].1;
                    if w < s.len() - 1 {
                        assert(st[w] == s[w]);
                        assert(st.contains(st[w]));
                        assert(r.contains(st[w]));
                        let w2 = choose|w2: int| 0 <= w2 < r.len() && r[w2] == st[w];
                        assert(has_pos(r, c[i].1));
                        assert(false);
                    }
                    // the excluded pair is the dropped minimum
                    assert(s[w] == m);
                    assert forall|j: int| 0 <= j < r.len() implies pair_ge(
                        #[trigger] r[j],
                        c[i],
                    ) by {
                        assert(c[i].1 == m.1);
                        assert(c[i].0 == m.0) by {
                            assert(m == s[s.len() - 1]);
                            assert(c0.contains(m));
                            let wm = choose|wm: int| 0 <= wm < c0.len() && c0[wm] == m;
                            assert(c0[wm] == c[wm]);
                            if wm != i {
                                assert(c[wm] == m);
                                if wm < i {
                                    assert(c[wm].1 < c[i].1);
                                } else {
                                    assert(c[i].1 < c[wm].1);
                                }
                                assert(false);
                            }
                            assert(c[wm] == c[i]);
                        }
                        if st.contains(r[j]) {
                            let w3 = choose|w3: int| 0 <= w3 < st.len() && st[w3] == r[j];
                            assert(pair_ge(s[w3], s[s.len() - 1]));
                        } else {
                            assert(r[j] == p);
                            assert(p.0 > m.0);
                        }
                    }
                } else {
                    // already excluded from the full selector
                    assert forall|j: int| 0 <= j < r.len() implies pair_ge(
                        #[trigger] r[j],
                        c[i],
                    ) by {
                        assert(c0[i] == c[i]);
                        assert(!has_pos(s, c0[i].1));
                        assert(forall|j2: int| 0 <= j2 < s.len() ==> pair_ge(#[trigger] s[j2], c[i]));
                        if st.contains(r[j]) {
                            let w3 = choose|w3: int| 0 <= w3 < st.len() && st[w3] == r[j];
                            assert(pair_ge(s[w3], c[i]));
                        } else {
                            assert(r[j] == p);
                            assert(pair_ge(m, c[i]));
                            assert(p.0 > m.0);
                        }
                    }
                }
            }
        } else {
            assert(r == s);
            if s.len() > 0 {
                // the new pair is declined: it ranks no higher than the
                // kept minimum, and its position is new
                assert forall|i: int|
                    0 <= i < c.len() && !has_pos(r, (#[trigger] c[i]).1) implies forall|j: int|
                        0 <= j < r.len() ==> pair_ge(#[trigger] r[j], c[i]) by {
                    if i == c.len() - 1 {
                        assert forall|j: int| 0 <= j < r.len() implies pair_ge(
                            #[trigger] r[j],
                            c[i],
                        ) by {
                            assert(pair_ge(s[j], s[s.len() - 1]));
                            assert(s[j].1 < p.1);
                        }
                    } else {
                        assert(c0[i] == c[i]);
                        assert(!has_pos(s, c0[i].1));
                        assert(forall|j2: int|
                            0 <= j2 < s.len() ==> pair_ge(#[trigger] s[j2], c0[i]));
                    }
                }
            }
        }
    }
}

/// A bounded selector of the `cap` highest-ranked (score, position)
/// pairs seen so far.
pub struct TopKSelector {
    cap: usize,
    items: Vec<(i64, usize)>,
}

impl View for TopKSelector {
    type V = Seq<(i64, usize)>;

    closed spec fn view(&self) -> Seq<(i64, usize)> {
        self.items@
    }
}

impl TopKSelector {
    pub closed spec fn capacity(self) -> nat {
        self.cap as nat
    }

    /// The selector's pairs stay sorted and within capacity.
    pub closed spec fn wf(self) -> bool {
        sorted_desc(self.items@) && self.items@.len() <= self.cap
    }

    pub fn new(k: usize) -> (r: TopKSelector)
        ensures
            r.wf(),
            r@ == Seq::<(i64, usize)>::empty(),
            r.capacity() == k as nat,
    {
        let r = TopKSelector { cap: k, items: Vec::new() };
        proof {
            assert(r.items@ =~= Seq::<(i64, usize)>::empty());
        }
        r
    }

    fn insert_sorted(&mut self, score: i64, pos: usize)
        requires
            sorted_desc(old(self).items@),
        ensures
            final(self).cap == old(self).cap,
            final(self).items@ == insert_desc(old(self).items@, (score, pos)),
    {
        let p = (score, pos);
        proof {
            assert(p.0 == score && p.1 == pos);
        }
        let mut idx: usize = 0;
        let mut stop = false;
        let n = self.items.len();
        while !stop && idx < n
            invariant
                n == self.items@.len(),
                idx <= n,
                forall|i: int| 0 <= i < idx ==> pair_ge(#[trigger] self.items@[i], p),
                stop ==> idx < n && !pair_ge(self.items@[idx as int], p),
                self == old(self),
            decreases n - idx, (if stop { 0int } else { 1int }),
        {
            let it = self.items[idx];
            if it.0 > p.0 || (it.0 == p.0 && it.1 <= p.1) {
                idx = idx + 1;
            } else {
                stop = true;
            }
        }
        proof {
            lemma_insert_desc_at(self.items@, p, idx as int);
        }
        self.items.insert(idx, p);
    }

    /// Offer one pair: inserted while below capacity; once full it
    /// replaces the lowest-ranked pair only when its score is strictly
    /// greater.
    pub fn offer(&mut self, score: i64, pos: usize)
        requires
            old(self).wf(),
        ensures
            final(self).wf(),
            final(self).capacity() == old(self).capacity(),
            final(self)@ == offer_spec(old(self)@, old(self).capacity(), (score, pos)),
    {
        let n = self.items.len();
        if n < self.cap {
            self.insert_sorted(score, pos);
            proof {
                lemma_insert_desc_sorted(old(self)@, (score, pos));
                lemma_insert_desc_len(old(self)@, (score, pos));
            }
        } else if n > 0 && score > self.items[n - 1].0 {
            self.items.pop();
            proof {
                assert(self.items@ =~= old(self)@.drop_last());
                assert(sorted_desc(self.items@));
            }
            self.insert_sorted(score, pos);
            proof {
                lemma_insert_desc_sorted(old(self)@.drop_last(), (score, pos));
                lemma_insert_desc_len(old(self)@.drop_last(), (score, pos));
            }
        }
    }

    /// Hand the kept pairs out, highest-ranked first.
    pub fn into_sorted_vec(self) -> (r: Vec<(i64, usize)>)
        ensures
            r@ == self@,
    {
        let TopKSelector { cap, items } = self;
        items
    }
}

/// Insertion lands exactly where the scan of the sorted prefix stops.
pub proof fn lemma_insert_desc_at(s: Seq<(i64, usize)>, p: (i64, usize), idx: int)
    requires
        0 <= idx <= s.len(),
        forall|i: int| 0 <= i < idx ==> pair_ge(#[trigger] s[i], p),
        idx < s.len() ==> !pair_ge(s[idx], p),
    ensures
        insert_desc(s, p) == s.insert(idx, p),
    decreases idx,
{
    if idx == 0 {
        if s.len() == 0 {
            assert(insert_desc(s, p) =~= s.insert(0, p));
        } else {
            assert(insert_desc(s, p) =~= s.insert(0, p));
        }
    } else {
        assert(pair_ge(s[0], p));
        lemma_insert_desc_at(s.drop_first(), p, idx - 1);
        assert(seq![s[0]] + s.drop_first().insert(idx - 1, p) =~= s.insert(idx, p));
    }
}

} // verus!
