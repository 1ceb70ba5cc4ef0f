//! The ranking function: pure, per-record scoring of a record against a
//! query, in saturating 64-bit fixed-point arithmetic (scale 10000).
//!
//! The current-schema algorithm normalizes the query (lowercase, hyphens
//! to spaces, whitespace terms), weights each term by a decaying factor,
//! counts case-insensitive substring matches in title and description
//! tokens, grants an update-message bonus only above a base-relevance
//! threshold, punishes records below the threshold, and adds bounded
//! bonuses for description length, update count, followers, recency and
//! a demo link. The legacy-schema algorithm ignores the query and scores
//! by followers and a secondary popularity counter.

use vstd::prelude::*;

use crate::data::{ComputedData, JourneyV, PageV, ScrapedMainPageEnum, SummerV};
use crate::data::{Journey2025MainPage, Summer2025MainPage};
use crate::fixed::{sat64, sat_add, sat_mul, sat_of_u64, sqrt_floor, isqrt64, SCALE};
use crate::fixed::{lemma_sqrt_floor_bounds, lemma_sqrt_floor_unique};
use crate::text::{contains_sub, count_matching, dehyphen, lower_of, tokens_of};
use crate::text::{chars_vec, contains_chars, count_tokens_containing, lowercase, replace_hyphens,
    split_spaces};
use vstd::arithmetic::div_mod::lemma_div_is_ordered;

verus! {

/// 5.11: weight of one matching title token.
pub const TITLE_WEIGHT: i64 = 51100;

/// 3.27: weight of one matching description token.
pub const DESC_WEIGHT: i64 = 32700;

/// 0.9652: flat bonus per (term, update message) substring hit.
pub const UPDATE_BONUS: i64 = 9652;

/// 1.0: the base-relevance threshold for bonus and rejection.
pub const BASE_THRESHOLD: i64 = 10000;

/// 50.0: the punitive drop for records below the threshold.
pub const REJECT_PENALTY: i64 = 500000;

/// 0.45: the floor every term weight decays towards.
pub const WEIGHT_FLOOR: i64 = 4500;

/// 0.55: the decaying part of the first term's weight.
pub const DECAY_START: i64 = 5500;

/// Activity values below this lose `STALE_PENALTY`.
pub const STALE_LIMIT: u32 = 1000;

/// 1.0: penalty for low activity values.
pub const STALE_PENALTY: i64 = 10000;

/// 0.8: penalty for a mis-encoded em dash in the description.
pub const MOJIBAKE_PENALTY: i64 = 8000;

/// 0.85: bonus for a present demo link.
pub const DEMO_BONUS: i64 = 8500;

/// 1.2: cap of the description-length bonus.
pub const DESC_LEN_CAP: i64 = 12000;

/// 2.3: cap of the update-count bonus.
pub const UPDATE_COUNT_CAP: i64 = 23000;

/// 4.3: cap of the followers bonus.
pub const FOLLOWERS_CAP: i64 = 43000;

/// 4.6: cap of the recency bonus.
pub const TIME_CAP: i64 = 46000;

pub open spec fn min64(a: int, b: int) -> int {
    if a < b {
        a
    } else {
        b
    }
}

/// The decaying part of term weight `i`: 0.55 shrunk by a factor of 4/5
/// per later term (rounding down at each step).
pub open spec fn decay_fp(i: nat) -> int
    decreases i,
{
    if i == 0 {
        DECAY_START as int
    } else {
        decay_fp((i - 1) as nat) * 4 / 5
    }
}

pub proof fn lemma_decay_bounds(i: nat)
    ensures
        0 <= decay_fp(i) <= DECAY_START,
    decreases i,
{
    if i > 0 {
        lemma_decay_bounds((i - 1) as nat);
        lemma_div_is_ordered(0, decay_fp((i - 1) as nat) * 4, 5);
        lemma_div_is_ordered(decay_fp((i - 1) as nat) * 4, DECAY_START * 4, 5);
    }
}

/// The weight of term `i`: 0.45 plus the decaying part.
pub open spec fn weight_fp(i: nat) -> int {
    WEIGHT_FLOOR + decay_fp(i)
}

/// What one term adds for one field: matching-token count times the
/// field unit, scaled by the term weight.
pub open spec fn term_part(count: nat, unit: int, w: int) -> int {
    sat64(sat64(sat64(count as int) * unit) * w) / (SCALE as int)
}

/// The base relevance after the first `n` terms: per term, the title
/// part then the description part, each added with saturation.
pub open spec fn base_score_rec(
    ttoks: Seq<Seq<char>>,
    dtoks: Seq<Seq<char>>,
    terms: Seq<Seq<char>>,
    n: nat,
) -> int
    decreases n,
{
    if n == 0 {
        0
    } else {
        let prev = base_score_rec(ttoks, dtoks, terms, (n - 1) as nat);
        let w = weight_fp((n - 1) as nat);
        let t = term_part(count_matching(ttoks, terms[n - 1]), TITLE_WEIGHT as int, w);
        let d = term_part(count_matching(dtoks, terms[n - 1]), DESC_WEIGHT as int, w);
        sat64(sat64(prev + t) + d)
    }
}

/// The update bonus accumulated over the first `k` update messages for
/// one term.
pub open spec fn upd_bonus_inner(acc: int, msgs: Seq<Seq<char>>, term: Seq<char>, k: nat) -> int
    decreases k,
{
    if k == 0 {
        acc
    } else {
        let prev = upd_bonus_inner(acc, msgs, term, (k - 1) as nat);
        if contains_sub(lower_of(msgs[k - 1]), term) {
            sat64(prev + UPDATE_BONUS)
        } else {
            prev
        }
    }
}

/// The update bonus accumulated over the first `n` terms, each over all
/// update messages.
pub open spec fn upd_bonus_outer(acc: int, msgs: Seq<Seq<char>>, terms: Seq<Seq<char>>, n: nat) -> int
    decreases n,
{
    if n == 0 {
        acc
    } else {
        upd_bonus_inner(
            upd_bonus_outer(acc, msgs, terms, (n - 1) as nat),
            msgs,
            terms[n - 1],
            msgs.len(),
        )
    }
}

/// The mis-encoded em dash: an em dash's UTF-8 bytes read back as text.
pub open spec fn mojibake_seq() -> Seq<char> {
    seq!['\u{e2}', '\u{20ac}', '\u{201d}']
}

/// min(sqrt(byte length / 90), 1.2), in fixed point.
pub open spec fn desc_len_bonus(byte_len: nat) -> int {
    min64(sqrt_floor((byte_len * 100000000 / 90) as nat) as int, DESC_LEN_CAP as int)
}

/// min(sqrt(update count / 9), 2.3), in fixed point.
pub open spec fn update_count_bonus(n: nat) -> int {
    min64(sqrt_floor((n * 100000000 / 9) as nat) as int, UPDATE_COUNT_CAP as int)
}

/// min(followers / 4.5, 4.3), in fixed point.
pub open spec fn followers_bonus(f: u16) -> int {
    min64(f as int * 20000 / 9, FOLLOWERS_CAP as int)
}

/// min(time / 8000, 4.6), in fixed point.
pub open spec fn time_bonus(t: u32) -> int {
    min64(t as int * 5 / 4, TIME_CAP as int)
}

/// The current-schema score of a record against a query.
pub open spec fn summer_score(p: SummerV, q: Seq<char>) -> int {
    let terms = tokens_of(dehyphen(lower_of(q)));
    let ttoks = tokens_of(lower_of(p.name));
    let dtoks = tokens_of(lower_of(p.description));
    let msgs = Seq::new(p.updates.len(), |i: int| p.updates[i].message);
    let base = base_score_rec(ttoks, dtoks, terms, terms.len());
    let boosted = if base > BASE_THRESHOLD {
        upd_bonus_outer(base, msgs, terms, terms.len())
    } else {
        base
    };
    let after_reject = if boosted < BASE_THRESHOLD {
        sat64(boosted - REJECT_PENALTY)
    } else {
        boosted
    };
    let after_stale = if p.time < STALE_LIMIT {
        sat64(after_reject - STALE_PENALTY)
    } else {
        after_reject
    };
    let after_moji = if contains_sub(p.description, mojibake_seq()) {
        sat64(after_stale - MOJIBAKE_PENALTY)
    } else {
        after_stale
    };
    let with_desc = sat64(after_moji + desc_len_bonus(vstd::utf8::encode_utf8(p.description).len()));
    let with_updates = sat64(with_desc + update_count_bonus(p.updates.len()));
    let with_followers = sat64(with_updates + followers_bonus(p.followers));
    let with_time = sat64(with_followers + time_bonus(p.time));
    if p.demo is Some {
        sat64(with_time + DEMO_BONUS)
    } else {
        with_time
    }
}

/// The legacy-schema score: followers plus 0.2 per secondary popularity
/// count; the query plays no part.
pub open spec fn journey_score(p: JourneyV) -> int {
    p.followers as int * SCALE + p.stonks as int * (SCALE / 5)
}

/// The score of any record against a query.
pub open spec fn score_of(p: PageV, q: Seq<char>) -> int {
    match p {
        PageV::Journey2025(j) => journey_score(j),
        PageV::Summer2025(s) => summer_score(s, q),
    }
}

fn desc_len_bonus_exec(desc: &String) -> (r: i64)
    ensures
        r as int == desc_len_bonus(vstd::utf8::encode_utf8(desc@).len()),
{
    let l: usize = desc.as_str().as_bytes().len();
    if l >= 130 {
        proof {
            assert(12000nat * 12000nat == 144000000nat) by (nonlinear_arith);
            assert(12001nat * 12001nat == 144024001nat) by (nonlinear_arith);
            lemma_sqrt_floor_unique(144000000nat, 12000nat);
            lemma_div_is_ordered(130int * 100000000, l as int * 100000000, 90);
            assert(130 * 100000000 / 90 == 144444444int);
            let arg = (l * 100000000 / 90) as nat;
            assert(arg >= 144444444);
            if sqrt_floor(arg) < 12000 {
                lemma_sqrt_floor_bounds(arg);
                assert(arg < (sqrt_floor(arg) + 1) * (sqrt_floor(arg) + 1));
                assert((sqrt_floor(arg) + 1) * (sqrt_floor(arg) + 1) <= 12000 * 12000)
                    by (nonlinear_arith)
                    requires
                        sqrt_floor(arg) + 1 <= 12000,
                ;
            }
        }
        DESC_LEN_CAP
    } else {
        let arg: u64 = (l as u64) * 100000000 / 90;
        let r = isqrt64(arg);
        proof {
            lemma_sqrt_floor_bounds(arg as nat);
            assert(sqrt_floor(arg as nat) * sqrt_floor(arg as nat) <= arg);
            if sqrt_floor(arg as nat) > DESC_LEN_CAP {
                assert(12000 * 12000 <= sqrt_floor(arg as nat) * sqrt_floor(arg as nat))
                    by (nonlinear_arith)
                    requires
                        12000 <= sqrt_floor(arg as nat),
                ;
            }
        }
        if r > DESC_LEN_CAP as u64 {
            DESC_LEN_CAP
        } else {
            r as i64
        }
    }
}

fn update_count_bonus_exec(n: usize) -> (r: i64)
    ensures
        r as int == update_count_bonus(n as nat),
{
    if n >= 48 {
        proof {
            assert(23000nat * 23000nat == 529000000nat) by (nonlinear_arith);
            assert(23001nat * 23001nat == 529046001nat) by (nonlinear_arith);
            lemma_sqrt_floor_unique(529000000nat, 23000nat);
            lemma_div_is_ordered(48int * 100000000, n as int * 100000000, 9);
            assert(48 * 100000000 / 9 == 533333333int);
            let arg = (n * 100000000 / 9) as nat;
            assert(arg >= 533333333);
            if sqrt_floor(arg) < 23000 {
                lemma_sqrt_floor_bounds(arg);
                assert((sqrt_floor(arg) + 1) * (sqrt_floor(arg) + 1) <= 23000 * 23000)
                    by (nonlinear_arith)
                    requires
                        sqrt_floor(arg) + 1 <= 23000,
                ;
            }
        }
        UPDATE_COUNT_CAP
    } else {
        let arg: u64 = (n as u64) * 100000000 / 9;
        let r = isqrt64(arg);
        proof {
            lemma_sqrt_floor_bounds(arg as nat);
            if sqrt_floor(arg as nat) > UPDATE_COUNT_CAP {
                assert(23000 * 23000 <= sqrt_floor(arg as nat) * sqrt_floor(arg as nat))
                    by (nonlinear_arith)
                    requires
                        23000 <= sqrt_floor(arg as nat),
                ;
            }
        }
        if r > UPDATE_COUNT_CAP as u64 {
            UPDATE_COUNT_CAP
        } else {
            r as i64
        }
    }
}

fn followers_bonus_exec(f: u16) -> (r: i64)
    ensures
        r as int == followers_bonus(f),
{
    let x: i64 = f as i64 * 20000 / 9;
    if x > FOLLOWERS_CAP {
        FOLLOWERS_CAP
    } else {
        x
    }
}

fn time_bonus_exec(t: u32) -> (r: i64)
    ensures
        r as int == time_bonus(t),
{
    let x: i64 = t as i64 * 5 / 4;
    if x > TIME_CAP {
        TIME_CAP
    } else {
        x
    }
}

impl Summer2025MainPage {
    /// Score this record against a normalized query. The auxiliary data
    /// plays no part in the current algorithm.
    pub fn rank(&self, query: &String, extra: Option<&ComputedData>) -> (r: i64)
        ensures
            r as int == summer_score(self@, query@),
    {
        let lq = lowercase(query.as_str());
        let lqv = chars_vec(lq.as_str());
        let dh = replace_hyphens(&lqv);
        let terms = split_spaces(&dh);
        let lname = lowercase(self.name.as_str());
        let lnamev = chars_vec(lname.as_str());
        let ttoks = split_spaces(&lnamev);
        let ldesc = lowercase(self.description.as_str());
        let ldescv = chars_vec(ldesc.as_str());
        let dtoks = split_spaces(&ldescv);
        let ghost terms_s = tokens_of(dehyphen(lower_of(query@)));
        let ghost ttoks_s = tokens_of(lower_of(self@.name));
        let ghost dtoks_s = tokens_of(lower_of(self@.description));
        let ghost msgs_s = Seq::new(self@.updates.len(), |i: int| self@.updates[i].message);
        proof {
            assert(terms.deep_view() == terms_s);
            assert(ttoks.deep_view() == ttoks_s);
            assert(dtoks.deep_view() == dtoks_s);
        }

        let mut acc: i64 = 0;
        let mut d: i64 = DECAY_START;
        let mut i: usize = 0;
        while i < terms.len()
            invariant
                terms.deep_view() == terms_s,
                ttoks.deep_view() == ttoks_s,
                dtoks.deep_view() == dtoks_s,
                i <= terms@.len(),
                terms@.len() == terms_s.len(),
                d as int == decay_fp(i as nat),
                0 <= d <= DECAY_START,
                acc as int == base_score_rec(ttoks_s, dtoks_s, terms_s, i as nat),
            decreases terms@.len() - i,
        {
            let w: i64 = WEIGHT_FLOOR + d;
            let tcount = count_tokens_containing(&ttoks, &terms[i]);
            let dcount = count_tokens_containing(&dtoks, &terms[i]);
            proof {
                assert(terms@[i as int]@ == terms_s[i as int]);
            }
            let tpart = sat_mul(sat_mul(sat_of_u64(tcount as u64), TITLE_WEIGHT), w) / SCALE;
            let dpart = sat_mul(sat_mul(sat_of_u64(dcount as u64), DESC_WEIGHT), w) / SCALE;
            acc = sat_add(acc, tpart);
            acc = sat_add(acc, dpart);
            proof {
                lemma_decay_bounds((i + 1) as nat);
            }
            d = d * 4 / 5;
            i = i + 1;
        }
        let ghost base = base_score_rec(ttoks_s, dtoks_s, terms_s, terms_s.len());
        proof {
            assert(acc as int == base);
        }

        if acc > BASE_THRESHOLD {
            let mut ti: usize = 0;
            while ti < terms.len()
                invariant
                    terms.deep_view() == terms_s,
                    ti <= terms@.len(),
                    terms@.len() == terms_s.len(),
                    msgs_s == Seq::new(self@.updates.len(), |i: int| self@.updates[i].message),
                    acc as int == upd_bonus_outer(base, msgs_s, terms_s, ti as nat),
                decreases terms@.len() - ti,
            {
                let ghost acc_outer = upd_bonus_outer(base, msgs_s, terms_s, ti as nat);
                let mut ui: usize = 0;
                while ui < self.updates.len()
                    invariant
                        terms.deep_view() == terms_s,
                        ti < terms@.len() == terms_s.len(),
                        ui <= self.updates@.len(),
                        msgs_s == Seq::new(self@.updates.len(), |i: int| self@.updates[i].message),
                        msgs_s.len() == self.updates@.len(),
                        acc as int == upd_bonus_inner(acc_outer, msgs_s, terms_s[ti as int],
                            ui as nat),
                    decreases self.updates@.len() - ui,
                {
                    let lmsg = lowercase(self.updates[ui].message.as_str());
                    let lmv = chars_vec(lmsg.as_str());
                    proof {
                        assert(msgs_s[ui as int] == self@.updates[ui as int].message);
                        assert(self@.updates[ui as int] == self.updates@[ui as int]@);
                        assert(lmv@ == lower_of(msgs_s[ui as int]));
                        assert(terms@[ti as int]@ == terms_s[ti as int]);
                    }
                    if contains_chars(&lmv, &terms[ti]) {
                        acc = sat_add(acc, UPDATE_BONUS);
                    }
                    ui = ui + 1;
                }
                ti = ti + 1;
            }
        }
        proof {
            let boosted = if base > BASE_THRESHOLD {
                upd_bonus_outer(base, msgs_s, terms_s, terms_s.len())
            } else {
                base
            };
            assert(acc as int == boosted);
        }

        if acc < BASE_THRESHOLD {
            acc = sat_add(acc, -REJECT_PENALTY);
        }
        if self.time < STALE_LIMIT {
            acc = sat_add(acc, -STALE_PENALTY);
        }
        let mut moji: Vec<char> = Vec::new();
        moji.push('\u{e2}');
        moji.push('\u{20ac}');
        moji.push('\u{201d}');
        proof {
            assert(moji@ =~= mojibake_seq());
        }
        let descv = chars_vec(self.description.as_str());
        if contains_chars(&descv, &moji) {
            acc = sat_add(acc, -MOJIBAKE_PENALTY);
        }
        acc = sat_add(acc, desc_len_bonus_exec(&self.description));
        acc = sat_add(acc, update_count_bonus_exec(self.updates.len()));
        acc = sat_add(acc, followers_bonus_exec(self.followers));
        acc = sat_add(acc, time_bonus_exec(self.time));
        if self.demo.is_some() {
            acc = sat_add(acc, DEMO_BONUS);
        }
        acc
    }
}

impl Journey2025MainPage {
    /// Score this record: the query and auxiliary data play no part in
    /// the legacy algorithm.
    pub fn rank(&self, query: &String, extra: Option<&ComputedData>) -> (r: i64)
        ensures
            r as int == journey_score(self@),
    {
        self.followers as i64 * SCALE + self.stonks as i64 * (SCALE / 5)
    }
}

impl ScrapedMainPageEnum {
    /// Score any record against a query.
    pub fn rank(&self, query: &String, extra: Option<&ComputedData>) -> (r: i64)
        ensures
            r as int == score_of(self@, query@),
    {
        match self {
            ScrapedMainPageEnum::Journey2025(j) => j.rank(query, extra),
            ScrapedMainPageEnum::Summer2025(s) => s.rank(query, extra),
        }
    }
}

/// The common capability surface of every record schema: a natural key,
/// a compact preview, and a score against a query. The inherent methods
/// carry the exact contracts; this trait only names the shared surface
/// for callers that range over schemas.
pub trait DatabasePage {
    fn preview(&self) -> crate::data::GenericPreviewSearchData;

    fn unique_string(&self) -> crate::data::UniqueString;

    fn rank(&self, query: &String, extra: Option<&ComputedData>) -> i64;
}

impl DatabasePage for Journey2025MainPage {
    fn preview(&self) -> crate::data::GenericPreviewSearchData {
        Journey2025MainPage::preview(self)
    }

    fn unique_string(&self) -> crate::data::UniqueString {
        Journey2025MainPage::unique_string(self)
    }

    fn rank(&self, query: &String, extra: Option<&ComputedData>) -> i64 {
        Journey2025MainPage::rank(self, query, extra)
    }
}

impl DatabasePage for Summer2025MainPage {
    fn preview(&self) -> crate::data::GenericPreviewSearchData {
        Summer2025MainPage::preview(self)
    }

    fn unique_string(&self) -> crate::data::UniqueString {
        Summer2025MainPage::unique_string(self)
    }

    fn rank(&self, query: &String, extra: Option<&ComputedData>) -> i64 {
        Summer2025MainPage::rank(self, query, extra)
    }
}

impl DatabasePage for ScrapedMainPageEnum {
    fn preview(&self) -> crate::data::GenericPreviewSearchData {
        ScrapedMainPageEnum::preview(self)
    }

    fn unique_string(&self) -> crate::data::UniqueString {
        ScrapedMainPageEnum::unique_string(self)
    }

    fn rank(&self, query: &String, extra: Option<&ComputedData>) -> i64 {
        ScrapedMainPageEnum::rank(self, query, extra)
    }
}

} // verus!
