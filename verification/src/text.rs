//! Text handling for the ranking function: character extraction,
//! lowercasing, hyphen normalization, whitespace tokenization and
//! substring matching, all specified over `Seq<char>`.

use vstd::prelude::*;
use vstd::string::StrSliceExecFns;

verus! {

/// What `str::to_lowercase` returns for a given character sequence.
pub uninterp spec fn lower_of(s: Seq<char>) -> Seq<char>;

/// Relies on str::to_lowercase: the Unicode lowercase mapping of a string,
/// a function of its characters alone; an empty string stays empty.
#[verifier::external_body]
pub(crate) fn lowercase(s: &str) -> (r: String)
    ensures
        r@ == lower_of(s@),
        s@.len() == 0 ==> r@.len() == 0,
{
    s.to_lowercase()
}

/// Relies on String::push: appends exactly one character.
pub assume_specification[ String::push ](s: &mut String, c: char)
    ensures
        final(s)@ == old(s)@.push(c),
;

/// Build a string out of its characters.
pub fn string_of_chars(v: &Vec<char>) -> (s: String)
    ensures
        s@ == v@,
{
    let mut s = String::new();
    let mut i: usize = 0;
    while i < v.len()
        invariant
            i <= v@.len(),
            s@ == v@.take(i as int),
        decreases v@.len() - i,
    {
        s.push(v[i]);
        proof {
            assert(s@ =~= v@.take(i + 1));
        }
        i = i + 1;
    }
    proof {
        assert(v@.take(v@.len() as int) =~= v@);
    }
    s
}

/// The characters of a string as a vector.
pub fn chars_vec(s: &str) -> (v: Vec<char>)
    ensures
        v@ == s@,
{
    let n = s.unicode_len();
    let mut v: Vec<char> = Vec::new();
    let mut i: usize = 0;
    while i < n
        invariant
            n == s@.len(),
            i <= n,
            v@ == s@.take(i as int),
        decreases n - i,
    {
        v.push(s.get_char(i));
        proof {
            assert(v@ =~= s@.take(i + 1));
        }
        i = i + 1;
    }
    proof {
        assert(v@ =~= s@);
    }
    v
}

/// The Unicode whitespace characters, the set `char::is_whitespace` accepts.
pub open spec fn is_space(c: char) -> bool {
    let u = c as u32;
    u == 0x20 || u == 0x9 || u == 0xA || u == 0xB || u == 0xC || u == 0xD || u == 0x85
        || u == 0xA0 || u == 0x1680 || (0x2000 <= u && u <= 0x200A) || u == 0x2028 || u == 0x2029
        || u == 0x202F || u == 0x205F || u == 0x3000
}

/// Decide whitespace on one character.
pub fn is_space_char(c: char) -> (r: bool)
    ensures
        r == is_space(c),
{
    let u = c as u32;
    u == 0x20 || u == 0x9 || u == 0xA || u == 0xB || u == 0xC || u == 0xD || u == 0x85
        || u == 0xA0 || u == 0x1680 || (0x2000 <= u && u <= 0x200A) || u == 0x2028 || u == 0x2029
        || u == 0x202F || u == 0x205F || u == 0x3000
}

/// Every hyphen replaced by a space.
pub open spec fn dehyphen(s: Seq<char>) -> Seq<char> {
    s.map_values(|c: char| if c == '-' { ' ' } else { c })
}

/// Replace hyphens by spaces.
pub fn replace_hyphens(v: &Vec<char>) -> (r: Vec<char>)
    ensures
        r@ == dehyphen(v@),
{
    let mut r: Vec<char> = Vec::new();
    let mut i: usize = 0;
    while i < v.len()
        invariant
            i <= v@.len(),
            r@ == dehyphen(v@.take(i as int)),
        decreases v@.len() - i,
    {
        let c = v[i];
        if c == '-' {
            r.push(' ');
        } else {
            r.push(c);
        }
        proof {
            assert(r@ =~= dehyphen(v@.take(i + 1)));
        }
        i = i + 1;
    }
    proof {
        assert(v@.take(v@.len() as int) =~= v@);
    }
    r
}

/// The length of the leading run of non-space characters.
pub open spec fn run_len(s: Seq<char>) -> nat
    decreases s.len(),
{
    if s.len() == 0 || is_space(s[0]) {
        0
    } else {
        1 + run_len(s.drop_first())
    }
}

pub proof fn lemma_run_len_le(s: Seq<char>)
    ensures
        run_len(s) <= s.len(),
    decreases s.len(),
{
    if s.len() != 0 && !is_space(s[0]) {
        lemma_run_len_le(s.drop_first());
    }
}

/// The run length is pinned down by what bounds it: non-spaces up to `r`,
/// then the end or a space.
pub proof fn lemma_run_len_is(s: Seq<char>, r: int)
    requires
        0 <= r <= s.len(),
        forall|m: int| 0 <= m < r ==> !is_space(s[m]),
        r == s.len() || is_space(s[r]),
    ensures
        run_len(s) == r,
    decreases r,
{
    if r == 0 {
    } else {
        assert(!is_space(s[0]));
        lemma_run_len_is(s.drop_first(), r - 1);
    }
}

/// The whitespace-separated tokens of a character sequence, in order.
pub open spec fn tokens_of(s: Seq<char>) -> Seq<Seq<char>>
    decreases s.len(),
    when s.len() >= 0
    via tokens_of_decreases
{
    if s.len() == 0 {
        Seq::empty()
    } else if is_space(s[0]) {
        tokens_of(s.drop_first())
    } else {
        Seq::empty().push(s.take(run_len(s) as int)) + tokens_of(s.skip(run_len(s) as int))
    }
}

#[via_fn]
proof fn tokens_of_decreases(s: Seq<char>) {
    if s.len() != 0 && !is_space(s[0]) {
        lemma_run_len_le(s);
    }
}

/// Split a character sequence at whitespace.
pub fn split_spaces(v: &Vec<char>) -> (toks: Vec<Vec<char>>)
    ensures
        toks.deep_view() == tokens_of(v@),
{
    let n = v.len();
    let mut toks: Vec<Vec<char>> = Vec::new();
    let mut cur: Vec<char> = Vec::new();
    let mut i: usize = 0;
    proof {
        assert(v@.skip(0) =~= v@);
        assert(cur@ =~= v@.subrange(0, 0));
        assert(toks.deep_view() =~~= Seq::<Seq<char>>::empty());
        assert(Seq::<Seq<char>>::empty() + tokens_of(v@) =~~= tokens_of(v@));
    }
    while i < n
        invariant
            n == v@.len(),
            i <= n,
            cur@.len() <= i,
            cur@ == v@.subrange(i - cur@.len(), i as int),
            forall|m: int| i - cur@.len() <= m < i ==> !is_space(v@[m]),
            toks.deep_view() + tokens_of(v@.skip(i - cur@.len())) == tokens_of(v@),
        decreases n - i,
    {
        let ghost start = i - cur@.len();
        let c = v[i];
        if is_space_char(c) {
            if cur.len() > 0 {
                proof {
                    assert(forall|m: int|
                        0 <= m < v@.skip(start).len() ==> v@.skip(start)[m] == v@[m + start]);
                    lemma_run_len_is(v@.skip(start), i - start);
                    assert(v@.skip(start).take(i - start) =~= cur@);
                    assert(v@.skip(start).skip(i - start) =~= v@.skip(i as int));
                    assert(v@.skip(i as int)[0] == v@[i as int]);
                    assert(v@.skip(i as int).drop_first() =~= v@.skip(i + 1));
                    assert(tokens_of(v@.skip(i as int)) == tokens_of(v@.skip(i + 1)));
                    assert(tokens_of(v@.skip(start)) =~~= Seq::empty().push(cur@) + tokens_of(
                        v@.skip(i + 1),
                    ));
                }
                let ghost old_deep = toks.deep_view();
                toks.push(cur);
                proof {
                    assert(toks.deep_view() =~~= old_deep.push(cur@));
                    assert(old_deep.push(cur@) + tokens_of(v@.skip(i + 1)) =~~= old_deep + (
                    Seq::empty().push(cur@) + tokens_of(v@.skip(i + 1))));
                }
                cur = Vec::new();
            } else {
                proof {
                    assert(v@.skip(i as int)[0] == v@[i as int]);
                    assert(v@.skip(i as int).drop_first() =~= v@.skip(i + 1));
                }
            }
            proof {
                assert(cur@ =~= v@.subrange(i + 1 - cur@.len(), i + 1));
            }
        } else {
            cur.push(c);
            proof {
                assert(cur@ =~= v@.subrange(i + 1 - cur@.len(), i + 1));
            }
        }
        i = i + 1;
    }
    if cur.len() > 0 {
        let ghost start = i - cur@.len();
        proof {
            assert(forall|m: int|
                0 <= m < v@.skip(start).len() ==> v@.skip(start)[m] == v@[m + start]);
            lemma_run_len_is(v@.skip(start), i - start);
            assert(v@.skip(start).take(i - start) =~= cur@);
            assert(v@.skip(start).skip(i - start) =~= v@.skip(i as int));
            assert(v@.skip(i as int) =~= Seq::<char>::empty());
            assert(tokens_of(Seq::<char>::empty()) =~~= Seq::<Seq<char>>::empty());
            assert(tokens_of(v@.skip(start)) =~~= Seq::empty().push(cur@));
        }
        let ghost old_deep = toks.deep_view();
        toks.push(cur);
        proof {
            assert(toks.deep_view() =~~= old_deep.push(cur@));
            assert(old_deep.push(cur@) =~~= old_deep + Seq::empty().push(cur@));
        }
    } else {
        proof {
            assert(v@.skip(i as int) =~= Seq::<char>::empty());
            assert(tokens_of(Seq::<char>::empty()) =~~= Seq::<Seq<char>>::empty());
            assert(toks.deep_view() + tokens_of(v@.skip(i as int)) =~~= toks.deep_view());
        }
    }
    toks
}

/// Substring containment: `nd` occurs contiguously somewhere in `hay`.
pub open spec fn contains_sub(hay: Seq<char>, nd: Seq<char>) -> bool {
    exists|k: int|
        0 <= k && k + nd.len() <= hay.len() && #[trigger] hay.subrange(k, k + nd.len()) == nd
}

/// Decide substring containment.
pub fn contains_chars(hay: &Vec<char>, nd: &Vec<char>) -> (r: bool)
    ensures
        r == contains_sub(hay@, nd@),
{
    let hn = hay.len();
    let nn = nd.len();
    if nn > hn {
        return false;
    }
    if nn == 0 {
        proof {
            assert(hay@.subrange(0, 0 + nd@.len() as int) =~= nd@);
        }
        return true;
    }
    let mut k: usize = 0;
    while k <= hn - nn
        invariant
            nn == nd@.len() <= hay@.len() == hn,
            nn >= 1,
            k <= hn - nn + 1,
            forall|k2: int| 0 <= k2 < k ==> #[trigger] hay@.subrange(k2, k2 + nd@.len()) != nd@,
        decreases hn + 1 - nn - k,
    {
        let mut m: usize = 0;
        let mut same = true;
        while m < nn
            invariant
                nn == nd@.len() <= hay@.len() == hn,
                k + nn <= hn,
                m <= nn,
                same ==> forall|m2: int| 0 <= m2 < m ==> #[trigger] hay@[k + m2] == nd@[m2],
                !same ==> hay@.subrange(k as int, k + nd@.len()) != nd@,
            decreases nn - m,
        {
            if hay[k + m] != nd[m] {
                proof {
                    assert(hay@.subrange(k as int, k + nd@.len())[m as int] != nd@[m as int]);
                }
                same = false;
            }
            m = m + 1;
        }
        if same {
            proof {
                assert(forall|m2: int|
                    0 <= m2 < nd@.len() ==> #[trigger] hay@.subrange(k as int, k + nd@.len())[m2]
                        == hay@[k + m2]);
                assert(hay@.subrange(k as int, k + nd@.len()) =~= nd@);
            }
            return true;
        }
        k = k + 1;
    }
    proof {
        assert(forall|k2: int|
            0 <= k2 && k2 + nd@.len() <= hay@.len() ==> #[trigger] hay@.subrange(
                k2,
                k2 + nd@.len(),
            ) != nd@);
    }
    false
}

/// How many tokens contain `w` as a substring.
pub open spec fn count_matching(toks: Seq<Seq<char>>, w: Seq<char>) -> nat
    decreases toks.len(),
{
    if toks.len() == 0 {
        0
    } else {
        count_matching(toks.drop_last(), w) + if contains_sub(toks.last(), w) {
            1nat
        } else {
            0nat
        }
    }
}

pub proof fn lemma_count_matching_le(toks: Seq<Seq<char>>, w: Seq<char>)
    ensures
        count_matching(toks, w) <= toks.len(),
    decreases toks.len(),
{
    if toks.len() != 0 {
        lemma_count_matching_le(toks.drop_last(), w);
    }
}

/// Count the tokens that contain `w` as a substring.
pub fn count_tokens_containing(toks: &Vec<Vec<char>>, w: &Vec<char>) -> (n: usize)
    ensures
        n as nat == count_matching(toks.deep_view(), w@),
{
    let mut n: usize = 0;
    let mut i: usize = 0;
    proof {
        lemma_count_matching_le(toks.deep_view(), w@);
    }
    while i < toks.len()
        invariant
            i <= toks@.len(),
            toks.deep_view().len() == toks@.len(),
            n as nat == count_matching(toks.deep_view().take(i as int), w@),
            n <= i,
        decreases toks@.len() - i,
    {
        proof {
            lemma_count_matching_le(toks.deep_view().take(i as int), w@);
            assert(toks.deep_view().take(i + 1).drop_last() =~= toks.deep_view().take(i as int));
            assert(toks.deep_view().take(i + 1).last() == toks.deep_view()[i as int]);
            assert(toks.deep_view()[i as int] == toks@[i as int]@);
        }
        if contains_chars(&toks[i], w) {
            n = n + 1;
        }
        i = i + 1;
    }
    proof {
        assert(toks.deep_view().take(toks.deep_view().len() as int) =~= toks.deep_view());
    }
    n
}

} // verus!
