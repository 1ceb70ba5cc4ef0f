//! The snapshot format: one JSON document holding the record sequence,
//! the parallel computed-data sidecar, and the sequence length.
//!
//! Text fields are written as arrays of Unicode code points, so the
//! whole grammar is built from object/array punctuation and decimal
//! numbers. The decoder accepts exactly what the encoder writes; a
//! parse of an encoding returns the encoded store (the round-trip laws
//! below), and anything else is treated as corrupt by the loader.

use vstd::prelude::*;

use crate::data::{ComputedV, JourneyUpdateV, JourneyV, PageV, SummerUpdateV, SummerV};
use crate::fixed::{dec_str_of, digit_char};
use vstd::arithmetic::div_mod::lemma_fundamental_div_mod;

verus! {

/// Relies on char::from_u32: `Some` exactly on Unicode scalar values,
/// returning the character with that value.
pub assume_specification[ char::from_u32 ](u: u32) -> (r: Option<char>)
    ensures
        vstd::utf8::is_scalar(u) <==> r is Some,
        r is Some ==> r->0 as u32 == u,
;

pub open spec fn is_digit(c: char) -> bool {
    0x30 <= c as u32 <= 0x39
}

pub open spec fn digit_val(c: char) -> int {
    c as u32 - 0x30
}

/// The numeric value of a digit string, most significant first.
pub open spec fn val_of(ds: Seq<char>) -> int
    decreases ds.len(),
{
    if ds.len() == 0 {
        0
    } else {
        val_of(ds.drop_last()) * 10 + digit_val(ds.last())
    }
}

proof fn lemma_digit_char_val(d: nat)
    requires
        d < 10,
    ensures
        is_digit(digit_char(d)),
        digit_val(digit_char(d)) == d,
{
}

/// The decimal digits of `n` are digits and read back as `n`.
pub proof fn lemma_dec_str_val(n: nat)
    ensures
        dec_str_of(n).len() >= 1,
        forall|i: int| 0 <= i < dec_str_of(n).len() ==> is_digit(#[trigger] dec_str_of(n)[i]),
        val_of(dec_str_of(n)) == n,
    decreases n,
{
    if n < 10 {
        lemma_digit_char_val(n);
        let d = dec_str_of(n);
        assert(d == seq![digit_char(n)]);
        assert(d.drop_last() =~= Seq::<char>::empty());
        assert(d.last() == digit_char(n));
        assert(val_of(d) == val_of(d.drop_last()) * 10 + digit_val(d.last()));
        assert(val_of(d.drop_last()) == 0);
    } else {
        lemma_dec_str_val(n / 10);
        lemma_digit_char_val(n % 10);
        let d = dec_str_of(n);
        assert(d == dec_str_of(n / 10) + seq![digit_char(n % 10)]);
        assert(d.drop_last() =~= dec_str_of(n / 10));
        assert(d.last() == digit_char(n % 10));
        assert(val_of(d) == val_of(d.drop_last()) * 10 + digit_val(d.last()));
        assert(val_of(d.drop_last()) == n / 10);
        lemma_fundamental_div_mod(n as int, 10);
        assert(val_of(d) == (n / 10) * 10 + (n % 10));
    }
}

pub open spec fn pow10(k: nat) -> int
    decreases k,
{
    if k == 0 {
        1
    } else {
        10 * pow10((k - 1) as nat)
    }
}

proof fn lemma_dec_len(n: nat, k: nat)
    requires
        k >= 1,
        n < pow10(k),
    ensures
        dec_str_of(n).len() <= k,
    decreases k,
{
    if n < 10 {
    } else {
        assert(k >= 2) by {
            if k == 1 {
                assert(pow10(0nat) == 1);
                assert(pow10(1nat) == 10);
            }
        }
        assert(n / 10 < pow10((k - 1) as nat)) by {
            lemma_fundamental_div_mod(n as int, 10);
            assert(pow10(k) == 10 * pow10((k - 1) as nat));
        }
        lemma_dec_len(n / 10, (k - 1) as nat);
    }
}

/// Every `u64` has at most twenty decimal digits.
pub proof fn lemma_dec_len_u64(n: u64)
    ensures
        dec_str_of(n as nat).len() <= 20,
{
    assert(pow10(20nat) == 0x56bc75e2d63100000int) by {
        assert(pow10(0nat) == 1);
        assert(pow10(1nat) == 10);
        assert(pow10(2nat) == 100);
        assert(pow10(3nat) == 1000);
        assert(pow10(4nat) == 10000);
        assert(pow10(5nat) == 100000);
        assert(pow10(6nat) == 1000000);
        assert(pow10(7nat) == 10000000);
        assert(pow10(8nat) == 100000000);
        assert(pow10(9nat) == 1000000000);
        assert(pow10(10nat) == 10000000000);
        assert(pow10(11nat) == 100000000000);
        assert(pow10(12nat) == 1000000000000);
        assert(pow10(13nat) == 10000000000000);
        assert(pow10(14nat) == 100000000000000);
        assert(pow10(15nat) == 1000000000000000);
        assert(pow10(16nat) == 10000000000000000);
        assert(pow10(17nat) == 100000000000000000);
        assert(pow10(18nat) == 1000000000000000000);
        assert(pow10(19nat) == 10000000000000000000);
        assert(pow10(20nat) == 100000000000000000000);
    }
    lemma_dec_len(n as nat, 20nat);
}

pub proof fn lemma_pow10_20()
    ensures
        pow10(20nat) == 0x56bc75e2d63100000int,
{
    assert(pow10(0nat) == 1);
    assert(pow10(1nat) == 10);
    assert(pow10(2nat) == 100);
    assert(pow10(3nat) == 1000);
    assert(pow10(4nat) == 10000);
    assert(pow10(5nat) == 100000);
    assert(pow10(6nat) == 1000000);
    assert(pow10(7nat) == 10000000);
    assert(pow10(8nat) == 100000000);
    assert(pow10(9nat) == 1000000000);
    assert(pow10(10nat) == 10000000000);
    assert(pow10(11nat) == 100000000000);
    assert(pow10(12nat) == 1000000000000);
    assert(pow10(13nat) == 10000000000000);
    assert(pow10(14nat) == 100000000000000);
    assert(pow10(15nat) == 1000000000000000);
    assert(pow10(16nat) == 10000000000000000);
    assert(pow10(17nat) == 100000000000000000);
    assert(pow10(18nat) == 1000000000000000000);
    assert(pow10(19nat) == 10000000000000000000);
    assert(pow10(20nat) == 100000000000000000000);
}

pub proof fn lemma_pow10_mono(a: nat, b: nat)
    requires
        a <= b,
    ensures
        0 < pow10(a) <= pow10(b),
    decreases b,
{
    if b == 0 {
    } else if a == b {
        lemma_pow10_mono(0nat, (b - 1) as nat);
    } else {
        lemma_pow10_mono(a, (b - 1) as nat);
    }
}

/// A digit string's value is below ten to its length.
pub proof fn lemma_val_of_bound(ds: Seq<char>)
    requires
        forall|i: int| 0 <= i < ds.len() ==> is_digit(#[trigger] ds[i]),
    ensures
        0 <= val_of(ds) < pow10(ds.len()),
    decreases ds.len(),
{
    if ds.len() == 0 {
        assert(pow10(0nat) == 1);
    } else {
        assert(forall|i: int| 0 <= i < ds.drop_last().len() ==> is_digit(
            #[trigger] ds.drop_last()[i],
        ));
        lemma_val_of_bound(ds.drop_last());
        assert(is_digit(ds.last()));
        assert(pow10(ds.len()) == 10 * pow10((ds.len() - 1) as nat));
    }
}

/// One bad code spoils the whole conversion.
pub proof fn lemma_chars_of_codes_none(l: Seq<u64>, m: int)
    requires
        0 <= m < l.len(),
        char_of_code(l[m]) is None,
    ensures
        chars_of_codes(l) is None,
    decreases l.len(),
{
    reveal(chars_of_codes);
    if m == l.len() - 1 {
    } else {
        assert(l.drop_last()[m] == l[m]);
        lemma_chars_of_codes_none(l.drop_last(), m);
    }
}

// ---------------------------------------------------------------
// Encoding
// ---------------------------------------------------------------
/// The code points of a text, each at most 0x10FFFF.
pub open spec fn codes_of(s: Seq<char>) -> Seq<u64> {
    s.map_values(|c: char| (c as u32) as u64)
}

/// Comma-separated decimal items, from position `idx` on.
pub open spec fn enc_num_items(l: Seq<u64>, idx: int) -> Seq<char>
    decreases l.len() - idx,
{
    if idx < 0 || idx >= l.len() {
        Seq::empty()
    } else if idx == l.len() - 1 {
        dec_str_of(l[idx] as nat)
    } else {
        dec_str_of(l[idx] as nat) + seq![','] + enc_num_items(l, idx + 1)
    }
}

/// A bracketed list of decimal numbers.
#[verifier::opaque]
pub open spec fn enc_nums(l: Seq<u64>) -> Seq<char> {
    seq!['['] + enc_num_items(l, 0) + seq![']']
}

/// A text as the bracketed list of its code points.
#[verifier::opaque]
pub open spec fn enc_codes(s: Seq<char>) -> Seq<char> {
    enc_nums(codes_of(s))
}

/// An optional text: `null` or its code-point list.
#[verifier::opaque]
pub open spec fn enc_opt_codes(o: Option<Seq<char>>) -> Seq<char> {
    match o {
        Option::None => "null"@,
        Option::Some(s) => enc_codes(s),
    }
}

#[verifier::opaque]
pub open spec fn enc_jupd(u: JourneyUpdateV) -> Seq<char> {
    "{\"time\":"@ + enc_codes(u.time) + ",\"message\":"@ + enc_codes(u.message)
        + ",\"attatchments\":"@ + enc_css(u.attatchments) + "}"@
}

/// A bracketed list of texts.
#[verifier::opaque]
pub open spec fn enc_css(l: Seq<Seq<char>>) -> Seq<char> {
    seq!['['] + enc_css_items(l, 0) + seq![']']
}

pub open spec fn enc_css_items(l: Seq<Seq<char>>, idx: int) -> Seq<char>
    decreases l.len() - idx,
{
    if idx < 0 || idx >= l.len() {
        Seq::empty()
    } else if idx == l.len() - 1 {
        enc_codes(l[idx])
    } else {
        enc_codes(l[idx]) + seq![','] + enc_css_items(l, idx + 1)
    }
}

#[verifier::opaque]
pub open spec fn enc_jupds(l: Seq<JourneyUpdateV>) -> Seq<char> {
    seq!['['] + enc_jupd_items(l, 0) + seq![']']
}

pub open spec fn enc_jupd_items(l: Seq<JourneyUpdateV>, idx: int) -> Seq<char>
    decreases l.len() - idx,
{
    if idx < 0 || idx >= l.len() {
        Seq::empty()
    } else if idx == l.len() - 1 {
        enc_jupd(l[idx])
    } else {
        enc_jupd(l[idx]) + seq![','] + enc_jupd_items(l, idx + 1)
    }
}

#[verifier::opaque]
pub open spec fn enc_supd(u: SummerUpdateV) -> Seq<char> {
    "{\"time\":"@ + dec_str_of(u.time as nat) + ",\"message\":"@ + enc_codes(u.message)
        + ",\"image\":"@ + enc_opt_codes(u.image) + "}"@
}

#[verifier::opaque]
pub open spec fn enc_supds(l: Seq<SummerUpdateV>) -> Seq<char> {
    seq!['['] + enc_supd_items(l, 0) + seq![']']
}

pub open spec fn enc_supd_items(l: Seq<SummerUpdateV>, idx: int) -> Seq<char>
    decreases l.len() - idx,
{
    if idx < 0 || idx >= l.len() {
        Seq::empty()
    } else if idx == l.len() - 1 {
        enc_supd(l[idx])
    } else {
        enc_supd(l[idx]) + seq![','] + enc_supd_items(l, idx + 1)
    }
}

#[verifier::opaque]
pub open spec fn enc_journey_tail2(j: JourneyV) -> Seq<char> {
    ",\"readme\":"@ + enc_opt_codes(j.readme) + ",\"repo\":"@ + enc_opt_codes(j.repo)
        + ",\"demo\":"@ + enc_opt_codes(j.demo) + ",\"updates\":"@ + enc_jupds(j.updates) + "}"@
}

#[verifier::opaque]
pub open spec fn enc_journey_tail(j: JourneyV) -> Seq<char> {
    ",\"author\":"@ + enc_codes(j.author) + ",\"followers\":"@ + dec_str_of(j.followers as nat)
        + ",\"stonks\":"@ + dec_str_of(j.stonks as nat) + ",\"time\":"@ + enc_codes(j.time)
        + enc_journey_tail2(j)
}

#[verifier::opaque]
pub open spec fn enc_journey(j: JourneyV) -> Seq<char> {
    "{\"id\":"@ + dec_str_of(j.id as nat) + ",\"main_image\":"@ + enc_codes(j.main_image)
        + ",\"name\":"@ + enc_codes(j.name) + ",\"description\":"@ + enc_codes(j.description)
        + enc_journey_tail(j)
}#[verifier::opaque]
pub open spec fn enc_summer_tail2(v: SummerV) -> Seq<char> {
    ",\"readme\":"@ + enc_opt_codes(v.readme) + ",\"repo\":"@ + enc_opt_codes(v.repo)
        + ",\"demo\":"@ + enc_opt_codes(v.demo) + ",\"updates\":"@ + enc_supds(v.updates) + "}"@
}

#[verifier::opaque]
pub open spec fn enc_summer_tail(v: SummerV) -> Seq<char> {
    ",\"author\":"@ + enc_codes(v.author) + ",\"followers\":"@ + dec_str_of(v.followers as nat)
        + ",\"time\":"@ + dec_str_of(v.time as nat) + enc_summer_tail2(v)
}

#[verifier::opaque]
pub open spec fn enc_summer(v: SummerV) -> Seq<char> {
    "{\"url\":"@ + enc_codes(v.url) + ",\"main_image\":"@ + enc_codes(v.main_image)
        + ",\"name\":"@ + enc_codes(v.name) + ",\"description\":"@ + enc_codes(v.description)
        + enc_summer_tail(v)
}

#[verifier::opaque]
pub open spec fn enc_page(p: PageV) -> Seq<char> {
    match p {
        PageV::Journey2025(j) => "{\"Journey2025\":"@ + enc_journey(j) + "}"@,
        PageV::Summer2025(v) => "{\"Summer2025\":"@ + enc_summer(v) + "}"@,
    }
}

#[verifier::opaque]
pub open spec fn enc_pages(l: Seq<PageV>) -> Seq<char> {
    seq!['['] + enc_page_items(l, 0) + seq![']']
}

pub open spec fn enc_page_items(l: Seq<PageV>, idx: int) -> Seq<char>
    decreases l.len() - idx,
{
    if idx < 0 || idx >= l.len() {
        Seq::empty()
    } else if idx == l.len() - 1 {
        enc_page(l[idx])
    } else {
        enc_page(l[idx]) + seq![','] + enc_page_items(l, idx + 1)
    }
}

#[verifier::opaque]
pub open spec fn enc_comp(c: Option<ComputedV>) -> Seq<char> {
    match c {
        Option::None => "null"@,
        Option::Some(cd) => "{\"embedding\":"@ + enc_nums(
            cd.embedding.map_values(|x: u32| x as u64),
        ) + ",\"ai_description\":"@ + dec_str_of(cd.ai_description as nat) + ",\"ai_code\":"@
            + dec_str_of(cd.ai_code as nat) + "}"@,
    }
}

#[verifier::opaque]
pub open spec fn enc_comps(l: Seq<Option<ComputedV>>) -> Seq<char> {
    seq!['['] + enc_comp_items(l, 0) + seq![']']
}

pub open spec fn enc_comp_items(l: Seq<Option<ComputedV>>, idx: int) -> Seq<char>
    decreases l.len() - idx,
{
    if idx < 0 || idx >= l.len() {
        Seq::empty()
    } else if idx == l.len() - 1 {
        enc_comp(l[idx])
    } else {
        enc_comp(l[idx]) + seq![','] + enc_comp_items(l, idx + 1)
    }
}

/// The whole snapshot document.
#[verifier::opaque]
pub open spec fn enc_store(recs: Seq<PageV>, comps: Seq<Option<ComputedV>>) -> Seq<char> {
    "{\"raw_text\":"@ + enc_pages(recs) + ",\"processed\":"@ + enc_comps(comps) + ",\"length\":"@
        + dec_str_of(recs.len()) + "}"@
}

// ---------------------------------------------------------------
// Parsing
// ---------------------------------------------------------------
/// Consume an exact literal.
pub open spec fn parse_lit(s: Seq<char>, i: int, lit: Seq<char>) -> Option<int> {
    if 0 <= i && i + lit.len() <= s.len() && s.subrange(i, i + lit.len()) == lit {
        Option::Some(i + lit.len())
    } else {
        Option::None
    }
}

/// The length of the digit run starting at `i`.
#[verifier::opaque]
pub open spec fn digits_run(s: Seq<char>, i: int) -> int
    decreases s.len() - i,
{
    if i < 0 || i >= s.len() || !is_digit(s[i]) {
        0
    } else {
        1 + digits_run(s, i + 1)
    }
}

/// Consume one decimal number of at most twenty digits that fits `u64`.
#[verifier::opaque]
pub open spec fn parse_num(s: Seq<char>, i: int) -> Option<(u64, int)> {
    let r = digits_run(s, i);
    if r < 1 || r > 20 {
        Option::None
    } else {
        let v = val_of(s.subrange(i, i + r));
        if v > u64::MAX {
            Option::None
        } else {
            Option::Some((v as u64, i + r))
        }
    }
}

/// Consume one or more comma-separated numbers and the closing bracket.
#[verifier::opaque]
pub open spec fn parse_num_rest(s: Seq<char>, i: int) -> Option<(Seq<u64>, int)>
    decreases s.len() - i,
{
    match parse_num(s, i) {
        Option::None => Option::None,
        Option::Some((v, i1)) => match parse_lit(s, i1, seq![']']) {
            Option::Some(i2) => Option::Some((seq![v], i2)),
            Option::None => match parse_lit(s, i1, seq![',']) {
                Option::None => Option::None,
                Option::Some(i2) => if i < i2 <= s.len() {
                    match parse_num_rest(s, i2) {
                        Option::None => Option::None,
                        Option::Some((l, i3)) => Option::Some((seq![v] + l, i3)),
                    }
                } else {
                    Option::None
                },
            },
        },
    }
}

/// Consume a bracketed list of numbers.
#[verifier::opaque]
pub open spec fn parse_nums(s: Seq<char>, i: int) -> Option<(Seq<u64>, int)> {
    match parse_lit(s, i, seq!['[']) {
        Option::None => Option::None,
        Option::Some(i1) => match parse_lit(s, i1, seq![']']) {
            Option::Some(i2) => Option::Some((Seq::empty(), i2)),
            Option::None => parse_num_rest(s, i1),
        },
    }
}

/// The character of a code point, if it is a Unicode scalar value.
#[verifier::opaque]
pub open spec fn char_of_code(v: u64) -> Option<char> {
    if v <= 0xFFFFFFFF && vstd::utf8::is_scalar(v as u32) {
        Option::Some((v as u32) as char)
    } else {
        Option::None
    }
}

#[verifier::opaque]
pub open spec fn chars_of_codes(l: Seq<u64>) -> Option<Seq<char>>
    decreases l.len(),
{
    if l.len() == 0 {
        Option::Some(Seq::empty())
    } else {
        match chars_of_codes(l.drop_last()) {
            Option::None => Option::None,
            Option::Some(cs) => match char_of_code(l.last()) {
                Option::None => Option::None,
                Option::Some(c) => Option::Some(cs.push(c)),
            },
        }
    }
}

/// Consume a text written as its code points.
#[verifier::opaque]
pub open spec fn parse_codes(s: Seq<char>, i: int) -> Option<(Seq<char>, int)> {
    match parse_nums(s, i) {
        Option::None => Option::None,
        Option::Some((l, j)) => match chars_of_codes(l) {
            Option::None => Option::None,
            Option::Some(cs) => Option::Some((cs, j)),
        },
    }
}

/// Consume `null` or a text.
#[verifier::opaque]
pub open spec fn parse_opt_codes(s: Seq<char>, i: int) -> Option<(Option<Seq<char>>, int)> {
    match parse_lit(s, i, "null"@) {
        Option::Some(j) => Option::Some((Option::None, j)),
        Option::None => match parse_codes(s, i) {
            Option::None => Option::None,
            Option::Some((cs, j)) => Option::Some((Option::Some(cs), j)),
        },
    }
}

#[verifier::opaque]
pub open spec fn nums_to_u32s(l: Seq<u64>) -> Option<Seq<u32>>
    decreases l.len(),
{
    if l.len() == 0 {
        Option::Some(Seq::empty())
    } else {
        match nums_to_u32s(l.drop_last()) {
            Option::None => Option::None,
            Option::Some(xs) => if l.last() <= u32::MAX {
                Option::Some(xs.push(l.last() as u32))
            } else {
                Option::None
            },
        }
    }
}

/// Consume one or more comma-separated texts and the closing bracket.
#[verifier::opaque]
pub open spec fn parse_css_rest(s: Seq<char>, i: int) -> Option<(Seq<Seq<char>>, int)>
    decreases s.len() - i,
{
    match parse_codes(s, i) {
        Option::None => Option::None,
        Option::Some((v, i1)) => match parse_lit(s, i1, seq![']']) {
            Option::Some(i2) => Option::Some((seq![v], i2)),
            Option::None => match parse_lit(s, i1, seq![',']) {
                Option::None => Option::None,
                Option::Some(i2) => if i < i2 <= s.len() {
                    match parse_css_rest(s, i2) {
                        Option::None => Option::None,
                        Option::Some((l, i3)) => Option::Some((seq![v] + l, i3)),
                    }
                } else {
                    Option::None
                },
            },
        },
    }
}

/// Consume a bracketed list of texts.
#[verifier::opaque]
pub open spec fn parse_css(s: Seq<char>, i: int) -> Option<(Seq<Seq<char>>, int)> {
    match parse_lit(s, i, seq!['[']) {
        Option::None => Option::None,
        Option::Some(i1) => match parse_lit(s, i1, seq![']']) {
            Option::Some(i2) => Option::Some((Seq::empty(), i2)),
            Option::None => parse_css_rest(s, i1),
        },
    }
}

/// Consume one legacy-schema update object.
#[verifier::opaque]
pub open spec fn parse_jupd(s: Seq<char>, i: int) -> Option<(JourneyUpdateV, int)> {
    match parse_lit(s, i, "{\"time\":"@) {
        Option::None => Option::None,
        Option::Some(i1) => match parse_codes(s, i1) {
            Option::None => Option::None,
            Option::Some((time, i2)) => match parse_lit(s, i2, ",\"message\":"@) {
                Option::None => Option::None,
                Option::Some(i3) => match parse_codes(s, i3) {
                    Option::None => Option::None,
                    Option::Some((message, i4)) => match parse_lit(s, i4, ",\"attatchments\":"@) {
                        Option::None => Option::None,
                        Option::Some(i5) => match parse_css(s, i5) {
                            Option::None => Option::None,
                            Option::Some((atts, i6)) => match parse_lit(s, i6, "}"@) {
                                Option::None => Option::None,
                                Option::Some(i7) => Option::Some(
                                    (
                                        JourneyUpdateV { time, message, attatchments: atts },
                                        i7,
                                    ),
                                ),
                            },
                        },
                    },
                },
            },
        },
    }
}

/// Consume one current-schema update object.
#[verifier::opaque]
pub open spec fn parse_supd(s: Seq<char>, i: int) -> Option<(SummerUpdateV, int)> {
    match parse_lit(s, i, "{\"time\":"@) {
        Option::None => Option::None,
        Option::Some(i1) => match parse_num(s, i1) {
            Option::None => Option::None,
            Option::Some((time, i2)) => if time > u32::MAX {
                Option::None
            } else {
                match parse_lit(s, i2, ",\"message\":"@) {
                    Option::None => Option::None,
                    Option::Some(i3) => match parse_codes(s, i3) {
                        Option::None => Option::None,
                        Option::Some((message, i4)) => match parse_lit(s, i4, ",\"image\":"@) {
                            Option::None => Option::None,
                            Option::Some(i5) => match parse_opt_codes(s, i5) {
                                Option::None => Option::None,
                                Option::Some((image, i6)) => match parse_lit(s, i6, "}"@) {
                                    Option::None => Option::None,
                                    Option::Some(i7) => Option::Some(
                                        (
                                            SummerUpdateV { time: time as u32, message, image },
                                            i7,
                                        ),
                                    ),
                                },
                            },
                        },
                    },
                }
            },
        },
    }
}

/// Consume one or more comma-separated legacy updates and the bracket.
#[verifier::opaque]
pub open spec fn parse_jupds_rest(s: Seq<char>, i: int) -> Option<(Seq<JourneyUpdateV>, int)>
    decreases s.len() - i,
{
    match parse_jupd(s, i) {
        Option::None => Option::None,
        Option::Some((v, i1)) => match parse_lit(s, i1, seq![']']) {
            Option::Some(i2) => Option::Some((seq![v], i2)),
            Option::None => match parse_lit(s, i1, seq![',']) {
                Option::None => Option::None,
                Option::Some(i2) => if i < i2 <= s.len() {
                    match parse_jupds_rest(s, i2) {
                        Option::None => Option::None,
                        Option::Some((l, i3)) => Option::Some((seq![v] + l, i3)),
                    }
                } else {
                    Option::None
                },
            },
        },
    }
}

#[verifier::opaque]
pub open spec fn parse_jupds(s: Seq<char>, i: int) -> Option<(Seq<JourneyUpdateV>, int)> {
    match parse_lit(s, i, seq!['[']) {
        Option::None => Option::None,
        Option::Some(i1) => match parse_lit(s, i1, seq![']']) {
            Option::Some(i2) => Option::Some((Seq::empty(), i2)),
            Option::None => parse_jupds_rest(s, i1),
        },
    }
}

/// Consume one or more comma-separated current updates and the bracket.
#[verifier::opaque]
pub open spec fn parse_supds_rest(s: Seq<char>, i: int) -> Option<(Seq<SummerUpdateV>, int)>
    decreases s.len() - i,
{
    match parse_supd(s, i) {
        Option::None => Option::None,
        Option::Some((v, i1)) => match parse_lit(s, i1, seq![']']) {
            Option::Some(i2) => Option::Some((seq![v], i2)),
            Option::None => match parse_lit(s, i1, seq![',']) {
                Option::None => Option::None,
                Option::Some(i2) => if i < i2 <= s.len() {
                    match parse_supds_rest(s, i2) {
                        Option::None => Option::None,
                        Option::Some((l, i3)) => Option::Some((seq![v] + l, i3)),
                    }
                } else {
                    Option::None
                },
            },
        },
    }
}

#[verifier::opaque]
pub open spec fn parse_supds(s: Seq<char>, i: int) -> Option<(Seq<SummerUpdateV>, int)> {
    match parse_lit(s, i, seq!['[']) {
        Option::None => Option::None,
        Option::Some(i1) => match parse_lit(s, i1, seq![']']) {
            Option::Some(i2) => Option::Some((Seq::empty(), i2)),
            Option::None => parse_supds_rest(s, i1),
        },
    }
}

/// Consume one legacy-schema record body.
#[verifier::opaque]
pub open spec fn parse_journey(s: Seq<char>, i: int) -> Option<(JourneyV, int)> {
    match parse_lit(s, i, "{\"id\":"@) {
        Option::None => Option::None,
        Option::Some(i1) => match parse_num(s, i1) {
            Option::None => Option::None,
            Option::Some((id, i2)) => if id > u32::MAX {
                Option::None
            } else {
                match parse_lit(s, i2, ",\"main_image\":"@) {
                    Option::None => Option::None,
                    Option::Some(i3) => match parse_codes(s, i3) {
                        Option::None => Option::None,
                        Option::Some((main_image, i4)) => match parse_lit(s, i4, ",\"name\":"@) {
                            Option::None => Option::None,
                            Option::Some(i5) => match parse_codes(s, i5) {
                                Option::None => Option::None,
                                Option::Some((name, i6)) => match parse_lit(
                                    s,
                                    i6,
                                    ",\"description\":"@,
                                ) {
                                    Option::None => Option::None,
                                    Option::Some(i7) => match parse_codes(s, i7) {
                                        Option::None => Option::None,
                                        Option::Some((description, i8)) => parse_journey_tail(
                                            s,
                                            i8,
                                            id as u32,
                                            main_image,
                                            name,
                                            description,
                                        ),
                                    },
                                },
                            },
                        },
                    },
                }
            },
        },
    }
}

#[verifier::opaque]
pub open spec fn parse_journey_tail(
    s: Seq<char>,
    i: int,
    id: u32,
    main_image: Seq<char>,
    name: Seq<char>,
    description: Seq<char>,
) -> Option<(JourneyV, int)> {
    match parse_lit(s, i, ",\"author\":"@) {
        Option::None => Option::None,
        Option::Some(i1) => match parse_codes(s, i1) {
            Option::None => Option::None,
            Option::Some((author, i2)) => match parse_lit(s, i2, ",\"followers\":"@) {
                Option::None => Option::None,
                Option::Some(i3) => match parse_num(s, i3) {
                    Option::None => Option::None,
                    Option::Some((followers, i4)) => if followers > u16::MAX {
                        Option::None
                    } else {
                        match parse_lit(s, i4, ",\"stonks\":"@) {
                            Option::None => Option::None,
                            Option::Some(i5) => match parse_num(s, i5) {
                                Option::None => Option::None,
                                Option::Some((stonks, i6)) => if stonks > u16::MAX {
                                    Option::None
                                } else {
                                    match parse_lit(s, i6, ",\"time\":"@) {
                                        Option::None => Option::None,
                                        Option::Some(i7) => match parse_codes(s, i7) {
                                            Option::None => Option::None,
                                            Option::Some((time, i8)) => parse_journey_tail2(
                                                s,
                                                i8,
                                                JourneyV {
                                                    id,
                                                    main_image,
                                                    name,
                                                    description,
                                                    author,
                                                    followers: followers as u16,
                                                    stonks: stonks as u16,
                                                    time,
                                                    readme: Option::None,
                                                    repo: Option::None,
                                                    demo: Option::None,
                                                    updates: Seq::empty(),
                                                },
                                            ),
                                        },
                                    }
                                },
                            },
                        }
                    },
                },
            },
        },
    }
}

#[verifier::opaque]
pub open spec fn parse_journey_tail2(s: Seq<char>, i: int, base: JourneyV) -> Option<
    (JourneyV, int),
> {
    match parse_lit(s, i, ",\"readme\":"@) {
        Option::None => Option::None,
        Option::Some(i1) => match parse_opt_codes(s, i1) {
            Option::None => Option::None,
            Option::Some((readme, i2)) => match parse_lit(s, i2, ",\"repo\":"@) {
                Option::None => Option::None,
                Option::Some(i3) => match parse_opt_codes(s, i3) {
                    Option::None => Option::None,
                    Option::Some((repo, i4)) => match parse_lit(s, i4, ",\"demo\":"@) {
                        Option::None => Option::None,
                        Option::Some(i5) => match parse_opt_codes(s, i5) {
                            Option::None => Option::None,
                            Option::Some((demo, i6)) => match parse_lit(s, i6, ",\"updates\":"@) {
                                Option::None => Option::None,
                                Option::Some(i7) => match parse_jupds(s, i7) {
                                    Option::None => Option::None,
                                    Option::Some((updates, i8)) => match parse_lit(s, i8, "}"@) {
                                        Option::None => Option::None,
                                        Option::Some(i9) => Option::Some(
                                            (
                                                JourneyV { readme, repo, demo, updates, ..base },
                                                i9,
                                            ),
                                        ),
                                    },
                                },
                            },
                        },
                    },
                },
            },
        },
    }
}

/// Consume one current-schema record body.
#[verifier::opaque]
pub open spec fn parse_summer(s: Seq<char>, i: int) -> Option<(SummerV, int)> {
    match parse_lit(s, i, "{\"url\":"@) {
        Option::None => Option::None,
        Option::Some(i1) => match parse_codes(s, i1) {
            Option::None => Option::None,
            Option::Some((url, i2)) => match parse_lit(s, i2, ",\"main_image\":"@) {
                Option::None => Option::None,
                Option::Some(i3) => match parse_codes(s, i3) {
                    Option::None => Option::None,
                    Option::Some((main_image, i4)) => match parse_lit(s, i4, ",\"name\":"@) {
                        Option::None => Option::None,
                        Option::Some(i5) => match parse_codes(s, i5) {
                            Option::None => Option::None,
                            Option::Some((name, i6)) => match parse_lit(s, i6, ",\"description\":"@) {
                                Option::None => Option::None,
                                Option::Some(i7) => match parse_codes(s, i7) {
                                    Option::None => Option::None,
                                    Option::Some((description, i8)) => parse_summer_tail(
                                        s,
                                        i8,
                                        url,
                                        main_image,
                                        name,
                                        description,
                                    ),
                                },
                            },
                        },
                    },
                },
            },
        },
    }
}

#[verifier::opaque]
pub open spec fn parse_summer_tail(
    s: Seq<char>,
    i: int,
    url: Seq<char>,
    main_image: Seq<char>,
    name: Seq<char>,
    description: Seq<char>,
) -> Option<(SummerV, int)> {
    match parse_lit(s, i, ",\"author\":"@) {
        Option::None => Option::None,
        Option::Some(i1) => match parse_codes(s, i1) {
            Option::None => Option::None,
            Option::Some((author, i2)) => match parse_lit(s, i2, ",\"followers\":"@) {
                Option::None => Option::None,
                Option::Some(i3) => match parse_num(s, i3) {
                    Option::None => Option::None,
                    Option::Some((followers, i4)) => if followers > u16::MAX {
                        Option::None
                    } else {
                        match parse_lit(s, i4, ",\"time\":"@) {
                            Option::None => Option::None,
                            Option::Some(i5) => match parse_num(s, i5) {
                                Option::None => Option::None,
                                Option::Some((time, i6)) => if time > u32::MAX {
                                    Option::None
                                } else {
                                    parse_summer_tail2(
                                        s,
                                        i6,
                                        SummerV {
                                            url,
                                            main_image,
                                            name,
                                            description,
                                            author,
                                            followers: followers as u16,
                                            time: time as u32,
                                            readme: Option::None,
                                            repo: Option::None,
                                            demo: Option::None,
                                            updates: Seq::empty(),
                                        },
                                    )
                                },
                            },
                        }
                    },
                },
            },
        },
    }
}

#[verifier::opaque]
pub open spec fn parse_summer_tail2(s: Seq<char>, i: int, base: SummerV) -> Option<
    (SummerV, int),
> {
    match parse_lit(s, i, ",\"readme\":"@) {
        Option::None => Option::None,
        Option::Some(i1) => match parse_opt_codes(s, i1) {
            Option::None => Option::None,
            Option::Some((readme, i2)) => match parse_lit(s, i2, ",\"repo\":"@) {
                Option::None => Option::None,
                Option::Some(i3) => match parse_opt_codes(s, i3) {
                    Option::None => Option::None,
                    Option::Some((repo, i4)) => match parse_lit(s, i4, ",\"demo\":"@) {
                        Option::None => Option::None,
                        Option::Some(i5) => match parse_opt_codes(s, i5) {
                            Option::None => Option::None,
                            Option::Some((demo, i6)) => match parse_lit(s, i6, ",\"updates\":"@) {
                                Option::None => Option::None,
                                Option::Some(i7) => match parse_supds(s, i7) {
                                    Option::None => Option::None,
                                    Option::Some((updates, i8)) => match parse_lit(s, i8, "}"@) {
                                        Option::None => Option::None,
                                        Option::Some(i9) => Option::Some(
                                            (
                                                SummerV { readme, repo, demo, updates, ..base },
                                                i9,
                                            ),
                                        ),
                                    },
                                },
                            },
                        },
                    },
                },
            },
        },
    }
}

/// Consume one record, tagged by its schema.
#[verifier::opaque]
pub open spec fn parse_page(s: Seq<char>, i: int) -> Option<(PageV, int)> {
    match parse_lit(s, i, "{\"Journey2025\":"@) {
        Option::Some(i1) => match parse_journey(s, i1) {
            Option::None => Option::None,
            Option::Some((j, i2)) => match parse_lit(s, i2, "}"@) {
                Option::None => Option::None,
                Option::Some(i3) => Option::Some((PageV::Journey2025(j), i3)),
            },
        },
        Option::None => match parse_lit(s, i, "{\"Summer2025\":"@) {
            Option::None => Option::None,
            Option::Some(i1) => match parse_summer(s, i1) {
                Option::None => Option::None,
                Option::Some((v, i2)) => match parse_lit(s, i2, "}"@) {
                    Option::None => Option::None,
                    Option::Some(i3) => Option::Some((PageV::Summer2025(v), i3)),
                },
            },
        },
    }
}

/// Consume one or more comma-separated records and the bracket.
#[verifier::opaque]
pub open spec fn parse_pages_rest(s: Seq<char>, i: int) -> Option<(Seq<PageV>, int)>
    decreases s.len() - i,
{
    match parse_page(s, i) {
        Option::None => Option::None,
        Option::Some((v, i1)) => match parse_lit(s, i1, seq![']']) {
            Option::Some(i2) => Option::Some((seq![v], i2)),
            Option::None => match parse_lit(s, i1, seq![',']) {
                Option::None => Option::None,
                Option::Some(i2) => if i < i2 <= s.len() {
                    match parse_pages_rest(s, i2) {
                        Option::None => Option::None,
                        Option::Some((l, i3)) => Option::Some((seq![v] + l, i3)),
                    }
                } else {
                    Option::None
                },
            },
        },
    }
}

#[verifier::opaque]
pub open spec fn parse_pages(s: Seq<char>, i: int) -> Option<(Seq<PageV>, int)> {
    match parse_lit(s, i, seq!['[']) {
        Option::None => Option::None,
        Option::Some(i1) => match parse_lit(s, i1, seq![']']) {
            Option::Some(i2) => Option::Some((Seq::empty(), i2)),
            Option::None => parse_pages_rest(s, i1),
        },
    }
}

/// Consume one sidecar slot: `null` or a computed-data object.
#[verifier::opaque]
pub open spec fn parse_comp(s: Seq<char>, i: int) -> Option<(Option<ComputedV>, int)> {
    match parse_lit(s, i, "null"@) {
        Option::Some(j) => Option::Some((Option::None, j)),
        Option::None => match parse_lit(s, i, "{\"embedding\":"@) {
            Option::None => Option::None,
            Option::Some(i1) => match parse_nums(s, i1) {
                Option::None => Option::None,
                Option::Some((l, i2)) => match nums_to_u32s(l) {
                    Option::None => Option::None,
                    Option::Some(emb) => match parse_lit(s, i2, ",\"ai_description\":"@) {
                        Option::None => Option::None,
                        Option::Some(i3) => match parse_num(s, i3) {
                            Option::None => Option::None,
                            Option::Some((d, i4)) => if d > u32::MAX {
                                Option::None
                            } else {
                                match parse_lit(s, i4, ",\"ai_code\":"@) {
                                    Option::None => Option::None,
                                    Option::Some(i5) => match parse_num(s, i5) {
                                        Option::None => Option::None,
                                        Option::Some((cc, i6)) => if cc > u32::MAX {
                                            Option::None
                                        } else {
                                            match parse_lit(s, i6, "}"@) {
                                                Option::None => Option::None,
                                                Option::Some(i7) => Option::Some(
                                                    (
                                                        Option::Some(
                                                            ComputedV {
                                                                embedding: emb,
                                                                ai_description: d as u32,
                                                                ai_code: cc as u32,
                                                            },
                                                        ),
                                                        i7,
                                                    ),
                                                ),
                                            }
                                        },
                                    },
                                }
                            },
                        },
                    },
                },
            },
        },
    }
}

/// Consume one or more comma-separated sidecar slots and the bracket.
#[verifier::opaque]
pub open spec fn parse_comps_rest(s: Seq<char>, i: int) -> Option<(Seq<Option<ComputedV>>, int)>
    decreases s.len() - i,
{
    match parse_comp(s, i) {
        Option::None => Option::None,
        Option::Some((v, i1)) => match parse_lit(s, i1, seq![']']) {
            Option::Some(i2) => Option::Some((seq![v], i2)),
            Option::None => match parse_lit(s, i1, seq![',']) {
                Option::None => Option::None,
                Option::Some(i2) => if i < i2 <= s.len() {
                    match parse_comps_rest(s, i2) {
                        Option::None => Option::None,
                        Option::Some((l, i3)) => Option::Some((seq![v] + l, i3)),
                    }
                } else {
                    Option::None
                },
            },
        },
    }
}

#[verifier::opaque]
pub open spec fn parse_comps(s: Seq<char>, i: int) -> Option<(Seq<Option<ComputedV>>, int)> {
    match parse_lit(s, i, seq!['[']) {
        Option::None => Option::None,
        Option::Some(i1) => match parse_lit(s, i1, seq![']']) {
            Option::Some(i2) => Option::Some((Seq::empty(), i2)),
            Option::None => parse_comps_rest(s, i1),
        },
    }
}

/// Parse a whole snapshot document: the record list, the sidecar list
/// and the recorded length, which must agree with the list.
#[verifier::opaque]
pub open spec fn parse_store(s: Seq<char>) -> Option<(Seq<PageV>, Seq<Option<ComputedV>>)> {
    match parse_lit(s, 0, "{\"raw_text\":"@) {
        Option::None => Option::None,
        Option::Some(i1) => match parse_pages(s, i1) {
            Option::None => Option::None,
            Option::Some((recs, i2)) => match parse_lit(s, i2, ",\"processed\":"@) {
                Option::None => Option::None,
                Option::Some(i3) => match parse_comps(s, i3) {
                    Option::None => Option::None,
                    Option::Some((comps, i4)) => match parse_lit(s, i4, ",\"length\":"@) {
                        Option::None => Option::None,
                        Option::Some(i5) => match parse_num(s, i5) {
                            Option::None => Option::None,
                            Option::Some((n, i6)) => match parse_lit(s, i6, "}"@) {
                                Option::None => Option::None,
                                Option::Some(i7) => if i7 == s.len() && n as int == recs.len() {
                                    Option::Some((recs, comps))
                                } else {
                                    Option::None
                                },
                            },
                        },
                    },
                },
            },
        },
    }
}

/// One oversized number spoils the whole conversion.
pub proof fn lemma_nums_to_u32s_none(l: Seq<u64>, m: int)
    requires
        0 <= m < l.len(),
        l[m] > u32::MAX,
    ensures
        nums_to_u32s(l) is None,
    decreases l.len(),
{
    reveal(nums_to_u32s);
    if m == l.len() - 1 {
    } else {
        assert(l.drop_last()[m] == l[m]);
        lemma_nums_to_u32s_none(l.drop_last(), m);
    }
}

// ---------------------------------------------------------------
// Round trip: a parse of an encoding returns what was encoded
// ---------------------------------------------------------------
proof fn lemma_parse_lit_at(s: Seq<char>, pre: Seq<char>, lit: Seq<char>, post: Seq<char>)
    requires
        s == pre + lit + post,
    ensures
        parse_lit(s, pre.len() as int, lit) == Option::Some(pre.len() + lit.len() as int),
{
    assert(s.subrange(pre.len() as int, pre.len() + lit.len() as int) =~= lit);
}

pub proof fn lemma_digits_run_is(s: Seq<char>, i: int, r: int)
    requires
        0 <= i,
        0 <= r,
        i + r <= s.len(),
        forall|m: int| i <= m < i + r ==> is_digit(s[m]),
        i + r == s.len() || !is_digit(s[i + r]),
    ensures
        digits_run(s, i) == r,
    decreases r,
{
    reveal(digits_run);
    if r == 0 {
    } else {
        assert(is_digit(s[i]));
        lemma_digits_run_is(s, i + 1, r - 1);
    }
}

proof fn lemma_rt_num(s: Seq<char>, pre: Seq<char>, n: u64, post: Seq<char>)
    requires
        s == pre + dec_str_of(n as nat) + post,
        post.len() > 0,
        !is_digit(post[0]),
    ensures
        parse_num(s, pre.len() as int) == Option::Some(
            (n, pre.len() + dec_str_of(n as nat).len() as int),
        ),
{
    reveal(parse_num);
    let d = dec_str_of(n as nat);
    let i = pre.len() as int;
    lemma_dec_str_val(n as nat);
    lemma_dec_len_u64(n);
    assert(forall|m: int| i <= m < i + d.len() ==> s[m] == d[m - i]);
    assert(s[i + d.len()] == post[0]);
    lemma_digits_run_is(s, i, d.len() as int);
    assert(s.subrange(i, i + d.len()) =~= d);
}

#[verifier::rlimit(100)]
proof fn lemma_rt_num_rest(s: Seq<char>, pre: Seq<char>, l: Seq<u64>, idx: int, post: Seq<char>)
    requires
        0 <= idx < l.len(),
        s == pre + enc_num_items(l, idx) + seq![']'] + post,
    ensures
        parse_num_rest(s, pre.len() as int) == Option::Some(
            (l.skip(idx), pre.len() + enc_num_items(l, idx).len() + 1int),
        ),
    decreases l.len() - idx,
{
    reveal(parse_num_rest);
    let i = pre.len() as int;
    let d = dec_str_of(l[idx] as nat);
    if idx == l.len() - 1 {
        assert(enc_num_items(l, idx) == d);
        assert(s =~= pre + d + (seq![']'] + post));
        lemma_rt_num(s, pre, l[idx], seq![']'] + post);
        lemma_parse_lit_at(s, pre + d, seq![']'], post);
        assert((pre + d).len() == i + d.len());
        assert(l.skip(idx) =~= seq![l[idx]]);
    } else {
        let tail = enc_num_items(l, idx + 1);
        assert(enc_num_items(l, idx) == d + seq![','] + tail);
        assert(s =~= pre + d + (seq![','] + tail + seq![']'] + post));
        lemma_rt_num(s, pre, l[idx], seq![','] + tail + seq![']'] + post);
        let i1 = i + d.len();
        assert(s[i1] == ',');
        // the closing bracket cannot match here
        assert(parse_lit(s, i1, seq![']']) is None) by {
            if parse_lit(s, i1, seq![']']) is Some {
                assert(s.subrange(i1, i1 + 1) == seq![']']);
                assert(s.subrange(i1, i1 + 1)[0] == s[i1]);
            }
        }
        assert(s =~= (pre + d) + seq![','] + (tail + seq![']'] + post));
        lemma_parse_lit_at(s, pre + d, seq![','], tail + seq![']'] + post);
        let i2 = i1 + 1;
        assert(s =~= (pre + d + seq![',']) + tail + seq![']'] + post);
        lemma_rt_num_rest(s, pre + d + seq![','], l, idx + 1, post);
        assert((pre + d + seq![',']).len() == i2);
        assert(seq![l[idx]] + l.skip(idx + 1) =~= l.skip(idx));
    }
}

#[verifier::rlimit(100)]
proof fn lemma_rt_nums(s: Seq<char>, pre: Seq<char>, l: Seq<u64>, post: Seq<char>)
    requires
        s == pre + enc_nums(l) + post,
    ensures
        parse_nums(s, pre.len() as int) == Option::Some((l, pre.len() + enc_nums(l).len() as int)),
{
    reveal(parse_nums);
    reveal(enc_nums);
    let i = pre.len() as int;
    assert(s =~= pre + seq!['['] + (enc_num_items(l, 0) + seq![']'] + post));
    lemma_parse_lit_at(s, pre, seq!['['], enc_num_items(l, 0) + seq![']'] + post);
    let i1 = i + 1;
    if l.len() == 0 {
        assert(enc_num_items(l, 0) =~= Seq::<char>::empty());
        assert(s =~= (pre + seq!['[']) + seq![']'] + post);
        lemma_parse_lit_at(s, pre + seq!['['], seq![']'], post);
        assert(enc_nums(l).len() == 2);
    } else {
        // a digit sits at i1, so the closing bracket cannot match
        lemma_dec_str_val(l[0] as nat);
        assert(enc_num_items(l, 0)[0] == dec_str_of(l[0] as nat)[0]);
        assert(s[i1] == enc_num_items(l, 0)[0]);
        assert(is_digit(s[i1]));
        assert(parse_lit(s, i1, seq![']']) is None) by {
            if parse_lit(s, i1, seq![']']) is Some {
                assert(s.subrange(i1, i1 + 1) == seq![']']);
                assert(s.subrange(i1, i1 + 1)[0] == s[i1]);
                assert(!is_digit(']'));
            }
        }
        assert(s =~= (pre + seq!['[']) + enc_num_items(l, 0) + seq![']'] + post);
        lemma_rt_num_rest(s, pre + seq!['['], l, 0, post);
        assert(l.skip(0) =~= l);
    }
}

proof fn lemma_chars_codes_rt(cs: Seq<char>)
    ensures
        chars_of_codes(codes_of(cs)) == Option::Some(cs),
    decreases cs.len(),
{
    reveal(chars_of_codes);
    reveal(char_of_code);
    let l = codes_of(cs);
    if cs.len() == 0 {
        assert(l.len() == 0);
        assert(chars_of_codes(l) == Option::Some(Seq::<char>::empty()));
        assert(Seq::<char>::empty() =~= cs);
    } else {
        assert(codes_of(cs.drop_last()) =~= l.drop_last());
        lemma_chars_codes_rt(cs.drop_last());
        let c = cs.last();
        vstd::utf8::char_is_scalar(c);
        assert(l.last() == (c as u32) as u64);
        vstd::utf8::char_u32_cast(c, c as u32);
        assert(char_of_code(l.last()) == Option::Some(c));
        assert(cs.drop_last().push(c) =~= cs);
    }
}

proof fn lemma_rt_codes(s: Seq<char>, pre: Seq<char>, cs: Seq<char>, post: Seq<char>)
    requires
        s == pre + enc_codes(cs) + post,
    ensures
        parse_codes(s, pre.len() as int) == Option::Some((cs, pre.len() + enc_codes(cs).len() as int)),
{
    reveal(parse_codes);
    reveal(enc_codes);
    lemma_rt_nums(s, pre, codes_of(cs), post);
    lemma_chars_codes_rt(cs);
}

proof fn lemma_rt_opt_codes(s: Seq<char>, pre: Seq<char>, o: Option<Seq<char>>, post: Seq<char>)
    requires
        s == pre + enc_opt_codes(o) + post,
    ensures
        parse_opt_codes(s, pre.len() as int) == Option::Some(
            (o, pre.len() + enc_opt_codes(o).len() as int),
        ),
{
    reveal(parse_opt_codes);
    reveal(enc_opt_codes);
    let i = pre.len() as int;
    match o {
        Option::None => {
            lemma_parse_lit_at(s, pre, "null"@, post);
        },
        Option::Some(cs) => {
            lemma_enc_codes_first(cs);
            proof_null_mismatch(s, pre, enc_codes(cs), post);
            lemma_rt_codes(s, pre, cs, post);
        },
    }
}

/// A region that starts with a bracket or brace is not `null`.
proof fn proof_null_mismatch(s: Seq<char>, pre: Seq<char>, region: Seq<char>, post: Seq<char>)
    requires
        s == pre + region + post,
        region.len() > 0,
        region[0] == '[' || region[0] == '{',
    ensures
        parse_lit(s, pre.len() as int, "null"@) is None,
{
    reveal_strlit("null");
    let i = pre.len() as int;
    assert(s[i] == region[0]);
    if parse_lit(s, i, "null"@) is Some {
        assert(s.subrange(i, i + "null"@.len()) == "null"@);
        assert(s.subrange(i, i + "null"@.len())[0] == s[i]);
        assert("null"@[0] == 'n');
    }
}

pub(crate) proof fn seq_assoc(a: Seq<char>, b: Seq<char>, c: Seq<char>)
    ensures
        (a + b) + c == a + (b + c),
{
    assert((a + b) + c =~= a + (b + c));
}

/// Every text encoding opens with a bracket.
proof fn lemma_enc_codes_first(cs: Seq<char>)
    ensures
        enc_codes(cs).len() > 0,
        enc_codes(cs)[0] == '[',
{
    reveal(enc_codes);
    reveal(enc_nums);
}

proof fn lemma_enc_jupd_first(u: JourneyUpdateV)
    ensures
        enc_jupd(u).len() > 0,
        enc_jupd(u)[0] == '{',
{
    reveal(enc_jupd);
    reveal_strlit("{\"time\":");
    assert("{\"time\":"@[0] == '{');
    assert(enc_jupd(u)[0] == "{\"time\":"@[0]);
}

proof fn lemma_enc_supd_first(u: SummerUpdateV)
    ensures
        enc_supd(u).len() > 0,
        enc_supd(u)[0] == '{',
{
    reveal(enc_supd);
    reveal_strlit("{\"time\":");
    assert("{\"time\":"@[0] == '{');
    assert(enc_supd(u)[0] == "{\"time\":"@[0]);
}

#[verifier::rlimit(100)]
#[verifier::spinoff_prover]
proof fn lemma_rt_css_rest(s: Seq<char>, pre: Seq<char>, l: Seq<Seq<char>>, idx: int, post: Seq<char>)
    requires
        0 <= idx < l.len(),
        s == pre + enc_css_items(l, idx) + seq![']'] + post,
    ensures
        parse_css_rest(s, pre.len() as int) == Option::Some(
            (l.skip(idx), pre.len() + enc_css_items(l, idx).len() + 1int),
        ),
    decreases l.len() - idx,
{
    reveal(parse_css_rest);
    let i = pre.len() as int;
    let e = enc_codes(l[idx]);
    let cm = seq![','];
    let br = seq![']'];
    if idx == l.len() - 1 {
        assert(enc_css_items(l, idx) == e);
        seq_assoc(pre + e, br, post);
        assert(s == (pre + e) + (br + post));
        lemma_rt_codes(s, pre, l[idx], br + post);
        lemma_parse_lit_at(s, pre + e, br, post);
        assert(l.skip(idx) =~= seq![l[idx]]);
    } else {
        let tail = enc_css_items(l, idx + 1);
        assert(enc_css_items(l, idx) == e + cm + tail);
        seq_assoc(pre, e + cm, tail);
        seq_assoc(pre, e, cm);
        assert(pre + (e + cm + tail) == ((pre + e) + cm) + tail);
        assert(s == (((pre + e) + cm) + tail) + br + post);
        seq_assoc((pre + e) + cm, tail, br);
        seq_assoc((pre + e) + cm, tail + br, post);
        assert(s == ((pre + e) + cm) + ((tail + br) + post));
        seq_assoc(pre + e, cm, (tail + br) + post);
        assert(s == (pre + e) + (cm + ((tail + br) + post)));
        lemma_rt_codes(s, pre, l[idx], cm + ((tail + br) + post));
        let i1 = i + e.len();
        assert(s[i1] == (cm + ((tail + br) + post))[0]);
        assert(s[i1] == ',');
        assert(parse_lit(s, i1, br) is None) by {
            if parse_lit(s, i1, br) is Some {
                assert(s.subrange(i1, i1 + 1) == br);
                assert(s.subrange(i1, i1 + 1)[0] == s[i1]);
            }
        }
        lemma_parse_lit_at(s, pre + e, cm, (tail + br) + post);
        assert(s == (((pre + e) + cm) + tail) + br + post) by {
            seq_assoc((pre + e) + cm, tail + br, post);
            seq_assoc((pre + e) + cm, tail, br);
        }
        lemma_rt_css_rest(s, ((pre + e) + cm), l, idx + 1, post);
        assert(seq![l[idx]] + l.skip(idx + 1) =~= l.skip(idx));
    }
}

proof fn lemma_rt_css(s: Seq<char>, pre: Seq<char>, l: Seq<Seq<char>>, post: Seq<char>)
    requires
        s == pre + enc_css(l) + post,
    ensures
        parse_css(s, pre.len() as int) == Option::Some((l, pre.len() + enc_css(l).len() as int)),
{
    reveal(parse_css);
    reveal(enc_css);
    let i = pre.len() as int;
    assert(s =~= pre + seq!['['] + (enc_css_items(l, 0) + seq![']'] + post));
    lemma_parse_lit_at(s, pre, seq!['['], enc_css_items(l, 0) + seq![']'] + post);
    let i1 = i + 1;
    if l.len() == 0 {
        assert(enc_css_items(l, 0) =~= Seq::<char>::empty());
        assert(s =~= (pre + seq!['[']) + seq![']'] + post);
        lemma_parse_lit_at(s, pre + seq!['['], seq![']'], post);
    } else {
        lemma_enc_codes_first(l[0]);
        assert(enc_css_items(l, 0)[0] == enc_codes(l[0])[0]);
        assert(s[i1] == '[');
        assert(parse_lit(s, i1, seq![']']) is None) by {
            if parse_lit(s, i1, seq![']']) is Some {
                assert(s.subrange(i1, i1 + 1) == seq![']']);
                assert(s.subrange(i1, i1 + 1)[0] == s[i1]);
            }
        }
        assert(s =~= (pre + seq!['[']) + enc_css_items(l, 0) + seq![']'] + post);
        lemma_rt_css_rest(s, pre + seq!['['], l, 0, post);
        assert(l.skip(0) =~= l);
    }
}

#[verifier::rlimit(100)]
proof fn lemma_rt_jupd(s: Seq<char>, pre: Seq<char>, u: JourneyUpdateV, post: Seq<char>)
    requires
        s == pre + enc_jupd(u) + post,
    ensures
        parse_jupd(s, pre.len() as int) == Option::Some((u, pre.len() + enc_jupd(u).len() as int)),
{
    reveal(parse_jupd);
    reveal(enc_jupd);
    let l1 = "{\"time\":"@;
    let e1 = enc_codes(u.time);
    let l2 = ",\"message\":"@;
    let e2 = enc_codes(u.message);
    let l3 = ",\"attatchments\":"@;
    let e3 = enc_css(u.attatchments);
    let l4 = "}"@;
    let r7 = l4 + post;
    let r6 = e3 + r7;
    let r5 = l3 + r6;
    let r4 = e2 + r5;
    let r3 = l2 + r4;
    let r2 = e1 + r3;
    assert(s == pre + (l1 + r2)) by {
        assert(enc_jupd(u) == l1 + e1 + l2 + e2 + l3 + e3 + l4);
        seq_assoc(pre, l1 + e1 + l2 + e2 + l3 + e3, l4);
        seq_assoc(pre, l1 + e1 + l2 + e2 + l3, e3);
        seq_assoc(pre, l1 + e1 + l2 + e2, l3);
        seq_assoc(pre, l1 + e1 + l2, e2);
        seq_assoc(pre, l1 + e1, l2);
        seq_assoc(pre, l1, e1);
        seq_assoc((pre + l1) + e1, l2 + e2, l3);
        seq_assoc(pre + l1, e1, l2);
        seq_assoc((pre + l1) + e1, l2, e2);
        seq_assoc(((((pre + l1) + e1) + l2) + e2) + l3, e3, r7);
        seq_assoc((((pre + l1) + e1) + l2) + e2, l3, r6);
        seq_assoc(((pre + l1) + e1) + l2, e2, r5);
        seq_assoc((pre + l1) + e1, l2, r4);
        seq_assoc(pre + l1, e1, r3);
        seq_assoc(pre, l1, r2);
        assert(s =~= pre + (l1 + r2));
    }
    seq_assoc(pre, l1, r2);
    lemma_parse_lit_at(s, pre, l1, r2);
    let p1 = pre + l1;
    seq_assoc(p1, e1, r3);
    assert(s == (p1 + e1) + r3);
    lemma_rt_codes(s, p1, u.time, r3);
    let p2 = p1 + e1;
    seq_assoc(p2, l2, r4);
    assert(s == (p2 + l2) + r4);
    lemma_parse_lit_at(s, p2, l2, r4);
    let p3 = p2 + l2;
    seq_assoc(p3, e2, r5);
    assert(s == (p3 + e2) + r5);
    lemma_rt_codes(s, p3, u.message, r5);
    let p4 = p3 + e2;
    seq_assoc(p4, l3, r6);
    assert(s == (p4 + l3) + r6);
    lemma_parse_lit_at(s, p4, l3, r6);
    let p5 = p4 + l3;
    seq_assoc(p5, e3, r7);
    assert(s == (p5 + e3) + r7);
    lemma_rt_css(s, p5, u.attatchments, r7);
    let p6 = p5 + e3;
    seq_assoc(p6, l4, post);
    assert(s == (p6 + l4) + post);
    lemma_parse_lit_at(s, p6, l4, post);
    assert(JourneyUpdateV { time: u.time, message: u.message, attatchments: u.attatchments } == u);
}

#[verifier::rlimit(100)]
proof fn lemma_rt_supd(s: Seq<char>, pre: Seq<char>, u: SummerUpdateV, post: Seq<char>)
    requires
        s == pre + enc_supd(u) + post,
    ensures
        parse_supd(s, pre.len() as int) == Option::Some((u, pre.len() + enc_supd(u).len() as int)),
{
    reveal(parse_supd);
    reveal(enc_supd);
    let l1 = "{\"time\":"@;
    let e1 = dec_str_of(u.time as nat);
    let l2 = ",\"message\":"@;
    let e2 = enc_codes(u.message);
    let l3 = ",\"image\":"@;
    let e3 = enc_opt_codes(u.image);
    let l4 = "}"@;
    reveal_strlit(",\"message\":");
    let r7 = l4 + post;
    let r6 = e3 + r7;
    let r5 = l3 + r6;
    let r4 = e2 + r5;
    let r3 = l2 + r4;
    let r2 = e1 + r3;
    assert(s == pre + (l1 + r2)) by {
        assert(enc_supd(u) == l1 + e1 + l2 + e2 + l3 + e3 + l4);
        seq_assoc(pre, l1 + e1 + l2 + e2 + l3 + e3, l4);
        seq_assoc(pre, l1 + e1 + l2 + e2 + l3, e3);
        seq_assoc(pre, l1 + e1 + l2 + e2, l3);
        seq_assoc(pre, l1 + e1 + l2, e2);
        seq_assoc(pre, l1 + e1, l2);
        seq_assoc(pre, l1, e1);
        seq_assoc(((((pre + l1) + e1) + l2) + e2) + l3, e3, r7);
        seq_assoc((((pre + l1) + e1) + l2) + e2, l3, r6);
        seq_assoc(((pre + l1) + e1) + l2, e2, r5);
        seq_assoc((pre + l1) + e1, l2, r4);
        seq_assoc(pre + l1, e1, r3);
        seq_assoc(pre, l1, r2);
        assert(s =~= pre + (l1 + r2));
    }
    seq_assoc(pre, l1, r2);
    lemma_parse_lit_at(s, pre, l1, r2);
    let p1 = pre + l1;
    seq_assoc(p1, e1, r3);
    assert(s == (p1 + e1) + r3);
    assert(r3[0] == ',');
    lemma_rt_num(s, p1, u.time as u64, r3);
    let p2 = p1 + e1;
    seq_assoc(p2, l2, r4);
    assert(s == (p2 + l2) + r4);
    lemma_parse_lit_at(s, p2, l2, r4);
    let p3 = p2 + l2;
    seq_assoc(p3, e2, r5);
    assert(s == (p3 + e2) + r5);
    lemma_rt_codes(s, p3, u.message, r5);
    let p4 = p3 + e2;
    seq_assoc(p4, l3, r6);
    assert(s == (p4 + l3) + r6);
    lemma_parse_lit_at(s, p4, l3, r6);
    let p5 = p4 + l3;
    seq_assoc(p5, e3, r7);
    assert(s == (p5 + e3) + r7);
    lemma_rt_opt_codes(s, p5, u.image, r7);
    let p6 = p5 + e3;
    seq_assoc(p6, l4, post);
    assert(s == (p6 + l4) + post);
    lemma_parse_lit_at(s, p6, l4, post);
    assert(SummerUpdateV { time: u.time, message: u.message, image: u.image } == u);
}

#[verifier::rlimit(100)]
proof fn lemma_rt_jupds_rest(
    s: Seq<char>,
    pre: Seq<char>,
    l: Seq<JourneyUpdateV>,
    idx: int,
    post: Seq<char>,
)
    requires
        0 <= idx < l.len(),
        s == pre + enc_jupd_items(l, idx) + seq![']'] + post,
    ensures
        parse_jupds_rest(s, pre.len() as int) == Option::Some(
            (l.skip(idx), pre.len() + enc_jupd_items(l, idx).len() + 1int),
        ),
    decreases l.len() - idx,
{
    reveal(parse_jupds_rest);
    let i = pre.len() as int;
    let e = enc_jupd(l[idx]);
    let cm = seq![','];
    let br = seq![']'];
    if idx == l.len() - 1 {
        assert(enc_jupd_items(l, idx) == e);
        seq_assoc(pre + e, br, post);
        assert(s == (pre + e) + (br + post));
        lemma_rt_jupd(s, pre, l[idx], br + post);
        lemma_parse_lit_at(s, pre + e, br, post);
        assert(l.skip(idx) =~= seq![l[idx]]);
    } else {
        let tail = enc_jupd_items(l, idx + 1);
        assert(enc_jupd_items(l, idx) == e + cm + tail);
        // regroup the document around each component in turn
        seq_assoc(pre, e + cm, tail);
        seq_assoc(pre, e, cm);
        assert(pre + (e + cm + tail) == ((pre + e) + cm) + tail);
        assert(s == (((pre + e) + cm) + tail) + br + post);
        seq_assoc((pre + e) + cm, tail, br);
        seq_assoc((pre + e) + cm, tail + br, post);
        assert(s == ((pre + e) + cm) + ((tail + br) + post));
        seq_assoc(pre + e, cm, (tail + br) + post);
        assert(s == (pre + e) + (cm + ((tail + br) + post)));
        lemma_rt_jupd(s, pre, l[idx], cm + ((tail + br) + post));
        let i1 = i + e.len();
        assert(s[i1] == (cm + ((tail + br) + post))[0]);
        assert(s[i1] == ',');
        assert(parse_lit(s, i1, br) is None) by {
            if parse_lit(s, i1, br) is Some {
                assert(s.subrange(i1, i1 + 1) == br);
                assert(s.subrange(i1, i1 + 1)[0] == s[i1]);
            }
        }
        lemma_parse_lit_at(s, pre + e, cm, (tail + br) + post);
        assert(s == (((pre + e) + cm) + tail) + br + post) by {
            seq_assoc((pre + e) + cm, tail + br, post);
            seq_assoc((pre + e) + cm, tail, br);
        }
        lemma_rt_jupds_rest(s, ((pre + e) + cm), l, idx + 1, post);
        assert(seq![l[idx]] + l.skip(idx + 1) =~= l.skip(idx));
    }
}

#[verifier::rlimit(100)]
proof fn lemma_rt_jupds(s: Seq<char>, pre: Seq<char>, l: Seq<JourneyUpdateV>, post: Seq<char>)
    requires
        s == pre + enc_jupds(l) + post,
    ensures
        parse_jupds(s, pre.len() as int) == Option::Some(
            (l, pre.len() + enc_jupds(l).len() as int),
        ),
{
    reveal(parse_jupds);
    reveal(enc_jupds);
    let i = pre.len() as int;
    assert(s =~= pre + seq!['['] + (enc_jupd_items(l, 0) + seq![']'] + post));
    lemma_parse_lit_at(s, pre, seq!['['], enc_jupd_items(l, 0) + seq![']'] + post);
    let i1 = i + 1;
    if l.len() == 0 {
        assert(enc_jupd_items(l, 0) =~= Seq::<char>::empty());
        assert(s =~= (pre + seq!['[']) + seq![']'] + post);
        lemma_parse_lit_at(s, pre + seq!['['], seq![']'], post);
    } else {
        lemma_enc_jupd_first(l[0]);
        assert(enc_jupd_items(l, 0)[0] == enc_jupd(l[0])[0]);
        assert(s[i1] == '{');
        assert(parse_lit(s, i1, seq![']']) is None) by {
            if parse_lit(s, i1, seq![']']) is Some {
                assert(s.subrange(i1, i1 + 1) == seq![']']);
                assert(s.subrange(i1, i1 + 1)[0] == s[i1]);
            }
        }
        assert(s =~= (pre + seq!['[']) + enc_jupd_items(l, 0) + seq![']'] + post);
        lemma_rt_jupds_rest(s, pre + seq!['['], l, 0, post);
        assert(l.skip(0) =~= l);
    }
}

#[verifier::rlimit(100)]
proof fn lemma_rt_supds_rest(
    s: Seq<char>,
    pre: Seq<char>,
    l: Seq<SummerUpdateV>,
    idx: int,
    post: Seq<char>,
)
    requires
        0 <= idx < l.len(),
        s == pre + enc_supd_items(l, idx) + seq![']'] + post,
    ensures
        parse_supds_rest(s, pre.len() as int) == Option::Some(
            (l.skip(idx), pre.len() + enc_supd_items(l, idx).len() + 1int),
        ),
    decreases l.len() - idx,
{
    reveal(parse_supds_rest);
    let i = pre.len() as int;
    let e = enc_supd(l[idx]);
    let cm = seq![','];
    let br = seq![']'];
    if idx == l.len() - 1 {
        assert(enc_supd_items(l, idx) == e);
        seq_assoc(pre + e, br, post);
        assert(s == (pre + e) + (br + post));
        lemma_rt_supd(s, pre, l[idx], br + post);
        lemma_parse_lit_at(s, pre + e, br, post);
        assert(l.skip(idx) =~= seq![l[idx]]);
    } else {
        let tail = enc_supd_items(l, idx + 1);
        assert(enc_supd_items(l, idx) == e + cm + tail);
        // regroup the document around each component in turn
        seq_assoc(pre, e + cm, tail);
        seq_assoc(pre, e, cm);
        assert(pre + (e + cm + tail) == ((pre + e) + cm) + tail);
        assert(s == (((pre + e) + cm) + tail) + br + post);
        seq_assoc((pre + e) + cm, tail, br);
        seq_assoc((pre + e) + cm, tail + br, post);
        assert(s == ((pre + e) + cm) + ((tail + br) + post));
        seq_assoc(pre + e, cm, (tail + br) + post);
        assert(s == (pre + e) + (cm + ((tail + br) + post)));
        lemma_rt_supd(s, pre, l[idx], cm + ((tail + br) + post));
        let i1 = i + e.len();
        assert(s[i1] == (cm + ((tail + br) + post))[0]);
        assert(s[i1] == ',');
        assert(parse_lit(s, i1, br) is None) by {
            if parse_lit(s, i1, br) is Some {
                assert(s.subrange(i1, i1 + 1) == br);
                assert(s.subrange(i1, i1 + 1)[0] == s[i1]);
            }
        }
        lemma_parse_lit_at(s, pre + e, cm, (tail + br) + post);
        assert(s == (((pre + e) + cm) + tail) + br + post) by {
            seq_assoc((pre + e) + cm, tail + br, post);
            seq_assoc((pre + e) + cm, tail, br);
        }
        lemma_rt_supds_rest(s, ((pre + e) + cm), l, idx + 1, post);
        assert(seq![l[idx]] + l.skip(idx + 1) =~= l.skip(idx));
    }
}

#[verifier::rlimit(100)]
proof fn lemma_rt_supds(s: Seq<char>, pre: Seq<char>, l: Seq<SummerUpdateV>, post: Seq<char>)
    requires
        s == pre + enc_supds(l) + post,
    ensures
        parse_supds(s, pre.len() as int) == Option::Some(
            (l, pre.len() + enc_supds(l).len() as int),
        ),
{
    reveal(parse_supds);
    reveal(enc_supds);
    let i = pre.len() as int;
    assert(s =~= pre + seq!['['] + (enc_supd_items(l, 0) + seq![']'] + post));
    lemma_parse_lit_at(s, pre, seq!['['], enc_supd_items(l, 0) + seq![']'] + post);
    let i1 = i + 1;
    if l.len() == 0 {
        assert(enc_supd_items(l, 0) =~= Seq::<char>::empty());
        assert(s =~= (pre + seq!['[']) + seq![']'] + post);
        lemma_parse_lit_at(s, pre + seq!['['], seq![']'], post);
    } else {
        lemma_enc_supd_first(l[0]);
        assert(enc_supd_items(l, 0)[0] == enc_supd(l[0])[0]);
        assert(s[i1] == '{');
        assert(parse_lit(s, i1, seq![']']) is None) by {
            if parse_lit(s, i1, seq![']']) is Some {
                assert(s.subrange(i1, i1 + 1) == seq![']']);
                assert(s.subrange(i1, i1 + 1)[0] == s[i1]);
            }
        }
        assert(s =~= (pre + seq!['[']) + enc_supd_items(l, 0) + seq![']'] + post);
        lemma_rt_supds_rest(s, pre + seq!['['], l, 0, post);
        assert(l.skip(0) =~= l);
    }
}

proof fn lemma_rt_u32s(l: Seq<u32>)
    ensures
        nums_to_u32s(l.map_values(|x: u32| x as u64)) == Option::Some(l),
    decreases l.len(),
{
    reveal(nums_to_u32s);
    let m = l.map_values(|x: u32| x as u64);
    if l.len() == 0 {
        assert(m.len() == 0);
        assert(nums_to_u32s(m) == Option::Some(Seq::<u32>::empty()));
        assert(Seq::<u32>::empty() =~= l);
    } else {
        assert(l.drop_last().map_values(|x: u32| x as u64) =~= m.drop_last());
        lemma_rt_u32s(l.drop_last());
        assert(m.last() == l.last() as u64);
        assert(l.drop_last().push(l.last()) =~= l);
    }
}

proof fn lemma_enc_summer_tail2_first(v: SummerV)
    ensures
        enc_summer_tail2(v).len() > 0,
        enc_summer_tail2(v)[0] == ',',
        !is_digit(enc_summer_tail2(v)[0]),
{
    reveal(enc_summer_tail2);
    reveal_strlit(",\"readme\":");
    assert(enc_summer_tail2(v)[0] == ",\"readme\":"@[0]);
}

proof fn lemma_enc_journey_tail2_first(j: JourneyV)
    ensures
        enc_journey_tail2(j).len() > 0,
        enc_journey_tail2(j)[0] == ',',
        !is_digit(enc_journey_tail2(j)[0]),
{
    reveal(enc_journey_tail2);
    reveal_strlit(",\"readme\":");
    assert(enc_journey_tail2(j)[0] == ",\"readme\":"@[0]);
}

#[verifier::rlimit(100)]
proof fn lemma_rt_journey_tail2(s: Seq<char>, pre: Seq<char>, j: JourneyV, base: JourneyV, post: Seq<char>)
    requires
        s == pre + enc_journey_tail2(j) + post,
        base.id == j.id,
        base.main_image == j.main_image,
        base.name == j.name,
        base.description == j.description,
        base.author == j.author,
        base.followers == j.followers,
        base.stonks == j.stonks,
        base.time == j.time,
    ensures
        parse_journey_tail2(s, pre.len() as int, base) == Option::Some(
            (j, pre.len() + enc_journey_tail2(j).len() as int),
        ),
{
    reveal(parse_journey_tail2);
    reveal(enc_journey_tail2);
    let l1 = ",\"readme\":"@;
    let o1 = enc_opt_codes(j.readme);
    let l2 = ",\"repo\":"@;
    let o2 = enc_opt_codes(j.repo);
    let l3 = ",\"demo\":"@;
    let o3 = enc_opt_codes(j.demo);
    let l4 = ",\"updates\":"@;
    let uu = enc_jupds(j.updates);
    let l5 = "}"@;
    let r9 = l5 + post;
    let r8 = uu + r9;
    let r7 = l4 + r8;
    let r6 = o3 + r7;
    let r5 = l3 + r6;
    let r4 = o2 + r5;
    let r3 = l2 + r4;
    let r2 = o1 + r3;
    assert(s == pre + (l1 + r2)) by {
        assert(s =~= pre + (l1 + r2));
    }
    seq_assoc(pre, l1, r2);
    lemma_parse_lit_at(s, pre, l1, r2);
    let p1 = pre + l1;
    seq_assoc(p1, o1, r3);
    assert(s == (p1 + o1) + r3);
    lemma_rt_opt_codes(s, p1, j.readme, r3);
    let p2 = p1 + o1;
    seq_assoc(p2, l2, r4);
    assert(s == (p2 + l2) + r4);
    lemma_parse_lit_at(s, p2, l2, r4);
    let p3 = p2 + l2;
    seq_assoc(p3, o2, r5);
    assert(s == (p3 + o2) + r5);
    lemma_rt_opt_codes(s, p3, j.repo, r5);
    let p4 = p3 + o2;
    seq_assoc(p4, l3, r6);
    assert(s == (p4 + l3) + r6);
    lemma_parse_lit_at(s, p4, l3, r6);
    let p5 = p4 + l3;
    seq_assoc(p5, o3, r7);
    assert(s == (p5 + o3) + r7);
    lemma_rt_opt_codes(s, p5, j.demo, r7);
    let p6 = p5 + o3;
    seq_assoc(p6, l4, r8);
    assert(s == (p6 + l4) + r8);
    lemma_parse_lit_at(s, p6, l4, r8);
    let p7 = p6 + l4;
    seq_assoc(p7, uu, r9);
    assert(s == (p7 + uu) + r9);
    lemma_rt_jupds(s, p7, j.updates, r9);
    let p8 = p7 + uu;
    seq_assoc(p8, l5, post);
    assert(s == (p8 + l5) + post);
    lemma_parse_lit_at(s, p8, l5, post);
    assert(JourneyV {
        readme: j.readme,
        repo: j.repo,
        demo: j.demo,
        updates: j.updates,
        ..base
    } == j);
}

#[verifier::rlimit(100)]
proof fn lemma_rt_journey_tail(s: Seq<char>, pre: Seq<char>, j: JourneyV, post: Seq<char>)
    requires
        s == pre + enc_journey_tail(j) + post,
    ensures
        parse_journey_tail(s, pre.len() as int, j.id, j.main_image, j.name, j.description)
            == Option::Some((j, pre.len() + enc_journey_tail(j).len() as int)),
{
    reveal(parse_journey_tail);
    reveal(enc_journey_tail);
    let l1 = ",\"author\":"@;
    let e1 = enc_codes(j.author);
    let l2 = ",\"followers\":"@;
    let n1 = dec_str_of(j.followers as nat);
    let l3 = ",\"stonks\":"@;
    let n2 = dec_str_of(j.stonks as nat);
    let l4 = ",\"time\":"@;
    let e2 = enc_codes(j.time);
    let tl = enc_journey_tail2(j);
    reveal_strlit(",\"stonks\":");
    reveal_strlit(",\"time\":");
    let r8 = tl + post;
    let r7 = e2 + r8;
    let r6 = l4 + r7;
    let r5 = n2 + r6;
    let r4 = l3 + r5;
    let r3 = n1 + r4;
    let r2 = l2 + r3;
    let r1 = e1 + r2;
    assert(s == pre + (l1 + r1)) by {
        assert(s =~= pre + (l1 + r1));
    }
    seq_assoc(pre, l1, r1);
    lemma_parse_lit_at(s, pre, l1, r1);
    let p1 = pre + l1;
    seq_assoc(p1, e1, r2);
    assert(s == (p1 + e1) + r2);
    lemma_rt_codes(s, p1, j.author, r2);
    let p2 = p1 + e1;
    seq_assoc(p2, l2, r3);
    assert(s == (p2 + l2) + r3);
    lemma_parse_lit_at(s, p2, l2, r3);
    let p3 = p2 + l2;
    seq_assoc(p3, n1, r4);
    assert(s == (p3 + n1) + r4);
    assert(r4[0] == ',');
    lemma_rt_num(s, p3, j.followers as u64, r4);
    let p4 = p3 + n1;
    seq_assoc(p4, l3, r5);
    assert(s == (p4 + l3) + r5);
    lemma_parse_lit_at(s, p4, l3, r5);
    let p5 = p4 + l3;
    seq_assoc(p5, n2, r6);
    assert(s == (p5 + n2) + r6);
    assert(r6[0] == ',');
    lemma_rt_num(s, p5, j.stonks as u64, r6);
    let p6 = p5 + n2;
    seq_assoc(p6, l4, r7);
    assert(s == (p6 + l4) + r7);
    lemma_parse_lit_at(s, p6, l4, r7);
    let p7 = p6 + l4;
    seq_assoc(p7, e2, r8);
    assert(s == (p7 + e2) + r8);
    lemma_rt_codes(s, p7, j.time, r8);
    let p8 = p7 + e2;
    seq_assoc(p8, tl, post);
    assert(s == (p8 + tl) + post);
    let base = JourneyV {
        id: j.id,
        main_image: j.main_image,
        name: j.name,
        description: j.description,
        author: j.author,
        followers: j.followers,
        stonks: j.stonks,
        time: j.time,
        readme: Option::None,
        repo: Option::None,
        demo: Option::None,
        updates: Seq::empty(),
    };
    lemma_rt_journey_tail2(s, p8, j, base, post);
}

#[verifier::rlimit(100)]
proof fn lemma_rt_journey(s: Seq<char>, pre: Seq<char>, j: JourneyV, post: Seq<char>)
    requires
        s == pre + enc_journey(j) + post,
    ensures
        parse_journey(s, pre.len() as int) == Option::Some(
            (j, pre.len() + enc_journey(j).len() as int),
        ),
{
    reveal(parse_journey);
    reveal(enc_journey);
    let l1 = "{\"id\":"@;
    let n1 = dec_str_of(j.id as nat);
    let l2 = ",\"main_image\":"@;
    let e1 = enc_codes(j.main_image);
    let l3 = ",\"name\":"@;
    let e2 = enc_codes(j.name);
    let l4 = ",\"description\":"@;
    let e3 = enc_codes(j.description);
    let tl = enc_journey_tail(j);
    reveal_strlit(",\"main_image\":");
    let r8 = tl + post;
    let r7 = e3 + r8;
    let r6 = l4 + r7;
    let r5 = e2 + r6;
    let r4 = l3 + r5;
    let r3 = e1 + r4;
    let r2 = l2 + r3;
    let r1 = n1 + r2;
    assert(s == pre + (l1 + r1)) by {
        assert(s =~= pre + (l1 + r1));
    }
    seq_assoc(pre, l1, r1);
    lemma_parse_lit_at(s, pre, l1, r1);
    let p1 = pre + l1;
    seq_assoc(p1, n1, r2);
    assert(s == (p1 + n1) + r2);
    assert(r2[0] == ',');
    lemma_rt_num(s, p1, j.id as u64, r2);
    let p2 = p1 + n1;
    seq_assoc(p2, l2, r3);
    assert(s == (p2 + l2) + r3);
    lemma_parse_lit_at(s, p2, l2, r3);
    let p3 = p2 + l2;
    seq_assoc(p3, e1, r4);
    assert(s == (p3 + e1) + r4);
    lemma_rt_codes(s, p3, j.main_image, r4);
    let p4 = p3 + e1;
    seq_assoc(p4, l3, r5);
    assert(s == (p4 + l3) + r5);
    lemma_parse_lit_at(s, p4, l3, r5);
    let p5 = p4 + l3;
    seq_assoc(p5, e2, r6);
    assert(s == (p5 + e2) + r6);
    lemma_rt_codes(s, p5, j.name, r6);
    let p6 = p5 + e2;
    seq_assoc(p6, l4, r7);
    assert(s == (p6 + l4) + r7);
    lemma_parse_lit_at(s, p6, l4, r7);
    let p7 = p6 + l4;
    seq_assoc(p7, e3, r8);
    assert(s == (p7 + e3) + r8);
    lemma_rt_codes(s, p7, j.description, r8);
    let p8 = p7 + e3;
    seq_assoc(p8, tl, post);
    assert(s == (p8 + tl) + post);
    lemma_rt_journey_tail(s, p8, j, post);
}

#[verifier::rlimit(100)]
proof fn lemma_rt_summer_tail2(s: Seq<char>, pre: Seq<char>, v: SummerV, base: SummerV, post: Seq<char>)
    requires
        s == pre + enc_summer_tail2(v) + post,
        base.url == v.url,
        base.main_image == v.main_image,
        base.name == v.name,
        base.description == v.description,
        base.author == v.author,
        base.followers == v.followers,
        base.time == v.time,
    ensures
        parse_summer_tail2(s, pre.len() as int, base) == Option::Some(
            (v, pre.len() + enc_summer_tail2(v).len() as int),
        ),
{
    reveal(parse_summer_tail2);
    reveal(enc_summer_tail2);
    let l1 = ",\"readme\":"@;
    let o1 = enc_opt_codes(v.readme);
    let l2 = ",\"repo\":"@;
    let o2 = enc_opt_codes(v.repo);
    let l3 = ",\"demo\":"@;
    let o3 = enc_opt_codes(v.demo);
    let l4 = ",\"updates\":"@;
    let uu = enc_supds(v.updates);
    let l5 = "}"@;
    let r9 = l5 + post;
    let r8 = uu + r9;
    let r7 = l4 + r8;
    let r6 = o3 + r7;
    let r5 = l3 + r6;
    let r4 = o2 + r5;
    let r3 = l2 + r4;
    let r2 = o1 + r3;
    assert(s == pre + (l1 + r2)) by {
        assert(s =~= pre + (l1 + r2));
    }
    seq_assoc(pre, l1, r2);
    lemma_parse_lit_at(s, pre, l1, r2);
    let p1 = pre + l1;
    seq_assoc(p1, o1, r3);
    assert(s == (p1 + o1) + r3);
    lemma_rt_opt_codes(s, p1, v.readme, r3);
    let p2 = p1 + o1;
    seq_assoc(p2, l2, r4);
    assert(s == (p2 + l2) + r4);
    lemma_parse_lit_at(s, p2, l2, r4);
    let p3 = p2 + l2;
    seq_assoc(p3, o2, r5);
    assert(s == (p3 + o2) + r5);
    lemma_rt_opt_codes(s, p3, v.repo, r5);
    let p4 = p3 + o2;
    seq_assoc(p4, l3, r6);
    assert(s == (p4 + l3) + r6);
    lemma_parse_lit_at(s, p4, l3, r6);
    let p5 = p4 + l3;
    seq_assoc(p5, o3, r7);
    assert(s == (p5 + o3) + r7);
    lemma_rt_opt_codes(s, p5, v.demo, r7);
    let p6 = p5 + o3;
    seq_assoc(p6, l4, r8);
    assert(s == (p6 + l4) + r8);
    lemma_parse_lit_at(s, p6, l4, r8);
    let p7 = p6 + l4;
    seq_assoc(p7, uu, r9);
    assert(s == (p7 + uu) + r9);
    lemma_rt_supds(s, p7, v.updates, r9);
    let p8 = p7 + uu;
    seq_assoc(p8, l5, post);
    assert(s == (p8 + l5) + post);
    lemma_parse_lit_at(s, p8, l5, post);
    assert(SummerV {
        readme: v.readme,
        repo: v.repo,
        demo: v.demo,
        updates: v.updates,
        ..base
    } == v);
}

#[verifier::rlimit(100)]
proof fn lemma_rt_summer_tail(s: Seq<char>, pre: Seq<char>, v: SummerV, post: Seq<char>)
    requires
        s == pre + enc_summer_tail(v) + post,
    ensures
        parse_summer_tail(s, pre.len() as int, v.url, v.main_image, v.name, v.description)
            == Option::Some((v, pre.len() + enc_summer_tail(v).len() as int)),
{
    reveal(parse_summer_tail);
    reveal(enc_summer_tail);
    let l1 = ",\"author\":"@;
    let e1 = enc_codes(v.author);
    let l2 = ",\"followers\":"@;
    let n1 = dec_str_of(v.followers as nat);
    let l3 = ",\"time\":"@;
    let n2 = dec_str_of(v.time as nat);
    let tl = enc_summer_tail2(v);
    reveal_strlit(",\"time\":");
    lemma_enc_summer_tail2_first(v);
    let r6 = tl + post;
    let r5 = n2 + r6;
    let r4 = l3 + r5;
    let r3 = n1 + r4;
    let r2 = l2 + r3;
    let r1 = e1 + r2;
    assert(s == pre + (l1 + r1)) by {
        assert(s =~= pre + (l1 + r1));
    }
    seq_assoc(pre, l1, r1);
    lemma_parse_lit_at(s, pre, l1, r1);
    let p1 = pre + l1;
    seq_assoc(p1, e1, r2);
    assert(s == (p1 + e1) + r2);
    lemma_rt_codes(s, p1, v.author, r2);
    let p2 = p1 + e1;
    seq_assoc(p2, l2, r3);
    assert(s == (p2 + l2) + r3);
    lemma_parse_lit_at(s, p2, l2, r3);
    let p3 = p2 + l2;
    seq_assoc(p3, n1, r4);
    assert(s == (p3 + n1) + r4);
    assert(r4[0] == ',');
    lemma_rt_num(s, p3, v.followers as u64, r4);
    let p4 = p3 + n1;
    seq_assoc(p4, l3, r5);
    assert(s == (p4 + l3) + r5);
    lemma_parse_lit_at(s, p4, l3, r5);
    let p5 = p4 + l3;
    seq_assoc(p5, n2, r6);
    assert(s == (p5 + n2) + r6);
    assert(r6[0] == tl[0]);
    lemma_rt_num(s, p5, v.time as u64, r6);
    let p6 = p5 + n2;
    seq_assoc(p6, tl, post);
    assert(s == (p6 + tl) + post);
    let base = SummerV {
        url: v.url,
        main_image: v.main_image,
        name: v.name,
        description: v.description,
        author: v.author,
        followers: v.followers,
        time: v.time,
        readme: Option::None,
        repo: Option::None,
        demo: Option::None,
        updates: Seq::empty(),
    };
    lemma_rt_summer_tail2(s, p6, v, base, post);
}

#[verifier::rlimit(100)]
proof fn lemma_rt_summer(s: Seq<char>, pre: Seq<char>, v: SummerV, post: Seq<char>)
    requires
        s == pre + enc_summer(v) + post,
    ensures
        parse_summer(s, pre.len() as int) == Option::Some(
            (v, pre.len() + enc_summer(v).len() as int),
        ),
{
    reveal(parse_summer);
    reveal(enc_summer);
    let l1 = "{\"url\":"@;
    let e1 = enc_codes(v.url);
    let l2 = ",\"main_image\":"@;
    let e2 = enc_codes(v.main_image);
    let l3 = ",\"name\":"@;
    let e3 = enc_codes(v.name);
    let l4 = ",\"description\":"@;
    let e4 = enc_codes(v.description);
    let tl = enc_summer_tail(v);
    let r8 = tl + post;
    let r7 = e4 + r8;
    let r6 = l4 + r7;
    let r5 = e3 + r6;
    let r4 = l3 + r5;
    let r3 = e2 + r4;
    let r2 = l2 + r3;
    let r1 = e1 + r2;
    assert(s == pre + (l1 + r1)) by {
        assert(s =~= pre + (l1 + r1));
    }
    seq_assoc(pre, l1, r1);
    lemma_parse_lit_at(s, pre, l1, r1);
    let p1 = pre + l1;
    seq_assoc(p1, e1, r2);
    assert(s == (p1 + e1) + r2);
    lemma_rt_codes(s, p1, v.url, r2);
    let p2 = p1 + e1;
    seq_assoc(p2, l2, r3);
    assert(s == (p2 + l2) + r3);
    lemma_parse_lit_at(s, p2, l2, r3);
    let p3 = p2 + l2;
    seq_assoc(p3, e2, r4);
    assert(s == (p3 + e2) + r4);
    lemma_rt_codes(s, p3, v.main_image, r4);
    let p4 = p3 + e2;
    seq_assoc(p4, l3, r5);
    assert(s == (p4 + l3) + r5);
    lemma_parse_lit_at(s, p4, l3, r5);
    let p5 = p4 + l3;
    seq_assoc(p5, e3, r6);
    assert(s == (p5 + e3) + r6);
    lemma_rt_codes(s, p5, v.name, r6);
    let p6 = p5 + e3;
    seq_assoc(p6, l4, r7);
    assert(s == (p6 + l4) + r7);
    lemma_parse_lit_at(s, p6, l4, r7);
    let p7 = p6 + l4;
    seq_assoc(p7, e4, r8);
    assert(s == (p7 + e4) + r8);
    lemma_rt_codes(s, p7, v.description, r8);
    let p8 = p7 + e4;
    seq_assoc(p8, tl, post);
    assert(s == (p8 + tl) + post);
    lemma_rt_summer_tail(s, p8, v, post);
}

proof fn lemma_enc_page_first(p: PageV)
    ensures
        enc_page(p).len() > 0,
        enc_page(p)[0] == '{',
{
    reveal(enc_page);
    reveal_strlit("{\"Journey2025\":");
    reveal_strlit("{\"Summer2025\":");
    match p {
        PageV::Journey2025(j) => {
            assert(enc_page(p)[0] == "{\"Journey2025\":"@[0]);
        },
        PageV::Summer2025(v) => {
            assert(enc_page(p)[0] == "{\"Summer2025\":"@[0]);
        },
    }
}

#[verifier::rlimit(100)]
proof fn lemma_rt_page(s: Seq<char>, pre: Seq<char>, p: PageV, post: Seq<char>)
    requires
        s == pre + enc_page(p) + post,
    ensures
        parse_page(s, pre.len() as int) == Option::Some((p, pre.len() + enc_page(p).len() as int)),
{
    reveal(parse_page);
    reveal(enc_page);
    let i = pre.len() as int;
    let jtag = "{\"Journey2025\":"@;
    let stag = "{\"Summer2025\":"@;
    let cl = "}"@;
    match p {
        PageV::Journey2025(j) => {
            let e = enc_journey(j);
            let r2 = cl + post;
            let r1 = e + r2;
            assert(s == pre + (jtag + r1)) by {
                assert(s =~= pre + (jtag + r1));
            }
            seq_assoc(pre, jtag, r1);
            lemma_parse_lit_at(s, pre, jtag, r1);
            let p1 = pre + jtag;
            seq_assoc(p1, e, r2);
            assert(s == (p1 + e) + r2);
            lemma_rt_journey(s, p1, j, r2);
            let p2 = p1 + e;
            seq_assoc(p2, cl, post);
            assert(s == (p2 + cl) + post);
            lemma_parse_lit_at(s, p2, cl, post);
        },
        PageV::Summer2025(v) => {
            let e = enc_summer(v);
            let r2 = cl + post;
            let r1 = e + r2;
            assert(s == pre + (stag + r1)) by {
                assert(s =~= pre + (stag + r1));
            }
            reveal_strlit("{\"Journey2025\":");
            reveal_strlit("{\"Summer2025\":");
            assert(parse_lit(s, i, jtag) is None) by {
                if parse_lit(s, i, jtag) is Some {
                    assert(s.subrange(i, i + jtag.len() as int) == jtag);
                    assert(s.subrange(i, i + jtag.len() as int)[2] == s[i + 2]);
                    assert(s[i + 2] == (stag + r1)[2]);
                    assert(stag[2] == 'S' && jtag[2] == 'J');
                }
            }
            seq_assoc(pre, stag, r1);
            lemma_parse_lit_at(s, pre, stag, r1);
            let p1 = pre + stag;
            seq_assoc(p1, e, r2);
            assert(s == (p1 + e) + r2);
            lemma_rt_summer(s, p1, v, r2);
            let p2 = p1 + e;
            seq_assoc(p2, cl, post);
            assert(s == (p2 + cl) + post);
            lemma_parse_lit_at(s, p2, cl, post);
        },
    }
}

#[verifier::rlimit(100)]
proof fn lemma_rt_pages_rest(s: Seq<char>, pre: Seq<char>, l: Seq<PageV>, idx: int, post: Seq<char>)
    requires
        0 <= idx < l.len(),
        s == pre + enc_page_items(l, idx) + seq![']'] + post,
    ensures
        parse_pages_rest(s, pre.len() as int) == Option::Some(
            (l.skip(idx), pre.len() + enc_page_items(l, idx).len() + 1int),
        ),
    decreases l.len() - idx,
{
    reveal(parse_pages_rest);
    let i = pre.len() as int;
    let e = enc_page(l[idx]);
    let cm = seq![','];
    let br = seq![']'];
    if idx == l.len() - 1 {
        assert(enc_page_items(l, idx) == e);
        seq_assoc(pre + e, br, post);
        assert(s == (pre + e) + (br + post));
        lemma_rt_page(s, pre, l[idx], br + post);
        lemma_parse_lit_at(s, pre + e, br, post);
        assert(l.skip(idx) =~= seq![l[idx]]);
    } else {
        let tail = enc_page_items(l, idx + 1);
        assert(enc_page_items(l, idx) == e + cm + tail);
        seq_assoc(pre, e + cm, tail);
        seq_assoc(pre, e, cm);
        assert(pre + (e + cm + tail) == ((pre + e) + cm) + tail);
        assert(s == (((pre + e) + cm) + tail) + br + post);
        seq_assoc((pre + e) + cm, tail, br);
        seq_assoc((pre + e) + cm, tail + br, post);
        assert(s == ((pre + e) + cm) + ((tail + br) + post));
        seq_assoc(pre + e, cm, (tail + br) + post);
        assert(s == (pre + e) + (cm + ((tail + br) + post)));
        lemma_rt_page(s, pre, l[idx], cm + ((tail + br) + post));
        let i1 = i + e.len();
        assert(s[i1] == (cm + ((tail + br) + post))[0]);
        assert(s[i1] == ',');
        assert(parse_lit(s, i1, br) is None) by {
            if parse_lit(s, i1, br) is Some {
                assert(s.subrange(i1, i1 + 1) == br);
                assert(s.subrange(i1, i1 + 1)[0] == s[i1]);
            }
        }
        lemma_parse_lit_at(s, pre + e, cm, (tail + br) + post);
        assert(s == (((pre + e) + cm) + tail) + br + post) by {
            seq_assoc((pre + e) + cm, tail + br, post);
            seq_assoc((pre + e) + cm, tail, br);
        }
        lemma_rt_pages_rest(s, ((pre + e) + cm), l, idx + 1, post);
        assert(seq![l[idx]] + l.skip(idx + 1) =~= l.skip(idx));
    }
}

#[verifier::rlimit(100)]
proof fn lemma_rt_pages(s: Seq<char>, pre: Seq<char>, l: Seq<PageV>, post: Seq<char>)
    requires
        s == pre + enc_pages(l) + post,
    ensures
        parse_pages(s, pre.len() as int) == Option::Some(
            (l, pre.len() + enc_pages(l).len() as int),
        ),
{
    reveal(parse_pages);
    reveal(enc_pages);
    let i = pre.len() as int;
    assert(s =~= pre + seq!['['] + (enc_page_items(l, 0) + seq![']'] + post));
    lemma_parse_lit_at(s, pre, seq!['['], enc_page_items(l, 0) + seq![']'] + post);
    let i1 = i + 1;
    if l.len() == 0 {
        assert(enc_page_items(l, 0) =~= Seq::<char>::empty());
        assert(s =~= (pre + seq!['[']) + seq![']'] + post);
        lemma_parse_lit_at(s, pre + seq!['['], seq![']'], post);
    } else {
        lemma_enc_page_first(l[0]);
        assert(enc_page_items(l, 0)[0] == enc_page(l[0])[0]);
        assert(s[i1] == '{');
        assert(parse_lit(s, i1, seq![']']) is None) by {
            if parse_lit(s, i1, seq![']']) is Some {
                assert(s.subrange(i1, i1 + 1) == seq![']']);
                assert(s.subrange(i1, i1 + 1)[0] == s[i1]);
            }
        }
        assert(s =~= (pre + seq!['[']) + enc_page_items(l, 0) + seq![']'] + post);
        lemma_rt_pages_rest(s, pre + seq!['['], l, 0, post);
        assert(l.skip(0) =~= l);
    }
}

proof fn lemma_enc_comp_first(c: Option<ComputedV>)
    ensures
        enc_comp(c).len() > 0,
        enc_comp(c)[0] == 'n' || enc_comp(c)[0] == '{',
{
    reveal(enc_comp);
    reveal_strlit("null");
    reveal_strlit("{\"embedding\":");
    match c {
        Option::None => {
            assert(enc_comp(c)[0] == "null"@[0]);
        },
        Option::Some(cd) => {
            assert(enc_comp(c)[0] == "{\"embedding\":"@[0]);
        },
    }
}

#[verifier::rlimit(100)]
proof fn lemma_rt_comp(s: Seq<char>, pre: Seq<char>, c: Option<ComputedV>, post: Seq<char>)
    requires
        s == pre + enc_comp(c) + post,
    ensures
        parse_comp(s, pre.len() as int) == Option::Some((c, pre.len() + enc_comp(c).len() as int)),
{
    reveal(parse_comp);
    reveal(enc_comp);
    let i = pre.len() as int;
    match c {
        Option::None => {
            lemma_parse_lit_at(s, pre, "null"@, post);
        },
        Option::Some(cd) => {
            let l1 = "{\"embedding\":"@;
            let e1 = enc_nums(cd.embedding.map_values(|x: u32| x as u64));
            let l2 = ",\"ai_description\":"@;
            let n1 = dec_str_of(cd.ai_description as nat);
            let l3 = ",\"ai_code\":"@;
            let n2 = dec_str_of(cd.ai_code as nat);
            let l4 = "}"@;
            reveal_strlit("{\"embedding\":");
            reveal_strlit(",\"ai_code\":");
            reveal_strlit("}");
            let r6 = l4 + post;
            let r5 = n2 + r6;
            let r4 = l3 + r5;
            let r3 = n1 + r4;
            let r2 = l2 + r3;
            let r1 = e1 + r2;
            assert(s == pre + (l1 + r1)) by {
                assert(s =~= pre + (l1 + r1));
            }
            proof_null_mismatch(s, pre, enc_comp(c), post);
            seq_assoc(pre, l1, r1);
            lemma_parse_lit_at(s, pre, l1, r1);
            let p1 = pre + l1;
            seq_assoc(p1, e1, r2);
            assert(s == (p1 + e1) + r2);
            lemma_rt_nums(s, p1, cd.embedding.map_values(|x: u32| x as u64), r2);
            lemma_rt_u32s(cd.embedding);
            let p2 = p1 + e1;
            seq_assoc(p2, l2, r3);
            assert(s == (p2 + l2) + r3);
            lemma_parse_lit_at(s, p2, l2, r3);
            let p3 = p2 + l2;
            seq_assoc(p3, n1, r4);
            assert(s == (p3 + n1) + r4);
            assert(r4[0] == ',');
            lemma_rt_num(s, p3, cd.ai_description as u64, r4);
            let p4 = p3 + n1;
            seq_assoc(p4, l3, r5);
            assert(s == (p4 + l3) + r5);
            lemma_parse_lit_at(s, p4, l3, r5);
            let p5 = p4 + l3;
            seq_assoc(p5, n2, r6);
            assert(s == (p5 + n2) + r6);
            assert(r6[0] == '}');
            lemma_rt_num(s, p5, cd.ai_code as u64, r6);
            let p6 = p5 + n2;
            seq_assoc(p6, l4, post);
            assert(s == (p6 + l4) + post);
            lemma_parse_lit_at(s, p6, l4, post);
            assert(ComputedV {
                embedding: cd.embedding,
                ai_description: cd.ai_description,
                ai_code: cd.ai_code,
            } == cd);
        },
    }
}

#[verifier::rlimit(100)]
proof fn lemma_rt_comps_rest(
    s: Seq<char>,
    pre: Seq<char>,
    l: Seq<Option<ComputedV>>,
    idx: int,
    post: Seq<char>,
)
    requires
        0 <= idx < l.len(),
        s == pre + enc_comp_items(l, idx) + seq![']'] + post,
    ensures
        parse_comps_rest(s, pre.len() as int) == Option::Some(
            (l.skip(idx), pre.len() + enc_comp_items(l, idx).len() + 1int),
        ),
    decreases l.len() - idx,
{
    reveal(parse_comps_rest);
    let i = pre.len() as int;
    let e = enc_comp(l[idx]);
    let cm = seq![','];
    let br = seq![']'];
    if idx == l.len() - 1 {
        assert(enc_comp_items(l, idx) == e);
        seq_assoc(pre + e, br, post);
        assert(s == (pre + e) + (br + post));
        lemma_rt_comp(s, pre, l[idx], br + post);
        lemma_parse_lit_at(s, pre + e, br, post);
        assert(l.skip(idx) =~= seq![l[idx]]);
    } else {
        let tail = enc_comp_items(l, idx + 1);
        assert(enc_comp_items(l, idx) == e + cm + tail);
        seq_assoc(pre, e + cm, tail);
        seq_assoc(pre, e, cm);
        assert(pre + (e + cm + tail) == ((pre + e) + cm) + tail);
        assert(s == (((pre + e) + cm) + tail) + br + post);
        seq_assoc((pre + e) + cm, tail, br);
        seq_assoc((pre + e) + cm, tail + br, post);
        assert(s == ((pre + e) + cm) + ((tail + br) + post));
        seq_assoc(pre + e, cm, (tail + br) + post);
        assert(s == (pre + e) + (cm + ((tail + br) + post)));
        lemma_rt_comp(s, pre, l[idx], cm + ((tail + br) + post));
        let i1 = i + e.len();
        assert(s[i1] == (cm + ((tail + br) + post))[0]);
        assert(s[i1] == ',');
        assert(parse_lit(s, i1, br) is None) by {
            if parse_lit(s, i1, br) is Some {
                assert(s.subrange(i1, i1 + 1) == br);
                assert(s.subrange(i1, i1 + 1)[0] == s[i1]);
            }
        }
        lemma_parse_lit_at(s, pre + e, cm, (tail + br) + post);
        assert(s == (((pre + e) + cm) + tail) + br + post) by {
            seq_assoc((pre + e) + cm, tail + br, post);
            seq_assoc((pre + e) + cm, tail, br);
        }
        lemma_rt_comps_rest(s, ((pre + e) + cm), l, idx + 1, post);
        assert(seq![l[idx]] + l.skip(idx + 1) =~= l.skip(idx));
    }
}

#[verifier::rlimit(100)]
proof fn lemma_rt_comps(s: Seq<char>, pre: Seq<char>, l: Seq<Option<ComputedV>>, post: Seq<char>)
    requires
        s == pre + enc_comps(l) + post,
    ensures
        parse_comps(s, pre.len() as int) == Option::Some(
            (l, pre.len() + enc_comps(l).len() as int),
        ),
{
    reveal(parse_comps);
    reveal(enc_comps);
    let i = pre.len() as int;
    assert(s =~= pre + seq!['['] + (enc_comp_items(l, 0) + seq![']'] + post));
    lemma_parse_lit_at(s, pre, seq!['['], enc_comp_items(l, 0) + seq![']'] + post);
    let i1 = i + 1;
    if l.len() == 0 {
        assert(enc_comp_items(l, 0) =~= Seq::<char>::empty());
        assert(s =~= (pre + seq!['[']) + seq![']'] + post);
        lemma_parse_lit_at(s, pre + seq!['['], seq![']'], post);
    } else {
        lemma_enc_comp_first(l[0]);
        assert(enc_comp_items(l, 0)[0] == enc_comp(l[0])[0]);
        assert(s[i1] == 'n' || s[i1] == '{');
        assert(parse_lit(s, i1, seq![']']) is None) by {
            if parse_lit(s, i1, seq![']']) is Some {
                assert(s.subrange(i1, i1 + 1) == seq![']']);
                assert(s.subrange(i1, i1 + 1)[0] == s[i1]);
            }
        }
        assert(s =~= (pre + seq!['[']) + enc_comp_items(l, 0) + seq![']'] + post);
        lemma_rt_comps_rest(s, pre + seq!['['], l, 0, post);
        assert(l.skip(0) =~= l);
    }
}

/// Law: parsing a saved snapshot returns exactly the records and
/// computed data that were saved.
#[verifier::rlimit(100)]
pub proof fn lemma_snapshot_round_trip(recs: Seq<PageV>, comps: Seq<Option<ComputedV>>)
    requires
        recs.len() <= u64::MAX,
    ensures
        parse_store(enc_store(recs, comps)) == Option::Some((recs, comps)),
{
    reveal(parse_store);
    reveal(enc_store);
    let s = enc_store(recs, comps);
    let l1 = "{\"raw_text\":"@;
    let pp = enc_pages(recs);
    let l2 = ",\"processed\":"@;
    let cc = enc_comps(comps);
    let l3 = ",\"length\":"@;
    let nn = dec_str_of(recs.len());
    let l4 = "}"@;
    reveal_strlit("}");
    let pre = Seq::<char>::empty();
    let post = Seq::<char>::empty();
    let r6 = l4 + post;
    let r5 = nn + r6;
    let r4 = l3 + r5;
    let r3 = cc + r4;
    let r2 = l2 + r3;
    let r1 = pp + r2;
    assert(s == pre + (l1 + r1)) by {
        assert(s =~= pre + (l1 + r1));
    }
    seq_assoc(pre, l1, r1);
    lemma_parse_lit_at(s, pre, l1, r1);
    let p1 = pre + l1;
    seq_assoc(p1, pp, r2);
    assert(s == (p1 + pp) + r2);
    lemma_rt_pages(s, p1, recs, r2);
    let p2 = p1 + pp;
    seq_assoc(p2, l2, r3);
    assert(s == (p2 + l2) + r3);
    lemma_parse_lit_at(s, p2, l2, r3);
    let p3 = p2 + l2;
    seq_assoc(p3, cc, r4);
    assert(s == (p3 + cc) + r4);
    lemma_rt_comps(s, p3, comps, r4);
    let p4 = p3 + cc;
    seq_assoc(p4, l3, r5);
    assert(s == (p4 + l3) + r5);
    lemma_parse_lit_at(s, p4, l3, r5);
    let p5 = p4 + l3;
    seq_assoc(p5, nn, r6);
    assert(s == (p5 + nn) + r6);
    assert(r6[0] == '}');
    assert(dec_str_of((recs.len() as u64) as nat) == nn);
    lemma_rt_num(s, p5, recs.len() as u64, r6);
    let p6 = p5 + nn;
    seq_assoc(p6, l4, post);
    assert(s == (p6 + l4) + post);
    lemma_parse_lit_at(s, p6, l4, post);
    assert((p6 + l4).len() == s.len());
}

} // verus!
