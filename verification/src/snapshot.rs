//! Executable snapshot encoding and decoding, exact to the code's
//! specification: the encoder emits `enc_store` of the store's view and
//! the decoder returns `parse_store` of its input.

use vstd::prelude::*;

use crate::codec::{enc_codes, enc_comp, enc_comp_items, enc_comps, enc_css, enc_css_items,
    enc_jupd, enc_jupd_items, enc_jupds, enc_num_items, enc_nums, enc_opt_codes, enc_page,
    enc_page_items, enc_pages, enc_store, enc_journey, enc_journey_tail, enc_journey_tail2,
    enc_summer, enc_summer_tail, enc_summer_tail2, enc_supd, enc_supd_items, enc_supds, codes_of};
use crate::data::{ComputedData, Journey2025IndividualUpdate, Journey2025MainPage, PageV,
    ScrapedMainPageEnum, Summer2025IndividualUpdate, Summer2025MainPage};
use crate::codec::seq_assoc;
use crate::fixed::{dec_str_of, push_dec};
use crate::text::chars_vec;

verus! {

/// Append a literal's characters.
fn push_lit(out: &mut Vec<char>, lit: &str)
    ensures
        final(out)@ == old(out)@ + lit@,
{
    let v = chars_vec(lit);
    let mut i: usize = 0;
    while i < v.len()
        invariant
            v@ == lit@,
            i <= v@.len(),
            out@ == old(out)@ + lit@.take(i as int),
        decreases v@.len() - i,
    {
        out.push(v[i]);
        proof {
            assert(old(out)@ + lit@.take(i as int) + seq![lit@[i as int]] =~= old(out)@
                + lit@.take(i + 1));
        }
        i = i + 1;
    }
    proof {
        assert(old(out)@ + lit@.take(lit@.len() as int) =~= old(out)@ + lit@);
    }
}

/// Append a text as its bracketed code points.
fn push_codes(out: &mut Vec<char>, s: &str)
    ensures
        final(out)@ == old(out)@ + enc_codes(s@),
{
    proof {
        reveal(enc_codes);
        reveal(enc_nums);
    }
    let v = chars_vec(s);
    let ghost l = codes_of(s@);
    proof {
        assert(l.len() == v@.len());
    }
    out.push('[');
    let ghost base = out@;
    let n = v.len();
    let mut i: usize = 0;
    while i < n
        invariant
            v@ == s@,
            l == codes_of(s@),
            n == v@.len() == l.len(),
            i <= n,
            base == old(out)@ + seq!['['],
            out@ + enc_num_items(l, i as int) == base + enc_num_items(l, 0),
            i == n ==> out@ == base + enc_num_items(l, 0),
        decreases n - i,
    {
        proof {
            assert(l[i as int] == (v@[i as int] as u32) as u64);
        }
        let c = v[i];
        push_dec((c as u32) as u64, out);
        if i + 1 < n {
            out.push(',');
            proof {
                assert(enc_num_items(l, i as int) == crate::fixed::dec_str_of(l[i as int] as nat)
                    + seq![','] + enc_num_items(l, i + 1));
                assert(out@ + enc_num_items(l, i + 1) =~= base + enc_num_items(l, 0));
            }
        } else {
            proof {
                assert(enc_num_items(l, i as int) == crate::fixed::dec_str_of(l[i as int] as nat));
                assert(enc_num_items(l, i + 1) =~= Seq::<char>::empty());
                assert(out@ + enc_num_items(l, i + 1) =~= base + enc_num_items(l, 0));
                assert(out@ =~= base + enc_num_items(l, 0));
            }
        }
        i = i + 1;
    }
    proof {
        if n == 0 {
            assert(enc_num_items(l, 0) =~= Seq::<char>::empty());
            assert(out@ =~= base + enc_num_items(l, 0));
        }
    }
    out.push(']');
    proof {
        assert(out@ =~= old(out)@ + enc_codes(s@));
    }
}

/// Append `null` or a text.
fn push_opt_codes(out: &mut Vec<char>, o: &Option<String>)
    ensures
        final(out)@ == old(out)@ + enc_opt_codes(crate::data::opt_view(*o)),
{
    proof {
        reveal(enc_opt_codes);
    }
    match o {
        Option::None => {
            push_lit(out, "null");
        },
        Option::Some(s) => {
            push_codes(out, s.as_str());
        },
    }
}

fn push_jupd(out: &mut Vec<char>, u: &Journey2025IndividualUpdate)
    ensures
        final(out)@ == old(out)@ + enc_jupd(u@),
{
    proof {
        reveal(enc_jupd);
    }
    push_lit(out, "{\"time\":");
    push_codes(out, u.time.as_str());
    push_lit(out, ",\"message\":");
    push_codes(out, u.message.as_str());
    push_lit(out, ",\"attatchments\":");
    push_css(out, &u.attatchments);
    push_lit(out, "}");
    proof {
        assert(out@ =~= old(out)@ + enc_jupd(u@));
    }
}

/// Append a bracketed list of texts.
fn push_css(out: &mut Vec<char>, l: &Vec<String>)
    ensures
        final(out)@ == old(out)@ + enc_css(
            Seq::new(l@.len(), |i: int| l@[i]@),
        ),
{
    proof {
        reveal(enc_css);
    }
    let ghost lv = Seq::new(l@.len(), |i: int| l@[i]@);
    out.push('[');
    let ghost base = out@;
    let n = l.len();
    let mut i: usize = 0;
    while i < n
        invariant
            lv == Seq::new(l@.len(), |i: int| l@[i]@),
            n == l@.len() == lv.len(),
            i <= n,
            base == old(out)@ + seq!['['],
            out@ + enc_css_items(lv, i as int) == base + enc_css_items(lv, 0),
            i == n ==> out@ == base + enc_css_items(lv, 0),
        decreases n - i,
    {
        push_codes(out, l[i].as_str());
        proof {
            assert(lv[i as int] == l@[i as int]@);
        }
        if i + 1 < n {
            out.push(',');
            proof {
                assert(enc_css_items(lv, i as int) == enc_codes(lv[i as int]) + seq![',']
                    + enc_css_items(lv, i + 1));
                assert(out@ + enc_css_items(lv, i + 1) =~= base + enc_css_items(lv, 0));
            }
        } else {
            proof {
                assert(enc_css_items(lv, i as int) == enc_codes(lv[i as int]));
                assert(enc_css_items(lv, i + 1) =~= Seq::<char>::empty());
                assert(out@ + enc_css_items(lv, i + 1) =~= base + enc_css_items(lv, 0));
                assert(out@ =~= base + enc_css_items(lv, 0));
            }
        }
        i = i + 1;
    }
    proof {
        if n == 0 {
            assert(enc_css_items(lv, 0) =~= Seq::<char>::empty());
            assert(out@ =~= base + enc_css_items(lv, 0));
        }
    }
    out.push(']');
    proof {
        assert(out@ =~= old(out)@ + enc_css(lv));
    }
}

fn push_jupds(out: &mut Vec<char>, l: &Vec<Journey2025IndividualUpdate>)
    ensures
        final(out)@ == old(out)@ + enc_jupds(
            Seq::new(l@.len(), |i: int| l@[i]@),
        ),
{
    proof {
        reveal(enc_jupds);
    }
    let ghost lv = Seq::new(l@.len(), |i: int| l@[i]@);
    out.push('[');
    let ghost base = out@;
    let n = l.len();
    let mut i: usize = 0;
    while i < n
        invariant
            lv == Seq::new(l@.len(), |i: int| l@[i]@),
            n == l@.len() == lv.len(),
            i <= n,
            base == old(out)@ + seq!['['],
            out@ + enc_jupd_items(lv, i as int) == base + enc_jupd_items(lv, 0),
            i == n ==> out@ == base + enc_jupd_items(lv, 0),
        decreases n - i,
    {
        push_jupd(out, &l[i]);
        proof {
            assert(lv[i as int] == l@[i as int]@);
        }
        if i + 1 < n {
            out.push(',');
            proof {
                assert(enc_jupd_items(lv, i as int) == enc_jupd(lv[i as int]) + seq![',']
                    + enc_jupd_items(lv, i + 1));
                assert(out@ + enc_jupd_items(lv, i + 1) =~= base + enc_jupd_items(lv, 0));
            }
        } else {
            proof {
                assert(enc_jupd_items(lv, i as int) == enc_jupd(lv[i as int]));
                assert(enc_jupd_items(lv, i + 1) =~= Seq::<char>::empty());
                assert(out@ + enc_jupd_items(lv, i + 1) =~= base + enc_jupd_items(lv, 0));
                assert(out@ =~= base + enc_jupd_items(lv, 0));
            }
        }
        i = i + 1;
    }
    proof {
        if n == 0 {
            assert(enc_jupd_items(lv, 0) =~= Seq::<char>::empty());
            assert(out@ =~= base + enc_jupd_items(lv, 0));
        }
    }
    out.push(']');
    proof {
        assert(out@ =~= old(out)@ + enc_jupds(lv));
    }
}

fn push_supd(out: &mut Vec<char>, u: &Summer2025IndividualUpdate)
    ensures
        final(out)@ == old(out)@ + enc_supd(u@),
{
    proof {
        reveal(enc_supd);
    }
    push_lit(out, "{\"time\":");
    push_dec(u.time as u64, out);
    push_lit(out, ",\"message\":");
    push_codes(out, u.message.as_str());
    push_lit(out, ",\"image\":");
    push_opt_codes(out, &u.image);
    push_lit(out, "}");
    proof {
        assert(out@ =~= old(out)@ + enc_supd(u@));
    }
}

fn push_supds(out: &mut Vec<char>, l: &Vec<Summer2025IndividualUpdate>)
    ensures
        final(out)@ == old(out)@ + enc_supds(
            Seq::new(l@.len(), |i: int| l@[i]@),
        ),
{
    proof {
        reveal(enc_supds);
    }
    let ghost lv = Seq::new(l@.len(), |i: int| l@[i]@);
    out.push('[');
    let ghost base = out@;
    let n = l.len();
    let mut i: usize = 0;
    while i < n
        invariant
            lv == Seq::new(l@.len(), |i: int| l@[i]@),
            n == l@.len() == lv.len(),
            i <= n,
            base == old(out)@ + seq!['['],
            out@ + enc_supd_items(lv, i as int) == base + enc_supd_items(lv, 0),
            i == n ==> out@ == base + enc_supd_items(lv, 0),
        decreases n - i,
    {
        push_supd(out, &l[i]);
        proof {
            assert(lv[i as int] == l@[i as int]@);
        }
        if i + 1 < n {
            out.push(',');
            proof {
                assert(enc_supd_items(lv, i as int) == enc_supd(lv[i as int]) + seq![',']
                    + enc_supd_items(lv, i + 1));
                assert(out@ + enc_supd_items(lv, i + 1) =~= base + enc_supd_items(lv, 0));
            }
        } else {
            proof {
                assert(enc_supd_items(lv, i as int) == enc_supd(lv[i as int]));
                assert(enc_supd_items(lv, i + 1) =~= Seq::<char>::empty());
                assert(out@ + enc_supd_items(lv, i + 1) =~= base + enc_supd_items(lv, 0));
                assert(out@ =~= base + enc_supd_items(lv, 0));
            }
        }
        i = i + 1;
    }
    proof {
        if n == 0 {
            assert(enc_supd_items(lv, 0) =~= Seq::<char>::empty());
            assert(out@ =~= base + enc_supd_items(lv, 0));
        }
    }
    out.push(']');
    proof {
        assert(out@ =~= old(out)@ + enc_supds(lv));
    }
}

#[verifier::rlimit(100)]
fn push_journey(out: &mut Vec<char>, j: &Journey2025MainPage)
    ensures
        final(out)@ == old(out)@ + enc_journey(j@),
{
    let ghost o0 = out@;
    let ghost h = "{\"id\":"@ + dec_str_of(j.id as nat) + ",\"main_image\":"@ + enc_codes(
        j.main_image@,
    ) + ",\"name\":"@ + enc_codes(j.name@) + ",\"description\":"@ + enc_codes(j.description@);
    let ghost t1 = ",\"author\":"@ + enc_codes(j.author@) + ",\"followers\":"@ + dec_str_of(
        j.followers as nat,
    ) + ",\"stonks\":"@ + dec_str_of(j.stonks as nat) + ",\"time\":"@ + enc_codes(j.time@);
    push_lit(out, "{\"id\":");
    push_dec(j.id as u64, out);
    push_lit(out, ",\"main_image\":");
    push_codes(out, j.main_image.as_str());
    push_lit(out, ",\"name\":");
    push_codes(out, j.name.as_str());
    push_lit(out, ",\"description\":");
    push_codes(out, j.description.as_str());
    proof {
        assert(out@ =~= o0 + h);
    }
    let ghost g1 = out@;
    push_lit(out, ",\"author\":");
    push_codes(out, j.author.as_str());
    push_lit(out, ",\"followers\":");
    push_dec(j.followers as u64, out);
    push_lit(out, ",\"stonks\":");
    push_dec(j.stonks as u64, out);
    push_lit(out, ",\"time\":");
    push_codes(out, j.time.as_str());
    proof {
        assert(out@ =~= g1 + t1);
    }
    let ghost g2 = out@;
    push_lit(out, ",\"readme\":");
    push_opt_codes(out, &j.readme);
    push_lit(out, ",\"repo\":");
    push_opt_codes(out, &j.repo);
    push_lit(out, ",\"demo\":");
    push_opt_codes(out, &j.demo);
    push_lit(out, ",\"updates\":");
    push_jupds(out, &j.updates);
    push_lit(out, "}");
    proof {
        reveal(enc_journey_tail2);
        assert(Seq::new(j.updates@.len(), |i: int| j.updates@[i]@) =~= j@.updates);
        assert(out@ =~= g2 + enc_journey_tail2(j@));
        reveal(enc_journey_tail);
        assert(enc_journey_tail(j@) == t1 + enc_journey_tail2(j@));
        reveal(enc_journey);
        assert(enc_journey(j@) == h + enc_journey_tail(j@));
        seq_assoc(o0, h, enc_journey_tail(j@));
        seq_assoc(o0 + h, t1, enc_journey_tail2(j@));
        assert(out@ == o0 + enc_journey(j@));
    }
}

#[verifier::rlimit(100)]
fn push_summer(out: &mut Vec<char>, v: &Summer2025MainPage)
    ensures
        final(out)@ == old(out)@ + enc_summer(v@),
{
    let ghost o0 = out@;
    let ghost h = "{\"url\":"@ + enc_codes(v.url@) + ",\"main_image\":"@ + enc_codes(
        v.main_image@,
    ) + ",\"name\":"@ + enc_codes(v.name@) + ",\"description\":"@ + enc_codes(v.description@);
    let ghost t1 = ",\"author\":"@ + enc_codes(v.author@) + ",\"followers\":"@ + dec_str_of(
        v.followers as nat,
    ) + ",\"time\":"@ + dec_str_of(v.time as nat);
    push_lit(out, "{\"url\":");
    push_codes(out, v.url.as_str());
    push_lit(out, ",\"main_image\":");
    push_codes(out, v.main_image.as_str());
    push_lit(out, ",\"name\":");
    push_codes(out, v.name.as_str());
    push_lit(out, ",\"description\":");
    push_codes(out, v.description.as_str());
    proof {
        assert(out@ =~= o0 + h);
    }
    let ghost g1 = out@;
    push_lit(out, ",\"author\":");
    push_codes(out, v.author.as_str());
    push_lit(out, ",\"followers\":");
    push_dec(v.followers as u64, out);
    push_lit(out, ",\"time\":");
    push_dec(v.time as u64, out);
    proof {
        assert(out@ =~= g1 + t1);
    }
    let ghost g2 = out@;
    push_lit(out, ",\"readme\":");
    push_opt_codes(out, &v.readme);
    push_lit(out, ",\"repo\":");
    push_opt_codes(out, &v.repo);
    push_lit(out, ",\"demo\":");
    push_opt_codes(out, &v.demo);
    push_lit(out, ",\"updates\":");
    push_supds(out, &v.updates);
    push_lit(out, "}");
    proof {
        reveal(enc_summer_tail2);
        assert(Seq::new(v.updates@.len(), |i: int| v.updates@[i]@) =~= v@.updates);
        assert(out@ =~= g2 + enc_summer_tail2(v@));
        reveal(enc_summer_tail);
        assert(enc_summer_tail(v@) == t1 + enc_summer_tail2(v@));
        reveal(enc_summer);
        assert(enc_summer(v@) == h + enc_summer_tail(v@));
        seq_assoc(o0, h, enc_summer_tail(v@));
        seq_assoc(o0 + h, t1, enc_summer_tail2(v@));
        assert(out@ == o0 + enc_summer(v@));
    }
}

fn push_page(out: &mut Vec<char>, p: &ScrapedMainPageEnum)
    ensures
        final(out)@ == old(out)@ + enc_page(p@),
{
    proof {
        reveal(enc_page);
    }
    match p {
        ScrapedMainPageEnum::Journey2025(j) => {
            push_lit(out, "{\"Journey2025\":");
            push_journey(out, j);
            push_lit(out, "}");
            proof {
                assert(out@ =~= old(out)@ + enc_page(p@));
            }
        },
        ScrapedMainPageEnum::Summer2025(v) => {
            push_lit(out, "{\"Summer2025\":");
            push_summer(out, v);
            push_lit(out, "}");
            proof {
                assert(out@ =~= old(out)@ + enc_page(p@));
            }
        },
    }
}

pub fn push_pages(out: &mut Vec<char>, l: &Vec<ScrapedMainPageEnum>)
    ensures
        final(out)@ == old(out)@ + enc_pages(
            Seq::new(l@.len(), |i: int| l@[i]@),
        ),
{
    proof {
        reveal(enc_pages);
    }
    let ghost lv = Seq::new(l@.len(), |i: int| l@[i]@);
    out.push('[');
    let ghost base = out@;
    let n = l.len();
    let mut i: usize = 0;
    while i < n
        invariant
            lv == Seq::new(l@.len(), |i: int| l@[i]@),
            n == l@.len() == lv.len(),
            i <= n,
            base == old(out)@ + seq!['['],
            out@ + enc_page_items(lv, i as int) == base + enc_page_items(lv, 0),
            i == n ==> out@ == base + enc_page_items(lv, 0),
        decreases n - i,
    {
        push_page(out, &l[i]);
        proof {
            assert(lv[i as int] == l@[i as int]@);
        }
        if i + 1 < n {
            out.push(',');
            proof {
                assert(enc_page_items(lv, i as int) == enc_page(lv[i as int]) + seq![',']
                    + enc_page_items(lv, i + 1));
                assert(out@ + enc_page_items(lv, i + 1) =~= base + enc_page_items(lv, 0));
            }
        } else {
            proof {
                assert(enc_page_items(lv, i as int) == enc_page(lv[i as int]));
                assert(enc_page_items(lv, i + 1) =~= Seq::<char>::empty());
                assert(out@ + enc_page_items(lv, i + 1) =~= base + enc_page_items(lv, 0));
                assert(out@ =~= base + enc_page_items(lv, 0));
            }
        }
        i = i + 1;
    }
    proof {
        if n == 0 {
            assert(enc_page_items(lv, 0) =~= Seq::<char>::empty());
            assert(out@ =~= base + enc_page_items(lv, 0));
        }
    }
    out.push(']');
    proof {
        assert(out@ =~= old(out)@ + enc_pages(lv));
    }
}

fn push_comp(out: &mut Vec<char>, c: &Option<ComputedData>)
    ensures
        final(out)@ == old(out)@ + enc_comp(crate::store::opt_comp_view(*c)),
{
    proof {
        reveal(enc_comp);
        reveal(enc_nums);
    }
    match c {
        Option::None => {
            push_lit(out, "null");
        },
        Option::Some(cd) => {
            push_lit(out, "{\"embedding\":");
            let ghost l = cd.embedding@.map_values(|x: u32| x as u64);
            out.push('[');
            let ghost base = out@;
            let n = cd.embedding.len();
            let mut i: usize = 0;
            while i < n
                invariant
                    l == cd.embedding@.map_values(|x: u32| x as u64),
                    n == cd.embedding@.len() == l.len(),
                    i <= n,
                    out@ + enc_num_items(l, i as int) == base + enc_num_items(l, 0),
                    i == n ==> out@ == base + enc_num_items(l, 0),
                decreases n - i,
            {
                proof {
                    assert(l[i as int] == cd.embedding@[i as int] as u64);
                }
                push_dec(cd.embedding[i] as u64, out);
                if i + 1 < n {
                    out.push(',');
                    proof {
                        assert(enc_num_items(l, i as int) == crate::fixed::dec_str_of(
                            l[i as int] as nat,
                        ) + seq![','] + enc_num_items(l, i + 1));
                        assert(out@ + enc_num_items(l, i + 1) =~= base + enc_num_items(l, 0));
                    }
                } else {
                    proof {
                        assert(enc_num_items(l, i as int) == crate::fixed::dec_str_of(
                            l[i as int] as nat,
                        ));
                        assert(enc_num_items(l, i + 1) =~= Seq::<char>::empty());
                        assert(out@ + enc_num_items(l, i + 1) =~= base + enc_num_items(l, 0));
                        assert(out@ =~= base + enc_num_items(l, 0));
                    }
                }
                i = i + 1;
            }
            proof {
                if n == 0 {
                    assert(enc_num_items(l, 0) =~= Seq::<char>::empty());
                    assert(out@ =~= base + enc_num_items(l, 0));
                }
            }
            out.push(']');
            push_lit(out, ",\"ai_description\":");
            push_dec(cd.ai_description as u64, out);
            push_lit(out, ",\"ai_code\":");
            push_dec(cd.ai_code as u64, out);
            push_lit(out, "}");
            proof {
                assert(out@ =~= old(out)@ + enc_comp(crate::store::opt_comp_view(*c)));
            }
        },
    }
}

pub fn push_comps(out: &mut Vec<char>, l: &Vec<Option<ComputedData>>)
    ensures
        final(out)@ == old(out)@ + enc_comps(
            Seq::new(l@.len(), |i: int| crate::store::opt_comp_view(l@[i])),
        ),
{
    proof {
        reveal(enc_comps);
    }
    let ghost lv = Seq::new(l@.len(), |i: int| crate::store::opt_comp_view(l@[i]));
    out.push('[');
    let ghost base = out@;
    let n = l.len();
    let mut i: usize = 0;
    while i < n
        invariant
            lv == Seq::new(l@.len(), |i: int| crate::store::opt_comp_view(l@[i])),
            n == l@.len() == lv.len(),
            i <= n,
            base == old(out)@ + seq!['['],
            out@ + enc_comp_items(lv, i as int) == base + enc_comp_items(lv, 0),
            i == n ==> out@ == base + enc_comp_items(lv, 0),
        decreases n - i,
    {
        push_comp(out, &l[i]);
        proof {
            assert(lv[i as int] == crate::store::opt_comp_view(l@[i as int]));
        }
        if i + 1 < n {
            out.push(',');
            proof {
                assert(enc_comp_items(lv, i as int) == enc_comp(lv[i as int]) + seq![',']
                    + enc_comp_items(lv, i + 1));
                assert(out@ + enc_comp_items(lv, i + 1) =~= base + enc_comp_items(lv, 0));
            }
        } else {
            proof {
                assert(enc_comp_items(lv, i as int) == enc_comp(lv[i as int]));
                assert(enc_comp_items(lv, i + 1) =~= Seq::<char>::empty());
                assert(out@ + enc_comp_items(lv, i + 1) =~= base + enc_comp_items(lv, 0));
                assert(out@ =~= base + enc_comp_items(lv, 0));
            }
        }
        i = i + 1;
    }
    proof {
        if n == 0 {
            assert(enc_comp_items(lv, 0) =~= Seq::<char>::empty());
            assert(out@ =~= base + enc_comp_items(lv, 0));
        }
    }
    out.push(']');
    proof {
        assert(out@ =~= old(out)@ + enc_comps(lv));
    }
}

/// Encode a record sequence and its sidecar as one snapshot document.
pub fn encode_store_text(records: &Vec<ScrapedMainPageEnum>, computed: &Vec<Option<ComputedData>>)
    -> (r: Vec<char>)
    ensures
        r@ == enc_store(
            Seq::new(records@.len(), |i: int| records@[i]@),
            Seq::new(computed@.len(), |i: int| crate::store::opt_comp_view(computed@[i])),
        ),
{
    proof {
        reveal(enc_store);
    }
    let mut out: Vec<char> = Vec::new();
    push_lit(&mut out, "{\"raw_text\":");
    push_pages(&mut out, records);
    push_lit(&mut out, ",\"processed\":");
    push_comps(&mut out, computed);
    push_lit(&mut out, ",\"length\":");
    push_dec(records.len() as u64, &mut out);
    push_lit(&mut out, "}");
    proof {
        assert(Seq::new(records@.len(), |i: int| records@[i]@).len() == records@.len());
        assert(out@ =~= enc_store(
            Seq::new(records@.len(), |i: int| records@[i]@),
            Seq::new(computed@.len(), |i: int| crate::store::opt_comp_view(computed@[i])),
        ));
    }
    out
}

// ---------------------------------------------------------------
// Decoding
// ---------------------------------------------------------------
fn plit(s: &Vec<char>, i: usize, lit: &str) -> (r: Option<usize>)
    ensures
        match r {
            Option::Some(j) => crate::codec::parse_lit(s@, i as int, lit@) == Option::Some(
                j as int,
            ) && i <= j <= s@.len(),
            Option::None => crate::codec::parse_lit(s@, i as int, lit@) is None,
        },
{
    let lv = chars_vec(lit);
    let n = s.len();
    if i > n || n - i < lv.len() {
        return None;
    }
    let m = lv.len();
    let mut k: usize = 0;
    let mut same = true;
    while k < m
        invariant
            lv@ == lit@,
            m == lv@.len(),
            n == s@.len(),
            i + m <= n,
            k <= m,
            same ==> forall|k2: int| 0 <= k2 < k ==> #[trigger] s@[i + k2] == lit@[k2],
            !same ==> s@.subrange(i as int, i + lit@.len()) != lit@,
        decreases m - k,
    {
        if s[i + k] != lv[k] {
            proof {
                assert(s@.subrange(i as int, i + lit@.len())[k as int] != lit@[k as int]);
            }
            same = false;
        }
        k = k + 1;
    }
    if same {
        proof {
            assert(forall|k2: int|
                0 <= k2 < lit@.len() ==> #[trigger] s@.subrange(i as int, i + lit@.len())[k2]
                    == s@[i + k2]);
            assert(s@.subrange(i as int, i + lit@.len()) =~= lit@);
        }
        Some(i + m)
    } else {
        None
    }
}

fn pnum(s: &Vec<char>, i: usize) -> (r: Option<(u64, usize)>)
    requires
        i <= s@.len(),
    ensures
        match r {
            Option::Some((v, j)) => crate::codec::parse_num(s@, i as int) == Option::Some(
                (v, j as int),
            ) && i < j <= s@.len(),
            Option::None => crate::codec::parse_num(s@, i as int) is None,
        },
{
    proof {
        reveal(crate::codec::parse_num);
        reveal(crate::codec::digits_run);
    }
    let n = s.len();
    let mut j: usize = i;
    let mut stop = false;
    while !stop && j < n
        invariant
            i <= j <= n == s@.len(),
            forall|m: int| i <= m < j ==> crate::codec::is_digit(#[trigger] s@[m]),
            stop ==> j < n && !crate::codec::is_digit(s@[j as int]),
        decreases n - j, (if stop {
            0int
        } else {
            1int
        }),
    {
        let u = s[j] as u32;
        if 0x30 <= u && u <= 0x39 {
            j = j + 1;
        } else {
            stop = true;
        }
    }
    proof {
        crate::codec::lemma_digits_run_is(s@, i as int, (j - i) as int);
    }
    if j == i || j - i > 20 {
        return None;
    }
    let mut acc: u128 = 0;
    let mut m: usize = i;
    proof {
        crate::codec::lemma_pow10_20();
        assert(s@.subrange(i as int, i as int) =~= Seq::<char>::empty());
    }
    while m < j
        invariant
            i <= m <= j <= s@.len(),
            j - i <= 20,
            forall|m2: int| i <= m2 < j ==> crate::codec::is_digit(#[trigger] s@[m2]),
            acc as int == crate::codec::val_of(s@.subrange(i as int, m as int)),
            crate::codec::pow10(20nat) == 0x56bc75e2d63100000int,
        decreases j - m,
    {
        proof {
            assert(forall|m2: int|
                0 <= m2 < m - i ==> #[trigger] s@.subrange(i as int, m as int)[m2] == s@[i + m2]);
            crate::codec::lemma_val_of_bound(s@.subrange(i as int, m as int));
            crate::codec::lemma_pow10_mono((m - i) as nat, 19nat);
            assert(s@.subrange(i as int, m + 1).drop_last() =~= s@.subrange(i as int, m as int));
            assert(s@.subrange(i as int, m + 1).last() == s@[m as int]);
        }
        let u = s[m] as u32;
        acc = acc * 10 + ((u - 0x30) as u128);
        m = m + 1;
    }
    if acc > u64::MAX as u128 {
        return None;
    }
    Some((acc as u64, j))
}

fn pnum_rest(s: &Vec<char>, i: usize) -> (r: Option<(Vec<u64>, usize)>)
    requires
        i <= s@.len(),
    ensures
        match r {
            Option::Some((l, j)) => crate::codec::parse_num_rest(s@, i as int) == Option::Some(
                (l@, j as int),
            ) && i < j <= s@.len(),
            Option::None => crate::codec::parse_num_rest(s@, i as int) is None,
        },
    decreases s@.len() - i,
{
    proof {
        reveal(crate::codec::parse_num_rest);
        reveal_strlit("]");
        reveal_strlit(",");
        assert("]"@ =~= seq![']']);
        assert(","@ =~= seq![',']);
    }
    match pnum(s, i) {
        Option::None => None,
        Option::Some((v, i1)) => {
            match plit(s, i1, "]") {
                Option::Some(i2) => {
                    let mut l: Vec<u64> = Vec::new();
                    l.push(v);
                    proof {
                        assert(l@ =~= seq![v]);
                    }
                    Some((l, i2))
                },
                Option::None => {
                    match plit(s, i1, ",") {
                        Option::None => None,
                        Option::Some(i2) => {
                            if i < i2 && i2 <= s.len() {
                                match pnum_rest(s, i2) {
                                    Option::None => None,
                                    Option::Some((tail, i3)) => {
                                        let ghost tv = tail@;
                                        let mut l = tail;
                                        l.insert(0, v);
                                        proof {
                                            assert(l@ =~= seq![v] + tv);
                                        }
                                        Some((l, i3))
                                    },
                                }
                            } else {
                                None
                            }
                        },
                    }
                },
            }
        },
    }
}

fn pnums(s: &Vec<char>, i: usize) -> (r: Option<(Vec<u64>, usize)>)
    requires
        i <= s@.len(),
    ensures
        match r {
            Option::Some((l, j)) => crate::codec::parse_nums(s@, i as int) == Option::Some(
                (l@, j as int),
            ) && i < j <= s@.len(),
            Option::None => crate::codec::parse_nums(s@, i as int) is None,
        },
{
    proof {
        reveal(crate::codec::parse_nums);
        reveal_strlit("[");
        reveal_strlit("]");
        assert("["@ =~= seq!['[']);
        assert("]"@ =~= seq![']']);
    }
    match plit(s, i, "[") {
        Option::None => None,
        Option::Some(i1) => {
            match plit(s, i1, "]") {
                Option::Some(i2) => {
                    let l: Vec<u64> = Vec::new();
                    proof {
                        assert(l@ =~= Seq::<u64>::empty());
                    }
                    Some((l, i2))
                },
                Option::None => pnum_rest(s, i1),
            }
        },
    }
}

fn pcodes(s: &Vec<char>, i: usize) -> (r: Option<(String, usize)>)
    requires
        i <= s@.len(),
    ensures
        match r {
            Option::Some((t, j)) => crate::codec::parse_codes(s@, i as int) == Option::Some(
                (t@, j as int),
            ) && i < j <= s@.len(),
            Option::None => crate::codec::parse_codes(s@, i as int) is None,
        },
{
    proof {
        reveal(crate::codec::parse_codes);
        reveal(crate::codec::chars_of_codes);
        reveal(crate::codec::char_of_code);
    }
    match pnums(s, i) {
        Option::None => None,
        Option::Some((l, j)) => {
            let mut cs: Vec<char> = Vec::new();
            let n = l.len();
            let mut m: usize = 0;
            proof {
                assert(l@.take(0) =~= Seq::<u64>::empty());
                assert(crate::codec::chars_of_codes(l@.take(0)) == Option::Some(
                    Seq::<char>::empty(),
                ));
                assert(cs@ =~= Seq::<char>::empty());
            }
            while m < n
                invariant
                    n == l@.len(),
                    m <= n,
                    i <= s@.len(),
                    i < j <= s@.len(),
                    crate::codec::parse_nums(s@, i as int) == Option::Some((l@, j as int)),
                    crate::codec::chars_of_codes(l@.take(m as int)) == Option::Some(cs@),
                decreases n - m,
            {
                let v = l[m];
                proof {
                    assert(l@.take(m + 1).drop_last() =~= l@.take(m as int));
                    assert(l@.take(m + 1).last() == l@[m as int]);
                    reveal(crate::codec::parse_codes);
                    reveal(crate::codec::chars_of_codes);
                    reveal(crate::codec::char_of_code);
                }
                if v > 0xFFFFFFFF {
                    proof {
                        crate::codec::lemma_chars_of_codes_none(l@, m as int);
                    }
                    return None;
                }
                match char::from_u32(v as u32) {
                    Option::None => {
                        proof {
                            crate::codec::lemma_chars_of_codes_none(l@, m as int);
                        }
                        return None;
                    },
                    Option::Some(c) => {
                        proof {
                            vstd::utf8::char_u32_cast(c, v as u32);
                        }
                        cs.push(c);
                    },
                }
                m = m + 1;
            }
            proof {
                assert(l@.take(n as int) =~= l@);
            }
            Some((crate::text::string_of_chars(&cs), j))
        },
    }
}

fn popt_codes(s: &Vec<char>, i: usize) -> (r: Option<(Option<String>, usize)>)
    requires
        i <= s@.len(),
    ensures
        match r {
            Option::Some((o, j)) => crate::codec::parse_opt_codes(s@, i as int) == Option::Some(
                (crate::data::opt_view(o), j as int),
            ) && i < j <= s@.len(),
            Option::None => crate::codec::parse_opt_codes(s@, i as int) is None,
        },
{
    proof {
        reveal(crate::codec::parse_opt_codes);
        reveal_strlit("null");
    }
    match plit(s, i, "null") {
        Option::Some(j) => Some((None, j)),
        Option::None => {
            match pcodes(s, i) {
                Option::None => None,
                Option::Some((t, j)) => Some((Some(t), j)),
            }
        },
    }
}

fn pcss_rest(s: &Vec<char>, i: usize) -> (r: Option<(Vec<String>, usize)>)
    requires
        i <= s@.len(),
    ensures
        match r {
            Option::Some((l, j)) => crate::codec::parse_css_rest(s@, i as int) == Option::Some(
                (Seq::new(l@.len(), |k: int| l@[k]@), j as int),
            ) && i < j <= s@.len(),
            Option::None => crate::codec::parse_css_rest(s@, i as int) is None,
        },
    decreases s@.len() - i,
{
    proof {
        reveal(crate::codec::parse_css_rest);
        reveal_strlit("]");
        reveal_strlit(",");
        assert("]"@ =~= seq![']']);
        assert(","@ =~= seq![',']);
    }
    match pcodes(s, i) {
        Option::None => None,
        Option::Some((v, i1)) => {
            match plit(s, i1, "]") {
                Option::Some(i2) => {
                    let ghost vv = v@;
                    let mut l: Vec<String> = Vec::new();
                    l.push(v);
                    proof {
                        assert(Seq::new(l@.len(), |k: int| l@[k]@) =~= seq![vv]);
                    }
                    Some((l, i2))
                },
                Option::None => {
                    match plit(s, i1, ",") {
                        Option::None => None,
                        Option::Some(i2) => {
                            if i < i2 && i2 <= s.len() {
                                match pcss_rest(s, i2) {
                                    Option::None => None,
                                    Option::Some((tail, i3)) => {
                                        let ghost tv = Seq::new(tail@.len(), |k: int| tail@[k]@);
                                        let ghost vv = v@;
                                        let mut l = tail;
                                        l.insert(0, v);
                                        proof {
                                            assert(Seq::new(l@.len(), |k: int| l@[k]@) =~= seq![vv]
                                                + tv);
                                        }
                                        Some((l, i3))
                                    },
                                }
                            } else {
                                None
                            }
                        },
                    }
                },
            }
        },
    }
}

fn pcss(s: &Vec<char>, i: usize) -> (r: Option<(Vec<String>, usize)>)
    requires
        i <= s@.len(),
    ensures
        match r {
            Option::Some((l, j)) => crate::codec::parse_css(s@, i as int) == Option::Some(
                (Seq::new(l@.len(), |k: int| l@[k]@), j as int),
            ) && i < j <= s@.len(),
            Option::None => crate::codec::parse_css(s@, i as int) is None,
        },
{
    proof {
        reveal(crate::codec::parse_css);
        reveal_strlit("[");
        reveal_strlit("]");
        assert("["@ =~= seq!['[']);
        assert("]"@ =~= seq![']']);
    }
    match plit(s, i, "[") {
        Option::None => None,
        Option::Some(i1) => {
            match plit(s, i1, "]") {
                Option::Some(i2) => {
                    let l: Vec<String> = Vec::new();
                    proof {
                        assert(Seq::new(l@.len(), |k: int| l@[k]@) =~= Seq::<Seq<char>>::empty());
                    }
                    Some((l, i2))
                },
                Option::None => pcss_rest(s, i1),
            }
        },
    }
}

fn pjupd(s: &Vec<char>, i: usize) -> (r: Option<(Journey2025IndividualUpdate, usize)>)
    requires
        i <= s@.len(),
    ensures
        match r {
            Option::Some((u, j)) => crate::codec::parse_jupd(s@, i as int) == Option::Some(
                (u@, j as int),
            ) && i < j <= s@.len(),
            Option::None => crate::codec::parse_jupd(s@, i as int) is None,
        },
{
    proof {
        reveal(crate::codec::parse_jupd);
    }
    let i1 = match plit(s, i, "{\"time\":") {
        Option::None => {
            return None;
        },
        Option::Some(x) => x,
    };
    let (time, i2) = match pcodes(s, i1) {
        Option::None => {
            return None;
        },
        Option::Some(x) => x,
    };
    let i3 = match plit(s, i2, ",\"message\":") {
        Option::None => {
            return None;
        },
        Option::Some(x) => x,
    };
    let (message, i4) = match pcodes(s, i3) {
        Option::None => {
            return None;
        },
        Option::Some(x) => x,
    };
    let i5 = match plit(s, i4, ",\"attatchments\":") {
        Option::None => {
            return None;
        },
        Option::Some(x) => x,
    };
    let (atts, i6) = match pcss(s, i5) {
        Option::None => {
            return None;
        },
        Option::Some(x) => x,
    };
    let i7 = match plit(s, i6, "}") {
        Option::None => {
            return None;
        },
        Option::Some(x) => x,
    };
    let u = Journey2025IndividualUpdate { time, message, attatchments: atts };
    Some((u, i7))
}

fn psupd(s: &Vec<char>, i: usize) -> (r: Option<(Summer2025IndividualUpdate, usize)>)
    requires
        i <= s@.len(),
    ensures
        match r {
            Option::Some((u, j)) => crate::codec::parse_supd(s@, i as int) == Option::Some(
                (u@, j as int),
            ) && i < j <= s@.len(),
            Option::None => crate::codec::parse_supd(s@, i as int) is None,
        },
{
    proof {
        reveal(crate::codec::parse_supd);
    }
    let i1 = match plit(s, i, "{\"time\":") {
        Option::None => {
            return None;
        },
        Option::Some(x) => x,
    };
    let (time, i2) = match pnum(s, i1) {
        Option::None => {
            return None;
        },
        Option::Some(x) => x,
    };
    if time > u32::MAX as u64 {
        return None;
    }
    let i3 = match plit(s, i2, ",\"message\":") {
        Option::None => {
            return None;
        },
        Option::Some(x) => x,
    };
    let (message, i4) = match pcodes(s, i3) {
        Option::None => {
            return None;
        },
        Option::Some(x) => x,
    };
    let i5 = match plit(s, i4, ",\"image\":") {
        Option::None => {
            return None;
        },
        Option::Some(x) => x,
    };
    let (image, i6) = match popt_codes(s, i5) {
        Option::None => {
            return None;
        },
        Option::Some(x) => x,
    };
    let i7 = match plit(s, i6, "}") {
        Option::None => {
            return None;
        },
        Option::Some(x) => x,
    };
    let u = Summer2025IndividualUpdate { time: time as u32, message, image };
    Some((u, i7))
}

fn pjupds_rest(s: &Vec<char>, i: usize) -> (r: Option<(Vec<Journey2025IndividualUpdate>, usize)>)
    requires
        i <= s@.len(),
    ensures
        match r {
            Option::Some((l, j)) => crate::codec::parse_jupds_rest(s@, i as int) == Option::Some(
                (Seq::new(l@.len(), |k: int| l@[k]@), j as int),
            ) && i < j <= s@.len(),
            Option::None => crate::codec::parse_jupds_rest(s@, i as int) is None,
        },
    decreases s@.len() - i,
{
    proof {
        reveal(crate::codec::parse_jupds_rest);
        reveal_strlit("]");
        reveal_strlit(",");
        assert("]"@ =~= seq![']']);
        assert(","@ =~= seq![',']);
    }
    match pjupd(s, i) {
        Option::None => None,
        Option::Some((v, i1)) => {
            match plit(s, i1, "]") {
                Option::Some(i2) => {
                    let ghost vv = v@;
                    let mut l: Vec<Journey2025IndividualUpdate> = Vec::new();
                    l.push(v);
                    proof {
                        assert(Seq::new(l@.len(), |k: int| l@[k]@) =~= seq![vv]);
                    }
                    Some((l, i2))
                },
                Option::None => {
                    match plit(s, i1, ",") {
                        Option::None => None,
                        Option::Some(i2) => {
                            if i < i2 && i2 <= s.len() {
                                match pjupds_rest(s, i2) {
                                    Option::None => None,
                                    Option::Some((tail, i3)) => {
                                        let ghost tv = Seq::new(tail@.len(), |k: int| tail@[k]@);
                                        let ghost vv = v@;
                                        let mut l = tail;
                                        l.insert(0, v);
                                        proof {
                                            assert(Seq::new(l@.len(), |k: int| l@[k]@) =~= seq![vv]
                                                + tv);
                                        }
                                        Some((l, i3))
                                    },
                                }
                            } else {
                                None
                            }
                        },
                    }
                },
            }
        },
    }
}

fn pjupds(s: &Vec<char>, i: usize) -> (r: Option<(Vec<Journey2025IndividualUpdate>, usize)>)
    requires
        i <= s@.len(),
    ensures
        match r {
            Option::Some((l, j)) => crate::codec::parse_jupds(s@, i as int) == Option::Some(
                (Seq::new(l@.len(), |k: int| l@[k]@), j as int),
            ) && i < j <= s@.len(),
            Option::None => crate::codec::parse_jupds(s@, i as int) is None,
        },
{
    proof {
        reveal(crate::codec::parse_jupds);
        reveal_strlit("[");
        reveal_strlit("]");
        assert("["@ =~= seq!['[']);
        assert("]"@ =~= seq![']']);
    }
    match plit(s, i, "[") {
        Option::None => None,
        Option::Some(i1) => {
            match plit(s, i1, "]") {
                Option::Some(i2) => {
                    let l: Vec<Journey2025IndividualUpdate> = Vec::new();
                    proof {
                        assert(Seq::new(l@.len(), |k: int| l@[k]@) =~= Seq::<
                            crate::data::JourneyUpdateV,
                        >::empty());
                    }
                    Some((l, i2))
                },
                Option::None => pjupds_rest(s, i1),
            }
        },
    }
}

fn psupds_rest(s: &Vec<char>, i: usize) -> (r: Option<(Vec<Summer2025IndividualUpdate>, usize)>)
    requires
        i <= s@.len(),
    ensures
        match r {
            Option::Some((l, j)) => crate::codec::parse_supds_rest(s@, i as int) == Option::Some(
                (Seq::new(l@.len(), |k: int| l@[k]@), j as int),
            ) && i < j <= s@.len(),
            Option::None => crate::codec::parse_supds_rest(s@, i as int) is None,
        },
    decreases s@.len() - i,
{
    proof {
        reveal(crate::codec::parse_supds_rest);
        reveal_strlit("]");
        reveal_strlit(",");
        assert("]"@ =~= seq![']']);
        assert(","@ =~= seq![',']);
    }
    match psupd(s, i) {
        Option::None => None,
        Option::Some((v, i1)) => {
            match plit(s, i1, "]") {
                Option::Some(i2) => {
                    let ghost vv = v@;
                    let mut l: Vec<Summer2025IndividualUpdate> = Vec::new();
                    l.push(v);
                    proof {
                        assert(Seq::new(l@.len(), |k: int| l@[k]@) =~= seq![vv]);
                    }
                    Some((l, i2))
                },
                Option::None => {
                    match plit(s, i1, ",") {
                        Option::None => None,
                        Option::Some(i2) => {
                            if i < i2 && i2 <= s.len() {
                                match psupds_rest(s, i2) {
                                    Option::None => None,
                                    Option::Some((tail, i3)) => {
                                        let ghost tv = Seq::new(tail@.len(), |k: int| tail@[k]@);
                                        let ghost vv = v@;
                                        let mut l = tail;
                                        l.insert(0, v);
                                        proof {
                                            assert(Seq::new(l@.len(), |k: int| l@[k]@) =~= seq![vv]
                                                + tv);
                                        }
                                        Some((l, i3))
                                    },
                                }
                            } else {
                                None
                            }
                        },
                    }
                },
            }
        },
    }
}

fn psupds(s: &Vec<char>, i: usize) -> (r: Option<(Vec<Summer2025IndividualUpdate>, usize)>)
    requires
        i <= s@.len(),
    ensures
        match r {
            Option::Some((l, j)) => crate::codec::parse_supds(s@, i as int) == Option::Some(
                (Seq::new(l@.len(), |k: int| l@[k]@), j as int),
            ) && i < j <= s@.len(),
            Option::None => crate::codec::parse_supds(s@, i as int) is None,
        },
{
    proof {
        reveal(crate::codec::parse_supds);
        reveal_strlit("[");
        reveal_strlit("]");
        assert("["@ =~= seq!['[']);
        assert("]"@ =~= seq![']']);
    }
    match plit(s, i, "[") {
        Option::None => None,
        Option::Some(i1) => {
            match plit(s, i1, "]") {
                Option::Some(i2) => {
                    let l: Vec<Summer2025IndividualUpdate> = Vec::new();
                    proof {
                        assert(Seq::new(l@.len(), |k: int| l@[k]@) =~= Seq::<
                            crate::data::SummerUpdateV,
                        >::empty());
                    }
                    Some((l, i2))
                },
                Option::None => psupds_rest(s, i1),
            }
        },
    }
}

#[verifier::rlimit(100)]
fn pjourney(s: &Vec<char>, i: usize) -> (r: Option<(Journey2025MainPage, usize)>)
    requires
        i <= s@.len(),
    ensures
        match r {
            Option::Some((v, j)) => crate::codec::parse_journey(s@, i as int) == Option::Some(
                (v@, j as int),
            ) && i < j <= s@.len(),
            Option::None => crate::codec::parse_journey(s@, i as int) is None,
        },
{
    proof {
        reveal(crate::codec::parse_journey);
        reveal(crate::codec::parse_journey_tail);
        reveal(crate::codec::parse_journey_tail2);
    }
    let i1 = match plit(s, i, "{\"id\":") {
        Option::None => {
            return None;
        },
        Option::Some(x) => x,
    };
    let (id, i2) = match pnum(s, i1) {
        Option::None => {
            return None;
        },
        Option::Some(x) => x,
    };
    if id > u32::MAX as u64 {
        return None;
    }
    let i3 = match plit(s, i2, ",\"main_image\":") {
        Option::None => {
            return None;
        },
        Option::Some(x) => x,
    };
    let (main_image, i4) = match pcodes(s, i3) {
        Option::None => {
            return None;
        },
        Option::Some(x) => x,
    };
    let i5 = match plit(s, i4, ",\"name\":") {
        Option::None => {
            return None;
        },
        Option::Some(x) => x,
    };
    let (name, i6) = match pcodes(s, i5) {
        Option::None => {
            return None;
        },
        Option::Some(x) => x,
    };
    let i7 = match plit(s, i6, ",\"description\":") {
        Option::None => {
            return None;
        },
        Option::Some(x) => x,
    };
    let (description, i8) = match pcodes(s, i7) {
        Option::None => {
            return None;
        },
        Option::Some(x) => x,
    };
    let i9 = match plit(s, i8, ",\"author\":") {
        Option::None => {
            return None;
        },
        Option::Some(x) => x,
    };
    let (author, i10) = match pcodes(s, i9) {
        Option::None => {
            return None;
        },
        Option::Some(x) => x,
    };
    let i11 = match plit(s, i10, ",\"followers\":") {
        Option::None => {
            return None;
        },
        Option::Some(x) => x,
    };
    let (followers, i12) = match pnum(s, i11) {
        Option::None => {
            return None;
        },
        Option::Some(x) => x,
    };
    if followers > u16::MAX as u64 {
        return None;
    }
    let i13 = match plit(s, i12, ",\"stonks\":") {
        Option::None => {
            return None;
        },
        Option::Some(x) => x,
    };
    let (stonks, i14) = match pnum(s, i13) {
        Option::None => {
            return None;
        },
        Option::Some(x) => x,
    };
    if stonks > u16::MAX as u64 {
        return None;
    }
    let i15 = match plit(s, i14, ",\"time\":") {
        Option::None => {
            return None;
        },
        Option::Some(x) => x,
    };
    let (time, i16) = match pcodes(s, i15) {
        Option::None => {
            return None;
        },
        Option::Some(x) => x,
    };
    let i17 = match plit(s, i16, ",\"readme\":") {
        Option::None => {
            return None;
        },
        Option::Some(x) => x,
    };
    let (readme, i18) = match popt_codes(s, i17) {
        Option::None => {
            return None;
        },
        Option::Some(x) => x,
    };
    let i19 = match plit(s, i18, ",\"repo\":") {
        Option::None => {
            return None;
        },
        Option::Some(x) => x,
    };
    let (repo, i20) = match popt_codes(s, i19) {
        Option::None => {
            return None;
        },
        Option::Some(x) => x,
    };
    let i21 = match plit(s, i20, ",\"demo\":") {
        Option::None => {
            return None;
        },
        Option::Some(x) => x,
    };
    let (demo, i22) = match popt_codes(s, i21) {
        Option::None => {
            return None;
        },
        Option::Some(x) => x,
    };
    let i23 = match plit(s, i22, ",\"updates\":") {
        Option::None => {
            return None;
        },
        Option::Some(x) => x,
    };
    let (updates, i24) = match pjupds(s, i23) {
        Option::None => {
            return None;
        },
        Option::Some(x) => x,
    };
    let i25 = match plit(s, i24, "}") {
        Option::None => {
            return None;
        },
        Option::Some(x) => x,
    };
    let v = Journey2025MainPage {
        id: id as u32,
        main_image,
        name,
        description,
        author,
        followers: followers as u16,
        stonks: stonks as u16,
        time,
        readme,
        repo,
        demo,
        updates,
    };
    Some((v, i25))
}

#[verifier::rlimit(100)]
fn psummer(s: &Vec<char>, i: usize) -> (r: Option<(Summer2025MainPage, usize)>)
    requires
        i <= s@.len(),
    ensures
        match r {
            Option::Some((v, j)) => crate::codec::parse_summer(s@, i as int) == Option::Some(
                (v@, j as int),
            ) && i < j <= s@.len(),
            Option::None => crate::codec::parse_summer(s@, i as int) is None,
        },
{
    proof {
        reveal(crate::codec::parse_summer);
        reveal(crate::codec::parse_summer_tail);
        reveal(crate::codec::parse_summer_tail2);
    }
    let i1 = match plit(s, i, "{\"url\":") {
        Option::None => {
            return None;
        },
        Option::Some(x) => x,
    };
    let (url, i2) = match pcodes(s, i1) {
        Option::None => {
            return None;
        },
        Option::Some(x) => x,
    };
    let i3 = match plit(s, i2, ",\"main_image\":") {
        Option::None => {
            return None;
        },
        Option::Some(x) => x,
    };
    let (main_image, i4) = match pcodes(s, i3) {
        Option::None => {
            return None;
        },
        Option::Some(x) => x,
    };
    let i5 = match plit(s, i4, ",\"name\":") {
        Option::None => {
            return None;
        },
        Option::Some(x) => x,
    };
    let (name, i6) = match pcodes(s, i5) {
        Option::None => {
            return None;
        },
        Option::Some(x) => x,
    };
    let i7 = match plit(s, i6, ",\"description\":") {
        Option::None => {
            return None;
        },
        Option::Some(x) => x,
    };
    let (description, i8) = match pcodes(s, i7) {
        Option::None => {
            return None;
        },
        Option::Some(x) => x,
    };
    let i9 = match plit(s, i8, ",\"author\":") {
        Option::None => {
            return None;
        },
        Option::Some(x) => x,
    };
    let (author, i10) = match pcodes(s, i9) {
        Option::None => {
            return None;
        },
        Option::Some(x) => x,
    };
    let i11 = match plit(s, i10, ",\"followers\":") {
        Option::None => {
            return None;
        },
        Option::Some(x) => x,
    };
    let (followers, i12) = match pnum(s, i11) {
        Option::None => {
            return None;
        },
        Option::Some(x) => x,
    };
    if followers > u16::MAX as u64 {
        return None;
    }
    let i13 = match plit(s, i12, ",\"time\":") {
        Option::None => {
            return None;
        },
        Option::Some(x) => x,
    };
    let (time, i14) = match pnum(s, i13) {
        Option::None => {
            return None;
        },
        Option::Some(x) => x,
    };
    if time > u32::MAX as u64 {
        return None;
    }
    let i15 = match plit(s, i14, ",\"readme\":") {
        Option::None => {
            return None;
        },
        Option::Some(x) => x,
    };
    let (readme, i16) = match popt_codes(s, i15) {
        Option::None => {
            return None;
        },
        Option::Some(x) => x,
    };
    let i17 = match plit(s, i16, ",\"repo\":") {
        Option::None => {
            return None;
        },
        Option::Some(x) => x,
    };
    let (repo, i18) = match popt_codes(s, i17) {
        Option::None => {
            return None;
        },
        Option::Some(x) => x,
    };
    let i19 = match plit(s, i18, ",\"demo\":") {
        Option::None => {
            return None;
        },
        Option::Some(x) => x,
    };
    let (demo, i20) = match popt_codes(s, i19) {
        Option::None => {
            return None;
        },
        Option::Some(x) => x,
    };
    let i21 = match plit(s, i20, ",\"updates\":") {
        Option::None => {
            return None;
        },
        Option::Some(x) => x,
    };
    let (updates, i22) = match psupds(s, i21) {
        Option::None => {
            return None;
        },
        Option::Some(x) => x,
    };
    let i23 = match plit(s, i22, "}") {
        Option::None => {
            return None;
        },
        Option::Some(x) => x,
    };
    let v = Summer2025MainPage {
        url,
        main_image,
        name,
        description,
        author,
        followers: followers as u16,
        time: time as u32,
        readme,
        repo,
        demo,
        updates,
    };
    Some((v, i23))
}

fn ppage(s: &Vec<char>, i: usize) -> (r: Option<(ScrapedMainPageEnum, usize)>)
    requires
        i <= s@.len(),
    ensures
        match r {
            Option::Some((v, j)) => crate::codec::parse_page(s@, i as int) == Option::Some(
                (v@, j as int),
            ) && i < j <= s@.len(),
            Option::None => crate::codec::parse_page(s@, i as int) is None,
        },
{
    proof {
        reveal(crate::codec::parse_page);
    }
    match plit(s, i, "{\"Journey2025\":") {
        Option::Some(i1) => {
            match pjourney(s, i1) {
                Option::None => None,
                Option::Some((j, i2)) => {
                    match plit(s, i2, "}") {
                        Option::None => None,
                        Option::Some(i3) => Some((ScrapedMainPageEnum::Journey2025(j), i3)),
                    }
                },
            }
        },
        Option::None => {
            match plit(s, i, "{\"Summer2025\":") {
                Option::None => None,
                Option::Some(i1) => {
                    match psummer(s, i1) {
                        Option::None => None,
                        Option::Some((v, i2)) => {
                            match plit(s, i2, "}") {
                                Option::None => None,
                                Option::Some(i3) => Some((ScrapedMainPageEnum::Summer2025(v), i3)),
                            }
                        },
                    }
                },
            }
        },
    }
}

fn ppages_rest(s: &Vec<char>, i: usize) -> (r: Option<(Vec<ScrapedMainPageEnum>, usize)>)
    requires
        i <= s@.len(),
    ensures
        match r {
            Option::Some((l, j)) => crate::codec::parse_pages_rest(s@, i as int) == Option::Some(
                (Seq::new(l@.len(), |k: int| l@[k]@), j as int),
            ) && i < j <= s@.len(),
            Option::None => crate::codec::parse_pages_rest(s@, i as int) is None,
        },
    decreases s@.len() - i,
{
    proof {
        reveal(crate::codec::parse_pages_rest);
        reveal_strlit("]");
        reveal_strlit(",");
        assert("]"@ =~= seq![']']);
        assert(","@ =~= seq![',']);
    }
    match ppage(s, i) {
        Option::None => None,
        Option::Some((v, i1)) => {
            match plit(s, i1, "]") {
                Option::Some(i2) => {
                    let ghost vv = v@;
                    let mut l: Vec<ScrapedMainPageEnum> = Vec::new();
                    l.push(v);
                    proof {
                        assert(Seq::new(l@.len(), |k: int| l@[k]@) =~= seq![vv]);
                    }
                    Some((l, i2))
                },
                Option::None => {
                    match plit(s, i1, ",") {
                        Option::None => None,
                        Option::Some(i2) => {
                            if i < i2 && i2 <= s.len() {
                                match ppages_rest(s, i2) {
                                    Option::None => None,
                                    Option::Some((tail, i3)) => {
                                        let ghost tv = Seq::new(tail@.len(), |k: int| tail@[k]@);
                                        let ghost vv = v@;
                                        let mut l = tail;
                                        l.insert(0, v);
                                        proof {
                                            assert(Seq::new(l@.len(), |k: int| l@[k]@) =~= seq![vv]
                                                + tv);
                                        }
                                        Some((l, i3))
                                    },
                                }
                            } else {
                                None
                            }
                        },
                    }
                },
            }
        },
    }
}

fn ppages(s: &Vec<char>, i: usize) -> (r: Option<(Vec<ScrapedMainPageEnum>, usize)>)
    requires
        i <= s@.len(),
    ensures
        match r {
            Option::Some((l, j)) => crate::codec::parse_pages(s@, i as int) == Option::Some(
                (Seq::new(l@.len(), |k: int| l@[k]@), j as int),
            ) && i < j <= s@.len(),
            Option::None => crate::codec::parse_pages(s@, i as int) is None,
        },
{
    proof {
        reveal(crate::codec::parse_pages);
        reveal_strlit("[");
        reveal_strlit("]");
        assert("["@ =~= seq!['[']);
        assert("]"@ =~= seq![']']);
    }
    match plit(s, i, "[") {
        Option::None => None,
        Option::Some(i1) => {
            match plit(s, i1, "]") {
                Option::Some(i2) => {
                    let l: Vec<ScrapedMainPageEnum> = Vec::new();
                    proof {
                        assert(Seq::new(l@.len(), |k: int| l@[k]@) =~= Seq::<PageV>::empty());
                    }
                    Some((l, i2))
                },
                Option::None => ppages_rest(s, i1),
            }
        },
    }
}

#[verifier::rlimit(100)]
fn pcomp(s: &Vec<char>, i: usize) -> (r: Option<(Option<ComputedData>, usize)>)
    requires
        i <= s@.len(),
    ensures
        match r {
            Option::Some((c, j)) => crate::codec::parse_comp(s@, i as int) == Option::Some(
                (crate::store::opt_comp_view(c), j as int),
            ) && i < j <= s@.len(),
            Option::None => crate::codec::parse_comp(s@, i as int) is None,
        },
{
    proof {
        reveal(crate::codec::parse_comp);
        reveal(crate::codec::nums_to_u32s);
        reveal_strlit("null");
    }
    match plit(s, i, "null") {
        Option::Some(j) => Some((None, j)),
        Option::None => {
            let i1 = match plit(s, i, "{\"embedding\":") {
                Option::None => {
                    return None;
                },
                Option::Some(x) => x,
            };
            let (l, i2) = match pnums(s, i1) {
                Option::None => {
                    return None;
                },
                Option::Some(x) => x,
            };
            let mut emb: Vec<u32> = Vec::new();
            let n = l.len();
            let mut m: usize = 0;
            proof {
                assert(l@.take(0) =~= Seq::<u64>::empty());
                assert(crate::codec::nums_to_u32s(l@.take(0)) == Option::Some(Seq::<u32>::empty()));
                assert(emb@ =~= Seq::<u32>::empty());
            }
            while m < n
                invariant
                    n == l@.len(),
                    m <= n,
                    i <= s@.len(),
                    crate::codec::parse_lit(s@, i as int, "null"@) is None,
                    crate::codec::parse_lit(s@, i as int, "{\"embedding\":"@) == Option::Some(
                        i1 as int,
                    ),
                    i1 <= s@.len(),
                    crate::codec::parse_nums(s@, i1 as int) == Option::Some((l@, i2 as int)),
                    crate::codec::nums_to_u32s(l@.take(m as int)) == Option::Some(emb@),
                decreases n - m,
            {
                let v = l[m];
                proof {
                    reveal(crate::codec::nums_to_u32s);
                    assert(l@.take(m + 1).drop_last() =~= l@.take(m as int));
                    assert(l@.take(m + 1).last() == l@[m as int]);
                }
                if v > u32::MAX as u64 {
                    proof {
                        reveal(crate::codec::parse_comp);
                        crate::codec::lemma_nums_to_u32s_none(l@, m as int);
                    }
                    return None;
                }
                emb.push(v as u32);
                m = m + 1;
            }
            proof {
                assert(l@.take(n as int) =~= l@);
            }
            let i3 = match plit(s, i2, ",\"ai_description\":") {
                Option::None => {
                    return None;
                },
                Option::Some(x) => x,
            };
            let (d, i4) = match pnum(s, i3) {
                Option::None => {
                    return None;
                },
                Option::Some(x) => x,
            };
            if d > u32::MAX as u64 {
                return None;
            }
            let i5 = match plit(s, i4, ",\"ai_code\":") {
                Option::None => {
                    return None;
                },
                Option::Some(x) => x,
            };
            let (cc, i6) = match pnum(s, i5) {
                Option::None => {
                    return None;
                },
                Option::Some(x) => x,
            };
            if cc > u32::MAX as u64 {
                return None;
            }
            let i7 = match plit(s, i6, "}") {
                Option::None => {
                    return None;
                },
                Option::Some(x) => x,
            };
            let cd = ComputedData { embedding: emb, ai_description: d as u32, ai_code: cc as u32 };
            Some((Some(cd), i7))
        },
    }
}

fn pcomps_rest(s: &Vec<char>, i: usize) -> (r: Option<(Vec<Option<ComputedData>>, usize)>)
    requires
        i <= s@.len(),
    ensures
        match r {
            Option::Some((l, j)) => crate::codec::parse_comps_rest(s@, i as int) == Option::Some(
                (Seq::new(l@.len(), |k: int| crate::store::opt_comp_view(l@[k])), j as int),
            ) && i < j <= s@.len(),
            Option::None => crate::codec::parse_comps_rest(s@, i as int) is None,
        },
    decreases s@.len() - i,
{
    proof {
        reveal(crate::codec::parse_comps_rest);
        reveal_strlit("]");
        reveal_strlit(",");
        assert("]"@ =~= seq![']']);
        assert(","@ =~= seq![',']);
    }
    match pcomp(s, i) {
        Option::None => None,
        Option::Some((v, i1)) => {
            match plit(s, i1, "]") {
                Option::Some(i2) => {
                    let ghost vv = crate::store::opt_comp_view(v);
                    let mut l: Vec<Option<ComputedData>> = Vec::new();
                    l.push(v);
                    proof {
                        assert(Seq::new(l@.len(), |k: int| crate::store::opt_comp_view(l@[k]))
                            =~= seq![vv]);
                    }
                    Some((l, i2))
                },
                Option::None => {
                    match plit(s, i1, ",") {
                        Option::None => None,
                        Option::Some(i2) => {
                            if i < i2 && i2 <= s.len() {
                                match pcomps_rest(s, i2) {
                                    Option::None => None,
                                    Option::Some((tail, i3)) => {
                                        let ghost tv = Seq::new(
                                            tail@.len(),
                                            |k: int| crate::store::opt_comp_view(tail@[k]),
                                        );
                                        let ghost vv = crate::store::opt_comp_view(v);
                                        let mut l = tail;
                                        l.insert(0, v);
                                        proof {
                                            assert(Seq::new(
                                                l@.len(),
                                                |k: int| crate::store::opt_comp_view(l@[k]),
                                            ) =~= seq![vv] + tv);
                                        }
                                        Some((l, i3))
                                    },
                                }
                            } else {
                                None
                            }
                        },
                    }
                },
            }
        },
    }
}

fn pcomps(s: &Vec<char>, i: usize) -> (r: Option<(Vec<Option<ComputedData>>, usize)>)
    requires
        i <= s@.len(),
    ensures
        match r {
            Option::Some((l, j)) => crate::codec::parse_comps(s@, i as int) == Option::Some(
                (Seq::new(l@.len(), |k: int| crate::store::opt_comp_view(l@[k])), j as int),
            ) && i < j <= s@.len(),
            Option::None => crate::codec::parse_comps(s@, i as int) is None,
        },
{
    proof {
        reveal(crate::codec::parse_comps);
        reveal_strlit("[");
        reveal_strlit("]");
        assert("["@ =~= seq!['[']);
        assert("]"@ =~= seq![']']);
    }
    match plit(s, i, "[") {
        Option::None => None,
        Option::Some(i1) => {
            match plit(s, i1, "]") {
                Option::Some(i2) => {
                    let l: Vec<Option<ComputedData>> = Vec::new();
                    proof {
                        assert(Seq::new(l@.len(), |k: int| crate::store::opt_comp_view(l@[k])) =~= Seq::<
                            Option<crate::data::ComputedV>,
                        >::empty());
                    }
                    Some((l, i2))
                },
                Option::None => pcomps_rest(s, i1),
            }
        },
    }
}

/// Decode a whole snapshot document.
pub fn decode_store_text(text: &str) -> (r: Option<
    (Vec<ScrapedMainPageEnum>, Vec<Option<ComputedData>>),
>)
    ensures
        match r {
            Option::Some((recs, comps)) => crate::codec::parse_store(text@) == Option::Some(
                (
                    Seq::new(recs@.len(), |k: int| recs@[k]@),
                    Seq::new(comps@.len(), |k: int| crate::store::opt_comp_view(comps@[k])),
                ),
            ),
            Option::None => crate::codec::parse_store(text@) is None,
        },
{
    proof {
        reveal(crate::codec::parse_store);
    }
    let s = chars_vec(text);
    let i1 = match plit(&s, 0, "{\"raw_text\":") {
        Option::None => {
            return None;
        },
        Option::Some(x) => x,
    };
    let (recs, i2) = match ppages(&s, i1) {
        Option::None => {
            return None;
        },
        Option::Some(x) => x,
    };
    let i3 = match plit(&s, i2, ",\"processed\":") {
        Option::None => {
            return None;
        },
        Option::Some(x) => x,
    };
    let (comps, i4) = match pcomps(&s, i3) {
        Option::None => {
            return None;
        },
        Option::Some(x) => x,
    };
    let i5 = match plit(&s, i4, ",\"length\":") {
        Option::None => {
            return None;
        },
        Option::Some(x) => x,
    };
    let (n, i6) = match pnum(&s, i5) {
        Option::None => {
            return None;
        },
        Option::Some(x) => x,
    };
    let i7 = match plit(&s, i6, "}") {
        Option::None => {
            return None;
        },
        Option::Some(x) => x,
    };
    if i7 == s.len() && n == recs.len() as u64 {
        Some((recs, comps))
    } else {
        None
    }
}

} // verus!
