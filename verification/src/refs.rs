//! RFC numbers mentioned in body text.
use crate::model::opt_view;
use crate::outside::{compile_pattern, group1_captures, regex_compiles, regex_group1_captures};
use crate::text::{
    decimal, is_ascii_digit, lemma_decimal_digits, parse_u32, parse_u32_spec, string_from,
    unsigned_decimal,
};
use vstd::prelude::*;

verus! {

/// The pattern for mentions of other RFCs: `[RFC8446]`, `[RFC 8446, ...]`,
/// bare "RFC 8446" and "RFCs 8446". Group 1 holds the number.
pub open spec fn rfc_mention_pattern() -> Seq<char> {
    "\\bRFCs?\\s*(\\d{1,5})\\b"@
}

/// Mentions are read with the pattern `\bRFCs?\s*(\d{1,5})\b`: the word
/// `RFC` or `RFCs`, optional whitespace, and a captured run of one to five
/// digits, so short numbers such as 791 count as mentions too.
pub proof fn law_mention_pattern_reads_one_to_five_digits()
    ensures
        rfc_mention_pattern() == "\\bRFCs?\\s*(\\d{1,5})\\b"@,
{
}

/// A capture that spells a number in decimal names that number: it is
/// listed unless it is the citing RFC itself.
pub proof fn law_captured_decimal_is_mentioned(caps: Seq<Option<Seq<char>>>, self_number: u32, x: u32)
    requires
        caps.contains(Some(decimal(x as nat))),
        x != self_number,
    ensures
        mentioned(caps, self_number, x),
{
    let d = decimal(x as nat);
    lemma_decimal_digits(x as nat);
    assert(is_ascii_digit(d[0]));
    assert(unsigned_decimal(d) == Some(x as int));
    let i = choose|i: int| 0 <= i < caps.len() && caps[i] == Some(d);
    assert(spells(caps[i], x));
}

/// The captured text `c` spells the number `x`.
pub open spec fn spells(c: Option<Seq<char>>, x: u32) -> bool {
    match c {
        Some(d) => parse_u32_spec(d) == Some(x),
        None => false,
    }
}

/// `x` is the number captured by one of `caps` and is not `self_number`.
pub open spec fn mentioned(caps: Seq<Option<Seq<char>>>, self_number: u32, x: u32) -> bool {
    exists|i: int| 0 <= i < caps.len() && spells(#[trigger] caps[i], x) && x != self_number
}

/// Strictly increasing.
pub open spec fn strictly_sorted(v: Seq<u32>) -> bool {
    forall|i: int, j: int| 0 <= i < j < v.len() ==> v[i] < v[j]
}

/// Insert `n` into the strictly increasing `v`, unless it is already there.
fn insert_sorted(v: &mut Vec<u32>, n: u32)
    requires
        strictly_sorted(old(v)@),
    ensures
        strictly_sorted(final(v)@),
        forall|x: u32| final(v)@.contains(x) <==> (old(v)@.contains(x) || x == n),
{
    let mut i: usize = 0;
    while i < v.len() && v[i] < n
        invariant
            i <= v@.len(),
            v@ == old(v)@,
            strictly_sorted(v@),
            forall|j: int| 0 <= j < i ==> v@[j] < n,
        decreases v@.len() - i,
    {
        i = i + 1;
    }
    if i < v.len() && v[i] == n {
        assert(v@.contains(n));
        return;
    }
    let ghost old_v = v@;
    v.insert(i, n);
    proof {
        assert(v@ == old_v.subrange(0, i as int).push(n) + old_v.subrange(i as int, old_v.len() as int));
        assert(old_v == old(v)@);
        assert forall|x: u32| v@.contains(x) <==> (old(v)@.contains(x) || x == n) by {
            if v@.contains(x) {
                let k = choose|k: int| 0 <= k < v@.len() && v@[k] == x;
                if k < i {
                    assert(old_v[k] == x);
                } else if k > i {
                    assert(old_v[k - 1] == x);
                }
            }
            if old_v.contains(x) {
                let k = choose|k: int| 0 <= k < old_v.len() && old_v[k] == x;
                if k < i {
                    assert(v@[k] == x);
                } else {
                    assert(v@[k + 1] == x);
                }
            }
            if x == n {
                assert(v@[i as int] == n);
            }
        }
    }
}

/// Distinct RFC numbers mentioned in body text, in increasing order, without
/// `self_number`. Catches `[RFC8446]`, `[RFC 8446, ...]`, and bare "RFC 8446"
/// / "RFCs 8446".
pub fn extract(text: &str, self_number: u32) -> (r: Vec<u32>)
    ensures
        strictly_sorted(r@),
        regex_compiles(rfc_mention_pattern()) ==> forall|x: u32|
            r@.contains(x) <==> mentioned(
                regex_group1_captures(rfc_mention_pattern(), text@),
                self_number,
                x,
            ),
        !regex_compiles(rfc_mention_pattern()) ==> r@.len() == 0,
{
    let pattern = match compile_pattern(string_from("\\bRFCs?\\s*(\\d{1,5})\\b")) {
        Ok(p) => p,
        Err(_) => return Vec::new(),
    };
    let caps = group1_captures(&pattern, text);
    numbers_from_captures(&caps, self_number)
}

/// The distinct numbers that the captures `caps` spell, in increasing
/// order, without `self_number`.
pub fn numbers_from_captures(caps: &Vec<Option<String>>, self_number: u32) -> (r: Vec<u32>)
    ensures
        strictly_sorted(r@),
        forall|x: u32|
            r@.contains(x) <==> mentioned(
                caps@.map_values(|o: Option<String>| opt_view(o)),
                self_number,
                x,
            ),
{
    let ghost cv = caps@.map_values(|o: Option<String>| opt_view(o));
    let mut nums: Vec<u32> = Vec::new();
    let n = caps.len();
    for i in 0..n
        invariant
            n == caps@.len(),
            caps@.map_values(|o: Option<String>| opt_view(o)) == cv,
            strictly_sorted(nums@),
            forall|x: u32|
                nums@.contains(x) <==> mentioned(cv.take(i as int), self_number, x),
    {
        let ghost before = nums@;
        proof {
            assert(cv[i as int] == opt_view(caps@[i as int]));
        }
        match &caps[i] {
            Some(d) => {
                match parse_u32(d.as_str()) {
                    Some(m) => {
                        if m != self_number {
                            insert_sorted(&mut nums, m);
                        }
                    },
                    None => {},
                }
            },
            None => {},
        }
        proof {
            let c = cv.take(i + 1);
            assert forall|x: u32| nums@.contains(x) <==> mentioned(c, self_number, x) by {
                if mentioned(c, self_number, x) {
                    let k = choose|k: int|
                        0 <= k < c.len() && spells(#[trigger] c[k], x) && x != self_number;
                    if k < i {
                        assert(cv.take(i as int)[k] == c[k]);
                        assert(mentioned(cv.take(i as int), self_number, x));
                    }
                }
                if mentioned(cv.take(i as int), self_number, x) {
                    let k = choose|k: int|
                        0 <= k < i && spells(#[trigger] cv.take(i as int)[k], x) && x
                            != self_number;
                    assert(c[k] == cv.take(i as int)[k]);
                }
                if nums@.contains(x) && !before.contains(x) {
                    assert(c[i as int] == cv[i as int]);
                }
            }
        }
    }
    assert(cv.take(n as int) == cv);
    nums
}

} // verus!
