use vstd::prelude::*;

pub mod decimal;
pub mod laws;
pub mod segments;

use crate::decimal::{parse_u16, parse_u16_spec};
use crate::segments::{
    find, lemma_find_from, lemma_segments_nonempty, occurs_at, segments, segments_from,
};

verus! {

broadcast use {vstd::string::axiom_spec_iter, vstd::string::next_postcondition};

/// The characters of `s`, in order.
fn chars_of(s: &str) -> (r: Vec<char>)
    ensures
        r@ == s@,
{
    let mut it = s.chars();
    let mut r: Vec<char> = Vec::new();
    loop
        invariant
            r@ + vstd::std_specs::iter::IteratorSpec::remaining(&it) == s@,
            vstd::std_specs::iter::IteratorSpec::decrease(&it) is Some,
        decreases vstd::std_specs::iter::IteratorSpec::decrease(&it)->0,
    {
        match it.next() {
            Some(c) => {
                r.push(c);
            },
            None => {
                return r;
            },
        }
    }
}

/// What `split_string_3` returns: the three numbers when `value` splits on
/// `delimiter` into exactly three segments that each read as a 16-bit
/// decimal number, and `None` otherwise. An empty delimiter gives `None`.
pub open spec fn split_3_spec(value: Seq<char>, delimiter: Seq<char>) -> Option<(u16, u16, u16)> {
    let segs = segments(value, delimiter);
    if delimiter.len() > 0 && segs.len() == 3 {
        match (parse_u16_spec(segs[0]), parse_u16_spec(segs[1]), parse_u16_spec(segs[2])) {
            (Some(a), Some(b), Some(c)) => Some((a, b, c)),
            _ => None,
        }
    } else {
        None
    }
}

/// Splits a string into exactly three `u16` numbers separated by a delimiter.
///
/// Returns `None` if there are not exactly three segments, if a segment is
/// not a run of decimal digits, or if a number does not fit in a `u16`.
/// An empty delimiter always gives `None`.
pub fn split_string_3(value: &str, delimiter: &str) -> (r: Option<(u16, u16, u16)>)
    ensures
        r == split_3_spec(value@, delimiter@),
{
    let v = chars_of(value);
    let d = chars_of(delimiter);
    let n = v.len();
    if d.len() == 0 {
        return None;
    }
    let ghost sv = v@;
    let ghost dv = d@;
    proof {
        lemma_find_from(sv, dv, 0);
    }
    let end1 = match find(&v, &d, 0) {
        Some(e) => e,
        None => {
            assert(segments(sv, dv).len() == 1);
            return None;
        },
    };
    let first = parse_u16(&v, 0, end1);
    assert(occurs_at(sv, dv, end1 as int));
    let start2 = end1 + d.len();
    let ghost rest2 = segments_from(sv, dv, start2 as int);
    assert(segments(sv, dv) == seq![sv.subrange(0, end1 as int)] + rest2);
    proof {
        lemma_find_from(sv, dv, start2 as int);
    }
    let end2 = match find(&v, &d, start2) {
        Some(e) => e,
        None => {
            assert(rest2.len() == 1);
            return None;
        },
    };
    let second = parse_u16(&v, start2, end2);
    assert(occurs_at(sv, dv, end2 as int));
    let start3 = end2 + d.len();
    let ghost rest3 = segments_from(sv, dv, start3 as int);
    assert(rest2 == seq![sv.subrange(start2 as int, end2 as int)] + rest3);
    proof {
        lemma_find_from(sv, dv, start3 as int);
    }
    let third = parse_u16(&v, start3, n);
    match find(&v, &d, start3) {
        Some(end3) => {
            proof {
                lemma_segments_nonempty(sv, dv, end3 + dv.len());
            }
            assert(rest3.len() > 1);
            None
        },
        None => {
            assert(rest3 == seq![sv.subrange(start3 as int, sv.len() as int)]);
            match (first, second, third) {
                (Some(a), Some(b), Some(c)) => Some((a, b, c)),
                _ => None,
            }
        },
    }
}

} // verus!
