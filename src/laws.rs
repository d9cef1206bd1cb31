use vstd::prelude::*;

use crate::decimal::{
    decimal_of, digits_value, is_digit, is_digit_string, lemma_decimal_of, parse_u16_spec,
};
use crate::segments::{
    lemma_find_from_exact, occurs_at, segments, segments_from,
};
use crate::split_3_spec;

verus! {

/// Three fields written one after another with the delimiter between them.
pub open spec fn join_3(a: Seq<char>, b: Seq<char>, c: Seq<char>, d: Seq<char>) -> Seq<char> {
    a + d + b + d + c
}

/// Every occurrence of the delimiter in the joined text starts within one of
/// the two separators put between the fields: no field, alone or with the
/// separator that precedes it, holds a stray occurrence that a left-to-right
/// scan would meet first.
pub open spec fn no_stray_delimiter(a: Seq<char>, b: Seq<char>, c: Seq<char>, d: Seq<char>) -> bool {
    forall|i: int|
        #[trigger] occurs_at(join_3(a, b, c, d), d, i) ==> (a.len() <= i < a.len() + d.len()) || (
        a.len() + d.len() + b.len() <= i < a.len() + 2 * d.len() + b.len())
}

/// Well-formed input parses: three digit strings whose values fit in 16 bits,
/// joined by a non-empty delimiter that no field conflicts with, give back
/// the three values in order.
pub proof fn lemma_well_formed_parses(a: Seq<char>, b: Seq<char>, c: Seq<char>, d: Seq<char>)
    requires
        d.len() > 0,
        is_digit_string(a) && digits_value(a) <= u16::MAX,
        is_digit_string(b) && digits_value(b) <= u16::MAX,
        is_digit_string(c) && digits_value(c) <= u16::MAX,
        no_stray_delimiter(a, b, c, d),
    ensures
        split_3_spec(join_3(a, b, c, d), d) == Some(
            (digits_value(a) as u16, digits_value(b) as u16, digits_value(c) as u16),
        ),
{
    let s = join_3(a, b, c, d);
    let p1 = a.len() as int;
    let s2 = p1 + d.len();
    let p2 = s2 + b.len();
    let s3 = p2 + d.len();
    assert(s.subrange(p1, p1 + d.len()) =~= d);
    assert(s.subrange(p2, p2 + d.len()) =~= d);
    assert(occurs_at(s, d, p1));
    assert(occurs_at(s, d, p2));
    lemma_find_from_exact(s, d, 0, Some(p1));
    lemma_find_from_exact(s, d, s2, Some(p2));
    lemma_find_from_exact(s, d, s3, None);
    assert(s.subrange(0, p1) =~= a);
    assert(s.subrange(s2, p2) =~= b);
    assert(s.subrange(s3, s.len() as int) =~= c);
    let tail = segments_from(s, d, s3);
    let mid = segments_from(s, d, s2);
    assert(tail == seq![c]);
    assert(mid == seq![b] + tail);
    assert(segments(s, d) == seq![a] + mid);
    assert(segments(s, d) =~= seq![a, b, c]);
}

/// Round trip: the decimal renderings of three 16-bit numbers, joined by a
/// non-empty delimiter that no rendering conflicts with, parse back to the
/// same three numbers.
pub proof fn lemma_round_trip(x: u16, y: u16, z: u16, d: Seq<char>)
    requires
        d.len() > 0,
        no_stray_delimiter(decimal_of(x as nat), decimal_of(y as nat), decimal_of(z as nat), d),
    ensures
        split_3_spec(
            join_3(decimal_of(x as nat), decimal_of(y as nat), decimal_of(z as nat), d),
            d,
        ) == Some((x, y, z)),
{
    lemma_decimal_of(x as nat);
    lemma_decimal_of(y as nat);
    lemma_decimal_of(z as nat);
    lemma_well_formed_parses(decimal_of(x as nat), decimal_of(y as nat), decimal_of(z as nat), d);
}

/// The delimiter holds a character that is not a decimal digit.
pub open spec fn has_non_digit(d: Seq<char>) -> bool {
    exists|k: int| 0 <= k < d.len() && !is_digit(#[trigger] d[k])
}

/// The first non-digit character of `d`, at or before a known one at `k`.
proof fn lemma_first_non_digit(d: Seq<char>, k: int) -> (f: int)
    requires
        0 <= k < d.len(),
        !is_digit(d[k]),
    ensures
        0 <= f <= k,
        !is_digit(d[f]),
        forall|j: int| 0 <= j < f ==> is_digit(#[trigger] d[j]),
    decreases k,
{
    if exists|j: int| 0 <= j < k && !is_digit(#[trigger] d[j]) {
        let j = choose|j: int| 0 <= j < k && !is_digit(#[trigger] d[j]);
        lemma_first_non_digit(d, j)
    } else {
        k
    }
}

/// A delimiter that holds a non-digit character never conflicts with fields
/// made of digits: each of its occurrences starts within a separator.
pub proof fn lemma_non_digit_delimiter_is_clean(
    a: Seq<char>,
    b: Seq<char>,
    c: Seq<char>,
    d: Seq<char>,
)
    requires
        is_digit_string(a),
        is_digit_string(b),
        is_digit_string(c),
        has_non_digit(d),
    ensures
        no_stray_delimiter(a, b, c, d),
{
    let s = join_3(a, b, c, d);
    let k = choose|k: int| 0 <= k < d.len() && !is_digit(#[trigger] d[k]);
    let f = lemma_first_non_digit(d, k);
    let p1 = a.len() as int;
    let p2 = p1 + d.len() + b.len();
    assert forall|i: int| #[trigger] occurs_at(s, d, i) implies (p1 <= i < p1 + d.len()) || (p2 <= i
        < p2 + d.len()) by {
        let q = i + f;
        assert(s.subrange(i, i + d.len())[f] == s[q]);
        assert(s[q] == d[f]);
        if q < p1 {
            assert(s[q] == a[q]);
        } else if q < p1 + d.len() {
            let m = q - p1;
            assert(s[q] == d[m]);
            assert(m >= f);
        } else if q < p2 {
            assert(s[q] == b[q - p1 - d.len()]);
        } else if q < p2 + d.len() {
            let m = q - p2;
            assert(s[q] == d[m]);
            assert(m >= f);
        } else {
            assert(s[q] == c[q - p2 - d.len()]);
        }
    }
}

/// Round trip for any delimiter that holds a non-digit character: the decimal
/// renderings of three 16-bit numbers joined by it parse back to those numbers.
pub proof fn lemma_round_trip_non_digit_delimiter(x: u16, y: u16, z: u16, d: Seq<char>)
    requires
        has_non_digit(d),
    ensures
        split_3_spec(
            join_3(decimal_of(x as nat), decimal_of(y as nat), decimal_of(z as nat), d),
            d,
        ) == Some((x, y, z)),
{
    lemma_decimal_of(x as nat);
    lemma_decimal_of(y as nat);
    lemma_decimal_of(z as nat);
    lemma_non_digit_delimiter_is_clean(
        decimal_of(x as nat),
        decimal_of(y as nat),
        decimal_of(z as nat),
        d,
    );
    lemma_round_trip(x, y, z, d);
}

/// Every failure gives the same absence: the result is `None` exactly when the
/// delimiter is empty, the text does not split into three segments, or one of
/// the segments does not read as a 16-bit decimal number; otherwise it is the
/// three numbers read from the segments.
pub proof fn lemma_failure_is_absence(value: Seq<char>, delimiter: Seq<char>)
    ensures
        split_3_spec(value, delimiter) is None <==> {
            let segs = segments(value, delimiter);
            ||| delimiter.len() == 0
            ||| segs.len() != 3
            ||| exists|k: int| 0 <= k < 3 && (#[trigger] parse_u16_spec(segs[k])) is None
        },
        split_3_spec(value, delimiter) is Some ==> {
            let segs = segments(value, delimiter);
            let r = split_3_spec(value, delimiter)->0;
            &&& parse_u16_spec(segs[0]) == Some(r.0)
            &&& parse_u16_spec(segs[1]) == Some(r.1)
            &&& parse_u16_spec(segs[2]) == Some(r.2)
        },
{
}

} // verus!
