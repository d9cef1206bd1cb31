use vstd::prelude::*;

verus! {

/// A decimal digit character, `'0'` through `'9'`.
pub open spec fn is_digit(c: char) -> bool {
    '0' <= c && c <= '9'
}

/// The numeric value of a digit character.
pub open spec fn digit_value(c: char) -> nat {
    (c as nat - '0' as nat) as nat
}

/// A non-empty run of decimal digits: no sign, no space, nothing else.
pub open spec fn is_digit_string(s: Seq<char>) -> bool {
    s.len() > 0 && forall|i: int| 0 <= i < s.len() ==> is_digit(#[trigger] s[i])
}

/// The base-ten value of a run of digits, most significant digit first.
pub open spec fn digits_value(s: Seq<char>) -> nat
    decreases s.len(),
{
    if s.len() == 0 {
        0
    } else {
        digits_value(s.drop_last()) * 10 + digit_value(s.last())
    }
}

/// What a segment reads as: a digit string whose value fits in 16 bits.
pub open spec fn parse_u16_spec(s: Seq<char>) -> Option<u16> {
    if is_digit_string(s) && digits_value(s) <= u16::MAX {
        Some(digits_value(s) as u16)
    } else {
        None
    }
}

/// Reads `s[start..end]` as an unsigned 16-bit decimal number.
pub fn parse_u16(s: &Vec<char>, start: usize, end: usize) -> (r: Option<u16>)
    requires
        start <= end <= s@.len(),
    ensures
        r == parse_u16_spec(s@.subrange(start as int, end as int)),
{
    let ghost seg = s@.subrange(start as int, end as int);
    if start == end {
        return None;
    }
    let mut acc: u32 = 0;
    let mut i: usize = start;
    while i < end
        invariant
            start <= i <= end <= s@.len(),
            seg == s@.subrange(start as int, end as int),
            forall|j: int| 0 <= j < i - start ==> is_digit(#[trigger] seg[j]),
            acc as nat == digits_value(seg.subrange(0, i - start)),
            acc <= u16::MAX,
        decreases end - i,
    {
        let c = s[i];
        if c < '0' || c > '9' {
            assert(seg[i - start] == c);
            assert(!is_digit(seg[i - start]));
            return None;
        }
        let d = (c as u32) - ('0' as u32);
        proof {
            let pre = seg.subrange(0, i - start);
            let next = seg.subrange(0, i + 1 - start);
            assert(next.drop_last() =~= pre);
            assert(next.last() == c);
        }
        let next = acc * 10 + d;
        if next > u16::MAX as u32 {
            proof {
                lemma_digits_value_grows(seg, (i + 1 - start) as int);
            }
            return None;
        }
        acc = next;
        i = i + 1;
    }
    assert(seg.subrange(0, end - start) =~= seg);
    Some(acc as u16)
}

/// Appending digits never lowers a value: once a prefix exceeds the 16-bit
/// range, the whole string does not read as a 16-bit number.
proof fn lemma_digits_value_grows(s: Seq<char>, k: int)
    requires
        0 < k <= s.len(),
        digits_value(s.subrange(0, k)) > u16::MAX,
    ensures
        !(is_digit_string(s) && digits_value(s) <= u16::MAX),
    decreases s.len() - k,
{
    if k < s.len() {
        let a = s.subrange(0, k);
        let b = s.subrange(0, k + 1);
        assert(b.drop_last() =~= a);
        assert(digits_value(b) >= digits_value(a));
        lemma_digits_value_grows(s, k + 1);
    } else {
        assert(s.subrange(0, k) =~= s);
    }
}

/// The digit character for a value below ten.
pub open spec fn digit_char(n: nat) -> char {
    (n + '0' as nat) as char
}

/// The usual decimal rendering of `n`: no sign, no leading zeros (`0` is `"0"`).
pub open spec fn decimal_of(n: nat) -> Seq<char>
    decreases n,
{
    if n < 10 {
        seq![digit_char(n)]
    } else {
        decimal_of(n / 10) + seq![digit_char(n % 10)]
    }
}

/// The decimal rendering of `n` is a digit string whose value is `n`.
pub proof fn lemma_decimal_of(n: nat)
    ensures
        is_digit_string(decimal_of(n)),
        digits_value(decimal_of(n)) == n,
    decreases n,
{
    let s = decimal_of(n);
    assert(digit_value(digit_char(n % 10)) == n % 10);
    if n < 10 {
        assert(s.drop_last() =~= Seq::<char>::empty());
        assert(digits_value(s.drop_last()) == 0);
        assert(n % 10 == n);
    } else {
        lemma_decimal_of(n / 10);
        assert(s.drop_last() =~= decimal_of(n / 10));
        assert((n / 10) * 10 + n % 10 == n) by (nonlinear_arith);
        assert(s.last() == digit_char(n % 10));
        assert forall|i: int| 0 <= i < s.len() implies is_digit(#[trigger] s[i]) by {
            if i < s.len() - 1 {
                assert(s[i] == decimal_of(n / 10)[i]);
            }
        }
    }
}

/// Reading back the decimal rendering of a 16-bit number gives that number.
pub proof fn lemma_parse_decimal_of(x: u16)
    ensures
        parse_u16_spec(decimal_of(x as nat)) == Some(x),
{
    lemma_decimal_of(x as nat);
}

} // verus!
