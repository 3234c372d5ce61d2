//! The value of a run of digits in a radix, computed without overflow.
use vstd::prelude::*;

verus! {

/// The value of a digit character (`0`-`9`, `a`-`f`, `A`-`F`); 99 for any
/// other character, which is no digit in any radix up to 16.
pub open spec fn digit_value(c: char) -> int {
    if '0' <= c && c <= '9' {
        c as int - '0' as int
    } else if 'a' <= c && c <= 'f' {
        c as int - 'a' as int + 10
    } else if 'A' <= c && c <= 'F' {
        c as int - 'A' as int + 10
    } else {
        99
    }
}

/// The digits are a non-empty numeral in radix `r`.
pub open spec fn digits_in_radix(d: Seq<char>, r: int) -> bool {
    &&& d.len() > 0
    &&& forall|k: int| 0 <= k < d.len() ==> digit_value(#[trigger] d[k]) < r
}

/// The value of the numeral `d` in radix `r`, most significant digit first.
pub open spec fn radix_value(d: Seq<char>, r: int) -> int
    decreases d.len(),
{
    if d.len() == 0 {
        0
    } else {
        radix_value(d.drop_last(), r) * r + digit_value(d.last())
    }
}

/// A numeral's value is never negative.
pub proof fn lemma_radix_value_nonneg(d: Seq<char>, r: int)
    requires
        r >= 1,
    ensures
        radix_value(d, r) >= 0,
    decreases d.len(),
{
    if d.len() > 0 {
        lemma_radix_value_nonneg(d.drop_last(), r);
        let a = radix_value(d.drop_last(), r);
        let v = digit_value(d.last());
        assert(a * r + v >= 0) by (nonlinear_arith)
            requires
                a >= 0,
                r >= 1,
                v >= 0,
        ;
    }
}

/// A prefix of a numeral is worth no more than the whole numeral.
pub proof fn lemma_radix_value_prefix(d: Seq<char>, r: int, i: int)
    requires
        r >= 1,
        0 <= i <= d.len(),
    ensures
        radix_value(d.take(i), r) <= radix_value(d, r),
    decreases d.len() - i,
{
    if i < d.len() {
        lemma_radix_value_prefix(d, r, i + 1);
        assert(d.take(i + 1).drop_last() =~= d.take(i));
        let a = radix_value(d.take(i), r);
        let v = digit_value(d[i]);
        lemma_radix_value_nonneg(d.take(i), r);
        assert(a * r + v >= a) by (nonlinear_arith)
            requires
                a >= 0,
                r >= 1,
                v >= 0,
        ;
    } else {
        assert(d.take(i) =~= d);
    }
}

/// The value of one digit character, 99 when it is no digit.
pub fn digit_of(c: char) -> (v: u64)
    ensures
        v == digit_value(c),
{
    if '0' <= c && c <= '9' {
        (c as u32 - '0' as u32) as u64
    } else if 'a' <= c && c <= 'f' {
        (c as u32 - 'a' as u32 + 10) as u64
    } else if 'A' <= c && c <= 'F' {
        (c as u32 - 'A' as u32 + 10) as u64
    } else {
        99
    }
}

/// The value of the numeral `d` in radix `radix` when it is a numeral and
/// its value is at most `limit`; `None` otherwise.
pub fn numeral_value(d: &Vec<char>, radix: u64, limit: u64) -> (r: Option<u64>)
    requires
        2 <= radix <= 16,
    ensures
        r == (if digits_in_radix(d@, radix as int) && radix_value(d@, radix as int) <= limit {
            Some(radix_value(d@, radix as int) as u64)
        } else {
            None::<u64>
        }),
{
    if d.len() == 0 {
        return None;
    }
    let mut k: usize = 0;
    while k < d.len()
        invariant
            k <= d.len(),
            forall|j: int| 0 <= j < k ==> digit_value(#[trigger] d@[j]) < radix,
        decreases d.len() - k,
    {
        if digit_of(d[k]) >= radix {
            return None;
        }
        k = k + 1;
    }
    assert(digits_in_radix(d@, radix as int));
    let mut v: u64 = 0;
    let mut i: usize = 0;
    assert(d@.take(0) =~= Seq::<char>::empty());
    while i < d.len()
        invariant
            i <= d.len(),
            digits_in_radix(d@, radix as int),
            2 <= radix <= 16,
            v == radix_value(d@.take(i as int), radix as int),
            v <= limit,
        decreases d.len() - i,
    {
        assert(d@.take(i + 1).drop_last() =~= d@.take(i as int));
        assert(d@.take(i + 1).last() == d@[i as int]);
        let dv = digit_of(d[i]);
        let next = match v.checked_mul(radix) {
            Some(m) => m.checked_add(dv),
            None => None,
        };
        match next {
            Some(n) => {
                if n > limit {
                    proof {
                        lemma_radix_value_prefix(d@, radix as int, i + 1);
                    }
                    return None;
                }
                v = n;
            },
            None => {
                proof {
                    lemma_radix_value_prefix(d@, radix as int, i + 1);
                    lemma_radix_value_nonneg(d@.take(i as int), radix as int);
                }
                return None;
            },
        }
        i = i + 1;
    }
    assert(d@.take(d.len() as int) =~= d@);
    Some(v)
}

} // verus!
