use vstd::prelude::*;
use crate::text::chars_of;

verus! {

pub open spec fn is_digit(c: char) -> bool {
    '0' <= c <= '9'
}

pub open spec fn digit_value(c: char) -> int {
    (c as int) - ('0' as int)
}

pub open spec fn all_digits(s: Seq<char>) -> bool {
    s.len() > 0 && forall|k: int| 0 <= k < s.len() ==> is_digit(#[trigger] s[k])
}

/// The number written by decimal digits.
pub open spec fn digits_value(s: Seq<char>) -> int
    decreases s.len(),
{
    if s.len() == 0 {
        0
    } else {
        digits_value(s.drop_last()) * 10 + digit_value(s.last())
    }
}

/// `str::parse::<i64>`: an optional `+` or `-`, then one or more decimal
/// digits, the value within the range of `i64`.
pub open spec fn parsed_i64(s: Seq<char>) -> Option<i64> {
    if s.len() > 0 && s[0] == '-' {
        let d = s.drop_first();
        if all_digits(d) && -digits_value(d) >= i64::MIN {
            Some((-digits_value(d)) as i64)
        } else {
            None
        }
    } else {
        let d = if s.len() > 0 && s[0] == '+' { s.drop_first() } else { s };
        if all_digits(d) && digits_value(d) <= i64::MAX {
            Some(digits_value(d) as i64)
        } else {
            None
        }
    }
}

pub proof fn lemma_digits_nonneg(s: Seq<char>)
    requires
        forall|k: int| 0 <= k < s.len() ==> is_digit(#[trigger] s[k]),
    ensures
        digits_value(s) >= 0,
    decreases s.len(),
{
    if s.len() > 0 {
        lemma_digits_nonneg(s.drop_last());
    }
}

/// A longer run of digits is worth at least as much as its beginning.
pub proof fn lemma_digits_grow(s: Seq<char>, k: int)
    requires
        0 <= k <= s.len(),
        forall|j: int| 0 <= j < s.len() ==> is_digit(#[trigger] s[j]),
    ensures
        digits_value(s) >= digits_value(s.take(k)),
    decreases s.len() - k,
{
    if k < s.len() {
        lemma_digits_grow(s, k + 1);
        let t = s.take(k + 1);
        assert(t.drop_last() =~= s.take(k));
        assert forall|j: int| 0 <= j < s.take(k).len() implies is_digit(#[trigger] s.take(k)[j]) by {
            assert(s.take(k)[j] == s[j]);
        }
        lemma_digits_nonneg(s.take(k));
        assert(is_digit(t.last()));
    } else {
        assert(s.take(k) =~= s);
    }
}

/// The value of the digits of `v[from..]`, or `None` when one is not a
/// digit or the value exceeds `limit`.
fn digits_up_to(v: &Vec<char>, from: usize, limit: u128) -> (r: Option<u128>)
    requires
        from <= v.len(),
        limit <= 0x8000_0000_0000_0000,
    ensures
        match r {
            Some(x) => all_digits(v@.skip(from as int)) && x as int == digits_value(v@.skip(from as int)) && x <= limit,
            None => !(all_digits(v@.skip(from as int)) && digits_value(v@.skip(from as int)) <= limit),
        },
{
    let ghost d = v@.skip(from as int);
    if from == v.len() {
        return None;
    }
    let mut acc: u128 = 0;
    let mut i: usize = from;
    assert(d.take(0) =~= Seq::<char>::empty());
    while i < v.len()
        invariant
            from <= i <= v.len(),
            limit <= 0x8000_0000_0000_0000,
            d == v@.skip(from as int),
            acc <= limit,
            acc as int == digits_value(d.take(i - from)),
            forall|k: int| 0 <= k < i - from ==> is_digit(#[trigger] d[k]),
        decreases v.len() - i,
    {
        let c = v[i];
        assert(d[i - from] == c);
        if !('0' <= c && c <= '9') {
            assert(!all_digits(d)) by {
                assert(!is_digit(d[i - from]));
            }
            return None;
        }
        let dv = (c as u32 - '0' as u32) as u128;
        assert(d.take(i - from + 1).drop_last() =~= d.take(i - from));
        assert(d.take(i - from + 1).last() == c);
        acc = acc * 10 + dv;
        if acc > limit {
            proof {
                if all_digits(d) {
                    lemma_digits_grow(d, i - from + 1);
                }
            }
            return None;
        }
        i += 1;
    }
    assert(d.take(i - from) =~= d);
    Some(acc)
}

/// `str::parse::<i64>`, `None` where it reports an error.
pub fn parse_i64(s: &str) -> (r: Option<i64>)
    ensures
        r == parsed_i64(s@),
{
    let v = chars_of(s);
    if v.len() > 0 && v[0] == '-' {
        assert(v@.skip(1) =~= v@.drop_first());
        match digits_up_to(&v, 1, 0x8000_0000_0000_0000) {
            Some(x) => {
                if x == 0x8000_0000_0000_0000 {
                    Some(i64::MIN)
                } else {
                    let y = x as i64;
                    Some(-y)
                }
            },
            None => None,
        }
    } else {
        let from: usize = if v.len() > 0 && v[0] == '+' { 1 } else { 0 };
        assert(from == 1 ==> v@.skip(1) =~= v@.drop_first());
        assert(v@.skip(0) =~= v@);
        match digits_up_to(&v, from, 0x7fff_ffff_ffff_ffff) {
            Some(x) => Some(x as i64),
            None => None,
        }
    }
}

} // verus!
