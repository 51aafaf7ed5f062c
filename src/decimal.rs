//! Strict base-10 coercion of attribute text and decimal rendering of numbers.
use vstd::prelude::*;

verus! {

pub open spec fn is_digit(b: u8) -> bool {
    48 <= b && b <= 57
}

pub open spec fn all_digits(s: Seq<u8>) -> bool {
    forall|i: int| 0 <= i < s.len() ==> #[trigger] is_digit(s[i])
}

/// The number that a run of decimal digits spells, most significant first.
pub open spec fn digits_value(s: Seq<u8>) -> nat
    decreases s.len(),
{
    if s.len() == 0 {
        0
    } else {
        digits_value(s.drop_last()) * 10 + (s.last() - 48) as nat
    }
}

/// A non-empty run of digits whose value is at most `max`.
pub open spec fn digits_within(d: Seq<u8>, max: nat) -> bool {
    d.len() > 0 && all_digits(d) && digits_value(d) <= max
}

/// Text with an optional leading `+` removed.
pub open spec fn after_plus(s: Seq<u8>) -> Seq<u8> {
    if s.len() > 0 && s[0] == 43u8 {
        s.drop_first()
    } else {
        s
    }
}

/// The unsigned number a text denotes: an optional `+`, then one or more
/// digits, with no space and a value that fits in 64 bits.
pub open spec fn unsigned_of(s: Seq<u8>) -> Option<u64> {
    let d = after_plus(s);
    if digits_within(d, u64::MAX as nat) {
        Some(digits_value(d) as u64)
    } else {
        None
    }
}

/// The signed number a text denotes: an optional `-` or `+`, then one or more
/// digits, with no space and a value that fits in 32 bits.
pub open spec fn signed_of(s: Seq<u8>) -> Option<i32> {
    if s.len() > 0 && s[0] == 45u8 {
        let d = s.drop_first();
        if digits_within(d, 2147483648) {
            Some((-(digits_value(d) as int)) as i32)
        } else {
            None
        }
    } else {
        let d = after_plus(s);
        if digits_within(d, 2147483647) {
            Some(digits_value(d) as i32)
        } else {
            None
        }
    }
}

/// The digits of `n`, most significant first, without leading zeros.
pub open spec fn decimal_of(n: nat) -> Seq<u8>
    decreases n,
{
    if n < 10 {
        seq![(48 + n) as u8]
    } else {
        decimal_of(n / 10).push((48 + n % 10) as u8)
    }
}

/// The text of a signed number: a `-` before the digits of a negative one.
pub open spec fn signed_decimal_of(n: int) -> Seq<u8> {
    if n < 0 {
        seq![45u8] + decimal_of((-n) as nat)
    } else {
        decimal_of(n as nat)
    }
}

proof fn lemma_prefix_value_grows(s: Seq<u8>, j: int, k: int)
    requires
        0 <= j <= k <= s.len(),
        all_digits(s),
    ensures
        digits_value(s.subrange(0, j)) <= digits_value(s.subrange(0, k)),
    decreases k - j,
{
    if j < k {
        lemma_prefix_value_grows(s, j, k - 1);
        assert(s.subrange(0, k).drop_last() =~= s.subrange(0, k - 1));
    }
}

proof fn lemma_decimal_of(n: nat)
    ensures
        decimal_of(n).len() > 0,
        all_digits(decimal_of(n)),
        digits_value(decimal_of(n)) == n,
        is_digit(decimal_of(n)[0]),
    decreases n,
{
    if n < 10 {
        assert(decimal_of(n).drop_last() =~= Seq::<u8>::empty());
        assert(digits_value(decimal_of(n)) == digits_value(Seq::<u8>::empty()) * 10 + n);
    } else {
        lemma_decimal_of(n / 10);
        let d = decimal_of(n);
        assert(d.drop_last() =~= decimal_of(n / 10));
        assert(d.last() == (48 + n % 10) as u8);
        assert(digits_value(d) == digits_value(decimal_of(n / 10)) * 10 + (n % 10));
        assert((n / 10) * 10 + n % 10 == n) by (nonlinear_arith);
        assert forall|i: int| 0 <= i < d.len() implies #[trigger] is_digit(d[i]) by {
            if i < d.len() - 1 {
                assert(d[i] == decimal_of(n / 10)[i]);
            }
        }
    }
}

/// Reads `s[start..]` as a run of digits; `None` when it is empty, holds
/// anything but digits, or exceeds `max`.
fn digits_at(s: &Vec<u8>, start: usize, max: u64) -> (r: Option<u64>)
    requires
        start <= s.len(),
    ensures
        r == (if digits_within(s@.subrange(start as int, s.len() as int), max as nat) {
            Some(digits_value(s@.subrange(start as int, s.len() as int)) as u64)
        } else {
            None::<u64>
        }),
{
    let ghost whole = s@.subrange(start as int, s.len() as int);
    if start == s.len() {
        return None;
    }
    let mut acc: u64 = 0;
    let mut i: usize = start;
    while i < s.len()
        invariant
            start <= i <= s.len(),
            whole == s@.subrange(start as int, s.len() as int),
            all_digits(s@.subrange(start as int, i as int)),
            acc as nat == digits_value(s@.subrange(start as int, i as int)),
            acc <= max,
        decreases s.len() - i,
    {
        let b = s[i];
        if b < 48 || b > 57 {
            assert(!is_digit(whole[i - start]));
            return None;
        }
        let d = (b - 48) as u64;
        let ghost next = s@.subrange(start as int, i + 1);
        assert(next.drop_last() =~= s@.subrange(start as int, i as int));
        assert(all_digits(next)) by {
            assert forall|k: int| 0 <= k < next.len() implies #[trigger] is_digit(next[k]) by {
                if k < next.len() - 1 {
                    assert(next[k] == s@.subrange(start as int, i as int)[k]);
                }
            }
        }
        if d > max || acc > (max - d) / 10 {
            proof {
                assert(acc * 10 + d > max) by (nonlinear_arith)
                    requires
                        d > max || acc > (max - d) / 10,
                        d <= max ==> (max - d) / 10 * 10 + 10 > max - d,
                ;
                if all_digits(whole) {
                    assert(whole.subrange(0, (i + 1 - start) as int) =~= next);
                    assert(whole.subrange(0, whole.len() as int) =~= whole);
                    lemma_prefix_value_grows(whole, (i + 1 - start) as int, whole.len() as int);
                }
            }
            return None;
        }
        assert(acc * 10 + d <= max) by (nonlinear_arith)
            requires
                d <= max,
                acc <= (max - d) / 10,
        ;
        acc = acc * 10 + d;
        i = i + 1;
    }
    assert(s@.subrange(start as int, i as int) =~= whole);
    Some(acc)
}

/// Coerces text to an unsigned number, strictly: see `unsigned_of`.
pub fn parse_unsigned(s: &Vec<u8>) -> (r: Option<u64>)
    ensures
        r == unsigned_of(s@),
{
    if s.len() > 0 && s[0] == 43u8 {
        assert(s@.subrange(1, s.len() as int) =~= s@.drop_first());
        digits_at(s, 1, u64::MAX)
    } else {
        assert(s@.subrange(0, s.len() as int) =~= s@);
        digits_at(s, 0, u64::MAX)
    }
}

/// Coerces text to a signed number, strictly: see `signed_of`.
pub fn parse_signed(s: &Vec<u8>) -> (r: Option<i32>)
    ensures
        r == signed_of(s@),
{
    if s.len() > 0 && s[0] == 45u8 {
        assert(s@.subrange(1, s.len() as int) =~= s@.drop_first());
        match digits_at(s, 1, 2147483648) {
            Some(m) => Some((0i64 - m as i64) as i32),
            None => None,
        }
    } else {
        let start: usize = if s.len() > 0 && s[0] == 43u8 { 1 } else { 0 };
        assert(s@.subrange(start as int, s.len() as int) =~= after_plus(s@));
        match digits_at(s, start, 2147483647) {
            Some(m) => Some(m as i32),
            None => None,
        }
    }
}

/// Renders an unsigned number as plain decimal digits.
pub fn render_unsigned(n: u64) -> (r: Vec<u8>)
    ensures
        r@ == decimal_of(n as nat),
    decreases n,
{
    if n < 10 {
        let v: Vec<u8> = vec![(48 + n) as u8];
        assert(v@ =~= decimal_of(n as nat));
        v
    } else {
        let mut v = render_unsigned(n / 10);
        v.push((48 + n % 10) as u8);
        v
    }
}

/// Renders a signed number as decimal digits, with a `-` when negative.
pub fn render_signed(n: i32) -> (r: Vec<u8>)
    ensures
        r@ == signed_decimal_of(n as int),
{
    if n < 0 {
        let m: u64 = (0i64 - n as i64) as u64;
        let mut digits = render_unsigned(m);
        let mut v: Vec<u8> = vec![45u8];
        v.append(&mut digits);
        v
    } else {
        render_unsigned(n as u64)
    }
}

/// Rendering an unsigned number and coercing the text back gives the number.
pub proof fn lemma_unsigned_round_trip(n: u64)
    ensures
        unsigned_of(decimal_of(n as nat)) == Some(n),
{
    lemma_decimal_of(n as nat);
}

/// Rendering a signed number and coercing the text back gives the number.
pub proof fn lemma_signed_round_trip(n: i32)
    ensures
        signed_of(signed_decimal_of(n as int)) == Some(n),
{
    if n < 0 {
        lemma_decimal_of((-n) as nat);
        let s = signed_decimal_of(n as int);
        assert(s.drop_first() =~= decimal_of((-n) as nat));
    } else {
        lemma_decimal_of(n as nat);
    }
}

} // verus!
