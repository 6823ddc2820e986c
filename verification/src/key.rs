//! The time at the head of a batch key, and why keys of later batches sort
//! later.

use vstd::prelude::*;
use crate::text::lex_le;

verus! {

/// The character that writes a digit of base 32 in Crockford's alphabet:
/// the ten digits, then the capital letters without I, L, O and U.
pub open spec fn crockford(d: int) -> char {
    if d <= 0 {
        '0'
    } else if d == 1 {
        '1'
    } else if d == 2 {
        '2'
    } else if d == 3 {
        '3'
    } else if d == 4 {
        '4'
    } else if d == 5 {
        '5'
    } else if d == 6 {
        '6'
    } else if d == 7 {
        '7'
    } else if d == 8 {
        '8'
    } else if d == 9 {
        '9'
    } else if d == 10 {
        'A'
    } else if d == 11 {
        'B'
    } else if d == 12 {
        'C'
    } else if d == 13 {
        'D'
    } else if d == 14 {
        'E'
    } else if d == 15 {
        'F'
    } else if d == 16 {
        'G'
    } else if d == 17 {
        'H'
    } else if d == 18 {
        'J'
    } else if d == 19 {
        'K'
    } else if d == 20 {
        'M'
    } else if d == 21 {
        'N'
    } else if d == 22 {
        'P'
    } else if d == 23 {
        'Q'
    } else if d == 24 {
        'R'
    } else if d == 25 {
        'S'
    } else if d == 26 {
        'T'
    } else if d == 27 {
        'V'
    } else if d == 28 {
        'W'
    } else if d == 29 {
        'X'
    } else if d == 30 {
        'Y'
    } else {
        'Z'
    }
}

/// The number that the first `i + 1` of the ten leading digits of a time
/// write: the time without its last `9 - i` digits of base 32.
pub open spec fn leading(ms: int, i: int) -> int
    decreases 9 - i,
{
    if i >= 9 {
        ms
    } else {
        leading(ms, i + 1) / 32
    }
}

/// The ten characters at the head of a key made at a time: the milliseconds
/// in base 32, highest digit first.
pub open spec fn time_digits(ms: int) -> Seq<char> {
    Seq::new(10, |i: int| crockford(leading(ms, i) % 32))
}

/// Whether a text is a key made at a time: 26 characters, of which the first
/// ten write the time.
pub open spec fn is_key_of(key: Seq<char>, ms: int) -> bool {
    key.len() == 26 && key.take(10) == time_digits(ms)
}

/// A higher digit is written by a later character.
pub proof fn lemma_crockford_rises(x: int, y: int)
    requires
        0 <= x < y < 32,
    ensures
        crockford(x) < crockford(y),
{
}

/// Two texts that agree up to a position at which the first has the earlier
/// character are in order, and not the same.
pub proof fn lemma_lex_by_first_difference(a: Seq<char>, b: Seq<char>, i: int)
    requires
        0 <= i < a.len(),
        i < b.len(),
        forall|j: int| 0 <= j < i ==> a[j] == b[j],
        a[i] < b[i],
    ensures
        lex_le(a, b),
        !lex_le(b, a),
    decreases i,
{
    if i > 0 {
        assert(a[0] == b[0]);
        assert forall|j: int| 0 <= j < i - 1 implies a.skip(1)[j] == b.skip(1)[j] by {
            assert(a[j + 1] == b[j + 1]);
        }
        lemma_lex_by_first_difference(a.skip(1), b.skip(1), i - 1);
    }
}

/// Times that agree in their first digits agree in fewer of them.
proof fn lemma_leading_agrees(m1: int, m2: int, i: int, j: int)
    requires
        0 <= j <= i <= 9,
        leading(m1, i) == leading(m2, i),
    ensures
        leading(m1, j) == leading(m2, j),
    decreases i - j,
{
    if j < i {
        lemma_leading_agrees(m1, m2, i, j + 1);
    }
}

/// The first digit of a time of at most 50 bits is the number that it
/// writes.
proof fn lemma_first_digit_is_small(ms: int)
    requires
        0 <= ms < 0x4_0000_0000_0000,
    ensures
        0 <= leading(ms, 0) < 32,
{
    reveal_with_fuel(leading, 10);
}

/// Of two times whose first `i + 1` digits write numbers in order, the
/// earlier has the lower digit at the first digit in which they differ.
proof fn lemma_first_difference_up_to(m1: int, m2: int, i: int) -> (k: int)
    requires
        0 <= i <= 9,
        0 <= m1,
        0 <= m2,
        0 <= leading(m1, 0) < 32,
        0 <= leading(m2, 0) < 32,
        leading(m1, i) < leading(m2, i),
    ensures
        0 <= k <= i,
        forall|j: int| 0 <= j < k ==> leading(m1, j) == leading(m2, j),
        leading(m1, k) % 32 < leading(m2, k) % 32,
    decreases i,
{
    if i == 0 {
        0
    } else if leading(m1, i - 1) < leading(m2, i - 1) {
        lemma_first_difference_up_to(m1, m2, i - 1)
    } else {
        assert(leading(m1, i - 1) == leading(m1, i) / 32);
        assert(leading(m2, i - 1) == leading(m2, i) / 32);
        assert(leading(m1, i - 1) == leading(m2, i - 1));
        assert forall|j: int| 0 <= j < i implies leading(m1, j) == leading(m2, j) by {
            lemma_leading_agrees(m1, m2, i - 1, j);
        }
        i
    }
}

/// Of two times of at most 48 bits, the earlier has, at the first of the ten
/// digits in which they differ, the lower digit.
pub proof fn lemma_first_digit_that_differs(m1: int, m2: int) -> (i: int)
    requires
        0 <= m1 < m2 < 0x1_0000_0000_0000,
    ensures
        0 <= i < 10,
        forall|j: int| 0 <= j < i ==> leading(m1, j) % 32 == leading(m2, j) % 32,
        leading(m1, i) % 32 < leading(m2, i) % 32,
{
    lemma_first_digit_is_small(m1);
    lemma_first_digit_is_small(m2);
    lemma_first_difference_up_to(m1, m2, 9)
}

/// Keys are strictly increasing with time: a key made at a later millisecond
/// sorts after a key made at an earlier one, whatever else the keys hold.
pub proof fn lemma_later_keys_sort_later(a: Seq<char>, b: Seq<char>, m1: int, m2: int)
    requires
        0 <= m1 < m2 < 0x1_0000_0000_0000,
        is_key_of(a, m1),
        is_key_of(b, m2),
    ensures
        lex_le(a, b),
        !lex_le(b, a),
        a != b,
{
    let i = lemma_first_digit_that_differs(m1, m2);
    assert forall|j: int| 0 <= j < i implies a[j] == b[j] by {
        assert(a[j] == a.take(10)[j]);
        assert(b[j] == b.take(10)[j]);
    }
    assert(a[i] == a.take(10)[i]);
    assert(b[i] == b.take(10)[i]);
    lemma_crockford_rises(leading(m1, i) % 32, leading(m2, i) % 32);
    lemma_lex_by_first_difference(a, b, i);
}

} // verus!
