//! Decimal numbers in the dictionaries of a `CFF` table.
//!
//! Such a number is a list of half bytes: 0 to 9 are digits, 10 is the point, 11 starts an
//! exponent, 12 a negative exponent, and 14 is a minus sign. `ttf_parser` spells it out in at most
//! 64 characters, takes the nearest double-precision number, and where an offset is wanted that
//! number's whole part, as a number of 32 bits. What is told here is that whole part.
use vstd::prelude::*;

verus! {

/// The greatest whole part. One that is greater counts as this.
pub const WHOLE_MAX: u64 = 0x7FFF_FFFF;

/// The greatest power of five that is needed.
const FIVE_TO_54: u128 = 55511151231257827021181583404541015625;

/// How many characters a number can be spelled out in.
pub const SPELLED_LEN: u64 = 64;

/// How many characters the first `count` half bytes are spelled out in. The start of a negative
/// exponent takes two.
pub open spec fn spelled_len(n: Seq<u8>, count: nat) -> int
    decreases count,
{
    if count == 0 {
        0
    } else {
        spelled_len(n, (count - 1) as nat) + (if n[count - 1] == 12 {
            2int
        } else {
            1int
        })
    }
}

/// Where the digits that start at `at` end.
pub open spec fn digits_end(n: Seq<u8>, at: int) -> int
    decreases n.len() - at,
{
    if 0 <= at < n.len() && n[at] <= 9 {
        digits_end(n, at + 1)
    } else {
        at
    }
}

/// The value of the digits from `from` to `to`.
pub open spec fn digits_value(n: Seq<u8>, from: int, to: int) -> int
    decreases to - from,
{
    if from >= to {
        0
    } else {
        digits_value(n, from, to - 1) * 10 + n[to - 1]
    }
}

/// There is a half byte of that kind at `at`.
pub open spec fn has_at(n: Seq<u8>, at: int, kind: u8) -> bool {
    0 <= at < n.len() && n[at] == kind
}

/// Where the digits before the point start: behind a minus sign.
pub open spec fn start_of(n: Seq<u8>) -> int {
    if has_at(n, 0, 14) {
        1
    } else {
        0
    }
}

/// Where the digits before the point end.
pub open spec fn point_of(n: Seq<u8>) -> int {
    digits_end(n, start_of(n))
}

/// Where the digits behind the point end.
pub open spec fn tail_of(n: Seq<u8>) -> int {
    if has_at(n, point_of(n), 10) {
        digits_end(n, point_of(n) + 1)
    } else {
        point_of(n)
    }
}

/// All digits before the exponent.
pub open spec fn digits_of(n: Seq<u8>) -> Seq<u8> {
    if has_at(n, point_of(n), 10) {
        n.subrange(start_of(n), point_of(n)) + n.subrange(point_of(n) + 1, tail_of(n))
    } else {
        n.subrange(start_of(n), point_of(n))
    }
}

/// The exponent is negative.
pub open spec fn lowers(n: Seq<u8>) -> bool {
    has_at(n, tail_of(n), 12) || has_at(n, tail_of(n), 11) && has_at(n, tail_of(n) + 1, 14)
}

/// Where the digits of the exponent start.
pub open spec fn exponent_start(n: Seq<u8>) -> int {
    if has_at(n, tail_of(n), 11) && has_at(n, tail_of(n) + 1, 14) {
        tail_of(n) + 2
    } else {
        tail_of(n) + 1
    }
}

/// The half bytes are a number: digits with a point among them or none, and nothing behind them
/// but an exponent with digits of its own.
pub open spec fn is_decimal(n: Seq<u8>) -> bool {
    &&& spelled_len(n, n.len()) <= SPELLED_LEN
    &&& digits_of(n).len() > 0
    &&& tail_of(n) == n.len() || {
        &&& has_at(n, tail_of(n), 11) || has_at(n, tail_of(n), 12)
        &&& exponent_start(n) < n.len()
        &&& digits_end(n, exponent_start(n)) == n.len()
    }
}

/// The exponent.
pub open spec fn exponent(n: Seq<u8>) -> int {
    let value = digits_value(n, exponent_start(n), n.len() as int);
    if tail_of(n) == n.len() {
        0
    } else if lowers(n) {
        -value
    } else {
        value
    }
}

/// Digit number `k`; there are zeros before and behind the digits.
pub open spec fn digit(digits: Seq<u8>, k: int) -> int {
    if 0 <= k < digits.len() {
        digits[k] as int
    } else {
        0
    }
}

/// The value of the digits before number `point`.
pub open spec fn whole(digits: Seq<u8>, point: int) -> int
    decreases point,
{
    if point <= 0 {
        0
    } else {
        whole(digits, point - 1) * 10 + digit(digits, point - 1)
    }
}

/// By how many units of its last place the fraction that the first `count` digits from number
/// `point` on make falls short of one.
pub open spec fn shortfall(digits: Seq<u8>, point: int, count: nat) -> int
    decreases count,
{
    if count == 0 {
        1
    } else {
        shortfall(digits, point, (count - 1) as nat) * 10 - digit(digits, point + count - 1)
    }
}

/// A power of five.
pub open spec fn five_to(exponent: nat) -> int
    decreases exponent,
{
    if exponent == 0 {
        1
    } else {
        five_to((exponent - 1) as nat) * 5
    }
}

/// How near a number below `m` has to be to be rounded to it: a half to this power away. That is
/// half of the distance between two double-precision numbers just below `m`. For 1 the power is
/// 54, and one less for each time that `m` has to be halved, rounding up, to come to 1.
pub open spec fn halvings(m: int) -> int
    decreases m,
{
    if m <= 1 {
        54
    } else {
        halvings((m + 1) / 2) - 1
    }
}

/// The number with that point is rounded to `m`, the next whole number. A half to a power, written
/// with as many decimal places, is five to that power.
pub open spec fn rounds_up(digits: Seq<u8>, point: int, m: int) -> bool {
    let places = halvings(m) as nat;
    shortfall(digits, point, places) <= five_to(places)
}

/// The whole part of the nearest double-precision number, without its sign.
pub open spec fn magnitude(digits: Seq<u8>, point: int) -> int {
    let below = whole(digits, point);
    if below >= WHOLE_MAX {
        WHOLE_MAX as int
    } else if rounds_up(digits, point, below + 1) {
        below + 1
    } else {
        below
    }
}

/// The number's whole part, if it is a number.
pub open spec fn decimal_value(n: Seq<u8>) -> Option<int> {
    let size = magnitude(digits_of(n), point_of(n) - start_of(n) + exponent(n));
    if !is_decimal(n) {
        None
    } else if has_at(n, 0, 14) {
        Some(-size)
    } else {
        Some(size)
    }
}

/// Digits stand for themselves.
spec fn all_digits(digits: Seq<u8>) -> bool {
    forall|i: int| 0 <= i < digits.len() ==> #[trigger] digits[i] <= 9
}

proof fn lemma_halvings(m: int)
    requires
        1 <= m <= 0x8000_0000,
    ensures
        23 <= halvings(m) <= 54,
{
    reveal_with_fuel(two_to, 32);
    lemma_halvings_within(m, 0x8000_0000, 31);
}

proof fn lemma_halvings_within(m: int, top: int, times: nat)
    requires
        1 <= m <= top,
        top == two_to(times),
    ensures
        54 - times <= halvings(m) <= 54,
    decreases times,
{
    reveal_with_fuel(two_to, 2);
    if m > 1 {
        assert(times > 0);
        lemma_halvings_within((m + 1) / 2, two_to((times - 1) as nat), (times - 1) as nat);
    }
}

spec fn two_to(exponent: nat) -> int
    decreases exponent,
{
    if exponent == 0 {
        1
    } else {
        two_to((exponent - 1) as nat) * 2
    }
}

/// What the digits before the point are worth does not shrink as the point moves on.
proof fn lemma_whole_grows(digits: Seq<u8>, from: int, to: int)
    requires
        from <= to,
    ensures
        0 <= whole(digits, from) <= whole(digits, to),
    decreases left_of(from) + to - from,
{
    if to > from && to > 0 {
        lemma_whole_grows(digits, from, to - 1);
    } else if from > 0 {
        lemma_whole_grows(digits, from - 1, from - 1);
    }
}

spec fn left_of(at: int) -> nat {
    if at > 0 {
        at as nat
    } else {
        0
    }
}

/// Moving the point ten places on makes one a number beyond the greatest whole part.
proof fn lemma_whole_far(digits: Seq<u8>, point: int)
    requires
        point >= 0,
        whole(digits, point) >= 1,
    ensures
        whole(digits, point + 10) >= WHOLE_MAX,
{
    reveal_with_fuel(whole, 11);
    assert(whole(digits, point + 5) >= 100_000);
    assert(whole(digits, point + 10) >= 10_000_000_000);
}

proof fn lemma_whole_of_zeros(digits: Seq<u8>, point: int)
    requires
        forall|i: int| 0 <= i < digits.len() ==> #[trigger] digits[i] == 0,
    ensures
        whole(digits, point) == 0,
    decreases left_of(point),
{
    if point > 0 {
        lemma_whole_of_zeros(digits, point - 1);
    }
}

proof fn lemma_same_shortfall(digits: Seq<u8>, a: int, b: int, count: nat)
    requires
        forall|i: int| 0 <= i < count ==> #[trigger] digit(digits, a + i) == digit(digits, b + i),
    ensures
        shortfall(digits, a, count) == shortfall(digits, b, count),
    decreases count,
{
    if count > 0 {
        lemma_same_shortfall(digits, a, b, (count - 1) as nat);
        assert(digit(digits, a + (count - 1)) == digit(digits, b + (count - 1)));
    }
}

/// Beyond all digits it does not matter where the point is.
proof fn lemma_far_points(digits: Seq<u8>, a: int, b: int)
    requires
        digits.len() <= SPELLED_LEN,
        a >= 100 && b >= 100 || a <= -100 && b <= -100,
    ensures
        magnitude(digits, a) == magnitude(digits, b),
{
    if a <= -100 {
        lemma_halvings(1);
        lemma_same_shortfall(digits, a, b, halvings(1) as nat);
    } else if exists|i: int| 0 <= i < digits.len() && digits[i] != 0 {
        let i = choose|i: int| 0 <= i < digits.len() && digits[i] != 0;
        lemma_whole_grows(digits, i, i);
        assert(whole(digits, i + 1) >= 1);
        lemma_whole_far(digits, i + 1);
        lemma_whole_grows(digits, i + 11, a);
        lemma_whole_grows(digits, i + 11, b);
    } else {
        lemma_whole_of_zeros(digits, a);
        lemma_whole_of_zeros(digits, b);
        lemma_halvings(1);
        lemma_same_shortfall(digits, a, b, halvings(1) as nat);
    }
}

/// What falls short by more than a number still does after more digits.
proof fn lemma_shortfall_grows(digits: Seq<u8>, point: int, from: nat, to: nat, least: int)
    requires
        all_digits(digits),
        from <= to,
        shortfall(digits, point, from) >= least >= 1,
    ensures
        shortfall(digits, point, to) >= least,
    decreases to - from,
{
    if from < to {
        assert(digit(digits, point + from) <= 9);
        lemma_shortfall_grows(digits, point, from + 1, to, least);
    }
}

proof fn lemma_five(exponent: nat)
    requires
        exponent <= 54,
    ensures
        1 <= five_to(exponent) <= FIVE_TO_54,
{
    assert(five_to(54) == FIVE_TO_54) by {
        reveal_with_fuel(five_to, 55);
    }
    lemma_five_grows(exponent, 54);
}

proof fn lemma_five_grows(from: nat, to: nat)
    requires
        from <= to,
    ensures
        1 <= five_to(from) <= five_to(to),
    decreases to,
{
    if from < to {
        lemma_five_grows(from, (to - 1) as nat);
    } else if to > 0 {
        lemma_five_grows((to - 1) as nat, (to - 1) as nat);
    }
}

fn power_of_five(exponent: u64) -> (power: u128)
    requires
        exponent <= 54,
    ensures
        power == five_to(exponent as nat),
{
    let mut power: u128 = 1;
    let mut done: u64 = 0;
    while done < exponent
        invariant
            done <= exponent <= 54,
            power == five_to(done as nat),
        decreases exponent - done,
    {
        proof {
            lemma_five(done as nat + 1);
        }
        power = power * 5;
        done = done + 1;
    }
    power
}

fn count_halvings(m: u64) -> (count: u64)
    requires
        1 <= m <= 0x8000_0000,
    ensures
        count == halvings(m as int),
        23 <= count <= 54,
{
    proof {
        lemma_halvings(m as int);
    }
    let mut rest: u64 = m;
    let mut less: u64 = 0;
    while rest > 1
        invariant
            1 <= rest <= m <= 0x8000_0000,
            halvings(m as int) == halvings(rest as int) - less,
            23 <= halvings(m as int) <= 54,
            less <= 31,
        decreases rest,
    {
        proof {
            lemma_halvings((rest as int + 1) / 2);
        }
        rest = (rest + 1) / 2;
        less = less + 1;
    }
    54 - less
}

fn digit_of(digits: &Vec<u8>, k: i64) -> (value: u8)
    ensures
        value == digit(digits@, k as int),
{
    if 0 <= k && (k as u64) < digits.len() as u64 {
        digits[k as usize]
    } else {
        0
    }
}

/// Tells whether the number is rounded up to `m`.
fn is_rounded_up(digits: &Vec<u8>, point: i64, m: u64) -> (up: bool)
    requires
        all_digits(digits@),
        -2000 <= point <= 2000,
        1 <= m <= 0x8000_0000,
    ensures
        up == rounds_up(digits@, point as int, m as int),
{
    let places: u64 = count_halvings(m);
    let limit: u128 = power_of_five(places);
    proof {
        lemma_five(places as nat);
    }
    let mut short: u128 = 1;
    let mut done: u64 = 0;
    while done < places
        invariant
            all_digits(digits@),
            -2000 <= point <= 2000,
            done <= places <= 54,
            places == halvings(m as int),
            limit == five_to(places as nat),
            1 <= limit <= FIVE_TO_54,
            short == shortfall(digits@, point as int, done as nat),
            1 <= short,
        decreases places - done,
    {
        let next: u8 = digit_of(digits, point + done as i64);
        assert(next <= 9);
        if short > limit / 10 + 1 {
            proof {
                assert(shortfall(digits@, point as int, (done + 1) as nat) == short * 10 - next);
                lemma_shortfall_grows(
                    digits@,
                    point as int,
                    (done + 1) as nat,
                    places as nat,
                    limit as int + 1,
                );
            }
            return false;
        }
        short = short * 10 - next as u128;
        done = done + 1;
    }
    short <= limit
}

/// Finds the whole part of the nearest double-precision number.
fn find_magnitude(digits: &Vec<u8>, point: i64) -> (size: u64)
    requires
        all_digits(digits@),
        -2000 <= point <= 2000,
    ensures
        size == magnitude(digits@, point as int),
        size <= WHOLE_MAX,
{
    let mut below: u64 = 0;
    let mut k: i64 = 0;
    while k < point
        invariant
            all_digits(digits@),
            0 <= k,
            point <= 2000,
            k <= point || k == 0,
            below == whole(digits@, k as int),
            below < WHOLE_MAX,
        decreases point - k,
    {
        below = below * 10 + digit_of(digits, k) as u64;
        k = k + 1;
        if below >= WHOLE_MAX {
            proof {
                lemma_whole_grows(digits@, k as int, point as int);
            }
            return WHOLE_MAX;
        }
    }
    if is_rounded_up(digits, point, below + 1) {
        below + 1
    } else {
        below
    }
}

fn find_digits_end(n: &Vec<u8>, at: usize) -> (end: usize)
    requires
        at <= n@.len(),
    ensures
        end == digits_end(n@, at as int),
        at <= end <= n@.len(),
        forall|i: int| at <= i < end ==> #[trigger] n@[i] <= 9,
{
    let mut end: usize = at;
    while end < n.len() && n[end] <= 9
        invariant
            at <= end <= n@.len(),
            digits_end(n@, at as int) == digits_end(n@, end as int),
            forall|i: int| at <= i < end ==> #[trigger] n@[i] <= 9,
        decreases n@.len() - end,
    {
        end = end + 1;
    }
    end
}

/// Tells whether the number can be spelled out.
fn can_be_spelled(n: &Vec<u8>) -> (short: bool)
    ensures
        short == (spelled_len(n@, n@.len()) <= SPELLED_LEN),
        short ==> n@.len() <= SPELLED_LEN,
{
    let mut len: u64 = 0;
    let mut i: usize = 0;
    while i < n.len()
        invariant
            i <= n@.len(),
            i <= len == spelled_len(n@, i as nat),
            len <= SPELLED_LEN,
        decreases n@.len() - i,
    {
        len = len + (if n[i] == 12 {
            2
        } else {
            1
        });
        i = i + 1;
        if len > SPELLED_LEN {
            proof {
                lemma_spelled_grows(n@, i as nat, n@.len());
            }
            return false;
        }
    }
    true
}

proof fn lemma_spelled_grows(n: Seq<u8>, from: nat, to: nat)
    requires
        from <= to,
    ensures
        spelled_len(n, from) <= spelled_len(n, to),
    decreases to,
{
    if from < to {
        lemma_spelled_grows(n, from, (to - 1) as nat);
    }
}

/// Reads the exponent's digits; a value beyond 1000 counts as 1000.
fn read_exponent(n: &Vec<u8>, from: usize) -> (value: i64)
    requires
        from <= n@.len(),
        forall|i: int| from <= i < n@.len() ==> #[trigger] n@[i] <= 9,
    ensures
        ({
            let exact = digits_value(n@, from as int, n@.len() as int);
            &&& 0 <= value <= 1000
            &&& value == exact || value == 1000 && exact >= 1000
        }),
{
    let mut value: i64 = 0;
    let mut i: usize = from;
    while i < n.len()
        invariant
            from <= i <= n@.len(),
            forall|k: int| from <= k < n@.len() ==> #[trigger] n@[k] <= 9,
            0 <= value <= 1000,
            value == digits_value(n@, from as int, i as int) || value == 1000 && digits_value(
                n@,
                from as int,
                i as int,
            ) >= 1000,
        decreases n@.len() - i,
    {
        let next: i64 = value * 10 + n[i] as i64;
        i = i + 1;
        value = if next > 1000 {
            1000
        } else {
            next
        };
    }
    value
}

/// Reads the whole part of the number, if it is a number.
pub fn read_decimal(n: &Vec<u8>) -> (value: Option<i64>)
    ensures
        match value {
            Some(v) => decimal_value(n@) == Some(v as int) && -WHOLE_MAX <= v <= WHOLE_MAX,
            None => decimal_value(n@) is None,
        },
{
    if !can_be_spelled(n) {
        return None;
    }
    let negative = n.len() > 0 && n[0] == 14;
    let start: usize = if negative {
        1
    } else {
        0
    };
    let point: usize = find_digits_end(n, start);
    let mut digits: Vec<u8> = vstd::slice::slice_to_vec(
        vstd::slice::slice_subrange(n.as_slice(), start, point),
    );
    let mut tail: usize = point;
    if point < n.len() && n[point] == 10 {
        tail = find_digits_end(n, point + 1);
        let mut i: usize = point + 1;
        while i < tail
            invariant
                start <= point < i <= tail <= n@.len(),
                digits@ == n@.subrange(start as int, point as int) + n@.subrange(
                    point as int + 1,
                    i as int,
                ),
            decreases tail - i,
        {
            digits.push(n[i]);
            i = i + 1;
            assert(digits@ =~= n@.subrange(start as int, point as int) + n@.subrange(
                point as int + 1,
                i as int,
            ));
        }
    }
    assert(digits@ =~= digits_of(n@));
    assert(all_digits(digits@));
    if digits.len() == 0 {
        return None;
    }
    let mut shift: i64 = 0;
    if tail < n.len() {
        let mut from: usize = tail + 1;
        let mut down = n[tail] == 12;
        if n[tail] == 11 {
            if from < n.len() && n[from] == 14 {
                from = from + 1;
                down = true;
            }
        } else if !down {
            return None;
        }
        if from >= n.len() || find_digits_end(n, from) != n.len() {
            return None;
        }
        let value: i64 = read_exponent(n, from);
        shift = if down {
            -value
        } else {
            value
        };
    }
    let place: i64 = (point - start) as i64 + shift;
    proof {
        let exact = point as int - start + exponent(n@);
        if exact != place {
            lemma_far_points(digits@, place as int, exact);
        }
    }
    let size: i64 = find_magnitude(&digits, place) as i64;
    Some(
        if negative {
            -size
        } else {
            size
        },
    )
}

} // verus!
