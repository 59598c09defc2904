//! Length of a Collatz sequence.
//!
//! The transformation used is the canonical one: an even value is halved and
//! an odd value `n` becomes `3n + 1`. A sequence ends at the first value that
//! is at most 1; its length counts the starting value and every value reached
//! after it, so a start at or below 1 has length 1.

use vstd::prelude::*;

verus! {

/// One Collatz step: halve an even value, map an odd value `n` to `3n + 1`.
pub open spec fn collatz_step(n: int) -> int {
    if n % 2 == 0 {
        n / 2
    } else {
        3 * n + 1
    }
}

/// The value reached from `n` after `k` steps.
pub open spec fn collatz_iter(n: int, k: nat) -> int
    decreases k,
{
    if k == 0 {
        n
    } else {
        collatz_step(collatz_iter(n, (k - 1) as nat))
    }
}

/// The sequence from `n` first reaches a value at most 1 after exactly `k` steps.
pub open spec fn stops_after(n: int, k: nat) -> bool {
    &&& collatz_iter(n, k) <= 1
    &&& forall|j: nat| j < k ==> #[trigger] collatz_iter(n, j) > 1
}

/// The values of the first `k` steps from `n`, `n` itself included, fit in an `i32`.
pub open spec fn fits_i32(n: int, k: nat) -> bool {
    forall|j: nat| j <= k ==> i32::MIN <= #[trigger] collatz_iter(n, j) <= i32::MAX
}

/// The sequence from `n` stops with every value in `i32` and its length in `u32`.
pub open spec fn length_fits(n: int) -> bool {
    exists|k: nat| #![trigger stops_after(n, k)] k < u32::MAX && stops_after(n, k) && fits_i32(n, k)
}

/// A sequence stops after one number of steps only.
pub proof fn lemma_stops_after_unique(n: int, a: nat, b: nat)
    requires
        stops_after(n, a),
        stops_after(n, b),
    ensures
        a == b,
{
    if a < b {
        assert(collatz_iter(n, a) > 1);
    } else if b < a {
        assert(collatz_iter(n, b) > 1);
    }
}

/// A start at or below 1 stops at once: the sequence has length 1, which
/// `collatz_length` accepts and returns.
pub proof fn lemma_short_start(n: i32)
    requires
        n <= 1,
    ensures
        length_fits(n as int),
        stops_after(n as int, 0),
{
    assert(collatz_iter(n as int, 0) == n);
    assert(fits_i32(n as int, 0));
    assert(stops_after(n as int, 0));
}

/// Length of the Collatz sequence that starts at `n`, the start included.
///
/// A start at or below 1 gives 1 at once. The inputs on which a value of the
/// sequence would leave `i32`, or the length would leave `u32`, are excluded.
pub fn collatz_length(n: i32) -> (r: u32)
    requires
        length_fits(n as int),
    ensures
        r >= 1,
        stops_after(n as int, (r - 1) as nat),
        n <= 1 ==> r == 1,
{
    let ghost start = n as int;
    let ghost k = choose|k: nat| #![trigger stops_after(start, k)]
        k < u32::MAX && stops_after(start, k) && fits_i32(start, k);
    let mut n = n;
    let mut count: u32 = 1;
    while n > 1
        invariant
            1 <= count,
            count - 1 <= k,
            k < u32::MAX,
            stops_after(start, k),
            fits_i32(start, k),
            n == collatz_iter(start, (count - 1) as nat),
        decreases k + 1 - count,
    {
        let ghost steps = (count - 1) as nat;
        assert(steps < k);
        assert(collatz_iter(start, steps + 1) == collatz_step(n as int));
        assert(i32::MIN <= collatz_iter(start, steps + 1) <= i32::MAX);
        n = if n % 2 == 0 {
            n / 2
        } else {
            3 * n + 1
        };
        count = count + 1;
    }
    assert(stops_after(start, (count - 1) as nat));
    count
}

/// Length of the Collatz sequence that starts at `n`, or `None` exactly where
/// a value of the sequence would leave `i32` or the length would leave `u32`
/// before the sequence stops.
pub fn checked_collatz_length(n: i32) -> (r: Option<u32>)
    ensures
        r is Some <==> length_fits(n as int),
        r matches Some(c) ==> c >= 1 && stops_after(n as int, (c - 1) as nat),
        n <= 1 ==> r == Some(1u32),
{
    let ghost start = n as int;
    let mut cur = n;
    let mut count: u32 = 1;
    while cur > 1
        invariant
            start == n as int,
            1 <= count,
            cur == collatz_iter(start, (count - 1) as nat),
            forall|j: nat| j < count - 1 ==> #[trigger] collatz_iter(start, j) > 1,
            fits_i32(start, (count - 1) as nat),
        decreases u32::MAX - count,
    {
        let ghost steps = (count - 1) as nat;
        assert(collatz_iter(start, steps + 1) == collatz_step(cur as int));
        assert(start > 1) by {
            assert(collatz_iter(start, 0) == start);
        }
        if count == u32::MAX {
            proof {
                if length_fits(start) {
                    let k = choose|k: nat| #![trigger stops_after(start, k)]
                        k < u32::MAX && stops_after(start, k) && fits_i32(start, k);
                    assert(collatz_iter(start, k) <= 1);
                }
            }
            return None;
        }
        if cur % 2 != 0 && cur > (i32::MAX - 1) / 3 {
            proof {
                if length_fits(start) {
                    let k = choose|k: nat| #![trigger stops_after(start, k)]
                        k < u32::MAX && stops_after(start, k) && fits_i32(start, k);
                    if k <= steps {
                        assert(collatz_iter(start, k) > 1);
                    }
                    assert(collatz_iter(start, steps + 1) <= i32::MAX);
                }
            }
            return None;
        }
        cur = if cur % 2 == 0 {
            cur / 2
        } else {
            3 * cur + 1
        };
        count = count + 1;
    }
    assert(stops_after(start, (count - 1) as nat));
    assert(length_fits(start));
    Some(count)
}

/// For a value above 1, a Collatz step halves an even value, which lowers it,
/// and sends an odd value higher.
pub proof fn lemma_step_direction(n: int)
    requires
        n > 1,
    ensures
        n % 2 == 0 ==> collatz_step(n) < n,
        n % 2 != 0 ==> collatz_step(n) > n,
{
}

/// The values after `k + 1` steps from `n` are those after `k` steps from the
/// next value.
proof fn lemma_iter_from_step(n: int, k: nat)
    ensures
        collatz_iter(collatz_step(n), k) == collatz_iter(n, k + 1),
    decreases k,
{
    if k == 0 {
        assert(collatz_iter(n, 1) == collatz_step(collatz_iter(n, 0)));
    } else {
        lemma_iter_from_step(n, (k - 1) as nat);
        assert(collatz_iter(n, k + 1) == collatz_step(collatz_iter(n, k)));
    }
}

/// Each step from a value above 1 adds exactly one to the length: where the
/// sequence from `n` stops after `k` steps, the one from the next value stops
/// after `k - 1`.
pub proof fn lemma_length_drops_by_one(n: int, k: nat)
    requires
        n > 1,
        stops_after(n, k),
    ensures
        k >= 1,
        stops_after(collatz_step(n), (k - 1) as nat),
{
    let next = collatz_step(n);
    assert(collatz_iter(n, 0) == n);
    lemma_iter_from_step(n, (k - 1) as nat);
    assert forall|j: nat| j < k - 1 implies #[trigger] collatz_iter(next, j) > 1 by {
        lemma_iter_from_step(n, j);
        assert(collatz_iter(n, j + 1) > 1);
    }
}

} // verus!
