//! Altitudes as order keys, and the lookup of an altitude among interval ends.
use vstd::prelude::*;

verus! {

/// The sign bit of an IEEE-754 double.
pub const SIGN_BIT: u64 = 0x8000_0000_0000_0000;

/// The bit pattern of positive infinity: every larger magnitude is a NaN.
pub const INFINITY_BITS: u64 = 0x7ff0_0000_0000_0000;

/// The magnitude bits of a double, its sign left out.
pub open spec fn magnitude(bits: u64) -> int {
    if bits >= SIGN_BIT {
        bits - SIGN_BIT
    } else {
        bits as int
    }
}

/// Whether a bit pattern encodes a NaN.
pub open spec fn is_nan_bits(bits: u64) -> bool {
    magnitude(bits) > INFINITY_BITS
}

/// The place of a double on the number line: its magnitude bits, negated when the sign bit
/// is set. Both zeros get 0. IEEE-754 orders the magnitudes of doubles as it orders their bit
/// patterns, so for doubles that are not NaN the order of keys is the order of the numbers.
pub open spec fn key_of(bits: u64) -> int {
    if bits >= SIGN_BIT {
        -(bits - SIGN_BIT)
    } else {
        bits as int
    }
}

/// The order key of the double with the given bit pattern, or `None` for a NaN, which has no
/// place in the order.
pub fn altitude_key(bits: u64) -> (r: Option<i64>)
    ensures
        r.is_none() <==> is_nan_bits(bits),
        match r {
            Some(k) => k == key_of(bits),
            None => true,
        },
{
    if bits >= SIGN_BIT {
        let m = bits - SIGN_BIT;
        if m > INFINITY_BITS {
            None
        } else {
            Some(-(m as i64))
        }
    } else if bits > INFINITY_BITS {
        None
    } else {
        Some(bits as i64)
    }
}

/// Keys in ascending order; equal neighbours are allowed.
pub open spec fn ascending(s: Seq<i64>) -> bool {
    forall|i: int, j: int| 0 <= i <= j < s.len() ==> s[i] <= s[j]
}

/// Keys in strictly ascending order.
pub open spec fn strictly_ascending(s: Seq<i64>) -> bool {
    forall|i: int, j: int| 0 <= i < j < s.len() ==> s[i] < s[j]
}

/// Keys in strictly ascending order are in ascending order.
pub proof fn lemma_strictly_ascending_is_ascending(s: Seq<i64>)
    requires
        strictly_ascending(s),
    ensures
        ascending(s),
{
    assert forall|i: int, j: int| 0 <= i <= j < s.len() implies s[i] <= s[j] by {
        if i < j {
            assert(s[i] < s[j]);
        }
    }
}

/// Whether the closed interval `index` of a profile with the given ends holds altitude `h`.
/// Interval 0 is open below, the last one is open above.
pub open spec fn holds(ends: Seq<i64>, index: int, h: int) -> bool {
    &&& (index == 0 || ends[index - 1] <= h)
    &&& (index >= ends.len() || h <= ends[index])
}

/// Whether `r` is the interval that a lookup of `h` finds: the first one whose upper end is
/// not below `h`. An altitude on an end belongs to the interval below it.
pub open spec fn is_interval_of(ends: Seq<i64>, h: int, r: int) -> bool {
    &&& 0 <= r <= ends.len()
    &&& forall|j: int| 0 <= j < r ==> ends[j] < h
    &&& r < ends.len() ==> h <= ends[r]
}

/// Whether the keys are in ascending order.
pub fn is_ascending(keys: &Vec<i64>) -> (r: bool)
    ensures
        r == ascending(keys@),
{
    let mut i: usize = 1;
    if keys.len() == 0 {
        return true;
    }
    while i < keys.len()
        invariant
            1 <= i <= keys.len(),
            forall|a: int, b: int| 0 <= a <= b < i ==> keys@[a] <= keys@[b],
        decreases keys.len() - i,
    {
        if keys[i - 1] > keys[i] {
            assert(!ascending(keys@)) by {
                assert(keys@[i - 1] > keys@[i as int]);
            }
            return false;
        }
        assert forall|a: int, b: int| 0 <= a <= b < i + 1 implies keys@[a] <= keys@[b] by {
            if b == i && a < i {
                assert(keys@[a] <= keys@[i - 1]);
            }
        }
        i = i + 1;
    }
    true
}

/// Whether the keys are in strictly ascending order.
pub fn is_strictly_ascending(keys: &Vec<i64>) -> (r: bool)
    ensures
        r == strictly_ascending(keys@),
{
    let mut i: usize = 1;
    if keys.len() == 0 {
        return true;
    }
    while i < keys.len()
        invariant
            1 <= i <= keys.len(),
            forall|a: int, b: int| 0 <= a < b < i ==> keys@[a] < keys@[b],
        decreases keys.len() - i,
    {
        if keys[i - 1] >= keys[i] {
            assert(!strictly_ascending(keys@)) by {
                assert(keys@[i - 1] >= keys@[i as int]);
            }
            return false;
        }
        assert forall|a: int, b: int| 0 <= a < b < i + 1 implies keys@[a] < keys@[b] by {
            if b == i && a < i - 1 {
                assert(keys@[a] < keys@[i - 1]);
            }
        }
        i = i + 1;
    }
    true
}

/// The interval of a profile that holds altitude `h`, found by halving: the number of ends
/// that lie below `h`.
pub fn interval_index(ends: &Vec<i64>, h: i64) -> (r: usize)
    requires
        ascending(ends@),
    ensures
        is_interval_of(ends@, h as int, r as int),
        holds(ends@, r as int, h as int),
{
    let mut lo: usize = 0;
    let mut hi: usize = ends.len();
    while lo < hi
        invariant
            lo <= hi <= ends.len(),
            ascending(ends@),
            forall|j: int| 0 <= j < lo ==> ends@[j] < h,
            forall|j: int| hi <= j < ends.len() ==> h <= ends@[j],
        decreases hi - lo,
    {
        let mid = lo + (hi - lo) / 2;
        if ends[mid] < h {
            assert forall|j: int| 0 <= j < mid + 1 implies ends@[j] < h by {
                assert(ends@[j] <= ends@[mid as int]);
            }
            lo = mid + 1;
        } else {
            assert forall|j: int| mid <= j < ends.len() implies h <= ends@[j] by {
                assert(ends@[mid as int] <= ends@[j]);
            }
            hi = mid;
        }
    }
    lo
}


/// Whether entry `a` comes before entry `b` when entries are ordered by key, equal keys
/// keeping the order of the entries.
pub open spec fn key_before(keys: Seq<i64>, a: int, b: int) -> bool {
    keys[a] < keys[b] || (keys[a] == keys[b] && a < b)
}

/// Whether entry `t` has a place in `order`.
pub open spec fn placed(order: Seq<usize>, t: int) -> bool {
    exists|k: int| 0 <= k < order.len() && order[k] == t
}

/// The entries of `keys` in ascending order of key, entries with equal keys in the order they
/// come: a permutation of the positions `0 .. keys.len()`.
pub fn ascending_order(keys: &Vec<i64>) -> (r: Vec<usize>)
    ensures
        r@.len() == keys@.len(),
        forall|k: int| 0 <= k < r@.len() ==> r@[k] < keys@.len(),
        forall|t: int| 0 <= t < keys@.len() ==> #[trigger] placed(r@, t),
        forall|k: int, l: int|
            0 <= k < l < r@.len() ==> key_before(keys@, r@[k] as int, r@[l] as int),
{
    let n = keys.len();
    let mut order: Vec<usize> = Vec::new();
    let mut i: usize = 0;
    while i < n
        invariant
            i <= n,
            n == keys@.len(),
            order@.len() == i,
            forall|k: int| 0 <= k < order@.len() ==> order@[k] < i,
            forall|t: int| 0 <= t < i ==> #[trigger] placed(order@, t),
            forall|k: int, l: int|
                0 <= k < l < order@.len() ==> key_before(keys@, order@[k] as int, order@[l] as int),
        decreases n - i,
    {
        let mut p: usize = 0;
        while p < order.len() && keys[order[p]] <= keys[i]
            invariant
                i < n,
                n == keys@.len(),
                p <= order@.len(),
                forall|k: int| 0 <= k < order@.len() ==> order@[k] < i,
                forall|q: int| 0 <= q < p ==> keys@[order@[q] as int] <= keys@[i as int],
            decreases order@.len() - p,
        {
            p = p + 1;
        }
        let ghost old = order@;
        assert forall|q: int| p <= q < old.len() implies keys@[old[q] as int] > keys@[i as int] by {
            if q > p {
                assert(key_before(keys@, old[p as int] as int, old[q] as int));
            }
        }
        order.insert(p, i);
        proof {
            old.insert_ensures(p as int, i);
        }
        let ghost new = order@;
        assert forall|k: int| 0 <= k < new.len() implies new[k] < i + 1 by {
            if k > p {
                assert(new[k] == old[k - 1]);
            }
        }
        assert forall|t: int| 0 <= t < i + 1 implies #[trigger] placed(new, t) by {
            if t == i {
                assert(new[p as int] == t);
            } else {
                assert(placed(old, t));
                let k = choose|k: int| 0 <= k < old.len() && old[k] == t;
                if k < p {
                    assert(new[k] == t);
                } else {
                    assert(new[k + 1] == t);
                }
            }
        }
        assert forall|k: int, l: int| 0 <= k < l < new.len() implies key_before(
            keys@,
            new[k] as int,
            new[l] as int,
        ) by {
            if l < p {
                assert(new[k] == old[k] && new[l] == old[l]);
            } else if l == p {
                assert(new[k] == old[k]);
            } else if k < p {
                assert(new[k] == old[k] && new[l] == old[l - 1]);
            } else if k == p {
                assert(new[l] == old[l - 1]);
            } else {
                assert(new[k] == old[k - 1] && new[l] == old[l - 1]);
            }
        }
        i = i + 1;
    }
    order
}

} // verus!
