//! Spec-level helpers over an arena's slot sequence.  A slot is an
//! identifier paired with an optional payload; these definitions and laws
//! depend on neither the identifier type nor the payload type, so both
//! arena flavours share them.

use crate::CAPACITY;
use crate::HALF_CAPACITY;
use vstd::prelude::*;

verus! {

/// Index of the first empty slot in `[lo, hi)`, scanning ascending when
/// `ascending` and descending otherwise; `None` when the range is full.
pub open spec fn scan_free<I, P>(
    s: Seq<(I, Option<P>)>,
    lo: int,
    hi: int,
    ascending: bool,
) -> Option<int>
    decreases hi - lo,
{
    if lo >= hi {
        None
    } else if ascending {
        if s[lo].1 is None {
            Some(lo)
        } else {
            scan_free(s, lo + 1, hi, ascending)
        }
    } else {
        if s[hi - 1].1 is None {
            Some(hi - 1)
        } else {
            scan_free(s, lo, hi - 1, ascending)
        }
    }
}

/// Slot the next replicated allocation will take: the lowest empty slot
/// of the replicated half.
pub open spec fn first_free_replicated<I, P>(s: Seq<(I, Option<P>)>) -> Option<int> {
    scan_free(s, 0, HALF_CAPACITY as int, true)
}

/// Slot the next local allocation will take: the highest empty slot of
/// the local half.
pub open spec fn first_free_local<I, P>(s: Seq<(I, Option<P>)>) -> Option<int> {
    scan_free(s, HALF_CAPACITY as int, 2 * (HALF_CAPACITY as int), false)
}

/// Number of occupied slots at positions `i` and above.
pub open spec fn occupied_count_from<I, P>(s: Seq<(I, Option<P>)>, i: int) -> int
    decreases s.len() - i,
{
    if i < 0 || i >= s.len() {
        0
    } else {
        (if s[i].1 is Some {
            1int
        } else {
            0int
        }) + occupied_count_from(s, i + 1)
    }
}

/// Number of occupied slots of the snapshot.
pub open spec fn occupied_count<I, P>(s: Seq<(I, Option<P>)>) -> int {
    occupied_count_from(s, 0)
}

/// The payloads of the occupied slots at positions `i` and above, in slot
/// order.
pub open spec fn live_list_from<I, P>(s: Seq<(I, Option<P>)>, i: int) -> Seq<P>
    decreases s.len() - i,
{
    if i < 0 || i >= s.len() {
        Seq::empty()
    } else {
        (match s[i].1 {
            Some(p) => seq![p],
            None => Seq::empty(),
        }) + live_list_from(s, i + 1)
    }
}

/// The payloads of the occupied slots, in slot order.
pub open spec fn live_list<I, P>(s: Seq<(I, Option<P>)>) -> Seq<P> {
    live_list_from(s, 0)
}

/// The identifiers of the occupied slots at positions `i` and above, in
/// slot order.
pub open spec fn live_ids_from<I, P>(s: Seq<(I, Option<P>)>, i: int) -> Seq<I>
    decreases s.len() - i,
{
    if i < 0 || i >= s.len() {
        Seq::empty()
    } else {
        (if s[i].1 is Some {
            seq![s[i].0]
        } else {
            Seq::empty()
        }) + live_ids_from(s, i + 1)
    }
}

/// The identifiers of the occupied slots, in slot order.
pub open spec fn live_ids<I, P>(s: Seq<(I, Option<P>)>) -> Seq<I> {
    live_ids_from(s, 0)
}

/// The base snapshot `prev` with the replicated-half slots below `upto`
/// replaced by those of `cur`: what decoding a full delta log rebuilds.
pub open spec fn merge_replicated<I, P>(
    cur: Seq<(I, Option<P>)>,
    prev: Seq<(I, Option<P>)>,
    upto: int,
) -> Seq<(I, Option<P>)> {
    Seq::new(
        prev.len(),
        |j: int|
            if 0 <= j < upto && j < HALF_CAPACITY {
                cur[j]
            } else {
                prev[j]
            },
    )
}

/// A scan finds a free slot exactly when the range holds one: allocation
/// in a half fails only when that half is full.
pub proof fn lemma_scan_free_exists<I, P>(s: Seq<(I, Option<P>)>, lo: int, hi: int, ascending: bool)
    ensures
        (scan_free(s, lo, hi, ascending) is Some) <==> exists|k: int|
            lo <= k < hi && s[k].1 is None,
    decreases hi - lo,
{
    if lo < hi {
        if ascending {
            lemma_scan_free_exists(s, lo + 1, hi, ascending);
            if s[lo].1 is None {
                assert(lo <= lo < hi && s[lo].1 is None);
            }
        } else {
            lemma_scan_free_exists(s, lo, hi - 1, ascending);
            if s[hi - 1].1 is None {
                assert(lo <= hi - 1 < hi && s[hi - 1].1 is None);
            }
        }
    }
}

/// A successful scan always points inside its range, at an empty slot.
pub proof fn lemma_scan_free_in_range<I, P>(
    s: Seq<(I, Option<P>)>,
    lo: int,
    hi: int,
    ascending: bool,
)
    ensures
        scan_free(s, lo, hi, ascending) matches Some(j) ==> lo <= j < hi && s[j].1 is None,
    decreases hi - lo,
{
    if lo < hi {
        if ascending {
            lemma_scan_free_in_range(s, lo + 1, hi, ascending);
        } else {
            lemma_scan_free_in_range(s, lo, hi - 1, ascending);
        }
    }
}

proof fn lemma_scan_free_frame<I, P>(
    s: Seq<(I, Option<P>)>,
    lo: int,
    hi: int,
    ascending: bool,
    k: int,
    slot: (I, Option<P>),
)
    requires
        0 <= k < s.len(),
        !(lo <= k < hi),
        0 <= lo,
        hi <= s.len(),
    ensures
        scan_free(s.update(k, slot), lo, hi, ascending) == scan_free(s, lo, hi, ascending),
    decreases hi - lo,
{
    if lo < hi {
        if ascending {
            assert(s.update(k, slot)[lo] == s[lo]);
            lemma_scan_free_frame(s, lo + 1, hi, ascending, k, slot);
        } else {
            assert(s.update(k, slot)[hi - 1] == s[hi - 1]);
            lemma_scan_free_frame(s, lo, hi - 1, ascending, k, slot);
        }
    }
}

/// Half isolation, one direction: changing any slot of the replicated
/// half — allocating there, deleting there, exhausting it — never changes
/// which slot the local half will yield next, so it can never prevent a
/// local allocation from succeeding.
pub proof fn lemma_half_isolation_local<I, P>(s: Seq<(I, Option<P>)>, k: int, slot: (I, Option<P>))
    requires
        s.len() == CAPACITY,
        0 <= k < HALF_CAPACITY,
    ensures
        first_free_local(s.update(k, slot)) == first_free_local(s),
{
    lemma_scan_free_frame(s, HALF_CAPACITY as int, 2 * (HALF_CAPACITY as int), false, k, slot);
}

/// Half isolation, the other direction: changing any slot of the local
/// half never changes which slot the replicated half will yield next.
pub proof fn lemma_half_isolation_replicated<I, P>(
    s: Seq<(I, Option<P>)>,
    k: int,
    slot: (I, Option<P>),
)
    requires
        s.len() == CAPACITY,
        HALF_CAPACITY <= k < s.len(),
    ensures
        first_free_replicated(s.update(k, slot)) == first_free_replicated(s),
{
    lemma_scan_free_frame(s, 0, HALF_CAPACITY as int, true, k, slot);
}

proof fn lemma_scan_free_first_asc<I, P>(s: Seq<(I, Option<P>)>, lo: int, hi: int, n: int)
    requires
        lo <= n < hi,
        forall|j: int| lo <= j < n ==> (#[trigger] s[j]).1 is Some,
        s[n].1 is None,
    ensures
        scan_free(s, lo, hi, true) == Some(n),
    decreases n - lo,
{
    if lo < n {
        lemma_scan_free_first_asc(s, lo + 1, hi, n);
    }
}

proof fn lemma_scan_free_first_desc<I, P>(s: Seq<(I, Option<P>)>, lo: int, hi: int, n: int)
    requires
        lo <= n < hi,
        forall|j: int| n < j < hi ==> (#[trigger] s[j]).1 is Some,
        s[n].1 is None,
    ensures
        scan_free(s, lo, hi, false) == Some(n),
    decreases hi - n,
{
    if n < hi - 1 {
        lemma_scan_free_first_desc(s, lo, hi - 1, n);
    }
}

/// Allocation order determinism, replicated half: with slots `0 .. n`
/// occupied and slot `n` empty, the next replicated allocation takes slot
/// `n`.  On a fresh arena the Nth replicated allocation therefore takes
/// slot N-1.
pub proof fn lemma_allocation_order_replicated<I, P>(s: Seq<(I, Option<P>)>, n: int)
    requires
        0 <= n < HALF_CAPACITY,
        forall|j: int| 0 <= j < n ==> (#[trigger] s[j]).1 is Some,
        s[n].1 is None,
    ensures
        first_free_replicated(s) == Some(n),
{
    lemma_scan_free_first_asc(s, 0, HALF_CAPACITY as int, n);
}

/// Allocation order determinism, local half: with the slots above `n` (up
/// to the top of the local range) occupied and slot `n` empty, the next
/// local allocation takes slot `n`.  On a fresh arena the Nth local
/// allocation therefore takes slot `2 * HALF_CAPACITY - N`.
pub proof fn lemma_allocation_order_local<I, P>(s: Seq<(I, Option<P>)>, n: int)
    requires
        HALF_CAPACITY <= n < 2 * (HALF_CAPACITY as int),
        forall|j: int| n < j < 2 * (HALF_CAPACITY as int) ==> (#[trigger] s[j]).1 is Some,
        s[n].1 is None,
    ensures
        first_free_local(s) == Some(n),
{
    lemma_scan_free_first_desc(s, HALF_CAPACITY as int, 2 * (HALF_CAPACITY as int), n);
}

} // verus!
