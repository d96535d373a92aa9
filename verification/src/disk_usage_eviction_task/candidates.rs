//! Eviction candidates, their least-recently-used order, and each tenant's
//! reservation of its most recently used bytes.

use vstd::prelude::*;
use vstd::relations::{sorted_by, total_ordering};
use vstd::seq_lib::lemma_sorted_unique;

verus! {

/// A resident layer that can be evicted.
#[derive(Debug, Clone, Copy, PartialEq, Eq)]
pub struct EvictionCandidate {
    /// Identity of the timeline that owns the layer and evicts it.
    pub timeline: u64,
    /// Identity of the layer within the system.
    pub layer: u64,
    /// Size of the layer file in bytes.
    pub file_size: u64,
    /// Time of the last access to the layer, in nanoseconds since the Unix epoch.
    pub last_activity_ts: u64,
}

/// On which side of its tenant's reservation a candidate lies.
#[derive(Debug, Clone, Copy, PartialEq, Eq)]
pub enum MinResidentSizePartition {
    /// Evicting it leaves the tenant its reservation.
    Above,
    /// It is part of the reservation.
    Below,
}

impl EvictionCandidate {
    /// What candidates are ordered by: last activity first, then the
    /// identities and the size, so that no two distinct candidates tie.
    pub open spec fn spec_lru_key(&self) -> (u64, u64, u64, u64) {
        (self.last_activity_ts, self.timeline, self.layer, self.file_size)
    }

    #[verifier::when_used_as_spec(spec_lru_key)]
    pub fn lru_key(&self) -> (key: (u64, u64, u64, u64))
        ensures
            key == self.spec_lru_key(),
    {
        (self.last_activity_ts, self.timeline, self.layer, self.file_size)
    }
}

/// `a` is evicted no later than `b`: lexicographic order of the keys.
pub open spec fn lru_leq(a: EvictionCandidate, b: EvictionCandidate) -> bool {
    let (a0, a1, a2, a3) = a.spec_lru_key();
    let (b0, b1, b2, b3) = b.spec_lru_key();
    a0 < b0 || (a0 == b0 && (a1 < b1 || (a1 == b1 && (a2 < b2 || (a2 == b2 && a3 <= b3)))))
}

/// `lru_leq` as a relation.
pub open spec fn lru_order() -> spec_fn(EvictionCandidate, EvictionCandidate) -> bool {
    |a: EvictionCandidate, b: EvictionCandidate| lru_leq(a, b)
}

/// The candidates of `s`, least recently used first.
pub open spec fn lru_sorted(s: Seq<EvictionCandidate>) -> Seq<EvictionCandidate> {
    s.sort_by(lru_order())
}

/// The candidates of `s`, most recently used first.
pub open spec fn mru_sorted(s: Seq<EvictionCandidate>) -> Seq<EvictionCandidate> {
    lru_sorted(s).reverse()
}

/// Non-decreasing in `last_activity_ts`.
pub open spec fn sorted_by_last_activity(s: Seq<EvictionCandidate>) -> bool {
    forall|i: int, j: int|
        0 <= i <= j < s.len() ==> (#[trigger] s[i]).last_activity_ts <= (
        #[trigger] s[j]).last_activity_ts
}

/// Bytes that the candidates of `s` hold together.
pub open spec fn size_sum(s: Seq<EvictionCandidate>) -> nat
    decreases s.len(),
{
    if s.len() == 0 {
        0
    } else {
        size_sum(s.drop_last()) + s.last().file_size as nat
    }
}

/// How many leading candidates of `mru`, which lists a tenant's layers most
/// recently used first, belong to a reservation of `min_resident_size`
/// bytes. A layer is reserved while the layers before it hold no more than
/// the reservation.
pub open spec fn reserved_count(mru: Seq<EvictionCandidate>, min_resident_size: u64) -> nat
    decreases mru.len(),
{
    if mru.len() == 0 {
        0
    } else if size_sum(mru.drop_last()) <= min_resident_size {
        mru.len()
    } else {
        reserved_count(mru.drop_last(), min_resident_size)
    }
}

/// The layers of a tenant that its reservation protects, most recently used first.
pub open spec fn tenant_below(layers: Seq<EvictionCandidate>, min_resident_size: u64) -> Seq<
    EvictionCandidate,
> {
    let mru = mru_sorted(layers);
    mru.take(reserved_count(mru, min_resident_size) as int)
}

/// The layers of a tenant outside its reservation, most recently used first.
pub open spec fn tenant_above(layers: Seq<EvictionCandidate>, min_resident_size: u64) -> Seq<
    EvictionCandidate,
> {
    let mru = mru_sorted(layers);
    mru.skip(reserved_count(mru, min_resident_size) as int)
}

/// The order of eviction is total: any two candidates compare, and only
/// equal candidates tie.
pub proof fn lemma_lru_order_total()
    ensures
        total_ordering(lru_order()),
{
    let r = lru_order();
    assert forall|a: EvictionCandidate, b: EvictionCandidate| #[trigger]
        r(a, b) && r(b, a) implies a == b by {
        assert(a.spec_lru_key() == b.spec_lru_key());
    }
}

/// Sorting least recently used first keeps the candidates and orders them,
/// also by last activity alone.
pub proof fn lemma_lru_sorted(s: Seq<EvictionCandidate>)
    ensures
        lru_sorted(s).to_multiset() == s.to_multiset(),
        lru_sorted(s).len() == s.len(),
        sorted_by(lru_sorted(s), lru_order()),
        sorted_by_last_activity(lru_sorted(s)),
{
    broadcast use vstd::seq_lib::group_to_multiset_ensures;

    lemma_lru_order_total();
    s.lemma_sort_by_ensures(lru_order());
    let t = lru_sorted(s);
    assert(t.to_multiset().len() == s.to_multiset().len());
    assert forall|i: int, j: int| 0 <= i <= j < t.len() implies (#[trigger] t[i]).last_activity_ts
        <= (#[trigger] t[j]).last_activity_ts by {
        if i < j {
            assert(lru_order()(t[i], t[j]));
        }
    }
}

/// There is one way only to order given candidates least recently used
/// first: a sequence that holds the candidates of `s` in that order is
/// `lru_sorted(s)`.
pub proof fn lemma_lru_sorted_unique(s: Seq<EvictionCandidate>, ordered: Seq<EvictionCandidate>)
    requires
        sorted_by(ordered, lru_order()),
        ordered.to_multiset() == s.to_multiset(),
    ensures
        ordered == lru_sorted(s),
{
    lemma_lru_order_total();
    lemma_lru_sorted(s);
    lemma_sorted_unique(ordered, lru_sorted(s), lru_order());
}

/// Prefixes of a sequence hold no more bytes than the sequence.
pub proof fn lemma_size_sum_prefix(s: Seq<EvictionCandidate>, i: int)
    requires
        0 <= i <= s.len(),
    ensures
        size_sum(s.take(i)) <= size_sum(s),
        size_sum(s) <= s.len() * u64::MAX,
    decreases s.len(),
{
    if s.len() == 0 {
        assert(s.take(i) == s);
    } else if i == s.len() {
        assert(s.take(i) == s);
        lemma_size_sum_prefix(s.drop_last(), 0);
    } else {
        assert(s.drop_last().take(i) == s.take(i));
        lemma_size_sum_prefix(s.drop_last(), i);
    }
}

/// The candidate at position `i` of `mru` is reserved exactly when the
/// candidates before it hold no more than `min_resident_size` bytes.
pub proof fn lemma_reserved_count(mru: Seq<EvictionCandidate>, min_resident_size: u64, i: int)
    requires
        0 <= i < mru.len(),
    ensures
        reserved_count(mru, min_resident_size) <= mru.len(),
        i < reserved_count(mru, min_resident_size) <==> size_sum(mru.take(i))
            <= min_resident_size,
    decreases mru.len(),
{
    let rest = mru.drop_last();
    assert(rest == mru.take(mru.len() - 1));
    if size_sum(rest) <= min_resident_size {
        assert(rest.take(i) == mru.take(i));
        lemma_size_sum_prefix(rest, i);
    } else if i == mru.len() - 1 {
        if rest.len() > 0 {
            lemma_reserved_count(rest, min_resident_size, 0);
        }
    } else {
        assert(rest.take(i) == mru.take(i));
        lemma_reserved_count(rest, min_resident_size, i);
    }
}

/// `<[T]>::sort_unstable_by_key` of std, keyed by `lru_key`. The slice
/// is sorted by the key afterwards and holds the elements it held before.
/// The key is a tuple of integers, which std orders lexicographically.
#[verifier::external_body]
fn sort_unstable_by_lru_key(candidates: &mut Vec<EvictionCandidate>)
    ensures
        sorted_by(final(candidates)@, lru_order()),
        final(candidates)@.to_multiset() == old(candidates)@.to_multiset(),
{
    candidates.sort_unstable_by_key(|c| c.lru_key());
}

/// Sorts `candidates` least recently used first: by last activity, and
/// among candidates of the same activity by timeline, layer and size.
pub fn sort_lru(candidates: &mut Vec<EvictionCandidate>)
    ensures
        final(candidates)@ == lru_sorted(old(candidates)@),
        sorted_by(final(candidates)@, lru_order()),
        sorted_by_last_activity(final(candidates)@),
        final(candidates)@.to_multiset() == old(candidates)@.to_multiset(),
{
    sort_unstable_by_lru_key(candidates);
    proof {
        lemma_lru_sorted_unique(old(candidates)@, candidates@);
        lemma_lru_sorted(old(candidates)@);
    }
}

/// Splits the layers of one tenant around its reservation and appends the
/// reserved ones to `below`, the others to `above`.
pub fn partition_tenant(
    tenant_candidates: Vec<EvictionCandidate>,
    min_resident_size: u64,
    above: &mut Vec<EvictionCandidate>,
    below: &mut Vec<EvictionCandidate>,
)
    ensures
        final(above)@ == old(above)@ + tenant_above(tenant_candidates@, min_resident_size),
        final(below)@ == old(below)@ + tenant_below(tenant_candidates@, min_resident_size),
{
    let mut sorted = tenant_candidates;
    sort_lru(&mut sorted);
    let ghost mru = mru_sorted(tenant_candidates@);
    let ghost reserved = reserved_count(mru, min_resident_size) as int;
    let n = sorted.len();
    proof {
        lemma_lru_sorted(tenant_candidates@);
        if n > 0 {
            lemma_reserved_count(mru, min_resident_size, 0);
        }
        assert(mru.take(0) == Seq::<EvictionCandidate>::empty());
        assert(mru.subrange(0, 0) == Seq::<EvictionCandidate>::empty());
        assert(above@ + mru.subrange(0, 0) == above@);
        assert(below@ + mru.take(0) == below@);
    }
    // Walk most recently used first: from the back of the sorted list.
    let mut walked: usize = 0;
    let mut cumsum: u128 = 0;
    while walked < n
        invariant
            n == sorted.len(),
            sorted@ == lru_sorted(tenant_candidates@),
            mru == sorted@.reverse(),
            mru.len() == n,
            walked <= n,
            reserved == reserved_count(mru, min_resident_size),
            reserved <= n,
            cumsum == size_sum(mru.take(walked as int)),
            cumsum <= walked * u64::MAX,
            walked <= reserved ==> below@ == old(below)@ + mru.take(walked as int) && above@ == old(
                above,
            )@,
            walked > reserved ==> below@ == old(below)@ + mru.take(reserved) && above@ == old(
                above,
            )@ + mru.subrange(reserved, walked as int),
        decreases n - walked,
    {
        let candidate = sorted[n - 1 - walked];
        proof {
            assert(mru[walked as int] == candidate);
            lemma_reserved_count(mru, min_resident_size, walked as int);
            assert(mru.take(walked + 1).drop_last() == mru.take(walked as int));
            assert(mru.take(walked + 1) == mru.take(walked as int).push(candidate));
            if walked >= reserved {
                assert(mru.subrange(reserved, walked + 1) == mru.subrange(
                    reserved,
                    walked as int,
                ).push(candidate));
                assert(mru.subrange(reserved, reserved) == Seq::<EvictionCandidate>::empty());
            }
            assert(cumsum + candidate.file_size <= (walked + 1) * u64::MAX) by (nonlinear_arith)
                requires
                    cumsum <= walked * u64::MAX,
                    candidate.file_size <= u64::MAX,
            ;
        }
        if cumsum > min_resident_size as u128 {
            above.push(candidate);
        } else {
            below.push(candidate);
        }
        cumsum = cumsum + candidate.file_size as u128;
        walked = walked + 1;
    }
    proof {
        assert(mru.take(n as int) == mru);
        if n as int > reserved {
            assert(mru.subrange(reserved, n as int) == mru.skip(reserved));
        } else {
            assert(mru.take(reserved) == mru);
            assert(mru.skip(reserved) == Seq::<EvictionCandidate>::empty());
            assert(above@ + mru.skip(reserved) == above@);
        }
    }
}

} // verus!
