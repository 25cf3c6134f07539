//! The keyspace search engine: contiguous sub-range partitioning across
//! workers, the sequential candidate scan, and match detection against a
//! target address.

use vstd::prelude::*;
use vstd::arithmetic::div_mod::{lemma_div_is_ordered, lemma_fundamental_div_mod};
use crate::big::Big;
use crate::derive::{derive_address, scheme_address, PointScheme};

verus! {

/// An inclusive range of candidate scalars.
pub struct SearchRange {
    pub low: Big,
    pub high: Big,
}

impl SearchRange {
    /// Bounds are positive and ordered.
    pub open spec fn wf(&self) -> bool {
        1 <= self.low@ <= self.high@
    }

    /// How many scalars the range holds.
    pub open spec fn size(&self) -> int {
        self.high@ - self.low@ + 1
    }

    /// Whether the range holds the scalar `k`.
    pub open spec fn holds(&self, k: nat) -> bool {
        self.low@ <= k <= self.high@
    }

    /// A range from inclusive bounds; `None` exactly when the bounds are not
    /// `1 <= low <= high`.
    pub fn new(low: Big, high: Big) -> (r: Option<SearchRange>)
        ensures
            r is Some <==> 1 <= low@ <= high@,
            r is Some ==> r->0.low@ == low@ && r->0.high@ == high@ && r->0.wf(),
    {
        if low.is_zero() {
            None
        } else if low.le_big(&high) {
            Some(SearchRange { low, high })
        } else {
            None
        }
    }
}

/// The terminal outcome of one search invocation.
pub enum SearchResult {
    Found(Big),
    Exhausted,
    Cancelled,
}

/// Scans `[low, high]` in ascending order and returns the first scalar whose
/// derived address equals the target, if any.
pub fn scan_range<S: PointScheme>(scheme: &S, target: &str, low: &Big, high: &Big) -> (r: Option<
    Big,
>)
    requires
        1 <= low@,
        high@ < scheme.order_spec(),
    ensures
        r is Some ==> low@ <= r->0@ <= high@ && scheme_address(scheme, r->0@) == target@ && forall|
            j: nat,
        | low@ <= j < r->0@ ==> scheme_address(scheme, j) != target@,
        r is None ==> forall|j: nat| low@ <= j <= high@ ==> scheme_address(scheme, j) != target@,
{
    let target_string = target.to_owned();
    let one = Big::from_u64(1);
    let mut cur = low.clone_big();
    while cur.le_big(high)
        invariant
            1 <= low@ <= cur@,
            high@ < scheme.order_spec(),
            one@ == 1,
            target_string@ == target@,
            forall|j: nat| low@ <= j < cur@ ==> scheme_address(scheme, j) != target@,
        decreases high@ + 1 - cur@,
    {
        let point = scheme.derive_point(&cur);
        let addr = derive_address(&point);
        if addr == target_string {
            return Some(cur);
        }
        cur = cur.add_big(&one);
    }
    None
}

/// Splits a range into contiguous, gap-free, ascending sub-ranges: one per
/// worker, or one per scalar when there are fewer scalars than workers. Sizes
/// are as equal as integer division allows, the remainder going to the first
/// sub-ranges.
pub fn partition(range: &SearchRange, worker_count: u64) -> (parts: Vec<SearchRange>)
    requires
        range.wf(),
        worker_count >= 1,
    ensures
        parts.len() >= 1,
        forall|i: int| 0 <= i < parts.len() ==> (#[trigger] parts[i]).wf(),
        parts[0].low@ == range.low@,
        parts[parts.len() - 1].high@ == range.high@,
        forall|i: int|
            0 <= i < parts.len() - 1 ==> #[trigger] parts[i + 1].low@ == parts[i].high@ + 1,
        parts.len() == if worker_count as int <= range.size() {
            worker_count as int
        } else {
            range.size()
        },
        forall|i: int|
            0 <= i < parts.len() ==> (#[trigger] parts[i]).size() == range.size() / (
            parts.len() as int) + if i < range.size() % (parts.len() as int) {
                1int
            } else {
                0int
            },
{
    let one = Big::from_u64(1);
    let width = range.high.sub_big(&range.low).add_big(&one);
    let w_big = Big::from_u64(worker_count);
    let eff: u64 = if width.le_big(&w_big) {
        match width.to_u64() {
            Some(v) => v,
            None => vstd::pervasive::unreached(),
        }
    } else {
        worker_count
    };
    proof {
        assert(eff as int == if worker_count as int <= range.size() {
            worker_count as int
        } else {
            range.size()
        });
        assert(1 <= eff as int <= width@);
    }
    let eff_big = Big::from_u64(eff);
    let (chunk, rem) = width.divmod_big(&eff_big);
    let rem64: u64 = match rem.to_u64() {
        Some(v) => v,
        None => vstd::pervasive::unreached(),
    };
    proof {
        assert(chunk@ >= 1) by {
            lemma_div_is_ordered(eff as int, width@ as int, eff as int);
            vstd::arithmetic::div_mod::lemma_div_by_self(eff as int);
        }
    }
    let mut parts: Vec<SearchRange> = Vec::new();
    let mut start = range.low.clone_big();
    let mut i: u64 = 0;
    while i < eff
        invariant
            i <= eff,
            1 <= eff,
            eff as int <= width@,
            width@ == range.size(),
            range.wf(),
            one@ == 1,
            chunk@ == width@ as int / (eff as int),
            chunk@ >= 1,
            rem64 == width@ as int % (eff as int),
            parts.len() == i,
            start@ == range.low@ + i * chunk@ + if i <= rem64 {
                i as int
            } else {
                rem64 as int
            },
            i > 0 ==> parts[0].low@ == range.low@,
            i > 0 ==> parts[i - 1].high@ + 1 == start@,
            forall|t: int| 0 <= t < i ==> (#[trigger] parts[t]).wf(),
            forall|t: int| 0 <= t < i - 1 ==> #[trigger] parts[t + 1].low@ == parts[t].high@ + 1,
            forall|t: int|
                0 <= t < i ==> (#[trigger] parts[t]).size() == chunk@ + if t < rem64 {
                    1int
                } else {
                    0int
                },
        decreases eff - i,
    {
        let mut next = start.add_big(&chunk);
        if i < rem64 {
            next = next.add_big(&one);
        }
        let end = next.sub_big(&one);
        let ghost old_parts = parts@;
        let ghost start_val = start@;
        parts.push(SearchRange { low: start, high: end });
        proof {
            assert((i + 1) * chunk@ == i * chunk@ + chunk@) by (nonlinear_arith);
        }
        start = next;
        i = i + 1;
    }
    proof {
        assert(i as int * chunk@ + rem64 as int == width@) by {
            lemma_fundamental_div_mod(width@ as int, eff as int);
            assert(eff as int * chunk@ == i as int * chunk@) by (nonlinear_arith)
                requires
                    i == eff,
                    chunk@ == width@ as int / (eff as int),
            ;
        }
        assert(start@ == range.high@ + 1);
        assert(parts[parts.len() - 1].high@ == range.high@);
    }
    parts
}

/// Within a contiguous ascending chain of sub-ranges, bounds grow with the
/// index.
proof fn lemma_chain_ordered(parts: Seq<SearchRange>, i: int, j: int)
    requires
        forall|t: int| 0 <= t < parts.len() ==> (#[trigger] parts[t]).wf(),
        forall|t: int|
            0 <= t < parts.len() - 1 ==> #[trigger] parts[t + 1].low@ == parts[t].high@ + 1,
        0 <= i <= j < parts.len(),
    ensures
        parts[i].low@ <= parts[j].low@,
        parts[i].high@ <= parts[j].high@,
        i < j ==> parts[i].high@ < parts[j].low@,
    decreases j - i,
{
    if i < j {
        lemma_chain_ordered(parts, i, j - 1);
        assert(parts[(j - 1) + 1].low@ == parts[j - 1].high@ + 1);
    }
}

/// Every scalar of the scanned range lies in some sub-range of a contiguous
/// ascending chain.
proof fn lemma_chain_covers(parts: Seq<SearchRange>, n: int, k: nat)
    requires
        forall|t: int| 0 <= t < parts.len() ==> (#[trigger] parts[t]).wf(),
        forall|t: int|
            0 <= t < parts.len() - 1 ==> #[trigger] parts[t + 1].low@ == parts[t].high@ + 1,
        1 <= n <= parts.len(),
        parts[0].low@ <= k <= parts[n - 1].high@,
    ensures
        exists|t: int| 0 <= t < n && (#[trigger] parts[t]).holds(k),
    decreases n,
{
    if parts[n - 1].low@ <= k {
        assert(parts[n - 1].holds(k));
    } else {
        assert(parts[(n - 2) + 1].low@ == parts[n - 2].high@ + 1);
        lemma_chain_covers(parts, n - 1, k);
    }
}

/// Whether some sub-range of the chain holds the scalar `k`.
pub open spec fn covered(parts: Seq<SearchRange>, k: nat) -> bool {
    exists|t: int| 0 <= t < parts.len() && #[trigger] parts[t].holds(k)
}

/// The law the partitioning obeys: the sub-ranges that `partition` returns
/// are pairwise disjoint, and their union is exactly the original range — no
/// gaps and no overlaps. The premises are the chain facts `partition`
/// ensures.
pub proof fn lemma_partition_disjoint_and_complete(parts: Seq<SearchRange>, low: nat, high: nat)
    requires
        parts.len() >= 1,
        forall|t: int| 0 <= t < parts.len() ==> (#[trigger] parts[t]).wf(),
        forall|t: int|
            0 <= t < parts.len() - 1 ==> #[trigger] parts[t + 1].low@ == parts[t].high@ + 1,
        parts[0].low@ == low,
        parts[parts.len() - 1].high@ == high,
    ensures
        forall|i: int, j: int, k: nat|
            0 <= i < j < parts.len() ==> !(#[trigger] parts[i].holds(k)
                && #[trigger] parts[j].holds(k)),
        forall|k: nat| low <= k <= high ==> #[trigger] covered(parts, k),
        forall|k: nat| #[trigger] covered(parts, k) ==> low <= k <= high,
{
    assert forall|i: int, j: int, k: nat|
        0 <= i < j < parts.len() implies !(#[trigger] parts[i].holds(k)
        && #[trigger] parts[j].holds(k)) by {
        lemma_chain_ordered(parts, i, j);
    }
    assert forall|k: nat| low <= k <= high implies #[trigger] covered(parts, k) by {
        lemma_chain_covers(parts, parts.len() as int, k);
    }
    assert forall|k: nat| #[trigger] covered(parts, k) implies low <= k <= high by {
        let t = choose|t: int| 0 <= t < parts.len() && #[trigger] parts[t].holds(k);
        lemma_chain_ordered(parts, 0, t);
        lemma_chain_ordered(parts, t, parts.len() - 1);
    }
}

/// Searches the whole range for the scalar whose derived address is the
/// target. The range is first partitioned for the workers; sub-ranges are
/// scanned in ascending order, so the result is the smallest matching scalar
/// when one exists, and `Exhausted` otherwise — never `Cancelled`, and
/// independent of the worker count.
pub fn find_private_key_by_address<S: PointScheme>(
    scheme: &S,
    target: &str,
    range: &SearchRange,
    worker_count: u64,
) -> (r: SearchResult)
    requires
        range.wf(),
        range.high@ < scheme.order_spec(),
        worker_count >= 1,
    ensures
        search_outcome_ok(scheme, target@, range, r),
{
    let parts = partition(range, worker_count);
    let mut idx: usize = 0;
    while idx < parts.len()
        invariant
            idx <= parts.len(),
            parts.len() >= 1,
            range.wf(),
            range.high@ < scheme.order_spec(),
            forall|t: int| 0 <= t < parts.len() ==> (#[trigger] parts[t]).wf(),
            forall|t: int|
                0 <= t < parts.len() - 1 ==> #[trigger] parts[t + 1].low@ == parts[t].high@ + 1,
            parts[0].low@ == range.low@,
            parts[parts.len() - 1].high@ == range.high@,
            forall|j: nat|
                idx < parts.len() && range.low@ <= j < parts[idx as int].low@
                    ==> scheme_address(scheme, j) != target@,
            idx == parts.len() ==> forall|j: nat|
                range.low@ <= j <= range.high@ ==> scheme_address(scheme, j) != target@,
        decreases parts.len() - idx,
    {
        proof {
            lemma_chain_ordered(parts@, 0, idx as int);
            lemma_chain_ordered(parts@, idx as int, parts.len() - 1);
        }
        let part = &parts[idx];
        match scan_range(scheme, target, &part.low, &part.high) {
            Some(k) => {
                return SearchResult::Found(k);
            },
            None => {
                proof {
                    if idx + 1 < parts.len() {
                        assert(parts@[idx as int + 1].low@ == parts@[idx as int].high@ + 1);
                    }
                }
                idx = idx + 1;
            },
        }
    }
    SearchResult::Exhausted
}

/// Whether two byte strings are equal.
fn bytes_eq(a: &Vec<u8>, b: &Vec<u8>) -> (r: bool)
    ensures
        r == (a@ == b@),
{
    if a.len() != b.len() {
        proof {
            assert(a@ != b@);
        }
        return false;
    }
    let mut i: usize = 0;
    while i < a.len()
        invariant
            i <= a.len(),
            a.len() == b.len(),
            forall|t: int| 0 <= t < i ==> a@[t] == b@[t],
        decreases a.len() - i,
    {
        if a[i] != b[i] {
            proof {
                assert(a@[i as int] != b@[i as int]);
            }
            return false;
        }
        i = i + 1;
    }
    proof {
        assert(a@ =~= b@);
    }
    true
}

/// Scans `[low, high]` in ascending order and returns the first scalar whose
/// compressed public key equals the target, if any.
pub fn scan_range_by_public_key<S: PointScheme>(
    scheme: &S,
    target_point: &Vec<u8>,
    low: &Big,
    high: &Big,
) -> (r: Option<Big>)
    requires
        1 <= low@,
        high@ < scheme.order_spec(),
    ensures
        r is Some ==> low@ <= r->0@ <= high@ && scheme.point_spec(r->0@) == target_point@ && forall|
            j: nat,
        | low@ <= j < r->0@ ==> scheme.point_spec(j) != target_point@,
        r is None ==> forall|j: nat|
            low@ <= j <= high@ ==> scheme.point_spec(j) != target_point@,
{
    let one = Big::from_u64(1);
    let mut cur = low.clone_big();
    while cur.le_big(high)
        invariant
            1 <= low@ <= cur@,
            high@ < scheme.order_spec(),
            one@ == 1,
            forall|j: nat| low@ <= j < cur@ ==> scheme.point_spec(j) != target_point@,
        decreases high@ + 1 - cur@,
    {
        let point = scheme.derive_point(&cur);
        if bytes_eq(&point, target_point) {
            return Some(cur);
        }
        cur = cur.add_big(&one);
    }
    None
}

/// Searches the whole range for the scalar whose compressed public key is
/// the target: the default operating mode. The contract mirrors
/// `find_private_key_by_address`, with the match taken on public-key bytes.
pub fn find_private_key_by_public_key<S: PointScheme>(
    scheme: &S,
    target_point: &Vec<u8>,
    range: &SearchRange,
    worker_count: u64,
) -> (r: SearchResult)
    requires
        range.wf(),
        range.high@ < scheme.order_spec(),
        worker_count >= 1,
    ensures
        match r {
            SearchResult::Found(k) => range.holds(k@) && scheme.point_spec(k@) == target_point@
                && forall|j: nat|
                range.low@ <= j < k@ ==> scheme.point_spec(j) != target_point@,
            SearchResult::Exhausted => forall|j: nat|
                range.low@ <= j <= range.high@ ==> scheme.point_spec(j) != target_point@,
            SearchResult::Cancelled => false,
        },
{
    let parts = partition(range, worker_count);
    let mut idx: usize = 0;
    while idx < parts.len()
        invariant
            idx <= parts.len(),
            parts.len() >= 1,
            range.wf(),
            range.high@ < scheme.order_spec(),
            forall|t: int| 0 <= t < parts.len() ==> (#[trigger] parts[t]).wf(),
            forall|t: int|
                0 <= t < parts.len() - 1 ==> #[trigger] parts[t + 1].low@ == parts[t].high@ + 1,
            parts[0].low@ == range.low@,
            parts[parts.len() - 1].high@ == range.high@,
            forall|j: nat|
                idx < parts.len() && range.low@ <= j < parts[idx as int].low@
                    ==> scheme.point_spec(j) != target_point@,
            idx == parts.len() ==> forall|j: nat|
                range.low@ <= j <= range.high@ ==> scheme.point_spec(j) != target_point@,
        decreases parts.len() - idx,
    {
        proof {
            lemma_chain_ordered(parts@, 0, idx as int);
            lemma_chain_ordered(parts@, idx as int, parts.len() - 1);
        }
        let part = &parts[idx];
        match scan_range_by_public_key(scheme, target_point, &part.low, &part.high) {
            Some(k) => {
                return SearchResult::Found(k);
            },
            None => {
                proof {
                    if idx + 1 < parts.len() {
                        assert(parts@[idx as int + 1].low@ == parts@[idx as int].high@ + 1);
                    }
                }
                idx = idx + 1;
            },
        }
    }
    SearchResult::Exhausted
}

/// What a completed search may report, as `find_private_key_by_address`
/// ensures it: the smallest match, or exhaustion when there is none.
pub open spec fn search_outcome_ok<S: PointScheme>(
    scheme: &S,
    target: Seq<char>,
    range: &SearchRange,
    r: SearchResult,
) -> bool {
    match r {
        SearchResult::Found(k) => range.holds(k@) && scheme_address(scheme, k@) == target
            && forall|j: nat| range.low@ <= j < k@ ==> scheme_address(scheme, j) != target,
        SearchResult::Exhausted => forall|j: nat|
            range.low@ <= j <= range.high@ ==> scheme_address(scheme, j) != target,
        SearchResult::Cancelled => false,
    }
}

/// The determinism law: when the range holds exactly one matching scalar,
/// every outcome the search contract admits is `Found` of that scalar — in
/// particular the result does not depend on the worker count, which the
/// contract never mentions.
pub proof fn lemma_outcome_determined<S: PointScheme>(
    scheme: &S,
    target: Seq<char>,
    range: &SearchRange,
    r: SearchResult,
    the_key: nat,
)
    requires
        range.holds(the_key),
        scheme_address(scheme, the_key) == target,
        forall|j: nat|
            range.holds(j) && #[trigger] scheme_address(scheme, j) == target ==> j == the_key,
        search_outcome_ok(scheme, target, range, r),
    ensures
        r matches SearchResult::Found(k) && k@ == the_key,
{
    match r {
        SearchResult::Found(k) => {
            assert(scheme_address(scheme, k@) == target);
        },
        SearchResult::Exhausted => {
            assert(scheme_address(scheme, the_key) != target);
        },
        SearchResult::Cancelled => {},
    }
}

/// The exhaustion law: over a range holding no matching scalar, every
/// outcome the search contract admits is `Exhausted` — never `Found`.
pub proof fn lemma_no_match_means_exhausted<S: PointScheme>(
    scheme: &S,
    target: Seq<char>,
    range: &SearchRange,
    r: SearchResult,
)
    requires
        forall|j: nat| range.holds(j) ==> #[trigger] scheme_address(scheme, j) != target,
        search_outcome_ok(scheme, target, range, r),
    ensures
        r is Exhausted,
{
    match r {
        SearchResult::Found(k) => {
            assert(scheme_address(scheme, k@) != target);
        },
        SearchResult::Exhausted => {},
        SearchResult::Cancelled => {},
    }
}

} // verus!
