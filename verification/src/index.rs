//! The prefix index: per-length buckets over one family's range list,
//! answering longest-prefix-match queries by testing containment from the
//! longest prefix length present downward. When several ranges of one length
//! contain the address they share that prefix, and the later-constructed one
//! wins, following source order.

use vstd::prelude::*;

use crate::ranges::range_views;
use crate::types::{Network, RangeEntry, RangeView};

verus! {

/// Whether the network contains the address: the top `plen` bits agree.
pub open spec fn net_matches(n: Network, addr: u128) -> bool {
    if n.plen == 0 {
        true
    } else {
        let sh = (n.width() - n.plen) as u32;
        addr >> sh == n.bits >> sh
    }
}

/// The range at index `i` is the answer longest-prefix-match requires: it
/// contains the address, every containing range has a shorter prefix or the
/// same length, and among ranges of the same length it is the latest.
pub open spec fn is_best(ranges: Seq<RangeView>, addr: u128, i: int) -> bool {
    &&& 0 <= i < ranges.len()
    &&& net_matches(ranges[i].net, addr)
    &&& forall|j: int|
        0 <= j < ranges.len() && net_matches((#[trigger] ranges[j]).net, addr) ==> (
        ranges[j].net.plen < ranges[i].net.plen || (ranges[j].net.plen == ranges[i].net.plen && j
            <= i))
}

/// At most one index is the best match.
pub proof fn lemma_best_unique(ranges: Seq<RangeView>, addr: u128, i: int, j: int)
    requires
        is_best(ranges, addr, i),
        is_best(ranges, addr, j),
    ensures
        i == j,
{
    assert(ranges[i].net.plen <= ranges[j].net.plen || (ranges[i].net.plen == ranges[j].net.plen
        && i <= j));
    assert(ranges[j].net.plen <= ranges[i].net.plen || (ranges[j].net.plen == ranges[i].net.plen
        && j <= i));
}

/// The subsequence of ranges with prefix length `l`, in source order.
pub open spec fn bucket_of(ranges: Seq<RangeView>, l: int) -> Seq<RangeView>
    decreases ranges.len(),
{
    if ranges.len() == 0 {
        Seq::empty()
    } else {
        let rest = bucket_of(ranges.drop_last(), l);
        if ranges.last().net.plen == l {
            rest.push(ranges.last())
        } else {
            rest
        }
    }
}

/// Every element of a bucket has that prefix length.
proof fn lemma_bucket_elems(ranges: Seq<RangeView>, l: int)
    ensures
        forall|m: int|
            0 <= m < bucket_of(ranges, l).len() ==> (#[trigger] bucket_of(ranges, l)[m]).net.plen
                == l,
    decreases ranges.len(),
{
    if ranges.len() > 0 {
        lemma_bucket_elems(ranges.drop_last(), l);
        let b = bucket_of(ranges, l);
        let rest = bucket_of(ranges.drop_last(), l);
        assert forall|m: int| 0 <= m < b.len() implies (#[trigger] b[m]).net.plen == l by {
            if !(ranges.last().net.plen == l && m == b.len() - 1) {
                assert(b[m] == rest[m]);
            }
        };
    }
}

/// A range with prefix length `l` appears in the bucket of `l`.
proof fn lemma_bucket_complete(ranges: Seq<RangeView>, l: int, j: int)
    requires
        0 <= j < ranges.len(),
        ranges[j].net.plen == l,
    ensures
        exists|m: int|
            0 <= m < bucket_of(ranges, l).len() && #[trigger] bucket_of(ranges, l)[m] == ranges[j],
    decreases ranges.len(),
{
    let b = bucket_of(ranges, l);
    if j == ranges.len() - 1 {
        assert(b[b.len() - 1] == ranges[j]);
    } else {
        lemma_bucket_complete(ranges.drop_last(), l, j);
        let rest = bucket_of(ranges.drop_last(), l);
        let m = choose|m: int| 0 <= m < rest.len() && #[trigger] rest[m] == ranges.drop_last()[j];
        assert(ranges.drop_last()[j] == ranges[j]);
        assert(b[m] == ranges[j]);
    }
}

/// The last matching element of the bucket of `l` is the range at the
/// greatest source index among ranges of length `l` containing the address.
proof fn lemma_bucket_last_match(ranges: Seq<RangeView>, l: int, addr: u128, m: int) -> (i: int)
    requires
        0 <= m < bucket_of(ranges, l).len(),
        net_matches(bucket_of(ranges, l)[m].net, addr),
        forall|m2: int|
            m < m2 < bucket_of(ranges, l).len() ==> !net_matches(
                (#[trigger] bucket_of(ranges, l)[m2]).net,
                addr,
            ),
    ensures
        0 <= i < ranges.len(),
        ranges[i] == bucket_of(ranges, l)[m],
        ranges[i].net.plen == l,
        net_matches(ranges[i].net, addr),
        forall|j: int|
            0 <= j < ranges.len() && (#[trigger] ranges[j]).net.plen == l && net_matches(
                ranges[j].net,
                addr,
            ) ==> j <= i,
    decreases ranges.len(),
{
    let b = bucket_of(ranges, l);
    let rest = bucket_of(ranges.drop_last(), l);
    if ranges.last().net.plen == l && m == b.len() - 1 {
        ranges.len() - 1
    } else {
        if ranges.last().net.plen == l {
            assert(b[b.len() - 1] == ranges.last());
            assert(!net_matches(ranges.last().net, addr));
            assert(forall|m2: int| 0 <= m2 < rest.len() ==> rest[m2] == b[m2]);
        }
        let i = lemma_bucket_last_match(ranges.drop_last(), l, addr, m);
        assert(ranges.drop_last()[i] == ranges[i]);
        assert(forall|j: int| 0 <= j < ranges.len() - 1 ==> ranges.drop_last()[j] == ranges[j]);
        i
    }
}

/// When no element of the bucket of `l` contains the address, no range of
/// length `l` does.
proof fn lemma_bucket_no_match(ranges: Seq<RangeView>, l: int, addr: u128)
    requires
        forall|m: int|
            0 <= m < bucket_of(ranges, l).len() ==> !net_matches(
                (#[trigger] bucket_of(ranges, l)[m]).net,
                addr,
            ),
    ensures
        forall|j: int|
            0 <= j < ranges.len() && (#[trigger] ranges[j]).net.plen == l ==> !net_matches(
                ranges[j].net,
                addr,
            ),
{
    assert forall|j: int|
        0 <= j < ranges.len() && (#[trigger] ranges[j]).net.plen == l implies !net_matches(
        ranges[j].net,
        addr,
    ) by {
        lemma_bucket_complete(ranges, l, j);
    }
}

/// Decides containment of an address in a well-formed network.
fn entry_matches(n: &Network, addr: u128) -> (b: bool)
    requires
        n.wf(),
    ensures
        b == net_matches(*n, addr),
{
    if n.plen == 0 {
        true
    } else {
        let w: u8 = if n.v6 {
            128
        } else {
            32
        };
        let sh: u32 = (w - n.plen) as u32;
        addr >> sh == n.bits >> sh
    }
}

/// A longest-prefix-match index over one family's ranges: `buckets[l]` holds
/// the ranges of prefix length `l` in source order, and the ghost source
/// list records the order the table gave them in.
pub struct PrefixIndex {
    v6: bool,
    buckets: Vec<Vec<RangeEntry>>,
    src: Ghost<Seq<RangeView>>,
}

impl View for PrefixIndex {
    type V = Seq<RangeView>;

    closed spec fn view(&self) -> Seq<RangeView> {
        self.src@
    }
}

impl PrefixIndex {
    /// Whether this index serves the IPv6 family.
    pub closed spec fn family_v6(&self) -> bool {
        self.v6
    }

    /// The address width of the family this index serves.
    pub closed spec fn width(&self) -> int {
        if self.v6 {
            128
        } else {
            32
        }
    }

    /// There is one bucket per prefix length, each holding exactly the
    /// source ranges of that length in source order, and every source range
    /// is well formed and of this index's family.
    pub closed spec fn wf(&self) -> bool {
        &&& self.buckets@.len() == self.width() + 1
        &&& forall|l: int|
            0 <= l <= self.width() ==> range_views((#[trigger] self.buckets@[l])@) == bucket_of(
                self.src@,
                l,
            )
        &&& forall|k: int|
            0 <= k < self.src@.len() ==> (#[trigger] self.src@[k]).net.wf() && self.src@[k].net.v6
                == self.v6
    }

    /// Builds the index for one family from the parsed range list.
    pub fn build(ranges: Vec<RangeEntry>, v6: bool) -> (idx: PrefixIndex)
        requires
            forall|k: int|
                0 <= k < ranges@.len() ==> (#[trigger] ranges@[k]).net.wf() && ranges@[k].net.v6
                    == v6,
        ensures
            idx.wf(),
            idx@ == range_views(ranges@),
            idx.family_v6() == v6,
    {
        let n = ranges.len();
        let w: usize = if v6 {
            128
        } else {
            32
        };
        let ghost srcv = range_views(ranges@);
        let mut buckets: Vec<Vec<RangeEntry>> = Vec::new();
        let mut l: usize = 0;
        while l <= w
            invariant
                l <= w + 1,
                w <= 128,
                n == ranges@.len(),
                buckets@.len() == l,
                srcv == range_views(ranges@),
                forall|k: int|
                    0 <= k < ranges@.len() ==> (#[trigger] ranges@[k]).net.wf()
                        && ranges@[k].net.v6 == v6,
                forall|b: int|
                    0 <= b < l ==> range_views((#[trigger] buckets@[b])@) == bucket_of(srcv, b),
            decreases w + 1 - l,
        {
            let mut cur: Vec<RangeEntry> = Vec::new();
            let mut k: usize = 0;
            proof {
                assert(range_views(ranges@.take(0)) =~= Seq::<RangeView>::empty());
                assert(range_views(cur@) =~= Seq::<RangeView>::empty());
            }
            while k < n
                invariant
                    k <= n,
                    n == ranges@.len(),
                    l <= w,
                    srcv == range_views(ranges@),
                    range_views(cur@) == bucket_of(range_views(ranges@.take(k as int)), l as int),
                decreases n - k,
            {
                let ghost prevcur = cur@;
                if ranges[k].net.plen as usize == l {
                    cur.push(ranges[k].clone());
                }
                proof {
                    let u = range_views(ranges@.take(k + 1));
                    assert(u.drop_last() =~= range_views(ranges@.take(k as int)));
                    assert(u.last() == ranges@[k as int]@);
                    if ranges@[k as int].net.plen == l {
                        assert(range_views(cur@) =~= range_views(prevcur).push(
                            ranges@[k as int]@,
                        ));
                    } else {
                        assert(range_views(cur@) =~= range_views(prevcur));
                    }
                }
                k += 1;
            }
            proof {
                assert(ranges@.take(n as int) =~= ranges@);
            }
            buckets.push(cur);
            l += 1;
        }
        let idx = PrefixIndex { v6, buckets, src: Ghost(srcv) };
        proof {
            assert(forall|k: int|
                0 <= k < srcv.len() ==> srcv[k] == (#[trigger] ranges@[k])@);
        }
        idx
    }

    /// Longest-prefix-match: the returned entry is the most specific range
    /// containing the address, the latest in source order when several of
    /// one length share the containing prefix; `None` exactly when no range
    /// contains the address.
    pub fn search(&self, addr: u128) -> (r: Option<&RangeEntry>)
        requires
            self.wf(),
        ensures
            match r {
                Some(e) => exists|i: int| #[trigger] is_best(self@, addr, i) && e@ == self@[i],
                None => forall|j: int|
                    0 <= j < self@.len() ==> !net_matches((#[trigger] self@[j]).net, addr),
            },
    {
        let w: usize = if self.v6 {
            128
        } else {
            32
        };
        let mut l: usize = w + 1;
        while l > 0
            invariant
                l <= w + 1,
                w <= 128,
                self.wf(),
                w == self.width(),
                forall|j: int|
                    0 <= j < self@.len() && (#[trigger] self@[j]).net.plen >= l ==> !net_matches(
                        self@[j].net,
                        addr,
                    ),
            decreases l,
        {
            l -= 1;
            let bucket = &self.buckets[l];
            let ghost bv = bucket_of(self@, l as int);
            proof {
                assert(range_views(bucket@) == bv);
                lemma_bucket_elems(self@, l as int);
            }
            let mut k = bucket.len();
            while k > 0
                invariant
                    k <= bucket@.len(),
                    self.wf(),
                    w == self.width(),
                    l <= w,
                    bucket@ == self.buckets@[l as int]@,
                    bv == bucket_of(self@, l as int),
                    range_views(bucket@) == bv,
                    forall|j: int|
                        0 <= j < self@.len() && (#[trigger] self@[j]).net.plen >= l + 1
                            ==> !net_matches(self@[j].net, addr),
                    forall|m: int|
                        k <= m < bv.len() ==> !net_matches((#[trigger] bv[m]).net, addr),
                decreases k,
            {
                k -= 1;
                let e = &bucket[k];
                proof {
                    assert(e@ == bv[k as int]);
                    assert(e.net.wf()) by {
                        lemma_bucket_elems(self@, l as int);
                        assert(bv[k as int].net.plen == l);
                        lemma_bucket_wf(self@, l as int, k as int, self.v6);
                    }
                }
                if entry_matches(&e.net, addr) {
                    proof {
                        let i = lemma_bucket_last_match(self@, l as int, addr, k as int);
                        assert(is_best(self@, addr, i));
                    }
                    return Some(e);
                }
            }
            proof {
                lemma_bucket_no_match(self@, l as int, addr);
                assert(forall|j: int|
                    0 <= j < self@.len() && (#[trigger] self@[j]).net.plen >= l ==> !net_matches(
                        self@[j].net,
                        addr,
                    ));
            }
        }
        None
    }
}

/// Every element of a bucket is one of the (well-formed) source ranges.
proof fn lemma_bucket_wf(ranges: Seq<RangeView>, l: int, m: int, v6: bool)
    requires
        0 <= m < bucket_of(ranges, l).len(),
        forall|k: int| 0 <= k < ranges.len() ==> (#[trigger] ranges[k]).net.wf() && ranges[k].net.v6
            == v6,
    ensures
        bucket_of(ranges, l)[m].net.wf(),
        bucket_of(ranges, l)[m].net.v6 == v6,
    decreases ranges.len(),
{
    let b = bucket_of(ranges, l);
    if ranges.len() > 0 {
        let rest = bucket_of(ranges.drop_last(), l);
        if ranges.last().net.plen == l && m == b.len() - 1 {
        } else {
            assert(forall|k: int| 0 <= k < ranges.len() - 1 ==> ranges.drop_last()[k] == ranges[k]);
            lemma_bucket_wf(ranges.drop_last(), l, m, v6);
        }
    }
}

} // verus!
