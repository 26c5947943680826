//! The resolver: an immutable snapshot (registry map plus one prefix index
//! per family) behind a query surface, and the refresh step that re-runs
//! ingestion and replaces the snapshot as a whole. A failed refresh leaves
//! the previous snapshot untouched; queries are functions of the snapshot
//! alone, so no answer can mix two snapshots.

use std::collections::HashMap;
use vstd::prelude::*;

use crate::index::{is_best, lemma_best_unique, net_matches, PrefixIndex};
use crate::ranges::{parse_ranges, range_views, ranges_spec};
use crate::registry::{parse_registry, reg_view, registry_spec};
use crate::types::{AsRecView, AsRecord, IpAddress, IpInfo, Network, RangeEntry, RangeView};

verus! {

/// The mathematical content of one snapshot: the registry map and, per
/// family, the parsed range list in source order.
pub ghost struct SnapshotView {
    pub asn: Map<u32, AsRecView>,
    pub v4: Seq<RangeView>,
    pub v6: Seq<RangeView>,
}

/// The snapshot that one ingestion of the three raw texts denotes, or `None`
/// when either range table holds a malformed line. The IPv4 table is
/// tab-separated, the IPv6 table space-separated, as the published sources
/// are.
pub open spec fn snapshot_spec(
    names: Seq<char>,
    table_v4: Seq<char>,
    table_v6: Seq<char>,
) -> Option<SnapshotView> {
    let reg = registry_spec(names);
    match (ranges_spec(table_v4, '\t', false, reg), ranges_spec(table_v6, ' ', true, reg)) {
        (Some(v4), Some(v6)) => Some(SnapshotView { asn: reg, v4, v6 }),
        _ => None,
    }
}

/// The ranges of the queried address's family.
pub open spec fn family_ranges(v: SnapshotView, ip: IpAddress) -> Seq<RangeView> {
    if ip.v6 {
        v.v6
    } else {
        v.v4
    }
}

/// What a correct `search` answer looks like against a snapshot: not-found
/// exactly when no range of the family contains the address, else the
/// network and owner of the best (longest-prefix, latest-on-ties) match.
pub open spec fn search_post(
    v: SnapshotView,
    ip: IpAddress,
    r: Option<(Network, AsRecView)>,
) -> bool {
    let ranges = family_ranges(v, ip);
    match r {
        None => forall|j: int|
            0 <= j < ranges.len() ==> !net_matches((#[trigger] ranges[j]).net, ip.bits),
        Some(p) => exists|i: int|
            #[trigger] is_best(ranges, ip.bits, i) && p.0 == ranges[i].net && p.1
                == ranges[i].owner,
    }
}

/// The network and owner parts of a query answer.
pub open spec fn info_view(r: Option<IpInfo>) -> Option<(Network, AsRecView)> {
    match r {
        None => None,
        Some(info) => Some((info.net, info.asn@)),
    }
}

/// The resolver: the AS-record map and one prefix index per family, together
/// forming the active snapshot.
pub struct Checker {
    db_v4: PrefixIndex,
    db_v6: PrefixIndex,
    asn: HashMap<u32, AsRecord>,
}

impl View for Checker {
    type V = SnapshotView;

    closed spec fn view(&self) -> SnapshotView {
        SnapshotView { asn: reg_view(self.asn@), v4: self.db_v4@, v6: self.db_v6@ }
    }
}

impl Checker {
    /// Both indexes are well formed and serve their own family.
    pub closed spec fn wf(&self) -> bool {
        &&& self.db_v4.wf()
        &&& self.db_v6.wf()
        &&& !self.db_v4.family_v6()
        &&& self.db_v6.family_v6()
    }

    /// An empty resolver: no registry entries, no ranges, every query
    /// answers not-found.
    pub fn new() -> (c: Checker)
        ensures
            c.wf(),
            c@.asn == Map::<u32, AsRecView>::empty(),
            c@.v4 == Seq::<RangeView>::empty(),
            c@.v6 == Seq::<RangeView>::empty(),
    {
        let empty_v4: Vec<RangeEntry> = Vec::new();
        let empty_v6: Vec<RangeEntry> = Vec::new();
        proof {
            assert(range_views(empty_v4@) =~= Seq::<RangeView>::empty());
            assert(range_views(empty_v6@) =~= Seq::<RangeView>::empty());
        }
        let c = Checker {
            db_v4: PrefixIndex::build(empty_v4, false),
            db_v6: PrefixIndex::build(empty_v6, true),
            asn: HashMap::new(),
        };
        proof {
            assert(reg_view(c.asn@) =~= Map::<u32, AsRecView>::empty());
        }
        c
    }

    /// Re-runs ingestion on freshly fetched dataset texts and replaces the
    /// active snapshot as a whole. On any malformed range line nothing is
    /// replaced: the previous snapshot stays active and `None` is returned.
    pub fn init(&mut self, names: &str, table_v4: &str, table_v6: &str) -> (r: Option<()>)
        requires
            old(self).wf(),
        ensures
            final(self).wf(),
            r is Some <==> snapshot_spec(names@, table_v4@, table_v6@) is Some,
            match r {
                Some(_) => Some(final(self)@) == snapshot_spec(names@, table_v4@, table_v6@),
                None => final(self)@ == old(self)@,
            },
    {
        let reg = parse_registry(names);
        let v4 = match parse_ranges(table_v4, '\t', false, &reg) {
            Some(v) => v,
            None => {
                return None;
            },
        };
        let v6 = match parse_ranges(table_v6, ' ', true, &reg) {
            Some(v) => v,
            None => {
                return None;
            },
        };
        self.db_v4 = PrefixIndex::build(v4, false);
        self.db_v6 = PrefixIndex::build(v6, true);
        self.asn = reg;
        Some(())
    }

    /// Longest-prefix-match lookup against the active snapshot: selects the
    /// family-appropriate index and answers with the matched network and its
    /// owner, or not-found when no range contains the address.
    pub fn search(&self, ip: &IpAddress) -> (r: Option<IpInfo>)
        requires
            self.wf(),
        ensures
            search_post(self@, *ip, info_view(r)),
            match r {
                Some(info) => info.ip == Some(*ip),
                None => true,
            },
    {
        let idx = if ip.v6 {
            &self.db_v6
        } else {
            &self.db_v4
        };
        match idx.search(ip.bits) {
            Some(e) => {
                let info = IpInfo { ip: Some(*ip), net: e.net, asn: e.owner.clone() };
                proof {
                    let ranges = family_ranges(self@, *ip);
                    let i = choose|i: int| #[trigger] is_best(idx@, ip.bits, i) && e@ == idx@[i];
                    assert(is_best(ranges, ip.bits, i) && info.net == ranges[i].net && info.asn@
                        == ranges[i].owner);
                }
                Some(info)
            },
            None => None,
        }
    }

    /// Registry lookup against the active snapshot: the stored record of
    /// that AS number, or not-found when the registry has no entry.
    pub fn get_asn(&self, asn_id: u32) -> (r: Option<&AsRecord>)
        ensures
            match r {
                Some(rec) => self@.asn.contains_key(asn_id) && rec@ == self@.asn[asn_id],
                None => !self@.asn.contains_key(asn_id),
            },
    {
        self.asn.get(&asn_id)
    }
}

/// When exactly one range contains the address, a correct answer names that
/// range and its owner — whatever else the snapshot holds.
pub proof fn lemma_search_unique_match(
    v: SnapshotView,
    ip: IpAddress,
    r: Option<(Network, AsRecView)>,
    i: int,
)
    requires
        search_post(v, ip, r),
        0 <= i < family_ranges(v, ip).len(),
        net_matches(family_ranges(v, ip)[i].net, ip.bits),
        forall|j: int|
            0 <= j < family_ranges(v, ip).len() && j != i ==> !net_matches(
                (#[trigger] family_ranges(v, ip)[j]).net,
                ip.bits,
            ),
    ensures
        r == Some((family_ranges(v, ip)[i].net, family_ranges(v, ip)[i].owner)),
{
    let ranges = family_ranges(v, ip);
    assert(is_best(ranges, ip.bits, i));
    match r {
        None => {
            assert(!net_matches(ranges[i].net, ip.bits));
        },
        Some(p) => {
            let b = choose|b: int|
                #[trigger] is_best(ranges, ip.bits, b) && p.0 == ranges[b].net && p.1
                    == ranges[b].owner;
            lemma_best_unique(ranges, ip.bits, i, b);
        },
    }
}

/// Of two ranges both containing the address, with one prefix strictly
/// longer, a correct answer is a match at least that long — never the
/// shorter of the two.
pub proof fn lemma_search_prefers_longer(
    v: SnapshotView,
    ip: IpAddress,
    r: Option<(Network, AsRecView)>,
    i: int,
    j: int,
)
    requires
        search_post(v, ip, r),
        0 <= i < family_ranges(v, ip).len(),
        0 <= j < family_ranges(v, ip).len(),
        net_matches(family_ranges(v, ip)[i].net, ip.bits),
        net_matches(family_ranges(v, ip)[j].net, ip.bits),
        family_ranges(v, ip)[i].net.plen > family_ranges(v, ip)[j].net.plen,
    ensures
        match r {
            Some(p) => p.0.plen >= family_ranges(v, ip)[i].net.plen,
            None => false,
        },
{
    let ranges = family_ranges(v, ip);
    match r {
        None => {
            assert(!net_matches(ranges[i].net, ip.bits));
        },
        Some(p) => {
            let b = choose|b: int|
                #[trigger] is_best(ranges, ip.bits, b) && p.0 == ranges[b].net && p.1
                    == ranges[b].owner;
            assert(ranges[i].net.plen < ranges[b].net.plen || (ranges[i].net.plen
                == ranges[b].net.plen && i <= b));
        },
    }
}

/// An address contained in no range gets the explicit not-found answer,
/// never the sentinel record and never an arbitrary range.
pub proof fn lemma_search_no_match_is_none(
    v: SnapshotView,
    ip: IpAddress,
    r: Option<(Network, AsRecView)>,
)
    requires
        search_post(v, ip, r),
        forall|j: int|
            0 <= j < family_ranges(v, ip).len() ==> !net_matches(
                (#[trigger] family_ranges(v, ip)[j]).net,
                ip.bits,
            ),
    ensures
        r is None,
{
    let ranges = family_ranges(v, ip);
    match r {
        None => {},
        Some(p) => {
            let b = choose|b: int|
                #[trigger] is_best(ranges, ip.bits, b) && p.0 == ranges[b].net && p.1
                    == ranges[b].owner;
            assert(net_matches(ranges[b].net, ip.bits));
        },
    }
}

/// A correct search answer against a given snapshot is unique: equal
/// snapshots answer every query identically.
pub proof fn lemma_search_deterministic(
    v: SnapshotView,
    ip: IpAddress,
    r1: Option<(Network, AsRecView)>,
    r2: Option<(Network, AsRecView)>,
)
    requires
        search_post(v, ip, r1),
        search_post(v, ip, r2),
    ensures
        r1 == r2,
{
    let ranges = family_ranges(v, ip);
    match (r1, r2) {
        (Some(p1), Some(p2)) => {
            let b1 = choose|b: int|
                #[trigger] is_best(ranges, ip.bits, b) && p1.0 == ranges[b].net && p1.1
                    == ranges[b].owner;
            let b2 = choose|b: int|
                #[trigger] is_best(ranges, ip.bits, b) && p2.0 == ranges[b].net && p2.1
                    == ranges[b].owner;
            lemma_best_unique(ranges, ip.bits, b1, b2);
        },
        (Some(p1), None) => {
            let b1 = choose|b: int|
                #[trigger] is_best(ranges, ip.bits, b) && p1.0 == ranges[b].net && p1.1
                    == ranges[b].owner;
            assert(!net_matches(ranges[b1].net, ip.bits));
        },
        (None, Some(p2)) => {
            let b2 = choose|b: int|
                #[trigger] is_best(ranges, ip.bits, b) && p2.0 == ranges[b].net && p2.1
                    == ranges[b].owner;
            assert(!net_matches(ranges[b2].net, ip.bits));
        },
        (None, None) => {},
    }
}

/// Ingestion is idempotent: two snapshots built from identical raw inputs
/// are the same snapshot, and every query answered correctly against the one
/// is answered identically against the other.
pub proof fn lemma_ingest_idempotent(
    names: Seq<char>,
    table_v4: Seq<char>,
    table_v6: Seq<char>,
    s1: SnapshotView,
    s2: SnapshotView,
    ip: IpAddress,
    r1: Option<(Network, AsRecView)>,
    r2: Option<(Network, AsRecView)>,
)
    requires
        Some(s1) == snapshot_spec(names, table_v4, table_v6),
        Some(s2) == snapshot_spec(names, table_v4, table_v6),
        search_post(s1, ip, r1),
        search_post(s2, ip, r2),
    ensures
        s1 == s2,
        r1 == r2,
{
    lemma_search_deterministic(s1, ip, r1, r2);
}

} // verus!
