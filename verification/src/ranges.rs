//! The range parser: turns a prefix-table text into a flat list of ranges,
//! each owned by the registry record of its AS number, or by the sentinel
//! record when the registry has no entry. A single malformed line is fatal
//! for the whole table: the range tables are structurally required to be
//! well-formed, and no partial table is ever produced.

use std::collections::HashMap;
use vstd::prelude::*;
use vstd::string::StrSliceExecFns;

use crate::registry::reg_view;
use crate::text::{clean_line, find_ch, lemma_find_ch_skip, rfind_ch, u32_of};
use crate::text::{parse_u32, rscan_ch, scan_ch};
use crate::types::{sentinel_record, sentinel_view, AsRecView, AsRecord, Network, RangeEntry, RangeView};

verus! {

/// What `ipnet::IpNet::from_str` yields on a CIDR string: `None` on a parse
/// failure, else the family (`true` for IPv6), the address bits as written
/// (not masked down to the prefix), and the prefix length. The result is a
/// function of the characters alone.
pub uninterp spec fn cidr_of(s: Seq<char>) -> Option<(bool, u128, u8)>;

/// Relies on `ipnet::IpNet::from_str`, which accepts `<address>/<len>` in
/// CIDR notation, rejecting a prefix length over 32 (IPv4) or 128 (IPv6),
/// and on `addr` and `prefix_len`, which hand back the parsed fields
/// unchanged.
#[verifier::external_body]
fn parse_cidr(s: &str) -> (r: Option<(bool, u128, u8)>)
    ensures
        r == cidr_of(s@),
        match r {
            Some(p) => if p.0 {
                p.2 <= 128
            } else {
                p.2 <= 32 && p.1 < 0x1_0000_0000
            },
            None => true,
        },
{
    match s.parse::<ipnet::IpNet>() {
        Ok(ipnet::IpNet::V4(n)) => Some((false, u32::from(n.addr()) as u128, n.prefix_len())),
        Ok(ipnet::IpNet::V6(n)) => Some((true, u128::from(n.addr()), n.prefix_len())),
        Err(_) => None,
    }
}

/// The views of a list of parsed ranges.
pub open spec fn range_views(v: Seq<RangeEntry>) -> Seq<RangeView> {
    v.map_values(|e: RangeEntry| e@)
}

/// One range-table line: the first `delim`-separated field must be a CIDR
/// network of the expected family, the last field an unsigned 32-bit AS
/// number. The owner is the registry record of that number, or the sentinel
/// record when the registry has none.
pub open spec fn range_line_of(
    line: Seq<char>,
    delim: char,
    v6: bool,
    reg: Map<u32, AsRecView>,
) -> Option<RangeView> {
    let first = line.take(find_ch(line, 0, delim));
    let lastf = line.subrange(rfind_ch(line, delim) + 1, line.len() as int);
    match cidr_of(first) {
        None => None,
        Some(p) => {
            if p.0 != v6 {
                None
            } else {
                match u32_of(lastf) {
                    None => None,
                    Some(id) => Some(
                        RangeView {
                            net: Network { v6, bits: p.1, plen: p.2 },
                            owner: if reg.contains_key(id) {
                                reg[id]
                            } else {
                                sentinel_view()
                            },
                        },
                    ),
                }
            }
        },
    }
}

/// The range list after folding the lines of `s`, in order, onto `acc`;
/// `None` as soon as any line is malformed.
pub open spec fn ranges_from(
    s: Seq<char>,
    delim: char,
    v6: bool,
    reg: Map<u32, AsRecView>,
    acc: Seq<RangeView>,
) -> Option<Seq<RangeView>>
    decreases s.len(),
{
    if s.len() == 0 {
        Some(acc)
    } else {
        let i = find_ch(s, 0, '\n');
        if 0 <= i && i < s.len() {
            match range_line_of(clean_line(s.take(i)), delim, v6, reg) {
                None => None,
                Some(r) => ranges_from(s.skip(i + 1), delim, v6, reg, acc.push(r)),
            }
        } else {
            match range_line_of(clean_line(s), delim, v6, reg) {
                None => None,
                Some(r) => Some(acc.push(r)),
            }
        }
    }
}

/// The range list that the table text denotes, or `None` when any line of it
/// is malformed.
pub open spec fn ranges_spec(
    s: Seq<char>,
    delim: char,
    v6: bool,
    reg: Map<u32, AsRecView>,
) -> Option<Seq<RangeView>> {
    ranges_from(s, delim, v6, reg, Seq::empty())
}

/// Parses one range line against the expected family and the registry map.
fn parse_range_line(line: &str, delim: char, v6: bool, reg: &HashMap<u32, AsRecord>) -> (r: Option<
    RangeEntry,
>)
    ensures
        match r {
            Some(e) => range_line_of(line@, delim, v6, reg_view(reg@)) == Some(e@) && e.net.wf()
                && e.net.v6 == v6,
            None => range_line_of(line@, delim, v6, reg_view(reg@)) is None,
        },
{
    let n = line.unicode_len();
    let e = scan_ch(line, 0, delim);
    let first = line.substring_char(0, e);
    proof {
        assert(first@ =~= line@.take(find_ch(line@, 0, delim)));
    }
    let p = match parse_cidr(first) {
        Some(p) => p,
        None => {
            return None;
        },
    };
    let (cv6, bits, plen) = p;
    if cv6 != v6 {
        return None;
    }
    proof {
        assert(line@.take(n as int) =~= line@);
    }
    let lastf = match rscan_ch(line, n, delim) {
        Some(j) => line.substring_char(j + 1, n),
        None => line.substring_char(0, n),
    };
    proof {
        assert(lastf@ =~= line@.subrange(rfind_ch(line@, delim) + 1, line@.len() as int));
    }
    let id = match parse_u32(lastf) {
        Some(id) => id,
        None => {
            return None;
        },
    };
    let owner = match reg.get(&id) {
        Some(rec) => rec.clone(),
        None => sentinel_record(),
    };
    Some(RangeEntry { net: Network { v6, bits, plen }, owner })
}

/// Parses the whole range table. Returns the ranges in source order, or
/// `None` when any line is malformed.
pub fn parse_ranges(s: &str, delim: char, v6: bool, reg: &HashMap<u32, AsRecord>) -> (r: Option<
    Vec<RangeEntry>,
>)
    ensures
        match r {
            Some(v) => {
                &&& ranges_spec(s@, delim, v6, reg_view(reg@)) == Some(range_views(v@))
                &&& forall|k: int|
                    0 <= k < v@.len() ==> (#[trigger] v@[k]).net.wf() && v@[k].net.v6 == v6
            },
            None => ranges_spec(s@, delim, v6, reg_view(reg@)) is None,
        },
{
    let mut out: Vec<RangeEntry> = Vec::new();
    let n = s.unicode_len();
    let mut pos: usize = 0;
    proof {
        assert(s@.skip(0) =~= s@);
        assert(range_views(out@) =~= Seq::<RangeView>::empty());
    }
    while pos < n
        invariant
            pos <= n,
            n == s@.len(),
            ranges_spec(s@, delim, v6, reg_view(reg@)) == ranges_from(
                s@.skip(pos as int),
                delim,
                v6,
                reg_view(reg@),
                range_views(out@),
            ),
            forall|k: int| 0 <= k < out@.len() ==> (#[trigger] out@[k]).net.wf() && out@[k].net.v6
                == v6,
        decreases n - pos,
    {
        let j = scan_ch(s, pos, '\n');
        let line_end = if j > pos && s.get_char(j - 1) == '\r' {
            j - 1
        } else {
            j
        };
        let line = s.substring_char(pos, line_end);
        let ghost t = s@.skip(pos as int);
        proof {
            lemma_find_ch_skip(s@, pos as int, '\n');
            assert(t.take(j - pos as int) =~= s@.subrange(pos as int, j as int));
            if j < n {
                let jm1 = j - 1;
                assert(t.take(j - pos as int).len() > 0 ==> t.take(j - pos as int).last()
                    == s@[jm1]);
            }
            assert(clean_line(s@.subrange(pos as int, j as int)) =~= line@);
            if j == n {
                assert(t =~= s@.subrange(pos as int, j as int));
            }
        }
        let entry = match parse_range_line(line, delim, v6, reg) {
            Some(entry) => entry,
            None => {
                return None;
            },
        };
        let ghost prev = out@;
        out.push(entry);
        proof {
            assert(range_views(out@) =~= range_views(prev).push(entry@));
        }
        if j < n {
            proof {
                assert(t.skip(j - pos as int + 1) =~= s@.skip(j + 1));
            }
            pos = j + 1;
        } else {
            proof {
                assert(s@.skip(n as int).len() == 0);
            }
            pos = n;
        }
    }
    proof {
        assert(s@.skip(n as int).len() == 0);
    }
    Some(out)
}

} // verus!
