//! The registry parser: turns the AS-number/name/country text into an
//! id-keyed map of AS records. Malformed lines are skipped, and a later line
//! overwrites an earlier one with the same id.

use std::collections::HashMap;
use vstd::prelude::*;
use vstd::string::StrSliceExecFns;

use crate::text::{
    clean_line, find_ch, find_nonws, find_ws, lemma_find_ch_skip, lemma_find_nonws,
    lemma_rfind_nonws, rfind_nonws, rfind_ws, u32_of,
};
use crate::text::{parse_u32, rscan_nonws, rscan_ws, scan_ch, scan_nonws, scan_ws};
use crate::types::{AsRecView, AsRecord};

verus! {

/// The mathematical content of an id-keyed record map.
pub open spec fn reg_view(m: Map<u32, AsRecord>) -> Map<u32, AsRecView> {
    Map::new(|k: u32| m.contains_key(k), |k: u32| m[k]@)
}

/// One registry line applied to the map built so far.
///
/// A line with fewer than three whitespace-separated tokens, or whose first
/// token does not parse as an unsigned 32-bit number, is skipped. Otherwise
/// the first token is the id, the final token is the country code, and the
/// name is the run of the line from the start of the second token through the
/// end of the second-to-last token.
pub open spec fn reg_line_upd(acc: Map<u32, AsRecView>, line: Seq<char>) -> Map<u32, AsRecView> {
    let a0 = find_nonws(line, 0);  // start of the id token
    let e0 = find_ws(line, a0);  // end of the id token
    let a1 = find_nonws(line, e0);  // start of the second token
    if a1 >= line.len() {
        acc
    } else {
        let z = rfind_nonws(line);  // last non-separator of the line
        let ls = rfind_ws(line.take(z + 1)) + 1;  // start of the final token
        if ls <= a1 {
            acc
        } else {
            let ne = rfind_nonws(line.take(ls)) + 1;  // end of the name run
            match u32_of(line.subrange(a0, e0)) {
                None => acc,
                Some(id) => acc.insert(
                    id,
                    AsRecView {
                        id,
                        name: line.subrange(a1, ne),
                        cc: line.subrange(ls, z + 1),
                    },
                ),
            }
        }
    }
}

/// The registry map after folding the lines of `s`, in order, onto `acc`.
pub open spec fn registry_from(s: Seq<char>, acc: Map<u32, AsRecView>) -> Map<u32, AsRecView>
    decreases s.len(),
{
    if s.len() == 0 {
        acc
    } else {
        let i = find_ch(s, 0, '\n');
        if 0 <= i && i < s.len() {
            registry_from(s.skip(i + 1), reg_line_upd(acc, clean_line(s.take(i))))
        } else {
            reg_line_upd(acc, clean_line(s))
        }
    }
}

/// The id-to-record map that the registry text denotes.
pub open spec fn registry_spec(s: Seq<char>) -> Map<u32, AsRecView> {
    registry_from(s, Map::empty())
}

/// Parses one registry line into `m`; a malformed line leaves `m` unchanged.
fn apply_reg_line(m: &mut HashMap<u32, AsRecord>, line: &str)
    ensures
        reg_view(final(m)@) == reg_line_upd(reg_view(old(m)@), line@),
{
    let n = line.unicode_len();
    let a0 = scan_nonws(line, 0);
    let e0 = scan_ws(line, a0);
    let a1 = scan_nonws(line, e0);
    if a1 >= n {
        return ;
    }
    proof {
        lemma_find_nonws(line@, e0 as int);
    }
    proof {
        assert(line@.take(n as int) =~= line@);
    }
    let z = match rscan_nonws(line, n) {
        Some(z) => z,
        None => {
            proof {
                assert(line@.take(0).len() == 0);
            }
            return ;
        },
    };
    let ls = match rscan_ws(line, z + 1) {
        Some(j) => j + 1,
        None => 0,
    };
    if ls <= a1 {
        return ;
    }
    // The second token begins before the final token, so the line has at
    // least three tokens. The name run ends at the last non-separator
    // before the final token, which exists because `a1` is one.
    let ne = match rscan_nonws(line, ls) {
        Some(j) => j + 1,
        None => {
            proof {
                lemma_rfind_nonws(line@.take(ls as int));
                assert(line@.take(ls as int)[a1 as int] == line@[a1 as int]);
            }
            assert(false);
            0
        },
    };
    proof {
        lemma_rfind_nonws(line@.take(ls as int));
        assert(line@.take(ls as int)[a1 as int] == line@[a1 as int]);
    }
    let id = match parse_u32(line.substring_char(a0, e0)) {
        Some(id) => id,
        None => {
            return ;
        },
    };
    let name = line.substring_char(a1, ne).to_owned();
    let cc = line.substring_char(ls, z + 1).to_owned();
    let rec = AsRecord { id, name, cc };
    let ghost old_view = reg_view(m@);
    m.insert(id, rec);
    proof {
        assert(reg_view(m@) =~= reg_line_upd(old_view, line@));
    }
}

/// Parses the whole registry text, one AS record per well-formed line.
pub fn parse_registry(s: &str) -> (m: HashMap<u32, AsRecord>)
    ensures
        reg_view(m@) == registry_spec(s@),
{
    let mut m: HashMap<u32, AsRecord> = HashMap::new();
    let n = s.unicode_len();
    let mut pos: usize = 0;
    proof {
        assert(s@.skip(0) =~= s@);
        assert(reg_view(m@) =~= Map::<u32, AsRecView>::empty());
    }
    while pos < n
        invariant
            pos <= n,
            n == s@.len(),
            registry_spec(s@) == registry_from(s@.skip(pos as int), reg_view(m@)),
        decreases n - pos,
    {
        let j = scan_ch(s, pos, '\n');
        let line_end = if j > pos && s.get_char(j - 1) == '\r' {
            j - 1
        } else {
            j
        };
        let line = s.substring_char(pos, line_end);
        let ghost t = s@.skip(pos as int);
        proof {
            lemma_find_ch_skip(s@, pos as int, '\n');
            assert(t.take(j - pos as int) =~= s@.subrange(pos as int, j as int));
            if j < n {
                let jm1 = j - 1;
                assert(t.take(j - pos as int).len() > 0 ==> t.take(j - pos as int).last()
                    == s@[jm1]);
            }
            assert(clean_line(s@.subrange(pos as int, j as int)) =~= line@);
            if j == n {
                assert(t =~= s@.subrange(pos as int, j as int));
            }
        }
        apply_reg_line(&mut m, line);
        if j < n {
            proof {
                assert(t.skip(j - pos as int + 1) =~= s@.skip(j + 1));
            }
            pos = j + 1;
        } else {
            proof {
                assert(s@.skip(n as int).len() == 0);
            }
            pos = n;
        }
    }
    proof {
        assert(s@.skip(n as int).len() == 0);
    }
    m
}

} // verus!
