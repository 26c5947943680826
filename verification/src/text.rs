//! Character-level scanning primitives shared by the registry and range
//! parsers: forward and backward searches over a `Seq<char>`, and parsing of
//! unsigned decimal numbers.

use vstd::prelude::*;
use vstd::string::StrSliceExecFns;

verus! {

/// A separator between tokens of a whitespace-delimited line.
pub open spec fn is_ws(c: char) -> bool {
    c == ' ' || c == '\t'
}

/// Index of the first occurrence of `c` at or after `i`, or `s.len()` if none.
pub open spec fn find_ch(s: Seq<char>, i: int, c: char) -> int
    decreases s.len() - i,
{
    if i < 0 || i >= s.len() {
        s.len() as int
    } else if s[i] == c {
        i
    } else {
        find_ch(s, i + 1, c)
    }
}

/// Index of the first separator character at or after `i`, or `s.len()` if none.
pub open spec fn find_ws(s: Seq<char>, i: int) -> int
    decreases s.len() - i,
{
    if i < 0 || i >= s.len() {
        s.len() as int
    } else if is_ws(s[i]) {
        i
    } else {
        find_ws(s, i + 1)
    }
}

/// Index of the first non-separator character at or after `i`, or `s.len()` if none.
pub open spec fn find_nonws(s: Seq<char>, i: int) -> int
    decreases s.len() - i,
{
    if i < 0 || i >= s.len() {
        s.len() as int
    } else if !is_ws(s[i]) {
        i
    } else {
        find_nonws(s, i + 1)
    }
}

/// Index of the last occurrence of `c` in `s`, or `-1` if none.
pub open spec fn rfind_ch(s: Seq<char>, c: char) -> int
    decreases s.len(),
{
    if s.len() == 0 {
        -1
    } else if s.last() == c {
        s.len() - 1
    } else {
        rfind_ch(s.drop_last(), c)
    }
}

/// Index of the last separator character in `s`, or `-1` if none.
pub open spec fn rfind_ws(s: Seq<char>) -> int
    decreases s.len(),
{
    if s.len() == 0 {
        -1
    } else if is_ws(s.last()) {
        s.len() - 1
    } else {
        rfind_ws(s.drop_last())
    }
}

/// Index of the last non-separator character in `s`, or `-1` if none.
pub open spec fn rfind_nonws(s: Seq<char>) -> int
    decreases s.len(),
{
    if s.len() == 0 {
        -1
    } else if !is_ws(s.last()) {
        s.len() - 1
    } else {
        rfind_nonws(s.drop_last())
    }
}

/// Scans forward from `from` for the first occurrence of `c`.
pub fn scan_ch(s: &str, from: usize, c: char) -> (r: usize)
    requires
        from <= s@.len(),
    ensures
        r == find_ch(s@, from as int, c),
        from <= r <= s@.len(),
{
    let n = s.unicode_len();
    let mut j = from;
    while j < n
        invariant
            from <= j <= n,
            n == s@.len(),
            find_ch(s@, from as int, c) == find_ch(s@, j as int, c),
        decreases n - j,
    {
        if s.get_char(j) == c {
            return j;
        }
        j += 1;
    }
    j
}

/// Scans forward from `from` for the first separator character.
pub fn scan_ws(s: &str, from: usize) -> (r: usize)
    requires
        from <= s@.len(),
    ensures
        r == find_ws(s@, from as int),
        from <= r <= s@.len(),
{
    let n = s.unicode_len();
    let mut j = from;
    while j < n
        invariant
            from <= j <= n,
            n == s@.len(),
            find_ws(s@, from as int) == find_ws(s@, j as int),
        decreases n - j,
    {
        let ch = s.get_char(j);
        if ch == ' ' || ch == '\t' {
            return j;
        }
        j += 1;
    }
    j
}

/// Scans forward from `from` for the first non-separator character.
pub fn scan_nonws(s: &str, from: usize) -> (r: usize)
    requires
        from <= s@.len(),
    ensures
        r == find_nonws(s@, from as int),
        from <= r <= s@.len(),
{
    let n = s.unicode_len();
    let mut j = from;
    while j < n
        invariant
            from <= j <= n,
            n == s@.len(),
            find_nonws(s@, from as int) == find_nonws(s@, j as int),
        decreases n - j,
    {
        let ch = s.get_char(j);
        if !(ch == ' ' || ch == '\t') {
            return j;
        }
        j += 1;
    }
    j
}

/// Scans backward for the last occurrence of `c` before index `end`.
pub fn rscan_ch(s: &str, end: usize, c: char) -> (r: Option<usize>)
    requires
        end <= s@.len(),
    ensures
        match r {
            Some(j) => j < end && j == rfind_ch(s@.take(end as int), c),
            None => rfind_ch(s@.take(end as int), c) == -1,
        },
{
    let mut j = end;
    while j > 0
        invariant
            j <= end <= s@.len(),
            rfind_ch(s@.take(end as int), c) == rfind_ch(s@.take(j as int), c),
        decreases j,
    {
        j -= 1;
        proof {
            assert(s@.take(j + 1).drop_last() =~= s@.take(j as int));
            assert(s@.take(j + 1).last() == s@[j as int]);
        }
        if s.get_char(j) == c {
            return Some(j);
        }
    }
    proof {
        assert(s@.take(0).len() == 0);
    }
    None
}

/// Scans backward for the last separator character before index `end`.
pub fn rscan_ws(s: &str, end: usize) -> (r: Option<usize>)
    requires
        end <= s@.len(),
    ensures
        match r {
            Some(j) => j < end && j == rfind_ws(s@.take(end as int)),
            None => rfind_ws(s@.take(end as int)) == -1,
        },
{
    let mut j = end;
    while j > 0
        invariant
            j <= end <= s@.len(),
            rfind_ws(s@.take(end as int)) == rfind_ws(s@.take(j as int)),
        decreases j,
    {
        j -= 1;
        proof {
            assert(s@.take(j + 1).drop_last() =~= s@.take(j as int));
            assert(s@.take(j + 1).last() == s@[j as int]);
        }
        let ch = s.get_char(j);
        if ch == ' ' || ch == '\t' {
            return Some(j);
        }
    }
    proof {
        assert(s@.take(0).len() == 0);
    }
    None
}

/// Scans backward for the last non-separator character before index `end`.
pub fn rscan_nonws(s: &str, end: usize) -> (r: Option<usize>)
    requires
        end <= s@.len(),
    ensures
        match r {
            Some(j) => j < end && j == rfind_nonws(s@.take(end as int)),
            None => rfind_nonws(s@.take(end as int)) == -1,
        },
{
    let mut j = end;
    while j > 0
        invariant
            j <= end <= s@.len(),
            rfind_nonws(s@.take(end as int)) == rfind_nonws(s@.take(j as int)),
        decreases j,
    {
        j -= 1;
        proof {
            assert(s@.take(j + 1).drop_last() =~= s@.take(j as int));
            assert(s@.take(j + 1).last() == s@[j as int]);
        }
        let ch = s.get_char(j);
        if !(ch == ' ' || ch == '\t') {
            return Some(j);
        }
    }
    proof {
        assert(s@.take(0).len() == 0);
    }
    None
}

/// A line stripped of one trailing carriage return, so that datasets with
/// either line ending parse alike.
pub open spec fn clean_line(t: Seq<char>) -> Seq<char> {
    if t.len() > 0 && t.last() == '\r' {
        t.drop_last()
    } else {
        t
    }
}

/// `find_ch` yields the least index holding `c`, or the length.
pub proof fn lemma_find_ch(s: Seq<char>, i: int, c: char)
    requires
        0 <= i <= s.len(),
    ensures
        i <= find_ch(s, i, c) <= s.len(),
        find_ch(s, i, c) < s.len() ==> s[find_ch(s, i, c)] == c,
        forall|k: int| i <= k < find_ch(s, i, c) ==> s[k] != c,
    decreases s.len() - i,
{
    if i < s.len() && s[i] != c {
        lemma_find_ch(s, i + 1, c);
    }
}

/// `find_nonws` yields the least non-separator index at or after `i`, or the
/// length.
pub proof fn lemma_find_nonws(s: Seq<char>, i: int)
    requires
        0 <= i <= s.len(),
    ensures
        i <= find_nonws(s, i) <= s.len(),
        find_nonws(s, i) < s.len() ==> !is_ws(s[find_nonws(s, i)]),
        forall|k: int| i <= k < find_nonws(s, i) ==> is_ws(s[k]),
    decreases s.len() - i,
{
    if i < s.len() && is_ws(s[i]) {
        lemma_find_nonws(s, i + 1);
    }
}

/// `rfind_nonws` yields the greatest non-separator index, or `-1`.
pub proof fn lemma_rfind_nonws(s: Seq<char>)
    ensures
        -1 <= rfind_nonws(s) < s.len(),
        rfind_nonws(s) >= 0 ==> !is_ws(s[rfind_nonws(s)]),
        forall|k: int| rfind_nonws(s) < k < s.len() ==> is_ws(s[k]),
    decreases s.len(),
{
    if s.len() > 0 && is_ws(s.last()) {
        lemma_rfind_nonws(s.drop_last());
        assert(forall|k: int| 0 <= k < s.len() - 1 ==> s.drop_last()[k] == s[k]);
    }
}

/// Searching from `i` in `s` is searching from the front of `s.skip(i)`.
pub proof fn lemma_find_ch_skip(s: Seq<char>, i: int, c: char)
    requires
        0 <= i <= s.len(),
    ensures
        find_ch(s, i, c) == i + find_ch(s.skip(i), 0, c),
{
    lemma_find_ch(s, i, c);
    lemma_find_ch(s.skip(i), 0, c);
    let r1 = find_ch(s, i, c);
    let r2 = find_ch(s.skip(i), 0, c);
    assert(forall|k: int| 0 <= k < s.len() - i ==> s.skip(i)[k] == s[i + k]);
    if r1 - i < r2 {
        assert(r1 < s.len());
        assert(s.skip(i)[r1 - i] == c);
        assert(false);
    }
    if r2 < r1 - i {
        assert(r2 < s.skip(i).len());
        assert(s[i + r2] == c);
        assert(false);
    }
}

/// A decimal digit.
pub open spec fn is_digit(c: char) -> bool {
    48 <= c as u32 <= 57
}

/// Value of a digit sequence read left to right; `None` on a non-digit or on
/// a value that does not fit in `u32`. The empty sequence has value zero.
pub open spec fn u32_digits(s: Seq<char>) -> Option<u32>
    decreases s.len(),
{
    if s.len() == 0 {
        Some(0u32)
    } else {
        match u32_digits(s.drop_last()) {
            None => None,
            Some(v) => {
                if !is_digit(s.last()) {
                    None
                } else if v * 10 + (s.last() as u32 - 48) > u32::MAX {
                    None
                } else {
                    Some((v * 10 + (s.last() as u32 - 48)) as u32)
                }
            },
        }
    }
}

/// An unsigned 32-bit integer written in decimal: one or more digits, no sign,
/// no other characters, value at most `u32::MAX`.
pub open spec fn u32_of(s: Seq<char>) -> Option<u32> {
    if s.len() == 0 {
        None
    } else {
        u32_digits(s)
    }
}

/// Once a prefix of `s` fails to parse, the whole of `s` fails too.
proof fn lemma_u32_digits_extend_none(s: Seq<char>, i: int)
    requires
        0 <= i <= s.len(),
        u32_digits(s.take(i)) is None,
    ensures
        u32_digits(s) is None,
    decreases s.len() - i,
{
    if i < s.len() {
        assert(s.take(i + 1).drop_last() =~= s.take(i));
        lemma_u32_digits_extend_none(s, i + 1);
    } else {
        assert(s.take(i) =~= s);
    }
}

/// Parses the whole of `s` as an unsigned 32-bit decimal number.
pub fn parse_u32(s: &str) -> (r: Option<u32>)
    ensures
        r == u32_of(s@),
{
    let n = s.unicode_len();
    if n == 0 {
        return None;
    }
    let mut v: u32 = 0;
    let mut i: usize = 0;
    while i < n
        invariant
            i <= n,
            n == s@.len(),
            u32_digits(s@.take(i as int)) == Some(v),
        decreases n - i,
    {
        proof {
            assert(s@.take(i + 1).drop_last() =~= s@.take(i as int));
            assert(s@.take(i + 1).last() == s@[i as int]);
        }
        let c = s.get_char(i);
        let code = c as u32;
        if code < 48 || code > 57 {
            proof {
                lemma_u32_digits_extend_none(s@, i + 1);
            }
            return None;
        }
        let d = code - 48;
        let wide: u64 = (v as u64) * 10 + (d as u64);
        if wide > 0xFFFF_FFFFu64 {
            proof {
                lemma_u32_digits_extend_none(s@, i + 1);
            }
            return None;
        }
        v = wide as u32;
        i += 1;
    }
    proof {
        assert(s@.take(n as int) =~= s@);
    }
    Some(v)
}

} // verus!
