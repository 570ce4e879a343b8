//! Character-level string helpers with exact specifications.

use vstd::prelude::*;

verus! {

/// `s` with every leading copy of `p` removed, one copy at a time.
pub open spec fn trim_start_all(s: Seq<char>, p: Seq<char>) -> Seq<char>
    decreases s.len(),
{
    if p.len() > 0 && p.is_prefix_of(s) {
        trim_start_all(s.subrange(p.len() as int, s.len() as int), p)
    } else {
        s
    }
}

/// Whether `s` begins with `p`.
pub fn has_prefix(s: &str, p: &str) -> (r: bool)
    ensures
        r == p@.is_prefix_of(s@),
{
    let plen = p.unicode_len();
    let slen = s.unicode_len();
    if plen > slen {
        return false;
    }
    let mut i: usize = 0;
    while i < plen
        invariant
            plen == p@.len(),
            slen == s@.len(),
            plen <= slen,
            i <= plen,
            forall|j: int| 0 <= j < i ==> p@[j] == s@[j],
        decreases plen - i,
    {
        if s.get_char(i) != p.get_char(i) {
            return false;
        }
        i = i + 1;
    }
    assert(p@ =~= s@.subrange(0, p@.len() as int));
    true
}

/// Whether the two strings hold the same characters.
pub fn same_text(a: &str, b: &str) -> (r: bool)
    ensures
        r == (a@ == b@),
{
    if a.unicode_len() != b.unicode_len() {
        return false;
    }
    let r = has_prefix(a, b);
    proof {
        if r {
            assert(a@ =~= b@);
        }
    }
    r
}

/// Removes every leading copy of `p` from `s`, as `str::trim_start_matches`
/// does for a non-empty string pattern.
pub fn trim_start_all_of<'a>(s: &'a str, p: &str) -> (r: &'a str)
    requires
        p@.len() > 0,
    ensures
        r@ == trim_start_all(s@, p@),
{
    let plen = p.unicode_len();
    let mut cur: &'a str = s;
    loop
        invariant
            plen == p@.len() > 0,
            trim_start_all(cur@, p@) == trim_start_all(s@, p@),
        decreases cur@.len(),
    {
        if has_prefix(cur, p) {
            let len = cur.unicode_len();
            cur = cur.substring_char(plen, len);
        } else {
            return cur;
        }
    }
}

} // verus!
