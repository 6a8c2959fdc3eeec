//! The label grammar shared by routing keys, path segments and host names:
//! `[a-z0-9]`, optionally followed by `[a-z0-9-]*[a-z0-9]`.
use vstd::prelude::*;
use crate::text::{is_lower_alnum, lower_alnum};

verus! {

/// The longest routing key a configuration may hold (a DNS label).
pub const MAX_KEY_LEN: usize = 63;

pub open spec fn is_label_char(c: char) -> bool {
    is_lower_alnum(c) || c == '-'
}

/// `s` matches `[a-z0-9]([a-z0-9-]*[a-z0-9])?` as a whole.
pub open spec fn is_label(s: Seq<char>) -> bool {
    &&& s.len() >= 1
    &&& is_lower_alnum(s[0])
    &&& is_lower_alnum(s.last())
    &&& forall|i: int| 0 <= i < s.len() ==> is_label_char(#[trigger] s[i])
}

/// A canonical routing key: a label of at most 63 characters.
pub open spec fn is_route_key(s: Seq<char>) -> bool {
    is_label(s) && s.len() <= MAX_KEY_LEN
}

/// Whether `v[lo..hi]` is a label.
pub fn is_label_range(v: &Vec<char>, lo: usize, hi: usize) -> (r: bool)
    requires
        lo <= hi <= v.len(),
    ensures
        r == is_label(v@.subrange(lo as int, hi as int)),
{
    let ghost s = v@.subrange(lo as int, hi as int);
    if lo == hi {
        return false;
    }
    if !lower_alnum(v[lo]) || !lower_alnum(v[hi - 1]) {
        return false;
    }
    let mut i: usize = lo;
    while i < hi
        invariant
            lo <= i <= hi <= v.len(),
            s == v@.subrange(lo as int, hi as int),
            forall|k: int| lo <= k < i ==> is_label_char(#[trigger] v@[k]),
        decreases hi - i,
    {
        let c = v[i];
        if !(lower_alnum(c) || c == '-') {
            assert(s[i - lo] == v@[i as int]);
            return false;
        }
        i = i + 1;
    }
    assert forall|k: int| 0 <= k < s.len() implies is_label_char(#[trigger] s[k]) by {
        assert(s[k] == v@[k + lo]);
    }
    true
}

/// Whether `v` is a label.
pub fn is_label_exec(v: &Vec<char>) -> (r: bool)
    ensures
        r == is_label(v@),
{
    let r = is_label_range(v, 0, v.len());
    assert(v@.subrange(0, v@.len() as int) =~= v@);
    r
}

} // verus!
