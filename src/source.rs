//! Turning what a user types as a route's source into a routing key.
use vstd::prelude::*;
use crate::label::{is_label_exec, is_route_key, MAX_KEY_LEN};
use crate::text::{
    before, chars_of, digit, find_from, first_segment, first_segment_exec, is_ascii_digit,
    kept_end, lemma_index_of, lemma_kept_end, lower, lowercase, slice_of, string_of, trim,
    trim_chars,
};

verus! {

/// The routing-key rules, as a rejected source's message explains them.
pub const INVALID_SOURCE_RULES: &'static str = "The name must be 1–63 characters long and a single segment usable in both a URL path and a domain.

  - Max length: 63 characters.
  - Allowed: lowercase letters (a-z), digits (0-9), and hyphens (-).
  - Must not start or end with a hyphen.
  - Must not contain '.' or '/'.

  Examples: 'my-app', 'api', 'project1'";

/// The message for a blank source.
pub const EMPTY_SOURCE_ERROR: &'static str = "Source cannot be empty";

/// The message for a `/`-form source with no non-empty segment.
pub const EMPTY_SEGMENT_ERROR: &'static str =
    "Invalid source: path must include a non-empty first segment (e.g., /api)";

/// The message for a dotted source whose first label is empty.
pub const EMPTY_LABEL_ERROR: &'static str =
    "Invalid source: hostname must start with a non-empty label (e.g., api.localhost)";

/// `t` without a trailing `:port` (a `:` followed by one or more ASCII digits).
pub open spec fn without_port(t: Seq<char>) -> Seq<char> {
    let n = kept_end(t, |c: char| is_ascii_digit(c));
    if 0 < n < t.len() && t[n - 1] == ':' {
        t.take(n - 1)
    } else {
        t
    }
}

/// The key candidate in a trimmed source: the first non-empty path segment
/// of a `/`-form; the first `.`-label of a dotted host once a trailing
/// `:port` is dropped, which must not be empty; else the whole text.
pub open spec fn raw_key(t: Seq<char>) -> Option<Seq<char>> {
    if t.len() > 0 && t[0] == '/' {
        first_segment(t, '/')
    } else if t.contains('.') {
        let l = before(without_port(t), '.');
        if l.len() == 0 {
            None
        } else {
            Some(l)
        }
    } else {
        Some(t)
    }
}

/// The message for a trimmed source that has no key candidate.
pub open spec fn raw_key_error(t: Seq<char>) -> Seq<char> {
    if t.len() > 0 && t[0] == '/' {
        EMPTY_SEGMENT_ERROR@
    } else {
        EMPTY_LABEL_ERROR@
    }
}

/// The message for a key that breaks the routing-key rules: it names the key
/// and states the rules.
pub open spec fn invalid_name_message(k: Seq<char>) -> Seq<char> {
    "Invalid source name: \""@ + k + "\".\n\n  "@ + INVALID_SOURCE_RULES@
}

/// The routing key a source names, if it names one.
pub open spec fn source_key(s: Seq<char>) -> Option<Seq<char>> {
    let t = trim(s);
    if t.len() == 0 {
        None
    } else {
        match raw_key(t) {
            Some(raw) => if is_route_key(lower(raw)) {
                Some(lower(raw))
            } else {
                None
            },
            None => None,
        }
    }
}

/// Why a source names no routing key.
pub open spec fn source_error(s: Seq<char>) -> Seq<char> {
    let t = trim(s);
    if t.len() == 0 {
        EMPTY_SOURCE_ERROR@
    } else {
        match raw_key(t) {
            Some(raw) => invalid_name_message(lower(raw)),
            None => raw_key_error(t),
        }
    }
}

/// Normalizes a user-provided source (`app`, `/app`, `app.localhost`,
/// `app.localhost:3000`) into the canonical routing key.
pub fn normalize_source_key(input: &str) -> (r: Result<String, String>)
    ensures
        r is Ok <==> source_key(input@) is Some,
        r is Ok ==> r->Ok_0@ == source_key(input@)->0,
        r is Err ==> r->Err_0@ == source_error(input@),
{
    let v = trim_chars(&chars_of(input));
    if v.len() == 0 {
        return Err(String::from_str(EMPTY_SOURCE_ERROR));
    }
    let s = string_of(&v);
    let raw = match parse_source_raw_key(s.as_str()) {
        Ok(raw) => raw,
        Err(e) => return Err(e),
    };
    let key = string_of(&lowercase(&chars_of(raw.as_str())));
    match validate_source_label(key.as_str()) {
        Ok(()) => Ok(key),
        Err(e) => Err(e),
    }
}

/// Picks the key candidate out of a trimmed source.
pub fn parse_source_raw_key(s: &str) -> (r: Result<String, String>)
    ensures
        r is Ok <==> raw_key(s@) is Some,
        r is Ok ==> r->Ok_0@ == raw_key(s@)->0,
        r is Err ==> r->Err_0@ == raw_key_error(s@),
{
    let v = chars_of(s);
    proof {
        assert(v@.take(v@.len() as int) =~= v@);
    }
    if v.len() > 0 && v[0] == '/' {
        return match first_segment_exec(&v, v.len(), '/') {
            Some(seg) => Ok(string_of(&seg)),
            None => Err(String::from_str(EMPTY_SEGMENT_ERROR)),
        };
    }
    let dot = find_from(&v, '.', 0);
    if dot < v.len() {
        proof {
            assert(v@.contains('.')) by {
                assert(v@[dot as int] == '.');
            }
        }
        let mut n: usize = v.len();
        while n > 0 && digit(v[n - 1])
            invariant
                n <= v.len(),
                forall|k: int| n <= k < v.len() ==> is_ascii_digit(#[trigger] v@[k]),
            decreases n,
        {
            n = n - 1;
        }
        proof {
            lemma_kept_end(v@, |c: char| is_ascii_digit(c), n as int);
        }
        let end: usize = if n > 0 && n < v.len() && v[n - 1] == ':' {
            n - 1
        } else {
            v.len()
        };
        let ghost u = v@.take(end as int);
        assert(u == without_port(v@));
        let mut d: usize = 0;
        while d < end && v[d] != '.'
            invariant
                d <= end <= v.len(),
                forall|k: int| 0 <= k < d ==> #[trigger] v@[k] != '.',
            decreases end - d,
        {
            d = d + 1;
        }
        proof {
            assert forall|k: int| 0 <= k < d implies #[trigger] u[k] != '.' by {
                assert(u[k] == v@[k]);
            }
            if d < end {
                assert(u[d as int] == v@[d as int]);
            }
            lemma_index_of(u, '.', d as int);
            assert(u.take(d as int) =~= v@.subrange(0, d as int));
        }
        if d == 0 {
            return Err(String::from_str(EMPTY_LABEL_ERROR));
        }
        Ok(string_of(&slice_of(&v, 0, d)))
    } else {
        proof {
            assert(v@.skip(0) =~= v@);
            assert(!v@.contains('.'));
        }
        Ok(String::from_str(s))
    }
}

/// Checks a lower-cased key against the routing-key rules; a rejection
/// names the key and states the rules.
pub fn validate_source_label(key: &str) -> (r: Result<(), String>)
    ensures
        r is Ok <==> is_route_key(key@),
        r is Err ==> r->Err_0@ == invalid_name_message(key@),
{
    let v = chars_of(key);
    if v.len() > MAX_KEY_LEN || !is_label_exec(&v) {
        let mut m = String::from_str("Invalid source name: \"");
        m.append(key);
        m.append("\".\n\n  ");
        m.append(INVALID_SOURCE_RULES);
        return Err(m);
    }
    Ok(())
}

} // verus!
