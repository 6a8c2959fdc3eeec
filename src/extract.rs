//! Deriving a routing key and the path to forward from a request, and
//! resolving it against the route table.
use vstd::prelude::*;
use crate::config::ProxyMode;
use crate::label::{is_label_exec, is_label_range, is_route_key, MAX_KEY_LEN};
use crate::routes::RouteTable;
use crate::text::{
    all_digits, ascii_alnum, chars_of, digits_from, find_from, index_of, is_ascii_alnum, leading,
    lemma_leading, lower, lowercase, slice_of, string_of, trim, trim_chars,
};

verus! {

/// The parts of an inbound request that routing reads: its path-and-query,
/// and its `Host` header when present and readable as text.
pub struct RequestHead {
    pub path_and_query: Option<String>,
    pub host: Option<String>,
}

impl View for RequestHead {
    type V = (Option<Seq<char>>, Option<Seq<char>>);

    open spec fn view(&self) -> (Option<Seq<char>>, Option<Seq<char>>) {
        (
            match &self.path_and_query {
                Some(p) => Some(p@),
                None => None,
            },
            match &self.host {
                Some(h) => Some(h@),
                None => None,
            },
        )
    }
}

/// A resolved destination: the upstream base URL and the path to request there.
#[derive(Debug, PartialEq, Eq)]
pub struct HostAndPath {
    pub host: String,
    pub path: String,
}

impl View for HostAndPath {
    type V = (Seq<char>, Seq<char>);

    open spec fn view(&self) -> (Seq<char>, Seq<char>) {
        (self.host@, self.path@)
    }
}

/// A routing key together with the path that goes with it.
#[derive(Debug, PartialEq, Eq)]
pub struct KeyAndPath {
    pub key: String,
    pub path: String,
}

impl View for KeyAndPath {
    type V = (Seq<char>, Seq<char>);

    open spec fn view(&self) -> (Seq<char>, Seq<char>) {
        (self.key@, self.path@)
    }
}

/// A character of a path segment as requests may spell it: `[A-Za-z0-9-]`.
pub open spec fn is_seg_char(c: char) -> bool {
    is_ascii_alnum(c) || c == '-'
}

/// What may follow the key segment: nothing, or `/...` or `?...`, with no
/// line break in the query.
pub open spec fn rest_ok(r: Seq<char>) -> bool {
    r.len() == 0 || ((r[0] == '/' || r[0] == '?') && forall|k: int|
        index_of(r, '?') < k < r.len() ==> #[trigger] r[k] != '\n')
}

/// Path mode's grammar: `/`, a segment of `[A-Za-z0-9]` that may hold but
/// not begin or end with `-`, then the rest. Gives the segment and the rest.
pub open spec fn path_split(p: Seq<char>) -> Option<(Seq<char>, Seq<char>)> {
    if p.len() >= 1 && p[0] == '/' {
        let n = leading(p.drop_first(), |c: char| is_seg_char(c));
        let seg = p.subrange(1, 1 + n as int);
        let rest = p.skip(1 + n as int);
        if n >= 1 && is_ascii_alnum(seg[0]) && is_ascii_alnum(seg.last()) && rest_ok(rest) {
            Some((seg, rest))
        } else {
            None
        }
    } else {
        None
    }
}

/// What may follow `key.` in a host: at least one character up to an
/// optional `:port` of ASCII digits.
pub open spec fn host_tail_ok(t: Seq<char>) -> bool {
    let j = index_of(t, ':');
    j >= 1 && (j == t.len() || all_digits(t.skip(j + 1 as int)))
}

/// Domain mode's grammar on a `Host` value: trimmed and lower-cased, it must
/// be a routing key, a `.`, and a tail. Gives the key.
pub open spec fn host_key(h: Seq<char>) -> Option<Seq<char>> {
    let x = lower(trim(h));
    let d = index_of(x, '.');
    if x.len() > 0 && is_ascii_alnum(x[0]) && d < x.len() && is_route_key(x.take(d as int))
        && host_tail_ok(x.skip(d + 1 as int)) {
        Some(x.take(d as int))
    } else {
        None
    }
}

/// The routing key and forward path a request yields in a mode.
pub open spec fn route_of(req: (Option<Seq<char>>, Option<Seq<char>>), mode: ProxyMode) -> Option<
    (Seq<char>, Seq<char>),
> {
    match mode {
        ProxyMode::Domain => match req.1 {
            Some(h) => match host_key(h) {
                Some(k) => Some(
                    (
                        k,
                        match req.0 {
                            Some(p) => p,
                            None => seq!['/'],
                        },
                    ),
                ),
                None => None,
            },
            None => None,
        },
        ProxyMode::Path => match req.0 {
            Some(p) => match path_split(p) {
                Some(sr) => if is_route_key(lower(sr.0)) {
                    Some(
                        (
                            lower(sr.0),
                            if sr.1.len() == 0 {
                                seq!['/']
                            } else {
                                sr.1
                            },
                        ),
                    )
                } else {
                    None
                },
                None => None,
            },
            None => None,
        },
    }
}

/// The destination of a request: its route's key looked up in the table.
pub open spec fn destination(
    req: (Option<Seq<char>>, Option<Seq<char>>),
    mode: ProxyMode,
    table: Map<Seq<char>, Seq<char>>,
) -> Option<(Seq<char>, Seq<char>)> {
    match route_of(req, mode) {
        Some(kp) => if table.contains_key(kp.0) {
            Some((table[kp.0], kp.1))
        } else {
            None
        },
        None => None,
    }
}

pub fn seg_char(c: char) -> (r: bool)
    ensures
        r == is_seg_char(c),
{
    ascii_alnum(c) || c == '-'
}

/// The path `/`.
fn root_path() -> (r: String)
    ensures
        r@ == seq!['/'],
{
    let v = vec!['/'];
    assert(v@ =~= seq!['/']);
    string_of(&v)
}

/// Splits a path-and-query into its key segment and the rest, by path mode's grammar.
pub fn split_path(p: &str) -> (r: Option<KeyAndPath>)
    ensures
        r is Some <==> path_split(p@) is Some,
        r is Some ==> r->0@ == path_split(p@)->0,
{
    let v = chars_of(p);
    if v.len() == 0 || v[0] != '/' {
        return None;
    }
    let mut e: usize = 1;
    while e < v.len() && seg_char(v[e])
        invariant
            1 <= e <= v.len(),
            forall|k: int| 1 <= k < e ==> is_seg_char(#[trigger] v@[k]),
        decreases v.len() - e,
    {
        e = e + 1;
    }
    let ghost d = v@.drop_first();
    proof {
        assert forall|k: int| 0 <= k < e - 1 implies (|c: char| is_seg_char(c))(#[trigger] d[k]) by {
            assert(d[k] == v@[k + 1]);
        }
        if e < v.len() {
            assert(d[e - 1] == v@[e as int]);
        }
        lemma_leading(d, |c: char| is_seg_char(c), e - 1);
    }
    let ghost seg = v@.subrange(1, e as int);
    let ghost rest = v@.skip(e as int);
    if e == 1 || !ascii_alnum(v[1]) || !ascii_alnum(v[e - 1]) {
        return None;
    }
    assert(seg[0] == v@[1] && seg.last() == v@[e - 1]);
    if e < v.len() {
        assert(rest[0] == v@[e as int]);
        if v[e] != '/' && v[e] != '?' {
            return None;
        }
        let q = find_from(&v, '?', e);
        if q < v.len() {
            let mut k: usize = q + 1;
            while k < v.len()
                invariant
                    e <= q < k <= v.len(),
                    rest == v@.skip(e as int),
                    q == e + index_of(rest, '?'),
                    v@ == p@,
                    v@.len() >= 1 && v@[0] == '/',
                    leading(v@.drop_first(), |c: char| is_seg_char(c)) == e - 1,
                    forall|j: int| q < j < k ==> #[trigger] v@[j] != '\n',
                decreases v.len() - k,
            {
                if v[k] == '\n' {
                    assert(rest[k - e] == v@[k as int]);
                    assert(index_of(rest, '?') < k - e < rest.len());
                    assert(!rest_ok(rest));
                    return None;
                }
                k = k + 1;
            }
        }
        assert forall|j: int| index_of(rest, '?') < j < rest.len() implies #[trigger] rest[j]
            != '\n' by {
            assert(rest[j] == v@[j + e]);
        }
    }
    Some(
        KeyAndPath {
            key: string_of(&slice_of(&v, 1, e)),
            path: string_of(&slice_of(&v, e, v.len())),
        },
    )
}

/// The routing key in a `Host` header value, by domain mode's grammar.
pub fn extract_key_from_host(host: &str) -> (r: Option<String>)
    ensures
        r is Some <==> host_key(host@) is Some,
        r is Some ==> r->0@ == host_key(host@)->0,
{
    let x = lowercase(&trim_chars(&chars_of(host)));
    if x.len() == 0 || !ascii_alnum(x[0]) {
        return None;
    }
    let d = find_from(&x, '.', 0);
    assert(x@.skip(0) =~= x@);
    if d == x.len() {
        return None;
    }
    if d > MAX_KEY_LEN || !is_label_range(&x, 0, d) {
        assert(x@.subrange(0, d as int) =~= x@.take(d as int));
        return None;
    }
    assert(x@.subrange(0, d as int) =~= x@.take(d as int));
    let ghost t = x@.skip(d + 1);
    let j = find_from(&x, ':', d + 1);
    proof {
        assert(j - (d + 1) == index_of(t, ':'));
    }
    if j == d + 1 {
        return None;
    }
    if j < x.len() && !digits_from(&x, j + 1) {
        assert(x@.skip(j + 1) =~= t.skip(j - d));
        return None;
    }
    if j < x.len() {
        assert(x@.skip(j + 1) =~= t.skip(j - d));
    }
    Some(string_of(&slice_of(&x, 0, d)))
}

/// The routing key and forward path of a request in `mode`, or `None` when
/// the request names no well-formed key.
pub fn extract_key(req: &RequestHead, mode: &ProxyMode) -> (r: Option<KeyAndPath>)
    ensures
        r is Some <==> route_of(req@, *mode) is Some,
        r is Some ==> r->0@ == route_of(req@, *mode)->0,
{
    match mode {
        ProxyMode::Domain => {
            let key = match &req.host {
                Some(h) => match extract_key_from_host(h.as_str()) {
                    Some(k) => k,
                    None => return None,
                },
                None => return None,
            };
            let path = match &req.path_and_query {
                Some(p) => p.clone(),
                None => root_path(),
            };
            Some(KeyAndPath { key, path })
        },
        ProxyMode::Path => {
            let pq = match &req.path_and_query {
                Some(p) => p,
                None => return None,
            };
            let (seg, rest) = match split_path(pq.as_str()) {
                Some(sr) => (sr.key, sr.path),
                None => return None,
            };
            let key_chars = lowercase(&chars_of(seg.as_str()));
            if key_chars.len() > MAX_KEY_LEN || !is_label_exec(&key_chars) {
                return None;
            }
            let path = if rest.as_str().is_empty() {
                root_path()
            } else {
                rest
            };
            Some(KeyAndPath { key: string_of(&key_chars), path })
        },
    }
}

/// Resolves a request to its destination: the upstream its key routes to,
/// and the path to forward.
pub fn get_destination(req: &RequestHead, mode: &ProxyMode, mapping: &RouteTable) -> (r: Option<
    HostAndPath,
>)
    requires
        mapping.wf(),
    ensures
        r is Some <==> destination(req@, *mode, mapping@) is Some,
        r is Some ==> r->0@ == destination(req@, *mode, mapping@)->0,
{
    let (key, path) = match extract_key(req, mode) {
        Some(kp) => (kp.key, kp.path),
        None => return None,
    };
    match mapping.get(key.as_str()) {
        Some(host) => Some(HostAndPath { host: host.clone(), path }),
        None => None,
    }
}

} // verus!
