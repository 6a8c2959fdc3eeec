//! Properties that relate the normalizer's results to each other.
use vstd::prelude::*;
use crate::config::ProxyMode;
use crate::extract::{host_key, host_tail_ok, is_seg_char, path_split, rest_ok, route_of};
use crate::label::{is_label, is_label_char, is_route_key, MAX_KEY_LEN};
use crate::source::{raw_key, source_key, without_port};
use crate::target::{canonical_of, target_of, uri_parse, with_scheme};
use crate::text::{
    before, index_of, is_ascii_digit, is_ascii_upper, is_lower_alnum, is_ws, kept_end, leading, lemma_index_of,
    lemma_index_of_props, lemma_kept_end, lemma_kept_end_props, lemma_lead_count, lemma_leading,
    lemma_leading_props, lemma_trim_unchanged, lower, starts_with, trim,
};

verus! {

/// Lower-casing leaves text without ASCII capitals, such as a label, unchanged.
pub proof fn lemma_lower_label(k: Seq<char>)
    requires
        forall|i: int| 0 <= i < k.len() ==> is_label_char(#[trigger] k[i]),
    ensures
        lower(k) == k,
{
    assert(lower(k) =~= k);
}

proof fn lemma_no_char_in_label(k: Seq<char>, c: char)
    requires
        is_label(k),
        !is_lower_alnum(c),
        c != '-',
    ensures
        index_of(k, c) == k.len(),
        !k.contains(c),
{
    assert forall|i: int| 0 <= i < k.len() implies #[trigger] k[i] != c by {
        assert(is_label_char(k[i]));
    }
    lemma_index_of(k, c, k.len() as int);
}

/// A routing key names itself, and so do its path form `/key` and its host
/// form `key.localhost`.
pub proof fn lemma_key_forms(k: Seq<char>)
    requires
        is_route_key(k),
    ensures
        source_key(k) == Some(k),
        source_key(seq!['/'] + k) == Some(k),
        source_key(k + ".localhost"@) == Some(k),
{
    lemma_lower_label(k);
    assert(is_label_char(k[0]) && is_label_char(k.last()));
    lemma_trim_unchanged(k);
    lemma_no_char_in_label(k, '.');
    lemma_no_char_in_label(k, '/');
    lemma_no_char_in_label(k, ':');
    assert(raw_key(k) == Some(k));

    let p = seq!['/'] + k;
    assert(p.last() == k.last());
    lemma_trim_unchanged(p);
    assert(p[1] == k[0]);
    lemma_lead_count(p, '/', 1);
    assert(p.skip(1) =~= k);
    assert(k.take(k.len() as int) =~= k);
    assert(raw_key(p) == Some(k));

    reveal_strlit(".localhost");
    let h = k + ".localhost"@;
    assert(h[0] == k[0]);
    assert(h.last() == 't');
    lemma_trim_unchanged(h);
    assert forall|i: int| 0 <= i < h.len() implies #[trigger] h[i] != ':' by {
        if i < k.len() {
            assert(h[i] == k[i]);
            assert(is_label_char(k[i]));
        }
    }
    lemma_without_port(h);
    assert(without_port(h) =~= h);
    assert(h[k.len() as int] == '.');
    assert(h.contains('.'));
    assert forall|i: int| 0 <= i < k.len() implies #[trigger] h[i] != '.' by {
        assert(h[i] == k[i]);
        assert(is_label_char(k[i]));
    }
    lemma_index_of(h, '.', k.len() as int);
    assert(h.take(k.len() as int) =~= k);
    assert(raw_key(h) == Some(k));
}

/// Dropping a trailing `:port` keeps a prefix, and keeps every position that
/// holds neither a digit nor a `:`.
proof fn lemma_without_port(t: Seq<char>)
    ensures
        without_port(t).len() <= t.len(),
        without_port(t) == t.take(without_port(t).len() as int),
        forall|i: int|
            0 <= i < t.len() && !is_ascii_digit(#[trigger] t[i]) && t[i] != ':' ==> i
                < without_port(t).len(),
{
    lemma_kept_end_props(t, |c: char| is_ascii_digit(c));
    assert(t.take(t.len() as int) =~= t);
}

/// Normalizing a routing key again gives it back unchanged.
pub proof fn lemma_source_idempotent(s: Seq<char>)
    requires
        source_key(s) is Some,
    ensures
        source_key(source_key(s)->0) == source_key(s),
{
    lemma_key_forms(source_key(s)->0);
}

/// A plain name in the label alphabet is accepted exactly when it is at most
/// 63 characters long.
pub proof fn lemma_length_limit(s: Seq<char>)
    requires
        is_label(s),
    ensures
        source_key(s) is Some <==> s.len() <= MAX_KEY_LEN,
        source_key(s) is Some ==> source_key(s)->0 == s,
{
    lemma_lower_label(s);
    assert(is_label_char(s[0]) && is_label_char(s.last()));
    lemma_trim_unchanged(s);
    lemma_no_char_in_label(s, '.');
}

/// A source is rejected when it is blank; when it begins with `-`; when it
/// ends with `-` and is a plain name (no `.`, not a `/` path); and when it is
/// not a `/` path and holds a `/` before any `.`.
pub proof fn lemma_source_rejects(s: Seq<char>)
    ensures
        trim(s).len() == 0 ==> source_key(s) is None,
        s.len() > 0 && s[0] == '-' ==> source_key(s) is None,
        s.len() > 0 && s.last() == '-' && !trim(s).contains('.') && !(trim(s).len() > 0
            && trim(s)[0] == '/') ==> source_key(s) is None,
        (trim(s).len() > 0 && trim(s)[0] != '/' && exists|i: int|
            0 < i < trim(s).len() && trim(s)[i] == '/' && forall|j: int|
                0 <= j < i ==> #[trigger] trim(s)[j] != '.') ==> source_key(
            s,
        ) is None,
{
    let ws = |c: char| is_ws(c);
    let a = s.skip(leading(s, ws) as int);
    let t = trim(s);
    lemma_leading_props(s, ws);
    lemma_kept_end_props(a, ws);
    assert(t == a.take(kept_end(a, ws) as int));
    if s.len() > 0 && s[0] == '-' {
        lemma_leading(s, ws, 0);
        assert(a =~= s);
        assert(kept_end(a, ws) > 0);
        assert(t[0] == '-');
        lemma_dash_first(t);
    }
    if s.len() > 0 && s.last() == '-' && !t.contains('.') && !(t.len() > 0 && t[0] == '/') {
        assert(leading(s, ws) < s.len());
        assert(a.last() == s.last());
        lemma_kept_end(a, ws, a.len() as int);
        assert(t =~= a);
        assert(raw_key(t) == Some(t));
        assert(lower(t).last() == '-');
    }
    if t.len() > 0 && t[0] != '/' && exists|i: int|
        0 < i < t.len() && t[i] == '/' && forall|j: int| 0 <= j < i ==> #[trigger] t[j] != '.' {
        let i = choose|i: int|
            0 < i < t.len() && t[i] == '/' && forall|j: int| 0 <= j < i ==> #[trigger] t[j] != '.';
        if t.contains('.') {
            let u = without_port(t);
            lemma_without_port(t);
            assert(i < u.len());
            assert forall|j: int| 0 <= j <= i implies #[trigger] u[j] != '.' by {
                assert(u[j] == t.take(u.len() as int)[j]);
            }
            lemma_index_of_props(u, '.');
            assert(index_of(u, '.') > i);
            let seg = before(u, '.');
            assert(seg[i] == u[i]);
            assert(u[i] == t.take(u.len() as int)[i]);
            assert(raw_key(t) == Some(seg));
            assert(lower(seg)[i] == '/');
        } else {
            assert(raw_key(t) == Some(t));
            assert(lower(t)[i] == '/');
        }
    }
}

proof fn lemma_dash_first(t: Seq<char>)
    requires
        t.len() > 0,
        t[0] == '-',
    ensures
        raw_key(t) is Some ==> !is_label(lower(raw_key(t)->0)),
{
    if t.contains('.') {
        let u = without_port(t);
        lemma_without_port(t);
        assert(0 < u.len());
        assert(u[0] == t.take(u.len() as int)[0]);
        lemma_index_of_props(u, '.');
        assert(index_of(u, '.') > 0);
        assert(before(u, '.')[0] == '-');
        assert(lower(before(u, '.'))[0] == '-');
    } else {
        assert(lower(t)[0] == '-');
    }
}

/// Normalizing an `http://` target again hands it, unchanged, to the URI
/// parser: what comes back is decided by the parse of the target itself.
pub proof fn lemma_target_reparse(u: Seq<char>)
    requires
        starts_with(u, "http://"@),
        !is_ws(u.last()),
    ensures
        with_scheme(trim(u)) == Some(u),
        target_of(u) == canonical_of(uri_parse(u)),
{
    reveal_strlit("http://");
    assert(u[0] == u.take(7)[0]);
    lemma_trim_unchanged(u);
}

/// Path mode routes `/key` followed by any well-formed rest to that key,
/// forwarding the rest (or `/` when there is none).
pub proof fn lemma_path_form_routes(
    k: Seq<char>,
    rest: Seq<char>,
    host: Option<Seq<char>>,
)
    requires
        is_route_key(k),
        rest_ok(rest),
    ensures
        route_of((Some(seq!['/'] + k + rest), host), ProxyMode::Path) == Some(
            (
                k,
                if rest.len() == 0 {
                    seq!['/']
                } else {
                    rest
                },
            ),
        ),
{
    let p = seq!['/'] + k + rest;
    let d = p.drop_first();
    assert forall|i: int| 0 <= i < k.len() implies (|c: char| is_seg_char(c))(#[trigger] d[i]) by {
        assert(d[i] == k[i]);
        assert(is_label_char(k[i]));
    }
    if rest.len() > 0 {
        assert(d[k.len() as int] == rest[0]);
    }
    lemma_leading(d, |c: char| is_seg_char(c), k.len() as int);
    assert(p.subrange(1, 1 + k.len() as int) =~= k);
    assert(p.skip(1 + k.len() as int) =~= rest);
    assert(path_split(p) == Some((k, rest)));
    lemma_lower_label(k);
}

/// Domain mode routes a host `key.<tail>` to that key, when the tail is a
/// valid host tail with no capitals and no white space at its end.
pub proof fn lemma_host_form_routes(k: Seq<char>, tail: Seq<char>)
    requires
        is_route_key(k),
        host_tail_ok(tail),
        forall|i: int| 0 <= i < tail.len() ==> !is_ascii_upper(#[trigger] tail[i]),
        !is_ws(tail.last()),
    ensures
        host_key(k + seq!['.'] + tail) == Some(k),
{
    let h = k + seq!['.'] + tail;
    lemma_index_of_props(tail, ':');
    assert(h[0] == k[0]);
    assert(is_label_char(k[0]));
    assert(h.last() == tail.last());
    lemma_trim_unchanged(h);
    assert forall|i: int| 0 <= i < h.len() implies !is_ascii_upper(#[trigger] h[i]) by {
        if i < k.len() {
            assert(h[i] == k[i]);
            assert(is_label_char(k[i]));
        } else if i > k.len() {
            assert(h[i] == tail[i - k.len() - 1]);
        }
    }
    assert(lower(h) =~= h);
    assert forall|i: int| 0 <= i < k.len() implies #[trigger] h[i] != '.' by {
        assert(h[i] == k[i]);
        assert(is_label_char(k[i]));
    }
    lemma_index_of(h, '.', k.len() as int);
    assert(h.take(k.len() as int) =~= k);
    assert(h.skip(k.len() + 1 as int) =~= tail);
}

} // verus!
