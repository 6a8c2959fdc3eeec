//! Turning what a user types as a route's target into a canonical
//! upstream base URL `http://host[:port]`.
use vstd::prelude::*;
use crate::text::{
    all_digits, chars_of, occurs_at, contains_exec, contains_text, digits_from, slice_of, starts_with,
    starts_with_exec, string_of, strip_end, trim, trim_chars, lemma_kept_end,
};

verus! {

/// The message for a target that asks for TLS.
pub const TLS_TARGET_ERROR: &'static str =
    "https:// upstreams are not supported (TLS not enabled). Use http:// or a port like 3000";

/// The message for a target with a scheme other than `http` or `https`.
pub const UNSUPPORTED_SCHEME_ERROR: &'static str =
    "Unsupported URI scheme. Only http:// is supported";

/// A target naming a scheme other than `http` and `https` (and not a `:port`).
pub open spec fn other_scheme(t: Seq<char>) -> bool {
    &&& contains_text(t, "://"@)
    &&& !starts_with(t, "http://"@)
    &&& !starts_with(t, "https://"@)
    &&& !(t.len() > 0 && t[0] == ':')
}

/// A URI as the HTTP library parsed it, read back as plain values.
pub struct ParsedUri {
    pub scheme: Option<String>,
    pub has_authority: bool,
    pub text: String,
}

impl View for ParsedUri {
    type V = (Option<Seq<char>>, bool, Seq<char>);

    open spec fn view(&self) -> (Option<Seq<char>>, bool, Seq<char>) {
        (
            match &self.scheme {
                Some(s) => Some(s@),
                None => None,
            },
            self.has_authority,
            self.text@,
        )
    }
}

/// What `http::Uri` makes of a text: `None` when it does not parse, else its
/// scheme, whether it has an authority, and the text it prints back.
pub uninterp spec fn uri_parse(s: Seq<char>) -> Option<(Option<Seq<char>>, bool, Seq<char>)>;

/// Relies on `http::Uri`'s `FromStr` (re-exported by hyper) to parse, and on its
/// `scheme_str`, `authority` and `Display` to read the parse back.
#[verifier::external_body]
pub(crate) fn parse_uri(s: &str) -> (r: Option<ParsedUri>)
    ensures
        r is Some <==> uri_parse(s@) is Some,
        r is Some ==> r->0@ == uri_parse(s@)->0,
{
    match s.parse::<hyper::Uri>() {
        Ok(u) => Some(
            ParsedUri {
                scheme: u.scheme_str().map(String::from),
                has_authority: u.authority().is_some(),
                text: u.to_string(),
            },
        ),
        Err(_) => None,
    }
}

pub open spec fn is_slash(c: char) -> bool {
    c == '/'
}

/// The absolute URI text a trimmed target stands for, before parsing.
pub open spec fn with_scheme(t: Seq<char>) -> Option<Seq<char>> {
    if all_digits(t) {
        Some("http://localhost:"@ + t)
    } else if t.len() > 0 && t[0] == ':' {
        if all_digits(t.drop_first()) {
            Some("http://localhost:"@ + t.drop_first())
        } else {
            None
        }
    } else if starts_with(t, "http://"@) {
        Some(t)
    } else if starts_with(t, "https://"@) {
        None
    } else if contains_text(t, "://"@) {
        None
    } else {
        Some("http://"@ + t)
    }
}

/// The canonical target for a parse: an `http` URI with an authority, printed
/// without trailing slashes.
pub open spec fn canonical_of(p: Option<(Option<Seq<char>>, bool, Seq<char>)>) -> Option<Seq<char>> {
    match p {
        Some(q) => if q.0 == Some("http"@) && q.1 {
            Some(strip_end(q.2, |c: char| is_slash(c)))
        } else {
            None
        },
        None => None,
    }
}

/// The canonical upstream target a user's text names, if it names one.
pub open spec fn target_of(s: Seq<char>) -> Option<Seq<char>> {
    let t = trim(s);
    if t.len() == 0 {
        None
    } else {
        match with_scheme(t) {
            Some(u) => canonical_of(uri_parse(u)),
            None => None,
        }
    }
}

/// Normalizes a user-provided target (`3000`, `:3000`, `host:port`,
/// `http://host:port/`) into an absolute `http://` base URL without trailing slash.
pub fn normalize_target(input: &str) -> (r: Result<String, String>)
    ensures
        r is Ok <==> target_of(input@) is Some,
        r is Ok ==> r->Ok_0@ == target_of(input@)->0,
        starts_with(trim(input@), "https://"@) ==> r is Err && r->Err_0@ == TLS_TARGET_ERROR@,
        other_scheme(trim(input@)) ==> r is Err && r->Err_0@ == UNSUPPORTED_SCHEME_ERROR@
            && r->Err_0@ != TLS_TARGET_ERROR@,
{
    proof {
        reveal_strlit("https://");
        reveal_strlit("://");
    }
    let t = trim_chars(&chars_of(input));
    if t.len() == 0 {
        return Err(String::from_str("Target cannot be empty"));
    }
    let prepared = match target_with_scheme(string_of(&t).as_str()) {
        Ok(u) => u,
        Err(e) => return Err(e),
    };
    canonical_target(parse_uri(prepared.as_str()))
}

/// Adds the scheme a trimmed target lacks: a bare port becomes
/// `http://localhost:<port>`, `host:port` becomes `http://host:port`.
pub fn target_with_scheme(t: &str) -> (r: Result<String, String>)
    ensures
        r is Ok <==> with_scheme(t@) is Some,
        r is Ok ==> r->Ok_0@ == with_scheme(t@)->0,
        starts_with(t@, "https://"@) ==> r is Err && r->Err_0@ == TLS_TARGET_ERROR@,
        other_scheme(t@) ==> r is Err && r->Err_0@ == UNSUPPORTED_SCHEME_ERROR@ && r->Err_0@
            != TLS_TARGET_ERROR@,
{
    proof {
        reveal_strlit("https://");
        reveal_strlit("http://");
        if starts_with(t@, "https://"@) {
            assert(t@[0] == t@.take(8)[0]);
            assert(t@[4] == t@.take(8)[4]);
            assert(t@.take(7)[4] == t@[4]);
            assert(!starts_with(t@, "http://"@));
        }
        reveal_strlit("://");
        reveal_strlit("Unsupported URI scheme. Only http:// is supported");
        reveal_strlit(
            "https:// upstreams are not supported (TLS not enabled). Use http:// or a port like 3000",
        );
        assert(UNSUPPORTED_SCHEME_ERROR@[0] != TLS_TARGET_ERROR@[0]);
        if other_scheme(t@) {
            let i = choose|i: int| occurs_at(t@, "://"@, i);
            assert(t@[i] == t@.subrange(i, i + 3)[0]);
            assert(!all_digits(t@));
        }
    }
    let v = chars_of(t);
    if digits_from(&v, 0) {
        assert(v@.skip(0) =~= v@);
        let mut m = String::from_str("http://localhost:");
        m.append(t);
        return Ok(m);
    }
    assert(v@.skip(0) =~= v@);
    if v.len() > 0 && v[0] == ':' {
        if digits_from(&v, 1) {
            assert(v@.skip(1) =~= v@.drop_first());
            let rest = string_of(&slice_of(&v, 1, v.len()));
            let mut m = String::from_str("http://localhost:");
            m.append(rest.as_str());
            return Ok(m);
        }
        assert(v@.skip(1) =~= v@.drop_first());
        return Err(String::from_str("Invalid port after ':' in target"));
    }
    if starts_with_exec(&v, &chars_of("http://")) {
        return Ok(String::from_str(t));
    }
    if starts_with_exec(&v, &chars_of("https://")) {
        return Err(String::from_str(TLS_TARGET_ERROR));
    }
    if contains_exec(&v, &chars_of("://")) {
        return Err(String::from_str(UNSUPPORTED_SCHEME_ERROR));
    }
    let mut m = String::from_str("http://");
    m.append(t);
    Ok(m)
}

/// Accepts a parsed target only when it is an `http` URI with an authority,
/// and gives it back printed without trailing slashes.
pub fn canonical_target(parsed: Option<ParsedUri>) -> (r: Result<String, String>)
    ensures
        r is Ok <==> canonical_of(
            match parsed {
                Some(p) => Some(p@),
                None => None,
            },
        ) is Some,
        r is Ok ==> r->Ok_0@ == canonical_of(
            match parsed {
                Some(p) => Some(p@),
                None => None,
            },
        )->0,
{
    let p = match parsed {
        Some(p) => p,
        None => return Err(String::from_str("Target must be a valid absolute URI or host:port")),
    };
    let is_http = match &p.scheme {
        Some(s) => *s == String::from_str("http"),
        None => false,
    };
    if !is_http {
        return Err(String::from_str("Only http:// targets are supported"));
    }
    if !p.has_authority {
        return Err(String::from_str("Target must include a host (authority)"));
    }
    let v = chars_of(p.text.as_str());
    let mut hi: usize = v.len();
    while hi > 0 && v[hi - 1] == '/'
        invariant
            hi <= v.len(),
            forall|k: int| hi <= k < v.len() ==> is_slash(#[trigger] v@[k]),
        decreases hi,
    {
        hi = hi - 1;
    }
    proof {
        lemma_kept_end(v@, |c: char| is_slash(c), hi as int);
        assert(v@.take(hi as int) =~= v@.subrange(0, hi as int));
    }
    Ok(string_of(&slice_of(&v, 0, hi)))
}

} // verus!
