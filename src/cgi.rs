//! A request as the gateway hands it over, and the response built for it.
use vstd::prelude::*;
use crate::store::str_eq;
use crate::text::{split, split_str};
use crate::token::{generate, shaped, TokenType};

verus! {

/// Name of the cookie that carries the session.
pub const SESSION_COOKIE_NAME: &'static str = "smrs_session_id";

/// Attributes of the session cookie: strict same-site, secure, kept a year.
pub const SESSION_COOKIE_ATTRIBUTES: &'static str = "; SameSite=strict; Secure; Max-Age=31536000";

pub struct Header {
    pub key: String,
    pub value: String,
}

pub struct Body {
    pub content_type: String,
    pub content_length: u64,
    pub data: String,
}

pub struct Request {
    pub method: String,
    pub uri: String,
    pub headers: Vec<Header>,
    pub body: Option<Body>,
}

pub struct Response {
    pub status: u16,
    pub headers: Vec<Header>,
    pub body: String,
    pub session: Option<String>,
}

/// Headers as pairs of key and value.
pub open spec fn headers_view(hs: Seq<Header>) -> Seq<(Seq<char>, Seq<char>)> {
    hs.map_values(|h: Header| (h.key@, h.value@))
}

/// The value of cookie `name` among `name=value` pieces: the first piece
/// whose name matches, its value ending at the next `=`.
pub open spec fn cookie_in_pieces(pieces: Seq<Seq<char>>, name: Seq<char>) -> Option<Seq<char>>
    decreases pieces.len(),
{
    if pieces.len() == 0 {
        None
    } else {
        let parts = split(pieces[0], "="@);
        if parts.len() >= 2 && parts[0] == name {
            Some(parts[1])
        } else {
            cookie_in_pieces(pieces.drop_first(), name)
        }
    }
}

/// The value of cookie `name` in the first `cookie` header that sets it.
pub open spec fn cookie_in_headers(hs: Seq<(Seq<char>, Seq<char>)>, name: Seq<char>) -> Option<Seq<char>>
    decreases hs.len(),
{
    if hs.len() == 0 {
        None
    } else {
        let here = if hs[0].0 == "cookie"@ {
            cookie_in_pieces(split(hs[0].1, "; "@), name)
        } else {
            None
        };
        if here is Some {
            here
        } else {
            cookie_in_headers(hs.drop_first(), name)
        }
    }
}

/// What `str::to_lowercase` makes of the characters `s`.
pub uninterp spec fn lower_of(s: Seq<char>) -> Seq<char>;

/// Relies on str::to_lowercase: the result depends on the characters alone.
#[verifier::external_body]
fn lowercase(s: &str) -> (r: String)
    ensures
        r@ == lower_of(s@),
{
    s.to_lowercase()
}

/// `s` with every `_` turned into `-`.
pub open spec fn dashed(s: Seq<char>) -> Seq<char> {
    s.map_values(|c: char| if c == '_' { '-' } else { c })
}

/// Prefix of the gateway variables that carry request headers.
pub const HEADER_VAR_PREFIX: &'static str = "HTTP_";

/// The header that gateway variable `var` carries: the name after the
/// prefix, with `_` turned into `-`, in lower case.
pub open spec fn header_name_of(var: Seq<char>) -> Option<Seq<char>> {
    let p = HEADER_VAR_PREFIX@;
    if p.len() <= var.len() && var.subrange(0, p.len() as int) == p {
        Some(lower_of(dashed(var.subrange(p.len() as int, var.len() as int))))
    } else {
        None
    }
}

/// The header name that gateway variable `var` carries, if it carries one.
pub fn header_name(var: &str) -> (r: Option<String>)
    ensures
        match r {
            Some(h) => header_name_of(var@) == Some(h@),
            None => header_name_of(var@) is None,
        },
{
    let n = var.unicode_len();
    let m = HEADER_VAR_PREFIX.unicode_len();
    if m > n || !str_eq(var.substring_char(0, m), HEADER_VAR_PREFIX) {
        return None;
    }
    let rest = var.substring_char(m, n);
    let k = rest.unicode_len();
    let mut out = String::new();
    let mut i: usize = 0;
    while i < k
        invariant
            k == rest@.len(),
            i <= k,
            out@ == dashed(rest@.subrange(0, i as int)),
        decreases k - i,
    {
        let ghost before = out@;
        if rest.get_char(i) == '_' {
            proof {
                reveal_strlit("-");
            }
            out.append("-");
        } else {
            out.append(rest.substring_char(i, i + 1));
        }
        assert(out@ =~= dashed(rest@.subrange(0, i + 1)));
        i = i + 1;
    }
    assert(rest@.subrange(0, k as int) =~= rest@);
    Some(lowercase(out.as_str()))
}

/// The value of the `Set-Cookie` header that carries `session`.
pub open spec fn session_cookie(session: Seq<char>) -> Seq<char> {
    SESSION_COOKIE_NAME@ + "="@ + session + SESSION_COOKIE_ATTRIBUTES@
}

fn cookie_in_value(value: &str, name: &str) -> (r: Option<String>)
    ensures
        match r {
            Some(v) => cookie_in_pieces(split(value@, "; "@), name@) == Some(v@),
            None => cookie_in_pieces(split(value@, "; "@), name@) is None,
        },
{
    proof {
        reveal_strlit("; ");
        reveal_strlit("=");
    }
    let pieces = split_str(value, "; ");
    let ghost pv = pieces@.map_values(|p: String| p@);
    let mut i: usize = 0;
    assert(pv.subrange(0, pv.len() as int) =~= pv);
    while i < pieces.len()
        invariant
            pv == pieces@.map_values(|p: String| p@),
            pv == split(value@, "; "@),
            i <= pieces@.len(),
            cookie_in_pieces(pv, name@) == cookie_in_pieces(pv.subrange(i as int, pv.len() as int), name@),
        decreases pieces@.len() - i,
    {
        let ghost rest = pv.subrange(i as int, pv.len() as int);
        assert(rest.drop_first() =~= pv.subrange(i + 1, pv.len() as int));
        assert(rest[0] == pieces@[i as int]@);
        proof {
            reveal_strlit("=");
        }
        let parts = split_str(pieces[i].as_str(), "=");
        assert(parts@.map_values(|p: String| p@) == split(rest[0], "="@));
        if parts.len() >= 2 && str_eq(parts[0].as_str(), name) {
            assert(parts@[0]@ == split(rest[0], "="@)[0]);
            return Some(parts[1].clone());
        }
        i = i + 1;
    }
    None
}

impl Request {
    /// The value of cookie `name`, from the request's `cookie` headers.
    pub fn cookie(&self, name: &str) -> (r: Option<String>)
        ensures
            match r {
                Some(v) => cookie_in_headers(headers_view(self.headers@), name@) == Some(v@),
                None => cookie_in_headers(headers_view(self.headers@), name@) is None,
            },
    {
        let ghost hv = headers_view(self.headers@);
        let mut i: usize = 0;
        assert(hv.subrange(0, hv.len() as int) =~= hv);
        while i < self.headers.len()
            invariant
                hv == headers_view(self.headers@),
                i <= self.headers@.len(),
                cookie_in_headers(hv, name@) == cookie_in_headers(hv.subrange(i as int, hv.len() as int), name@),
            decreases self.headers@.len() - i,
        {
            let ghost rest = hv.subrange(i as int, hv.len() as int);
            assert(rest.drop_first() =~= hv.subrange(i + 1, hv.len() as int));
            let header = &self.headers[i];
            assert(rest[0] == (header.key@, header.value@));
            if str_eq(header.key.as_str(), "cookie") {
                let found = cookie_in_value(header.value.as_str(), name);
                if found.is_some() {
                    return found;
                }
            }
            i = i + 1;
        }
        None
    }

    /// The request URI up to its first `?`.
    pub fn path(&self) -> (r: &str)
        ensures
            r@ == self.uri@.subrange(0, r@.len() as int),
            !r@.contains('?'),
            r@.len() == self.uri@.len() || self.uri@[r@.len() as int] == '?',
    {
        let n = self.uri.as_str().unicode_len();
        let mut k: usize = 0;
        while k < n && self.uri.as_str().get_char(k) != '?'
            invariant
                n == self.uri@.len(),
                k <= n,
                forall|j: int| 0 <= j < k ==> self.uri@[j] != '?',
            decreases n - k,
        {
            k = k + 1;
        }
        let r = self.uri.as_str().substring_char(0, k);
        assert(!r@.contains('?')) by {
            if r@.contains('?') {
                let j = choose|j: int| 0 <= j < r@.len() && r@[j] == '?';
                assert(self.uri@[j] == '?');
            }
        }
        r
    }
}

impl Response {
    /// A `200` response with no body and no session yet, carrying the
    /// service's version header.
    pub fn new() -> (r: Response)
        ensures
            r.status == 200,
            headers_view(r.headers@) == seq![("SMRS-Version"@, "0.0.1"@)],
            r.body@ == Seq::<char>::empty(),
            r.session is None,
    {
        let mut response = Response {
            status: 200,
            headers: Vec::new(),
            body: String::new(),
            session: None,
        };
        response.add_header("SMRS-Version", "0.0.1");
        assert(headers_view(response.headers@) =~= seq![("SMRS-Version"@, "0.0.1"@)]);
        response
    }

    /// Appends a header.
    pub fn add_header(&mut self, key: &str, value: &str)
        ensures
            headers_view(final(self).headers@) == headers_view(old(self).headers@).push((key@, value@)),
            final(self).status == old(self).status,
            final(self).body == old(self).body,
            final(self).session == old(self).session,
    {
        self.headers.push(Header { key: key.to_owned(), value: value.to_owned() });
        assert(headers_view(self.headers@) =~= headers_view(old(self).headers@).push((key@, value@)));
    }

    /// Sets the session once: to `session_id` when given, else to a freshly
    /// generated session token, and sends it back in a cookie. A response
    /// that already has a session keeps it.
    pub fn set_session(&mut self, session_id: Option<&str>)
        ensures
            old(self).session is Some ==> *final(self) == *old(self),
            old(self).session is None ==> {
                &&& final(self).session matches Some(s) && match session_id {
                    Some(v) => s@ == v@,
                    None => shaped(TokenType::Session, s@),
                }
                &&& headers_view(final(self).headers@) == headers_view(old(self).headers@).push(
                    ("Set-Cookie"@, session_cookie(final(self).session->Some_0@)),
                )
                &&& final(self).status == old(self).status
                &&& final(self).body == old(self).body
            },
    {
        if self.session.is_some() {
            return;
        }
        let session = match session_id {
            Some(v) => v.to_owned(),
            None => generate(TokenType::Session),
        };
        let cookie = SESSION_COOKIE_NAME.to_owned().concat("=").concat(session.as_str()).concat(SESSION_COOKIE_ATTRIBUTES);
        self.session = Some(session);
        self.add_header("Set-Cookie", cookie.as_str());
    }

    /// Takes the session from the request's session cookie, or generates
    /// one, unless the response already has a session.
    pub fn default_session(&mut self, request: &Request)
        ensures
            old(self).session is Some ==> *final(self) == *old(self),
            old(self).session is None ==> {
                &&& final(self).session matches Some(s) && match cookie_in_headers(headers_view(request.headers@), SESSION_COOKIE_NAME@) {
                    Some(v) => s@ == v,
                    None => shaped(TokenType::Session, s@),
                }
                &&& headers_view(final(self).headers@) == headers_view(old(self).headers@).push(
                    ("Set-Cookie"@, session_cookie(final(self).session->Some_0@)),
                )
                &&& final(self).status == old(self).status
                &&& final(self).body == old(self).body
            },
    {
        if self.session.is_some() {
            return;
        }
        let found = request.cookie(SESSION_COOKIE_NAME);
        match found {
            Some(v) => self.set_session(Some(v.as_str())),
            None => self.set_session(None),
        }
    }
}

} // verus!
