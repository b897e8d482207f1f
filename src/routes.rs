//! What each route decides, given the link table and the request's values.
//! Encoding bodies and talking to storage are left to the caller.
use vstd::prelude::*;
use crate::allocation::{allocate, allocated, str_view, success_owed, AllocError, MIN_TOKEN_LEN};
use crate::cgi::{headers_view, Response};
use crate::store::{deleted, deletion_count, listing, lookup, Link, LinkStore};

verus! {

/// Prefix of the redirect route.
pub const REDIRECT_PREFIX: &'static str = "/to/";

/// `s` with every leading copy of `p` removed.
pub open spec fn trim_prefix(s: Seq<char>, p: Seq<char>) -> Seq<char>
    decreases s.len(),
{
    if p.len() > 0 && p.len() <= s.len() && s.subrange(0, p.len() as int) == p {
        trim_prefix(s.subrange(p.len() as int, s.len() as int), p)
    } else {
        s
    }
}

/// Removes every leading copy of `p` from `s`, as `str::trim_start_matches`.
pub fn trim_start<'a>(s: &'a str, p: &str) -> (r: &'a str)
    ensures
        r@ == trim_prefix(s@, p@),
{
    let m = p.unicode_len();
    if m == 0 {
        return s;
    }
    let mut rest = s;
    loop
        invariant
            m == p@.len(),
            m > 0,
            trim_prefix(s@, p@) == trim_prefix(rest@, p@),
        decreases rest@.len(),
    {
        let n = rest.unicode_len();
        if m > n {
            return rest;
        }
        let head = rest.substring_char(0, m);
        if !crate::store::str_eq(head, p) {
            return rest;
        }
        rest = rest.substring_char(m, n);
    }
}

/// Marks the response as `404 Not found`.
pub fn not_found(response: &mut Response)
    ensures
        final(response).status == 404,
        headers_view(final(response).headers@) == headers_view(old(response).headers@).push(
            ("Content-Type"@, "text/plain"@),
        ),
        final(response).body@ == "Not found"@,
        final(response).session == old(response).session,
{
    response.status = 404;
    response.add_header("Content-Type", "text/plain");
    response.body = String::from_str("Not found");
}

/// The token that follows the redirect prefix in `path`, unless it is too
/// short to be a stored token.
pub fn redirect_token<'a>(path: &'a str) -> (r: Option<&'a str>)
    ensures
        match r {
            Some(t) => t@ == trim_prefix(path@, REDIRECT_PREFIX@) && t@.len() >= MIN_TOKEN_LEN,
            None => trim_prefix(path@, REDIRECT_PREFIX@).len() < MIN_TOKEN_LEN,
        },
{
    let token = trim_start(path, REDIRECT_PREFIX);
    if token.unicode_len() < MIN_TOKEN_LEN {
        None
    } else {
        Some(token)
    }
}

/// Redirects to the URL of the token that follows the redirect prefix in
/// `path`: `308` with a `Location` header when an active link holds it, else
/// `404`. Tokens shorter than a stored token's minimum are not looked up.
pub fn redirect(path: &str, store: &LinkStore, response: &mut Response)
    requires
        store.wf(),
    ensures
        ({
            let t = trim_prefix(path@, REDIRECT_PREFIX@);
            match if t.len() < MIN_TOKEN_LEN { None } else { lookup(store@, t) } {
                Some(u) => final(response).status == 308 && headers_view(final(response).headers@)
                    == headers_view(old(response).headers@).push(("Location"@, u))
                    && final(response).body == old(response).body,
                None => final(response).status == 404 && final(response).body@ == "Not found"@
                    && headers_view(final(response).headers@) == headers_view(old(response).headers@).push(
                    ("Content-Type"@, "text/plain"@),
                ),
            }
        }),
        final(response).session == old(response).session,
{
    match redirect_token(path) {
        None => not_found(response),
        Some(token) => {
            match store.get_link(token) {
                Some(url) => {
                    response.status = 308;
                    response.add_header("Location", url.as_str());
                },
                None => not_found(response),
            }
        },
    }
}

/// What the shorten route reports.
pub struct Shortened {
    pub success: bool,
    pub token: String,
    pub requested: String,
    pub url: String,
}

/// Stores a link to `url` for `session`, under `requested` or a generated
/// token, retrying collisions as `allocate` does. On success the response
/// is `200` and the stored token and its base are returned; when every
/// attempt collides it is `500` and nothing is stored.
pub fn shorten(
    store: &mut LinkStore,
    url: &str,
    requested: Option<&str>,
    session: &str,
    now: i64,
    max_attempts: u32,
    response: &mut Response,
) -> (r: Option<Shortened>)
    requires
        old(store).wf(),
    ensures
        final(store).wf(),
        final(response).session == old(response).session,
        match r {
            Some(s) => {
                &&& s.success
                &&& s.url@ == url@
                &&& final(response).status == 200
                &&& allocated(
                    old(store)@, final(store)@, str_view(requested), url@, session@, now as int,
                    s.token@, s.requested@,
                )
            },
            None => final(response).status == 500 && final(store)@ == old(store)@
                && !success_owed(old(store)@, str_view(requested), max_attempts as nat),
        },
        success_owed(old(store)@, str_view(requested), max_attempts as nat) ==> r is Some,
{
    match allocate(store, requested, url, session, now, max_attempts) {
        Ok(a) => {
            response.status = 200;
            Some(Shortened { success: true, token: a.token, requested: a.requested, url: url.to_owned() })
        },
        Err(AllocError::Exhausted) => {
            response.status = 500;
            response.body = String::from_str("Failed to create link");
            None
        },
    }
}

/// What the forget route reports.
pub struct Forgotten {
    pub success: bool,
    pub token: String,
}

/// Deletes `token` for `session`: `200` when a link was deleted, `404` when
/// none was, whether it is unknown, deleted or another session's.
pub fn forget(store: &mut LinkStore, token: &str, session: &str, now: i64, response: &mut Response) -> (r: Forgotten)
    requires
        old(store).wf(),
    ensures
        final(store).wf(),
        final(store)@ == deleted(old(store)@, token@, session@, now as int),
        r.token@ == token@,
        r.success == (deletion_count(old(store)@, token@, session@) == 1),
        final(response).status == (if r.success { 200u16 } else { 404u16 }),
        final(response).session == old(response).session,
{
    let n = store.delete_link(token, session, now);
    let success = n > 0;
    response.status = if success { 200 } else { 404 };
    Forgotten { success, token: token.to_owned() }
}

/// The session's active links, newest first, with a `200` response.
pub fn list(store: &LinkStore, session: &str, response: &mut Response) -> (r: Vec<Link>)
    requires
        store.wf(),
    ensures
        r@.map_values(|l: Link| l@) == listing(store@, session@),
        final(response).status == 200,
        final(response).session == old(response).session,
{
    response.status = 200;
    store.list_links(session)
}

} // verus!
