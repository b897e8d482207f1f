//! Properties of the link table that relate several operations.
use vstd::prelude::*;
use crate::store::{
    created, deleted, deletion_count, has_active, has_owned, is_active, lookup, owned_by,
    table_wf, unique_active, LinkStore, RecordModel,
};

verus! {

/// No two active links of a well-formed table share a token. Every
/// operation that changes a table keeps it well-formed.
pub proof fn active_tokens_unique(s: LinkStore, i: int, j: int)
    requires
        s.wf(),
        0 <= i < s@.len(),
        0 <= j < s@.len(),
        i != j,
        is_active(s@[i]),
        is_active(s@[j]),
    ensures
        s@[i].token != s@[j].token,
{
}

/// In a well-formed table the active link of `token` owned by `session`
/// is the only active link of `token`.
proof fn owned_is_only_active(s: Seq<RecordModel>, i: int, token: Seq<char>, session: Seq<char>, k: int)
    requires
        unique_active(s),
        0 <= i < s.len(),
        owned_by(s[i], token, session),
        0 <= k < s.len(),
        k != i,
    ensures
        !(s[k].token == token && is_active(s[k])),
{
}

/// Deleting a link frees its token: the deletion affects one link, a new
/// link with the same token can then be created, and when the clock has
/// moved past the old link's creation the new link's creation time differs.
pub proof fn soft_delete_frees_token(
    s: Seq<RecordModel>,
    i: int,
    token: Seq<char>,
    session: Seq<char>,
    deleted_at: int,
    url: Seq<char>,
    new_session: Seq<char>,
    now: int,
)
    requires
        table_wf(s),
        0 <= i < s.len(),
        owned_by(s[i], token, session),
        now > s[i].created_at,
    ensures
        deletion_count(s, token, session) == 1,
        table_wf(deleted(s, token, session, deleted_at)),
        !has_active(deleted(s, token, session, deleted_at), token),
        created(deleted(s, token, session, deleted_at), token, url, new_session, now).last().created_at
            != s[i].created_at,
{
    let d = deleted(s, token, session, deleted_at);
    assert(has_owned(s, token, session));
    assert forall|k: int| 0 <= k < d.len() implies !(#[trigger] d[k].token == token && is_active(d[k])) by {
        if k != i {
            owned_is_only_active(s, i, token, session, k);
        }
    }
    assert(unique_active(d));
}

/// A session cannot delete another session's link: the deletion affects
/// nothing, and the link stays active and retrievable.
pub proof fn ownership_isolation(
    s: Seq<RecordModel>,
    i: int,
    token: Seq<char>,
    owner: Seq<char>,
    other: Seq<char>,
    now: int,
)
    requires
        table_wf(s),
        0 <= i < s.len(),
        owned_by(s[i], token, owner),
        owner != other,
    ensures
        deletion_count(s, token, other) == 0,
        deleted(s, token, other, now) == s,
        lookup(deleted(s, token, other, now), token) == Some(s[i].url),
{
    assert forall|k: int| 0 <= k < s.len() implies !owned_by(#[trigger] s[k], token, other) by {
        if k != i {
            owned_is_only_active(s, i, token, owner, k);
        }
    }
    assert(deleted(s, token, other, now) =~= s);
    assert(has_active(s, token));
    let c = choose|c: int| 0 <= c < s.len() && #[trigger] s[c].token == token && is_active(s[c]);
    if c != i {
        owned_is_only_active(s, i, token, owner, c);
    }
}

/// Looking up a deleted token gives the same outcome as looking up a token
/// that was never stored.
pub proof fn deleted_token_not_found(s: Seq<RecordModel>, token: Seq<char>, session: Seq<char>, now: int)
    requires
        table_wf(s),
        has_owned(s, token, session),
    ensures
        lookup(deleted(s, token, session, now), token) == lookup(Seq::<RecordModel>::empty(), token),
        lookup(deleted(s, token, session, now), token) is None,
{
    let i = choose|i: int| 0 <= i < s.len() && owned_by(#[trigger] s[i], token, session);
    let d = deleted(s, token, session, now);
    assert forall|k: int| 0 <= k < d.len() implies !(#[trigger] d[k].token == token && is_active(d[k])) by {
        if k != i {
            owned_is_only_active(s, i, token, session, k);
        }
    }
}

} // verus!
