//! The allocation loop: turns a requested token, or a generated one, into a
//! token that no active link holds, and stores the link under it.
use vstd::prelude::*;
use crate::store::{created, has_active, is_active, LinkStore, RecordModel};
use crate::token::{
    all_words, extend, generate, is_extension_word, max_word_len, shaped, TokenType, WordList,
};

verus! {

/// Fewest characters of a stored token.
pub const MIN_TOKEN_LEN: usize = 5;

/// Most characters of a stored token.
pub const MAX_TOKEN_LEN: usize = 32;

/// `s` cut to a stored token's maximum length.
pub open spec fn cut(s: Seq<char>) -> Seq<char> {
    if s.len() > MAX_TOKEN_LEN {
        s.subrange(0, MAX_TOKEN_LEN as int)
    } else {
        s
    }
}

/// `r` is `c` followed by the fewest extension words that reach a stored
/// token's minimum length.
pub open spec fn min_extension(c: Seq<char>, r: Seq<char>) -> bool {
    exists|ws: Seq<Seq<char>>|
        {
            &&& all_words(ws, max_word_len(WordList::Short1))
            &&& r == c + ws.flatten()
            &&& forall|k: int| 0 <= k < ws.len() ==> (c + #[trigger] ws.take(k).flatten()).len() < MIN_TOKEN_LEN
        }
}

/// `r` is `c` brought to a stored token's length: cut to the maximum when
/// longer, kept when in range, and extended by the fewest words when shorter.
pub open spec fn normalized(c: Seq<char>, r: Seq<char>) -> bool {
    &&& MIN_TOKEN_LEN <= r.len() <= MAX_TOKEN_LEN
    &&& c.len() >= MIN_TOKEN_LEN ==> r == cut(c)
    &&& c.len() < MIN_TOKEN_LEN ==> min_extension(c, r)
}

/// `t` is a retry on `base`: the whole base followed by one fresh extension
/// word. A retry is not brought to a stored token's length again, so it may
/// be longer than `MAX_TOKEN_LEN` (or, for a one-character base, shorter than
/// `MIN_TOKEN_LEN`).
pub open spec fn retry_of(base: Seq<char>, t: Seq<char>) -> bool {
    exists|w: Seq<char>| is_extension_word(w) && t == base + w
}

/// `t` is what one attempt on `base` tries: the first attempt or a retry.
pub open spec fn attempt_of(base: Seq<char>, t: Seq<char>) -> bool {
    normalized(base, t) || retry_of(base, t)
}

/// The base of an allocation: the requested token when one is given and not
/// empty, else a generated URL token.
pub open spec fn base_of(requested: Option<Seq<char>>, base: Seq<char>) -> bool {
    match requested {
        Some(q) => if q.len() > 0 { base == q } else { shaped(TokenType::URL, base) },
        None => shaped(TokenType::URL, base),
    }
}

pub open spec fn str_view(o: Option<&str>) -> Option<Seq<char>> {
    match o {
        Some(q) => Some(q@),
        None => None,
    }
}

/// What holds of a successful allocation of `token` from `base`, taking
/// table `old` to `new`.
pub open spec fn allocated(
    old: Seq<RecordModel>,
    new: Seq<RecordModel>,
    requested: Option<Seq<char>>,
    url: Seq<char>,
    session: Seq<char>,
    now: int,
    token: Seq<char>,
    base: Seq<char>,
) -> bool {
    &&& !has_active(old, token)
    &&& new == created(old, token, url, session, now)
    &&& base_of(requested, base)
    &&& attempt_of(base, token)
    &&& base.len() >= MIN_TOKEN_LEN && !has_active(old, cut(base)) ==> token == cut(base)
}

/// Inputs on which no draw can make the allocation fail: the table has no
/// active link; or the requested token, cut to the maximum, is free; or a
/// retry is allowed and no active token is longer than the requested one, so
/// that no retry, being longer, can collide.
pub open spec fn success_owed(old: Seq<RecordModel>, requested: Option<Seq<char>>, max_attempts: nat) -> bool {
    &&& max_attempts >= 1
    &&& {
        ||| forall|i: int| 0 <= i < old.len() ==> !is_active(#[trigger] old[i])
        ||| match requested {
            Some(q) => {
                ||| q.len() >= MIN_TOKEN_LEN && !has_active(old, cut(q))
                ||| max_attempts >= 2 && q.len() > 0 && forall|i: int|
                    0 <= i < old.len() && is_active(#[trigger] old[i]) ==> old[i].token.len() <= q.len()
            },
            None => false,
        }
    }
}

/// Brings a candidate to a stored token's length: truncated when too long,
/// extended with drawn words while too short.
pub fn normalize(candidate: &str) -> (r: String)
    ensures
        normalized(candidate@, r@),
{
    let mut t = candidate.to_owned();
    let ghost mut ws: Seq<Seq<char>> = Seq::empty();
    assert(candidate@ + ws.flatten() =~= candidate@);
    while t.as_str().unicode_len() < MIN_TOKEN_LEN
        invariant
            candidate@.len() >= MIN_TOKEN_LEN ==> t@ == candidate@,
            candidate@.len() < MIN_TOKEN_LEN ==> {
                &&& all_words(ws, max_word_len(WordList::Short1))
                &&& t@ == candidate@ + ws.flatten()
                &&& t@.len() <= MIN_TOKEN_LEN - 1 + max_word_len(WordList::Short1)
                &&& forall|k: int| 0 <= k < ws.len() ==> (candidate@ + #[trigger] ws.take(k).flatten()).len() < MIN_TOKEN_LEN
            },
        decreases (if t@.len() < MIN_TOKEN_LEN { MIN_TOKEN_LEN - t@.len() } else { 0 }),
    {
        let ghost prev = t@;
        t = extend(t.as_str());
        proof {
            let w = choose|w: Seq<char>| is_extension_word(w) && t@ == prev + w;
            let ws2 = ws.push(w);
            ws.lemma_flatten_push(w);
            assert(t@ =~= candidate@ + ws2.flatten());
            assert forall|k: int| 0 <= k < ws2.len() implies (candidate@ + #[trigger] ws2.take(k).flatten()).len() < MIN_TOKEN_LEN by {
                if k < ws.len() {
                    assert(ws2.take(k) =~= ws.take(k));
                } else {
                    assert(ws2.take(k) =~= ws);
                }
            }
            assert(all_words(ws2, max_word_len(WordList::Short1))) by {
                assert forall|i: int| 0 <= i < ws2.len() implies crate::token::is_word(#[trigger] ws2[i], max_word_len(WordList::Short1)) by {
                    if i < ws.len() {
                        assert(ws2[i] == ws[i]);
                    }
                }
            }
            ws = ws2;
        }
    }
    let n = t.as_str().unicode_len();
    if n > MAX_TOKEN_LEN {
        t.as_str().substring_char(0, MAX_TOKEN_LEN).to_owned()
    } else {
        t
    }
}

/// A stored link's token, and the base it was derived from.
pub struct Allocation {
    pub token: String,
    pub requested: String,
}

/// Why no token could be allocated.
pub enum AllocError {
    /// Every attempt collided with an active link.
    Exhausted,
}

/// Stores a link to `url` owned by `session` under a token that no active
/// link holds. The base is `requested` when it is given and not empty, else
/// a generated URL token. The first attempt is the base brought to a stored
/// token's length. After each collision the next attempt is the whole base
/// (never a failed attempt) extended with a fresh word. At most `max_attempts` attempts are made; the table is left
/// as it was when all of them collide.
pub fn allocate(
    store: &mut LinkStore,
    requested: Option<&str>,
    url: &str,
    session: &str,
    now: i64,
    max_attempts: u32,
) -> (r: Result<Allocation, AllocError>)
    requires
        old(store).wf(),
    ensures
        final(store).wf(),
        match r {
            Ok(a) => allocated(
                old(store)@, final(store)@, str_view(requested), url@, session@, now as int,
                a.token@, a.requested@,
            ),
            Err(AllocError::Exhausted) => final(store)@ == old(store)@
                && !success_owed(old(store)@, str_view(requested), max_attempts as nat),
        },
        success_owed(old(store)@, str_view(requested), max_attempts as nat) ==> r is Ok,
{
    let ghost old_s = store@;
    let ghost req = str_view(requested);
    let base: String = match requested {
        Some(q) => {
            if q.unicode_len() > 0 {
                q.to_owned()
            } else {
                generate(TokenType::URL)
            }
        },
        None => generate(TokenType::URL),
    };
    let mut attempt = normalize(base.as_str());
    let mut tries: u32 = 0;
    while tries < max_attempts
        invariant
            store.wf(),
            store@ == old_s,
            old_s == old(store)@,
            req == str_view(requested),
            base_of(req, base@),
            tries == 0 ==> normalized(base@, attempt@),
            tries >= 1 ==> retry_of(base@, attempt@),
            tries >= 1 ==> attempt@.len() > base@.len(),
            tries >= 1 ==> exists|i: int| 0 <= i < old_s.len() && is_active(#[trigger] old_s[i]),
            tries >= 1 && base@.len() >= MIN_TOKEN_LEN ==> has_active(old_s, cut(base@)),
            tries >= 2 ==> exists|i: int|
                0 <= i < old_s.len() && is_active(#[trigger] old_s[i]) && old_s[i].token.len() > base@.len(),
        decreases max_attempts - tries,
    {
        match store.create_link(attempt.as_str(), url, session, now) {
            Ok(()) => {
                return Ok(Allocation { token: attempt, requested: base });
            },
            Err(_) => {
                let ghost failed = attempt@;
                let ghost j = choose|j: int| 0 <= j < old_s.len() && #[trigger] old_s[j].token == failed && is_active(old_s[j]);
                attempt = extend(base.as_str());
                proof {
                    if tries >= 1 {
                        assert(old_s[j].token.len() > base@.len());
                    }
                }
            },
        }
        tries = tries + 1;
    }
    Err(AllocError::Exhausted)
}

} // verus!
