//! The link table: tokens mapped to URLs, owned by a session, with soft
//! deletion. At most one active link holds a given token; a deleted token
//! may be taken again.
use vstd::prelude::*;
use crate::schema::{confirm_version, current_version, SchemaEntry, SCHEMA_VERSION};

verus! {

/// A stored link, active while `deleted_at` is `None`.
pub struct LinkRecord {
    pub token: String,
    pub url: String,
    pub session: String,
    pub created_at: i64,
    pub deleted_at: Option<i64>,
}

/// What a listing reports of one link.
pub struct Link {
    pub token: String,
    pub url: String,
    pub created_at: i64,
}

/// The mathematical value of a stored link.
pub ghost struct RecordModel {
    pub token: Seq<char>,
    pub url: Seq<char>,
    pub session: Seq<char>,
    pub created_at: int,
    pub deleted_at: Option<int>,
}

/// The mathematical value of a listed link.
pub ghost struct LinkModel {
    pub token: Seq<char>,
    pub url: Seq<char>,
    pub created_at: int,
}

impl View for LinkRecord {
    type V = RecordModel;

    open spec fn view(&self) -> RecordModel {
        RecordModel {
            token: self.token@,
            url: self.url@,
            session: self.session@,
            created_at: self.created_at as int,
            deleted_at: match self.deleted_at {
                Some(t) => Some(t as int),
                None => None,
            },
        }
    }
}

impl View for Link {
    type V = LinkModel;

    open spec fn view(&self) -> LinkModel {
        LinkModel { token: self.token@, url: self.url@, created_at: self.created_at as int }
    }
}

/// Errors of the link table.
pub enum StoreError {
    /// The token is held by an active link.
    UniqueConstraintViolation,
    /// The stored schema version is not the one this library reads.
    SchemaMismatch { expected: u32, found: u32 },
    /// The stored schema log is empty.
    MissingSchema,
    /// Stored links break the table's invariant: two active links share a
    /// token, or creation times decrease in insertion order. A table written
    /// only through `LinkStore` never does.
    Corrupt,
}

pub open spec fn is_active(r: RecordModel) -> bool {
    r.deleted_at is None
}

/// Some active link holds `token`.
pub open spec fn has_active(s: Seq<RecordModel>, token: Seq<char>) -> bool {
    exists|i: int| 0 <= i < s.len() && #[trigger] s[i].token == token && is_active(s[i])
}

/// No two active links share a token.
pub open spec fn unique_active(s: Seq<RecordModel>) -> bool {
    forall|i: int, j: int|
        0 <= i < s.len() && 0 <= j < s.len() && i != j && is_active(#[trigger] s[i])
            && is_active(#[trigger] s[j]) ==> s[i].token != s[j].token
}

/// Creation times never decrease in insertion order.
pub open spec fn monotone(s: Seq<RecordModel>) -> bool {
    forall|i: int, j: int|
        0 <= i <= j < s.len() ==> #[trigger] s[i].created_at <= #[trigger] s[j].created_at
}

pub open spec fn table_wf(s: Seq<RecordModel>) -> bool {
    unique_active(s) && monotone(s)
}

/// The creation time that a link inserted at `now` receives: never before
/// the newest link already stored.
pub open spec fn stamp(s: Seq<RecordModel>, now: int) -> int {
    if s.len() > 0 && s.last().created_at > now {
        s.last().created_at
    } else {
        now
    }
}

/// The table after a successful insertion.
pub open spec fn created(
    s: Seq<RecordModel>,
    token: Seq<char>,
    url: Seq<char>,
    session: Seq<char>,
    now: int,
) -> Seq<RecordModel> {
    s.push(
        RecordModel { token, url, session, created_at: stamp(s, now), deleted_at: None },
    )
}

/// The record is the active link of `token` owned by `session`.
pub open spec fn owned_by(r: RecordModel, token: Seq<char>, session: Seq<char>) -> bool {
    is_active(r) && r.token == token && r.session == session
}

pub open spec fn has_owned(s: Seq<RecordModel>, token: Seq<char>, session: Seq<char>) -> bool {
    exists|i: int| 0 <= i < s.len() && owned_by(#[trigger] s[i], token, session)
}

/// Number of links that a deletion affects.
pub open spec fn deletion_count(s: Seq<RecordModel>, token: Seq<char>, session: Seq<char>) -> nat {
    if has_owned(s, token, session) {
        1
    } else {
        0
    }
}

/// The table after `session` deletes `token` at `now`.
pub open spec fn deleted(
    s: Seq<RecordModel>,
    token: Seq<char>,
    session: Seq<char>,
    now: int,
) -> Seq<RecordModel> {
    s.map_values(
        |r: RecordModel|
            if owned_by(r, token, session) {
                RecordModel { deleted_at: Some(now), ..r }
            } else {
                r
            },
    )
}

/// The URL of the active link that holds `token`, if there is one.
pub open spec fn lookup(s: Seq<RecordModel>, token: Seq<char>) -> Option<Seq<char>> {
    if has_active(s, token) {
        Some(
            s[choose|i: int| 0 <= i < s.len() && #[trigger] s[i].token == token && is_active(s[i])].url,
        )
    } else {
        None
    }
}

/// Active links owned by `session`, newest insertion first.
pub open spec fn listing(s: Seq<RecordModel>, session: Seq<char>) -> Seq<LinkModel>
    decreases s.len(),
{
    if s.len() == 0 {
        Seq::empty()
    } else {
        let r = s.last();
        let rest = listing(s.drop_last(), session);
        if is_active(r) && r.session == session {
            seq![LinkModel { token: r.token, url: r.url, created_at: r.created_at }] + rest
        } else {
            rest
        }
    }
}

/// The links of every session, kept in memory for one request.
pub struct LinkStore {
    records: Vec<LinkRecord>,
}

impl View for LinkStore {
    type V = Seq<RecordModel>;

    closed spec fn view(&self) -> Seq<RecordModel> {
        self.records@.map_values(|r: LinkRecord| r@)
    }
}

impl LinkStore {
    pub open spec fn wf(&self) -> bool {
        table_wf(self@)
    }

    /// An empty table.
    pub fn new() -> (s: LinkStore)
        ensures
            s.wf(),
            s@ == Seq::<RecordModel>::empty(),
    {
        let s = LinkStore { records: Vec::new() };
        assert(s@ =~= Seq::<RecordModel>::empty());
        s
    }

    /// The stored links, oldest insertion first.
    pub fn records(&self) -> (r: &Vec<LinkRecord>)
        ensures
            r@.map_values(|x: LinkRecord| x@) == self@,
    {
        &self.records
    }

    /// Takes links read back from storage, in insertion order, if they keep
    /// the table's invariant: no two active links share a token, and creation
    /// times never decrease. `create_link` keeps creation times in order even
    /// when the clock goes back, so only links written by other means can
    /// break it; such a table is refused as `Corrupt`.
    pub fn from_records(records: Vec<LinkRecord>) -> (r: Result<LinkStore, StoreError>)
        ensures
            match r {
                Ok(s) => s.wf() && s@ == records@.map_values(|x: LinkRecord| x@),
                Err(e) => e is Corrupt && !table_wf(records@.map_values(|x: LinkRecord| x@)),
            },
    {
        let ghost m = records@.map_values(|x: LinkRecord| x@);
        let n = records.len();
        let mut i: usize = 0;
        while i < n
            invariant
                n == records@.len(),
                m == records@.map_values(|x: LinkRecord| x@),
                i <= n,
                forall|a: int, b: int|
                    0 <= a < i && 0 <= b < i && a != b && is_active(#[trigger] m[a])
                        && is_active(#[trigger] m[b]) ==> m[a].token != m[b].token,
                forall|a: int, b: int| 0 <= a <= b < i ==> #[trigger] m[a].created_at <= #[trigger] m[b].created_at,
            decreases n - i,
        {
            if i > 0 && records[i - 1].created_at > records[i].created_at {
                assert(m[i - 1].created_at > m[i as int].created_at);
                return Err(StoreError::Corrupt);
            }
            proof {
                assert forall|a: int, b: int| 0 <= a <= b < i + 1 implies #[trigger] m[a].created_at <= #[trigger] m[b].created_at by {
                    if b == i && a < b {
                        assert(m[a].created_at <= m[i - 1].created_at);
                    }
                }
            }
            if records[i].deleted_at.is_none() {
                let mut j: usize = 0;
                while j < i
                    invariant
                        n == records@.len(),
                        m == records@.map_values(|x: LinkRecord| x@),
                        j <= i < n,
                        is_active(m[i as int]),
                        forall|b: int| 0 <= b < j && is_active(#[trigger] m[b]) ==> m[b].token != m[i as int].token,
                    decreases i - j,
                {
                    if records[j].deleted_at.is_none() && str_eq(records[j].token.as_str(), records[i].token.as_str()) {
                        assert(is_active(m[j as int]) && m[j as int].token == m[i as int].token);
                        return Err(StoreError::Corrupt);
                    }
                    j = j + 1;
                }
            }
            i = i + 1;
        }
        Ok(LinkStore { records })
    }

    /// Index of the active link that holds `token`, if any.
    fn find_active(&self, token: &str) -> (r: Option<usize>)
        requires
            self.wf(),
        ensures
            match r {
                Some(i) => i < self@.len() && self@[i as int].token == token@ && is_active(self@[i as int]),
                None => !has_active(self@, token@),
            },
    {
        let n = self.records.len();
        let mut i: usize = 0;
        while i < n
            invariant
                n == self@.len(),
                i <= n,
                forall|k: int| 0 <= k < i ==> !(#[trigger] self@[k].token == token@ && is_active(self@[k])),
            decreases n - i,
        {
            if self.records[i].deleted_at.is_none() && str_eq(self.records[i].token.as_str(), token) {
                return Some(i);
            }
            i = i + 1;
        }
        None
    }

    /// Inserts an active link. Fails with `UniqueConstraintViolation`, and
    /// leaves the table as it was, exactly when an active link already holds
    /// `token`. The new link's creation time is `now`, or the newest stored
    /// creation time if the clock went back.
    pub fn create_link(&mut self, token: &str, url: &str, session: &str, now: i64) -> (r: Result<(), StoreError>)
        requires
            old(self).wf(),
        ensures
            final(self).wf(),
            match r {
                Ok(()) => !has_active(old(self)@, token@)
                    && final(self)@ == created(old(self)@, token@, url@, session@, now as int),
                Err(e) => e is UniqueConstraintViolation && has_active(old(self)@, token@)
                    && final(self)@ == old(self)@,
            },
    {
        if self.find_active(token).is_some() {
            return Err(StoreError::UniqueConstraintViolation);
        }
        let n = self.records.len();
        let stamp = if n > 0 && self.records[n - 1].created_at > now {
            self.records[n - 1].created_at
        } else {
            now
        };
        let rec = LinkRecord {
            token: token.to_owned(),
            url: url.to_owned(),
            session: session.to_owned(),
            created_at: stamp,
            deleted_at: None,
        };
        let ghost before = self@;
        self.records.push(rec);
        proof {
            let after = created(before, token@, url@, session@, now as int);
            assert(self@ =~= after);
            assert forall|i: int, j: int|
                0 <= i < after.len() && 0 <= j < after.len() && i != j && is_active(#[trigger] after[i])
                    && is_active(#[trigger] after[j]) implies after[i].token != after[j].token by {
                if i < before.len() && j < before.len() {
                    assert(before[i] == after[i] && before[j] == after[j]);
                } else if i == before.len() {
                    assert(after[j] == before[j]);
                } else {
                    assert(after[i] == before[i]);
                }
            }
            assert forall|i: int, j: int| 0 <= i <= j < after.len() implies #[trigger] after[i].created_at <= #[trigger] after[j].created_at by {
                if j == before.len() && i < j {
                    assert(before[i].created_at <= before.last().created_at);
                }
            }
        }
        Ok(())
    }

    /// The URL of the active link that holds `token`. Unknown and deleted
    /// tokens both give `None`.
    pub fn get_link(&self, token: &str) -> (r: Option<String>)
        requires
            self.wf(),
        ensures
            match r {
                Some(u) => lookup(self@, token@) == Some(u@),
                None => lookup(self@, token@) is None,
            },
    {
        match self.find_active(token) {
            Some(i) => {
                let ghost k = choose|k: int| 0 <= k < self@.len() && #[trigger] self@[k].token == token@ && is_active(self@[k]);
                assert(k == i);
                Some(self.records[i].url.clone())
            },
            None => None,
        }
    }

    /// Marks the active link of `token` owned by `session` as deleted at
    /// `now`. Returns how many links it marked: 0 where the token is unknown,
    /// already deleted, or owned by another session, all alike.
    pub fn delete_link(&mut self, token: &str, session: &str, now: i64) -> (r: usize)
        requires
            old(self).wf(),
        ensures
            final(self).wf(),
            r as nat == deletion_count(old(self)@, token@, session@),
            final(self)@ == deleted(old(self)@, token@, session@, now as int),
    {
        let ghost before = self@;
        let ghost after = deleted(before, token@, session@, now as int);
        match self.find_active(token) {
            Some(i) => {
                if str_eq(self.records[i].session.as_str(), session) {
                    self.records[i].deleted_at = Some(now);
                    proof {
                        assert forall|k: int| 0 <= k < before.len() && k != i implies !owned_by(#[trigger] before[k], token@, session@) by {
                            assert(before[k].token != before[i as int].token || !is_active(before[k]));
                        }
                        assert(self@ =~= after);
                        assert(has_owned(before, token@, session@) ) by {
                            assert(owned_by(before[i as int], token@, session@));
                        }
                    }
                    1
                } else {
                    proof {
                        assert forall|k: int| 0 <= k < before.len() implies !owned_by(#[trigger] before[k], token@, session@) by {
                            if k != i {
                                assert(before[k].token != before[i as int].token || !is_active(before[k]));
                            }
                        }
                        assert(after =~= before);
                    }
                    0
                }
            },
            None => {
                proof {
                    assert forall|k: int| 0 <= k < before.len() implies !owned_by(#[trigger] before[k], token@, session@) by {
                        assert(!(before[k].token == token@ && is_active(before[k])));
                    }
                    assert(after =~= before);
                }
                0
            },
        }
    }

    /// The active links owned by `session`, newest first.
    pub fn list_links(&self, session: &str) -> (r: Vec<Link>)
        requires
            self.wf(),
        ensures
            r@.map_values(|l: Link| l@) == listing(self@, session@),
            forall|i: int, j: int| 0 <= i <= j < r@.len() ==> #[trigger] r@[i].created_at >= #[trigger] r@[j].created_at,
    {
        let mut out: Vec<Link> = Vec::new();
        let mut i: usize = self.records.len();
        assert(self@.subrange(0, i as int) =~= self@);
        assert(out@.map_values(|l: Link| l@) =~= Seq::<LinkModel>::empty());
        while i > 0
            invariant
                i <= self@.len(),
                out@.map_values(|l: Link| l@) + listing(self@.subrange(0, i as int), session@)
                    == listing(self@, session@),
                forall|a: int, b: int| 0 <= a <= b < out@.len() ==> #[trigger] out@[a].created_at >= #[trigger] out@[b].created_at,
                forall|a: int, k: int| 0 <= a < out@.len() && 0 <= k < i ==> #[trigger] out@[a].created_at >= #[trigger] self@[k].created_at,
                monotone(self@),
            decreases i,
        {
            let ghost pre = self@.subrange(0, i as int);
            assert(pre.drop_last() =~= self@.subrange(0, i - 1));
            let rec = &self.records[i - 1];
            if rec.deleted_at.is_none() && str_eq(rec.session.as_str(), session) {
                let ghost old_out = out@;
                out.push(Link { token: rec.token.clone(), url: rec.url.clone(), created_at: rec.created_at });
                assert(out@.map_values(|l: Link| l@) =~= old_out.map_values(|l: Link| l@).push(out@.last()@));
                assert(out@.map_values(|l: Link| l@) + listing(self@.subrange(0, i - 1), session@)
                    =~= old_out.map_values(|l: Link| l@) + listing(pre, session@));
            }
            i = i - 1;
        }
        assert(self@.subrange(0, 0) =~= Seq::<RecordModel>::empty());
        assert(out@.map_values(|l: Link| l@) =~= out@.map_values(|l: Link| l@) + Seq::<LinkModel>::empty());
        out
    }
}

/// What an existing store holds when it is opened.
pub struct StoredTable {
    pub schema_log: Vec<SchemaEntry>,
    pub records: Vec<LinkRecord>,
}

/// Opens the link table. `None` stands for a store that did not exist yet:
/// it starts empty, and its schema log is `initial_log`. An existing store
/// opens only when the latest entry of its schema log records
/// `SCHEMA_VERSION`; no migration is attempted. Its links must keep the
/// table's invariant (see `LinkStore::from_records`), else it is `Corrupt`.
pub fn open(stored: Option<StoredTable>) -> (r: Result<LinkStore, StoreError>)
    ensures
        match stored {
            None => r matches Ok(s) && s.wf() && s@ == Seq::<RecordModel>::empty(),
            Some(t) => match r {
                Ok(s) => current_version(t.schema_log@) == Some(SCHEMA_VERSION) && s.wf()
                    && s@ == t.records@.map_values(|x: LinkRecord| x@),
                Err(StoreError::SchemaMismatch { expected, found }) => expected == SCHEMA_VERSION
                    && found != SCHEMA_VERSION && current_version(t.schema_log@) == Some(found),
                Err(StoreError::MissingSchema) => current_version(t.schema_log@) is None,
                Err(StoreError::Corrupt) => current_version(t.schema_log@) == Some(SCHEMA_VERSION)
                    && !table_wf(t.records@.map_values(|x: LinkRecord| x@)),
                Err(StoreError::UniqueConstraintViolation) => false,
            },
        },
{
    match stored {
        None => Ok(LinkStore::new()),
        Some(t) => {
            match confirm_version(&t.schema_log) {
                Ok(()) => LinkStore::from_records(t.records),
                Err(e) => Err(e),
            }
        },
    }
}

/// Character-wise equality of two strings.
pub fn str_eq(a: &str, b: &str) -> (r: bool)
    ensures
        r == (a@ == b@),
{
    let n = a.unicode_len();
    if n != b.unicode_len() {
        return false;
    }
    let mut i: usize = 0;
    while i < n
        invariant
            n == a@.len() == b@.len(),
            i <= n,
            a@.subrange(0, i as int) == b@.subrange(0, i as int),
        decreases n - i,
    {
        if a.get_char(i) != b.get_char(i) {
            return false;
        }
        assert(a@.subrange(0, i + 1) =~= a@.subrange(0, i as int).push(a@[i as int]));
        assert(b@.subrange(0, i + 1) =~= b@.subrange(0, i as int).push(b@[i as int]));
        i = i + 1;
    }
    assert(a@ =~= a@.subrange(0, n as int));
    assert(b@ =~= b@.subrange(0, n as int));
    true
}

} // verus!
