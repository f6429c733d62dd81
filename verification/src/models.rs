//! The records a vault holds, the vault itself, the container that is kept
//! on disk, and the audit trail of a session.

use crate::text::{
    contains_ignoring_case, is_substring, lowercase, option_text, str_contains, texts,
};
use vstd::prelude::*;

verus! {

/// A point in time: whole seconds since 1970-01-01 00:00:00 UTC and the
/// nanoseconds since the last whole second (which pass 999,999,999 only
/// within a leap second).
#[derive(Debug, Clone, Copy, PartialEq, Eq, Structural)]
pub struct Timestamp {
    pub secs: i64,
    pub nanos: u32,
}

impl Timestamp {
    /// `self` is not later than `other`.
    pub open spec fn at_or_before(self, other: Timestamp) -> bool {
        self.secs < other.secs || (self.secs == other.secs && self.nanos <= other.nanos)
    }

    /// Whether `self` is not later than `other`.
    pub fn is_at_or_before(&self, other: &Timestamp) -> (r: bool)
        ensures
            r == self.at_or_before(*other),
    {
        self.secs < other.secs || (self.secs == other.secs && self.nanos <= other.nanos)
    }

    /// The later of two times.
    pub open spec fn later(self, other: Timestamp) -> Timestamp {
        if self.at_or_before(other) {
            other
        } else {
            self
        }
    }

    /// The later of two times.
    pub fn later_of(&self, other: &Timestamp) -> (r: Timestamp)
        ensures
            r == self.later(*other),
    {
        if self.is_at_or_before(other) {
            *other
        } else {
            *self
        }
    }
}

/// `Utc::now`, read as seconds (`timestamp`) and nanoseconds
/// (`timestamp_subsec_nanos`). It takes the system clock as a duration since
/// 1970 and keeps the fraction of a second that the duration has, which is
/// below one second: the system clock knows no leap second. Nothing else is
/// known of the time that comes back; the clock may even have been set back
/// since the last call. It panics if the system clock stands before 1970.
#[verifier::external_body]
fn now_utc() -> (now: Timestamp)
    ensures
        now.nanos < 1_000_000_000,
{
    let now = chrono::Utc::now();
    Timestamp { secs: now.timestamp(), nanos: now.timestamp_subsec_nanos() }
}

impl Timestamp {
    /// The current time, whatever the system clock says it is: a whole
    /// number of seconds and less than a second beyond them.
    pub fn now() -> (now: Timestamp)
        ensures
            now.nanos < 1_000_000_000,
    {
        now_utc()
    }
}

/// `Uuid::new_v4`, read as a 128-bit number (`as_u128`): a random identifier.
#[verifier::external_body]
fn fresh_id() -> u128 {
    uuid::Uuid::new_v4().as_u128()
}

/// The query occurs, as it stands, in the name, in the login, in one of the
/// tags or in the URL.
pub open spec fn occurs_in_record(
    query: Seq<char>,
    name: Seq<char>,
    login: Seq<char>,
    tags: Seq<Seq<char>>,
    url: Option<Seq<char>>,
) -> bool {
    ||| is_substring(query, name)
    ||| is_substring(query, login)
    ||| exists|i: int| 0 <= i < tags.len() && is_substring(query, #[trigger] tags[i])
    ||| (url matches Some(text) && is_substring(query, text))
}

/// Whether the query occurs, as it stands, in the name, in the login, in one
/// of the tags or in the URL. Case is not ignored here: a search that is
/// blind to case hands in texts that were brought to lowercase.
pub fn found_in(query: &str, name: &str, login: &str, tags: &Vec<String>, url: &Option<String>) -> (found:
    bool)
    ensures
        found == occurs_in_record(query@, name@, login@, texts(tags@), option_text(*url)),
{
    if str_contains(name, query) {
        return true;
    }
    if str_contains(login, query) {
        return true;
    }
    let mut i: usize = 0;
    while i < tags.len()
        invariant
            i <= tags@.len(),
            forall|j: int| 0 <= j < i ==> !is_substring(query@, #[trigger] texts(tags@)[j]),
        decreases tags@.len() - i,
    {
        if str_contains(tags[i].as_str(), query) {
            assert(is_substring(query@, texts(tags@)[i as int]));
            return true;
        }
        i = i + 1;
    }
    match url {
        Some(text) => str_contains(text.as_str(), query),
        None => false,
    }
}

/// One credential record.
#[derive(Debug, Clone)]
pub struct Entry {
    /// Identifier of the record: a UUID as a 128-bit number.
    pub id: u128,
    pub name: String,
    pub login: String,
    pub password: String,
    pub url: Option<String>,
    pub notes: Option<String>,
    pub tags: Vec<String>,
    pub created_at: Timestamp,
    pub modified_at: Timestamp,
}

impl Entry {
    /// The record was not modified before it was created.
    pub open spec fn wf(&self) -> bool {
        self.created_at.at_or_before(self.modified_at)
    }

    /// The record that `with_identity` makes.
    pub open spec fn fresh(
        id: u128,
        now: Timestamp,
        name: String,
        login: String,
        password: String,
        record: Entry,
    ) -> bool {
        &&& record.id == id
        &&& record.name == name
        &&& record.login == login
        &&& record.password == password
        &&& record.url is None
        &&& record.notes is None
        &&& record.tags@.len() == 0
        &&& record.created_at == now
        &&& record.modified_at == now
    }

    /// A record with the given identifier, created and last modified at
    /// `now`, without URL, notes or tags.
    pub fn with_identity(id: u128, now: Timestamp, name: String, login: String, password: String) -> (record:
        Self)
        ensures
            Self::fresh(id, now, name, login, password, record),
            record.wf(),
    {
        Self {
            id,
            name,
            login,
            password,
            url: None,
            notes: None,
            tags: Vec::new(),
            created_at: now,
            modified_at: now,
        }
    }

    /// A record with a new random identifier, created now.
    pub fn new(name: String, login: String, password: String) -> (record: Self)
        ensures
            Self::fresh(record.id, record.created_at, name, login, password, record),
            record.wf(),
    {
        let now = now_utc();
        let id = fresh_id();
        Self::with_identity(id, now, name, login, password)
    }

    /// Notes `now` as the time of the last modification, or the time of
    /// creation if the clock stands before it, so that no record is older
    /// than its creation.
    pub fn touch(&mut self, now: Timestamp)
        ensures
            *final(self) == (Entry { modified_at: old(self).created_at.later(now), ..*old(self) }),
            final(self).wf(),
    {
        self.modified_at = self.created_at.later_of(&now);
    }

    /// Notes the current time as the time of the last modification.
    pub fn update_modified(&mut self)
        ensures
            *final(self) == (Entry { modified_at: final(self).modified_at, ..*old(self) }),
            final(self).wf(),
    {
        let now = now_utc();
        self.touch(now);
    }

    /// A tag of the record holds the query, case ignored.
    pub open spec fn tag_matches(&self, query: Seq<char>) -> bool {
        exists|i: int|
            0 <= i < self.tags@.len() && contains_ignoring_case(#[trigger] self.tags@[i]@, query)
    }

    /// The record is found by the query: its name, its login, one of its
    /// tags or its URL holds the query, case ignored.
    pub open spec fn matches(&self, query: Seq<char>) -> bool {
        ||| contains_ignoring_case(self.name@, query)
        ||| contains_ignoring_case(self.login@, query)
        ||| self.tag_matches(query)
        ||| (self.url matches Some(url) && contains_ignoring_case(url@, query))
    }

    /// Whether the record is found by the query: everything is brought to
    /// lowercase, and the query is then looked for as it stands.
    pub fn matches_search(&self, query: &str) -> (found: bool)
        ensures
            found == self.matches(query@),
    {
        let query_lower = query.to_lowercase();
        let name_lower = self.name.as_str().to_lowercase();
        let login_lower = self.login.as_str().to_lowercase();
        let mut tags_lower: Vec<String> = Vec::new();
        let mut i: usize = 0;
        while i < self.tags.len()
            invariant
                i <= self.tags@.len(),
                tags_lower@.len() == i,
                forall|j: int| 0 <= j < i ==> (#[trigger] tags_lower@[j])@ == lowercase(
                    self.tags@[j]@,
                ),
            decreases self.tags@.len() - i,
        {
            tags_lower.push(self.tags[i].as_str().to_lowercase());
            i = i + 1;
        }
        let url_lower = match &self.url {
            Some(url) => Some(url.as_str().to_lowercase()),
            None => None,
        };
        let found = found_in(
            query_lower.as_str(),
            name_lower.as_str(),
            login_lower.as_str(),
            &tags_lower,
            &url_lower,
        );
        proof {
            let lowered = texts(tags_lower@);
            if self.tag_matches(query@) {
                let k = choose|k: int|
                    0 <= k < self.tags@.len() && contains_ignoring_case(
                        #[trigger] self.tags@[k]@,
                        query@,
                    );
                assert(is_substring(query_lower@, lowered[k]));
            }
            if exists|k: int| 0 <= k < lowered.len() && is_substring(
                query_lower@,
                #[trigger] lowered[k],
            ) {
                let k = choose|k: int|
                    0 <= k < lowered.len() && is_substring(query_lower@, #[trigger] lowered[k]);
                assert(contains_ignoring_case(self.tags@[k]@, query@));
            }
        }
        found
    }
}

/// A record of `entries` has the identifier.
pub open spec fn has_id(entries: Seq<Entry>, id: u128) -> bool {
    exists|i: int| 0 <= i < entries.len() && (#[trigger] entries[i]).id == id
}

/// The record at `i` is the first of `entries` with the identifier.
pub open spec fn is_first_with_id(entries: Seq<Entry>, id: u128, i: int) -> bool {
    &&& 0 <= i < entries.len()
    &&& entries[i].id == id
    &&& forall|j: int| 0 <= j < i ==> (#[trigger] entries[j]).id != id
}

/// No two records of `entries` share an identifier.
pub open spec fn unique_ids(entries: Seq<Entry>) -> bool {
    forall|i: int, j: int|
        0 <= i < j < entries.len() ==> (#[trigger] entries[i]).id != (#[trigger] entries[j]).id
}

/// `entries` without the records that have the identifier, the others in
/// their order.
pub open spec fn without_id(entries: Seq<Entry>, id: u128) -> Seq<Entry>
    decreases entries.len(),
{
    if entries.len() == 0 {
        Seq::empty()
    } else if entries.last().id == id {
        without_id(entries.drop_last(), id)
    } else {
        without_id(entries.drop_last(), id).push(entries.last())
    }
}

/// The records of a vault in the order in which they were added, and the
/// times at which the vault was created and last modified.
#[derive(Debug)]
pub struct Vault {
    pub entries: Vec<Entry>,
    pub created_at: Timestamp,
    pub modified_at: Timestamp,
}

impl Vault {
    /// No two records share an identifier, no record was modified before it
    /// was created, and neither was the vault.
    pub open spec fn wf(&self) -> bool {
        &&& unique_ids(self.entries@)
        &&& forall|i: int| 0 <= i < self.entries@.len() ==> (#[trigger] self.entries@[i]).wf()
        &&& self.created_at.at_or_before(self.modified_at)
    }

    /// An empty vault created at `now`.
    pub fn created(now: Timestamp) -> (vault: Self)
        ensures
            vault.entries@.len() == 0,
            vault.created_at == now,
            vault.modified_at == now,
            vault.wf(),
    {
        Self { entries: Vec::new(), created_at: now, modified_at: now }
    }

    /// An empty vault created now.
    pub fn new() -> (vault: Self)
        ensures
            vault.entries@.len() == 0,
            vault.modified_at == vault.created_at,
            vault.wf(),
    {
        Self::created(now_utc())
    }

    /// Where the first record with the identifier stands, if there is one.
    pub fn position(&self, id: u128) -> (found: Option<usize>)
        ensures
            match found {
                Some(i) => is_first_with_id(self.entries@, id, i as int),
                None => !has_id(self.entries@, id),
            },
    {
        let mut i: usize = 0;
        while i < self.entries.len()
            invariant
                i <= self.entries@.len(),
                forall|j: int| 0 <= j < i ==> (#[trigger] self.entries@[j]).id != id,
            decreases self.entries@.len() - i,
        {
            if self.entries[i].id == id {
                return Some(i);
            }
            i = i + 1;
        }
        None
    }

    /// The first record with the identifier, if there is one.
    pub fn get_entry(&self, id: u128) -> (found: Option<&Entry>)
        ensures
            match found {
                Some(entry) => exists|i: int|
                    is_first_with_id(self.entries@, id, i) && self.entries@[i] == *entry,
                None => !has_id(self.entries@, id),
            },
    {
        match self.position(id) {
            Some(i) => Some(&self.entries[i]),
            None => None,
        }
    }

    /// Adds a record at the end and notes `now` as the time of the last
    /// modification (or the time of creation, if the clock stands before
    /// it). A record whose identifier the vault already holds is not added:
    /// the vault stays as it is, so that no identifier occurs twice.
    pub fn add_entry_at(&mut self, entry: Entry, now: Timestamp)
        ensures
            has_id(old(self).entries@, entry.id) ==> *final(self) == *old(self),
            !has_id(old(self).entries@, entry.id) ==> final(self).entries@ == old(self).entries@.push(entry),
            !has_id(old(self).entries@, entry.id) ==> final(self).modified_at == old(self).created_at.later(now),
            final(self).created_at == old(self).created_at,
            old(self).wf() && entry.wf() ==> final(self).wf(),
    {
        match self.position(entry.id) {
            Some(_) => {},
            None => {
                self.entries.push(entry);
                self.modified_at = self.created_at.later_of(&now);
            },
        }
    }

    /// Adds a record at the end and notes the current time as the time of
    /// the last modification, which is then not before the time of
    /// creation. A record whose identifier the vault already holds is not
    /// added: the vault stays as it is.
    pub fn add_entry(&mut self, entry: Entry)
        ensures
            has_id(old(self).entries@, entry.id) ==> *final(self) == *old(self),
            !has_id(old(self).entries@, entry.id) ==> final(self).entries@ == old(self).entries@.push(entry),
            !has_id(old(self).entries@, entry.id) ==> final(self).created_at.at_or_before(
                final(self).modified_at,
            ),
            final(self).created_at == old(self).created_at,
            old(self).wf() && entry.wf() ==> final(self).wf(),
    {
        self.add_entry_at(entry, now_utc());
    }

    /// Replaces the first record that has the identifier by `updated`, which
    /// takes over that identifier whatever its own is, and notes `now` as
    /// the time of the last modification of both (or, for each, the time of
    /// its creation, if the clock stands before it). Without such a record
    /// nothing changes.
    pub fn update_entry_at(&mut self, id: u128, updated: Entry, now: Timestamp)
        ensures
            !has_id(old(self).entries@, id) ==> *final(self) == *old(self),
            forall|i: int|
                is_first_with_id(old(self).entries@, id, i) ==> final(self).entries@ == old(self).entries@.update(
                    i,
                    Entry { id, modified_at: updated.created_at.later(now), ..updated },
                ),
            has_id(old(self).entries@, id) ==> final(self).modified_at == old(self).created_at.later(now),
            final(self).created_at == old(self).created_at,
            old(self).wf() ==> final(self).wf(),
    {
        match self.position(id) {
            Some(i) => {
                let mut entry = updated;
                entry.id = id;
                entry.touch(now);
                self.entries.set(i, entry);
                self.modified_at = self.created_at.later_of(&now);
            },
            None => {},
        }
    }

    /// Replaces the first record that has the identifier by `updated`, which
    /// takes over that identifier whatever its own is, and notes the current
    /// time as the time of the last modification of both, which for each is
    /// then not before the time of its creation. Without such a record
    /// nothing changes.
    pub fn update_entry(&mut self, id: u128, updated: Entry)
        ensures
            !has_id(old(self).entries@, id) ==> *final(self) == *old(self),
            forall|i: int|
                is_first_with_id(old(self).entries@, id, i) ==> exists|modified_at: Timestamp|
                    #[trigger] updated.created_at.at_or_before(modified_at) && final(self).entries@ == old(self).entries@.update(
                        i,
                        Entry { id, modified_at, ..updated },
                    ),
            has_id(old(self).entries@, id) ==> final(self).created_at.at_or_before(
                final(self).modified_at,
            ),
            final(self).created_at == old(self).created_at,
            old(self).wf() ==> final(self).wf(),
    {
        let now = now_utc();
        proof {
            assert(updated.created_at.at_or_before(updated.created_at.later(now)));
        }
        self.update_entry_at(id, updated, now);
    }

    /// Removes every record that has the identifier and notes `now` as the
    /// time of the last modification (or the time of creation, if the clock
    /// stands before it), whether or not a record was removed. The vault
    /// stays well formed.
    pub fn delete_entry_at(&mut self, id: u128, now: Timestamp)
        ensures
            final(self).entries@ == without_id(old(self).entries@, id),
            final(self).created_at == old(self).created_at,
            final(self).modified_at == old(self).created_at.later(now),
            old(self).wf() ==> final(self).wf(),
    {
        let mut i: usize = 0;
        let ghost mut seen: int = 0;
        while i < self.entries.len()
            invariant
                0 <= seen <= old(self).entries@.len(),
                i <= self.entries@.len(),
                self.entries@.len() - i == old(self).entries@.len() - seen,
                self.entries@.take(i as int) == without_id(old(self).entries@.take(seen), id),
                self.entries@.skip(i as int) == old(self).entries@.skip(seen),
                self.created_at == old(self).created_at,
            decreases self.entries@.len() - i,
        {
            proof {
                lemma_without_id_step(old(self).entries@, id, seen);
                assert(self.entries@[i as int] == self.entries@.skip(i as int)[0]);
                assert(old(self).entries@[seen] == old(self).entries@.skip(seen)[0]);
            }
            let ghost before = self.entries@;
            if self.entries[i].id == id {
                self.entries.remove(i);
                proof {
                    assert(self.entries@.take(i as int) == before.take(i as int));
                    assert(self.entries@.skip(i as int) == before.skip(i as int).skip(1));
                    assert(old(self).entries@.skip(seen).skip(1) == old(self).entries@.skip(
                        seen + 1,
                    ));
                }
            } else {
                proof {
                    assert(before.take(i + 1) == before.take(i as int).push(before[i as int]));
                    assert(before.skip(i + 1) == before.skip(i as int).skip(1));
                    assert(old(self).entries@.skip(seen).skip(1) == old(self).entries@.skip(
                        seen + 1,
                    ));
                }
                i = i + 1;
            }
            proof {
                seen = seen + 1;
            }
        }
        proof {
            assert(self.entries@.take(i as int) == self.entries@);
            assert(old(self).entries@.take(seen) == old(self).entries@);
            lemma_without_id_keeps_wf(old(self).entries@, id);
        }
        self.modified_at = self.created_at.later_of(&now);
    }

    /// Removes every record that has the identifier and notes the current
    /// time as the time of the last modification, which is then not before
    /// the time of creation. The vault stays well formed.
    pub fn delete_entry(&mut self, id: u128)
        ensures
            final(self).entries@ == without_id(old(self).entries@, id),
            final(self).created_at == old(self).created_at,
            final(self).created_at.at_or_before(final(self).modified_at),
            old(self).wf() ==> final(self).wf(),
    {
        self.delete_entry_at(id, now_utc());
    }
}

/// Taking one more record adds it to the kept ones unless it has the
/// identifier.
proof fn lemma_without_id_step(entries: Seq<Entry>, id: u128, i: int)
    requires
        0 <= i < entries.len(),
    ensures
        without_id(entries.take(i + 1), id) == if entries[i].id == id {
            without_id(entries.take(i), id)
        } else {
            without_id(entries.take(i), id).push(entries[i])
        },
{
    assert(entries.take(i + 1).drop_last() == entries.take(i));
    assert(entries.take(i + 1).last() == entries[i]);
}

/// Every record that is kept was there before, and the kept records stand
/// in the order they had.
proof fn lemma_without_id_origin(entries: Seq<Entry>, id: u128)
    ensures
        without_id(entries, id).len() <= entries.len(),
        !has_id(without_id(entries, id), id),
        forall|k: int|
            0 <= k < without_id(entries, id).len() ==> exists|i: int|
                k <= i < entries.len() && entries[i] == #[trigger] without_id(entries, id)[k],
        forall|k: int, l: int|
            0 <= k < l < without_id(entries, id).len() ==> exists|i: int, j: int|
                0 <= i < j < entries.len() && entries[i] == #[trigger] without_id(entries, id)[k]
                    && entries[j] == #[trigger] without_id(entries, id)[l],
    decreases entries.len(),
{
    if entries.len() > 0 {
        let rest = entries.drop_last();
        lemma_without_id_origin(rest, id);
        let kept = without_id(rest, id);
        let all = without_id(entries, id);
        let last = entries.len() - 1;
        assert forall|k: int| 0 <= k < all.len() implies exists|i: int|
            k <= i < entries.len() && entries[i] == #[trigger] all[k] by {
            if k < kept.len() {
                let i = choose|i: int| k <= i < rest.len() && rest[i] == kept[k];
                assert(entries[i] == all[k]);
            } else {
                assert(entries[last] == all[k]);
            }
        }
        assert forall|k: int, l: int| 0 <= k < l < all.len() implies exists|i: int, j: int|
            0 <= i < j < entries.len() && entries[i] == #[trigger] all[k] && entries[j]
                == #[trigger] all[l] by {
            if l < kept.len() {
                let (i, j) = choose|i: int, j: int|
                    0 <= i < j < rest.len() && rest[i] == kept[k] && rest[j] == kept[l];
                assert(entries[i] == all[k] && entries[j] == all[l]);
            } else {
                let i = choose|i: int| k <= i < rest.len() && rest[i] == kept[k];
                assert(entries[i] == all[k] && entries[last] == all[l]);
            }
        }
        assert(!has_id(all, id)) by {
            if has_id(all, id) {
                let k = choose|k: int| 0 <= k < all.len() && (#[trigger] all[k]).id == id;
                if k < kept.len() {
                    assert(kept[k].id == id);
                }
            }
        }
    }
}

/// Removing records keeps identifiers unique and records well formed.
proof fn lemma_without_id_keeps_wf(entries: Seq<Entry>, id: u128)
    ensures
        unique_ids(entries) ==> unique_ids(without_id(entries, id)),
        (forall|i: int| 0 <= i < entries.len() ==> (#[trigger] entries[i]).wf()) ==> (forall|k: int|
            0 <= k < without_id(entries, id).len() ==> (#[trigger] without_id(entries, id)[k]).wf()),
{
    lemma_without_id_origin(entries, id);
    let kept = without_id(entries, id);
    if unique_ids(entries) {
        assert forall|k: int, l: int| 0 <= k < l < kept.len() implies (#[trigger] kept[k]).id != (
        #[trigger] kept[l]).id by {
            let (i, j) = choose|i: int, j: int|
                0 <= i < j < entries.len() && entries[i] == kept[k] && entries[j] == kept[l];
            assert(entries[i].id != entries[j].id);
        }
    }
    if forall|i: int| 0 <= i < entries.len() ==> (#[trigger] entries[i]).wf() {
        assert forall|k: int| 0 <= k < kept.len() implies (#[trigger] kept[k]).wf() by {
            let i = choose|i: int| k <= i < entries.len() && entries[i] == kept[k];
            assert(entries[i].wf());
        }
    }
}

/// After a record was deleted no record has its identifier, and every other
/// record is still found.
pub proof fn lemma_deleted_is_gone(entries: Seq<Entry>, id: u128, other: u128)
    ensures
        !has_id(without_id(entries, id), id),
        other != id ==> (has_id(without_id(entries, id), other) <==> has_id(entries, other)),
    decreases entries.len(),
{
    lemma_without_id_origin(entries, id);
    if entries.len() > 0 {
        let rest = entries.drop_last();
        let kept = without_id(rest, id);
        let all = without_id(entries, id);
        lemma_deleted_is_gone(rest, id, other);
        if other != id {
            if has_id(all, other) {
                let k = choose|k: int| 0 <= k < all.len() && (#[trigger] all[k]).id == other;
                let i = choose|i: int| k <= i < entries.len() && entries[i] == all[k];
                assert(entries[i].id == other);
            }
            if has_id(entries, other) {
                let i = choose|i: int| 0 <= i < entries.len() && (#[trigger] entries[i]).id == other;
                if i < rest.len() {
                    assert(rest[i].id == other);
                    let k = choose|k: int| 0 <= k < kept.len() && (#[trigger] kept[k]).id == other;
                    assert(all[k].id == other);
                } else {
                    assert(all[all.len() - 1].id == other);
                }
            }
        }
    }
}

/// The container that is kept on disk: the format version, the name of the
/// key derivation with its costs, and salt, nonce and ciphertext (with the
/// authentication tag at its end) as base64 text.
#[derive(Debug)]
pub struct VaultFile {
    pub version: u32,
    pub kdf: String,
    pub salt: String,
    pub nonce: String,
    pub ciphertext: String,
}

/// What happened in a session.
#[derive(Debug, Clone)]
pub enum AuditAction {
    VaultCreated,
    VaultOpened,
    VaultLocked,
    EntryCreated(String),
    EntryUpdated(String),
    EntryDeleted(String),
    ExportPlaintext,
    ExportEncrypted,
    ImportCsv,
}

impl AuditAction {
    /// The text that describes the action.
    pub open spec fn description_text(self) -> Seq<char> {
        match self {
            AuditAction::VaultCreated => "Coffre créé"@,
            AuditAction::VaultOpened => "Coffre ouvert"@,
            AuditAction::VaultLocked => "Coffre verrouillé"@,
            AuditAction::EntryCreated(name) => "Entrée créée: "@ + name@,
            AuditAction::EntryUpdated(name) => "Entrée modifiée: "@ + name@,
            AuditAction::EntryDeleted(name) => "Entrée supprimée: "@ + name@,
            AuditAction::ExportPlaintext => "⚠️ Export en clair"@,
            AuditAction::ExportEncrypted => "Export chiffré"@,
            AuditAction::ImportCsv => "Import CSV"@,
        }
    }
}

/// One line of the audit trail: an action and the time at which it was
/// recorded.
#[derive(Debug, Clone)]
pub struct AuditEntry {
    pub timestamp: Timestamp,
    pub action: AuditAction,
}

impl AuditEntry {
    /// The action, recorded at `now`.
    pub fn recorded(action: AuditAction, now: Timestamp) -> (entry: Self)
        ensures
            entry.action == action,
            entry.timestamp == now,
    {
        Self { timestamp: now, action }
    }

    /// The action, recorded now.
    pub fn new(action: AuditAction) -> (entry: Self)
        ensures
            entry.action == action,
    {
        Self::recorded(action, now_utc())
    }

    /// The text that describes the action.
    pub fn description(&self) -> (text: String)
        ensures
            text@ == self.action.description_text(),
    {
        match &self.action {
            AuditAction::VaultCreated => String::from_str("Coffre créé"),
            AuditAction::VaultOpened => String::from_str("Coffre ouvert"),
            AuditAction::VaultLocked => String::from_str("Coffre verrouillé"),
            AuditAction::EntryCreated(name) => {
                String::from_str("Entrée créée: ").concat(name.as_str())
            },
            AuditAction::EntryUpdated(name) => {
                String::from_str("Entrée modifiée: ").concat(name.as_str())
            },
            AuditAction::EntryDeleted(name) => {
                String::from_str("Entrée supprimée: ").concat(name.as_str())
            },
            AuditAction::ExportPlaintext => String::from_str("⚠️ Export en clair"),
            AuditAction::ExportEncrypted => String::from_str("Export chiffré"),
            AuditAction::ImportCsv => String::from_str("Import CSV"),
        }
    }
}

} // verus!
