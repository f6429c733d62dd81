//! What a session decides between two things that happen to it: whether a
//! request can be carried out, when the vault locks itself, which records a
//! search shows, and what saving or deleting a record does to the vault.
//! Nothing here reads a clock, a file or a screen.

use crate::models::{
    has_id, is_first_with_id, without_id, AuditAction, Entry, Timestamp, Vault,
};
use vstd::prelude::*;
use vstd::utf8::encode_utf8;

verus! {

/// Fewest bytes that a master passphrase may have.
pub const MIN_MASTER_PASSWORD_LEN: usize = 8;

/// Seconds without activity after which an open vault locks itself, unless
/// the session says otherwise.
pub const DEFAULT_AUTO_LOCK_SECONDS: u64 = 300;

/// Seconds after which a copied secret is cleared from the clipboard,
/// unless the session says otherwise.
pub const DEFAULT_CLIPBOARD_CLEAR_SECONDS: u64 = 30;

/// What the session shows.
#[derive(Debug, Clone, Copy, PartialEq, Eq, Structural)]
pub enum Screen {
    Welcome,
    Main,
    Unlock,
}

/// Why a vault is not created or opened.
#[derive(Debug, Clone, Copy, PartialEq, Eq, Structural)]
pub enum RequestError {
    /// The master passphrase has fewer than 8 bytes.
    PasswordTooShort,
    /// No path was given for the vault that is to be created.
    MissingNewPath,
    /// No path was given for the vault that is to be opened.
    MissingPath,
}

impl RequestError {
    /// The text that `message` returns.
    pub open spec fn message_text(self) -> Seq<char> {
        match self {
            RequestError::PasswordTooShort =>
                "Le mot de passe maître doit contenir au moins 8 caractères"@,
            RequestError::MissingNewPath => "Veuillez spécifier un chemin pour le coffre"@,
            RequestError::MissingPath => "Veuillez spécifier un chemin de coffre"@,
        }
    }

    /// Wording of the refusal for a user.
    pub fn message(&self) -> (text: String)
        ensures
            text@ == self.message_text(),
    {
        match self {
            RequestError::PasswordTooShort => String::from_str(
                "Le mot de passe maître doit contenir au moins 8 caractères",
            ),
            RequestError::MissingNewPath => String::from_str(
                "Veuillez spécifier un chemin pour le coffre",
            ),
            RequestError::MissingPath => String::from_str("Veuillez spécifier un chemin de coffre"),
        }
    }
}

/// What `check_create_request` answers.
pub open spec fn create_request_outcome(master_password: Seq<char>, path: Seq<char>) -> Result<
    (),
    RequestError,
> {
    if encode_utf8(master_password).len() < MIN_MASTER_PASSWORD_LEN {
        Err(RequestError::PasswordTooShort)
    } else if path.len() == 0 {
        Err(RequestError::MissingNewPath)
    } else {
        Ok(())
    }
}

/// Whether a vault may be created: the master passphrase needs at least 8
/// bytes and the path must not be empty. The passphrase is looked at first.
pub fn check_create_request(master_password: &str, path: &str) -> (r: Result<(), RequestError>)
    ensures
        r == create_request_outcome(master_password@, path@),
{
    if master_password.as_bytes().len() < MIN_MASTER_PASSWORD_LEN {
        return Err(RequestError::PasswordTooShort);
    }
    if path.is_empty() {
        return Err(RequestError::MissingNewPath);
    }
    Ok(())
}

/// Whether a vault may be opened: the path must not be empty.
pub fn check_open_request(path: &str) -> (r: Result<(), RequestError>)
    ensures
        r == if path@.len() == 0 {
            Err::<(), RequestError>(RequestError::MissingPath)
        } else {
            Ok::<(), RequestError>(())
        },
{
    if path.is_empty() {
        return Err(RequestError::MissingPath);
    }
    Ok(())
}

/// An open vault that is not locked is due for locking once more than
/// `limit` seconds have passed without activity.
pub open spec fn lock_due(
    has_vault: bool,
    is_locked: bool,
    idle_secs: u64,
    idle_nanos: u32,
    limit: u64,
) -> bool {
    has_vault && !is_locked && (idle_secs > limit || (idle_secs == limit && idle_nanos > 0))
}

/// Whether the vault is to lock itself, given for how long nothing has
/// happened (whole seconds and the nanoseconds beyond them).
pub fn auto_lock_due(
    has_vault: bool,
    is_locked: bool,
    idle_secs: u64,
    idle_nanos: u32,
    limit: u64,
) -> (due: bool)
    ensures
        due == lock_due(has_vault, is_locked, idle_secs, idle_nanos, limit),
{
    has_vault && !is_locked && (idle_secs > limit || (idle_secs == limit && idle_nanos > 0))
}

/// A copied secret is due for clearing once more than `delay` seconds have
/// passed since it was copied.
pub open spec fn clear_due(pending: bool, since_secs: u64, since_nanos: u32, delay: u64) -> bool {
    pending && (since_secs > delay || (since_secs == delay && since_nanos > 0))
}

/// Whether the clipboard is to be cleared, given whether a copied secret is
/// waiting there and for how long (whole seconds and the nanoseconds beyond
/// them).
pub fn clipboard_clear_due(pending: bool, since_secs: u64, since_nanos: u32, delay: u64) -> (due:
    bool)
    ensures
        due == clear_due(pending, since_secs, since_nanos, delay),
{
    pending && (since_secs > delay || (since_secs == delay && since_nanos > 0))
}

/// Where a session stands: whether it holds a vault, whether that vault is
/// locked, and what is shown.
#[derive(Debug, Clone, Copy, PartialEq, Eq, Structural)]
pub struct SessionState {
    pub has_vault: bool,
    pub is_locked: bool,
    pub screen: Screen,
}

impl SessionState {
    /// The welcome screen is shown exactly as long as there is no vault, the
    /// unlock screen exactly while the vault is locked.
    pub open spec fn wf(self) -> bool {
        &&& self.screen == Screen::Welcome <==> !self.has_vault
        &&& self.screen == Screen::Unlock <==> self.is_locked
    }

    /// A session that has just begun: no vault, the welcome screen.
    pub fn start() -> (state: Self)
        ensures
            state == (SessionState { has_vault: false, is_locked: false, screen: Screen::Welcome }),
            state.wf(),
    {
        SessionState { has_vault: false, is_locked: false, screen: Screen::Welcome }
    }

    /// After a vault was created or opened: the session holds it unlocked
    /// and shows the main screen.
    pub fn vault_ready(self) -> (next: Self)
        ensures
            next == (SessionState { has_vault: true, is_locked: false, screen: Screen::Main }),
            next.wf(),
    {
        SessionState { has_vault: true, is_locked: false, screen: Screen::Main }
    }

    /// After the vault was locked, by the user or by the timer: the unlock
    /// screen. A session without a vault stays as it is.
    pub fn locked(self) -> (next: Self)
        ensures
            next == if self.has_vault {
                SessionState { has_vault: true, is_locked: true, screen: Screen::Unlock }
            } else {
                self
            },
            self.wf() ==> next.wf(),
    {
        if self.has_vault {
            SessionState { has_vault: true, is_locked: true, screen: Screen::Unlock }
        } else {
            self
        }
    }

    /// After an attempt to unlock: with the right passphrase the main screen
    /// again, otherwise nothing changes.
    pub fn unlock_attempted(self, opened: bool) -> (next: Self)
        ensures
            next == if opened && self.has_vault {
                SessionState { has_vault: true, is_locked: false, screen: Screen::Main }
            } else {
                self
            },
            self.wf() ==> next.wf(),
    {
        if opened && self.has_vault {
            SessionState { has_vault: true, is_locked: false, screen: Screen::Main }
        } else {
            self
        }
    }

    /// After time has passed without activity: locked if that is due,
    /// otherwise unchanged.
    pub fn idle(self, idle_secs: u64, idle_nanos: u32, limit: u64) -> (next: Self)
        ensures
            next == if lock_due(self.has_vault, self.is_locked, idle_secs, idle_nanos, limit) {
                SessionState { has_vault: true, is_locked: true, screen: Screen::Unlock }
            } else {
                self
            },
            self.wf() ==> next.wf(),
    {
        if auto_lock_due(self.has_vault, self.is_locked, idle_secs, idle_nanos, limit) {
            self.locked()
        } else {
            self
        }
    }
}

/// A search shows a record if the query is empty or finds the record.
pub open spec fn shown(entry: Entry, query: Seq<char>) -> bool {
    query.len() == 0 || entry.matches(query)
}

/// The identifiers of the records that a search shows, in the vault's order.
pub open spec fn shown_ids(entries: Seq<Entry>, query: Seq<char>) -> Seq<u128>
    decreases entries.len(),
{
    if entries.len() == 0 {
        Seq::empty()
    } else if shown(entries.last(), query) {
        shown_ids(entries.drop_last(), query).push(entries.last().id)
    } else {
        shown_ids(entries.drop_last(), query)
    }
}

/// The identifiers of the records that the query finds, in the vault's
/// order; all of them for an empty query.
pub fn filter_entries(vault: &Vault, query: &str) -> (ids: Vec<u128>)
    ensures
        ids@ == shown_ids(vault.entries@, query@),
{
    let mut ids: Vec<u128> = Vec::new();
    let show_all = query.is_empty();
    let mut i: usize = 0;
    while i < vault.entries.len()
        invariant
            i <= vault.entries@.len(),
            show_all == (query@.len() == 0),
            ids@ == shown_ids(vault.entries@.take(i as int), query@),
        decreases vault.entries@.len() - i,
    {
        proof {
            assert(vault.entries@.take(i + 1).drop_last() == vault.entries@.take(i as int));
            assert(vault.entries@.take(i + 1).last() == vault.entries@[i as int]);
        }
        if show_all || vault.entries[i].matches_search(query) {
            ids.push(vault.entries[i].id);
        }
        i = i + 1;
    }
    proof {
        assert(vault.entries@.take(vault.entries@.len() as int) == vault.entries@);
    }
    ids
}

/// Every identifier that a search shows belongs to a record of the vault
/// that the search shows.
pub proof fn lemma_shown_ids_are_shown(entries: Seq<Entry>, query: Seq<char>, k: int)
    requires
        0 <= k < shown_ids(entries, query).len(),
    ensures
        exists|i: int|
            0 <= i < entries.len() && (#[trigger] entries[i]).id == shown_ids(entries, query)[k]
                && shown(entries[i], query),
    decreases entries.len(),
{
    if entries.len() > 0 {
        let rest = entries.drop_last();
        let last = entries.len() - 1;
        if shown(entries.last(), query) && k == shown_ids(rest, query).len() {
            assert(entries[last].id == shown_ids(entries, query)[k]);
        } else {
            lemma_shown_ids_are_shown(rest, query, k);
            let i = choose|i: int|
                0 <= i < rest.len() && (#[trigger] rest[i]).id == shown_ids(rest, query)[k]
                    && shown(rest[i], query);
            assert(entries[i].id == shown_ids(entries, query)[k] && shown(entries[i], query));
        }
    }
}

/// A record can be saved once it has a name, a login and a password.
pub open spec fn complete(entry: Entry) -> bool {
    entry.name@.len() > 0 && entry.login@.len() > 0 && entry.password@.len() > 0
}

/// Whether a record has a name, a login and a password.
pub fn entry_is_complete(entry: &Entry) -> (r: bool)
    ensures
        r == complete(*entry),
{
    !entry.name.as_str().is_empty() && !entry.login.as_str().is_empty()
        && !entry.password.as_str().is_empty()
}

/// Saves an edited record at `now`: it takes the place of the first record
/// with its identifier, or is added at the end if there is none. The answer
/// is what the audit trail is to note, with the record's name.
pub fn save_entry_at(vault: &mut Vault, entry: Entry, now: Timestamp) -> (action: AuditAction)
    ensures
        final(vault).created_at == old(vault).created_at,
        final(vault).modified_at == old(vault).created_at.later(now),
        has_id(old(vault).entries@, entry.id) ==> action == AuditAction::EntryUpdated(
            entry.name,
        ),
        forall|i: int|
            is_first_with_id(old(vault).entries@, entry.id, i) ==> final(vault).entries@ == old(vault).entries@.update(i, Entry { modified_at: entry.created_at.later(now), ..entry }),
        !has_id(old(vault).entries@, entry.id) ==> action == AuditAction::EntryCreated(
            entry.name,
        ) && final(vault).entries@ == old(vault).entries@.push(entry),
        old(vault).wf() && entry.wf() ==> final(vault).wf(),
{
    let name = entry.name.clone();
    match vault.position(entry.id) {
        Some(_) => {
            vault.update_entry_at(entry.id, entry, now);
            AuditAction::EntryUpdated(name)
        },
        None => {
            vault.add_entry_at(entry, now);
            AuditAction::EntryCreated(name)
        },
    }
}

/// Deletes the records with the identifier at `now`, if there is one. The
/// answer is what the audit trail is to note, with the name of the first
/// such record; without such a record nothing changes.
pub fn remove_entry_at(vault: &mut Vault, id: u128, now: Timestamp) -> (action: Option<
    AuditAction,
>)
    ensures
        !has_id(old(vault).entries@, id) ==> action is None && *final(vault) == *old(vault),
        forall|i: int|
            is_first_with_id(old(vault).entries@, id, i) ==> action == Some(
                AuditAction::EntryDeleted(old(vault).entries@[i].name),
            ),
        has_id(old(vault).entries@, id) ==> final(vault).entries@ == without_id(
            old(vault).entries@,
            id,
        ) && final(vault).modified_at == old(vault).created_at.later(now) && final(vault).created_at == old(vault).created_at,
        old(vault).wf() ==> final(vault).wf(),
{
    match vault.position(id) {
        Some(i) => {
            let name = vault.entries[i].name.clone();
            vault.delete_entry_at(id, now);
            Some(AuditAction::EntryDeleted(name))
        },
        None => None,
    }
}

} // verus!
