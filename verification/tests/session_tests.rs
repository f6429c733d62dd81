use mdp_manager::models::{AuditAction, Entry, Timestamp, Vault};
use mdp_manager::session::{
    auto_lock_due, check_create_request, check_open_request, clipboard_clear_due,
    entry_is_complete, filter_entries, remove_entry_at, save_entry_at, RequestError, Screen,
    SessionState, DEFAULT_AUTO_LOCK_SECONDS, DEFAULT_CLIPBOARD_CLEAR_SECONDS,
    MIN_MASTER_PASSWORD_LEN,
};

fn at(secs: i64) -> Timestamp {
    Timestamp { secs, nanos: 0 }
}

fn entry(id: u128, name: &str, login: &str) -> Entry {
    Entry::with_identity(id, at(100), name.to_string(), login.to_string(), "secret".to_string())
}

fn sample() -> Vault {
    let mut v = Vault::created(at(50));
    let mut mail = entry(1, "Mail", "me@example.com");
    mail.tags = vec!["perso".to_string()];
    let mut bank = entry(2, "Bank", "alice");
    bank.url = Some("https://bank.example.org".to_string());
    v.add_entry_at(mail, at(60));
    v.add_entry_at(bank, at(61));
    v.add_entry_at(entry(3, "Forum", "Alice42"), at(62));
    v
}

fn name_of(action: &AuditAction) -> (u8, String) {
    match action {
        AuditAction::EntryCreated(n) => (1, n.clone()),
        AuditAction::EntryUpdated(n) => (2, n.clone()),
        AuditAction::EntryDeleted(n) => (3, n.clone()),
        _ => (0, String::new()),
    }
}

#[test]
fn the_defaults_are_five_minutes_and_thirty_seconds() {
    assert_eq!(MIN_MASTER_PASSWORD_LEN, 8);
    assert_eq!(DEFAULT_AUTO_LOCK_SECONDS, 300);
    assert_eq!(DEFAULT_CLIPBOARD_CLEAR_SECONDS, 30);
}

#[test]
fn creating_needs_eight_bytes_of_passphrase_and_a_path() {
    assert_eq!(check_create_request("1234567", "vault.json"), Err(RequestError::PasswordTooShort));
    assert_eq!(check_create_request("", ""), Err(RequestError::PasswordTooShort));
    assert_eq!(check_create_request("12345678", ""), Err(RequestError::MissingNewPath));
    assert_eq!(check_create_request("12345678", "v"), Ok(()));
    // four characters of two bytes each
    assert_eq!(check_create_request("éééé", "v"), Ok(()));
    assert_eq!(check_create_request("ééé", "v"), Err(RequestError::PasswordTooShort));
}

#[test]
fn opening_needs_a_path() {
    assert_eq!(check_open_request(""), Err(RequestError::MissingPath));
    assert_eq!(check_open_request("vault.json"), Ok(()));
}

#[test]
fn refusals_have_their_wording() {
    assert_eq!(
        RequestError::PasswordTooShort.message(),
        "Le mot de passe maître doit contenir au moins 8 caractères"
    );
    assert_eq!(
        RequestError::MissingNewPath.message(),
        "Veuillez spécifier un chemin pour le coffre"
    );
    assert_eq!(RequestError::MissingPath.message(), "Veuillez spécifier un chemin de coffre");
}

#[test]
fn the_vault_locks_after_more_than_the_limit() {
    assert!(!auto_lock_due(true, false, 299, 999_999_999, 300));
    assert!(!auto_lock_due(true, false, 300, 0, 300));
    assert!(auto_lock_due(true, false, 300, 1, 300));
    assert!(auto_lock_due(true, false, 301, 0, 300));
    assert!(!auto_lock_due(false, false, 1000, 0, 300));
    assert!(!auto_lock_due(true, true, 1000, 0, 300));
    assert!(auto_lock_due(true, false, 0, 1, 0));
    assert!(!auto_lock_due(true, false, u64::MAX, 0, u64::MAX));
}

#[test]
fn the_clipboard_is_cleared_after_more_than_the_delay() {
    assert!(!clipboard_clear_due(true, 30, 0, 30));
    assert!(clipboard_clear_due(true, 30, 1, 30));
    assert!(clipboard_clear_due(true, 31, 0, 30));
    assert!(!clipboard_clear_due(false, 31, 0, 30));
    assert!(!clipboard_clear_due(true, 29, 999_999_999, 30));
}

#[test]
fn a_session_goes_from_welcome_to_main_to_unlock_and_back() {
    let start = SessionState::start();
    assert_eq!(start, SessionState { has_vault: false, is_locked: false, screen: Screen::Welcome });
    assert_eq!(start.locked(), start);
    assert_eq!(start.unlock_attempted(true), start);
    assert_eq!(start.idle(1000, 0, 300), start);
    let open = start.vault_ready();
    assert_eq!(open, SessionState { has_vault: true, is_locked: false, screen: Screen::Main });
    assert_eq!(open.idle(300, 0, 300), open);
    let locked = open.idle(300, 1, 300);
    assert_eq!(locked, SessionState { has_vault: true, is_locked: true, screen: Screen::Unlock });
    assert_eq!(open.locked(), locked);
    assert_eq!(locked.idle(5000, 0, 300), locked);
    assert_eq!(locked.unlock_attempted(false), locked);
    assert_eq!(locked.unlock_attempted(true), open);
    assert_eq!(locked.vault_ready(), open);
}

#[test]
fn an_empty_query_shows_every_record() {
    assert_eq!(filter_entries(&sample(), ""), vec![1, 2, 3]);
    assert_eq!(filter_entries(&Vault::created(at(1)), ""), Vec::<u128>::new());
}

#[test]
fn a_query_shows_the_records_it_finds_in_order() {
    let v = sample();
    assert_eq!(filter_entries(&v, "alice"), vec![2, 3]);
    assert_eq!(filter_entries(&v, "EXAMPLE"), vec![1, 2]);
    assert_eq!(filter_entries(&v, "perso"), vec![1]);
    assert_eq!(filter_entries(&v, "forum"), vec![3]);
    assert_eq!(filter_entries(&v, "nothing"), Vec::<u128>::new());
    assert_eq!(filter_entries(&v, "secret"), Vec::<u128>::new());
}

#[test]
fn a_record_is_complete_with_name_login_and_password() {
    assert!(entry_is_complete(&entry(1, "n", "l")));
    assert!(!entry_is_complete(&entry(1, "", "l")));
    assert!(!entry_is_complete(&entry(1, "n", "")));
    let mut no_password = entry(1, "n", "l");
    no_password.password = String::new();
    assert!(!entry_is_complete(&no_password));
}

#[test]
fn saving_a_known_record_updates_it() {
    let mut v = sample();
    let action = save_entry_at(&mut v, entry(2, "Bank 2", "bob"), at(200));
    assert_eq!(name_of(&action), (2, "Bank 2".to_string()));
    assert_eq!(filter_entries(&v, ""), vec![1, 2, 3]);
    let stored = v.get_entry(2).unwrap();
    assert_eq!(stored.login, "bob");
    assert_eq!(stored.url, None);
    assert_eq!(stored.modified_at, at(200));
    assert_eq!(v.modified_at, at(200));
}

#[test]
fn saving_an_unknown_record_adds_it() {
    let mut v = sample();
    let action = save_entry_at(&mut v, entry(9, "New", "n"), at(200));
    assert_eq!(name_of(&action), (1, "New".to_string()));
    assert_eq!(filter_entries(&v, ""), vec![1, 2, 3, 9]);
    assert_eq!(v.get_entry(9).unwrap().modified_at, at(100));
    assert_eq!(v.modified_at, at(200));
}

#[test]
fn removing_a_known_record_names_it() {
    let mut v = sample();
    let action = remove_entry_at(&mut v, 2, at(300)).unwrap();
    assert_eq!(name_of(&action), (3, "Bank".to_string()));
    assert_eq!(filter_entries(&v, ""), vec![1, 3]);
    assert_eq!(v.modified_at, at(300));
}

#[test]
fn removing_an_unknown_record_changes_nothing() {
    let mut v = sample();
    assert!(remove_entry_at(&mut v, 8, at(300)).is_none());
    assert_eq!(filter_entries(&v, ""), vec![1, 2, 3]);
    assert_eq!(v.modified_at, at(62));
}
