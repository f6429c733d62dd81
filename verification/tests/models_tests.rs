use mdp_manager::models::{
    found_in, AuditAction, AuditEntry, Entry, Timestamp, Vault, VaultFile,
};

fn at(secs: i64) -> Timestamp {
    Timestamp { secs, nanos: 0 }
}

fn entry(id: u128, name: &str, login: &str) -> Entry {
    Entry::with_identity(id, at(100), name.to_string(), login.to_string(), "secret".to_string())
}

fn ids(vault: &Vault) -> Vec<u128> {
    vault.entries.iter().map(|e| e.id).collect()
}

#[test]
fn timestamps_are_ordered_by_seconds_then_nanoseconds() {
    let a = Timestamp { secs: 10, nanos: 999_999_999 };
    let b = Timestamp { secs: 11, nanos: 0 };
    let c = Timestamp { secs: 11, nanos: 1 };
    let before_epoch = Timestamp { secs: -1, nanos: 500 };
    assert!(a.is_at_or_before(&a));
    assert!(a.is_at_or_before(&b));
    assert!(!b.is_at_or_before(&a));
    assert!(b.is_at_or_before(&c));
    assert!(!c.is_at_or_before(&b));
    assert!(before_epoch.is_at_or_before(&a));
    assert!(!a.is_at_or_before(&before_epoch));
}

#[test]
fn a_record_starts_without_url_notes_or_tags() {
    let e = Entry::with_identity(7, at(5), "n".to_string(), "l".to_string(), "p".to_string());
    assert_eq!(e.id, 7);
    assert_eq!(e.name, "n");
    assert_eq!(e.login, "l");
    assert_eq!(e.password, "p");
    assert_eq!(e.url, None);
    assert_eq!(e.notes, None);
    assert!(e.tags.is_empty());
    assert_eq!(e.created_at, at(5));
    assert_eq!(e.modified_at, at(5));
}

#[test]
fn new_records_get_their_own_identifier_and_the_current_time() {
    let a = Entry::new("a".to_string(), "la".to_string(), "pa".to_string());
    let b = Entry::new("b".to_string(), "lb".to_string(), "pb".to_string());
    assert_ne!(a.id, b.id);
    // version 4, variant 1
    assert_eq!((a.id >> 76) & 0xf, 4);
    assert_eq!((a.id >> 62) & 0x3, 2);
    assert_eq!(a.created_at, a.modified_at);
    // later than 2020-09-13 and with a sane nanosecond part
    assert!(a.created_at.secs > 1_600_000_000);
    assert!(a.created_at.nanos < 2_000_000_000);
    assert_eq!(a.name, "a");
    assert_eq!(b.login, "lb");
    assert_eq!(b.password, "pb");
}

#[test]
fn touching_a_record_changes_the_time_of_modification_only() {
    let mut e = entry(1, "Mail", "me@example.com");
    e.url = Some("https://mail.example.com".to_string());
    e.touch(Timestamp { secs: 200, nanos: 9 });
    assert_eq!(e.modified_at, Timestamp { secs: 200, nanos: 9 });
    assert_eq!(e.created_at, at(100));
    assert_eq!(e.id, 1);
    assert_eq!(e.name, "Mail");
    assert_eq!(e.url, Some("https://mail.example.com".to_string()));
    e.update_modified();
    assert!(e.modified_at.secs > 1_600_000_000);
    assert_eq!(e.created_at, at(100));
}

#[test]
fn the_clock_gives_less_than_a_second_beyond_the_seconds() {
    for _ in 0..1000 {
        let now = Timestamp::now();
        assert!(now.nanos < 1_000_000_000);
        assert!(now.secs > 1_600_000_000);
    }
}

#[test]
fn the_later_of_two_times() {
    let a = Timestamp { secs: 10, nanos: 5 };
    let b = Timestamp { secs: 10, nanos: 6 };
    assert_eq!(a.later_of(&b), b);
    assert_eq!(b.later_of(&a), b);
    assert_eq!(a.later_of(&a), a);
    assert_eq!(at(-5).later_of(&at(-6)), at(-5));
}

#[test]
fn a_clock_that_was_set_back_makes_nothing_older_than_its_creation() {
    let mut e = entry(1, "Mail", "me@example.com");
    e.touch(at(40));
    assert_eq!(e.created_at, at(100));
    assert_eq!(e.modified_at, at(100));

    let mut v = Vault::created(at(50));
    v.add_entry_at(entry(1, "a", "la"), at(30));
    assert_eq!(v.modified_at, at(50));
    v.update_entry_at(1, entry(1, "b", "lb"), at(70));
    assert_eq!(v.modified_at, at(70));
    assert_eq!(v.get_entry(1).unwrap().modified_at, at(100));
    v.delete_entry_at(1, at(20));
    assert_eq!(v.modified_at, at(50));
    assert_eq!(v.created_at, at(50));
}

#[test]
fn search_is_blind_to_case_and_looks_at_name_login_tags_and_url() {
    let mut e = entry(1, "GitHub", "Octo.Cat@Example.com");
    e.url = Some("https://GitHub.com/login".to_string());
    e.notes = Some("recovery codes in the safe".to_string());
    e.tags = vec!["Work".to_string(), "ÉCOLE".to_string()];
    assert!(e.matches_search("github"));
    assert!(e.matches_search("GITHUB"));
    assert!(e.matches_search("hub"));
    assert!(e.matches_search("octo.cat"));
    assert!(e.matches_search("EXAMPLE"));
    assert!(e.matches_search("work"));
    assert!(e.matches_search("école"));
    assert!(e.matches_search("/LOGIN"));
    assert!(e.matches_search(""));
    assert!(!e.matches_search("gitlab"));
    assert!(!e.matches_search("recovery"));
    assert!(!e.matches_search("secret"));
    assert!(!e.matches_search("githubx"));
    assert!(!e.matches_search("hub git"));
}

#[test]
fn search_without_url_or_tags() {
    let e = entry(1, "Bank", "alice");
    assert!(e.matches_search("ban"));
    assert!(e.matches_search("LIC"));
    assert!(!e.matches_search("https"));
}

#[test]
fn a_new_vault_is_empty() {
    let v = Vault::created(at(50));
    assert!(v.entries.is_empty());
    assert_eq!(v.created_at, at(50));
    assert_eq!(v.modified_at, at(50));
    let now = Vault::new();
    assert!(now.entries.is_empty());
    assert_eq!(now.created_at, now.modified_at);
    assert!(now.created_at.secs > 1_600_000_000);
}

#[test]
fn adding_keeps_the_order_and_notes_the_time() {
    let mut v = Vault::created(at(50));
    v.add_entry_at(entry(3, "c", "lc"), at(60));
    v.add_entry_at(entry(1, "a", "la"), at(70));
    v.add_entry_at(entry(2, "b", "lb"), at(80));
    assert_eq!(ids(&v), vec![3, 1, 2]);
    assert_eq!(v.created_at, at(50));
    assert_eq!(v.modified_at, at(80));
    v.add_entry(entry(9, "z", "lz"));
    assert_eq!(ids(&v), vec![3, 1, 2, 9]);
    assert!(v.modified_at.secs > 1_600_000_000);
    assert_eq!(v.created_at, at(50));
}

#[test]
fn finding_is_by_identifier() {
    let mut v = Vault::created(at(50));
    v.add_entry_at(entry(3, "c", "lc"), at(60));
    v.add_entry_at(entry(1, "a", "la"), at(70));
    assert_eq!(v.get_entry(1).unwrap().name, "a");
    assert_eq!(v.get_entry(3).unwrap().name, "c");
    assert!(v.get_entry(2).is_none());
    assert_eq!(v.position(3), Some(0));
    assert_eq!(v.position(1), Some(1));
    assert_eq!(v.position(4), None);
    assert!(Vault::created(at(1)).get_entry(1).is_none());
}

#[test]
fn updating_replaces_the_record_and_stamps_both() {
    let mut v = Vault::created(at(50));
    v.add_entry_at(entry(3, "c", "lc"), at(60));
    v.add_entry_at(entry(1, "a", "la"), at(70));
    let mut changed = entry(1, "A2", "la2");
    changed.notes = Some("n".to_string());
    v.update_entry_at(1, changed, at(190));
    assert_eq!(ids(&v), vec![3, 1]);
    let stored = v.get_entry(1).unwrap();
    assert_eq!(stored.name, "A2");
    assert_eq!(stored.login, "la2");
    assert_eq!(stored.notes, Some("n".to_string()));
    assert_eq!(stored.created_at, at(100));
    assert_eq!(stored.modified_at, at(190));
    assert_eq!(v.modified_at, at(190));
    assert_eq!(v.get_entry(3).unwrap().name, "c");
    assert_eq!(v.get_entry(3).unwrap().modified_at, at(100));
}

#[test]
fn updating_an_unknown_record_changes_nothing() {
    let mut v = Vault::created(at(50));
    v.add_entry_at(entry(3, "c", "lc"), at(60));
    v.update_entry_at(4, entry(4, "d", "ld"), at(90));
    assert_eq!(ids(&v), vec![3]);
    assert_eq!(v.modified_at, at(60));
    v.update_entry(5, entry(5, "e", "le"));
    assert_eq!(ids(&v), vec![3]);
    assert_eq!(v.modified_at, at(60));
}

#[test]
fn updating_with_the_clock_stamps_the_current_time() {
    let mut v = Vault::created(at(50));
    v.add_entry_at(entry(3, "c", "lc"), at(60));
    v.update_entry(3, entry(3, "C", "lc"));
    assert_eq!(v.get_entry(3).unwrap().name, "C");
    assert!(v.modified_at.secs > 1_600_000_000);
    assert_eq!(v.get_entry(3).unwrap().modified_at, v.modified_at);
}

#[test]
fn deleting_removes_the_record_and_always_notes_the_time() {
    let mut v = Vault::created(at(50));
    v.add_entry_at(entry(3, "c", "lc"), at(60));
    v.add_entry_at(entry(1, "a", "la"), at(70));
    v.add_entry_at(entry(2, "b", "lb"), at(80));
    v.delete_entry_at(1, at(90));
    assert_eq!(ids(&v), vec![3, 2]);
    assert_eq!(v.modified_at, at(90));
    v.delete_entry_at(7, at(95));
    assert_eq!(ids(&v), vec![3, 2]);
    assert_eq!(v.modified_at, at(95));
    v.delete_entry_at(3, at(96));
    v.delete_entry_at(2, at(97));
    assert!(v.entries.is_empty());
    v.delete_entry(2);
    assert!(v.entries.is_empty());
    assert!(v.modified_at.secs > 1_600_000_000);
    assert_eq!(v.created_at, at(50));
}

#[test]
fn deleting_removes_every_record_with_the_identifier() {
    let mut v = Vault::created(at(50));
    for (id, name) in [(1u128, "a"), (2, "b"), (1, "c"), (1, "d"), (3, "e")] {
        v.entries.push(entry(id, name, "l"));
    }
    v.delete_entry_at(1, at(90));
    assert_eq!(ids(&v), vec![2, 3]);
    assert_eq!(v.entries[0].name, "b");
    assert_eq!(v.entries[1].name, "e");
}

#[test]
fn audit_entries_describe_their_action() {
    let cases = [
        (AuditAction::VaultCreated, "Coffre créé"),
        (AuditAction::VaultOpened, "Coffre ouvert"),
        (AuditAction::VaultLocked, "Coffre verrouillé"),
        (AuditAction::EntryCreated("Mail".to_string()), "Entrée créée: Mail"),
        (AuditAction::EntryUpdated("Mail".to_string()), "Entrée modifiée: Mail"),
        (AuditAction::EntryDeleted("".to_string()), "Entrée supprimée: "),
        (AuditAction::ExportPlaintext, "⚠️ Export en clair"),
        (AuditAction::ExportEncrypted, "Export chiffré"),
        (AuditAction::ImportCsv, "Import CSV"),
    ];
    for (action, text) in cases {
        assert_eq!(AuditEntry::recorded(action, at(1)).description(), text);
    }
    let now = AuditEntry::new(AuditAction::VaultLocked);
    assert!(now.timestamp.secs > 1_600_000_000);
    assert_eq!(now.description(), "Coffre verrouillé");
    assert_eq!(AuditEntry::recorded(AuditAction::ImportCsv, at(77)).timestamp, at(77));
}

#[test]
fn the_container_has_five_fields() {
    let file = VaultFile {
        version: 1,
        kdf: "argon2id".to_string(),
        salt: "c2FsdA==".to_string(),
        nonce: "bm9uY2U=".to_string(),
        ciphertext: "".to_string(),
    };
    assert_eq!(file.version, 1);
    assert_eq!(file.kdf, "argon2id");
    assert_eq!(file.salt, "c2FsdA==");
    assert_eq!(file.nonce, "bm9uY2U=");
    assert_eq!(file.ciphertext, "");
}

#[test]
fn a_record_whose_identifier_is_taken_is_not_added() {
    let mut v = Vault::created(at(50));
    v.add_entry_at(entry(1, "a", "la"), at(60));
    v.add_entry_at(entry(2, "b", "lb"), at(70));
    v.add_entry_at(entry(1, "other", "lo"), at(80));
    assert_eq!(ids(&v), vec![1, 2]);
    assert_eq!(v.get_entry(1).unwrap().name, "a");
    assert_eq!(v.modified_at, at(70));
    v.add_entry(entry(2, "another", "ln"));
    assert_eq!(ids(&v), vec![1, 2]);
    assert_eq!(v.get_entry(2).unwrap().name, "b");
    assert_eq!(v.modified_at, at(70));
}

#[test]
fn an_updated_record_keeps_its_identifier() {
    let mut v = Vault::created(at(50));
    v.add_entry_at(entry(1, "a", "la"), at(60));
    v.add_entry_at(entry(2, "b", "lb"), at(70));
    let mut other = entry(2, "A2", "la2");
    other.tags = vec!["t".to_string()];
    v.update_entry_at(1, other, at(190));
    assert_eq!(ids(&v), vec![1, 2]);
    assert_eq!(v.entries[0].name, "A2");
    assert_eq!(v.entries[0].login, "la2");
    assert_eq!(v.entries[0].tags, vec!["t".to_string()]);
    assert_eq!(v.entries[0].modified_at, at(190));
    assert_eq!(v.entries[1].name, "b");
    v.update_entry(2, entry(77, "B2", "lb2"));
    assert_eq!(ids(&v), vec![1, 2]);
    assert_eq!(v.entries[1].name, "B2");
    assert_eq!(v.entries.len(), 2);
}

#[test]
fn a_query_is_looked_for_as_it_stands() {
    let tags = vec!["work".to_string(), "école".to_string()];
    let url = Some("https://github.com/login".to_string());
    let none: Option<String> = None;
    assert!(found_in("hub", "github", "octo", &tags, &url));
    assert!(found_in("oct", "github", "octo", &tags, &url));
    assert!(found_in("col", "github", "octo", &tags, &url));
    assert!(found_in("/login", "github", "octo", &tags, &url));
    assert!(found_in("", "", "", &Vec::new(), &none));
    assert!(!found_in("Hub", "github", "octo", &tags, &url));
    assert!(!found_in("/login", "github", "octo", &tags, &none));
    assert!(!found_in("work", "github", "octo", &Vec::new(), &url));
    assert!(!found_in("githubx", "github", "octo", &tags, &url));
}
