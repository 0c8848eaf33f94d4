use lesbin_api::config::AppState;
use lesbin_api::cryptography::hash_value_sha256;
use lesbin_api::pastes::{
    validate_paste, CreateError, CreatePasteRequest, DeletePasteRequest, Deletion, PasteStore,
};
use lesbin_api::routes::{
    admin_delete_paste_handler, get_statistics_handler, mint_credentials, paste_create_handler,
    paste_delete_handler, paste_get_handler, DELETION_KEY_LENGTH, PASTE_ID_LENGTH,
};
use lesbin_api::status::StatusCode;
use lesbin_api::sweeper::run_expiry_check;

fn state() -> AppState {
    AppState {
        access_token: String::from("api-token"),
        admin_tokens: vec![String::from("admin-one"), String::from("admin-two")],
        paste_max_size: 32,
        paste_max_expiry: 1000,
        paste_expiry_required: false,
        reports_enabled: true,
        reports_min_length: 5,
    }
}

fn request(title: &str, content: &str, expires_at: Option<i64>) -> CreatePasteRequest {
    CreatePasteRequest {
        encrypted_title: String::from(title),
        encrypted_content: String::from(content),
        expires_at,
        encrypted_syntax_type: String::from("c3ludGF4"),
    }
}

fn wall_clock() -> i64 {
    std::time::SystemTime::now()
        .duration_since(std::time::UNIX_EPOCH)
        .unwrap()
        .as_secs() as i64
}

#[test]
fn sha256_of_known_texts() {
    assert_eq!(
        hash_value_sha256("abc"),
        "ba7816bf8f01cfea414140de5dae2223b00361a396177a9cb410ff61f20015ad"
    );
    assert_eq!(
        hash_value_sha256(""),
        "e3b0c44298fc1c149afbf4c8996fb92427ae41e4649b934ca495991b7852b855"
    );
    assert_eq!(hash_value_sha256("h\u{e9}llo").len(), 64);
    assert_ne!(hash_value_sha256("abc"), "abc");
}

#[test]
fn validation_accepts_a_plain_request() {
    assert_eq!(validate_paste(&state(), &request("t", "c", None), 100), Ok(()));
    assert_eq!(validate_paste(&state(), &request("t", "c", Some(1100)), 100), Ok(()));
}

#[test]
fn validation_requires_expiry_when_configured() {
    let mut s = state();
    s.paste_expiry_required = true;
    assert_eq!(
        validate_paste(&s, &request("t", "c", None), 100),
        Err(CreateError::ExpiryRequired)
    );
    assert_eq!(validate_paste(&s, &request("t", "c", Some(200)), 100), Ok(()));
}

#[test]
fn validation_rejects_expiry_beyond_the_maximum() {
    assert_eq!(
        validate_paste(&state(), &request("t", "c", Some(1101)), 100),
        Err(CreateError::InvalidExpiry)
    );
    assert_eq!(
        validate_paste(&state(), &request("t", "c", Some(i64::MAX)), i64::MAX - 5),
        Ok(())
    );
    let mut s = state();
    s.paste_max_expiry = u64::MAX;
    assert_eq!(validate_paste(&s, &request("t", "c", Some(i64::MAX)), i64::MAX), Ok(()));
}

#[test]
fn validation_accepts_an_expiry_in_the_past() {
    assert_eq!(validate_paste(&state(), &request("t", "c", Some(5)), 100), Ok(()));
}

#[test]
fn validation_rejects_empty_title_or_content() {
    assert_eq!(
        validate_paste(&state(), &request("", "c", None), 100),
        Err(CreateError::EmptyField)
    );
    assert_eq!(
        validate_paste(&state(), &request("t", "", None), 100),
        Err(CreateError::EmptyField)
    );
}

#[test]
fn validation_measures_size_in_bytes() {
    let title = "a".repeat(16);
    let content = "b".repeat(16);
    assert_eq!(validate_paste(&state(), &request(&title, &content, None), 100), Ok(()));
    let content = "b".repeat(17);
    assert_eq!(
        validate_paste(&state(), &request(&title, &content, None), 100),
        Err(CreateError::TooLarge)
    );
    let wide = "\u{e9}".repeat(9);
    assert_eq!(
        validate_paste(&state(), &request(&title, &wide, None), 100),
        Err(CreateError::TooLarge)
    );
}

#[test]
fn validation_reports_the_first_broken_rule() {
    let mut s = state();
    s.paste_expiry_required = true;
    assert_eq!(
        validate_paste(&s, &request("", "", None), 100),
        Err(CreateError::ExpiryRequired)
    );
    assert_eq!(
        validate_paste(&s, &request("", "", Some(5000)), 100),
        Err(CreateError::InvalidExpiry)
    );
    let long = "x".repeat(100);
    assert_eq!(
        validate_paste(&s, &request("", &long, Some(500)), 100),
        Err(CreateError::EmptyField)
    );
}

#[test]
fn create_error_status_codes() {
    assert_eq!(CreateError::ExpiryRequired.status().as_u16(), 400);
    assert_eq!(CreateError::InvalidExpiry.status().as_u16(), 400);
    assert_eq!(CreateError::EmptyField.status().as_u16(), 400);
    assert_eq!(CreateError::TooLarge.status().as_u16(), 413);
    assert_eq!(CreateError::Storage.status().as_u16(), 500);
}

#[test]
fn created_paste_is_read_back_verbatim() {
    let mut store = PasteStore::new();
    let created = store
        .create(
            &state(),
            request("dGl0bGU=", "Y29udGVudA==", Some(600)),
            100,
            String::from("abcDEF123456"),
            String::from("secret"),
        )
        .unwrap();
    assert_eq!(created.id, "abcDEF123456");
    assert_eq!(created.deletion_key, "secret");
    assert_eq!(store.len(), 1);
    let read = store.get("abcDEF123456", 599).unwrap();
    assert_eq!(read.id, "abcDEF123456");
    assert_eq!(read.encrypted_title, "dGl0bGU=");
    assert_eq!(read.encrypted_content, "Y29udGVudA==");
    assert_eq!(read.encrypted_syntax_type, "c3ludGF4");
    assert_eq!(read.expires_at, Some(600));
    assert_eq!(read.created_at, 100);
    assert!(store.get("abcDEF12345", 599).is_none());
}

#[test]
fn rejected_creation_stores_nothing() {
    let mut store = PasteStore::new();
    let answer = store.create(
        &state(),
        request("", "c", None),
        100,
        String::from("abcDEF123456"),
        String::from("secret"),
    );
    assert_eq!(answer.unwrap_err(), CreateError::EmptyField);
    assert_eq!(store.len(), 0);
    assert!(!store.contains("abcDEF123456"));
}

#[test]
fn taken_id_is_a_storage_error() {
    let mut store = PasteStore::new();
    store
        .create(&state(), request("t", "c", None), 100, String::from("id1"), String::from("k1"))
        .unwrap();
    let answer = store.create(
        &state(),
        request("t2", "c2", None),
        101,
        String::from("id1"),
        String::from("k2"),
    );
    assert_eq!(answer.unwrap_err(), CreateError::Storage);
    assert_eq!(store.len(), 1);
    assert_eq!(store.get("id1", 200).unwrap().encrypted_title, "t");
}

#[test]
fn expired_paste_is_not_read_before_any_sweep() {
    let mut store = PasteStore::new();
    store
        .create(&state(), request("t", "c", Some(150)), 100, String::from("id1"), String::from("k"))
        .unwrap();
    assert!(store.get("id1", 149).is_some());
    assert!(store.get("id1", 150).is_none());
    assert!(store.get("id1", 151).is_none());
    assert!(store.contains("id1"));
    assert_eq!(store.len(), 1);
}

#[test]
fn paste_without_expiry_is_always_live() {
    let mut store = PasteStore::new();
    store
        .create(&state(), request("t", "c", None), 100, String::from("id1"), String::from("k"))
        .unwrap();
    assert!(store.get("id1", i64::MAX).is_some());
    assert_eq!(store.sweep(i64::MAX), 0);
    assert_eq!(store.len(), 1);
}

#[test]
fn delete_by_secret_removes_once() {
    let mut store = PasteStore::new();
    store
        .create(&state(), request("t", "c", None), 100, String::from("id1"), String::from("k1"))
        .unwrap();
    store
        .create(&state(), request("t", "c", None), 100, String::from("id2"), String::from("k2"))
        .unwrap();
    assert_eq!(store.delete_by_secret("id1", "k1"), Deletion::Deleted);
    assert_eq!(store.len(), 1);
    assert!(store.get("id1", 100).is_none());
    assert!(store.get("id2", 100).is_some());
    assert_eq!(store.delete_by_secret("id1", "k1"), Deletion::NotFound);
    assert_eq!(store.len(), 1);
}

#[test]
fn wrong_secret_reads_like_an_absent_id() {
    let mut store = PasteStore::new();
    store
        .create(&state(), request("t", "c", None), 100, String::from("id1"), String::from("k1"))
        .unwrap();
    let wrong = store.delete_by_secret("id1", "k2");
    let absent = store.delete_by_secret("nope", "k1");
    assert_eq!(wrong, Deletion::NotFound);
    assert_eq!(wrong, absent);
    assert_eq!(wrong.status(), absent.status());
    assert_eq!(store.len(), 1);
    assert!(store.get("id1", 100).is_some());
    let hashed = hash_value_sha256("k1");
    assert_eq!(store.delete_by_secret("id1", &hashed), Deletion::NotFound);
    assert_eq!(store.len(), 1);
}

#[test]
fn admin_delete_needs_no_secret() {
    let mut store = PasteStore::new();
    store
        .create(&state(), request("t", "c", Some(50)), 100, String::from("id1"), String::from("k1"))
        .unwrap();
    assert_eq!(store.delete_by_admin("id2"), Deletion::NotFound);
    assert_eq!(store.delete_by_admin("id1"), Deletion::Deleted);
    assert_eq!(store.delete_by_admin("id1"), Deletion::NotFound);
    assert_eq!(store.len(), 0);
}

#[test]
fn sweep_removes_only_expired_rows() {
    let now = 10_000;
    let mut s = state();
    s.paste_max_expiry = 100_000;
    let mut store = PasteStore::new();
    store
        .create(&s, request("t", "c", Some(now - 1)), 0, String::from("old"), String::from("k"))
        .unwrap();
    store
        .create(&s, request("t", "c", Some(now + 3600)), 0, String::from("new"), String::from("k"))
        .unwrap();
    store
        .create(&s, request("t", "c", Some(now)), 0, String::from("edge"), String::from("k"))
        .unwrap();
    store
        .create(&s, request("t", "c", None), 0, String::from("forever"), String::from("k"))
        .unwrap();
    assert_eq!(store.sweep(now), 1);
    assert_eq!(store.len(), 3);
    assert!(!store.contains("old"));
    assert!(store.contains("new"));
    assert!(store.contains("edge"));
    assert!(store.get("old", now).is_none());
    assert!(store.get("edge", now).is_none());
    assert_eq!(store.get("new", now).unwrap().expires_at, Some(now + 3600));
    assert!(store.get("forever", now).is_some());
    assert_eq!(store.sweep(now), 0);
    assert_eq!(store.sweep(now + 1), 1);
    assert!(!store.contains("edge"));
}

#[test]
fn end_to_end_through_the_handlers() {
    let now = wall_clock();
    let mut s = state();
    s.paste_max_expiry = 7200;
    let mut store = PasteStore::new();
    let created =
        paste_create_handler(&s, &mut store, request("dGl0bGU=", "Y29udGVudA==", Some(now + 3600)))
            .unwrap();
    assert_eq!(created.id.len(), 12);
    assert!(created.id.chars().all(|c| c.is_ascii_alphanumeric()));
    assert_eq!(created.deletion_key.len(), 36);
    let read = paste_get_handler(&store, &created.id).unwrap();
    assert_eq!(read.id, created.id);
    assert_eq!(read.encrypted_title, "dGl0bGU=");
    assert_eq!(read.encrypted_content, "Y29udGVudA==");
    assert_eq!(read.encrypted_syntax_type, "c3ludGF4");
    assert_eq!(read.expires_at, Some(now + 3600));
    let wrong = DeletePasteRequest { deletion_key: String::from("not-the-key") };
    assert_eq!(paste_delete_handler(&mut store, &created.id, &wrong).as_u16(), 404);
    assert!(paste_get_handler(&store, &created.id).is_ok());
    let right = DeletePasteRequest { deletion_key: created.deletion_key.clone() };
    assert_eq!(paste_delete_handler(&mut store, &created.id, &right).as_u16(), 204);
    assert_eq!(paste_get_handler(&store, &created.id).unwrap_err(), StatusCode::NotFound);
    assert_eq!(paste_delete_handler(&mut store, &created.id, &right).as_u16(), 404);
}

#[test]
fn create_handler_draws_fresh_ids_and_keys() {
    let mut store = PasteStore::new();
    let a = paste_create_handler(&state(), &mut store, request("t", "c", None)).unwrap();
    let b = paste_create_handler(&state(), &mut store, request("t", "c", None)).unwrap();
    assert_ne!(a.id, b.id);
    assert_ne!(a.deletion_key, b.deletion_key);
    assert_eq!(a.deletion_key.matches('-').count(), 4);
    assert_eq!(store.len(), 2);
}

#[test]
fn create_handler_reports_validation_errors() {
    let mut s = state();
    s.paste_expiry_required = true;
    let mut store = PasteStore::new();
    let answer = paste_create_handler(&s, &mut store, request("t", "c", None));
    assert_eq!(answer.unwrap_err(), CreateError::ExpiryRequired);
    let far = wall_clock() + 100_000;
    let answer = paste_create_handler(&s, &mut store, request("t", "c", Some(far)));
    assert_eq!(answer.unwrap_err(), CreateError::InvalidExpiry);
    assert_eq!(store.len(), 0);
}

#[test]
fn sweep_tick_after_two_inserts() {
    let now = wall_clock();
    let mut s = state();
    s.paste_max_expiry = 7200;
    let mut store = PasteStore::new();
    let gone = paste_create_handler(&s, &mut store, request("t", "c", Some(now - 1))).unwrap();
    let kept = paste_create_handler(&s, &mut store, request("t", "c", Some(now + 3600))).unwrap();
    assert_eq!(run_expiry_check(&mut store), 1);
    assert_eq!(store.len(), 1);
    assert!(!store.contains(&gone.id));
    assert!(store.contains(&kept.id));
    assert!(paste_get_handler(&store, &gone.id).is_err());
    assert!(paste_get_handler(&store, &kept.id).is_ok());
}

#[test]
fn admin_handler_deletes_by_id() {
    let mut store = PasteStore::new();
    let a = paste_create_handler(&state(), &mut store, request("t", "c", None)).unwrap();
    assert_eq!(admin_delete_paste_handler(&mut store, "missing"), StatusCode::NotFound);
    assert_eq!(admin_delete_paste_handler(&mut store, &a.id), StatusCode::NoContent);
    assert_eq!(admin_delete_paste_handler(&mut store, &a.id), StatusCode::NotFound);
}

#[test]
fn statistics_count_every_stored_row() {
    let mut store = PasteStore::new();
    assert_eq!(get_statistics_handler(&store).unwrap().total_pastes, 0);
    store
        .create(&state(), request("t", "c", Some(50)), 10, String::from("id1"), String::from("k"))
        .unwrap();
    store
        .create(&state(), request("t", "c", None), 10, String::from("id2"), String::from("k"))
        .unwrap();
    assert_eq!(get_statistics_handler(&store).unwrap().total_pastes, 2);
}

#[test]
fn minted_credentials_have_the_right_shape() {
    let a = mint_credentials();
    let b = mint_credentials();
    assert_eq!(a.id.len(), 12);
    assert!(a.id.chars().all(|c| c.is_ascii_alphanumeric()));
    assert_eq!(a.deletion_key.len(), 36);
    assert_eq!(a.deletion_key.chars().nth(14), Some('4'));
    assert_eq!(a.deletion_key_hash, hash_value_sha256(&a.deletion_key));
    assert_eq!(a.deletion_key_hash.len(), 64);
    assert_ne!(a.id, b.id);
    assert_ne!(a.deletion_key, b.deletion_key);
}

#[test]
fn rows_are_guarded_by_the_hash_they_were_inserted_with() {
    let mut store = PasteStore::new();
    let answer = store.insert(
        &state(),
        request("t", "c", None),
        100,
        String::from("id1"),
        hash_value_sha256("k1"),
    );
    assert_eq!(answer, Ok(()));
    assert_eq!(store.delete_by_hash("id1", "k1"), Deletion::NotFound);
    assert_eq!(store.delete_by_secret("id1", "k2"), Deletion::NotFound);
    assert_eq!(store.delete_by_hash("id2", &hash_value_sha256("k1")), Deletion::NotFound);
    assert_eq!(store.len(), 1);
    assert_eq!(store.delete_by_secret("id1", "k1"), Deletion::Deleted);
    assert_eq!(store.len(), 0);
    store
        .insert(&state(), request("t", "c", None), 100, String::from("id1"), String::from("h"))
        .unwrap();
    assert_eq!(store.delete_by_hash("id1", "h"), Deletion::Deleted);
    assert_eq!(
        store.insert(&state(), request("t", "", None), 100, String::from("id1"), String::from("h")),
        Err(CreateError::EmptyField)
    );
}

#[test]
fn minted_secret_is_a_hyphenated_uuid() {
    assert_eq!(PASTE_ID_LENGTH, 12);
    assert_eq!(DELETION_KEY_LENGTH, 36);
    let minted = mint_credentials();
    assert_eq!(minted.id.len(), PASTE_ID_LENGTH);
    assert_eq!(minted.deletion_key.len(), DELETION_KEY_LENGTH);
    for (i, c) in minted.deletion_key.chars().enumerate() {
        if i == 8 || i == 13 || i == 18 || i == 23 {
            assert_eq!(c, '-');
        } else {
            assert!(c.is_ascii_digit() || ('a'..='f').contains(&c));
        }
    }
    assert_eq!(minted.deletion_key.chars().nth(14), Some('4'));
}
