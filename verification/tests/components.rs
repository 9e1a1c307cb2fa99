//! Unit tests of the validator, the numeral renderer, the error mapping and
//! the in-memory store.

use registration_core::errors::ErrorKind;
use registration_core::numeral::to_decimal;
use registration_core::store::{AccountKind, InsertOutcome, MemoryStore, Store, StorageError};
use registration_core::username::{validate, MAX_USERNAME_LEN};

#[test]
fn validate_accepts_the_full_grammar() {
    assert!(validate("abc.def_ghi=jkl-mno/pqr0123456789").is_ok());
    assert!(validate("a").is_ok());
    assert!(validate("0").is_ok());
}

#[test]
fn validate_rejects_characters_outside_the_grammar() {
    for candidate in ["t@ken", "Taken", "ta ken", "täken", "tak:en", "tak\nen", "ta+ken"] {
        assert_eq!(validate(candidate), Err(ErrorKind::InvalidUsername), "{candidate}");
    }
}

#[test]
fn validate_rejects_the_empty_string() {
    assert_eq!(validate(""), Err(ErrorKind::InvalidUsername));
}

#[test]
fn validate_bounds_the_length() {
    let longest = "a".repeat(MAX_USERNAME_LEN);
    assert!(validate(&longest).is_ok());
    let too_long = "a".repeat(MAX_USERNAME_LEN + 1);
    assert_eq!(validate(&too_long), Err(ErrorKind::InvalidUsername));
}

#[test]
fn numerals_render_exactly() {
    assert_eq!(to_decimal(0), "0");
    assert_eq!(to_decimal(7), "7");
    assert_eq!(to_decimal(10), "10");
    assert_eq!(to_decimal(1234567890), "1234567890");
    assert_eq!(to_decimal(u64::MAX), "18446744073709551615");
}

#[test]
fn error_kinds_map_to_protocol_statuses() {
    assert_eq!(ErrorKind::InvalidUsername.status_code(), 400);
    assert_eq!(ErrorKind::UserInUse.status_code(), 400);
    assert_eq!(ErrorKind::StorageFailure.status_code(), 500);
    assert_eq!(ErrorKind::NotSupported.status_code(), 400);
    assert!(ErrorKind::InvalidUsername.is_client_error());
    assert!(!ErrorKind::StorageFailure.is_client_error());
}

#[test]
fn error_kinds_map_to_protocol_codes() {
    assert_eq!(ErrorKind::InvalidUsername.code(), "M_INVALID_USERNAME");
    assert_eq!(ErrorKind::UserInUse.code(), "M_USER_IN_USE");
    assert_eq!(ErrorKind::StorageFailure.code(), "M_UNKNOWN");
    assert_eq!(ErrorKind::NotSupported.code(), "M_UNRECOGNIZED");
}

#[test]
fn the_store_inserts_at_most_once_per_localpart() {
    let mut store = MemoryStore::new();
    assert_eq!(store.check_username_exists("alice"), Ok(false));
    assert_eq!(store.insert_account("alice", AccountKind::User), InsertOutcome::Inserted);
    assert_eq!(store.check_username_exists("alice"), Ok(true));
    assert_eq!(store.insert_account("alice", AccountKind::Guest), InsertOutcome::Collision);
    assert_eq!(store.check_username_exists("bob"), Ok(false));
}

#[test]
fn the_store_keeps_one_token_per_device() {
    let mut store = MemoryStore::new();
    assert_eq!(store.insert_or_replace_device_token("alice", "phone", "tok1"), Ok(()));
    assert_eq!(store.token_is_active("tok1"), Ok(true));
    assert_eq!(store.insert_or_replace_device_token("alice", "phone", "tok2"), Ok(()));
    assert_eq!(store.token_is_active("tok1"), Ok(false));
    assert_eq!(store.token_is_active("tok2"), Ok(true));
}

#[test]
fn a_failing_store_refuses_every_request() {
    let mut store = MemoryStore::new();
    store.set_failing(true);
    assert_eq!(store.check_username_exists("alice"), Err(StorageError));
    assert_eq!(store.insert_account("alice", AccountKind::User), InsertOutcome::Failed);
    assert_eq!(store.insert_or_replace_device_token("a", "d", "t"), Err(StorageError));
    assert_eq!(store.token_is_active("t"), Err(StorageError));
    store.set_failing(false);
    assert_eq!(store.check_username_exists("alice"), Ok(false));
}
