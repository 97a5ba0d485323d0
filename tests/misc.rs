use carshop::error::{AuthError, ServiceError};
use carshop::query::parse_ids;
use carshop::model::{default_field, default_ids, default_order, default_page, default_per_page, Pagination};
use carshop::password::{hash, verify};
use carshop::upload::path_is_valid;

#[test]
fn hash_round_trip() {
    let a = hash("correct horse").unwrap();
    let b = hash("correct horse").unwrap();
    assert_ne!(a, b);
    assert_ne!(a, "correct horse");
    assert!(a.starts_with("$argon2"));
    assert_eq!(verify("correct horse", &a), Ok(true));
    assert_eq!(verify("correct horse", &b), Ok(true));
    assert_eq!(verify("correct horsf", &a), Ok(false));
}

#[test]
fn corrupt_digest_is_an_error() {
    assert_eq!(verify("anything", "not a digest"), Err(ServiceError::CorruptDigest));
    assert_eq!(verify("anything", ""), Err(ServiceError::CorruptDigest));
}

#[test]
fn upload_paths() {
    assert!(path_is_valid("foo.txt"));
    assert!(path_is_valid("README.md"));
    assert!(path_is_valid("foo/"));
    assert!(!path_is_valid(""));
    assert!(!path_is_valid("/etc/passwd"));
    assert!(!path_is_valid("../secret"));
    assert!(!path_is_valid(".."));
    assert!(!path_is_valid("."));
    assert!(!path_is_valid("a/b"));
    assert!(!path_is_valid("./a"));
}

#[test]
fn paging_defaults() {
    assert_eq!(default_page(), Some(1));
    assert_eq!(default_per_page(), Some(1000));
    assert_eq!(default_field(), Some("id".to_string()));
    assert_eq!(default_order(), Some("ASC".to_string()));
    assert!(default_ids().is_empty());
    let p = Pagination { page: None, per_page: None, field: None, order: None };
    assert_eq!(p.window(), Ok((0, 1000)));
    let q = Pagination { page: Some(3), per_page: Some(2), field: None, order: None };
    assert_eq!(q.window(), Ok((2, 2)));
}

#[test]
fn id_lists() {
    assert_eq!(parse_ids("1,2,3"), Some(vec![1, 2, 3]));
    assert_eq!(parse_ids(" 4 ,\t5 , 6"), Some(vec![4, 5, 6]));
    assert_eq!(parse_ids("-7,+8"), Some(vec![-7, 8]));
    assert_eq!(parse_ids("2147483647,-2147483648"), Some(vec![i32::MAX, i32::MIN]));
    assert_eq!(parse_ids("2147483648"), None);
    assert_eq!(parse_ids("-2147483649"), None);
    assert_eq!(parse_ids("99999999999999999999"), None);
    assert_eq!(parse_ids("1,,2"), None);
    assert_eq!(parse_ids(""), None);
    assert_eq!(parse_ids("1,x"), None);
    assert_eq!(parse_ids("1 2"), None);
    assert_eq!(parse_ids("-"), None);
    assert_eq!(parse_ids("0012"), Some(vec![12]));
}

#[test]
fn status_codes() {
    assert_eq!(ServiceError::Validation.status(), 400);
    assert_eq!(ServiceError::NotFound.status(), 404);
    assert_eq!(ServiceError::Conflict.status(), 409);
    assert_eq!(ServiceError::InvariantViolation.status(), 500);
    assert_eq!(ServiceError::CorruptDigest.status(), 500);
    assert_eq!(ServiceError::Hashing.status(), 500);
    assert_eq!(ServiceError::Storage.status(), 503);
    assert_eq!(ServiceError::Auth(AuthError::WrongCredentials).status(), 401);
    assert_eq!(ServiceError::Auth(AuthError::MissingCredentials).status(), 400);
    assert_eq!(ServiceError::Auth(AuthError::TokenCreation).status(), 500);
    assert_eq!(ServiceError::Auth(AuthError::InvalidToken).status(), 400);
}
