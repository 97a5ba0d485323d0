use carshop::auth::{authenticate, AuthBody, Claims, TOKEN_EXPIRY};
use carshop::cache::{cache_key, CacheImpl, CACHE_TTL};
use carshop::error::{AuthError, ServiceError};
use carshop::model::{Car, NewCar, NewPart, Part, UserAuth};
use carshop::repositories::{CarRepository, PartRepository, UserRepository};
use carshop::services::{cars, check_affected, parts, users};

fn tesla() -> NewCar {
    NewCar { name: "Tesla".to_string(), color: Some("Red".to_string()), year: Some(2020) }
}

fn auth(username: &str, password: &str) -> UserAuth {
    UserAuth { username: username.to_string(), password: password.to_string() }
}

#[test]
fn end_to_end_update_is_never_stale() {
    let mut repo = CarRepository::new();
    let mut cache: CacheImpl<Car> = CacheImpl::new();
    let created = cars::create(&mut repo, &tesla()).unwrap();
    let first = cars::view(&mut repo, &mut cache, created.id, 100).unwrap();
    assert_eq!(first, created);
    assert_eq!(first.color, Some("Red".to_string()));
    assert_eq!(cache.get(&cache_key("car", created.id), 100), Some(created.clone()));
    let blue = Car { color: Some("Blue".to_string()), ..created.clone() };
    assert_eq!(cars::update(&mut repo, &mut cache, &blue), Ok(blue.clone()));
    let second = cars::view(&mut repo, &mut cache, created.id, 101).unwrap();
    assert_eq!(second.color, Some("Blue".to_string()));
    assert_eq!(second, blue);
}

#[test]
fn repeated_view_uses_cache() {
    let mut repo = CarRepository::new();
    let mut cache: CacheImpl<Car> = CacheImpl::new();
    let created = cars::create(&mut repo, &tesla()).unwrap();
    let a = cars::view(&mut repo, &mut cache, created.id, 5).unwrap();
    assert_eq!(repo.lookup_count(), 1);
    let b = cars::view(&mut repo, &mut cache, created.id, 5).unwrap();
    assert_eq!(repo.lookup_count(), 1);
    assert_eq!(a, b);
}

#[test]
fn expired_entry_falls_back_to_store() {
    let mut repo = CarRepository::new();
    let mut cache: CacheImpl<Car> = CacheImpl::new();
    let created = cars::create(&mut repo, &tesla()).unwrap();
    cars::view(&mut repo, &mut cache, created.id, 1000).unwrap();
    cars::view(&mut repo, &mut cache, created.id, 1000 + CACHE_TTL - 1).unwrap();
    assert_eq!(repo.lookup_count(), 1);
    let late = cars::view(&mut repo, &mut cache, created.id, 1000 + CACHE_TTL).unwrap();
    assert_eq!(late, created);
    assert_eq!(repo.lookup_count(), 2);
}

#[test]
fn view_of_missing_car_is_not_found_and_not_cached() {
    let mut repo = CarRepository::new();
    let mut cache: CacheImpl<Car> = CacheImpl::new();
    assert_eq!(cars::view(&mut repo, &mut cache, 42, 0), Err(ServiceError::NotFound));
    assert_eq!(cars::view(&mut repo, &mut cache, 42, 0), Err(ServiceError::NotFound));
    assert_eq!(repo.lookup_count(), 2);
    assert_eq!(cache.get("car:42", 0), None);
}

#[test]
fn delete_is_not_idempotent() {
    let mut repo = CarRepository::new();
    let mut cache: CacheImpl<Car> = CacheImpl::new();
    assert_eq!(cars::delete(&mut repo, &mut cache, 1), Err(ServiceError::NotFound));
    let created = cars::create(&mut repo, &tesla()).unwrap();
    cars::view(&mut repo, &mut cache, created.id, 0).unwrap();
    assert_eq!(cars::delete(&mut repo, &mut cache, created.id), Ok(1));
    assert_eq!(cache.get(&cache_key("car", created.id), 0), None);
    assert_eq!(cars::view(&mut repo, &mut cache, created.id, 0), Err(ServiceError::NotFound));
    assert_eq!(cars::delete(&mut repo, &mut cache, created.id), Err(ServiceError::NotFound));
}

#[test]
fn affected_row_counts() {
    assert_eq!(check_affected(0), Err(ServiceError::NotFound));
    assert_eq!(check_affected(1), Ok(1));
    assert_eq!(check_affected(2), Err(ServiceError::InvariantViolation));
}

#[test]
fn car_validation() {
    let mut repo = CarRepository::new();
    let mut cache: CacheImpl<Car> = CacheImpl::new();
    let empty = NewCar { name: String::new(), color: None, year: None };
    assert_eq!(cars::create(&mut repo, &empty), Err(ServiceError::Validation));
    let long = NewCar { name: "x".repeat(81), color: None, year: None };
    assert_eq!(cars::create(&mut repo, &long), Err(ServiceError::Validation));
    let longest = NewCar { name: "é".repeat(80), color: None, year: None };
    let created = cars::create(&mut repo, &longest).unwrap();
    let renamed = Car { name: String::new(), ..created.clone() };
    assert_eq!(cars::update(&mut repo, &mut cache, &renamed), Err(ServiceError::Validation));
    assert_eq!(repo.find_by_id(created.id), Ok(created));
    let missing = Car { id: 77, name: "ok".to_string(), color: None, year: None };
    assert_eq!(cars::update(&mut repo, &mut cache, &missing), Err(ServiceError::NotFound));
}

#[test]
fn part_cache_round_trip() {
    let mut repo = PartRepository::new();
    let mut cache: CacheImpl<Part> = CacheImpl::new();
    let created = parts::create(&mut repo, &NewPart { car_id: 3, name: "alternator".to_string() }).unwrap();
    assert_eq!(parts::view(&mut repo, &mut cache, created.id, 0), Ok(created.clone()));
    assert_eq!(cache.get("part:1", 0), Some(created.clone()));
    let moved = Part { car_id: None, ..created.clone() };
    assert_eq!(parts::update(&mut repo, &mut cache, &moved), Ok(moved.clone()));
    assert_eq!(cache.get("part:1", 0), None);
    assert_eq!(parts::view(&mut repo, &mut cache, created.id, 0), Ok(moved));
    assert_eq!(parts::delete(&mut repo, &mut cache, created.id), Ok(1));
    assert_eq!(parts::delete(&mut repo, &mut cache, created.id), Err(ServiceError::NotFound));
    assert_eq!(
        parts::create(&mut repo, &NewPart { car_id: 3, name: String::new() }),
        Err(ServiceError::Validation)
    );
}

#[test]
fn cache_keys() {
    assert_eq!(cache_key("car", 1), "car:1");
    assert_eq!(cache_key("part", 2048), "part:2048");
    assert_eq!(cache_key("car", 0), "car:0");
    assert_eq!(cache_key("car", -15), "car:-15");
    assert_eq!(cache_key("car", i32::MIN), "car:-2147483648");
    assert_eq!(cache_key("car", i32::MAX), "car:2147483647");
}

#[test]
fn cache_set_get_delete() {
    let mut cache: CacheImpl<Part> = CacheImpl::new();
    let p = Part { id: 1, car_id: None, name: "bolt".to_string() };
    cache.set("part:1", p.clone(), 10);
    assert_eq!(cache.get("part:1", 10), Some(p.clone()));
    assert_eq!(cache.get("part:1", 10 + CACHE_TTL), None);
    assert_eq!(cache.get("part:2", 10), None);
    assert!(cache.delete("part:1"));
    assert!(!cache.delete("part:1"));
    assert_eq!(cache.get("part:1", 10), None);
}

#[test]
fn registered_user_logs_in() {
    let mut repo = UserRepository::new();
    let created = users::create(&mut repo, &auth("alice_01", "s3cretpass")).unwrap();
    assert_eq!(created.username, "alice_01");
    assert_ne!(created.password_hash, "s3cretpass");
    assert_eq!(users::login(&repo, &auth("alice_01", "s3cretpass")), Ok(created.clone()));
    assert_eq!(
        users::login(&repo, &auth("alice_01", "s3cretpassx")),
        Err(ServiceError::Auth(AuthError::WrongCredentials))
    );
    assert_eq!(
        users::login(&repo, &auth("bob", "s3cretpass")),
        Err(ServiceError::Auth(AuthError::WrongCredentials))
    );
}

#[test]
fn login_needs_both_fields() {
    let repo = UserRepository::new();
    assert_eq!(
        users::login(&repo, &auth("", "whatever1")),
        Err(ServiceError::Auth(AuthError::MissingCredentials))
    );
    assert_eq!(
        users::login(&repo, &auth("someone", "")),
        Err(ServiceError::Auth(AuthError::MissingCredentials))
    );
}

#[test]
fn user_validation_and_conflict() {
    let mut repo = UserRepository::new();
    assert_eq!(users::create(&mut repo, &auth("ab", "longenough")), Err(ServiceError::Validation));
    assert_eq!(
        users::create(&mut repo, &auth("abcdefghijklmnopq", "longenough")),
        Err(ServiceError::Validation)
    );
    assert_eq!(users::create(&mut repo, &auth("bad name", "longenough")), Err(ServiceError::Validation));
    assert_eq!(users::create(&mut repo, &auth("good_name", "short")), Err(ServiceError::Validation));
    assert_eq!(
        users::create(&mut repo, &auth("good_name", &"p".repeat(33))),
        Err(ServiceError::Validation)
    );
    users::create(&mut repo, &auth("Good_Name9", "longenough")).unwrap();
    assert_eq!(users::create(&mut repo, &auth("Good_Name9", "otherpass")), Err(ServiceError::Conflict));
}

#[test]
fn user_password_change_and_delete() {
    let mut repo = UserRepository::new();
    let created = users::create(&mut repo, &auth("carol", "firstpass")).unwrap();
    let updated = users::update(&mut repo, &auth("carol", "secondpass")).unwrap();
    assert_eq!(updated.id, created.id);
    assert_eq!(
        users::login(&repo, &auth("carol", "firstpass")),
        Err(ServiceError::Auth(AuthError::WrongCredentials))
    );
    assert_eq!(users::login(&repo, &auth("carol", "secondpass")), Ok(updated.clone()));
    assert_eq!(users::view(&repo, "carol"), Ok(updated));
    assert_eq!(users::update(&mut repo, &auth("dave", "secondpass")), Err(ServiceError::NotFound));
    assert_eq!(users::delete(&mut repo, "carol"), Ok(1));
    assert_eq!(users::delete(&mut repo, "carol"), Err(ServiceError::NotFound));
    assert_eq!(users::view(&repo, "carol"), Err(ServiceError::NotFound));
}

#[test]
fn authenticate_gives_claims() {
    let mut repo = UserRepository::new();
    users::create(&mut repo, &auth("erin", "erinpassword")).unwrap();
    let claims = authenticate(&repo, &auth("erin", "erinpassword")).unwrap();
    assert_eq!(
        claims,
        Claims { sub: "erin".to_string(), company: "ACME".to_string(), exp: TOKEN_EXPIRY }
    );
    assert_eq!(TOKEN_EXPIRY, 2000000000);
    assert_eq!(claims.describe(), "Email: erin\nCompany: ACME");
    assert_eq!(
        authenticate(&repo, &auth("erin", "wrong")),
        Err(ServiceError::Auth(AuthError::WrongCredentials))
    );
    let body = AuthBody::new("tok".to_string());
    assert_eq!(body.access_token, "tok");
    assert_eq!(body.token_type, "Bearer");
}
