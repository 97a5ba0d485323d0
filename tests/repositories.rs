use carshop::model::{
    Car, CarQuery, CommonQuery, NewCar, NewPart, Pagination, PartQuery, UserAuth, UserQuery,
};
use carshop::repositories::{CarRepository, PartRepository, UserRepository};
use carshop::services::{cars, parts, users};

fn no_paging() -> Pagination {
    Pagination { page: None, per_page: None, field: None, order: None }
}

fn paging(page: usize, per_page: usize) -> Pagination {
    Pagination { page: Some(page), per_page: Some(per_page), field: None, order: None }
}

fn new_car(name: &str) -> NewCar {
    NewCar { name: name.to_string(), color: None, year: None }
}

fn seeded_cars(names: &[&str]) -> CarRepository {
    let mut repo = CarRepository::new();
    for n in names {
        repo.create(&new_car(n)).unwrap();
    }
    repo
}

fn cars_fixture(num: usize) -> CarRepository {
    let mut repo = CarRepository::new();
    for _ in 0..num {
        repo.create(&NewCar {
            name: String::from("ferrari"),
            color: Some(String::from("black")),
            year: Some(1980),
        })
        .unwrap();
    }
    repo
}

#[test]
fn test_find_all_cars() {
    let repo = seeded_cars(&["Tesla Model S", "Tesla Model 3", "Fiat Panda"]);
    let conditions = CarQuery { name: Some("Tesla".to_string()) };
    let query = CommonQuery { ids: [].to_vec() };
    let pagination = no_paging();
    let result = repo.find_all(&conditions, &query, &pagination);
    assert!(result.is_ok());
    assert_eq!(result.unwrap().data.len(), 2);
}

#[test]
fn test_find_all_users() {
    let mut repo = UserRepository::new();
    for name in ["Tesla Model S", "Tesla Model 3", "Fiat"] {
        repo.create(&UserAuth { username: name.to_string(), password: "None".to_string() }).unwrap();
    }
    let conditions = UserQuery { username: Some("Tesla".to_string()) };
    let query = CommonQuery { ids: [].to_vec() };
    let pagination = no_paging();
    let result = repo.find_all(&conditions, &query, &pagination);
    assert!(result.is_ok());
    assert_eq!(result.unwrap().data.len(), 2);
}

#[test]
fn test_search() {
    let repo = cars_fixture(5);
    let conditions = CarQuery { name: None };
    let query = CommonQuery { ids: [].to_vec() };
    let cars = cars::search(&repo, &conditions, &query, &no_paging()).unwrap();
    assert_eq!(cars.data.len(), 5);
}

#[test]
fn parts_test_find_all() {
    let mut repo = PartRepository::new();
    for _ in 0..5 {
        repo.create(&NewPart { car_id: 1, name: String::from("alternator") }).unwrap();
    }
    let conditions = PartQuery { name: None };
    let query = CommonQuery { ids: [].to_vec() };
    let found = parts::find_all(&repo, &conditions, &query, &no_paging()).unwrap();
    assert_eq!(found.data.len(), 5);
}

#[test]
fn users_test_find_all() {
    let mut repo = UserRepository::new();
    for id in 1..6 {
        repo.create(&UserAuth { username: format!("ferrari {}", id), password: "black".to_string() })
            .unwrap();
    }
    let conditions = UserQuery { username: None };
    let query = CommonQuery { ids: [].to_vec() };
    let found = users::find_all(&repo, &conditions, &query, &no_paging()).unwrap();
    assert_eq!(found.data.len(), 5);
}

#[test]
fn cars_list() {
    let mut repo = CarRepository::new();
    let car = NewCar { name: "Tesla".to_string(), color: Some("Red".to_string()), year: Some(2020) };
    repo.create(&car).unwrap();
    let cars = cars::search(
        &repo,
        &CarQuery { name: Some("Tesla".to_string()) },
        &CommonQuery { ids: vec![] },
        &no_paging(),
    )
    .unwrap();
    assert_eq!(cars.data[0].name, "Tesla");
    assert_eq!(cars.data[0].color, Some("Red".to_string()));
    assert_eq!(cars.data[0].year, Some(2020));
}

#[test]
fn users_list() {
    let mut repo = UserRepository::new();
    let user = UserAuth { username: "Tesla".to_string(), password: "Red".to_string() };
    repo.create(&user).unwrap();
    let found = users::find_all(
        &repo,
        &UserQuery { username: Some("Tesla".to_string()) },
        &CommonQuery { ids: vec![] },
        &no_paging(),
    )
    .unwrap();
    assert_eq!(found.data[0].username, "Tesla");
    // Only a digest of the password is stored, never the password itself.
    assert_ne!(found.data[0].password_hash, "Red".to_string());
    assert_eq!(carshop::password::verify("Red", &found.data[0].password_hash), Ok(true));
}

#[test]
fn pagination_first_and_last_page() {
    let repo = seeded_cars(&["a", "b", "c", "d", "e"]);
    let all = CarQuery { name: None };
    let no_ids = CommonQuery { ids: vec![] };
    let first = repo.find_all(&all, &no_ids, &paging(1, 2)).unwrap();
    assert_eq!(first.data.len(), 2);
    assert_eq!(first.total, 5);
    assert_eq!(first.data[0].name, "a");
    assert_eq!(first.data[1].name, "b");
    let third = repo.find_all(&all, &no_ids, &paging(3, 2)).unwrap();
    assert_eq!(third.data.len(), 1);
    assert_eq!(third.data[0].name, "e");
    assert_eq!(third.total, 5);
    let beyond = repo.find_all(&all, &no_ids, &paging(4, 2)).unwrap();
    assert_eq!(beyond.data.len(), 0);
    assert_eq!(beyond.total, 5);
}

#[test]
fn pagination_huge_page_is_empty() {
    let repo = seeded_cars(&["a", "b"]);
    let list = repo
        .find_all(&CarQuery { name: None }, &CommonQuery { ids: vec![] }, &paging(usize::MAX, usize::MAX))
        .unwrap();
    assert_eq!(list.data.len(), 0);
    assert_eq!(list.total, 2);
}

#[test]
fn pagination_zero_page_is_rejected() {
    let repo = seeded_cars(&["a"]);
    let none = CarQuery { name: None };
    let ids = CommonQuery { ids: vec![] };
    assert_eq!(
        repo.find_all(&none, &ids, &paging(0, 10)),
        Err(carshop::error::ServiceError::Validation)
    );
    assert_eq!(
        repo.find_all(&none, &ids, &paging(1, 0)),
        Err(carshop::error::ServiceError::Validation)
    );
}

#[test]
fn filter_name_takes_precedence_over_ids() {
    let repo = seeded_cars(&["Tesla S", "Fiat", "Tesla X", "Opel"]);
    let by_ids = repo
        .find_all(&CarQuery { name: None }, &CommonQuery { ids: vec![2, 4, 9] }, &no_paging())
        .unwrap();
    let ids: Vec<i32> = by_ids.data.iter().map(|c| c.id).collect();
    assert_eq!(ids, vec![2, 4]);
    assert_eq!(by_ids.total, 2);
    let by_name = repo
        .find_all(
            &CarQuery { name: Some("Tesla".to_string()) },
            &CommonQuery { ids: vec![2] },
            &no_paging(),
        )
        .unwrap();
    let names: Vec<String> = by_name.data.iter().map(|c| c.name.clone()).collect();
    assert_eq!(names, vec!["Tesla S".to_string(), "Tesla X".to_string()]);
}

#[test]
fn filter_substring_is_case_sensitive_and_matches_inside() {
    let repo = seeded_cars(&["Model S", "model x", "Supermodel"]);
    let list = repo
        .find_all(&CarQuery { name: Some("model".to_string()) }, &CommonQuery { ids: vec![] }, &no_paging())
        .unwrap();
    let names: Vec<String> = list.data.iter().map(|c| c.name.clone()).collect();
    assert_eq!(names, vec!["model x".to_string(), "Supermodel".to_string()]);
    let everything = repo
        .find_all(&CarQuery { name: Some(String::new()) }, &CommonQuery { ids: vec![] }, &no_paging())
        .unwrap();
    assert_eq!(everything.total, 3);
}

#[test]
fn create_assigns_increasing_ids() {
    let mut repo = PartRepository::new();
    let a = repo.create(&NewPart { car_id: 7, name: "wheel".to_string() }).unwrap();
    let b = repo.create(&NewPart { car_id: 7, name: "door".to_string() }).unwrap();
    assert_eq!(a.id, 1);
    assert_eq!(b.id, 2);
    assert_eq!(a.car_id, Some(7));
}

#[test]
fn repository_update_and_delete() {
    let mut repo = seeded_cars(&["a", "b"]);
    let changed = Car { id: 2, name: "bee".to_string(), color: Some("Blue".to_string()), year: None };
    assert_eq!(repo.update(&changed), Ok(changed.clone()));
    assert_eq!(repo.find_by_id(2), Ok(changed));
    let missing = Car { id: 9, name: "x".to_string(), color: None, year: None };
    assert_eq!(repo.update(&missing), Err(carshop::error::ServiceError::NotFound));
    assert_eq!(repo.delete(1), 1);
    assert_eq!(repo.delete(1), 0);
    assert_eq!(repo.find_by_id(1), Err(carshop::error::ServiceError::NotFound));
    assert_eq!(repo.lookup_count(), 2);
}
