//! The entities, their creation payloads, listing filters and paging.

use vstd::prelude::*;

use crate::table::Row;

verus! {

/// An exact copy of an optional text.
pub fn copy_text(t: &Option<String>) -> (r: Option<String>)
    ensures
        r == *t,
{
    match t {
        Some(s) => Some(s.clone()),
        None => None,
    }
}

/// A stored car.
#[derive(Debug, Clone, PartialEq, Eq)]
pub struct Car {
    pub id: i32,
    pub name: String,
    pub color: Option<String>,
    pub year: Option<i16>,
}

/// The fields of a car to be created; the store assigns the id.
#[derive(Debug, Clone, PartialEq, Eq)]
pub struct NewCar {
    pub name: String,
    pub color: Option<String>,
    pub year: Option<i16>,
}

/// The name filter of a car listing.
#[derive(Debug, Clone, PartialEq, Eq)]
pub struct CarQuery {
    pub name: Option<String>,
}

/// One page of cars, with the number of cars that the filter selects.
#[derive(Debug, Clone, PartialEq, Eq)]
pub struct CarList {
    pub data: Vec<Car>,
    pub total: i64,
}

/// A stored part, optionally fitted to a car.
#[derive(Debug, Clone, PartialEq, Eq)]
pub struct Part {
    pub id: i32,
    pub car_id: Option<i32>,
    pub name: String,
}

/// The fields of a part to be created; the store assigns the id.
#[derive(Debug, Clone, PartialEq, Eq)]
pub struct NewPart {
    pub car_id: i32,
    pub name: String,
}

/// The name filter of a part listing.
#[derive(Debug, Clone, PartialEq, Eq)]
pub struct PartQuery {
    pub name: Option<String>,
}

/// One page of parts, with the number of parts that the filter selects.
#[derive(Debug, Clone, PartialEq, Eq)]
pub struct PartList {
    pub data: Vec<Part>,
    pub total: i64,
}

/// A stored user; `password_hash` is a self-describing digest, never the
/// plaintext.
#[derive(Debug, Clone, PartialEq, Eq)]
pub struct User {
    pub id: i32,
    pub username: String,
    pub password_hash: String,
}

/// A username with a plaintext password, as sent for registration or login.
#[derive(Debug, Clone, PartialEq, Eq)]
pub struct UserAuth {
    pub username: String,
    pub password: String,
}

/// The username filter of a user listing.
#[derive(Debug, Clone, PartialEq, Eq)]
pub struct UserQuery {
    pub username: Option<String>,
}

/// One page of users, with the number of users that the filter selects.
#[derive(Debug, Clone, PartialEq, Eq)]
pub struct UserList {
    pub data: Vec<User>,
    pub total: i64,
}

/// Paging of a listing: 1-based page number and page size, with the sort
/// column and direction that the listing is requested in.
#[derive(Debug, Clone, PartialEq, Eq)]
pub struct Pagination {
    pub page: Option<usize>,
    pub per_page: Option<usize>,
    pub field: Option<String>,
    pub order: Option<String>,
}

/// An explicit id filter of a listing; empty means no id filter.
#[derive(Debug, Clone, PartialEq, Eq)]
pub struct CommonQuery {
    pub ids: Vec<i32>,
}

pub const DEFAULT_PAGE: usize = 1;

pub const DEFAULT_PER_PAGE: usize = 1000;

pub fn default_page() -> (r: Option<usize>)
    ensures
        r == Some(DEFAULT_PAGE),
{
    Some(DEFAULT_PAGE)
}

pub fn default_per_page() -> (r: Option<usize>)
    ensures
        r == Some(DEFAULT_PER_PAGE),
{
    Some(DEFAULT_PER_PAGE)
}

pub fn default_field() -> (r: Option<String>)
    ensures
        r matches Some(f) && f@ == "id"@,
{
    Some(String::from_str("id"))
}

pub fn default_order() -> (r: Option<String>)
    ensures
        r matches Some(o) && o@ == "ASC"@,
{
    Some(String::from_str("ASC"))
}

pub fn default_ids() -> (r: Vec<i32>)
    ensures
        r@ == Seq::<i32>::empty(),
{
    Vec::new()
}

impl Row for Car {
    open spec fn key(&self) -> i32 {
        self.id
    }

    open spec fn label(&self) -> Seq<char> {
        self.name@
    }

    fn row_key(&self) -> (r: i32) {
        self.id
    }

    fn row_label(&self) -> (r: &str) {
        self.name.as_str()
    }

    fn duplicate(&self) -> (r: Self) {
        Car { id: self.id, name: self.name.clone(), color: copy_text(&self.color), year: self.year }
    }
}

impl Row for Part {
    open spec fn key(&self) -> i32 {
        self.id
    }

    open spec fn label(&self) -> Seq<char> {
        self.name@
    }

    fn row_key(&self) -> (r: i32) {
        self.id
    }

    fn row_label(&self) -> (r: &str) {
        self.name.as_str()
    }

    fn duplicate(&self) -> (r: Self) {
        Part { id: self.id, car_id: self.car_id, name: self.name.clone() }
    }
}

impl Row for User {
    open spec fn key(&self) -> i32 {
        self.id
    }

    open spec fn label(&self) -> Seq<char> {
        self.username@
    }

    fn row_key(&self) -> (r: i32) {
        self.id
    }

    fn row_label(&self) -> (r: &str) {
        self.username.as_str()
    }

    fn duplicate(&self) -> (r: Self) {
        User { id: self.id, username: self.username.clone(), password_hash: self.password_hash.clone() }
    }
}

} // verus!
