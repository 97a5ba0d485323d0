//! The stores of cars, parts and users.

use vstd::prelude::*;

use crate::error::ServiceError;
use crate::model::{
    copy_text, Car, CarList, CarQuery, CommonQuery, NewCar, NewPart, Pagination, Part, PartList,
    PartQuery, User, UserAuth, UserList, UserQuery,
};
use crate::table::{Row, Table};

verus! {

/// What a listing returns for a filter and a paging request: the selected
/// rows on the requested page with the number selected in all, or
/// `Validation` when the page number or page size is not positive.
pub open spec fn listing<T: Row>(
    rows: Seq<T>,
    name: Option<Seq<char>>,
    ids: Seq<i32>,
    p: Pagination,
) -> Result<(Seq<T>, int), ServiceError> {
    let page = crate::validation::page_of(p);
    let size = crate::validation::per_page_of(p);
    if page < 1 || size < 1 {
        Err(ServiceError::Validation)
    } else {
        let m = crate::table::matching(rows, name, ids);
        Ok((crate::table::window(m, (page - 1) * size, size), m.len() as int))
    }
}

/// `Ok` with the row found, or `NotFound`.
pub open spec fn found<T>(row: Option<T>) -> Result<T, ServiceError> {
    match row {
        Some(r) => Ok(r),
        None => Err(ServiceError::NotFound),
    }
}

/// A lookup counter after one more lookup (it stops at its maximum).
pub open spec fn bump(n: nat) -> nat {
    if n < u64::MAX {
        n + 1
    } else {
        n
    }
}

/// An in-memory store of rows keyed by id, which counts the single-row
/// lookups made on it.
pub struct Repository<T> {
    table: Table<T>,
    lookups: u64,
}

/// The store of cars.
pub type CarRepository = Repository<Car>;

/// The store of parts.
pub type PartRepository = Repository<Part>;

impl<T: Row> Repository<T> {
    pub closed spec fn wf(&self) -> bool {
        self.table.wf()
    }

    /// The stored rows, in insertion order.
    pub closed spec fn rows(&self) -> Seq<T> {
        self.table.rows()
    }

    /// The id that the next created row receives.
    pub closed spec fn next_id(&self) -> int {
        self.table.next_id()
    }

    /// How many times `find_by_id` has been called.
    pub closed spec fn lookups(&self) -> nat {
        self.lookups as nat
    }

    pub fn new() -> (r: Self)
        ensures
            r.wf(),
            r.rows() == Seq::<T>::empty(),
            r.next_id() == 1,
            r.lookups() == 0,
    {
        Repository { table: Table::new(), lookups: 0 }
    }

    pub fn lookup_count(&self) -> (r: u64)
        ensures
            r == self.lookups(),
    {
        self.lookups
    }

    /// The row with id `id`, or `NotFound`.
    pub fn find_by_id(&mut self, id: i32) -> (r: Result<T, ServiceError>)
        requires
            old(self).wf(),
        ensures
            final(self).wf(),
            final(self).rows() == old(self).rows() && final(self).next_id() == old(self).next_id(),
            final(self).lookups() == bump(old(self).lookups()),
            r == found(crate::table::lookup(old(self).rows(), id)),
    {
        if self.lookups < u64::MAX {
            self.lookups = self.lookups + 1;
        }
        self.table.find(id)
    }

    /// Replaces the whole row that has the id of `row`; `NotFound` when there is
    /// none.
    pub fn update(&mut self, row: &T) -> (r: Result<T, ServiceError>)
        requires
            old(self).wf(),
        ensures
            final(self).wf(),
            final(self).lookups() == old(self).lookups(),
            final(self).next_id() == old(self).next_id(),
            final(self).rows().len() == old(self).rows().len(),
            crate::table::has_key(old(self).rows(), row.key()) ==> r == Ok::<T, ServiceError>(*row)
                && crate::table::lookup(final(self).rows(), row.key()) == Some(*row),
            !crate::table::has_key(old(self).rows(), row.key()) ==> r == Err::<T, ServiceError>(
                ServiceError::NotFound,
            ) && final(self).rows() == old(self).rows(),
            forall|id: i32|
                id != row.key() ==> #[trigger] crate::table::lookup(final(self).rows(), id)
                    == crate::table::lookup(old(self).rows(), id),
    {
        self.table.replace(row.duplicate())
    }

    /// Removes the row with id `id` and returns the number of rows removed.
    pub fn delete(&mut self, id: i32) -> (r: u64)
        requires
            old(self).wf(),
        ensures
            final(self).wf(),
            final(self).lookups() == old(self).lookups(),
            final(self).next_id() == old(self).next_id(),
            r == (if crate::table::has_key(old(self).rows(), id) {
                1u64
            } else {
                0u64
            }),
            !crate::table::has_key(final(self).rows(), id),
            forall|other: i32|
                other != id ==> #[trigger] crate::table::lookup(final(self).rows(), other)
                    == crate::table::lookup(old(self).rows(), other),
    {
        self.table.remove(id)
    }

    /// One page of the rows that a filter selects, with the number selected.
    pub fn select(&self, name: &Option<String>, ids: &Vec<i32>, pagination: &Pagination) -> (r:
        Result<(Vec<T>, i64), ServiceError>)
        requires
            self.wf(),
        ensures
            match r {
                Ok((data, total)) => listing(
                    self.rows(),
                    crate::table::text_opt(*name),
                    ids@,
                    *pagination,
                ) == Ok::<(Seq<T>, int), ServiceError>((data@, total as int)),
                Err(e) => listing(self.rows(), crate::table::text_opt(*name), ids@, *pagination)
                    == Err::<(Seq<T>, int), ServiceError>(e),
            },
    {
        let (index, size) = pagination.window()?;
        let (data, count) = self.table.find_all(name, ids, index, size);
        Ok((data, count as i64))
    }
}

/// The car that `create` stores for `new_car` under id `id`.
pub open spec fn car_from(new_car: NewCar, id: i32) -> Car {
    Car { id, name: new_car.name, color: new_car.color, year: new_car.year }
}

/// The part that `create` stores for `new_part` under id `id`.
pub open spec fn part_from(new_part: NewPart, id: i32) -> Part {
    Part { id, car_id: Some(new_part.car_id), name: new_part.name }
}

impl Repository<Car> {
    /// Stores a new car under the next id; `Storage` once ids are exhausted.
    pub fn create(&mut self, new_car: &NewCar) -> (r: Result<Car, ServiceError>)
        requires
            old(self).wf(),
        ensures
            final(self).wf(),
            final(self).lookups() == old(self).lookups(),
            old(self).next_id() < i32::MAX ==> {
                let car = car_from(*new_car, old(self).next_id() as i32);
                &&& r == Ok::<Car, ServiceError>(car)
                &&& final(self).rows() == old(self).rows().push(car)
                &&& !crate::table::has_key(old(self).rows(), car.id)
                &&& crate::table::lookup(final(self).rows(), car.id) == Some(car)
                &&& forall|id: i32|
                    id != car.id ==> #[trigger] crate::table::lookup(final(self).rows(), id)
                        == crate::table::lookup(old(self).rows(), id)
            },
            old(self).next_id() >= i32::MAX ==> r == Err::<Car, ServiceError>(
                ServiceError::Storage,
            ) && final(self).rows() == old(self).rows() && final(self).next_id() == old(self).next_id(),
    {
        match self.table.fresh_key() {
            Some(id) => {
                let car = Car {
                    id,
                    name: new_car.name.clone(),
                    color: copy_text(&new_car.color),
                    year: new_car.year,
                };
                let stored = car.duplicate();
                self.table.push(stored);
                Ok(car)
            },
            None => Err(ServiceError::Storage),
        }
    }

    /// One page of the cars that the filters select, with the number selected.
    pub fn find_all(&self, conditions: &CarQuery, query: &CommonQuery, pagination: &Pagination) -> (r:
        Result<CarList, ServiceError>)
        requires
            self.wf(),
        ensures
            match r {
                Ok(list) => listing(
                    self.rows(),
                    crate::table::text_opt(conditions.name),
                    query.ids@,
                    *pagination,
                ) == Ok::<(Seq<Car>, int), ServiceError>((list.data@, list.total as int)),
                Err(e) => listing(
                    self.rows(),
                    crate::table::text_opt(conditions.name),
                    query.ids@,
                    *pagination,
                ) == Err::<(Seq<Car>, int), ServiceError>(e),
            },
    {
        let (data, total) = self.select(&conditions.name, &query.ids, pagination)?;
        Ok(CarList { data, total })
    }
}

impl Repository<Part> {
    /// Stores a new part under the next id; `Storage` once ids are exhausted.
    pub fn create(&mut self, new_part: &NewPart) -> (r: Result<Part, ServiceError>)
        requires
            old(self).wf(),
        ensures
            final(self).wf(),
            final(self).lookups() == old(self).lookups(),
            old(self).next_id() < i32::MAX ==> {
                let part = part_from(*new_part, old(self).next_id() as i32);
                &&& r == Ok::<Part, ServiceError>(part)
                &&& final(self).rows() == old(self).rows().push(part)
                &&& !crate::table::has_key(old(self).rows(), part.id)
                &&& crate::table::lookup(final(self).rows(), part.id) == Some(part)
                &&& forall|id: i32|
                    id != part.id ==> #[trigger] crate::table::lookup(final(self).rows(), id)
                        == crate::table::lookup(old(self).rows(), id)
            },
            old(self).next_id() >= i32::MAX ==> r == Err::<Part, ServiceError>(
                ServiceError::Storage,
            ) && final(self).rows() == old(self).rows() && final(self).next_id() == old(self).next_id(),
    {
        match self.table.fresh_key() {
            Some(id) => {
                let part = Part { id, car_id: Some(new_part.car_id), name: new_part.name.clone() };
                let stored = part.duplicate();
                self.table.push(stored);
                Ok(part)
            },
            None => Err(ServiceError::Storage),
        }
    }

    /// One page of the parts that the filters select, with the number selected.
    pub fn find_all(&self, conditions: &PartQuery, query: &CommonQuery, pagination: &Pagination) -> (r:
        Result<PartList, ServiceError>)
        requires
            self.wf(),
        ensures
            match r {
                Ok(list) => listing(
                    self.rows(),
                    crate::table::text_opt(conditions.name),
                    query.ids@,
                    *pagination,
                ) == Ok::<(Seq<Part>, int), ServiceError>((list.data@, list.total as int)),
                Err(e) => listing(
                    self.rows(),
                    crate::table::text_opt(conditions.name),
                    query.ids@,
                    *pagination,
                ) == Err::<(Seq<Part>, int), ServiceError>(e),
            },
    {
        let (data, total) = self.select(&conditions.name, &query.ids, pagination)?;
        Ok(PartList { data, total })
    }
}

/// Some user has the username `name`.
pub open spec fn has_user(rows: Seq<User>, name: Seq<char>) -> bool {
    exists|i: int| 0 <= i < rows.len() && #[trigger] rows[i].label() == name
}

/// The user with username `name`, if any.
pub open spec fn user_named(rows: Seq<User>, name: Seq<char>) -> Option<User> {
    if has_user(rows, name) {
        Some(rows[choose|i: int| 0 <= i < rows.len() && #[trigger] rows[i].label() == name])
    } else {
        None
    }
}

/// No two users share a username.
pub open spec fn unique_usernames(rows: Seq<User>) -> bool {
    forall|i: int, j: int|
        0 <= i < rows.len() && 0 <= j < rows.len() && i != j ==> #[trigger] rows[i].label()
            != #[trigger] rows[j].label()
}

proof fn lemma_user_at(rows: Seq<User>, j: int)
    requires
        unique_usernames(rows),
        0 <= j < rows.len(),
    ensures
        user_named(rows, rows[j].label()) == Some(rows[j]),
{
    let name = rows[j].label();
    assert(has_user(rows, name));
    let c = choose|i: int| 0 <= i < rows.len() && #[trigger] rows[i].label() == name;
    assert(c == j);
}

proof fn lemma_users_push(rows: Seq<User>, u: User)
    requires
        unique_usernames(rows),
        !has_user(rows, u.label()),
    ensures
        unique_usernames(rows.push(u)),
        user_named(rows.push(u), u.label()) == Some(u),
{
    let s = rows.push(u);
    assert forall|a: int, b: int|
        0 <= a < s.len() && 0 <= b < s.len() && a != b implies #[trigger] s[a].label()
        != #[trigger] s[b].label() by {
        if a < rows.len() {
            assert(s[a] == rows[a]);
        }
        if b < rows.len() {
            assert(s[b] == rows[b]);
        }
    }
    lemma_user_at(s, rows.len() as int);
}

proof fn lemma_users_update(rows: Seq<User>, i: int, u: User)
    requires
        unique_usernames(rows),
        0 <= i < rows.len(),
        u.label() == rows[i].label(),
    ensures
        unique_usernames(rows.update(i, u)),
        user_named(rows.update(i, u), u.label()) == Some(u),
{
    let s = rows.update(i, u);
    assert forall|a: int, b: int|
        0 <= a < s.len() && 0 <= b < s.len() && a != b implies #[trigger] s[a].label()
        != #[trigger] s[b].label() by {
        assert(s[a].label() == rows[a].label());
        assert(s[b].label() == rows[b].label());
    }
    lemma_user_at(s, i);
}

proof fn lemma_users_remove(rows: Seq<User>, i: int)
    requires
        unique_usernames(rows),
        0 <= i < rows.len(),
    ensures
        unique_usernames(rows.remove(i)),
        !has_user(rows.remove(i), rows[i].label()),
{
    let s = rows.remove(i);
    assert forall|a: int, b: int|
        0 <= a < s.len() && 0 <= b < s.len() && a != b implies #[trigger] s[a].label()
        != #[trigger] s[b].label() by {
        let a0 = if a < i { a } else { a + 1 };
        let b0 = if b < i { b } else { b + 1 };
        assert(s[a] == rows[a0] && s[b] == rows[b0]);
    }
    assert forall|k: int| 0 <= k < s.len() implies #[trigger] s[k].label() != rows[i].label() by {
        let k0 = if k < i { k } else { k + 1 };
        assert(s[k] == rows[k0]);
    }
}

/// An in-memory store of users with unique usernames.
pub struct UserRepository {
    table: Table<User>,
}

impl UserRepository {
    pub closed spec fn wf(&self) -> bool {
        self.table.wf() && unique_usernames(self.table.rows())
    }

    /// The stored users, in insertion order.
    pub closed spec fn rows(&self) -> Seq<User> {
        self.table.rows()
    }

    /// The id that the next created user receives.
    pub closed spec fn next_id(&self) -> int {
        self.table.next_id()
    }

    pub fn new() -> (r: Self)
        ensures
            r.wf(),
            r.rows() == Seq::<User>::empty(),
            r.next_id() == 1,
    {
        UserRepository { table: Table::new() }
    }

    /// The user with the given username, or `NotFound`.
    pub fn find_by_username(&self, username: &str) -> (r: Result<User, ServiceError>)
        requires
            self.wf(),
        ensures
            r == found(user_named(self.rows(), username@)),
    {
        match self.table.label_position(username) {
            Some(i) => {
                proof {
                    lemma_user_at(self.rows(), i as int);
                }
                Ok(self.table.row_at(i))
            },
            None => Err(ServiceError::NotFound),
        }
    }

    /// Registers a user, storing a fresh digest of the password, never the
    /// password itself. `Conflict` when the username is taken; `Storage` once
    /// ids are exhausted; `Hashing` when no digest could be made.
    pub fn create(&mut self, user_data: &UserAuth) -> (r: Result<User, ServiceError>)
        requires
            old(self).wf(),
        ensures
            final(self).wf(),
            has_user(old(self).rows(), user_data.username@) ==> r == Err::<User, ServiceError>(
                ServiceError::Conflict,
            ),
            !has_user(old(self).rows(), user_data.username@) && old(self).next_id() >= i32::MAX
                ==> r == Err::<User, ServiceError>(ServiceError::Storage),
            !has_user(old(self).rows(), user_data.username@) && old(self).next_id() < i32::MAX
                ==> r is Ok || r == Err::<User, ServiceError>(ServiceError::Hashing),
            r is Err ==> final(self).rows() == old(self).rows() && final(self).next_id() == old(
                self,
            ).next_id(),
            r matches Ok(u) ==> {
                &&& u.id == old(self).next_id()
                &&& u.username == user_data.username
                &&& crate::password::verify_outcome(user_data.password@, u.password_hash@) == Ok::<
                    bool,
                    ServiceError,
                >(true)
                &&& final(self).rows() == old(self).rows().push(u)
                &&& user_named(final(self).rows(), user_data.username@) == Some(u)
            },
    {
        let name = user_data.username.as_str();
        if self.table.label_position(name).is_some() {
            return Err(ServiceError::Conflict);
        }
        let id = match self.table.fresh_key() {
            Some(id) => id,
            None => return Err(ServiceError::Storage),
        };
        let digest = crate::password::hash(user_data.password.as_str())?;
        let user = User { id, username: user_data.username.clone(), password_hash: digest };
        proof {
            lemma_users_push(self.rows(), user);
        }
        self.table.push(user.duplicate());
        Ok(user)
    }

    /// Replaces the password of an existing user by a fresh digest of the new
    /// one; `NotFound` when no user has the username.
    pub fn update(&mut self, user_data: &UserAuth) -> (r: Result<User, ServiceError>)
        requires
            old(self).wf(),
        ensures
            final(self).wf(),
            final(self).next_id() == old(self).next_id(),
            !has_user(old(self).rows(), user_data.username@) ==> r == Err::<User, ServiceError>(
                ServiceError::NotFound,
            ),
            has_user(old(self).rows(), user_data.username@) ==> r is Ok || r == Err::<
                User,
                ServiceError,
            >(ServiceError::Hashing),
            r is Err ==> final(self).rows() == old(self).rows(),
            r matches Ok(u) ==> {
                &&& user_named(old(self).rows(), user_data.username@) matches Some(prev) && u.id
                    == prev.id
                &&& u.username == user_data.username
                &&& crate::password::verify_outcome(user_data.password@, u.password_hash@) == Ok::<
                    bool,
                    ServiceError,
                >(true)
                &&& final(self).rows().len() == old(self).rows().len()
                &&& user_named(final(self).rows(), user_data.username@) == Some(u)
            },
    {
        match self.table.label_position(user_data.username.as_str()) {
            Some(i) => {
                proof {
                    lemma_user_at(self.rows(), i as int);
                }
                let prev = self.table.row_at(i);
                let digest = crate::password::hash(user_data.password.as_str())?;
                let user = User {
                    id: prev.id,
                    username: user_data.username.clone(),
                    password_hash: digest,
                };
                proof {
                    lemma_users_update(self.rows(), i as int, user);
                }
                self.table.set_at(i, user.duplicate());
                Ok(user)
            },
            None => Err(ServiceError::NotFound),
        }
    }

    /// Removes the user with the given username and returns how many went.
    pub fn delete(&mut self, username: &str) -> (r: u64)
        requires
            old(self).wf(),
        ensures
            final(self).wf(),
            final(self).next_id() == old(self).next_id(),
            r == (if has_user(old(self).rows(), username@) {
                1u64
            } else {
                0u64
            }),
            !has_user(final(self).rows(), username@),
    {
        match self.table.label_position(username) {
            Some(i) => {
                proof {
                    lemma_users_remove(self.rows(), i as int);
                }
                self.table.remove_at(i);
                1
            },
            None => 0,
        }
    }

    /// One page of the users that the filters select, with the number selected.
    pub fn find_all(&self, conditions: &UserQuery, query: &CommonQuery, pagination: &Pagination) -> (r:
        Result<UserList, ServiceError>)
        requires
            self.wf(),
        ensures
            match r {
                Ok(list) => listing(
                    self.rows(),
                    crate::table::text_opt(conditions.username),
                    query.ids@,
                    *pagination,
                ) == Ok::<(Seq<User>, int), ServiceError>((list.data@, list.total as int)),
                Err(e) => listing(
                    self.rows(),
                    crate::table::text_opt(conditions.username),
                    query.ids@,
                    *pagination,
                ) == Err::<(Seq<User>, int), ServiceError>(e),
            },
    {
        let (index, size) = pagination.window()?;
        let (data, count) = self.table.find_all(&conditions.username, &query.ids, index, size);
        Ok(UserList { data, total: count as i64 })
    }
}

} // verus!
