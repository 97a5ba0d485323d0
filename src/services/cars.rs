//! Car operations: listing, read-through view, create, update, delete.

use vstd::prelude::*;

use crate::cache::{coherent, key_for, CacheImpl};
use crate::error::ServiceError;
use crate::model::{Car, CarList, CarQuery, CommonQuery, NewCar, Pagination};
use crate::repositories::{car_from, found, listing, CarRepository};
use crate::table::{has_key, lookup};
use crate::validation::{checked, valid_name};

verus! {

/// One page of the cars that the filters select, with the number selected.
pub fn search(repo: &CarRepository, conditions: &CarQuery, query: &CommonQuery, pagination: &Pagination) -> (r:
    Result<CarList, ServiceError>)
    requires
        repo.wf(),
    ensures
        match r {
            Ok(list) => listing(
                repo.rows(),
                crate::table::text_opt(conditions.name),
                query.ids@,
                *pagination,
            ) == Ok::<(Seq<Car>, int), ServiceError>((list.data@, list.total as int)),
            Err(e) => listing(
                repo.rows(),
                crate::table::text_opt(conditions.name),
                query.ids@,
                *pagination,
            ) == Err::<(Seq<Car>, int), ServiceError>(e),
        },
{
    repo.find_all(conditions, query, pagination)
}

/// The car with id `car_id`, read through the cache under `"car:{car_id}"`
/// at time `now` (seconds).
pub fn view(repo: &mut CarRepository, cache: &mut CacheImpl<Car>, car_id: i32, now: u64) -> (r:
    Result<Car, ServiceError>)
    requires
        old(repo).wf(),
        old(cache).wf(),
        coherent(old(cache).entries(), old(repo).rows(), "car"@),
    ensures
        final(repo).wf(),
        final(cache).wf(),
        coherent(final(cache).entries(), final(repo).rows(), "car"@),
        final(repo).rows() == old(repo).rows(),
        final(repo).next_id() == old(repo).next_id(),
        r == crate::services::read_result(
            old(cache).entries(),
            old(repo).rows(),
            "car"@,
            car_id,
            now,
        ),
        r == found(lookup(old(repo).rows(), car_id)),
        final(cache).entries() == crate::services::entries_after_read(
            old(cache).entries(),
            old(repo).rows(),
            "car"@,
            car_id,
            now,
        ),
        final(repo).lookups() == crate::services::lookups_after_read(
            old(cache).entries(),
            "car"@,
            car_id,
            now,
            old(repo).lookups(),
        ),
{
    crate::services::read_through(repo, cache, "car", car_id, now)
}

/// Validates and stores a new car. The cache needs no change: no entry can
/// exist for an id that was never handed out.
pub fn create(repo: &mut CarRepository, new_car: &NewCar) -> (r: Result<Car, ServiceError>)
    requires
        old(repo).wf(),
    ensures
        final(repo).wf(),
        final(repo).lookups() == old(repo).lookups(),
        !valid_name(new_car.name@) ==> r == Err::<Car, ServiceError>(ServiceError::Validation)
            && final(repo).rows() == old(repo).rows() && final(repo).next_id() == old(
            repo,
        ).next_id(),
        valid_name(new_car.name@) && old(repo).next_id() < i32::MAX ==> {
            let car = car_from(*new_car, old(repo).next_id() as i32);
            &&& r == Ok::<Car, ServiceError>(car)
            &&& final(repo).rows() == old(repo).rows().push(car)
            &&& !has_key(old(repo).rows(), car.id)
            &&& lookup(final(repo).rows(), car.id) == Some(car)
            &&& forall|id: i32|
                id != car.id ==> #[trigger] lookup(final(repo).rows(), id) == lookup(
                    old(repo).rows(),
                    id,
                )
        },
        valid_name(new_car.name@) && old(repo).next_id() >= i32::MAX ==> r == Err::<
            Car,
            ServiceError,
        >(ServiceError::Storage) && final(repo).rows() == old(repo).rows(),
{
    new_car.validate()?;
    repo.create(new_car)
}

/// Validates a car, invalidates its cache entry, then replaces the stored
/// car; `NotFound` when no car has its id.
pub fn update(repo: &mut CarRepository, cache: &mut CacheImpl<Car>, car: &Car) -> (r: Result<
    Car,
    ServiceError,
>)
    requires
        old(repo).wf(),
        old(cache).wf(),
        coherent(old(cache).entries(), old(repo).rows(), "car"@),
    ensures
        final(repo).wf(),
        final(cache).wf(),
        coherent(final(cache).entries(), final(repo).rows(), "car"@),
        final(repo).lookups() == old(repo).lookups(),
        final(repo).next_id() == old(repo).next_id(),
        !valid_name(car.name@) ==> r == Err::<Car, ServiceError>(ServiceError::Validation)
            && final(repo).rows() == old(repo).rows() && final(cache).entries() == old(
            cache,
        ).entries(),
        valid_name(car.name@) ==> final(cache).entries() == old(cache).entries().remove(
            key_for("car"@, car.id),
        ),
        valid_name(car.name@) && has_key(old(repo).rows(), car.id) ==> r == Ok::<
            Car,
            ServiceError,
        >(*car) && lookup(final(repo).rows(), car.id) == Some(*car),
        valid_name(car.name@) && !has_key(old(repo).rows(), car.id) ==> r == Err::<
            Car,
            ServiceError,
        >(ServiceError::NotFound) && final(repo).rows() == old(repo).rows(),
        forall|other: i32|
            other != car.id ==> #[trigger] lookup(final(repo).rows(), other) == lookup(
                old(repo).rows(),
                other,
            ),
{
    let checked_car = car.validate();
    if checked_car.is_err() {
        assert(checked(valid_name(car.name@)) is Err);
        return Err(ServiceError::Validation);
    }
    crate::services::invalidate_and_update(repo, cache, "car", car)
}

/// Invalidates the cache entry of `car_id`, then deletes the car. Deleting an
/// id that has no car is `NotFound`, also when it is repeated.
pub fn delete(repo: &mut CarRepository, cache: &mut CacheImpl<Car>, car_id: i32) -> (r: Result<
    u64,
    ServiceError,
>)
    requires
        old(repo).wf(),
        old(cache).wf(),
        coherent(old(cache).entries(), old(repo).rows(), "car"@),
    ensures
        final(repo).wf(),
        final(cache).wf(),
        coherent(final(cache).entries(), final(repo).rows(), "car"@),
        final(cache).entries() == old(cache).entries().remove(key_for("car"@, car_id)),
        final(repo).lookups() == old(repo).lookups(),
        final(repo).next_id() == old(repo).next_id(),
        r == crate::services::delete_outcome(old(repo).rows(), car_id),
        !has_key(final(repo).rows(), car_id),
        forall|other: i32|
            other != car_id ==> #[trigger] lookup(final(repo).rows(), other) == lookup(
                old(repo).rows(),
                other,
            ),
{
    crate::services::invalidate_and_delete(repo, cache, "car", car_id)
}

} // verus!
