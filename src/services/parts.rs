//! Part operations: listing, read-through view, create, update, delete.

use vstd::prelude::*;

use crate::cache::{coherent, key_for, CacheImpl};
use crate::error::ServiceError;
use crate::model::{Part, PartList, PartQuery, CommonQuery, NewPart, Pagination};
use crate::repositories::{part_from, found, listing, PartRepository};
use crate::table::{has_key, lookup};
use crate::validation::{checked, valid_name};

verus! {

/// One page of the parts that the filters select, with the number selected.
pub fn find_all(repo: &PartRepository, conditions: &PartQuery, query: &CommonQuery, pagination: &Pagination) -> (r:
    Result<PartList, ServiceError>)
    requires
        repo.wf(),
    ensures
        match r {
            Ok(list) => listing(
                repo.rows(),
                crate::table::text_opt(conditions.name),
                query.ids@,
                *pagination,
            ) == Ok::<(Seq<Part>, int), ServiceError>((list.data@, list.total as int)),
            Err(e) => listing(
                repo.rows(),
                crate::table::text_opt(conditions.name),
                query.ids@,
                *pagination,
            ) == Err::<(Seq<Part>, int), ServiceError>(e),
        },
{
    repo.find_all(conditions, query, pagination)
}

/// The part with id `part_id`, read through the cache under `"part:{part_id}"`
/// at time `now` (seconds).
pub fn view(repo: &mut PartRepository, cache: &mut CacheImpl<Part>, part_id: i32, now: u64) -> (r:
    Result<Part, ServiceError>)
    requires
        old(repo).wf(),
        old(cache).wf(),
        coherent(old(cache).entries(), old(repo).rows(), "part"@),
    ensures
        final(repo).wf(),
        final(cache).wf(),
        coherent(final(cache).entries(), final(repo).rows(), "part"@),
        final(repo).rows() == old(repo).rows(),
        final(repo).next_id() == old(repo).next_id(),
        r == crate::services::read_result(
            old(cache).entries(),
            old(repo).rows(),
            "part"@,
            part_id,
            now,
        ),
        r == found(lookup(old(repo).rows(), part_id)),
        final(cache).entries() == crate::services::entries_after_read(
            old(cache).entries(),
            old(repo).rows(),
            "part"@,
            part_id,
            now,
        ),
        final(repo).lookups() == crate::services::lookups_after_read(
            old(cache).entries(),
            "part"@,
            part_id,
            now,
            old(repo).lookups(),
        ),
{
    crate::services::read_through(repo, cache, "part", part_id, now)
}

/// Validates and stores a new part. The cache needs no change: no entry can
/// exist for an id that was never handed out.
pub fn create(repo: &mut PartRepository, new_part: &NewPart) -> (r: Result<Part, ServiceError>)
    requires
        old(repo).wf(),
    ensures
        final(repo).wf(),
        final(repo).lookups() == old(repo).lookups(),
        !valid_name(new_part.name@) ==> r == Err::<Part, ServiceError>(ServiceError::Validation)
            && final(repo).rows() == old(repo).rows() && final(repo).next_id() == old(
            repo,
        ).next_id(),
        valid_name(new_part.name@) && old(repo).next_id() < i32::MAX ==> {
            let part = part_from(*new_part, old(repo).next_id() as i32);
            &&& r == Ok::<Part, ServiceError>(part)
            &&& final(repo).rows() == old(repo).rows().push(part)
            &&& !has_key(old(repo).rows(), part.id)
            &&& lookup(final(repo).rows(), part.id) == Some(part)
            &&& forall|id: i32|
                id != part.id ==> #[trigger] lookup(final(repo).rows(), id) == lookup(
                    old(repo).rows(),
                    id,
                )
        },
        valid_name(new_part.name@) && old(repo).next_id() >= i32::MAX ==> r == Err::<
            Part,
            ServiceError,
        >(ServiceError::Storage) && final(repo).rows() == old(repo).rows(),
{
    new_part.validate()?;
    repo.create(new_part)
}

/// Validates a part, invalidates its cache entry, then replaces the stored
/// part; `NotFound` when no part has its id.
pub fn update(repo: &mut PartRepository, cache: &mut CacheImpl<Part>, part: &Part) -> (r: Result<
    Part,
    ServiceError,
>)
    requires
        old(repo).wf(),
        old(cache).wf(),
        coherent(old(cache).entries(), old(repo).rows(), "part"@),
    ensures
        final(repo).wf(),
        final(cache).wf(),
        coherent(final(cache).entries(), final(repo).rows(), "part"@),
        final(repo).lookups() == old(repo).lookups(),
        final(repo).next_id() == old(repo).next_id(),
        !valid_name(part.name@) ==> r == Err::<Part, ServiceError>(ServiceError::Validation)
            && final(repo).rows() == old(repo).rows() && final(cache).entries() == old(
            cache,
        ).entries(),
        valid_name(part.name@) ==> final(cache).entries() == old(cache).entries().remove(
            key_for("part"@, part.id),
        ),
        valid_name(part.name@) && has_key(old(repo).rows(), part.id) ==> r == Ok::<
            Part,
            ServiceError,
        >(*part) && lookup(final(repo).rows(), part.id) == Some(*part),
        valid_name(part.name@) && !has_key(old(repo).rows(), part.id) ==> r == Err::<
            Part,
            ServiceError,
        >(ServiceError::NotFound) && final(repo).rows() == old(repo).rows(),
        forall|other: i32|
            other != part.id ==> #[trigger] lookup(final(repo).rows(), other) == lookup(
                old(repo).rows(),
                other,
            ),
{
    let checked_part = part.validate();
    if checked_part.is_err() {
        assert(checked(valid_name(part.name@)) is Err);
        return Err(ServiceError::Validation);
    }
    crate::services::invalidate_and_update(repo, cache, "part", part)
}

/// Invalidates the cache entry of `part_id`, then deletes the part. Deleting an
/// id that has no part is `NotFound`, also when it is repeated.
pub fn delete(repo: &mut PartRepository, cache: &mut CacheImpl<Part>, part_id: i32) -> (r: Result<
    u64,
    ServiceError,
>)
    requires
        old(repo).wf(),
        old(cache).wf(),
        coherent(old(cache).entries(), old(repo).rows(), "part"@),
    ensures
        final(repo).wf(),
        final(cache).wf(),
        coherent(final(cache).entries(), final(repo).rows(), "part"@),
        final(cache).entries() == old(cache).entries().remove(key_for("part"@, part_id)),
        final(repo).lookups() == old(repo).lookups(),
        final(repo).next_id() == old(repo).next_id(),
        r == crate::services::delete_outcome(old(repo).rows(), part_id),
        !has_key(final(repo).rows(), part_id),
        forall|other: i32|
            other != part_id ==> #[trigger] lookup(final(repo).rows(), other) == lookup(
                old(repo).rows(),
                other,
            ),
{
    crate::services::invalidate_and_delete(repo, cache, "part", part_id)
}

} // verus!
