//! Orchestration of the store operations: input validation, the read-through
//! cache for single-row reads, and cache invalidation on every write.

use vstd::prelude::*;

use crate::cache::{coherent, expiry, key_for, live, CacheImpl};
use crate::error::ServiceError;
use crate::repositories::{bump, found, Repository};
use crate::table::{has_key, lookup, Row};

pub mod cars;
pub mod parts;
pub mod users;

verus! {

/// What a delete reports for the number of rows it removed: none is
/// `NotFound`, more than one is an `InvariantViolation`.
pub open spec fn deletion(affected: u64) -> Result<u64, ServiceError> {
    if affected == 0 {
        Err(ServiceError::NotFound)
    } else if affected > 1 {
        Err(ServiceError::InvariantViolation)
    } else {
        Ok(affected)
    }
}

/// What deleting id `id` answers over the stored rows.
pub open spec fn delete_outcome<T: Row>(rows: Seq<T>, id: i32) -> Result<u64, ServiceError> {
    if has_key(rows, id) {
        Ok(1)
    } else {
        Err(ServiceError::NotFound)
    }
}

/// Maps the number of rows that an id-scoped delete removed to its outcome.
pub fn check_affected(affected: u64) -> (r: Result<u64, ServiceError>)
    ensures
        r == deletion(affected),
{
    if affected == 0 {
        Err(ServiceError::NotFound)
    } else if affected > 1 {
        Err(ServiceError::InvariantViolation)
    } else {
        Ok(affected)
    }
}

/// A read of id `id` at time `now` is answered by the cache: the entry under
/// `"{prefix}:{id}"` is live.
pub open spec fn cached_read<T>(entries: Map<Seq<char>, (T, u64)>, prefix: Seq<char>, id: i32, now: u64) -> bool {
    live(entries, key_for(prefix, id), now) is Some
}

/// What a read-through read answers: the live cached value, or else what the
/// store holds.
pub open spec fn read_result<T: Row>(
    entries: Map<Seq<char>, (T, u64)>,
    rows: Seq<T>,
    prefix: Seq<char>,
    id: i32,
    now: u64,
) -> Result<T, ServiceError> {
    match live(entries, key_for(prefix, id), now) {
        Some(v) => Ok(v),
        None => found(lookup(rows, id)),
    }
}

/// The cache after a read-through read: unchanged on a hit or when the store
/// has no such row; otherwise the row found, cached for `CACHE_TTL` seconds.
pub open spec fn entries_after_read<T: Row>(
    entries: Map<Seq<char>, (T, u64)>,
    rows: Seq<T>,
    prefix: Seq<char>,
    id: i32,
    now: u64,
) -> Map<Seq<char>, (T, u64)> {
    if cached_read(entries, prefix, id, now) {
        entries
    } else {
        match lookup(rows, id) {
            Some(row) => entries.insert(key_for(prefix, id), (row, expiry(now))),
            None => entries,
        }
    }
}

/// The store's lookup counter after a read-through read: one more on a miss.
pub open spec fn lookups_after_read<T>(
    entries: Map<Seq<char>, (T, u64)>,
    prefix: Seq<char>,
    id: i32,
    now: u64,
    lookups: nat,
) -> nat {
    if cached_read(entries, prefix, id, now) {
        lookups
    } else {
        bump(lookups)
    }
}

/// Over a coherent cache, a read-through read answers what the store holds,
/// and leaves the cache coherent.
pub proof fn lemma_coherent_read<T: Row>(
    entries: Map<Seq<char>, (T, u64)>,
    rows: Seq<T>,
    prefix: Seq<char>,
    id: i32,
    now: u64,
)
    requires
        coherent(entries, rows, prefix),
    ensures
        read_result(entries, rows, prefix, id, now) == found(lookup(rows, id)),
        coherent(entries_after_read(entries, rows, prefix, id, now), rows, prefix),
{
    if live(entries, key_for(prefix, id), now) is Some {
        assert(entries.contains_key(key_for(prefix, id)));
    } else if lookup(rows, id) is Some {
        let after = entries_after_read(entries, rows, prefix, id, now);
        assert forall|other: i32| #[trigger] after.contains_key(key_for(prefix, other)) implies lookup(
            rows,
            other,
        ) == Some(after[key_for(prefix, other)].0) by {
            if key_for(prefix, other) == key_for(prefix, id) {
                crate::cache::lemma_key_for_injective(prefix, other, id);
            } else {
                assert(entries.contains_key(key_for(prefix, other)));
            }
        }
    }
}

/// Reads the row with id `id` through the cache: a live entry under
/// `"{prefix}:{id}"` answers without consulting the store; otherwise the store
/// answers and a found row is cached for `CACHE_TTL` seconds. When cache and
/// store are coherent the answer is always the stored row.
pub fn read_through<T: Row>(
    repo: &mut Repository<T>,
    cache: &mut CacheImpl<T>,
    prefix: &str,
    id: i32,
    now: u64,
) -> (r: Result<T, ServiceError>)
    requires
        old(repo).wf(),
        old(cache).wf(),
        coherent(old(cache).entries(), old(repo).rows(), prefix@),
    ensures
        final(repo).wf(),
        final(cache).wf(),
        coherent(final(cache).entries(), final(repo).rows(), prefix@),
        final(repo).rows() == old(repo).rows(),
        final(repo).next_id() == old(repo).next_id(),
        r == read_result(old(cache).entries(), old(repo).rows(), prefix@, id, now),
        r == found(lookup(old(repo).rows(), id)),
        final(cache).entries() == entries_after_read(
            old(cache).entries(),
            old(repo).rows(),
            prefix@,
            id,
            now,
        ),
        final(repo).lookups() == lookups_after_read(
            old(cache).entries(),
            prefix@,
            id,
            now,
            old(repo).lookups(),
        ),
{
    proof {
        lemma_coherent_read(cache.entries(), repo.rows(), prefix@, id, now);
    }
    let key = crate::cache::cache_key(prefix, id);
    match cache.get(key.as_str(), now) {
        Some(row) => Ok(row),
        None => {
            let row = repo.find_by_id(id)?;
            cache.set(key.as_str(), row.duplicate(), now);
            Ok(row)
        },
    }
}

/// Invalidates the cache entry of `row`'s id, then replaces the stored row;
/// `NotFound` when no row has that id.
pub fn invalidate_and_update<T: Row>(
    repo: &mut Repository<T>,
    cache: &mut CacheImpl<T>,
    prefix: &str,
    row: &T,
) -> (r: Result<T, ServiceError>)
    requires
        old(repo).wf(),
        old(cache).wf(),
        coherent(old(cache).entries(), old(repo).rows(), prefix@),
    ensures
        final(repo).wf(),
        final(cache).wf(),
        coherent(final(cache).entries(), final(repo).rows(), prefix@),
        final(cache).entries() == old(cache).entries().remove(key_for(prefix@, row.key())),
        final(repo).lookups() == old(repo).lookups(),
        final(repo).next_id() == old(repo).next_id(),
        has_key(old(repo).rows(), row.key()) ==> r == Ok::<T, ServiceError>(*row) && lookup(
            final(repo).rows(),
            row.key(),
        ) == Some(*row),
        !has_key(old(repo).rows(), row.key()) ==> r == Err::<T, ServiceError>(
            ServiceError::NotFound,
        ) && final(repo).rows() == old(repo).rows(),
        forall|other: i32|
            other != row.key() ==> #[trigger] lookup(final(repo).rows(), other) == lookup(
                old(repo).rows(),
                other,
            ),
{
    let key = crate::cache::cache_key(prefix, row.row_key());
    let _ = cache.delete(key.as_str());
    let ghost entries = cache.entries();
    let r = repo.update(row);
    proof {
        assert forall|other: i32|
            #[trigger] entries.contains_key(key_for(prefix@, other)) implies lookup(
            repo.rows(),
            other,
        ) == Some(entries[key_for(prefix@, other)].0) by {
            assert(other != row.key());
        }
    }
    r
}

/// Invalidates the cache entry of id `id`, then deletes the stored row.
/// Deleting an id that has no row is `NotFound`.
pub fn invalidate_and_delete<T: Row>(
    repo: &mut Repository<T>,
    cache: &mut CacheImpl<T>,
    prefix: &str,
    id: i32,
) -> (r: Result<u64, ServiceError>)
    requires
        old(repo).wf(),
        old(cache).wf(),
        coherent(old(cache).entries(), old(repo).rows(), prefix@),
    ensures
        final(repo).wf(),
        final(cache).wf(),
        coherent(final(cache).entries(), final(repo).rows(), prefix@),
        final(cache).entries() == old(cache).entries().remove(key_for(prefix@, id)),
        final(repo).lookups() == old(repo).lookups(),
        final(repo).next_id() == old(repo).next_id(),
        r == delete_outcome(old(repo).rows(), id),
        !has_key(final(repo).rows(), id),
        forall|other: i32|
            other != id ==> #[trigger] lookup(final(repo).rows(), other) == lookup(
                old(repo).rows(),
                other,
            ),
{
    let key = crate::cache::cache_key(prefix, id);
    let _ = cache.delete(key.as_str());
    let ghost entries = cache.entries();
    let affected = repo.delete(id);
    proof {
        assert forall|other: i32|
            #[trigger] entries.contains_key(key_for(prefix@, other)) implies lookup(
            repo.rows(),
            other,
        ) == Some(entries[key_for(prefix@, other)].0) by {
            assert(other != id);
        }
    }
    check_affected(affected)
}

/// Reading an existing row twice in a row, at the same instant, gives the same
/// answer both times, and the second read is answered by the cache without
/// consulting the store.
pub proof fn lemma_repeated_read_hits_cache<T: Row>(
    entries: Map<Seq<char>, (T, u64)>,
    rows: Seq<T>,
    prefix: Seq<char>,
    id: i32,
    now: u64,
    lookups: nat,
)
    requires
        coherent(entries, rows, prefix),
        has_key(rows, id),
        now < u64::MAX,
    ensures
        ({
            let after = entries_after_read(entries, rows, prefix, id, now);
            &&& cached_read(after, prefix, id, now)
            &&& read_result(after, rows, prefix, id, now) == read_result(
                entries,
                rows,
                prefix,
                id,
                now,
            )
            &&& lookups_after_read(after, prefix, id, now, lookups) == lookups
        }),
{
    lemma_coherent_read(entries, rows, prefix, id, now);
    let after = entries_after_read(entries, rows, prefix, id, now);
    lemma_coherent_read(after, rows, prefix, id, now);
    if !cached_read(entries, prefix, id, now) {
        assert(lookup(rows, id) is Some);
        assert(after.contains_key(key_for(prefix, id)));
        assert(now < expiry(now));
    }
}

/// After a read has filled the cache and an update of the same id has
/// succeeded, a read answers the updated row, never the earlier snapshot; the
/// cache stays coherent with the store throughout.
pub proof fn lemma_read_after_update<T: Row>(
    entries: Map<Seq<char>, (T, u64)>,
    rows: Seq<T>,
    prefix: Seq<char>,
    row: T,
    updated: Seq<T>,
    first_read: u64,
    second_read: u64,
)
    requires
        coherent(entries, rows, prefix),
        lookup(updated, row.key()) == Some(row),
        forall|other: i32| other != row.key() ==> #[trigger] lookup(updated, other) == lookup(rows, other),
    ensures
        ({
            let filled = entries_after_read(entries, rows, prefix, row.key(), first_read);
            let invalidated = filled.remove(key_for(prefix, row.key()));
            &&& coherent(invalidated, updated, prefix)
            &&& read_result(invalidated, updated, prefix, row.key(), second_read) == Ok::<
                T,
                ServiceError,
            >(row)
        }),
{
    let id = row.key();
    lemma_coherent_read(entries, rows, prefix, id, first_read);
    let filled = entries_after_read(entries, rows, prefix, id, first_read);
    let invalidated = filled.remove(key_for(prefix, id));
    assert forall|other: i32| #[trigger] invalidated.contains_key(key_for(prefix, other)) implies lookup(
        updated,
        other,
    ) == Some(invalidated[key_for(prefix, other)].0) by {
        assert(other != id);
        assert(filled.contains_key(key_for(prefix, other)));
    }
}

/// Creating a row leaves a coherent cache coherent: no entry can exist for an
/// id that the store did not hold.
pub proof fn lemma_create_keeps_coherence<T: Row>(
    entries: Map<Seq<char>, (T, u64)>,
    rows: Seq<T>,
    prefix: Seq<char>,
    row: T,
    after: Seq<T>,
)
    requires
        coherent(entries, rows, prefix),
        !has_key(rows, row.key()),
        forall|other: i32| other != row.key() ==> #[trigger] lookup(after, other) == lookup(rows, other),
    ensures
        coherent(entries, after, prefix),
{
    assert forall|other: i32| #[trigger] entries.contains_key(key_for(prefix, other)) implies lookup(
        after,
        other,
    ) == Some(entries[key_for(prefix, other)].0) by {
        assert(lookup(rows, other) is Some);
        assert(other != row.key());
    }
}

/// Deleting is not idempotent: deleting an id that has no row is `NotFound`,
/// a first delete of a stored id succeeds, and once the row is gone a second
/// delete of the same id is `NotFound` again.
pub proof fn lemma_delete_twice<T: Row>(rows: Seq<T>, after: Seq<T>, id: i32)
    requires
        !has_key(after, id),
    ensures
        has_key(rows, id) ==> delete_outcome(rows, id) == Ok::<u64, ServiceError>(1),
        !has_key(rows, id) ==> delete_outcome(rows, id) == Err::<u64, ServiceError>(
            ServiceError::NotFound,
        ),
        delete_outcome(after, id) == Err::<u64, ServiceError>(ServiceError::NotFound),
{
}

} // verus!
