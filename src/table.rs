//! A generic in-memory table of keyed rows, with substring and id filters
//! and paging.

use vstd::prelude::*;

use crate::error::ServiceError;

verus! {

/// A record that a [`Table`] can hold: it has an integer key and a text label
/// (the column that substring filters look at), and can be copied exactly.
pub trait Row: Sized {
    spec fn key(&self) -> i32;

    spec fn label(&self) -> Seq<char>;

    fn row_key(&self) -> (r: i32)
        ensures
            r == self.key(),
    ;

    fn row_label(&self) -> (r: &str)
        ensures
            r@ == self.label(),
    ;

    fn duplicate(&self) -> (r: Self)
        ensures
            r == *self,
    ;
}

/// True when some row has key `id`.
pub open spec fn has_key<T: Row>(rows: Seq<T>, id: i32) -> bool {
    exists|i: int| 0 <= i < rows.len() && #[trigger] rows[i].key() == id
}

/// The row with key `id`, if any (keys are unique in a well-formed table).
pub open spec fn lookup<T: Row>(rows: Seq<T>, id: i32) -> Option<T> {
    if has_key(rows, id) {
        Some(rows[choose|i: int| 0 <= i < rows.len() && #[trigger] rows[i].key() == id])
    } else {
        None
    }
}

/// No two rows share a key.
pub open spec fn unique_keys<T: Row>(rows: Seq<T>) -> bool {
    forall|i: int, j: int|
        0 <= i < rows.len() && 0 <= j < rows.len() && i != j ==> #[trigger] rows[i].key()
            != #[trigger] rows[j].key()
}

/// `haystack` holds `needle` as a contiguous run of characters.
pub open spec fn contains_text(haystack: Seq<char>, needle: Seq<char>) -> bool {
    exists|i: int|
        0 <= i <= haystack.len() - needle.len() && #[trigger] haystack.subrange(i, i + needle.len())
            == needle
}

/// Whether a row is selected by a listing filter: a substring of the label
/// when a name is given; otherwise membership in `ids` when that is non-empty;
/// otherwise every row.
pub open spec fn selected<T: Row>(name: Option<Seq<char>>, ids: Seq<i32>, r: T) -> bool {
    match name {
        Some(n) => contains_text(r.label(), n),
        None => ids.len() == 0 || ids.contains(r.key()),
    }
}

/// The rows that a listing filter selects, in table order.
pub open spec fn matching<T: Row>(rows: Seq<T>, name: Option<Seq<char>>, ids: Seq<i32>) -> Seq<T> {
    rows.filter(selector(name, ids))
}

/// A listing filter as a predicate on rows.
pub open spec fn selector<T: Row>(name: Option<Seq<char>>, ids: Seq<i32>) -> spec_fn(T) -> bool {
    |r: T| selected(name, ids, r)
}

/// The part of `s` that starts at `offset` and holds at most `limit` items.
pub open spec fn window<A>(s: Seq<A>, offset: int, limit: int) -> Seq<A> {
    let lo = if offset < s.len() { offset } else { s.len() as int };
    let hi = if offset + limit < s.len() { offset + limit } else { s.len() as int };
    s.subrange(lo, hi)
}

/// Character-wise equality of two texts.
pub fn text_eq(a: &str, b: &str) -> (r: bool)
    ensures
        r == (a@ == b@),
{
    let n = a.unicode_len();
    if n != b.unicode_len() {
        return false;
    }
    let mut i: usize = 0;
    while i < n
        invariant
            n == a@.len(),
            n == b@.len(),
            i <= n,
            forall|k: int| 0 <= k < i ==> a@[k] == b@[k],
        decreases n - i,
    {
        if a.get_char(i) != b.get_char(i) {
            return false;
        }
        i = i + 1;
    }
    assert(a@ =~= b@);
    true
}

/// Whether `needle` occurs in `haystack` as a contiguous run of characters.
pub fn text_contains(haystack: &str, needle: &str) -> (r: bool)
    ensures
        r == contains_text(haystack@, needle@),
{
    let n = haystack.unicode_len();
    let m = needle.unicode_len();
    if m > n {
        return false;
    }
    let mut i: usize = 0;
    while i <= n - m
        invariant
            n == haystack@.len(),
            m == needle@.len(),
            m <= n,
            i <= n - m + 1,
            forall|k: int| 0 <= k < i ==> #[trigger] haystack@.subrange(k, k + m) != needle@,
        decreases n - m + 1 - i,
    {
        let mut j: usize = 0;
        let mut same = true;
        while j < m
            invariant
                n == haystack@.len(),
                m == needle@.len(),
                i + m <= n,
                j <= m,
                same == (forall|k: int| 0 <= k < j ==> haystack@[i + k] == needle@[k]),
            decreases m - j,
        {
            if haystack.get_char(i + j) != needle.get_char(j) {
                same = false;
            }
            j = j + 1;
        }
        if same {
            assert(haystack@.subrange(i as int, i + m) =~= needle@);
            return true;
        }
        assert(haystack@.subrange(i as int, i + m)[0] == haystack@[i as int]);
        assert(!same ==> exists|k: int| 0 <= k < m && haystack@[i + k] != needle@[k]);
        proof {
            let k = choose|k: int| 0 <= k < m && haystack@[i + k] != needle@[k];
            assert(haystack@.subrange(i as int, i + m)[k] == haystack@[i + k]);
        }
        i = i + 1;
    }
    false
}

/// The view of an optional text.
pub open spec fn text_opt(o: Option<String>) -> Option<Seq<char>> {
    match o {
        Some(s) => Some(s@),
        None => None,
    }
}

proof fn lemma_window_push<A>(s: Seq<A>, x: A, offset: int, limit: int)
    requires
        0 <= offset,
        0 <= limit,
    ensures
        window(s.push(x), offset, limit) == (if offset <= s.len() < offset + limit {
            window(s, offset, limit).push(x)
        } else {
            window(s, offset, limit)
        }),
{
    assert(window(s.push(x), offset, limit) =~= (if offset <= s.len() < offset + limit {
        window(s, offset, limit).push(x)
    } else {
        window(s, offset, limit)
    }));
}

/// Whether `ids` holds `id`.
pub fn ids_contain(ids: &Vec<i32>, id: i32) -> (r: bool)
    ensures
        r == ids@.contains(id),
{
    let mut i: usize = 0;
    while i < ids.len()
        invariant
            i <= ids@.len(),
            forall|k: int| 0 <= k < i ==> ids@[k] != id,
        decreases ids@.len() - i,
    {
        if ids[i] == id {
            assert(ids@[i as int] == id);
            return true;
        }
        i = i + 1;
    }
    false
}

/// Whether a listing filter selects `row`.
pub fn selects<T: Row>(name: &Option<String>, ids: &Vec<i32>, row: &T) -> (r: bool)
    ensures
        r == selected(text_opt(*name), ids@, *row),
{
    match name {
        Some(n) => text_contains(row.row_label(), n.as_str()),
        None => ids.len() == 0 || ids_contain(ids, row.row_key()),
    }
}

proof fn lemma_filter_step<A>(s: Seq<A>, p: spec_fn(A) -> bool, i: int)
    requires
        0 <= i < s.len(),
    ensures
        s.take(i + 1).filter(p) == (if p(s[i]) {
            s.take(i).filter(p).push(s[i])
        } else {
            s.take(i).filter(p)
        }),
{
    reveal(Seq::filter);
    assert(s.take(i + 1).drop_last() =~= s.take(i));
}

proof fn lemma_lookup_at<T: Row>(rows: Seq<T>, j: int)
    requires
        unique_keys(rows),
        0 <= j < rows.len(),
    ensures
        has_key(rows, rows[j].key()),
        lookup(rows, rows[j].key()) == Some(rows[j]),
{
    let id = rows[j].key();
    assert(has_key(rows, id));
    let c = choose|i: int| 0 <= i < rows.len() && #[trigger] rows[i].key() == id;
    assert(c == j);
}

proof fn lemma_lookup_after_remove<T: Row>(rows: Seq<T>, i: int)
    requires
        unique_keys(rows),
        0 <= i < rows.len(),
    ensures
        unique_keys(rows.remove(i)),
        !has_key(rows.remove(i), rows[i].key()),
        forall|id: i32| id != rows[i].key() ==> #[trigger] lookup(rows.remove(i), id) == lookup(rows, id),
{
    let s = rows.remove(i);
    assert forall|a: int, b: int|
        0 <= a < s.len() && 0 <= b < s.len() && a != b implies #[trigger] s[a].key()
        != #[trigger] s[b].key() by {
        let a0 = if a < i { a } else { a + 1 };
        let b0 = if b < i { b } else { b + 1 };
        assert(s[a] == rows[a0] && s[b] == rows[b0]);
    }
    assert forall|k: int| 0 <= k < s.len() implies #[trigger] s[k].key() != rows[i].key() by {
        let k0 = if k < i { k } else { k + 1 };
        assert(s[k] == rows[k0]);
    }
    assert forall|id: i32| id != rows[i].key() implies #[trigger] lookup(s, id) == lookup(rows, id) by {
        if has_key(rows, id) {
            let j = choose|j: int| 0 <= j < rows.len() && #[trigger] rows[j].key() == id;
            lemma_lookup_at(rows, j);
            let j1 = if j < i { j } else { j - 1 };
            assert(s[j1] == rows[j]);
            lemma_lookup_at(s, j1);
        } else {
            if has_key(s, id) {
                let k = choose|k: int| 0 <= k < s.len() && #[trigger] s[k].key() == id;
                let k0 = if k < i { k } else { k + 1 };
                assert(s[k] == rows[k0]);
            }
        }
    }
}

proof fn lemma_lookup_after_update<T: Row>(rows: Seq<T>, i: int, row: T)
    requires
        unique_keys(rows),
        0 <= i < rows.len(),
        row.key() == rows[i].key(),
    ensures
        unique_keys(rows.update(i, row)),
        lookup(rows.update(i, row), row.key()) == Some(row),
        forall|id: i32| id != row.key() ==> #[trigger] lookup(rows.update(i, row), id) == lookup(rows, id),
{
    let s = rows.update(i, row);
    assert forall|a: int, b: int|
        0 <= a < s.len() && 0 <= b < s.len() && a != b implies #[trigger] s[a].key()
        != #[trigger] s[b].key() by {
        assert(s[a].key() == rows[a].key() && s[b].key() == rows[b].key());
    }
    lemma_lookup_at(s, i);
    assert forall|id: i32| id != row.key() implies #[trigger] lookup(s, id) == lookup(rows, id) by {
        if has_key(rows, id) {
            let j = choose|j: int| 0 <= j < rows.len() && #[trigger] rows[j].key() == id;
            lemma_lookup_at(rows, j);
            assert(s[j] == rows[j]);
            lemma_lookup_at(s, j);
        } else {
            if has_key(s, id) {
                let k = choose|k: int| 0 <= k < s.len() && #[trigger] s[k].key() == id;
                assert(s[k] == rows[k]);
            }
        }
    }
}

proof fn lemma_lookup_after_push<T: Row>(rows: Seq<T>, row: T)
    requires
        unique_keys(rows),
        !has_key(rows, row.key()),
    ensures
        unique_keys(rows.push(row)),
        lookup(rows.push(row), row.key()) == Some(row),
        forall|id: i32| id != row.key() ==> #[trigger] lookup(rows.push(row), id) == lookup(rows, id),
{
    let s = rows.push(row);
    assert forall|a: int, b: int|
        0 <= a < s.len() && 0 <= b < s.len() && a != b implies #[trigger] s[a].key()
        != #[trigger] s[b].key() by {
        if a < rows.len() && b < rows.len() {
            assert(s[a] == rows[a] && s[b] == rows[b]);
        } else if a < rows.len() {
            assert(s[a] == rows[a]);
        } else if b < rows.len() {
            assert(s[b] == rows[b]);
        }
    }
    lemma_lookup_at(s, rows.len() as int);
    assert forall|id: i32| id != row.key() implies #[trigger] lookup(s, id) == lookup(rows, id) by {
        if has_key(rows, id) {
            let j = choose|j: int| 0 <= j < rows.len() && #[trigger] rows[j].key() == id;
            lemma_lookup_at(rows, j);
            assert(s[j] == rows[j]);
            lemma_lookup_at(s, j);
        } else {
            if has_key(s, id) {
                let k = choose|k: int| 0 <= k < s.len() && #[trigger] s[k].key() == id;
                assert(s[k] == rows[k]);
            }
        }
    }
}

/// An in-memory table of rows with unique keys, handing out keys in
/// increasing order starting at 1.
pub struct Table<T> {
    rows: Vec<T>,
    next_id: i32,
}

impl<T: Row> Table<T> {
    /// The rows, in insertion order.
    pub closed spec fn rows(&self) -> Seq<T> {
        self.rows@
    }

    /// The key that the next inserted row receives.
    pub closed spec fn next_id(&self) -> int {
        self.next_id as int
    }

    /// Keys are unique, positive, and below the next key to hand out.
    pub open spec fn wf(&self) -> bool {
        &&& unique_keys(self.rows())
        &&& 1 <= self.next_id() <= i32::MAX
        &&& self.rows().len() < self.next_id()
        &&& forall|i: int|
            0 <= i < self.rows().len() ==> 1 <= #[trigger] self.rows()[i].key() < self.next_id()
    }

    pub fn new() -> (r: Self)
        ensures
            r.wf(),
            r.rows() == Seq::<T>::empty(),
            r.next_id() == 1,
    {
        Table { rows: Vec::new(), next_id: 1 }
    }

    /// The key that the next row must carry, or `None` once keys are exhausted.
    pub fn fresh_key(&self) -> (r: Option<i32>)
        requires
            self.wf(),
        ensures
            r == (if self.next_id() < i32::MAX {
                Some(self.next_id() as i32)
            } else {
                None::<i32>
            }),
    {
        if self.next_id < i32::MAX {
            Some(self.next_id)
        } else {
            None
        }
    }

    /// Appends a row that carries the fresh key.
    pub fn push(&mut self, row: T)
        requires
            old(self).wf(),
            old(self).next_id() < i32::MAX,
            row.key() == old(self).next_id(),
        ensures
            final(self).wf(),
            final(self).rows() == old(self).rows().push(row),
            final(self).next_id() == old(self).next_id() + 1,
            lookup(final(self).rows(), row.key()) == Some(row),
            forall|id: i32|
                id != row.key() ==> #[trigger] lookup(final(self).rows(), id) == lookup(
                    old(self).rows(),
                    id,
                ),
    {
        proof {
            lemma_lookup_after_push(self.rows(), row);
        }
        self.rows.push(row);
        self.next_id = self.next_id + 1;
        assert forall|i: int, j: int|
            0 <= i < self.rows().len() && 0 <= j < self.rows().len() && i != j implies
            #[trigger] self.rows()[i].key() != #[trigger] self.rows()[j].key() by {
            if i < old(self).rows().len() && j < old(self).rows().len() {
                assert(old(self).rows()[i].key() != old(self).rows()[j].key());
            }
        }
    }

    /// The index of the row with key `id`.
    pub fn position(&self, id: i32) -> (r: Option<usize>)
        requires
            self.wf(),
        ensures
            match r {
                Some(i) => i < self.rows().len() && self.rows()[i as int].key() == id
                    && lookup(self.rows(), id) == Some(self.rows()[i as int]),
                None => !has_key(self.rows(), id) && lookup(self.rows(), id) == None::<T>,
            },
    {
        let mut i: usize = 0;
        while i < self.rows.len()
            invariant
                self.wf(),
                i <= self.rows().len(),
                forall|k: int| 0 <= k < i ==> #[trigger] self.rows()[k].key() != id,
            decreases self.rows().len() - i,
        {
            if self.rows[i].row_key() == id {
                assert(has_key(self.rows(), id));
                let ghost c = choose|k: int|
                    0 <= k < self.rows().len() && #[trigger] self.rows()[k].key() == id;
                assert(c == i as int);
                return Some(i);
            }
            i = i + 1;
        }
        None
    }

    /// The row with key `id`.
    pub fn find(&self, id: i32) -> (r: Result<T, ServiceError>)
        requires
            self.wf(),
        ensures
            r == (match lookup(self.rows(), id) {
                Some(row) => Ok::<T, ServiceError>(row),
                None => Err(ServiceError::NotFound),
            }),
    {
        match self.position(id) {
            Some(i) => Ok(self.rows[i].duplicate()),
            None => Err(ServiceError::NotFound),
        }
    }
    /// Replaces the row that has the same key as `row`; `NotFound` when there
    /// is none.
    pub fn replace(&mut self, row: T) -> (r: Result<T, ServiceError>)
        requires
            old(self).wf(),
        ensures
            final(self).wf(),
            final(self).next_id() == old(self).next_id(),
            final(self).rows().len() == old(self).rows().len(),
            has_key(old(self).rows(), row.key()) ==> r == Ok::<T, ServiceError>(row) && lookup(
                final(self).rows(),
                row.key(),
            ) == Some(row),
            !has_key(old(self).rows(), row.key()) ==> r == Err::<T, ServiceError>(
                ServiceError::NotFound,
            ) && final(self).rows() == old(self).rows(),
            forall|id: i32|
                id != row.key() ==> #[trigger] lookup(final(self).rows(), id) == lookup(
                    old(self).rows(),
                    id,
                ),
    {
        match self.position(row.row_key()) {
            Some(i) => {
                let copy = row.duplicate();
                proof {
                    lemma_lookup_after_update(self.rows(), i as int, row);
                }
                self.rows.set(i, row);
                Ok(copy)
            },
            None => Err(ServiceError::NotFound),
        }
    }

    /// Removes the row with key `id` and returns how many rows went.
    pub fn remove(&mut self, id: i32) -> (r: u64)
        requires
            old(self).wf(),
        ensures
            final(self).wf(),
            final(self).next_id() == old(self).next_id(),
            r == (if has_key(old(self).rows(), id) {
                1u64
            } else {
                0u64
            }),
            final(self).rows().len() == old(self).rows().len() - r,
            !has_key(final(self).rows(), id),
            forall|other: i32|
                other != id ==> #[trigger] lookup(final(self).rows(), other) == lookup(
                    old(self).rows(),
                    other,
                ),
    {
        match self.position(id) {
            Some(i) => {
                proof {
                    lemma_lookup_after_remove(self.rows(), i as int);
                }
                let _ = self.rows.remove(i);
                1
            },
            None => 0,
        }
    }

    /// The index of the first row whose label is `name`.
    pub fn label_position(&self, name: &str) -> (r: Option<usize>)
        ensures
            match r {
                Some(i) => i < self.rows().len() && self.rows()[i as int].label() == name@,
                None => forall|k: int|
                    0 <= k < self.rows().len() ==> #[trigger] self.rows()[k].label() != name@,
            },
    {
        let mut i: usize = 0;
        while i < self.rows.len()
            invariant
                i <= self.rows().len(),
                forall|k: int| 0 <= k < i ==> #[trigger] self.rows()[k].label() != name@,
            decreases self.rows().len() - i,
        {
            if text_eq(self.rows[i].row_label(), name) {
                return Some(i);
            }
            i = i + 1;
        }
        None
    }

    /// Copies the row at index `i`.
    pub fn row_at(&self, i: usize) -> (r: T)
        requires
            i < self.rows().len(),
        ensures
            r == self.rows()[i as int],
    {
        self.rows[i].duplicate()
    }

    /// Replaces the row at index `i` by one with the same key.
    pub fn set_at(&mut self, i: usize, row: T)
        requires
            old(self).wf(),
            i < old(self).rows().len(),
            row.key() == old(self).rows()[i as int].key(),
        ensures
            final(self).wf(),
            final(self).next_id() == old(self).next_id(),
            final(self).rows() == old(self).rows().update(i as int, row),
    {
        proof {
            lemma_lookup_after_update(self.rows(), i as int, row);
        }
        self.rows.set(i, row);
    }

    /// Removes the row at index `i`.
    pub fn remove_at(&mut self, i: usize)
        requires
            old(self).wf(),
            i < old(self).rows().len(),
        ensures
            final(self).wf(),
            final(self).next_id() == old(self).next_id(),
            final(self).rows() == old(self).rows().remove(i as int),
    {
        proof {
            lemma_lookup_after_remove(self.rows(), i as int);
        }
        let _ = self.rows.remove(i);
    }
    /// One page of the rows that a listing filter selects, and how many rows
    /// it selects in all. The page holds the selected rows at positions
    /// `page_index * per_page` up to, not including, `(page_index + 1) * per_page`.
    pub fn find_all(&self, name: &Option<String>, ids: &Vec<i32>, page_index: usize, per_page: usize) -> (r: (Vec<T>, usize))
        ensures
            r.0@ == window(
                matching(self.rows(), text_opt(*name), ids@),
                page_index * per_page,
                per_page as int,
            ),
            r.1 == matching(self.rows(), text_opt(*name), ids@).len(),
            r.1 <= self.rows().len(),
    {
        let ghost pred = selector::<T>(text_opt(*name), ids@);
        let ghost offset: int = page_index * per_page;
        let offset_opt = page_index.checked_mul(per_page);
        let mut data: Vec<T> = Vec::new();
        let mut count: usize = 0;
        let mut i: usize = 0;
        proof {
            assert(self.rows().take(0) =~= Seq::<T>::empty());
            reveal(Seq::filter);
            assert(0 <= offset) by (nonlinear_arith)
                requires 0 <= page_index, 0 <= per_page, offset == page_index * per_page;
        }
        while i < self.rows.len()
            invariant
                i <= self.rows().len(),
                pred == selector::<T>(text_opt(*name), ids@),
                0 <= offset,
                offset == page_index * per_page,
                offset_opt matches Some(o) ==> o == offset,
                offset_opt is None ==> offset > usize::MAX,
                count == self.rows().take(i as int).filter(pred).len(),
                data@ == window(self.rows().take(i as int).filter(pred), offset, per_page as int),
            decreases self.rows().len() - i,
        {
            let row = &self.rows[i];
            proof {
                lemma_filter_step(self.rows(), pred, i as int);
                self.rows().take(i as int).lemma_filter_len(pred);
                let f = self.rows().take(i as int).filter(pred);
                lemma_window_push(f, self.rows()[i as int], offset, per_page as int);
            }
            let hit = selects(name, ids, row);
            assert(hit == pred(self.rows()[i as int]));
            if hit {
                let inside = match offset_opt {
                    Some(o) => count >= o && count - o < per_page,
                    None => false,
                };
                if inside {
                    data.push(row.duplicate());
                }
                count = count + 1;
            }
            i = i + 1;
        }
        assert(self.rows().take(self.rows().len() as int) =~= self.rows());
        proof {
            self.rows().lemma_filter_len(pred);
        }
        (data, count)
    }
}

} // verus!
