//! Cache keys and an in-memory cache with time-bounded entries.

use vstd::prelude::*;

use crate::table::{lookup, Row};

verus! {

/// How long, in seconds, a cached snapshot stays valid.
pub const CACHE_TTL: u64 = 60;

/// The character of a decimal digit.
pub open spec fn digit_char(d: int) -> char {
    if d == 0 { '0' }
    else if d == 1 { '1' }
    else if d == 2 { '2' }
    else if d == 3 { '3' }
    else if d == 4 { '4' }
    else if d == 5 { '5' }
    else if d == 6 { '6' }
    else if d == 7 { '7' }
    else if d == 8 { '8' }
    else { '9' }
}

/// The decimal digits of a natural number, without leading zeros.
pub open spec fn digits(n: nat) -> Seq<char>
    decreases n,
{
    if n < 10 {
        seq![digit_char(n as int)]
    } else {
        digits(n / 10).push(digit_char((n % 10) as int))
    }
}

/// The decimal text of an integer, with a leading `-` when it is negative.
pub open spec fn decimal(n: int) -> Seq<char> {
    if n < 0 {
        seq!['-'] + digits((-n) as nat)
    } else {
        digits(n as nat)
    }
}

/// The cache key of the entity of kind `prefix` with id `id`: `"{prefix}:{id}"`.
pub open spec fn key_for(prefix: Seq<char>, id: i32) -> Seq<char> {
    prefix + seq![':'] + decimal(id as int)
}

proof fn lemma_digits_shape(n: nat)
    ensures
        digits(n).len() >= 1,
        n < 10 <==> digits(n).len() == 1,
        forall|i: int| 0 <= i < digits(n).len() ==> #[trigger] digits(n)[i] != '-',
    decreases n,
{
    if n >= 10 {
        lemma_digits_shape(n / 10);
        let d = digits(n / 10);
        assert forall|i: int| 0 <= i < digits(n).len() implies #[trigger] digits(n)[i] != '-' by {
            if i < d.len() {
                assert(digits(n)[i] == d[i]);
            }
        }
    }
}

proof fn lemma_digit_char_injective(x: int, y: int)
    requires
        0 <= x < 10,
        0 <= y < 10,
        digit_char(x) == digit_char(y),
    ensures
        x == y,
{
}

proof fn lemma_digits_injective(a: nat, b: nat)
    requires
        digits(a) == digits(b),
    ensures
        a == b,
    decreases a,
{
    lemma_digits_shape(a);
    lemma_digits_shape(b);
    if a >= 10 && b >= 10 {
        assert(digits(a).drop_last() =~= digits(a / 10));
        assert(digits(b).drop_last() =~= digits(b / 10));
        assert(digits(a) == digits((a / 10) as nat).push(digit_char((a % 10) as int)));
        assert(digits(b) == digits((b / 10) as nat).push(digit_char((b % 10) as int)));
        assert(digits(a).last() == digit_char((a % 10) as int));
        assert(digits(b).last() == digit_char((b % 10) as int));
        lemma_digit_char_injective((a % 10) as int, (b % 10) as int);
        lemma_digits_injective(a / 10, b / 10);
        assert(a == 10 * (a / 10) + a % 10) by (nonlinear_arith);
        assert(b == 10 * (b / 10) + b % 10) by (nonlinear_arith);
    } else if a < 10 && b < 10 {
        assert(digits(a) == seq![digit_char(a as int)]);
        assert(digits(b) == seq![digit_char(b as int)]);
        assert(digits(a)[0] == digits(b)[0]);
        assert(seq![digit_char(a as int)][0] == digit_char(a as int));
        assert(seq![digit_char(b as int)][0] == digit_char(b as int));
        lemma_digit_char_injective(a as int, b as int);
    }
}

/// Distinct ids of one kind have distinct cache keys.
pub proof fn lemma_key_for_injective(prefix: Seq<char>, a: i32, b: i32)
    requires
        key_for(prefix, a) == key_for(prefix, b),
    ensures
        a == b,
{
    let n = prefix.len() + 1;
    let ka = key_for(prefix, a);
    let kb = key_for(prefix, b);
    assert(ka.subrange(n as int, ka.len() as int) =~= decimal(a as int));
    assert(kb.subrange(n as int, kb.len() as int) =~= decimal(b as int));
    let da = decimal(a as int);
    let db = decimal(b as int);
    assert(da == db);
    if a < 0 && b < 0 {
        assert(da.subrange(1, da.len() as int) =~= digits((-a) as nat));
        assert(db.subrange(1, db.len() as int) =~= digits((-b) as nat));
        lemma_digits_injective((-a) as nat, (-b) as nat);
    } else if a >= 0 && b >= 0 {
        lemma_digits_injective(a as nat, b as nat);
    } else if a < 0 {
        lemma_digits_shape(b as nat);
        assert(da[0] == '-');
        assert(db[0] != '-');
    } else {
        lemma_digits_shape(a as nat);
        assert(db[0] == '-');
        assert(da[0] != '-');
    }
}

/// Relies on `String::push`: appends one character.
#[verifier::external_body]
fn push_char(s: &mut String, c: char)
    ensures
        final(s)@ == old(s)@.push(c),
{
    s.push(c);
}

fn digit_of(d: u32) -> (c: char)
    requires
        d < 10,
    ensures
        c == digit_char(d as int),
{
    match d {
        0 => '0',
        1 => '1',
        2 => '2',
        3 => '3',
        4 => '4',
        5 => '5',
        6 => '6',
        7 => '7',
        8 => '8',
        _ => '9',
    }
}

fn push_digits(s: &mut String, n: u32)
    ensures
        final(s)@ == old(s)@ + digits(n as nat),
    decreases n,
{
    if n >= 10 {
        push_digits(s, n / 10);
    }
    push_char(s, digit_of(n % 10));
    proof {
        if n >= 10 {
            assert(old(s)@ + digits((n / 10) as nat) + seq![digit_char((n % 10) as int)] =~= old(s)@
                + digits(n as nat));
        } else {
            assert(old(s)@.push(digit_char((n % 10) as int)) =~= old(s)@ + digits(n as nat));
        }
    }
}

/// The cache key `"{prefix}:{id}"` of the entity of kind `prefix` with id `id`.
pub fn cache_key(prefix: &str, id: i32) -> (r: String)
    ensures
        r@ == key_for(prefix@, id),
{
    let mut s = String::from_str(prefix);
    push_char(&mut s, ':');
    if id < 0 {
        push_char(&mut s, '-');
        let magnitude: u32 = (-(id as i64)) as u32;
        push_digits(&mut s, magnitude);
        assert(s@ =~= key_for(prefix@, id));
    } else {
        push_digits(&mut s, id as u32);
        assert(s@ =~= key_for(prefix@, id));
    }
    s
}

/// The expiry time of an entry written at `now`.
pub open spec fn expiry(now: u64) -> u64 {
    if now <= u64::MAX - CACHE_TTL {
        (now + CACHE_TTL) as u64
    } else {
        u64::MAX
    }
}

/// What a read of `key` at time `now` finds: the value while it is live.
pub open spec fn live<T>(entries: Map<Seq<char>, (T, u64)>, key: Seq<char>, now: u64) -> Option<T> {
    if entries.contains_key(key) && now < entries[key].1 {
        Some(entries[key].0)
    } else {
        None
    }
}

/// Every entry under the key of an id holds that id's current row, whether or
/// not the entry has expired.
pub open spec fn coherent<T: Row>(entries: Map<Seq<char>, (T, u64)>, rows: Seq<T>, prefix: Seq<char>) -> bool {
    forall|id: i32|
        #[trigger] entries.contains_key(key_for(prefix, id)) ==> lookup(rows, id) == Some(
            entries[key_for(prefix, id)].0,
        )
}

struct Entry<T> {
    key: String,
    value: T,
    expires_at: u64,
}

/// An in-memory key-value cache whose entries expire `CACHE_TTL` seconds after
/// they are written.
pub struct CacheImpl<T> {
    slots: Vec<Entry<T>>,
    model: Ghost<Map<Seq<char>, (T, u64)>>,
}

impl<T: Row> CacheImpl<T> {
    /// The entries: each key with its value and expiry time.
    pub closed spec fn entries(&self) -> Map<Seq<char>, (T, u64)> {
        self.model@
    }

    pub closed spec fn wf(&self) -> bool {
        &&& forall|i: int, j: int|
            0 <= i < self.slots@.len() && 0 <= j < self.slots@.len() && i != j
                ==> #[trigger] self.slots@[i].key@ != #[trigger] self.slots@[j].key@
        &&& forall|i: int|
            0 <= i < self.slots@.len() ==> self.model@.contains_key(#[trigger] self.slots@[i].key@)
                && self.model@[self.slots@[i].key@] == (
                self.slots@[i].value,
                self.slots@[i].expires_at,
            )
        &&& forall|k: Seq<char>|
            #[trigger] self.model@.contains_key(k) ==> exists|i: int|
                0 <= i < self.slots@.len() && #[trigger] self.slots@[i].key@ == k
    }

    pub fn new() -> (r: Self)
        ensures
            r.wf(),
            r.entries() == Map::<Seq<char>, (T, u64)>::empty(),
    {
        CacheImpl { slots: Vec::new(), model: Ghost(Map::empty()) }
    }

    fn slot_of(&self, key: &str) -> (r: Option<usize>)
        requires
            self.wf(),
        ensures
            match r {
                Some(i) => i < self.slots@.len() && self.slots@[i as int].key@ == key@,
                None => !self.entries().contains_key(key@),
            },
    {
        let mut i: usize = 0;
        while i < self.slots.len()
            invariant
                self.wf(),
                i <= self.slots@.len(),
                forall|k: int| 0 <= k < i ==> #[trigger] self.slots@[k].key@ != key@,
            decreases self.slots@.len() - i,
        {
            if crate::table::text_eq(self.slots[i].key.as_str(), key) {
                return Some(i);
            }
            i = i + 1;
        }
        None
    }

    /// The live value under `key` at time `now`.
    pub fn get(&self, key: &str, now: u64) -> (r: Option<T>)
        requires
            self.wf(),
        ensures
            r == live(self.entries(), key@, now),
    {
        match self.slot_of(key) {
            Some(i) => {
                if now < self.slots[i].expires_at {
                    Some(self.slots[i].value.duplicate())
                } else {
                    None
                }
            },
            None => None,
        }
    }

    /// Stores `value` under `key`, to expire `CACHE_TTL` seconds after `now`.
    pub fn set(&mut self, key: &str, value: T, now: u64)
        requires
            old(self).wf(),
        ensures
            final(self).wf(),
            final(self).entries() == old(self).entries().insert(key@, (value, expiry(now))),
    {
        let expires_at = if now <= u64::MAX - CACHE_TTL {
            now + CACHE_TTL
        } else {
            u64::MAX
        };
        let ghost value_copy = value;
        match self.slot_of(key) {
            Some(i) => {
                let entry = Entry { key: String::from_str(key), value, expires_at };
                self.slots.set(i, entry);
                self.model = Ghost(self.model@.insert(key@, (value_copy, expires_at)));
                assert forall|k: Seq<char>| #[trigger] self.model@.contains_key(k) implies exists|j: int|
                    0 <= j < self.slots@.len() && #[trigger] self.slots@[j].key@ == k by {
                    if k != key@ {
                        let j = choose|j: int|
                            0 <= j < old(self).slots@.len() && #[trigger] old(self).slots@[j].key@ == k;
                        assert(self.slots@[j].key@ == k);
                    } else {
                        assert(self.slots@[i as int].key@ == k);
                    }
                }
            },
            None => {
                let entry = Entry { key: String::from_str(key), value, expires_at };
                self.slots.push(entry);
                self.model = Ghost(self.model@.insert(key@, (value_copy, expires_at)));
                let ghost n: int = self.slots@.len() - 1;
                assert forall|k: Seq<char>| #[trigger] self.model@.contains_key(k) implies exists|j: int|
                    0 <= j < self.slots@.len() && #[trigger] self.slots@[j].key@ == k by {
                    if k != key@ {
                        let j = choose|j: int|
                            0 <= j < old(self).slots@.len() && #[trigger] old(self).slots@[j].key@ == k;
                        assert(self.slots@[j].key@ == k);
                    } else {
                        assert(self.slots@[n].key@ == k);
                    }
                }
                assert forall|a: int| 0 <= a < n implies #[trigger] self.slots@[a].key@ != key@ by {
                    assert(old(self).model@.contains_key(old(self).slots@[a].key@));
                }
            },
        }
    }

    /// Drops the entry under `key`, if there is one; says whether there was.
    pub fn delete(&mut self, key: &str) -> (r: bool)
        requires
            old(self).wf(),
        ensures
            final(self).wf(),
            final(self).entries() == old(self).entries().remove(key@),
            r == old(self).entries().contains_key(key@),
    {
        match self.slot_of(key) {
            Some(i) => {
                let _ = self.slots.remove(i);
                self.model = Ghost(self.model@.remove(key@));
                assert forall|k: Seq<char>| #[trigger] self.model@.contains_key(k) implies exists|j: int|
                    0 <= j < self.slots@.len() && #[trigger] self.slots@[j].key@ == k by {
                    let j = choose|j: int|
                        0 <= j < old(self).slots@.len() && #[trigger] old(self).slots@[j].key@ == k;
                    assert(j != i);
                    let j1 = if j < i { j } else { j - 1 };
                    assert(self.slots@[j1].key@ == k);
                }
                assert forall|a: int| 0 <= a < self.slots@.len() implies self.model@.contains_key(
                    #[trigger] self.slots@[a].key@,
                ) && self.model@[self.slots@[a].key@] == (
                    self.slots@[a].value,
                    self.slots@[a].expires_at,
                ) by {
                    let a0 = if a < i { a } else { a + 1 };
                    assert(self.slots@[a] == old(self).slots@[a0]);
                    assert(a0 != i);
                }
                assert forall|a: int, b: int|
                    0 <= a < self.slots@.len() && 0 <= b < self.slots@.len() && a != b
                        implies #[trigger] self.slots@[a].key@ != #[trigger] self.slots@[b].key@ by {
                    let a0 = if a < i { a } else { a + 1 };
                    let b0 = if b < i { b } else { b + 1 };
                    assert(self.slots@[a] == old(self).slots@[a0]);
                    assert(self.slots@[b] == old(self).slots@[b0]);
                }
                true
            },
            None => {
                assert(self.model@.remove(key@) =~= self.model@);
                false
            },
        }
    }
}

} // verus!
