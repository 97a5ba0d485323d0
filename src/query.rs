//! Reading the comma-separated id filter of a listing.

use vstd::prelude::*;

verus! {

/// The fields of a comma-separated text, in order; an empty text is one
/// empty field.
pub open spec fn fields(s: Seq<char>) -> Seq<Seq<char>>
    decreases s.len(),
{
    if s.len() == 0 {
        seq![Seq::<char>::empty()]
    } else {
        let f = fields(s.drop_last());
        if s.last() == ',' {
            f.push(Seq::<char>::empty())
        } else {
            f.update(f.len() - 1, f.last().push(s.last()))
        }
    }
}

/// Space, tab, line feed, carriage return or form feed.
pub open spec fn is_space(c: char) -> bool {
    c == ' ' || c == '\t' || c == '\n' || c == '\r' || c == '\x0c'
}

pub open spec fn is_digit(c: char) -> bool {
    '0' <= c <= '9'
}

/// The value of a non-empty run of decimal digits.
pub open spec fn digits_value(s: Seq<char>) -> int
    decreases s.len(),
{
    if s.len() == 0 {
        0
    } else {
        10 * digits_value(s.drop_last()) + (s.last() as u32 - '0' as u32)
    }
}

/// The text starts with a sign.
pub open spec fn signed_text(s: Seq<char>) -> bool {
    s.len() > 0 && (s[0] == '-' || s[0] == '+')
}

/// The text without its leading sign, if it has one.
pub open spec fn unsigned_part(s: Seq<char>) -> Seq<char> {
    if signed_text(s) {
        s.subrange(1, s.len() as int)
    } else {
        s
    }
}

pub open spec fn all_digits(s: Seq<char>) -> bool {
    forall|i: int| 0 <= i < s.len() ==> is_digit(#[trigger] s[i])
}

/// The integer that a text spells: an optional `+` or `-` followed by one or
/// more decimal digits.
pub open spec fn int_text(s: Seq<char>) -> Option<int> {
    if unsigned_part(s).len() > 0 && all_digits(unsigned_part(s)) {
        if signed_text(s) && s[0] == '-' {
            Some(-digits_value(unsigned_part(s)))
        } else {
            Some(digits_value(unsigned_part(s)))
        }
    } else {
        None
    }
}

/// A field without its leading and trailing spaces.
pub open spec fn trimmed(f: Seq<char>) -> Seq<char>
    decreases f.len(),
{
    if f.len() > 0 && is_space(f[0]) {
        trimmed(f.subrange(1, f.len() as int))
    } else if f.len() > 0 && is_space(f.last()) {
        trimmed(f.drop_last())
    } else {
        f
    }
}

/// The `i32` that a field spells once its surrounding spaces are removed.
pub open spec fn field_value(f: Seq<char>) -> Option<i32> {
    match int_text(trimmed(f)) {
        Some(v) => if i32::MIN <= v <= i32::MAX {
            Some(v as i32)
        } else {
            None
        },
        None => None,
    }
}

/// The ids that a comma-separated list spells, when every field spells one.
pub open spec fn parsed_ids(s: Seq<char>) -> Option<Seq<i32>> {
    let fs = fields(s);
    if forall|j: int| 0 <= j < fs.len() ==> (#[trigger] field_value(fs[j])) is Some {
        Some(Seq::new(fs.len(), |j: int| field_value(fs[j])->0))
    } else {
        None
    }
}

proof fn lemma_trimmed(f: Seq<char>, lo: int, hi: int)
    requires
        0 <= lo <= hi <= f.len(),
        forall|i: int| 0 <= i < lo ==> is_space(#[trigger] f[i]),
        forall|i: int| hi <= i < f.len() ==> is_space(#[trigger] f[i]),
        lo == hi || (!is_space(f[lo]) && !is_space(f[hi - 1])),
    ensures
        trimmed(f) == f.subrange(lo, hi),
    decreases f.len(),
{
    if f.len() == 0 {
        assert(f.subrange(lo, hi) =~= f);
    } else if is_space(f[0]) {
        let g = f.subrange(1, f.len() as int);
        if lo >= 1 {
            assert forall|i: int| 0 <= i < lo - 1 implies is_space(#[trigger] g[i]) by {
                assert(g[i] == f[i + 1]);
            }
            assert forall|i: int| hi - 1 <= i < g.len() implies is_space(#[trigger] g[i]) by {
                assert(g[i] == f[i + 1]);
            }
            lemma_trimmed(g, lo - 1, hi - 1);
            assert(g.subrange(lo - 1, hi - 1) =~= f.subrange(lo, hi));
        } else {
            assert(hi == 0);
            assert forall|i: int| 0 <= i < g.len() implies is_space(#[trigger] g[i]) by {
                assert(g[i] == f[i + 1]);
            }
            lemma_trimmed(g, 0, 0);
            assert(g.subrange(0, 0) =~= f.subrange(lo, hi));
        }
    } else if is_space(f.last()) {
        let g = f.drop_last();
        assert(lo == 0);
        assert(hi < f.len());
        assert forall|i: int| hi <= i < g.len() implies is_space(#[trigger] g[i]) by {
            assert(g[i] == f[i]);
        }
        if lo < hi {
            assert(g[lo] == f[lo] && g[hi - 1] == f[hi - 1]);
        }
        lemma_trimmed(g, lo, hi);
        assert(g.subrange(lo, hi) =~= f.subrange(lo, hi));
    } else {
        assert(lo == 0);
        if hi < f.len() {
            assert(is_space(f[f.len() - 1]));
        }
        assert(f.subrange(lo, hi) =~= f);
    }
}

proof fn lemma_fields_step(s: Seq<char>, i: int)
    requires
        0 <= i < s.len(),
    ensures
        fields(s.take(i + 1)) == (if s[i] == ',' {
            fields(s.take(i)).push(Seq::<char>::empty())
        } else {
            fields(s.take(i)).update(
                fields(s.take(i)).len() - 1,
                fields(s.take(i)).last().push(s[i]),
            )
        }),
{
    assert(s.take(i + 1).drop_last() =~= s.take(i));
}

proof fn lemma_digits_push(s: Seq<char>, c: char)
    ensures
        digits_value(s.push(c)) == 10 * digits_value(s) + (c as u32 - '0' as u32),
{
    assert(s.push(c).drop_last() =~= s);
}

/// Reads the integer in `f[lo..hi]`, when it fits in an `i32`.
fn read_int(f: &Vec<char>, lo: usize, hi: usize) -> (r: Option<i32>)
    requires
        lo <= hi <= f@.len(),
    ensures
        r == (match int_text(f@.subrange(lo as int, hi as int)) {
            Some(v) => if i32::MIN <= v <= i32::MAX {
                Some(v as i32)
            } else {
                None
            },
            None => None,
        }),
{
    let ghost t = f@.subrange(lo as int, hi as int);
    if lo == hi {
        return None;
    }
    assert(t[0] == f@[lo as int]);
    let neg = f[lo] == '-';
    let signed = neg || f[lo] == '+';
    let start: usize = if signed { lo + 1 } else { lo };
    if start == hi {
        return None;
    }
    let ghost body = unsigned_part(t);
    assert(body =~= f@.subrange(start as int, hi as int));
    let mut value: i64 = 0;
    let mut big = false;
    let mut k: usize = start;
    while k < hi
        invariant
            lo <= start <= k <= hi <= f@.len(),
            t == f@.subrange(lo as int, hi as int),
            t.len() > 0 && t[0] == f@[lo as int],
            signed == (t[0] == '-' || t[0] == '+'),
            neg == (t[0] == '-'),
            start == (if signed { lo + 1 } else { lo as int }),
            body == unsigned_part(t),
            body =~= f@.subrange(start as int, hi as int),
            forall|i: int| start <= i < k ==> is_digit(#[trigger] f@[i]),
            !big ==> 0 <= value <= 2147483648 && value == digits_value(
                f@.subrange(start as int, k as int),
            ),
            big ==> digits_value(f@.subrange(start as int, k as int)) > 2147483648,
        decreases hi - k,
    {
        let c = f[k];
        if !('0' <= c && c <= '9') {
            assert(!is_digit(body[k - start]));
            assert(!all_digits(body));
            assert(int_text(t) is None);
            return None;
        }
        let d = (c as u32 - '0' as u32) as i64;
        proof {
            assert(f@.subrange(start as int, k + 1) =~= f@.subrange(start as int, k as int).push(c));
            lemma_digits_push(f@.subrange(start as int, k as int), c);
        }
        if !big {
            if value > 214748364 || (value == 214748364 && d > 8) {
                big = true;
            } else {
                value = value * 10 + d;
            }
        }
        k = k + 1;
    }
    assert forall|i: int| 0 <= i < body.len() implies is_digit(#[trigger] body[i]) by {
        assert(body[i] == f@[start + i]);
    }
    assert(f@.subrange(start as int, k as int) =~= body);
    if big {
        None
    } else if neg {
        Some((-value) as i32)
    } else if value <= 2147483647 {
        Some(value as i32)
    } else {
        None
    }
}

/// The `i32` that a field spells once its surrounding spaces are removed.
fn read_field(f: &Vec<char>) -> (r: Option<i32>)
    ensures
        r == field_value(f@),
{
    let n = f.len();
    let mut lo: usize = 0;
    while lo < n && (f[lo] == ' ' || f[lo] == '\t' || f[lo] == '\n' || f[lo] == '\r' || f[lo] == '\x0c')
        invariant
            n == f@.len(),
            lo <= n,
            forall|i: int| 0 <= i < lo ==> is_space(#[trigger] f@[i]),
        decreases n - lo,
    {
        lo = lo + 1;
    }
    let mut hi: usize = n;
    while hi > lo && (f[hi - 1] == ' ' || f[hi - 1] == '\t' || f[hi - 1] == '\n' || f[hi - 1] == '\r'
        || f[hi - 1] == '\x0c')
        invariant
            n == f@.len(),
            lo <= hi <= n,
            forall|i: int| hi <= i < n ==> is_space(#[trigger] f@[i]),
        decreases hi - lo,
    {
        hi = hi - 1;
    }
    proof {
        if lo < hi {
            assert(!is_space(f@[lo as int]));
            assert(!is_space(f@[hi - 1]));
        }
        lemma_trimmed(f@, lo as int, hi as int);
    }
    read_int(f, lo, hi)
}

/// Reads a comma-separated list of integer ids, such as `"1, 2,3"`; `None`
/// when some field is not an integer that fits in an `i32`.
pub fn parse_ids(s: &str) -> (r: Option<Vec<i32>>)
    ensures
        match r {
            Some(v) => parsed_ids(s@) == Some(v@),
            None => parsed_ids(s@) is None,
        },
{
    let n = s.unicode_len();
    let mut out: Vec<i32> = Vec::new();
    let mut cur: Vec<char> = Vec::new();
    let mut bad = false;
    let ghost mut done: Seq<Seq<char>> = Seq::empty();
    let mut i: usize = 0;
    proof {
        assert(s@.take(0) =~= Seq::<char>::empty());
        assert(cur@ =~= Seq::<char>::empty());
    }
    while i < n
        invariant
            n == s@.len(),
            i <= n,
            fields(s@.take(i as int)) == done.push(cur@),
            !bad ==> out@.len() == done.len() && forall|j: int|
                0 <= j < done.len() ==> field_value(#[trigger] done[j]) == Some(out@[j]),
            bad ==> exists|j: int| 0 <= j < done.len() && (#[trigger] field_value(done[j])) is None,
        decreases n - i,
    {
        let c = s.get_char(i);
        proof {
            lemma_fields_step(s@, i as int);
        }
        if c == ',' {
            let v = read_field(&cur);
            proof {
                let prev = done;
                done = done.push(cur@);
                assert(done[prev.len() as int] == cur@);
                if bad {
                    let j = choose|j: int| 0 <= j < prev.len() && (#[trigger] field_value(prev[j])) is None;
                    assert(done[j] == prev[j]);
                }
                assert forall|j: int| 0 <= j < prev.len() implies done[j] == prev[j] by {}
            }
            match v {
                Some(x) => {
                    if !bad {
                        out.push(x);
                    }
                },
                None => {
                    bad = true;
                },
            }
            cur = Vec::new();
            proof {
                assert(cur@ =~= Seq::<char>::empty());
            }
        } else {
            let ghost before = cur@;
            cur.push(c);
            proof {
                assert(done.push(before).update(done.len() as int, before.push(c)) =~= done.push(
                    cur@,
                ));
            }
        }
        i = i + 1;
    }
    assert(s@.take(n as int) =~= s@);
    let last = read_field(&cur);
    let ghost fs = done.push(cur@);
    if bad {
        assert(!(forall|j: int| 0 <= j < fs.len() ==> (#[trigger] field_value(fs[j])) is Some)) by {
            let j = choose|j: int| 0 <= j < done.len() && (#[trigger] field_value(done[j])) is None;
            assert(fs[j] == done[j]);
        }
        return None;
    }
    match last {
        Some(x) => {
            out.push(x);
            assert forall|j: int| 0 <= j < fs.len() implies (#[trigger] field_value(fs[j])) is Some by {
                if j < done.len() {
                    assert(fs[j] == done[j]);
                }
            }
            assert(out@ =~= Seq::new(fs.len(), |j: int| field_value(fs[j])->0)) by {
                assert forall|j: int| 0 <= j < fs.len() implies out@[j] == field_value(fs[j])->0 by {
                    if j < done.len() {
                        assert(fs[j] == done[j]);
                    }
                }
            }
            Some(out)
        },
        None => {
            assert(field_value(fs[done.len() as int]) is None);
            None
        },
    }
}

} // verus!
