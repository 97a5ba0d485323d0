//! Field constraints of cars, parts and user credentials, and paging bounds.

use vstd::prelude::*;

use crate::error::ServiceError;
use crate::model::{Car, NewCar, NewPart, Pagination, Part, UserAuth};

verus! {

pub const NAME_MIN: usize = 1;

pub const NAME_MAX: usize = 80;

pub const USERNAME_MIN: usize = 3;

pub const USERNAME_MAX: usize = 16;

pub const PASSWORD_MIN: usize = 8;

pub const PASSWORD_MAX: usize = 32;

/// A car or part name has between 1 and 80 characters.
pub open spec fn valid_name(s: Seq<char>) -> bool {
    NAME_MIN <= s.len() <= NAME_MAX
}

/// An ASCII letter, an ASCII digit, or an underscore.
pub open spec fn username_char(c: char) -> bool {
    ('0' <= c <= '9') || ('A' <= c <= 'Z') || ('a' <= c <= 'z') || c == '_'
}

/// A username has 3 to 16 characters, each a letter, digit or underscore.
pub open spec fn valid_username(s: Seq<char>) -> bool {
    &&& USERNAME_MIN <= s.len() <= USERNAME_MAX
    &&& forall|i: int| 0 <= i < s.len() ==> username_char(#[trigger] s[i])
}

/// A password has 8 to 32 characters.
pub open spec fn valid_password(s: Seq<char>) -> bool {
    PASSWORD_MIN <= s.len() <= PASSWORD_MAX
}

pub open spec fn valid_user_auth(u: UserAuth) -> bool {
    valid_username(u.username@) && valid_password(u.password@)
}

/// The Ok or Validation result that a check with outcome `ok` gives.
pub open spec fn checked(ok: bool) -> Result<(), ServiceError> {
    if ok {
        Ok(())
    } else {
        Err(ServiceError::Validation)
    }
}

/// Whether a text has between `lo` and `hi` characters.
pub fn length_between(s: &str, lo: usize, hi: usize) -> (r: bool)
    ensures
        r == (lo <= s@.len() <= hi),
{
    let n = s.unicode_len();
    lo <= n && n <= hi
}

/// Whether every character of `s` may stand in a username.
pub fn username_chars(s: &str) -> (r: bool)
    ensures
        r == (forall|i: int| 0 <= i < s@.len() ==> username_char(#[trigger] s@[i])),
{
    let n = s.unicode_len();
    let mut i: usize = 0;
    while i < n
        invariant
            n == s@.len(),
            i <= n,
            forall|k: int| 0 <= k < i ==> username_char(#[trigger] s@[k]),
        decreases n - i,
    {
        let c = s.get_char(i);
        let ok = ('0' <= c && c <= '9') || ('A' <= c && c <= 'Z') || ('a' <= c && c <= 'z')
            || c == '_';
        if !ok {
            return false;
        }
        i = i + 1;
    }
    true
}

impl NewCar {
    pub fn validate(&self) -> (r: Result<(), ServiceError>)
        ensures
            r == checked(valid_name(self.name@)),
    {
        if length_between(self.name.as_str(), NAME_MIN, NAME_MAX) {
            Ok(())
        } else {
            Err(ServiceError::Validation)
        }
    }
}

impl Car {
    pub fn validate(&self) -> (r: Result<(), ServiceError>)
        ensures
            r == checked(valid_name(self.name@)),
    {
        if length_between(self.name.as_str(), NAME_MIN, NAME_MAX) {
            Ok(())
        } else {
            Err(ServiceError::Validation)
        }
    }
}

impl NewPart {
    pub fn validate(&self) -> (r: Result<(), ServiceError>)
        ensures
            r == checked(valid_name(self.name@)),
    {
        if length_between(self.name.as_str(), NAME_MIN, NAME_MAX) {
            Ok(())
        } else {
            Err(ServiceError::Validation)
        }
    }
}

impl Part {
    pub fn validate(&self) -> (r: Result<(), ServiceError>)
        ensures
            r == checked(valid_name(self.name@)),
    {
        if length_between(self.name.as_str(), NAME_MIN, NAME_MAX) {
            Ok(())
        } else {
            Err(ServiceError::Validation)
        }
    }
}

impl UserAuth {
    pub fn validate(&self) -> (r: Result<(), ServiceError>)
        ensures
            r == checked(valid_user_auth(*self)),
    {
        let name = self.username.as_str();
        if length_between(name, USERNAME_MIN, USERNAME_MAX) && username_chars(name)
            && length_between(self.password.as_str(), PASSWORD_MIN, PASSWORD_MAX) {
            Ok(())
        } else {
            Err(ServiceError::Validation)
        }
    }
}

/// The requested page number, 1 when none is given.
pub open spec fn page_of(p: Pagination) -> int {
    match p.page {
        Some(n) => n as int,
        None => crate::model::DEFAULT_PAGE as int,
    }
}

/// The requested page size, 1000 when none is given.
pub open spec fn per_page_of(p: Pagination) -> int {
    match p.per_page {
        Some(n) => n as int,
        None => crate::model::DEFAULT_PER_PAGE as int,
    }
}

impl Pagination {
    /// The zero-based page index and the page size; both the page number and
    /// the page size must be positive.
    pub fn window(&self) -> (r: Result<(usize, usize), ServiceError>)
        ensures
            match r {
                Ok((index, size)) => page_of(*self) >= 1 && per_page_of(*self) >= 1 && index
                    == page_of(*self) - 1 && size == per_page_of(*self),
                Err(e) => e == ServiceError::Validation && (page_of(*self) < 1 || per_page_of(
                    *self,
                ) < 1),
            },
    {
        let page = match self.page {
            Some(n) => n,
            None => crate::model::DEFAULT_PAGE,
        };
        let per_page = match self.per_page {
            Some(n) => n,
            None => crate::model::DEFAULT_PER_PAGE,
        };
        if page == 0 || per_page == 0 {
            Err(ServiceError::Validation)
        } else {
            Ok((page - 1, per_page))
        }
    }
}

} // verus!
