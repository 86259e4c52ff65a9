//! How a query ended.

use vstd::prelude::*;

verus! {

/// How a query ended.
#[derive(Debug, Clone, Copy, PartialEq, Eq, Structural)]
pub enum QueryStatus {
    /// Not known, or not ended.
    Unknown,
    /// Blocked.
    Blocked,
    /// Answered from the cache.
    Cached,
    /// Answered by an upstream.
    Forwarded,
    /// NXDOMAIN.
    Nxdomain,
    /// SERVFAIL.
    Servfail,
    /// Tried again.
    Retried,
    /// Refused, because the client sent too many queries.
    RateLimited,
}

/// The number of a status.
pub open spec fn status_number(s: QueryStatus) -> i32 {
    match s {
        QueryStatus::Unknown => 0,
        QueryStatus::Blocked => 1,
        QueryStatus::Cached => 2,
        QueryStatus::Forwarded => 3,
        QueryStatus::Nxdomain => 4,
        QueryStatus::Servfail => 5,
        QueryStatus::Retried => 6,
        QueryStatus::RateLimited => 7,
    }
}

impl QueryStatus {
    /// The status with the given number; unknown where no status has it.
    pub fn from_i32(n: i32) -> (r: QueryStatus)
        ensures
            1 <= n <= 7 ==> status_number(r) == n,
            !(1 <= n <= 7) ==> r == QueryStatus::Unknown,
    {
        match n {
            1 => QueryStatus::Blocked,
            2 => QueryStatus::Cached,
            3 => QueryStatus::Forwarded,
            4 => QueryStatus::Nxdomain,
            5 => QueryStatus::Servfail,
            6 => QueryStatus::Retried,
            7 => QueryStatus::RateLimited,
            _ => QueryStatus::Unknown,
        }
    }

    /// The number of the status.
    pub fn to_i32(&self) -> (r: i32)
        ensures
            r == status_number(*self),
    {
        match self {
            QueryStatus::Unknown => 0,
            QueryStatus::Blocked => 1,
            QueryStatus::Cached => 2,
            QueryStatus::Forwarded => 3,
            QueryStatus::Nxdomain => 4,
            QueryStatus::Servfail => 5,
            QueryStatus::Retried => 6,
            QueryStatus::RateLimited => 7,
        }
    }
}

/// Two statuses with the same number are the same.
pub proof fn law_status_numbers_are_distinct(a: QueryStatus, b: QueryStatus)
    requires
        status_number(a) == status_number(b),
    ensures
        a == b,
{
}

/// The numbers under which the log keeps what became of a query, and that they are read back.
pub proof fn law_statuses_have_their_numbers(s: QueryStatus, n: i32, r: QueryStatus)
    requires
        QueryStatus::from_i32.ensures((n,), r),
    ensures
        s == QueryStatus::Unknown <==> status_number(s) == 0,
        s == QueryStatus::Blocked <==> status_number(s) == 1,
        s == QueryStatus::Cached <==> status_number(s) == 2,
        s == QueryStatus::Forwarded <==> status_number(s) == 3,
        s == QueryStatus::Nxdomain <==> status_number(s) == 4,
        s == QueryStatus::Servfail <==> status_number(s) == 5,
        s == QueryStatus::Retried <==> status_number(s) == 6,
        s == QueryStatus::RateLimited <==> status_number(s) == 7,
        n == status_number(s) ==> r == s,
        n < 0 || n > 7 ==> r == QueryStatus::Unknown,
{
}

} // verus!
