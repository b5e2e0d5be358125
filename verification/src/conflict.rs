//! The conflict resolver: whether a candidate booking's time slot may be
//! accepted next to the bookings already stored.

use vstd::prelude::*;
use crate::booking::{Booking, BookingView, views};
use crate::text::{chars_of, chars_eq};
use crate::timeparse::{valid_time, time_of, parse_time};

verus! {

/// The minimum separation, in minutes, between two bookings on one date.
pub const MIN_SEPARATION_MINUTES: u32 = 45;

/// The absolute difference between two minutes of the day.
pub open spec fn minute_gap(a: int, b: int) -> int {
    if a >= b {
        a - b
    } else {
        b - a
    }
}

/// Whether stored booking `b` collides with a candidate on `date` at
/// minute `t`: equal date (exact string equality, no normalization), a
/// parseable stored time, and a gap under the minimum separation. A stored
/// booking whose time does not parse is never a collision.
pub open spec fn slot_conflict(date: Seq<char>, t: int, b: BookingView) -> bool {
    &&& b.booking_date == date
    &&& valid_time(b.booking_time)
    &&& minute_gap(time_of(b.booking_time), t) < MIN_SEPARATION_MINUTES
}

/// Whether a candidate on `date` at time `time` conflicts with some stored
/// booking. A candidate whose time does not parse never conflicts: an
/// unparseable time cannot be compared, so it is allowed through.
pub open spec fn is_conflict(date: Seq<char>, time: Seq<char>, bs: Seq<BookingView>) -> bool {
    &&& valid_time(time)
    &&& exists|i: int| 0 <= i < bs.len() && slot_conflict(date, time_of(time), bs[i])
}

/// Decides whether the candidate slot `new_date`/`new_time` collides with
/// one of the stored `submissions`: some stored booking on exactly the
/// same date has a parseable time less than 45 minutes away.
pub fn is_duplicate_time(new_date: &str, new_time: &str, submissions: &Vec<Booking>) -> (r: bool)
    ensures
        r == is_conflict(new_date@, new_time@, views(submissions@)),
{
    let nt = match parse_time(new_time) {
        Some(t) => t,
        None => {
            return false;
        },
    };
    let nd = chars_of(new_date);
    let mut i: usize = 0;
    while i < submissions.len()
        invariant
            nd@ == new_date@,
            valid_time(new_time@),
            nt == time_of(new_time@),
            i <= submissions@.len(),
            forall|j: int|
                0 <= j < i ==> !slot_conflict(
                    new_date@,
                    time_of(new_time@),
                    views(submissions@)[j],
                ),
        decreases submissions@.len() - i,
    {
        let s = &submissions[i];
        let sd = chars_of(s.booking_date.as_str());
        if chars_eq(&sd, &nd) {
            match parse_time(s.booking_time.as_str()) {
                Some(t) => {
                    let gap = if nt >= t {
                        nt - t
                    } else {
                        t - nt
                    };
                    if gap < MIN_SEPARATION_MINUTES {
                        proof {
                            assert(slot_conflict(
                                new_date@,
                                time_of(new_time@),
                                views(submissions@)[i as int],
                            ));
                        }
                        return true;
                    }
                },
                None => {},
            }
        }
        i += 1;
    }
    false
}

/// With exactly booking `b` stored, a candidate on `b`'s own date is
/// rejected precisely when the two times are within the minimum
/// separation: under 45 minutes apart conflicts, 45 or more does not.
pub proof fn lemma_same_date_separation(b: BookingView, time: Seq<char>)
    requires
        valid_time(b.booking_time),
        valid_time(time),
    ensures
        is_conflict(b.booking_date, time, seq![b]) <==> minute_gap(
            time_of(b.booking_time),
            time_of(time),
        ) < MIN_SEPARATION_MINUTES,
{
    if minute_gap(time_of(b.booking_time), time_of(time)) < MIN_SEPARATION_MINUTES {
        assert(slot_conflict(b.booking_date, time_of(time), seq![b][0]));
    }
}

/// A candidate never conflicts with bookings whose `booking_date` differs
/// from its own, whatever the time values involved.
pub proof fn lemma_different_date_no_conflict(date: Seq<char>, time: Seq<char>, bs: Seq<
    BookingView,
>)
    requires
        forall|i: int| 0 <= i < bs.len() ==> bs[i].booking_date != date,
    ensures
        !is_conflict(date, time, bs),
{
}

} // verus!
