//! The booking record and its mathematical value.

use vstd::prelude::*;

verus! {

/// A single reservation record, the sole persisted entity.
///
/// The stored collection is an ordered sequence of these records; records
/// are addressed by zero-based positional index, so insertion order is
/// significant. `booked_on` is stamped by the caller at creation and never
/// recomputed; only `completed` is mutable afterwards.
pub struct Booking {
    pub name: String,
    pub address: String,
    pub booked_on: String,
    pub booking_date: String,
    pub booking_time: String,
    pub completed: bool,
}

/// The value of a booking: each text field as a sequence of characters,
/// and the completion flag.
#[verifier::ext_equal]
pub ghost struct BookingView {
    pub name: Seq<char>,
    pub address: Seq<char>,
    pub booked_on: Seq<char>,
    pub booking_date: Seq<char>,
    pub booking_time: Seq<char>,
    pub completed: bool,
}

impl View for Booking {
    type V = BookingView;

    open spec fn view(&self) -> BookingView {
        BookingView {
            name: self.name@,
            address: self.address@,
            booked_on: self.booked_on@,
            booking_date: self.booking_date@,
            booking_time: self.booking_time@,
            completed: self.completed,
        }
    }
}

/// The views of every booking in a sequence, in order.
pub open spec fn views(bs: Seq<Booking>) -> Seq<BookingView> {
    Seq::new(bs.len(), |i: int| bs[i]@)
}

} // verus!
