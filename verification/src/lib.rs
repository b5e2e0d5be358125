//! Booking conflict resolution and persistence engine.
//!
//! The library decides whether a candidate booking may be accepted next to
//! the bookings already stored (a minimum separation of 45 minutes between
//! bookings on the same date), and maintains the stored booking list as a
//! single JSON document through read-modify-write operations: load, save,
//! append, completion-marking and positional delete.

pub mod booking;
pub mod text;
pub mod timeparse;
pub mod conflict;
pub mod codec;
pub mod store;
