//! The booking store: read-modify-write operations on the persisted
//! document.
//!
//! The store owns no file handle; it works on the document's text. A
//! caller reads the document, hands it to one of these operations, and
//! writes the returned text back, keeping the whole cycle behind one
//! mutual-exclusion boundary so that no two cycles interleave.

use vstd::prelude::*;
use crate::booking::{Booking, BookingView, views};
use crate::codec::{decode, encode, enc_doc, loaded, lemma_load_of_save};

verus! {

/// The collection with the record at `i` removed and later records
/// shifted down one position; unchanged when `i` is out of bounds.
pub open spec fn remove_at(bs: Seq<BookingView>, i: int) -> Seq<BookingView> {
    if 0 <= i < bs.len() {
        bs.remove(i)
    } else {
        bs
    }
}

/// The booking `b` with its completion flag set to `completed` and every
/// other field unchanged.
pub open spec fn with_completed(b: BookingView, completed: bool) -> BookingView {
    BookingView { completed, ..b }
}

/// The collection with only the completion flag of the record at `i`
/// replaced by `completed`; unchanged when `i` is out of bounds.
pub open spec fn set_completed(bs: Seq<BookingView>, i: int, completed: bool) -> Seq<
    BookingView,
> {
    if 0 <= i < bs.len() {
        bs.update(i, with_completed(bs[i], completed))
    } else {
        bs
    }
}

/// The collection with only the completion flag of the record at `i`
/// flipped; unchanged when `i` is out of bounds.
pub open spec fn toggled_at(bs: Seq<BookingView>, i: int) -> Seq<BookingView> {
    if 0 <= i < bs.len() {
        bs.update(i, with_completed(bs[i], !bs[i].completed))
    } else {
        bs
    }
}

/// Reads the whole collection out of a persisted document. A document
/// that is not a well-formed encoding — absent storage handed over as
/// empty text, an unreadable file, a schema-incompatible document —
/// loads as the empty collection rather than an error.
pub fn load(doc: &str) -> (r: Vec<Booking>)
    ensures
        views(r@) == loaded(doc@),
{
    decode(doc)
}

/// Serializes the full collection; the result is the document to write
/// back over the stored one.
pub fn save(bookings: &Vec<Booking>) -> (r: String)
    ensures
        r@ == enc_doc(views(bookings@)),
{
    encode(bookings)
}

/// Load–append–save: the new document holds the old collection with `b`
/// at the end.
pub fn append(doc: &str, b: Booking) -> (r: String)
    ensures
        r@ == enc_doc(loaded(doc@).push(b@)),
{
    let mut v = decode(doc);
    v.push(b);
    proof {
        assert(views(v@) =~= loaded(doc@).push(v@[v@.len() - 1]@));
    }
    encode(&v)
}

/// Load–delete–save: within bounds, the record at `index` is removed and
/// later records shift down one position; out of bounds, the document's
/// collection is unchanged (a silent no-op, so a stale index from an
/// already-rendered page deletes nothing by accident).
pub fn delete_at(doc: &str, index: usize) -> (r: String)
    ensures
        r@ == enc_doc(remove_at(loaded(doc@), index as int)),
{
    let mut v = decode(doc);
    if index < v.len() {
        v.remove(index);
        proof {
            assert(views(v@) =~= remove_at(loaded(doc@), index as int));
        }
    }
    encode(&v)
}

/// Load–update–save: within bounds, only the completion flag of the
/// record at `index` is replaced by `completed`; every other field and
/// every other record is unchanged. Out of bounds, the collection is
/// unchanged.
pub fn set_completed_at(doc: &str, index: usize, completed: bool) -> (r: String)
    ensures
        r@ == enc_doc(set_completed(loaded(doc@), index as int, completed)),
{
    let mut v = decode(doc);
    if index < v.len() {
        let b = v.remove(index);
        let nb = Booking { completed, ..b };
        v.insert(index, nb);
        proof {
            assert(views(v@) =~= set_completed(loaded(doc@), index as int, completed));
        }
    }
    encode(&v)
}

/// Load–toggle–save: within bounds, only the completion flag of the
/// record at `index` is flipped; out of bounds, the collection is
/// unchanged.
pub fn toggle_completed_at(doc: &str, index: usize) -> (r: String)
    ensures
        r@ == enc_doc(toggled_at(loaded(doc@), index as int)),
{
    let mut v = decode(doc);
    if index < v.len() {
        let b = v.remove(index);
        let flag = b.completed;
        let nb = Booking { completed: !flag, ..b };
        v.insert(index, nb);
        proof {
            assert(views(v@) =~= toggled_at(loaded(doc@), index as int));
        }
    }
    encode(&v)
}

/// Deleting at `i` and then loading yields the collection with the
/// record at position `i` removed and all others in their original
/// relative order; an out-of-bounds `i` leaves the collection unchanged.
pub proof fn lemma_delete_then_load(d: Seq<char>, i: int)
    ensures
        loaded(enc_doc(remove_at(loaded(d), i))) == remove_at(loaded(d), i),
{
    lemma_load_of_save(remove_at(loaded(d), i));
}

/// Updating the completion flag at `i` and then loading yields the
/// collection with exactly that one flag changed.
pub proof fn lemma_update_then_load(d: Seq<char>, i: int, completed: bool)
    ensures
        loaded(enc_doc(set_completed(loaded(d), i, completed))) == set_completed(
            loaded(d),
            i,
            completed,
        ),
{
    lemma_load_of_save(set_completed(loaded(d), i, completed));
}

} // verus!
