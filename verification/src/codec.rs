//! The persisted document format: the booking collection as one JSON
//! array of objects, with a verified encoder and decoder.
//!
//! The encoder emits a canonical compact form: fixed key order, no
//! whitespace, `"` and `\` escaped, control characters written `\u00XX`.
//! The decoder accepts exactly the documents the encoder produces and is
//! the inverse of the encoder on them; any other input counts as a
//! malformed document.

use vstd::prelude::*;
use vstd::arithmetic::div_mod::lemma_fundamental_div_mod;
use crate::booking::{Booking, BookingView, views};
use crate::text::{chars_of, string_of, push_chars};

verus! {

// ---------------------------------------------------------------------
// The encoding, as a specification.
// ---------------------------------------------------------------------

/// The object opener together with the first key: `{"name":`.
pub open spec fn k_name() -> Seq<char> {
    "{\"name\":"@
}

/// The key separator and key: `,"address":`.
pub open spec fn k_address() -> Seq<char> {
    ",\"address\":"@
}

/// The key separator and key: `,"booked_on":`.
pub open spec fn k_booked_on() -> Seq<char> {
    ",\"booked_on\":"@
}

/// The key separator and key: `,"booking_date":`.
pub open spec fn k_booking_date() -> Seq<char> {
    ",\"booking_date\":"@
}

/// The key separator and key: `,"booking_time":`.
pub open spec fn k_booking_time() -> Seq<char> {
    ",\"booking_time\":"@
}

/// The key separator and key: `,"completed":`.
pub open spec fn k_completed() -> Seq<char> {
    ",\"completed\":"@
}

/// The hexadecimal digit character for a value below 16.
pub open spec fn hex_digit(n: int) -> char {
    if n == 0 {
        '0'
    } else if n == 1 {
        '1'
    } else if n == 2 {
        '2'
    } else if n == 3 {
        '3'
    } else if n == 4 {
        '4'
    } else if n == 5 {
        '5'
    } else if n == 6 {
        '6'
    } else if n == 7 {
        '7'
    } else if n == 8 {
        '8'
    } else if n == 9 {
        '9'
    } else if n == 10 {
        'a'
    } else if n == 11 {
        'b'
    } else if n == 12 {
        'c'
    } else if n == 13 {
        'd'
    } else if n == 14 {
        'e'
    } else {
        'f'
    }
}

/// How one character appears inside a JSON string: quote and backslash
/// escaped, control characters as `\u00XX`, all others as themselves.
pub open spec fn esc_char(c: char) -> Seq<char> {
    if c == '"' {
        seq!['\\', '"']
    } else if c == '\\' {
        seq!['\\', '\\']
    } else if (c as u32) < 32 {
        seq![
            '\\',
            'u',
            '0',
            '0',
            hex_digit(((c as u32) / 16) as int),
            hex_digit(((c as u32) % 16) as int),
        ]
    } else {
        seq![c]
    }
}

/// The escaped body of a JSON string.
pub open spec fn esc(s: Seq<char>) -> Seq<char>
    decreases s.len(),
{
    if s.len() == 0 {
        Seq::empty()
    } else {
        esc_char(s[0]) + esc(s.skip(1))
    }
}

/// A JSON string: quote, escaped body, quote.
pub open spec fn qstr(s: Seq<char>) -> Seq<char> {
    seq!['"'] + esc(s) + seq!['"']
}

/// A JSON boolean.
pub open spec fn enc_bool(b: bool) -> Seq<char> {
    if b {
        "true"@
    } else {
        "false"@
    }
}

/// One booking as a JSON object, fields in fixed order.
#[verifier::opaque]
pub open spec fn enc_booking(b: BookingView) -> Seq<char> {
    k_name() + qstr(b.name) + k_address() + qstr(b.address) + k_booked_on() + qstr(b.booked_on)
        + k_booking_date() + qstr(b.booking_date) + k_booking_time() + qstr(b.booking_time)
        + k_completed() + enc_bool(b.completed) + seq!['}']
}

/// The comma-separated bookings of a document body.
pub open spec fn enc_items(bs: Seq<BookingView>) -> Seq<char>
    decreases bs.len(),
{
    if bs.len() == 0 {
        Seq::empty()
    } else if bs.len() == 1 {
        enc_booking(bs[0])
    } else {
        enc_booking(bs[0]) + seq![','] + enc_items(bs.skip(1))
    }
}

/// A whole booking document: a JSON array of booking objects.
pub open spec fn enc_doc(bs: Seq<BookingView>) -> Seq<char> {
    seq!['['] + enc_items(bs) + seq![']']
}

// ---------------------------------------------------------------------
// The encoder.
// ---------------------------------------------------------------------

/// Escaping a sequence extended by one character appends that character's
/// escape.
proof fn lemma_esc_snoc(s: Seq<char>, c: char)
    ensures
        esc(s.push(c)) == esc(s) + esc_char(c),
    decreases s.len(),
{
    assert(esc(s.push(c)) == esc_char(s.push(c)[0]) + esc(s.push(c).skip(1)));
    if s.len() == 0 {
        assert(s.push(c)[0] == c);
        assert(s.push(c).skip(1) =~= Seq::<char>::empty());
        assert(esc(Seq::<char>::empty()) == Seq::<char>::empty());
        assert(esc(s.push(c)) =~= esc(s) + esc_char(c));
    } else {
        lemma_esc_snoc(s.skip(1), c);
        assert(s.push(c).skip(1) =~= s.skip(1).push(c));
        assert(s.push(c)[0] == s[0]);
        assert(esc(s.push(c)) =~= esc(s) + esc_char(c));
    }
}

/// A document body extended by one booking appends a comma and that
/// booking's object.
proof fn lemma_enc_items_snoc(bs: Seq<BookingView>, b: BookingView)
    requires
        bs.len() >= 1,
    ensures
        enc_items(bs.push(b)) == enc_items(bs) + seq![','] + enc_booking(b),
    decreases bs.len(),
{
    if bs.len() == 1 {
        assert(bs.push(b).skip(1) =~= seq![b]);
        assert(bs.push(b)[0] == bs[0]);
        assert(enc_items(seq![b]) == enc_booking(b));
        assert(enc_items(bs.push(b)) =~= enc_items(bs) + seq![','] + enc_booking(b));
    } else {
        lemma_enc_items_snoc(bs.skip(1), b);
        assert(bs.push(b).skip(1) =~= bs.skip(1).push(b));
        assert(bs.push(b)[0] == bs[0]);
        assert(enc_items(bs.push(b)) =~= enc_items(bs) + seq![','] + enc_booking(b));
    }
}

/// The hexadecimal digit character for a value below 16.
fn hex_char(n: u32) -> (c: char)
    requires
        n < 16,
    ensures
        c == hex_digit(n as int),
{
    if n == 0 {
        '0'
    } else if n == 1 {
        '1'
    } else if n == 2 {
        '2'
    } else if n == 3 {
        '3'
    } else if n == 4 {
        '4'
    } else if n == 5 {
        '5'
    } else if n == 6 {
        '6'
    } else if n == 7 {
        '7'
    } else if n == 8 {
        '8'
    } else if n == 9 {
        '9'
    } else if n == 10 {
        'a'
    } else if n == 11 {
        'b'
    } else if n == 12 {
        'c'
    } else if n == 13 {
        'd'
    } else if n == 14 {
        'e'
    } else {
        'f'
    }
}

/// Appends the escaped body of `s` to `out`.
fn emit_esc(out: &mut Vec<char>, s: &str)
    ensures
        final(out)@ == old(out)@ + esc(s@),
{
    let cs = chars_of(s);
    let mut i: usize = 0;
    while i < cs.len()
        invariant
            cs@ == s@,
            i <= cs@.len(),
            out@ == old(out)@ + esc(cs@.subrange(0, i as int)),
        decreases cs@.len() - i,
    {
        let c = cs[i];
        let ghost pre = out@;
        let v = c as u32;
        if c == '"' {
            out.push('\\');
            out.push('"');
        } else if c == '\\' {
            out.push('\\');
            out.push('\\');
        } else if v < 32 {
            out.push('\\');
            out.push('u');
            out.push('0');
            out.push('0');
            out.push(hex_char(v / 16));
            out.push(hex_char(v % 16));
        } else {
            out.push(c);
        }
        proof {
            assert(out@ =~= pre + esc_char(cs@[i as int]));
            lemma_esc_snoc(cs@.subrange(0, i as int), cs@[i as int]);
            assert(cs@.subrange(0, i as int).push(cs@[i as int]) =~= cs@.subrange(
                0,
                i as int + 1,
            ));
        }
        i += 1;
    }
    proof {
        assert(cs@.subrange(0, cs@.len() as int) =~= cs@);
    }
}

/// Appends the JSON string for `s` to `out`.
fn emit_qstr(out: &mut Vec<char>, s: &str)
    ensures
        final(out)@ == old(out)@ + qstr(s@),
{
    out.push('"');
    emit_esc(out, s);
    out.push('"');
    proof {
        assert(out@ =~= old(out)@ + qstr(s@));
    }
}

/// Appends the JSON object for booking `b` to `out`.
fn emit_booking(out: &mut Vec<char>, b: &Booking)
    ensures
        final(out)@ == old(out)@ + enc_booking(b@),
{
    push_chars(out, "{\"name\":");
    emit_qstr(out, b.name.as_str());
    push_chars(out, ",\"address\":");
    emit_qstr(out, b.address.as_str());
    push_chars(out, ",\"booked_on\":");
    emit_qstr(out, b.booked_on.as_str());
    push_chars(out, ",\"booking_date\":");
    emit_qstr(out, b.booking_date.as_str());
    push_chars(out, ",\"booking_time\":");
    emit_qstr(out, b.booking_time.as_str());
    push_chars(out, ",\"completed\":");
    if b.completed {
        push_chars(out, "true");
    } else {
        push_chars(out, "false");
    }
    out.push('}');
    proof {
        reveal(enc_booking);
        assert(out@ =~= old(out)@ + enc_booking(b@));
    }
}

/// Serializes the whole collection as one JSON document.
pub fn encode(bookings: &Vec<Booking>) -> (r: String)
    ensures
        r@ == enc_doc(views(bookings@)),
{
    let mut out: Vec<char> = Vec::new();
    out.push('[');
    let mut i: usize = 0;
    while i < bookings.len()
        invariant
            i <= bookings@.len(),
            out@ == seq!['['] + enc_items(views(bookings@).subrange(0, i as int)),
        decreases bookings@.len() - i,
    {
        let ghost pre = views(bookings@).subrange(0, i as int);
        if i > 0 {
            out.push(',');
        }
        emit_booking(&mut out, &bookings[i]);
        proof {
            if i == 0 {
                assert(views(bookings@).subrange(0, 1) =~= seq![views(bookings@)[0]]);
                assert(out@ =~= seq!['['] + enc_items(views(bookings@).subrange(0, 1)));
            } else {
                lemma_enc_items_snoc(pre, views(bookings@)[i as int]);
                assert(pre.push(views(bookings@)[i as int]) =~= views(bookings@).subrange(
                    0,
                    i as int + 1,
                ));
                assert(out@ =~= seq!['['] + enc_items(views(bookings@).subrange(0, i as int + 1)));
            }
        }
        i += 1;
    }
    out.push(']');
    proof {
        assert(views(bookings@).subrange(0, bookings@.len() as int) =~= views(bookings@));
        assert(out@ =~= enc_doc(views(bookings@)));
    }
    string_of(&out)
}

// ---------------------------------------------------------------------
// The decoding, as a specification.
// ---------------------------------------------------------------------

/// The value of a lowercase hexadecimal digit character, `-1` for any
/// other character.
pub open spec fn hex_val(c: char) -> int {
    if c == '0' {
        0
    } else if c == '1' {
        1
    } else if c == '2' {
        2
    } else if c == '3' {
        3
    } else if c == '4' {
        4
    } else if c == '5' {
        5
    } else if c == '6' {
        6
    } else if c == '7' {
        7
    } else if c == '8' {
        8
    } else if c == '9' {
        9
    } else if c == 'a' {
        10
    } else if c == 'b' {
        11
    } else if c == 'c' {
        12
    } else if c == 'd' {
        13
    } else if c == 'e' {
        14
    } else if c == 'f' {
        15
    } else {
        -1
    }
}

/// Whether `c` is a lowercase hexadecimal digit.
pub open spec fn is_hex(c: char) -> bool {
    hex_val(c) >= 0
}

/// The control character with code `v`.
pub open spec fn ctrl_char(v: int) -> char
    recommends
        0 <= v < 32,
{
    (v as u8) as char
}

/// The parse of a JSON string body starting at `i`, just after the
/// opening quote: the decoded characters and the position after the
/// closing quote. `None` where no well-formed string body starts at `i`.
pub open spec fn p_content(s: Seq<char>, i: int) -> Option<(Seq<char>, int)>
    decreases s.len() - i,
{
    if i < 0 || i >= s.len() {
        None
    } else if s[i] == '"' {
        Some((Seq::empty(), i + 1))
    } else if s[i] == '\\' {
        if i + 1 < s.len() && (s[i + 1] == '"' || s[i + 1] == '\\') {
            match p_content(s, i + 2) {
                Some((t, j)) => Some((seq![s[i + 1]] + t, j)),
                None => None,
            }
        } else if i + 5 < s.len() && s[i + 1] == 'u' && s[i + 2] == '0' && s[i + 3] == '0'
            && is_hex(s[i + 4]) && is_hex(s[i + 5]) && hex_val(s[i + 4]) * 16 + hex_val(s[i + 5])
            < 32 {
            match p_content(s, i + 6) {
                Some((t, j)) => Some(
                    (seq![ctrl_char(hex_val(s[i + 4]) * 16 + hex_val(s[i + 5]))] + t, j),
                ),
                None => None,
            }
        } else {
            None
        }
    } else {
        match p_content(s, i + 1) {
            Some((t, j)) => Some((seq![s[i]] + t, j)),
            None => None,
        }
    }
}

/// Whether the characters of `lit` stand in `s` at position `i`.
pub open spec fn at_lit(s: Seq<char>, i: int, lit: Seq<char>) -> bool {
    &&& 0 <= i
    &&& i + lit.len() <= s.len()
    &&& s.subrange(i, i + lit.len()) == lit
}

/// The parse of a JSON string (both quotes included) starting at `i`.
pub open spec fn p_qstr(s: Seq<char>, i: int) -> Option<(Seq<char>, int)> {
    if 0 <= i < s.len() && s[i] == '"' {
        p_content(s, i + 1)
    } else {
        None
    }
}

/// The parse of a JSON boolean starting at `i`.
pub open spec fn p_bool(s: Seq<char>, i: int) -> Option<(bool, int)> {
    if at_lit(s, i, "true"@) {
        Some((true, i + "true"@.len()))
    } else if at_lit(s, i, "false"@) {
        Some((false, i + "false"@.len()))
    } else {
        None
    }
}

/// The parse of one booking object starting at `i`: keys in the fixed
/// order the encoder writes them.
pub open spec fn p_booking(s: Seq<char>, i: int) -> Option<(BookingView, int)> {
    if !at_lit(s, i, k_name()) {
        None
    } else {
        match p_qstr(s, i + k_name().len()) {
            None => None,
            Some((name, i1)) => if !at_lit(s, i1, k_address()) {
                None
            } else {
                match p_qstr(s, i1 + k_address().len()) {
                    None => None,
                    Some((address, i2)) => if !at_lit(s, i2, k_booked_on()) {
                        None
                    } else {
                        match p_qstr(s, i2 + k_booked_on().len()) {
                            None => None,
                            Some((booked_on, i3)) => if !at_lit(s, i3, k_booking_date()) {
                                None
                            } else {
                                match p_qstr(s, i3 + k_booking_date().len()) {
                                    None => None,
                                    Some((booking_date, i4)) => if !at_lit(
                                        s,
                                        i4,
                                        k_booking_time(),
                                    ) {
                                        None
                                    } else {
                                        match p_qstr(s, i4 + k_booking_time().len()) {
                                            None => None,
                                            Some((booking_time, i5)) => if !at_lit(
                                                s,
                                                i5,
                                                k_completed(),
                                            ) {
                                                None
                                            } else {
                                                match p_bool(s, i5 + k_completed().len()) {
                                                    None => None,
                                                    Some((completed, i6)) => if 0 <= i6 < s.len()
                                                        && s[i6] == '}' {
                                                        Some(
                                                            (
                                                                BookingView {
                                                                    name,
                                                                    address,
                                                                    booked_on,
                                                                    booking_date,
                                                                    booking_time,
                                                                    completed,
                                                                },
                                                                i6 + 1,
                                                            ),
                                                        )
                                                    } else {
                                                        None
                                                    },
                                                }
                                            },
                                        }
                                    },
                                }
                            },
                        }
                    },
                }
            },
        }
    }
}

/// The parse of one or more comma-separated bookings starting at `i`,
/// through the closing `]` of the array.
pub open spec fn p_items(s: Seq<char>, i: int) -> Option<(Seq<BookingView>, int)>
    decreases s.len() - i,
{
    if i < 0 || i > s.len() {
        None
    } else {
        match p_booking(s, i) {
            None => None,
            Some((b, j)) => {
                if !(i < j && j < s.len()) {
                    None
                } else if s[j] == ']' {
                    Some((seq![b], j + 1))
                } else if s[j] == ',' {
                    match p_items(s, j + 1) {
                        None => None,
                        Some((bs, k)) => Some((seq![b] + bs, k)),
                    }
                } else {
                    None
                }
            },
        }
    }
}

/// The parse of a whole document: `[]`, or `[` bookings `]`, with
/// nothing before or after.
pub open spec fn p_doc(s: Seq<char>) -> Option<Seq<BookingView>> {
    if s.len() == 2 && s[0] == '[' && s[1] == ']' {
        Some(Seq::empty())
    } else if s.len() >= 1 && s[0] == '[' {
        match p_items(s, 1) {
            None => None,
            Some((bs, j)) => if j == s.len() {
                Some(bs)
            } else {
                None
            },
        }
    } else {
        None
    }
}

/// The collection a persisted document loads as: its parse where it is a
/// well-formed document, and the empty collection for any other input —
/// malformed or missing storage counts as "no bookings yet".
pub open spec fn loaded(d: Seq<char>) -> Seq<BookingView> {
    match p_doc(d) {
        Some(bs) => bs,
        None => Seq::empty(),
    }
}

// ---------------------------------------------------------------------
// The decoder inverts the encoder.
// ---------------------------------------------------------------------

/// A control character is recovered from its own code.
proof fn lemma_ctrl_char_id(c: char)
    requires
        (c as u32) < 32,
    ensures
        ctrl_char((c as u32) as int) == c,
{
    assert(((c as u32) as u8) as char == c);
    assert(((c as u32) as int) as u8 == (c as u32) as u8);
}

/// Parsing a string body recovers exactly the characters that were
/// escaped, and stops at the closing quote.
proof fn lemma_p_content_rt(pre: Seq<char>, s0: Seq<char>, rest: Seq<char>)
    ensures
        p_content(pre + esc(s0) + seq!['"'] + rest, pre.len() as int) == Some(
            (s0, pre.len() as int + esc(s0).len() + 1),
        ),
    decreases s0.len(),
{
    let s = pre + esc(s0) + seq!['"'] + rest;
    if s0.len() == 0 {
        assert(esc(s0) == Seq::<char>::empty());
        assert(s[pre.len() as int] == '"');
        assert(s0 =~= Seq::<char>::empty());
    } else {
        let c = s0[0];
        let tail = s0.skip(1);
        assert(esc(s0) == esc_char(c) + esc(tail));
        let pre2 = pre + esc_char(c);
        assert(s =~= pre2 + esc(tail) + seq!['"'] + rest);
        lemma_p_content_rt(pre2, tail, rest);
        assert(seq![c] + tail =~= s0);
        if c == '"' {
            assert(s[pre.len() as int] == '\\');
            assert(s[pre.len() as int + 1] == '"');
            assert(pre2.len() == pre.len() + 2);
        } else if c == '\\' {
            assert(s[pre.len() as int] == '\\');
            assert(s[pre.len() as int + 1] == '\\');
            assert(pre2.len() == pre.len() + 2);
        } else if (c as u32) < 32 {
            let v = c as u32;
            assert(s[pre.len() as int] == '\\');
            assert(s[pre.len() as int + 1] == 'u');
            assert(s[pre.len() as int + 2] == '0');
            assert(s[pre.len() as int + 3] == '0');
            assert(s[pre.len() as int + 4] == hex_digit((v / 16) as int));
            assert(s[pre.len() as int + 5] == hex_digit((v % 16) as int));
            assert(hex_val(hex_digit((v / 16) as int)) == (v / 16) as int);
            assert(hex_val(hex_digit((v % 16) as int)) == (v % 16) as int);
            lemma_fundamental_div_mod(v as int, 16);
            assert((v / 16) as int * 16 + (v % 16) as int == v as int);
            lemma_ctrl_char_id(c);
            assert(ctrl_char(v as int) == c);
            assert(pre2.len() == pre.len() + 6);
            assert(pre.len() + 5 < s.len());
        } else {
            assert(s[pre.len() as int] == c);
            assert(pre2.len() == pre.len() + 1);
        }
    }
}

/// A literal is found where it was written.
proof fn lemma_at_lit(pre: Seq<char>, lit: Seq<char>, rest: Seq<char>)
    ensures
        at_lit(pre + lit + rest, pre.len() as int, lit),
{
    assert((pre + lit + rest).subrange(pre.len() as int, pre.len() as int + lit.len()) =~= lit);
}

/// Parsing a quoted string recovers exactly the characters that were
/// written.
proof fn lemma_p_qstr_rt(pre: Seq<char>, s0: Seq<char>, rest: Seq<char>)
    ensures
        p_qstr(pre + qstr(s0) + rest, pre.len() as int) == Some(
            (s0, pre.len() as int + qstr(s0).len()),
        ),
{
    let s = pre + qstr(s0) + rest;
    assert(s[pre.len() as int] == '"');
    assert(s =~= (pre + seq!['"']) + esc(s0) + seq!['"'] + rest);
    lemma_p_content_rt(pre + seq!['"'], s0, rest);
    assert((pre + seq!['"']).len() == pre.len() + 1);
}

/// Parsing a boolean recovers the boolean that was written.
proof fn lemma_p_bool_rt(pre: Seq<char>, b: bool, rest: Seq<char>)
    ensures
        p_bool(pre + enc_bool(b) + rest, pre.len() as int) == Some(
            (b, pre.len() as int + enc_bool(b).len()),
        ),
{
    reveal_strlit("true");
    reveal_strlit("false");
    let s = pre + enc_bool(b) + rest;
    if b {
        lemma_at_lit(pre, "true"@, rest);
        assert(at_lit(s, pre.len() as int, "true"@));
    } else {
        lemma_at_lit(pre, "false"@, rest);
        assert(at_lit(s, pre.len() as int, "false"@));
        assert(!at_lit(s, pre.len() as int, "true"@)) by {
            if at_lit(s, pre.len() as int, "true"@) {
                assert(s.subrange(pre.len() as int, pre.len() as int + 4)[0] == 't');
                assert(s[pre.len() as int] == 'f');
            }
        }
    }
}

/// The position just past `name`'s value, where `,"address":` begins.
spec fn pos_addr(pre: Seq<char>, b: BookingView) -> int {
    (pre.len() + k_name().len() + qstr(b.name).len()) as int
}

/// The position just past `address`'s value.
spec fn pos_bkon(pre: Seq<char>, b: BookingView) -> int {
    pos_addr(pre, b) + (k_address().len() + qstr(b.address).len()) as int
}

/// The position just past `booked_on`'s value.
spec fn pos_bdate(pre: Seq<char>, b: BookingView) -> int {
    pos_bkon(pre, b) + (k_booked_on().len() + qstr(b.booked_on).len()) as int
}

/// The position just past `booking_date`'s value.
spec fn pos_btime(pre: Seq<char>, b: BookingView) -> int {
    pos_bdate(pre, b) + (k_booking_date().len() + qstr(b.booking_date).len()) as int
}

/// The position just past `booking_time`'s value.
spec fn pos_compl(pre: Seq<char>, b: BookingView) -> int {
    pos_btime(pre, b) + (k_booking_time().len() + qstr(b.booking_time).len()) as int
}

/// The position of the closing `}` of the object.
spec fn pos_close(pre: Seq<char>, b: BookingView) -> int {
    pos_compl(pre, b) + (k_completed().len() + enc_bool(b.completed).len()) as int
}

/// One key and its quoted value parse where they were written.
proof fn lemma_peel(front: Seq<char>, key: Seq<char>, val: Seq<char>, back: Seq<char>, s: Seq<
    char,
>)
    requires
        s == front + (key + (qstr(val) + back)),
    ensures
        at_lit(s, front.len() as int, key),
        p_qstr(s, front.len() as int + key.len()) == Some(
            (val, (front.len() + key.len() + qstr(val).len()) as int),
        ),
{
    assert(s =~= front + key + (qstr(val) + back));
    lemma_at_lit(front, key, qstr(val) + back);
    assert(s =~= (front + key) + qstr(val) + back);
    lemma_p_qstr_rt(front + key, val, back);
}

/// The `name` field parses where the encoder wrote it.
#[verifier::rlimit(100)]
proof fn lemma_bk_name(pre: Seq<char>, b: BookingView, rest: Seq<char>)
    ensures
        at_lit(pre + enc_booking(b) + rest, pre.len() as int, k_name()),
        p_qstr(pre + enc_booking(b) + rest, pre.len() as int + k_name().len()) == Some(
            (b.name, pos_addr(pre, b)),
        ),
{
    reveal(enc_booking);
    let s = pre + enc_booking(b) + rest;
    let back = k_address() + qstr(b.address) + k_booked_on() + qstr(b.booked_on)
        + k_booking_date() + qstr(b.booking_date) + k_booking_time() + qstr(b.booking_time)
        + k_completed() + enc_bool(b.completed) + seq!['}'] + rest;
    assert(s =~= pre + (k_name() + (qstr(b.name) + back)));
    lemma_peel(pre, k_name(), b.name, back, s);
}

/// The `address` field parses where the encoder wrote it.
#[verifier::rlimit(100)]
proof fn lemma_bk_address(pre: Seq<char>, b: BookingView, rest: Seq<char>)
    ensures
        at_lit(pre + enc_booking(b) + rest, pos_addr(pre, b), k_address()),
        p_qstr(pre + enc_booking(b) + rest, pos_addr(pre, b) + k_address().len()) == Some(
            (b.address, pos_bkon(pre, b)),
        ),
{
    reveal(enc_booking);
    let s = pre + enc_booking(b) + rest;
    let front = pre + k_name() + qstr(b.name);
    let back = k_booked_on() + qstr(b.booked_on) + k_booking_date() + qstr(b.booking_date)
        + k_booking_time() + qstr(b.booking_time) + k_completed() + enc_bool(b.completed)
        + seq!['}'] + rest;
    assert(s =~= front + (k_address() + (qstr(b.address) + back)));
    assert(front.len() as int == pos_addr(pre, b));
    lemma_peel(front, k_address(), b.address, back, s);
}

/// The `booked_on` field parses where the encoder wrote it.
#[verifier::rlimit(100)]
proof fn lemma_bk_booked_on(pre: Seq<char>, b: BookingView, rest: Seq<char>)
    ensures
        at_lit(pre + enc_booking(b) + rest, pos_bkon(pre, b), k_booked_on()),
        p_qstr(pre + enc_booking(b) + rest, pos_bkon(pre, b) + k_booked_on().len()) == Some(
            (b.booked_on, pos_bdate(pre, b)),
        ),
{
    reveal(enc_booking);
    let s = pre + enc_booking(b) + rest;
    let front = pre + k_name() + qstr(b.name) + k_address() + qstr(b.address);
    let back = k_booking_date() + qstr(b.booking_date) + k_booking_time() + qstr(b.booking_time)
        + k_completed() + enc_bool(b.completed) + seq!['}'] + rest;
    assert(s =~= front + (k_booked_on() + (qstr(b.booked_on) + back)));
    assert(front.len() as int == pos_bkon(pre, b));
    lemma_peel(front, k_booked_on(), b.booked_on, back, s);
}

/// The `booking_date` field parses where the encoder wrote it.
#[verifier::rlimit(100)]
proof fn lemma_bk_booking_date(pre: Seq<char>, b: BookingView, rest: Seq<char>)
    ensures
        at_lit(pre + enc_booking(b) + rest, pos_bdate(pre, b), k_booking_date()),
        p_qstr(pre + enc_booking(b) + rest, pos_bdate(pre, b) + k_booking_date().len()) == Some(
            (b.booking_date, pos_btime(pre, b)),
        ),
{
    reveal(enc_booking);
    let s = pre + enc_booking(b) + rest;
    let front = pre + k_name() + qstr(b.name) + k_address() + qstr(b.address) + k_booked_on()
        + qstr(b.booked_on);
    let back = k_booking_time() + qstr(b.booking_time) + k_completed() + enc_bool(b.completed)
        + seq!['}'] + rest;
    assert(s =~= front + (k_booking_date() + (qstr(b.booking_date) + back)));
    assert(front.len() as int == pos_bdate(pre, b));
    lemma_peel(front, k_booking_date(), b.booking_date, back, s);
}

/// The `booking_time` field parses where the encoder wrote it.
#[verifier::rlimit(100)]
proof fn lemma_bk_booking_time(pre: Seq<char>, b: BookingView, rest: Seq<char>)
    ensures
        at_lit(pre + enc_booking(b) + rest, pos_btime(pre, b), k_booking_time()),
        p_qstr(pre + enc_booking(b) + rest, pos_btime(pre, b) + k_booking_time().len()) == Some(
            (b.booking_time, pos_compl(pre, b)),
        ),
{
    reveal(enc_booking);
    let s = pre + enc_booking(b) + rest;
    let front = pre + k_name() + qstr(b.name) + k_address() + qstr(b.address) + k_booked_on()
        + qstr(b.booked_on) + k_booking_date() + qstr(b.booking_date);
    let back = k_completed() + enc_bool(b.completed) + seq!['}'] + rest;
    assert(s =~= front + (k_booking_time() + (qstr(b.booking_time) + back)));
    assert(front.len() as int == pos_btime(pre, b));
    lemma_peel(front, k_booking_time(), b.booking_time, back, s);
}

/// The `completed` field and the closing brace parse where the encoder
/// wrote them.
#[verifier::rlimit(100)]
proof fn lemma_bk_completed(pre: Seq<char>, b: BookingView, rest: Seq<char>)
    ensures
        at_lit(pre + enc_booking(b) + rest, pos_compl(pre, b), k_completed()),
        p_bool(pre + enc_booking(b) + rest, pos_compl(pre, b) + k_completed().len()) == Some(
            (b.completed, pos_close(pre, b)),
        ),
        pos_close(pre, b) < (pre + enc_booking(b) + rest).len(),
        (pre + enc_booking(b) + rest)[pos_close(pre, b)] == '}',
        pos_close(pre, b) + 1 == pre.len() as int + enc_booking(b).len(),
{
    reveal(enc_booking);
    let s = pre + enc_booking(b) + rest;
    let front = pre + k_name() + qstr(b.name) + k_address() + qstr(b.address) + k_booked_on()
        + qstr(b.booked_on) + k_booking_date() + qstr(b.booking_date) + k_booking_time()
        + qstr(b.booking_time);
    let back = seq!['}'] + rest;
    assert(s =~= front + k_completed() + (enc_bool(b.completed) + back));
    lemma_at_lit(front, k_completed(), enc_bool(b.completed) + back);
    assert(front.len() as int == pos_compl(pre, b));
    assert(s =~= (front + k_completed()) + enc_bool(b.completed) + back);
    lemma_p_bool_rt(front + k_completed(), b.completed, back);
    let mid = (front + k_completed()) + enc_bool(b.completed);
    assert(s =~= mid + (seq!['}'] + rest));
    assert(mid.len() as int == pos_close(pre, b));
    assert(s[pos_close(pre, b)] == (seq!['}'] + rest)[0]);
}

/// Parsing a booking object recovers the booking that was written.
#[verifier::rlimit(100)]
proof fn lemma_p_booking_rt(pre: Seq<char>, b: BookingView, rest: Seq<char>)
    ensures
        p_booking(pre + enc_booking(b) + rest, pre.len() as int) == Some(
            (b, pre.len() as int + enc_booking(b).len()),
        ),
{
    reveal(enc_booking);
    let s = pre + enc_booking(b) + rest;
    lemma_bk_name(pre, b, rest);
    lemma_bk_address(pre, b, rest);
    lemma_bk_booked_on(pre, b, rest);
    lemma_bk_booking_date(pre, b, rest);
    lemma_bk_booking_time(pre, b, rest);
    lemma_bk_completed(pre, b, rest);
    assert(p_booking(s, pre.len() as int) == Some((b, pos_close(pre, b) + 1)));
}


/// The object of any booking is at least one character long.
proof fn lemma_enc_booking_len(b: BookingView)
    ensures
        enc_booking(b).len() >= 3,
{
    reveal(enc_booking);
    reveal_strlit("{\"name\":");
    assert(k_name().len() == 8);
}

/// Parsing the items of a non-empty document body recovers the bookings
/// that were written, through the closing bracket.
#[verifier::rlimit(100)]
proof fn lemma_p_items_rt(pre: Seq<char>, bs: Seq<BookingView>, rest: Seq<char>)
    requires
        bs.len() >= 1,
    ensures
        p_items(pre + enc_items(bs) + seq![']'] + rest, pre.len() as int) == Some(
            (bs, pre.len() as int + enc_items(bs).len() + 1),
        ),
    decreases bs.len(),
{
    let s = pre + enc_items(bs) + seq![']'] + rest;
    lemma_enc_booking_len(bs[0]);
    if bs.len() == 1 {
        assert(enc_items(bs) == enc_booking(bs[0]));
        let left = pre + enc_booking(bs[0]);
        let right = seq![']'] + rest;
        assert(s =~= left + right);
        lemma_p_booking_rt(pre, bs[0], right);
        let j = pre.len() as int + enc_booking(bs[0]).len();
        assert(left.len() as int == j);
        assert(s[j] == right[0]);
        assert(s[j] == ']');
        assert(seq![bs[0]] =~= bs);
    } else {
        assert(enc_items(bs) == enc_booking(bs[0]) + seq![','] + enc_items(bs.skip(1)));
        let tail_rest = seq![','] + (enc_items(bs.skip(1)) + seq![']'] + rest);
        let left = pre + enc_booking(bs[0]);
        assert(s =~= left + tail_rest);
        lemma_p_booking_rt(pre, bs[0], tail_rest);
        let j = pre.len() as int + enc_booking(bs[0]).len();
        assert(left.len() as int == j);
        assert(s[j] == tail_rest[0]);
        assert(s[j] == ',');
        let pre2 = left + seq![','];
        assert(s =~= pre2 + enc_items(bs.skip(1)) + seq![']'] + rest);
        lemma_p_items_rt(pre2, bs.skip(1), rest);
        assert(pre2.len() == j + 1);
        assert(seq![bs[0]] + bs.skip(1) =~= bs);
    }
}

/// Loading a saved document yields exactly the saved collection: the
/// decoder inverts the encoder on every collection of bookings.
pub proof fn lemma_load_of_save(bs: Seq<BookingView>)
    ensures
        p_doc(enc_doc(bs)) == Some(bs),
{
    let s = enc_doc(bs);
    if bs.len() == 0 {
        assert(enc_items(bs) == Seq::<char>::empty());
        assert(s =~= seq!['[', ']']);
        assert(s.len() == 2 && s[0] == '[' && s[1] == ']');
        assert(bs =~= Seq::<BookingView>::empty());
    } else {
        lemma_enc_booking_len(bs[0]);
        assert(enc_items(bs).len() >= enc_booking(bs[0]).len()) by {
            if bs.len() > 1 {
                assert(enc_items(bs) == enc_booking(bs[0]) + seq![','] + enc_items(bs.skip(1)));
            }
        }
        assert(s.len() > 2);
        assert(s[0] == '[');
        assert(s =~= seq!['['] + enc_items(bs) + seq![']'] + Seq::<char>::empty());
        lemma_p_items_rt(seq!['['], bs, Seq::empty());
        assert(p_items(s, 1) == Some((bs, s.len() as int)));
    }
}

/// Saving what a stored document loads as reproduces the document
/// exactly: `Save(Load())` is a no-op on any document the store wrote.
pub proof fn lemma_save_of_load(d: Seq<char>)
    requires
        exists|bs: Seq<BookingView>| d == enc_doc(bs),
    ensures
        enc_doc(loaded(d)) == d,
{
    let bs = choose|bs: Seq<BookingView>| d == enc_doc(bs);
    lemma_load_of_save(bs);
}

// ---------------------------------------------------------------------
// The decoder.
// ---------------------------------------------------------------------

/// The value of a lowercase hexadecimal digit character.
fn hex_of(c: char) -> (r: Option<u32>)
    ensures
        match r {
            Some(v) => is_hex(c) && v == hex_val(c) && v < 16,
            None => !is_hex(c),
        },
{
    if c == '0' {
        Some(0)
    } else if c == '1' {
        Some(1)
    } else if c == '2' {
        Some(2)
    } else if c == '3' {
        Some(3)
    } else if c == '4' {
        Some(4)
    } else if c == '5' {
        Some(5)
    } else if c == '6' {
        Some(6)
    } else if c == '7' {
        Some(7)
    } else if c == '8' {
        Some(8)
    } else if c == '9' {
        Some(9)
    } else if c == 'a' {
        Some(10)
    } else if c == 'b' {
        Some(11)
    } else if c == 'c' {
        Some(12)
    } else if c == 'd' {
        Some(13)
    } else if c == 'e' {
        Some(14)
    } else if c == 'f' {
        Some(15)
    } else {
        None
    }
}

/// Parses a JSON string body, from just after the opening quote through
/// the closing quote.
fn parse_content(s: &Vec<char>, i: usize) -> (r: Option<(Vec<char>, usize)>)
    requires
        i <= s@.len(),
    ensures
        match r {
            Some((t, j)) => p_content(s@, i as int) == Some((t@, j as int)) && j <= s@.len(),
            None => p_content(s@, i as int) is None,
        },
    decreases s@.len() - i,
{
    if i >= s.len() {
        return None;
    }
    let c = s[i];
    if c == '"' {
        let t: Vec<char> = Vec::new();
        proof {
            assert(t@ =~= Seq::<char>::empty());
        }
        Some((t, i + 1))
    } else if c == '\\' {
        if s.len() - i >= 2 && (s[i + 1] == '"' || s[i + 1] == '\\') {
            let e = s[i + 1];
            match parse_content(s, i + 2) {
                Some((t, j)) => {
                    let mut w = t;
                    w.insert(0, e);
                    proof {
                        assert(w@ =~= seq![s@[i as int + 1]] + w@.skip(1));
                    }
                    Some((w, j))
                },
                None => None,
            }
        } else if s.len() - i >= 6 && s[i + 1] == 'u' && s[i + 2] == '0' && s[i + 3] == '0' {
            let h1 = hex_of(s[i + 4]);
            let h2 = hex_of(s[i + 5]);
            match (h1, h2) {
                (Some(a), Some(d)) => {
                    let v = a * 16 + d;
                    if v < 32 {
                        match parse_content(s, i + 6) {
                            Some((t, j)) => {
                                let mut w = t;
                                w.insert(0, (v as u8) as char);
                                proof {
                                    assert(w@ =~= seq![ctrl_char(v as int)] + w@.skip(1));
                                }
                                Some((w, j))
                            },
                            None => None,
                        }
                    } else {
                        None
                    }
                },
                _ => None,
            }
        } else {
            None
        }
    } else {
        match parse_content(s, i + 1) {
            Some((t, j)) => {
                let mut w = t;
                w.insert(0, c);
                proof {
                    assert(w@ =~= seq![s@[i as int]] + w@.skip(1));
                }
                Some((w, j))
            },
            None => None,
        }
    }
}

/// Recognizes the characters of `lit` at position `i`, yielding the
/// position just past them.
fn parse_lit(s: &Vec<char>, i: usize, lit: &str) -> (r: Option<usize>)
    requires
        i <= s@.len(),
    ensures
        match r {
            Some(j) => at_lit(s@, i as int, lit@) && j == i + lit@.len() && j <= s@.len(),
            None => !at_lit(s@, i as int, lit@),
        },
{
    let lv = chars_of(lit);
    if s.len() - i < lv.len() {
        return None;
    }
    let mut k: usize = 0;
    while k < lv.len()
        invariant
            lv@ == lit@,
            s@.len() <= usize::MAX,
            i + lv@.len() <= s@.len(),
            k <= lv@.len(),
            forall|m: int| 0 <= m < k ==> s@[i + m] == lv@[m],
        decreases lv@.len() - k,
    {
        if s[i + k] != lv[k] {
            proof {
                if at_lit(s@, i as int, lit@) {
                    assert(s@.subrange(i as int, i as int + lit@.len() as int)[k as int] == s@[i
                        + k]);
                }
            }
            return None;
        }
        k += 1;
    }
    proof {
        assert(s@.subrange(i as int, i as int + lit@.len() as int) =~= lit@);
    }
    Some(i + lv.len())
}

/// Parses a quoted JSON string at position `i`.
fn parse_qstr(s: &Vec<char>, i: usize) -> (r: Option<(Vec<char>, usize)>)
    requires
        i <= s@.len(),
    ensures
        match r {
            Some((t, j)) => p_qstr(s@, i as int) == Some((t@, j as int)) && j <= s@.len(),
            None => p_qstr(s@, i as int) is None,
        },
{
    if i < s.len() && s[i] == '"' {
        parse_content(s, i + 1)
    } else {
        None
    }
}

/// Parses a JSON boolean at position `i`.
fn parse_bool(s: &Vec<char>, i: usize) -> (r: Option<(bool, usize)>)
    requires
        i <= s@.len(),
    ensures
        match r {
            Some((b, j)) => p_bool(s@, i as int) == Some((b, j as int)) && j <= s@.len(),
            None => p_bool(s@, i as int) is None,
        },
{
    match parse_lit(s, i, "true") {
        Some(j) => Some((true, j)),
        None => {
            match parse_lit(s, i, "false") {
                Some(j) => Some((false, j)),
                None => None,
            }
        },
    }
}

/// Parses one booking object at position `i`.
#[verifier::rlimit(100)]
fn parse_booking(s: &Vec<char>, i: usize) -> (r: Option<(Booking, usize)>)
    requires
        i <= s@.len(),
    ensures
        match r {
            Some((b, j)) => p_booking(s@, i as int) == Some((b@, j as int)) && j <= s@.len(),
            None => p_booking(s@, i as int) is None,
        },
{
    let j0 = match parse_lit(s, i, "{\"name\":") {
        Some(j) => j,
        None => {
            return None;
        },
    };
    let (name, j1) = match parse_qstr(s, j0) {
        Some(x) => x,
        None => {
            return None;
        },
    };
    let j1k = match parse_lit(s, j1, ",\"address\":") {
        Some(j) => j,
        None => {
            return None;
        },
    };
    let (address, j2) = match parse_qstr(s, j1k) {
        Some(x) => x,
        None => {
            return None;
        },
    };
    let j2k = match parse_lit(s, j2, ",\"booked_on\":") {
        Some(j) => j,
        None => {
            return None;
        },
    };
    let (booked_on, j3) = match parse_qstr(s, j2k) {
        Some(x) => x,
        None => {
            return None;
        },
    };
    let j3k = match parse_lit(s, j3, ",\"booking_date\":") {
        Some(j) => j,
        None => {
            return None;
        },
    };
    let (booking_date, j4) = match parse_qstr(s, j3k) {
        Some(x) => x,
        None => {
            return None;
        },
    };
    let j4k = match parse_lit(s, j4, ",\"booking_time\":") {
        Some(j) => j,
        None => {
            return None;
        },
    };
    let (booking_time, j5) = match parse_qstr(s, j4k) {
        Some(x) => x,
        None => {
            return None;
        },
    };
    let j5k = match parse_lit(s, j5, ",\"completed\":") {
        Some(j) => j,
        None => {
            return None;
        },
    };
    let (completed, j6) = match parse_bool(s, j5k) {
        Some(x) => x,
        None => {
            return None;
        },
    };
    if j6 < s.len() && s[j6] == '}' {
        let b = Booking {
            name: string_of(&name),
            address: string_of(&address),
            booked_on: string_of(&booked_on),
            booking_date: string_of(&booking_date),
            booking_time: string_of(&booking_time),
            completed,
        };
        proof {
            assert(b@ =~= BookingView {
                name: name@,
                address: address@,
                booked_on: booked_on@,
                booking_date: booking_date@,
                booking_time: booking_time@,
                completed,
            });
        }
        Some((b, j6 + 1))
    } else {
        None
    }
}

/// Parses the comma-separated bookings of a document body, through the
/// closing bracket.
#[verifier::rlimit(100)]
fn parse_items(s: &Vec<char>, i: usize) -> (r: Option<(Vec<Booking>, usize)>)
    requires
        i <= s@.len(),
    ensures
        match r {
            Some((bs, j)) => p_items(s@, i as int) == Some((views(bs@), j as int)) && j
                <= s@.len(),
            None => p_items(s@, i as int) is None,
        },
    decreases s@.len() - i,
{
    let (b, j) = match parse_booking(s, i) {
        Some(x) => x,
        None => {
            return None;
        },
    };
    if !(i < j && j < s.len()) {
        return None;
    }
    if s[j] == ']' {
        let mut bs: Vec<Booking> = Vec::new();
        bs.push(b);
        proof {
            assert(views(bs@) =~= seq![b@]);
        }
        Some((bs, j + 1))
    } else if s[j] == ',' {
        match parse_items(s, j + 1) {
            Some((t, k)) => {
                let mut bs = t;
                bs.insert(0, b);
                proof {
                    assert(views(bs@) =~= seq![b@] + views(bs@.skip(1)));
                    assert(bs@.skip(1) =~= bs@.subrange(1, bs@.len() as int));
                }
                Some((bs, k))
            },
            None => None,
        }
    } else {
        None
    }
}

/// Deserializes a persisted document into the collection it holds. A
/// document that is not a well-formed encoding — absent, empty, or
/// schema-incompatible — yields the empty collection.
pub fn decode(doc: &str) -> (r: Vec<Booking>)
    ensures
        views(r@) == loaded(doc@),
{
    let s = chars_of(doc);
    if s.len() == 2 && s[0] == '[' && s[1] == ']' {
        let r: Vec<Booking> = Vec::new();
        proof {
            assert(views(r@) =~= Seq::<BookingView>::empty());
        }
        return r;
    }
    if s.len() >= 1 && s[0] == '[' {
        match parse_items(&s, 1) {
            Some((bs, j)) => {
                if j == s.len() {
                    return bs;
                }
            },
            None => {},
        }
    }
    let r: Vec<Booking> = Vec::new();
    proof {
        assert(views(r@) =~= Seq::<BookingView>::empty());
    }
    r
}

} // verus!
