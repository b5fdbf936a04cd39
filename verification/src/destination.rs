//! Where a stream is sent, read from the text of a destination address.
//!
//! `file://PATH` and any text without a known scheme name a file,
//! `udp://HOST:PORT` names a datagram destination, with a port from 0 to
//! 65535, and `-` names the standard output.

use vstd::prelude::*;
use crate::bytes::copy_of;
use crate::error::MuxError;

verus! {

/// A destination.
#[derive(Debug, PartialEq, Eq)]
pub enum Destination {
    /// A file; the path is kept as the bytes of the address.
    File { path: Vec<u8> },
    /// A host and a port, from 0 to 65535.
    Udp { host: Vec<u8>, port: i32 },
    /// The standard output.
    Stdout,
}

/// Mathematical form of [`Destination`].
pub enum DestinationView {
    File { path: Seq<u8> },
    Udp { host: Seq<u8>, port: i32 },
    Stdout,
}

impl View for Destination {
    type V = DestinationView;

    open spec fn view(&self) -> DestinationView {
        match *self {
            Destination::File { path } => DestinationView::File { path: path@ },
            Destination::Udp { host, port } => DestinationView::Udp { host: host@, port },
            Destination::Stdout => DestinationView::Stdout,
        }
    }
}

/// The bytes of `file://`.
pub open spec fn file_scheme() -> Seq<u8> {
    seq![0x66u8, 0x69u8, 0x6Cu8, 0x65u8, 0x3Au8, 0x2Fu8, 0x2Fu8]
}

/// The bytes of `udp://`.
pub open spec fn udp_scheme() -> Seq<u8> {
    seq![0x75u8, 0x64u8, 0x70u8, 0x3Au8, 0x2Fu8, 0x2Fu8]
}

/// Whether `text` begins with `prefix`.
pub open spec fn begins_with(text: Seq<u8>, prefix: Seq<u8>) -> bool {
    text.len() >= prefix.len() && text.subrange(0, prefix.len() as int) == prefix
}

/// Whether `byte` is a decimal digit.
pub open spec fn is_digit(byte: u8) -> bool {
    0x30 <= byte <= 0x39
}

/// Whether `text` is made of decimal digits only.
pub open spec fn all_digits(text: Seq<u8>) -> bool {
    forall|i: int| 0 <= i < text.len() ==> is_digit(#[trigger] text[i])
}

/// The number that a run of decimal digits stands for.
pub open spec fn digits_value(digits: Seq<u8>) -> nat
    decreases digits.len(),
{
    if digits.len() == 0 {
        0
    } else {
        (digits_value(digits.drop_last()) * 10 + (digits.last() - 0x30)) as nat
    }
}

/// The 32-bit signed number written in `text`: an optional `+` or `-`,
/// then at least one decimal digit, and a value in range.
pub open spec fn decimal_i32(text: Seq<u8>) -> Option<i32> {
    let signed = text.len() > 0 && (text[0] == 0x2D || text[0] == 0x2B);
    let negative = text.len() > 0 && text[0] == 0x2D;
    let digits = if signed {
        text.skip(1)
    } else {
        text
    };
    if digits.len() == 0 || !all_digits(digits) {
        None
    } else if negative {
        if digits_value(digits) <= 0x8000_0000 {
            Some((-digits_value(digits)) as i32)
        } else {
            None
        }
    } else {
        if digits_value(digits) <= 0x7FFF_FFFF {
            Some(digits_value(digits) as i32)
        } else {
            None
        }
    }
}

/// Number of colons in `text`.
pub open spec fn colon_count(text: Seq<u8>) -> nat
    decreases text.len(),
{
    if text.len() == 0 {
        0
    } else {
        colon_count(text.drop_last()) + (if text.last() == 0x3A { 1nat } else { 0nat })
    }
}

/// Index of the first colon in `text`, or the length of `text` if it has
/// none.
pub open spec fn first_colon(text: Seq<u8>) -> int
    decreases text.len(),
{
    if text.len() == 0 {
        0
    } else if text[0] == 0x3A {
        0
    } else {
        1 + first_colon(text.skip(1))
    }
}

/// Largest port number.
pub const MAX_PORT: i32 = 65535;

/// Whether a number is a port number.
pub open spec fn is_port(port: i32) -> bool {
    0 <= port <= MAX_PORT
}

/// Whether a number is a port number.
pub fn check_port(port: i32) -> (ok: bool)
    ensures
        ok == is_port(port),
{
    0 <= port && port <= MAX_PORT
}

/// The destination that the text after `udp://` names: host and port on
/// either side of the only colon, the port a port number.
pub open spec fn udp_destination(rest: Seq<u8>) -> Option<DestinationView> {
    if colon_count(rest) != 1 {
        None
    } else {
        match decimal_i32(rest.skip(first_colon(rest) + 1)) {
            Some(port) => if is_port(port) {
                Some(DestinationView::Udp { host: rest.take(first_colon(rest)), port })
            } else {
                None
            },
            None => None,
        }
    }
}

/// The destination that an address names, if it names one.
pub open spec fn destination_of(target: Seq<u8>) -> Option<DestinationView> {
    if begins_with(target, file_scheme()) {
        Some(DestinationView::File { path: target.skip(7) })
    } else if begins_with(target, udp_scheme()) {
        udp_destination(target.skip(6))
    } else if target == seq![0x2Du8] {
        Some(DestinationView::Stdout)
    } else {
        Some(DestinationView::File { path: target })
    }
}

/// A run of digits stands for at least as much as any of its beginnings.
proof fn lemma_digits_grow(digits: Seq<u8>, count: int)
    requires
        all_digits(digits),
        0 <= count <= digits.len(),
    ensures
        digits_value(digits.take(count)) <= digits_value(digits),
    decreases digits.len() - count,
{
    if count == digits.len() {
        assert(digits.take(count) =~= digits);
    } else {
        lemma_digits_grow(digits, count + 1);
        let longer = digits.take(count + 1);
        assert(longer.drop_last() =~= digits.take(count));
        assert(is_digit(longer[count]));
    }
}

/// Reads a 32-bit signed decimal number.
pub fn parse_decimal(text: &Vec<u8>) -> (r: Option<i32>)
    ensures
        r == decimal_i32(text@),
{
    let len = text.len();
    if len == 0 {
        return None;
    }
    let negative = text[0] == 0x2D;
    let start: usize = if negative || text[0] == 0x2B { 1 } else { 0 };
    let ghost digits = text@.skip(start as int);
    assert(text@.skip(0) =~= text@);
    if start == len {
        return None;
    }
    let limit: u64 = if negative { 0x8000_0000 } else { 0x7FFF_FFFF };
    let mut value: u64 = 0;
    let mut index: usize = start;
    assert(digits.take(0) =~= Seq::<u8>::empty());
    while index < len
        invariant
            start <= index <= len,
            0 < len == text.len(),
            negative == (text[0] == 0x2D),
            start == (if text[0] == 0x2D || text[0] == 0x2B { 1int } else { 0int }),
            limit == (if negative { 0x8000_0000int } else { 0x7FFF_FFFFint }),
            start < len,
            digits == text@.skip(start as int),
            start == 0 ==> digits == text@,
            all_digits(digits.take(index - start)),
            value == digits_value(digits.take(index - start)),
            value <= limit <= 0x8000_0000,
        decreases len - index,
    {
        let byte = text[index];
        let ghost longer = digits.take(index - start + 1);
        proof {
            assert(longer.drop_last() =~= digits.take(index - start));
            assert(longer.last() == byte);
            assert(digits[index - start] == byte);
        }
        if byte < 0x30 || byte > 0x39 {
            return None;
        }
        value = value * 10 + (byte - 0x30) as u64;
        assert(all_digits(longer)) by {
            assert forall|i: int| 0 <= i < longer.len() implies is_digit(#[trigger] longer[i]) by {
                if i < index - start {
                    assert(longer[i] == digits.take(index - start)[i]);
                }
            }
        }
        if value > limit {
            proof {
                if all_digits(digits) {
                    lemma_digits_grow(digits, index - start + 1);
                }
            }
            return None;
        }
        index = index + 1;
    }
    assert(digits.take(len - start) =~= digits);
    if negative {
        Some((0 - value as i64) as i32)
    } else {
        Some(value as i32)
    }
}

/// Where the first colon of a text is, given that it has none before
/// `index` and one at `index`, or none at all.
proof fn lemma_first_colon(text: Seq<u8>, index: int)
    requires
        0 <= index <= text.len(),
        forall|i: int| 0 <= i < index ==> text[i] != 0x3A,
        index < text.len() ==> text[index] == 0x3A,
    ensures
        first_colon(text) == index,
    decreases text.len(),
{
    if text.len() > 0 && index > 0 {
        let rest = text.skip(1);
        assert forall|i: int| 0 <= i < index - 1 implies rest[i] != 0x3A by {
            assert(rest[i] == text[i + 1]);
        }
        lemma_first_colon(rest, index - 1);
    }
}

/// Finds the first colon of `text` and counts its colons.
fn scan_colons(text: &Vec<u8>) -> (r: (usize, usize))
    ensures
        r.0 == first_colon(text@),
        r.1 == colon_count(text@),
        r.0 <= text.len(),
        r.1 > 0 ==> r.0 < text.len(),
{
    let mut first: usize = text.len();
    let mut count: usize = 0;
    let mut index: usize = 0;
    assert(text@.take(0) =~= Seq::<u8>::empty());
    while index < text.len()
        invariant
            index <= text.len(),
            count == colon_count(text@.take(index as int)),
            count <= index,
            count == 0 ==> first == text.len(),
            count > 0 ==> first < index && text[first as int] == 0x3A,
            forall|i: int| 0 <= i < index && i < first ==> text[i] != 0x3A,
        decreases text.len() - index,
    {
        proof {
            let longer = text@.take(index + 1);
            assert(longer.drop_last() =~= text@.take(index as int));
            assert(longer.last() == text[index as int]);
        }
        if text[index] == 0x3A {
            if count == 0 {
                first = index;
            }
            count = count + 1;
        }
        index = index + 1;
    }
    proof {
        assert(text@.take(text.len() as int) =~= text@);
        lemma_first_colon(text@, first as int);
    }
    (first, count)
}

/// Whether `text` begins with `file://`.
fn has_file_scheme(text: &[u8]) -> (ok: bool)
    ensures
        ok == begins_with(text@, file_scheme()),
{
    let ok = text.len() >= 7 && text[0] == 0x66 && text[1] == 0x69 && text[2] == 0x6C && text[3]
        == 0x65 && text[4] == 0x3A && text[5] == 0x2F && text[6] == 0x2F;
    proof {
        if text.len() >= 7 {
            let head = text@.subrange(0, 7);
            let scheme = file_scheme();
            if ok {
                assert(head =~= scheme);
            } else {
                assert(head[0] != scheme[0] || head[1] != scheme[1] || head[2] != scheme[2]
                    || head[3] != scheme[3] || head[4] != scheme[4] || head[5] != scheme[5]
                    || head[6] != scheme[6]);
            }
        }
    }
    ok
}

/// Whether `text` begins with `udp://`.
fn has_udp_scheme(text: &[u8]) -> (ok: bool)
    ensures
        ok == begins_with(text@, udp_scheme()),
{
    let ok = text.len() >= 6 && text[0] == 0x75 && text[1] == 0x64 && text[2] == 0x70 && text[3]
        == 0x3A && text[4] == 0x2F && text[5] == 0x2F;
    proof {
        if text.len() >= 6 {
            let head = text@.subrange(0, 6);
            let scheme = udp_scheme();
            if ok {
                assert(head =~= scheme);
            } else {
                assert(head[0] != scheme[0] || head[1] != scheme[1] || head[2] != scheme[2]
                    || head[3] != scheme[3] || head[4] != scheme[4] || head[5] != scheme[5]);
            }
        }
    }
    ok
}

/// Reads a destination address.
///
/// An address that begins with `udp://` must go on with a host, one colon
/// and a port number; with more or fewer colons, or a port that is not a
/// decimal number from 0 to 65535, it is refused with `Configuration`.
/// Every other address names a destination.
pub fn parse_destination(target: &[u8]) -> (r: Result<Destination, MuxError>)
    ensures
        match r {
            Ok(destination) => destination_of(target@) == Some(destination@),
            Err(e) => e == MuxError::Configuration && destination_of(target@) is None,
        },
{
    let len = target.len();
    if has_file_scheme(target) {
        let path = copy_of(target, 7, len);
        assert(path@ =~= target@.skip(7));
        return Ok(Destination::File { path });
    }
    if has_udp_scheme(target) {
        let rest = copy_of(target, 6, len);
        assert(rest@ =~= target@.skip(6));
        let (colon, count) = scan_colons(&rest);
        if count != 1 {
            return Err(MuxError::Configuration);
        }
        let digits = copy_of(rest.as_slice(), colon + 1, rest.len());
        assert(digits@ =~= rest@.skip(colon + 1));
        return match parse_decimal(&digits) {
            Some(port) => if check_port(port) {
                let host = copy_of(rest.as_slice(), 0, colon);
                assert(host@ =~= rest@.take(colon as int));
                Ok(Destination::Udp { host, port })
            } else {
                Err(MuxError::Configuration)
            },
            None => Err(MuxError::Configuration),
        };
    }
    if len == 1 && target[0] == 0x2D {
        assert(target@ =~= seq![0x2Du8]);
        return Ok(Destination::Stdout);
    }
    let path = copy_of(target, 0, len);
    assert(path@ =~= target@);
    Ok(Destination::File { path })
}

} // verus!
