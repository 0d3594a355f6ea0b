//! The newer packed list.
//!
//! After a header of six bytes the entries stand one after the other, up to
//! a byte that ends the list. An entry is a head that tells small numbers,
//! larger numbers and byte strings apart, then the body that the head
//! announces, then the length of head and body once more, written so that
//! the list can be walked from its end; that length is passed over here. A
//! number is handed on as its decimal text.

use crate::decimal::{i64_to_text, signed_text};
use crate::endian::{le_uint, le_value, lemma_le_value_bound, lemma_radix_values};
use crate::error::RedisSyncError;
use crate::io::{agrees, metered, modeled, settles, take_byte, take_exact, ByteReader, ByteSource};
use crate::iter::packed;
use crate::rdb::{int_text_from, parse_int_text};
use crate::resp::{payloads, Parsed};
use vstd::prelude::*;

verus! {

/// The number of bytes before the first entry.
pub const HEADER_LEN: usize = 6;

/// The byte that ends the list.
pub const END: u8 = 0xff;

/// The head of a string whose length takes four bytes.
pub const STRING_32BIT: u8 = 0xf0;

/// The head of a number of two bytes.
pub const INT_16BIT: u8 = 0xf1;

/// The head of a number of three bytes.
pub const INT_24BIT: u8 = 0xf2;

/// The head of a number of four bytes.
pub const INT_32BIT: u8 = 0xf3;

/// The head of a number of eight bytes.
pub const INT_64BIT: u8 = 0xf4;

/// The number of bytes in which the length `entry_len` is written after an entry.
pub open spec fn back_len(entry_len: int) -> int {
    if entry_len <= 127 {
        1
    } else if entry_len < 16383 {
        2
    } else if entry_len < 2097151 {
        3
    } else if entry_len < 268435455 {
        4
    } else {
        5
    }
}

/// A number of thirteen bits read as two's complement.
pub open spec fn signed_13(value: int) -> int {
    if value >= 4096 {
        value - 8192
    } else {
        value
    }
}

/// The body of an entry whose head is `head`, from `s` on: what the entry
/// holds, and how many bytes head and body take together.
pub open spec fn parse_body(head: u8, s: Seq<u8>) -> Parsed<(Seq<u8>, int)> {
    if head < 128 {
        Ok(((signed_text(head as int), 1), s))
    } else if head < 192 {
        match take_exact(s, (head % 64) as int) {
            Ok((bytes, rest)) => Ok(((bytes, 1 + bytes.len() as int), rest)),
            Err(e) => Err(e),
        }
    } else if head < 224 {
        match take_byte(s) {
            Ok((low, rest)) => Ok(((signed_text(signed_13((head % 32) * 256 + low)), 2), rest)),
            Err(e) => Err(e),
        }
    } else if head < 240 {
        match take_byte(s) {
            Ok((low, at_bytes)) => match take_exact(at_bytes, (head % 16) * 256 + low) {
                Ok((bytes, rest)) => Ok(((bytes, 2 + bytes.len() as int), rest)),
                Err(e) => Err(e),
            },
            Err(e) => Err(e),
        }
    } else if head == STRING_32BIT {
        match take_exact(s, 4) {
            Ok((length, at_bytes)) => match take_exact(at_bytes, le_value(length) as int) {
                Ok((bytes, rest)) => Ok(((bytes, 5 + bytes.len() as int), rest)),
                Err(e) => Err(e),
            },
            Err(e) => Err(e),
        }
    } else if head == INT_16BIT {
        match parse_int_text(s, 2) {
            Ok((text, rest)) => Ok(((text, 3), rest)),
            Err(e) => Err(e),
        }
    } else if head == INT_24BIT {
        match parse_int_text(s, 3) {
            Ok((text, rest)) => Ok(((text, 4), rest)),
            Err(e) => Err(e),
        }
    } else if head == INT_32BIT {
        match parse_int_text(s, 4) {
            Ok((text, rest)) => Ok(((text, 5), rest)),
            Err(e) => Err(e),
        }
    } else if head == INT_64BIT {
        match parse_int_text(s, 8) {
            Ok((text, rest)) => Ok(((text, 9), rest)),
            Err(e) => Err(e),
        }
    } else {
        Err(RedisSyncError::Encoding)
    }
}

/// What follows the head `head` of an entry, from `s` on: the body, then
/// the length of the entry, which is passed over.
pub open spec fn parse_after_head(head: u8, s: Seq<u8>) -> Parsed<Seq<u8>> {
    match parse_body(head, s) {
        Ok(((value, entry_len), at_back)) => match take_exact(at_back, back_len(entry_len)) {
            Ok((_, rest)) => Ok((value, rest)),
            Err(e) => Err(e),
        },
        Err(e) => Err(e),
    }
}

/// `done` put before the entries of a parsed list.
pub open spec fn joined<T>(done: Seq<T>, tail: Result<Seq<T>, RedisSyncError>) -> Result<
    Seq<T>,
    RedisSyncError,
> {
    match tail {
        Ok(entries) => Ok(done + entries),
        Err(e) => Err(e),
    }
}

/// The entries from `s` on, up to the byte that ends the list. A list
/// that stops before that byte is malformed.
///
/// The test on lengths always holds, since the head has been taken.
pub open spec fn parse_entries(s: Seq<u8>) -> Result<Seq<Seq<u8>>, RedisSyncError>
    decreases s.len(),
{
    if s.len() == 0 {
        Err(RedisSyncError::Encoding)
    } else if s[0] == END {
        Ok(Seq::empty())
    } else {
        match packed(parse_after_head(s[0], s.skip(1))) {
            Ok((entry, rest)) => if rest.len() < s.len() {
                joined(seq![entry], parse_entries(rest))
            } else {
                Err(RedisSyncError::Encoding)
            },
            Err(e) => Err(e),
        }
    }
}

/// The entries of the packed list that `data` holds.
pub open spec fn parse_listpack(data: Seq<u8>) -> Result<Seq<Seq<u8>>, RedisSyncError> {
    parse_entries(ByteReader::rest_of(data, HEADER_LEN as nat))
}

/// What follows a head gives no bytes back.
pub proof fn lemma_after_head_shrinks(head: u8, s: Seq<u8>)
    ensures
        parse_after_head(head, s) matches Ok((_, rest)) ==> rest.len() < s.len(),
{
}

/// The number of bytes in which the length `entry_len` is written after an entry.
pub fn back_len_of(entry_len: u64) -> (n: u64)
    ensures
        n == back_len(entry_len as int),
{
    if entry_len <= 127 {
        1
    } else if entry_len < 16383 {
        2
    } else if entry_len < 2097151 {
        3
    } else if entry_len < 268435455 {
        4
    } else {
        5
    }
}

/// Reads the bytes of a string of `length` bytes that stands after a head
/// of `head_len` bytes.
fn string_body_from<R: ByteSource>(src: &mut R, length: u64, head_len: u64) -> (r: Result<
    (Vec<u8>, u64),
    RedisSyncError,
>)
    requires
        head_len <= 5,
        length <= 0xffff_ffff,
    ensures
        settles(
            modeled(r, |found: (Vec<u8>, u64)| (found.0@, found.1 as int)),
            old(src).feed(),
            final(src).feed(),
            match take_exact(old(src).feed().pending, length as int) {
                Ok((bytes, rest)) => Ok(((bytes, head_len + bytes.len() as int), rest)),
                Err(e) => Err(e),
            },
        ),
{
    match src.read_exact(length) {
        Ok(bytes) => Ok((bytes, head_len + length)),
        Err(e) => Err(e),
    }
}

/// Reads a number of `width` bytes that stands after a head of one byte.
fn int_body_from<R: ByteSource>(src: &mut R, width: u8) -> (r: Result<(Vec<u8>, u64), RedisSyncError>)
    requires
        1 <= width <= 8,
    ensures
        settles(
            modeled(r, |found: (Vec<u8>, u64)| (found.0@, found.1 as int)),
            old(src).feed(),
            final(src).feed(),
            match parse_int_text(old(src).feed().pending, width as int) {
                Ok((text, rest)) => Ok(((text, 1 + width as int), rest)),
                Err(e) => Err(e),
            },
        ),
{
    match int_text_from(src, width) {
        Ok(text) => Ok((text, 1 + width as u64)),
        Err(e) => Err(e),
    }
}

/// Reads the body of an entry whose head is `head`; gives what the entry
/// holds and how many bytes head and body take together.
pub fn body_from<R: ByteSource>(src: &mut R, head: u8) -> (r: Result<(Vec<u8>, u64), RedisSyncError>)
    ensures
        settles(
            modeled(r, |found: (Vec<u8>, u64)| (found.0@, found.1 as int)),
            old(src).feed(),
            final(src).feed(),
            parse_body(head, old(src).feed().pending),
        ),
{
    if head < 128 {
        Ok((i64_to_text(head as i64), 1))
    } else if head < 192 {
        string_body_from(src, (head % 64) as u64, 1)
    } else if head < 224 {
        match src.read_u8() {
            Ok(low) => {
                let raw: i64 = ((head % 32) as i64) * 256 + low as i64;
                let value: i64 = if raw >= 4096 {
                    raw - 8192
                } else {
                    raw
                };
                Ok((i64_to_text(value), 2))
            },
            Err(e) => Err(e),
        }
    } else if head < 240 {
        match src.read_u8() {
            Ok(low) => string_body_from(src, ((head % 16) as u64) * 256 + low as u64, 2),
            Err(e) => Err(e),
        }
    } else if head == STRING_32BIT {
        match src.read_exact(4) {
            Ok(length) => {
                proof {
                    lemma_le_value_bound(length@);
                    lemma_radix_values();
                }
                string_body_from(src, le_uint(length.as_slice()), 5)
            },
            Err(e) => Err(e),
        }
    } else if head == INT_16BIT {
        int_body_from(src, 2)
    } else if head == INT_24BIT {
        int_body_from(src, 3)
    } else if head == INT_32BIT {
        int_body_from(src, 4)
    } else if head == INT_64BIT {
        int_body_from(src, 8)
    } else {
        Err(RedisSyncError::Encoding)
    }
}

/// Reads what follows the head `head` of an entry and gives what the entry holds.
pub fn after_head_from<R: ByteSource>(src: &mut R, head: u8) -> (r: Result<Vec<u8>, RedisSyncError>)
    ensures
        agrees(
            r,
            old(src).feed(),
            final(src).feed(),
            parse_after_head(head, old(src).feed().pending),
        ),
{
    let (value, entry_len) = match body_from(src, head) {
        Ok(found) => found,
        Err(e) => {
            return Err(e);
        },
    };
    match src.read_exact(back_len_of(entry_len)) {
        Ok(_) => Ok(value),
        Err(e) => Err(e),
    }
}

/// Reads the entries of the packed list that `data` holds.
pub fn listpack_entries(data: Vec<u8>) -> (r: Result<Vec<Vec<u8>>, RedisSyncError>)
    ensures
        modeled(r, |entries: Vec<Vec<u8>>| payloads(entries@)) == parse_listpack(data@),
{
    let mut cursor = ByteReader::new(data);
    cursor.set_position(HEADER_LEN);
    let ghost start = cursor.feed().pending;
    let mut entries: Vec<Vec<u8>> = Vec::new();
    proof {
        assert(payloads(entries@) =~= Seq::<Seq<u8>>::empty());
        match parse_entries(start) {
            Ok(all) => {
                assert(Seq::<Seq<u8>>::empty() + all =~= all);
            },
            Err(_) => {},
        }
    }
    loop
        invariant
            start == ByteReader::rest_of(data@, HEADER_LEN as nat),
            parse_entries(start) == joined(payloads(entries@), parse_entries(cursor.feed().pending)),
        decreases cursor.feed().pending.len(),
    {
        let ghost done = payloads(entries@);
        let ghost here = cursor.feed().pending;
        let head = match cursor.read_u8() {
            Ok(head) => head,
            Err(_) => {
                return Err(RedisSyncError::Encoding);
            },
        };
        if head == END {
            assert(done + Seq::<Seq<u8>>::empty() =~= done);
            return Ok(entries);
        }
        proof {
            lemma_after_head_shrinks(head, here.skip(1));
        }
        match after_head_from(&mut cursor, head) {
            Ok(entry) => {
                let ghost model = entry@;
                entries.push(entry);
                proof {
                    assert(payloads(entries@) =~= done.push(model));
                    match parse_entries(cursor.feed().pending) {
                        Ok(rest) => {
                            assert(done + (seq![model] + rest) =~= done.push(model) + rest);
                        },
                        Err(_) => {},
                    }
                }
            },
            Err(RedisSyncError::Disconnect) => {
                return Err(RedisSyncError::Encoding);
            },
            Err(e) => {
                return Err(e);
            },
        }
    }
}

} // verus!
