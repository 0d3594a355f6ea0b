//! The building blocks of a snapshot: lengths, strings, scores, and the
//! entries of the packed containers.
//!
//! As for the wire format, the grammar is stated as functions from the
//! pending bytes to what they begin with and what follows it, and every
//! reader is held to its grammar function by [`agrees`].

use crate::decimal::{i64_to_text, signed_text};
use crate::endian::{
    be_uint, be_value, le_int, le_uint, le_value, lemma_le_value_bound, lemma_radix_values, signed,
};
use crate::error::RedisSyncError;
use crate::io::{agrees, take_exact, ByteSource};
use crate::lzf::{decompress, decompressed};
use crate::resp::Parsed;
use vstd::prelude::*;

verus! {

/// One entry of a hash.
#[derive(Debug, PartialEq, Eq)]
pub struct Field {
    pub name: Vec<u8>,
    pub value: Vec<u8>,
}

/// What a [`Field`] stands for.
pub ghost struct FieldValue {
    pub name: Seq<u8>,
    pub value: Seq<u8>,
}

impl View for Field {
    type V = FieldValue;

    open spec fn view(&self) -> FieldValue {
        FieldValue { name: self.name@, value: self.value@ }
    }
}

/// The score of a sorted-set member, as the snapshot holds it.
///
/// The newer format holds the bit pattern of a 64-bit float, the older one
/// its decimal text; the three values that have no decimal text are held as
/// their bit patterns in either format.
#[derive(Debug, PartialEq, Eq)]
pub enum Score {
    /// The bit pattern of a 64-bit float.
    Bits(u64),
    /// The decimal text of a float.
    Text(Vec<u8>),
}

/// What a [`Score`] stands for.
pub ghost enum ScoreValue {
    Bits(u64),
    Text(Seq<u8>),
}

impl View for Score {
    type V = ScoreValue;

    open spec fn view(&self) -> ScoreValue {
        match self {
            Score::Bits(bits) => ScoreValue::Bits(*bits),
            Score::Text(text) => ScoreValue::Text(text@),
        }
    }
}

/// One entry of a sorted set.
#[derive(Debug, PartialEq, Eq)]
pub struct Item {
    pub member: Vec<u8>,
    pub score: Score,
}

/// What an [`Item`] stands for.
pub ghost struct ItemValue {
    pub member: Seq<u8>,
    pub score: ScoreValue,
}

impl View for Item {
    type V = ItemValue;

    open spec fn view(&self) -> ItemValue {
        ItemValue { member: self.member@, score: self.score@ }
    }
}

/// The bit pattern of the float that is no number.
pub const NAN_BITS: u64 = 0x7ff8_0000_0000_0000;

/// The bit pattern of positive infinity.
pub const INFINITY_BITS: u64 = 0x7ff0_0000_0000_0000;

/// The bit pattern of negative infinity.
pub const NEG_INFINITY_BITS: u64 = 0xfff0_0000_0000_0000;

/// A length byte that announces a 32-bit length.
pub const LEN_32BIT: u8 = 0x80;

/// A length byte that announces a 64-bit length.
pub const LEN_64BIT: u8 = 0x81;

/// An encoded string that is an 8-bit integer.
pub const ENC_INT8: u64 = 0;

/// An encoded string that is a 16-bit integer.
pub const ENC_INT16: u64 = 1;

/// An encoded string that is a 32-bit integer.
pub const ENC_INT32: u64 = 2;

/// An encoded string that is compressed.
pub const ENC_LZF: u64 = 3;

/// A packed-list entry that is a 16-bit integer.
pub const ZIP_INT_16BIT: u8 = 0xc0;

/// A packed-list entry that is a 32-bit integer.
pub const ZIP_INT_32BIT: u8 = 0xd0;

/// A packed-list entry that is a 64-bit integer.
pub const ZIP_INT_64BIT: u8 = 0xe0;

/// A packed-list entry that is a 24-bit integer.
pub const ZIP_INT_24BIT: u8 = 0xf0;

/// A packed-list entry that is an 8-bit integer.
pub const ZIP_INT_8BIT: u8 = 0xfe;

/// The smallest packed-list entry that holds its integer itself: it holds zero.
pub const ZIP_INT_IMM_MIN: u8 = 0xf1;

/// The largest packed-list entry that holds its integer itself: it holds twelve.
pub const ZIP_INT_IMM_MAX: u8 = 0xfd;

/// The length byte that ends a packed map.
pub const ZM_END: usize = 255;

// ---------------------------------------------------------------------------
// The grammar
// ---------------------------------------------------------------------------

/// `width` bytes read as one number, most significant byte first.
pub open spec fn parse_be(s: Seq<u8>, width: int) -> Parsed<u64> {
    match take_exact(s, width) {
        Ok((bytes, rest)) => Ok((be_value(bytes) as u64, rest)),
        Err(e) => Err(e),
    }
}

/// `width` bytes read as one two's-complement number, least significant byte first.
pub open spec fn parse_le_signed(s: Seq<u8>, width: int) -> Parsed<i64> {
    match take_exact(s, width) {
        Ok((bytes, rest)) => Ok((signed(le_value(bytes), bytes.len()) as i64, rest)),
        Err(e) => Err(e),
    }
}

/// `width` bytes read as a two's-complement number and written out in decimal.
pub open spec fn parse_int_text(s: Seq<u8>, width: int) -> Parsed<Seq<u8>> {
    match parse_le_signed(s, width) {
        Ok((value, rest)) => Ok((signed_text(value as int), rest)),
        Err(e) => Err(e),
    }
}

/// A length, and whether it is no length but the mark of a special encoding.
///
/// The upper two bits of the first byte choose the form: the lower six bits
/// alone; the lower six bits and one more byte; four or eight bytes after a
/// byte that says which; or the lower six bits as the mark of an encoding.
pub open spec fn parse_length(s: Seq<u8>) -> Parsed<(u64, bool)> {
    if s.len() == 0 {
        Err(RedisSyncError::Disconnect)
    } else if s[0] / 64 == 3 {
        Ok((((s[0] % 64) as u64, true), s.skip(1)))
    } else if s[0] / 64 == 0 {
        Ok((((s[0] % 64) as u64, false), s.skip(1)))
    } else if s[0] / 64 == 1 {
        if s.len() < 2 {
            Err(RedisSyncError::Disconnect)
        } else {
            Ok(((((s[0] % 64) * 256 + s[1]) as u64, false), s.skip(2)))
        }
    } else if s[0] == LEN_32BIT {
        match parse_be(s.skip(1), 4) {
            Ok((value, rest)) => Ok(((value, false), rest)),
            Err(e) => Err(e),
        }
    } else if s[0] == LEN_64BIT {
        match parse_be(s.skip(1), 8) {
            Ok((value, rest)) => Ok(((value, false), rest)),
            Err(e) => Err(e),
        }
    } else {
        Err(RedisSyncError::Encoding)
    }
}

/// A compressed string: the length of the compressed data, the length it
/// decompresses to, and the data.
pub open spec fn parse_compressed(s: Seq<u8>) -> Parsed<Seq<u8>> {
    match parse_length(s) {
        Ok(((packed_len, _), after_packed)) => match parse_length(after_packed) {
            Ok(((plain_len, _), after_plain)) => match take_exact(after_plain, packed_len as int) {
                Ok((packed, rest)) => match decompressed(packed, plain_len as nat) {
                    Ok(plain) => Ok((plain, rest)),
                    Err(e) => Err(e),
                },
                Err(e) => Err(e),
            },
            Err(e) => Err(e),
        },
        Err(e) => Err(e),
    }
}

/// A string: a length and that many bytes, or the mark of an encoding and
/// what that encoding holds: an integer, handed on as its decimal text, or
/// compressed data, handed on decompressed.
pub open spec fn parse_string(s: Seq<u8>) -> Parsed<Seq<u8>> {
    match parse_length(s) {
        Ok(((length, encoded), rest)) => if !encoded {
            take_exact(rest, length as int)
        } else if length == ENC_INT8 {
            parse_int_text(rest, 1)
        } else if length == ENC_INT16 {
            parse_int_text(rest, 2)
        } else if length == ENC_INT32 {
            parse_int_text(rest, 4)
        } else if length == ENC_LZF {
            parse_compressed(rest)
        } else {
            Err(RedisSyncError::Encoding)
        },
        Err(e) => Err(e),
    }
}

/// A score of the older format: one byte that either names a value without
/// decimal text or says how many bytes of decimal text follow.
pub open spec fn parse_text_score(s: Seq<u8>) -> Parsed<ScoreValue> {
    if s.len() == 0 {
        Err(RedisSyncError::Disconnect)
    } else if s[0] == 255 {
        Ok((ScoreValue::Bits(NEG_INFINITY_BITS), s.skip(1)))
    } else if s[0] == 254 {
        Ok((ScoreValue::Bits(INFINITY_BITS), s.skip(1)))
    } else if s[0] == 253 {
        Ok((ScoreValue::Bits(NAN_BITS), s.skip(1)))
    } else {
        match take_exact(s.skip(1), s[0] as int) {
            Ok((text, rest)) => Ok((ScoreValue::Text(text), rest)),
            Err(e) => Err(e),
        }
    }
}

/// A score of the newer format: eight bytes, least significant first.
pub open spec fn parse_bits_score(s: Seq<u8>) -> Parsed<ScoreValue> {
    match take_exact(s, 8) {
        Ok((bytes, rest)) => Ok((ScoreValue::Bits(le_value(bytes) as u64), rest)),
        Err(e) => Err(e),
    }
}

/// A length within a packed map: one byte, or the byte 254 and four bytes,
/// least significant first. The byte 255 is no length: it ends the map.
pub open spec fn parse_zm_len(s: Seq<u8>) -> Parsed<usize> {
    if s.len() == 0 {
        Err(RedisSyncError::Disconnect)
    } else if s[0] == 254 {
        match take_exact(s.skip(1), 4) {
            Ok((bytes, rest)) => Ok((le_value(bytes) as usize, rest)),
            Err(e) => Err(e),
        }
    } else {
        Ok((s[0] as usize, s.skip(1)))
    }
}

/// What the head of a packed-list entry says of its body: so many bytes as
/// they are, or an integer of so many bytes, or an integer that the head
/// holds itself.
pub ghost enum EntryBody {
    Bytes(int),
    Integer(int),
    Immediate(int),
}

/// The head of a packed-list entry's value: one byte that tells bytes from
/// integers, and for bytes the length, which may take further bytes.
pub open spec fn parse_entry_head(s: Seq<u8>) -> Parsed<EntryBody> {
    if s.len() == 0 {
        Err(RedisSyncError::Disconnect)
    } else if s[0] / 64 == 0 {
        Ok((EntryBody::Bytes((s[0] % 64) as int), s.skip(1)))
    } else if s[0] / 64 == 1 {
        if s.len() < 2 {
            Err(RedisSyncError::Disconnect)
        } else {
            Ok((EntryBody::Bytes((s[0] % 64) * 256 + s[1]), s.skip(2)))
        }
    } else if s[0] / 64 == 2 {
        match parse_be(s.skip(1), 4) {
            Ok((length, rest)) => Ok((EntryBody::Bytes(length as int), rest)),
            Err(e) => Err(e),
        }
    } else if s[0] == ZIP_INT_8BIT {
        Ok((EntryBody::Integer(1), s.skip(1)))
    } else if s[0] == ZIP_INT_16BIT {
        Ok((EntryBody::Integer(2), s.skip(1)))
    } else if s[0] == ZIP_INT_24BIT {
        Ok((EntryBody::Integer(3), s.skip(1)))
    } else if s[0] == ZIP_INT_32BIT {
        Ok((EntryBody::Integer(4), s.skip(1)))
    } else if s[0] == ZIP_INT_64BIT {
        Ok((EntryBody::Integer(8), s.skip(1)))
    } else if ZIP_INT_IMM_MIN <= s[0] <= ZIP_INT_IMM_MAX {
        Ok((EntryBody::Immediate(s[0] - ZIP_INT_IMM_MIN), s.skip(1)))
    } else {
        Err(RedisSyncError::Encoding)
    }
}

/// The bytes that tell the length of the entry before: one byte, or five
/// where the first is 254 or more. They are passed over.
pub open spec fn parse_previous_length(s: Seq<u8>) -> Parsed<()> {
    if s.len() == 0 {
        Err(RedisSyncError::Disconnect)
    } else if s[0] >= 254 {
        match take_exact(s.skip(1), 4) {
            Ok((_, rest)) => Ok(((), rest)),
            Err(e) => Err(e),
        }
    } else {
        Ok(((), s.skip(1)))
    }
}

/// One entry of a packed list: the length of the entry before, the head,
/// and the body. An integer is handed on as its decimal text.
pub open spec fn parse_zip_list_entry(s: Seq<u8>) -> Parsed<Seq<u8>> {
    match parse_previous_length(s) {
        Ok((_, at_head)) => match parse_entry_head(at_head) {
            Ok((body, rest)) => match body {
                EntryBody::Bytes(length) => take_exact(rest, length),
                EntryBody::Integer(width) => parse_int_text(rest, width),
                EntryBody::Immediate(value) => Ok((signed_text(value), rest)),
            },
            Err(e) => Err(e),
        },
        Err(e) => Err(e),
    }
}

// ---------------------------------------------------------------------------
// The readers
// ---------------------------------------------------------------------------

/// Reads `width` bytes as one number, most significant byte first.
pub(crate) fn be_from<R: ByteSource>(src: &mut R, width: u8) -> (r: Result<u64, RedisSyncError>)
    requires
        1 <= width <= 8,
    ensures
        agrees(r, old(src).feed(), final(src).feed(), parse_be(old(src).feed().pending, width as int)),
{
    match src.read_exact(width as u64) {
        Ok(bytes) => {
            Ok(be_uint(bytes.as_slice()))
        },
        Err(e) => Err(e),
    }
}

/// Reads `width` bytes as one two's-complement number, least significant byte first.
pub(crate) fn le_signed_from<R: ByteSource>(src: &mut R, width: u8) -> (r: Result<i64, RedisSyncError>)
    requires
        1 <= width <= 8,
    ensures
        agrees(
            r,
            old(src).feed(),
            final(src).feed(),
            parse_le_signed(old(src).feed().pending, width as int),
        ),
{
    match src.read_exact(width as u64) {
        Ok(bytes) => {
            Ok(le_int(bytes.as_slice()))
        },
        Err(e) => Err(e),
    }
}

/// Reads `width` bytes as a two's-complement number and gives its decimal text.
pub(crate) fn int_text_from<R: ByteSource>(src: &mut R, width: u8) -> (r: Result<Vec<u8>, RedisSyncError>)
    requires
        1 <= width <= 8,
    ensures
        agrees(
            r,
            old(src).feed(),
            final(src).feed(),
            parse_int_text(old(src).feed().pending, width as int),
        ),
{
    match le_signed_from(src, width) {
        Ok(value) => Ok(i64_to_text(value)),
        Err(e) => Err(e),
    }
}

/// Reads a length, or the mark of a special encoding.
pub fn length_from<R: ByteSource>(src: &mut R) -> (r: Result<(u64, bool), RedisSyncError>)
    ensures
        agrees(r, old(src).feed(), final(src).feed(), parse_length(old(src).feed().pending)),
{
    let first = match src.read_u8() {
        Ok(first) => first,
        Err(e) => {
            return Err(e);
        },
    };
    let form = first / 64;
    if form == 3 {
        Ok(((first % 64) as u64, true))
    } else if form == 0 {
        Ok(((first % 64) as u64, false))
    } else if form == 1 {
        match src.read_u8() {
            Ok(second) => {
                assert(src.feed().pending =~= old(src).feed().pending.skip(2));
                Ok((((first % 64) as u64) * 256 + second as u64, false))
            },
            Err(e) => Err(e),
        }
    } else if first == LEN_32BIT {
        match be_from(src, 4) {
            Ok(value) => Ok((value, false)),
            Err(e) => Err(e),
        }
    } else if first == LEN_64BIT {
        match be_from(src, 8) {
            Ok(value) => Ok((value, false)),
            Err(e) => Err(e),
        }
    } else {
        Err(RedisSyncError::Encoding)
    }
}

/// The fewest bytes that a length can take.
pub proof fn lemma_length_shrinks(s: Seq<u8>)
    ensures
        parse_length(s) matches Ok((_, rest)) ==> rest.len() < s.len(),
{
}

/// A string takes at least one byte.
pub proof fn lemma_string_shrinks(s: Seq<u8>)
    ensures
        parse_string(s) matches Ok((_, rest)) ==> rest.len() < s.len(),
{
    lemma_length_shrinks(s);
    if let Ok(((length, encoded), rest)) = parse_length(s) {
        if encoded && length == ENC_LZF {
            lemma_length_shrinks(rest);
            if let Ok((_, after_packed)) = parse_length(rest) {
                lemma_length_shrinks(after_packed);
            }
        }
    }
}

/// An entry of a packed list takes at least two bytes.
pub proof fn lemma_entry_shrinks(s: Seq<u8>)
    ensures
        parse_zip_list_entry(s) matches Ok((_, rest)) ==> rest.len() + 2 <= s.len(),
{
}

/// Reads a compressed string and gives it decompressed.
pub fn compressed_from<R: ByteSource>(src: &mut R) -> (r: Result<Vec<u8>, RedisSyncError>)
    ensures
        agrees(r, old(src).feed(), final(src).feed(), parse_compressed(old(src).feed().pending)),
{
    proof {
        lemma_length_shrinks(old(src).feed().pending);
    }
    let packed_len = match length_from(src) {
        Ok((length, _)) => length,
        Err(e) => {
            return Err(e);
        },
    };
    proof {
        lemma_length_shrinks(src.feed().pending);
    }
    let plain_len = match length_from(src) {
        Ok((length, _)) => length,
        Err(e) => {
            return Err(e);
        },
    };
    let packed = match src.read_exact(packed_len) {
        Ok(packed) => packed,
        Err(e) => {
            return Err(e);
        },
    };
    decompress(packed.as_slice(), plain_len)
}

/// Reads a string.
pub fn string_from<R: ByteSource>(src: &mut R) -> (r: Result<Vec<u8>, RedisSyncError>)
    ensures
        agrees(r, old(src).feed(), final(src).feed(), parse_string(old(src).feed().pending)),
{
    proof {
        lemma_length_shrinks(old(src).feed().pending);
    }
    let (length, encoded) = match length_from(src) {
        Ok(found) => found,
        Err(e) => {
            return Err(e);
        },
    };
    if !encoded {
        src.read_exact(length)
    } else if length == ENC_INT8 {
        int_text_from(src, 1)
    } else if length == ENC_INT16 {
        int_text_from(src, 2)
    } else if length == ENC_INT32 {
        int_text_from(src, 4)
    } else if length == ENC_LZF {
        compressed_from(src)
    } else {
        Err(RedisSyncError::Encoding)
    }
}

/// Reads a score of the older format.
pub fn text_score_from<R: ByteSource>(src: &mut R) -> (r: Result<Score, RedisSyncError>)
    ensures
        agrees(r, old(src).feed(), final(src).feed(), parse_text_score(old(src).feed().pending)),
{
    let first = match src.read_u8() {
        Ok(first) => first,
        Err(e) => {
            return Err(e);
        },
    };
    if first == 255 {
        Ok(Score::Bits(NEG_INFINITY_BITS))
    } else if first == 254 {
        Ok(Score::Bits(INFINITY_BITS))
    } else if first == 253 {
        Ok(Score::Bits(NAN_BITS))
    } else {
        match src.read_exact(first as u64) {
            Ok(text) => Ok(Score::Text(text)),
            Err(e) => Err(e),
        }
    }
}

/// Reads a score of the newer format.
pub fn bits_score_from<R: ByteSource>(src: &mut R) -> (r: Result<Score, RedisSyncError>)
    ensures
        agrees(r, old(src).feed(), final(src).feed(), parse_bits_score(old(src).feed().pending)),
{
    match src.read_exact(8) {
        Ok(bytes) => Ok(Score::Bits(le_uint(bytes.as_slice()))),
        Err(e) => Err(e),
    }
}

/// Reads a length within a packed map.
pub fn read_zm_len<R: ByteSource>(src: &mut R) -> (r: Result<usize, RedisSyncError>)
    ensures
        agrees(r, old(src).feed(), final(src).feed(), parse_zm_len(old(src).feed().pending)),
{
    let first = match src.read_u8() {
        Ok(first) => first,
        Err(e) => {
            return Err(e);
        },
    };
    if first == 254 {
        match src.read_exact(4) {
            Ok(bytes) => {
                proof {
                    lemma_le_value_bound(bytes@);
                    lemma_radix_values();
                }
                Ok(le_uint(bytes.as_slice()) as usize)
            },
            Err(e) => Err(e),
        }
    } else {
        Ok(first as usize)
    }
}

/// What the head of a packed-list entry says of its body.
pub enum EntryHead {
    /// So many bytes, handed on as they are.
    Bytes(u64),
    /// An integer of so many bytes.
    Integer(u8),
    /// An integer that the head holds itself.
    Immediate(u8),
}

impl View for EntryHead {
    type V = EntryBody;

    open spec fn view(&self) -> EntryBody {
        match self {
            EntryHead::Bytes(length) => EntryBody::Bytes(*length as int),
            EntryHead::Integer(width) => EntryBody::Integer(*width as int),
            EntryHead::Immediate(value) => EntryBody::Immediate(*value as int),
        }
    }
}

/// Passes over the bytes that tell the length of the entry before.
pub fn previous_length_from<R: ByteSource>(src: &mut R) -> (r: Result<(), RedisSyncError>)
    ensures
        agrees(
            r,
            old(src).feed(),
            final(src).feed(),
            parse_previous_length(old(src).feed().pending),
        ),
{
    let previous = match src.read_u8() {
        Ok(previous) => previous,
        Err(e) => {
            return Err(e);
        },
    };
    if previous >= 254 {
        match src.read_exact(4) {
            Ok(_) => Ok(()),
            Err(e) => Err(e),
        }
    } else {
        Ok(())
    }
}

/// Reads the head of a packed-list entry's value.
pub fn entry_head_from<R: ByteSource>(src: &mut R) -> (r: Result<EntryHead, RedisSyncError>)
    ensures
        agrees(r, old(src).feed(), final(src).feed(), parse_entry_head(old(src).feed().pending)),
        r matches Ok(EntryHead::Integer(width)) ==> 1 <= width <= 8,
        r matches Ok(EntryHead::Immediate(value)) ==> value <= 12,
{
    let flag = match src.read_u8() {
        Ok(flag) => flag,
        Err(e) => {
            return Err(e);
        },
    };
    let form = flag / 64;
    if form == 0 {
        Ok(EntryHead::Bytes((flag % 64) as u64))
    } else if form == 1 {
        match src.read_u8() {
            Ok(second) => {
                assert(src.feed().pending =~= old(src).feed().pending.skip(2));
                Ok(EntryHead::Bytes(((flag % 64) as u64) * 256 + second as u64))
            },
            Err(e) => Err(e),
        }
    } else if form == 2 {
        match be_from(src, 4) {
            Ok(length) => Ok(EntryHead::Bytes(length)),
            Err(e) => Err(e),
        }
    } else if flag == ZIP_INT_8BIT {
        Ok(EntryHead::Integer(1))
    } else if flag == ZIP_INT_16BIT {
        Ok(EntryHead::Integer(2))
    } else if flag == ZIP_INT_24BIT {
        Ok(EntryHead::Integer(3))
    } else if flag == ZIP_INT_32BIT {
        Ok(EntryHead::Integer(4))
    } else if flag == ZIP_INT_64BIT {
        Ok(EntryHead::Integer(8))
    } else if ZIP_INT_IMM_MIN <= flag && flag <= ZIP_INT_IMM_MAX {
        Ok(EntryHead::Immediate(flag - ZIP_INT_IMM_MIN))
    } else {
        Err(RedisSyncError::Encoding)
    }
}

/// Reads one entry of a packed list.
pub fn read_zip_list_entry<R: ByteSource>(src: &mut R) -> (r: Result<Vec<u8>, RedisSyncError>)
    ensures
        agrees(
            r,
            old(src).feed(),
            final(src).feed(),
            parse_zip_list_entry(old(src).feed().pending),
        ),
{
    match previous_length_from(src) {
        Ok(()) => {},
        Err(e) => {
            return Err(e);
        },
    }
    let ghost at_head = src.feed().pending;
    let head = match entry_head_from(src) {
        Ok(head) => head,
        Err(e) => {
            return Err(e);
        },
    };
    proof {
        assert(at_head.len() <= old(src).feed().pending.len());
        assert(src.feed().pending.len() <= at_head.len());
    }
    match head {
        EntryHead::Bytes(length) => src.read_exact(length),
        EntryHead::Integer(width) => int_text_from(src, width),
        EntryHead::Immediate(value) => Ok(i64_to_text(value as i64)),
    }
}

} // verus!
