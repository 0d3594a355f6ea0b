//! The request/response wire format: what a value looks like on the wire, and
//! decoders that read one value from a byte source.
//!
//! The grammar is stated once, as functions from the pending bytes to the value
//! they begin with and the bytes that follow it (or to the failure). Every
//! decoder is then held to that grammar: it returns what the grammar says and
//! leaves the source where the grammar says the value ends.

use crate::decimal::{
    decimal_i64, decimal_text, is_digits, lemma_decimal_text_spells, lemma_signed_text_round_trip,
    parse_i64, signed_text,
};
use crate::error::RedisSyncError;
use crate::io::{agrees, ByteSource};
use vstd::prelude::*;
use vstd::utf8::{decode_utf8, valid_utf8};

verus! {

/// The carriage return that ends a line, together with the line feed after it.
pub const CR: u8 = 13;

/// The line feed.
pub const LF: u8 = 10;

/// `*`, the tag of an array.
pub const STAR: u8 = 42;

/// `$`, the tag of a bulk string.
pub const DOLLAR: u8 = 36;

/// `+`, the tag of a simple string.
pub const PLUS: u8 = 43;

/// `-`, the tag of an error.
pub const MINUS: u8 = 45;

/// `:`, the tag of an integer.
pub const COLON: u8 = 58;

/// The kind of value that a type tag announces.
#[derive(Debug, Clone, Copy, PartialEq, Eq, Structural)]
pub enum Type {
    String,
    Error,
    Int,
    BulkString,
    Array,
}

impl View for Type {
    type V = Type;

    open spec fn view(&self) -> Type {
        *self
    }
}

/// A decoded value.
#[derive(Debug, PartialEq)]
pub enum Resp {
    String(String),
    Int(i64),
    Error(String),
    BulkBytes(Vec<u8>),
    Array(Vec<Resp>),
}

/// What a [`Resp`] stands for.
pub ghost enum RespValue {
    String(Seq<char>),
    Int(int),
    Error(Seq<char>),
    BulkBytes(Seq<u8>),
    Array(Seq<RespValue>),
}

impl View for Resp {
    type V = RespValue;

    open spec fn view(&self) -> RespValue
        decreases self,
    {
        match self {
            Resp::String(text) => RespValue::String(text@),
            Resp::Int(i) => RespValue::Int(*i as int),
            Resp::Error(text) => RespValue::Error(text@),
            Resp::BulkBytes(bytes) => RespValue::BulkBytes(bytes@),
            Resp::Array(items) => RespValue::Array(
                Seq::new(
                    items.len() as nat,
                    |i: int|
                        if 0 <= i < items.len() {
                            items[i]@
                        } else {
                            RespValue::Int(0)
                        },
                ),
            ),
        }
    }
}

/// The values that the elements of `items` stand for, in order.
pub open spec fn values_of(items: Seq<Resp>) -> Seq<RespValue> {
    Seq::new(items.len(), |i: int| items[i]@)
}

/// An array stands for the values of its elements.
pub proof fn lemma_array_view(items: Vec<Resp>)
    ensures
        Resp::Array(items)@ == RespValue::Array(values_of(items@)),
{
    assert(Resp::Array(items)@->Array_0 =~= values_of(items@));
}

// ---------------------------------------------------------------------------
// The grammar
// ---------------------------------------------------------------------------

/// A result of the grammar: a value with the bytes that follow it, or a failure.
pub type Parsed<T> = Result<(T, Seq<u8>), RedisSyncError>;

/// `s` without the line feeds it starts with.
pub open spec fn skip_line_feeds(s: Seq<u8>) -> Seq<u8>
    decreases s.len(),
{
    if s.len() > 0 && s[0] == LF {
        skip_line_feeds(s.skip(1))
    } else {
        s
    }
}

/// The kind that a tag byte announces, if it is a tag.
pub open spec fn tag_type(tag: u8) -> Option<Type> {
    if tag == PLUS {
        Some(Type::String)
    } else if tag == MINUS {
        Some(Type::Error)
    } else if tag == COLON {
        Some(Type::Int)
    } else if tag == DOLLAR {
        Some(Type::BulkString)
    } else if tag == STAR {
        Some(Type::Array)
    } else {
        None
    }
}

/// A type tag: any number of stray line feeds, then one tag byte.
pub open spec fn parse_type(s: Seq<u8>) -> Parsed<Type> {
    let t = skip_line_feeds(s);
    if t.len() == 0 {
        Err(RedisSyncError::Disconnect)
    } else {
        match tag_type(t[0]) {
            Some(kind) => Ok((kind, t.skip(1))),
            None => Err(RedisSyncError::Framing),
        }
    }
}

/// The number of bytes before the first carriage return of `s`; the length of
/// `s` where it holds none.
pub open spec fn line_end(s: Seq<u8>) -> int
    decreases s.len(),
{
    if s.len() == 0 || s[0] == CR {
        0
    } else {
        1 + line_end(s.skip(1))
    }
}

/// A line: the bytes up to the first carriage return, which a line feed must follow.
pub open spec fn parse_line(s: Seq<u8>) -> Parsed<Seq<u8>> {
    let end = line_end(s);
    if end + 1 >= s.len() {
        Err(RedisSyncError::Disconnect)
    } else if s[end + 1] != LF {
        Err(RedisSyncError::Framing)
    } else {
        Ok((s.take(end), s.skip(end + 2)))
    }
}

/// A line of text: a line whose bytes are well-formed UTF-8.
pub open spec fn parse_text(s: Seq<u8>) -> Parsed<Seq<char>> {
    match parse_line(s) {
        Ok((line, rest)) => if valid_utf8(line) {
            Ok((decode_utf8(line), rest))
        } else {
            Err(RedisSyncError::Framing)
        },
        Err(e) => Err(e),
    }
}

/// A number: a line that spells a signed 64-bit integer in decimal.
pub open spec fn parse_int(s: Seq<u8>) -> Parsed<i64> {
    match parse_line(s) {
        Ok((line, rest)) => match decimal_i64(line) {
            Some(value) => Ok((value as i64, rest)),
            None => Err(RedisSyncError::Framing),
        },
        Err(e) => Err(e),
    }
}

/// The body of a bulk string: a length `n`, then, where `n` is positive, `n`
/// bytes of payload and CR LF. A length of zero or less announces no payload
/// and is followed by two bytes that are dropped unread.
pub open spec fn parse_bulk(s: Seq<u8>) -> Parsed<Seq<u8>> {
    match parse_int(s) {
        Ok((n, rest)) => if n > 0 {
            if rest.len() < n + 2 {
                Err(RedisSyncError::Disconnect)
            } else if rest[n as int] != CR || rest[n + 1] != LF {
                Err(RedisSyncError::Framing)
            } else {
                Ok((rest.take(n as int), rest.skip(n + 2)))
            }
        } else {
            if rest.len() < 2 {
                Err(RedisSyncError::Disconnect)
            } else {
                Ok((Seq::empty(), rest.skip(2)))
            }
        },
        Err(e) => Err(e),
    }
}

/// `first` put before the values of a parsed sequence.
pub open spec fn prepend(first: Seq<RespValue>, tail: Parsed<Seq<RespValue>>) -> Parsed<Seq<RespValue>> {
    match tail {
        Ok((values, rest)) => Ok((first + values, rest)),
        Err(e) => Err(e),
    }
}

/// One value: a type tag, then the body that the tag announces.
///
/// The test on lengths before an array's body always holds, since a tag is at
/// least one byte; it is there to show that the definition is well founded.
pub open spec fn parse_value(s: Seq<u8>) -> Parsed<RespValue>
    decreases s.len(), 0int, 0int,
{
    match parse_type(s) {
        Ok((kind, body)) => match kind {
            Type::String => match parse_text(body) {
                Ok((text, rest)) => Ok((RespValue::String(text), rest)),
                Err(e) => Err(e),
            },
            Type::Error => match parse_text(body) {
                Ok((text, rest)) => Ok((RespValue::Error(text), rest)),
                Err(e) => Err(e),
            },
            Type::Int => match parse_int(body) {
                Ok((value, rest)) => Ok((RespValue::Int(value as int), rest)),
                Err(e) => Err(e),
            },
            Type::BulkString => match parse_bulk(body) {
                Ok((bytes, rest)) => Ok((RespValue::BulkBytes(bytes), rest)),
                Err(e) => Err(e),
            },
            Type::Array => if body.len() < s.len() {
                parse_array(body)
            } else {
                Err(RedisSyncError::Framing)
            },
        },
        Err(e) => Err(e),
    }
}

/// The body of an array: a count, then that many values. A count of zero or
/// less announces no values.
///
/// The test on lengths always holds, since a count is at least three bytes.
pub open spec fn parse_array(s: Seq<u8>) -> Parsed<RespValue>
    decreases s.len(), 0int, 0int,
{
    match parse_int(s) {
        Ok((count, rest)) => if rest.len() < s.len() {
            match parse_items(rest, count as int) {
                Ok((values, after)) => Ok((RespValue::Array(values), after)),
                Err(e) => Err(e),
            }
        } else {
            Err(RedisSyncError::Framing)
        },
        Err(e) => Err(e),
    }
}

/// `count` values, one after the other.
///
/// The test on lengths always holds, since a value is at least one byte.
pub open spec fn parse_items(s: Seq<u8>, count: int) -> Parsed<Seq<RespValue>>
    decreases s.len(), 1int, count,
{
    if count <= 0 {
        Ok((Seq::empty(), s))
    } else {
        match parse_value(s) {
            Ok((value, rest)) => if rest.len() < s.len() {
                prepend(seq![value], parse_items(rest, count - 1))
            } else {
                Err(RedisSyncError::Framing)
            },
            Err(e) => Err(e),
        }
    }
}

/// The byte strings that the elements of `args` hold, in order.
pub open spec fn payloads(args: Seq<Vec<u8>>) -> Seq<Seq<u8>> {
    Seq::new(args.len(), |i: int| args[i]@)
}

/// One argument on the wire: `$`, its length, CR LF, its bytes, CR LF.
pub open spec fn bulk_form(payload: Seq<u8>) -> Seq<u8> {
    seq![DOLLAR] + decimal_text(payload.len()) + seq![CR, LF] + payload + seq![CR, LF]
}

/// The arguments of a request on the wire, one after the other.
pub open spec fn bulks_form(args: Seq<Seq<u8>>) -> Seq<u8>
    decreases args.len(),
{
    if args.len() == 0 {
        Seq::empty()
    } else {
        bulk_form(args[0]) + bulks_form(args.skip(1))
    }
}

/// A request on the wire: `*`, the number of arguments, CR LF, the arguments.
pub open spec fn request_form(args: Seq<Seq<u8>>) -> Seq<u8> {
    seq![STAR] + decimal_text(args.len()) + seq![CR, LF] + bulks_form(args)
}

/// `redis::pack_command`: writes the arguments as an array of bulk strings.
/// It writes `*`, the number of arguments in decimal and CR LF, then for each
/// argument `$`, its length in decimal, CR LF, its bytes and CR LF.
#[verifier::external_body]
fn pack_command(args: &Vec<Vec<u8>>) -> (frame: Vec<u8>)
    ensures
        frame@ == request_form(payloads(args@)),
{
    redis::pack_command(args)
}

/// Packs a command name and its arguments into the frame that asks for it.
///
/// Whatever follows the frame, decoding it gives the arguments back as an
/// array of bulk strings and stops at the end of the frame; a frame whose
/// numbers are too large to be read back decodes as malformed.
pub fn encode_request(args: &Vec<Vec<u8>>) -> (frame: Vec<u8>)
    ensures
        frame@ == request_form(payloads(args@)),
        forall|after: Seq<u8>| #[trigger]
            parse_value(frame@ + after) == if encodable(payloads(args@)) {
                Ok::<(RespValue, Seq<u8>), RedisSyncError>(
                    (RespValue::Array(bulk_values(payloads(args@))), after),
                )
            } else {
                Err::<(RespValue, Seq<u8>), RedisSyncError>(RedisSyncError::Framing)
            },
{
    let frame = pack_command(args);
    proof {
        assert forall|after: Seq<u8>| #[trigger]
            parse_value(frame@ + after) == if encodable(payloads(args@)) {
                Ok::<(RespValue, Seq<u8>), RedisSyncError>(
                    (RespValue::Array(bulk_values(payloads(args@))), after),
                )
            } else {
                Err::<(RespValue, Seq<u8>), RedisSyncError>(RedisSyncError::Framing)
            } by {
            lemma_request_round_trip(payloads(args@), after);
        }
    }
    frame
}

// ---------------------------------------------------------------------------
// What the grammar consumes
// ---------------------------------------------------------------------------

/// Dropping line feeds never lengthens a sequence.
pub proof fn lemma_skip_line_feeds_shrinks(s: Seq<u8>)
    ensures
        skip_line_feeds(s).len() <= s.len(),
    decreases s.len(),
{
    if s.len() > 0 && s[0] == LF {
        lemma_skip_line_feeds_shrinks(s.skip(1));
    }
}

/// The end of the first line lies within the sequence.
pub proof fn lemma_line_end_bounds(s: Seq<u8>)
    ensures
        0 <= line_end(s) <= s.len(),
    decreases s.len(),
{
    if !(s.len() == 0 || s[0] == CR) {
        lemma_line_end_bounds(s.skip(1));
    }
}

/// A type tag takes at least one byte.
pub proof fn lemma_type_shrinks(s: Seq<u8>)
    ensures
        parse_type(s) matches Ok((_, rest)) ==> rest.len() < s.len(),
{
    lemma_skip_line_feeds_shrinks(s);
}

/// A line takes at least two bytes.
pub proof fn lemma_line_shrinks(s: Seq<u8>)
    ensures
        parse_line(s) matches Ok((_, rest)) ==> rest.len() + 2 <= s.len(),
{
    lemma_line_end_bounds(s);
}

/// A bulk string's body takes at least four bytes.
pub proof fn lemma_bulk_shrinks(s: Seq<u8>)
    ensures
        parse_bulk(s) matches Ok((_, rest)) ==> rest.len() + 4 <= s.len(),
{
    lemma_line_shrinks(s);
}

/// A value takes at least one byte.
pub proof fn lemma_value_shrinks(s: Seq<u8>)
    ensures
        parse_value(s) matches Ok((_, rest)) ==> rest.len() < s.len(),
    decreases s.len(), 0int, 0int,
{
    lemma_type_shrinks(s);
    if let Ok((kind, body)) = parse_type(s) {
        lemma_line_shrinks(body);
        lemma_bulk_shrinks(body);
        if kind == Type::Array {
            lemma_array_shrinks(body);
        }
    }
}

/// An array's body takes at least two bytes.
pub proof fn lemma_array_shrinks(s: Seq<u8>)
    ensures
        parse_array(s) matches Ok((_, rest)) ==> rest.len() + 2 <= s.len(),
    decreases s.len(), 0int, 0int,
{
    lemma_line_shrinks(s);
    if let Ok((count, rest)) = parse_int(s) {
        lemma_items_shrinks(rest, count as int);
    }
}

/// A run of values never gives back more than it was given.
pub proof fn lemma_items_shrinks(s: Seq<u8>, count: int)
    ensures
        parse_items(s, count) matches Ok((_, rest)) ==> rest.len() <= s.len(),
    decreases s.len(), 1int, count,
{
    if count > 0 {
        if let Ok((value, rest)) = parse_value(s) {
            if rest.len() < s.len() {
                lemma_items_shrinks(rest, count - 1);
            }
        }
    }
}

/// An array holds as many values as its count says, and none where the
/// count is zero or less: no array comes out short.
pub proof fn lemma_array_count(s: Seq<u8>)
    ensures
        parse_array(s) matches Ok((RespValue::Array(values), _)) ==> parse_int(s) matches Ok(
            (count, _),
        ) && values.len() == if count > 0 {
            count as int
        } else {
            0
        },
{
    if let Ok((count, rest)) = parse_int(s) {
        lemma_items_count(rest, count as int);
    }
}

/// Every run of values has as many values as were asked for.
pub proof fn lemma_items_count(s: Seq<u8>, count: int)
    ensures
        parse_items(s, count) matches Ok((values, _)) ==> values.len() == if count > 0 {
            count
        } else {
            0
        },
    decreases s.len(), 1int, count,
{
    if count > 0 {
        if let Ok((value, rest)) = parse_value(s) {
            if rest.len() < s.len() {
                lemma_items_count(rest, count - 1);
            }
        }
    }
}

// ---------------------------------------------------------------------------
// What follows a value
// ---------------------------------------------------------------------------

/// Line feeds are dropped alike whatever follows the first byte that is none.
pub proof fn lemma_skip_line_feeds_extends(s: Seq<u8>, t: Seq<u8>)
    requires
        skip_line_feeds(s).len() > 0,
    ensures
        skip_line_feeds(s + t) == skip_line_feeds(s) + t,
    decreases s.len(),
{
    if s.len() > 0 && s[0] == LF {
        assert((s + t).skip(1) =~= s.skip(1) + t);
        lemma_skip_line_feeds_extends(s.skip(1), t);
    } else {
        assert((s + t)[0] == s[0]);
    }
}

/// A line that ends within `s` ends at the same place whatever follows `s`.
pub proof fn lemma_line_end_extends(s: Seq<u8>, t: Seq<u8>)
    requires
        line_end(s) < s.len(),
    ensures
        line_end(s + t) == line_end(s),
    decreases s.len(),
{
    assert((s + t)[0] == s[0]);
    if s[0] != CR {
        assert((s + t).skip(1) =~= s.skip(1) + t);
        lemma_line_end_extends(s.skip(1), t);
    }
}

/// A type tag is read alike whatever follows it.
pub proof fn lemma_type_extends(s: Seq<u8>, t: Seq<u8>)
    ensures
        parse_type(s) matches Ok((kind, rest)) ==> parse_type(s + t) == Ok::<
            (Type, Seq<u8>),
            RedisSyncError,
        >((kind, rest + t)),
{
    let found = skip_line_feeds(s);
    if found.len() > 0 {
        lemma_skip_line_feeds_extends(s, t);
        assert((found + t)[0] == found[0]);
        assert((found + t).skip(1) =~= found.skip(1) + t);
    }
}

/// A line is read alike whatever follows it.
pub proof fn lemma_line_extends(s: Seq<u8>, t: Seq<u8>)
    ensures
        parse_line(s) matches Ok((line, rest)) ==> parse_line(s + t) == Ok::<
            (Seq<u8>, Seq<u8>),
            RedisSyncError,
        >((line, rest + t)),
{
    lemma_line_end_bounds(s);
    let end = line_end(s);
    if end + 1 < s.len() {
        lemma_line_end_extends(s, t);
        assert((s + t)[end + 1] == s[end + 1]);
        assert((s + t).take(end) =~= s.take(end));
        assert((s + t).skip(end + 2) =~= s.skip(end + 2) + t);
    }
}

/// The body of a bulk string is read alike whatever follows it.
pub proof fn lemma_bulk_extends(s: Seq<u8>, t: Seq<u8>)
    ensures
        parse_bulk(s) matches Ok((bytes, rest)) ==> parse_bulk(s + t) == Ok::<
            (Seq<u8>, Seq<u8>),
            RedisSyncError,
        >((bytes, rest + t)),
{
    lemma_line_extends(s, t);
    if let Ok((n, rest)) = parse_int(s) {
        if n > 0 {
            if rest.len() >= n + 2 {
                assert((rest + t)[n as int] == rest[n as int]);
                assert((rest + t)[n + 1] == rest[n + 1]);
                assert((rest + t).take(n as int) =~= rest.take(n as int));
                assert((rest + t).skip(n + 2) =~= rest.skip(n + 2) + t);
            }
        } else if rest.len() >= 2 {
            assert((rest + t).skip(2) =~= rest.skip(2) + t);
        }
    }
}

/// A value is read from its own bytes alone: whatever bytes follow it, the
/// same value is found and the reading stops at the same place, so that
/// those bytes are left over with what was left over before. A sequence
/// that holds one value and nothing more, followed by any bytes, thus gives
/// that value and leaves those bytes.
pub proof fn lemma_value_extends(s: Seq<u8>, t: Seq<u8>)
    ensures
        parse_value(s) matches Ok((value, rest)) ==> parse_value(s + t) == Ok::<
            (RespValue, Seq<u8>),
            RedisSyncError,
        >((value, rest + t)),
        parse_value(s) matches Ok((value, rest)) ==> rest.len() == 0 ==> parse_value(s + t) == Ok::<
            (RespValue, Seq<u8>),
            RedisSyncError,
        >((value, t)),
    decreases s.len(), 0int, 0int,
{
    lemma_type_extends(s, t);
    lemma_type_shrinks(s);
    if let Ok((kind, body)) = parse_type(s) {
        lemma_line_extends(body, t);
        lemma_bulk_extends(body, t);
        if kind == Type::Array {
            lemma_array_extends(body, t);
        }
    }
    if let Ok((value, rest)) = parse_value(s) {
        if rest.len() == 0 {
            assert(rest + t =~= t);
        }
    }
}

/// The body of an array is read alike whatever follows it.
pub proof fn lemma_array_extends(s: Seq<u8>, t: Seq<u8>)
    ensures
        parse_array(s) matches Ok((value, rest)) ==> parse_array(s + t) == Ok::<
            (RespValue, Seq<u8>),
            RedisSyncError,
        >((value, rest + t)),
    decreases s.len(), 0int, 0int,
{
    lemma_line_extends(s, t);
    lemma_line_shrinks(s);
    if let Ok((count, rest)) = parse_int(s) {
        lemma_items_extends(rest, count as int, t);
    }
}

/// A run of values is read alike whatever follows it.
pub proof fn lemma_items_extends(s: Seq<u8>, count: int, t: Seq<u8>)
    ensures
        parse_items(s, count) matches Ok((values, rest)) ==> parse_items(s + t, count) == Ok::<
            (Seq<RespValue>, Seq<u8>),
            RedisSyncError,
        >((values, rest + t)),
    decreases s.len(), 1int, count,
{
    if count > 0 {
        lemma_value_extends(s, t);
        if let Ok((value, rest)) = parse_value(s) {
            if rest.len() < s.len() {
                lemma_items_extends(rest, count - 1, t);
            }
        }
    }
}

// ---------------------------------------------------------------------------
// The bytes of a value
// ---------------------------------------------------------------------------

/// `rest` is what `s` ends with.
pub open spec fn tail_of(s: Seq<u8>, rest: Seq<u8>) -> bool {
    rest.len() <= s.len() && s.skip(s.len() - rest.len()) == rest
}

/// The bytes of `s` that stand before its last `rest.len()` bytes.
pub open spec fn before(s: Seq<u8>, rest: Seq<u8>) -> Seq<u8> {
    s.take(s.len() - rest.len())
}

/// What is before the tail of a tail is what is before the first tail,
/// then what is before the second within the first.
pub proof fn lemma_before_joins(s: Seq<u8>, mid: Seq<u8>, rest: Seq<u8>)
    requires
        tail_of(s, mid),
        tail_of(mid, rest),
    ensures
        tail_of(s, rest),
        before(s, rest) == before(s, mid) + before(mid, rest),
        s == before(s, mid) + mid,
{
    assert(s.skip(s.len() - rest.len()) =~= s.skip(s.len() - mid.len()).skip(
        mid.len() - rest.len(),
    ));
    assert(before(s, rest) =~= before(s, mid) + before(mid, rest));
    assert(s =~= before(s, mid) + mid);
}

/// What is left when line feeds are dropped is a tail, and its first byte
/// is found alike where nothing follows that byte.
pub proof fn lemma_skip_line_feeds_own(s: Seq<u8>)
    requires
        skip_line_feeds(s).len() > 0,
    ensures
        tail_of(s, skip_line_feeds(s)),
        skip_line_feeds(before(s, skip_line_feeds(s).skip(1))) == skip_line_feeds(s).take(1),
    decreases s.len(),
{
    let found = skip_line_feeds(s);
    let first = before(s, found.skip(1));
    if s.len() > 0 && s[0] == LF {
        lemma_skip_line_feeds_own(s.skip(1));
        assert(s.skip(s.len() - found.len()) =~= s.skip(1).skip(s.len() - 1 - found.len()));
        assert(first.skip(1) =~= before(s.skip(1), found.skip(1)));
        assert(first[0] == LF);
    } else {
        assert(s.skip(0) =~= s);
        assert(first =~= s.take(1));
        assert(skip_line_feeds(first.skip(1)) =~= Seq::<u8>::empty());
    }
}

/// A line that ends within `s` ends at the same place in what of `s`
/// reaches beyond that end.
pub proof fn lemma_line_end_own(s: Seq<u8>, k: int)
    requires
        line_end(s) < k <= s.len(),
    ensures
        line_end(s.take(k)) == line_end(s),
    decreases s.len(),
{
    lemma_line_end_bounds(s);
    assert(s.take(k)[0] == s[0]);
    if s[0] != CR {
        lemma_line_end_bounds(s.skip(1));
        assert(s.take(k).skip(1) =~= s.skip(1).take(k - 1));
        lemma_line_end_own(s.skip(1), k - 1);
    }
}

/// A type tag is read from its own bytes alone.
pub proof fn lemma_type_own(s: Seq<u8>)
    ensures
        parse_type(s) matches Ok((kind, rest)) ==> tail_of(s, rest) && parse_type(before(s, rest))
            == Ok::<(Type, Seq<u8>), RedisSyncError>((kind, Seq::empty())),
{
    let found = skip_line_feeds(s);
    if found.len() > 0 {
        lemma_skip_line_feeds_own(s);
        assert(s.skip(s.len() - found.len()).skip(1) =~= s.skip(s.len() - found.skip(1).len()));
        assert(found.take(1).skip(1) =~= Seq::<u8>::empty());
    }
}

/// A line is read from its own bytes alone.
pub proof fn lemma_line_own(s: Seq<u8>)
    ensures
        parse_line(s) matches Ok((line, rest)) ==> tail_of(s, rest) && parse_line(before(s, rest))
            == Ok::<(Seq<u8>, Seq<u8>), RedisSyncError>((line, Seq::empty())),
{
    lemma_line_end_bounds(s);
    let end = line_end(s);
    if end + 1 < s.len() {
        let own = s.take(end + 2);
        lemma_line_end_own(s, end + 2);
        assert(before(s, s.skip(end + 2)) =~= own);
        assert(own.take(end) =~= s.take(end));
        assert(own.skip(end + 2) =~= Seq::<u8>::empty());
    }
}

/// The body of a bulk string is read from its own bytes alone.
pub proof fn lemma_bulk_own(s: Seq<u8>)
    ensures
        parse_bulk(s) matches Ok((bytes, rest)) ==> tail_of(s, rest) && parse_bulk(before(s, rest))
            == Ok::<(Seq<u8>, Seq<u8>), RedisSyncError>((bytes, Seq::empty())),
{
    lemma_line_own(s);
    if let Ok((bytes, rest)) = parse_bulk(s) {
        if let Ok((n, after)) = parse_int(s) {
            let taken: int = if n > 0 {
                n + 2
            } else {
                2
            };
            let held = after.take(taken);
            assert(after.skip(after.len() - rest.len()) =~= rest);
            lemma_before_joins(s, after, rest);
            assert(before(after, rest) =~= held);
            lemma_line_extends(before(s, after), held);
            assert(Seq::<u8>::empty() + held =~= held);
            if n > 0 {
                assert(held.take(n as int) =~= after.take(n as int));
            }
            assert(held.skip(taken) =~= Seq::<u8>::empty());
        }
    }
}

/// A value is read from its own bytes alone: what is left over is what the
/// sequence ends with, and the bytes before that, taken by themselves, hold
/// the same value and nothing more.
pub proof fn lemma_value_own(s: Seq<u8>)
    ensures
        parse_value(s) matches Ok((value, rest)) ==> tail_of(s, rest) && parse_value(
            before(s, rest),
        ) == Ok::<(RespValue, Seq<u8>), RedisSyncError>((value, Seq::empty())),
    decreases s.len(), 0int, 0int,
{
    if let Ok((value, rest)) = parse_value(s) {
        if let Ok((kind, body)) = parse_type(s) {
            lemma_type_own(s);
            lemma_type_shrinks(s);
            lemma_line_own(body);
            lemma_bulk_own(body);
            if kind == Type::Array {
                lemma_array_own(body);
            }
            lemma_before_joins(s, body, rest);
            lemma_type_extends(before(s, body), before(body, rest));
            assert(Seq::<u8>::empty() + before(body, rest) =~= before(body, rest));
        }
    }
}

/// The body of an array is read from its own bytes alone.
pub proof fn lemma_array_own(s: Seq<u8>)
    ensures
        parse_array(s) matches Ok((value, rest)) ==> tail_of(s, rest) && parse_array(
            before(s, rest),
        ) == Ok::<(RespValue, Seq<u8>), RedisSyncError>((value, Seq::empty())),
    decreases s.len(), 0int, 0int,
{
    if let Ok((value, rest)) = parse_array(s) {
        if let Ok((count, after)) = parse_int(s) {
            lemma_line_own(s);
            lemma_line_shrinks(s);
            lemma_items_own(after, count as int);
            lemma_before_joins(s, after, rest);
            lemma_line_extends(before(s, after), before(after, rest));
            assert(Seq::<u8>::empty() + before(after, rest) =~= before(after, rest));
        }
    }
}

/// A run of values is read from its own bytes alone.
pub proof fn lemma_items_own(s: Seq<u8>, count: int)
    ensures
        parse_items(s, count) matches Ok((values, rest)) ==> tail_of(s, rest) && parse_items(
            before(s, rest),
            count,
        ) == Ok::<(Seq<RespValue>, Seq<u8>), RedisSyncError>((values, Seq::empty())),
    decreases s.len(), 1int, count,
{
    if count <= 0 {
        assert(s.skip(0) =~= s);
        assert(before(s, s) =~= Seq::<u8>::empty());
    } else if let Ok((values, rest)) = parse_items(s, count) {
        if let Ok((value, after)) = parse_value(s) {
            lemma_value_own(s);
            lemma_items_own(after, count - 1);
            lemma_before_joins(s, after, rest);
            lemma_value_extends(before(s, after), before(after, rest));
            assert(Seq::<u8>::empty() + before(after, rest) =~= before(after, rest));
        }
    }
}

// ---------------------------------------------------------------------------
// Decoding what was encoded
// ---------------------------------------------------------------------------

/// The bulk strings that hold `args`, in order.
pub open spec fn bulk_values(args: Seq<Seq<u8>>) -> Seq<RespValue> {
    Seq::new(args.len(), |i: int| RespValue::BulkBytes(args[i]))
}

/// A line of digits ends where the digits end.
pub proof fn lemma_line_end_of_digits(digits: Seq<u8>, after: Seq<u8>)
    requires
        is_digits(digits),
    ensures
        line_end(digits + seq![CR, LF] + after) == digits.len(),
    decreases digits.len(),
{
    let s = digits + seq![CR, LF] + after;
    if digits.len() == 0 {
        assert(s[0] == CR);
    } else {
        assert(s[0] == digits[0]);
        assert(s.skip(1) =~= digits.skip(1) + seq![CR, LF] + after);
        assert(is_digits(digits.skip(1))) by {
            assert forall|i: int| 0 <= i < digits.skip(1).len() implies crate::decimal::ZERO
                <= #[trigger] digits.skip(1)[i] <= crate::decimal::NINE by {
                assert(digits.skip(1)[i] == digits[i + 1]);
            }
        }
        lemma_line_end_of_digits(digits.skip(1), after);
    }
}

/// A number written in decimal and closed by CR LF reads back as that
/// number where it is a signed 64-bit number, and is malformed where it is
/// too large to be one.
pub proof fn lemma_parse_int_of_text(n: nat, after: Seq<u8>)
    ensures
        parse_int(decimal_text(n) + seq![CR, LF] + after) == if n <= i64::MAX {
            Ok::<(i64, Seq<u8>), RedisSyncError>((n as i64, after))
        } else {
            Err::<(i64, Seq<u8>), RedisSyncError>(RedisSyncError::Framing)
        },
{
    let digits = decimal_text(n);
    let s = digits + seq![CR, LF] + after;
    lemma_decimal_text_spells(n);
    lemma_line_end_of_digits(digits, after);
    assert(s[digits.len() + 1int] == LF);
    assert(s.take(digits.len() as int) =~= digits);
    assert(s.skip(digits.len() + 2int) =~= after);
    if n <= i64::MAX {
        lemma_signed_text_round_trip(n as int);
        assert(signed_text(n as int) == digits);
    } else {
        assert(crate::decimal::ZERO <= digits[0] <= crate::decimal::NINE);
        assert(decimal_i64(digits) is None);
    }
}

/// Whether a request of these arguments can be read back: their number and
/// the length of each are signed 64-bit numbers, as the numbers on the wire
/// have to be.
pub open spec fn encodable(args: Seq<Seq<u8>>) -> bool {
    args.len() <= i64::MAX && all_fit(args)
}

/// Whether the length of each argument is a signed 64-bit number.
pub open spec fn all_fit(args: Seq<Seq<u8>>) -> bool {
    forall|i: int| 0 <= i < args.len() ==> (#[trigger] args[i]).len() <= i64::MAX
}

/// An argument on the wire reads back as a bulk string that holds it, and
/// is malformed where its length is too large to be read.
pub proof fn lemma_parse_bulk_form(payload: Seq<u8>, after: Seq<u8>)
    ensures
        parse_value(bulk_form(payload) + after) == if payload.len() <= i64::MAX {
            Ok::<(RespValue, Seq<u8>), RedisSyncError>((RespValue::BulkBytes(payload), after))
        } else {
            Err::<(RespValue, Seq<u8>), RedisSyncError>(RedisSyncError::Framing)
        },
{
    let s = bulk_form(payload) + after;
    let rest = payload + seq![CR, LF] + after;
    let body = decimal_text(payload.len()) + seq![CR, LF] + rest;
    assert(s[0] == DOLLAR);
    assert(skip_line_feeds(s) == s);
    assert(s.skip(1) =~= body);
    lemma_parse_int_of_text(payload.len(), rest);
    if payload.len() > i64::MAX {
    } else if payload.len() > 0 {
        assert(rest[payload.len() as int] == CR);
        assert(rest[payload.len() + 1int] == LF);
        assert(rest.take(payload.len() as int) =~= payload);
        assert(rest.skip(payload.len() + 2int) =~= after);
    } else {
        assert(rest.skip(2) =~= after);
        assert(payload =~= Seq::<u8>::empty());
    }
}

/// The arguments of a request on the wire read back as the bulk strings
/// that hold them, and are malformed where one of them is too long to be read.
pub proof fn lemma_parse_items_of_bulks(args: Seq<Seq<u8>>, after: Seq<u8>)
    ensures
        parse_items(bulks_form(args) + after, args.len() as int) == if all_fit(args) {
            Ok::<(Seq<RespValue>, Seq<u8>), RedisSyncError>((bulk_values(args), after))
        } else {
            Err::<(Seq<RespValue>, Seq<u8>), RedisSyncError>(RedisSyncError::Framing)
        },
    decreases args.len(),
{
    let s = bulks_form(args) + after;
    if args.len() == 0 {
        assert(s =~= after);
        assert(bulk_values(args) =~= Seq::<RespValue>::empty());
    } else {
        let tail = args.skip(1);
        let rest = bulks_form(tail) + after;
        assert(s =~= bulk_form(args[0]) + rest);
        lemma_parse_bulk_form(args[0], rest);
        lemma_parse_items_of_bulks(tail, after);
        if args[0].len() <= i64::MAX {
            assert(all_fit(tail) == all_fit(args)) by {
                if all_fit(args) {
                    assert forall|i: int| 0 <= i < tail.len() implies (#[trigger] tail[i]).len()
                        <= i64::MAX by {
                        assert(tail[i] == args[i + 1]);
                    }
                }
                if all_fit(tail) {
                    assert forall|i: int| 0 <= i < args.len() implies (#[trigger] args[i]).len()
                        <= i64::MAX by {
                        if i > 0 {
                            assert(args[i] == tail[i - 1]);
                        }
                    }
                }
            }
            assert(seq![RespValue::BulkBytes(args[0])] + bulk_values(tail) =~= bulk_values(args));
        }
    }
}

/// Decoding an encoded request gives its arguments back, as an array of
/// bulk strings, and takes exactly the bytes of the request. This holds of
/// every request that can be read back; any other is malformed.
pub proof fn lemma_request_round_trip(args: Seq<Seq<u8>>, after: Seq<u8>)
    ensures
        parse_value(request_form(args) + after) == if encodable(args) {
            Ok::<(RespValue, Seq<u8>), RedisSyncError>((RespValue::Array(bulk_values(args)), after))
        } else {
            Err::<(RespValue, Seq<u8>), RedisSyncError>(RedisSyncError::Framing)
        },
{
    let s = request_form(args) + after;
    let rest = bulks_form(args) + after;
    let body = decimal_text(args.len()) + seq![CR, LF] + rest;
    assert(s[0] == STAR);
    assert(skip_line_feeds(s) == s);
    assert(s.skip(1) =~= body);
    lemma_parse_int_of_text(args.len(), rest);
    lemma_parse_items_of_bulks(args, after);
}

// ---------------------------------------------------------------------------
// The decoders
// ---------------------------------------------------------------------------

/// `String::from_utf8`: gives the text that `bytes` encode, and gives it
/// exactly when `bytes` are well-formed UTF-8.
#[verifier::external_body]
pub(crate) fn string_of(bytes: Vec<u8>) -> (text: Option<String>)
    ensures
        text is Some <==> valid_utf8(bytes@),
        text matches Some(t) ==> t@ == decode_utf8(bytes@),
{
    match String::from_utf8(bytes) {
        Ok(text) => Some(text),
        Err(_) => None,
    }
}

/// Reads a type tag, passing over any line feeds that stand before it.
pub fn type_from<R: ByteSource>(src: &mut R) -> (r: Result<Type, RedisSyncError>)
    ensures
        agrees(r, old(src).feed(), final(src).feed(), parse_type(old(src).feed().pending)),
{
    loop
        invariant
            src.feed().pending.len() <= old(src).feed().pending.len(),
            skip_line_feeds(src.feed().pending) == skip_line_feeds(old(src).feed().pending),
            src.feed().meter == crate::io::metered(
                old(src).feed().meter,
                old(src).feed().pending.len() - src.feed().pending.len(),
            ),
        decreases src.feed().pending.len(),
    {
        match src.read_u8() {
            Ok(tag) => {
                if tag == PLUS {
                    return Ok(Type::String);
                } else if tag == MINUS {
                    return Ok(Type::Error);
                } else if tag == COLON {
                    return Ok(Type::Int);
                } else if tag == DOLLAR {
                    return Ok(Type::BulkString);
                } else if tag == STAR {
                    return Ok(Type::Array);
                } else if tag != LF {
                    return Err(RedisSyncError::Framing);
                }
            },
            Err(e) => {
                return Err(e);
            },
        }
    }
}

/// Reads a line: the bytes before the first carriage return, and the line
/// feed that has to follow it.
pub fn line_from<R: ByteSource>(src: &mut R) -> (r: Result<Vec<u8>, RedisSyncError>)
    ensures
        agrees(r, old(src).feed(), final(src).feed(), parse_line(old(src).feed().pending)),
{
    let mut line: Vec<u8> = Vec::new();
    loop
        invariant
            line@.len() <= old(src).feed().pending.len(),
            line@ == old(src).feed().pending.take(line@.len() as int),
            src.feed().pending == old(src).feed().pending.skip(line@.len() as int),
            line_end(old(src).feed().pending) == line@.len() + line_end(src.feed().pending),
            src.feed().meter == crate::io::metered(old(src).feed().meter, line@.len() as int),
        decreases src.feed().pending.len(),
    {
        let ghost seen = line@;
        match src.read_u8() {
            Ok(byte) => {
                if byte != CR {
                    line.push(byte);
                    proof {
                        let all = old(src).feed().pending;
                        assert(line@ =~= all.take(line@.len() as int));
                        assert(src.feed().pending =~= all.skip(line@.len() as int));
                    }
                } else {
                    proof {
                        let all = old(src).feed().pending;
                        assert(src.feed().pending =~= all.skip(seen.len() + 1int));
                    }
                    match src.read_u8() {
                        Ok(next) => {
                            proof {
                                let all = old(src).feed().pending;
                                assert(src.feed().pending =~= all.skip(seen.len() + 2int));
                            }
                            if next == LF {
                                return Ok(line);
                            } else {
                                return Err(RedisSyncError::Framing);
                            }
                        },
                        Err(e) => {
                            return Err(e);
                        },
                    }
                }
            },
            Err(e) => {
                return Err(e);
            },
        }
    }
}

/// Reads a line of text.
pub fn string_from<R: ByteSource>(src: &mut R) -> (r: Result<String, RedisSyncError>)
    ensures
        agrees(r, old(src).feed(), final(src).feed(), parse_text(old(src).feed().pending)),
{
    match line_from(src) {
        Ok(line) => match string_of(line) {
            Some(text) => Ok(text),
            None => Err(RedisSyncError::Framing),
        },
        Err(e) => Err(e),
    }
}

/// Reads a line that spells a number.
pub fn number_from<R: ByteSource>(src: &mut R) -> (r: Result<i64, RedisSyncError>)
    ensures
        agrees(r, old(src).feed(), final(src).feed(), parse_int(old(src).feed().pending)),
{
    match line_from(src) {
        Ok(line) => match parse_i64(line.as_slice()) {
            Some(value) => Ok(value),
            None => Err(RedisSyncError::Framing),
        },
        Err(e) => Err(e),
    }
}

/// Reads the body of a bulk string and gives its payload.
pub fn bulk_from<R: ByteSource>(src: &mut R) -> (r: Result<Vec<u8>, RedisSyncError>)
    ensures
        agrees(r, old(src).feed(), final(src).feed(), parse_bulk(old(src).feed().pending)),
{
    proof {
        lemma_line_shrinks(old(src).feed().pending);
    }
    let n = match number_from(src) {
        Ok(n) => n,
        Err(e) => {
            return Err(e);
        },
    };
    let ghost rest = src.feed().pending;
    if n > 0 {
        let payload = match src.read_exact(n as u64) {
            Ok(payload) => payload,
            Err(e) => {
                return Err(e);
            },
        };
        let end = match src.read_exact(2) {
            Ok(end) => end,
            Err(e) => {
                return Err(e);
            },
        };
        proof {
            assert(end@[0] == rest[n as int]);
            assert(end@[1] == rest[n + 1]);
            assert(src.feed().pending =~= rest.skip(n + 2));
        }
        if end[0] != CR || end[1] != LF {
            Err(RedisSyncError::Framing)
        } else {
            Ok(payload)
        }
    } else {
        match src.read_exact(2) {
            Ok(_) => {
                let empty: Vec<u8> = Vec::new();
                Ok(empty)
            },
            Err(e) => Err(e),
        }
    }
}

/// Reads one value.
pub fn value_from<R: ByteSource>(src: &mut R) -> (r: Result<Resp, RedisSyncError>)
    ensures
        agrees(r, old(src).feed(), final(src).feed(), parse_value(old(src).feed().pending)),
    decreases old(src).feed().pending.len(),
{
    proof {
        lemma_type_shrinks(old(src).feed().pending);
    }
    let kind = match type_from(src) {
        Ok(kind) => kind,
        Err(e) => {
            return Err(e);
        },
    };
    proof {
        lemma_line_shrinks(src.feed().pending);
        lemma_bulk_shrinks(src.feed().pending);
        lemma_array_shrinks(src.feed().pending);
    }
    match kind {
        Type::String => match string_from(src) {
            Ok(text) => Ok(Resp::String(text)),
            Err(e) => Err(e),
        },
        Type::Error => match string_from(src) {
            Ok(text) => Ok(Resp::Error(text)),
            Err(e) => Err(e),
        },
        Type::Int => match number_from(src) {
            Ok(value) => Ok(Resp::Int(value)),
            Err(e) => Err(e),
        },
        Type::BulkString => match bulk_from(src) {
            Ok(bytes) => Ok(Resp::BulkBytes(bytes)),
            Err(e) => Err(e),
        },
        Type::Array => array_from(src),
    }
}

/// Reads the body of an array: its count, then its values in order.
pub fn array_from<R: ByteSource>(src: &mut R) -> (r: Result<Resp, RedisSyncError>)
    ensures
        agrees(r, old(src).feed(), final(src).feed(), parse_array(old(src).feed().pending)),
    decreases old(src).feed().pending.len(),
{
    proof {
        lemma_line_shrinks(old(src).feed().pending);
    }
    let count = match number_from(src) {
        Ok(count) => count,
        Err(e) => {
            return Err(e);
        },
    };
    let ghost start = src.feed().pending;
    let mut items: Vec<Resp> = Vec::new();
    let mut done: i64 = 0;
    proof {
        assert(values_of(items@) =~= Seq::<RespValue>::empty());
        assert(prepend(values_of(items@), parse_items(start, count as int)) == parse_items(
            start,
            count as int,
        )) by {
            match parse_items(start, count as int) {
                Ok((values, rest)) => {
                    assert(values_of(items@) + values =~= values);
                },
                Err(_) => {},
            }
        }
    }
    while done < count
        invariant
            0 <= done,
            count > 0 ==> done <= count,
            src.feed().pending.len() <= start.len(),
            start.len() < old(src).feed().pending.len(),
            parse_int(old(src).feed().pending) == Ok::<(i64, Seq<u8>), RedisSyncError>((count, start)),
            parse_items(start, count as int) == prepend(
                values_of(items@),
                parse_items(src.feed().pending, count - done),
            ),
            src.feed().meter == crate::io::metered(
                old(src).feed().meter,
                old(src).feed().pending.len() - src.feed().pending.len(),
            ),
        decreases count - done,
    {
        let ghost here = src.feed().pending;
        let ghost before = items@;
        proof {
            lemma_value_shrinks(here);
        }
        match value_from(src) {
            Ok(item) => {
                let ghost value = item@;
                items.push(item);
                done = done + 1;
                proof {
                    let rest = src.feed().pending;
                    assert(values_of(items@) =~= values_of(before) + seq![value]);
                    match parse_items(rest, count - done) {
                        Ok((values, after)) => {
                            assert(values_of(before) + (seq![value] + values) =~= values_of(items@)
                                + values);
                        },
                        Err(_) => {},
                    }
                }
            },
            Err(e) => {
                return Err(e);
            },
        }
    }
    proof {
        lemma_array_view(items);
        assert(values_of(items@) + Seq::<RespValue>::empty() =~= values_of(items@));
    }
    Ok(Resp::Array(items))
}

/// Decoding of wire values, for every byte source.
///
/// Each method hands its work to the function above that reads the same
/// thing: an array is made of values, so reading one is a function that
/// calls itself, which a provided method cannot be.
pub trait RespDecode: ByteSource + Sized {
    /// Reads one value of whatever kind its type tag announces.
    fn decode_resp(&mut self) -> (r: Result<Resp, RedisSyncError>)
        ensures
            agrees(r, old(self).feed(), final(self).feed(), parse_value(old(self).feed().pending)),
    {
        value_from(self)
    }

    /// Reads a type tag, passing over any line feeds that stand before it.
    fn decode_type(&mut self) -> (r: Result<Type, RedisSyncError>)
        ensures
            agrees(r, old(self).feed(), final(self).feed(), parse_type(old(self).feed().pending)),
    {
        type_from(self)
    }

    /// Reads a line of text: everything up to CR LF.
    fn decode_string(&mut self) -> (r: Result<String, RedisSyncError>)
        ensures
            agrees(r, old(self).feed(), final(self).feed(), parse_text(old(self).feed().pending)),
    {
        string_from(self)
    }

    /// Reads a line that spells a number, and gives it as an `Int` value.
    fn decode_int(&mut self) -> (r: Result<Resp, RedisSyncError>)
        ensures
            agrees(
                r,
                old(self).feed(),
                final(self).feed(),
                match parse_int(old(self).feed().pending) {
                    Ok((value, rest)) => Ok((RespValue::Int(value as int), rest)),
                    Err(e) => Err(e),
                },
            ),
    {
        match number_from(self) {
            Ok(value) => Ok(Resp::Int(value)),
            Err(e) => Err(e),
        }
    }

    /// Reads the body of a bulk string, and gives it as a `BulkBytes` value.
    fn decode_bulk_string(&mut self) -> (r: Result<Resp, RedisSyncError>)
        ensures
            agrees(
                r,
                old(self).feed(),
                final(self).feed(),
                match parse_bulk(old(self).feed().pending) {
                    Ok((bytes, rest)) => Ok((RespValue::BulkBytes(bytes), rest)),
                    Err(e) => Err(e),
                },
            ),
    {
        match bulk_from(self) {
            Ok(bytes) => Ok(Resp::BulkBytes(bytes)),
            Err(e) => Err(e),
        }
    }

    /// Reads the body of an array, and gives it as an `Array` value.
    fn decode_array(&mut self) -> (r: Result<Resp, RedisSyncError>)
        ensures
            agrees(r, old(self).feed(), final(self).feed(), parse_array(old(self).feed().pending)),
    {
        array_from(self)
    }
}

impl<R: ByteSource> RespDecode for R {

}

} // verus!
