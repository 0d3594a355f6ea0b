//! The snapshot: a header, then records, each a piece of bookkeeping or a
//! key with its value, up to the record that ends it.
//!
//! Values come in several encodings. Lists, sets, hashes and sorted sets may
//! be written element by element, or packed into one string that holds a
//! packed list, a packed map or a set of integers. Whatever the encoding, a
//! value is handed on as plain byte strings.

use crate::decimal::{digits_value, is_digits, NINE, ZERO};
use crate::error::RedisSyncError;
use crate::text::{ascii, has_prefix, lemma_ascii_bytes, starts_with};
use crate::{Event, EventHandler, EventModel};
use crate::io::{agrees, metered, modeled, settles, take_byte, take_exact, ByteReader, ByteSource, Feed};
use crate::iter::{
    packed, parse_int_set_member, parse_item, parse_zip_map_step,
    quick_list_step, IntSetIter, QuickListIter, QuickListState, SortedSetIter, StrValIter,
    ZipListIter, ZipMapIter,
};
use crate::iter::NODE_HEADER;
use crate::rdb::{
    le_signed_from, lemma_entry_shrinks, lemma_string_shrinks, length_from, parse_le_signed,
    parse_length, parse_string, parse_zip_list_entry, Field, FieldValue, Item,
    ItemValue, Score, ScoreValue,
};
use crate::listpack::{listpack_entries, parse_listpack};
use crate::module::{
    lemma_module_shrinks, module_from, parse_module, ModuleData, ModuleModel,
};
use crate::resp::{payloads, Parsed};
use crate::stream::{lemma_stream_shrinks, parse_stream, stream_from, StreamData, StreamModel};
use vstd::prelude::*;

verus! {

/// The unit in which an expiry is given.
#[derive(Debug, Clone, Copy, PartialEq, Eq, Structural)]
pub enum ExpireType {
    Second,
    Millisecond,
}

/// The kind of hint that the peer gives for eviction.
#[derive(Debug, Clone, Copy, PartialEq, Eq, Structural)]
pub enum EvictType {
    /// The time for which the key has been idle.
    Lru,
    /// How often the key has been used, on a logarithmic scale.
    Lfu,
}

/// When a key expires: a point in time, counted from the epoch in `unit`.
#[derive(Debug, Clone, Copy, PartialEq, Eq, Structural)]
pub struct Expire {
    pub unit: ExpireType,
    pub at: i64,
}

/// A hint for eviction.
#[derive(Debug, Clone, Copy, PartialEq, Eq, Structural)]
pub struct Evict {
    pub kind: EvictType,
    pub value: u64,
}

/// What the snapshot says of a key besides its value.
#[derive(Debug, Clone, Copy, PartialEq, Eq, Structural)]
pub struct Meta {
    /// The database that the key belongs to.
    pub db: u64,
    /// When the key expires, if it does.
    pub expire: Option<Expire>,
    /// The eviction hint, if there is one.
    pub evict: Option<Evict>,
}

/// The value of a key.
#[derive(Debug, PartialEq, Eq)]
pub enum Value {
    String(Vec<u8>),
    List(Vec<Vec<u8>>),
    /// A set; its members have no order of their own.
    Members(Vec<Vec<u8>>),
    SortedSet(Vec<Item>),
    Hash(Vec<Field>),
    /// What a module has written, item by item.
    Module(ModuleData),
    /// A stream, its blocks of entries as the snapshot holds them.
    Stream(StreamData),
}

/// One object of a snapshot: a key, its value, and what else is said of it.
#[derive(Debug, PartialEq, Eq)]
pub struct Object {
    pub key: Vec<u8>,
    pub value: Value,
    pub meta: Meta,
}

/// What a [`Value`] stands for.
pub ghost enum ValueModel {
    String(Seq<u8>),
    List(Seq<Seq<u8>>),
    Members(Seq<Seq<u8>>),
    SortedSet(Seq<ItemValue>),
    Hash(Seq<FieldValue>),
    Module(ModuleModel),
    Stream(StreamModel),
}

/// What an [`Object`] stands for.
pub ghost struct ObjectModel {
    pub key: Seq<u8>,
    pub value: ValueModel,
    pub meta: Meta,
}

/// What the elements of `items` stand for, in order.
pub open spec fn item_values(items: Seq<Item>) -> Seq<ItemValue> {
    Seq::new(items.len(), |i: int| items[i]@)
}

/// What the elements of `fields` stand for, in order.
pub open spec fn field_values(fields: Seq<Field>) -> Seq<FieldValue> {
    Seq::new(fields.len(), |i: int| fields[i]@)
}

impl View for Value {
    type V = ValueModel;

    open spec fn view(&self) -> ValueModel {
        match self {
            Value::String(bytes) => ValueModel::String(bytes@),
            Value::List(values) => ValueModel::List(payloads(values@)),
            Value::Members(members) => ValueModel::Members(payloads(members@)),
            Value::SortedSet(items) => ValueModel::SortedSet(item_values(items@)),
            Value::Hash(fields) => ValueModel::Hash(field_values(fields@)),
            Value::Module(data) => ValueModel::Module(data@),
            Value::Stream(data) => ValueModel::Stream(data@),
        }
    }
}

impl View for Object {
    type V = ObjectModel;

    open spec fn view(&self) -> ObjectModel {
        ObjectModel { key: self.key@, value: self.value@, meta: self.meta }
    }
}

// ---------------------------------------------------------------------------
// Runs of elements
// ---------------------------------------------------------------------------

/// `first` put before the elements of a parsed run.
pub open spec fn before<T>(first: Seq<T>, tail: Parsed<Seq<T>>) -> Parsed<Seq<T>> {
    match tail {
        Ok((elements, rest)) => Ok((first + elements, rest)),
        Err(e) => Err(e),
    }
}

/// `count` strings, one after the other.
pub open spec fn parse_strings(s: Seq<u8>, count: int) -> Parsed<Seq<Seq<u8>>>
    decreases count,
{
    if count <= 0 {
        Ok((Seq::empty(), s))
    } else {
        match parse_string(s) {
            Ok((first, rest)) => before(seq![first], parse_strings(rest, count - 1)),
            Err(e) => Err(e),
        }
    }
}

/// `count` pairs of a sorted set, one after the other.
pub open spec fn parse_items(s: Seq<u8>, count: int, version: u8) -> Parsed<Seq<ItemValue>>
    decreases count,
{
    if count <= 0 {
        Ok((Seq::empty(), s))
    } else {
        match parse_item(s, version) {
            Ok((first, rest)) => before(seq![first], parse_items(rest, count - 1, version)),
            Err(e) => Err(e),
        }
    }
}

/// `count` entries of a packed list, one after the other.
pub open spec fn parse_entries(s: Seq<u8>, count: int) -> Parsed<Seq<Seq<u8>>>
    decreases count,
{
    if count <= 0 {
        Ok((Seq::empty(), s))
    } else {
        match packed(parse_zip_list_entry(s)) {
            Ok((first, rest)) => before(seq![first], parse_entries(rest, count - 1)),
            Err(e) => Err(e),
        }
    }
}

/// `count` members of a packed set of integers, one after the other.
pub open spec fn parse_members(s: Seq<u8>, count: int, encoding: i32) -> Parsed<Seq<Seq<u8>>>
    decreases count,
{
    if count <= 0 {
        Ok((Seq::empty(), s))
    } else {
        match parse_int_set_member(s, encoding) {
            Ok((first, rest)) => before(seq![first], parse_members(rest, count - 1, encoding)),
            Err(e) => Err(e),
        }
    }
}

/// The number of elements that a count announces: none for zero or less.
pub open spec fn announced(count: int) -> int {
    if count > 0 {
        count
    } else {
        0
    }
}

/// A run of strings holds as many strings as were announced, never more.
pub proof fn lemma_strings_count(s: Seq<u8>, count: int)
    ensures
        parse_strings(s, count) matches Ok((values, _)) ==> values.len() == announced(count),
    decreases count,
{
    if count > 0 {
        if let Ok((_, rest)) = parse_string(s) {
            lemma_strings_count(rest, count - 1);
        }
    }
}

/// A run of pairs holds as many pairs as were announced, never more.
pub proof fn lemma_items_count(s: Seq<u8>, count: int, version: u8)
    ensures
        parse_items(s, count, version) matches Ok((items, _)) ==> items.len() == announced(count),
    decreases count,
{
    if count > 0 {
        if let Ok((_, rest)) = parse_item(s, version) {
            lemma_items_count(rest, count - 1, version);
        }
    }
}

/// A packed list holds as many entries as were announced, never more.
pub proof fn lemma_entries_count(s: Seq<u8>, count: int)
    ensures
        parse_entries(s, count) matches Ok((entries, _)) ==> entries.len() == announced(count),
    decreases count,
{
    if count > 0 {
        if let Ok((_, rest)) = packed(parse_zip_list_entry(s)) {
            lemma_entries_count(rest, count - 1);
        }
    }
}

/// A packed set of integers holds as many members as were announced, never more.
pub proof fn lemma_members_count(s: Seq<u8>, count: int, encoding: i32)
    ensures
        parse_members(s, count, encoding) matches Ok((members, _)) ==> members.len() == announced(
            count,
        ),
    decreases count,
{
    if count > 0 {
        if let Ok((_, rest)) = parse_int_set_member(s, encoding) {
            lemma_members_count(rest, count - 1, encoding);
        }
    }
}

/// Putting nothing before a run leaves it as it is.
pub proof fn lemma_before_nothing<T>(tail: Parsed<Seq<T>>)
    ensures
        before(Seq::<T>::empty(), tail) == tail,
{
    match tail {
        Ok((elements, rest)) => {
            assert(Seq::<T>::empty() + elements =~= elements);
        },
        Err(_) => {},
    }
}

/// Putting `done` before a run that starts with `next` is putting `done`
/// and `next` before the rest of the run.
pub proof fn lemma_before_step<T>(done: Seq<T>, next: T, tail: Parsed<Seq<T>>)
    ensures
        before(done, before(seq![next], tail)) == before(done.push(next), tail),
{
    match tail {
        Ok((elements, rest)) => {
            assert(done + (seq![next] + elements) =~= done.push(next) + elements);
        },
        Err(_) => {},
    }
}

/// Reads `count` strings.
pub fn strings_from<R: ByteSource>(src: &mut R, count: isize) -> (r: Result<
    Vec<Vec<u8>>,
    RedisSyncError,
>)
    ensures
        settles(
            modeled(r, |values: Vec<Vec<u8>>| payloads(values@)),
            old(src).feed(),
            final(src).feed(),
            parse_strings(old(src).feed().pending, count as int),
        ),
{
    let mut values: Vec<Vec<u8>> = Vec::new();
    let mut iter = StrValIter { count };
    proof {
        assert(payloads(values@) =~= Seq::<Seq<u8>>::empty());
        lemma_before_nothing(parse_strings(src.feed().pending, count as int));
    }
    loop
        invariant
            src.feed().pending.len() <= old(src).feed().pending.len(),
            src.feed().meter == metered(
                old(src).feed().meter,
                old(src).feed().pending.len() - src.feed().pending.len(),
            ),
            parse_strings(old(src).feed().pending, count as int) == before(
                payloads(values@),
                parse_strings(src.feed().pending, iter.count as int),
            ),
        decreases iter.count,
    {
        let ghost done = payloads(values@);
        proof {
            lemma_string_shrinks(src.feed().pending);
        }
        match iter.next(src) {
            Ok(Some(value)) => {
                proof {
                    lemma_before_step(
                        done,
                        value@,
                        parse_strings(src.feed().pending, iter.count as int),
                    );
                }
                values.push(value);
                assert(payloads(values@) =~= done.push(value@));
            },
            Ok(None) => {
                assert(done + Seq::<Seq<u8>>::empty() =~= done);
                return Ok(values);
            },
            Err(e) => {
                return Err(e);
            },
        }
    }
}

/// A pair of a sorted set takes at least two bytes.
pub proof fn lemma_item_shrinks(s: Seq<u8>, version: u8)
    ensures
        parse_item(s, version) matches Ok((_, rest)) ==> rest.len() < s.len(),
{
    lemma_string_shrinks(s);
}

/// Reads `count` pairs of a sorted set, in the older format where
/// `version` is 1 and in the newer one otherwise.
pub fn items_from<R: ByteSource>(src: &mut R, count: isize, version: u8) -> (r: Result<
    Vec<Item>,
    RedisSyncError,
>)
    ensures
        settles(
            modeled(r, |items: Vec<Item>| item_values(items@)),
            old(src).feed(),
            final(src).feed(),
            parse_items(old(src).feed().pending, count as int, version),
        ),
{
    let mut items: Vec<Item> = Vec::new();
    let mut iter = SortedSetIter { count, v: version };
    proof {
        assert(item_values(items@) =~= Seq::<ItemValue>::empty());
        lemma_before_nothing(parse_items(src.feed().pending, count as int, version));
    }
    loop
        invariant
            iter.v == version,
            src.feed().pending.len() <= old(src).feed().pending.len(),
            src.feed().meter == metered(
                old(src).feed().meter,
                old(src).feed().pending.len() - src.feed().pending.len(),
            ),
            parse_items(old(src).feed().pending, count as int, version) == before(
                item_values(items@),
                parse_items(src.feed().pending, iter.count as int, version),
            ),
        decreases iter.count,
    {
        let ghost done = item_values(items@);
        proof {
            lemma_item_shrinks(src.feed().pending, version);
        }
        match iter.next(src) {
            Ok(Some(item)) => {
                proof {
                    lemma_before_step(
                        done,
                        item@,
                        parse_items(src.feed().pending, iter.count as int, version),
                    );
                }
                items.push(item);
                assert(item_values(items@) =~= done.push(item@));
            },
            Ok(None) => {
                assert(done + Seq::<ItemValue>::empty() =~= done);
                return Ok(items);
            },
            Err(e) => {
                return Err(e);
            },
        }
    }
}

// ---------------------------------------------------------------------------
// Pairs
// ---------------------------------------------------------------------------

/// The fields that a run of names and values makes, each name followed by
/// its value; a run of odd length is malformed.
pub open spec fn paired_fields(flat: Seq<Seq<u8>>) -> Result<Seq<FieldValue>, RedisSyncError> {
    if flat.len() % 2 != 0 {
        Err(RedisSyncError::Encoding)
    } else {
        Ok(Seq::new(flat.len() / 2, |i: int| FieldValue { name: flat[2 * i], value: flat[2 * i + 1] }))
    }
}

/// The pairs of a sorted set that a run of members and scores makes, each
/// member followed by its score as decimal text; a run of odd length is
/// malformed.
pub open spec fn paired_items(flat: Seq<Seq<u8>>) -> Result<Seq<ItemValue>, RedisSyncError> {
    if flat.len() % 2 != 0 {
        Err(RedisSyncError::Encoding)
    } else {
        Ok(
            Seq::new(
                flat.len() / 2,
                |i: int| ItemValue { member: flat[2 * i], score: ScoreValue::Text(flat[2 * i + 1]) },
            ),
        )
    }
}

/// A copy of `bytes`.
fn copy_of(bytes: &Vec<u8>) -> (copy: Vec<u8>)
    ensures
        copy@ == bytes@,
{
    let mut copy: Vec<u8> = Vec::new();
    copy.extend_from_slice(bytes.as_slice());
    assert(copy@ =~= bytes@);
    copy
}

/// Makes fields of a run of names and values.
pub fn fields_of(flat: &Vec<Vec<u8>>) -> (r: Result<Vec<Field>, RedisSyncError>)
    ensures
        modeled(r, |fields: Vec<Field>| field_values(fields@)) == paired_fields(payloads(flat@)),
{
    if flat.len() % 2 != 0 {
        return Err(RedisSyncError::Encoding);
    }
    let mut fields: Vec<Field> = Vec::new();
    let mut i: usize = 0;
    while i < flat.len()
        invariant
            i <= flat@.len(),
            i % 2 == 0,
            flat@.len() % 2 == 0,
            fields@.len() == i / 2,
            forall|k: int|
                0 <= k < fields@.len() ==> (#[trigger] fields@[k])@ == (FieldValue {
                    name: flat@[2 * k]@,
                    value: flat@[2 * k + 1]@,
                }),
        decreases flat@.len() - i,
    {
        let name = copy_of(&flat[i]);
        let value = copy_of(&flat[i + 1]);
        fields.push(Field { name, value });
        i = i + 2;
    }
    assert(field_values(fields@) =~= paired_fields(payloads(flat@))->Ok_0);
    Ok(fields)
}

/// Makes pairs of a sorted set of a run of members and scores.
pub fn items_of(flat: &Vec<Vec<u8>>) -> (r: Result<Vec<Item>, RedisSyncError>)
    ensures
        modeled(r, |items: Vec<Item>| item_values(items@)) == paired_items(payloads(flat@)),
{
    if flat.len() % 2 != 0 {
        return Err(RedisSyncError::Encoding);
    }
    let mut items: Vec<Item> = Vec::new();
    let mut i: usize = 0;
    while i < flat.len()
        invariant
            i <= flat@.len(),
            i % 2 == 0,
            flat@.len() % 2 == 0,
            items@.len() == i / 2,
            forall|k: int|
                0 <= k < items@.len() ==> (#[trigger] items@[k])@ == (ItemValue {
                    member: flat@[2 * k]@,
                    score: ScoreValue::Text(flat@[2 * k + 1]@),
                }),
        decreases flat@.len() - i,
    {
        let member = copy_of(&flat[i]);
        let score = Score::Text(copy_of(&flat[i + 1]));
        items.push(Item { member, score });
        i = i + 2;
    }
    assert(item_values(items@) =~= paired_items(payloads(flat@))->Ok_0);
    Ok(items)
}

// ---------------------------------------------------------------------------
// Packed containers
// ---------------------------------------------------------------------------

/// The entries of a packed list: after eight bytes of header stands the
/// number of entries, in two bytes, and after it stand the entries. A number
/// of zero or less announces none.
pub open spec fn parse_zip_list(data: Seq<u8>) -> Result<Seq<Seq<u8>>, RedisSyncError> {
    match packed(parse_le_signed(ByteReader::rest_of(data, NODE_HEADER as nat), 2)) {
        Ok((count, body)) => match parse_entries(body, count as int) {
            Ok((entries, _)) => Ok(entries),
            Err(e) => Err(e),
        },
        Err(e) => Err(e),
    }
}

/// Reads the entries of the packed list that `data` holds.
pub fn zip_list_entries(data: Vec<u8>) -> (r: Result<Vec<Vec<u8>>, RedisSyncError>)
    ensures
        modeled(r, |entries: Vec<Vec<u8>>| payloads(entries@)) == parse_zip_list(data@),
{
    let mut cursor = ByteReader::new(data);
    cursor.set_position(NODE_HEADER);
    let count = match le_signed_from(&mut cursor, 2) {
        Ok(count) => count,
        Err(RedisSyncError::Disconnect) => {
            return Err(RedisSyncError::Encoding);
        },
        Err(e) => {
            return Err(e);
        },
    };
    proof {
        let header = ByteReader::rest_of(data@, NODE_HEADER as nat).take(2);
        crate::endian::lemma_le_value_bound(header);
        crate::endian::lemma_radix_values();
    }
    let ghost body = cursor.feed().pending;
    let mut entries: Vec<Vec<u8>> = Vec::new();
    let mut iter = ZipListIter { count: count as isize, cursor };
    proof {
        assert(payloads(entries@) =~= Seq::<Seq<u8>>::empty());
        lemma_before_nothing(parse_entries(body, count as int));
    }
    loop
        invariant
            packed(parse_le_signed(ByteReader::rest_of(data@, NODE_HEADER as nat), 2)) == Ok::<
                (i64, Seq<u8>),
                RedisSyncError,
            >((count, body)),
            parse_entries(body, count as int) == before(
                payloads(entries@),
                parse_entries(iter.cursor.feed().pending, iter.count as int),
            ),
        decreases iter.count,
    {
        let ghost done = payloads(entries@);
        match iter.next() {
            Ok(Some(entry)) => {
                proof {
                    lemma_before_step(
                        done,
                        entry@,
                        parse_entries(iter.cursor.feed().pending, iter.count as int),
                    );
                }
                entries.push(entry);
                assert(payloads(entries@) =~= done.push(entry@));
            },
            Ok(None) => {
                assert(done + Seq::<Seq<u8>>::empty() =~= done);
                return Ok(entries);
            },
            Err(e) => {
                return Err(e);
            },
        }
    }
}

/// The members of a packed set of integers: the width of a member, in four
/// bytes, the number of members, in four bytes, and the members. A number of
/// zero or less announces none.
pub open spec fn parse_int_set(data: Seq<u8>) -> Result<Seq<Seq<u8>>, RedisSyncError> {
    match packed(parse_le_signed(data, 4)) {
        Ok((encoding, after)) => match packed(parse_le_signed(after, 4)) {
            Ok((count, body)) => match parse_members(body, count as int, encoding as i32) {
                Ok((members, _)) => Ok(members),
                Err(e) => Err(e),
            },
            Err(e) => Err(e),
        },
        Err(e) => Err(e),
    }
}

/// Reads the members of the packed set of integers that `data` holds.
pub fn int_set_members(data: Vec<u8>) -> (r: Result<Vec<Vec<u8>>, RedisSyncError>)
    ensures
        modeled(r, |members: Vec<Vec<u8>>| payloads(members@)) == parse_int_set(data@),
{
    let mut cursor = ByteReader::new(data);
    let encoding = match le_signed_from(&mut cursor, 4) {
        Ok(encoding) => encoding,
        Err(RedisSyncError::Disconnect) => {
            return Err(RedisSyncError::Encoding);
        },
        Err(e) => {
            return Err(e);
        },
    };
    let ghost after = cursor.feed().pending;
    let count = match le_signed_from(&mut cursor, 4) {
        Ok(count) => count,
        Err(RedisSyncError::Disconnect) => {
            return Err(RedisSyncError::Encoding);
        },
        Err(e) => {
            return Err(e);
        },
    };
    proof {
        crate::endian::lemma_le_value_bound(data@.take(4));
        crate::endian::lemma_le_value_bound(after.take(4));
        crate::endian::lemma_radix_values();
    }
    let ghost body = cursor.feed().pending;
    let mut members: Vec<Vec<u8>> = Vec::new();
    let mut iter = IntSetIter { encoding: encoding as i32, count: count as isize, cursor };
    proof {
        assert(payloads(members@) =~= Seq::<Seq<u8>>::empty());
        lemma_before_nothing(parse_members(body, count as int, encoding as i32));
    }
    loop
        invariant
            i32::MIN <= encoding <= i32::MAX,
            packed(parse_le_signed(data@, 4)) == Ok::<(i64, Seq<u8>), RedisSyncError>(
                (encoding, after),
            ),
            packed(parse_le_signed(after, 4)) == Ok::<(i64, Seq<u8>), RedisSyncError>((count, body)),
            iter.encoding == encoding as i32,
            parse_members(body, count as int, encoding as i32) == before(
                payloads(members@),
                parse_members(iter.cursor.feed().pending, iter.count as int, encoding as i32),
            ),
        decreases iter.count,
    {
        let ghost done = payloads(members@);
        match iter.next() {
            Ok(Some(member)) => {
                proof {
                    lemma_before_step(
                        done,
                        member@,
                        parse_members(iter.cursor.feed().pending, iter.count as int, encoding as i32),
                    );
                }
                members.push(member);
                assert(payloads(members@) =~= done.push(member@));
            },
            Ok(None) => {
                assert(done + Seq::<Seq<u8>>::empty() =~= done);
                return Ok(members);
            },
            Err(e) => {
                return Err(e);
            },
        }
    }
}

/// The fields of a packed map from `s` on, up to the byte that ends it.
///
/// The test on lengths always holds, since a step that leaves more to come
/// has taken at least one byte.
pub open spec fn parse_zip_map_fields(s: Seq<u8>) -> Result<Seq<FieldValue>, RedisSyncError>
    decreases s.len(),
{
    match packed(parse_zip_map_step(s)) {
        Ok(((field, more), rest)) => {
            let found = match field {
                Some(f) => seq![f],
                None => Seq::empty(),
            };
            if !more {
                Ok(found)
            } else if rest.len() < s.len() {
                match parse_zip_map_fields(rest) {
                    Ok(fields) => Ok(found + fields),
                    Err(e) => Err(e),
                }
            } else {
                Err(RedisSyncError::Encoding)
            }
        },
        Err(e) => Err(e),
    }
}

/// The fields of a packed map: one byte that is passed over, then the fields.
pub open spec fn parse_zip_map(data: Seq<u8>) -> Result<Seq<FieldValue>, RedisSyncError> {
    if data.len() == 0 {
        Err(RedisSyncError::Encoding)
    } else {
        parse_zip_map_fields(data.skip(1))
    }
}

/// A step through a packed map takes at least one byte.
pub proof fn lemma_zip_map_step_shrinks(s: Seq<u8>)
    ensures
        parse_zip_map_step(s) matches Ok((_, rest)) ==> rest.len() < s.len(),
{
}

/// `done` put before the fields of a parsed map.
pub open spec fn after_fields(done: Seq<FieldValue>, tail: Result<Seq<FieldValue>, RedisSyncError>) -> Result<
    Seq<FieldValue>,
    RedisSyncError,
> {
    match tail {
        Ok(fields) => Ok(done + fields),
        Err(e) => Err(e),
    }
}

/// Reads the fields of the packed map that `data` holds.
pub fn zip_map_fields(data: Vec<u8>) -> (r: Result<Vec<Field>, RedisSyncError>)
    ensures
        modeled(r, |fields: Vec<Field>| field_values(fields@)) == parse_zip_map(data@),
{
    let mut cursor = ByteReader::new(data);
    match cursor.read_u8() {
        Ok(_) => {},
        Err(_) => {
            return Err(RedisSyncError::Encoding);
        },
    }
    let ghost start = cursor.feed().pending;
    let mut fields: Vec<Field> = Vec::new();
    let mut iter = ZipMapIter { has_more: true, cursor };
    proof {
        assert(field_values(fields@) =~= Seq::<FieldValue>::empty());
        match parse_zip_map_fields(start) {
            Ok(all) => {
                assert(Seq::<FieldValue>::empty() + all =~= all);
            },
            Err(_) => {},
        }
    }
    loop
        invariant
            data@.len() > 0,
            start == data@.skip(1),
            parse_zip_map_fields(start) == after_fields(
                field_values(fields@),
                if iter.has_more {
                    parse_zip_map_fields(iter.cursor.feed().pending)
                } else {
                    Ok(Seq::empty())
                },
            ),
        decreases
                iter.cursor.feed().pending.len() + (if iter.has_more {
                    1int
                } else {
                    0int
                }),
    {
        let ghost done = field_values(fields@);
        let ghost here = iter.cursor.feed().pending;
        let ghost more_before = iter.has_more;
        proof {
            lemma_zip_map_step_shrinks(here);
        }
        match iter.next() {
            Ok(Some(field)) => {
                let ghost model = field@;
                fields.push(field);
                proof {
                    assert(field_values(fields@) =~= done.push(model));
                    let tail = if iter.has_more {
                        parse_zip_map_fields(iter.cursor.feed().pending)
                    } else {
                        Ok(Seq::empty())
                    };
                    match tail {
                        Ok(rest) => {
                            assert(done + (seq![model] + rest) =~= done.push(model) + rest);
                        },
                        Err(_) => {},
                    }
                }
            },
            Ok(None) => {
                proof {
                    assert(done + Seq::<FieldValue>::empty() =~= done);
                    if more_before {
                        assert(Seq::<FieldValue>::empty() + Seq::<FieldValue>::empty()
                            =~= Seq::<FieldValue>::empty());
                    }
                }
                return Ok(fields);
            },
            Err(e) => {
                return Err(e);
            },
        }
    }
}

// ---------------------------------------------------------------------------
// A list of packed lists
// ---------------------------------------------------------------------------

/// The entries that a list of packed lists in `state` still hands out,
/// with `input` pending in the snapshot.
///
/// The test on lengths always holds: an entry is either taken from the node
/// at hand, which shortens what is left of it, or from a node that was read
/// from the snapshot for it.
pub open spec fn quick_list_rest(state: QuickListState, input: Seq<u8>) -> Parsed<Seq<Seq<u8>>>
    decreases input.len(), state.node.len(),
{
    match quick_list_step(state, input) {
        Ok((Some(entry), next, rest)) => if rest.len() < input.len() || (rest.len() == input.len()
            && next.node.len() < state.node.len()) {
            before(seq![entry], quick_list_rest(next, rest))
        } else {
            Err(RedisSyncError::Encoding)
        },
        Ok((None, _, rest)) => Ok((Seq::empty(), rest)),
        Err(e) => Err(e),
    }
}

/// The entries of a list of `count` packed lists.
pub open spec fn parse_quick_list(s: Seq<u8>, count: int) -> Parsed<Seq<Seq<u8>>> {
    quick_list_rest(QuickListState { len: -1, count, node: Seq::empty() }, s)
}

/// A call of `next` never gives bytes back to the snapshot, and where it
/// hands out an entry it has taken bytes from the snapshot or from the node
/// at hand.
pub proof fn lemma_quick_list_step_shrinks(state: QuickListState, input: Seq<u8>)
    ensures
        quick_list_step(state, input) matches Ok((entry, next, rest)) ==> {
            &&& rest.len() <= input.len()
            &&& entry is Some ==> rest.len() < input.len() || next.node.len() < state.node.len()
        },
    decreases input.len(), (if state.len == -1 {
        1int
    } else {
        0int
    }),
{
    if state.len == -1 && state.count > 0 {
        lemma_string_shrinks(input);
        if let Ok((data, rest)) = parse_string(input) {
            if let Ok((entries, node)) = packed(
                parse_le_signed(ByteReader::rest_of(data, NODE_HEADER as nat), 2),
            ) {
                let next = crate::iter::settled(entries as int, state.count, node);
                if next.len > 0 || next.count > 0 {
                    lemma_quick_list_step_shrinks(next, rest);
                }
            }
        }
    } else if state.count > 0 {
        lemma_entry_shrinks(state.node);
    }
}

/// Reads the entries of a list of `count` packed lists.
pub fn quick_list_entries<R: ByteSource>(src: &mut R, count: isize) -> (r: Result<
    Vec<Vec<u8>>,
    RedisSyncError,
>)
    ensures
        settles(
            modeled(r, |entries: Vec<Vec<u8>>| payloads(entries@)),
            old(src).feed(),
            final(src).feed(),
            parse_quick_list(old(src).feed().pending, count as int),
        ),
{
    let mut entries: Vec<Vec<u8>> = Vec::new();
    let mut iter = QuickListIter { len: -1, count, cursor: None };
    proof {
        assert(payloads(entries@) =~= Seq::<Seq<u8>>::empty());
        lemma_before_nothing(parse_quick_list(src.feed().pending, count as int));
    }
    loop
        invariant
            src.feed().pending.len() <= old(src).feed().pending.len(),
            src.feed().meter == metered(
                old(src).feed().meter,
                old(src).feed().pending.len() - src.feed().pending.len(),
            ),
            parse_quick_list(old(src).feed().pending, count as int) == before(
                payloads(entries@),
                quick_list_rest(iter.state(), src.feed().pending),
            ),
        decreases src.feed().pending.len(), iter.state().node.len(),
    {
        let ghost done = payloads(entries@);
        proof {
            lemma_quick_list_step_shrinks(iter.state(), src.feed().pending);
        }
        match iter.next(src) {
            Ok(Some(entry)) => {
                proof {
                    lemma_before_step(
                        done,
                        entry@,
                        quick_list_rest(iter.state(), src.feed().pending),
                    );
                }
                entries.push(entry);
                assert(payloads(entries@) =~= done.push(entry@));
            },
            Ok(None) => {
                assert(done + Seq::<Seq<u8>>::empty() =~= done);
                return Ok(entries);
            },
            Err(e) => {
                return Err(e);
            },
        }
    }
}

// ---------------------------------------------------------------------------
// Values
// ---------------------------------------------------------------------------

/// How a value is written in the snapshot.
#[derive(Debug, Clone, Copy, PartialEq, Eq, Structural)]
pub enum Encoding {
    /// A string.
    String,
    /// A list, string by string.
    List,
    /// A set, string by string.
    Members,
    /// A sorted set, pair by pair, with scores as decimal text.
    SortedSet,
    /// A sorted set, pair by pair, with scores as bit patterns.
    SortedSet2,
    /// A hash, string by string.
    Hash,
    /// A hash as a packed map.
    HashZipMap,
    /// A list as a packed list.
    ListZipList,
    /// A set as a packed set of integers.
    SetIntSet,
    /// A sorted set as a packed list of members and scores.
    SortedSetZipList,
    /// A hash as a packed list of names and values.
    HashZipList,
    /// A list as a list of packed lists.
    ListQuickList,
    /// A hash as a packed list of the newer kind, names and values in turn.
    HashListPack,
    /// A sorted set as a packed list of the newer kind, members and scores in turn.
    SortedSetListPack,
    /// A set as a packed list of the newer kind.
    SetListPack,
    /// A list as a list of nodes, each a string by itself or a packed list
    /// of the newer kind.
    ListQuickList2,
    /// The data of a module, item by item.
    Module,
    /// A stream in the first form.
    Stream,
    /// A stream in the second form.
    Stream2,
    /// A stream in the third form.
    Stream3,
}

// The type tags of the snapshot format, for the encodings that this library reads.

/// The tag of a string.
pub const TYPE_STRING: u8 = 0;

/// The tag of a list written string by string.
pub const TYPE_LIST: u8 = 1;

/// The tag of a set written string by string.
pub const TYPE_SET: u8 = 2;

/// The tag of a sorted set whose scores are decimal text.
pub const TYPE_ZSET: u8 = 3;

/// The tag of a hash written string by string.
pub const TYPE_HASH: u8 = 4;

/// The tag of a sorted set whose scores are bit patterns.
pub const TYPE_ZSET_2: u8 = 5;

/// The tag of the data of a module.
pub const TYPE_MODULE_2: u8 = 7;

/// The tag of a hash as a packed map.
pub const TYPE_HASH_ZIPMAP: u8 = 9;

/// The tag of a list as a packed list.
pub const TYPE_LIST_ZIPLIST: u8 = 10;

/// The tag of a set as a packed set of integers.
pub const TYPE_SET_INTSET: u8 = 11;

/// The tag of a sorted set as a packed list.
pub const TYPE_ZSET_ZIPLIST: u8 = 12;

/// The tag of a hash as a packed list.
pub const TYPE_HASH_ZIPLIST: u8 = 13;

/// The tag of a list as a list of packed lists.
pub const TYPE_LIST_QUICKLIST: u8 = 14;

/// The tag of a stream in the first form.
pub const TYPE_STREAM: u8 = 15;

/// The tag of a hash as a packed list of the newer kind.
pub const TYPE_HASH_LISTPACK: u8 = 16;

/// The tag of a sorted set as a packed list of the newer kind.
pub const TYPE_ZSET_LISTPACK: u8 = 17;

/// The tag of a list as a list of nodes of either kind.
pub const TYPE_LIST_QUICKLIST_2: u8 = 18;

/// The tag of a set as a packed list of the newer kind.
pub const TYPE_SET_LISTPACK: u8 = 20;

/// A node that is one string by itself.
pub const NODE_PLAIN: u64 = 1;

/// A node that is a packed list.
pub const NODE_PACKED: u64 = 2;

/// The tag of a stream in the second form.
pub const TYPE_STREAM_2: u8 = 19;

/// The tag of a stream in the third form.
pub const TYPE_STREAM_3: u8 = 21;

/// The encoding that a type tag announces, for the tags that this library reads.
pub open spec fn encoding_of(tag: u8) -> Option<Encoding> {
    if tag == TYPE_STRING {
        Some(Encoding::String)
    } else if tag == TYPE_LIST {
        Some(Encoding::List)
    } else if tag == TYPE_SET {
        Some(Encoding::Members)
    } else if tag == TYPE_ZSET {
        Some(Encoding::SortedSet)
    } else if tag == TYPE_HASH {
        Some(Encoding::Hash)
    } else if tag == TYPE_ZSET_2 {
        Some(Encoding::SortedSet2)
    } else if tag == TYPE_HASH_ZIPMAP {
        Some(Encoding::HashZipMap)
    } else if tag == TYPE_LIST_ZIPLIST {
        Some(Encoding::ListZipList)
    } else if tag == TYPE_SET_INTSET {
        Some(Encoding::SetIntSet)
    } else if tag == TYPE_ZSET_ZIPLIST {
        Some(Encoding::SortedSetZipList)
    } else if tag == TYPE_HASH_ZIPLIST {
        Some(Encoding::HashZipList)
    } else if tag == TYPE_LIST_QUICKLIST {
        Some(Encoding::ListQuickList)
    } else if tag == TYPE_HASH_LISTPACK {
        Some(Encoding::HashListPack)
    } else if tag == TYPE_ZSET_LISTPACK {
        Some(Encoding::SortedSetListPack)
    } else if tag == TYPE_SET_LISTPACK {
        Some(Encoding::SetListPack)
    } else if tag == TYPE_LIST_QUICKLIST_2 {
        Some(Encoding::ListQuickList2)
    } else if tag == TYPE_MODULE_2 {
        Some(Encoding::Module)
    } else if tag == TYPE_STREAM {
        Some(Encoding::Stream)
    } else if tag == TYPE_STREAM_2 {
        Some(Encoding::Stream2)
    } else if tag == TYPE_STREAM_3 {
        Some(Encoding::Stream3)
    } else {
        None
    }
}

/// The encoding that a type tag announces.
pub fn encoding_for(tag: u8) -> (r: Option<Encoding>)
    ensures
        r == encoding_of(tag),
{
    if tag == TYPE_STRING {
        Some(Encoding::String)
    } else if tag == TYPE_LIST {
        Some(Encoding::List)
    } else if tag == TYPE_SET {
        Some(Encoding::Members)
    } else if tag == TYPE_ZSET {
        Some(Encoding::SortedSet)
    } else if tag == TYPE_HASH {
        Some(Encoding::Hash)
    } else if tag == TYPE_ZSET_2 {
        Some(Encoding::SortedSet2)
    } else if tag == TYPE_HASH_ZIPMAP {
        Some(Encoding::HashZipMap)
    } else if tag == TYPE_LIST_ZIPLIST {
        Some(Encoding::ListZipList)
    } else if tag == TYPE_SET_INTSET {
        Some(Encoding::SetIntSet)
    } else if tag == TYPE_ZSET_ZIPLIST {
        Some(Encoding::SortedSetZipList)
    } else if tag == TYPE_HASH_ZIPLIST {
        Some(Encoding::HashZipList)
    } else if tag == TYPE_LIST_QUICKLIST {
        Some(Encoding::ListQuickList)
    } else if tag == TYPE_HASH_LISTPACK {
        Some(Encoding::HashListPack)
    } else if tag == TYPE_ZSET_LISTPACK {
        Some(Encoding::SortedSetListPack)
    } else if tag == TYPE_SET_LISTPACK {
        Some(Encoding::SetListPack)
    } else if tag == TYPE_LIST_QUICKLIST_2 {
        Some(Encoding::ListQuickList2)
    } else if tag == TYPE_MODULE_2 {
        Some(Encoding::Module)
    } else if tag == TYPE_STREAM {
        Some(Encoding::Stream)
    } else if tag == TYPE_STREAM_2 {
        Some(Encoding::Stream2)
    } else if tag == TYPE_STREAM_3 {
        Some(Encoding::Stream3)
    } else {
        None
    }
}

/// A number of elements: a length that is no mark of an encoding matters
/// as little here as elsewhere, but a number that no container in memory
/// could hold is malformed.
pub open spec fn parse_count(s: Seq<u8>) -> Parsed<isize> {
    match parse_length(s) {
        Ok(((count, _), rest)) => if count <= isize::MAX {
            Ok((count as isize, rest))
        } else {
            Err(RedisSyncError::Encoding)
        },
        Err(e) => Err(e),
    }
}

/// Reads a number of elements.
pub fn count_from<R: ByteSource>(src: &mut R) -> (r: Result<isize, RedisSyncError>)
    ensures
        agrees(r, old(src).feed(), final(src).feed(), parse_count(old(src).feed().pending)),
{
    match length_from(src) {
        Ok((count, _)) => {
            if count <= isize::MAX as u64 {
                Ok(count as isize)
            } else {
                Err(RedisSyncError::Encoding)
            }
        },
        Err(e) => Err(e),
    }
}

/// What was parsed, seen through `shape`; a failure of `shape` is a
/// failure of the whole.
pub open spec fn shaped<A, B>(parsed: Parsed<A>, shape: spec_fn(A) -> Result<B, RedisSyncError>) -> Parsed<B> {
    match parsed {
        Ok((value, rest)) => match shape(value) {
            Ok(shaped) => Ok((shaped, rest)),
            Err(e) => Err(e),
        },
        Err(e) => Err(e),
    }
}

/// A number of elements, then what `body` finds for that number.
pub open spec fn counted<B>(s: Seq<u8>, body: spec_fn(Seq<u8>, int) -> Parsed<B>) -> Parsed<B> {
    match parse_count(s) {
        Ok((count, rest)) => body(rest, count as int),
        Err(e) => Err(e),
    }
}

/// A hash written string by string: `count` names, each followed by its value.
pub open spec fn parse_hash(s: Seq<u8>, count: int) -> Parsed<Seq<FieldValue>> {
    if 2 * count > isize::MAX {
        Err(RedisSyncError::Encoding)
    } else {
        shaped(parse_strings(s, 2 * count), |flat: Seq<Seq<u8>>| paired_fields(flat))
    }
}

/// A list or set written string by string: the number of strings, then the strings.
pub open spec fn parse_list(s: Seq<u8>) -> Parsed<Seq<Seq<u8>>> {
    counted(s, |rest: Seq<u8>, count: int| parse_strings(rest, count))
}

/// A sorted set written pair by pair: the number of pairs, then the pairs.
pub open spec fn parse_sorted_set(s: Seq<u8>, version: u8) -> Parsed<Seq<ItemValue>> {
    counted(s, |rest: Seq<u8>, count: int| parse_items(rest, count, version))
}

/// A hash written string by string: the number of fields, then the fields.
pub open spec fn parse_plain_hash(s: Seq<u8>) -> Parsed<Seq<FieldValue>> {
    counted(s, |rest: Seq<u8>, count: int| parse_hash(rest, count))
}

/// A list of packed lists: the number of packed lists, then each as a string.
pub open spec fn parse_list_of_lists(s: Seq<u8>) -> Parsed<Seq<Seq<u8>>> {
    counted(s, |rest: Seq<u8>, count: int| parse_quick_list(rest, count))
}

/// A string that holds a packed list.
pub open spec fn parse_packed_list(s: Seq<u8>) -> Parsed<Seq<Seq<u8>>> {
    shaped(parse_string(s), |data: Seq<u8>| parse_zip_list(data))
}

/// A string that holds a packed set of integers.
pub open spec fn parse_packed_set(s: Seq<u8>) -> Parsed<Seq<Seq<u8>>> {
    shaped(parse_string(s), |data: Seq<u8>| parse_int_set(data))
}

/// A string that holds a packed map.
pub open spec fn parse_packed_map(s: Seq<u8>) -> Parsed<Seq<FieldValue>> {
    shaped(parse_string(s), |data: Seq<u8>| parse_zip_map(data))
}

/// A string that holds a packed list of names and values.
pub open spec fn parse_packed_hash(s: Seq<u8>) -> Parsed<Seq<FieldValue>> {
    shaped(parse_packed_list(s), |flat: Seq<Seq<u8>>| paired_fields(flat))
}

/// A string that holds a packed list of members and scores.
pub open spec fn parse_packed_sorted_set(s: Seq<u8>) -> Parsed<Seq<ItemValue>> {
    shaped(parse_packed_list(s), |flat: Seq<Seq<u8>>| paired_items(flat))
}

/// A string that holds a packed list of the newer kind.
pub open spec fn parse_pack_list(s: Seq<u8>) -> Parsed<Seq<Seq<u8>>> {
    shaped(parse_string(s), |data: Seq<u8>| parse_listpack(data))
}

/// A string that holds a packed list of the newer kind, names and values in turn.
pub open spec fn parse_pack_hash(s: Seq<u8>) -> Parsed<Seq<FieldValue>> {
    shaped(parse_pack_list(s), |flat: Seq<Seq<u8>>| paired_fields(flat))
}

/// A string that holds a packed list of the newer kind, members and scores in turn.
pub open spec fn parse_pack_sorted_set(s: Seq<u8>) -> Parsed<Seq<ItemValue>> {
    shaped(parse_pack_list(s), |flat: Seq<Seq<u8>>| paired_items(flat))
}

/// One node of a list: a mark, then a string that is an element by itself
/// or holds a packed list of the newer kind, as the mark says.
pub open spec fn parse_node(s: Seq<u8>) -> Parsed<Seq<Seq<u8>>> {
    match parse_length(s) {
        Ok(((container, _), at_data)) => match parse_string(at_data) {
            Ok((data, rest)) => if container == NODE_PLAIN {
                Ok((seq![data], rest))
            } else if container == NODE_PACKED {
                match parse_listpack(data) {
                    Ok(entries) => Ok((entries, rest)),
                    Err(e) => Err(e),
                }
            } else {
                Err(RedisSyncError::Encoding)
            },
            Err(e) => Err(e),
        },
        Err(e) => Err(e),
    }
}

/// The elements of `count` nodes, one node after the other.
pub open spec fn parse_node_run(s: Seq<u8>, count: int) -> Parsed<Seq<Seq<u8>>>
    decreases count,
{
    if count <= 0 {
        Ok((Seq::empty(), s))
    } else {
        match parse_node(s) {
            Ok((first, rest)) => before(first, parse_node_run(rest, count - 1)),
            Err(e) => Err(e),
        }
    }
}

/// A list as a list of nodes: their number, then the nodes.
pub open spec fn parse_list_of_nodes(s: Seq<u8>) -> Parsed<Seq<Seq<u8>>> {
    counted(s, |rest: Seq<u8>, count: int| parse_node_run(rest, count))
}

/// A node takes at least two bytes.
pub proof fn lemma_node_shrinks(s: Seq<u8>)
    ensures
        parse_node(s) matches Ok((_, rest)) ==> rest.len() < s.len(),
{
    crate::rdb::lemma_length_shrinks(s);
    if let Ok((_, at_data)) = parse_length(s) {
        lemma_string_shrinks(at_data);
    }
}

/// A run of nodes never gives bytes back.
pub proof fn lemma_node_run_shrinks(s: Seq<u8>, count: int)
    ensures
        parse_node_run(s, count) matches Ok((_, rest)) ==> rest.len() <= s.len(),
    decreases count,
{
    if count > 0 {
        lemma_node_shrinks(s);
        if let Ok((_, rest)) = parse_node(s) {
            lemma_node_run_shrinks(rest, count - 1);
        }
    }
}

/// Putting `done` before a run that starts with `next` is putting both
/// before the rest of the run.
pub proof fn lemma_before_join<T>(done: Seq<T>, next: Seq<T>, tail: Parsed<Seq<T>>)
    ensures
        before(done, before(next, tail)) == before(done + next, tail),
{
    match tail {
        Ok((elements, rest)) => {
            assert(done + (next + elements) =~= (done + next) + elements);
        },
        Err(_) => {},
    }
}

/// Reads a string that holds a packed list of the newer kind.
pub fn pack_list_from<R: ByteSource>(src: &mut R) -> (r: Result<Vec<Vec<u8>>, RedisSyncError>)
    ensures
        settles(
            modeled(r, |values: Vec<Vec<u8>>| payloads(values@)),
            old(src).feed(),
            final(src).feed(),
            parse_pack_list(old(src).feed().pending),
        ),
{
    match crate::rdb::string_from(src) {
        Ok(data) => listpack_entries(data),
        Err(e) => Err(e),
    }
}

/// Reads a hash held in a packed list of the newer kind.
pub fn pack_hash_from<R: ByteSource>(src: &mut R) -> (r: Result<Vec<Field>, RedisSyncError>)
    ensures
        settles(
            modeled(r, |fields: Vec<Field>| field_values(fields@)),
            old(src).feed(),
            final(src).feed(),
            parse_pack_hash(old(src).feed().pending),
        ),
{
    match pack_list_from(src) {
        Ok(flat) => fields_of(&flat),
        Err(e) => Err(e),
    }
}

/// Reads a sorted set held in a packed list of the newer kind.
pub fn pack_sorted_set_from<R: ByteSource>(src: &mut R) -> (r: Result<Vec<Item>, RedisSyncError>)
    ensures
        settles(
            modeled(r, |items: Vec<Item>| item_values(items@)),
            old(src).feed(),
            final(src).feed(),
            parse_pack_sorted_set(old(src).feed().pending),
        ),
{
    match pack_list_from(src) {
        Ok(flat) => items_of(&flat),
        Err(e) => Err(e),
    }
}

/// Reads one node of a list and gives its elements.
pub fn node_from<R: ByteSource>(src: &mut R) -> (r: Result<Vec<Vec<u8>>, RedisSyncError>)
    ensures
        settles(
            modeled(r, |values: Vec<Vec<u8>>| payloads(values@)),
            old(src).feed(),
            final(src).feed(),
            parse_node(old(src).feed().pending),
        ),
{
    proof {
        crate::rdb::lemma_length_shrinks(src.feed().pending);
    }
    let container = match length_from(src) {
        Ok((container, _)) => container,
        Err(e) => {
            return Err(e);
        },
    };
    proof {
        lemma_string_shrinks(src.feed().pending);
    }
    let data = match crate::rdb::string_from(src) {
        Ok(data) => data,
        Err(e) => {
            return Err(e);
        },
    };
    if container == NODE_PLAIN {
        let mut values: Vec<Vec<u8>> = Vec::new();
        let ghost model = data@;
        values.push(data);
        assert(payloads(values@) =~= seq![model]);
        Ok(values)
    } else if container == NODE_PACKED {
        listpack_entries(data)
    } else {
        Err(RedisSyncError::Encoding)
    }
}

/// Reads the elements of `count` nodes.
pub fn node_run_from<R: ByteSource>(src: &mut R, count: isize) -> (r: Result<
    Vec<Vec<u8>>,
    RedisSyncError,
>)
    ensures
        settles(
            modeled(r, |values: Vec<Vec<u8>>| payloads(values@)),
            old(src).feed(),
            final(src).feed(),
            parse_node_run(old(src).feed().pending, count as int),
        ),
{
    let mut values: Vec<Vec<u8>> = Vec::new();
    let mut left: isize = count;
    proof {
        assert(payloads(values@) =~= Seq::<Seq<u8>>::empty());
        lemma_before_nothing(parse_node_run(src.feed().pending, count as int));
    }
    while left > 0
        invariant
            src.feed().pending.len() <= old(src).feed().pending.len(),
            src.feed().meter == metered(
                old(src).feed().meter,
                old(src).feed().pending.len() - src.feed().pending.len(),
            ),
            parse_node_run(old(src).feed().pending, count as int) == before(
                payloads(values@),
                parse_node_run(src.feed().pending, left as int),
            ),
        decreases left,
    {
        let ghost done = payloads(values@);
        proof {
            lemma_node_shrinks(src.feed().pending);
        }
        match node_from(src) {
            Ok(node) => {
                let ghost more = payloads(node@);
                proof {
                    lemma_before_join(done, more, parse_node_run(src.feed().pending, left - 1));
                }
                let mut node = node;
                values.append(&mut node);
                assert(payloads(values@) =~= done + more);
                left = left - 1;
            },
            Err(e) => {
                return Err(e);
            },
        }
    }
    proof {
        assert(payloads(values@) + Seq::<Seq<u8>>::empty() =~= payloads(values@));
    }
    Ok(values)
}

/// Reads a list as a list of nodes.
pub fn list_of_nodes_from<R: ByteSource>(src: &mut R) -> (r: Result<Vec<Vec<u8>>, RedisSyncError>)
    ensures
        settles(
            modeled(r, |values: Vec<Vec<u8>>| payloads(values@)),
            old(src).feed(),
            final(src).feed(),
            parse_list_of_nodes(old(src).feed().pending),
        ),
{
    proof {
        crate::rdb::lemma_length_shrinks(src.feed().pending);
    }
    match count_from(src) {
        Ok(count) => {
            proof {
                lemma_node_run_shrinks(src.feed().pending, count as int);
            }
            node_run_from(src, count)
        },
        Err(e) => Err(e),
    }
}

/// Whether a value in this encoding is written element by element.
pub open spec fn is_written(encoding: Encoding) -> bool {
    encoding is String || encoding is List || encoding is Members || encoding is SortedSet
        || encoding is SortedSet2 || encoding is Hash
}

/// Whether a value in this encoding is held in one string.
pub open spec fn is_held(encoding: Encoding) -> bool {
    encoding is HashZipMap || encoding is ListZipList || encoding is SetIntSet
        || encoding is SortedSetZipList || encoding is HashZipList || encoding is HashListPack
        || encoding is SortedSetListPack || encoding is SetListPack
}

/// A value that is written element by element.
pub open spec fn parse_written(s: Seq<u8>, encoding: Encoding) -> Parsed<ValueModel> {
    match encoding {
        Encoding::String => shaped(
            parse_string(s),
            |bytes: Seq<u8>| Ok::<ValueModel, RedisSyncError>(ValueModel::String(bytes)),
        ),
        Encoding::List => shaped(
            parse_list(s),
            |values: Seq<Seq<u8>>| Ok::<ValueModel, RedisSyncError>(ValueModel::List(values)),
        ),
        Encoding::Members => shaped(
            parse_list(s),
            |values: Seq<Seq<u8>>| Ok::<ValueModel, RedisSyncError>(ValueModel::Members(values)),
        ),
        Encoding::SortedSet => shaped(
            parse_sorted_set(s, 1),
            |items: Seq<ItemValue>| Ok::<ValueModel, RedisSyncError>(ValueModel::SortedSet(items)),
        ),
        Encoding::SortedSet2 => shaped(
            parse_sorted_set(s, 2),
            |items: Seq<ItemValue>| Ok::<ValueModel, RedisSyncError>(ValueModel::SortedSet(items)),
        ),
        _ => shaped(
            parse_plain_hash(s),
            |fields: Seq<FieldValue>| Ok::<ValueModel, RedisSyncError>(ValueModel::Hash(fields)),
        ),
    }
}

/// A value that is held in one string.
pub open spec fn parse_held(s: Seq<u8>, encoding: Encoding) -> Parsed<ValueModel> {
    match encoding {
        Encoding::HashZipMap => shaped(
            parse_packed_map(s),
            |fields: Seq<FieldValue>| Ok::<ValueModel, RedisSyncError>(ValueModel::Hash(fields)),
        ),
        Encoding::ListZipList => shaped(
            parse_packed_list(s),
            |values: Seq<Seq<u8>>| Ok::<ValueModel, RedisSyncError>(ValueModel::List(values)),
        ),
        Encoding::SetIntSet => shaped(
            parse_packed_set(s),
            |values: Seq<Seq<u8>>| Ok::<ValueModel, RedisSyncError>(ValueModel::Members(values)),
        ),
        Encoding::SortedSetZipList => shaped(
            parse_packed_sorted_set(s),
            |items: Seq<ItemValue>| Ok::<ValueModel, RedisSyncError>(ValueModel::SortedSet(items)),
        ),
        Encoding::HashZipList => shaped(
            parse_packed_hash(s),
            |fields: Seq<FieldValue>| Ok::<ValueModel, RedisSyncError>(ValueModel::Hash(fields)),
        ),
        Encoding::HashListPack => shaped(
            parse_pack_hash(s),
            |fields: Seq<FieldValue>| Ok::<ValueModel, RedisSyncError>(ValueModel::Hash(fields)),
        ),
        Encoding::SortedSetListPack => shaped(
            parse_pack_sorted_set(s),
            |items: Seq<ItemValue>| Ok::<ValueModel, RedisSyncError>(ValueModel::SortedSet(items)),
        ),
        _ => shaped(
            parse_pack_list(s),
            |values: Seq<Seq<u8>>| Ok::<ValueModel, RedisSyncError>(ValueModel::Members(values)),
        ),
    }
}

/// A value that is a list of nodes, the data of a module or a stream.
pub open spec fn parse_other(s: Seq<u8>, encoding: Encoding) -> Parsed<ValueModel> {
    match encoding {
        Encoding::ListQuickList => shaped(
            parse_list_of_lists(s),
            |values: Seq<Seq<u8>>| Ok::<ValueModel, RedisSyncError>(ValueModel::List(values)),
        ),
        Encoding::ListQuickList2 => shaped(
            parse_list_of_nodes(s),
            |values: Seq<Seq<u8>>| Ok::<ValueModel, RedisSyncError>(ValueModel::List(values)),
        ),
        Encoding::Module => shaped(
            parse_module(s),
            |data: ModuleModel| Ok::<ValueModel, RedisSyncError>(ValueModel::Module(data)),
        ),
        Encoding::Stream => shaped(
            parse_stream(s, 1),
            |data: StreamModel| Ok::<ValueModel, RedisSyncError>(ValueModel::Stream(data)),
        ),
        Encoding::Stream2 => shaped(
            parse_stream(s, 2),
            |data: StreamModel| Ok::<ValueModel, RedisSyncError>(ValueModel::Stream(data)),
        ),
        _ => shaped(
            parse_stream(s, 3),
            |data: StreamModel| Ok::<ValueModel, RedisSyncError>(ValueModel::Stream(data)),
        ),
    }
}

/// A value in the given encoding.
#[verifier::opaque]
pub open spec fn parse_value(s: Seq<u8>, encoding: Encoding) -> Parsed<ValueModel> {
    if is_written(encoding) {
        parse_written(s, encoding)
    } else if is_held(encoding) {
        parse_held(s, encoding)
    } else {
        parse_other(s, encoding)
    }
}

/// A run of strings never gives bytes back.
pub proof fn lemma_strings_shrink(s: Seq<u8>, count: int)
    ensures
        parse_strings(s, count) matches Ok((_, rest)) ==> rest.len() <= s.len(),
    decreases count,
{
    if count > 0 {
        lemma_string_shrinks(s);
        if let Ok((_, rest)) = parse_string(s) {
            lemma_strings_shrink(rest, count - 1);
        }
    }
}

/// A run of pairs never gives bytes back.
pub proof fn lemma_items_shrink(s: Seq<u8>, count: int, version: u8)
    ensures
        parse_items(s, count, version) matches Ok((_, rest)) ==> rest.len() <= s.len(),
    decreases count,
{
    if count > 0 {
        lemma_item_shrinks(s, version);
        if let Ok((_, rest)) = parse_item(s, version) {
            lemma_items_shrink(rest, count - 1, version);
        }
    }
}

/// A list of packed lists never gives bytes back.
pub proof fn lemma_quick_list_rest_shrinks(state: QuickListState, input: Seq<u8>)
    ensures
        quick_list_rest(state, input) matches Ok((_, rest)) ==> rest.len() <= input.len(),
    decreases input.len(), state.node.len(),
{
    lemma_quick_list_step_shrinks(state, input);
    if let Ok((Some(entry), next, rest)) = quick_list_step(state, input) {
        if rest.len() < input.len() || (rest.len() == input.len() && next.node.len()
            < state.node.len()) {
            lemma_quick_list_rest_shrinks(next, rest);
        }
    }
}

/// Reads a hash written string by string, its number of fields known.
pub fn hash_from<R: ByteSource>(src: &mut R, count: isize) -> (r: Result<Vec<Field>, RedisSyncError>)
    ensures
        settles(
            modeled(r, |fields: Vec<Field>| field_values(fields@)),
            old(src).feed(),
            final(src).feed(),
            parse_hash(old(src).feed().pending, count as int),
        ),
{
    let doubled = if count <= isize::MAX / 2 && count >= isize::MIN / 2 {
        2 * count
    } else if count > 0 {
        return Err(RedisSyncError::Encoding);
    } else {
        0
    };
    proof {
        if count < isize::MIN / 2 {
            // no strings are read for a number below zero, whatever it is
            reveal_with_fuel(parse_strings, 1);
            assert(parse_strings(src.feed().pending, 2 * count) == parse_strings(
                src.feed().pending,
                0,
            ));
        }
    }
    proof {
        lemma_strings_shrink(src.feed().pending, doubled as int);
    }
    match strings_from(src, doubled) {
        Ok(flat) => fields_of(&flat),
        Err(e) => Err(e),
    }
}

/// Reads a list or set written string by string.
pub fn list_from<R: ByteSource>(src: &mut R) -> (r: Result<Vec<Vec<u8>>, RedisSyncError>)
    ensures
        settles(
            modeled(r, |values: Vec<Vec<u8>>| payloads(values@)),
            old(src).feed(),
            final(src).feed(),
            parse_list(old(src).feed().pending),
        ),
{
    proof {
        crate::rdb::lemma_length_shrinks(src.feed().pending);
    }
    match count_from(src) {
        Ok(count) => {
            proof {
                lemma_strings_shrink(src.feed().pending, count as int);
            }
            strings_from(src, count)
        },
        Err(e) => Err(e),
    }
}

/// Reads a sorted set written pair by pair.
pub fn sorted_set_from<R: ByteSource>(src: &mut R, version: u8) -> (r: Result<
    Vec<Item>,
    RedisSyncError,
>)
    ensures
        settles(
            modeled(r, |items: Vec<Item>| item_values(items@)),
            old(src).feed(),
            final(src).feed(),
            parse_sorted_set(old(src).feed().pending, version),
        ),
{
    proof {
        crate::rdb::lemma_length_shrinks(src.feed().pending);
    }
    match count_from(src) {
        Ok(count) => {
            proof {
                lemma_items_shrink(src.feed().pending, count as int, version);
            }
            items_from(src, count, version)
        },
        Err(e) => Err(e),
    }
}

/// Reads a hash written string by string.
pub fn plain_hash_from<R: ByteSource>(src: &mut R) -> (r: Result<Vec<Field>, RedisSyncError>)
    ensures
        settles(
            modeled(r, |fields: Vec<Field>| field_values(fields@)),
            old(src).feed(),
            final(src).feed(),
            parse_plain_hash(old(src).feed().pending),
        ),
{
    proof {
        crate::rdb::lemma_length_shrinks(src.feed().pending);
    }
    match count_from(src) {
        Ok(count) => {
            proof {
                if 2 * count <= isize::MAX {
                    lemma_strings_shrink(src.feed().pending, 2 * count);
                }
            }
            hash_from(src, count)
        },
        Err(e) => Err(e),
    }
}

/// Reads a list of packed lists.
pub fn list_of_lists_from<R: ByteSource>(src: &mut R) -> (r: Result<Vec<Vec<u8>>, RedisSyncError>)
    ensures
        settles(
            modeled(r, |values: Vec<Vec<u8>>| payloads(values@)),
            old(src).feed(),
            final(src).feed(),
            parse_list_of_lists(old(src).feed().pending),
        ),
{
    proof {
        crate::rdb::lemma_length_shrinks(src.feed().pending);
    }
    match count_from(src) {
        Ok(count) => {
            proof {
                lemma_quick_list_rest_shrinks(
                    QuickListState { len: -1, count: count as int, node: Seq::empty() },
                    src.feed().pending,
                );
            }
            quick_list_entries(src, count)
        },
        Err(e) => Err(e),
    }
}

/// Reads a string that holds a packed list.
pub fn packed_list_from<R: ByteSource>(src: &mut R) -> (r: Result<Vec<Vec<u8>>, RedisSyncError>)
    ensures
        settles(
            modeled(r, |values: Vec<Vec<u8>>| payloads(values@)),
            old(src).feed(),
            final(src).feed(),
            parse_packed_list(old(src).feed().pending),
        ),
{
    match crate::rdb::string_from(src) {
        Ok(data) => zip_list_entries(data),
        Err(e) => Err(e),
    }
}

/// Reads a string that holds a packed set of integers.
pub fn packed_set_from<R: ByteSource>(src: &mut R) -> (r: Result<Vec<Vec<u8>>, RedisSyncError>)
    ensures
        settles(
            modeled(r, |values: Vec<Vec<u8>>| payloads(values@)),
            old(src).feed(),
            final(src).feed(),
            parse_packed_set(old(src).feed().pending),
        ),
{
    match crate::rdb::string_from(src) {
        Ok(data) => int_set_members(data),
        Err(e) => Err(e),
    }
}

/// Reads a string that holds a packed map.
pub fn packed_map_from<R: ByteSource>(src: &mut R) -> (r: Result<Vec<Field>, RedisSyncError>)
    ensures
        settles(
            modeled(r, |fields: Vec<Field>| field_values(fields@)),
            old(src).feed(),
            final(src).feed(),
            parse_packed_map(old(src).feed().pending),
        ),
{
    match crate::rdb::string_from(src) {
        Ok(data) => zip_map_fields(data),
        Err(e) => Err(e),
    }
}

/// Reads a string that holds a packed list of names and values.
pub fn packed_hash_from<R: ByteSource>(src: &mut R) -> (r: Result<Vec<Field>, RedisSyncError>)
    ensures
        settles(
            modeled(r, |fields: Vec<Field>| field_values(fields@)),
            old(src).feed(),
            final(src).feed(),
            parse_packed_hash(old(src).feed().pending),
        ),
{
    match packed_list_from(src) {
        Ok(flat) => fields_of(&flat),
        Err(e) => Err(e),
    }
}

/// Reads a string that holds a packed list of members and scores.
pub fn packed_sorted_set_from<R: ByteSource>(src: &mut R) -> (r: Result<Vec<Item>, RedisSyncError>)
    ensures
        settles(
            modeled(r, |items: Vec<Item>| item_values(items@)),
            old(src).feed(),
            final(src).feed(),
            parse_packed_sorted_set(old(src).feed().pending),
        ),
{
    match packed_list_from(src) {
        Ok(flat) => items_of(&flat),
        Err(e) => Err(e),
    }
}

/// Reads a value that is written element by element.
fn written_value_from<R: ByteSource>(src: &mut R, encoding: Encoding) -> (r: Result<
    Value,
    RedisSyncError,
>)
    requires
        is_written(encoding),
    ensures
        agrees(
            r,
            old(src).feed(),
            final(src).feed(),
            parse_written(old(src).feed().pending, encoding),
        ),
{
    match encoding {
        Encoding::String => match crate::rdb::string_from(src) {
            Ok(bytes) => Ok(Value::String(bytes)),
            Err(e) => Err(e),
        },
        Encoding::List => match list_from(src) {
            Ok(values) => Ok(Value::List(values)),
            Err(e) => Err(e),
        },
        Encoding::Members => match list_from(src) {
            Ok(values) => Ok(Value::Members(values)),
            Err(e) => Err(e),
        },
        Encoding::SortedSet => match sorted_set_from(src, 1) {
            Ok(items) => Ok(Value::SortedSet(items)),
            Err(e) => Err(e),
        },
        Encoding::SortedSet2 => match sorted_set_from(src, 2) {
            Ok(items) => Ok(Value::SortedSet(items)),
            Err(e) => Err(e),
        },
        _ => match plain_hash_from(src) {
            Ok(fields) => Ok(Value::Hash(fields)),
            Err(e) => Err(e),
        },
    }
}

/// Reads a value that is held in one string.
fn held_value_from<R: ByteSource>(src: &mut R, encoding: Encoding) -> (r: Result<
    Value,
    RedisSyncError,
>)
    requires
        is_held(encoding),
    ensures
        agrees(
            r,
            old(src).feed(),
            final(src).feed(),
            parse_held(old(src).feed().pending, encoding),
        ),
{
    match encoding {
        Encoding::HashZipMap => match packed_map_from(src) {
            Ok(fields) => Ok(Value::Hash(fields)),
            Err(e) => Err(e),
        },
        Encoding::ListZipList => match packed_list_from(src) {
            Ok(values) => Ok(Value::List(values)),
            Err(e) => Err(e),
        },
        Encoding::SetIntSet => match packed_set_from(src) {
            Ok(values) => Ok(Value::Members(values)),
            Err(e) => Err(e),
        },
        Encoding::SortedSetZipList => match packed_sorted_set_from(src) {
            Ok(items) => Ok(Value::SortedSet(items)),
            Err(e) => Err(e),
        },
        Encoding::HashZipList => match packed_hash_from(src) {
            Ok(fields) => Ok(Value::Hash(fields)),
            Err(e) => Err(e),
        },
        Encoding::HashListPack => match pack_hash_from(src) {
            Ok(fields) => Ok(Value::Hash(fields)),
            Err(e) => Err(e),
        },
        Encoding::SortedSetListPack => match pack_sorted_set_from(src) {
            Ok(items) => Ok(Value::SortedSet(items)),
            Err(e) => Err(e),
        },
        _ => match pack_list_from(src) {
            Ok(values) => Ok(Value::Members(values)),
            Err(e) => Err(e),
        },
    }
}

/// Reads a value that is a list of nodes, the data of a module or a stream.
fn other_value_from<R: ByteSource>(src: &mut R, encoding: Encoding) -> (r: Result<
    Value,
    RedisSyncError,
>)
    requires
        !is_written(encoding),
        !is_held(encoding),
    ensures
        agrees(
            r,
            old(src).feed(),
            final(src).feed(),
            parse_other(old(src).feed().pending, encoding),
        ),
{
    match encoding {
        Encoding::ListQuickList => match list_of_lists_from(src) {
            Ok(values) => Ok(Value::List(values)),
            Err(e) => Err(e),
        },
        Encoding::ListQuickList2 => match list_of_nodes_from(src) {
            Ok(values) => Ok(Value::List(values)),
            Err(e) => Err(e),
        },
        Encoding::Module => match module_from(src) {
            Ok(data) => Ok(Value::Module(data)),
            Err(e) => Err(e),
        },
        Encoding::Stream => match stream_from(src, 1) {
            Ok(data) => Ok(Value::Stream(data)),
            Err(e) => Err(e),
        },
        Encoding::Stream2 => match stream_from(src, 2) {
            Ok(data) => Ok(Value::Stream(data)),
            Err(e) => Err(e),
        },
        _ => match stream_from(src, 3) {
            Ok(data) => Ok(Value::Stream(data)),
            Err(e) => Err(e),
        },
    }
}

/// Whether a value in this encoding is written element by element.
fn written(encoding: Encoding) -> (r: bool)
    ensures
        r == is_written(encoding),
{
    match encoding {
        Encoding::String => true,
        Encoding::List => true,
        Encoding::Members => true,
        Encoding::SortedSet => true,
        Encoding::SortedSet2 => true,
        Encoding::Hash => true,
        _ => false,
    }
}

/// Whether a value in this encoding is held in one string.
fn held(encoding: Encoding) -> (r: bool)
    ensures
        r == is_held(encoding),
{
    match encoding {
        Encoding::HashZipMap => true,
        Encoding::ListZipList => true,
        Encoding::SetIntSet => true,
        Encoding::SortedSetZipList => true,
        Encoding::HashZipList => true,
        Encoding::HashListPack => true,
        Encoding::SortedSetListPack => true,
        Encoding::SetListPack => true,
        _ => false,
    }
}

/// Reads a value in the given encoding.
pub fn value_from<R: ByteSource>(src: &mut R, encoding: Encoding) -> (r: Result<
    Value,
    RedisSyncError,
>)
    ensures
        agrees(
            r,
            old(src).feed(),
            final(src).feed(),
            parse_value(old(src).feed().pending, encoding),
        ),
{
    proof {
        reveal(parse_value);
    }
    if written(encoding) {
        written_value_from(src, encoding)
    } else if held(encoding) {
        held_value_from(src, encoding)
    } else {
        other_value_from(src, encoding)
    }
}

// ---------------------------------------------------------------------------
// Records
// ---------------------------------------------------------------------------

/// The record that ends the snapshot.
pub const OP_EOF: u8 = 255;

/// The record that names the database of the keys that follow.
pub const OP_SELECTDB: u8 = 254;

/// The record that gives the expiry of the next key in seconds.
pub const OP_EXPIRETIME: u8 = 253;

/// The record that gives the expiry of the next key in milliseconds.
pub const OP_EXPIRETIME_MS: u8 = 252;

/// The record that says how large the database is going to be.
pub const OP_RESIZEDB: u8 = 251;

/// The record that holds a piece of information about the snapshot.
pub const OP_AUX: u8 = 250;

/// The record that says how often the next key has been used.
pub const OP_FREQ: u8 = 249;

/// The record that says for how long the next key has been idle.
pub const OP_IDLE: u8 = 248;

/// The record that holds what a module keeps beside the keys.
pub const OP_MODULE_AUX: u8 = 247;

/// The first version whose snapshots end in a checksum of eight bytes.
pub const CHECKSUM_SINCE: u32 = 5;

/// What is said of the first key of a snapshot before any record has been read.
pub open spec fn fresh_meta() -> Meta {
    Meta { db: 0, expire: None, evict: None }
}

/// What is said of the key after the one that `meta` was said of: the
/// database stays, expiry and eviction hint hold for one key only.
pub open spec fn next_meta(meta: Meta) -> Meta {
    Meta { db: meta.db, expire: None, evict: None }
}

/// The header of a snapshot: the word `REDIS` and four digits that spell
/// the version of the format.
pub open spec fn parse_header(s: Seq<u8>) -> Parsed<u32> {
    match take_exact(s, 9) {
        Ok((head, rest)) => if starts_with(head, ascii("REDIS"@)) && is_digits(head.skip(5)) {
            Ok((digits_value(head.skip(5)) as u32, rest))
        } else {
            Err(RedisSyncError::Encoding)
        },
        Err(e) => Err(e),
    }
}

/// A key with its value in the given encoding.
pub open spec fn parse_pair(s: Seq<u8>, encoding: Encoding) -> Parsed<(Seq<u8>, ValueModel)> {
    match parse_string(s) {
        Ok((key, rest)) => match parse_value(rest, encoding) {
            Ok((value, after)) => Ok(((key, value), after)),
            Err(e) => Err(e),
        },
        Err(e) => Err(e),
    }
}

/// Whether a record that starts with `op` is a piece of bookkeeping.
pub open spec fn is_bookkeeping(op: u8) -> bool {
    op == OP_SELECTDB || op == OP_RESIZEDB || op == OP_EXPIRETIME || op == OP_EXPIRETIME_MS || op
        == OP_FREQ || op == OP_IDLE || op == OP_AUX || op == OP_MODULE_AUX
}

/// The body of a record of bookkeeping that starts with `op`, and what is
/// said of the next key once it has been read.
///
/// The database is given as a length. The size of the database, given as
/// two lengths, and a piece of information, given as two strings, are
/// passed over, and so is what a module keeps beside the keys, given as
/// the data of a module. An expiry is four bytes for seconds and eight for
/// milliseconds, least significant first. How often a key was used is one
/// byte, for how long it was idle a length. Any `op` that is none of the
/// others is taken for the one that holds a piece of information.
pub open spec fn parse_bookkeeping(s: Seq<u8>, op: u8, meta: Meta) -> Parsed<Meta> {
    if op == OP_SELECTDB {
        shaped(
            parse_length(s),
            |db: (u64, bool)|
                Ok::<Meta, RedisSyncError>(
                    Meta { db: db.0, expire: meta.expire, evict: meta.evict },
                ),
        )
    } else if op == OP_RESIZEDB {
        match parse_length(s) {
            Ok((_, after_keys)) => shaped(
                parse_length(after_keys),
                |expires: (u64, bool)| Ok::<Meta, RedisSyncError>(meta),
            ),
            Err(e) => Err(e),
        }
    } else if op == OP_EXPIRETIME {
        shaped(
            parse_le_signed(s, 4),
            |at: i64|
                Ok::<Meta, RedisSyncError>(
                    Meta {
                        db: meta.db,
                        expire: Some(Expire { unit: ExpireType::Second, at }),
                        evict: meta.evict,
                    },
                ),
        )
    } else if op == OP_EXPIRETIME_MS {
        shaped(
            parse_le_signed(s, 8),
            |at: i64|
                Ok::<Meta, RedisSyncError>(
                    Meta {
                        db: meta.db,
                        expire: Some(Expire { unit: ExpireType::Millisecond, at }),
                        evict: meta.evict,
                    },
                ),
        )
    } else if op == OP_FREQ {
        shaped(
            take_byte(s),
            |used: u8|
                Ok::<Meta, RedisSyncError>(
                    Meta {
                        db: meta.db,
                        expire: meta.expire,
                        evict: Some(Evict { kind: EvictType::Lfu, value: used as u64 }),
                    },
                ),
        )
    } else if op == OP_IDLE {
        shaped(
            parse_length(s),
            |idle: (u64, bool)|
                Ok::<Meta, RedisSyncError>(
                    Meta {
                        db: meta.db,
                        expire: meta.expire,
                        evict: Some(Evict { kind: EvictType::Lru, value: idle.0 }),
                    },
                ),
        )
    } else if op == OP_MODULE_AUX {
        shaped(parse_module(s), |data: ModuleModel| Ok::<Meta, RedisSyncError>(meta))
    } else {
        match parse_string(s) {
            Ok((_, after_name)) => shaped(
                parse_string(after_name),
                |text: Seq<u8>| Ok::<Meta, RedisSyncError>(meta),
            ),
            Err(e) => Err(e),
        }
    }
}

/// The end of the snapshot, after the byte that announces it: nothing,
/// or from version 5 on a checksum of eight bytes, which is passed over.
pub open spec fn parse_end(s: Seq<u8>, version: u32) -> Parsed<()> {
    if version >= CHECKSUM_SINCE {
        shaped(take_exact(s, 8), |sum: Seq<u8>| Ok::<(), RedisSyncError>(()))
    } else {
        Ok(((), s))
    }
}

/// What one record holds.
pub ghost enum RecordModel {
    /// The end of the snapshot.
    End,
    /// A piece of bookkeeping, after which this is said of the next key.
    Bookkeeping(Meta),
    /// A key with its value.
    Found(ObjectModel),
}

/// One record: the end of the snapshot, a piece of bookkeeping, or a key
/// with its value in the encoding that the first byte announces. A record
/// whose first byte is none of these is malformed.
#[verifier::opaque]
pub open spec fn parse_one(s: Seq<u8>, meta: Meta, version: u32) -> Parsed<RecordModel> {
    if s.len() == 0 {
        Err(RedisSyncError::Disconnect)
    } else if s[0] == OP_EOF {
        shaped(
            parse_end(s.skip(1), version),
            |end: ()| Ok::<RecordModel, RedisSyncError>(RecordModel::End),
        )
    } else if is_bookkeeping(s[0]) {
        shaped(
            parse_bookkeeping(s.skip(1), s[0], meta),
            |next: Meta| Ok::<RecordModel, RedisSyncError>(RecordModel::Bookkeeping(next)),
        )
    } else {
        match encoding_of(s[0]) {
            Some(encoding) => shaped(
                parse_pair(s.skip(1), encoding),
                |pair: (Seq<u8>, ValueModel)|
                    Ok::<RecordModel, RedisSyncError>(
                        RecordModel::Found(ObjectModel { key: pair.0, value: pair.1, meta }),
                    ),
            ),
            None => Err(RedisSyncError::Encoding),
        }
    }
}

/// The records from `s` up to and including the next key with its value,
/// or up to the end of the snapshot: the object found, if any, and what is
/// said of the key after it.
///
/// Records of bookkeeping change what is said of the next key and are not
/// handed on. The test on lengths always holds, since every record takes at
/// least one byte.
pub open spec fn parse_record(s: Seq<u8>, meta: Meta, version: u32) -> Parsed<
    (Option<ObjectModel>, Meta),
>
    decreases s.len(),
{
    match parse_one(s, meta, version) {
        Ok((RecordModel::End, rest)) => Ok(((None, meta), rest)),
        Ok((RecordModel::Bookkeeping(next), rest)) => if rest.len() < s.len() {
            parse_record(rest, next, version)
        } else {
            Err(RedisSyncError::Encoding)
        },
        Ok((RecordModel::Found(object), rest)) => Ok(((Some(object), next_meta(meta)), rest)),
        Err(e) => Err(e),
    }
}

/// What reading a snapshot comes to.
pub ghost struct Told {
    /// The objects that were read, and handed over, first one first.
    pub objects: Seq<ObjectModel>,
    /// How the reading ended: at the end of the snapshot, with the bytes
    /// that follow it, or with a failure.
    pub end: Result<Seq<u8>, RedisSyncError>,
}

/// What reading the objects of a snapshot from `s` on comes to: object
/// after object is read, up to the end of the snapshot or to the first
/// record that cannot be read.
///
/// The test on lengths always holds, since every record takes at least one byte.
pub open spec fn tell_objects(s: Seq<u8>, meta: Meta, version: u32) -> Told
    decreases s.len(),
{
    match parse_record(s, meta, version) {
        Ok(((Some(object), next), rest)) => if rest.len() < s.len() {
            let then = tell_objects(rest, next, version);
            Told { objects: seq![object] + then.objects, end: then.end }
        } else {
            Told { objects: Seq::empty(), end: Err(RedisSyncError::Encoding) }
        },
        Ok(((None, _), rest)) => Told { objects: Seq::empty(), end: Ok(rest) },
        Err(e) => Told { objects: Seq::empty(), end: Err(e) },
    }
}

/// What reading a snapshot comes to: its header, then its objects.
pub open spec fn tell_snapshot(s: Seq<u8>) -> Told {
    match parse_header(s) {
        Ok((version, rest)) => tell_objects(rest, fresh_meta(), version),
        Err(e) => Told { objects: Seq::empty(), end: Err(e) },
    }
}

/// The events that handing over `objects` makes, in order.
pub open spec fn object_events(objects: Seq<ObjectModel>) -> Seq<EventModel> {
    Seq::new(objects.len(), |i: int| EventModel::RDB(objects[i]))
}

/// The end of a reading as the outcome of a reader that gives nothing back.
pub open spec fn ended(end: Result<Seq<u8>, RedisSyncError>) -> Parsed<()> {
    match end {
        Ok(rest) => Ok(((), rest)),
        Err(e) => Err(e),
    }
}

/// A value that is written element by element never gives bytes back.
pub proof fn lemma_written_shrinks(s: Seq<u8>, encoding: Encoding)
    ensures
        parse_written(s, encoding) matches Ok((_, rest)) ==> rest.len() <= s.len(),
{
    lemma_string_shrinks(s);
    crate::rdb::lemma_length_shrinks(s);
    if let Ok((count, rest)) = parse_count(s) {
        match encoding {
            Encoding::List | Encoding::Members => {
                lemma_strings_shrink(rest, count as int);
            },
            Encoding::SortedSet => {
                lemma_items_shrink(rest, count as int, 1);
            },
            Encoding::SortedSet2 => {
                lemma_items_shrink(rest, count as int, 2);
            },
            _ => {
                lemma_strings_shrink(rest, 2 * count);
            },
        }
    }
}

/// A value that is held in one string never gives bytes back.
pub proof fn lemma_held_shrinks(s: Seq<u8>, encoding: Encoding)
    ensures
        parse_held(s, encoding) matches Ok((_, rest)) ==> rest.len() <= s.len(),
{
    lemma_string_shrinks(s);
}

/// A list of nodes, the data of a module and a stream never give bytes back.
pub proof fn lemma_other_shrinks(s: Seq<u8>, encoding: Encoding)
    ensures
        parse_other(s, encoding) matches Ok((_, rest)) ==> rest.len() <= s.len(),
{
    match encoding {
        Encoding::ListQuickList => {
            crate::rdb::lemma_length_shrinks(s);
            if let Ok((count, rest)) = parse_count(s) {
                lemma_quick_list_rest_shrinks(
                    QuickListState { len: -1, count: count as int, node: Seq::empty() },
                    rest,
                );
            }
        },
        Encoding::ListQuickList2 => {
            crate::rdb::lemma_length_shrinks(s);
            if let Ok((count, rest)) = parse_count(s) {
                lemma_node_run_shrinks(rest, count as int);
            }
        },
        Encoding::Module => {
            lemma_module_shrinks(s);
        },
        Encoding::Stream => {
            lemma_stream_shrinks(s, 1);
        },
        Encoding::Stream2 => {
            lemma_stream_shrinks(s, 2);
        },
        _ => {
            lemma_stream_shrinks(s, 3);
        },
    }
}

/// A value never gives bytes back.
pub proof fn lemma_value_shrinks(s: Seq<u8>, encoding: Encoding)
    ensures
        parse_value(s, encoding) matches Ok((_, rest)) ==> rest.len() <= s.len(),
{
    reveal(parse_value);
    if is_written(encoding) {
        lemma_written_shrinks(s, encoding);
    } else if is_held(encoding) {
        lemma_held_shrinks(s, encoding);
    } else {
        lemma_other_shrinks(s, encoding);
    }
}

/// A record of bookkeeping takes at least one byte after its first.
pub proof fn lemma_bookkeeping_shrinks(s: Seq<u8>, op: u8, meta: Meta)
    ensures
        parse_bookkeeping(s, op, meta) matches Ok((_, rest)) ==> rest.len() < s.len(),
{
    crate::rdb::lemma_length_shrinks(s);
    lemma_string_shrinks(s);
    lemma_module_shrinks(s);
    if let Ok((_, after)) = parse_length(s) {
        crate::rdb::lemma_length_shrinks(after);
    }
    if let Ok((_, after)) = parse_string(s) {
        lemma_string_shrinks(after);
    }
}

/// A record takes at least one byte.
pub proof fn lemma_one_shrinks(s: Seq<u8>, meta: Meta, version: u32)
    ensures
        parse_one(s, meta, version) matches Ok((_, rest)) ==> rest.len() < s.len(),
{
    reveal(parse_one);
    if s.len() > 0 {
        if s[0] == OP_EOF {
        } else if is_bookkeeping(s[0]) {
            lemma_bookkeeping_shrinks(s.skip(1), s[0], meta);
        } else if let Some(encoding) = encoding_of(s[0]) {
            lemma_string_shrinks(s.skip(1));
            if let Ok((_, rest)) = parse_string(s.skip(1)) {
                lemma_value_shrinks(rest, encoding);
            }
        }
    }
}

/// The records up to the next object or to the end take at least one byte.
pub proof fn lemma_record_shrinks(s: Seq<u8>, meta: Meta, version: u32)
    ensures
        parse_record(s, meta, version) matches Ok((_, rest)) ==> rest.len() < s.len(),
    decreases s.len(),
{
    lemma_one_shrinks(s, meta, version);
    if let Ok((RecordModel::Bookkeeping(next), rest)) = parse_one(s, meta, version) {
        lemma_record_shrinks(rest, next, version);
    }
}

/// Reads the header of a snapshot and gives the version of its format.
#[verifier::loop_isolation(false)]
pub fn header_from<R: ByteSource>(src: &mut R) -> (r: Result<u32, RedisSyncError>)
    ensures
        agrees(r, old(src).feed(), final(src).feed(), parse_header(old(src).feed().pending)),
{
    let head = match src.read_exact(9) {
        Ok(head) => head,
        Err(e) => {
            return Err(e);
        },
    };
    proof {
        reveal_strlit("REDIS");
        lemma_ascii_bytes("REDIS"@);
    }
    if !has_prefix(head.as_slice(), "REDIS".as_bytes()) {
        return Err(RedisSyncError::Encoding);
    }
    let ghost digits = head@.skip(5);
    let mut version: u32 = 0;
    let mut i: usize = 5;
    proof {
        assert(digits.take(0) =~= Seq::<u8>::empty());
    }
    while i < 9
        invariant
            5 <= i <= 9,
            head@.len() == 9,
            digits == head@.skip(5),
            is_digits(digits.take(i - 5)),
            version == digits_value(digits.take(i - 5)),
            version <= 9999,
            i == 5 ==> version == 0,
            i == 6 ==> version <= 9,
            i == 7 ==> version <= 99,
            i == 8 ==> version <= 999,
        decreases 9 - i,
    {
        let b = head[i];
        let ghost seen = digits.take(i - 5);
        let ghost next = digits.take(i + 1 - 5);
        proof {
            assert(next.drop_last() =~= seen);
            assert(next.last() == b);
        }
        if b < ZERO || b > NINE {
            assert(!is_digits(digits)) by {
                assert(digits[i - 5] == b);
            }
            return Err(RedisSyncError::Encoding);
        }
        assert(is_digits(next)) by {
            assert forall|j: int| 0 <= j < next.len() implies ZERO <= #[trigger] next[j] <= NINE by {
                if j < seen.len() {
                    assert(next[j] == seen[j]);
                }
            }
        }
        version = version * 10 + (b - ZERO) as u32;
        i = i + 1;
    }
    proof {
        assert(digits.take(4) =~= digits);
    }
    Ok(version)
}

/// Reads the body of a record of bookkeeping that starts with `op` and
/// gives what is said of the next key after it. Any `op` that is none of
/// the others is taken for the one that holds a piece of information.
pub fn bookkeeping_from<R: ByteSource>(src: &mut R, op: u8, meta: Meta) -> (r: Result<
    Meta,
    RedisSyncError,
>)
    ensures
        settles(
            r,
            old(src).feed(),
            final(src).feed(),
            parse_bookkeeping(old(src).feed().pending, op, meta),
        ),
{
    proof {
        crate::rdb::lemma_length_shrinks(src.feed().pending);
        lemma_string_shrinks(src.feed().pending);
    }
    if op == OP_SELECTDB {
        match length_from(src) {
            Ok((db, _)) => Ok(Meta { db, expire: meta.expire, evict: meta.evict }),
            Err(e) => Err(e),
        }
    } else if op == OP_RESIZEDB {
        match length_from(src) {
            Ok(_) => {},
            Err(e) => {
                return Err(e);
            },
        }
        proof {
            crate::rdb::lemma_length_shrinks(src.feed().pending);
        }
        match length_from(src) {
            Ok(_) => Ok(meta),
            Err(e) => Err(e),
        }
    } else if op == OP_EXPIRETIME {
        match le_signed_from(src, 4) {
            Ok(at) => Ok(
                Meta {
                    db: meta.db,
                    expire: Some(Expire { unit: ExpireType::Second, at }),
                    evict: meta.evict,
                },
            ),
            Err(e) => Err(e),
        }
    } else if op == OP_EXPIRETIME_MS {
        match le_signed_from(src, 8) {
            Ok(at) => Ok(
                Meta {
                    db: meta.db,
                    expire: Some(Expire { unit: ExpireType::Millisecond, at }),
                    evict: meta.evict,
                },
            ),
            Err(e) => Err(e),
        }
    } else if op == OP_FREQ {
        match src.read_u8() {
            Ok(used) => Ok(
                Meta {
                    db: meta.db,
                    expire: meta.expire,
                    evict: Some(Evict { kind: EvictType::Lfu, value: used as u64 }),
                },
            ),
            Err(e) => Err(e),
        }
    } else if op == OP_IDLE {
        match length_from(src) {
            Ok((idle, _)) => Ok(
                Meta {
                    db: meta.db,
                    expire: meta.expire,
                    evict: Some(Evict { kind: EvictType::Lru, value: idle }),
                },
            ),
            Err(e) => Err(e),
        }
    } else if op == OP_MODULE_AUX {
        match module_from(src) {
            Ok(_) => Ok(meta),
            Err(e) => Err(e),
        }
    } else {
        match crate::rdb::string_from(src) {
            Ok(_) => {},
            Err(e) => {
                return Err(e);
            },
        }
        proof {
            lemma_string_shrinks(src.feed().pending);
        }
        match crate::rdb::string_from(src) {
            Ok(_) => Ok(meta),
            Err(e) => Err(e),
        }
    }
}

/// Reads a key with its value in the given encoding.
pub fn pair_from<R: ByteSource>(src: &mut R, encoding: Encoding) -> (r: Result<
    (Vec<u8>, Value),
    RedisSyncError,
>)
    ensures
        agrees(
            r,
            old(src).feed(),
            final(src).feed(),
            parse_pair(old(src).feed().pending, encoding),
        ),
{
    proof {
        lemma_string_shrinks(src.feed().pending);
    }
    let key = match crate::rdb::string_from(src) {
        Ok(key) => key,
        Err(e) => {
            return Err(e);
        },
    };
    proof {
        lemma_value_shrinks(src.feed().pending, encoding);
    }
    match value_from(src, encoding) {
        Ok(value) => Ok((key, value)),
        Err(e) => Err(e),
    }
}

/// Whether `op` starts a record of bookkeeping.
pub fn starts_bookkeeping(op: u8) -> (r: bool)
    ensures
        r == is_bookkeeping(op),
{
    op == OP_SELECTDB || op == OP_RESIZEDB || op == OP_EXPIRETIME || op == OP_EXPIRETIME_MS || op
        == OP_FREQ || op == OP_IDLE || op == OP_AUX || op == OP_MODULE_AUX
}

/// What one record holds.
pub enum Record {
    /// The end of the snapshot.
    End,
    /// A piece of bookkeeping, after which this is said of the next key.
    Bookkeeping(Meta),
    /// A key with its value.
    Found(Object),
}

impl View for Record {
    type V = RecordModel;

    open spec fn view(&self) -> RecordModel {
        match self {
            Record::End => RecordModel::End,
            Record::Bookkeeping(meta) => RecordModel::Bookkeeping(*meta),
            Record::Found(object) => RecordModel::Found(object@),
        }
    }
}

/// Reads one record of a snapshot of the given version, where `meta` has
/// been said so far of the next key.
pub fn record_from<R: ByteSource>(src: &mut R, meta: Meta, version: u32) -> (r: Result<
    Record,
    RedisSyncError,
>)
    ensures
        agrees(
            r,
            old(src).feed(),
            final(src).feed(),
            parse_one(old(src).feed().pending, meta, version),
        ),
{
    let ghost here = src.feed().pending;
    proof {
        reveal(parse_one);
    }
    let op = match src.read_u8() {
        Ok(op) => op,
        Err(e) => {
            return Err(e);
        },
    };
    if op == OP_EOF {
        if version >= CHECKSUM_SINCE {
            match src.read_exact(8) {
                Ok(_) => Ok(Record::End),
                Err(e) => Err(e),
            }
        } else {
            Ok(Record::End)
        }
    } else if starts_bookkeeping(op) {
        proof {
            lemma_bookkeeping_shrinks(here.skip(1), op, meta);
        }
        match bookkeeping_from(src, op, meta) {
            Ok(next) => Ok(Record::Bookkeeping(next)),
            Err(e) => Err(e),
        }
    } else {
        match encoding_for(op) {
            Some(encoding) => {
                proof {
                    lemma_string_shrinks(here.skip(1));
                    if let Ok((_, rest)) = parse_string(here.skip(1)) {
                        lemma_value_shrinks(rest, encoding);
                    }
                }
                match pair_from(src, encoding) {
                    Ok((key, value)) => Ok(Record::Found(Object { key, value, meta })),
                    Err(e) => Err(e),
                }
            },
            None => Err(RedisSyncError::Encoding),
        }
    }
}

/// A reader of the objects of one snapshot.
#[derive(Debug, Clone, Copy, PartialEq, Eq)]
pub struct SnapshotReader {
    /// The version of the snapshot's format.
    pub version: u32,
    /// What has been said so far of the next key.
    pub meta: Meta,
    /// Whether the end of the snapshot has been read.
    pub done: bool,
}

/// Whether a call of [`SnapshotReader::next`] did what `want` says.
pub open spec fn reads(
    got: Result<Option<Object>, RedisSyncError>,
    reader: SnapshotReader,
    before: Feed,
    after: Feed,
    want: Parsed<(Option<ObjectModel>, Meta)>,
) -> bool {
    match (got, want) {
        (Ok(found), Ok(((model, meta), rest))) => {
            &&& match (found, model) {
                (Some(object), Some(wanted)) => object@ == wanted,
                (None, None) => true,
                _ => false,
            }
            &&& reader.meta == meta
            &&& reader.done == (model is None)
            &&& after.pending == rest
            &&& after.meter == metered(before.meter, before.pending.len() - rest.len())
        },
        (Err(e), Err(w)) => e == w,
        _ => false,
    }
}

impl SnapshotReader {
    /// Reads the header of a snapshot and gives a reader of its objects.
    pub fn begin<R: ByteSource>(src: &mut R) -> (r: Result<SnapshotReader, RedisSyncError>)
        ensures
            settles(
                modeled(r, |reader: SnapshotReader| reader.version),
                old(src).feed(),
                final(src).feed(),
                parse_header(old(src).feed().pending),
            ),
            r matches Ok(reader) ==> reader.meta == fresh_meta() && !reader.done,
    {
        match header_from(src) {
            Ok(version) => Ok(
                SnapshotReader {
                    version,
                    meta: Meta { db: 0, expire: None, evict: None },
                    done: false,
                },
            ),
            Err(e) => Err(e),
        }
    }

    /// Reads on to the next object and hands it out; `None` at the end
    /// of the snapshot and ever after.
    pub fn next<R: ByteSource>(&mut self, src: &mut R) -> (r: Result<Option<Object>, RedisSyncError>)
        ensures
            final(self).version == old(self).version,
            old(self).done ==> r == Ok::<Option<Object>, RedisSyncError>(None) && *final(self)
                == *old(self) && final(src).feed() == old(src).feed(),
            !old(self).done ==> reads(
                r,
                *final(self),
                old(src).feed(),
                final(src).feed(),
                parse_record(old(src).feed().pending, old(self).meta, old(self).version),
            ),
    {
        if self.done {
            return Ok(None);
        }
        loop
            invariant
                !self.done,
                !old(self).done,
                self.version == old(self).version,
                src.feed().pending.len() <= old(src).feed().pending.len(),
                src.feed().meter == metered(
                    old(src).feed().meter,
                    old(src).feed().pending.len() - src.feed().pending.len(),
                ),
                parse_record(old(src).feed().pending, old(self).meta, old(self).version)
                    == parse_record(src.feed().pending, self.meta, self.version),
            decreases src.feed().pending.len(),
        {
            proof {
                lemma_one_shrinks(src.feed().pending, self.meta, self.version);
            }
            match record_from(src, self.meta, self.version) {
                Ok(Record::End) => {
                    self.done = true;
                    return Ok(None);
                },
                Ok(Record::Bookkeeping(next)) => {
                    self.meta = next;
                },
                Ok(Record::Found(object)) => {
                    self.meta = Meta { db: self.meta.db, expire: None, evict: None };
                    return Ok(Some(object));
                },
                Err(e) => {
                    return Err(e);
                },
            }
        }
    }
}

/// Reads a snapshot and hands each of its objects to `handler` as soon as
/// it has been read. The source is left at the first byte after the
/// snapshot. Where the snapshot cannot be read to its end, the objects
/// before the failure have been handed over all the same.
pub fn parse<R: ByteSource, H: EventHandler>(src: &mut R, handler: &mut H) -> (r: Result<
    (),
    RedisSyncError,
>)
    ensures
        settles(
            r,
            old(src).feed(),
            final(src).feed(),
            ended(tell_snapshot(old(src).feed().pending).end),
        ),
        final(handler).received() == old(handler).received() + object_events(
            tell_snapshot(old(src).feed().pending).objects,
        ),
{
    let mut reader = match SnapshotReader::begin(src) {
        Ok(reader) => reader,
        Err(e) => {
            proof {
                assert(object_events(Seq::<ObjectModel>::empty()) =~= Seq::<EventModel>::empty());
                assert(handler.received() + Seq::<EventModel>::empty() =~= handler.received());
            }
            return Err(e);
        },
    };
    let ghost start = src.feed().pending;
    let ghost version = reader.version;
    let ghost whole = tell_objects(start, fresh_meta(), version);
    loop
        invariant
            !reader.done,
            reader.version == version,
            parse_header(old(src).feed().pending) == Ok::<(u32, Seq<u8>), RedisSyncError>(
                (version, start),
            ),
            whole == tell_objects(start, fresh_meta(), version),
            start.len() <= old(src).feed().pending.len(),
            src.feed().pending.len() <= start.len(),
            src.feed().meter == metered(
                old(src).feed().meter,
                old(src).feed().pending.len() - src.feed().pending.len(),
            ),
            whole.end == tell_objects(src.feed().pending, reader.meta, version).end,
            old(handler).received() + object_events(whole.objects) == handler.received()
                + object_events(tell_objects(src.feed().pending, reader.meta, version).objects),
        decreases src.feed().pending.len(),
    {
        let ghost here = tell_objects(src.feed().pending, reader.meta, version);
        let ghost had = handler.received();
        proof {
            lemma_record_shrinks(src.feed().pending, reader.meta, version);
        }
        match reader.next(src) {
            Ok(Some(object)) => {
                let ghost model = object@;
                handler.handle(Event::RDB(object));
                proof {
                    let then = tell_objects(src.feed().pending, reader.meta, version);
                    assert(here.objects == seq![model] + then.objects);
                    assert(object_events(seq![model] + then.objects) =~= seq![EventModel::RDB(model)]
                        + object_events(then.objects));
                    assert(had + (seq![EventModel::RDB(model)] + object_events(then.objects))
                        =~= had.push(EventModel::RDB(model)) + object_events(then.objects));
                }
            },
            Ok(None) => {
                proof {
                    assert(object_events(here.objects) =~= Seq::<EventModel>::empty());
                    assert(had + object_events(here.objects) =~= had);
                }
                return Ok(());
            },
            Err(e) => {
                proof {
                    assert(object_events(here.objects) =~= Seq::<EventModel>::empty());
                    assert(had + object_events(here.objects) =~= had);
                }
                return Err(e);
            },
        }
    }
}

} // verus!
