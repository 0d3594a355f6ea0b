//! Streams as a snapshot holds them.
//!
//! A stream is written as its nodes, each a key and a packed block of
//! entries, then its counters, then its consumer groups, each with the
//! entries it has handed out and not seen acknowledged, and with its
//! consumers. The format has three forms; the second adds counters to the
//! stream and to each group, the third a time to each consumer.
//!
//! A stream is handed on as it stands, a block of entries as the string
//! that the snapshot holds. [`node_entries`] unpacks such a block into the
//! entries it holds.

use crate::decimal::{decimal_i64, parse_i64};
use crate::endian::{be_uint, be_value, le_uint, le_value};
use crate::listpack::{listpack_entries, parse_listpack};
use crate::error::RedisSyncError;
use crate::io::{agrees, metered, modeled, settles, take_exact, ByteSource};
use crate::rdb::{
    lemma_length_shrinks, lemma_string_shrinks, length_from, parse_length, parse_string,
    string_from, Field, FieldValue,
};
use crate::resp::{payloads, Parsed};
use crate::snapshot::{
    before, count_from, field_values, hash_from, lemma_before_nothing, lemma_before_step,
    lemma_strings_shrink, parse_count, parse_hash,
};
use vstd::prelude::*;

verus! {

/// The length of the identifier of an entry as consumer groups hold it.
pub const RAW_ID_LEN: u64 = 16;

/// The identifier of an entry: a time in milliseconds and a sequence number.
#[derive(Debug, Clone, Copy, PartialEq, Eq, Structural)]
pub struct StreamId {
    pub ms: u64,
    pub seq: u64,
}

/// An entry that a group has handed out and not seen acknowledged.
#[derive(Debug, PartialEq, Eq)]
pub struct Pending {
    /// The identifier of the entry, sixteen bytes.
    pub id: Vec<u8>,
    /// When it was last handed out, in milliseconds.
    pub delivered_at: u64,
    /// How often it has been handed out.
    pub deliveries: u64,
}

/// What a [`Pending`] stands for.
pub ghost struct PendingModel {
    pub id: Seq<u8>,
    pub delivered_at: u64,
    pub deliveries: u64,
}

impl View for Pending {
    type V = PendingModel;

    open spec fn view(&self) -> PendingModel {
        PendingModel { id: self.id@, delivered_at: self.delivered_at, deliveries: self.deliveries }
    }
}

/// A consumer of a group.
#[derive(Debug, PartialEq, Eq)]
pub struct Consumer {
    pub name: Vec<u8>,
    /// When it was last seen, in milliseconds.
    pub seen_at: u64,
    /// When it was last active, in milliseconds; in the third form only.
    pub active_at: Option<u64>,
    /// The identifiers of the entries handed to it and not acknowledged.
    pub pending: Vec<Vec<u8>>,
}

/// What a [`Consumer`] stands for.
pub ghost struct ConsumerModel {
    pub name: Seq<u8>,
    pub seen_at: u64,
    pub active_at: Option<u64>,
    pub pending: Seq<Seq<u8>>,
}

impl View for Consumer {
    type V = ConsumerModel;

    open spec fn view(&self) -> ConsumerModel {
        ConsumerModel {
            name: self.name@,
            seen_at: self.seen_at,
            active_at: self.active_at,
            pending: payloads(self.pending@),
        }
    }
}

/// A consumer group.
#[derive(Debug, PartialEq, Eq)]
pub struct Group {
    pub name: Vec<u8>,
    /// The last entry that the group has handed out.
    pub last_id: StreamId,
    /// How many entries the group has read; from the second form on.
    pub entries_read: Option<u64>,
    pub pending: Vec<Pending>,
    pub consumers: Vec<Consumer>,
}

/// What a [`Group`] stands for.
pub ghost struct GroupModel {
    pub name: Seq<u8>,
    pub last_id: StreamId,
    pub entries_read: Option<u64>,
    pub pending: Seq<PendingModel>,
    pub consumers: Seq<ConsumerModel>,
}

/// What the elements of `pending` stand for, in order.
pub open spec fn pending_models(pending: Seq<Pending>) -> Seq<PendingModel> {
    Seq::new(pending.len(), |i: int| pending[i]@)
}

/// What the elements of `consumers` stand for, in order.
pub open spec fn consumer_models(consumers: Seq<Consumer>) -> Seq<ConsumerModel> {
    Seq::new(consumers.len(), |i: int| consumers[i]@)
}

/// What the elements of `groups` stand for, in order.
pub open spec fn group_models(groups: Seq<Group>) -> Seq<GroupModel> {
    Seq::new(groups.len(), |i: int| groups[i]@)
}

impl View for Group {
    type V = GroupModel;

    open spec fn view(&self) -> GroupModel {
        GroupModel {
            name: self.name@,
            last_id: self.last_id,
            entries_read: self.entries_read,
            pending: pending_models(self.pending@),
            consumers: consumer_models(self.consumers@),
        }
    }
}

/// The counters that the second form adds to a stream.
#[derive(Debug, Clone, Copy, PartialEq, Eq, Structural)]
pub struct Counters {
    pub first_id: StreamId,
    pub max_deleted_id: StreamId,
    pub entries_added: u64,
}

/// A stream.
#[derive(Debug, PartialEq, Eq)]
pub struct StreamData {
    /// The nodes: the name of each is its key, the value its block of entries.
    pub nodes: Vec<Field>,
    /// The number of entries.
    pub length: u64,
    pub last_id: StreamId,
    /// From the second form on.
    pub counters: Option<Counters>,
    pub groups: Vec<Group>,
}

/// What a [`StreamData`] stands for.
pub ghost struct StreamModel {
    pub nodes: Seq<FieldValue>,
    pub length: u64,
    pub last_id: StreamId,
    pub counters: Option<Counters>,
    pub groups: Seq<GroupModel>,
}

impl View for StreamData {
    type V = StreamModel;

    open spec fn view(&self) -> StreamModel {
        StreamModel {
            nodes: field_values(self.nodes@),
            length: self.length,
            last_id: self.last_id,
            counters: self.counters,
            groups: group_models(self.groups@),
        }
    }
}

// ---------------------------------------------------------------------------
// The grammar
// ---------------------------------------------------------------------------

/// A number, written as a length.
pub open spec fn parse_number(s: Seq<u8>) -> Parsed<u64> {
    match parse_length(s) {
        Ok(((value, _), rest)) => Ok((value, rest)),
        Err(e) => Err(e),
    }
}

/// A time: eight bytes, least significant first.
pub open spec fn parse_time(s: Seq<u8>) -> Parsed<u64> {
    match take_exact(s, 8) {
        Ok((bytes, rest)) => Ok((le_value(bytes) as u64, rest)),
        Err(e) => Err(e),
    }
}

/// An identifier: two numbers.
pub open spec fn parse_id(s: Seq<u8>) -> Parsed<StreamId> {
    match parse_number(s) {
        Ok((ms, rest)) => match parse_number(rest) {
            Ok((seq, after)) => Ok((StreamId { ms, seq }, after)),
            Err(e) => Err(e),
        },
        Err(e) => Err(e),
    }
}

/// An entry not acknowledged: its identifier in sixteen bytes, when it was
/// handed out, how often.
pub open spec fn parse_pending(s: Seq<u8>) -> Parsed<PendingModel> {
    match take_exact(s, RAW_ID_LEN as int) {
        Ok((id, rest)) => match parse_time(rest) {
            Ok((delivered_at, after)) => match parse_number(after) {
                Ok((deliveries, end)) => Ok((PendingModel { id, delivered_at, deliveries }, end)),
                Err(e) => Err(e),
            },
            Err(e) => Err(e),
        },
        Err(e) => Err(e),
    }
}

/// `count` entries not acknowledged, one after the other.
pub open spec fn parse_pendings(s: Seq<u8>, count: int) -> Parsed<Seq<PendingModel>>
    decreases count,
{
    if count <= 0 {
        Ok((Seq::empty(), s))
    } else {
        match parse_pending(s) {
            Ok((first, rest)) => before(seq![first], parse_pendings(rest, count - 1)),
            Err(e) => Err(e),
        }
    }
}

/// `count` identifiers of sixteen bytes, one after the other.
pub open spec fn parse_raw_ids(s: Seq<u8>, count: int) -> Parsed<Seq<Seq<u8>>>
    decreases count,
{
    if count <= 0 {
        Ok((Seq::empty(), s))
    } else {
        match take_exact(s, RAW_ID_LEN as int) {
            Ok((first, rest)) => before(seq![first], parse_raw_ids(rest, count - 1)),
            Err(e) => Err(e),
        }
    }
}

/// The time at which a consumer was last active, which only the third form holds.
pub open spec fn parse_active(s: Seq<u8>, form: u8) -> Parsed<Option<u64>> {
    if form >= 3 {
        match parse_time(s) {
            Ok((at, rest)) => Ok((Some(at), rest)),
            Err(e) => Err(e),
        }
    } else {
        Ok((None, s))
    }
}

/// A consumer: its name, its times, and the identifiers of its entries
/// not acknowledged, their number first.
#[verifier::opaque]
pub open spec fn parse_consumer(s: Seq<u8>, form: u8) -> Parsed<ConsumerModel> {
    match parse_string(s) {
        Ok((name, at_seen)) => match parse_time(at_seen) {
            Ok((seen_at, at_active)) => match parse_active(at_active, form) {
                Ok((active_at, at_count)) => match parse_count(at_count) {
                    Ok((count, at_ids)) => match parse_raw_ids(at_ids, count as int) {
                        Ok((pending, rest)) => Ok(
                            (ConsumerModel { name, seen_at, active_at, pending }, rest),
                        ),
                        Err(e) => Err(e),
                    },
                    Err(e) => Err(e),
                },
                Err(e) => Err(e),
            },
            Err(e) => Err(e),
        },
        Err(e) => Err(e),
    }
}

/// `count` consumers, one after the other.
pub open spec fn parse_consumers(s: Seq<u8>, count: int, form: u8) -> Parsed<Seq<ConsumerModel>>
    decreases count,
{
    if count <= 0 {
        Ok((Seq::empty(), s))
    } else {
        match parse_consumer(s, form) {
            Ok((first, rest)) => before(seq![first], parse_consumers(rest, count - 1, form)),
            Err(e) => Err(e),
        }
    }
}

/// A number that only the second and third form hold.
pub open spec fn parse_later_number(s: Seq<u8>, form: u8) -> Parsed<Option<u64>> {
    if form >= 2 {
        match parse_number(s) {
            Ok((value, rest)) => Ok((Some(value), rest)),
            Err(e) => Err(e),
        }
    } else {
        Ok((None, s))
    }
}

/// The head of a group: its name, the last entry it has handed out and,
/// from the second form on, how many entries it has read.
#[verifier::opaque]
pub open spec fn parse_group_head(s: Seq<u8>, form: u8) -> Parsed<(Seq<u8>, StreamId, Option<u64>)> {
    match parse_string(s) {
        Ok((name, at_id)) => match parse_id(at_id) {
            Ok((last_id, at_read)) => match parse_later_number(at_read, form) {
                Ok((entries_read, rest)) => Ok(((name, last_id, entries_read), rest)),
                Err(e) => Err(e),
            },
            Err(e) => Err(e),
        },
        Err(e) => Err(e),
    }
}

/// A run with its number before it.
pub open spec fn parse_counted_pendings(s: Seq<u8>) -> Parsed<Seq<PendingModel>> {
    match parse_count(s) {
        Ok((count, rest)) => parse_pendings(rest, count as int),
        Err(e) => Err(e),
    }
}

/// A run with its number before it.
pub open spec fn parse_counted_consumers(s: Seq<u8>, form: u8) -> Parsed<Seq<ConsumerModel>> {
    match parse_count(s) {
        Ok((count, rest)) => parse_consumers(rest, count as int, form),
        Err(e) => Err(e),
    }
}

/// A group: its head, its entries not acknowledged, its consumers.
#[verifier::opaque]
pub open spec fn parse_group(s: Seq<u8>, form: u8) -> Parsed<GroupModel> {
    match parse_group_head(s, form) {
        Ok(((name, last_id, entries_read), at_pending)) => match parse_counted_pendings(at_pending) {
            Ok((pending, at_consumers)) => match parse_counted_consumers(at_consumers, form) {
                Ok((consumers, rest)) => Ok(
                    (GroupModel { name, last_id, entries_read, pending, consumers }, rest),
                ),
                Err(e) => Err(e),
            },
            Err(e) => Err(e),
        },
        Err(e) => Err(e),
    }
}

/// `count` groups, one after the other.
pub open spec fn parse_groups(s: Seq<u8>, count: int, form: u8) -> Parsed<Seq<GroupModel>>
    decreases count,
{
    if count <= 0 {
        Ok((Seq::empty(), s))
    } else {
        match parse_group(s, form) {
            Ok((first, rest)) => before(seq![first], parse_groups(rest, count - 1, form)),
            Err(e) => Err(e),
        }
    }
}

/// The counters that the second and third form hold: the first entry, the
/// largest entry deleted, the number of entries ever added.
#[verifier::opaque]
pub open spec fn parse_counters(s: Seq<u8>, form: u8) -> Parsed<Option<Counters>> {
    if form >= 2 {
        match parse_id(s) {
            Ok((first_id, at_deleted)) => match parse_id(at_deleted) {
                Ok((max_deleted_id, at_added)) => match parse_number(at_added) {
                    Ok((entries_added, rest)) => Ok(
                        (Some(Counters { first_id, max_deleted_id, entries_added }), rest),
                    ),
                    Err(e) => Err(e),
                },
                Err(e) => Err(e),
            },
            Err(e) => Err(e),
        }
    } else {
        Ok((None, s))
    }
}

/// The nodes of a stream: their number, then for each its key and its
/// block of entries, both strings.
pub open spec fn parse_nodes(s: Seq<u8>) -> Parsed<Seq<FieldValue>> {
    match parse_count(s) {
        Ok((count, rest)) => parse_hash(rest, count as int),
        Err(e) => Err(e),
    }
}

/// What stands between the nodes and the groups: the number of entries,
/// the last entry and, from the second form on, the counters.
#[verifier::opaque]
pub open spec fn parse_stream_head(s: Seq<u8>, form: u8) -> Parsed<(u64, StreamId, Option<Counters>)> {
    match parse_number(s) {
        Ok((length, at_last)) => match parse_id(at_last) {
            Ok((last_id, at_counters)) => match parse_counters(at_counters, form) {
                Ok((counters, rest)) => Ok(((length, last_id, counters), rest)),
                Err(e) => Err(e),
            },
            Err(e) => Err(e),
        },
        Err(e) => Err(e),
    }
}

/// The groups of a stream, their number first.
pub open spec fn parse_counted_groups(s: Seq<u8>, form: u8) -> Parsed<Seq<GroupModel>> {
    match parse_count(s) {
        Ok((count, rest)) => parse_groups(rest, count as int, form),
        Err(e) => Err(e),
    }
}

/// A stream in the given form: its nodes, its head, its groups.
pub open spec fn parse_stream(s: Seq<u8>, form: u8) -> Parsed<StreamModel> {
    match parse_nodes(s) {
        Ok((nodes, at_head)) => match parse_stream_head(at_head, form) {
            Ok(((length, last_id, counters), at_groups)) => match parse_counted_groups(
                at_groups,
                form,
            ) {
                Ok((groups, rest)) => Ok(
                    (StreamModel { nodes, length, last_id, counters, groups }, rest),
                ),
                Err(e) => Err(e),
            },
            Err(e) => Err(e),
        },
        Err(e) => Err(e),
    }
}

// ---------------------------------------------------------------------------
// What the grammar consumes
// ---------------------------------------------------------------------------

/// Whether what was parsed left no more bytes than there were.
pub open spec fn no_longer<T>(parsed: Parsed<T>, s: Seq<u8>) -> bool {
    parsed matches Ok((_, rest)) ==> rest.len() <= s.len()
}

/// An identifier gives no bytes back.
pub proof fn lemma_id_shrinks(s: Seq<u8>)
    ensures
        no_longer(parse_id(s), s),
{
    lemma_length_shrinks(s);
    if let Ok((_, rest)) = parse_number(s) {
        lemma_length_shrinks(rest);
    }
}

/// An entry not acknowledged gives no bytes back.
pub proof fn lemma_pending_shrinks(s: Seq<u8>)
    ensures
        no_longer(parse_pending(s), s),
{
    if let Ok((_, rest)) = take_exact(s, RAW_ID_LEN as int) {
        if let Ok((_, after)) = parse_time(rest) {
            lemma_length_shrinks(after);
        }
    }
}

/// A run of entries not acknowledged gives no bytes back.
pub proof fn lemma_pendings_shrink(s: Seq<u8>, count: int)
    ensures
        no_longer(parse_pendings(s, count), s),
    decreases count,
{
    if count > 0 {
        lemma_pending_shrinks(s);
        if let Ok((_, rest)) = parse_pending(s) {
            lemma_pendings_shrink(rest, count - 1);
        }
    }
}

/// A run of identifiers gives no bytes back.
pub proof fn lemma_raw_ids_shrink(s: Seq<u8>, count: int)
    ensures
        no_longer(parse_raw_ids(s, count), s),
    decreases count,
{
    if count > 0 {
        if let Ok((_, rest)) = take_exact(s, RAW_ID_LEN as int) {
            lemma_raw_ids_shrink(rest, count - 1);
        }
    }
}

/// A consumer gives no bytes back.
pub proof fn lemma_consumer_shrinks(s: Seq<u8>, form: u8)
    ensures
        no_longer(parse_consumer(s, form), s),
{
    reveal(parse_consumer);
    lemma_string_shrinks(s);
    if let Ok((_, at_seen)) = parse_string(s) {
        if let Ok((_, at_active)) = parse_time(at_seen) {
            if let Ok((_, at_count)) = parse_active(at_active, form) {
                lemma_length_shrinks(at_count);
                if let Ok((count, at_ids)) = parse_count(at_count) {
                    lemma_raw_ids_shrink(at_ids, count as int);
                }
            }
        }
    }
}

/// A run of consumers gives no bytes back.
pub proof fn lemma_consumers_shrink(s: Seq<u8>, count: int, form: u8)
    ensures
        no_longer(parse_consumers(s, count, form), s),
    decreases count,
{
    if count > 0 {
        lemma_consumer_shrinks(s, form);
        if let Ok((_, rest)) = parse_consumer(s, form) {
            lemma_consumers_shrink(rest, count - 1, form);
        }
    }
}

/// The head of a group gives no bytes back.
pub proof fn lemma_group_head_shrinks(s: Seq<u8>, form: u8)
    ensures
        no_longer(parse_group_head(s, form), s),
{
    reveal(parse_group_head);
    lemma_string_shrinks(s);
    if let Ok((_, at_id)) = parse_string(s) {
        lemma_id_shrinks(at_id);
        if let Ok((_, at_read)) = parse_id(at_id) {
            lemma_length_shrinks(at_read);
        }
    }
}

/// A counted run of entries not acknowledged gives no bytes back.
pub proof fn lemma_counted_pendings_shrink(s: Seq<u8>)
    ensures
        no_longer(parse_counted_pendings(s), s),
{
    lemma_length_shrinks(s);
    if let Ok((count, rest)) = parse_count(s) {
        lemma_pendings_shrink(rest, count as int);
    }
}

/// A counted run of consumers gives no bytes back.
pub proof fn lemma_counted_consumers_shrink(s: Seq<u8>, form: u8)
    ensures
        no_longer(parse_counted_consumers(s, form), s),
{
    lemma_length_shrinks(s);
    if let Ok((count, rest)) = parse_count(s) {
        lemma_consumers_shrink(rest, count as int, form);
    }
}

/// A group gives no bytes back.
pub proof fn lemma_group_shrinks(s: Seq<u8>, form: u8)
    ensures
        no_longer(parse_group(s, form), s),
{
    reveal(parse_group);
    lemma_group_head_shrinks(s, form);
    if let Ok((_, at_pending)) = parse_group_head(s, form) {
        lemma_counted_pendings_shrink(at_pending);
        if let Ok((_, at_consumers)) = parse_counted_pendings(at_pending) {
            lemma_counted_consumers_shrink(at_consumers, form);
        }
    }
}

/// A run of groups gives no bytes back.
pub proof fn lemma_groups_shrink(s: Seq<u8>, count: int, form: u8)
    ensures
        no_longer(parse_groups(s, count, form), s),
    decreases count,
{
    if count > 0 {
        lemma_group_shrinks(s, form);
        if let Ok((_, rest)) = parse_group(s, form) {
            lemma_groups_shrink(rest, count - 1, form);
        }
    }
}

/// The counters give no bytes back.
pub proof fn lemma_counters_shrink(s: Seq<u8>, form: u8)
    ensures
        no_longer(parse_counters(s, form), s),
{
    reveal(parse_counters);
    lemma_id_shrinks(s);
    if let Ok((_, at_deleted)) = parse_id(s) {
        lemma_id_shrinks(at_deleted);
        if let Ok((_, at_added)) = parse_id(at_deleted) {
            lemma_length_shrinks(at_added);
        }
    }
}

/// The nodes give no bytes back.
pub proof fn lemma_nodes_shrink(s: Seq<u8>)
    ensures
        no_longer(parse_nodes(s), s),
{
    lemma_length_shrinks(s);
    if let Ok((count, rest)) = parse_count(s) {
        lemma_strings_shrink(rest, 2 * count);
    }
}

/// The head of a stream gives no bytes back.
pub proof fn lemma_stream_head_shrinks(s: Seq<u8>, form: u8)
    ensures
        no_longer(parse_stream_head(s, form), s),
{
    reveal(parse_stream_head);
    lemma_length_shrinks(s);
    if let Ok((_, at_last)) = parse_number(s) {
        lemma_id_shrinks(at_last);
        if let Ok((_, at_counters)) = parse_id(at_last) {
            lemma_counters_shrink(at_counters, form);
        }
    }
}

/// The groups of a stream give no bytes back.
pub proof fn lemma_counted_groups_shrink(s: Seq<u8>, form: u8)
    ensures
        no_longer(parse_counted_groups(s, form), s),
{
    lemma_length_shrinks(s);
    if let Ok((count, rest)) = parse_count(s) {
        lemma_groups_shrink(rest, count as int, form);
    }
}

/// A stream takes at least one byte.
pub proof fn lemma_stream_shrinks(s: Seq<u8>, form: u8)
    ensures
        parse_stream(s, form) matches Ok((_, rest)) ==> rest.len() < s.len(),
{
    lemma_length_shrinks(s);
    if let Ok((count, rest)) = parse_count(s) {
        lemma_strings_shrink(rest, 2 * count);
    }
    if let Ok((_, at_head)) = parse_nodes(s) {
        lemma_stream_head_shrinks(at_head, form);
        if let Ok((_, at_groups)) = parse_stream_head(at_head, form) {
            lemma_counted_groups_shrink(at_groups, form);
        }
    }
}

// ---------------------------------------------------------------------------
// The readers
// ---------------------------------------------------------------------------

/// Reads a number.
pub fn number_from<R: ByteSource>(src: &mut R) -> (r: Result<u64, RedisSyncError>)
    ensures
        settles(r, old(src).feed(), final(src).feed(), parse_number(old(src).feed().pending)),
{
    match length_from(src) {
        Ok((value, _)) => Ok(value),
        Err(e) => Err(e),
    }
}

/// Reads a time.
pub fn time_from<R: ByteSource>(src: &mut R) -> (r: Result<u64, RedisSyncError>)
    ensures
        settles(r, old(src).feed(), final(src).feed(), parse_time(old(src).feed().pending)),
{
    match src.read_exact(8) {
        Ok(bytes) => Ok(le_uint(bytes.as_slice())),
        Err(e) => Err(e),
    }
}

/// Reads an identifier.
pub fn id_from<R: ByteSource>(src: &mut R) -> (r: Result<StreamId, RedisSyncError>)
    ensures
        settles(r, old(src).feed(), final(src).feed(), parse_id(old(src).feed().pending)),
{
    proof {
        lemma_length_shrinks(src.feed().pending);
    }
    let ms = match number_from(src) {
        Ok(ms) => ms,
        Err(e) => {
            return Err(e);
        },
    };
    proof {
        lemma_length_shrinks(src.feed().pending);
    }
    match number_from(src) {
        Ok(seq) => Ok(StreamId { ms, seq }),
        Err(e) => Err(e),
    }
}

/// Reads an entry not acknowledged.
pub fn pending_from<R: ByteSource>(src: &mut R) -> (r: Result<Pending, RedisSyncError>)
    ensures
        agrees(r, old(src).feed(), final(src).feed(), parse_pending(old(src).feed().pending)),
{
    let id = match src.read_exact(RAW_ID_LEN) {
        Ok(id) => id,
        Err(e) => {
            return Err(e);
        },
    };
    let delivered_at = match time_from(src) {
        Ok(at) => at,
        Err(e) => {
            return Err(e);
        },
    };
    proof {
        lemma_length_shrinks(src.feed().pending);
    }
    match number_from(src) {
        Ok(deliveries) => Ok(Pending { id, delivered_at, deliveries }),
        Err(e) => Err(e),
    }
}

/// Reads `count` entries not acknowledged.
pub fn pendings_from<R: ByteSource>(src: &mut R, count: isize) -> (r: Result<
    Vec<Pending>,
    RedisSyncError,
>)
    ensures
        settles(
            modeled(r, |found: Vec<Pending>| pending_models(found@)),
            old(src).feed(),
            final(src).feed(),
            parse_pendings(old(src).feed().pending, count as int),
        ),
{
    let mut found: Vec<Pending> = Vec::new();
    let mut left: isize = count;
    proof {
        assert(pending_models(found@) =~= Seq::<PendingModel>::empty());
        lemma_before_nothing(parse_pendings(src.feed().pending, count as int));
    }
    while left > 0
        invariant
            src.feed().pending.len() <= old(src).feed().pending.len(),
            src.feed().meter == metered(
                old(src).feed().meter,
                old(src).feed().pending.len() - src.feed().pending.len(),
            ),
            parse_pendings(old(src).feed().pending, count as int) == before(
                pending_models(found@),
                parse_pendings(src.feed().pending, left as int),
            ),
        decreases left,
    {
        let ghost done = pending_models(found@);
        proof {
            lemma_pending_shrinks(src.feed().pending);
        }
        match pending_from(src) {
            Ok(one) => {
                proof {
                    lemma_before_step(done, one@, parse_pendings(src.feed().pending, left - 1));
                }
                found.push(one);
                assert(pending_models(found@) =~= done.push(one@));
                left = left - 1;
            },
            Err(e) => {
                return Err(e);
            },
        }
    }
    proof {
        assert(pending_models(found@) + Seq::<PendingModel>::empty() =~= pending_models(found@));
    }
    Ok(found)
}

/// Reads `count` identifiers of sixteen bytes.
pub fn raw_ids_from<R: ByteSource>(src: &mut R, count: isize) -> (r: Result<
    Vec<Vec<u8>>,
    RedisSyncError,
>)
    ensures
        settles(
            modeled(r, |found: Vec<Vec<u8>>| payloads(found@)),
            old(src).feed(),
            final(src).feed(),
            parse_raw_ids(old(src).feed().pending, count as int),
        ),
{
    let mut found: Vec<Vec<u8>> = Vec::new();
    let mut left: isize = count;
    proof {
        assert(payloads(found@) =~= Seq::<Seq<u8>>::empty());
        lemma_before_nothing(parse_raw_ids(src.feed().pending, count as int));
    }
    while left > 0
        invariant
            src.feed().pending.len() <= old(src).feed().pending.len(),
            src.feed().meter == metered(
                old(src).feed().meter,
                old(src).feed().pending.len() - src.feed().pending.len(),
            ),
            parse_raw_ids(old(src).feed().pending, count as int) == before(
                payloads(found@),
                parse_raw_ids(src.feed().pending, left as int),
            ),
        decreases left,
    {
        let ghost done = payloads(found@);
        match src.read_exact(RAW_ID_LEN) {
            Ok(one) => {
                proof {
                    lemma_before_step(done, one@, parse_raw_ids(src.feed().pending, left - 1));
                }
                found.push(one);
                assert(payloads(found@) =~= done.push(one@));
                left = left - 1;
            },
            Err(e) => {
                return Err(e);
            },
        }
    }
    proof {
        assert(payloads(found@) + Seq::<Seq<u8>>::empty() =~= payloads(found@));
    }
    Ok(found)
}

/// Reads a consumer.
pub fn consumer_from<R: ByteSource>(src: &mut R, form: u8) -> (r: Result<Consumer, RedisSyncError>)
    ensures
        agrees(
            r,
            old(src).feed(),
            final(src).feed(),
            parse_consumer(old(src).feed().pending, form),
        ),
{
    proof {
        reveal(parse_consumer);
        lemma_string_shrinks(src.feed().pending);
    }
    let name = match string_from(src) {
        Ok(name) => name,
        Err(e) => {
            return Err(e);
        },
    };
    let seen_at = match time_from(src) {
        Ok(at) => at,
        Err(e) => {
            return Err(e);
        },
    };
    let active_at = if form >= 3 {
        match time_from(src) {
            Ok(at) => Some(at),
            Err(e) => {
                return Err(e);
            },
        }
    } else {
        None
    };
    proof {
        lemma_length_shrinks(src.feed().pending);
    }
    let count = match count_from(src) {
        Ok(count) => count,
        Err(e) => {
            return Err(e);
        },
    };
    proof {
        lemma_raw_ids_shrink(src.feed().pending, count as int);
    }
    match raw_ids_from(src, count) {
        Ok(pending) => Ok(Consumer { name, seen_at, active_at, pending }),
        Err(e) => Err(e),
    }
}

/// Reads `count` consumers.
pub fn consumers_from<R: ByteSource>(src: &mut R, count: isize, form: u8) -> (r: Result<
    Vec<Consumer>,
    RedisSyncError,
>)
    ensures
        settles(
            modeled(r, |found: Vec<Consumer>| consumer_models(found@)),
            old(src).feed(),
            final(src).feed(),
            parse_consumers(old(src).feed().pending, count as int, form),
        ),
{
    let mut found: Vec<Consumer> = Vec::new();
    let mut left: isize = count;
    proof {
        assert(consumer_models(found@) =~= Seq::<ConsumerModel>::empty());
        lemma_before_nothing(parse_consumers(src.feed().pending, count as int, form));
    }
    while left > 0
        invariant
            src.feed().pending.len() <= old(src).feed().pending.len(),
            src.feed().meter == metered(
                old(src).feed().meter,
                old(src).feed().pending.len() - src.feed().pending.len(),
            ),
            parse_consumers(old(src).feed().pending, count as int, form) == before(
                consumer_models(found@),
                parse_consumers(src.feed().pending, left as int, form),
            ),
        decreases left,
    {
        let ghost done = consumer_models(found@);
        proof {
            lemma_consumer_shrinks(src.feed().pending, form);
        }
        match consumer_from(src, form) {
            Ok(one) => {
                proof {
                    lemma_before_step(
                        done,
                        one@,
                        parse_consumers(src.feed().pending, left - 1, form),
                    );
                }
                found.push(one);
                assert(consumer_models(found@) =~= done.push(one@));
                left = left - 1;
            },
            Err(e) => {
                return Err(e);
            },
        }
    }
    proof {
        assert(consumer_models(found@) + Seq::<ConsumerModel>::empty() =~= consumer_models(
            found@,
        ));
    }
    Ok(found)
}

/// Reads the head of a group.
pub fn group_head_from<R: ByteSource>(src: &mut R, form: u8) -> (r: Result<
    (Vec<u8>, StreamId, Option<u64>),
    RedisSyncError,
>)
    ensures
        settles(
            modeled(r, |head: (Vec<u8>, StreamId, Option<u64>)| (head.0@, head.1, head.2)),
            old(src).feed(),
            final(src).feed(),
            parse_group_head(old(src).feed().pending, form),
        ),
{
    proof {
        reveal(parse_group_head);
        lemma_string_shrinks(src.feed().pending);
    }
    let name = match string_from(src) {
        Ok(name) => name,
        Err(e) => {
            return Err(e);
        },
    };
    proof {
        lemma_id_shrinks(src.feed().pending);
    }
    let last_id = match id_from(src) {
        Ok(id) => id,
        Err(e) => {
            return Err(e);
        },
    };
    proof {
        lemma_length_shrinks(src.feed().pending);
    }
    if form >= 2 {
        match number_from(src) {
            Ok(read) => Ok((name, last_id, Some(read))),
            Err(e) => Err(e),
        }
    } else {
        Ok((name, last_id, None))
    }
}

/// Reads a run of entries not acknowledged, their number first.
pub fn counted_pendings_from<R: ByteSource>(src: &mut R) -> (r: Result<Vec<Pending>, RedisSyncError>)
    ensures
        settles(
            modeled(r, |found: Vec<Pending>| pending_models(found@)),
            old(src).feed(),
            final(src).feed(),
            parse_counted_pendings(old(src).feed().pending),
        ),
{
    proof {
        lemma_length_shrinks(src.feed().pending);
    }
    match count_from(src) {
        Ok(count) => {
            proof {
                lemma_pendings_shrink(src.feed().pending, count as int);
            }
            pendings_from(src, count)
        },
        Err(e) => Err(e),
    }
}

/// Reads a run of consumers, their number first.
pub fn counted_consumers_from<R: ByteSource>(src: &mut R, form: u8) -> (r: Result<
    Vec<Consumer>,
    RedisSyncError,
>)
    ensures
        settles(
            modeled(r, |found: Vec<Consumer>| consumer_models(found@)),
            old(src).feed(),
            final(src).feed(),
            parse_counted_consumers(old(src).feed().pending, form),
        ),
{
    proof {
        lemma_length_shrinks(src.feed().pending);
    }
    match count_from(src) {
        Ok(count) => {
            proof {
                lemma_consumers_shrink(src.feed().pending, count as int, form);
            }
            consumers_from(src, count, form)
        },
        Err(e) => Err(e),
    }
}

/// Reads a group.
pub fn group_from<R: ByteSource>(src: &mut R, form: u8) -> (r: Result<Group, RedisSyncError>)
    ensures
        agrees(r, old(src).feed(), final(src).feed(), parse_group(old(src).feed().pending, form)),
{
    proof {
        reveal(parse_group);
        lemma_group_head_shrinks(src.feed().pending, form);
    }
    let (name, last_id, entries_read) = match group_head_from(src, form) {
        Ok(head) => head,
        Err(e) => {
            return Err(e);
        },
    };
    proof {
        lemma_counted_pendings_shrink(src.feed().pending);
    }
    let pending = match counted_pendings_from(src) {
        Ok(pending) => pending,
        Err(e) => {
            return Err(e);
        },
    };
    proof {
        lemma_counted_consumers_shrink(src.feed().pending, form);
    }
    match counted_consumers_from(src, form) {
        Ok(consumers) => Ok(Group { name, last_id, entries_read, pending, consumers }),
        Err(e) => Err(e),
    }
}

/// Reads `count` groups.
pub fn groups_from<R: ByteSource>(src: &mut R, count: isize, form: u8) -> (r: Result<
    Vec<Group>,
    RedisSyncError,
>)
    ensures
        settles(
            modeled(r, |found: Vec<Group>| group_models(found@)),
            old(src).feed(),
            final(src).feed(),
            parse_groups(old(src).feed().pending, count as int, form),
        ),
{
    let mut found: Vec<Group> = Vec::new();
    let mut left: isize = count;
    proof {
        assert(group_models(found@) =~= Seq::<GroupModel>::empty());
        lemma_before_nothing(parse_groups(src.feed().pending, count as int, form));
    }
    while left > 0
        invariant
            src.feed().pending.len() <= old(src).feed().pending.len(),
            src.feed().meter == metered(
                old(src).feed().meter,
                old(src).feed().pending.len() - src.feed().pending.len(),
            ),
            parse_groups(old(src).feed().pending, count as int, form) == before(
                group_models(found@),
                parse_groups(src.feed().pending, left as int, form),
            ),
        decreases left,
    {
        let ghost done = group_models(found@);
        proof {
            lemma_group_shrinks(src.feed().pending, form);
        }
        match group_from(src, form) {
            Ok(one) => {
                proof {
                    lemma_before_step(done, one@, parse_groups(src.feed().pending, left - 1, form));
                }
                found.push(one);
                assert(group_models(found@) =~= done.push(one@));
                left = left - 1;
            },
            Err(e) => {
                return Err(e);
            },
        }
    }
    proof {
        assert(group_models(found@) + Seq::<GroupModel>::empty() =~= group_models(found@));
    }
    Ok(found)
}

/// Reads the counters that the second and third form hold.
pub fn counters_from<R: ByteSource>(src: &mut R, form: u8) -> (r: Result<
    Option<Counters>,
    RedisSyncError,
>)
    ensures
        settles(
            r,
            old(src).feed(),
            final(src).feed(),
            parse_counters(old(src).feed().pending, form),
        ),
{
    proof {
        reveal(parse_counters);
    }
    if form < 2 {
        return Ok(None);
    }
    proof {
        lemma_id_shrinks(src.feed().pending);
    }
    let first_id = match id_from(src) {
        Ok(id) => id,
        Err(e) => {
            return Err(e);
        },
    };
    proof {
        lemma_id_shrinks(src.feed().pending);
    }
    let max_deleted_id = match id_from(src) {
        Ok(id) => id,
        Err(e) => {
            return Err(e);
        },
    };
    proof {
        lemma_length_shrinks(src.feed().pending);
    }
    match number_from(src) {
        Ok(entries_added) => Ok(Some(Counters { first_id, max_deleted_id, entries_added })),
        Err(e) => Err(e),
    }
}

/// Reads the nodes of a stream.
pub fn nodes_from<R: ByteSource>(src: &mut R) -> (r: Result<Vec<Field>, RedisSyncError>)
    ensures
        settles(
            modeled(r, |nodes: Vec<Field>| field_values(nodes@)),
            old(src).feed(),
            final(src).feed(),
            parse_nodes(old(src).feed().pending),
        ),
{
    proof {
        lemma_length_shrinks(src.feed().pending);
    }
    match count_from(src) {
        Ok(count) => {
            proof {
                if 2 * count <= isize::MAX {
                    lemma_strings_shrink(src.feed().pending, 2 * count);
                }
            }
            hash_from(src, count)
        },
        Err(e) => Err(e),
    }
}

/// Reads what stands between the nodes and the groups of a stream.
pub fn stream_head_from<R: ByteSource>(src: &mut R, form: u8) -> (r: Result<
    (u64, StreamId, Option<Counters>),
    RedisSyncError,
>)
    ensures
        settles(
            r,
            old(src).feed(),
            final(src).feed(),
            parse_stream_head(old(src).feed().pending, form),
        ),
{
    proof {
        reveal(parse_stream_head);
        lemma_length_shrinks(src.feed().pending);
    }
    let length = match number_from(src) {
        Ok(length) => length,
        Err(e) => {
            return Err(e);
        },
    };
    proof {
        lemma_id_shrinks(src.feed().pending);
    }
    let last_id = match id_from(src) {
        Ok(id) => id,
        Err(e) => {
            return Err(e);
        },
    };
    proof {
        lemma_counters_shrink(src.feed().pending, form);
    }
    match counters_from(src, form) {
        Ok(counters) => Ok((length, last_id, counters)),
        Err(e) => Err(e),
    }
}

/// Reads the groups of a stream, their number first.
pub fn counted_groups_from<R: ByteSource>(src: &mut R, form: u8) -> (r: Result<
    Vec<Group>,
    RedisSyncError,
>)
    ensures
        settles(
            modeled(r, |found: Vec<Group>| group_models(found@)),
            old(src).feed(),
            final(src).feed(),
            parse_counted_groups(old(src).feed().pending, form),
        ),
{
    proof {
        lemma_length_shrinks(src.feed().pending);
    }
    match count_from(src) {
        Ok(count) => {
            proof {
                lemma_groups_shrink(src.feed().pending, count as int, form);
            }
            groups_from(src, count, form)
        },
        Err(e) => Err(e),
    }
}

/// Reads a stream in the given form: 1, 2 or 3.
pub fn stream_from<R: ByteSource>(src: &mut R, form: u8) -> (r: Result<StreamData, RedisSyncError>)
    ensures
        agrees(r, old(src).feed(), final(src).feed(), parse_stream(old(src).feed().pending, form)),
{
    proof {
        lemma_nodes_shrink(src.feed().pending);
    }
    let nodes = match nodes_from(src) {
        Ok(nodes) => nodes,
        Err(e) => {
            return Err(e);
        },
    };
    proof {
        lemma_stream_head_shrinks(src.feed().pending, form);
    }
    let (length, last_id, counters) = match stream_head_from(src, form) {
        Ok(head) => head,
        Err(e) => {
            return Err(e);
        },
    };
    proof {
        lemma_counted_groups_shrink(src.feed().pending, form);
    }
    match counted_groups_from(src, form) {
        Ok(groups) => Ok(StreamData { nodes, length, last_id, counters, groups }),
        Err(e) => Err(e),
    }
}

// ---------------------------------------------------------------------------
// The entries of a node
// ---------------------------------------------------------------------------

/// One entry of a stream.
#[derive(Debug, PartialEq, Eq)]
pub struct Entry {
    pub id: StreamId,
    /// Whether the entry has been deleted and is only kept in its block.
    pub deleted: bool,
    pub fields: Vec<Field>,
}

/// What an [`Entry`] stands for.
pub ghost struct EntryModel {
    pub id: StreamId,
    pub deleted: bool,
    pub fields: Seq<FieldValue>,
}

impl View for Entry {
    type V = EntryModel;

    open spec fn view(&self) -> EntryModel {
        EntryModel { id: self.id, deleted: self.deleted, fields: field_values(self.fields@) }
    }
}

/// What the elements of `entries` stand for, in order.
pub open spec fn entry_models(entries: Seq<Entry>) -> Seq<EntryModel> {
    Seq::new(entries.len(), |i: int| entries[i]@)
}

/// The number of elements of a block that stand before the names of its fields.
pub const BLOCK_HEAD: usize = 3;

/// The number that the element at `at` spells, if there is such an
/// element and it spells a number that is not negative.
pub open spec fn count_at(elements: Seq<Seq<u8>>, at: int) -> Option<int> {
    if 0 <= at < elements.len() {
        match decimal_i64(elements[at]) {
            Some(value) => if value >= 0 {
                Some(value)
            } else {
                None
            },
            None => None,
        }
    } else {
        None
    }
}

/// The fields made of `names` and of the `names.len()` elements from `at` on.
pub open spec fn named_fields(elements: Seq<Seq<u8>>, at: int, names: Seq<Seq<u8>>) -> Seq<FieldValue> {
    Seq::new(names.len(), |i: int| FieldValue { name: names[i], value: elements[at + i] })
}

/// The `count` fields that the elements from `at` on spell, name and value in turn.
pub open spec fn own_fields(elements: Seq<Seq<u8>>, at: int, count: int) -> Seq<FieldValue> {
    Seq::new(
        count as nat,
        |i: int| FieldValue { name: elements[at + 2 * i], value: elements[at + 2 * i + 1] },
    )
}

/// The identifier that lies `ms` and `seq` after `base`, if there is one.
pub open spec fn id_after(base: StreamId, ms: int, seq: int) -> Option<StreamId> {
    if base.ms + ms <= u64::MAX && base.seq + seq <= u64::MAX {
        Some(StreamId { ms: (base.ms + ms) as u64, seq: (base.seq + seq) as u64 })
    } else {
        None
    }
}

/// The entry that starts with the element at `at`, and where the next one starts.
///
/// An entry is its flags, the two parts of its identifier as what they add
/// to the identifier of the block, and its fields. The second bit of the
/// flags says that the fields have the names that the block gives, so that
/// only their values follow; otherwise their number follows, then names and
/// values in turn. The first bit says that the entry is deleted. One more
/// element closes the entry. An entry that the block does not hold in full
/// is malformed.
pub open spec fn parse_entry(elements: Seq<Seq<u8>>, at: int, names: Seq<Seq<u8>>, base: StreamId) -> Result<
    (EntryModel, int),
    RedisSyncError,
> {
    match (count_at(elements, at), count_at(elements, at + 1), count_at(elements, at + 2)) {
        (Some(flags), Some(ms), Some(seq)) => match id_after(base, ms, seq) {
            Some(id) => if (flags / 2) % 2 == 1 {
                if at + 3 + names.len() < elements.len() {
                    Ok(
                        (
                            EntryModel {
                                id,
                                deleted: flags % 2 == 1,
                                fields: named_fields(elements, at + 3, names),
                            },
                            at + 4 + names.len(),
                        ),
                    )
                } else {
                    Err(RedisSyncError::Encoding)
                }
            } else {
                match count_at(elements, at + 3) {
                    Some(count) => if at + 4 + 2 * count < elements.len() {
                        Ok(
                            (
                                EntryModel {
                                    id,
                                    deleted: flags % 2 == 1,
                                    fields: own_fields(elements, at + 4, count),
                                },
                                at + 5 + 2 * count,
                            ),
                        )
                    } else {
                        Err(RedisSyncError::Encoding)
                    },
                    None => Err(RedisSyncError::Encoding),
                }
            },
            None => Err(RedisSyncError::Encoding),
        },
        _ => Err(RedisSyncError::Encoding),
    }
}

/// `first` put before entries that were parsed.
pub open spec fn entries_after(first: Seq<EntryModel>, tail: Result<Seq<EntryModel>, RedisSyncError>) -> Result<
    Seq<EntryModel>,
    RedisSyncError,
> {
    match tail {
        Ok(entries) => Ok(first + entries),
        Err(e) => Err(e),
    }
}

/// `left` entries from the element at `at` on.
pub open spec fn parse_entry_run(
    elements: Seq<Seq<u8>>,
    at: int,
    left: int,
    names: Seq<Seq<u8>>,
    base: StreamId,
) -> Result<Seq<EntryModel>, RedisSyncError>
    decreases left,
{
    if left <= 0 {
        Ok(Seq::empty())
    } else {
        match parse_entry(elements, at, names, base) {
            Ok((entry, next)) => entries_after(
                seq![entry],
                parse_entry_run(elements, next, left - 1, names, base),
            ),
            Err(e) => Err(e),
        }
    }
}

/// The identifier that the key of a node spells: two numbers of eight
/// bytes, most significant byte first.
pub open spec fn base_id(key: Seq<u8>) -> Option<StreamId> {
    if key.len() == RAW_ID_LEN {
        Some(StreamId { ms: be_value(key.take(8)) as u64, seq: be_value(key.skip(8)) as u64 })
    } else {
        None
    }
}

/// The entries of a block whose key is `key` and whose elements are `elements`.
///
/// The block starts with the number of its entries, the number of its
/// deleted entries and the number of the names it gives, then the names
/// and one element that closes them; then come the entries, deleted or not.
pub open spec fn parse_block(key: Seq<u8>, elements: Seq<Seq<u8>>) -> Result<
    Seq<EntryModel>,
    RedisSyncError,
> {
    match (base_id(key), count_at(elements, 0), count_at(elements, 1), count_at(elements, 2)) {
        (Some(base), Some(live), Some(deleted), Some(named)) => if BLOCK_HEAD + named
            < elements.len() {
            parse_entry_run(
                elements,
                BLOCK_HEAD + named + 1,
                live + deleted,
                elements.subrange(BLOCK_HEAD as int, BLOCK_HEAD + named),
                base,
            )
        } else {
            Err(RedisSyncError::Encoding)
        },
        _ => Err(RedisSyncError::Encoding),
    }
}

/// The entries of a node: those of the block that its value holds as a
/// packed list of the newer kind, under its name as key.
pub open spec fn parse_node_entries(node: FieldValue) -> Result<Seq<EntryModel>, RedisSyncError> {
    match parse_listpack(node.value) {
        Ok(elements) => parse_block(node.name, elements),
        Err(e) => Err(e),
    }
}

/// The number that the element at `at` spells.
pub fn number_at(elements: &Vec<Vec<u8>>, at: usize) -> (r: Option<u64>)
    ensures
        match r {
            Some(value) => count_at(payloads(elements@), at as int) == Some(value as int),
            None => count_at(payloads(elements@), at as int) is None,
        },
{
    if at >= elements.len() {
        return None;
    }
    assert(payloads(elements@)[at as int] == elements@[at as int]@);
    match parse_i64(elements[at].as_slice()) {
        Some(value) => {
            if value >= 0 {
                Some(value as u64)
            } else {
                None
            }
        },
        None => None,
    }
}

/// A copy of `bytes`.
fn copy_of(bytes: &Vec<u8>) -> (copy: Vec<u8>)
    ensures
        copy@ == bytes@,
{
    let mut copy: Vec<u8> = Vec::new();
    copy.extend_from_slice(bytes.as_slice());
    assert(copy@ =~= bytes@);
    copy
}

/// The fields made of `names` and of as many elements from `at` on.
fn fields_named(elements: &Vec<Vec<u8>>, at: usize, names: &Vec<Vec<u8>>) -> (fields: Vec<Field>)
    requires
        at + names@.len() <= elements@.len(),
    ensures
        field_values(fields@) == named_fields(payloads(elements@), at as int, payloads(names@)),
{
    let mut fields: Vec<Field> = Vec::new();
    let mut i: usize = 0;
    let len = elements.len();
    while i < names.len()
        invariant
            i <= names@.len(),
            len == elements@.len(),
            at + names@.len() <= elements@.len(),
            fields@.len() == i,
            forall|k: int|
                0 <= k < i ==> (#[trigger] fields@[k])@ == (FieldValue {
                    name: names@[k]@,
                    value: elements@[at + k]@,
                }),
        decreases names@.len() - i,
    {
        let name = copy_of(&names[i]);
        let value = copy_of(&elements[at + i]);
        fields.push(Field { name, value });
        i = i + 1;
    }
    assert(field_values(fields@) =~= named_fields(
        payloads(elements@),
        at as int,
        payloads(names@),
    ));
    fields
}

/// The `count` fields that the elements from `at` on spell.
fn fields_own(elements: &Vec<Vec<u8>>, at: usize, count: usize) -> (fields: Vec<Field>)
    requires
        at + 2 * count <= elements@.len(),
    ensures
        field_values(fields@) == own_fields(payloads(elements@), at as int, count as int),
{
    let mut fields: Vec<Field> = Vec::new();
    let mut i: usize = 0;
    let len = elements.len();
    while i < count
        invariant
            i <= count,
            at + 2 * count <= elements@.len(),
            len == elements@.len(),
            fields@.len() == i,
            forall|k: int|
                0 <= k < i ==> (#[trigger] fields@[k])@ == (FieldValue {
                    name: elements@[at + 2 * k]@,
                    value: elements@[at + 2 * k + 1]@,
                }),
        decreases count - i,
    {
        let name = copy_of(&elements[at + 2 * i]);
        let value = copy_of(&elements[at + 2 * i + 1]);
        fields.push(Field { name, value });
        i = i + 1;
    }
    assert(field_values(fields@) =~= own_fields(payloads(elements@), at as int, count as int));
    fields
}

/// Reads the entry that starts with the element at `at`; gives it and
/// where the next one starts.
pub fn entry_at(elements: &Vec<Vec<u8>>, at: usize, names: &Vec<Vec<u8>>, base: StreamId) -> (r: Result<
    (Entry, usize),
    RedisSyncError,
>)
    ensures
        modeled(r, |found: (Entry, usize)| (found.0@, found.1 as int)) == parse_entry(
            payloads(elements@),
            at as int,
            payloads(names@),
            base,
        ),
{
    let len = elements.len();
    if at >= len || len - at < 3 {
        return Err(RedisSyncError::Encoding);
    }
    let (flags, ms, seq) = match (
        number_at(elements, at),
        number_at(elements, at + 1),
        number_at(elements, at + 2),
    ) {
        (Some(flags), Some(ms), Some(seq)) => (flags, ms, seq),
        _ => {
            return Err(RedisSyncError::Encoding);
        },
    };
    let id = match (base.ms.checked_add(ms), base.seq.checked_add(seq)) {
        (Some(ms), Some(seq)) => StreamId { ms, seq },
        _ => {
            return Err(RedisSyncError::Encoding);
        },
    };
    let deleted = flags % 2 == 1;
    if (flags / 2) % 2 == 1 {
        if names.len() >= len - at - 3 {
            return Err(RedisSyncError::Encoding);
        }
        let fields = fields_named(elements, at + 3, names);
        Ok((Entry { id, deleted, fields }, at + 4 + names.len()))
    } else {
        let count = match number_at(elements, at + 3) {
            Some(count) => count,
            None => {
                return Err(RedisSyncError::Encoding);
            },
        };
        let room = (len - at - 4) as u64;
        if count > room / 2 || 2 * count >= room {
            return Err(RedisSyncError::Encoding);
        }
        let count = count as usize;
        let fields = fields_own(elements, at + 4, count);
        Ok((Entry { id, deleted, fields }, at + 5 + 2 * count))
    }
}

/// Reads the entries of a block whose key is `key` and whose elements are `elements`.
#[verifier::loop_isolation(false)]
pub fn block_entries(key: &Vec<u8>, elements: &Vec<Vec<u8>>) -> (r: Result<Vec<Entry>, RedisSyncError>)
    ensures
        modeled(r, |entries: Vec<Entry>| entry_models(entries@)) == parse_block(
            key@,
            payloads(elements@),
        ),
{
    if key.len() != 16 {
        return Err(RedisSyncError::Encoding);
    }
    let mut high: Vec<u8> = Vec::new();
    high.extend_from_slice(&key.as_slice()[0..8]);
    let mut low: Vec<u8> = Vec::new();
    low.extend_from_slice(&key.as_slice()[8..16]);
    proof {
        assert(high@ =~= key@.take(8));
        assert(low@ =~= key@.skip(8));
    }
    let base = StreamId { ms: be_uint(high.as_slice()), seq: be_uint(low.as_slice()) };
    let (live, deleted, named) = match (
        number_at(elements, 0),
        number_at(elements, 1),
        number_at(elements, 2),
    ) {
        (Some(live), Some(deleted), Some(named)) => (live, deleted, named),
        _ => {
            return Err(RedisSyncError::Encoding);
        },
    };
    let len = elements.len();
    if named >= (len - BLOCK_HEAD) as u64 {
        return Err(RedisSyncError::Encoding);
    }
    let named = named as usize;
    let mut names: Vec<Vec<u8>> = Vec::new();
    let mut i: usize = 0;
    while i < named
        invariant
            i <= named,
            len == elements@.len(),
            BLOCK_HEAD + named < elements@.len(),
            names@.len() == i,
            forall|k: int| 0 <= k < i ==> (#[trigger] names@[k])@ == elements@[BLOCK_HEAD + k]@,
        decreases named - i,
    {
        names.push(copy_of(&elements[BLOCK_HEAD + i]));
        i = i + 1;
    }
    proof {
        assert(payloads(names@) =~= payloads(elements@).subrange(
            BLOCK_HEAD as int,
            BLOCK_HEAD + named,
        ));
    }
    let total: u128 = live as u128 + deleted as u128;
    let ghost all = parse_entry_run(
        payloads(elements@),
        BLOCK_HEAD + named + 1,
        live + deleted,
        payloads(names@),
        base,
    );
    let mut entries: Vec<Entry> = Vec::new();
    let mut at: usize = BLOCK_HEAD + named + 1;
    let mut left: u128 = total;
    proof {
        assert(entry_models(entries@) =~= Seq::<EntryModel>::empty());
        match all {
            Ok(found) => {
                assert(Seq::<EntryModel>::empty() + found =~= found);
            },
            Err(_) => {},
        }
    }
    while left > 0
        invariant
            all == entries_after(
                entry_models(entries@),
                parse_entry_run(payloads(elements@), at as int, left as int, payloads(names@), base),
            ),
        decreases left,
    {
        let ghost done = entry_models(entries@);
        match entry_at(elements, at, &names, base) {
            Ok((entry, next)) => {
                let ghost model = entry@;
                entries.push(entry);
                proof {
                    assert(entry_models(entries@) =~= done.push(model));
                    match parse_entry_run(
                        payloads(elements@),
                        next as int,
                        left - 1,
                        payloads(names@),
                        base,
                    ) {
                        Ok(rest) => {
                            assert(done + (seq![model] + rest) =~= done.push(model) + rest);
                        },
                        Err(_) => {},
                    }
                }
                at = next;
                left = left - 1;
            },
            Err(e) => {
                return Err(e);
            },
        }
    }
    proof {
        assert(entry_models(entries@) + Seq::<EntryModel>::empty() =~= entry_models(entries@));
    }
    Ok(entries)
}

/// Reads the entries of a node of a stream.
pub fn node_entries(node: &Field) -> (r: Result<Vec<Entry>, RedisSyncError>)
    ensures
        modeled(r, |entries: Vec<Entry>| entry_models(entries@)) == parse_node_entries(node@),
{
    match listpack_entries(copy_of(&node.value)) {
        Ok(elements) => block_entries(&node.name, &elements),
        Err(e) => Err(e),
    }
}

} // verus!
