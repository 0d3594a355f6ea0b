//! The steady state of replication: commands are read one frame at a time
//! and the replication offset moves on by the length of each frame.

use crate::cmd::{command_of, parse};
use crate::error::RedisSyncError;
use crate::io::{ByteSource, CountReader};
use crate::resp::{
    bulk_values, encodable, lemma_request_round_trip, lemma_value_shrinks, parse_value, payloads, request_form,
    value_from, Resp, RespValue,
};
use crate::{Event, EventHandler, EventModel};
use vstd::prelude::*;

verus! {

/// Whether every element of `items` is a bulk string.
pub open spec fn all_bulk(items: Seq<RespValue>) -> bool {
    forall|i: int| 0 <= i < items.len() ==> #[trigger] items[i] is BulkBytes
}

/// The arguments of the command that `value` is: the payloads of its
/// elements, where it is an array of bulk strings.
pub open spec fn command_args(value: RespValue) -> Option<Seq<Seq<u8>>> {
    match value {
        RespValue::Array(items) => if all_bulk(items) {
            Some(Seq::new(items.len(), |i: int| items[i]->BulkBytes_0))
        } else {
            None
        },
        _ => None,
    }
}

/// The arguments of the command that `value` is; `None` where it is no
/// array of bulk strings.
pub fn args_of(value: &Resp) -> (r: Option<Vec<Vec<u8>>>)
    ensures
        match r {
            Some(args) => command_args(value@) == Some(payloads(args@)),
            None => command_args(value@) is None,
        },
{
    match value {
        Resp::Array(items) => {
            proof {
                crate::resp::lemma_array_view(*items);
            }
            let ghost models = crate::resp::values_of(items@);
            let mut args: Vec<Vec<u8>> = Vec::new();
            let mut i: usize = 0;
            while i < items.len()
                invariant
                    i <= items@.len(),
                    args@.len() == i,
                    models == crate::resp::values_of(items@),
                    value@ == RespValue::Array(models),
                    forall|j: int| 0 <= j < i ==> #[trigger] models[j] == RespValue::BulkBytes(args@[j]@),
                decreases items@.len() - i,
            {
                match &items[i] {
                    Resp::BulkBytes(bytes) => {
                        let mut copy: Vec<u8> = Vec::new();
                        copy.extend_from_slice(bytes.as_slice());
                        assert(copy@ =~= bytes@);
                        assert(models[i as int] == items@[i as int]@);
                        args.push(copy);
                    },
                    _ => {
                        assert(models[i as int] == items@[i as int]@);
                        assert(!(models[i as int] is BulkBytes));
                        return None;
                    },
                }
                i = i + 1;
            }
            assert(all_bulk(models));
            assert(payloads(args@) =~= Seq::new(models.len(), |i: int| models[i]->BulkBytes_0));
            Some(args)
        },
        _ => None,
    }
}

/// What reading one command from `pending` gives: its arguments with its
/// length on the wire and the bytes that follow it. A value that is no
/// command is malformed, and a command so long that a 64-bit meter stops
/// before its end is out of range.
pub open spec fn parse_command(pending: Seq<u8>) -> Result<(Seq<Seq<u8>>, int, Seq<u8>), RedisSyncError> {
    match parse_value(pending) {
        Ok((value, rest)) => match command_args(value) {
            Some(args) => if pending.len() - rest.len() >= u64::MAX {
                Err(RedisSyncError::Overflow)
            } else {
                Ok((args, pending.len() - rest.len(), rest))
            },
            None => Err(RedisSyncError::Framing),
        },
        Err(e) => Err(e),
    }
}

/// A request that was encoded reads back as the command with its
/// arguments, and its length on the wire is the length of its frame:
/// encoding what was read gives the bytes that were read. This holds of
/// every request that can be read back and measured; one that cannot be
/// read back is malformed, one that cannot be measured is out of range.
pub proof fn lemma_command_round_trip(args: Seq<Seq<u8>>, after: Seq<u8>)
    ensures
        parse_command(request_form(args) + after) == if !encodable(args) {
            Err::<(Seq<Seq<u8>>, int, Seq<u8>), RedisSyncError>(RedisSyncError::Framing)
        } else if request_form(args).len() >= u64::MAX {
            Err::<(Seq<Seq<u8>>, int, Seq<u8>), RedisSyncError>(RedisSyncError::Overflow)
        } else {
            Ok::<(Seq<Seq<u8>>, int, Seq<u8>), RedisSyncError>(
                (args, request_form(args).len() as int, after),
            )
        },
{
    lemma_request_round_trip(args, after);
    let values = bulk_values(args);
    assert(all_bulk(values));
    assert(Seq::new(values.len(), |i: int| values[i]->BulkBytes_0) =~= args);
}

/// Reads one command and measures the bytes it took on the wire.
///
/// The measurement replaces whatever count was running in `reader`; after
/// a command has been read, `reader` is not counting.
pub fn command_from<R: ByteSource>(reader: &mut CountReader<R>) -> (r: Result<
    (Vec<Vec<u8>>, u64),
    RedisSyncError,
>)
    ensures
        match (r, parse_command(old(reader).feed().pending)) {
            (Ok((args, size)), Ok((model, length, rest))) => {
                &&& payloads(args@) == model
                &&& size == length
                &&& final(reader).feed().pending == rest
                &&& final(reader).feed().meter is None
            },
            (Err(e), Err(w)) => e == w,
            _ => false,
        },
{
    proof {
        lemma_value_shrinks(reader.feed().pending);
    }
    reader.mark();
    let value = match value_from(reader) {
        Ok(value) => value,
        Err(e) => {
            return Err(e);
        },
    };
    let size = match reader.reset() {
        Ok(size) => size,
        Err(e) => {
            return Err(e);
        },
    };
    match args_of(&value) {
        Some(args) => {
            if size == u64::MAX {
                Err(RedisSyncError::Overflow)
            } else {
                Ok((args, size))
            }
        },
        None => Err(RedisSyncError::Framing),
    }
}

/// The sum of `sizes`.
pub open spec fn total(sizes: Seq<u64>) -> int
    decreases sizes.len(),
{
    if sizes.len() == 0 {
        0
    } else {
        total(sizes.drop_last()) + sizes.last()
    }
}

/// The replication offset after a frame of `size` bytes: `offset + size`,
/// or `Overflow` where that is no signed 64-bit number.
pub fn advance(offset: i64, size: u64) -> (r: Result<i64, RedisSyncError>)
    ensures
        r == if offset + size <= i64::MAX {
            Ok::<i64, RedisSyncError>((offset + size) as i64)
        } else {
            Err::<i64, RedisSyncError>(RedisSyncError::Overflow)
        },
{
    let sum: i128 = offset as i128 + size as i128;
    if sum <= i64::MAX as i128 {
        Ok(sum as i64)
    } else {
        Err(RedisSyncError::Overflow)
    }
}

/// Moving on by each of `sizes` in turn, starting from `start`, ends at
/// `start` plus their sum, provided no step leaves the range: no frame is
/// counted twice and none is left out.
pub proof fn lemma_offset_after_frames(start: i64, sizes: Seq<u64>, offsets: Seq<i64>)
    requires
        offsets.len() == sizes.len() + 1,
        offsets[0] == start,
        forall|k: int|
            0 <= k < sizes.len() ==> #[trigger] offsets[k + 1] == offsets[k] + sizes[k],
    ensures
        forall|k: int| 0 <= k <= sizes.len() ==> #[trigger] offsets[k] == start + total(sizes.take(k)),
    decreases sizes.len(),
{
    assert forall|k: int| 0 <= k <= sizes.len() implies #[trigger] offsets[k] == start + total(
        sizes.take(k),
    ) by {
        lemma_offset_at(start, sizes, offsets, k);
    }
}

/// The offset after the first `k` frames.
proof fn lemma_offset_at(start: i64, sizes: Seq<u64>, offsets: Seq<i64>, k: int)
    requires
        offsets.len() == sizes.len() + 1,
        offsets[0] == start,
        forall|j: int|
            0 <= j < sizes.len() ==> #[trigger] offsets[j + 1] == offsets[j] + sizes[j],
        0 <= k <= sizes.len(),
    ensures
        offsets[k] == start + total(sizes.take(k)),
    decreases k,
{
    if k == 0 {
        assert(sizes.take(0) =~= Seq::<u64>::empty());
    } else {
        lemma_offset_at(start, sizes, offsets, k - 1);
        assert(sizes.take(k).drop_last() =~= sizes.take(k - 1));
        assert(sizes.take(k).last() == sizes[k - 1]);
        assert(offsets[(k - 1) + 1] == offsets[k - 1] + sizes[k - 1]);
    }
}

/// Reads one command and moves `offset` on by the bytes it took on the wire.
///
/// Where anything fails, `offset` stays as it was.
pub fn replay_one<R: ByteSource>(reader: &mut CountReader<R>, offset: &mut i64) -> (r: Result<
    Vec<Vec<u8>>,
    RedisSyncError,
>)
    ensures
        match (r, parse_command(old(reader).feed().pending)) {
            (Ok(args), Ok((model, length, rest))) => {
                &&& payloads(args@) == model
                &&& *final(offset) == *old(offset) + length
                &&& final(reader).feed().pending == rest
                &&& final(reader).feed().meter is None
            },
            (Err(e), Ok((_, length, _))) => e == RedisSyncError::Overflow && *old(offset) + length
                > i64::MAX && *final(offset) == *old(offset),
            (Err(e), Err(w)) => e == w && *final(offset) == *old(offset),
            _ => false,
        },
{
    let (args, size) = match command_from(reader) {
        Ok(found) => found,
        Err(e) => {
            return Err(e);
        },
    };
    match advance(*offset, size) {
        Ok(next) => {
            *offset = next;
            Ok(args)
        },
        Err(e) => Err(e),
    }
}

/// What one step of the replay does to the offset and to what the
/// handler has received: a command that could be read moves the offset on
/// by its length on the wire and is the last event received; where nothing
/// could be read both stay as they were.
pub open spec fn replayed_one(
    got: Result<(), RedisSyncError>,
    pending: Seq<u8>,
    offset_before: i64,
    offset_after: i64,
    received_before: Seq<EventModel>,
    received_after: Seq<EventModel>,
    left: crate::io::Feed,
) -> bool {
    match parse_command(pending) {
        Ok((args, length, rest)) => if offset_before + length > i64::MAX {
            &&& got == Err::<(), RedisSyncError>(RedisSyncError::Overflow)
            &&& offset_after == offset_before
            &&& received_after == received_before
        } else {
            &&& got is Ok
            &&& offset_after == offset_before + length
            &&& received_after == received_before.push(EventModel::AOF(command_of(args)))
            &&& left.pending == rest
            &&& left.meter is None
        },
        Err(e) => {
            &&& got == Err::<(), RedisSyncError>(e)
            &&& offset_after == offset_before
            &&& received_after == received_before
        },
    }
}

/// Reads one command, hands it to `handler` and moves `offset` on by the
/// bytes it took on the wire. Where anything fails, nothing is handed
/// over and `offset` stays as it was.
pub fn replay_step<R: ByteSource, H: EventHandler>(
    reader: &mut CountReader<R>,
    handler: &mut H,
    offset: &mut i64,
) -> (r: Result<(), RedisSyncError>)
    ensures
        replayed_one(
            r,
            old(reader).feed().pending,
            *old(offset),
            *final(offset),
            old(handler).received(),
            final(handler).received(),
            final(reader).feed(),
        ),
{
    match replay_one(reader, offset) {
        Ok(args) => {
            handler.handle(Event::AOF(parse(args.as_slice())));
            Ok(())
        },
        Err(e) => Err(e),
    }
}

/// How a replay ends.
pub ghost struct Replayed {
    /// The offset reached.
    pub offset: int,
    /// The failure that ended the replay.
    pub end: RedisSyncError,
    /// The commands that were handed over, first one first.
    pub events: Seq<EventModel>,
}

/// Where replaying `pending` from `offset` ends. Commands are replayed one
/// after the other, each handed over and each moving the offset on by its
/// length on the wire, until one cannot be read or the offset would leave
/// its range.
///
/// The test on lengths always holds, since a command takes at least one byte.
pub open spec fn replay_end(pending: Seq<u8>, offset: int) -> Replayed
    decreases pending.len(),
{
    match parse_command(pending) {
        Ok((args, length, rest)) => if offset + length > i64::MAX {
            Replayed { offset, end: RedisSyncError::Overflow, events: Seq::empty() }
        } else if rest.len() < pending.len() {
            let then = replay_end(rest, offset + length);
            Replayed {
                offset: then.offset,
                end: then.end,
                events: seq![EventModel::AOF(command_of(args))] + then.events,
            }
        } else {
            Replayed { offset, end: RedisSyncError::Framing, events: Seq::empty() }
        },
        Err(e) => Replayed { offset, end: e, events: Seq::empty() },
    }
}

/// Replays commands until one cannot be read: each is handed to `handler`
/// and moves `offset` on by its length on the wire. Gives the failure that
/// ended the replay; the end of the stream is one of them (`Disconnect`).
pub fn replay<R: ByteSource, H: EventHandler>(
    reader: &mut CountReader<R>,
    handler: &mut H,
    offset: &mut i64,
) -> (end: RedisSyncError)
    ensures
        end == replay_end(old(reader).feed().pending, *old(offset) as int).end,
        *final(offset) == replay_end(old(reader).feed().pending, *old(offset) as int).offset,
        final(handler).received() == old(handler).received() + replay_end(
            old(reader).feed().pending,
            *old(offset) as int,
        ).events,
{
    let ghost whole = replay_end(reader.feed().pending, *offset as int);
    loop
        invariant
            whole == replay_end(old(reader).feed().pending, *old(offset) as int),
            whole.offset == replay_end(reader.feed().pending, *offset as int).offset,
            whole.end == replay_end(reader.feed().pending, *offset as int).end,
            old(handler).received() + whole.events == handler.received() + replay_end(
                reader.feed().pending,
                *offset as int,
            ).events,
        decreases reader.feed().pending.len(),
    {
        let ghost here = replay_end(reader.feed().pending, *offset as int);
        let ghost had = handler.received();
        proof {
            lemma_value_shrinks(reader.feed().pending);
        }
        match replay_step(reader, handler, offset) {
            Ok(()) => {
                proof {
                    let then = replay_end(reader.feed().pending, *offset as int);
                    let event = handler.received().last();
                    assert(handler.received() == had.push(event));
                    assert(here.events == seq![event] + then.events);
                    assert(had + (seq![event] + then.events) =~= had.push(event) + then.events);
                }
            },
            Err(e) => {
                proof {
                    assert(here.events =~= Seq::<EventModel>::empty());
                    assert(had + here.events =~= had);
                }
                return e;
            },
        }
    }
}

} // verus!
