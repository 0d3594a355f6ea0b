//! Cursors over the packed containers of a snapshot.
//!
//! Each cursor hands out one element per call of `next` and `None` once the
//! container is exhausted; none reads ahead. Cursors over a list of strings
//! or of sorted-set pairs read from the snapshot itself; the others read from
//! the bytes of one packed container, held in memory. Packed data that ends
//! too early is malformed (`Encoding`), while a snapshot that ends too early
//! is a lost connection (`Disconnect`).

use crate::error::RedisSyncError;
use crate::io::{after_skip, agrees, metered, take_byte, take_exact, ByteReader, ByteSource, Feed};
use crate::rdb::{
    bits_score_from, int_text_from, le_signed_from, lemma_string_shrinks, parse_bits_score,
    parse_int_text, parse_le_signed, parse_string, parse_text_score, parse_zip_list_entry,
    parse_zm_len, read_zip_list_entry, read_zm_len, string_from, text_score_from, Field,
    FieldValue, Item, ItemValue, ZM_END,
};
use crate::resp::Parsed;
use vstd::prelude::*;

verus! {

/// A grammar result for packed data held in memory: data that ends too
/// early is malformed.
pub open spec fn packed<T>(parsed: Parsed<T>) -> Parsed<T> {
    match parsed {
        Err(RedisSyncError::Disconnect) => Err(RedisSyncError::Encoding),
        other => other,
    }
}

/// An outcome of reading packed data held in memory.
fn in_packed<T>(outcome: Result<T, RedisSyncError>) -> (r: Result<T, RedisSyncError>)
    ensures
        r == match outcome {
            Err(RedisSyncError::Disconnect) => Err::<T, RedisSyncError>(RedisSyncError::Encoding),
            other => other,
        },
{
    match outcome {
        Err(RedisSyncError::Disconnect) => Err(RedisSyncError::Encoding),
        other => other,
    }
}

/// Whether `got` hands out the element that `want` found, having taken the
/// source from `before` to `after`.
pub open spec fn yields<T: View>(
    got: Result<Option<T>, RedisSyncError>,
    before: Feed,
    after: Feed,
    want: Parsed<T::V>,
) -> bool {
    match got {
        Ok(Some(item)) => agrees(Ok::<T, RedisSyncError>(item), before, after, want),
        Ok(None) => false,
        Err(e) => want == Err::<(T::V, Seq<u8>), RedisSyncError>(e),
    }
}

// ---------------------------------------------------------------------------
// A list of strings
// ---------------------------------------------------------------------------

/// A cursor over `count` strings that follow one another in the snapshot.
pub struct StrValIter {
    pub count: isize,
}

impl StrValIter {
    /// Hands out the next string, or `None` where all have been handed out.
    pub fn next<R: ByteSource>(&mut self, input: &mut R) -> (r: Result<
        Option<Vec<u8>>,
        RedisSyncError,
    >)
        ensures
            old(self).count > 0 ==> yields(
                r,
                old(input).feed(),
                final(input).feed(),
                parse_string(old(input).feed().pending),
            ),
            old(self).count > 0 && r is Ok ==> final(self).count == old(self).count - 1,
            old(self).count <= 0 ==> r == Ok::<Option<Vec<u8>>, RedisSyncError>(None)
                && final(input).feed() == old(input).feed(),
            old(self).count <= 0 || r is Err ==> final(self).count == old(self).count,
    {
        if self.count > 0 {
            match string_from(input) {
                Ok(value) => {
                    self.count = self.count - 1;
                    Ok(Some(value))
                },
                Err(e) => Err(e),
            }
        } else {
            Ok(None)
        }
    }
}

// ---------------------------------------------------------------------------
// A packed list
// ---------------------------------------------------------------------------

/// A cursor over the `count` entries of a packed list.
pub struct ZipListIter {
    pub count: isize,
    pub cursor: ByteReader,
}

impl ZipListIter {
    /// Hands out the next entry, or `None` where all have been handed out.
    pub fn next(&mut self) -> (r: Result<Option<Vec<u8>>, RedisSyncError>)
        ensures
            old(self).count > 0 ==> yields(
                r,
                old(self).cursor.feed(),
                final(self).cursor.feed(),
                packed(parse_zip_list_entry(old(self).cursor.feed().pending)),
            ),
            old(self).count > 0 && r is Ok ==> final(self).count == old(self).count - 1,
            old(self).count <= 0 ==> r == Ok::<Option<Vec<u8>>, RedisSyncError>(None)
                && final(self).cursor == old(self).cursor,
            old(self).count <= 0 || r is Err ==> final(self).count == old(self).count,
    {
        if self.count > 0 {
            match in_packed(read_zip_list_entry(&mut self.cursor)) {
                Ok(value) => {
                    self.count = self.count - 1;
                    Ok(Some(value))
                },
                Err(e) => Err(e),
            }
        } else {
            Ok(None)
        }
    }
}

// ---------------------------------------------------------------------------
// A set of integers
// ---------------------------------------------------------------------------

/// One member of a packed set of integers: `encoding` bytes, least
/// significant first, handed on as decimal text. Only 2, 4 and 8 bytes
/// are widths of such a set.
pub open spec fn parse_int_set_member(s: Seq<u8>, encoding: i32) -> Parsed<Seq<u8>> {
    if encoding == 2 || encoding == 4 || encoding == 8 {
        packed(parse_int_text(s, encoding as int))
    } else {
        Err(RedisSyncError::Encoding)
    }
}

/// A cursor over the `count` members of a packed set of integers, each
/// `encoding` bytes wide.
pub struct IntSetIter {
    pub encoding: i32,
    pub count: isize,
    pub cursor: ByteReader,
}

impl IntSetIter {
    /// Hands out the next member as decimal text, or `None` where all have
    /// been handed out.
    pub fn next(&mut self) -> (r: Result<Option<Vec<u8>>, RedisSyncError>)
        ensures
            old(self).count > 0 ==> yields(
                r,
                old(self).cursor.feed(),
                final(self).cursor.feed(),
                parse_int_set_member(old(self).cursor.feed().pending, old(self).encoding),
            ),
            old(self).count > 0 && r is Ok ==> final(self).count == old(self).count - 1,
            old(self).count <= 0 ==> r == Ok::<Option<Vec<u8>>, RedisSyncError>(None)
                && final(self).cursor == old(self).cursor,
            old(self).count <= 0 || r is Err ==> final(self).count == old(self).count,
            final(self).encoding == old(self).encoding,
    {
        if self.count > 0 {
            let width: u8 = if self.encoding == 2 {
                2
            } else if self.encoding == 4 {
                4
            } else if self.encoding == 8 {
                8
            } else {
                return Err(RedisSyncError::Encoding);
            };
            match in_packed(int_text_from(&mut self.cursor, width)) {
                Ok(value) => {
                    self.count = self.count - 1;
                    Ok(Some(value))
                },
                Err(e) => Err(e),
            }
        } else {
            Ok(None)
        }
    }
}

// ---------------------------------------------------------------------------
// A sorted set
// ---------------------------------------------------------------------------

/// One pair of a sorted set: the member, a string, and its score, in the
/// older format where `version` is 1 and in the newer one otherwise.
pub open spec fn parse_item(s: Seq<u8>, version: u8) -> Parsed<ItemValue> {
    match parse_string(s) {
        Ok((member, rest)) => match (if version == 1 {
            parse_text_score(rest)
        } else {
            parse_bits_score(rest)
        }) {
            Ok((score, after)) => Ok((ItemValue { member, score }, after)),
            Err(e) => Err(e),
        },
        Err(e) => Err(e),
    }
}

/// A cursor over the `count` pairs of a sorted set that follow one another
/// in the snapshot.
pub struct SortedSetIter {
    pub count: isize,
    /// 1 for the older format, whose scores are decimal text; 2 for the
    /// newer one, whose scores are bit patterns.
    pub v: u8,
}

impl SortedSetIter {
    /// Hands out the next pair, or `None` where all have been handed out.
    pub fn next<R: ByteSource>(&mut self, input: &mut R) -> (r: Result<Option<Item>, RedisSyncError>)
        ensures
            old(self).count > 0 ==> yields(
                r,
                old(input).feed(),
                final(input).feed(),
                parse_item(old(input).feed().pending, old(self).v),
            ),
            old(self).count > 0 && r is Ok ==> final(self).count == old(self).count - 1,
            old(self).count <= 0 ==> r == Ok::<Option<Item>, RedisSyncError>(None)
                && final(input).feed() == old(input).feed(),
            old(self).count <= 0 || r is Err ==> final(self).count == old(self).count,
            final(self).v == old(self).v,
    {
        if self.count > 0 {
            proof {
                lemma_string_shrinks(input.feed().pending);
            }
            let member = match string_from(input) {
                Ok(member) => member,
                Err(e) => {
                    return Err(e);
                },
            };
            let ghost rest = input.feed().pending;
            let score = if self.v == 1 {
                match text_score_from(input) {
                    Ok(score) => score,
                    Err(e) => {
                        return Err(e);
                    },
                }
            } else {
                match bits_score_from(input) {
                    Ok(score) => score,
                    Err(e) => {
                        return Err(e);
                    },
                }
            };
            proof {
                assert(input.feed().pending.len() <= rest.len());
            }
            self.count = self.count - 1;
            Ok(Some(Item { member, score }))
        } else {
            Ok(None)
        }
    }
}

// ---------------------------------------------------------------------------
// A packed map
// ---------------------------------------------------------------------------

/// A field whose value is empty.
pub open spec fn bare_field(name: Seq<u8>) -> FieldValue {
    FieldValue { name, value: Seq::empty() }
}

/// One step through a packed map: the field found, if any, and whether
/// more may follow.
///
/// A field is the length of its name, the name, the length of its value,
/// one byte that says how many unused bytes follow the value, the value, and
/// those unused bytes. The byte 255 in place of the first length ends the
/// map. In place of the second it ends the map too, and the field has an
/// empty value.
pub open spec fn parse_zip_map_step(s: Seq<u8>) -> Parsed<(Option<FieldValue>, bool)> {
    match parse_zm_len(s) {
        Ok((name_len, at_name)) => if name_len == ZM_END {
            Ok(((None, false), at_name))
        } else {
            match take_exact(at_name, name_len as int) {
                Ok((name, after_name)) => match parse_zm_len(after_name) {
                    Ok((value_len, at_free)) => if value_len == ZM_END {
                        Ok(((Some(bare_field(name)), false), at_free))
                    } else {
                        match take_byte(at_free) {
                            Ok((free, at_value)) => match take_exact(at_value, value_len as int) {
                                Ok((value, rest)) => Ok(
                                    (
                                        (Some(FieldValue { name, value }), true),
                                        after_skip(rest, free as int),
                                    ),
                                ),
                                Err(e) => Err(e),
                            },
                            Err(e) => Err(e),
                        }
                    },
                    Err(e) => Err(e),
                },
                Err(e) => Err(e),
            }
        },
        Err(e) => Err(e),
    }
}

/// Whether a step through a packed map did what `want` says: the same
/// field or none, the same word on whether more may follow, and the cursor
/// where the step ends.
pub open spec fn steps(
    got: Result<Option<Field>, RedisSyncError>,
    has_more: bool,
    left: Seq<u8>,
    want: Parsed<(Option<FieldValue>, bool)>,
) -> bool {
    match (got, want) {
        (Ok(Some(field)), Ok(((Some(model), more), rest))) => field@ == model && has_more == more
            && left == rest,
        (Ok(None), Ok(((None, more), rest))) => has_more == more && left == rest,
        (Err(e), Err(w)) => e == w,
        _ => false,
    }
}

/// A cursor over the fields of a packed map.
pub struct ZipMapIter {
    pub has_more: bool,
    pub cursor: ByteReader,
}

impl ZipMapIter {
    /// Hands out the next field, or `None` where the end of the map has
    /// been reached.
    pub fn next(&mut self) -> (r: Result<Option<Field>, RedisSyncError>)
        ensures
            old(self).has_more ==> steps(
                r,
                final(self).has_more,
                final(self).cursor.feed().pending,
                packed(parse_zip_map_step(old(self).cursor.feed().pending)),
            ),
            !old(self).has_more ==> r == Ok::<Option<Field>, RedisSyncError>(None) && *final(self)
                == *old(self),
    {
        if !self.has_more {
            return Ok(None);
        }
        let name_len = match in_packed(read_zm_len(&mut self.cursor)) {
            Ok(length) => length,
            Err(e) => {
                return Err(e);
            },
        };
        if name_len == ZM_END {
            self.has_more = false;
            return Ok(None);
        }
        let name = match in_packed(self.cursor.read_exact(name_len as u64)) {
            Ok(name) => name,
            Err(e) => {
                return Err(e);
            },
        };
        let value_len = match in_packed(read_zm_len(&mut self.cursor)) {
            Ok(length) => length,
            Err(e) => {
                return Err(e);
            },
        };
        if value_len == ZM_END {
            self.has_more = false;
            return Ok(Some(Field { name, value: Vec::new() }));
        }
        let free = match in_packed(self.cursor.read_u8()) {
            Ok(free) => free,
            Err(e) => {
                return Err(e);
            },
        };
        let value = match in_packed(self.cursor.read_exact(value_len as u64)) {
            Ok(value) => value,
            Err(e) => {
                return Err(e);
            },
        };
        crate::io::skip(&mut self.cursor, free as u64);
        Ok(Some(Field { name, value }))
    }
}

// ---------------------------------------------------------------------------
// A list of packed lists
// ---------------------------------------------------------------------------

/// The number of bytes at the start of a packed list that come before the
/// number of its entries.
pub const NODE_HEADER: usize = 8;

/// What a [`QuickListIter`] stands for.
pub ghost struct QuickListState {
    /// The entries left in the node at hand; `-1` where no node is at hand.
    pub len: int,
    /// The nodes left, the one at hand included.
    pub count: int,
    /// What is left unread of the node at hand.
    pub node: Seq<u8>,
}

/// The counters after one entry of the node at hand, or the whole of an
/// empty node, is done with and `len` entries are left in it.
pub open spec fn settled(len: int, count: int, node: Seq<u8>) -> QuickListState {
    if len == 0 {
        QuickListState { len: -1, count: count - 1, node }
    } else {
        QuickListState { len, count, node }
    }
}

/// One call of `next` on a list of packed lists in `state`, with `input`
/// pending in the snapshot: the entry handed out, if any, the state after
/// it, and what is left of the snapshot.
///
/// Where no node is at hand and nodes are left, the next node is read
/// from the snapshot: a string that holds a packed list, whose number of
/// entries stands after the first eight bytes. An empty node is done with at
/// once. Then, where nodes are left, the next entry of the node at hand is
/// handed out. A node counts as done when its last entry has been handed out.
pub open spec fn quick_list_step(state: QuickListState, input: Seq<u8>) -> Result<
    (Option<Seq<u8>>, QuickListState, Seq<u8>),
    RedisSyncError,
>
    decreases input.len(), (if state.len == -1 {
        1int
    } else {
        0int
    }),
{
    if state.len == -1 && state.count > 0 {
        match parse_string(input) {
            Ok((data, rest)) => match packed(
                parse_le_signed(ByteReader::rest_of(data, NODE_HEADER as nat), 2),
            ) {
                Ok((entries, node)) => {
                    let next = settled(entries as int, state.count, node);
                    if next.len > 0 || next.count > 0 {
                        if rest.len() < input.len() {
                            quick_list_step(next, rest)
                        } else {
                            Err(RedisSyncError::Encoding)
                        }
                    } else {
                        Ok((None, next, rest))
                    }
                },
                Err(e) => Err(e),
            },
            Err(e) => Err(e),
        }
    } else if state.count > 0 {
        if state.len <= isize::MIN {
            Err(RedisSyncError::Encoding)
        } else {
            match packed(parse_zip_list_entry(state.node)) {
                Ok((entry, node)) => Ok((Some(entry), settled(state.len - 1, state.count, node), input)),
                Err(e) => Err(e),
            }
        }
    } else {
        Ok((None, state, input))
    }
}

/// A cursor over the entries of `count` packed lists that follow one
/// another in the snapshot, each wrapped in a string.
pub struct QuickListIter {
    pub len: isize,
    pub count: isize,
    pub cursor: Option<ByteReader>,
}

impl QuickListIter {
    /// What this cursor stands for.
    pub open spec fn state(&self) -> QuickListState {
        QuickListState {
            len: self.len as int,
            count: self.count as int,
            node: match self.cursor {
                Some(cursor) => cursor.feed().pending,
                None => Seq::empty(),
            },
        }
    }

    /// Whether entries or nodes are left.
    pub fn has_more(&self) -> (more: bool)
        ensures
            more == (self.len > 0 || self.count > 0),
    {
        self.len > 0 || self.count > 0
    }

    /// Hands out the next entry, or `None` where all nodes are done with.
    pub fn next<R: ByteSource>(&mut self, input: &mut R) -> (r: Result<
        Option<Vec<u8>>,
        RedisSyncError,
    >)
        ensures
            match (r, quick_list_step(old(self).state(), old(input).feed().pending)) {
                (Ok(entry), Ok((model, state, rest))) => {
                    &&& match (entry, model) {
                        (Some(bytes), Some(wanted)) => bytes@ == wanted,
                        (None, None) => true,
                        _ => false,
                    }
                    &&& final(self).state() == state
                    &&& final(input).feed().pending == rest
                    &&& final(input).feed().meter == metered(
                        old(input).feed().meter,
                        old(input).feed().pending.len() - rest.len(),
                    )
                },
                (Err(e), Err(w)) => e == w,
                _ => false,
            },
    {
        loop
            invariant
                input.feed().pending.len() <= old(input).feed().pending.len(),
                input.feed().meter == metered(
                    old(input).feed().meter,
                    old(input).feed().pending.len() - input.feed().pending.len(),
                ),
                quick_list_step(old(self).state(), old(input).feed().pending) == quick_list_step(
                    self.state(),
                    input.feed().pending,
                ),
            decreases
                    input.feed().pending.len(),
                    (if self.len == -1 {
                        1int
                    } else {
                        0int
                    }),
        {
            if self.len == -1 && self.count > 0 {
                proof {
                    lemma_string_shrinks(input.feed().pending);
                }
                let data = match string_from(input) {
                    Ok(data) => data,
                    Err(e) => {
                        return Err(e);
                    },
                };
                let mut cursor = ByteReader::new(data);
                cursor.set_position(NODE_HEADER);
                let entries = match in_packed(le_signed_from(&mut cursor, 2)) {
                    Ok(entries) => entries,
                    Err(e) => {
                        return Err(e);
                    },
                };
                proof {
                    let header = ByteReader::rest_of(data@, NODE_HEADER as nat).take(2);
                    crate::endian::lemma_le_value_bound(header);
                    crate::endian::lemma_radix_values();
                }
                self.cursor = Some(cursor);
                self.len = entries as isize;
                if self.len == 0 {
                    self.len = -1;
                    self.count = self.count - 1;
                }
                if !self.has_more() {
                    return Ok(None);
                }
            } else if self.count > 0 {
                if self.len == isize::MIN {
                    return Err(RedisSyncError::Encoding);
                }
                let mut cursor = match self.cursor.take() {
                    Some(cursor) => cursor,
                    None => ByteReader::new(Vec::new()),
                };
                let entry = in_packed(read_zip_list_entry(&mut cursor));
                self.cursor = Some(cursor);
                match entry {
                    Ok(entry) => {
                        self.len = self.len - 1;
                        if self.len == 0 {
                            self.len = -1;
                            self.count = self.count - 1;
                        }
                        return Ok(Some(entry));
                    },
                    Err(e) => {
                        return Err(e);
                    },
                }
            } else {
                return Ok(None);
            }
        }
    }
}

} // verus!
