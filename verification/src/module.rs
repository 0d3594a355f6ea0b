//! What modules keep in a snapshot.
//!
//! A module writes its data as a run of items, each a number, a float or
//! a string with a mark that says which, closed by a mark of its own. The
//! items can be read without the module; what they mean only the module
//! knows. The module is told by an identifier that packs its name, nine
//! characters of six bits each, and its version, ten bits.

use crate::endian::{le_uint, le_value, lemma_le_value_bound, lemma_radix_values};
use crate::error::RedisSyncError;
use crate::io::{agrees, metered, modeled, settles, take_exact, ByteSource};
use crate::rdb::{
    lemma_length_shrinks, lemma_string_shrinks, length_from, parse_length, parse_string,
    string_from,
};
use crate::resp::{string_of, Parsed};
use crate::{ModuleParser, Request};
use vstd::pervasive::unreached;
use vstd::prelude::*;
use vstd::utf8::{
    decode_utf8, encode_utf8, encode_utf8_decode_utf8, encode_utf8_valid_utf8, is_ascii_chars,
    is_ascii_chars_encode_utf8, valid_utf8,
};

verus! {

/// The mark that closes the data of a module.
pub const MODULE_EOF: u64 = 0;

/// The mark of a signed number.
pub const MODULE_SINT: u64 = 1;

/// The mark of an unsigned number.
pub const MODULE_UINT: u64 = 2;

/// The mark of a 32-bit float.
pub const MODULE_FLOAT: u64 = 3;

/// The mark of a 64-bit float.
pub const MODULE_DOUBLE: u64 = 4;

/// The mark of a string.
pub const MODULE_STRING: u64 = 5;

/// The number of characters in the name of a module.
pub const NAME_LEN: usize = 9;

/// One item of a module's data.
#[derive(Debug, PartialEq, Eq)]
pub enum ModuleItem {
    Signed(i64),
    Unsigned(u64),
    /// The bit pattern of a 32-bit float.
    Float(u32),
    /// The bit pattern of a 64-bit float.
    Double(u64),
    Bytes(Vec<u8>),
}

/// What a [`ModuleItem`] stands for.
pub ghost enum ItemModel {
    Signed(i64),
    Unsigned(u64),
    Float(u32),
    Double(u64),
    Bytes(Seq<u8>),
}

impl View for ModuleItem {
    type V = ItemModel;

    open spec fn view(&self) -> ItemModel {
        match self {
            ModuleItem::Signed(v) => ItemModel::Signed(*v),
            ModuleItem::Unsigned(v) => ItemModel::Unsigned(*v),
            ModuleItem::Float(bits) => ItemModel::Float(*bits),
            ModuleItem::Double(bits) => ItemModel::Double(*bits),
            ModuleItem::Bytes(bytes) => ItemModel::Bytes(bytes@),
        }
    }
}

/// The data of one module: which module wrote it, and what it wrote.
#[derive(Debug, PartialEq, Eq)]
pub struct ModuleData {
    pub name: Vec<u8>,
    pub version: u64,
    pub items: Vec<ModuleItem>,
}

/// What a [`ModuleData`] stands for.
pub ghost struct ModuleModel {
    pub name: Seq<u8>,
    pub version: u64,
    pub items: Seq<ItemModel>,
}

/// What the elements of `items` stand for, in order.
pub open spec fn item_models(items: Seq<ModuleItem>) -> Seq<ItemModel> {
    Seq::new(items.len(), |i: int| items[i]@)
}

impl View for ModuleData {
    type V = ModuleModel;

    open spec fn view(&self) -> ModuleModel {
        ModuleModel { name: self.name@, version: self.version, items: item_models(self.items@) }
    }
}

// ---------------------------------------------------------------------------
// The identifier
// ---------------------------------------------------------------------------

/// The character that six bits of a module's name stand for: the capital
/// letters, the small letters, the digits, `-` and `_`, in this order.
pub open spec fn name_char(six: u64) -> u8 {
    if six < 26 {
        (65 + six) as u8
    } else if six < 52 {
        (97 + (six - 26)) as u8
    } else if six < 62 {
        (48 + (six - 52)) as u8
    } else if six == 62 {
        45
    } else {
        95
    }
}

/// `bits` without its lowest `6 * count` bits.
pub open spec fn without_low(bits: u64, count: nat) -> u64
    decreases count,
{
    if count == 0 {
        bits
    } else {
        without_low(bits, (count - 1) as nat) / 64
    }
}

/// The name that an identifier packs: above the ten bits of the version,
/// nine characters of six bits each, the last one lowest.
pub open spec fn module_name(id: u64) -> Seq<u8> {
    Seq::new(
        NAME_LEN as nat,
        |i: int| name_char(without_low(id / 1024, (NAME_LEN - 1 - i) as nat) % 64),
    )
}

/// The version that an identifier packs: its lowest ten bits.
pub open spec fn module_version(id: u64) -> u64 {
    id % 1024
}

/// The character that six bits of a module's name stand for.
pub fn name_char_of(six: u64) -> (c: u8)
    requires
        six < 64,
    ensures
        c == name_char(six),
{
    if six < 26 {
        65 + six as u8
    } else if six < 52 {
        97 + (six - 26) as u8
    } else if six < 62 {
        48 + (six - 52) as u8
    } else if six == 62 {
        45
    } else {
        95
    }
}

/// The name that an identifier packs.
pub fn name_of(id: u64) -> (name: Vec<u8>)
    ensures
        name@ == module_name(id),
{
    let mut name: Vec<u8> = Vec::new();
    let mut filled: usize = 0;
    while filled < NAME_LEN
        invariant
            filled <= NAME_LEN,
            name@.len() == filled,
        decreases NAME_LEN - filled,
    {
        name.push(0);
        filled = filled + 1;
    }
    let mut bits: u64 = id / 1024;
    let mut done: usize = 0;
    while done < NAME_LEN
        invariant
            done <= NAME_LEN,
            name@.len() == NAME_LEN,
            bits == without_low(id / 1024, done as nat),
            forall|i: int|
                NAME_LEN - done <= i < NAME_LEN ==> #[trigger] name@[i] == name_char(
                    without_low(id / 1024, (NAME_LEN - 1 - i) as nat) % 64,
                ),
        decreases NAME_LEN - done,
    {
        let at = NAME_LEN - 1 - done;
        name.set(at, name_char_of(bits % 64));
        bits = bits / 64;
        done = done + 1;
    }
    assert(name@ =~= module_name(id));
    name
}

/// The name that an identifier packs is made of letters, digits, `-` and
/// `_` alone, so it is text, one character to the byte.
pub proof fn lemma_module_name_is_text(id: u64)
    ensures
        valid_utf8(module_name(id)),
        decode_utf8(module_name(id)).len() == NAME_LEN,
        forall|i: int|
            0 <= i < NAME_LEN ==> #[trigger] decode_utf8(module_name(id))[i] as u8 == module_name(
                id,
            )[i],
{
    let name = module_name(id);
    let chars = Seq::new(NAME_LEN as nat, |i: int| name[i] as char);
    assert(is_ascii_chars(chars)) by {
        assert forall|i: int| 0 <= i < chars.len() implies 0 <= #[trigger] chars[i] as u32
            <= 0x7f by {
            assert(name[i] < 128);
        }
    }
    is_ascii_chars_encode_utf8(chars);
    assert(encode_utf8(chars) =~= name) by {
        assert forall|i: int| 0 <= i < NAME_LEN implies encode_utf8(chars)[i] == name[i] by {
            assert(chars[i] as u8 == encode_utf8(chars)[i]);
            assert(name[i] < 128);
        }
    }
    encode_utf8_valid_utf8(chars);
    encode_utf8_decode_utf8(chars);
}

/// What a module's parser is told of the module: the name and the version
/// that the identifier packs.
pub fn module_identity(id: u64) -> (told: (String, usize))
    ensures
        told.0@ == decode_utf8(module_name(id)),
        told.1 == module_version(id),
{
    proof {
        lemma_module_name_is_text(id);
    }
    let version: usize = (id % 1024) as usize;
    match string_of(name_of(id)) {
        Some(name) => (name, version),
        None => unreached(),
    }
}

// ---------------------------------------------------------------------------
// The items
// ---------------------------------------------------------------------------

/// An unsigned 64-bit number read as two's complement.
pub open spec fn as_signed(value: u64) -> i64 {
    if value >= 0x8000_0000_0000_0000 {
        (value - 0x1_0000_0000_0000_0000) as i64
    } else {
        value as i64
    }
}

/// One item of a module's data, or `None` for the mark that closes it.
///
/// A mark is written as a length. A number follows its mark as a length
/// too, a float as four or eight bytes, least significant first, a string as
/// a string. A mark that is none of these is malformed.
#[verifier::opaque]
pub open spec fn parse_module_item(s: Seq<u8>) -> Parsed<Option<ItemModel>> {
    match parse_length(s) {
        Ok(((mark, _), rest)) => if mark == MODULE_EOF {
            Ok((None, rest))
        } else if mark == MODULE_SINT {
            match parse_length(rest) {
                Ok(((value, _), after)) => Ok((Some(ItemModel::Signed(as_signed(value))), after)),
                Err(e) => Err(e),
            }
        } else if mark == MODULE_UINT {
            match parse_length(rest) {
                Ok(((value, _), after)) => Ok((Some(ItemModel::Unsigned(value)), after)),
                Err(e) => Err(e),
            }
        } else if mark == MODULE_FLOAT {
            match take_exact(rest, 4) {
                Ok((bytes, after)) => Ok((Some(ItemModel::Float(le_value(bytes) as u32)), after)),
                Err(e) => Err(e),
            }
        } else if mark == MODULE_DOUBLE {
            match take_exact(rest, 8) {
                Ok((bytes, after)) => Ok((Some(ItemModel::Double(le_value(bytes) as u64)), after)),
                Err(e) => Err(e),
            }
        } else if mark == MODULE_STRING {
            match parse_string(rest) {
                Ok((bytes, after)) => Ok((Some(ItemModel::Bytes(bytes)), after)),
                Err(e) => Err(e),
            }
        } else {
            Err(RedisSyncError::Encoding)
        },
        Err(e) => Err(e),
    }
}

/// `first` put before the items of a parsed run.
pub open spec fn items_after(first: Seq<ItemModel>, tail: Parsed<Seq<ItemModel>>) -> Parsed<
    Seq<ItemModel>,
> {
    match tail {
        Ok((items, rest)) => Ok((first + items, rest)),
        Err(e) => Err(e),
    }
}

/// The items of a module's data, up to the mark that closes it.
///
/// The test on lengths always holds, since an item takes at least one byte.
pub open spec fn parse_module_items(s: Seq<u8>) -> Parsed<Seq<ItemModel>>
    decreases s.len(),
{
    match parse_module_item(s) {
        Ok((Some(item), rest)) => if rest.len() < s.len() {
            items_after(seq![item], parse_module_items(rest))
        } else {
            Err(RedisSyncError::Encoding)
        },
        Ok((None, rest)) => Ok((Seq::empty(), rest)),
        Err(e) => Err(e),
    }
}

/// The data of a module: the identifier of the module, then its items.
pub open spec fn parse_module(s: Seq<u8>) -> Parsed<ModuleModel> {
    match parse_length(s) {
        Ok(((id, _), rest)) => match parse_module_items(rest) {
            Ok((items, after)) => Ok(
                (ModuleModel { name: module_name(id), version: module_version(id), items }, after),
            ),
            Err(e) => Err(e),
        },
        Err(e) => Err(e),
    }
}

/// An item, or the mark that closes the data, takes at least one byte.
pub proof fn lemma_module_item_shrinks(s: Seq<u8>)
    ensures
        parse_module_item(s) matches Ok((_, rest)) ==> rest.len() < s.len(),
{
    reveal(parse_module_item);
    lemma_length_shrinks(s);
    if let Ok((_, rest)) = parse_length(s) {
        lemma_length_shrinks(rest);
        lemma_string_shrinks(rest);
    }
}

/// The items of a module's data take at least one byte.
pub proof fn lemma_module_items_shrink(s: Seq<u8>)
    ensures
        parse_module_items(s) matches Ok((_, rest)) ==> rest.len() < s.len(),
    decreases s.len(),
{
    lemma_module_item_shrinks(s);
    if let Ok((Some(_), rest)) = parse_module_item(s) {
        lemma_module_items_shrink(rest);
    }
}

/// The data of a module takes at least two bytes.
pub proof fn lemma_module_shrinks(s: Seq<u8>)
    ensures
        parse_module(s) matches Ok((_, rest)) ==> rest.len() + 2 <= s.len(),
{
    lemma_length_shrinks(s);
    if let Ok((_, rest)) = parse_length(s) {
        lemma_module_items_shrink(rest);
    }
}

/// Reads one item of a module's data; `None` for the mark that closes it.
pub fn module_item_from<R: ByteSource>(src: &mut R) -> (r: Result<Option<ModuleItem>, RedisSyncError>)
    ensures
        settles(
            modeled(
                r,
                |found: Option<ModuleItem>|
                    match found {
                        Some(item) => Some(item@),
                        None => None,
                    },
            ),
            old(src).feed(),
            final(src).feed(),
            parse_module_item(old(src).feed().pending),
        ),
{
    proof {
        reveal(parse_module_item);
        lemma_length_shrinks(src.feed().pending);
    }
    let mark = match length_from(src) {
        Ok((mark, _)) => mark,
        Err(e) => {
            return Err(e);
        },
    };
    proof {
        lemma_length_shrinks(src.feed().pending);
        lemma_string_shrinks(src.feed().pending);
    }
    if mark == MODULE_EOF {
        Ok(None)
    } else if mark == MODULE_SINT {
        match length_from(src) {
            Ok((value, _)) => {
                let signed: i64 = if value >= 0x8000_0000_0000_0000 {
                    ((value - 0x8000_0000_0000_0000) as i64) + i64::MIN
                } else {
                    value as i64
                };
                Ok(Some(ModuleItem::Signed(signed)))
            },
            Err(e) => Err(e),
        }
    } else if mark == MODULE_UINT {
        match length_from(src) {
            Ok((value, _)) => Ok(Some(ModuleItem::Unsigned(value))),
            Err(e) => Err(e),
        }
    } else if mark == MODULE_FLOAT {
        match src.read_exact(4) {
            Ok(bytes) => {
                proof {
                    lemma_le_value_bound(bytes@);
                    lemma_radix_values();
                }
                Ok(Some(ModuleItem::Float(le_uint(bytes.as_slice()) as u32)))
            },
            Err(e) => Err(e),
        }
    } else if mark == MODULE_DOUBLE {
        match src.read_exact(8) {
            Ok(bytes) => Ok(Some(ModuleItem::Double(le_uint(bytes.as_slice())))),
            Err(e) => Err(e),
        }
    } else if mark == MODULE_STRING {
        match string_from(src) {
            Ok(bytes) => Ok(Some(ModuleItem::Bytes(bytes))),
            Err(e) => Err(e),
        }
    } else {
        Err(RedisSyncError::Encoding)
    }
}

/// Reads the items of a module's data, up to the mark that closes it.
pub fn module_items_from<R: ByteSource>(src: &mut R) -> (r: Result<Vec<ModuleItem>, RedisSyncError>)
    ensures
        settles(
            modeled(r, |items: Vec<ModuleItem>| item_models(items@)),
            old(src).feed(),
            final(src).feed(),
            parse_module_items(old(src).feed().pending),
        ),
{
    let mut items: Vec<ModuleItem> = Vec::new();
    proof {
        assert(item_models(items@) =~= Seq::<ItemModel>::empty());
        match parse_module_items(src.feed().pending) {
            Ok((all, _)) => {
                assert(Seq::<ItemModel>::empty() + all =~= all);
            },
            Err(_) => {},
        }
    }
    loop
        invariant
            src.feed().pending.len() <= old(src).feed().pending.len(),
            src.feed().meter == metered(
                old(src).feed().meter,
                old(src).feed().pending.len() - src.feed().pending.len(),
            ),
            parse_module_items(old(src).feed().pending) == items_after(
                item_models(items@),
                parse_module_items(src.feed().pending),
            ),
        decreases src.feed().pending.len(),
    {
        let ghost done = item_models(items@);
        proof {
            lemma_module_item_shrinks(src.feed().pending);
        }
        match module_item_from(src) {
            Ok(Some(item)) => {
                let ghost model = item@;
                items.push(item);
                proof {
                    assert(item_models(items@) =~= done.push(model));
                    match parse_module_items(src.feed().pending) {
                        Ok((rest, _)) => {
                            assert(done + (seq![model] + rest) =~= done.push(model) + rest);
                        },
                        Err(_) => {},
                    }
                }
            },
            Ok(None) => {
                assert(done + Seq::<ItemModel>::empty() =~= done);
                return Ok(items);
            },
            Err(e) => {
                return Err(e);
            },
        }
    }
}

/// Reads the data of a module.
pub fn module_from<R: ByteSource>(src: &mut R) -> (r: Result<ModuleData, RedisSyncError>)
    ensures
        agrees(r, old(src).feed(), final(src).feed(), parse_module(old(src).feed().pending)),
{
    proof {
        lemma_length_shrinks(src.feed().pending);
    }
    let id = match length_from(src) {
        Ok((id, _)) => id,
        Err(e) => {
            return Err(e);
        },
    };
    proof {
        lemma_module_items_shrink(src.feed().pending);
    }
    match module_items_from(src) {
        Ok(items) => Ok(ModuleData { name: name_of(id), version: id % 1024, items }),
        Err(e) => Err(e),
    }
}

/// Reads the identifier of a module and has `parser` read what the module
/// has written.
///
/// `parser` is asked exactly where the identifier can be read: once, with
/// the name and the version that the identifier packs and with the source
/// as the identifier has left it, and what it returns is the result. What
/// it makes of the data, and where it leaves `src`, is its own business.
/// Where the identifier cannot be read, that failure is returned and
/// `parser` is not asked.
pub fn module_with<R: ByteSource, M: ModuleParser>(src: &mut R, parser: &mut M) -> (r: Result<
    M::Output,
    RedisSyncError,
>)
    ensures
        match parse_length(old(src).feed().pending) {
            Ok(((id, _), rest)) => r is Ok && final(parser).asked() == old(parser).asked().push(
                (Request {
                    name: decode_utf8(module_name(id)),
                    version: module_version(id) as nat,
                    data: rest,
                }),
            ),
            Err(e) => r matches Err(f) && f == e && final(parser).asked() == old(parser).asked(),
        },
{
    let id = match length_from(src) {
        Ok((id, _)) => id,
        Err(e) => {
            return Err(e);
        },
    };
    let told = module_identity(id);
    Ok(parser.parse(src, told.0.as_str(), told.1))
}

} // verus!
