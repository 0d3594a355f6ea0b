use redis_sync::error::RedisSyncError;
use redis_sync::io::ByteReader;
use redis_sync::iter::{IntSetIter, QuickListIter, SortedSetIter, StrValIter, ZipListIter, ZipMapIter};
use redis_sync::lzf::decompress;
use redis_sync::rdb::{
    length_from, read_zip_list_entry, read_zm_len, string_from, Field, Item, Score,
    INFINITY_BITS, NAN_BITS, NEG_INFINITY_BITS,
};

fn reader(bytes: &[u8]) -> ByteReader {
    ByteReader::new(bytes.to_vec())
}

#[test]
fn zip_map_two_fields_then_exhausted() {
    let mut bytes = Vec::new();
    // "name" => "ab", two unused bytes after the value
    bytes.extend_from_slice(&[4]);
    bytes.extend_from_slice(b"name");
    bytes.extend_from_slice(&[2, 2]);
    bytes.extend_from_slice(b"ab");
    bytes.extend_from_slice(&[0xaa, 0xbb]);
    // "k" => "value", nothing unused
    bytes.extend_from_slice(&[1]);
    bytes.extend_from_slice(b"k");
    bytes.extend_from_slice(&[5, 0]);
    bytes.extend_from_slice(b"value");
    bytes.push(255);
    let mut iter = ZipMapIter { has_more: true, cursor: reader(&bytes) };
    assert_eq!(
        iter.next(),
        Ok(Some(Field { name: b"name".to_vec(), value: b"ab".to_vec() }))
    );
    assert_eq!(
        iter.next(),
        Ok(Some(Field { name: b"k".to_vec(), value: b"value".to_vec() }))
    );
    assert_eq!(iter.next(), Ok(None));
    assert!(!iter.has_more);
    assert_eq!(iter.next(), Ok(None));
    assert_eq!(iter.cursor.remaining(), 0);
}

#[test]
fn zip_map_end_in_place_of_a_value() {
    let mut bytes = vec![3];
    bytes.extend_from_slice(b"key");
    bytes.push(255);
    bytes.extend_from_slice(b"rest");
    let mut iter = ZipMapIter { has_more: true, cursor: reader(&bytes) };
    assert_eq!(
        iter.next(),
        Ok(Some(Field { name: b"key".to_vec(), value: vec![] }))
    );
    assert!(!iter.has_more);
    assert_eq!(iter.next(), Ok(None));
    assert_eq!(iter.cursor.remaining(), 4);
}

#[test]
fn zip_map_wide_length_and_truncation() {
    // a name whose length is given in four bytes, least significant first
    let mut bytes = vec![254, 3, 0, 0, 0];
    bytes.extend_from_slice(b"abc");
    bytes.extend_from_slice(&[1, 0, b'x', 255]);
    let mut iter = ZipMapIter { has_more: true, cursor: reader(&bytes) };
    assert_eq!(
        iter.next(),
        Ok(Some(Field { name: b"abc".to_vec(), value: b"x".to_vec() }))
    );
    assert_eq!(iter.next(), Ok(None));

    let mut iter = ZipMapIter { has_more: true, cursor: reader(&[4, b'a', b'b']) };
    assert_eq!(iter.next(), Err(RedisSyncError::Encoding));
    let mut iter = ZipMapIter { has_more: true, cursor: reader(&[]) };
    assert_eq!(iter.next(), Err(RedisSyncError::Encoding));
    let mut iter = ZipMapIter { has_more: false, cursor: reader(&[1, b'a']) };
    assert_eq!(iter.next(), Ok(None));
    assert_eq!(iter.cursor.position(), 0);
}

#[test]
fn zip_map_unused_bytes_past_the_end() {
    let bytes = vec![1, b'a', 1, 200, b'b', 9, 9];
    let mut iter = ZipMapIter { has_more: true, cursor: reader(&bytes) };
    assert_eq!(
        iter.next(),
        Ok(Some(Field { name: b"a".to_vec(), value: b"b".to_vec() }))
    );
    assert!(iter.has_more);
    assert_eq!(iter.cursor.remaining(), 0);
    assert_eq!(iter.next(), Err(RedisSyncError::Encoding));
}

#[test]
fn int_set_four_byte_members() {
    let mut bytes = Vec::new();
    for v in [1i32, -2, 300] {
        bytes.extend_from_slice(&v.to_le_bytes());
    }
    let mut iter = IntSetIter { encoding: 4, count: 3, cursor: reader(&bytes) };
    assert_eq!(iter.next(), Ok(Some(b"1".to_vec())));
    assert_eq!(iter.next(), Ok(Some(b"-2".to_vec())));
    assert_eq!(iter.next(), Ok(Some(b"300".to_vec())));
    assert_eq!(iter.next(), Ok(None));
    assert_eq!(iter.count, 0);
}

#[test]
fn int_set_other_widths() {
    let mut bytes = Vec::new();
    bytes.extend_from_slice(&(-32768i16).to_le_bytes());
    bytes.extend_from_slice(&(32767i16).to_le_bytes());
    let mut iter = IntSetIter { encoding: 2, count: 2, cursor: reader(&bytes) };
    assert_eq!(iter.next(), Ok(Some(b"-32768".to_vec())));
    assert_eq!(iter.next(), Ok(Some(b"32767".to_vec())));
    assert_eq!(iter.next(), Ok(None));

    let mut bytes = Vec::new();
    bytes.extend_from_slice(&i64::MIN.to_le_bytes());
    bytes.extend_from_slice(&i64::MAX.to_le_bytes());
    bytes.extend_from_slice(&0i64.to_le_bytes());
    let mut iter = IntSetIter { encoding: 8, count: 3, cursor: reader(&bytes) };
    assert_eq!(iter.next(), Ok(Some(b"-9223372036854775808".to_vec())));
    assert_eq!(iter.next(), Ok(Some(b"9223372036854775807".to_vec())));
    assert_eq!(iter.next(), Ok(Some(b"0".to_vec())));

    let mut iter = IntSetIter { encoding: 3, count: 1, cursor: reader(&[1, 2, 3]) };
    assert_eq!(iter.next(), Err(RedisSyncError::Encoding));
    assert_eq!(iter.count, 1);
    let mut iter = IntSetIter { encoding: 4, count: 1, cursor: reader(&[1, 2, 3]) };
    assert_eq!(iter.next(), Err(RedisSyncError::Encoding));
    let mut iter = IntSetIter { encoding: 3, count: 0, cursor: reader(&[1, 2, 3]) };
    assert_eq!(iter.next(), Ok(None));
}

#[test]
fn str_val_iter_counts_down() {
    let mut input = reader(&[3, b'a', b'b', b'c', 0, 0xc0, 0xff, 9]);
    let mut iter = StrValIter { count: 3 };
    assert_eq!(iter.next(&mut input), Ok(Some(b"abc".to_vec())));
    assert_eq!(iter.next(&mut input), Ok(Some(vec![])));
    assert_eq!(iter.next(&mut input), Ok(Some(b"-1".to_vec())));
    assert_eq!(iter.count, 0);
    assert_eq!(iter.next(&mut input), Ok(None));
    assert_eq!(input.remaining(), 1);
    let mut iter = StrValIter { count: 1 };
    let mut input = reader(&[5, b'a']);
    assert_eq!(iter.next(&mut input), Err(RedisSyncError::Disconnect));
    assert_eq!(iter.count, 1);
}

#[test]
fn strings_in_every_encoding() {
    // 14-bit length
    let mut bytes = vec![0x41, 0x00];
    bytes.extend(std::iter::repeat(b'z').take(256));
    assert_eq!(string_from(&mut reader(&bytes)), Ok(vec![b'z'; 256]));
    // 32-bit length, most significant byte first
    let mut bytes = vec![0x80, 0, 0, 0, 2, b'h', b'i'];
    bytes.push(7);
    let mut r = reader(&bytes);
    assert_eq!(string_from(&mut r), Ok(b"hi".to_vec()));
    assert_eq!(r.remaining(), 1);
    // 64-bit length
    assert_eq!(
        string_from(&mut reader(&[0x81, 0, 0, 0, 0, 0, 0, 0, 1, b'q'])),
        Ok(b"q".to_vec())
    );
    // integers
    assert_eq!(string_from(&mut reader(&[0xc0, 0x80])), Ok(b"-128".to_vec()));
    assert_eq!(string_from(&mut reader(&[0xc1, 0x39, 0x30])), Ok(b"12345".to_vec()));
    assert_eq!(
        string_from(&mut reader(&[0xc2, 0xff, 0xff, 0xff, 0x7f])),
        Ok(b"2147483647".to_vec())
    );
    // compressed: one literal run "hello"
    assert_eq!(
        string_from(&mut reader(&[0xc3, 6, 5, 4, b'h', b'e', b'l', b'l', b'o'])),
        Ok(b"hello".to_vec())
    );
    // an encoding that does not exist, a length form that does not exist
    assert_eq!(string_from(&mut reader(&[0xc4, 0])), Err(RedisSyncError::Encoding));
    assert_eq!(string_from(&mut reader(&[0x82, 0])), Err(RedisSyncError::Encoding));
    assert_eq!(string_from(&mut reader(&[])), Err(RedisSyncError::Disconnect));
    assert_eq!(length_from(&mut reader(&[0x3f])), Ok((63, false)));
    assert_eq!(length_from(&mut reader(&[0x7f, 0xff])), Ok((16383, false)));
    assert_eq!(length_from(&mut reader(&[0xc3])), Ok((3, true)));
    assert_eq!(
        length_from(&mut reader(&[0x80, 1, 2, 3, 4])),
        Ok((0x01020304, false))
    );
}

#[test]
fn zip_list_entries() {
    // bytes with a 6-bit length
    assert_eq!(
        read_zip_list_entry(&mut reader(&[0, 2, b'o', b'k'])),
        Ok(b"ok".to_vec())
    );
    // the length of the entry before in five bytes
    assert_eq!(
        read_zip_list_entry(&mut reader(&[254, 1, 2, 3, 4, 1, b'x'])),
        Ok(b"x".to_vec())
    );
    // 14-bit and 32-bit lengths
    let mut bytes = vec![0, 0x41, 0x02];
    bytes.extend(std::iter::repeat(b'y').take(258));
    assert_eq!(read_zip_list_entry(&mut reader(&bytes)), Ok(vec![b'y'; 258]));
    assert_eq!(
        read_zip_list_entry(&mut reader(&[0, 0x80, 0, 0, 0, 1, b'w'])),
        Ok(b"w".to_vec())
    );
    // integers
    assert_eq!(read_zip_list_entry(&mut reader(&[0, 0xfe, 0xff])), Ok(b"-1".to_vec()));
    assert_eq!(
        read_zip_list_entry(&mut reader(&[0, 0xc0, 0x18, 0xfc])),
        Ok(b"-1000".to_vec())
    );
    assert_eq!(
        read_zip_list_entry(&mut reader(&[0, 0xf0, 0xc0, 0xbd, 0xf0])),
        Ok(b"-1000000".to_vec())
    );
    assert_eq!(
        read_zip_list_entry(&mut reader(&[0, 0xd0, 0x00, 0x36, 0x65, 0xc4])),
        Ok(b"-1000000000".to_vec())
    );
    assert_eq!(
        read_zip_list_entry(&mut reader(&[0, 0xe0, 1, 0, 0, 0, 0, 0, 0, 0x80])),
        Ok(b"-9223372036854775807".to_vec())
    );
    assert_eq!(read_zip_list_entry(&mut reader(&[0, 0xf1])), Ok(b"0".to_vec()));
    assert_eq!(read_zip_list_entry(&mut reader(&[0, 0xfd])), Ok(b"12".to_vec()));
    assert_eq!(
        read_zip_list_entry(&mut reader(&[0, 0xff])),
        Err(RedisSyncError::Encoding)
    );
    assert_eq!(
        read_zip_list_entry(&mut reader(&[0, 0xc1])),
        Err(RedisSyncError::Encoding)
    );
    assert_eq!(read_zip_list_entry(&mut reader(&[0])), Err(RedisSyncError::Disconnect));
    assert_eq!(read_zm_len(&mut reader(&[253])), Ok(253));
    assert_eq!(read_zm_len(&mut reader(&[255])), Ok(255));
    assert_eq!(read_zm_len(&mut reader(&[254, 0x10, 0x27, 0, 0])), Ok(10000));
}

#[test]
fn zip_list_iter_counts_down() {
    let mut iter = ZipListIter {
        count: 2,
        cursor: reader(&[0, 1, b'a', 3, 0xf3, 3, 1, b'z']),
    };
    assert_eq!(iter.next(), Ok(Some(b"a".to_vec())));
    assert_eq!(iter.next(), Ok(Some(b"2".to_vec())));
    assert_eq!(iter.next(), Ok(None));
    assert_eq!(iter.cursor.remaining(), 3);
    let mut iter = ZipListIter { count: 1, cursor: reader(&[0, 4, b'a']) };
    assert_eq!(iter.next(), Err(RedisSyncError::Encoding));
    assert_eq!(iter.count, 1);
}

#[test]
fn sorted_set_pairs_in_both_formats() {
    let mut input = reader(&[1, b'a', 3, b'1', b'.', b'5', 1, b'b', 255, 1, b'c', 254, 1, b'd', 253]);
    let mut iter = SortedSetIter { count: 4, v: 1 };
    assert_eq!(
        iter.next(&mut input),
        Ok(Some(Item { member: b"a".to_vec(), score: Score::Text(b"1.5".to_vec()) }))
    );
    assert_eq!(
        iter.next(&mut input),
        Ok(Some(Item { member: b"b".to_vec(), score: Score::Bits(NEG_INFINITY_BITS) }))
    );
    assert_eq!(
        iter.next(&mut input),
        Ok(Some(Item { member: b"c".to_vec(), score: Score::Bits(INFINITY_BITS) }))
    );
    assert_eq!(
        iter.next(&mut input),
        Ok(Some(Item { member: b"d".to_vec(), score: Score::Bits(NAN_BITS) }))
    );
    assert_eq!(iter.next(&mut input), Ok(None));
    assert_eq!(f64::from_bits(NEG_INFINITY_BITS), f64::NEG_INFINITY);
    assert_eq!(f64::from_bits(INFINITY_BITS), f64::INFINITY);
    assert!(f64::from_bits(NAN_BITS).is_nan());

    let mut bytes = vec![2, b'm', b'n'];
    bytes.extend_from_slice(&2.5f64.to_bits().to_le_bytes());
    let mut input = reader(&bytes);
    let mut iter = SortedSetIter { count: 1, v: 2 };
    assert_eq!(
        iter.next(&mut input),
        Ok(Some(Item { member: b"mn".to_vec(), score: Score::Bits(2.5f64.to_bits()) }))
    );
    assert_eq!(iter.next(&mut input), Ok(None));
    let mut iter = SortedSetIter { count: 1, v: 2 };
    assert_eq!(iter.next(&mut reader(&[1, b'm', 0, 0])), Err(RedisSyncError::Disconnect));
    assert_eq!(iter.count, 1);
}

fn node(entries: &[&[u8]]) -> Vec<u8> {
    // a packed list: eight bytes of header, the number of entries, the entries, the end mark
    let mut list = vec![0u8; 8];
    list.extend_from_slice(&(entries.len() as u16).to_le_bytes());
    for e in entries {
        list.push(0);
        list.push(e.len() as u8);
        list.extend_from_slice(e);
    }
    list.push(255);
    // wrapped in a string
    let mut out = vec![list.len() as u8];
    out.extend_from_slice(&list);
    out
}

#[test]
fn quick_list_walks_its_nodes() {
    let mut bytes = Vec::new();
    bytes.extend(node(&[b"a", b"b"]));
    bytes.extend(node(&[]));
    bytes.extend(node(&[]));
    bytes.extend(node(&[b"c"]));
    bytes.extend_from_slice(b"tail");
    let mut input = reader(&bytes);
    let mut iter = QuickListIter { len: -1, count: 4, cursor: None };
    assert!(iter.has_more());
    assert_eq!(iter.next(&mut input), Ok(Some(b"a".to_vec())));
    assert_eq!(iter.len, 1);
    assert_eq!(iter.count, 4);
    assert_eq!(iter.next(&mut input), Ok(Some(b"b".to_vec())));
    assert_eq!(iter.len, -1);
    assert_eq!(iter.count, 3);
    assert_eq!(iter.next(&mut input), Ok(Some(b"c".to_vec())));
    assert_eq!(iter.count, 0);
    assert!(!iter.has_more());
    assert_eq!(iter.next(&mut input), Ok(None));
    assert_eq!(input.remaining(), 4);
}

#[test]
fn quick_list_of_empty_nodes_only() {
    let mut bytes = Vec::new();
    for _ in 0..1000 {
        bytes.extend(node(&[]));
    }
    let mut input = reader(&bytes);
    let mut iter = QuickListIter { len: -1, count: 1000, cursor: None };
    assert_eq!(iter.next(&mut input), Ok(None));
    assert_eq!(iter.count, 0);
    assert_eq!(input.remaining(), 0);
}

#[test]
fn quick_list_failures() {
    // the snapshot ends before the node
    let mut iter = QuickListIter { len: -1, count: 1, cursor: None };
    assert_eq!(iter.next(&mut reader(&[9, 1, 2])), Err(RedisSyncError::Disconnect));
    // the node is too short to hold its header
    let mut iter = QuickListIter { len: -1, count: 1, cursor: None };
    assert_eq!(iter.next(&mut reader(&[3, 1, 2, 3])), Err(RedisSyncError::Encoding));
    // the node announces an entry that is not there
    let mut short = vec![0u8; 8];
    short.extend_from_slice(&[1, 0]);
    let mut bytes = vec![short.len() as u8];
    bytes.extend(short);
    let mut iter = QuickListIter { len: -1, count: 1, cursor: None };
    assert_eq!(iter.next(&mut reader(&bytes)), Err(RedisSyncError::Encoding));
    // nothing left
    let mut iter = QuickListIter { len: -1, count: 0, cursor: None };
    assert_eq!(iter.next(&mut reader(&[1, 2])), Ok(None));
}

#[test]
fn lzf_literal_run() {
    assert_eq!(decompress(&[2, b'a', b'b', b'c'], 3), Ok(b"abc".to_vec()));
    // asked for less, or for more, than the run holds
    assert_eq!(decompress(&[2, b'a', b'b', b'c'], 2), Err(RedisSyncError::Encoding));
    assert_eq!(decompress(&[2, b'a', b'b', b'c'], 4), Err(RedisSyncError::Encoding));
    // a run that is cut short
    assert_eq!(decompress(&[2, b'a', b'b'], 3), Err(RedisSyncError::Encoding));
    let literal: Vec<u8> = (0..32u8).collect();
    let mut input = vec![31];
    input.extend_from_slice(&literal);
    assert_eq!(decompress(&input, 32), Ok(literal));
    assert_eq!(decompress(&[], 0), Ok(vec![]));
    assert_eq!(decompress(&[], 1), Err(RedisSyncError::Encoding));
}

#[test]
fn lzf_back_references() {
    // "ab" then a copy of 4 bytes from 2 back: overlapping
    assert_eq!(
        decompress(&[1, b'a', b'b', 0x40, 1], 6),
        Ok(b"ababab".to_vec())
    );
    // a long reference: 7 + 3 + 2 = 12 bytes from 1 back
    assert_eq!(
        decompress(&[0, b'x', 0xe0, 3, 0], 13),
        Ok(vec![b'x'; 13])
    );
    // an offset with a high part: 256 + 0 + 1 back
    let mut input = vec![31];
    input.extend((0..32u8).map(|i| i));
    for _ in 0..7 {
        input.push(31);
        input.extend((0..32u8).map(|i| 100 + i));
    }
    input.push(0);
    input.push(b'!');
    input.extend_from_slice(&[0x21, 0x00]);
    let out = decompress(&input, 257 + 3).unwrap();
    assert_eq!(out.len(), 260);
    assert_eq!(&out[257..], &[0, 1, 2]);
    // a reference to before the start of the output
    assert_eq!(decompress(&[0, b'a', 0x20, 1], 4), Err(RedisSyncError::Encoding));
    // a reference that is cut short
    assert_eq!(decompress(&[0, b'a', 0x20], 4), Err(RedisSyncError::Encoding));
    assert_eq!(decompress(&[0, b'a', 0xe0, 1], 4), Err(RedisSyncError::Encoding));
    // more output than expected
    assert_eq!(decompress(&[0, b'a', 0x40, 0], 3), Err(RedisSyncError::Encoding));
}
