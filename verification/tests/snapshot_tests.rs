use redis_sync::cmd::Command;
use redis_sync::config::Config;
use redis_sync::connect::{
    capa_request, listening_port_request, ping_request, psync_request, Connect, Connection,
};
use redis_sync::error::RedisSyncError;
use redis_sync::io::{skip, ByteReader, CountReader};
use redis_sync::io::ByteSource;
use redis_sync::module::{
    module_from, module_identity, module_with, name_of, ModuleData, ModuleItem,
};
use redis_sync::listpack::listpack_entries;
use redis_sync::rdb::{Field, Item, Score};
use redis_sync::stream::{
    block_entries, node_entries, stream_from, Consumer, Counters, Entry, Group, Pending,
    StreamData, StreamId,
};
use redis_sync::{Module, ModuleParser, Requests};
use redis_sync::replica::Replica;
use redis_sync::resp::{encode_request, Resp, RespDecode};
use redis_sync::snapshot::{
    encoding_for, parse, value_from, Encoding, Evict, EvictType, Expire, ExpireType, Meta, Object,
    SnapshotReader, Value,
};
use redis_sync::{Event, EventHandler, Received, RedisListener};

fn string(bytes: &[u8]) -> Vec<u8> {
    assert!(bytes.len() < 64);
    let mut out = vec![bytes.len() as u8];
    out.extend_from_slice(bytes);
    out
}

fn zip_list(entries: &[&[u8]]) -> Vec<u8> {
    let mut list = vec![0u8; 8];
    list.extend_from_slice(&(entries.len() as u16).to_le_bytes());
    for e in entries {
        list.push(0);
        list.push(e.len() as u8);
        list.extend_from_slice(e);
    }
    list.push(255);
    list
}

fn no_meta(db: u64) -> Meta {
    Meta { db, expire: None, evict: None }
}

fn sample() -> (Vec<u8>, Vec<Object>) {
    let mut s = b"REDIS0009".to_vec();
    let mut want = Vec::new();
    // a piece of information
    s.push(250);
    s.extend(string(b"redis-ver"));
    s.extend(string(b"6.0.9"));
    // database 3, with a hint of its size
    s.extend_from_slice(&[254, 3, 251, 12, 1]);
    // a string that expires, in milliseconds
    s.push(252);
    s.extend_from_slice(&1_700_000_000_123i64.to_le_bytes());
    s.push(0);
    s.extend(string(b"k"));
    s.extend(string(b"v"));
    want.push(Object {
        key: b"k".to_vec(),
        value: Value::String(b"v".to_vec()),
        meta: Meta {
            db: 3,
            expire: Some(Expire { unit: ExpireType::Millisecond, at: 1_700_000_000_123 }),
            evict: None,
        },
    });
    // a list with a hint of how often it was used; the expiry is gone
    s.extend_from_slice(&[249, 5, 1]);
    s.extend(string(b"l"));
    s.push(2);
    s.extend(string(b"a"));
    s.extend(string(b"b"));
    want.push(Object {
        key: b"l".to_vec(),
        value: Value::List(vec![b"a".to_vec(), b"b".to_vec()]),
        meta: Meta { db: 3, expire: None, evict: Some(Evict { kind: EvictType::Lfu, value: 5 }) },
    });
    // a set that expires, in seconds, and has been idle
    s.push(253);
    s.extend_from_slice(&1_700_000_000i32.to_le_bytes());
    s.extend_from_slice(&[248, 0x41, 0x00, 2]);
    s.extend(string(b"s"));
    s.push(1);
    s.extend_from_slice(&[0xc0, 7]);
    want.push(Object {
        key: b"s".to_vec(),
        value: Value::Members(vec![b"7".to_vec()]),
        meta: Meta {
            db: 3,
            expire: Some(Expire { unit: ExpireType::Second, at: 1_700_000_000 }),
            evict: Some(Evict { kind: EvictType::Lru, value: 256 }),
        },
    });
    // another database; sorted sets in both formats
    s.extend_from_slice(&[254, 0, 3]);
    s.extend(string(b"z"));
    s.push(1);
    s.extend(string(b"m"));
    s.extend_from_slice(&[3, b'1', b'.', b'5']);
    want.push(Object {
        key: b"z".to_vec(),
        value: Value::SortedSet(vec![Item {
            member: b"m".to_vec(),
            score: Score::Text(b"1.5".to_vec()),
        }]),
        meta: no_meta(0),
    });
    s.push(5);
    s.extend(string(b"z2"));
    s.push(1);
    s.extend(string(b"m"));
    s.extend_from_slice(&(-2.0f64).to_bits().to_le_bytes());
    want.push(Object {
        key: b"z2".to_vec(),
        value: Value::SortedSet(vec![Item {
            member: b"m".to_vec(),
            score: Score::Bits((-2.0f64).to_bits()),
        }]),
        meta: no_meta(0),
    });
    // hashes: string by string, as a packed map, as a packed list
    s.push(4);
    s.extend(string(b"h"));
    s.push(2);
    for part in [&b"f1"[..], b"v1", b"f2", b"v2"] {
        s.extend(string(part));
    }
    let fields = vec![
        Field { name: b"f1".to_vec(), value: b"v1".to_vec() },
        Field { name: b"f2".to_vec(), value: b"v2".to_vec() },
    ];
    want.push(Object { key: b"h".to_vec(), value: Value::Hash(fields), meta: no_meta(0) });
    s.push(9);
    s.extend(string(b"hm"));
    s.extend(string(&[1, 1, b'f', 1, 0, b'v', 255]));
    want.push(Object {
        key: b"hm".to_vec(),
        value: Value::Hash(vec![Field { name: b"f".to_vec(), value: b"v".to_vec() }]),
        meta: no_meta(0),
    });
    s.push(13);
    s.extend(string(b"hz"));
    s.extend(string(&zip_list(&[b"n", b"x"])));
    want.push(Object {
        key: b"hz".to_vec(),
        value: Value::Hash(vec![Field { name: b"n".to_vec(), value: b"x".to_vec() }]),
        meta: no_meta(0),
    });
    // packed list, packed set of integers, packed sorted set
    s.push(10);
    s.extend(string(b"lz"));
    s.extend(string(&zip_list(&[b"one", b"two"])));
    want.push(Object {
        key: b"lz".to_vec(),
        value: Value::List(vec![b"one".to_vec(), b"two".to_vec()]),
        meta: no_meta(0),
    });
    s.push(11);
    s.extend(string(b"is"));
    let mut set = Vec::new();
    set.extend_from_slice(&2u32.to_le_bytes());
    set.extend_from_slice(&3u32.to_le_bytes());
    for v in [-5i16, 0, 1000] {
        set.extend_from_slice(&v.to_le_bytes());
    }
    s.extend(string(&set));
    want.push(Object {
        key: b"is".to_vec(),
        value: Value::Members(vec![b"-5".to_vec(), b"0".to_vec(), b"1000".to_vec()]),
        meta: no_meta(0),
    });
    s.push(12);
    s.extend(string(b"zz"));
    s.extend(string(&zip_list(&[b"a", b"1", b"b", b"2.5"])));
    want.push(Object {
        key: b"zz".to_vec(),
        value: Value::SortedSet(vec![
            Item { member: b"a".to_vec(), score: Score::Text(b"1".to_vec()) },
            Item { member: b"b".to_vec(), score: Score::Text(b"2.5".to_vec()) },
        ]),
        meta: no_meta(0),
    });
    // a list of packed lists, one of them empty
    s.push(14);
    s.extend(string(b"ql"));
    s.push(3);
    s.extend(string(&zip_list(&[b"x"])));
    s.extend(string(&zip_list(&[])));
    s.extend(string(&zip_list(&[b"y", b"z"])));
    want.push(Object {
        key: b"ql".to_vec(),
        value: Value::List(vec![b"x".to_vec(), b"y".to_vec(), b"z".to_vec()]),
        meta: no_meta(0),
    });
    // the end and its checksum
    s.push(255);
    s.extend_from_slice(&[1, 2, 3, 4, 5, 6, 7, 8]);
    (s, want)
}

struct Collector {
    objects: Vec<Object>,
    commands: Vec<usize>,
}

impl EventHandler for Collector {
    // Proofs alone speak of this record; nothing that runs asks for it.
    fn received(&self) -> Received {
        unreachable!()
    }

    fn handle(&mut self, event: Event) {
        match event {
            Event::RDB(object) => self.objects.push(object),
            Event::AOF(Command::Other(all)) => self.commands.push(all.len()),
            Event::AOF(_) => self.commands.push(0),
        }
    }
}

#[test]
fn snapshot_objects_one_by_one() {
    let (bytes, want) = sample();
    let mut src = ByteReader::new(bytes);
    let mut reader = SnapshotReader::begin(&mut src).unwrap();
    assert_eq!(reader.version, 9);
    for w in &want {
        let got = reader.next(&mut src).unwrap().unwrap();
        assert_eq!(&got, w);
    }
    assert_eq!(reader.next(&mut src), Ok(None));
    assert!(reader.done);
    assert_eq!(src.remaining(), 0);
    assert_eq!(reader.next(&mut src), Ok(None));
}

#[test]
fn snapshot_goes_to_the_handler_and_stops_at_its_end() {
    let (mut bytes, want) = sample();
    bytes.extend_from_slice(b"*1\r\n$4\r\nPING\r\n");
    let mut src = ByteReader::new(bytes);
    let mut handler = Collector { objects: vec![], commands: vec![] };
    assert_eq!(parse(&mut src, &mut handler), Ok(()));
    assert_eq!(handler.objects, want);
    assert_eq!(src.remaining(), 14);
}

#[test]
fn old_snapshots_have_no_checksum() {
    let mut bytes = b"REDIS0004".to_vec();
    bytes.push(0);
    bytes.extend(string(b"a"));
    bytes.extend(string(b"b"));
    bytes.push(255);
    bytes.extend_from_slice(b"next");
    let mut src = ByteReader::new(bytes);
    let mut handler = Collector { objects: vec![], commands: vec![] };
    assert_eq!(parse(&mut src, &mut handler), Ok(()));
    assert_eq!(handler.objects.len(), 1);
    assert_eq!(handler.objects[0].meta, no_meta(0));
    assert_eq!(src.remaining(), 4);
}

#[test]
fn malformed_snapshots() {
    let mut handler = Collector { objects: vec![], commands: vec![] };
    for (bytes, want) in [
        (&b"REDIS00"[..], RedisSyncError::Disconnect),
        (b"RADIS0009", RedisSyncError::Encoding),
        (b"REDIS00a9", RedisSyncError::Encoding),
        (b"REDIS0009", RedisSyncError::Disconnect),
        (b"REDIS0009\xff\x01\x02", RedisSyncError::Disconnect),
        // a module, a stream, a tag that does not exist
        (b"REDIS0009\x06", RedisSyncError::Encoding),
        (b"REDIS0009\x16", RedisSyncError::Encoding),
        // a packed list of the newer kind without its end
        (b"REDIS0009\x14\x01k\x08\x00\x00\x00\x00\x00\x00\x01\x01", RedisSyncError::Encoding),
        // a stream that breaks off after its key
        (b"REDIS0009\x0f\x01k", RedisSyncError::Disconnect),
        // what a module keeps beside the keys, cut short; with a mark that does not exist
        (b"REDIS0009\xf7", RedisSyncError::Disconnect),
        (b"REDIS0009\xf7\x01\x09", RedisSyncError::Encoding),
        (b"REDIS0009\x63", RedisSyncError::Encoding),
        // a key without a value
        (b"REDIS0009\x00\x01k", RedisSyncError::Disconnect),
        // a packed list that ends too early
        (b"REDIS0009\x0a\x01k\x03abc", RedisSyncError::Encoding),
        // a hash as a packed list with a name but no value
        (
            b"REDIS0009\x0d\x01k\x0e\x00\x00\x00\x00\x00\x00\x00\x00\x01\x00\x00\x01n\xff",
            RedisSyncError::Encoding,
        ),
    ] {
        let mut src = ByteReader::new(bytes.to_vec());
        assert_eq!(parse(&mut src, &mut handler), Err(want), "{:?}", bytes);
    }
    assert!(handler.objects.is_empty());
}

#[test]
fn type_tags() {
    assert_eq!(encoding_for(0), Some(Encoding::String));
    assert_eq!(encoding_for(1), Some(Encoding::List));
    assert_eq!(encoding_for(2), Some(Encoding::Members));
    assert_eq!(encoding_for(3), Some(Encoding::SortedSet));
    assert_eq!(encoding_for(4), Some(Encoding::Hash));
    assert_eq!(encoding_for(5), Some(Encoding::SortedSet2));
    assert_eq!(encoding_for(9), Some(Encoding::HashZipMap));
    assert_eq!(encoding_for(10), Some(Encoding::ListZipList));
    assert_eq!(encoding_for(11), Some(Encoding::SetIntSet));
    assert_eq!(encoding_for(12), Some(Encoding::SortedSetZipList));
    assert_eq!(encoding_for(13), Some(Encoding::HashZipList));
    assert_eq!(encoding_for(14), Some(Encoding::ListQuickList));
    assert_eq!(encoding_for(7), Some(Encoding::Module));
    assert_eq!(encoding_for(15), Some(Encoding::Stream));
    assert_eq!(encoding_for(19), Some(Encoding::Stream2));
    assert_eq!(encoding_for(21), Some(Encoding::Stream3));
    assert_eq!(encoding_for(16), Some(Encoding::HashListPack));
    assert_eq!(encoding_for(17), Some(Encoding::SortedSetListPack));
    assert_eq!(encoding_for(18), Some(Encoding::ListQuickList2));
    assert_eq!(encoding_for(20), Some(Encoding::SetListPack));
    for tag in [6u8, 8, 22, 100, 247, 255] {
        assert_eq!(encoding_for(tag), None);
    }
}

#[test]
fn values_by_encoding() {
    let mut src = ByteReader::new(vec![0]);
    assert_eq!(value_from(&mut src, Encoding::List), Ok(Value::List(vec![])));
    let mut src = ByteReader::new(vec![0]);
    assert_eq!(value_from(&mut src, Encoding::Hash), Ok(Value::Hash(vec![])));
    let mut src = ByteReader::new(vec![0, 9]);
    assert_eq!(value_from(&mut src, Encoding::ListQuickList), Ok(Value::List(vec![])));
    assert_eq!(src.remaining(), 1);
    // a packed set of integers of a width that does not exist
    let mut set = Vec::new();
    set.extend_from_slice(&3u32.to_le_bytes());
    set.extend_from_slice(&1u32.to_le_bytes());
    set.extend_from_slice(&[1, 2, 3]);
    let mut src = ByteReader::new(string(&set));
    assert_eq!(value_from(&mut src, Encoding::SetIntSet), Err(RedisSyncError::Encoding));
    // a packed sorted set with a member but no score
    let mut src = ByteReader::new(string(&zip_list(&[b"a"])));
    assert_eq!(value_from(&mut src, Encoding::SortedSetZipList), Err(RedisSyncError::Encoding));
    // an empty string holds no packed map
    let mut src = ByteReader::new(vec![0]);
    assert_eq!(value_from(&mut src, Encoding::HashZipMap), Err(RedisSyncError::Encoding));
    // a run of strings that the snapshot does not hold
    let mut src = ByteReader::new(vec![3, 1, b'a']);
    assert_eq!(value_from(&mut src, Encoding::Members), Err(RedisSyncError::Disconnect));
}

fn replica(incoming: Vec<u8>, config: &Config) -> Replica<ByteReader, Vec<u8>, Collector> {
    Replica::new(
        ByteReader::new(incoming),
        Vec::new(),
        Collector { objects: vec![], commands: vec![] },
        config,
        "10.0.0.5".to_string(),
        6380,
    )
}

fn words(all: &[&str]) -> Vec<Vec<u8>> {
    all.iter().map(|w| w.as_bytes().to_vec()).collect()
}

#[test]
fn full_sync_then_commands() {
    let (snapshot, want) = sample();
    let mut incoming = b"+PONG\r\n+OK\r\n+OK\r\n+OK\r\n".to_vec();
    incoming.extend_from_slice(b"+FULLRESYNC 8f3a 5000\r\n$");
    incoming.extend_from_slice(snapshot.len().to_string().as_bytes());
    incoming.extend_from_slice(b"\r\n");
    incoming.extend_from_slice(&snapshot);
    let first = encode_request(&words(&["SELECT", "0"]));
    let second = encode_request(&words(&["SET", "a", "b"]));
    incoming.extend_from_slice(&first);
    incoming.extend_from_slice(&second);
    let mut r = replica(incoming, &Config::default());
    assert_eq!(r.repl_offset, -1);
    assert_eq!(r.repl_id, "?");
    assert_eq!(r.start(), Err(RedisSyncError::Disconnect));
    assert_eq!(r.handler.objects, want);
    assert_eq!(r.handler.commands, vec![2, 3]);
    assert_eq!(r.repl_offset, 5000 + (first.len() + second.len()) as i64);
    assert_eq!(r.repl_id, "8f3a");
    let mut sent = ping_request();
    sent.extend(listening_port_request(6380));
    sent.extend(redis_sync::connect::ip_address_request("10.0.0.5"));
    sent.extend(capa_request());
    sent.extend(psync_request("?", "-1"));
    assert_eq!(r.connection.writer, sent);
}

#[test]
fn full_sync_without_a_length_skips_the_delimiter() {
    let (snapshot, want) = sample();
    let delimiter = [b'e'; 40];
    let mut incoming = b"+OK\r\n+PONG\r\n+OK\r\n+OK\r\n+OK\r\n".to_vec();
    incoming.extend_from_slice(b"+FULLRESYNC abc 7\r\n$EOF:");
    incoming.extend_from_slice(&delimiter);
    incoming.extend_from_slice(b"\r\n");
    incoming.extend_from_slice(&snapshot);
    incoming.extend_from_slice(&delimiter);
    let command = encode_request(&words(&["DEL", "k"]));
    incoming.extend_from_slice(&command);
    let mut config = Config::default();
    config.password = Some("secret".to_string());
    let mut r = replica(incoming, &config);
    assert_eq!(r.start(), Err(RedisSyncError::Disconnect));
    assert_eq!(r.handler.objects, want);
    assert_eq!(r.handler.commands, vec![2]);
    assert_eq!(r.repl_offset, 7 + command.len() as i64);
    assert!(r.connection.writer.starts_with(b"*2\r\n$4\r\nAUTH\r\n$6\r\nsecret\r\n"));
}

#[test]
fn partial_resync_replays_from_the_offset_reached() {
    let mut incoming = b"+PONG\r\n+OK\r\n+OK\r\n+OK\r\n+CONTINUE\r\n".to_vec();
    let command = encode_request(&words(&["INCR", "n"]));
    incoming.extend_from_slice(&command);
    incoming.extend_from_slice(b"+not a command\r\n");
    let mut r = replica(incoming, &Config::default());
    r.repl_id = "8f3a".to_string();
    r.repl_offset = 900;
    assert_eq!(r.start(), Err(RedisSyncError::Framing));
    assert!(r.handler.objects.is_empty());
    assert_eq!(r.handler.commands, vec![2]);
    assert_eq!(r.repl_offset, 900 + command.len() as i64);
    assert!(r.connection.writer.ends_with(&psync_request("8f3a", "900")));
}

#[test]
fn wait_and_change_mode_and_refusal() {
    let mut r = replica(
        b"+PONG\r\n+OK\r\n+OK\r\n+OK\r\n+NOMASTERLINK\r\n".to_vec(),
        &Config::default(),
    );
    assert_eq!(r.start(), Ok(()));
    assert_eq!(r.repl_offset, -1);
    let mut r = replica(
        b"+PONG\r\n+OK\r\n+OK\r\n+OK\r\n+SOMETHING\r\n".to_vec(),
        &Config::default(),
    );
    assert_eq!(r.start(), Err(RedisSyncError::Handshake));
    let mut r = replica(b"-NOAUTH Authentication required.\r\n".to_vec(), &Config::default());
    assert_eq!(r.start(), Err(RedisSyncError::Handshake));
    assert_eq!(r.connection.writer, ping_request());
    let mut config = Config::default();
    config.password = Some("bad".to_string());
    config.username = Some("user".to_string());
    let mut r = replica(b"-WRONGPASS invalid username-password pair\r\n+PONG\r\n".to_vec(), &config);
    assert_eq!(r.start(), Err(RedisSyncError::Handshake));
    assert_eq!(r.connection.writer, b"*3\r\n$4\r\nAUTH\r\n$4\r\nuser\r\n$3\r\nbad\r\n".to_vec());
}

#[test]
fn test_sync() {
    let (snapshot, want) = sample();
    let mut incoming = b"+PONG\r\n+OK\r\n+OK\r\n+FULLRESYNC 0123abcd 42\r\n$EOF:".to_vec();
    incoming.extend_from_slice(&[b'd'; 40]);
    incoming.extend_from_slice(b"\r\n");
    incoming.extend_from_slice(&snapshot);
    incoming.extend_from_slice(&[b'd'; 40]);
    let command = encode_request(&words(&["SET", "k", "v"]));
    incoming.extend_from_slice(&command);
    let mut stream = Connection::new(ByteReader::new(incoming), Vec::new());
    stream.replconf("127.0.0.1".to_string(), 6380).expect("replconf fail");
    let res = stream.psync("?".to_string(), "-1".to_string()).expect("psync fail");
    assert_eq!(res.next_step, redis_sync::connect::NextStep::FullSync);
    let mut handler = Collector { objects: vec![], commands: vec![] };
    parse(&mut stream.reader, &mut handler).expect("pars rdb err");
    if res.length == -1 {
        skip(&mut stream.reader, 40);
    }
    assert_eq!(handler.objects, want);

    let mut repl_offset = res.repl_offset;
    let mut stream_with_counter = CountReader::new(stream.reader);
    stream_with_counter.mark();
    if let Resp::Array(array) = stream_with_counter.decode_resp().expect("err") {
        let size = stream_with_counter.reset().expect("reset err");
        let mut vec = Vec::with_capacity(array.len());
        for x in array {
            if let Resp::BulkBytes(bytes) = x {
                vec.push(bytes);
            } else {
                panic!("Expected BulkString response");
            }
        }
        assert_eq!(vec, words(&["SET", "k", "v"]));
        repl_offset += size as i64;
    } else {
        panic!("Expected array response");
    }
    assert_eq!(repl_offset, 42 + command.len() as i64);
    stream.writer.clear();
    let mut link = Connection::new(ByteReader::new(Vec::new()), stream.writer);
    link.replconf_ack(repl_offset.to_string()).expect("replconf_err");
    assert_eq!(link.writer, redis_sync::connect::ack_request(&repl_offset.to_string()));
}

#[test]
fn partial_resync_may_name_a_new_history() {
    let mut incoming = b"+PONG\r\n+OK\r\n+OK\r\n+OK\r\n+CONTINUE 77aa\r\n".to_vec();
    let command = encode_request(&words(&["PING"]));
    incoming.extend_from_slice(&command);
    let mut r = replica(incoming, &Config::default());
    r.repl_id = "8f3a".to_string();
    r.repl_offset = 10;
    assert_eq!(r.start(), Err(RedisSyncError::Disconnect));
    assert_eq!(r.repl_id, "77aa");
    assert_eq!(r.repl_offset, 10 + command.len() as i64);
    // a snapshot that fails leaves the replica where it was
    let mut r = replica(
        b"+PONG\r\n+OK\r\n+OK\r\n+OK\r\n+FULLRESYNC new 500\r\n$9\r\nREDIS0009\x63".to_vec(),
        &Config::default(),
    );
    assert_eq!(r.start(), Err(RedisSyncError::Encoding));
    assert_eq!(r.repl_id, "?");
    assert_eq!(r.repl_offset, -1);
}

#[test]
fn begin_then_one_command_at_a_time() {
    let (snapshot, want) = sample();
    let mut incoming = b"+PONG\r\n+OK\r\n+OK\r\n+OK\r\n+FULLRESYNC abcd 100\r\n$EOF:".to_vec();
    incoming.extend_from_slice(&[b'x'; 40]);
    incoming.extend_from_slice(b"\r\n");
    incoming.extend_from_slice(&snapshot);
    incoming.extend_from_slice(&[b'x'; 40]);
    let first = encode_request(&words(&["SET", "a", "1"]));
    let second = encode_request(&words(&["DEL", "a"]));
    incoming.extend_from_slice(&first);
    incoming.extend_from_slice(&second);
    let mut r = replica(incoming, &Config::default());
    let step = r.begin().unwrap();
    assert_eq!(step, redis_sync::connect::NextStep::FullSync);
    assert!(step.streams());
    assert_eq!(r.handler.objects, want);
    assert_eq!(r.repl_id, "abcd");
    assert_eq!(r.repl_offset, 100);
    assert!(r.handler.commands.is_empty());
    assert_eq!(r.next_command(), Ok(()));
    assert_eq!(r.repl_offset, 100 + first.len() as i64);
    assert_eq!(r.handler.commands, vec![3]);
    assert_eq!(r.next_command(), Ok(()));
    assert_eq!(r.repl_offset, 100 + (first.len() + second.len()) as i64);
    assert_eq!(r.next_command(), Err(RedisSyncError::Disconnect));
    assert_eq!(r.repl_offset, 100 + (first.len() + second.len()) as i64);
    assert_eq!(r.handler.commands, vec![3, 2]);
}

#[test]
fn begin_leaves_the_stream_alone_where_the_peer_is_not_ready() {
    let mut r = replica(
        b"+PONG\r\n+OK\r\n+OK\r\n+OK\r\n+LOADING\r\n*1\r\n$4\r\nPING\r\n".to_vec(),
        &Config::default(),
    );
    let step = r.begin().unwrap();
    assert_eq!(step, redis_sync::connect::NextStep::Wait);
    assert!(!step.streams());
    assert!(!redis_sync::connect::NextStep::ChangeMode.streams());
    assert!(redis_sync::connect::NextStep::PartialResync.streams());
    assert_eq!(r.repl_offset, -1);
    assert_eq!(r.connection.reader.into_inner().remaining(), 14);
    // a snapshot that breaks off: what came before the break was handed over
    let (snapshot, want) = sample();
    let mut incoming = b"+PONG\r\n+OK\r\n+OK\r\n+OK\r\n+FULLRESYNC abcd 100\r\n$1\r\n".to_vec();
    incoming.extend_from_slice(&snapshot[..snapshot.len() - 9]);
    incoming.push(0x63);
    let mut r = replica(incoming, &Config::default());
    assert_eq!(r.begin(), Err(RedisSyncError::Encoding));
    assert_eq!(r.handler.objects, want);
    assert_eq!(r.repl_id, "?");
    assert_eq!(r.repl_offset, -1);
}

fn module_id(name: &str, version: u64) -> u64 {
    let charset = b"ABCDEFGHIJKLMNOPQRSTUVWXYZabcdefghijklmnopqrstuvwxyz0123456789-_";
    assert_eq!(name.len(), 9);
    let mut id = 0u64;
    for c in name.bytes() {
        let six = charset.iter().position(|x| *x == c).unwrap() as u64;
        id = (id << 6) | six;
    }
    (id << 10) | version
}

fn module_bytes(name: &str, version: u64) -> Vec<u8> {
    let mut bytes = vec![0x81];
    bytes.extend_from_slice(&module_id(name, version).to_be_bytes());
    // an unsigned number, a signed one, two floats, a string, the closing mark
    bytes.extend_from_slice(&[2, 5]);
    bytes.extend_from_slice(&[1, 0x81]);
    bytes.extend_from_slice(&(-3i64 as u64).to_be_bytes());
    bytes.push(3);
    bytes.extend_from_slice(&1.5f32.to_bits().to_le_bytes());
    bytes.push(4);
    bytes.extend_from_slice(&(-0.25f64).to_bits().to_le_bytes());
    bytes.extend_from_slice(&[5, 2, b'h', b'i']);
    bytes.push(0);
    bytes
}

fn module_data(name: &str, version: u64) -> ModuleData {
    ModuleData {
        name: name.as_bytes().to_vec(),
        version,
        items: vec![
            ModuleItem::Unsigned(5),
            ModuleItem::Signed(-3),
            ModuleItem::Float(1.5f32.to_bits()),
            ModuleItem::Double((-0.25f64).to_bits()),
            ModuleItem::Bytes(b"hi".to_vec()),
        ],
    }
}

#[test]
fn module_data_is_read_item_by_item() {
    let mut bytes = module_bytes("ReJSON-RL", 3);
    bytes.extend_from_slice(b"rest");
    let mut src = ByteReader::new(bytes);
    assert_eq!(module_from(&mut src), Ok(module_data("ReJSON-RL", 3)));
    assert_eq!(src.remaining(), 4);
    assert_eq!(name_of(module_id("AZaz09-_x", 1023)), b"AZaz09-_x".to_vec());
    assert_eq!(name_of(0), b"AAAAAAAAA".to_vec());
    assert_eq!(name_of(u64::MAX), b"_________".to_vec());
    // a mark that does not exist; data that is never closed
    let mut src = ByteReader::new(vec![1, 9, 0]);
    assert_eq!(module_from(&mut src), Err(RedisSyncError::Encoding));
    let mut src = ByteReader::new(vec![1, 2, 5]);
    assert_eq!(module_from(&mut src), Err(RedisSyncError::Disconnect));
}

#[test]
fn module_records_in_a_snapshot() {
    let mut bytes = b"REDIS0009".to_vec();
    // what a module keeps beside the keys is passed over
    bytes.push(247);
    bytes.extend(module_bytes("bloomfltr", 1));
    // a key of a module
    bytes.push(7);
    bytes.extend(string(b"doc"));
    bytes.extend(module_bytes("ReJSON-RL", 3));
    bytes.push(0);
    bytes.extend(string(b"k"));
    bytes.extend(string(b"v"));
    bytes.push(255);
    bytes.extend_from_slice(&[0; 8]);
    let mut src = ByteReader::new(bytes);
    let mut handler = Collector { objects: vec![], commands: vec![] };
    assert_eq!(parse(&mut src, &mut handler), Ok(()));
    assert_eq!(
        handler.objects,
        vec![
            Object {
                key: b"doc".to_vec(),
                value: Value::Module(module_data("ReJSON-RL", 3)),
                meta: no_meta(0),
            },
            Object { key: b"k".to_vec(), value: Value::String(b"v".to_vec()), meta: no_meta(0) },
        ]
    );
    assert_eq!(src.remaining(), 0);
}

struct Counted {
    name: String,
    version: usize,
    first: Option<u8>,
}

impl Module for Counted {}

struct FirstByte;

impl ModuleParser for FirstByte {
    type Output = Counted;

    // Proofs alone speak of this record; nothing that runs asks for it.
    fn asked(&self) -> Requests {
        unreachable!()
    }

    fn parse<R: ByteSource>(&mut self, input: &mut R, module_name: &str, module_version: usize) -> Counted {
        Counted { name: module_name.to_string(), version: module_version, first: input.read_u8().ok() }
    }
}

#[test]
fn a_parser_of_ones_own_is_asked_for_the_data_of_a_module() {
    let mut src = ByteReader::new(module_bytes("ReJSON-RL", 3));
    let mut parser = FirstByte;
    let got = module_with(&mut src, &mut parser).ok().unwrap();
    assert_eq!(got.name, "ReJSON-RL");
    assert_eq!(got.version, 3);
    assert_eq!(got.first, Some(2));
    // the parser is not asked where the module cannot be told
    let mut src = ByteReader::new(vec![0x81, 1, 2]);
    assert!(matches!(module_with(&mut src, &mut parser), Err(RedisSyncError::Disconnect)));
}

#[test]
fn a_module_is_told_by_name_and_version() {
    assert_eq!(module_identity(module_id("ReJSON-RL", 3)), ("ReJSON-RL".to_string(), 3));
    assert_eq!(module_identity(module_id("AZaz09-_x", 1023)), ("AZaz09-_x".to_string(), 1023));
    assert_eq!(module_identity(0), ("AAAAAAAAA".to_string(), 0));
    assert_eq!(module_identity(u64::MAX), ("_________".to_string(), 1023));
}

#[test]
fn a_parser_is_asked_whenever_the_module_can_be_told() {
    // the identifier alone, with nothing behind it
    let mut bytes = vec![0x81];
    bytes.extend_from_slice(&module_id("graphdata", 7).to_be_bytes());
    let mut src = ByteReader::new(bytes);
    let mut parser = FirstByte;
    let got = module_with(&mut src, &mut parser).ok().unwrap();
    assert_eq!(got.name, "graphdata");
    assert_eq!(got.version, 7);
    assert_eq!(got.first, None);
    // an identifier that fits six bits
    let mut src = ByteReader::new(vec![5, 9]);
    let got = module_with(&mut src, &mut parser).ok().unwrap();
    assert_eq!(got.name, "AAAAAAAAA");
    assert_eq!(got.version, 5);
    assert_eq!(got.first, Some(9));
    // no identifier at all
    let mut src = ByteReader::new(Vec::new());
    assert!(matches!(module_with(&mut src, &mut parser), Err(RedisSyncError::Disconnect)));
}

fn stream_bytes(form: u8) -> Vec<u8> {
    let mut b = Vec::new();
    // one node: its key of sixteen bytes and its block of entries
    b.push(1);
    b.extend(string(&[7u8; 16]));
    b.extend(string(b"block"));
    // two entries, the last one 5-1
    b.extend_from_slice(&[2, 5, 1]);
    if form >= 2 {
        // the first entry 4-0, the largest deleted 3-9, six entries ever added
        b.extend_from_slice(&[4, 0, 3, 9, 6]);
    }
    // one group
    b.push(1);
    b.extend(string(b"g"));
    b.extend_from_slice(&[5, 0]);
    if form >= 2 {
        b.push(2);
    }
    // one entry not acknowledged
    b.push(1);
    b.extend_from_slice(&[9u8; 16]);
    b.extend_from_slice(&1000u64.to_le_bytes());
    b.push(3);
    // one consumer, with that entry
    b.push(1);
    b.extend(string(b"c"));
    b.extend_from_slice(&2000u64.to_le_bytes());
    if form >= 3 {
        b.extend_from_slice(&3000u64.to_le_bytes());
    }
    b.push(1);
    b.extend_from_slice(&[9u8; 16]);
    b
}

fn stream_data(form: u8) -> StreamData {
    StreamData {
        nodes: vec![Field { name: vec![7u8; 16], value: b"block".to_vec() }],
        length: 2,
        last_id: StreamId { ms: 5, seq: 1 },
        counters: if form >= 2 {
            Some(Counters {
                first_id: StreamId { ms: 4, seq: 0 },
                max_deleted_id: StreamId { ms: 3, seq: 9 },
                entries_added: 6,
            })
        } else {
            None
        },
        groups: vec![Group {
            name: b"g".to_vec(),
            last_id: StreamId { ms: 5, seq: 0 },
            entries_read: if form >= 2 { Some(2) } else { None },
            pending: vec![Pending { id: vec![9u8; 16], delivered_at: 1000, deliveries: 3 }],
            consumers: vec![Consumer {
                name: b"c".to_vec(),
                seen_at: 2000,
                active_at: if form >= 3 { Some(3000) } else { None },
                pending: vec![vec![9u8; 16]],
            }],
        }],
    }
}

#[test]
fn streams_in_their_three_forms() {
    for form in [1u8, 2, 3] {
        let mut bytes = stream_bytes(form);
        bytes.extend_from_slice(b"xy");
        let mut src = ByteReader::new(bytes);
        assert_eq!(stream_from(&mut src, form), Ok(stream_data(form)));
        assert_eq!(src.remaining(), 2);
    }
    // a stream without nodes and groups
    let mut src = ByteReader::new(vec![0, 0, 0, 0, 0]);
    let empty = stream_from(&mut src, 1).unwrap();
    assert!(empty.nodes.is_empty() && empty.groups.is_empty());
    assert_eq!(empty.length, 0);
    // cut short within a group
    let bytes = stream_bytes(1);
    let mut src = ByteReader::new(bytes[..bytes.len() - 3].to_vec());
    assert_eq!(stream_from(&mut src, 1), Err(RedisSyncError::Disconnect));
}

#[test]
fn stream_records_in_a_snapshot() {
    let mut bytes = b"REDIS0011".to_vec();
    for (tag, form) in [(15u8, 1u8), (19, 2), (21, 3)] {
        bytes.push(tag);
        bytes.extend(string(&[b's', b'0' + form]));
        bytes.extend(stream_bytes(form));
    }
    bytes.push(255);
    bytes.extend_from_slice(&[0; 8]);
    let mut src = ByteReader::new(bytes);
    let mut handler = Collector { objects: vec![], commands: vec![] };
    assert_eq!(parse(&mut src, &mut handler), Ok(()));
    assert_eq!(handler.objects.len(), 3);
    for (i, form) in [1u8, 2, 3].iter().enumerate() {
        assert_eq!(handler.objects[i].key, vec![b's', b'0' + form]);
        assert_eq!(handler.objects[i].value, Value::Stream(stream_data(*form)));
    }
    assert_eq!(src.remaining(), 0);
}

fn back(entry_len: usize) -> Vec<u8> {
    // the length of an entry once more; only how many bytes it takes matters here
    let n = if entry_len <= 127 {
        1
    } else if entry_len < 16383 {
        2
    } else if entry_len < 2097151 {
        3
    } else {
        4
    };
    vec![0x55; n]
}

fn pack(entries: &[Vec<u8>]) -> Vec<u8> {
    let mut list = vec![0u8; 6];
    for e in entries {
        list.extend_from_slice(e);
        list.extend(back(e.len()));
    }
    list.push(255);
    list
}

fn pack_str(bytes: &[u8]) -> Vec<u8> {
    assert!(bytes.len() < 64);
    let mut e = vec![0x80 | bytes.len() as u8];
    e.extend_from_slice(bytes);
    e
}

#[test]
fn packed_list_of_the_newer_kind() {
    let long: Vec<u8> = (0..300).map(|i| (i % 251) as u8).collect();
    let mut long_entry = vec![0xe1, 44];
    long_entry.extend_from_slice(&long);
    let mut wide_entry = vec![0xf0, 3, 0, 0, 0];
    wide_entry.extend_from_slice(b"xyz");
    let mut i16_entry = vec![0xf1];
    i16_entry.extend_from_slice(&(-12345i16).to_le_bytes());
    let mut i24_entry = vec![0xf2];
    i24_entry.extend_from_slice(&(-1_000_000i32).to_le_bytes()[..3]);
    let mut i32_entry = vec![0xf3];
    i32_entry.extend_from_slice(&2_000_000_000i32.to_le_bytes());
    let mut i64_entry = vec![0xf4];
    i64_entry.extend_from_slice(&i64::MIN.to_le_bytes());
    let list = pack(&[
        vec![5],
        vec![127],
        pack_str(b"ab"),
        pack_str(b""),
        vec![0xdf, 0xff],
        vec![0xc0, 0x80],
        vec![0xcf, 0xff],
        vec![0xd0, 0x00],
        long_entry,
        wide_entry,
        i16_entry,
        i24_entry,
        i32_entry,
        i64_entry,
    ]);
    assert_eq!(
        listpack_entries(list),
        Ok(vec![
            b"5".to_vec(),
            b"127".to_vec(),
            b"ab".to_vec(),
            vec![],
            b"-1".to_vec(),
            b"128".to_vec(),
            b"4095".to_vec(),
            b"-4096".to_vec(),
            long,
            b"xyz".to_vec(),
            b"-12345".to_vec(),
            b"-1000000".to_vec(),
            b"2000000000".to_vec(),
            b"-9223372036854775808".to_vec(),
        ])
    );
    assert_eq!(listpack_entries(pack(&[])), Ok(vec![]));
    // no end, a head that does not exist, a body cut short, too short for its header
    assert_eq!(listpack_entries(vec![0, 0, 0, 0, 0, 0, 5, 1]), Err(RedisSyncError::Encoding));
    assert_eq!(listpack_entries(vec![0, 0, 0, 0, 0, 0, 0xf5, 1, 255]), Err(RedisSyncError::Encoding));
    assert_eq!(listpack_entries(vec![0, 0, 0, 0, 0, 0, 0x83, b'a']), Err(RedisSyncError::Encoding));
    assert_eq!(listpack_entries(vec![0, 0, 0]), Err(RedisSyncError::Encoding));
}

#[test]
fn values_in_packed_lists_of_the_newer_kind() {
    let mut bytes = b"REDIS0011".to_vec();
    bytes.push(16);
    bytes.extend(string(b"h"));
    bytes.extend(string(&pack(&[pack_str(b"f"), vec![7]])));
    bytes.push(17);
    bytes.extend(string(b"z"));
    bytes.extend(string(&pack(&[pack_str(b"m"), pack_str(b"1.5")])));
    bytes.push(20);
    bytes.extend(string(b"s"));
    bytes.extend(string(&pack(&[pack_str(b"a"), vec![3]])));
    bytes.push(18);
    bytes.extend(string(b"l"));
    bytes.push(3);
    bytes.push(2);
    bytes.extend(string(&pack(&[pack_str(b"x"), pack_str(b"y")])));
    bytes.push(1);
    bytes.extend(string(b"a string by itself"));
    bytes.push(2);
    bytes.extend(string(&pack(&[])));
    bytes.push(255);
    bytes.extend_from_slice(&[0; 8]);
    let mut src = ByteReader::new(bytes);
    let mut handler = Collector { objects: vec![], commands: vec![] };
    assert_eq!(parse(&mut src, &mut handler), Ok(()));
    let values: Vec<&Value> = handler.objects.iter().map(|o| &o.value).collect();
    assert_eq!(
        values,
        vec![
            &Value::Hash(vec![Field { name: b"f".to_vec(), value: b"7".to_vec() }]),
            &Value::SortedSet(vec![Item {
                member: b"m".to_vec(),
                score: Score::Text(b"1.5".to_vec()),
            }]),
            &Value::Members(vec![b"a".to_vec(), b"3".to_vec()]),
            &Value::List(vec![b"x".to_vec(), b"y".to_vec(), b"a string by itself".to_vec()]),
        ]
    );
    // a node of a kind that does not exist
    let mut src = ByteReader::new(vec![1, 3, 0]);
    assert_eq!(value_from(&mut src, Encoding::ListQuickList2), Err(RedisSyncError::Encoding));
}

fn block_key(ms: u64, seq: u64) -> Vec<u8> {
    let mut key = ms.to_be_bytes().to_vec();
    key.extend_from_slice(&seq.to_be_bytes());
    key
}

fn block_elements() -> Vec<Vec<u8>> {
    let texts: [&[u8]; 20] = [
        // two entries, one of them deleted since; one name given by the block
        b"2", b"1", b"1", b"f", b"0",
        // an entry with the block's names
        b"2", b"0", b"0", b"v1", b"4",
        // a deleted entry with names of its own
        b"1", b"5", b"1", b"2", b"a", b"1", b"b", b"2", b"8",
        // an entry without fields
        b"0",
    ];
    let mut elements: Vec<Vec<u8>> = texts.iter().map(|t| t.to_vec()).collect();
    elements.extend([b"7".to_vec(), b"0".to_vec(), b"0".to_vec(), b"4".to_vec()]);
    elements
}

fn block_want() -> Vec<Entry> {
    vec![
        Entry {
            id: StreamId { ms: 1000, seq: 7 },
            deleted: false,
            fields: vec![Field { name: b"f".to_vec(), value: b"v1".to_vec() }],
        },
        Entry {
            id: StreamId { ms: 1005, seq: 8 },
            deleted: true,
            fields: vec![
                Field { name: b"a".to_vec(), value: b"1".to_vec() },
                Field { name: b"b".to_vec(), value: b"2".to_vec() },
            ],
        },
        Entry { id: StreamId { ms: 1007, seq: 7 }, deleted: false, fields: vec![] },
    ]
}

#[test]
fn entries_of_a_block() {
    let key = block_key(1000, 7);
    assert_eq!(block_entries(&key, &block_elements()), Ok(block_want()));
    // through the packed list that a node holds
    let packed: Vec<Vec<u8>> = block_elements()
        .iter()
        .map(|e| if e.len() == 1 && e[0].is_ascii_digit() { vec![e[0] - b'0'] } else { pack_str(e) })
        .collect();
    let node = Field { name: key.clone(), value: pack(&packed) };
    assert_eq!(node_entries(&node), Ok(block_want()));
    // a key that is no identifier; a block that ends within an entry; an
    // identifier out of range; a head that is no number
    assert_eq!(block_entries(&vec![1, 2, 3], &block_elements()), Err(RedisSyncError::Encoding));
    let mut short = block_elements();
    short.truncate(8);
    assert_eq!(block_entries(&key, &short), Err(RedisSyncError::Encoding));
    assert_eq!(
        block_entries(&block_key(u64::MAX, 0), &block_elements()),
        Err(RedisSyncError::Encoding)
    );
    let mut odd = block_elements();
    odd[0] = b"x".to_vec();
    assert_eq!(block_entries(&key, &odd), Err(RedisSyncError::Encoding));
    assert_eq!(block_entries(&key, &vec![]), Err(RedisSyncError::Encoding));
    let none: Vec<Vec<u8>> = [&b"0"[..], b"0", b"0", b"0"].iter().map(|t| t.to_vec()).collect();
    assert_eq!(block_entries(&key, &none), Ok(vec![]));
}
