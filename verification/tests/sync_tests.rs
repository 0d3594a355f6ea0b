use redis_sync::cmd::hyperloglog::{parse_pfadd, parse_pfcount, parse_pfmerge};
use redis_sync::cmd::{parse, Command};
use redis_sync::config::Config;
use redis_sync::decimal::{i64_to_text, parse_i64};
use redis_sync::error::RedisSyncError;
use redis_sync::io::{skip, ByteReader, ByteSink, ByteSource, CountReader};
use redis_sync::resp::{encode_request, Resp, RespDecode};
use redis_sync::sync::{advance, command_from, replay, replay_one};
use redis_sync::text::{has_infix, has_prefix, nth_token};
use redis_sync::{Event, EventHandler, NoOpEventHandler, Received};

fn args(words: &[&str]) -> Vec<Vec<u8>> {
    words.iter().map(|w| w.as_bytes().to_vec()).collect()
}

#[test]
fn count_reader_measures_a_frame() {
    let mut reader = CountReader::new(ByteReader::new(b"+skipped\r\n*1\r\n$4\r\nPING\r\n:1\r\n".to_vec()));
    // not counting yet
    assert_eq!(reader.decode_resp(), Ok(Resp::String("skipped".to_string())));
    assert_eq!(reader.reset(), Err(RedisSyncError::NotMarked));
    reader.mark();
    assert_eq!(
        reader.decode_resp(),
        Ok(Resp::Array(vec![Resp::BulkBytes(b"PING".to_vec())]))
    );
    assert_eq!(reader.reset(), Ok(14));
    assert_eq!(reader.reset(), Err(RedisSyncError::NotMarked));
    reader.mark();
    assert_eq!(reader.decode_resp(), Ok(Resp::Int(1)));
    assert_eq!(reader.reset(), Ok(4));
}

#[test]
fn count_reader_counts_every_kind_of_read() {
    let mut reader = CountReader::new(ByteReader::new((0..100u8).collect()));
    reader.mark();
    assert_eq!(reader.read_u8(), Ok(0));
    assert_eq!(reader.read_exact(9), Ok((1..10u8).collect()));
    assert_eq!(reader.read(5), (10..15u8).collect::<Vec<u8>>());
    // a second mark starts from zero again
    reader.mark();
    assert_eq!(reader.read(1000).len(), 85);
    assert_eq!(reader.read(10), Vec::<u8>::new());
    assert_eq!(reader.read_exact(1), Err(RedisSyncError::Disconnect));
    assert_eq!(reader.read_u8(), Err(RedisSyncError::Disconnect));
    assert_eq!(reader.reset(), Ok(85));
    assert_eq!(reader.into_inner().position(), 100);
}

#[test]
fn byte_reader_positions() {
    let mut reader = ByteReader::new(b"abcdef".to_vec());
    assert_eq!(reader.remaining(), 6);
    reader.set_position(4);
    assert_eq!(reader.read_u8(), Ok(b'e'));
    assert_eq!(reader.position(), 5);
    reader.set_position(60);
    assert_eq!(reader.remaining(), 0);
    assert_eq!(reader.read_u8(), Err(RedisSyncError::Disconnect));
    assert_eq!(reader.read(3), Vec::<u8>::new());
    assert_eq!(reader.read_exact(0), Ok(vec![]));
    reader.set_position(0);
    assert_eq!(reader.read_exact(7), Err(RedisSyncError::Disconnect));
    assert_eq!(reader.into_inner(), b"abcdef".to_vec());
}

#[test]
fn skip_drops_the_delimiter() {
    let mut bytes = vec![7u8; 40];
    bytes.extend_from_slice(b"*1\r\n");
    let mut reader = ByteReader::new(bytes);
    skip(&mut reader, 40);
    assert_eq!(reader.position(), 40);
    assert_eq!(reader.remaining(), 4);
    // fewer bytes than asked for is no failure
    skip(&mut reader, 40);
    assert_eq!(reader.remaining(), 0);
    let mut long = ByteReader::new(vec![1u8; 10_000]);
    skip(&mut long, 9_999);
    assert_eq!(long.remaining(), 1);
    skip(&mut long, 0);
    assert_eq!(long.remaining(), 1);
}

#[test]
fn vec_is_a_sink() {
    let mut sink: Vec<u8> = b"ab".to_vec();
    assert_eq!(sink.write_all(b"cd"), Ok(()));
    assert_eq!(sink, b"abcd".to_vec());
}

#[test]
fn offset_moves_by_the_wire_length_of_each_frame() {
    let frames = [
        encode_request(&args(&["SELECT", "0"])),
        encode_request(&args(&["SET", "key", "value"])),
        encode_request(&args(&["PING"])),
    ];
    let mut stream = Vec::new();
    for f in &frames {
        stream.extend_from_slice(f);
    }
    let start: i64 = 1000;
    let mut offset = start;
    let mut reader = CountReader::new(ByteReader::new(stream));
    let mut sum = 0i64;
    let expected = [
        args(&["SELECT", "0"]),
        args(&["SET", "key", "value"]),
        args(&["PING"]),
    ];
    for (f, want) in frames.iter().zip(expected.iter()) {
        let got = replay_one(&mut reader, &mut offset).unwrap();
        assert_eq!(&got, want);
        sum += f.len() as i64;
        assert_eq!(offset, start + sum);
    }
    assert_eq!(replay_one(&mut reader, &mut offset), Err(RedisSyncError::Disconnect));
    assert_eq!(offset, start + sum);
}

#[test]
fn a_frame_with_noise_counts_the_noise() {
    let mut reader = CountReader::new(ByteReader::new(b"\n\n*1\r\n$1\r\nx\r\n".to_vec()));
    assert_eq!(command_from(&mut reader), Ok((vec![b"x".to_vec()], 13)));
}

#[test]
fn values_that_are_no_commands() {
    let mut offset = 5;
    for bytes in [&b"+OK\r\n"[..], &b"*2\r\n$1\r\na\r\n:1\r\n"[..], &b":1\r\n"[..]] {
        let mut reader = CountReader::new(ByteReader::new(bytes.to_vec()));
        assert_eq!(replay_one(&mut reader, &mut offset), Err(RedisSyncError::Framing));
        assert_eq!(offset, 5);
    }
    let mut reader = CountReader::new(ByteReader::new(b"*0\r\n".to_vec()));
    assert_eq!(replay_one(&mut reader, &mut offset), Ok(vec![]));
    assert_eq!(offset, 9);
}

#[test]
fn advance_checks_the_range() {
    assert_eq!(advance(0, 0), Ok(0));
    assert_eq!(advance(100, 23), Ok(123));
    assert_eq!(advance(-1, 1), Ok(0));
    assert_eq!(advance(i64::MAX, 0), Ok(i64::MAX));
    assert_eq!(advance(i64::MAX, 1), Err(RedisSyncError::Overflow));
    assert_eq!(advance(i64::MAX - 10, 10), Ok(i64::MAX));
    assert_eq!(advance(i64::MIN, u64::MAX), Ok(i64::MAX));
    assert_eq!(advance(0, u64::MAX), Err(RedisSyncError::Overflow));
    assert_eq!(advance(-5, (i64::MAX as u64) + 5), Ok(i64::MAX));
    assert_eq!(advance(-5, (i64::MAX as u64) + 6), Err(RedisSyncError::Overflow));
}

struct Recorder {
    seen: Vec<String>,
}

impl EventHandler for Recorder {
    // Proofs alone speak of this record; nothing that runs asks for it.
    fn received(&self) -> Received {
        unreachable!()
    }

    fn handle(&mut self, event: Event) {
        match event {
            Event::AOF(Command::PFADD(c)) => self.seen.push(format!(
                "PFADD {} {}",
                String::from_utf8_lossy(c.key),
                c.elements.len()
            )),
            Event::AOF(Command::PFCOUNT(c)) => self.seen.push(format!("PFCOUNT {}", c.keys.len())),
            Event::AOF(Command::PFMERGE(c)) => self.seen.push(format!(
                "PFMERGE {} {}",
                String::from_utf8_lossy(c.dest_key),
                c.source_keys.len()
            )),
            Event::AOF(Command::Other(all)) => self.seen.push(format!("other {}", all.len())),
            Event::RDB(_) => self.seen.push("object".to_string()),
        }
    }
}

#[test]
fn replay_hands_every_command_on_until_the_stream_ends() {
    let mut stream = Vec::new();
    stream.extend(encode_request(&args(&["pfadd", "hll", "a", "b", "c"])));
    stream.extend(encode_request(&args(&["PFCOUNT", "hll", "other"])));
    stream.extend(encode_request(&args(&["PfMerge", "dst", "s1", "s2"])));
    stream.extend(encode_request(&args(&["SET", "k", "v"])));
    let total = stream.len() as i64;
    stream.extend_from_slice(b"*1\r\n$4\r\nPI");
    let mut reader = CountReader::new(ByteReader::new(stream));
    let mut handler = Recorder { seen: vec![] };
    let mut offset = 7;
    assert_eq!(replay(&mut reader, &mut handler, &mut offset), RedisSyncError::Disconnect);
    assert_eq!(offset, 7 + total);
    assert_eq!(
        handler.seen,
        vec!["PFADD hll 3", "PFCOUNT 2", "PFMERGE dst 2", "other 3"]
    );
    let mut quiet = NoOpEventHandler::new();
    let mut reader = CountReader::new(ByteReader::new(b"+OK\r\n".to_vec()));
    assert_eq!(replay(&mut reader, &mut quiet, &mut offset), RedisSyncError::Framing);
    assert_eq!(offset, 7 + total);
}

#[test]
fn hyperloglog_commands() {
    let a = args(&["key", "e1", "e2"]);
    let c = parse_pfadd(&a);
    assert_eq!(c.key, b"key");
    assert_eq!(c.elements, vec![&b"e1"[..], &b"e2"[..]]);
    let c = parse_pfcount(&a);
    assert_eq!(c.keys, vec![&b"key"[..], &b"e1"[..], &b"e2"[..]]);
    let c = parse_pfmerge(&a);
    assert_eq!(c.dest_key, b"key");
    assert_eq!(c.source_keys, vec![&b"e1"[..], &b"e2"[..]]);
    let only = args(&["key"]);
    assert!(parse_pfadd(&only).elements.is_empty());
    assert!(parse_pfcount(&[]).keys.is_empty());
    // a known command without its key is handed on as it is
    let bare = args(&["PFADD"]);
    assert!(matches!(parse(&bare), Command::Other(all) if all.len() == 1));
    assert!(matches!(parse(&[]), Command::Other(all) if all.is_empty()));
    let count = args(&["pfcount"]);
    assert!(matches!(parse(&count), Command::PFCOUNT(c) if c.keys.is_empty()));
    let near = args(&["PFADDX", "k"]);
    assert!(matches!(parse(&near), Command::Other(_)));
}

#[test]
fn decimal_text_both_ways() {
    for v in [0i64, 1, -1, 9, 10, -10, 12345, i64::MAX, i64::MIN] {
        let text = i64_to_text(v);
        assert_eq!(text, v.to_string().into_bytes());
        assert_eq!(parse_i64(&text), Some(v));
    }
    assert_eq!(parse_i64(b"+7"), Some(7));
    assert_eq!(parse_i64(b"-0"), Some(0));
    assert_eq!(parse_i64(b"000000000000000000000000000042"), Some(42));
    for bad in [&b""[..], b"+", b"-", b"1 ", b" 1", b"1a", b"--1", b"9223372036854775808", b"-9223372036854775809", b"99999999999999999999999999"] {
        assert_eq!(parse_i64(bad), None);
    }
}

#[test]
fn words_and_infixes() {
    assert!(has_prefix(b"FULLRESYNC x", b"FULLRESYNC"));
    assert!(!has_prefix(b"FULL", b"FULLRESYNC"));
    assert!(has_prefix(b"abc", b""));
    assert!(has_infix(b"ERR NOAUTH required", b"NOAUTH"));
    assert!(has_infix(b"NOAUTH", b"NOAUTH"));
    assert!(!has_infix(b"NOAUT", b"NOAUTH"));
    assert!(has_infix(b"", b""));
    assert_eq!(nth_token(b"  a \t bc\nd  ", 0), Some(b"a".to_vec()));
    assert_eq!(nth_token(b"  a \t bc\nd  ", 1), Some(b"bc".to_vec()));
    assert_eq!(nth_token(b"  a \t bc\nd  ", 2), Some(b"d".to_vec()));
    assert_eq!(nth_token(b"  a \t bc\nd  ", 3), None);
    assert_eq!(nth_token(b"", 0), None);
    assert_eq!(nth_token(b"   ", 0), None);
}

#[test]
fn errors_describe_themselves() {
    assert_eq!(RedisSyncError::Disconnect.message(), "disconnected");
    assert_eq!(RedisSyncError::NotMarked.message(), "not marked");
    assert_ne!(RedisSyncError::Framing.message(), RedisSyncError::Encoding.message());
    assert_ne!(RedisSyncError::Handshake.message(), RedisSyncError::Overflow.message());
}

#[test]
fn default_config_is_empty() {
    let config = Config::default();
    assert_eq!(config.host, "");
    assert_eq!(config.port, 0);
    assert!(config.read_timeout.is_none() && config.write_timeout.is_none());
    assert!(config.username.is_none() && config.password.is_none());
    assert!(!config.is_tls_enabled && !config.is_tls_insecure);
    assert!(config.identity.is_none() && config.identity_passwd.is_none());
}

#[test]
fn a_read_that_fails_counts_nothing() {
    let mut reader = CountReader::new(ByteReader::new((0..10u8).collect()));
    reader.mark();
    assert_eq!(reader.read_exact(4), Ok(vec![0, 1, 2, 3]));
    // more than is left: the read fails and the count stays at four
    assert_eq!(reader.read_exact(7), Err(RedisSyncError::Disconnect));
    assert_eq!(reader.reset(), Ok(4));
    let mut reader = CountReader::new(ByteReader::new(vec![]));
    reader.mark();
    assert_eq!(reader.read_u8(), Err(RedisSyncError::Disconnect));
    assert_eq!(reader.reset(), Ok(0));
}

#[test]
fn replay_step_hands_over_one_command() {
    let frame = encode_request(&args(&["PFADD", "k", "x"]));
    let mut stream = frame.clone();
    stream.extend_from_slice(b"+no command\r\n");
    let mut reader = CountReader::new(ByteReader::new(stream));
    let mut handler = Recorder { seen: vec![] };
    let mut offset = 0;
    assert_eq!(redis_sync::sync::replay_step(&mut reader, &mut handler, &mut offset), Ok(()));
    assert_eq!(offset, frame.len() as i64);
    assert_eq!(handler.seen, vec!["PFADD k 1"]);
    // what is no command is not handed over and moves nothing
    assert_eq!(
        redis_sync::sync::replay_step(&mut reader, &mut handler, &mut offset),
        Err(RedisSyncError::Framing)
    );
    assert_eq!(offset, frame.len() as i64);
    assert_eq!(handler.seen.len(), 1);
}
