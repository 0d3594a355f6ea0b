use redis_sync::error::RedisSyncError;
use redis_sync::io::ByteReader;
use redis_sync::resp::{encode_request, Resp, RespDecode, Type};

fn reader(bytes: &[u8]) -> ByteReader {
    ByteReader::new(bytes.to_vec())
}

#[test]
fn test_decode_array() {
    let b = b"*2\r\n$6\r\nSELECT\r\n$1\r\n0\r\n";
    let mut cursor = reader(b);
    let r = cursor.decode_resp();
    assert!(r.is_ok());
    match r {
        Ok(resp) => match resp {
            Resp::Array(arr) => {
                let mut data = Vec::new();
                for x in arr {
                    match x {
                        Resp::BulkBytes(bytes) => data.push(bytes),
                        _ => panic!("wrong type"),
                    }
                }
                assert!(b"SELECT".eq(data.get(0).unwrap().as_slice()));
                assert!(b"0".eq(data.get(1).unwrap().as_slice()));
            }
            _ => panic!("wrong type"),
        },
        Err(err) => panic!("decode_resp err,{}", err.message()),
    }
}

#[test]
fn decode_select_array_exactly() {
    let mut cursor = reader(b"*2\r\n$6\r\nSELECT\r\n$1\r\n0\r\n+OK\r\n");
    assert_eq!(
        cursor.decode_resp(),
        Ok(Resp::Array(vec![
            Resp::BulkBytes(b"SELECT".to_vec()),
            Resp::BulkBytes(b"0".to_vec())
        ]))
    );
    assert_eq!(cursor.position(), 23);
    assert_eq!(cursor.decode_resp(), Ok(Resp::String("OK".to_string())));
    assert_eq!(cursor.remaining(), 0);
}

#[test]
fn empty_bulk_consumes_two_trailing_bytes() {
    let mut cursor = reader(b"$0\r\n\r\n:7\r\n");
    assert_eq!(cursor.decode_resp(), Ok(Resp::BulkBytes(vec![])));
    assert_eq!(cursor.position(), 6);
    assert_eq!(cursor.decode_resp(), Ok(Resp::Int(7)));
}

#[test]
fn null_bulk_collapses_to_empty() {
    let mut cursor = reader(b"$-1\r\nxy+A\r\n");
    assert_eq!(cursor.decode_resp(), Ok(Resp::BulkBytes(vec![])));
    assert_eq!(cursor.position(), 7);
    assert_eq!(cursor.decode_resp(), Ok(Resp::String("A".to_string())));
}

#[test]
fn stray_line_feeds_are_skipped() {
    let mut cursor = reader(b"\n\n\n:-42\r\n");
    assert_eq!(cursor.decode_type(), Ok(Type::Int));
    assert_eq!(cursor.decode_int(), Ok(Resp::Int(-42)));
}

#[test]
fn each_tag_maps_to_its_type() {
    assert_eq!(reader(b"+").decode_type(), Ok(Type::String));
    assert_eq!(reader(b"-").decode_type(), Ok(Type::Error));
    assert_eq!(reader(b":").decode_type(), Ok(Type::Int));
    assert_eq!(reader(b"$").decode_type(), Ok(Type::BulkString));
    assert_eq!(reader(b"*").decode_type(), Ok(Type::Array));
    assert_eq!(reader(b"?").decode_type(), Err(RedisSyncError::Framing));
    assert_eq!(reader(b"\n\n").decode_type(), Err(RedisSyncError::Disconnect));
}

#[test]
fn simple_string_and_error_decode_as_text() {
    assert_eq!(
        reader(b"+PONG\r\n").decode_resp(),
        Ok(Resp::String("PONG".to_string()))
    );
    assert_eq!(
        reader(b"-ERR unknown\r\n").decode_resp(),
        Ok(Resp::Error("ERR unknown".to_string()))
    );
    // decode_string reads the line only, not a tag before it
    assert_eq!(reader(b"+\r\n").decode_string(), Ok("+".to_string()));
    assert_eq!(reader(b"\r\n").decode_string(), Ok(String::new()));
}

#[test]
fn framing_errors() {
    // CR not followed by LF
    assert_eq!(reader(b"+OK\rX").decode_resp(), Err(RedisSyncError::Framing));
    // an integer that is no number
    assert_eq!(reader(b":abc\r\n").decode_resp(), Err(RedisSyncError::Framing));
    assert_eq!(reader(b":\r\n").decode_resp(), Err(RedisSyncError::Framing));
    assert_eq!(
        reader(b":9223372036854775808\r\n").decode_resp(),
        Err(RedisSyncError::Framing)
    );
    // a payload not closed by CR LF
    assert_eq!(reader(b"$3\r\nabcXY").decode_resp(), Err(RedisSyncError::Framing));
    // text that is not UTF-8
    assert_eq!(reader(b"+\xff\xfe\r\n").decode_resp(), Err(RedisSyncError::Framing));
    // an inner value that fails makes the array fail
    assert_eq!(
        reader(b"*2\r\n:1\r\n?\r\n").decode_resp(),
        Err(RedisSyncError::Framing)
    );
}

#[test]
fn truncated_input_is_a_disconnect() {
    assert_eq!(reader(b"").decode_resp(), Err(RedisSyncError::Disconnect));
    assert_eq!(reader(b"+OK").decode_resp(), Err(RedisSyncError::Disconnect));
    assert_eq!(reader(b"+OK\r").decode_resp(), Err(RedisSyncError::Disconnect));
    assert_eq!(reader(b"$5\r\nab").decode_resp(), Err(RedisSyncError::Disconnect));
    assert_eq!(reader(b"$2\r\nab\r").decode_resp(), Err(RedisSyncError::Disconnect));
    assert_eq!(reader(b"$0\r\n\r").decode_resp(), Err(RedisSyncError::Disconnect));
    assert_eq!(reader(b"*2\r\n:1\r\n").decode_resp(), Err(RedisSyncError::Disconnect));
}

#[test]
fn integers_at_the_limits() {
    assert_eq!(
        reader(b":9223372036854775807\r\n").decode_resp(),
        Ok(Resp::Int(i64::MAX))
    );
    assert_eq!(
        reader(b":-9223372036854775808\r\n").decode_resp(),
        Ok(Resp::Int(i64::MIN))
    );
    assert_eq!(reader(b":+0012\r\n").decode_resp(), Ok(Resp::Int(12)));
}

#[test]
fn nested_arrays_keep_order() {
    let mut cursor = reader(b"*3\r\n:1\r\n*2\r\n+a\r\n$1\r\nb\r\n*0\r\n");
    assert_eq!(
        cursor.decode_resp(),
        Ok(Resp::Array(vec![
            Resp::Int(1),
            Resp::Array(vec![
                Resp::String("a".to_string()),
                Resp::BulkBytes(b"b".to_vec())
            ]),
            Resp::Array(vec![]),
        ]))
    );
    assert_eq!(cursor.remaining(), 0);
}

#[test]
fn array_with_negative_count_is_empty() {
    let mut cursor = reader(b"*-1\r\n:5\r\n");
    assert_eq!(cursor.decode_type(), Ok(Type::Array));
    assert_eq!(cursor.decode_array(), Ok(Resp::Array(vec![])));
    assert_eq!(cursor.decode_resp(), Ok(Resp::Int(5)));
    // the body of a bulk string, read on its own
    let mut cursor = reader(b"3\r\nabc\r\n");
    assert_eq!(cursor.decode_bulk_string(), Ok(Resp::BulkBytes(b"abc".to_vec())));
}

#[test]
fn encode_request_writes_the_canonical_frame() {
    let args = vec![b"SELECT".to_vec(), b"0".to_vec()];
    assert_eq!(
        encode_request(&args),
        b"*2\r\n$6\r\nSELECT\r\n$1\r\n0\r\n".to_vec()
    );
    assert_eq!(encode_request(&vec![]), b"*0\r\n".to_vec());
    assert_eq!(encode_request(&vec![vec![]]), b"*1\r\n$0\r\n\r\n".to_vec());
    let long = vec![vec![b'x'; 123]];
    let frame = encode_request(&long);
    assert_eq!(&frame[..10], b"*1\r\n$123\r\n");
    assert_eq!(frame.len(), 10 + 123 + 2);
}

#[test]
fn decoding_an_encoded_request_gives_its_arguments_back() {
    let args = vec![b"SET".to_vec(), b"key".to_vec(), vec![], b"\r\n$".to_vec()];
    let frame = encode_request(&args);
    let total = frame.len();
    let mut cursor = ByteReader::new(frame.clone());
    let decoded = cursor.decode_resp();
    assert_eq!(
        decoded,
        Ok(Resp::Array(
            args.iter().map(|a| Resp::BulkBytes(a.clone())).collect()
        ))
    );
    assert_eq!(cursor.position(), total);
}

#[test]
fn a_value_is_read_alike_whatever_follows_it() {
    let values: Vec<&[u8]> = vec![
        &b"+OK\r\n"[..],
        &b"-ERR no\r\n"[..],
        &b":-42\r\n"[..],
        &b"$3\r\nabc\r\n"[..],
        &b"$0\r\n\r\n"[..],
        &b"$-1\r\n\r\n"[..],
        &b"*0\r\n"[..],
        &b"\n\n*2\r\n$1\r\na\r\n*1\r\n:7\r\n"[..],
    ];
    let tails: Vec<&[u8]> = vec![&b""[..], &b"\r"[..], &b"\n+X\r\n"[..], &b"$5\r\n"[..], &b"*3\r\n:1\r\n"[..], &b"\x00\xff"[..]];
    for value in &values {
        let mut alone = ByteReader::new(value.to_vec());
        let want = alone.decode_resp().unwrap();
        assert_eq!(alone.remaining(), 0);
        for tail in &tails {
            let mut bytes = value.to_vec();
            bytes.extend_from_slice(tail);
            let mut src = ByteReader::new(bytes);
            assert_eq!(src.decode_resp().unwrap(), want);
            assert_eq!(src.position(), value.len());
            assert_eq!(src.remaining(), tail.len());
        }
    }
}
