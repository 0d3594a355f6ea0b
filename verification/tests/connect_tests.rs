use redis::ToRedisArgs;
use redis_sync::connect::{
    ack_request, auth_request, capa_request, ip_address_request, listening_port_request,
    ping_request, psync_request, Connect, Connection, NextStep, PsyncResp,
};
use redis_sync::error::RedisSyncError;
use redis_sync::io::ByteReader;

fn connection(incoming: &[u8]) -> Connection<ByteReader, Vec<u8>> {
    Connection::new(ByteReader::new(incoming.to_vec()), Vec::new())
}

#[test]
fn test_eof() {
    assert_eq!("eof".to_redis_args()[0], b"eof");
    assert_eq!(
        capa_request(),
        b"*5\r\n$8\r\nREPLCONF\r\n$4\r\ncapa\r\n$3\r\neof\r\n$4\r\ncapa\r\n$6\r\npsync2\r\n".to_vec()
    );
}

#[test]
fn requests_have_their_literal_form() {
    assert_eq!(ping_request(), b"*1\r\n$4\r\nPING\r\n".to_vec());
    assert_eq!(
        auth_request(&Some("secret".to_string()), &None),
        b"*2\r\n$4\r\nAUTH\r\n$6\r\nsecret\r\n".to_vec()
    );
    assert_eq!(
        auth_request(&Some("secret".to_string()), &Some("bob".to_string())),
        b"*3\r\n$4\r\nAUTH\r\n$3\r\nbob\r\n$6\r\nsecret\r\n".to_vec()
    );
    assert_eq!(auth_request(&None, &None), b"*1\r\n$4\r\nAUTH\r\n".to_vec());
    assert_eq!(
        listening_port_request(6380),
        b"*3\r\n$8\r\nREPLCONF\r\n$14\r\nlistening-port\r\n$4\r\n6380\r\n".to_vec()
    );
    assert_eq!(
        listening_port_request(0),
        b"*3\r\n$8\r\nREPLCONF\r\n$14\r\nlistening-port\r\n$1\r\n0\r\n".to_vec()
    );
    assert_eq!(
        ip_address_request("10.0.0.7"),
        b"*3\r\n$8\r\nREPLCONF\r\n$10\r\nip-address\r\n$8\r\n10.0.0.7\r\n".to_vec()
    );
    assert_eq!(
        psync_request("?", "-1"),
        b"*3\r\n$5\r\nPSYNC\r\n$1\r\n?\r\n$2\r\n-1\r\n".to_vec()
    );
    assert_eq!(
        ack_request("1234"),
        b"*3\r\n$8\r\nREPLCONF\r\n$3\r\nACK\r\n$4\r\n1234\r\n".to_vec()
    );
}

#[test]
fn psync_full_resync_with_length() {
    let mut c = connection(b"+FULLRESYNC abc123 100\r\n$50\r\nREDIS");
    let r = c.psync("?".to_string(), "-1".to_string());
    assert_eq!(
        r,
        Ok(PsyncResp {
            next_step: NextStep::FullSync,
            repl_id: "abc123".to_string(),
            repl_offset: 100,
            length: 50,
        })
    );
    assert_eq!(c.writer, b"*3\r\n$5\r\nPSYNC\r\n$1\r\n?\r\n$2\r\n-1\r\n".to_vec());
    // the snapshot itself is left in the stream
    assert_eq!(c.reader.remaining(), 5);
}

#[test]
fn psync_full_resync_diskless() {
    let mut incoming = b"+FULLRESYNC abc123 100\r\n$EOF:".to_vec();
    let delimiter: Vec<u8> = (0..40u8).map(|i| 0x80 + i).collect();
    incoming.extend_from_slice(&delimiter);
    incoming.extend_from_slice(b"\r\nREDIS0009");
    let mut c = connection(&incoming);
    let r = c.psync("abc".to_string(), "7".to_string()).unwrap();
    assert_eq!(r.next_step, NextStep::FullSync);
    assert_eq!(r.repl_id, "abc123");
    assert_eq!(r.repl_offset, 100);
    assert_eq!(r.length, -1);
    assert_eq!(c.reader.remaining(), 9);
}

#[test]
fn psync_continue() {
    let mut c = connection(b"+CONTINUE abc123\r\n");
    let r = c.psync("old".to_string(), "55".to_string()).unwrap();
    assert_eq!(r.next_step, NextStep::PartialResync);
    assert_eq!(r.repl_id, "abc123");
    assert_eq!(r.length, -1);
    assert_eq!(r.repl_offset, 0);

    let mut c = connection(b"+CONTINUE\r\n");
    assert_eq!(
        c.psync("old".to_string(), "55".to_string()),
        Ok(PsyncResp {
            next_step: NextStep::PartialResync,
            repl_id: String::new(),
            repl_offset: 0,
            length: -1,
        })
    );
}

#[test]
fn psync_wait_and_change_mode() {
    for reply in [&b"+NOMASTERLINK Can't SYNC\r\n"[..], &b"+LOADING\r\n"[..]] {
        let mut c = connection(reply);
        assert_eq!(
            c.psync("?".to_string(), "-1".to_string()),
            Ok(PsyncResp {
                next_step: NextStep::Wait,
                repl_id: String::new(),
                repl_offset: 0,
                length: -1,
            })
        );
    }
    let mut c = connection(b"+WHATEVER\r\n");
    assert_eq!(
        c.psync("?".to_string(), "-1".to_string()),
        Ok(PsyncResp {
            next_step: NextStep::ChangeMode,
            repl_id: String::new(),
            repl_offset: 0,
            length: 0,
        })
    );
    // a reply that is no simple string
    let mut c = connection(b"-ERR nope\r\n");
    assert_eq!(
        c.psync("?".to_string(), "-1".to_string()),
        Ok(PsyncResp {
            next_step: NextStep::Wait,
            repl_id: String::new(),
            repl_offset: 0,
            length: 0,
        })
    );
}

#[test]
fn psync_errors() {
    // no reply at all
    assert_eq!(
        connection(b"").psync("?".to_string(), "-1".to_string()),
        Err(RedisSyncError::Disconnect)
    );
    // id or offset missing
    assert_eq!(
        connection(b"+FULLRESYNC\r\n$5\r\n").psync("?".to_string(), "-1".to_string()),
        Err(RedisSyncError::Handshake)
    );
    assert_eq!(
        connection(b"+FULLRESYNC abc\r\n$5\r\n").psync("?".to_string(), "-1".to_string()),
        Err(RedisSyncError::Handshake)
    );
    // offset that is no number
    assert_eq!(
        connection(b"+FULLRESYNC abc xyz\r\n$5\r\n").psync("?".to_string(), "-1".to_string()),
        Err(RedisSyncError::Framing)
    );
    // no bulk header after the reply
    assert_eq!(
        connection(b"+FULLRESYNC abc 1\r\n:5\r\n").psync("?".to_string(), "-1".to_string()),
        Err(RedisSyncError::Handshake)
    );
    // a length that is no number
    assert_eq!(
        connection(b"+FULLRESYNC abc 1\r\n$x\r\n").psync("?".to_string(), "-1".to_string()),
        Err(RedisSyncError::Framing)
    );
    assert_eq!(
        connection(b"+FULLRESYNC abc 1\r\n$12").psync("?".to_string(), "-1".to_string()),
        Err(RedisSyncError::Disconnect)
    );
}

#[test]
fn auth_outcomes() {
    let mut c = connection(b"+OK\r\n");
    assert_eq!(c.auth(Some("123".to_string()), Some("123".to_string())), Ok(()));
    assert_eq!(c.writer, b"*3\r\n$4\r\nAUTH\r\n$3\r\n123\r\n$3\r\n123\r\n".to_vec());
    assert_eq!(
        connection(b"+anything\r\n").auth(Some("p".to_string()), None),
        Ok(())
    );
    assert_eq!(
        connection(b"-NOAUTH Authentication required.\r\n").auth(Some("p".to_string()), None),
        Err(RedisSyncError::Handshake)
    );
    // every error reply to AUTH is a rejection, whatever its wording
    assert_eq!(
        connection(b"-WRONGPASS invalid username-password pair\r\n")
            .auth(Some("bad".to_string()), None),
        Err(RedisSyncError::Handshake)
    );
    assert_eq!(
        connection(b"-ERR Client sent AUTH, but no password is set\r\n")
            .auth(Some("p".to_string()), None),
        Err(RedisSyncError::Handshake)
    );
    assert_eq!(
        connection(b"-ERR unknown command\r\n").auth(Some("p".to_string()), None),
        Err(RedisSyncError::Handshake)
    );
    assert_eq!(
        connection(b":1\r\n").auth(Some("p".to_string()), None),
        Err(RedisSyncError::Handshake)
    );
    assert_eq!(
        connection(b"").auth(Some("p".to_string()), None),
        Err(RedisSyncError::Disconnect)
    );
}

#[test]
fn ping_outcomes() {
    let mut c = connection(b"+PONG\r\n");
    assert_eq!(c.ping(), Ok("PONG".to_string()));
    assert_eq!(c.writer, b"*1\r\n$4\r\nPING\r\n".to_vec());
    assert_eq!(
        connection(b"-NOAUTH Authentication required.\r\n").ping(),
        Err(RedisSyncError::Handshake)
    );
    assert_eq!(
        connection(b"-NOPERM this user has no permissions\r\n").ping(),
        Err(RedisSyncError::Handshake)
    );
    assert_eq!(
        connection(b"-NOAUTH but no password is set\r\n").ping(),
        Ok(String::new())
    );
    assert_eq!(
        connection(b"-ERR NOPERM Unrecognized REPLCONF option: x\r\n").ping(),
        Ok(String::new())
    );
    assert_eq!(connection(b"-ERR other\r\n").ping(), Ok(String::new()));
    assert_eq!(connection(b"$1\r\nx\r\n").ping(), Err(RedisSyncError::Handshake));
}

#[test]
fn replconf_skips_the_address_on_loopback() {
    let mut c = connection(b"+PONG\r\n+OK\r\n+OK\r\n+OK\r\n");
    assert_eq!(c.replconf("127.0.0.1".to_string(), 6380), Ok(()));
    let mut expected = ping_request();
    expected.extend(listening_port_request(6380));
    expected.extend(capa_request());
    assert_eq!(c.writer, expected);
    // three replies were read, the fourth is still there
    assert_eq!(c.reader.remaining(), 5);
}

#[test]
fn replconf_announces_other_addresses() {
    let mut c = connection(b"+PONG\r\n+OK\r\n-ERR Unrecognized REPLCONF option: ip-address\r\n+OK\r\n");
    assert_eq!(c.replconf("192.168.1.9".to_string(), 1), Ok(()));
    let mut expected = ping_request();
    expected.extend(listening_port_request(1));
    expected.extend(ip_address_request("192.168.1.9"));
    expected.extend(capa_request());
    assert_eq!(c.writer, expected);
    assert_eq!(c.reader.remaining(), 0);
}

#[test]
fn replconf_stops_at_the_first_failure() {
    let mut c = connection(b"+PONG\r\n-NOAUTH Authentication required.\r\n+OK\r\n");
    assert_eq!(
        c.replconf("10.1.1.1".to_string(), 6380),
        Err(RedisSyncError::Handshake)
    );
    let mut expected = ping_request();
    expected.extend(listening_port_request(6380));
    assert_eq!(c.writer, expected);

    let mut c = connection(b"+PONG\r\n:1\r\n");
    assert_eq!(
        c.replconf("10.1.1.1".to_string(), 6380),
        Err(RedisSyncError::Handshake)
    );
    let mut c = connection(b"+PONG\r\n+OK\r\n");
    assert_eq!(
        c.replconf("10.1.1.1".to_string(), 6380),
        Err(RedisSyncError::Disconnect)
    );
}

#[test]
fn replconf_ack_only_writes() {
    let mut c = connection(b"+unread\r\n");
    assert_eq!(c.replconf_ack("42".to_string()), Ok(()));
    assert_eq!(c.writer, ack_request("42"));
    assert_eq!(c.reader.remaining(), 9);
}

// The handshake against a peer that is held in memory: what it is going to
// say is laid out beforehand, what it is told is looked at afterwards.

#[test]
fn test_auth() {
    let mut stream = connection(b"+OK\r\n");
    stream
        .auth(Some("123".to_owned()), Some("123".to_owned()))
        .expect("auth fail");
}

#[test]
fn test_ping() {
    let mut stream = connection(b"+PONG\r\n");
    let _res = stream.ping().expect("ping fail");
}

#[test]
fn test_replconf() {
    let mut stream = connection(b"+PONG\r\n+OK\r\n+OK\r\n");
    stream
        .replconf("127.0.0.1".to_string(), 6380)
        .expect("ping fail");
}

#[test]
fn test_psync() {
    let mut stream = connection(b"+PONG\r\n+OK\r\n+OK\r\n+FULLRESYNC 0123abcd 42\r\n$EOF:0123456789012345678901234567890123456789\r\n");
    stream
        .replconf("127.0.0.1".to_string(), 6380)
        .expect("replconf fail");
    let res = stream
        .psync("?".to_string(), "-1".to_string())
        .expect("psync fail");
    assert_eq!(
        res,
        PsyncResp {
            next_step: NextStep::FullSync,
            repl_id: "0123abcd".to_string(),
            repl_offset: 42,
            length: -1,
        }
    );
}
