//! The replication handshake: the requests a replica sends, how the replies
//! are judged, and the exchanges themselves over a connection.
//!
//! A replica authenticates, pings, announces its port, address and
//! capabilities, and then asks to synchronise; the answer to that last request
//! says how to go on. Each request and each judgement is a function of its
//! own, so a caller that does its own reading and writing can use them one by
//! one; [`Connect`] puts them together over a [`Connection`].

use crate::decimal::{decimal_i64, decimal_text, parse_i64};
use crate::error::{same, RedisSyncError};
use crate::io::{metered, put_all, ByteSink, ByteSource, Feed, Outlet};
use crate::resp::{
    encode_request, line_from, parse_line, parse_type, parse_value, payloads, request_form,
    string_of, type_from, value_from, Parsed, Resp, RespValue, Type,
};
use crate::text::{
    ascii, contains, has_infix, has_prefix, lemma_ascii_bytes, nth_token, stands_at, starts_with,
    token,
};
use redis::ToRedisArgs;
use vstd::prelude::*;
use vstd::utf8::{decode_utf8, encode_utf8, is_ascii_chars, valid_utf8};

verus! {

/// How to go on once the request to synchronise has been answered.
#[derive(Debug, Clone, Copy, PartialEq, Eq, Structural)]
pub enum NextStep {
    /// A snapshot follows, then the command stream.
    FullSync,
    /// The command stream follows at once.
    PartialResync,
    /// The peer does not speak this protocol: decide anew how to synchronise.
    ChangeMode,
    /// The peer is not ready: ask again later.
    Wait,
}

impl NextStep {
    /// Whether the stream of commands follows: it does after a snapshot
    /// and where the peer goes on from the offset asked for.
    pub fn streams(&self) -> (r: bool)
        ensures
            r == (*self is FullSync || *self is PartialResync),
    {
        match self {
            NextStep::FullSync => true,
            NextStep::PartialResync => true,
            NextStep::ChangeMode => false,
            NextStep::Wait => false,
        }
    }
}

/// The answer to the request to synchronise.
#[derive(Debug, PartialEq)]
pub struct PsyncResp {
    pub next_step: NextStep,
    pub repl_id: String,
    pub repl_offset: i64,
    /// The length of the snapshot in bytes; `-1` where none follows or where
    /// it is sent without a length and ends in a 40-byte delimiter.
    pub length: i64,
}

/// What a [`PsyncResp`] stands for.
pub ghost struct PsyncValue {
    pub next_step: NextStep,
    pub repl_id: Seq<char>,
    pub repl_offset: i64,
    pub length: i64,
}

impl View for PsyncResp {
    type V = PsyncValue;

    open spec fn view(&self) -> PsyncValue {
        PsyncValue {
            next_step: self.next_step,
            repl_id: self.repl_id@,
            repl_offset: self.repl_offset,
            length: self.length,
        }
    }
}

// ---------------------------------------------------------------------------
// Requests
// ---------------------------------------------------------------------------

/// `<&str as redis::ToRedisArgs>::to_redis_args`: a text makes one argument,
/// its bytes.
#[verifier::external_body]
fn text_args(text: &str) -> (args: Vec<Vec<u8>>)
    ensures
        payloads(args@) == seq![encode_utf8(text@)],
{
    text.to_redis_args()
}

/// `<u16 as redis::ToRedisArgs>::to_redis_args`: a number makes one
/// argument, its decimal text.
#[verifier::external_body]
fn number_args(number: u16) -> (args: Vec<Vec<u8>>)
    ensures
        payloads(args@) == seq![decimal_text(number as nat)],
{
    number.to_redis_args()
}

/// `<Option<String> as redis::ToRedisArgs>::to_redis_args`: a text that is
/// there makes one argument, its bytes; one that is not makes none.
#[verifier::external_body]
fn optional_text_args(text: &Option<String>) -> (args: Vec<Vec<u8>>)
    ensures
        payloads(args@) == optional_arg(
            match text {
                Some(t) => Some(t@),
                None => None,
            },
        ),
{
    text.to_redis_args()
}

/// The arguments that an optional text makes.
pub open spec fn optional_arg(text: Option<Seq<char>>) -> Seq<Seq<u8>> {
    match text {
        Some(t) => seq![encode_utf8(t)],
        None => Seq::empty(),
    }
}

/// The argument that a word of the protocol makes.
fn word_args(text: &'static str) -> (args: Vec<Vec<u8>>)
    requires
        is_ascii_chars(text@),
    ensures
        payloads(args@) == seq![ascii(text@)],
{
    proof {
        lemma_ascii_bytes(text@);
    }
    text_args(text)
}

/// Moves the arguments of `more` to the end of `args`.
fn extend_args(args: &mut Vec<Vec<u8>>, more: Vec<Vec<u8>>)
    ensures
        payloads(final(args)@) == payloads(old(args)@) + payloads(more@),
{
    let mut tail = more;
    args.append(&mut tail);
    assert(payloads(args@) =~= payloads(old(args)@) + payloads(more@));
}

/// The arguments of the request to authenticate: the word `AUTH`, the user
/// name where there is one, the password where there is one.
pub open spec fn auth_args(password: Option<Seq<char>>, username: Option<Seq<char>>) -> Seq<Seq<u8>> {
    seq![ascii("AUTH"@)] + optional_arg(username) + optional_arg(password)
}

/// The request to authenticate: `AUTH`, the user name where there is one,
/// the password where there is one.
pub fn auth_request(password: &Option<String>, username: &Option<String>) -> (frame: Vec<u8>)
    ensures
        frame@ == request_form(
            auth_args(
                match password {
                    Some(t) => Some(t@),
                    None => None,
                },
                match username {
                    Some(t) => Some(t@),
                    None => None,
                },
            ),
        ),
{
    proof {
        reveal_strlit("AUTH");
    }
    let mut args = word_args("AUTH");
    if username.is_some() {
        extend_args(&mut args, optional_text_args(username));
    } else {
        assert(payloads(args@) + Seq::<Seq<u8>>::empty() =~= payloads(args@));
    }
    extend_args(&mut args, optional_text_args(password));
    encode_request(&args)
}

/// The request `PING`.
pub fn ping_request() -> (frame: Vec<u8>)
    ensures
        frame@ == request_form(seq![ascii("PING"@)]),
{
    proof {
        reveal_strlit("PING");
    }
    let args = word_args("PING");
    encode_request(&args)
}

/// The request `REPLCONF listening-port <port>`.
pub fn listening_port_request(port: u16) -> (frame: Vec<u8>)
    ensures
        frame@ == request_form(
            seq![ascii("REPLCONF"@), ascii("listening-port"@), decimal_text(port as nat)],
        ),
{
    proof {
        reveal_strlit("REPLCONF");
        reveal_strlit("listening-port");
    }
    let mut args = word_args("REPLCONF");
    extend_args(&mut args, word_args("listening-port"));
    extend_args(&mut args, number_args(port));
    assert(payloads(args@) =~= seq![
        ascii("REPLCONF"@),
        ascii("listening-port"@),
        decimal_text(port as nat),
    ]);
    encode_request(&args)
}

/// The request `REPLCONF ip-address <ip>`.
pub fn ip_address_request(ip: &str) -> (frame: Vec<u8>)
    ensures
        frame@ == request_form(seq![ascii("REPLCONF"@), ascii("ip-address"@), encode_utf8(ip@)]),
{
    proof {
        reveal_strlit("REPLCONF");
        reveal_strlit("ip-address");
    }
    let mut args = word_args("REPLCONF");
    extend_args(&mut args, word_args("ip-address"));
    extend_args(&mut args, text_args(ip));
    assert(payloads(args@) =~= seq![ascii("REPLCONF"@), ascii("ip-address"@), encode_utf8(ip@)]);
    encode_request(&args)
}

/// The request `REPLCONF capa eof capa psync2`.
pub fn capa_request() -> (frame: Vec<u8>)
    ensures
        frame@ == request_form(
            seq![
                ascii("REPLCONF"@),
                ascii("capa"@),
                ascii("eof"@),
                ascii("capa"@),
                ascii("psync2"@),
            ],
        ),
{
    proof {
        reveal_strlit("REPLCONF");
        reveal_strlit("capa");
        reveal_strlit("eof");
        reveal_strlit("psync2");
    }
    let mut args = word_args("REPLCONF");
    extend_args(&mut args, word_args("capa"));
    extend_args(&mut args, word_args("eof"));
    extend_args(&mut args, word_args("capa"));
    extend_args(&mut args, word_args("psync2"));
    assert(payloads(args@) =~= seq![
        ascii("REPLCONF"@),
        ascii("capa"@),
        ascii("eof"@),
        ascii("capa"@),
        ascii("psync2"@),
    ]);
    encode_request(&args)
}

/// The request `PSYNC <replid> <offset>`.
pub fn psync_request(repl_id: &str, repl_offset: &str) -> (frame: Vec<u8>)
    ensures
        frame@ == request_form(
            seq![ascii("PSYNC"@), encode_utf8(repl_id@), encode_utf8(repl_offset@)],
        ),
{
    proof {
        reveal_strlit("PSYNC");
    }
    let mut args = word_args("PSYNC");
    extend_args(&mut args, text_args(repl_id));
    extend_args(&mut args, text_args(repl_offset));
    assert(payloads(args@) =~= seq![
        ascii("PSYNC"@),
        encode_utf8(repl_id@),
        encode_utf8(repl_offset@),
    ]);
    encode_request(&args)
}

/// The request `PSYNC <replid> <offset>`, id and offset given as bytes.
pub fn psync_request_of(repl_id: &[u8], repl_offset: &[u8]) -> (frame: Vec<u8>)
    ensures
        frame@ == request_form(seq![ascii("PSYNC"@), repl_id@, repl_offset@]),
{
    proof {
        reveal_strlit("PSYNC");
    }
    let mut args = word_args("PSYNC");
    let mut id: Vec<u8> = Vec::new();
    id.extend_from_slice(repl_id);
    let mut offset: Vec<u8> = Vec::new();
    offset.extend_from_slice(repl_offset);
    assert(id@ =~= repl_id@);
    assert(offset@ =~= repl_offset@);
    let mut rest: Vec<Vec<u8>> = Vec::new();
    rest.push(id);
    rest.push(offset);
    assert(payloads(rest@) =~= seq![repl_id@, repl_offset@]);
    extend_args(&mut args, rest);
    assert(payloads(args@) =~= seq![ascii("PSYNC"@), repl_id@, repl_offset@]);
    encode_request(&args)
}

/// The acknowledgement `REPLCONF ACK <offset>`.
pub fn ack_request(repl_offset: &str) -> (frame: Vec<u8>)
    ensures
        frame@ == request_form(seq![ascii("REPLCONF"@), ascii("ACK"@), encode_utf8(repl_offset@)]),
{
    proof {
        reveal_strlit("REPLCONF");
        reveal_strlit("ACK");
    }
    let mut args = word_args("REPLCONF");
    extend_args(&mut args, word_args("ACK"));
    extend_args(&mut args, text_args(repl_offset));
    assert(payloads(args@) =~= seq![ascii("REPLCONF"@), ascii("ACK"@), encode_utf8(repl_offset@)]);
    encode_request(&args)
}

// ---------------------------------------------------------------------------
// Judging replies
// ---------------------------------------------------------------------------

/// Whether an error reply says that the peer will not serve this client: it
/// names a missing authentication or permission, and is not one of the two
/// complaints that a peer without password or without that option makes.
pub open spec fn is_refusal(text: Seq<u8>) -> bool {
    &&& contains(text, ascii("NOAUTH"@)) || contains(text, ascii("NOPERM"@))
    &&& !contains(text, ascii("no password"@))
    &&& !contains(text, ascii("Unrecognized REPLCONF option"@))
}

/// Whether an error reply says that the peer will not serve this client.
pub fn refuses(text: &str) -> (r: bool)
    ensures
        r == is_refusal(encode_utf8(text@)),
{
    proof {
        reveal_strlit("NOAUTH");
        reveal_strlit("NOPERM");
        reveal_strlit("no password");
        reveal_strlit("Unrecognized REPLCONF option");
        lemma_ascii_bytes("NOAUTH"@);
        lemma_ascii_bytes("NOPERM"@);
        lemma_ascii_bytes("no password"@);
        lemma_ascii_bytes("Unrecognized REPLCONF option"@);
    }
    let bytes = text.as_bytes();
    (has_infix(bytes, "NOAUTH".as_bytes()) || has_infix(bytes, "NOPERM".as_bytes())) && !has_infix(
        bytes,
        "no password".as_bytes(),
    ) && !has_infix(bytes, "Unrecognized REPLCONF option".as_bytes())
}

/// What the reply to `AUTH` means: a simple string is success; anything
/// else, an error reply of whatever wording included, means that the peer
/// has rejected the authentication, which is fatal to the handshake.
pub open spec fn auth_verdict_of(reply: RespValue) -> Result<(), RedisSyncError> {
    match reply {
        RespValue::String(_) => Ok(()),
        _ => Err(RedisSyncError::Handshake),
    }
}

/// Judges the reply to `AUTH`.
pub fn auth_verdict(reply: &Resp) -> (r: Result<(), RedisSyncError>)
    ensures
        r == auth_verdict_of(reply@),
{
    match reply {
        Resp::String(_) => Ok(()),
        _ => Err(RedisSyncError::Handshake),
    }
}

/// What the reply to a `REPLCONF` or to the `PING` before it means: a
/// simple string is success; an error is fatal where it is a refusal and
/// tolerated where it is not, as a peer may well not know every request;
/// anything else is a failure.
pub open spec fn reply_verdict_of(reply: RespValue) -> Result<(), RedisSyncError> {
    match reply {
        RespValue::String(_) => Ok(()),
        RespValue::Error(text) => if is_refusal(encode_utf8(text)) {
            Err(RedisSyncError::Handshake)
        } else {
            Ok(())
        },
        _ => Err(RedisSyncError::Handshake),
    }
}

/// Judges the reply to a `REPLCONF` or to the `PING` before it.
pub fn reply_verdict(reply: &Resp) -> (r: Result<(), RedisSyncError>)
    ensures
        r == reply_verdict_of(reply@),
{
    match reply {
        Resp::String(_) => Ok(()),
        Resp::Error(text) => {
            if refuses(text.as_str()) {
                Err(RedisSyncError::Handshake)
            } else {
                Ok(())
            }
        },
        _ => Err(RedisSyncError::Handshake),
    }
}

/// What the reply to `PING` means: a simple string is handed on; an error is
/// fatal where it is a refusal and stands for an empty answer where it is
/// not; anything else is a failure.
pub open spec fn ping_verdict_of(reply: RespValue) -> Result<Seq<char>, RedisSyncError> {
    match reply {
        RespValue::String(text) => Ok(text),
        RespValue::Error(text) => if is_refusal(encode_utf8(text)) {
            Err(RedisSyncError::Handshake)
        } else {
            Ok(Seq::empty())
        },
        _ => Err(RedisSyncError::Handshake),
    }
}

/// Judges the reply to `PING`.
pub fn ping_verdict(reply: Resp) -> (r: Result<String, RedisSyncError>)
    ensures
        same(r, ping_verdict_of(reply@)),
{
    match reply {
        Resp::String(text) => Ok(text),
        Resp::Error(text) => {
            if refuses(text.as_str()) {
                Err(RedisSyncError::Handshake)
            } else {
                Ok(String::new())
            }
        },
        _ => Err(RedisSyncError::Handshake),
    }
}

// ---------------------------------------------------------------------------
// Exchanges
// ---------------------------------------------------------------------------

/// What can be observed of a connection: what is yet to come in and what has gone out.
pub ghost struct Link {
    pub feed: Feed,
    pub outlet: Outlet,
}

/// A result of a step of the handshake: a value with the state the
/// connection is left in, or a failure.
pub type Step<T> = Result<(T, Link), RedisSyncError>;

/// Whether an executable outcome `got`, which left a connection in state
/// `after`, is the outcome `want`. Of the connection nothing is said after a failure.
pub open spec fn follows<T: View>(got: Result<T, RedisSyncError>, after: Link, want: Step<T::V>) -> bool {
    match (got, want) {
        (Ok(value), Ok((model, link))) => value@ == model && after == link,
        (Err(e), Err(w)) => e == w,
        _ => false,
    }
}

/// Sending `frame`: it goes out whole, or the step fails with `Disconnect`.
pub open spec fn send_step(link: Link, frame: Seq<u8>) -> Step<()> {
    match put_all(link.outlet, frame) {
        Ok(outlet) => Ok(((), Link { feed: link.feed, outlet })),
        Err(e) => Err(e),
    }
}

/// Receiving what `parsed` found at the front of the pending bytes.
pub open spec fn receive_step<T>(link: Link, parsed: Parsed<T>) -> Step<T> {
    match parsed {
        Ok((value, rest)) => Ok(
            (
                value,
                Link {
                    feed: Feed {
                        pending: rest,
                        meter: metered(link.feed.meter, link.feed.pending.len() - rest.len()),
                    },
                    outlet: link.outlet,
                },
            ),
        ),
        Err(e) => Err(e),
    }
}

/// Sending `frame` and receiving one value in reply.
pub open spec fn exchange_step(link: Link, frame: Seq<u8>) -> Step<RespValue> {
    match send_step(link, frame) {
        Ok((_, sent)) => receive_step(sent, parse_value(sent.feed.pending)),
        Err(e) => Err(e),
    }
}

/// A step whose value is judged: it fails where the judgement fails.
pub open spec fn judged_step<A, B>(step: Step<A>, verdict: spec_fn(A) -> Result<B, RedisSyncError>) -> Step<B> {
    match step {
        Ok((value, link)) => match verdict(value) {
            Ok(judged) => Ok((judged, link)),
            Err(e) => Err(e),
        },
        Err(e) => Err(e),
    }
}

/// Authenticating: the request goes out and its reply is judged.
pub open spec fn auth_step(link: Link, password: Option<Seq<char>>, username: Option<Seq<char>>) -> Step<()> {
    judged_step(
        exchange_step(link, request_form(auth_args(password, username))),
        |reply: RespValue| auth_verdict_of(reply),
    )
}

/// Pinging: the request goes out and its reply is judged.
pub open spec fn ping_step(link: Link) -> Step<Seq<char>> {
    judged_step(
        exchange_step(link, request_form(seq![ascii("PING"@)])),
        |reply: RespValue| ping_verdict_of(reply),
    )
}

/// Taking one reply off the connection and judging it.
pub open spec fn reply_step(link: Link) -> Step<()> {
    judged_step(
        receive_step(link, parse_value(link.feed.pending)),
        |reply: RespValue| reply_verdict_of(reply),
    )
}

/// One round of the negotiation: `frame` goes out and its reply is judged.
pub open spec fn round_step(link: Link, frame: Seq<u8>) -> Step<()> {
    match send_step(link, frame) {
        Ok((_, sent)) => reply_step(sent),
        Err(e) => Err(e),
    }
}

/// Whether `ip` is the loopback address, which is not worth announcing.
pub open spec fn is_loopback(ip: Seq<char>) -> bool {
    encode_utf8(ip) == ascii("127.0.0.1"@)
}

/// Negotiating: a ping, the listening port, the address unless it is the
/// loopback address, and the capabilities, each as a round of its own; the
/// first round that fails ends the negotiation.
pub open spec fn replconf_step(link: Link, ip: Seq<char>, port: u16) -> Step<()> {
    match round_step(link, request_form(seq![ascii("PING"@)])) {
        Ok((_, pinged)) => match round_step(
            pinged,
            request_form(
                seq![ascii("REPLCONF"@), ascii("listening-port"@), decimal_text(port as nat)],
            ),
        ) {
            Ok((_, announced)) => match (if is_loopback(ip) {
                Ok(((), announced))
            } else {
                round_step(
                    announced,
                    request_form(seq![ascii("REPLCONF"@), ascii("ip-address"@), encode_utf8(ip)]),
                )
            }) {
                Ok((_, addressed)) => round_step(
                    addressed,
                    request_form(
                        seq![
                            ascii("REPLCONF"@),
                            ascii("capa"@),
                            ascii("eof"@),
                            ascii("capa"@),
                            ascii("psync2"@),
                        ],
                    ),
                ),
                Err(e) => Err(e),
            },
            Err(e) => Err(e),
        },
        Err(e) => Err(e),
    }
}

/// The replication id and offset that a `FULLRESYNC <id> <offset>` reply
/// names: its second and third word. A reply without them is no answer to the
/// request (`Handshake`); an id that is no text or an offset that is no
/// number is malformed (`Framing`).
pub open spec fn full_resync_ids(reply: Seq<u8>) -> Result<(Seq<char>, i64), RedisSyncError> {
    match token(reply, 1) {
        Some(id) => if !valid_utf8(id) {
            Err(RedisSyncError::Framing)
        } else {
            match token(reply, 2) {
                Some(offset) => match decimal_i64(offset) {
                    Some(value) => Ok((decode_utf8(id), value as i64)),
                    None => Err(RedisSyncError::Framing),
                },
                None => Err(RedisSyncError::Handshake),
            }
        },
        None => Err(RedisSyncError::Handshake),
    }
}

/// The replication id and offset that a `FULLRESYNC` reply names.
pub fn read_full_resync_ids(reply: &[u8]) -> (r: Result<(String, i64), RedisSyncError>)
    ensures
        match (r, full_resync_ids(reply@)) {
            (Ok((id, offset)), Ok((id_model, offset_model))) => id@ == id_model && offset
                == offset_model,
            (Err(e), Err(w)) => e == w,
            _ => false,
        },
{
    let id = match nth_token(reply, 1) {
        Some(id) => id,
        None => {
            return Err(RedisSyncError::Handshake);
        },
    };
    let id = match string_of(id) {
        Some(id) => id,
        None => {
            return Err(RedisSyncError::Framing);
        },
    };
    let offset = match nth_token(reply, 2) {
        Some(offset) => offset,
        None => {
            return Err(RedisSyncError::Handshake);
        },
    };
    match parse_i64(offset.as_slice()) {
        Some(value) => Ok((id, value)),
        None => Err(RedisSyncError::Framing),
    }
}

/// The replication id that a `CONTINUE [<id>]` reply names: its second
/// word, or the empty text where it has none.
pub open spec fn continue_id(reply: Seq<u8>) -> Result<Seq<char>, RedisSyncError> {
    match token(reply, 1) {
        Some(id) => if valid_utf8(id) {
            Ok(decode_utf8(id))
        } else {
            Err(RedisSyncError::Framing)
        },
        None => Ok(Seq::empty()),
    }
}

/// The replication id that a `CONTINUE` reply names.
pub fn read_continue_id(reply: &[u8]) -> (r: Result<String, RedisSyncError>)
    ensures
        same(r, continue_id(reply@)),
{
    match nth_token(reply, 1) {
        Some(id) => match string_of(id) {
            Some(id) => Ok(id),
            None => Err(RedisSyncError::Framing),
        },
        None => Ok(String::new()),
    }
}

/// The announcement of a snapshot: the tag of a bulk string and a line that
/// either begins with `EOF`, for a snapshot sent without a length (`-1`), or
/// spells the length of the snapshot in bytes. The snapshot itself is not
/// part of it.
pub open spec fn parse_payload_length(s: Seq<u8>) -> Parsed<i64> {
    match parse_type(s) {
        Ok((kind, body)) => if kind != Type::BulkString {
            Err(RedisSyncError::Handshake)
        } else {
            match parse_line(body) {
                Ok((line, rest)) => if starts_with(line, ascii("EOF"@)) {
                    Ok((-1i64, rest))
                } else {
                    match decimal_i64(line) {
                        Some(length) => Ok((length as i64, rest)),
                        None => Err(RedisSyncError::Framing),
                    }
                },
                Err(e) => Err(e),
            }
        },
        Err(e) => Err(e),
    }
}

/// Reads the announcement of a snapshot and gives the snapshot's length.
pub fn payload_length_from<R: ByteSource>(src: &mut R) -> (r: Result<i64, RedisSyncError>)
    ensures
        crate::io::agrees(
            r,
            old(src).feed(),
            final(src).feed(),
            parse_payload_length(old(src).feed().pending),
        ),
{
    proof {
        crate::resp::lemma_type_shrinks(old(src).feed().pending);
    }
    let kind = match type_from(src) {
        Ok(kind) => kind,
        Err(e) => {
            return Err(e);
        },
    };
    match kind {
        Type::BulkString => {},
        _ => {
            return Err(RedisSyncError::Handshake);
        },
    }
    proof {
        crate::resp::lemma_line_shrinks(src.feed().pending);
    }
    let line = match line_from(src) {
        Ok(line) => line,
        Err(e) => {
            return Err(e);
        },
    };
    proof {
        reveal_strlit("EOF");
        lemma_ascii_bytes("EOF"@);
    }
    if has_prefix(line.as_slice(), "EOF".as_bytes()) {
        Ok(-1)
    } else {
        match parse_i64(line.as_slice()) {
            Some(length) => Ok(length),
            None => Err(RedisSyncError::Framing),
        }
    }
}

/// An answer that names no replication id and no offset.
pub open spec fn bare_answer(next_step: NextStep, length: i64) -> PsyncValue {
    PsyncValue { next_step, repl_id: Seq::empty(), repl_offset: 0, length }
}

/// What follows from the text that answered the request to synchronise.
///
/// `FULLRESYNC <id> <offset>` names id and offset and is followed by the
/// announcement of a snapshot, which is read too. `CONTINUE [<id>]` may
/// name a new id; no snapshot follows. `NOMASTERLINK` and `LOADING` mean
/// that the peer is not ready. Anything else means that the peer does
/// not speak this protocol.
pub open spec fn psync_reply_step(link: Link, reply: Seq<u8>) -> Step<PsyncValue> {
    if starts_with(reply, ascii("FULLRESYNC"@)) {
        match full_resync_ids(reply) {
            Ok((repl_id, repl_offset)) => match receive_step(
                link,
                parse_payload_length(link.feed.pending),
            ) {
                Ok((length, next)) => Ok(
                    (PsyncValue { next_step: NextStep::FullSync, repl_id, repl_offset, length }, next),
                ),
                Err(e) => Err(e),
            },
            Err(e) => Err(e),
        }
    } else if starts_with(reply, ascii("CONTINUE"@)) {
        match continue_id(reply) {
            Ok(repl_id) => Ok(
                (
                    PsyncValue {
                        next_step: NextStep::PartialResync,
                        repl_id,
                        repl_offset: 0,
                        length: -1i64,
                    },
                    link,
                ),
            ),
            Err(e) => Err(e),
        }
    } else if starts_with(reply, ascii("NOMASTERLINK"@)) || starts_with(reply, ascii("LOADING"@)) {
        Ok((bare_answer(NextStep::Wait, -1i64), link))
    } else {
        Ok((bare_answer(NextStep::ChangeMode, 0), link))
    }
}

/// Asking to synchronise with the request `frame`: it goes out and one
/// value comes back. A simple string is taken as the answer; any other
/// value means that the peer is not ready.
pub open spec fn psync_exchange(link: Link, frame: Seq<u8>) -> Step<PsyncValue> {
    match exchange_step(link, frame) {
        Ok((reply, next)) => match reply {
            RespValue::String(text) => psync_reply_step(next, encode_utf8(text)),
            _ => Ok((bare_answer(NextStep::Wait, 0), next)),
        },
        Err(e) => Err(e),
    }
}

/// Asking to synchronise from `repl_offset` of the history `repl_id`.
pub open spec fn psync_step(link: Link, repl_id: Seq<char>, repl_offset: Seq<char>) -> Step<PsyncValue> {
    psync_exchange(
        link,
        request_form(seq![ascii("PSYNC"@), encode_utf8(repl_id), encode_utf8(repl_offset)]),
    )
}

/// A connection to the peer: one end to read from, one to write to.
pub struct Connection<R: ByteSource, W: ByteSink> {
    pub reader: R,
    pub writer: W,
}

impl<R: ByteSource, W: ByteSink> Connection<R, W> {
    /// What can be observed of this connection.
    pub open spec fn link(&self) -> Link {
        Link { feed: self.reader.feed(), outlet: self.writer.outlet() }
    }

    /// A connection that reads from `reader` and writes to `writer`.
    pub fn new(reader: R, writer: W) -> (connection: Connection<R, W>)
        ensures
            connection.reader == reader,
            connection.writer == writer,
    {
        Connection { reader, writer }
    }

    /// Sends `frame`.
    pub fn send(&mut self, frame: &[u8]) -> (r: Result<(), RedisSyncError>)
        ensures
            follows(r, final(self).link(), send_step(old(self).link(), frame@)),
    {
        self.writer.write_all(frame)
    }

    /// Sends `frame` and reads one value in reply.
    pub fn exchange(&mut self, frame: &[u8]) -> (r: Result<Resp, RedisSyncError>)
        ensures
            follows(r, final(self).link(), exchange_step(old(self).link(), frame@)),
    {
        match self.writer.write_all(frame) {
            Ok(()) => value_from(&mut self.reader),
            Err(e) => Err(e),
        }
    }

    /// Works out what follows from the text `reply` that answered the
    /// request to synchronise, reading on where the answer announces a snapshot.
    pub fn settle_psync(&mut self, reply: &[u8]) -> (r: Result<PsyncResp, RedisSyncError>)
        ensures
            follows(r, final(self).link(), psync_reply_step(old(self).link(), reply@)),
    {
        proof {
            reveal_strlit("FULLRESYNC");
            reveal_strlit("CONTINUE");
            reveal_strlit("NOMASTERLINK");
            reveal_strlit("LOADING");
            lemma_ascii_bytes("FULLRESYNC"@);
            lemma_ascii_bytes("CONTINUE"@);
            lemma_ascii_bytes("NOMASTERLINK"@);
            lemma_ascii_bytes("LOADING"@);
        }
        if has_prefix(reply, "FULLRESYNC".as_bytes()) {
            let (repl_id, repl_offset) = match read_full_resync_ids(reply) {
                Ok(ids) => ids,
                Err(e) => {
                    return Err(e);
                },
            };
            match payload_length_from(&mut self.reader) {
                Ok(length) => Ok(
                    PsyncResp { next_step: NextStep::FullSync, repl_id, repl_offset, length },
                ),
                Err(e) => Err(e),
            }
        } else if has_prefix(reply, "CONTINUE".as_bytes()) {
            match read_continue_id(reply) {
                Ok(repl_id) => Ok(
                    PsyncResp {
                        next_step: NextStep::PartialResync,
                        repl_id,
                        repl_offset: 0,
                        length: -1,
                    },
                ),
                Err(e) => Err(e),
            }
        } else if has_prefix(reply, "NOMASTERLINK".as_bytes()) || has_prefix(
            reply,
            "LOADING".as_bytes(),
        ) {
            Ok(
                PsyncResp {
                    next_step: NextStep::Wait,
                    repl_id: String::new(),
                    repl_offset: 0,
                    length: -1,
                },
            )
        } else {
            Ok(
                PsyncResp {
                    next_step: NextStep::ChangeMode,
                    repl_id: String::new(),
                    repl_offset: 0,
                    length: 0,
                },
            )
        }
    }

    /// Asks to synchronise with the request `frame` and works out what
    /// follows from the answer.
    pub fn psync_with(&mut self, frame: &[u8]) -> (r: Result<PsyncResp, RedisSyncError>)
        ensures
            follows(r, final(self).link(), psync_exchange(old(self).link(), frame@)),
    {
        let reply = match self.exchange(frame) {
            Ok(reply) => reply,
            Err(e) => {
                return Err(e);
            },
        };
        match reply {
            Resp::String(text) => self.settle_psync(text.as_str().as_bytes()),
            _ => Ok(
                PsyncResp {
                    next_step: NextStep::Wait,
                    repl_id: String::new(),
                    repl_offset: 0,
                    length: 0,
                },
            ),
        }
    }

    /// Sends `frame` and judges the reply as [`Connect::reply`] does.
    pub fn round(&mut self, frame: &[u8]) -> (r: Result<(), RedisSyncError>)
        ensures
            follows(r, final(self).link(), round_step(old(self).link(), frame@)),
    {
        match self.writer.write_all(frame) {
            Ok(()) => self.reply(),
            Err(e) => Err(e),
        }
    }
}

/// The steps of the replication handshake.
pub trait Connect {
    /// Authenticates with `password` and, where there is one, `username`.
    fn auth(&mut self, password: Option<String>, username: Option<String>) -> Result<
        (),
        RedisSyncError,
    >;

    /// Pings the peer and gives its answer.
    fn ping(&mut self) -> Result<String, RedisSyncError>;

    /// Reads one reply and judges it.
    fn reply(&mut self) -> Result<(), RedisSyncError>;

    /// Announces the listening port, the address and the capabilities.
    fn replconf(&mut self, ip: String, port: u16) -> Result<(), RedisSyncError>;

    /// Asks to synchronise from `repl_offset` of the history `repl_id`.
    fn psync(&mut self, repl_id: String, repl_offset: String) -> Result<PsyncResp, RedisSyncError>;

    /// Acknowledges the replication offset reached.
    fn replconf_ack(&mut self, repl_offset: String) -> Result<(), RedisSyncError>;
}

impl<R: ByteSource, W: ByteSink> Connect for Connection<R, W> {
    fn auth(&mut self, password: Option<String>, username: Option<String>) -> (r: Result<
        (),
        RedisSyncError,
    >)
        ensures
            follows(
                r,
                final(self).link(),
                auth_step(
                    old(self).link(),
                    match password {
                        Some(t) => Some(t@),
                        None => None,
                    },
                    match username {
                        Some(t) => Some(t@),
                        None => None,
                    },
                ),
            ),
    {
        let frame = auth_request(&password, &username);
        match self.exchange(frame.as_slice()) {
            Ok(reply) => auth_verdict(&reply),
            Err(e) => Err(e),
        }
    }

    fn ping(&mut self) -> (r: Result<String, RedisSyncError>)
        ensures
            follows(r, final(self).link(), ping_step(old(self).link())),
    {
        let frame = ping_request();
        match self.exchange(frame.as_slice()) {
            Ok(reply) => ping_verdict(reply),
            Err(e) => Err(e),
        }
    }

    fn reply(&mut self) -> (r: Result<(), RedisSyncError>)
        ensures
            follows(r, final(self).link(), reply_step(old(self).link())),
    {
        match value_from(&mut self.reader) {
            Ok(reply) => reply_verdict(&reply),
            Err(e) => Err(e),
        }
    }

    fn replconf(&mut self, ip: String, port: u16) -> (r: Result<(), RedisSyncError>)
        ensures
            follows(r, final(self).link(), replconf_step(old(self).link(), ip@, port)),
    {
        let ping = ping_request();
        match self.round(ping.as_slice()) {
            Ok(()) => {},
            Err(e) => {
                return Err(e);
            },
        }
        let listening = listening_port_request(port);
        match self.round(listening.as_slice()) {
            Ok(()) => {},
            Err(e) => {
                return Err(e);
            },
        }
        proof {
            reveal_strlit("127.0.0.1");
            lemma_ascii_bytes("127.0.0.1"@);
        }
        let ip_bytes = ip.as_str().as_bytes();
        let loopback = "127.0.0.1".as_bytes();
        let local = ip_bytes.len() == loopback.len() && stands_at(ip_bytes, 0, loopback);
        proof {
            if ip_bytes@.len() == loopback@.len() {
                assert(ip_bytes@.subrange(0, loopback@.len() as int) =~= ip_bytes@);
            }
        }
        if !local {
            let address = ip_address_request(ip.as_str());
            match self.round(address.as_slice()) {
                Ok(()) => {},
                Err(e) => {
                    return Err(e);
                },
            }
        }
        let capa = capa_request();
        self.round(capa.as_slice())
    }

    fn psync(&mut self, repl_id: String, repl_offset: String) -> (r: Result<
        PsyncResp,
        RedisSyncError,
    >)
        ensures
            follows(r, final(self).link(), psync_step(old(self).link(), repl_id@, repl_offset@)),
    {
        let frame = psync_request(repl_id.as_str(), repl_offset.as_str());
        self.psync_with(frame.as_slice())
    }

    fn replconf_ack(&mut self, repl_offset: String) -> (r: Result<(), RedisSyncError>)
        ensures
            follows(
                r,
                final(self).link(),
                send_step(
                    old(self).link(),
                    request_form(seq![ascii("REPLCONF"@), ascii("ACK"@), encode_utf8(repl_offset@)]),
                ),
            ),
    {
        let frame = ack_request(repl_offset.as_str());
        self.send(frame.as_slice())
    }
}

} // verus!
