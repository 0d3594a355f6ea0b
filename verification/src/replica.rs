//! A replica from the first request to the last command: the handshake,
//! the snapshot where one is sent, and the commands that follow it.

use crate::config::Config;
use crate::connect::{
    auth_step, follows, psync_exchange, psync_request_of, replconf_step, Connect, Connection,
    Link, NextStep, PsyncResp, PsyncValue, Step,
};
use crate::resp::request_form;
use crate::text::ascii;
use crate::decimal::{i64_to_text, signed_text};
use crate::error::RedisSyncError;
use crate::io::{after_skip, skip, ByteSink, ByteSource, CountReader};
use crate::snapshot::{object_events, parse, tell_snapshot};
use crate::sync::{replay, replay_end, replay_step, replayed_one};
use crate::{EventHandler, EventModel, RedisListener};
use vstd::prelude::*;
use vstd::utf8::encode_utf8;

verus! {

/// The length of the delimiter that ends a snapshot sent without a length.
pub const DELIMITER_LEN: u64 = 40;

/// A replica of one peer.
pub struct Replica<R: ByteSource, W: ByteSink, H: EventHandler> {
    /// The connection to the peer.
    pub connection: Connection<CountReader<R>, W>,
    /// Where everything that is decoded goes.
    pub handler: H,
    /// The password to authenticate with, if the peer asks for one.
    pub password: Option<String>,
    /// The user to authenticate as, if not the default one.
    pub username: Option<String>,
    /// The address that this replica announces.
    pub ip: String,
    /// The port that this replica announces.
    pub port: u16,
    /// The history that this replica follows; `?` where it follows none yet.
    pub repl_id: String,
    /// The replication offset reached; `-1` where nothing has been replicated yet.
    pub repl_offset: i64,
}

/// What a replica knows before it starts.
pub ghost struct Plan {
    pub password: Option<Seq<char>>,
    pub username: Option<Seq<char>>,
    pub ip: Seq<char>,
    pub port: u16,
    pub repl_id: Seq<char>,
    pub repl_offset: i64,
}

/// Authenticating where there is a password, and nothing where there is none.
pub open spec fn login_step(link: Link, plan: Plan) -> Step<()> {
    if plan.password is Some {
        auth_step(link, plan.password, plan.username)
    } else {
        Ok(((), link))
    }
}

/// The handshake: authenticating where there is a password, negotiating,
/// and asking to synchronise from the offset reached.
pub open spec fn handshake_step(link: Link, plan: Plan) -> Step<PsyncValue> {
    match login_step(link, plan) {
        Ok((_, logged_in)) => match replconf_step(logged_in, plan.ip, plan.port) {
            Ok((_, negotiated)) => psync_exchange(
                negotiated,
                request_form(
                    seq![
                        ascii("PSYNC"@),
                        encode_utf8(plan.repl_id),
                        signed_text(plan.repl_offset as int),
                    ],
                ),
            ),
            Err(e) => Err(e),
        },
        Err(e) => Err(e),
    }
}

/// What a replica has come to when the handshake is over and the stream of
/// commands is about to be read.
pub ghost struct Begun {
    /// How to go on, or the failure that ended it.
    pub result: Result<NextStep, RedisSyncError>,
    /// The history that the replica follows from here.
    pub repl_id: Seq<char>,
    /// The replication offset that the replica goes on from.
    pub repl_offset: i64,
    /// What has been handed over: the objects of the snapshot, where one was sent.
    pub events: Seq<EventModel>,
    /// The bytes that are pending where there is no failure: the commands.
    pub commands: Seq<u8>,
}

/// What follows from the peer's answer, with `pending` yet to be read.
///
/// Where the answer tells to wait or to change the way of synchronising,
/// nothing is read and the replica stays as it is. Where it announces a
/// snapshot, the snapshot is read and its objects are handed over; once
/// that is done the replica follows the history that the answer names,
/// from the offset that the answer names, and where the snapshot was sent
/// without a length its delimiter is passed over. A snapshot that cannot
/// be read leaves the replica where it was, though the objects before the
/// failure have been handed over. Where no snapshot is announced the replica
/// goes on from its own offset, and follows the history that the answer
/// names if it names one.
pub open spec fn settle_end(pending: Seq<u8>, plan: Plan, answer: PsyncValue) -> Begun {
    match answer.next_step {
        NextStep::Wait | NextStep::ChangeMode => Begun {
            result: Ok(answer.next_step),
            repl_id: plan.repl_id,
            repl_offset: plan.repl_offset,
            events: Seq::empty(),
            commands: pending,
        },
        NextStep::PartialResync => Begun {
            result: Ok(NextStep::PartialResync),
            repl_id: if answer.repl_id.len() > 0 {
                answer.repl_id
            } else {
                plan.repl_id
            },
            repl_offset: plan.repl_offset,
            events: Seq::empty(),
            commands: pending,
        },
        NextStep::FullSync => {
            let told = tell_snapshot(pending);
            match told.end {
                Ok(rest) => Begun {
                    result: Ok(NextStep::FullSync),
                    repl_id: answer.repl_id,
                    repl_offset: answer.repl_offset,
                    events: object_events(told.objects),
                    commands: if answer.length == -1 {
                        after_skip(rest, DELIMITER_LEN as int)
                    } else {
                        rest
                    },
                },
                Err(e) => Begun {
                    result: Err(e),
                    repl_id: plan.repl_id,
                    repl_offset: plan.repl_offset,
                    events: object_events(told.objects),
                    commands: Seq::empty(),
                },
            }
        },
    }
}

/// What a replica comes to by the handshake and by what follows from the
/// peer's answer. A handshake that fails leaves the replica as it was. What
/// goes out to the peer goes out in the handshake; nothing is written after it.
pub open spec fn begin_end(link: Link, plan: Plan) -> Begun {
    match handshake_step(link, plan) {
        Ok((answer, next)) => settle_end(next.feed.pending, plan, answer),
        Err(e) => Begun {
            result: Err(e),
            repl_id: plan.repl_id,
            repl_offset: plan.repl_offset,
            events: Seq::empty(),
            commands: Seq::empty(),
        },
    }
}

/// Where a started replica ends up.
pub ghost struct Ending {
    /// How `start` returns.
    pub result: Result<(), RedisSyncError>,
    /// The history that the replica follows afterwards.
    pub repl_id: Seq<char>,
    /// The replication offset reached.
    pub repl_offset: int,
    /// What has been handed over: the objects of the snapshot, where one
    /// was sent, then the commands.
    pub events: Seq<EventModel>,
}

/// Where a started replica ends up.
///
/// A failure up to the start of the commands is the failure of `start`,
/// and so is an answer that tells to change the way of synchronising. An
/// answer that tells to wait is no failure: `start` returns, to be called
/// again later. Otherwise commands are replayed until the stream fails,
/// and that failure is the failure of `start`.
pub open spec fn start_end(link: Link, plan: Plan) -> Ending {
    let begun = begin_end(link, plan);
    match begun.result {
        Ok(NextStep::Wait) => Ending {
            result: Ok(()),
            repl_id: begun.repl_id,
            repl_offset: begun.repl_offset as int,
            events: begun.events,
        },
        Ok(NextStep::ChangeMode) => Ending {
            result: Err(RedisSyncError::Handshake),
            repl_id: begun.repl_id,
            repl_offset: begun.repl_offset as int,
            events: begun.events,
        },
        Ok(_) => {
            let replayed = replay_end(begun.commands, begun.repl_offset as int);
            Ending {
                result: Err(replayed.end),
                repl_id: begun.repl_id,
                repl_offset: replayed.offset,
                events: begun.events + replayed.events,
            }
        },
        Err(e) => Ending {
            result: Err(e),
            repl_id: begun.repl_id,
            repl_offset: begun.repl_offset as int,
            events: begun.events,
        },
    }
}

impl<R: ByteSource, W: ByteSink, H: EventHandler> Replica<R, W, H> {
    /// What this replica knows.
    pub open spec fn plan(&self) -> Plan {
        Plan {
            password: match self.password {
                Some(t) => Some(t@),
                None => None,
            },
            username: match self.username {
                Some(t) => Some(t@),
                None => None,
            },
            ip: self.ip@,
            port: self.port,
            repl_id: self.repl_id@,
            repl_offset: self.repl_offset,
        }
    }

    /// A replica that has replicated nothing yet: it reads from `reader`,
    /// writes to `writer`, hands what it decodes to `handler`, takes the
    /// credentials from `config` and announces `ip` and `port`.
    pub fn new(reader: R, writer: W, handler: H, config: &Config, ip: String, port: u16) -> (replica:
        Replica<R, W, H>)
        ensures
            replica.connection.reader.feed().pending == reader.feed().pending,
            replica.connection.reader.feed().meter is None,
            replica.connection.writer == writer,
            replica.plan().ip == ip@,
            replica.plan().port == port,
            replica.plan().repl_id == "?"@,
            replica.plan().repl_offset == -1,
            replica.plan().password == match config.password {
                Some(t) => Some(t@),
                None => None::<Seq<char>>,
            },
            replica.plan().username == match config.username {
                Some(t) => Some(t@),
                None => None::<Seq<char>>,
            },
    {
        Replica {
            connection: Connection::new(CountReader::new(reader), writer),
            handler,
            password: config.password.clone(),
            username: config.username.clone(),
            ip,
            port,
            repl_id: "?".to_owned(),
            repl_offset: -1,
        }
    }
}

/// A copy of a text that may not be there.
fn copy_of(text: &Option<String>) -> (copy: Option<String>)
    ensures
        copy == *text,
{
    match text {
        Some(t) => Some(t.clone()),
        None => None,
    }
}

impl<R: ByteSource, W: ByteSink, H: EventHandler> Replica<R, W, H> {
    /// Goes through the handshake and gives the peer's answer to the
    /// request to synchronise. Nothing is handed over and the replica
    /// stays where it is.
    pub fn handshake(&mut self) -> (r: Result<PsyncResp, RedisSyncError>)
        ensures
            follows(
                r,
                final(self).connection.link(),
                handshake_step(old(self).connection.link(), old(self).plan()),
            ),
            final(self).plan() == old(self).plan(),
            final(self).handler == old(self).handler,
    {
        if self.password.is_some() {
            match self.connection.auth(copy_of(&self.password), copy_of(&self.username)) {
                Ok(()) => {},
                Err(e) => {
                    return Err(e);
                },
            }
        }
        match self.connection.replconf(self.ip.clone(), self.port) {
            Ok(()) => {},
            Err(e) => {
                return Err(e);
            },
        }
        let offset = i64_to_text(self.repl_offset);
        let frame = psync_request_of(self.repl_id.as_str().as_bytes(), offset.as_slice());
        self.connection.psync_with(frame.as_slice())
    }

    /// Does what follows from the peer's answer up to the start of the
    /// commands, and says how to go on.
    pub fn settle(&mut self, answer: PsyncResp) -> (r: Result<NextStep, RedisSyncError>)
        ensures
            r == settle_end(
                old(self).connection.reader.feed().pending,
                old(self).plan(),
                answer@,
            ).result,
            final(self).repl_id@ == settle_end(
                old(self).connection.reader.feed().pending,
                old(self).plan(),
                answer@,
            ).repl_id,
            final(self).repl_offset == settle_end(
                old(self).connection.reader.feed().pending,
                old(self).plan(),
                answer@,
            ).repl_offset,
            final(self).handler.received() == old(self).handler.received() + settle_end(
                old(self).connection.reader.feed().pending,
                old(self).plan(),
                answer@,
            ).events,
            r is Ok ==> final(self).connection.reader.feed().pending == settle_end(
                old(self).connection.reader.feed().pending,
                old(self).plan(),
                answer@,
            ).commands,
            final(self).connection.writer == old(self).connection.writer,
    {
        proof {
            assert(self.handler.received() + Seq::<EventModel>::empty()
                =~= self.handler.received());
        }
        match answer.next_step {
            NextStep::Wait => Ok(NextStep::Wait),
            NextStep::ChangeMode => Ok(NextStep::ChangeMode),
            NextStep::PartialResync => {
                if !answer.repl_id.as_str().is_empty() {
                    self.repl_id = answer.repl_id;
                }
                Ok(NextStep::PartialResync)
            },
            NextStep::FullSync => {
                match parse(&mut self.connection.reader, &mut self.handler) {
                    Ok(()) => {},
                    Err(e) => {
                        return Err(e);
                    },
                }
                if answer.length == -1 {
                    skip(&mut self.connection.reader, DELIMITER_LEN);
                }
                self.repl_id = answer.repl_id;
                self.repl_offset = answer.repl_offset;
                Ok(NextStep::FullSync)
            },
        }
    }

    /// Goes through the handshake and does what follows from the peer's
    /// answer up to the start of the commands; says how to go on.
    pub fn begin(&mut self) -> (r: Result<NextStep, RedisSyncError>)
        ensures
            r == begin_end(old(self).connection.link(), old(self).plan()).result,
            final(self).repl_id@ == begin_end(
                old(self).connection.link(),
                old(self).plan(),
            ).repl_id,
            final(self).repl_offset == begin_end(
                old(self).connection.link(),
                old(self).plan(),
            ).repl_offset,
            final(self).handler.received() == old(self).handler.received() + begin_end(
                old(self).connection.link(),
                old(self).plan(),
            ).events,
            r is Ok ==> final(self).connection.reader.feed().pending == begin_end(
                old(self).connection.link(),
                old(self).plan(),
            ).commands,
            handshake_step(old(self).connection.link(), old(self).plan()) matches Ok((_, shaken))
                ==> final(self).connection.writer.outlet() == shaken.outlet,
    {
        match self.handshake() {
            Ok(answer) => self.settle(answer),
            Err(e) => {
                proof {
                    assert(self.handler.received() + Seq::<EventModel>::empty()
                        =~= self.handler.received());
                }
                Err(e)
            },
        }
    }

    /// Reads one command, hands it over and moves the offset on by the
    /// bytes it took on the wire. Where anything fails, nothing is
    /// handed over and the offset stays as it was.
    pub fn next_command(&mut self) -> (r: Result<(), RedisSyncError>)
        ensures
            replayed_one(
                r,
                old(self).connection.reader.feed().pending,
                old(self).repl_offset,
                final(self).repl_offset,
                old(self).handler.received(),
                final(self).handler.received(),
                final(self).connection.reader.feed(),
            ),
            final(self).repl_id == old(self).repl_id,
            final(self).connection.writer == old(self).connection.writer,
    {
        replay_step(&mut self.connection.reader, &mut self.handler, &mut self.repl_offset)
    }
}

impl<R: ByteSource, W: ByteSink, H: EventHandler> RedisListener for Replica<R, W, H> {
    fn start(&mut self) -> (r: Result<(), RedisSyncError>)
        ensures
            r == start_end(old(self).connection.link(), old(self).plan()).result,
            final(self).repl_id@ == start_end(
                old(self).connection.link(),
                old(self).plan(),
            ).repl_id,
            final(self).repl_offset == start_end(
                old(self).connection.link(),
                old(self).plan(),
            ).repl_offset,
            final(self).handler.received() == old(self).handler.received() + start_end(
                old(self).connection.link(),
                old(self).plan(),
            ).events,
            handshake_step(old(self).connection.link(), old(self).plan()) matches Ok((_, shaken))
                ==> final(self).connection.writer.outlet() == shaken.outlet,
    {
        let ghost had = self.handler.received();
        let ghost begun = begin_end(self.connection.link(), self.plan());
        match self.begin() {
            Ok(NextStep::Wait) => Ok(()),
            Ok(NextStep::ChangeMode) => Err(RedisSyncError::Handshake),
            Ok(_) => {
                let ghost replayed = replay_end(
                    self.connection.reader.feed().pending,
                    self.repl_offset as int,
                );
                let end = replay(
                    &mut self.connection.reader,
                    &mut self.handler,
                    &mut self.repl_offset,
                );
                proof {
                    assert((had + begun.events) + replayed.events =~= had + (begun.events
                        + replayed.events));
                }
                Err(end)
            },
            Err(e) => Err(e),
        }
    }
}

} // verus!
