//! A replica-side client of the Redis replication protocol.
//!
//! The library decodes the request/response wire format, drives the
//! replication handshake, unpacks the compact encodings found in snapshots,
//! and keeps the replication offset in step with the bytes consumed.
//!
//! It does no input or output of its own. It reads from a
//! [`io::ByteSource`] and writes to a [`io::ByteSink`], and what is decoded
//! goes to an [`EventHandler`]. What each reader returns, and where it leaves
//! its source, is fixed by a grammar function over the bytes that were
//! pending: see [`resp`] for the wire format, [`rdb`] and [`snapshot`] for
//! snapshots, with [`iter`], [`listpack`], [`stream`] and [`module`] for
//! what their values are made of, [`connect`] for the handshake and
//! [`sync`] for the commands that follow. [`replica`] puts them together.
//! What a handler has been handed is told by the record that
//! [`EventHandler::received`] stands for.

pub mod cmd;
pub mod config;
pub mod connect;
pub mod decimal;
pub mod endian;
pub mod error;
pub mod io;
pub mod iter;
pub mod listpack;
pub mod lzf;
pub mod module;
pub mod rdb;
pub mod replica;
pub mod resp;
pub mod snapshot;
pub mod stream;
pub mod sync;
pub mod text;

use crate::cmd::{Command, CommandModel};
use crate::snapshot::ObjectModel;
use crate::error::RedisSyncError;
use crate::io::ByteSource;
use vstd::prelude::*;

verus! {

/// Something that follows a peer's replication stream once started.
pub trait RedisListener {
    /// Starts listening; returns when the stream ends or fails.
    fn start(&mut self) -> Result<(), RedisSyncError>;
}

/// What a listener hands to its handler.
#[derive(Debug)]
pub enum Event<'a> {
    /// An object of the snapshot.
    RDB(crate::snapshot::Object),
    /// A replicated command.
    AOF(Command<'a>),
}

/// What an [`Event`] stands for.
pub ghost enum EventModel {
    RDB(ObjectModel),
    AOF(CommandModel),
}

impl View for Event<'_> {
    type V = EventModel;

    open spec fn view(&self) -> EventModel {
        match self {
            Event::RDB(object) => EventModel::RDB(object@),
            Event::AOF(command) => EventModel::AOF(command@),
        }
    }
}

/// A record of events, first one first.
pub type Received = Seq<EventModel>;

/// The sink for everything that is decoded.
pub trait EventHandler {
    /// The events that this handler has been handed so far, first one first.
    ///
    /// It is by this record that the readers say what they have handed
    /// over. Each handler says for itself what its record is. Compiled code
    /// never asks: a handler written in plain Rust gives the function any
    /// body, and is taken at its word to take each event in turn.
    spec fn received(&self) -> Received;

    /// Takes one event, which thereby is the last that the handler has received.
    fn handle(&mut self, event: Event)
        ensures
            final(self).received() == old(self).received().push(event@),
    ;
}

/// What a module makes of its own data in a snapshot.
pub trait Module {
}

/// What a parser of modules is asked: the module's name and version, and
/// the bytes that were pending in the source it was handed.
pub ghost struct Request {
    pub name: Seq<char>,
    pub version: nat,
    pub data: Seq<u8>,
}

/// A record of requests, first one first.
pub type Requests = Seq<Request>;

/// A reader of the data that modules keep in a snapshot.
///
/// Only a module knows what its data mean. The readers of this library
/// hand the data on item by item, as [`module::ModuleData`]; a caller that
/// knows the module has its own parser read them, through
/// [`module::module_with`].
pub trait ModuleParser {
    /// What the parser makes of a module's data.
    type Output: Module;

    /// What this parser has been asked so far, first request first.
    ///
    /// It is by this record that [`module::module_with`] says what it has
    /// asked. Each parser says for itself what its record is. Compiled code
    /// never asks: a parser written in plain Rust gives the function any
    /// body.
    spec fn asked(&self) -> Requests;

    /// Reads from `input` what the module `module_name` in version
    /// `module_version` has written there. What it reads and what it
    /// returns is the parser's own business.
    fn parse<R: ByteSource>(
        &mut self,
        input: &mut R,
        module_name: &str,
        module_version: usize,
    ) -> (output: Self::Output)
        ensures
            final(self).asked() == old(self).asked().push(
                (Request {
                    name: module_name@,
                    version: module_version as nat,
                    data: old(input).feed().pending,
                }),
            ),
    ;
}

/// A handler that drops every event.
pub struct NoOpEventHandler {
    dropped: Ghost<Seq<EventModel>>,
}

impl NoOpEventHandler {
    /// A handler that has received nothing yet.
    pub fn new() -> (handler: NoOpEventHandler)
        ensures
            handler.received() == Seq::<EventModel>::empty(),
    {
        NoOpEventHandler { dropped: Ghost(Seq::empty()) }
    }
}

impl EventHandler for NoOpEventHandler {
    closed spec fn received(&self) -> Seq<EventModel> {
        self.dropped@
    }

    fn handle(&mut self, event: Event) {
        self.dropped = Ghost(self.dropped@.push(event@));
    }
}

} // verus!
