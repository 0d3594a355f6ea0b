//! Replicated commands: from the arguments of a decoded frame to a typed command.

pub mod hyperloglog;

use crate::cmd::hyperloglog::{
    parse_pfadd, parse_pfcount, parse_pfmerge, shown, PFADD, PFCOUNT, PFMERGE,
};
use crate::resp::payloads;
use crate::text::ascii;
use vstd::prelude::*;

verus! {

/// A replicated command.
#[derive(Debug)]
pub enum Command<'a> {
    PFADD(PFADD<'a>),
    PFCOUNT(PFCOUNT<'a>),
    PFMERGE(PFMERGE<'a>),
    /// A command that this library does not know; its name and arguments.
    Other(&'a [Vec<u8>]),
}

/// What a [`Command`] stands for.
pub ghost enum CommandModel {
    PFADD { key: Seq<u8>, elements: Seq<Seq<u8>> },
    PFCOUNT { keys: Seq<Seq<u8>> },
    PFMERGE { dest_key: Seq<u8>, source_keys: Seq<Seq<u8>> },
    /// A command that this library does not know; its name and arguments.
    Other(Seq<Seq<u8>>),
}

impl View for Command<'_> {
    type V = CommandModel;

    open spec fn view(&self) -> CommandModel {
        match self {
            Command::PFADD(c) => CommandModel::PFADD { key: c.key@, elements: shown(c.elements@) },
            Command::PFCOUNT(c) => CommandModel::PFCOUNT { keys: shown(c.keys@) },
            Command::PFMERGE(c) => CommandModel::PFMERGE {
                dest_key: c.dest_key@,
                source_keys: shown(c.source_keys@),
            },
            Command::Other(all) => CommandModel::Other(payloads(all@)),
        }
    }
}

/// A letter in upper case; any other byte as it is.
pub open spec fn upper(b: u8) -> u8 {
    if 97 <= b && b <= 122 {
        (b - 32) as u8
    } else {
        b
    }
}

/// Whether `name` is `word` but for the case of its letters.
pub open spec fn names(name: Seq<u8>, word: Seq<u8>) -> bool {
    name.len() == word.len() && forall|i: int| 0 <= i < name.len() ==> upper(#[trigger] name[i]) == upper(word[i])
}

/// Whether `name` is `word` but for the case of its letters.
pub fn is_named(name: &[u8], word: &[u8]) -> (r: bool)
    ensures
        r == names(name@, word@),
{
    if name.len() != word.len() {
        return false;
    }
    let mut i: usize = 0;
    while i < name.len()
        invariant
            i <= name@.len(),
            name@.len() == word@.len(),
            forall|j: int| 0 <= j < i ==> upper(#[trigger] name@[j]) == upper(word@[j]),
        decreases name@.len() - i,
    {
        let a = name[i];
        let b = word[i];
        let a = if 97 <= a && a <= 122 {
            a - 32
        } else {
            a
        };
        let b = if 97 <= b && b <= 122 {
            b - 32
        } else {
            b
        };
        if a != b {
            return false;
        }
        i = i + 1;
    }
    true
}

/// The kinds of command that this library knows.
pub enum CommandKind {
    PFADD,
    PFCOUNT,
    PFMERGE,
    Other,
}

/// The kind of the command that `args` spell: the first argument names it,
/// in letters of either case. A known command that lacks its key counts as
/// unknown, and so does a frame without arguments.
pub open spec fn kind_of(args: Seq<Seq<u8>>) -> CommandKind {
    if args.len() == 0 {
        CommandKind::Other
    } else if names(args[0], ascii("PFADD"@)) && args.len() >= 2 {
        CommandKind::PFADD
    } else if names(args[0], ascii("PFCOUNT"@)) {
        CommandKind::PFCOUNT
    } else if names(args[0], ascii("PFMERGE"@)) && args.len() >= 2 {
        CommandKind::PFMERGE
    } else {
        CommandKind::Other
    }
}

/// The command that `args` spell: the command of their kind, made of the
/// arguments after the name.
pub open spec fn command_of(args: Seq<Seq<u8>>) -> CommandModel {
    match kind_of(args) {
        CommandKind::PFADD => CommandModel::PFADD { key: args[1], elements: args.skip(2) },
        CommandKind::PFCOUNT => CommandModel::PFCOUNT { keys: args.skip(1) },
        CommandKind::PFMERGE => CommandModel::PFMERGE {
            dest_key: args[1],
            source_keys: args.skip(2),
        },
        CommandKind::Other => CommandModel::Other(args),
    }
}

/// Reads the command that the arguments of a frame spell.
pub fn parse<'a>(args: &'a [Vec<u8>]) -> (command: Command<'a>)
    ensures
        command@ == command_of(payloads(args@)),
{
    proof {
        reveal_strlit("PFADD");
        reveal_strlit("PFCOUNT");
        reveal_strlit("PFMERGE");
        crate::text::lemma_ascii_bytes("PFADD"@);
        crate::text::lemma_ascii_bytes("PFCOUNT"@);
        crate::text::lemma_ascii_bytes("PFMERGE"@);
    }
    if args.len() == 0 {
        return Command::Other(args);
    }
    let name = args[0].as_slice();
    assert(payloads(args@)[0] == name@);
    let tail = &args[1..args.len()];
    proof {
        assert(payloads(tail@) =~= payloads(args@).skip(1));
        if tail@.len() > 0 {
            assert(payloads(tail@).skip(1) =~= payloads(args@).skip(2));
            assert(tail@[0] == args@[1]);
        }
    }
    if is_named(name, "PFADD".as_bytes()) && args.len() >= 2 {
        Command::PFADD(parse_pfadd(tail))
    } else if is_named(name, "PFCOUNT".as_bytes()) {
        Command::PFCOUNT(parse_pfcount(tail))
    } else if is_named(name, "PFMERGE".as_bytes()) && args.len() >= 2 {
        Command::PFMERGE(parse_pfmerge(tail))
    } else {
        Command::Other(args)
    }
}

} // verus!
