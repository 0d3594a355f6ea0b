//! The commands of the cardinality estimator.

use crate::resp::payloads;
use vstd::prelude::*;

verus! {

/// `PFADD key element [element ...]`
#[derive(Debug)]
pub struct PFADD<'a> {
    pub key: &'a [u8],
    pub elements: Vec<&'a [u8]>,
}

/// `PFCOUNT key [key ...]`
#[derive(Debug)]
pub struct PFCOUNT<'a> {
    pub keys: Vec<&'a [u8]>,
}

/// `PFMERGE destkey sourcekey [sourcekey ...]`
#[derive(Debug)]
pub struct PFMERGE<'a> {
    pub dest_key: &'a [u8],
    pub source_keys: Vec<&'a [u8]>,
}

/// The byte strings that the elements of `slices` show, in order.
pub open spec fn shown(slices: Seq<&[u8]>) -> Seq<Seq<u8>> {
    Seq::new(slices.len(), |i: int| slices[i]@)
}

/// Borrows every argument from `from` on.
fn borrow_from<'a>(args: &'a [Vec<u8>], from: usize) -> (slices: Vec<&'a [u8]>)
    requires
        from <= args@.len(),
    ensures
        shown(slices@) == payloads(args@).skip(from as int),
{
    let mut slices: Vec<&'a [u8]> = Vec::new();
    let mut i: usize = from;
    assert(shown(slices@) =~= payloads(args@).subrange(from as int, i as int));
    while i < args.len()
        invariant
            from <= i <= args@.len(),
            slices@.len() == i - from,
            shown(slices@) == payloads(args@).subrange(from as int, i as int),
        decreases args@.len() - i,
    {
        let ghost before = slices@;
        slices.push(args[i].as_slice());
        i = i + 1;
        assert(shown(slices@) =~= payloads(args@).subrange(from as int, i as int)) by {
            assert forall|j: int| 0 <= j < slices@.len() implies shown(slices@)[j] == payloads(
                args@,
            ).subrange(from as int, i as int)[j] by {
                if j < before.len() {
                    assert(shown(before)[j] == payloads(args@).subrange(from as int, i - 1)[j]);
                }
            }
        }
    }
    assert(payloads(args@).subrange(from as int, args@.len() as int) =~= payloads(args@).skip(from as int));
    slices
}

/// Reads the arguments of `PFADD`: the key, then the elements.
pub fn parse_pfadd<'a>(args: &'a [Vec<u8>]) -> (command: PFADD<'a>)
    requires
        args@.len() >= 1,
    ensures
        command.key@ == args@[0]@,
        shown(command.elements@) == payloads(args@).skip(1),
{
    let key = args[0].as_slice();
    let elements = borrow_from(args, 1);
    PFADD { key, elements }
}

/// Reads the arguments of `PFCOUNT`: the keys.
pub fn parse_pfcount<'a>(args: &'a [Vec<u8>]) -> (command: PFCOUNT<'a>)
    ensures
        shown(command.keys@) == payloads(args@),
{
    let keys = borrow_from(args, 0);
    assert(payloads(args@).skip(0) =~= payloads(args@));
    PFCOUNT { keys }
}

/// Reads the arguments of `PFMERGE`: the destination, then the sources.
pub fn parse_pfmerge<'a>(args: &'a [Vec<u8>]) -> (command: PFMERGE<'a>)
    requires
        args@.len() >= 1,
    ensures
        command.dest_key@ == args@[0]@,
        shown(command.source_keys@) == payloads(args@).skip(1),
{
    let dest_key = args[0].as_slice();
    let source_keys = borrow_from(args, 1);
    PFMERGE { dest_key, source_keys }
}

} // verus!
