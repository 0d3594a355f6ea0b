//! LZF decompression of the compressed strings found in snapshots.
//!
//! Compressed data is a run of instructions. An instruction whose first byte
//! is below 32 is a literal run: that byte plus one says how many of the
//! following bytes are copied to the output as they are. Any other first byte
//! starts a back-reference: its upper three bits give a length, which a
//! further byte extends where the three bits are all set, and its lower five
//! bits together with the next byte say how far back in the output the copy
//! starts. Such a copy may overlap the bytes it produces.

use crate::error::{same, RedisSyncError};
use vstd::prelude::*;

verus! {

/// The longest literal run, and the first byte that starts a back-reference.
pub const MAX_LITERAL: u8 = 32;

/// `out` with `count` more bytes, each a copy of the byte that stands
/// `out.len() - from` places before it.
pub open spec fn copy_back(out: Seq<u8>, from: int, count: nat) -> Seq<u8>
    decreases count,
{
    if count == 0 {
        out
    } else {
        copy_back(out.push(out[from]), from + 1, (count - 1) as nat)
    }
}

/// The output that the instructions `input` produce when `out` has been
/// produced already and exactly `limit` bytes are expected in all.
///
/// An instruction that is cut short, a back-reference to before the start of
/// the output, and an output that is shorter or longer than expected are all
/// failures.
pub open spec fn expand(input: Seq<u8>, out: Seq<u8>, limit: nat) -> Result<Seq<u8>, RedisSyncError>
    decreases input.len(),
{
    if input.len() == 0 {
        if out.len() == limit {
            Ok(out)
        } else {
            Err(RedisSyncError::Encoding)
        }
    } else if input[0] < MAX_LITERAL {
        let run = input[0] + 1;
        if input.len() < 1 + run || out.len() + run > limit {
            Err(RedisSyncError::Encoding)
        } else {
            expand(input.skip(1 + run), out + input.subrange(1, 1 + run), limit)
        }
    } else {
        let short = input[0] / 32;
        let extra: int = if short == 7 {
            1
        } else {
            0
        };
        if input.len() < 2 + extra {
            Err(RedisSyncError::Encoding)
        } else {
            let length = short + (if short == 7 {
                input[1] as int
            } else {
                0
            }) + 2;
            let back = (input[0] % 32) * 256 + input[1 + extra] + 1;
            if back > out.len() || out.len() + length > limit {
                Err(RedisSyncError::Encoding)
            } else {
                expand(
                    input.skip(2 + extra),
                    copy_back(out, out.len() - back, length as nat),
                    limit,
                )
            }
        }
    }
}

/// The bytes that `input` decompresses to, where they are exactly `limit` bytes.
pub open spec fn decompressed(input: Seq<u8>, limit: nat) -> Result<Seq<u8>, RedisSyncError> {
    expand(input, Seq::empty(), limit)
}

/// Compressed data that is one literal run and nothing else decompresses to
/// the bytes of that run, and to nothing where another length is expected.
pub proof fn lemma_literal_run(literal: Seq<u8>, limit: nat)
    requires
        1 <= literal.len() <= MAX_LITERAL,
    ensures
        decompressed(seq![(literal.len() - 1) as u8] + literal, limit) == if limit == literal.len() {
            Ok::<Seq<u8>, RedisSyncError>(literal)
        } else {
            Err::<Seq<u8>, RedisSyncError>(RedisSyncError::Encoding)
        },
{
    let input = seq![(literal.len() - 1) as u8] + literal;
    let run = literal.len() as int;
    assert(input[0] == (literal.len() - 1) as u8);
    assert(input.len() == 1 + run);
    if limit >= literal.len() {
        assert(input.skip(1 + run) =~= Seq::<u8>::empty());
        assert(Seq::<u8>::empty() + input.subrange(1, 1 + run) =~= literal);
        assert(expand(input.skip(1 + run), literal, limit) == if limit == literal.len() {
            Ok::<Seq<u8>, RedisSyncError>(literal)
        } else {
            Err::<Seq<u8>, RedisSyncError>(RedisSyncError::Encoding)
        });
    }
}

/// Decompresses `input`, which has to give exactly `output_len` bytes.
pub fn decompress(input: &[u8], output_len: u64) -> (r: Result<Vec<u8>, RedisSyncError>)
    ensures
        same(r, decompressed(input@, output_len as nat)),
{
    let mut out: Vec<u8> = Vec::new();
    let mut i: usize = 0;
    let n = input.len();
    assert(input@.skip(0) =~= input@);
    while i < n
        invariant
            i <= n,
            n == input@.len(),
            out@.len() <= output_len,
            decompressed(input@, output_len as nat) == expand(
                input@.skip(i as int),
                out@,
                output_len as nat,
            ),
        decreases n - i,
    {
        let ghost rest = input@.skip(i as int);
        let ghost before = out@;
        let ctrl = input[i];
        if ctrl < MAX_LITERAL {
            let run: usize = ctrl as usize + 1;
            if n - i < 1 + run || output_len - (out.len() as u64) < (run as u64) {
                return Err(RedisSyncError::Encoding);
            }
            out.extend_from_slice(&input[i + 1..i + 1 + run]);
            proof {
                assert(input@.subrange(i + 1, i + 1 + run) =~= rest.subrange(1, 1 + run));
                assert(rest.skip(1 + run) =~= input@.skip(i + 1 + run));
                assert(out@ =~= before + rest.subrange(1, 1 + run));
            }
            i = i + 1 + run;
        } else {
            let short: usize = (ctrl / 32) as usize;
            let extra: usize = if short == 7 {
                1
            } else {
                0
            };
            if n - i < 2 + extra {
                return Err(RedisSyncError::Encoding);
            }
            let more: usize = if short == 7 {
                input[i + 1] as usize
            } else {
                0
            };
            let length: usize = short + more + 2;
            let back: usize = (ctrl % 32) as usize * 256 + input[i + 1 + extra] as usize + 1;
            if back > out.len() || output_len - (out.len() as u64) < (length as u64) {
                return Err(RedisSyncError::Encoding);
            }
            let mut from: usize = out.len() - back;
            let mut copied: usize = 0;
            while copied < length
                invariant
                    copied <= length,
                    from + back == out@.len(),
                    1 <= back,
                    out@.len() == before.len() + copied,
                    before.len() + length <= output_len,
                    copy_back(before, before.len() - back, length as nat) == copy_back(
                        out@,
                        from as int,
                        (length - copied) as nat,
                    ),
                decreases length - copied,
            {
                let byte = out[from];
                out.push(byte);
                assert(from < out.len());
                from = from + 1;
                copied = copied + 1;
            }
            proof {
                assert(rest.skip(2 + extra) =~= input@.skip(i + 2 + extra));
            }
            i = i + 2 + extra;
        }
    }
    if out.len() as u64 == output_len {
        Ok(out)
    } else {
        Err(RedisSyncError::Encoding)
    }
}

} // verus!
