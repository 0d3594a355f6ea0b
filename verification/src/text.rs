//! Tests on byte strings: prefixes, infixes and words.
//!
//! Replies of the handshake are inspected as bytes. The words that the
//! protocol uses are plain ASCII, so a word given as text stands for the
//! bytes of its characters.

use vstd::prelude::*;
use vstd::utf8::{encode_utf8, is_ascii_chars};

verus! {

/// The bytes of a text made of ASCII characters.
pub open spec fn ascii(text: Seq<char>) -> Seq<u8> {
    Seq::new(text.len(), |i: int| text[i] as u8)
}

/// Whether `s` begins with `prefix`.
pub open spec fn starts_with(s: Seq<u8>, prefix: Seq<u8>) -> bool {
    prefix.len() <= s.len() && s.take(prefix.len() as int) == prefix
}

/// Whether `needle` stands in `s` at index `at`.
pub open spec fn occurs_at(s: Seq<u8>, at: int, needle: Seq<u8>) -> bool {
    0 <= at && at + needle.len() <= s.len() && s.subrange(at, at + needle.len()) == needle
}

/// Whether `needle` stands somewhere in `s`.
pub open spec fn contains(s: Seq<u8>, needle: Seq<u8>) -> bool {
    exists|at: int| occurs_at(s, at, needle)
}

/// Whether `b` separates words: a blank, a tab, a line feed, a vertical tab,
/// a form feed or a carriage return.
pub open spec fn is_space(b: u8) -> bool {
    b == 32 || (9 <= b && b <= 13)
}

/// `s` without the separators it starts with.
pub open spec fn skip_spaces(s: Seq<u8>) -> Seq<u8>
    decreases s.len(),
{
    if s.len() > 0 && is_space(s[0]) {
        skip_spaces(s.skip(1))
    } else {
        s
    }
}

/// The number of bytes before the first separator of `s`.
pub open spec fn word_len(s: Seq<u8>) -> int
    decreases s.len(),
{
    if s.len() == 0 || is_space(s[0]) {
        0
    } else {
        1 + word_len(s.skip(1))
    }
}

/// The word of `s` with index `n`, counted from zero, where words are the
/// longest runs of bytes that are no separators.
pub open spec fn token(s: Seq<u8>, n: nat) -> Option<Seq<u8>>
    decreases n,
{
    let t = skip_spaces(s);
    if t.len() == 0 {
        None
    } else if n == 0 {
        Some(t.take(word_len(t)))
    } else {
        token(t.skip(word_len(t)), (n - 1) as nat)
    }
}

/// The bytes of an ASCII text are the bytes of its characters.
pub proof fn lemma_ascii_bytes(text: Seq<char>)
    requires
        is_ascii_chars(text),
    ensures
        encode_utf8(text) == ascii(text),
{
    vstd::utf8::is_ascii_chars_encode_utf8(text);
    assert(encode_utf8(text) =~= ascii(text));
}

/// Whether `needle` stands in `s` at index `at`.
pub fn stands_at(s: &[u8], at: usize, needle: &[u8]) -> (r: bool)
    ensures
        r == occurs_at(s@, at as int, needle@),
{
    let n = needle.len();
    if at > s.len() || n > s.len() - at {
        return false;
    }
    let mut i: usize = 0;
    assert(s@.len() == s.len());
    assert(s@.subrange(at as int, at + 0) =~= needle@.take(0));
    while i < n
        invariant
            i <= n,
            n == needle@.len(),
            at + n <= s@.len(),
            s@.len() <= usize::MAX,
            s@.subrange(at as int, at + i) == needle@.take(i as int),
        decreases n - i,
    {
        if s[at + i] != needle[i] {
            assert(s@.subrange(at as int, at + n)[i as int] != needle@[i as int]);
            return false;
        }
        i = i + 1;
        assert(s@.subrange(at as int, at + i) =~= needle@.take(i as int)) by {
            assert(s@.subrange(at as int, at + i - 1) == needle@.take(i - 1));
            assert forall|j: int| 0 <= j < i implies s@.subrange(at as int, at + i)[j]
                == needle@.take(i as int)[j] by {
                if j < i - 1 {
                    assert(s@.subrange(at as int, at + i - 1)[j] == needle@.take(i - 1)[j]);
                }
            }
        }
    }
    assert(needle@.take(n as int) =~= needle@);
    true
}

/// Whether `s` begins with `prefix`.
pub fn has_prefix(s: &[u8], prefix: &[u8]) -> (r: bool)
    ensures
        r == starts_with(s@, prefix@),
{
    let r = stands_at(s, 0, prefix);
    proof {
        if prefix@.len() <= s@.len() {
            assert(s@.subrange(0, prefix@.len() as int) =~= s@.take(prefix@.len() as int));
        }
    }
    r
}

/// Whether `needle` stands somewhere in `s`.
pub fn has_infix(s: &[u8], needle: &[u8]) -> (r: bool)
    ensures
        r == contains(s@, needle@),
{
    let n = needle.len();
    if n > s.len() {
        assert(forall|at: int| !occurs_at(s@, at, needle@));
        return false;
    }
    if n == 0 {
        assert(occurs_at(s@, 0, needle@)) by {
            assert(s@.subrange(0, 0) =~= needle@);
        }
        return true;
    }
    let last = s.len() - n;
    let mut at: usize = 0;
    while at <= last
        invariant
            at <= last + 1,
            last + n == s@.len(),
            last < usize::MAX,
            n == needle@.len(),
            forall|k: int| 0 <= k < at ==> !occurs_at(s@, k, needle@),
        decreases last + 1 - at,
    {
        if stands_at(s, at, needle) {
            return true;
        }
        at = at + 1;
    }
    assert(forall|k: int| !occurs_at(s@, k, needle@));
    false
}

/// Whether `b` separates words.
pub fn separates(b: u8) -> (r: bool)
    ensures
        r == is_space(b),
{
    b == 32 || (9 <= b && b <= 13)
}

/// The word of `s` with index `n`, counted from zero; `None` where `s` has
/// no more than `n` words.
pub fn nth_token(s: &[u8], n: usize) -> (r: Option<Vec<u8>>)
    ensures
        match r {
            Some(found) => token(s@, n as nat) == Some(found@),
            None => token(s@, n as nat) is None,
        },
{
    let len = s.len();
    let mut pos: usize = 0;
    let mut left: usize = n;
    assert(s@.skip(0) =~= s@);
    loop
        invariant
            pos <= len,
            len == s@.len(),
            token(s@, n as nat) == token(s@.skip(pos as int), left as nat),
        decreases left,
    {
        let ghost from = s@.skip(pos as int);
        while pos < len && separates(s[pos])
            invariant
                pos <= len,
                len == s@.len(),
                skip_spaces(from) == skip_spaces(s@.skip(pos as int)),
            decreases len - pos,
        {
            assert(s@.skip(pos as int).skip(1) =~= s@.skip(pos + 1));
            pos = pos + 1;
        }
        if pos == len {
            return None;
        }
        let start = pos;
        let ghost t = s@.skip(start as int);
        assert(skip_spaces(from) == t);
        while pos < len && !separates(s[pos])
            invariant
                start <= pos <= len,
                len == s@.len(),
                word_len(t) == (pos - start) + word_len(s@.skip(pos as int)),
                t == s@.skip(start as int),
            decreases len - pos,
        {
            assert(s@.skip(pos as int).skip(1) =~= s@.skip(pos + 1));
            pos = pos + 1;
        }
        assert(word_len(t) == pos - start);
        if left == 0 {
            let mut found: Vec<u8> = Vec::new();
            found.extend_from_slice(&s[start..pos]);
            assert(found@ =~= t.take(word_len(t)));
            return Some(found);
        }
        assert(t.skip(word_len(t)) =~= s@.skip(pos as int));
        left = left - 1;
    }
}

} // verus!
