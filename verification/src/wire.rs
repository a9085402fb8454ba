//! The binary layout shared by the stored fields: fixed-width integers in
//! little-endian order and raw byte runs, read from the front of a buffer.

use vstd::prelude::*;
use vstd::bytes::{
    lemma_auto_spec_u32_to_from_le_bytes, lemma_auto_spec_u64_to_from_le_bytes,
    spec_u32_from_le_bytes, spec_u32_to_le_bytes, spec_u64_from_le_bytes, spec_u64_to_le_bytes,
    u32_from_le_bytes, u32_to_le_bytes, u64_from_le_bytes, u64_to_le_bytes,
};
use vstd::slice::slice_subrange;

verus! {

/// Splits `n` bytes off the front of `s`; `None` where `s` is shorter.
pub open spec fn take(s: Seq<u8>, n: nat) -> Option<(Seq<u8>, Seq<u8>)> {
    if s.len() >= n {
        Some((s.subrange(0, n as int), s.skip(n as int)))
    } else {
        None
    }
}

/// Reads one byte off the front of `s`.
pub open spec fn parse_u8(s: Seq<u8>) -> Option<(u8, Seq<u8>)> {
    match take(s, 1) {
        Some((head, rest)) => Some((head[0], rest)),
        None => None,
    }
}

/// The four bytes of `x`, lowest first.
pub open spec fn u32_bytes(x: u32) -> Seq<u8> {
    spec_u32_to_le_bytes(x)
}

/// Reads a 32-bit integer off the front of `s`.
pub open spec fn parse_u32(s: Seq<u8>) -> Option<(u32, Seq<u8>)> {
    match take(s, 4) {
        Some((head, rest)) => Some((spec_u32_from_le_bytes(head), rest)),
        None => None,
    }
}

/// The eight bytes of `x`, lowest first.
pub open spec fn u64_bytes(x: u64) -> Seq<u8> {
    spec_u64_to_le_bytes(x)
}

/// Reads a 64-bit integer off the front of `s`.
pub open spec fn parse_u64(s: Seq<u8>) -> Option<(u64, Seq<u8>)> {
    match take(s, 8) {
        Some((head, rest)) => Some((spec_u64_from_le_bytes(head), rest)),
        None => None,
    }
}

/// Taking `head.len()` bytes off `head + rest` gives the two parts back.
pub proof fn lemma_take_concat(head: Seq<u8>, rest: Seq<u8>)
    ensures
        take(head + rest, head.len()) == Some((head, rest)),
{
    let s = head + rest;
    assert(s.subrange(0, head.len() as int) =~= head);
    assert(s.skip(head.len() as int) =~= rest);
}

/// A byte written in front of `rest` is read back, leaving `rest`.
pub proof fn lemma_parse_u8(x: u8, rest: Seq<u8>)
    ensures
        parse_u8(seq![x] + rest) == Some((x, rest)),
{
    lemma_take_concat(seq![x], rest);
}

/// A 32-bit integer written in front of `rest` is read back, leaving `rest`.
pub proof fn lemma_parse_u32(x: u32, rest: Seq<u8>)
    ensures
        u32_bytes(x).len() == 4,
        parse_u32(u32_bytes(x) + rest) == Some((x, rest)),
{
    lemma_auto_spec_u32_to_from_le_bytes();
    lemma_take_concat(u32_bytes(x), rest);
}

/// A 64-bit integer written in front of `rest` is read back, leaving `rest`.
pub proof fn lemma_parse_u64(x: u64, rest: Seq<u8>)
    ensures
        u64_bytes(x).len() == 8,
        parse_u64(u64_bytes(x) + rest) == Some((x, rest)),
{
    lemma_auto_spec_u64_to_from_le_bytes();
    lemma_take_concat(u64_bytes(x), rest);
}

/// A cursor over a buffer that hands out its bytes front to back.
pub struct Reader<'a> {
    data: &'a [u8],
    pos: usize,
}

impl<'a> Reader<'a> {
    #[verifier::type_invariant]
    spec fn in_bounds(self) -> bool {
        self.pos <= self.data@.len()
    }

    /// The bytes not yet handed out.
    pub closed spec fn rest(&self) -> Seq<u8> {
        self.data@.skip(self.pos as int)
    }

    /// A cursor at the front of `data`.
    pub fn new(data: &'a [u8]) -> (reader: Reader<'a>)
        ensures
            reader.rest() == data@,
    {
        assert(data@.skip(0) =~= data@);
        Reader { data, pos: 0 }
    }

    /// Whether every byte has been handed out.
    pub fn at_end(&self) -> (done: bool)
        ensures
            done == (self.rest().len() == 0),
    {
        proof {
            use_type_invariant(self);
        }
        self.pos == self.data.len()
    }

    /// Hands out the next `n` bytes, or `None`, without moving, where fewer
    /// are left.
    pub fn bytes(&mut self, n: usize) -> (head: Option<&'a [u8]>)
        ensures
            match take(old(self).rest(), n as nat) {
                Some((h, r)) => head matches Some(x) && x@ == h && final(self).rest() == r,
                None => head is None && final(self).rest() == old(self).rest(),
            },
    {
        proof {
            use_type_invariant(&*self);
        }
        if self.data.len() - self.pos < n {
            return None;
        }
        let start = self.pos;
        let head = slice_subrange(self.data, start, start + n);
        self.pos = start + n;
        proof {
            let whole = self.data@;
            assert(whole.skip(start as int).subrange(0, n as int) =~= whole.subrange(
                start as int,
                start + n,
            ));
            assert(whole.skip(start as int).skip(n as int) =~= whole.skip(start + n));
        }
        Some(head)
    }

    /// Hands out the next byte.
    pub fn byte(&mut self) -> (value: Option<u8>)
        ensures
            match parse_u8(old(self).rest()) {
                Some((v, r)) => value == Some(v) && final(self).rest() == r,
                None => value is None && final(self).rest() == old(self).rest(),
            },
    {
        match self.bytes(1) {
            Some(head) => Some(head[0]),
            None => None,
        }
    }

    /// Hands out the next 32-bit integer.
    pub fn u32(&mut self) -> (value: Option<u32>)
        ensures
            match parse_u32(old(self).rest()) {
                Some((v, r)) => value == Some(v) && final(self).rest() == r,
                None => value is None && final(self).rest() == old(self).rest(),
            },
    {
        match self.bytes(4) {
            Some(head) => Some(u32_from_le_bytes(head)),
            None => None,
        }
    }

    /// Hands out the next 64-bit integer.
    pub fn u64(&mut self) -> (value: Option<u64>)
        ensures
            match parse_u64(old(self).rest()) {
                Some((v, r)) => value == Some(v) && final(self).rest() == r,
                None => value is None && final(self).rest() == old(self).rest(),
            },
    {
        match self.bytes(8) {
            Some(head) => Some(u64_from_le_bytes(head)),
            None => None,
        }
    }
}

/// Whether `a` and `b` hold the same bytes.
pub fn bytes_equal(a: &[u8], b: &[u8]) -> (same: bool)
    ensures
        same == (a@ == b@),
{
    if a.len() != b.len() {
        return false;
    }
    let mut i: usize = 0;
    while i < a.len()
        invariant
            0 <= i <= a@.len(),
            a@.len() == b@.len(),
            forall|j: int| 0 <= j < i ==> a@[j] == b@[j],
        decreases a@.len() - i,
    {
        if a[i] != b[i] {
            return false;
        }
        i += 1;
    }
    assert(a@ =~= b@);
    true
}

/// Appends `bytes` to `out`.
pub fn put_bytes(out: &mut Vec<u8>, bytes: &[u8])
    ensures
        final(out)@ == old(out)@ + bytes@,
{
    let mut i: usize = 0;
    while i < bytes.len()
        invariant
            0 <= i <= bytes@.len(),
            out@ == old(out)@ + bytes@.subrange(0, i as int),
        decreases bytes@.len() - i,
    {
        out.push(bytes[i]);
        assert(out@ =~= old(out)@ + bytes@.subrange(0, i + 1));
        i += 1;
    }
    assert(bytes@.subrange(0, i as int) =~= bytes@);
}

/// Appends the four bytes of `x` to `out`.
pub fn put_u32(out: &mut Vec<u8>, x: u32)
    ensures
        final(out)@ == old(out)@ + u32_bytes(x),
{
    let bytes = u32_to_le_bytes(x);
    put_bytes(out, bytes.as_slice());
}

/// Appends the eight bytes of `x` to `out`.
pub fn put_u64(out: &mut Vec<u8>, x: u64)
    ensures
        final(out)@ == old(out)@ + u64_bytes(x),
{
    let bytes = u64_to_le_bytes(x);
    put_bytes(out, bytes.as_slice());
}

} // verus!
