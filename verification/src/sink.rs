//! A writer that puts a prefix before what it is given.

use vstd::prelude::*;
use vstd::slice::*;
use vstd::string::*;
use vstd::utf8::encode_utf8;

verus! {

/// A writer and the prefix that it puts before everything that is written
/// through it.
pub struct WritePrefixed<W>(W, String);

impl<W> WritePrefixed<W> {
    /// The writer that the output goes to.
    pub closed spec fn inner(self) -> W {
        self.0
    }

    /// The prefix.
    pub closed spec fn prefix(self) -> Seq<char> {
        self.1@
    }

    /// What a write of `buf` hands to the inner writer in all: the bytes of
    /// the prefix, then `buf`.
    pub open spec fn framed(self, buf: Seq<u8>) -> Seq<u8> {
        encode_utf8(self.prefix()) + buf
    }

    /// Wraps the writer `w`, with the prefix `s`.
    pub fn new(w: W, s: String) -> (writer: Self)
        ensures
            writer.inner() == w,
            writer.prefix() == s@,
    {
        Self(w, s)
    }

    /// The prefix.
    pub fn get_prefix(&self) -> (s: &String)
        ensures
            s@ == self.prefix(),
    {
        &self.1
    }

    /// The inner writer.
    pub fn get_ref(&self) -> (w: &W)
        ensures
            *w == self.inner(),
    {
        &self.0
    }

    /// The inner writer, to write to. The prefix stays as it is.
    pub fn get_mut(&mut self) -> (w: &mut W)
        ensures
            *w == old(self).inner(),
            final(self).inner() == *final(w),
            final(self).prefix() == old(self).prefix(),
    {
        &mut self.0
    }

    /// Gives the inner writer and the prefix back.
    pub fn into_parts(self) -> (parts: (W, String))
        ensures
            parts.0 == self.inner(),
            parts.1@ == self.prefix(),
    {
        (self.0, self.1)
    }

    /// The bytes that a write of `buf` hands to the inner writer in all.
    pub fn frame(&self, buf: &[u8]) -> (out: Vec<u8>)
        ensures
            out@ == self.framed(buf@),
    {
        let head = self.1.as_str().as_bytes();
        let mut out: Vec<u8> = Vec::new();
        let mut i: usize = 0;
        while i < head.len()
            invariant
                i <= head.len(),
                out@ == head@.take(i as int),
            decreases head.len() - i,
        {
            out.push(head[i]);
            assert(head@.take(i + 1) == head@.take(i as int).push(head[i as int]));
            i += 1;
        }
        assert(head@.take(head.len() as int) == head@);
        let mut j: usize = 0;
        assert(head@ + buf@.take(0) == head@);
        while j < buf.len()
            invariant
                j <= buf.len(),
                out@ == head@ + buf@.take(j as int),
            decreases buf.len() - j,
        {
            out.push(buf[j]);
            assert(buf@.take(j + 1) == buf@.take(j as int).push(buf[j as int]));
            assert((head@ + buf@.take(j as int)).push(buf[j as int]) == head@ + buf@.take(j + 1));
            j += 1;
        }
        assert(buf@.take(buf.len() as int) == buf@);
        out
    }
}

} // verus!
