//! A forward-only cursor over a fully buffered byte region.
use crate::error::Error;
use crate::length::{Length, MAX_LENGTH};
use crate::tag::Tag;
use vstd::prelude::*;
use vstd::slice::slice_subrange;

verus! {

/// A cursor over a byte slice.
///
/// Its model is the slice it was made for ([`input`](SliceReader::input)) and
/// the number of bytes read so far ([`offset`](SliceReader::offset)); its view
/// is what is left to read. Reads only ever move the offset forward.
#[derive(Clone, Copy, Debug)]
pub struct SliceReader<'a> {
    bytes: &'a [u8],
    position: usize,
}

impl<'a> View for SliceReader<'a> {
    type V = Seq<u8>;

    /// The bytes that are left to read.
    open spec fn view(&self) -> Seq<u8> {
        self.input().skip(self.offset() as int)
    }
}

/// What a decoder owes: on the input left in `before` the parser `expected`
/// decides the outcome.
///
/// If the parser yields a value and a count, the decoder returned a value
/// with that view and moved the cursor by that count. If the parser yields an
/// error, the decoder returned that error, and the cursor is somewhere
/// between where it was and the end.
pub open spec fn decode_outcome<T: View>(
    before: SliceReader<'_>,
    after: SliceReader<'_>,
    r: Result<T, Error>,
    expected: Result<(T::V, nat), Error>,
) -> bool {
    match expected {
        Ok((v, n)) => r matches Ok(x) && x@ == v && after.advanced(before, n),
        Err(e) => r matches Err(x) && x == e && after.not_behind(before),
    }
}

impl<'a> SliceReader<'a> {
    /// The whole byte region that the cursor runs over.
    pub closed spec fn input(&self) -> Seq<u8> {
        self.bytes@
    }

    /// The number of bytes already read.
    pub closed spec fn offset(&self) -> nat {
        self.position as nat
    }

    /// The cursor never leaves its region, and the region's size is a valid
    /// length.
    #[verifier::type_invariant]
    pub open spec fn wf(self) -> bool {
        self.offset() <= self.input().len() <= MAX_LENGTH
    }

    /// `self` is `earlier` after reading exactly `n` more bytes.
    pub open spec fn advanced(self, earlier: SliceReader<'_>, n: nat) -> bool {
        &&& self.input() == earlier.input()
        &&& self.offset() == earlier.offset() + n
        &&& self.offset() <= self.input().len()
    }

    /// `self` is `earlier` after reading some number of bytes, possibly none.
    pub open spec fn not_behind(self, earlier: SliceReader<'_>) -> bool {
        &&& self.input() == earlier.input()
        &&& earlier.offset() <= self.offset() <= self.input().len()
    }

    /// After reading `n` bytes, what is left is what was left without its
    /// first `n` bytes.
    pub proof fn lemma_advanced_view(self, earlier: SliceReader<'_>, n: nat)
        requires
            self.advanced(earlier, n),
        ensures
            n <= earlier@.len(),
            self@ == earlier@.skip(n as int),
    {
        assert(self@ =~= earlier@.skip(n as int));
    }

    /// A cursor at the start of `bytes`, or `LengthOverflow` if `bytes` is
    /// longer than the largest length.
    pub fn new(bytes: &'a [u8]) -> (r: Result<Self, Error>)
        ensures
            match r {
                Ok(reader) => bytes@.len() <= MAX_LENGTH && reader.input() == bytes@ && reader.offset()
                    == 0,
                Err(e) => bytes@.len() > MAX_LENGTH && e == Error::LengthOverflow,
            },
    {
        if bytes.len() <= MAX_LENGTH as usize {
            Ok(SliceReader { bytes, position: 0 })
        } else {
            Err(Error::LengthOverflow)
        }
    }

    /// The size of the whole region.
    pub fn input_len(&self) -> (l: Length)
        ensures
            l.0 == self.input().len(),
            l.wf(),
    {
        proof {
            use_type_invariant(self);
        }
        Length(self.bytes.len() as u32)
    }

    /// The number of bytes already read.
    pub fn position(&self) -> (l: Length)
        ensures
            l.0 == self.offset(),
            l.wf(),
    {
        proof {
            use_type_invariant(self);
        }
        Length(self.position as u32)
    }

    /// The number of bytes left to read.
    pub fn remaining_len(&self) -> (l: Length)
        ensures
            l.0 == self@.len(),
            l.wf(),
    {
        proof {
            use_type_invariant(self);
        }
        Length((self.bytes.len() - self.position) as u32)
    }

    /// Whether every byte has been read.
    pub fn is_finished(&self) -> (b: bool)
        ensures
            b == (self@.len() == 0),
    {
        proof {
            use_type_invariant(self);
        }
        self.position == self.bytes.len()
    }

    /// The next byte, if there is one, without reading it.
    pub fn peek_byte(&self) -> (r: Option<u8>)
        ensures
            r == (if self@.len() > 0 {
                Some(self@[0])
            } else {
                None
            }),
    {
        proof {
            use_type_invariant(self);
        }
        if self.position < self.bytes.len() {
            Some(self.bytes[self.position])
        } else {
            None
        }
    }

    /// The tag that the next byte stands for, without reading it: `None` at
    /// the end of the input, `MalformedTag` if the byte stands for no tag.
    pub fn peek_tag(&self) -> (r: Result<Option<Tag>, Error>)
        ensures
            r == spec_peek_tag(self@),
    {
        match self.peek_byte() {
            None => Ok(None),
            Some(byte) => match Tag::from_octet(byte) {
                Ok(tag) => Ok(Some(tag)),
                Err(e) => Err(e),
            },
        }
    }

    /// Reads one byte, or fails with `TruncatedInput` at the end of the input.
    pub fn read_byte(&mut self) -> (r: Result<u8, Error>)
        ensures
            match r {
                Ok(b) => old(self)@.len() > 0 && b == old(self)@[0] && final(self).advanced(
                    *old(self),
                    1,
                ),
                Err(e) => old(self)@.len() == 0 && e == Error::TruncatedInput && *final(self) == *old(self)
                    && final(self).not_behind(*old(self)),
            },
    {
        proof {
            use_type_invariant(&*self);
        }
        if self.position < self.bytes.len() {
            let b = self.bytes[self.position];
            self.position = self.position + 1;
            Ok(b)
        } else {
            Err(Error::TruncatedInput)
        }
    }

    /// Reads `len` bytes as a slice of the input, or fails with
    /// `TruncatedInput`, reading nothing, if fewer are left.
    pub fn read_slice(&mut self, len: Length) -> (r: Result<&'a [u8], Error>)
        ensures
            match r {
                Ok(s) => len.0 <= old(self)@.len() && s@ == old(self)@.take(len.0 as int) && final(self).advanced(*old(self), len.0 as nat),
                Err(e) => len.0 > old(self)@.len() && e == Error::TruncatedInput && *final(self)
                    == *old(self) && final(self).not_behind(*old(self)),
            },
    {
        proof {
            use_type_invariant(&*self);
        }
        let n = len.to_usize();
        if n <= self.bytes.len() - self.position {
            let s = slice_subrange(self.bytes, self.position, self.position + n);
            assert(s@ =~= self@.take(len.0 as int));
            self.position = self.position + n;
            Ok(s)
        } else {
            Err(Error::TruncatedInput)
        }
    }

    /// Opens a bounded cursor over exactly the next `len` bytes and moves
    /// this cursor past them, or fails with `TruncatedInput`, reading nothing,
    /// if fewer are left.
    ///
    /// The bounded cursor is to be closed with [`finish`](SliceReader::finish),
    /// which rejects bytes left unread.
    pub fn nested(&mut self, len: Length) -> (r: Result<SliceReader<'a>, Error>)
        ensures
            match r {
                Ok(sub) => len.0 <= old(self)@.len() && sub.input() == old(self)@.take(len.0 as int)
                    && sub.offset() == 0 && final(self).advanced(*old(self), len.0 as nat),
                Err(e) => len.0 > old(self)@.len() && e == Error::TruncatedInput && *final(self)
                    == *old(self) && final(self).not_behind(*old(self)),
            },
    {
        match self.read_slice(len) {
            Ok(bytes) => {
                proof {
                    use_type_invariant(&*self);
                }
                Ok(SliceReader { bytes, position: 0 })
            },
            Err(e) => Err(e),
        }
    }

    /// Closes the cursor: fails with `TrailingData` if bytes are left unread.
    pub fn finish(&self) -> (r: Result<(), Error>)
        ensures
            r == spec_finish(self@),
    {
        if self.is_finished() {
            Ok(())
        } else {
            Err(Error::TrailingData)
        }
    }
}

/// The tag at the start of `s`: `None` if `s` is empty, `MalformedTag` if its
/// first byte stands for no tag.
pub open spec fn spec_peek_tag(s: Seq<u8>) -> Result<Option<Tag>, Error> {
    if s.len() == 0 {
        Ok(None)
    } else {
        match Tag::spec_from_octet(s[0]) {
            Some(tag) => Ok(Some(tag)),
            None => Err(Error::MalformedTag),
        }
    }
}

/// Closing a bounded region with `rest` left unread.
pub open spec fn spec_finish(rest: Seq<u8>) -> Result<(), Error> {
    if rest.len() == 0 {
        Ok(())
    } else {
        Err(Error::TrailingData)
    }
}

} // verus!
