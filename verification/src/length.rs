//! Lengths: bounded byte counts and their canonical encoding.
use crate::error::Error;
use crate::reader::SliceReader;
use vstd::arithmetic::div_mod::lemma_fundamental_div_mod_converse;
use vstd::prelude::*;

verus! {

/// The largest length: 256 MiB less one byte.
pub const MAX_LENGTH: u32 = 0x0fff_ffff;

/// A count of bytes.
///
/// A length is valid (see [`Length::wf`]) when it is at most [`MAX_LENGTH`].
/// Every function of this crate that returns a length returns a valid one.
#[derive(Clone, Copy, Debug, PartialEq, Eq, PartialOrd, Ord, Structural)]
pub struct Length(pub u32);

/// `n` as a length, or `LengthOverflow` if it is too large to be one.
pub open spec fn spec_length_of(n: nat) -> Result<Length, Error> {
    if n <= MAX_LENGTH {
        Ok(Length(n as u32))
    } else {
        Err(Error::LengthOverflow)
    }
}

/// The canonical encoding of the length `n`, for `n` below 2^32.
///
/// Up to 127 the length is its own single octet. Above, the first octet is
/// `0x80` plus the count of octets that follow, and those hold `n` in
/// big-endian order without a leading zero.
pub open spec fn spec_length_bytes(n: nat) -> Seq<u8> {
    if n < 0x80 {
        seq![n as u8]
    } else if n < 0x100 {
        seq![0x81u8, n as u8]
    } else if n < 0x1_0000 {
        seq![0x82u8, (n / 0x100) as u8, (n % 0x100) as u8]
    } else if n < 0x100_0000 {
        seq![0x83u8, (n / 0x1_0000) as u8, (n / 0x100 % 0x100) as u8, (n % 0x100) as u8]
    } else {
        seq![
            0x84u8,
            (n / 0x100_0000) as u8,
            (n / 0x1_0000 % 0x100) as u8,
            (n / 0x100 % 0x100) as u8,
            (n % 0x100) as u8,
        ]
    }
}

/// The number that one to four octets hold in big-endian order.
pub open spec fn spec_magnitude(s: Seq<u8>) -> nat {
    if s.len() == 1 {
        s[0] as nat
    } else if s.len() == 2 {
        (s[0] * 0x100 + s[1]) as nat
    } else if s.len() == 3 {
        (s[0] * 0x1_0000 + s[1] * 0x100 + s[2]) as nat
    } else {
        (s[0] * 0x100_0000 + s[1] * 0x1_0000 + s[2] * 0x100 + s[3]) as nat
    }
}

/// Parses a length at the start of `s`: the length and the number of octets
/// it occupies.
///
/// Rejected are the indefinite form (`0x80`), more than four magnitude octets,
/// a magnitude that would fit a shorter form, and a value above
/// [`MAX_LENGTH`].
pub open spec fn spec_parse_length(s: Seq<u8>) -> Result<(Length, nat), Error> {
    if s.len() == 0 {
        Err(Error::TruncatedInput)
    } else if s[0] < 0x80 {
        Ok((Length(s[0] as u32), 1))
    } else if s[0] == 0x80 {
        Err(Error::NonCanonicalLength)
    } else if s[0] > 0x84 {
        Err(Error::LengthOverflow)
    } else {
        let n = s[0] - 0x80;
        if s.len() < 1 + n {
            Err(Error::TruncatedInput)
        } else {
            let v = spec_magnitude(s.subrange(1, 1 + n));
            if s[1] == 0 || v < 0x80 {
                Err(Error::NonCanonicalLength)
            } else if v > MAX_LENGTH {
                Err(Error::LengthOverflow)
            } else {
                Ok((Length(v as u32), (1 + n) as nat))
            }
        }
    }
}

/// Parsing the canonical encoding of a valid length gives the length back,
/// whatever follows the encoding.
pub proof fn lemma_length_round_trip(len: Length, rest: Seq<u8>)
    requires
        len.wf(),
    ensures
        spec_parse_length(spec_length_bytes(len.0 as nat) + rest) == Ok::<(Length, nat), Error>(
            (len, spec_length_bytes(len.0 as nat).len()),
        ),
{
    let b = spec_length_bytes(len.0 as nat);
    let s = b + rest;
    if len.0 >= 0x80 {
        let n = b.len() - 1;
        assert(s.subrange(1, 1 + n) =~= b.subrange(1, 1 + n));
    }
}

/// The octets of a big-endian number are recovered by division and remainder.
proof fn lemma_octets_of_magnitude(a: int, b: int, c: int, d: int)
    requires
        0 <= a < 0x100,
        0 <= b < 0x100,
        0 <= c < 0x100,
        0 <= d < 0x100,
    ensures
        (a * 0x100_0000 + b * 0x1_0000 + c * 0x100 + d) / 0x100_0000 == a,
        (a * 0x100_0000 + b * 0x1_0000 + c * 0x100 + d) / 0x1_0000 % 0x100 == b,
        (a * 0x100_0000 + b * 0x1_0000 + c * 0x100 + d) / 0x100 % 0x100 == c,
        (a * 0x100_0000 + b * 0x1_0000 + c * 0x100 + d) % 0x100 == d,
{
    let v = a * 0x100_0000 + b * 0x1_0000 + c * 0x100 + d;
    lemma_fundamental_div_mod_converse(v, 0x100_0000, a, b * 0x1_0000 + c * 0x100 + d);
    lemma_fundamental_div_mod_converse(v, 0x1_0000, a * 0x100 + b, c * 0x100 + d);
    lemma_fundamental_div_mod_converse(a * 0x100 + b, 0x100, a, b);
    lemma_fundamental_div_mod_converse(v, 0x100, a * 0x1_0000 + b * 0x100 + c, d);
    lemma_fundamental_div_mod_converse(a * 0x1_0000 + b * 0x100 + c, 0x100, a * 0x100 + b, c);
}

/// A length is accepted only in its canonical encoding: the octets that
/// parsing consumed are the canonical encoding of the length it found.
pub proof fn lemma_parse_length_canonical(s: Seq<u8>)
    ensures
        spec_parse_length(s) matches Ok((len, n)) ==> len.wf() && 1 <= n <= 5 && n <= s.len()
            && s.subrange(0, n as int) == spec_length_bytes(len.0 as nat),
{
    if let Ok((len, n)) = spec_parse_length(s) {
        let b = spec_length_bytes(len.0 as nat);
        let t = s.subrange(0, n as int);
        if s[0] >= 0x80 {
            let m = s.subrange(1, n as int);
            assert(len.0 == spec_magnitude(m));
            if n == 2 {
                assert(m[0] == s[1]);
                lemma_octets_of_magnitude(0, 0, 0, s[1] as int);
            } else if n == 3 {
                assert(m[0] == s[1] && m[1] == s[2]);
                lemma_octets_of_magnitude(0, 0, s[1] as int, s[2] as int);
            } else if n == 4 {
                assert(m[0] == s[1] && m[1] == s[2] && m[2] == s[3]);
                lemma_octets_of_magnitude(0, s[1] as int, s[2] as int, s[3] as int);
            } else {
                assert(m[0] == s[1] && m[1] == s[2] && m[2] == s[3] && m[3] == s[4]);
                lemma_octets_of_magnitude(s[1] as int, s[2] as int, s[3] as int, s[4] as int);
            }
            assert(b.len() == n);
            assert(b[0] == s[0]);
            assert(forall|i: int| 1 <= i < n ==> b[i] == s[i]);
        }
        assert(t =~= b);
    }
}

/// The long form is rejected wherever the short form suffices.
pub proof fn lemma_long_form_rejected(s: Seq<u8>)
    requires
        s.len() >= 2,
        s[0] == 0x81,
        s[1] < 0x80,
    ensures
        spec_parse_length(s) == Err::<(Length, nat), Error>(Error::NonCanonicalLength),
{
}

impl Length {
    /// Whether the length is at most [`MAX_LENGTH`].
    pub open spec fn wf(self) -> bool {
        self.0 <= MAX_LENGTH
    }

    /// The length of nothing.
    pub fn zero() -> (l: Length)
        ensures
            l == Length(0),
    {
        Length(0)
    }

    /// The length of one byte.
    pub fn one() -> (l: Length)
        ensures
            l == Length(1),
    {
        Length(1)
    }

    /// The largest length.
    pub fn max() -> (l: Length)
        ensures
            l == Length(MAX_LENGTH),
    {
        Length(MAX_LENGTH)
    }

    /// A length from a 16-bit count, which is always valid.
    pub fn new(value: u16) -> (l: Length)
        ensures
            l == Length(value as u32),
            l.wf(),
    {
        Length(value as u32)
    }

    /// A length from a 32-bit count, or `LengthOverflow`.
    pub fn from_u32(value: u32) -> (r: Result<Length, Error>)
        ensures
            r == spec_length_of(value as nat),
    {
        if value <= MAX_LENGTH {
            Ok(Length(value))
        } else {
            Err(Error::LengthOverflow)
        }
    }

    /// A length from a `usize` count, or `LengthOverflow`.
    pub fn from_usize(value: usize) -> (r: Result<Length, Error>)
        ensures
            r == spec_length_of(value as nat),
    {
        if value <= MAX_LENGTH as usize {
            Ok(Length(value as u32))
        } else {
            Err(Error::LengthOverflow)
        }
    }

    /// The count as a 32-bit integer.
    pub fn value(self) -> (v: u32)
        ensures
            v == self.0,
    {
        self.0
    }

    /// The count as a `usize`.
    pub fn to_usize(self) -> (v: usize)
        ensures
            v == self.0,
    {
        self.0 as usize
    }

    /// Whether the length is zero.
    pub fn is_zero(self) -> (b: bool)
        ensures
            b == (self.0 == 0),
    {
        self.0 == 0
    }

    /// The sum of two lengths, or `LengthOverflow` if it is no valid length.
    pub fn checked_add(self, other: Length) -> (r: Result<Length, Error>)
        ensures
            r == spec_length_of((self.0 + other.0) as nat),
    {
        match self.0.checked_add(other.0) {
            Some(sum) => Length::from_u32(sum),
            None => Err(Error::LengthOverflow),
        }
    }

    /// The difference of two lengths, or `LengthOverflow` if `other` is the
    /// larger or the difference is no valid length.
    pub fn checked_sub(self, other: Length) -> (r: Result<Length, Error>)
        ensures
            r == (if other.0 <= self.0 {
                spec_length_of((self.0 - other.0) as nat)
            } else {
                Err(Error::LengthOverflow)
            }),
    {
        if other.0 <= self.0 {
            Length::from_u32(self.0 - other.0)
        } else {
            Err(Error::LengthOverflow)
        }
    }

    /// The number of octets of the canonical encoding of this length.
    pub fn encoded_len(self) -> (n: Length)
        ensures
            n.0 == spec_length_bytes(self.0 as nat).len(),
            1 <= n.0 <= 5,
    {
        if self.0 < 0x80 {
            Length(1)
        } else if self.0 < 0x100 {
            Length(2)
        } else if self.0 < 0x1_0000 {
            Length(3)
        } else if self.0 < 0x100_0000 {
            Length(4)
        } else {
            Length(5)
        }
    }

    /// Reads a length in its canonical encoding.
    pub fn decode(reader: &mut SliceReader<'_>) -> (r: Result<Length, Error>)
        ensures
            match spec_parse_length(old(reader)@) {
                Ok((l, n)) => r == Ok::<Length, Error>(l) && final(reader).advanced(*old(reader), n),
                Err(e) => r == Err::<Length, Error>(e) && final(reader).not_behind(*old(reader)),
            },
    {
        let first = reader.read_byte()?;
        if first < 0x80 {
            return Ok(Length(first as u32));
        }
        if first == 0x80 {
            return Err(Error::NonCanonicalLength);
        }
        if first > 0x84 {
            return Err(Error::LengthOverflow);
        }
        let count: u8 = first - 0x80;
        proof {
            reader.lemma_advanced_view(*old(reader), 1);
        }
        let m = reader.read_slice(Length(count as u32))?;
        assert(m@ =~= old(reader)@.subrange(1, 1 + count));
        let value: u32 = if count == 1 {
            m[0] as u32
        } else if count == 2 {
            m[0] as u32 * 0x100 + m[1] as u32
        } else if count == 3 {
            m[0] as u32 * 0x1_0000 + m[1] as u32 * 0x100 + m[2] as u32
        } else {
            m[0] as u32 * 0x100_0000 + m[1] as u32 * 0x1_0000 + m[2] as u32 * 0x100 + m[3] as u32
        };
        if m[0] == 0 || value < 0x80 {
            Err(Error::NonCanonicalLength)
        } else if value > MAX_LENGTH {
            Err(Error::LengthOverflow)
        } else {
            Ok(Length(value))
        }
    }

    /// Appends the canonical encoding of this length to `out`, or fails with
    /// `LengthOverflow`, leaving `out` as it was, if the length is not valid.
    pub fn encode(self, out: &mut Vec<u8>) -> (r: Result<(), Error>)
        ensures
            self.wf() ==> r is Ok && final(out)@ == old(out)@ + spec_length_bytes(self.0 as nat),
            !self.wf() ==> r == Err::<(), Error>(Error::LengthOverflow) && final(out)@ == old(out)@,
    {
        let n = self.0;
        if n > MAX_LENGTH {
            return Err(Error::LengthOverflow);
        }
        if n < 0x80 {
            out.push(n as u8);
        } else if n < 0x100 {
            out.push(0x81);
            out.push(n as u8);
        } else if n < 0x1_0000 {
            out.push(0x82);
            out.push((n / 0x100) as u8);
            out.push((n % 0x100) as u8);
        } else if n < 0x100_0000 {
            out.push(0x83);
            out.push((n / 0x1_0000) as u8);
            out.push((n / 0x100 % 0x100) as u8);
            out.push((n % 0x100) as u8);
        } else {
            out.push(0x84);
            out.push((n / 0x100_0000) as u8);
            out.push((n / 0x1_0000 % 0x100) as u8);
            out.push((n / 0x100 % 0x100) as u8);
            out.push((n % 0x100) as u8);
        }
        assert(out@ =~= old(out)@ + spec_length_bytes(self.0 as nat));
        Ok(())
    }
}

} // verus!
