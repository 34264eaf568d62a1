//! A read-only, bit-addressable view over a byte buffer.
use vstd::prelude::*;

verus! {

/// The bit at position `i` of a left-aligned buffer: bit `7 - i % 8`
/// (counting from the least significant bit) of byte `i / 8`.
pub open spec fn bit_at(buf: Seq<u8>, i: int) -> bool {
    (buf[i / 8] >> ((7 - i % 8) as u8)) & 1u8 == 1u8
}

/// The number of bytes needed to hold `n` bits.
pub open spec fn bytes_for(n: nat) -> nat {
    ((n + 7) / 8) as nat
}

/// The bits that a left-aligned buffer holds in its first `n` positions.
pub open spec fn bits_of(buf: Seq<u8>, n: nat) -> Seq<bool> {
    Seq::new(n, |i: int| bit_at(buf, i))
}

/// The text of the first `n` bits of `bits`, as `0` and `1`, with a `:`
/// before every bit whose position is a non-zero multiple of eight.
pub open spec fn bits_text(bits: Seq<bool>, n: nat) -> Seq<char>
    decreases n,
{
    if n == 0 {
        seq![]
    } else {
        let i = (n - 1) as nat;
        bits_text(bits, i) + (if i > 0 && i % 8 == 0 {
            seq![':']
        } else {
            seq![]
        }) + seq![
            if bits[i as int] {
                '1'
            } else {
                '0'
            },
        ]
    }
}

/// An immutable bit stream over a byte slice with an explicit bit count.
///
/// The buffer is left-aligned: the first bit of the stream is the most
/// significant bit of the first byte. The buffer holds exactly as many bytes
/// as the bit count needs. Its view is the sequence of the stream's bits.
#[derive(Clone, Copy, PartialEq, Eq)]
pub struct BitStream<'a> {
    buffer: &'a [u8],
    bit_count: usize,
}

/// Errors that can occur when creating a `BitStream`.
#[derive(Debug, Clone, PartialEq, Eq, Structural)]
pub enum BitStreamError {
    /// The provided buffer is too small to hold the specified number of bits.
    BufferTooSmall { required_bytes: usize, provided_bytes: usize },
}

impl<'a> View for BitStream<'a> {
    type V = Seq<bool>;

    closed spec fn view(&self) -> Seq<bool> {
        bits_of(self.buffer@, self.bit_count as nat)
    }
}

impl<'a> BitStream<'a> {
    #[verifier::type_invariant]
    spec fn well_formed(&self) -> bool {
        self.buffer@.len() == bytes_for(self.bit_count as nat)
    }

    /// The bytes that the stream holds.
    pub closed spec fn bytes(&self) -> Seq<u8> {
        self.buffer@
    }

    /// Creates a stream of the first `bit_count` bits of `buffer`, keeping
    /// only the bytes that those bits need.
    pub fn new(buffer: &'a [u8], bit_count: usize) -> (r: Result<Self, BitStreamError>)
        ensures
            buffer@.len() < bytes_for(bit_count as nat) ==> r == Err::<Self, BitStreamError>(
                BitStreamError::BufferTooSmall {
                    required_bytes: bytes_for(bit_count as nat) as usize,
                    provided_bytes: buffer@.len() as usize,
                },
            ),
            buffer@.len() >= bytes_for(bit_count as nat) ==> (r matches Ok(s) && s@ == bits_of(
                buffer@,
                bit_count as nat,
            ) && s.bytes() == buffer@.subrange(0, bytes_for(bit_count as nat) as int)),
    {
        let required_bytes: usize = bit_count / 8 + if bit_count % 8 == 0 {
            0
        } else {
            1
        };
        if buffer.len() < required_bytes {
            return Err(
                BitStreamError::BufferTooSmall { required_bytes, provided_bytes: buffer.len() },
            );
        }
        let shrunk = &buffer[0..required_bytes];
        let s = BitStream { buffer: shrunk, bit_count };
        assert(s@ =~= bits_of(buffer@, bit_count as nat)) by {
            assert forall|i: int| 0 <= i < bit_count implies #[trigger] bit_at(shrunk@, i)
                == bit_at(buffer@, i) by {
                assert(i / 8 < required_bytes);
            }
        }
        Ok(s)
    }

    /// The number of bits in the stream.
    pub fn len(&self) -> (r: usize)
        ensures
            r == self@.len(),
    {
        self.bit_count
    }

    /// Whether the stream holds no bits.
    pub fn is_empty(&self) -> (r: bool)
        ensures
            r == (self@.len() == 0),
    {
        self.bit_count == 0
    }

    /// The bytes of the stream, left-aligned.
    pub fn buffer(&self) -> (r: &'a [u8])
        ensures
            r@ == self.bytes(),
            r@.len() == bytes_for(self@.len()),
            self@ == bits_of(r@, self@.len()),
    {
        proof {
            use_type_invariant(self);
        }
        self.buffer
    }

    /// The stream's bits in groups of eight separated by `:`, wrapped in
    /// `BitStream(` and `)`.
    pub fn debug_string(&self) -> (r: String)
        ensures
            r@ == "BitStream("@ + bits_text(self@, self@.len()) + seq![')'],
    {
        proof {
            use_type_invariant(self);
        }
        let mut s = String::from_str("BitStream(");
        let ghost prefix = s@;
        let mut i: usize = 0;
        while i < self.bit_count
            invariant
                i <= self.bit_count,
                self.buffer@.len() == bytes_for(self.bit_count as nat),
                s@ == prefix + bits_text(self@, i as nat),
            decreases self.bit_count - i,
        {
            if i > 0 && i % 8 == 0 {
                s.push(':');
            }
            let bit: u8 = (self.buffer[i / 8] >> ((7 - i % 8) as u8)) & 1;
            assert(bit_at(self.buffer@, i as int) == (bit == 1));
            if bit == 1 {
                s.push('1');
            } else {
                s.push('0');
            }
            i = i + 1;
        }
        s.push(')');
        s
    }
}

} // verus!
