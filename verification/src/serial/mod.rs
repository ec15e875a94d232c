//! The wire format of the game: fixed-size fields, multi-byte integers in
//! little-endian order.
//!
//! Each type that goes on the wire implements [`Serial`]: it states the bytes
//! that stand for a value, what reading a byte sequence gives, and proves that
//! reading back what was written gives the value again.
use vstd::prelude::*;
use byteorder::ByteOrder;
use byteorder::LittleEndian;

pub mod util;

verus! {

// ---------------------------------------------------------------------------
// Little-endian integers
// ---------------------------------------------------------------------------

/// `256` to the power `n`.
pub open spec fn pow256(n: nat) -> nat
    decreases n,
{
    if n == 0 {
        1
    } else {
        256 * pow256((n - 1) as nat)
    }
}

/// The `n` lowest bytes of `v`, least significant first.
pub open spec fn le_bytes(v: nat, n: nat) -> Seq<u8>
    decreases n,
{
    if n == 0 {
        Seq::empty()
    } else {
        seq![(v % 256) as u8] + le_bytes(v / 256, (n - 1) as nat)
    }
}

/// The number that the bytes `s` stand for, least significant first.
pub open spec fn le_value(s: Seq<u8>) -> nat
    decreases s.len(),
{
    if s.len() == 0 {
        0
    } else {
        s[0] as nat + 256 * le_value(s.drop_first())
    }
}

/// `n` zero bytes.
pub open spec fn zero_bytes(n: nat) -> Seq<u8> {
    Seq::new(n, |i: int| 0u8)
}

pub proof fn lemma_le_bytes_len(v: nat, n: nat)
    ensures
        le_bytes(v, n).len() == n,
    decreases n,
{
    if n > 0 {
        lemma_le_bytes_len(v / 256, (n - 1) as nat);
    }
}

/// Reading back the bytes of a number gives the number.
pub proof fn lemma_le_roundtrip(v: nat, n: nat)
    requires
        v < pow256(n),
    ensures
        le_value(le_bytes(v, n)) == v,
    decreases n,
{
    if n > 0 {
        let b = le_bytes(v, n);
        assert(b.drop_first() =~= le_bytes(v / 256, (n - 1) as nat));
        assert(v / 256 < pow256((n - 1) as nat));
        lemma_le_roundtrip(v / 256, (n - 1) as nat);
    }
}

/// Writing the number that some bytes stand for gives the bytes back.
pub proof fn lemma_le_value_roundtrip(s: Seq<u8>)
    ensures
        le_bytes(le_value(s), s.len()) == s,
    decreases s.len(),
{
    if s.len() > 0 {
        lemma_le_value_roundtrip(s.drop_first());
        let v = le_value(s);
        assert(v % 256 == s[0] as nat);
        assert(v / 256 == le_value(s.drop_first()));
        assert(le_bytes(v, s.len()) =~= s);
    }
}

// ---------------------------------------------------------------------------
// byteorder
// ---------------------------------------------------------------------------

/// `LittleEndian::read_u16` reads the first two bytes of `buf` as a
/// little-endian number; it panics on a shorter buffer.
#[verifier::external_body]
pub(crate) fn le_read_u16(buf: &[u8]) -> (r: u16)
    requires
        buf@.len() >= 2,
    ensures
        r as nat == le_value(buf@.take(2)),
{
    LittleEndian::read_u16(buf)
}

/// `LittleEndian::read_u32` reads the first four bytes of `buf` as a
/// little-endian number; it panics on a shorter buffer.
#[verifier::external_body]
pub(crate) fn le_read_u32(buf: &[u8]) -> (r: u32)
    requires
        buf@.len() >= 4,
    ensures
        r as nat == le_value(buf@.take(4)),
{
    LittleEndian::read_u32(buf)
}

/// `LittleEndian::read_u64` reads the first eight bytes of `buf` as a
/// little-endian number; it panics on a shorter buffer.
#[verifier::external_body]
pub(crate) fn le_read_u64(buf: &[u8]) -> (r: u64)
    requires
        buf@.len() >= 8,
    ensures
        r as nat == le_value(buf@.take(8)),
{
    LittleEndian::read_u64(buf)
}

/// `LittleEndian::write_u16` overwrites the first two bytes of `buf` with
/// `n` in little-endian order and leaves the rest; it panics on a shorter
/// buffer.
#[verifier::external_body]
pub(crate) fn le_write_u16(buf: &mut [u8], n: u16)
    requires
        old(buf)@.len() >= 2,
    ensures
        final(buf)@ == le_bytes(n as nat, 2) + old(buf)@.skip(2),
{
    LittleEndian::write_u16(buf, n)
}

/// `LittleEndian::write_u32` overwrites the first four bytes of `buf` with
/// `n` in little-endian order and leaves the rest; it panics on a shorter
/// buffer.
#[verifier::external_body]
pub(crate) fn le_write_u32(buf: &mut [u8], n: u32)
    requires
        old(buf)@.len() >= 4,
    ensures
        final(buf)@ == le_bytes(n as nat, 4) + old(buf)@.skip(4),
{
    LittleEndian::write_u32(buf, n)
}

/// `LittleEndian::write_u64` overwrites the first eight bytes of `buf` with
/// `n` in little-endian order and leaves the rest; it panics on a shorter
/// buffer.
#[verifier::external_body]
pub(crate) fn le_write_u64(buf: &mut [u8], n: u64)
    requires
        old(buf)@.len() >= 8,
    ensures
        final(buf)@ == le_bytes(n as nat, 8) + old(buf)@.skip(8),
{
    LittleEndian::write_u64(buf, n)
}

// ---------------------------------------------------------------------------
// Byte buffers
// ---------------------------------------------------------------------------

/// Append `bytes` to `out`.
pub fn append_bytes(out: &mut Vec<u8>, bytes: &[u8])
    ensures
        final(out)@ == old(out)@ + bytes@,
{
    let ghost o = out@;
    let mut i: usize = 0;
    while i < bytes.len()
        invariant
            i <= bytes@.len(),
            out@ == o + bytes@.take(i as int),
        decreases bytes@.len() - i,
    {
        out.push(bytes[i]);
        i = i + 1;
        assert(out@ =~= o + bytes@.take(i as int));
    }
    assert(bytes@.take(i as int) =~= bytes@);
}

/// Append `n` zero bytes to `out`.
pub fn append_zeros(out: &mut Vec<u8>, n: usize)
    ensures
        final(out)@ == old(out)@ + zero_bytes(n as nat),
{
    let ghost o = out@;
    let mut i: usize = 0;
    while i < n
        invariant
            i <= n,
            out@ == o + zero_bytes(i as nat),
        decreases n - i,
    {
        out.push(0u8);
        i = i + 1;
        assert(out@ =~= o + zero_bytes(i as nat));
    }
}

// ---------------------------------------------------------------------------
// The trait
// ---------------------------------------------------------------------------

/// Why reading a value from bytes failed.
#[derive(Debug, Clone, Copy, PartialEq, Eq, Structural)]
pub enum SerialError {
    /// The bytes ended before the value did.
    UnexpectedEof,
    /// A message header gave a size smaller than the header itself.
    InvalidSize,
}

/// A type with a wire format.
pub trait Serial: Sized + View {
    /// The bytes that stand for `v` on the wire.
    spec fn wire(v: Self::V) -> Seq<u8>;

    /// What reading from the front of `bytes` gives: the value and the
    /// number of bytes it takes, or why there is none.
    spec fn read_wire(bytes: Seq<u8>) -> Result<(Self::V, nat), SerialError>;

    /// The values that come back unchanged from writing and reading.
    spec fn canonical(v: Self::V) -> bool;

    /// Append the wire form of `self` to `out`.
    fn serialize(&self, out: &mut Vec<u8>)
        ensures
            final(out)@ == old(out)@ + Self::wire(self@),
    ;

    /// Read a value from the front of `bytes`; on success also say how many
    /// bytes it took.
    fn deserialize(bytes: &[u8]) -> (r: Result<(Self, usize), SerialError>)
        ensures
            match Self::read_wire(bytes@) {
                Ok((v, n)) => r matches Ok((x, m)) && x@ == v && m == n,
                Err(e) => r == Err::<(Self, usize), SerialError>(e),
            },
    ;

    /// Reading what was written, followed by anything, gives back the value
    /// and the length of what was written.
    proof fn lemma_roundtrip(v: Self::V, rest: Seq<u8>)
        requires
            Self::canonical(v),
        ensures
            Self::read_wire(Self::wire(v) + rest) == Ok::<(Self::V, nat), SerialError>(
                (v, Self::wire(v).len()),
            ),
    ;
}

// ---------------------------------------------------------------------------
// Integers
// ---------------------------------------------------------------------------

impl Serial for u8 {
    open spec fn wire(v: u8) -> Seq<u8> {
        seq![v]
    }

    open spec fn read_wire(bytes: Seq<u8>) -> Result<(u8, nat), SerialError> {
        if bytes.len() < 1 {
            Err(SerialError::UnexpectedEof)
        } else {
            Ok((bytes[0], 1))
        }
    }

    open spec fn canonical(v: u8) -> bool {
        true
    }

    fn serialize(&self, out: &mut Vec<u8>) {
        out.push(*self);
        assert(self@ == *self);
        assert(Self::wire(self@) == seq![*self]);
        assert(out@ =~= old(out)@ + Self::wire(self@));
    }

    fn deserialize(bytes: &[u8]) -> (r: Result<(u8, usize), SerialError>) {
        if bytes.len() < 1 {
            Err(SerialError::UnexpectedEof)
        } else {
            Ok((bytes[0], 1))
        }
    }

    proof fn lemma_roundtrip(v: u8, rest: Seq<u8>) {
    }
}

impl Serial for u16 {
    open spec fn wire(v: u16) -> Seq<u8> {
        le_bytes(v as nat, 2)
    }

    open spec fn read_wire(bytes: Seq<u8>) -> Result<(u16, nat), SerialError> {
        if bytes.len() < 2 {
            Err(SerialError::UnexpectedEof)
        } else {
            Ok((le_value(bytes.take(2)) as u16, 2))
        }
    }

    open spec fn canonical(v: u16) -> bool {
        true
    }

    fn serialize(&self, out: &mut Vec<u8>) {
        let mut b = [0u8; 2];
        assert(b@.len() == 2);
        le_write_u16(&mut b, *self);
        proof {
            lemma_le_bytes_len(*self as nat, 2);
        }
        assert(b@ =~= le_bytes(*self as nat, 2));
        append_bytes(out, &b);
    }

    fn deserialize(bytes: &[u8]) -> (r: Result<(u16, usize), SerialError>) {
        if bytes.len() < 2 {
            Err(SerialError::UnexpectedEof)
        } else {
            Ok((le_read_u16(bytes), 2))
        }
    }

    proof fn lemma_roundtrip(v: u16, rest: Seq<u8>) {
        lemma_le_bytes_len(v as nat, 2);
        assert((le_bytes(v as nat, 2) + rest).take(2) =~= le_bytes(v as nat, 2));
        assert(pow256(2) == 65536) by {
            reveal_with_fuel(pow256, 3);
        }
        lemma_le_roundtrip(v as nat, 2);
    }
}

impl Serial for u32 {
    open spec fn wire(v: u32) -> Seq<u8> {
        le_bytes(v as nat, 4)
    }

    open spec fn read_wire(bytes: Seq<u8>) -> Result<(u32, nat), SerialError> {
        if bytes.len() < 4 {
            Err(SerialError::UnexpectedEof)
        } else {
            Ok((le_value(bytes.take(4)) as u32, 4))
        }
    }

    open spec fn canonical(v: u32) -> bool {
        true
    }

    fn serialize(&self, out: &mut Vec<u8>) {
        let mut b = [0u8; 4];
        assert(b@.len() == 4);
        le_write_u32(&mut b, *self);
        proof {
            lemma_le_bytes_len(*self as nat, 4);
        }
        assert(b@ =~= le_bytes(*self as nat, 4));
        append_bytes(out, &b);
    }

    fn deserialize(bytes: &[u8]) -> (r: Result<(u32, usize), SerialError>) {
        if bytes.len() < 4 {
            Err(SerialError::UnexpectedEof)
        } else {
            Ok((le_read_u32(bytes), 4))
        }
    }

    proof fn lemma_roundtrip(v: u32, rest: Seq<u8>) {
        lemma_le_bytes_len(v as nat, 4);
        assert((le_bytes(v as nat, 4) + rest).take(4) =~= le_bytes(v as nat, 4));
        assert(pow256(4) == 0x1_0000_0000) by {
            reveal_with_fuel(pow256, 5);
        }
        lemma_le_roundtrip(v as nat, 4);
    }
}

impl Serial for u64 {
    open spec fn wire(v: u64) -> Seq<u8> {
        le_bytes(v as nat, 8)
    }

    open spec fn read_wire(bytes: Seq<u8>) -> Result<(u64, nat), SerialError> {
        if bytes.len() < 8 {
            Err(SerialError::UnexpectedEof)
        } else {
            Ok((le_value(bytes.take(8)) as u64, 8))
        }
    }

    open spec fn canonical(v: u64) -> bool {
        true
    }

    fn serialize(&self, out: &mut Vec<u8>) {
        let mut b = [0u8; 8];
        assert(b@.len() == 8);
        le_write_u64(&mut b, *self);
        proof {
            lemma_le_bytes_len(*self as nat, 8);
        }
        assert(b@ =~= le_bytes(*self as nat, 8));
        append_bytes(out, &b);
    }

    fn deserialize(bytes: &[u8]) -> (r: Result<(u64, usize), SerialError>) {
        if bytes.len() < 8 {
            Err(SerialError::UnexpectedEof)
        } else {
            Ok((le_read_u64(bytes), 8))
        }
    }

    proof fn lemma_roundtrip(v: u64, rest: Seq<u8>) {
        lemma_le_bytes_len(v as nat, 8);
        assert((le_bytes(v as nat, 8) + rest).take(8) =~= le_bytes(v as nat, 8));
        assert(pow256(8) == 0x1_0000_0000_0000_0000) by {
            reveal_with_fuel(pow256, 9);
        }
        lemma_le_roundtrip(v as nat, 8);
    }
}

impl Serial for i16 {
    open spec fn wire(v: i16) -> Seq<u8> {
        le_bytes((v as u16) as nat, 2)
    }

    open spec fn read_wire(bytes: Seq<u8>) -> Result<(i16, nat), SerialError> {
        if bytes.len() < 2 {
            Err(SerialError::UnexpectedEof)
        } else {
            Ok(((le_value(bytes.take(2)) as u16) as i16, 2))
        }
    }

    open spec fn canonical(v: i16) -> bool {
        true
    }

    fn serialize(&self, out: &mut Vec<u8>) {
        let u = *self as u16;
        u.serialize(out);
    }

    fn deserialize(bytes: &[u8]) -> (r: Result<(i16, usize), SerialError>) {
        if bytes.len() < 2 {
            Err(SerialError::UnexpectedEof)
        } else {
            Ok((le_read_u16(bytes) as i16, 2))
        }
    }

    proof fn lemma_roundtrip(v: i16, rest: Seq<u8>) {
        <u16 as Serial>::lemma_roundtrip(v as u16, rest);
        assert((v as u16) as i16 == v) by (bit_vector);
    }
}

impl Serial for i32 {
    open spec fn wire(v: i32) -> Seq<u8> {
        le_bytes((v as u32) as nat, 4)
    }

    open spec fn read_wire(bytes: Seq<u8>) -> Result<(i32, nat), SerialError> {
        if bytes.len() < 4 {
            Err(SerialError::UnexpectedEof)
        } else {
            Ok(((le_value(bytes.take(4)) as u32) as i32, 4))
        }
    }

    open spec fn canonical(v: i32) -> bool {
        true
    }

    fn serialize(&self, out: &mut Vec<u8>) {
        let u = *self as u32;
        u.serialize(out);
    }

    fn deserialize(bytes: &[u8]) -> (r: Result<(i32, usize), SerialError>) {
        if bytes.len() < 4 {
            Err(SerialError::UnexpectedEof)
        } else {
            Ok((le_read_u32(bytes) as i32, 4))
        }
    }

    proof fn lemma_roundtrip(v: i32, rest: Seq<u8>) {
        <u32 as Serial>::lemma_roundtrip(v as u32, rest);
        assert((v as u32) as i32 == v) by (bit_vector);
    }
}

impl Serial for i64 {
    open spec fn wire(v: i64) -> Seq<u8> {
        le_bytes((v as u64) as nat, 8)
    }

    open spec fn read_wire(bytes: Seq<u8>) -> Result<(i64, nat), SerialError> {
        if bytes.len() < 8 {
            Err(SerialError::UnexpectedEof)
        } else {
            Ok(((le_value(bytes.take(8)) as u64) as i64, 8))
        }
    }

    open spec fn canonical(v: i64) -> bool {
        true
    }

    fn serialize(&self, out: &mut Vec<u8>) {
        let u = *self as u64;
        u.serialize(out);
    }

    fn deserialize(bytes: &[u8]) -> (r: Result<(i64, usize), SerialError>) {
        if bytes.len() < 8 {
            Err(SerialError::UnexpectedEof)
        } else {
            Ok((le_read_u64(bytes) as i64, 8))
        }
    }

    proof fn lemma_roundtrip(v: i64, rest: Seq<u8>) {
        <u64 as Serial>::lemma_roundtrip(v as u64, rest);
        assert((v as u64) as i64 == v) by (bit_vector);
    }
}

} // verus!
