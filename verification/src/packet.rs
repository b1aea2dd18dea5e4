//! Bounds-checked reading of protocol headers from a packet buffer.

use vstd::prelude::*;
use vstd::slice::slice_subrange;

verus! {

/// A header was asked for that does not lie inside the buffer.
#[derive(Clone, Copy, Debug, PartialEq, Eq, Structural)]
pub struct BoundsError;

/// The 16-bit number that two bytes at `i` hold in network byte order.
pub open spec fn be16(bytes: Seq<u8>, i: int) -> u16 {
    (bytes[i] as int * 256 + bytes[i + 1] as int) as u16
}

/// The 32-bit number that four bytes at `i` hold in network byte order.
pub open spec fn be32(bytes: Seq<u8>, i: int) -> u32 {
    (bytes[i] as int * 16777216 + bytes[i + 1] as int * 65536 + bytes[i + 2] as int * 256
        + bytes[i + 3] as int) as u32
}

/// Reads the 16-bit number at `i` of `bytes`.
pub(crate) fn read_be16(bytes: &[u8], i: usize) -> (n: u16)
    requires
        i + 2 <= bytes@.len(),
    ensures
        n == be16(bytes@, i as int),
{
    let hi: u16 = bytes[i] as u16;
    let lo: u16 = bytes[i + 1] as u16;
    hi * 256 + lo
}

/// Reads the 32-bit number at `i` of `bytes`.
pub(crate) fn read_be32(bytes: &[u8], i: usize) -> (n: u32)
    requires
        i + 4 <= bytes@.len(),
    ensures
        n == be32(bytes@, i as int),
{
    let b0: u32 = bytes[i] as u32;
    let b1: u32 = bytes[i + 1] as u32;
    let b2: u32 = bytes[i + 2] as u32;
    let b3: u32 = bytes[i + 3] as u32;
    b0 * 16777216 + b1 * 65536 + b2 * 256 + b3
}

/// The length of a packet that lies between two addresses.
///
/// A packet whose end lies before its start has no length: that is an
/// error, not a packet of no bytes.
pub fn captured_length(start: usize, end: usize) -> (r: Result<usize, BoundsError>)
    ensures
        r == if start <= end {
            Ok::<usize, BoundsError>((end - start) as usize)
        } else {
            Err::<usize, BoundsError>(BoundsError)
        },
{
    if start <= end {
        Ok(end - start)
    } else {
        Err(BoundsError)
    }
}

/// A header with a fixed size and a fixed layout on the wire.
pub trait Header: Sized {
    /// Size of the header on the wire, in bytes.
    spec fn wire_len() -> nat;

    /// The header that `bytes` encode, for `bytes` of length `wire_len()`.
    spec fn decode(bytes: Seq<u8>) -> Self;

    /// Size of the header on the wire, in bytes.
    fn len() -> (n: usize)
        ensures
            n == Self::wire_len(),
    ;

    /// Decodes a header from exactly its bytes.
    fn parse(bytes: &[u8]) -> (header: Self)
        requires
            bytes@.len() == Self::wire_len(),
        ensures
            header == Self::decode(bytes@),
    ;
}

/// The header of type `T` at `offset` of `bytes`.
pub open spec fn header_at<T: Header>(bytes: Seq<u8>, offset: nat) -> Result<T, BoundsError> {
    if offset + T::wire_len() <= bytes.len() {
        Ok(T::decode(bytes.subrange(offset as int, (offset + T::wire_len()) as int)))
    } else {
        Err(BoundsError)
    }
}

/// A read-only window on a packet buffer. Nothing outside the buffer can be
/// read through it.
#[derive(Clone, Copy, Debug)]
pub struct PacketView<'a> {
    data: &'a [u8],
}

impl<'a> View for PacketView<'a> {
    type V = Seq<u8>;

    closed spec fn view(&self) -> Seq<u8> {
        self.data@
    }
}

impl<'a> PacketView<'a> {
    /// A view of the whole of `data`.
    pub fn new(data: &'a [u8]) -> (view: PacketView<'a>)
        ensures
            view@ == data@,
    {
        PacketView { data }
    }

    /// Number of bytes in the buffer.
    pub fn len(&self) -> (n: usize)
        ensures
            n == self@.len(),
    {
        self.data.len()
    }

    /// Reads the header of type `T` that starts at `offset`.
    ///
    /// Succeeds exactly when the header lies inside the buffer.
    pub fn read<T: Header>(&self, offset: usize) -> (r: Result<T, BoundsError>)
        ensures
            r == header_at::<T>(self@, offset as nat),
    {
        let size = T::len();
        let length = self.data.len();
        if offset > length || size > length - offset {
            return Err(BoundsError);
        }
        Ok(T::parse(slice_subrange(self.data, offset, offset + size)))
    }
}

} // verus!
