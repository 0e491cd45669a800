//! Header constants of the wire format.
//!
//! An artifact starts with a fixed 24-byte prefix: an 8-byte magic signature,
//! a 4-byte little-endian version, a 4-byte reserved flags field (always zero
//! on write, ignored on read), and an 8-byte little-endian byte length of the
//! encoded root value. Both the encoder and the decoder treat the full
//! 24-byte prefix as the distance from the start of the buffer to the root
//! value's first byte.
use vstd::prelude::*;

verus! {

/// Current format version.
pub const VERSION: u32 = 1;

/// Size in bytes of the fixed header fields (magic + version + flags),
/// not counting the root-size field that follows them.
pub const HEADER_SIZE: usize = 16;

/// Size in bytes of the whole prefix that precedes the root value:
/// the fixed header plus the 8-byte root-size field.
pub const PREFIX_SIZE: usize = 24;

/// The 8-byte magic signature, as a byte sequence.
pub open spec fn spec_magic() -> Seq<u8> {
    seq![0x42u8, 0x4Cu8, 0x4Fu8, 0x42u8, 0x46u8, 0x49u8, 0x47u8, 0x00u8]
}

/// The 8-byte magic signature identifying the format.
pub fn magic() -> (b: Vec<u8>)
    ensures
        b@ == spec_magic(),
{
    let mut b: Vec<u8> = Vec::new();
    b.push(0x42);
    b.push(0x4C);
    b.push(0x4F);
    b.push(0x42);
    b.push(0x46);
    b.push(0x49);
    b.push(0x47);
    b.push(0x00);
    proof {
        assert(b@ =~= spec_magic());
    }
    b
}

} // verus!
