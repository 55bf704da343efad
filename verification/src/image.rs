//! Banks of flash and the images that they hold.
//!
//! An image lies at the start of its bank: the body, then the magic string
//! with every bit inverted, then the signature. A golden image carries the
//! golden string as the last bytes of its body.

use vstd::prelude::*;
use crate::flash::Address;

verus! {

/// Ends the body of every image: `HSc7c2ptydZH2QkqZWPcJgG3JtnJ6VuA`. In
/// flash it stands bit-inverted, so that no run of erased cells can hold it.
pub const MAGIC_STRING: [u8; 32] = [
    0x48, 0x53, 0x63, 0x37, 0x63, 0x32, 0x70, 0x74,
    0x79, 0x64, 0x5a, 0x48, 0x32, 0x51, 0x6b, 0x71,
    0x5a, 0x57, 0x50, 0x63, 0x4a, 0x67, 0x47, 0x33,
    0x4a, 0x74, 0x6e, 0x4a, 0x36, 0x56, 0x75, 0x41,
];

/// Ends the body of a golden image, right before the magic string:
/// `XPIcbOUrpG`.
pub const GOLDEN_STRING: [u8; 10] = [0x58, 0x50, 0x49, 0x63, 0x62, 0x4f, 0x55, 0x72, 0x70, 0x47];

/// The key that images are verified against: a P-256 point in uncompressed
/// SEC1 encoding.
pub const PUBLIC_KEY: [u8; 65] = [
    0x04,
    0x3d, 0xd1, 0x26, 0x8f, 0x4a, 0x0a, 0x56, 0x23,
    0x7c, 0x9e, 0xf9, 0xeb, 0x8b, 0x42, 0x3a, 0x25,
    0x9b, 0x32, 0xec, 0xf4, 0x29, 0xbf, 0xb4, 0xd4,
    0xb8, 0x74, 0xf9, 0x8c, 0x59, 0xc5, 0xb3, 0x1e,
    0x31, 0xc4, 0xe9, 0x80, 0xf8, 0xcc, 0x86, 0x5e,
    0x4f, 0xdf, 0xb1, 0x91, 0xe7, 0x2a, 0x25, 0x1f,
    0x59, 0xbe, 0x2c, 0x9b, 0x3a, 0xd6, 0xc4, 0x90,
    0x8a, 0x2b, 0x02, 0x36, 0xbc, 0x70, 0x70, 0xf0,
];

/// The magic string as it stands in flash: each byte with its bits flipped.
pub open spec fn spec_magic_string_inverted() -> Seq<u8> {
    Seq::new(MAGIC_STRING@.len(), |i: int| (255 - MAGIC_STRING@[i]) as u8)
}

/// The magic string as it stands in flash.
pub fn magic_string_inverted() -> (inverted: [u8; 32])
    ensures
        inverted@ == spec_magic_string_inverted(),
{
    let mut inverted = [0u8; 32];
    let mut index: usize = 0;
    while index < 32
        invariant
            index <= 32,
            forall|i: int| 0 <= i < index ==> inverted@[i] == (255 - MAGIC_STRING@[i]) as u8,
        decreases 32 - index,
    {
        let byte = MAGIC_STRING[index];
        assert(!byte == (255 - byte) as u8) by (bit_vector);
        inverted[index] = !byte;
        index = index + 1;
    }
    assert(inverted@ =~= spec_magic_string_inverted());
    inverted
}

/// `bytes` ends with `suffix`.
pub open spec fn ends_with(bytes: Seq<u8>, suffix: Seq<u8>) -> bool {
    bytes.len() >= suffix.len() && bytes.skip(bytes.len() - suffix.len()) == suffix
}

/// One contiguous region of flash that holds one image.
#[derive(Clone, Copy, Debug, PartialEq, Eq, Structural)]
pub struct Bank {
    /// Identifies the bank.
    pub index: u8,
    /// Capacity in bytes, for the image and its trailer.
    pub size: usize,
    /// Where the bank starts.
    pub location: Address,
    /// Whether control may be handed to an image in this bank.
    pub bootable: bool,
    /// Whether the bank is kept for the fallback image.
    pub is_golden: bool,
}

/// What an `Image` says of the firmware it stands for.
pub ghost struct ImageView {
    pub size: nat,
    pub location: Address,
    pub bootable: bool,
    pub golden: bool,
    pub signature: Seq<u8>,
}

/// A firmware image in a bank whose signature has been verified.
#[derive(Clone, Copy, Debug, PartialEq, Eq)]
pub struct Image {
    size: usize,
    location: Address,
    bootable: bool,
    golden: bool,
    signature: [u8; 64],
}

impl View for Image {
    type V = ImageView;

    closed spec fn view(&self) -> ImageView {
        ImageView {
            size: self.size as nat,
            location: self.location,
            bootable: self.bootable,
            golden: self.golden,
            signature: self.signature@,
        }
    }
}

impl Image {
    /// An image with the given properties. Only the verifier makes one.
    pub(crate) fn new(
        size: usize,
        location: Address,
        bootable: bool,
        golden: bool,
        signature: [u8; 64],
    ) -> (image: Image)
        ensures
            image@ == (ImageView {
                size: size as nat,
                location,
                bootable,
                golden,
                signature: signature@,
            }),
    {
        Image { size, location, bootable, golden, signature }
    }

    /// Length of the body in bytes, without the golden string, the magic
    /// string and the signature.
    pub fn size(&self) -> (size: usize)
        ensures
            size == self@.size,
    {
        self.size
    }

    /// Where the body begins.
    pub fn location(&self) -> (location: Address)
        ensures
            location == self@.location,
    {
        self.location
    }

    /// Whether control may be handed to the image.
    pub fn is_bootable(&self) -> (bootable: bool)
        ensures
            bootable == self@.bootable,
    {
        self.bootable
    }

    /// Whether the body ended with the golden string.
    pub fn is_golden(&self) -> (golden: bool)
        ensures
            golden == self@.golden,
    {
        self.golden
    }

    /// The signature that was verified.
    pub fn signature(&self) -> (signature: [u8; 64])
        ensures
            signature@ == self@.signature,
    {
        self.signature
    }
}

} // verus!
