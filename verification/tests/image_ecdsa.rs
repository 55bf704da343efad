use loadstone::error::{Error, FlashError};
use loadstone::flash::{Address, Flash};
use loadstone::image::{Bank, GOLDEN_STRING, MAGIC_STRING, PUBLIC_KEY};
use loadstone::image_ecdsa::EcdsaImageReader;
use std::convert::TryInto;

const TEST_SIGNED_IMAGE: &[u8] = &[
    // Image
    0xaa, 0xbb,
    // Magic string inverted
    0xb7, 0xac, 0x9c, 0xc8, 0x9c, 0xcd, 0x8f, 0x8b,
    0x86, 0x9b, 0xa5, 0xb7, 0xcd, 0xae, 0x94, 0x8e,
    0xa5, 0xa8, 0xaf, 0x9c, 0xb5, 0x98, 0xb8, 0xcc,
    0xb5, 0x8b, 0x91, 0xb5, 0xc9, 0xa9, 0x8a, 0xbe,
    // Signature
    0x49, 0xdb, 0xc3, 0x82, 0x37, 0xff, 0x13, 0x9a,
    0x96, 0xb1, 0xb2, 0x37, 0x4a, 0x41, 0x35, 0x36,
    0xd4, 0xed, 0xc7, 0xdf, 0x00, 0x80, 0x54, 0xde,
    0x95, 0xbe, 0xc5, 0x1b, 0xbb, 0x89, 0xa9, 0x35,
    0x03, 0x62, 0xb0, 0xef, 0x73, 0x1f, 0x32, 0x4a,
    0x5e, 0x93, 0x8c, 0x78, 0x4e, 0xf5, 0x6a, 0x3f,
    0xf5, 0x8f, 0x99, 0xf6, 0x11, 0x67, 0xa6, 0xc2,
    0x12, 0xc7, 0xf5, 0xb3, 0x3b, 0xb0, 0x12, 0x8e,
];

const TEST_SIGNED_GOLDEN_IMAGE: &[u8] = &[
    // Image
    0xaa, 0xbb,
    // Golden String
    0x58, 0x50, 0x49, 0x63, 0x62, 0x4f, 0x55, 0x72, 0x70, 0x47,
    // Magic String Inverted
    0xb7, 0xac, 0x9c, 0xc8, 0x9c, 0xcd, 0x8f, 0x8b,
    0x86, 0x9b, 0xa5, 0xb7, 0xcd, 0xae, 0x94, 0x8e,
    0xa5, 0xa8, 0xaf, 0x9c, 0xb5, 0x98, 0xb8, 0xcc,
    0xb5, 0x8b, 0x91, 0xb5, 0xc9, 0xa9, 0x8a, 0xbe,
    // Signature
    0x8a, 0xb7, 0xcb, 0x03, 0x03, 0x53, 0xd2, 0xa3,
    0x9d, 0x42, 0x99, 0x3f, 0x94, 0xfc, 0x2d, 0x91,
    0x4b, 0x91, 0x50, 0xfb, 0xdc, 0x28, 0xaa, 0x11,
    0x31, 0xca, 0x4b, 0x4f, 0x74, 0x94, 0xe4, 0xeb,
    0x42, 0x93, 0x24, 0xd1, 0x73, 0x85, 0xcd, 0xd8,
    0x1f, 0x12, 0xbe, 0xcd, 0x4b, 0xdb, 0x9f, 0xcb,
    0x58, 0x0e, 0xef, 0xc6, 0x9e, 0xf2, 0xa3, 0x0e,
    0x7f, 0xa8, 0xbb, 0xf1, 0x26, 0x30, 0xec, 0x5a
];

const TEST_IMAGE_SIGNED_BY_ANOTHER_KEY: &[u8] = &[
    // Image
    0xaa, 0xbb,

    // Magic string inverted
    0xb7, 0xac, 0x9c, 0xc8, 0x9c, 0xcd, 0x8f, 0x8b,
    0x86, 0x9b, 0xa5, 0xb7, 0xcd, 0xae, 0x94, 0x8e,
    0xa5, 0xa8, 0xaf, 0x9c, 0xb5, 0x98, 0xb8, 0xcc,
    0xb5, 0x8b, 0x91, 0xb5, 0xc9, 0xa9, 0x8a, 0xbe,

    // Signature
    0x12, 0x77, 0x26, 0xc9, 0x13, 0x89, 0x38, 0xca,
    0x23, 0xb9, 0x3d, 0xc9, 0xdc, 0xad, 0xbc, 0x8b,
    0x41, 0x99, 0xe0, 0x89, 0x97, 0xf4, 0x7d, 0x88,
    0xaf, 0xc7, 0x8a, 0x5d, 0xf5, 0xaf, 0x37, 0xdd,
    0x45, 0x0e, 0x38, 0xdc, 0x74, 0x85, 0x72, 0x28,
    0x28, 0x54, 0x15, 0xdd, 0x15, 0x6c, 0x1b, 0x22,
    0xfe, 0x18, 0x40, 0x88, 0xcb, 0x26, 0x4e, 0x22,
    0x3b, 0x0a, 0xbd, 0x09, 0x73, 0x1d, 0x1b, 0x35,
];

const TEST_GOLDEN_IMAGE_SIGNED_BY_ANOTHER_KEY: &[u8] = &[
    // Image
    0xaa, 0xbb,
    // Golden string
    0x58, 0x50, 0x49, 0x63, 0x62, 0x4f, 0x55, 0x72, 0x70, 0x47,
    // Magic string inverted
    0xb7, 0xac, 0x9c, 0xc8, 0x9c, 0xcd, 0x8f, 0x8b,
    0x86, 0x9b, 0xa5, 0xb7, 0xcd, 0xae, 0x94, 0x8e,
    0xa5, 0xa8, 0xaf, 0x9c, 0xb5, 0x98, 0xb8, 0xcc,
    0xb5, 0x8b, 0x91, 0xb5, 0xc9, 0xa9, 0x8a, 0xbe,
    // Signature
    0xcf, 0x71, 0x77, 0x7f, 0x47, 0x4b, 0x3e, 0xd4,
    0x01, 0xaa, 0x65, 0x22, 0x78, 0x4a, 0x0f, 0x4a,
    0x84, 0x11, 0x65, 0xba, 0x7c, 0x85, 0x00, 0x8b,
    0x9c, 0x87, 0x78, 0xb3, 0x47, 0x36, 0xe8, 0x4d,
    0xb9, 0x24, 0x9f, 0x51, 0x2b, 0x34, 0x2f, 0x70,
    0x75, 0xe7, 0xdf, 0x77, 0x5e, 0x23, 0x8e, 0x92,
    0xf4, 0xe8, 0x3f, 0x79, 0xc2, 0xa3, 0x50, 0x5a,
    0xc7, 0x62, 0x74, 0x6e, 0xd2, 0x0b, 0x96, 0x84
];

fn test_bank() -> Bank {
    Bank { index: 1, size: 512, location: Address(0), bootable: false, is_golden: false }
}

#[test]
fn retrieving_signed_image_succeeds() {
    let mut flash = Flash::new(Address(0), 1024);
    let bank =
        Bank { index: 1, size: 512, location: Address(0), bootable: false, is_golden: false };
    flash.write(Address(0), &TEST_SIGNED_IMAGE).unwrap();

    let image = EcdsaImageReader::image_at(&flash, bank).unwrap();
    assert_eq!(image.size(), 2usize);
    assert_eq!(image.location(), bank.location);
    assert_eq!(image.is_bootable(), false);
    assert_eq!(image.is_golden(), false);
}

#[test]
fn retrieving_signed_golden_key_succeeds() {
    let mut flash = Flash::new(Address(0), 1024);
    let bank =
        Bank { index: 1, size: 512, location: Address(0), bootable: false, is_golden: false };
    flash.write(Address(0), &TEST_SIGNED_GOLDEN_IMAGE).unwrap();

    let image = EcdsaImageReader::image_at(&flash, bank).unwrap();
    assert_eq!(image.size(), 2usize);
    assert_eq!(image.location(), bank.location);
    assert_eq!(image.is_bootable(), false);
    assert_eq!(image.is_golden(), true);
}

#[test]
fn retrieving_images_signed_by_another_key_fails() {
    let mut flash = Flash::new(Address(0), 1024);
    let bank =
        Bank { index: 1, size: 512, location: Address(0), bootable: false, is_golden: false };

    flash.write(Address(0), &TEST_IMAGE_SIGNED_BY_ANOTHER_KEY).unwrap();
    assert_eq!(Err(Error::SignatureInvalid), EcdsaImageReader::image_at(&flash, bank));

    flash.write(Address(0), &TEST_GOLDEN_IMAGE_SIGNED_BY_ANOTHER_KEY).unwrap();
    assert_eq!(Err(Error::SignatureInvalid), EcdsaImageReader::image_at(&flash, bank));
}

#[test]
fn retrieving_broken_image_fails() {
    let mut flash = Flash::new(Address(0), 1024);
    let bank =
        Bank { index: 1, size: 512, location: Address(0), bootable: false, is_golden: false };

    let mut image: [u8; 98] = TEST_SIGNED_IMAGE.try_into().unwrap();
    image[0] = 0xCC; // Corrupted image body;
    flash.write(Address(0), &image).unwrap();
    assert_eq!(Err(Error::SignatureInvalid), EcdsaImageReader::image_at(&flash, bank));

    let mut image: [u8; 98] = TEST_SIGNED_IMAGE.try_into().unwrap();
    image[3] = 0xCC; // Corrupted magic string
    flash.write(Address(0), &image).unwrap();
    assert_eq!(Err(Error::BankEmpty), EcdsaImageReader::image_at(&flash, bank));

    let mut image: [u8; 98] = TEST_SIGNED_IMAGE.try_into().unwrap();
    image[96] = 0xCC; // Corrupted signature
    flash.write(Address(0), &image).unwrap();
    assert_eq!(Err(Error::SignatureInvalid), EcdsaImageReader::image_at(&flash, bank));
}

#[test]
fn signed_image_keeps_bank_properties_and_signature() {
    let mut flash = Flash::new(Address(0x100), 1024);
    let bank =
        Bank { index: 3, size: 400, location: Address(0x180), bootable: true, is_golden: true };
    flash.write(Address(0x180), TEST_SIGNED_IMAGE).unwrap();

    let image = EcdsaImageReader::image_at(&flash, bank).unwrap();
    assert_eq!(image.size(), 2);
    assert_eq!(image.location(), Address(0x180));
    assert!(image.is_bootable());
    assert!(!image.is_golden());
    assert_eq!(&image.signature()[..], &TEST_SIGNED_IMAGE[34..]);
}

fn outcome_with_flipped_bit(position: usize, bit: usize) -> Result<(), Error> {
    let mut image = TEST_SIGNED_IMAGE.to_vec();
    image[position] ^= 1 << bit;
    let mut flash = Flash::new(Address(0), 1024);
    flash.write(Address(0), &image).unwrap();
    EcdsaImageReader::image_at(&flash, test_bank()).map(|_| ())
}

#[test]
fn every_flipped_bit_of_body_is_refused() {
    for position in 0..2 {
        for bit in 0..8 {
            let outcome = outcome_with_flipped_bit(position, bit);
            assert_eq!(outcome, Err(Error::SignatureInvalid), "byte {} bit {}", position, bit);
        }
    }
}

#[test]
fn every_flipped_bit_of_magic_is_refused() {
    for position in 2..34 {
        for bit in 0..8 {
            let outcome = outcome_with_flipped_bit(position, bit);
            assert_eq!(outcome, Err(Error::BankEmpty), "byte {} bit {}", position, bit);
        }
    }
}

#[test]
fn flipped_bits_of_signature_are_refused() {
    for position in 34..98 {
        let bit = position % 8;
        let outcome = outcome_with_flipped_bit(position, bit);
        assert_eq!(outcome, Err(Error::SignatureInvalid), "byte {} bit {}", position, bit);
    }
}

#[test]
fn flipped_magic_bit_leaves_bank_empty() {
    let mut image = TEST_SIGNED_IMAGE.to_vec();
    image[2 + 31] ^= 0x80;
    let mut flash = Flash::new(Address(0), 1024);
    flash.write(Address(0), &image).unwrap();
    assert_eq!(Err(Error::BankEmpty), EcdsaImageReader::image_at(&flash, test_bank()));
}

#[test]
fn erased_bank_is_empty() {
    let flash = Flash::new(Address(0), 1024);
    assert_eq!(Err(Error::BankEmpty), EcdsaImageReader::image_at(&flash, test_bank()));
}

#[test]
fn bank_without_magic_is_empty() {
    let mut flash = Flash::new(Address(0), 1024);
    flash.write(Address(0), &[0u8; 600]).unwrap();
    assert_eq!(Err(Error::BankEmpty), EcdsaImageReader::image_at(&flash, test_bank()));
}

#[test]
fn bank_outside_device_is_invalid() {
    let flash = Flash::new(Address(0x1000), 1024);
    let below = Bank { location: Address(0x800), ..test_bank() };
    assert_eq!(Err(Error::BankInvalid), EcdsaImageReader::image_at(&flash, below));
    let behind = Bank { location: Address(0x1400), ..test_bank() };
    assert_eq!(Err(Error::BankInvalid), EcdsaImageReader::image_at(&flash, behind));
}

#[test]
fn bank_of_no_size_is_invalid() {
    let mut flash = Flash::new(Address(0), 1024);
    flash.write(Address(0), TEST_SIGNED_IMAGE).unwrap();
    let bank = Bank { size: 0, ..test_bank() };
    assert_eq!(Err(Error::BankInvalid), EcdsaImageReader::image_at(&flash, bank));
}

#[test]
fn image_with_trailer_beyond_bank_is_refused() {
    let mut flash = Flash::new(Address(0), 1024);
    flash.write(Address(0), TEST_SIGNED_IMAGE).unwrap();
    // The bank ends one byte short of the signature's end.
    let bank = Bank { size: 97, ..test_bank() };
    assert_eq!(Err(Error::SignatureInvalid), EcdsaImageReader::image_at(&flash, bank));
    // A bank of exactly the image's extent holds it.
    let bank = Bank { size: 98, ..test_bank() };
    assert_eq!(2, EcdsaImageReader::image_at(&flash, bank).unwrap().size());
}

#[test]
fn magic_cut_by_end_of_bank_leaves_bank_empty() {
    let mut flash = Flash::new(Address(0), 1024);
    flash.write(Address(0), TEST_SIGNED_IMAGE).unwrap();
    let bank = Bank { size: 20, ..test_bank() };
    assert_eq!(Err(Error::BankEmpty), EcdsaImageReader::image_at(&flash, bank));
}

#[test]
fn signature_beyond_device_is_flash_error() {
    // The device ends in the middle of the signature, the bank goes on.
    let mut flash = Flash::new(Address(0), 60);
    flash.write(Address(0), &TEST_SIGNED_IMAGE[..60]).unwrap();
    assert_eq!(
        Err(Error::FlashError(FlashError::OutOfRange)),
        EcdsaImageReader::image_at(&flash, test_bank())
    );
}

#[test]
fn try_image_at_finds_embedded_key_valid() {
    let mut flash = Flash::new(Address(0), 1024);
    flash.write(Address(0), TEST_SIGNED_GOLDEN_IMAGE).unwrap();
    let image = EcdsaImageReader::try_image_at(&flash, test_bank())
        .expect("the embedded key decodes")
        .unwrap();
    assert_eq!(image.size(), 2);
    assert!(image.is_golden());

    flash.write(Address(0), TEST_IMAGE_SIGNED_BY_ANOTHER_KEY).unwrap();
    assert_eq!(
        Some(Err(Error::SignatureInvalid)),
        EcdsaImageReader::try_image_at(&flash, test_bank())
    );
}

#[test]
fn embedded_constants_have_expected_values() {
    assert_eq!(&MAGIC_STRING[..], "HSc7c2ptydZH2QkqZWPcJgG3JtnJ6VuA".as_bytes());
    assert_eq!(&GOLDEN_STRING[..], "XPIcbOUrpG".as_bytes());
    assert_eq!(PUBLIC_KEY.len(), 65);
    assert_eq!(PUBLIC_KEY[0], 0x04);
    let inverted = loadstone::image::magic_string_inverted();
    assert_eq!(&inverted[..], &TEST_SIGNED_IMAGE[2..34]);
}

#[test]
fn judge_refuses_unverified_image() {
    let mut flash = Flash::new(Address(0), 1024);
    flash.write(Address(0), TEST_SIGNED_GOLDEN_IMAGE).unwrap();
    assert_eq!(
        Err(Error::SignatureInvalid),
        EcdsaImageReader::judge(&flash, test_bank(), 12, false)
    );
}

#[test]
fn judge_detects_golden_marker() {
    let mut flash = Flash::new(Address(0), 1024);
    flash.write(Address(0), TEST_SIGNED_GOLDEN_IMAGE).unwrap();
    assert_eq!(Ok((2, true)), EcdsaImageReader::judge(&flash, test_bank(), 12, true));
    // One byte off, the marker is not there.
    assert_eq!(Ok((11, false)), EcdsaImageReader::judge(&flash, test_bank(), 11, true));
    assert_eq!(Ok((13, false)), EcdsaImageReader::judge(&flash, test_bank(), 13, true));

    flash.write(Address(0), TEST_SIGNED_IMAGE).unwrap();
    assert_eq!(Ok((2, false)), EcdsaImageReader::judge(&flash, test_bank(), 2, true));
}

#[test]
fn judge_gives_body_shorter_than_marker_size_zero() {
    let mut flash = Flash::new(Address(64), 1024);
    let bank = Bank { location: Address(64), ..test_bank() };
    flash.write(Address(64), &GOLDEN_STRING).unwrap();
    assert_eq!(Ok((0, true)), EcdsaImageReader::judge(&flash, bank, 4, true));
    assert_eq!(Ok((0, true)), EcdsaImageReader::judge(&flash, bank, 10, true));
    assert_eq!(Ok((0, true)), EcdsaImageReader::judge(&flash, bank, 0, true));
}

#[test]
fn judge_reports_marker_outside_device() {
    let flash = Flash::new(Address(0), 16);
    assert_eq!(
        Err(Error::FlashError(FlashError::OutOfRange)),
        EcdsaImageReader::judge(&flash, test_bank(), 20, true)
    );
    let bank = Bank { location: Address(u32::MAX), ..test_bank() };
    assert_eq!(
        Err(Error::FlashError(FlashError::OutOfRange)),
        EcdsaImageReader::judge(&flash, bank, 20, true)
    );
}
