//! Verification of signed images.
//!
//! The body of an image is hashed as it streams out of flash, up to the
//! inverted magic string. The magic string goes into the digest too, and the
//! signature behind it is verified against that digest under the embedded
//! key.

use vstd::prelude::*;
use crate::crypto::{
    absorb, absorbed, decodes_as_key, is_verifying_key, new_hasher, verifies, verify_digest,
    SIGNATURE_SIZE,
};
use crate::error::{Error, FlashError};
use crate::flash::{Flash, FlashView, ERASED};
use crate::image::{
    ends_with, magic_string_inverted, spec_magic_string_inverted, Bank, Image, ImageView,
    GOLDEN_STRING, MAGIC_STRING, PUBLIC_KEY,
};
use crate::until_sequence::{
    lemma_cut_is_stable, lemma_first_occurrence_bounds, lemma_first_occurrence_is, occurs_at,
    until_sequence, UntilSequence,
};

verus! {

/// Reads images that carry a P-256 ECDSA signature.
pub struct EcdsaImageReader;

/// The bytes that the bank offers to the verifier: the stream that starts
/// at the bank's location, cut off after the bank's size.
pub open spec fn bank_stream(flash: FlashView, bank: Bank) -> Seq<u8> {
    let bytes = flash.bytes(bank.location.0 as int);
    if bytes.len() <= bank.size {
        bytes
    } else {
        bytes.take(bank.size as int)
    }
}

/// The body of the image in the bank: what the bank offers, up to the
/// inverted magic string.
pub open spec fn image_body(flash: FlashView, bank: Bank) -> Seq<u8> {
    until_sequence(bank_stream(flash, bank), spec_magic_string_inverted())
}

/// Where the signature of the image in the bank begins.
pub open spec fn signature_location(flash: FlashView, bank: Bank) -> int {
    bank.location.0 + image_body(flash, bank).len() + MAGIC_STRING@.len()
}

/// Length of the body and its trailer: the magic string and the signature.
pub open spec fn image_extent(flash: FlashView, bank: Bank) -> int {
    image_body(flash, bank).len() + MAGIC_STRING@.len() + SIGNATURE_SIZE
}

/// The image that a body with a verified signature stands for. A body that
/// ends with the golden string is golden, and its size leaves that string
/// out.
pub open spec fn described(bank: Bank, body: Seq<u8>, signature: Seq<u8>) -> ImageView {
    let golden = ends_with(body, GOLDEN_STRING@);
    ImageView {
        size: if golden {
            (body.len() - GOLDEN_STRING@.len()) as nat
        } else {
            body.len()
        },
        location: bank.location,
        bootable: bank.bootable,
        golden,
        signature,
    }
}

/// What the verifier makes of a bank.
pub open spec fn spec_image_at(flash: FlashView, bank: Bank) -> Result<ImageView, Error> {
    let stream = bank_stream(flash, bank);
    let body = image_body(flash, bank);
    let signature = flash.slice(signature_location(flash, bank), SIGNATURE_SIZE as int);
    if stream.len() == 0 {
        Err(Error::BankInvalid)
    } else if stream[0] == ERASED {
        Err(Error::BankEmpty)
    } else if body.len() == bank.size {
        Err(Error::BankEmpty)
    } else if image_extent(flash, bank) > bank.size {
        Err(Error::SignatureInvalid)
    } else if !flash.holds(signature_location(flash, bank), SIGNATURE_SIZE as int) {
        Err(Error::FlashError(FlashError::OutOfRange))
    } else if !verifies(PUBLIC_KEY@, body + spec_magic_string_inverted(), signature) {
        Err(Error::SignatureInvalid)
    } else {
        Ok(described(bank, body, signature))
    }
}

/// The result stands for the expected one: the same error, or an image with
/// the expected properties.
pub open spec fn agrees(result: Result<Image, Error>, expected: Result<ImageView, Error>) -> bool {
    match (result, expected) {
        (Ok(image), Ok(view)) => image@ == view,
        (Err(error), Err(expected)) => error == expected,
        _ => false,
    }
}

/// Where the golden string of a body of `body_size` bytes would begin: ten
/// bytes before the end of the body, or at its start where it is shorter.
pub open spec fn golden_location(bank: Bank, body_size: usize) -> int {
    if body_size >= GOLDEN_STRING@.len() {
        bank.location.0 + body_size - GOLDEN_STRING@.len()
    } else {
        bank.location.0 as int
    }
}

/// The verdict on an image whose body has `body_size` bytes, once the
/// signature check has said `verified`: its size and whether it is golden.
pub open spec fn spec_judge(flash: FlashView, bank: Bank, body_size: usize, verified: bool)
    -> Result<(usize, bool), Error> {
    let marker = flash.slice(golden_location(bank, body_size), GOLDEN_STRING@.len() as int);
    if !verified {
        Err(Error::SignatureInvalid)
    } else if !flash.holds(golden_location(bank, body_size), GOLDEN_STRING@.len() as int) {
        Err(Error::FlashError(FlashError::OutOfRange))
    } else if marker == GOLDEN_STRING@ {
        Ok(
            (
                if body_size >= GOLDEN_STRING@.len() {
                    (body_size - GOLDEN_STRING@.len()) as usize
                } else {
                    0
                },
                true,
            ),
        )
    } else {
        Ok((body_size, false))
    }
}

/// No byte of the inverted magic string is the last byte of the golden
/// string.
proof fn lemma_magic_is_not_golden(index: int)
    requires
        0 <= index < GOLDEN_STRING@.len(),
    ensures
        spec_magic_string_inverted()[index] != GOLDEN_STRING@[GOLDEN_STRING@.len() - 1],
{
    let magic = MAGIC_STRING@;
    assert(magic[0] == 0x48 && magic[1] == 0x53 && magic[2] == 0x63 && magic[3] == 0x37);
    assert(magic[4] == 0x63 && magic[5] == 0x32 && magic[6] == 0x70 && magic[7] == 0x74);
    assert(magic[8] == 0x79 && magic[9] == 0x64);
    assert(GOLDEN_STRING@[9] == 0x47);
}

/// The inverted magic string does not begin with an erased byte.
proof fn lemma_magic_is_not_erased()
    ensures
        spec_magic_string_inverted().len() == 32,
        spec_magic_string_inverted()[0] != ERASED,
{
    assert(MAGIC_STRING@[0] == 0x48);
}

/// In a bank that has room for the trailer behind its body and whose
/// signature lies inside the device, the ten bytes in front of the magic
/// string are the golden string exactly when the body ends with it.
proof fn lemma_golden_marker(flash: FlashView, bank: Bank)
    requires
        bank_stream(flash, bank).len() > 0,
        image_extent(flash, bank) <= bank.size,
        flash.holds(signature_location(flash, bank), SIGNATURE_SIZE as int),
    ensures
        flash.holds(
            golden_location(bank, image_body(flash, bank).len() as usize),
            GOLDEN_STRING@.len() as int,
        ),
        (flash.slice(
            golden_location(bank, image_body(flash, bank).len() as usize),
            GOLDEN_STRING@.len() as int,
        ) == GOLDEN_STRING@) == ends_with(image_body(flash, bank), GOLDEN_STRING@),
{
    let stream = bank_stream(flash, bank);
    let magic = spec_magic_string_inverted();
    let body = image_body(flash, bank);
    let length = body.len() as int;
    let location = bank.location.0 as int;
    lemma_magic_is_not_erased();
    lemma_first_occurrence_bounds(stream, magic, 0);
    assert(stream.len() >= length + 96);
    assert(occurs_at(stream, magic, length));
    let at = golden_location(bank, length as usize);
    let marker = flash.slice(at, 10);
    assert forall|i: int| 0 <= i < 10 implies marker[i] == stream[at - location + i] by {}
    if length >= 10 {
        assert(marker =~= body.skip(length - 10));
    } else {
        let inside = 9 - length;
        lemma_magic_is_not_golden(inside);
        assert(stream.subrange(length, length + 32)[inside] == magic[inside]);
        assert(marker[9] == stream[9]);
        assert(marker[9] != GOLDEN_STRING@[9]);
    }
}

/// The bank holds an image from its start: `body`, the inverted magic
/// string and `signature`, all of it inside the bank and inside the device.
/// The body does not begin with an erased byte, and the inverted magic
/// string occurs nowhere before the end of the body.
pub open spec fn holds_image(flash: FlashView, bank: Bank, body: Seq<u8>, signature: Seq<u8>)
    -> bool {
    let magic = spec_magic_string_inverted();
    let whole = body + magic + signature;
    &&& signature.len() == SIGNATURE_SIZE
    &&& whole.len() <= bank.size
    &&& flash.holds(bank.location.0 as int, whole.len() as int)
    &&& flash.slice(bank.location.0 as int, whole.len() as int) == whole
    &&& body.len() > 0 ==> body[0] != ERASED
    &&& forall|i: int| 0 <= i < body.len() ==> !occurs_at(body + magic, magic, i)
}

/// In a bank that holds an image, the verifier finds the body, and behind
/// the body and the magic string the signature.
proof fn lemma_image_is_found(flash: FlashView, bank: Bank, body: Seq<u8>, signature: Seq<u8>)
    requires
        holds_image(flash, bank, body, signature),
    ensures
        bank_stream(flash, bank).len() > 0,
        bank_stream(flash, bank)[0] != ERASED,
        image_body(flash, bank) == body,
        image_extent(flash, bank) <= bank.size,
        flash.holds(signature_location(flash, bank), SIGNATURE_SIZE as int),
        flash.slice(signature_location(flash, bank), SIGNATURE_SIZE as int) == signature,
{
    let magic = spec_magic_string_inverted();
    let whole = body + magic + signature;
    let stream = bank_stream(flash, bank);
    let location = bank.location.0 as int;
    let length = body.len() as int;
    lemma_magic_is_not_erased();
    assert forall|i: int| 0 <= i < whole.len() implies stream[i] == whole[i] by {
        assert(flash.slice(location, whole.len() as int)[i] == whole[i]);
    }
    assert(stream[0] == whole[0]);
    assert(occurs_at(stream, magic, length)) by {
        assert(stream.subrange(length, length + 32) =~= magic);
    }
    assert forall|i: int| 0 <= i < length implies !occurs_at(stream, magic, i) by {
        if occurs_at(stream, magic, i) {
            assert((body + magic).subrange(i, i + 32) =~= stream.subrange(i, i + 32));
            assert(occurs_at(body + magic, magic, i));
        }
    }
    lemma_first_occurrence_is(stream, magic, 0, length);
    assert(stream.take(length) =~= body);
    let found = flash.slice(location + length + 32, 64);
    assert forall|j: int| 0 <= j < 64 implies found[j] == signature[j] by {
        assert(flash.slice(location, whole.len() as int)[length + 32 + j] == whole[length + 32
            + j]);
    }
    assert(found =~= signature);
}

/// An image that is signed by the embedded key is accepted: in a bank that
/// holds a body, the inverted magic string and a signature that verifies
/// over the two, the verifier finds the image. Its size is the length of
/// the body, less the golden string where the body ends with it, and it is
/// golden exactly when the body ends with the golden string.
pub proof fn lemma_signed_image_is_accepted(
    flash: FlashView,
    bank: Bank,
    body: Seq<u8>,
    signature: Seq<u8>,
)
    requires
        holds_image(flash, bank, body, signature),
        verifies(PUBLIC_KEY@, body + spec_magic_string_inverted(), signature),
    ensures
        spec_image_at(flash, bank) == Ok::<ImageView, Error>(described(bank, body, signature)),
{
    lemma_image_is_found(flash, bank, body, signature);
}

/// An image that is not signed by the embedded key is refused: in a bank
/// that holds a body, the inverted magic string and a signature that does
/// not verify over the two, the verifier reports an invalid signature.
pub proof fn lemma_unsigned_image_is_refused(
    flash: FlashView,
    bank: Bank,
    body: Seq<u8>,
    signature: Seq<u8>,
)
    requires
        holds_image(flash, bank, body, signature),
        !verifies(PUBLIC_KEY@, body + spec_magic_string_inverted(), signature),
    ensures
        spec_image_at(flash, bank) == Err::<ImageView, Error>(Error::SignatureInvalid),
{
    lemma_image_is_found(flash, bank, body, signature);
}

/// An image exists only where its signature verified: whenever the verifier
/// finds an image, the bank holds its body, the inverted magic string and
/// its signature, one behind the other and all inside the bank, and the
/// signature verifies under the embedded key over the body and the magic
/// string. The body is the image and, for a golden image, the golden string
/// behind it.
pub proof fn lemma_image_is_authentic(flash: FlashView, bank: Bank)
    requires
        spec_image_at(flash, bank) is Ok,
    ensures
        ({
            let image = spec_image_at(flash, bank)->Ok_0;
            let body = image_body(flash, bank);
            let magic = spec_magic_string_inverted();
            let location = bank.location.0 as int;
            &&& image.location == bank.location
            &&& image.bootable == bank.bootable
            &&& image.golden == ends_with(body, GOLDEN_STRING@)
            &&& body.len() == image.size + if image.golden {
                GOLDEN_STRING@.len()
            } else {
                0
            }
            &&& body.len() + MAGIC_STRING@.len() + SIGNATURE_SIZE <= bank.size
            &&& flash.holds(location, body.len() + MAGIC_STRING@.len() + SIGNATURE_SIZE)
            &&& flash.slice(location, body.len() as int) == body
            &&& flash.slice(location + body.len(), MAGIC_STRING@.len() as int) == magic
            &&& flash.slice(location + body.len() + MAGIC_STRING@.len(), SIGNATURE_SIZE as int)
                == image.signature
            &&& verifies(PUBLIC_KEY@, body + magic, image.signature)
        }),
{
    let stream = bank_stream(flash, bank);
    let magic = spec_magic_string_inverted();
    let body = image_body(flash, bank);
    let location = bank.location.0 as int;
    let length = body.len() as int;
    lemma_magic_is_not_erased();
    lemma_first_occurrence_bounds(stream, magic, 0);
    assert(stream.len() >= length + 96);
    assert(occurs_at(stream, magic, length));
    assert(flash.slice(location, length) =~= body);
    assert(flash.slice(location + length, 32) =~= stream.subrange(length, length + 32));
}

impl EcdsaImageReader {
    /// The embedded key, if it decodes as a verifying key.
    fn retrieve_key() -> (key: Option<[u8; 65]>)
        ensures
            key == if is_verifying_key(PUBLIC_KEY@) {
                Some(PUBLIC_KEY)
            } else {
                None
            },
    {
        if decodes_as_key(&PUBLIC_KEY) {
            Some(PUBLIC_KEY)
        } else {
            None
        }
    }

    /// Streams the bank through a hasher up to the inverted magic string
    /// and counts the bytes that went in.
    fn digest_body(flash: &Flash, bank: Bank) -> (digest: (sha2::Sha256, usize))
        requires
            flash.wf(),
        ensures
            absorbed(digest.0) == image_body(flash@, bank),
            digest.1 == image_body(flash@, bank).len(),
            digest.1 <= bank.size,
            digest.1 <= u32::MAX + 1,
    {
        let magic = magic_string_inverted();
        let ghost stream = bank_stream(flash@, bank);
        let ghost sentinel = spec_magic_string_inverted();
        let mut matcher = UntilSequence::new(vstd::slice::slice_to_vec(&magic));
        let mut hasher = new_hasher();
        let mut count: usize = 0;
        let mut index: usize = 0;
        let mut ended = false;
        while index < bank.size && !ended && !matcher.found()
            invariant
                flash.wf(),
                stream == bank_stream(flash@, bank),
                matcher.wf(),
                matcher.sequence() == sentinel,
                index <= bank.size,
                index <= stream.len(),
                ended ==> index == stream.len(),
                matcher.consumed() == stream.take(index as int),
                absorbed(hasher) == matcher.released(),
                count == matcher.released().len(),
                count <= index,
            decreases bank.size - index + (if ended { 0int } else { 1int }),
        {
            match flash.byte(bank.location, index) {
                Some(byte) => {
                    assert(stream[index as int] == byte);
                    let released = matcher.push(byte);
                    proof {
                        matcher.lemma_released();
                        assert(stream.take(index as int).push(byte) == stream.take(
                            index as int + 1,
                        ));
                        assert(matcher.released().len() <= index + 1);
                        assert(stream.len() <= flash@.cells.len());
                    }
                    absorb(&mut hasher, released.as_slice());
                    count = count + released.len();
                    index = index + 1;
                },
                None => {
                    ended = true;
                },
            }
        }
        proof {
            matcher.lemma_released();
            if matcher.is_found() {
                lemma_first_occurrence_bounds(matcher.consumed(), sentinel, 0);
                lemma_cut_is_stable(stream, sentinel, index as int);
            } else {
                assert(stream.take(index as int) == stream);
            }
        }
        proof {
            assert(matcher.released().len() + matcher.matched() <= index);
            assert(stream.len() <= flash@.cells.len());
        }
        let rest = matcher.finish();
        absorb(&mut hasher, rest.as_slice());
        count = count + rest.len();
        proof {
            lemma_first_occurrence_bounds(stream, sentinel, 0);
        }
        (hasher, count)
    }

    /// What becomes of an image once its signature has been checked.
    ///
    /// An image that did not verify is refused. For one that did, the ten
    /// bytes in front of the magic string decide whether it is golden; the
    /// size of a golden image leaves them out and stops at zero for a body
    /// shorter than that.
    pub fn judge(flash: &Flash, bank: Bank, body_size: usize, verified: bool) -> (verdict: Result<
        (usize, bool),
        Error,
    >)
        requires
            flash.wf(),
        ensures
            verdict == spec_judge(flash@, bank, body_size, verified),
    {
        if !verified {
            return Err(Error::SignatureInvalid);
        }
        let golden_size = GOLDEN_STRING.len();
        let reduced: usize = if body_size >= golden_size {
            body_size - golden_size
        } else {
            0
        };
        let position = match bank.location.checked_add(reduced) {
            Some(position) => position,
            None => {
                return Err(Error::FlashError(FlashError::OutOfRange));
            },
        };
        let marker = match flash.read(position, golden_size) {
            Ok(marker) => marker,
            Err(error) => {
                return Err(Error::from(error));
            },
        };
        let mut golden = true;
        let mut index: usize = 0;
        assert(marker@.take(0) =~= GOLDEN_STRING@.take(0));
        while index < golden_size
            invariant
                golden_size == GOLDEN_STRING@.len(),
                marker@.len() == golden_size,
                index <= golden_size,
                golden == (marker@.take(index as int) == GOLDEN_STRING@.take(index as int)),
            decreases golden_size - index,
        {
            proof {
                let seen = marker@.take(index as int);
                let more = marker@.take(index as int + 1);
                let wanted = GOLDEN_STRING@.take(index as int);
                let more_wanted = GOLDEN_STRING@.take(index as int + 1);
                assert(more.take(index as int) == seen);
                assert(more_wanted.take(index as int) == wanted);
                assert(more[index as int] == marker@[index as int]);
                assert(more_wanted[index as int] == GOLDEN_STRING@[index as int]);
                if seen == wanted && marker@[index as int] == GOLDEN_STRING@[index as int] {
                    assert(more =~= more_wanted);
                }
            }
            if marker[index] != GOLDEN_STRING[index] {
                golden = false;
            }
            index = index + 1;
        }
        assert(marker@.take(golden_size as int) == marker@);
        assert(GOLDEN_STRING@.take(golden_size as int) == GOLDEN_STRING@);
        if golden {
            Ok((reduced, true))
        } else {
            Ok((body_size, false))
        }
    }

    /// Verifies the image in `bank` against the embedded key.
    ///
    /// The bank must begin inside the device and must not begin with an
    /// erased byte. Its body runs up to the inverted magic string, which has
    /// to come before the end of the bank and leave room for the signature
    /// behind it. The signature has to verify over the body and the inverted
    /// magic string. The embedded key is taken to be a valid one.
    pub fn image_at(flash: &Flash, bank: Bank) -> (result: Result<Image, Error>)
        requires
            flash.wf(),
            is_verifying_key(PUBLIC_KEY@),
        ensures
            agrees(result, spec_image_at(flash@, bank)),
    {
        let ghost stream = bank_stream(flash@, bank);
        let first = match flash.byte(bank.location, 0) {
            Some(first) => first,
            None => {
                return Err(Error::BankInvalid);
            },
        };
        if bank.size == 0 {
            return Err(Error::BankInvalid);
        }
        assert(stream[0] == first);
        if first == ERASED {
            return Err(Error::BankEmpty);
        }
        let key = match Self::retrieve_key() {
            Some(key) => key,
            None => {
                assert(false);
                return Err(Error::SignatureInvalid);
            },
        };
        let (mut hasher, body_size) = Self::digest_body(flash, bank);
        if body_size == bank.size {
            return Err(Error::BankEmpty);
        }
        let magic = magic_string_inverted();
        if bank.size - body_size < magic.len() + SIGNATURE_SIZE {
            return Err(Error::SignatureInvalid);
        }
        absorb(&mut hasher, &magic);
        let position = match bank.location.checked_add(body_size + magic.len()) {
            Some(position) => position,
            None => {
                return Err(Error::FlashError(FlashError::OutOfRange));
            },
        };
        let signature_bytes = match flash.read(position, SIGNATURE_SIZE) {
            Ok(bytes) => bytes,
            Err(error) => {
                return Err(Error::from(error));
            },
        };
        let verified = verify_digest(&key, hasher, signature_bytes.as_slice());
        proof {
            if verified {
                lemma_golden_marker(flash@, bank);
            }
        }
        let (size, golden) = match Self::judge(flash, bank, body_size, verified) {
            Ok(verdict) => verdict,
            Err(error) => {
                return Err(error);
            },
        };
        let mut signature = [0u8; 64];
        let mut index: usize = 0;
        while index < SIGNATURE_SIZE
            invariant
                signature_bytes@.len() == SIGNATURE_SIZE,
                index <= SIGNATURE_SIZE,
                forall|i: int| 0 <= i < index ==> signature@[i] == signature_bytes@[i],
            decreases SIGNATURE_SIZE - index,
        {
            signature[index] = signature_bytes[index];
            index = index + 1;
        }
        assert(signature@ =~= signature_bytes@);
        Ok(Image::new(size, bank.location, bank.bootable, golden, signature))
    }

    /// Verifies the image in `bank` where the embedded key is a valid one,
    /// and returns `None` where it is not.
    pub fn try_image_at(flash: &Flash, bank: Bank) -> (result: Option<Result<Image, Error>>)
        requires
            flash.wf(),
        ensures
            match result {
                Some(result) => is_verifying_key(PUBLIC_KEY@) && agrees(
                    result,
                    spec_image_at(flash@, bank),
                ),
                None => !is_verifying_key(PUBLIC_KEY@),
            },
    {
        match Self::retrieve_key() {
            Some(_) => Some(Self::image_at(flash, bank)),
            None => None,
        }
    }
}

} // verus!
