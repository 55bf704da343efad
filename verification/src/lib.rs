//! Core of a secure bootloader: authenticated firmware images in flash and
//! a serial block receiver for replacing them.

pub mod crypto;
pub mod error;
pub mod file_transfer;
pub mod flash;
pub mod image;
pub mod image_ecdsa;
pub mod until_sequence;
pub mod xmodem;
