use loadstone::error::{Error, FlashError};
use loadstone::flash::{Address, Flash, ERASED};

#[test]
fn new_flash_is_erased() {
    let flash = Flash::new(Address(0x100), 16);
    assert_eq!(flash.range(), (Address(0x100), 16));
    assert_eq!(flash.read(Address(0x100), 16), Ok(vec![ERASED; 16]));
    assert_eq!(ERASED, 0xff);
}

#[test]
fn new_flash_stops_at_end_of_address_space() {
    let flash = Flash::new(Address(u32::MAX - 3), 100);
    assert_eq!(flash.range(), (Address(u32::MAX - 3), 4));
    assert_eq!(flash.byte(Address(u32::MAX), 0), Some(ERASED));
    assert_eq!(flash.byte(Address(u32::MAX), 1), None);
}

#[test]
fn written_bytes_are_read_back() {
    let mut flash = Flash::new(Address(10), 8);
    assert_eq!(flash.write(Address(12), &[1, 2, 3]), Ok(()));
    assert_eq!(flash.read(Address(10), 8), Ok(vec![0xff, 0xff, 1, 2, 3, 0xff, 0xff, 0xff]));
    assert_eq!(flash.read(Address(13), 2), Ok(vec![2, 3]));
    assert_eq!(flash.read(Address(18), 0), Ok(vec![]));
    assert_eq!(flash.write(Address(14), &[9, 8]), Ok(()));
    assert_eq!(flash.read(Address(12), 4), Ok(vec![1, 2, 9, 8]));
}

#[test]
fn iterating_over_flash() {
    let mut expected_bytes = Vec::new();
    for i in 0..10000 {
        expected_bytes.push(i as u8);
    }
    let mut flash = Flash::new(Address(0), 16384);
    flash.write(Address(0), expected_bytes.as_slice()).unwrap();
    let bytes: Vec<u8> = (0..10000).map(|index| flash.byte(Address(0), index).unwrap()).collect();
    assert_eq!(expected_bytes, bytes);
}

#[test]
fn stream_runs_from_address_to_end_of_device() {
    let mut flash = Flash::new(Address(100), 4);
    flash.write(Address(100), &[5, 6, 7, 8]).unwrap();
    assert_eq!(flash.byte(Address(102), 0), Some(7));
    assert_eq!(flash.byte(Address(102), 1), Some(8));
    assert_eq!(flash.byte(Address(102), 2), None);
    assert_eq!(flash.byte(Address(104), 0), None);
    assert_eq!(flash.byte(Address(99), 0), None);
    assert_eq!(flash.byte(Address(105), 0), None);
}

#[test]
fn access_outside_device_is_refused() {
    let mut flash = Flash::new(Address(100), 4);
    assert_eq!(flash.read(Address(99), 1), Err(FlashError::OutOfRange));
    assert_eq!(flash.read(Address(101), 4), Err(FlashError::OutOfRange));
    assert_eq!(flash.read(Address(105), 0), Err(FlashError::OutOfRange));
    assert_eq!(flash.write(Address(103), &[1, 2]), Err(FlashError::OutOfRange));
    // A refused write changes nothing.
    assert_eq!(flash.read(Address(100), 4), Ok(vec![ERASED; 4]));
}

#[test]
fn erase_clears_every_cell() {
    let mut flash = Flash::new(Address(0), 6);
    flash.write(Address(0), &[0, 1, 2, 3, 4, 5]).unwrap();
    flash.erase();
    assert_eq!(flash.read(Address(0), 6), Ok(vec![ERASED; 6]));
    assert_eq!(flash.range(), (Address(0), 6));
}

#[test]
fn address_moves_by_offset() {
    assert_eq!(Address(10).checked_add(5), Some(Address(15)));
    assert_eq!(Address(u32::MAX - 1).checked_add(1), Some(Address(u32::MAX)));
    assert_eq!(Address(u32::MAX - 1).checked_add(2), None);
    assert!(Address(3) < Address(4));
}

#[test]
fn flash_error_becomes_error() {
    assert_eq!(Error::from(FlashError::OutOfRange), Error::FlashError(FlashError::OutOfRange));
}
