//! A flash device as the image verifier sees it: a run of byte cells that
//! starts at a base address, read and written in bounded pieces and walked
//! as a stream of bytes from any address to the end of the device.

use vstd::prelude::*;
use crate::error::FlashError;

verus! {

/// What an erased flash cell reads as.
pub const ERASED: u8 = 0xFF;

/// Position of a byte in flash.
#[derive(Clone, Copy, Debug, PartialEq, Eq, PartialOrd, Ord, Structural)]
pub struct Address(pub u32);

impl Address {
    /// The address `offset` bytes further on, if there is one.
    pub fn checked_add(self, offset: usize) -> (moved: Option<Address>)
        ensures
            moved == if self.0 + offset <= u32::MAX {
                Some(Address((self.0 + offset) as u32))
            } else {
                None
            },
    {
        if offset <= (u32::MAX - self.0) as usize {
            Some(Address(self.0 + offset as u32))
        } else {
            None
        }
    }
}

/// The contents of a flash device: its first address and its cells.
pub ghost struct FlashView {
    pub base: int,
    pub cells: Seq<u8>,
}

impl FlashView {
    /// The stream of bytes that starts at `address` and ends with the
    /// device; empty for an address outside the device.
    pub open spec fn bytes(self, address: int) -> Seq<u8> {
        if self.base <= address <= self.base + self.cells.len() {
            self.cells.skip(address - self.base)
        } else {
            Seq::empty()
        }
    }

    /// The `length` bytes from `address` on all lie inside the device.
    pub open spec fn holds(self, address: int, length: int) -> bool {
        &&& 0 <= length
        &&& self.base <= address
        &&& address + length <= self.base + self.cells.len()
    }

    /// The `length` bytes from `address` on.
    pub open spec fn slice(self, address: int, length: int) -> Seq<u8> {
        self.cells.subrange(address - self.base, address - self.base + length)
    }

    /// The device after `bytes` have been written from `address` on.
    pub open spec fn written(self, address: int, bytes: Seq<u8>) -> FlashView {
        FlashView {
            base: self.base,
            cells: Seq::new(
                self.cells.len(),
                |i: int|
                    if address - self.base <= i < address - self.base + bytes.len() {
                        bytes[i - (address - self.base)]
                    } else {
                        self.cells[i]
                    },
            ),
        }
    }
}

/// A flash device held in memory.
pub struct Flash {
    base: Address,
    cells: Vec<u8>,
}

impl View for Flash {
    type V = FlashView;

    closed spec fn view(&self) -> FlashView {
        FlashView { base: self.base.0 as int, cells: self.cells@ }
    }
}

impl Flash {
    /// Every cell has an address.
    pub open spec fn wf(&self) -> bool {
        self@.base + self@.cells.len() <= u32::MAX + 1
    }

    /// A device of `size` erased cells of which the first has the address
    /// `base`. The size is cut down to what fits below the end of the
    /// address space.
    pub fn new(base: Address, size: usize) -> (flash: Flash)
        ensures
            flash.wf(),
            flash@.base == base.0,
            flash@.cells.len() == if base.0 + size <= u32::MAX + 1 {
                size as int
            } else {
                u32::MAX + 1 - base.0
            },
            forall|i: int| 0 <= i < flash@.cells.len() ==> flash@.cells[i] == ERASED,
    {
        let room: u64 = u32::MAX as u64 + 1 - base.0 as u64;
        let count: usize = if size as u64 <= room {
            size
        } else {
            room as usize
        };
        let mut cells: Vec<u8> = Vec::new();
        let mut index: usize = 0;
        while index < count
            invariant
                index <= count,
                cells@.len() == index,
                forall|i: int| 0 <= i < index ==> cells@[i] == ERASED,
            decreases count - index,
        {
            cells.push(ERASED);
            index = index + 1;
        }
        Flash { base, cells }
    }

    /// The first address of the device and the number of its cells.
    pub fn range(&self) -> (range: (Address, usize))
        ensures
            range.0.0 == self@.base,
            range.1 == self@.cells.len(),
    {
        (self.base, self.cells.len())
    }

    /// Index of the cell with the given address, where `length` bytes from
    /// there on lie inside the device.
    fn locate(&self, address: Address, length: usize) -> (start: Option<usize>)
        ensures
            match start {
                Some(start) => self@.holds(address.0 as int, length as int) && start == address.0
                    - self@.base,
                None => !self@.holds(address.0 as int, length as int),
            },
    {
        if address.0 < self.base.0 {
            return None;
        }
        let start = (address.0 - self.base.0) as usize;
        if start > self.cells.len() || length > self.cells.len() - start {
            return None;
        }
        Some(start)
    }

    /// Reads `length` consecutive bytes starting at `address`.
    pub fn read(&self, address: Address, length: usize) -> (bytes: Result<Vec<u8>, FlashError>)
        ensures
            match bytes {
                Ok(bytes) => self@.holds(address.0 as int, length as int) && bytes@ == self@.slice(
                    address.0 as int,
                    length as int,
                ),
                Err(error) => !self@.holds(address.0 as int, length as int) && error
                    == FlashError::OutOfRange,
            },
    {
        let start = match self.locate(address, length) {
            Some(start) => start,
            None => {
                return Err(FlashError::OutOfRange);
            },
        };
        let total = self.cells.len();
        let mut bytes: Vec<u8> = Vec::new();
        let mut index: usize = 0;
        while index < length
            invariant
                index <= length,
                total == self.cells@.len(),
                start + length <= total,
                bytes@ == self.cells@.subrange(start as int, start + index),
            decreases length - index,
        {
            bytes.push(self.cells[start + index]);
            assert(self.cells@.subrange(start as int, start + index).push(
                self.cells@[start + index],
            ) == self.cells@.subrange(start as int, start + index + 1));
            index = index + 1;
        }
        Ok(bytes)
    }

    /// Writes `bytes` to consecutive cells starting at `address`. A write
    /// that does not fit the device changes nothing.
    pub fn write(&mut self, address: Address, bytes: &[u8]) -> (done: Result<(), FlashError>)
        ensures
            final(self).wf() == old(self).wf(),
            match done {
                Ok(_) => old(self)@.holds(address.0 as int, bytes@.len() as int) && final(self)@
                    == old(self)@.written(address.0 as int, bytes@),
                Err(error) => !old(self)@.holds(address.0 as int, bytes@.len() as int)
                    && error == FlashError::OutOfRange && final(self)@ == old(self)@,
            },
    {
        let start = match self.locate(address, bytes.len()) {
            Some(start) => start,
            None => {
                return Err(FlashError::OutOfRange);
            },
        };
        let ghost before = self.cells@;
        let total = self.cells.len();
        let mut index: usize = 0;
        while index < bytes.len()
            invariant
                index <= bytes@.len(),
                total == before.len(),
                start + bytes@.len() <= total,
                self.base == old(self).base,
                self.cells@.len() == before.len(),
                forall|i: int|
                    0 <= i < before.len() ==> self.cells@[i] == if start <= i < start + index {
                        bytes@[i - start]
                    } else {
                        before[i]
                    },
            decreases bytes@.len() - index,
        {
            self.cells[start + index] = bytes[index];
            index = index + 1;
        }
        assert(self.cells@ =~= old(self)@.written(address.0 as int, bytes@).cells);
        Ok(())
    }

    /// Puts every cell back into the erased state.
    pub fn erase(&mut self)
        ensures
            final(self).wf() == old(self).wf(),
            final(self)@.base == old(self)@.base,
            final(self)@.cells.len() == old(self)@.cells.len(),
            forall|i: int| 0 <= i < final(self)@.cells.len() ==> final(self)@.cells[i] == ERASED,
    {
        let mut index: usize = 0;
        while index < self.cells.len()
            invariant
                index <= self.cells@.len(),
                self.base == old(self).base,
                self.cells@.len() == old(self).cells@.len(),
                forall|i: int| 0 <= i < index ==> self.cells@[i] == ERASED,
            decreases self.cells@.len() - index,
        {
            self.cells[index] = ERASED;
            index = index + 1;
        }
    }

    /// The byte at position `index` of the stream that starts at `address`,
    /// or `None` where the stream has ended before.
    pub fn byte(&self, address: Address, index: usize) -> (byte: Option<u8>)
        ensures
            byte == if index < self@.bytes(address.0 as int).len() {
                Some(self@.bytes(address.0 as int)[index as int])
            } else {
                None
            },
    {
        match self.locate(address, 0) {
            Some(start) => {
                if index < self.cells.len() - start {
                    Some(self.cells[start + index])
                } else {
                    None
                }
            },
            None => None,
        }
    }
}

} // verus!
