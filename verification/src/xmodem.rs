//! XMODEM-CRC packet format.
//!
//! A data packet is `SOH | block | 255 - block | 128 payload bytes | CRC16`,
//! the CRC being sent high byte first. The end of a transfer is the single
//! byte `EOT`. Decoding is a pure function of the bytes handed in.

use vstd::prelude::*;

verus! {

/// Number of payload bytes in a data packet.
pub const PAYLOAD_SIZE: usize = 128;

/// Length of a full data packet: header, block number, its complement,
/// the payload and two CRC bytes.
pub const MAX_PACKET_SIZE: usize = 133;

/// Acknowledge.
pub const ACK: u8 = 0x06;

/// Negative acknowledge.
pub const NAK: u8 = 0x15;

/// Start of a data packet.
pub const SOH: u8 = 0x01;

/// End of transmission.
pub const EOT: u8 = 0x04;

/// End of transmission block.
pub const ETB: u8 = 0x17;

/// Offset of the first payload byte inside a data packet.
pub const PAYLOAD_START: usize = 3;

/// Offset of the first CRC byte inside a data packet.
pub const CRC_START: usize = 131;

/// One numbered block of payload.
#[derive(Clone, Copy, Debug, PartialEq, Eq)]
pub struct Chunk {
    pub block_number: u8,
    pub payload: [u8; 128],
}

/// What a packet buffer decodes to.
#[derive(Clone, Copy, Debug, PartialEq, Eq)]
pub enum Message {
    Chunk(Chunk),
    EndOfTransmission,
}

/// `rounds` shift rounds of the CRC register, high bit first, with the
/// CCITT polynomial `x^16 + x^12 + x^5 + 1`.
pub open spec fn crc16_shift(crc: u16, rounds: nat) -> u16
    decreases rounds,
{
    if rounds == 0 {
        crc
    } else if crc & 0x8000 != 0 {
        crc16_shift((crc << 1) ^ 0x1021, (rounds - 1) as nat)
    } else {
        crc16_shift(crc << 1, (rounds - 1) as nat)
    }
}

/// The CRC register after one more byte of data.
pub open spec fn crc16_update(crc: u16, byte: u8) -> u16 {
    crc16_shift(crc ^ ((byte as u16) << 8), 8)
}

/// CRC-16/XMODEM of `data`: the register starts at zero and takes the
/// bytes in order.
pub open spec fn crc16(data: Seq<u8>) -> u16
    decreases data.len(),
{
    if data.len() == 0 {
        0
    } else {
        crc16_update(crc16(data.drop_last()), data.last())
    }
}

/// The buffer starts with the end-of-transmission byte.
pub open spec fn is_end_of_transmission(input: Seq<u8>) -> bool {
    input.len() >= 1 && input[0] == EOT
}

/// The payload bytes of a buffer that holds a full data packet.
pub open spec fn chunk_payload(input: Seq<u8>) -> Seq<u8> {
    input.subrange(PAYLOAD_START as int, CRC_START as int)
}

/// The CRC that a full data packet carries after its payload.
pub open spec fn chunk_crc(input: Seq<u8>) -> int {
    input[CRC_START as int] as int * 256 + input[CRC_START as int + 1] as int
}

/// The buffer starts with a well-formed data packet: the header byte,
/// a block number with its complement, and a CRC that matches the payload.
pub open spec fn is_chunk(input: Seq<u8>) -> bool {
    &&& input.len() >= MAX_PACKET_SIZE
    &&& input[0] == SOH
    &&& input[2] as int == 255 - input[1] as int
    &&& chunk_crc(input) == crc16(chunk_payload(input)) as int
}

/// What `parse_message` makes of `input`, as a relation between the two.
pub open spec fn parses_to(input: Seq<u8>, message: Option<Message>) -> bool {
    match message {
        Some(Message::EndOfTransmission) => is_end_of_transmission(input),
        Some(Message::Chunk(chunk)) => {
            &&& is_chunk(input)
            &&& chunk.block_number == input[1]
            &&& chunk.payload@ == chunk_payload(input)
        },
        None => !is_end_of_transmission(input) && !is_chunk(input),
    }
}

/// Eight shift rounds of the CRC register after `byte` has been mixed in.
fn crc16_step(crc: u16, byte: u8) -> (next: u16)
    ensures
        next == crc16_update(crc, byte),
{
    let mixed: u16 = crc ^ ((byte as u16) << 8);
    let mut register: u16 = mixed;
    let mut round: u8 = 0;
    while round < 8
        invariant
            round <= 8,
            crc16_shift(register, (8 - round) as nat) == crc16_shift(mixed, 8),
        decreases 8 - round,
    {
        if register & 0x8000 != 0 {
            register = (register << 1) ^ 0x1021;
        } else {
            register = register << 1;
        }
        round = round + 1;
    }
    register
}

/// Computes the CRC-16/XMODEM checksum of `data`.
pub fn checksum(data: &[u8]) -> (crc: u16)
    ensures
        crc == crc16(data@),
{
    let mut crc: u16 = 0;
    let mut index: usize = 0;
    while index < data.len()
        invariant
            index <= data.len(),
            crc == crc16(data@.take(index as int)),
        decreases data.len() - index,
    {
        proof {
            let longer = data@.take(index as int + 1);
            assert(longer.drop_last() == data@.take(index as int));
            assert(longer.last() == data@[index as int]);
        }
        crc = crc16_step(crc, data[index]);
        index = index + 1;
    }
    proof {
        assert(data@.take(index as int) == data@);
    }
    crc
}

/// Decodes the packet at the start of `input`.
///
/// A buffer that starts with `EOT` is the end of the transmission. A buffer
/// that starts with a full, well-formed data packet gives its block number
/// and payload. Anything else does not parse.
pub fn parse_message(input: &[u8]) -> (message: Option<Message>)
    ensures
        parses_to(input@, message),
{
    if input.len() == 0 {
        return None;
    }
    if input[0] == EOT {
        return Some(Message::EndOfTransmission);
    }
    if input.len() < MAX_PACKET_SIZE || input[0] != SOH {
        return None;
    }
    let block_number = input[1];
    if input[2] != 255 - block_number {
        return None;
    }
    let mut payload = [0u8; 128];
    let mut index: usize = 0;
    while index < PAYLOAD_SIZE
        invariant
            index <= PAYLOAD_SIZE,
            input.len() >= MAX_PACKET_SIZE,
            forall|i: int| 0 <= i < index ==> payload@[i] == input@[PAYLOAD_START as int + i],
        decreases PAYLOAD_SIZE - index,
    {
        payload[index] = input[PAYLOAD_START + index];
        index = index + 1;
    }
    assert(payload@ == chunk_payload(input@));
    let carried: u16 = ((input[CRC_START] as u16) << 8) | (input[CRC_START + 1] as u16);
    proof {
        let high = input[CRC_START as int];
        let low = input[CRC_START as int + 1];
        assert(((high as u16) << 8) | (low as u16) == (high as u16) * 256 + (low as u16))
            by (bit_vector);
    }
    if carried != checksum(&payload) {
        return None;
    }
    Some(Message::Chunk(Chunk { block_number, payload }))
}

} // verus!
