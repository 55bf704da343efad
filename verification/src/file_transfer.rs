//! Receiving a file over a serial line, block by block, with XMODEM-CRC.
//!
//! The receiver is a state machine. It never touches the serial device: it
//! says which byte to send or that a byte is to be read, and is told how
//! that went. Whoever owns the device carries out each action and hands the
//! outcome back as the next event.

use vstd::prelude::*;
use crate::error::Error;
use crate::xmodem::{
    chunk_payload, is_chunk, is_end_of_transmission, parse_message, Chunk, Message, ACK, ETB,
    MAX_PACKET_SIZE, NAK, PAYLOAD_SIZE,
};

verus! {

/// The size of a single block handed out by the receiver.
pub const BLOCK_SIZE: usize = PAYLOAD_SIZE;

/// What the owner of the serial device reports to the receiver.
#[derive(Clone, Copy, Debug, PartialEq, Eq, Structural)]
pub enum Event {
    /// The consumer asks for the next block.
    Next,
    /// The byte was sent.
    Sent,
    /// The byte could not be sent.
    SendFailed,
    /// A byte arrived in time.
    Received(u8),
    /// No byte arrived in time, or the read failed.
    ReceiveFailed,
}

/// What the receiver asks of the owner of the serial device.
#[derive(Clone, Copy, Debug, PartialEq, Eq)]
pub enum Action {
    /// Send this byte and report `Sent` or `SendFailed`.
    Send(u8),
    /// Read one byte with the default timeout and report `Received` or
    /// `ReceiveFailed`.
    Receive,
    /// Hand this block to the consumer. The next event is `Next`.
    Block([u8; 128]),
    /// The sequence of blocks is over.
    End,
}

/// An action with the block as a sequence of bytes.
pub ghost enum ActionView {
    Send(u8),
    Receive,
    Block(Seq<u8>),
    End,
}

impl View for Action {
    type V = ActionView;

    open spec fn view(&self) -> ActionView {
        match *self {
            Action::Send(byte) => ActionView::Send(byte),
            Action::Receive => ActionView::Receive,
            Action::Block(block) => ActionView::Block(block@),
            Action::End => ActionView::End,
        }
    }
}

/// Where the receiver stands in its exchange with the sender.
#[derive(Clone, Copy, Debug, PartialEq, Eq, Structural)]
pub enum Phase {
    /// Nothing is under way: no block has been asked for yet, or the last
    /// request has been answered.
    Idle,
    /// The `ACK` or `NAK` that opens an attempt is being sent.
    Announcing,
    /// The bytes of a packet are being read.
    Receiving,
    /// The `ACK` that answers the end of the transmission is being sent.
    Acknowledging,
    /// The closing `ETB` is being read.
    AwaitingEtb,
    /// The `ACK` that answers the `ETB` is being sent.
    Closing,
}

/// The state of a receiver.
pub ghost struct BlockIteratorView {
    /// The last packet was a data packet with the expected number.
    pub received_block: bool,
    /// The sequence of blocks is over.
    pub finished: bool,
    /// Number of the last block handed out; 0 before the first.
    pub block_number: u8,
    /// Failed attempts in a row for the block asked for.
    pub retries: u32,
    /// How many failed attempts are allowed per block; any number if `None`.
    pub max_retries: Option<u32>,
    /// The sequence ended because the retries were used up.
    pub timed_out: bool,
    /// The exchange under way.
    pub phase: Phase,
    /// The bytes of the packet read so far.
    pub buffer: Seq<u8>,
}

/// The number that follows `number`, back to 0 after 255.
pub open spec fn next_number(number: u8) -> u8 {
    if number == 255 {
        0
    } else {
        (number + 1) as u8
    }
}

/// One more failed attempt; the count stops at its largest value.
pub open spec fn one_more(retries: u32) -> u32 {
    if retries == u32::MAX {
        retries
    } else {
        (retries + 1) as u32
    }
}

/// The packet buffer is parsed after its first byte and when it is full.
pub open spec fn is_checkpoint(buffer: Seq<u8>) -> bool {
    buffer.len() == 1 || buffer.len() == MAX_PACKET_SIZE
}

impl BlockIteratorView {
    /// A receiver before its first block.
    pub open spec fn initial(max_retries: Option<u32>) -> BlockIteratorView {
        BlockIteratorView {
            received_block: false,
            finished: false,
            block_number: 0,
            retries: 0,
            max_retries,
            timed_out: false,
            phase: Phase::Idle,
            buffer: Seq::empty(),
        }
    }

    /// What holds of every state that a receiver reaches.
    pub open spec fn wf(self) -> bool {
        &&& self.buffer.len() < MAX_PACKET_SIZE
        &&& self.phase != Phase::Receiving ==> self.buffer.len() == 0
        &&& self.buffer.len() > 0 ==> !is_end_of_transmission(self.buffer)
        &&& (self.phase == Phase::Announcing || self.phase == Phase::Receiving) ==> !self.finished
            && !self.exhausted()
        &&& (self.phase == Phase::Acknowledging || self.phase == Phase::AwaitingEtb || self.phase
            == Phase::Closing) ==> self.finished
        &&& self.timed_out ==> self.finished
    }

    /// The retries for the current block are used up.
    pub open spec fn exhausted(self) -> bool {
        match self.max_retries {
            Some(max) => self.retries >= max,
            None => false,
        }
    }

    /// The request that is waiting for its answer, if any.
    pub open spec fn pending(self) -> ActionView {
        match self.phase {
            Phase::Idle => ActionView::End,
            Phase::Announcing => ActionView::Send(
                if self.received_block {
                    ACK
                } else {
                    NAK
                },
            ),
            Phase::Receiving => ActionView::Receive,
            Phase::Acknowledging => ActionView::Send(ACK),
            Phase::AwaitingEtb => ActionView::Receive,
            Phase::Closing => ActionView::Send(ACK),
        }
    }

    /// Opens an attempt: `ACK` after a block that was accepted, `NAK`
    /// otherwise. With the retries used up the sequence ends instead.
    pub open spec fn attempt(self) -> (BlockIteratorView, ActionView) {
        if self.exhausted() {
            (
                BlockIteratorView {
                    finished: true,
                    timed_out: true,
                    phase: Phase::Idle,
                    buffer: Seq::empty(),
                    ..self
                },
                ActionView::End,
            )
        } else {
            let opened = BlockIteratorView {
                phase: Phase::Announcing,
                buffer: Seq::empty(),
                ..self
            };
            (opened, opened.pending())
        }
    }

    /// Counts a failed attempt and opens the next one.
    pub open spec fn retry(self) -> (BlockIteratorView, ActionView) {
        (BlockIteratorView { retries: one_more(self.retries), ..self }).attempt()
    }

    /// The consumer asks for the next block.
    pub open spec fn request(self) -> (BlockIteratorView, ActionView) {
        if self.finished {
            (self, ActionView::End)
        } else {
            (BlockIteratorView { retries: 0, ..self }).attempt()
        }
    }

    /// The sequence ends with nothing under way.
    pub open spec fn end(self) -> (BlockIteratorView, ActionView) {
        (BlockIteratorView { phase: Phase::Idle, ..self }, ActionView::End)
    }

    /// One more byte of a packet has arrived.
    pub open spec fn receive(self, byte: u8) -> (BlockIteratorView, ActionView) {
        let buffer = self.buffer.push(byte);
        if is_checkpoint(buffer) && is_end_of_transmission(buffer) {
            (
                BlockIteratorView {
                    finished: true,
                    phase: Phase::Acknowledging,
                    buffer: Seq::empty(),
                    ..self
                },
                ActionView::Send(ACK),
            )
        } else if is_checkpoint(buffer) && is_chunk(buffer) && buffer[1] == next_number(
            self.block_number,
        ) {
            (
                BlockIteratorView {
                    received_block: true,
                    block_number: next_number(self.block_number),
                    phase: Phase::Idle,
                    buffer: Seq::empty(),
                    ..self
                },
                ActionView::Block(chunk_payload(buffer)),
            )
        } else if buffer.len() < MAX_PACKET_SIZE {
            (BlockIteratorView { buffer, ..self }, ActionView::Receive)
        } else if is_chunk(buffer) {
            self.attempt()
        } else {
            self.retry()
        }
    }

    /// The state after `event` and the action that answers it. An event
    /// that does not answer the pending request changes nothing, and the
    /// request is made again.
    pub open spec fn step(self, event: Event) -> (BlockIteratorView, ActionView) {
        match (self.phase, event) {
            (Phase::Idle, _) => self.request(),
            (Phase::Announcing, Event::Sent) => (
                BlockIteratorView { received_block: false, phase: Phase::Receiving, ..self },
                ActionView::Receive,
            ),
            (Phase::Announcing, Event::SendFailed) => self.retry(),
            (Phase::Receiving, Event::Received(byte)) => self.receive(byte),
            (Phase::Receiving, Event::ReceiveFailed) => self.retry(),
            (Phase::Acknowledging, Event::Sent) => (
                BlockIteratorView { phase: Phase::AwaitingEtb, ..self },
                ActionView::Receive,
            ),
            (Phase::Acknowledging, Event::SendFailed) => self.end(),
            (Phase::AwaitingEtb, Event::Received(byte)) => if byte == ETB {
                (BlockIteratorView { phase: Phase::Closing, ..self }, ActionView::Send(ACK))
            } else {
                self.end()
            },
            (Phase::AwaitingEtb, Event::ReceiveFailed) => self.end(),
            (Phase::Closing, Event::Sent) => self.end(),
            (Phase::Closing, Event::SendFailed) => self.end(),
            _ => (self, self.pending()),
        }
    }

    /// The state after all of `events`, taken in order.
    pub open spec fn run(self, events: Seq<Event>) -> BlockIteratorView
        decreases events.len(),
    {
        if events.len() == 0 {
            self
        } else {
            self.run(events.drop_last()).step(events.last()).0
        }
    }

    /// The numbers of the blocks handed out in answer to `events`, in
    /// order.
    pub open spec fn emitted(self, events: Seq<Event>) -> Seq<u8>
        decreases events.len(),
    {
        if events.len() == 0 {
            Seq::empty()
        } else {
            let before = self.run(events.drop_last());
            let (after, action) = before.step(events.last());
            if action is Block {
                self.emitted(events.drop_last()).push(after.block_number)
            } else {
                self.emitted(events.drop_last())
            }
        }
    }
}

/// One step keeps a state well-formed. It hands out a block only for a data
/// packet that carries the number after the last one, and only then does
/// the number move on. It ends the sequence only with the receiver finished
/// and nothing under way, and a finished receiver stays finished.
pub proof fn lemma_step(state: BlockIteratorView, event: Event)
    requires
        state.wf(),
    ensures
        state.step(event).0.wf(),
        state.step(event).0.max_retries == state.max_retries,
        state.step(event).1 is Block ==> {
            &&& state.phase == Phase::Receiving
            &&& event is Received
            &&& is_chunk(state.buffer.push(event->Received_0))
            &&& state.buffer.push(event->Received_0)[1] == next_number(state.block_number)
            &&& state.step(event).1 == ActionView::Block(
                chunk_payload(state.buffer.push(event->Received_0)),
            )
            &&& state.step(event).0.block_number == next_number(state.block_number)
        },
        !(state.step(event).1 is Block) ==> state.step(event).0.block_number
            == state.block_number,
        state.step(event).1 is End ==> state.step(event).0.finished && state.step(event).0.phase
            == Phase::Idle,
        state.finished ==> state.step(event).0.finished,
{
    if state.phase == Phase::Receiving && event is Received {
        let buffer = state.buffer.push(event->Received_0);
        if state.buffer.len() > 0 {
            assert(buffer[0] == state.buffer[0]);
        }
    }
}

/// Every run of a receiver keeps its state well-formed.
pub proof fn lemma_run_is_well_formed(start: BlockIteratorView, events: Seq<Event>)
    requires
        start.wf(),
    ensures
        start.run(events).wf(),
    decreases events.len(),
{
    if events.len() > 0 {
        lemma_run_is_well_formed(start, events.drop_last());
        lemma_step(start.run(events.drop_last()), events.last());
    }
}

/// The number of the block that comes `count` blocks after the one numbered
/// `number`.
pub open spec fn number_after(number: u8, count: int) -> int {
    (number + count) % 256
}

/// Blocks are handed out in the order of their numbers: whatever the sender
/// and the line do, each block carries the number after the one before it,
/// modulo 256, so that none comes twice and none is left out. The receiver
/// remembers the number of the last one.
pub proof fn lemma_blocks_come_in_order(start: BlockIteratorView, events: Seq<Event>)
    requires
        start.wf(),
    ensures
        forall|i: int|
            0 <= i < start.emitted(events).len() ==> #[trigger] start.emitted(events)[i] as int
                == number_after(start.block_number, i + 1),
        start.run(events).block_number as int == number_after(
            start.block_number,
            start.emitted(events).len() as int,
        ),
    decreases events.len(),
{
    if events.len() > 0 {
        let earlier = events.drop_last();
        lemma_blocks_come_in_order(start, earlier);
        lemma_run_is_well_formed(start, earlier);
        lemma_step(start.run(earlier), events.last());
    }
}

/// A receiver that starts afresh hands out the blocks 1, 2, 3 and so on,
/// modulo 256.
pub proof fn lemma_blocks_start_at_one(max_retries: Option<u32>, events: Seq<Event>)
    ensures
        forall|i: int|
            0 <= i < BlockIteratorView::initial(max_retries).emitted(events).len()
                ==> #[trigger] BlockIteratorView::initial(max_retries).emitted(events)[i] as int
                == (i + 1) % 256,
{
    lemma_blocks_come_in_order(BlockIteratorView::initial(max_retries), events);
}

/// Once the sequence has ended, the receiver asks nothing more of the
/// serial line: every further event is answered with the end of the
/// sequence and changes nothing.
pub proof fn lemma_end_is_final(state: BlockIteratorView, event: Event, later: Event)
    requires
        state.wf(),
        state.step(event).1 is End,
    ensures
        state.step(event).0.step(later) == (state.step(event).0, ActionView::End),
{
}

/// How a line answers on which sending works and nothing ever arrives.
pub open spec fn silence(state: BlockIteratorView) -> Event {
    match state.pending() {
        ActionView::Send(_) => Event::Sent,
        ActionView::Receive => Event::ReceiveFailed,
        _ => Event::Next,
    }
}

/// The state after `rounds` answers of a silent line.
pub open spec fn drained(state: BlockIteratorView, rounds: nat) -> BlockIteratorView
    decreases rounds,
{
    if rounds == 0 {
        state
    } else {
        let before = drained(state, (rounds - 1) as nat);
        before.step(silence(before)).0
    }
}

/// The answers of a silent line that bring a receiver with a limit on its
/// retries to its end, counted from a given state.
pub open spec fn rounds_to_end(state: BlockIteratorView) -> nat {
    let left: nat = match state.max_retries {
        Some(max) => if state.retries < max {
            (max - state.retries) as nat
        } else {
            0
        },
        None => 0,
    };
    match state.phase {
        Phase::Idle => if state.finished {
            0
        } else {
            match state.max_retries {
                Some(max) => 2 * max as nat + 1,
                None => 0,
            }
        },
        Phase::Announcing => 2 * left,
        Phase::Receiving => (2 * left - 1) as nat,
        Phase::Acknowledging => 2,
        Phase::AwaitingEtb => 1,
        Phase::Closing => 1,
    }
}

/// A receiver with a limit on its retries that is left to a silent line
/// comes to its end: after a number of answers that the limit bounds, it is
/// finished with nothing under way.
pub proof fn lemma_silent_line_ends(state: BlockIteratorView)
    requires
        state.wf(),
        state.max_retries is Some,
    ensures
        drained(state, rounds_to_end(state)).finished,
        drained(state, rounds_to_end(state)).phase == Phase::Idle,
        rounds_to_end(state) <= 2 * state.max_retries->Some_0 + 2,
    decreases rounds_to_end(state),
{
    let rounds = rounds_to_end(state);
    if rounds > 0 {
        let next = state.step(silence(state)).0;
        lemma_step(state, silence(state));
        assert(rounds_to_end(next) == rounds - 1);
        lemma_silent_line_ends(next);
        lemma_drained_from_next(state, (rounds - 1) as nat);
    }
}

/// Draining for one more round is draining from the next state on.
pub proof fn lemma_drained_from_next(state: BlockIteratorView, rounds: nat)
    ensures
        drained(state, rounds + 1) == drained(state.step(silence(state)).0, rounds),
    decreases rounds,
{
    if rounds > 0 {
        lemma_drained_from_next(state, (rounds - 1) as nat);
    } else {
        assert(drained(state, 1) == drained(state, 0).step(silence(drained(state, 0))).0);
    }
}

/// Receiver of a sequence of blocks.
pub struct BlockIterator {
    received_block: bool,
    finished: bool,
    block_number: u8,
    retries: u32,
    max_retries: Option<u32>,
    timed_out: bool,
    phase: Phase,
    buffer: Vec<u8>,
}

impl View for BlockIterator {
    type V = BlockIteratorView;

    closed spec fn view(&self) -> BlockIteratorView {
        BlockIteratorView {
            received_block: self.received_block,
            finished: self.finished,
            block_number: self.block_number,
            retries: self.retries,
            max_retries: self.max_retries,
            timed_out: self.timed_out,
            phase: self.phase,
            buffer: self.buffer@,
        }
    }
}

impl BlockIterator {
    /// A receiver before its first block. With `max_retries` set, the
    /// sequence ends once that many attempts for one block have failed.
    pub fn new(max_retries: Option<u32>) -> (receiver: BlockIterator)
        ensures
            receiver@ == BlockIteratorView::initial(max_retries),
            receiver@.wf(),
    {
        BlockIterator {
            received_block: false,
            finished: false,
            block_number: 0,
            retries: 0,
            max_retries,
            timed_out: false,
            phase: Phase::Idle,
            buffer: Vec::new(),
        }
    }

    /// Whether the sequence of blocks is over.
    pub fn is_finished(&self) -> (finished: bool)
        ensures
            finished == self@.finished,
    {
        self.finished
    }

    /// Number of the last block handed out; 0 before the first.
    pub fn block_number(&self) -> (number: u8)
        ensures
            number == self@.block_number,
    {
        self.block_number
    }

    /// How the transfer ended: `None` while it is going on, an error where
    /// the retries were used up, `Ok` after a clean end.
    pub fn outcome(&self) -> (outcome: Option<Result<(), Error>>)
        ensures
            outcome == if !self@.finished {
                None
            } else if self@.timed_out {
                Some(Err::<(), Error>(Error::TransferTimedOut))
            } else {
                Some(Ok::<(), Error>(()))
            },
    {
        if !self.finished {
            None
        } else if self.timed_out {
            Some(Err(Error::TransferTimedOut))
        } else {
            Some(Ok(()))
        }
    }

    /// The request that is waiting for its answer.
    fn pending(&self) -> (action: Action)
        ensures
            action@ == self@.pending(),
    {
        match self.phase {
            Phase::Idle => Action::End,
            Phase::Announcing => Action::Send(
                if self.received_block {
                    ACK
                } else {
                    NAK
                },
            ),
            Phase::Receiving => Action::Receive,
            Phase::Acknowledging => Action::Send(ACK),
            Phase::AwaitingEtb => Action::Receive,
            Phase::Closing => Action::Send(ACK),
        }
    }

    /// Opens an attempt, or ends the sequence with the retries used up.
    fn attempt(&mut self) -> (action: Action)
        requires
            !old(self)@.finished,
            !old(self)@.timed_out,
        ensures
            (final(self)@, action@) == old(self)@.attempt(),
            final(self)@.wf(),
    {
        self.buffer.clear();
        let exhausted = match self.max_retries {
            Some(max) => self.retries >= max,
            None => false,
        };
        if exhausted {
            self.finished = true;
            self.timed_out = true;
            self.phase = Phase::Idle;
            Action::End
        } else {
            self.phase = Phase::Announcing;
            self.pending()
        }
    }

    /// Counts a failed attempt and opens the next one.
    fn retry(&mut self) -> (action: Action)
        requires
            !old(self)@.finished,
            !old(self)@.timed_out,
        ensures
            (final(self)@, action@) == old(self)@.retry(),
            final(self)@.wf(),
    {
        if self.retries < u32::MAX {
            self.retries = self.retries + 1;
        }
        self.attempt()
    }

    /// Ends the sequence with nothing under way.
    fn end(&mut self) -> (action: Action)
        requires
            old(self)@.wf(),
            old(self)@.finished,
            old(self)@.phase != Phase::Receiving,
        ensures
            (final(self)@, action@) == old(self)@.end(),
            final(self)@.wf(),
    {
        self.phase = Phase::Idle;
        Action::End
    }

    /// The payload of a data packet that carries the expected number.
    fn process_chunk(&self, chunk: Chunk) -> (block: Option<[u8; 128]>)
        ensures
            block == if chunk.block_number == next_number(self@.block_number) {
                Some(chunk.payload)
            } else {
                None
            },
    {
        if chunk.block_number == self.block_number.wrapping_add(1) {
            Some(chunk.payload)
        } else {
            None
        }
    }

    /// Starts the closing exchange after the sender has announced the end
    /// of the transmission.
    fn end_transmission(&mut self) -> (action: Action)
        requires
            old(self)@.phase == Phase::Receiving,
        ensures
            final(self)@ == (BlockIteratorView {
                finished: true,
                phase: Phase::Acknowledging,
                buffer: Seq::empty(),
                ..old(self)@
            }),
            action@ == ActionView::Send(ACK),
            final(self)@.wf(),
    {
        self.finished = true;
        self.phase = Phase::Acknowledging;
        self.buffer.clear();
        Action::Send(ACK)
    }

    /// Parses the packet buffer and acts on what it holds: the end of the
    /// transmission starts the closing exchange, a data packet with the
    /// expected number gives a block. `None` says that the buffer gave
    /// neither.
    fn process_message(&mut self) -> (action: Option<Action>)
        requires
            old(self)@.phase == Phase::Receiving,
            !old(self)@.finished,
            is_checkpoint(old(self)@.buffer),
            !is_end_of_transmission(old(self)@.buffer.drop_last()),
            old(self)@.timed_out ==> old(self)@.finished,
        ensures
            match action {
                Some(action) => {
                    &&& final(self)@.wf()
                    &&& (is_end_of_transmission(old(self)@.buffer) || (is_chunk(old(self)@.buffer)
                        && old(self)@.buffer[1] == next_number(old(self)@.block_number)))
                    &&& (final(self)@, action@) == (BlockIteratorView {
                        buffer: old(self)@.buffer.drop_last(),
                        ..old(self)@
                    }).receive(old(self)@.buffer.last())
                },
                None => {
                    &&& final(self)@ == old(self)@
                    &&& !is_end_of_transmission(old(self)@.buffer)
                    &&& !(is_chunk(old(self)@.buffer) && old(self)@.buffer[1] == next_number(
                        old(self)@.block_number,
                    ))
                },
            },
    {
        let ghost buffer = self.buffer@;
        assert(buffer.drop_last().push(buffer.last()) == buffer);
        match parse_message(self.buffer.as_slice()) {
            Some(Message::EndOfTransmission) => {
                assert(buffer.len() == 1) by {
                    if buffer.len() > 1 {
                        assert(buffer.drop_last()[0] == buffer[0]);
                    }
                }
                Some(self.end_transmission())
            },
            Some(Message::Chunk(chunk)) => {
                match self.process_chunk(chunk) {
                    Some(block) => {
                        self.block_number = self.block_number.wrapping_add(1);
                        self.received_block = true;
                        self.phase = Phase::Idle;
                        self.buffer.clear();
                        Some(Action::Block(block))
                    },
                    None => None,
                }
            },
            None => None,
        }
    }

    /// Takes in one more byte of a packet.
    fn receive(&mut self, byte: u8) -> (action: Action)
        requires
            old(self)@.wf(),
            old(self)@.phase == Phase::Receiving,
        ensures
            (final(self)@, action@) == old(self)@.receive(byte),
            final(self)@.wf(),
    {
        let ghost before = self@;
        self.buffer.push(byte);
        let length = self.buffer.len();
        proof {
            assert(self@.buffer.drop_last() == before.buffer);
            assert(self@.buffer.last() == byte);
            assert((BlockIteratorView { buffer: self@.buffer.drop_last(), ..self@ }) == before);
            if before.buffer.len() > 0 {
                assert(self@.buffer[0] == before.buffer[0]);
            }
        }
        if length == 1 || length == MAX_PACKET_SIZE {
            match self.process_message() {
                Some(action) => {
                    return action;
                },
                None => {},
            }
        }
        if length < MAX_PACKET_SIZE {
            return Action::Receive;
        }
        let ghost full = self@.buffer;
        let well_formed = match parse_message(self.buffer.as_slice()) {
            Some(Message::Chunk(_)) => true,
            _ => false,
        };
        assert(well_formed == is_chunk(full));
        self.buffer.clear();
        assert(self@ == (BlockIteratorView { buffer: Seq::empty(), ..before }));
        if well_formed {
            self.attempt()
        } else {
            self.retry()
        }
    }

    /// Takes the outcome of the last action, or the consumer's request for
    /// the next block, and says what to do next.
    ///
    /// A request opens an attempt with `NAK`, or with `ACK` after a block
    /// that was accepted. The packet that follows is read byte by byte and
    /// parsed after its first byte and when it is full. A data packet with
    /// the number that follows the last one gives a block. One with another
    /// number is dropped and the attempt is made again. A failure to send or
    /// to read, and a full buffer that is no data packet, count as a failed
    /// attempt; with the retries used up the sequence ends. The end of the
    /// transmission is answered with `ACK`; if an `ETB` follows, it is
    /// answered with `ACK` too, and the sequence ends whatever goes wrong on
    /// the way.
    pub fn step(&mut self, event: Event) -> (action: Action)
        requires
            old(self)@.wf(),
        ensures
            (final(self)@, action@) == old(self)@.step(event),
            final(self)@.wf(),
    {
        match self.phase {
            Phase::Idle => {
                if self.finished {
                    Action::End
                } else {
                    self.retries = 0;
                    self.attempt()
                }
            },
            Phase::Announcing => match event {
                Event::Sent => {
                    self.received_block = false;
                    self.phase = Phase::Receiving;
                    Action::Receive
                },
                Event::SendFailed => self.retry(),
                _ => self.pending(),
            },
            Phase::Receiving => match event {
                Event::Received(byte) => self.receive(byte),
                Event::ReceiveFailed => self.retry(),
                _ => self.pending(),
            },
            Phase::Acknowledging => match event {
                Event::Sent => {
                    self.phase = Phase::AwaitingEtb;
                    Action::Receive
                },
                Event::SendFailed => self.end(),
                _ => self.pending(),
            },
            Phase::AwaitingEtb => match event {
                Event::Received(byte) => {
                    if byte == ETB {
                        self.phase = Phase::Closing;
                        Action::Send(ACK)
                    } else {
                        self.end()
                    }
                },
                Event::ReceiveFailed => self.end(),
                _ => self.pending(),
            },
            Phase::Closing => match event {
                Event::Sent => self.end(),
                Event::SendFailed => self.end(),
                _ => self.pending(),
            },
        }
    }
}

} // verus!
