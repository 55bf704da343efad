//! Cutting a byte stream short at the first occurrence of a sentinel.
//!
//! The output holds every input byte that comes before the first occurrence
//! of the sentinel. The sentinel itself is consumed and never handed out. The
//! matcher works on one byte at a time and keeps no more than its position
//! inside the sentinel.

use vstd::prelude::*;

verus! {

/// `sequence` occurs in `input` with its first element at index `at`.
pub open spec fn occurs_at(input: Seq<u8>, sequence: Seq<u8>, at: int) -> bool {
    &&& 0 <= at
    &&& at + sequence.len() <= input.len()
    &&& input.subrange(at, at + sequence.len()) == sequence
}

/// Index at which the first occurrence of `sequence` at or after `from`
/// starts, or the length of `input` where there is none.
pub open spec fn first_occurrence(input: Seq<u8>, sequence: Seq<u8>, from: int) -> int
    decreases input.len() - from,
{
    if from < 0 || from >= input.len() || from + sequence.len() > input.len() {
        input.len() as int
    } else if occurs_at(input, sequence, from) {
        from
    } else {
        first_occurrence(input, sequence, from + 1)
    }
}

/// The bytes of `input` that come before the first occurrence of `sequence`;
/// all of `input` where `sequence` does not occur.
pub open spec fn until_sequence(input: Seq<u8>, sequence: Seq<u8>) -> Seq<u8> {
    input.take(first_occurrence(input, sequence, 0))
}

/// What has been consumed from index `at` on agrees with `sequence` as far
/// as both reach, so an occurrence may still turn out to start at `at`.
pub open spec fn may_start_at(consumed: Seq<u8>, sequence: Seq<u8>, at: int) -> bool {
    forall|j: int|
        0 <= j < sequence.len() && at + j < consumed.len() ==> #[trigger] consumed[at + j]
            == sequence[j]
}

/// The search from `from` stays inside the input and lands on an occurrence
/// unless it lands on the end.
pub proof fn lemma_first_occurrence_bounds(input: Seq<u8>, sequence: Seq<u8>, from: int)
    requires
        0 <= from <= input.len(),
    ensures
        from <= first_occurrence(input, sequence, from) <= input.len(),
        first_occurrence(input, sequence, from) < input.len() ==> occurs_at(
            input,
            sequence,
            first_occurrence(input, sequence, from),
        ),
        forall|i: int|
            from <= i < first_occurrence(input, sequence, from) ==> !occurs_at(input, sequence, i),
    decreases input.len() - from,
{
    if from >= input.len() || from + sequence.len() > input.len() {
    } else if occurs_at(input, sequence, from) {
    } else {
        lemma_first_occurrence_bounds(input, sequence, from + 1);
    }
}

/// The search from `from` finds the occurrence at `at` when none starts
/// between the two.
pub proof fn lemma_first_occurrence_is(input: Seq<u8>, sequence: Seq<u8>, from: int, at: int)
    requires
        0 <= from <= at,
        sequence.len() > 0,
        occurs_at(input, sequence, at),
        forall|i: int| from <= i < at ==> !occurs_at(input, sequence, i),
    ensures
        first_occurrence(input, sequence, from) == at,
    decreases at - from,
{
    if from < at {
        lemma_first_occurrence_is(input, sequence, from + 1, at);
    }
}

/// The search from `from` reaches the end when no occurrence starts at or
/// after `from`.
pub proof fn lemma_first_occurrence_none(input: Seq<u8>, sequence: Seq<u8>, from: int)
    requires
        0 <= from <= input.len(),
        forall|i: int| from <= i ==> !occurs_at(input, sequence, i),
    ensures
        first_occurrence(input, sequence, from) == input.len(),
    decreases input.len() - from,
{
    if from < input.len() && from + sequence.len() <= input.len() {
        lemma_first_occurrence_none(input, sequence, from + 1);
    }
}

/// No occurrence of `sequence` starts within the first `length` bytes of
/// `input`.
pub open spec fn none_starts_before(input: Seq<u8>, sequence: Seq<u8>, length: int) -> bool {
    forall|i: int| 0 <= i < length ==> !occurs_at(input, sequence, i)
}

/// The output is the longest prefix of the input in which no occurrence of
/// the sentinel begins: it is a prefix, no occurrence starts inside it, and
/// every longer prefix has one starting inside it. Where it is shorter than
/// the input, the sentinel occurs right behind it.
pub proof fn lemma_until_sequence_is_longest_prefix(input: Seq<u8>, sequence: Seq<u8>)
    requires
        sequence.len() > 0,
    ensures
        until_sequence(input, sequence).is_prefix_of(input),
        forall|length: int|
            0 <= length <= input.len() ==> (#[trigger] none_starts_before(input, sequence, length)
                <==> length <= until_sequence(input, sequence).len()),
        until_sequence(input, sequence).len() < input.len() ==> occurs_at(
            input,
            sequence,
            until_sequence(input, sequence).len() as int,
        ),
{
    lemma_first_occurrence_bounds(input, sequence, 0);
    let cut = first_occurrence(input, sequence, 0);
    assert forall|length: int| 0 <= length <= input.len() implies (#[trigger] none_starts_before(
        input,
        sequence,
        length,
    ) <==> length <= until_sequence(input, sequence).len()) by {
        if length > cut {
            assert(occurs_at(input, sequence, cut));
        }
    }
}

/// An input without any occurrence of the sentinel comes out whole.
pub proof fn lemma_until_sequence_without_occurrence(input: Seq<u8>, sequence: Seq<u8>)
    requires
        forall|i: int| 0 <= i ==> !occurs_at(input, sequence, i),
    ensures
        until_sequence(input, sequence) == input,
{
    lemma_first_occurrence_none(input, sequence, 0);
}

/// The last `matched` bytes of `consumed` are the first `matched` bytes of
/// `sequence`, and no occurrence can start before them.
pub open spec fn holds_back(consumed: Seq<u8>, sequence: Seq<u8>, matched: int) -> bool {
    &&& sequence.len() > 0
    &&& 0 <= matched <= sequence.len()
    &&& matched <= consumed.len()
    &&& consumed.skip(consumed.len() - matched) == sequence.take(matched)
    &&& forall|i: int| 0 <= i < consumed.len() - matched ==> !may_start_at(consumed, sequence, i)
}

/// The held-back bytes followed by the next byte of the stream.
pub open spec fn candidate(sequence: Seq<u8>, matched: int, byte: u8) -> Seq<u8> {
    sequence.take(matched).push(byte)
}

/// The last `length` bytes of the candidate are the first `length` bytes of
/// the sentinel.
pub open spec fn end_fits(sequence: Seq<u8>, matched: int, byte: u8, length: int) -> bool {
    candidate(sequence, matched, byte).skip(matched + 1 - length) == sequence.take(length)
}

/// One more byte behind what is held back: no occurrence can start before
/// the bytes held back so far.
proof fn lemma_push_keeps_released(before: Seq<u8>, sequence: Seq<u8>, matched: int, byte: u8)
    requires
        holds_back(before, sequence, matched),
    ensures
        forall|i: int|
            0 <= i < before.len() - matched ==> !may_start_at(before.push(byte), sequence, i),
        before.push(byte).skip(before.len() - matched) == candidate(sequence, matched, byte),
{
    let after = before.push(byte);
    let held = before.len() - matched;
    assert forall|i: int| 0 <= i < held implies !may_start_at(after, sequence, i) by {
        assert(!may_start_at(before, sequence, i));
        let j = choose|j: int|
            0 <= j < sequence.len() && i + j < before.len() && before[i + j] != sequence[j];
        assert(after[i + j] != sequence[j]);
    }
    assert(after.skip(held) =~= before.skip(held).push(byte));
}

/// An end of the candidate that does not fit the start of the sentinel
/// rules out an occurrence that starts with it.
proof fn lemma_misfit_cannot_start(
    before: Seq<u8>,
    sequence: Seq<u8>,
    matched: int,
    byte: u8,
    length: int,
)
    requires
        holds_back(before, sequence, matched),
        matched < sequence.len(),
        1 <= length <= matched + 1,
        !end_fits(sequence, matched, byte, length),
    ensures
        !may_start_at(before.push(byte), sequence, before.len() + 1 - length),
{
    let after = before.push(byte);
    let at = after.len() - length;
    lemma_push_keeps_released(before, sequence, matched, byte);
    let tail = candidate(sequence, matched, byte).skip(matched + 1 - length);
    assert(after.skip(at) =~= tail) by {
        assert(after.skip(at) =~= after.skip(before.len() - matched).skip(matched + 1 - length));
    }
    if may_start_at(after, sequence, at) {
        assert forall|j: int| 0 <= j < length implies tail[j] == sequence.take(length)[j] by {
            assert(after[at + j] == sequence[j]);
            assert(after.skip(at)[j] == after[at + j]);
        }
        assert(tail =~= sequence.take(length));
    }
}

/// After one more byte, `keep` bytes are held back, where `keep` is the
/// length of the longest end of the candidate that fits the start of the
/// sentinel. The bytes in front of that end are released.
proof fn lemma_push(before: Seq<u8>, sequence: Seq<u8>, matched: int, byte: u8, keep: int)
    requires
        holds_back(before, sequence, matched),
        matched < sequence.len(),
        0 <= keep <= matched + 1,
        end_fits(sequence, matched, byte, keep),
        forall|length: int|
            keep < length <= matched + 1 ==> !#[trigger] end_fits(sequence, matched, byte, length),
    ensures
        holds_back(before.push(byte), sequence, keep),
        before.push(byte).take(before.len() + 1 - keep) == before.take(before.len() - matched)
            + candidate(sequence, matched, byte).take(matched + 1 - keep),
{
    let after = before.push(byte);
    let held = before.len() - matched;
    let new_held = after.len() - keep;
    let drop = matched + 1 - keep;
    lemma_push_keeps_released(before, sequence, matched, byte);
    assert(after.skip(new_held) == sequence.take(keep)) by {
        assert(after.skip(new_held) =~= after.skip(held).skip(drop));
    }
    assert forall|i: int| 0 <= i < new_held implies !may_start_at(after, sequence, i) by {
        if i >= held {
            let length = after.len() - i;
            assert(!end_fits(sequence, matched, byte, length));
            lemma_misfit_cannot_start(before, sequence, matched, byte, length);
        }
    }
    assert(after.take(new_held) =~= before.take(held) + candidate(sequence, matched, byte).take(
        drop,
    )) by {
        assert(before.take(held) =~= after.take(held));
        assert(after.take(new_held) =~= after.take(held) + after.skip(held).take(drop));
    }
}

/// Matcher that takes a stream byte by byte and releases the bytes that
/// cannot belong to the first occurrence of its sentinel.
pub struct UntilSequence {
    sequence: Vec<u8>,
    matched: usize,
    consumed: Ghost<Seq<u8>>,
}

impl UntilSequence {
    /// The sentinel that ends the stream.
    pub closed spec fn sequence(&self) -> Seq<u8> {
        self.sequence@
    }

    /// Every byte pushed so far, up to and including the sentinel once it
    /// has been found.
    pub closed spec fn consumed(&self) -> Seq<u8> {
        self.consumed@
    }

    /// Number of consumed bytes that are held back because they match the
    /// start of the sentinel.
    pub closed spec fn matched(&self) -> nat {
        self.matched as nat
    }

    /// The whole sentinel has been seen.
    pub open spec fn is_found(&self) -> bool {
        self.matched() == self.sequence().len()
    }

    /// The bytes handed out so far: everything consumed but the held-back
    /// end.
    pub open spec fn released(&self) -> Seq<u8> {
        self.consumed().take(self.consumed().len() - self.matched())
    }

    /// The matcher's invariant: the held-back bytes are the end of what was
    /// consumed and the start of the sentinel, and no occurrence can start
    /// among the bytes already released.
    pub closed spec fn wf(&self) -> bool {
        holds_back(self.consumed@, self.sequence@, self.matched as int)
    }

    /// What a well-formed matcher has released is the cut of what it has
    /// consumed, short of the bytes it still holds back; once the sentinel
    /// is found, it is that cut exactly.
    pub proof fn lemma_released(&self)
        requires
            self.wf(),
        ensures
            self.sequence().len() > 0,
            self.matched() <= self.sequence().len(),
            self.matched() <= self.consumed().len(),
            self.is_found() ==> self.released() == until_sequence(
                self.consumed(),
                self.sequence(),
            ),
            !self.is_found() ==> self.released() + self.sequence().take(self.matched() as int)
                == until_sequence(self.consumed(), self.sequence()),
    {
        let consumed = self.consumed@;
        let sequence = self.sequence@;
        let held = consumed.len() - self.matched;
        assert forall|i: int| 0 <= i < held implies !occurs_at(consumed, sequence, i) by {
            if occurs_at(consumed, sequence, i) {
                assert forall|j: int|
                    0 <= j < sequence.len() && i + j < consumed.len() implies #[trigger] consumed[i
                    + j] == sequence[j] by {
                    assert(consumed.subrange(i, i + sequence.len())[j] == sequence[j]);
                }
                assert(may_start_at(consumed, sequence, i));
            }
        }
        if self.matched == sequence.len() {
            assert(consumed.subrange(held, held + sequence.len()) == consumed.skip(held));
            assert(sequence.take(self.matched as int) == sequence);
            lemma_first_occurrence_is(consumed, sequence, 0, held);
        } else {
            lemma_first_occurrence_none(consumed, sequence, 0);
            assert(consumed.take(held) + consumed.skip(held) == consumed);
        }
    }

    /// A matcher for `sequence` that has consumed nothing.
    pub fn new(sequence: Vec<u8>) -> (matcher: Self)
        requires
            sequence@.len() > 0,
        ensures
            matcher.wf(),
            matcher.sequence() == sequence@,
            matcher.consumed() == Seq::<u8>::empty(),
            matcher.matched() == 0,
    {
        let matcher = UntilSequence { sequence, matched: 0, consumed: Ghost(Seq::empty()) };
        assert(matcher.consumed@.skip(0) == matcher.sequence@.take(0));
        matcher
    }

    /// Whether the sentinel has been found.
    pub fn found(&self) -> (found: bool)
        ensures
            found == self.is_found(),
    {
        self.matched == self.sequence.len()
    }

    /// Whether the last `length` of the held-back bytes followed by `byte`
    /// are the first `length` bytes of the sentinel.
    fn fits(&self, byte: u8, length: usize) -> (fits: bool)
        requires
            self.matched < self.sequence@.len(),
            1 <= length <= self.matched + 1,
        ensures
            fits == end_fits(self.sequence@, self.matched as int, byte, length as int),
    {
        let ghost window = candidate(self.sequence@, self.matched as int, byte).skip(
            self.matched + 1 - length,
        );
        let ghost target = self.sequence@.take(length as int);
        let total = self.sequence.len();
        if byte != self.sequence[length - 1] {
            assert(window[length - 1] != target[length - 1]);
            return false;
        }
        let offset: usize = self.matched + 1 - length;
        let mut index: usize = 0;
        while index < length - 1
            invariant
                self.matched < self.sequence@.len(),
                1 <= length <= self.matched + 1,
                offset == self.matched + 1 - length,
                index <= length - 1,
                window == candidate(self.sequence@, self.matched as int, byte).skip(
                    self.matched + 1 - length,
                ),
                target == self.sequence@.take(length as int),
                window[length - 1] == target[length - 1],
                forall|j: int| 0 <= j < index ==> window[j] == target[j],
            decreases length - 1 - index,
        {
            if self.sequence[offset + index] != self.sequence[index] {
                assert(window[index as int] != target[index as int]);
                return false;
            }
            index = index + 1;
        }
        assert(window =~= target);
        true
    }

    /// Length of the longest end of the held-back bytes followed by `byte`
    /// that is a start of the sentinel.
    fn longest_fit(&self, byte: u8) -> (keep: usize)
        requires
            self.matched < self.sequence@.len(),
        ensures
            keep <= self.matched + 1,
            end_fits(self.sequence@, self.matched as int, byte, keep as int),
            forall|length: int|
                keep < length <= self.matched + 1 ==> !#[trigger] end_fits(
                    self.sequence@,
                    self.matched as int,
                    byte,
                    length,
                ),
    {
        let total = self.sequence.len();
        let mut keep: usize = self.matched + 1;
        while keep > 0
            invariant
                self.matched < self.sequence@.len(),
                keep <= self.matched + 1,
                forall|length: int|
                    keep < length <= self.matched + 1 ==> !#[trigger] end_fits(
                        self.sequence@,
                        self.matched as int,
                        byte,
                        length,
                    ),
            decreases keep,
        {
            if self.fits(byte, keep) {
                return keep;
            }
            keep = keep - 1;
        }
        assert(candidate(self.sequence@, self.matched as int, byte).skip(self.matched + 1)
            =~= self.sequence@.take(0));
        keep
    }

    /// The first `count` bytes of the held-back bytes followed by `byte`.
    fn front(&self, byte: u8, count: usize) -> (out: Vec<u8>)
        requires
            self.matched < self.sequence@.len(),
            count <= self.matched + 1,
        ensures
            out@ == candidate(self.sequence@, self.matched as int, byte).take(count as int),
    {
        let ghost whole = candidate(self.sequence@, self.matched as int, byte);
        let mut out: Vec<u8> = Vec::new();
        let mut index: usize = 0;
        while index < count
            invariant
                self.matched < self.sequence@.len(),
                count <= self.matched + 1,
                index <= count,
                whole == candidate(self.sequence@, self.matched as int, byte),
                out@ == whole.take(index as int),
            decreases count - index,
        {
            let next = if index < self.matched {
                self.sequence[index]
            } else {
                byte
            };
            assert(next == whole[index as int]);
            out.push(next);
            assert(whole.take(index as int).push(next) == whole.take(index as int + 1));
            index = index + 1;
        }
        out
    }

    /// Takes the next byte of the stream and returns the bytes that it
    /// releases, in stream order. After the sentinel has been found the
    /// stream is over: further bytes are dropped and nothing changes.
    pub fn push(&mut self, byte: u8) -> (out: Vec<u8>)
        requires
            old(self).wf(),
        ensures
            final(self).wf(),
            final(self).sequence() == old(self).sequence(),
            final(self).consumed() == if old(self).is_found() {
                old(self).consumed()
            } else {
                old(self).consumed().push(byte)
            },
            final(self).released() == old(self).released() + out@,
            old(self).is_found() ==> final(self).is_found(),
    {
        let total = self.sequence.len();
        if self.matched == total {
            let out: Vec<u8> = Vec::new();
            assert(self.released() + out@ == self.released());
            return out;
        }
        let keep = self.longest_fit(byte);
        let out = self.front(byte, self.matched + 1 - keep);
        proof {
            lemma_push(self.consumed@, self.sequence@, self.matched as int, byte, keep as int);
        }
        self.consumed = Ghost(self.consumed@.push(byte));
        self.matched = keep;
        out
    }

    /// Ends the stream and returns the bytes that were still held back: the
    /// part of the sentinel that had matched, unless all of it had.
    pub fn finish(self) -> (rest: Vec<u8>)
        requires
            self.wf(),
        ensures
            self.released() + rest@ == until_sequence(self.consumed(), self.sequence()),
            self.is_found() ==> rest@.len() == 0,
            !self.is_found() ==> rest@ == self.sequence().take(self.matched() as int),
    {
        proof {
            self.lemma_released();
        }
        let mut rest: Vec<u8> = Vec::new();
        if self.matched == self.sequence.len() {
            assert(self.released() + rest@ == self.released());
            return rest;
        }
        let mut index: usize = 0;
        while index < self.matched
            invariant
                self.matched < self.sequence@.len(),
                index <= self.matched,
                rest@ == self.sequence@.take(index as int),
            decreases self.matched - index,
        {
            rest.push(self.sequence[index]);
            assert(self.sequence@.take(index as int).push(self.sequence@[index as int])
                == self.sequence@.take(index as int + 1));
            index = index + 1;
        }
        rest
    }
}

/// The bytes of `input` that come before the first occurrence of
/// `sequence`, or all of `input` where `sequence` does not occur.
pub fn cut_at_sequence(input: &[u8], sequence: &[u8]) -> (out: Vec<u8>)
    requires
        sequence@.len() > 0,
    ensures
        out@ == until_sequence(input@, sequence@),
{
    let mut matcher = UntilSequence::new(vstd::slice::slice_to_vec(sequence));
    let mut out: Vec<u8> = Vec::new();
    let mut index: usize = 0;
    while index < input.len() && !matcher.found()
        invariant
            matcher.wf(),
            matcher.sequence() == sequence@,
            index <= input.len(),
            matcher.consumed() == input@.take(index as int),
            out@ == matcher.released(),
        decreases input.len() - index,
    {
        let mut released = matcher.push(input[index]);
        assert(input@.take(index as int).push(input@[index as int]) == input@.take(
            index as int + 1,
        ));
        out.append(&mut released);
        index = index + 1;
    }
    proof {
        matcher.lemma_released();
        if matcher.is_found() {
            lemma_first_occurrence_bounds(matcher.consumed(), sequence@, 0);
            lemma_cut_is_stable(input@, sequence@, index as int);
        } else {
            assert(input@.take(index as int) == input@);
        }
    }
    let mut rest = matcher.finish();
    out.append(&mut rest);
    out
}

/// Once the sentinel lies inside the first `length` bytes of the input, the
/// bytes that follow do not change the cut.
pub proof fn lemma_cut_is_stable(input: Seq<u8>, sequence: Seq<u8>, length: int)
    requires
        sequence.len() > 0,
        0 <= length <= input.len(),
        first_occurrence(input.take(length), sequence, 0) < length,
    ensures
        until_sequence(input, sequence) == until_sequence(input.take(length), sequence),
{
    let head = input.take(length);
    let at = first_occurrence(head, sequence, 0);
    lemma_first_occurrence_bounds(head, sequence, 0);
    assert(occurs_at(input, sequence, at)) by {
        assert(input.subrange(at, at + sequence.len()) =~= head.subrange(
            at,
            at + sequence.len(),
        ));
    }
    assert forall|i: int| 0 <= i < at implies !occurs_at(input, sequence, i) by {
        if occurs_at(input, sequence, i) {
            assert(head.subrange(i, i + sequence.len()) =~= input.subrange(
                i,
                i + sequence.len(),
            ));
            assert(occurs_at(head, sequence, i));
        }
    }
    lemma_first_occurrence_is(input, sequence, 0, at);
    assert(input.take(at) =~= head.take(at));
}

} // verus!
