//! The current loop between two teleprinters, as a state machine.
//!
//! A character travels on the loop as a start bit (the loop open), five data bits
//! with the least significant first (closed for 1, open for 0) and a stop bit of
//! 1.42 bit times (the loop closed). [BaudotStream] decides, one poll at a time,
//! what the loop reads as and what it should be switched to; the caller samples
//! the input pin, drives the output pin and waits the returned delays.

use vstd::prelude::*;
use crate::translate::{lemma_translated_len, translate, translated};
use crate::baudot::{
    lemma_codes_are_five_bit, lemma_no_encoded_shift_codes, BaudotChar, BaudotShift, FIGS_CODE,
    LTRS_CODE,
};

verus! {

/// Length of the buffer holding characters meant for writing to the current loop.
pub const WRITE_BUF_LENGTH: usize = 1024;

/// The length of one bit on the current loop, in microseconds: 20 ms, the speed
/// of a 60-speed teletype.
pub const BAUD_RATE: u32 = 20000;

/// The length of the stop bit in microseconds: 1.42 bit times.
pub open spec fn stop_delay() -> u32 {
    (BAUD_RATE * 142 / 100) as u32
}

/// The stop bit lasts 1.42 bit times of 20 ms.
pub proof fn lemma_stop_delay()
    ensures
        BAUD_RATE == 20000,
        100 * stop_delay() == 142 * BAUD_RATE,
{
}

/// The code that switches a teleprinter into `shift`.
pub open spec fn switch_code(shift: BaudotShift) -> u8 {
    if shift == BaudotShift::Figs {
        FIGS_CODE
    } else {
        LTRS_CODE
    }
}

/// Whether a character printed in `to` needs a shift code in front of it when the
/// text written so far ends in `from`.
pub open spec fn needs_switch(from: BaudotShift, to: BaudotShift) -> bool {
    (from == BaudotShift::Ltrs && to == BaudotShift::Figs) || (from == BaudotShift::Figs && to
        == BaudotShift::Ltrs)
}

/// What a teleprinter in `shift` does on receiving `code`: the shift it is in
/// afterwards, and the character it hands on, or `None` when the code changed the
/// shift.
pub open spec fn receive(shift: BaudotShift, code: u8) -> (BaudotShift, Option<u8>) {
    let d = BaudotChar(shift, code).decoded();
    if d.1 != BaudotShift::Keep && shift != d.1 {
        (d.1, None)
    } else {
        (shift, Some(d.0))
    }
}

/// The characters that a teleprinter starting in `shift` hands on when it receives
/// `codes` one after another, and the shift it ends in.
pub open spec fn decode_codes(shift: BaudotShift, codes: Seq<u8>) -> (BaudotShift, Seq<u8>)
    decreases codes.len(),
{
    if codes.len() == 0 {
        (shift, seq![])
    } else {
        let (s1, out) = receive(shift, codes[0]);
        let (s2, rest) = decode_codes(s1, codes.drop_first());
        (
            s2,
            match out {
                Some(c) => seq![c] + rest,
                None => rest,
            },
        )
    }
}

/// Bit `i` of `code`, as the level that sends it on the loop.
pub open spec fn code_bit(code: u8, i: u8) -> bool {
    (code >> i) & 1 == 1
}

/// The value of a level as a bit.
pub open spec fn level_bit(level: bool) -> u8 {
    if level {
        1
    } else {
        0
    }
}

/// The shift set by the last FIGS or LTRS code in `codes`, or `shift` when there
/// is none.
pub open spec fn last_switch(shift: BaudotShift, codes: Seq<u8>) -> BaudotShift
    decreases codes.len(),
{
    if codes.len() == 0 {
        shift
    } else if codes.last() == FIGS_CODE {
        BaudotShift::Figs
    } else if codes.last() == LTRS_CODE {
        BaudotShift::Ltrs
    } else {
        last_switch(shift, codes.drop_last())
    }
}

/// The abstract state of a [BaudotStream].
#[verifier::ext_equal]
pub struct StreamView {
    /// The shift the receiving side believes the remote teleprinter is in.
    pub current_shift: BaudotShift,
    /// Whether a character is being received.
    pub reading: bool,
    /// The data bits received so far, the first in the lowest bit.
    pub read_buf: u8,
    /// How many data bits have been received.
    pub read_buf_len: u8,
    /// Whether a character is being sent.
    pub writing: bool,
    /// The codes waiting to be sent, the one being sent first.
    pub pending: Seq<u8>,
    /// How many data bits of the first pending code have been sent.
    pub write_buf_char_pos: u8,
    /// The shift in which the pending codes leave the receiving teleprinter.
    pub write_buf_end_shift: BaudotShift,
    /// Whether the start bit of the first pending code has been sent.
    pub start_bit_written: bool,
    /// Every code queued since the stream was made, the sent ones included.
    pub queued: Seq<u8>,
}

impl StreamView {
    /// The state of a freshly made stream: idle, letters shift, nothing queued.
    pub open spec fn initial() -> StreamView {
        StreamView {
            current_shift: BaudotShift::Ltrs,
            reading: false,
            read_buf: 0,
            read_buf_len: 0,
            writing: false,
            pending: seq![],
            write_buf_char_pos: 0,
            write_buf_end_shift: BaudotShift::Ltrs,
            start_bit_written: false,
            queued: seq![],
        }
    }

    /// The invariant that every reachable state keeps.
    pub open spec fn wf(self) -> bool {
        &&& self.current_shift != BaudotShift::Keep
        &&& self.read_buf_len <= 5
        &&& self.read_buf < (1u8 << self.read_buf_len)
        &&& self.read_buf < 32
        &&& !self.reading ==> self.read_buf_len == 0 && self.read_buf == 0
        &&& self.pending.len() <= WRITE_BUF_LENGTH
        &&& forall|i: int| 0 <= i < self.pending.len() ==> #[trigger] self.pending[i] < 32
        &&& self.write_buf_char_pos <= 5
        &&& !self.writing ==> self.write_buf_char_pos == 0
        &&& self.writing ==> self.pending.len() > 0
        &&& self.start_bit_written == self.writing
        &&& self.write_buf_end_shift != BaudotShift::Keep
        &&& self.pending.len() <= self.queued.len()
        &&& self.pending == self.queued.skip(self.queued.len() - self.pending.len())
        &&& self.write_buf_end_shift == last_switch(BaudotShift::Ltrs, self.queued)
    }

    /// One poll of the receiving side, with the loop reading `level` (true for
    /// closed, the marking state): the next state, and the loop level, the
    /// received character if one was completed, and the delay before the next poll
    /// (`None` for as soon as possible).
    pub open spec fn read_step(self, level: bool) -> (StreamView, (bool, Option<u8>, Option<u32>)) {
        if !self.reading {
            if !level {
                (StreamView { reading: true, ..self }, (level, None, Some(BAUD_RATE)))
            } else {
                (self, (level, None, None))
            }
        } else if self.read_buf_len == 5 {
            let (shift, out) = receive(self.current_shift, self.read_buf);
            (
                StreamView {
                    current_shift: shift,
                    reading: false,
                    read_buf: 0,
                    read_buf_len: 0,
                    ..self
                },
                (level, out, Some(BAUD_RATE)),
            )
        } else {
            (
                StreamView {
                    read_buf: self.read_buf | (level_bit(level) << self.read_buf_len),
                    read_buf_len: (self.read_buf_len + 1) as u8,
                    ..self
                },
                (level, None, Some(BAUD_RATE)),
            )
        }
    }

    /// One poll of the sending side: the next state, and the level to switch the
    /// loop to and the delay before the next poll (`None` when nothing is left to
    /// send).
    pub open spec fn write_step(self) -> (StreamView, (bool, Option<u32>)) {
        if self.pending.len() == 0 {
            (self, (true, None))
        } else if !self.writing {
            (
                StreamView { writing: true, start_bit_written: true, ..self },
                (false, Some(BAUD_RATE)),
            )
        } else if self.write_buf_char_pos == 5 {
            (
                StreamView {
                    writing: false,
                    pending: self.pending.drop_first(),
                    write_buf_char_pos: 0,
                    start_bit_written: false,
                    ..self
                },
                (true, Some(stop_delay())),
            )
        } else {
            (
                StreamView { write_buf_char_pos: (self.write_buf_char_pos + 1) as u8, ..self },
                (code_bit(self.pending[0], self.write_buf_char_pos), Some(BAUD_RATE)),
            )
        }
    }

    /// Queueing the ASCII character `ch`: its code is appended, behind the code that
    /// switches the shift when the character needs the other shift; when the
    /// buffer has no room for all of it, nothing is appended.
    pub open spec fn queue_step(self, ch: u8) -> StreamView {
        let c = BaudotChar::encoded(ch);
        if self.pending.len() >= WRITE_BUF_LENGTH {
            self
        } else if needs_switch(self.write_buf_end_shift, c.0) {
            if self.pending.len() + 1 == WRITE_BUF_LENGTH {
                self
            } else {
                StreamView {
                    pending: self.pending.push(switch_code(c.0)).push(c.1),
                    queued: self.queued.push(switch_code(c.0)).push(c.1),
                    write_buf_end_shift: c.0,
                    ..self
                }
            }
        } else {
            StreamView { pending: self.pending.push(c.1), queued: self.queued.push(c.1), ..self }
        }
    }
}

/// A fresh stream is in a state that keeps the invariant.
pub proof fn lemma_initial_wf()
    ensures
        StreamView::initial().wf(),
{
    assert(0u8 < (1u8 << 0u8)) by (bit_vector);
    let v = StreamView::initial();
    assert(v.pending =~= v.queued.skip(0));
}

/// Every step keeps the invariant.
pub proof fn lemma_steps_keep_wf(v: StreamView, level: bool, ch: u8)
    requires
        v.wf(),
    ensures
        v.read_step(level).0.wf(),
        v.write_step().0.wf(),
        v.queue_step(ch).wf(),
{
    let buf = v.read_buf;
    let len = v.read_buf_len;
    let bit = level_bit(level);
    assert(0u8 < (1u8 << 0u8)) by (bit_vector);
    if v.reading && len < 5 {
        assert(buf | (bit << len) < (1u8 << ((len + 1) as u8)) && buf | (bit << len) < 32)
            by (bit_vector)
            requires
                len < 5,
                bit <= 1,
                buf < (1u8 << len),
        ;
    }
    // sending: the queue loses its first code, which stays in the history

    let ws = v.write_step().0;
    if v.pending.len() > 0 && v.writing && v.write_buf_char_pos == 5 {
        assert(ws.pending =~= ws.queued.skip(ws.queued.len() - ws.pending.len()));
    }
    // queueing: the same codes go to the queue and to the history

    lemma_codes_are_five_bit();
    lemma_no_encoded_shift_codes();
    let c = BaudotChar::encoded(ch);
    let w = v.queue_step(ch);
    assert forall|i: int| 0 <= i < w.pending.len() implies #[trigger] w.pending[i] < 32 by {
        if i >= v.pending.len() {
            assert(c.1 < 32);
        }
    }
    let q = v.queued;
    if v.pending.len() < WRITE_BUF_LENGTH {
        if needs_switch(v.write_buf_end_shift, c.0) {
            if v.pending.len() + 1 != WRITE_BUF_LENGTH {
                let sw = switch_code(c.0);
                assert(w.pending =~= w.queued.skip(w.queued.len() - w.pending.len()));
                assert(q.push(sw).push(c.1).drop_last() =~= q.push(sw));
                assert(q.push(sw).drop_last() =~= q);
                assert(last_switch(BaudotShift::Ltrs, q.push(sw)) == c.0);
            }
        } else {
            assert(w.pending =~= w.queued.skip(w.queued.len() - w.pending.len()));
            assert(q.push(c.1).drop_last() =~= q);
        }
    }
}

/// Queueing the characters of `text` one after another.
pub open spec fn queue_text(v: StreamView, text: Seq<u8>) -> StreamView
    decreases text.len(),
{
    if text.len() == 0 {
        v
    } else {
        queue_text(v.queue_step(text[0]), text.drop_first())
    }
}

/// Queueing a text and then one more character is queueing the longer text.
pub proof fn lemma_queue_text_push(v: StreamView, text: Seq<u8>, ch: u8)
    ensures
        queue_text(v, text.push(ch)) == queue_text(v, text).queue_step(ch),
    decreases text.len(),
{
    reveal_with_fuel(queue_text, 2);
    if text.len() == 0 {
        assert(text.push(ch).drop_first() =~= Seq::<u8>::empty());
    } else {
        assert(text.push(ch)[0] == text[0]);
        assert(text.push(ch).drop_first() =~= text.drop_first().push(ch));
        lemma_queue_text_push(v.queue_step(text[0]), text.drop_first(), ch);
    }
}

/// Whether the end-of-transmission byte (4) is among `bytes`.
pub open spec fn has_end_of_transmission(bytes: Seq<u8>) -> bool {
    exists|i: int| 0 <= i < bytes.len() && bytes[i] == 4
}

/// What of a received character goes on to the computer: everything but NUL,
/// which the teleprinter sends for codes that print nothing.
pub fn forwarded_char(read: Option<u8>) -> (r: Option<u8>)
    ensures
        r == (match read {
            Some(c) => if c != 0 {
                Some(c)
            } else {
                None
            },
            None => None,
        }),
{
    match read {
        Some(c) => if c != 0 {
            Some(c)
        } else {
            None
        },
        None => None,
    }
}

/// An abstraction over the current loop used for communicating between teletypes.
///
/// To write characters first queue them with [BaudotStream::queue_write] and then
/// poll the writes with [BaudotStream::poll_write] with delays in between.
///
/// Reading is done using the [BaudotStream::poll_read] method.
pub struct BaudotStream {
    current_shift: BaudotShift,
    reading: bool,
    read_buf: u8,
    read_buf_len: u8,
    writing: bool,
    write_buf: [u8; WRITE_BUF_LENGTH],
    write_buf_char_pos: u8,
    write_buf_len: usize,
    write_buf_end_shift: BaudotShift,
    start_bit_written: bool,
    queued: Ghost<Seq<u8>>,
}

impl View for BaudotStream {
    type V = StreamView;

    closed spec fn view(&self) -> StreamView {
        StreamView {
            current_shift: self.current_shift,
            reading: self.reading,
            read_buf: self.read_buf,
            read_buf_len: self.read_buf_len,
            writing: self.writing,
            pending: self.write_buf@.take(self.write_buf_len as int),
            write_buf_char_pos: self.write_buf_char_pos,
            write_buf_end_shift: self.write_buf_end_shift,
            start_bit_written: self.start_bit_written,
            queued: self.queued@,
        }
    }
}

impl BaudotStream {
    /// The stream is in a reachable state.
    pub closed spec fn wf(&self) -> bool {
        &&& self.write_buf_len <= WRITE_BUF_LENGTH
        &&& self@.wf()
    }

    /// A stream in a reachable state keeps the invariant of its view: at most
    /// 1024 five-bit codes pending, the pending codes the unsent end of all codes
    /// ever queued, the queue's end shift Ltrs or Figs and equal to the shift set
    /// by the last FIGS or LTRS code ever queued (Ltrs if none), the receive shift
    /// Ltrs or Figs, at most five data bits held, forming a code below 32, and a
    /// bit position of at most five.
    pub proof fn lemma_reachable_state(&self)
        requires
            self.wf(),
        ensures
            self@.wf(),
    {
    }

    /// Creates the logic of switching the current loop, idle and in the letters
    /// shift.
    pub fn new() -> (s: Self)
        ensures
            s.wf(),
            s@ == StreamView::initial(),
    {
        let s = Self {
            current_shift: BaudotShift::Ltrs,
            reading: false,
            read_buf: 0,
            read_buf_len: 0,
            writing: false,
            write_buf: [0u8; WRITE_BUF_LENGTH],
            write_buf_char_pos: 0,
            write_buf_len: 0,
            write_buf_end_shift: BaudotShift::Ltrs,
            start_bit_written: false,
            queued: Ghost(Seq::empty()),
        };
        assert(0u8 < (1u8 << 0u8)) by (bit_vector);
        assert(s@ =~= StreamView::initial());
        assert(s@.pending =~= s@.queued.skip(0));
        s
    }

    /// One poll of the reading side, with `loop_state` the level that the current
    /// loop reads as (true for marking).
    ///
    /// Returns the state of the current loop, an ascii character if one was
    /// done reading and a delay when should the next poll happen (if `None` is return
    /// an another poll may happen as soon as possible).
    pub fn poll_read(&mut self, loop_state: bool) -> (r: (bool, Option<u8>, Option<u32>))
        requires
            old(self).wf(),
        ensures
            final(self).wf(),
            (final(self)@, r) == old(self)@.read_step(loop_state),
    {
        proof {
            lemma_steps_keep_wf(self@, loop_state, 0);
        }
        let state = loop_state;
        if !self.reading {
            // read start bit
            if !state {
                self.reading = true;
                return (state, None, Some(BAUD_RATE));
            } else {
                return (state, None, None);
            }
        }
        if self.read_buf_len == 5 {
            let code = self.read_buf;
            assert(code < 32) by (bit_vector)
                requires
                    code < (1u8 << 5u8),
            ;
            let char = BaudotChar(self.current_shift, self.read_buf).to_ascii();
            let mut ascii = Some(char.0);
            // don't hand on anything when changing shift state
            if char.1 != BaudotShift::Keep && self.current_shift != char.1 {
                self.current_shift = char.1;
                ascii = None;
            }
            self.reading = false;
            self.read_buf = 0;
            self.read_buf_len = 0;
            assert(0u8 < (1u8 << 0u8)) by (bit_vector);
            // wait for last stop bit
            return (state, ascii, Some(BAUD_RATE));
        }
        let bit: u8 = if state {
            1
        } else {
            0
        };
        let buf = self.read_buf;
        let len = self.read_buf_len;
        assert(buf | (bit << len) < (1u8 << ((len + 1) as u8))) by (bit_vector)
            requires
                len < 5,
                bit <= 1,
                buf < (1u8 << len),
        ;
        self.read_buf = buf | (bit << len);
        self.read_buf_len = len + 1;
        (state, None, Some(BAUD_RATE))
    }

    /// One poll of the writing side.
    ///
    /// Returns the level to switch the current loop to (true for closed) and, when
    /// a character is being written, the delay after which the function must be
    /// called again.
    pub fn poll_write(&mut self) -> (r: (bool, Option<u32>))
        requires
            old(self).wf(),
        ensures
            final(self).wf(),
            (final(self)@, r) == old(self)@.write_step(),
    {
        proof {
            lemma_steps_keep_wf(self@, true, 0);
        }
        if self.write_buf_len == 0 {
            return (true, None);
        }
        if !self.writing {
            // write start bit
            self.writing = true;
            self.start_bit_written = true;
            return (false, Some(BAUD_RATE));
        }
        if self.write_buf_char_pos == 5 {
            self.writing = false;
            self.drop_first_code();
            self.write_buf_char_pos = 0;
            self.start_bit_written = false;
            // write stop bit(s)
            return (true, Some(BAUD_RATE * 142 / 100));
        }
        let c = self.write_buf[0];
        let pos = self.write_buf_char_pos;
        let state = c >> pos & 1 == 1;
        self.write_buf_char_pos = pos + 1;
        (state, Some(BAUD_RATE))
    }

    /// Removes the first pending code, moving the others to the front.
    fn drop_first_code(&mut self)
        requires
            old(self).write_buf_len <= WRITE_BUF_LENGTH,
            old(self).write_buf_len > 0,
        ensures
            final(self)@ == (StreamView { pending: old(self)@.pending.drop_first(), ..old(self)@ }),
            final(self).write_buf_len == old(self).write_buf_len - 1,
    {
        let len = self.write_buf_len;
        let ghost old_view = self@;
        let mut buf = self.write_buf;
        let ghost old_buf = buf@;
        let mut i: usize = 1;
        while i < len
            invariant
                1 <= i <= len,
                len <= WRITE_BUF_LENGTH,
                buf@.len() == WRITE_BUF_LENGTH,
                old_buf.len() == WRITE_BUF_LENGTH,
                forall|j: int| 0 <= j < i - 1 ==> buf@[j] == old_buf[j + 1],
                forall|j: int| i - 1 <= j < WRITE_BUF_LENGTH ==> buf@[j] == old_buf[j],
            decreases len - i,
        {
            let next = buf[i];
            buf[i - 1] = next;
            i = i + 1;
        }
        self.write_buf = buf;
        self.write_buf_len = len - 1;
        assert(self.write_buf@.take(self.write_buf_len as int) =~= old_buf.take(
            len as int,
        ).drop_first());
        assert(self@ =~= (StreamView { pending: old_view.pending.drop_first(), ..old_view }));
    }

    /// Queue some data to be written to the current loop.
    pub fn queue_write(&mut self, ch: u8)
        requires
            old(self).wf(),
        ensures
            final(self).wf(),
            final(self)@ == old(self)@.queue_step(ch),
    {
        proof {
            lemma_steps_keep_wf(self@, true, ch);
        }
        if self.write_buf_len == WRITE_BUF_LENGTH {
            return;
        }
        let char = BaudotChar::from_ascii(ch);
        let len = self.write_buf_len;
        let ghost old_buf = self.write_buf@;
        match (self.write_buf_end_shift, char.0) {
            (BaudotShift::Ltrs, BaudotShift::Figs) => {
                if len + 1 == WRITE_BUF_LENGTH {
                    return;
                }
                self.write_buf[len] = 27;
                self.write_buf[len + 1] = char.1;
                self.write_buf_len = len + 2;
                self.write_buf_end_shift = char.0;
                self.queued = Ghost(self.queued@.push(27).push(char.1));
                assert(self.write_buf@.take((len + 2) as int) =~= old_buf.take(len as int).push(
                    27,
                ).push(char.1));
            },
            (BaudotShift::Figs, BaudotShift::Ltrs) => {
                if len + 1 == WRITE_BUF_LENGTH {
                    return;
                }
                self.write_buf[len] = 31;
                self.write_buf[len + 1] = char.1;
                self.write_buf_len = len + 2;
                self.write_buf_end_shift = char.0;
                self.queued = Ghost(self.queued@.push(31).push(char.1));
                assert(self.write_buf@.take((len + 2) as int) =~= old_buf.take(len as int).push(
                    31,
                ).push(char.1));
            },
            (_, _) => {
                self.write_buf[len] = char.1;
                self.write_buf_len = len + 1;
                self.queued = Ghost(self.queued@.push(char.1));
                assert(self.write_buf@.take((len + 1) as int) =~= old_buf.take(len as int).push(
                    char.1,
                ));
            },
        }
    }

    /// Handles a chunk of bytes read from the computer (its first `nread` bytes
    /// of `buf`). When the chunk holds the end-of-transmission byte (4), nothing
    /// is queued and true is returned, to end the connection. Otherwise its line
    /// ends are translated and every translated byte is queued in order.
    pub fn queue_input(&mut self, buf: [u8; 32], nread: usize) -> (disconnect: bool)
        requires
            old(self).wf(),
            nread <= 32,
        ensures
            final(self).wf(),
            disconnect == has_end_of_transmission(buf@.take(nread as int)),
            disconnect ==> final(self)@ == old(self)@,
            !disconnect ==> final(self)@ == queue_text(
                old(self)@,
                translated(buf@.take(nread as int)),
            ),
    {
        let ghost input = buf@.take(nread as int);
        let ghost start = self@;
        let mut k: usize = 0;
        while k < nread
            invariant
                k <= nread <= 32,
                self.wf(),
                self@ == start,
                input == buf@.take(nread as int),
                forall|j: int| 0 <= j < k ==> input[j] != 4,
            decreases nread - k,
        {
            if buf[k] == 4 {
                assert(input[k as int] == 4);
                return true;
            }
            k = k + 1;
        }
        let (out, len) = translate(buf, nread);
        proof {
            lemma_translated_len(input);
            assert(out@.take(0) =~= Seq::<u8>::empty());
        }
        let mut i: usize = 0;
        while i < len
            invariant
                i <= len <= 64,
                out@.take(len as int) == translated(input),
                self.wf(),
                self@ == queue_text(start, out@.take(i as int)),
            decreases len - i,
        {
            let c = out[i];
            proof {
                lemma_queue_text_push(start, out@.take(i as int), c);
                assert(out@.take(i + 1) =~= out@.take(i as int).push(c));
            }
            self.queue_write(c);
            i = i + 1;
        }
        false
    }
}

} // verus!
