//! What the current loop carries: characters queued on one stream, framed into
//! levels by its sending side and read back by the receiving side of another.
//!
//! The laws here run the steps of [StreamView] over whole frames and queues,
//! with the receiving side sampling the loop once per sending poll.

use vstd::prelude::*;
use crate::baudot::{
    FIGS_CODE, LTRS_CODE, ascii_upper, is_ascii_digit, is_ascii_letter, is_ita2_punctuation, lemma_codes_are_five_bit,
    lemma_decode_shift, lemma_no_encoded_shift_codes, lemma_round_trip, BaudotChar, BaudotShift,
};
use crate::stream::{
    code_bit, decode_codes, lemma_initial_wf, lemma_steps_keep_wf, level_bit, needs_switch, receive, stop_delay,
    switch_code, queue_text, StreamView, BAUD_RATE, WRITE_BUF_LENGTH,
};

verus! {

/// The levels that send `code` on the loop: the start bit (open), the five data
/// bits with the least significant first, and the stop bit (closed).
pub open spec fn frame_levels(code: u8) -> Seq<bool> {
    seq![
        false,
        code_bit(code, 0),
        code_bit(code, 1),
        code_bit(code, 2),
        code_bit(code, 3),
        code_bit(code, 4),
        true,
    ]
}

/// The code that the five data levels of a frame (the levels after the start
/// bit) carry, the first level in the lowest bit.
pub open spec fn frame_code(levels: Seq<bool>) -> u8 {
    0u8 | (level_bit(levels[1]) << 0u8) | (level_bit(levels[2]) << 1u8) | (level_bit(levels[3])
        << 2u8) | (level_bit(levels[4]) << 3u8) | (level_bit(levels[5]) << 4u8)
}

/// `n` polls of the sending side: the state after them and what each returned.
pub open spec fn run_writer(v: StreamView, n: nat) -> (StreamView, Seq<(bool, Option<u32>)>)
    decreases n,
{
    if n == 0 {
        (v, seq![])
    } else {
        let (v1, action) = v.write_step();
        let (v2, rest) = run_writer(v1, (n - 1) as nat);
        (v2, seq![action] + rest)
    }
}

/// Polls of the receiving side with the loop at `levels`, one level per poll: the
/// state after them and what each returned.
pub open spec fn run_reader(v: StreamView, levels: Seq<bool>) -> (
    StreamView,
    Seq<(bool, Option<u8>, Option<u32>)>,
)
    decreases levels.len(),
{
    if levels.len() == 0 {
        (v, seq![])
    } else {
        let (v1, out) = v.read_step(levels[0]);
        let (v2, rest) = run_reader(v1, levels.drop_first());
        (v2, seq![out] + rest)
    }
}

/// The levels a sequence of sending polls switches the loop to.
pub open spec fn action_levels(actions: Seq<(bool, Option<u32>)>) -> Seq<bool> {
    actions.map_values(|a: (bool, Option<u32>)| a.0)
}

/// Sending a character: from an idle sending side with a code pending, seven
/// polls switch the loop to the start bit, the five data bits of the first
/// pending code (least significant first) and the stop bit, waiting a bit time
/// after each but the stop bit, which lasts 1.42 bit times; the code then leaves
/// the queue and the sending side is idle again.
pub proof fn lemma_write_frame(v: StreamView)
    requires
        v.wf(),
        !v.writing,
        v.pending.len() > 0,
    ensures
        ({
            let (w, actions) = run_writer(v, 7);
            &&& w == StreamView { pending: v.pending.drop_first(), ..v }
            &&& w.wf()
            &&& actions.len() == 7
            &&& action_levels(actions) == frame_levels(v.pending[0])
            &&& forall|k: int| 0 <= k < 6 ==> #[trigger] actions[k].1 == Some(BAUD_RATE)
            &&& actions[6].1 == Some(stop_delay())
        }),
{
    reveal_with_fuel(run_writer, 8);
    let (w, actions) = run_writer(v, 7);
    assert(w =~= StreamView { pending: v.pending.drop_first(), ..v });
    assert(w.pending =~= w.queued.skip(w.queued.len() - w.pending.len()));
    assert(action_levels(actions) =~= frame_levels(v.pending[0]));
}

/// Receiving a character: from an idle receiving side, a loop that opens for
/// the start bit and then reads as `levels` gives, over seven polls, nothing
/// until the seventh, which hands on what the teleprinter does with the code that
/// the five data levels carry; the receiving side is then idle again, in the
/// shift that code leaves it in.
pub proof fn lemma_read_frame(v: StreamView, levels: Seq<bool>)
    requires
        v.wf(),
        !v.reading,
        levels.len() == 7,
        !levels[0],
    ensures
        ({
            let code = frame_code(levels);
            let (r, outs) = run_reader(v, levels);
            &&& r == StreamView { current_shift: receive(v.current_shift, code).0, ..v }
            &&& outs.len() == 7
            &&& forall|k: int|
                0 <= k < 7 ==> #[trigger] outs[k].0 == levels[k] && outs[k].2 == Some(BAUD_RATE)
            &&& forall|k: int| 0 <= k < 6 ==> #[trigger] outs[k].1 is None
            &&& outs[6].1 == receive(v.current_shift, code).1
        }),
{
    reveal_with_fuel(run_reader, 8);
    let (r, outs) = run_reader(v, levels);
    assert(r =~= StreamView { current_shift: receive(v.current_shift, frame_code(levels)).0, ..v });
}

/// The data levels of a frame carry the code the frame was made for.
pub proof fn lemma_frame_code(code: u8)
    requires
        code < 32,
    ensures
        frame_code(frame_levels(code)) == code,
{
    let b0 = code_bit(code, 0);
    let b1 = code_bit(code, 1);
    let b2 = code_bit(code, 2);
    let b3 = code_bit(code, 3);
    let b4 = code_bit(code, 4);
    assert(0u8 | (level_bit(b0) << 0u8) | (level_bit(b1) << 1u8) | (level_bit(b2) << 2u8) | (
    level_bit(b3) << 3u8) | (level_bit(b4) << 4u8) == code) by (bit_vector)
        requires
            code < 32,
            b0 == ((code >> 0u8) & 1 == 1),
            b1 == ((code >> 1u8) & 1 == 1),
            b2 == ((code >> 2u8) & 1 == 1),
            b3 == ((code >> 3u8) & 1 == 1),
            b4 == ((code >> 4u8) & 1 == 1),
    ;
}

/// What is written is read: the levels that an idle sending side puts on the loop
/// for its first pending code, read by an idle receiving side, make it receive
/// exactly that code.
pub proof fn lemma_loopback(sender: StreamView, receiver: StreamView)
    requires
        sender.wf(),
        !sender.writing,
        sender.pending.len() > 0,
        receiver.wf(),
        !receiver.reading,
    ensures
        ({
            let code = sender.pending[0];
            let levels = action_levels(run_writer(sender, 7).1);
            let (r, outs) = run_reader(receiver, levels);
            &&& r == StreamView {
                current_shift: receive(receiver.current_shift, code).0,
                ..receiver
            }
            &&& outs[6].1 == receive(receiver.current_shift, code).1
            &&& forall|k: int| 0 <= k < 6 ==> #[trigger] outs[k].1 is None
        }),
{
    let code = sender.pending[0];
    assert(code < 32);
    lemma_write_frame(sender);
    let levels = frame_levels(code);
    lemma_read_frame(receiver, levels);
    lemma_frame_code(code);
}

/// The codes that queueing `ch` appends, received by a teleprinter in the shift
/// the queue ended in, make it hand on exactly one character, the character's
/// code as printed in its shift (in the current shift, for characters sent
/// without a shift), and leave it in the shift the queue now ends in.
pub proof fn lemma_queue_then_receive(v: StreamView, ch: u8)
    requires
        v.wf(),
        v.pending.len() + 2 <= WRITE_BUF_LENGTH,
    ensures
        ({
            let w = v.queue_step(ch);
            let c = BaudotChar::encoded(ch);
            let shown = if c.0 == BaudotShift::Keep {
                v.write_buf_end_shift
            } else {
                c.0
            };
            decode_codes(v.write_buf_end_shift, w.pending.skip(v.pending.len() as int)) == (
                w.write_buf_end_shift,
                seq![BaudotChar(shown, c.1).decoded().0],
            )
        }),
{
    lemma_codes_are_five_bit();
    lemma_no_encoded_shift_codes();
    let w = v.queue_step(ch);
    let c = BaudotChar::encoded(ch);
    let end = v.write_buf_end_shift;
    let appended = w.pending.skip(v.pending.len() as int);
    if needs_switch(end, c.0) {
        let sw = switch_code(c.0);
        assert(appended =~= seq![sw, c.1]);
        assert(appended.drop_first() =~= seq![c.1]);
        assert(appended.drop_first().drop_first() =~= Seq::<u8>::empty());
        lemma_decode_shift(end, sw);
        lemma_decode_shift(c.0, c.1);
        assert(receive(end, sw) == (c.0, None::<u8>));
        assert(receive(c.0, c.1) == (c.0, Some(BaudotChar(c.0, c.1).decoded().0)));
        reveal_with_fuel(decode_codes, 3);
    } else {
        let shown = if c.0 == BaudotShift::Keep {
            end
        } else {
            c.0
        };
        assert(shown == end);
        assert(appended =~= seq![c.1]);
        assert(appended.drop_first() =~= Seq::<u8>::empty());
        lemma_decode_shift(shown, c.1);
        assert(receive(shown, c.1) == (shown, Some(BaudotChar(shown, c.1).decoded().0)));
        reveal_with_fuel(decode_codes, 2);
    }
}


/// The characters that a run of receiving polls hands on, in order.
pub open spec fn handed_on(outs: Seq<(bool, Option<u8>, Option<u32>)>) -> Seq<u8>
    decreases outs.len(),
{
    if outs.len() == 0 {
        seq![]
    } else {
        match outs[0].1 {
            Some(c) => seq![c] + handed_on(outs.drop_first()),
            None => handed_on(outs.drop_first()),
        }
    }
}

proof fn lemma_run_writer_split(v: StreamView, a: nat, b: nat)
    ensures
        ({
            let (v1, acts1) = run_writer(v, a);
            let (v2, acts2) = run_writer(v1, b);
            run_writer(v, a + b) == (v2, acts1 + acts2)
        }),
    decreases a,
{
    if a == 0 {
        assert(Seq::<(bool, Option<u32>)>::empty() + run_writer(v, b).1 =~= run_writer(v, b).1);
    } else {
        let v1 = v.write_step().0;
        lemma_run_writer_split(v1, (a - 1) as nat, b);
        assert((a + b - 1) as nat == ((a - 1) as nat + b) as nat);
        let x = v.write_step().1;
        let r1 = run_writer(v1, (a - 1) as nat);
        let r2 = run_writer(r1.0, b);
        assert(seq![x] + (r1.1 + r2.1) =~= (seq![x] + r1.1) + r2.1);
    }
}

proof fn lemma_run_reader_split(v: StreamView, a: Seq<bool>, b: Seq<bool>)
    ensures
        ({
            let (v1, outs1) = run_reader(v, a);
            let (v2, outs2) = run_reader(v1, b);
            run_reader(v, a + b) == (v2, outs1 + outs2)
        }),
    decreases a.len(),
{
    if a.len() == 0 {
        assert(a + b =~= b);
        assert(Seq::<(bool, Option<u8>, Option<u32>)>::empty() + run_reader(v, b).1
            =~= run_reader(v, b).1);
    } else {
        assert((a + b).drop_first() =~= a.drop_first() + b);
        let v1 = v.read_step(a[0]).0;
        lemma_run_reader_split(v1, a.drop_first(), b);
        let x = v.read_step(a[0]).1;
        let r1 = run_reader(v1, a.drop_first());
        let r2 = run_reader(r1.0, b);
        assert(seq![x] + (r1.1 + r2.1) =~= (seq![x] + r1.1) + r2.1);
    }
}

proof fn lemma_handed_on_append(
    a: Seq<(bool, Option<u8>, Option<u32>)>,
    b: Seq<(bool, Option<u8>, Option<u32>)>,
)
    ensures
        handed_on(a + b) == handed_on(a) + handed_on(b),
    decreases a.len(),
{
    if a.len() == 0 {
        assert(a + b =~= b);
        assert(Seq::<u8>::empty() + handed_on(b) =~= handed_on(b));
    } else {
        assert((a + b).drop_first() =~= a.drop_first() + b);
        lemma_handed_on_append(a.drop_first(), b);
        match a[0].1 {
            Some(c) => {
                assert(seq![c] + (handed_on(a.drop_first()) + handed_on(b)) =~= (seq![c]
                    + handed_on(a.drop_first())) + handed_on(b));
            },
            None => {},
        }
    }
}

/// What is written is read, for a whole queue: an idle sending side that polls
/// seven times for each pending code sends them all and is left idle with an
/// empty queue; an idle receiving side that reads the loop once per sending poll
/// hands on exactly the characters that a teleprinter makes of those codes, and
/// ends in the shift that they leave it in.
pub proof fn lemma_transmit_queue(sender: StreamView, receiver: StreamView)
    requires
        sender.wf(),
        !sender.writing,
        receiver.wf(),
        !receiver.reading,
    ensures
        ({
            let (w, actions) = run_writer(sender, 7 * sender.pending.len());
            let (r, outs) = run_reader(receiver, action_levels(actions));
            let (shift, text) = decode_codes(receiver.current_shift, sender.pending);
            &&& w == StreamView { pending: seq![], ..sender }
            &&& r == StreamView { current_shift: shift, ..receiver }
            &&& handed_on(outs) == text
        }),
    decreases sender.pending.len(),
{
    let n = sender.pending.len();
    if n == 0 {
        assert(sender.pending =~= Seq::<u8>::empty());
        assert(sender =~= StreamView { pending: seq![], ..sender });
        assert(action_levels(run_writer(sender, 0).1) =~= Seq::<bool>::empty());
    } else {
        let code = sender.pending[0];
        assert(code < 32);
        lemma_run_writer_split(sender, 7, 7 * (n - 1) as nat);
        assert(7 * n == 7 + 7 * (n - 1) as nat);
        lemma_write_frame(sender);
        let (s1, acts1) = run_writer(sender, 7);
        let (s2, acts2) = run_writer(s1, 7 * (n - 1) as nat);
        assert(s1.pending.len() == n - 1);
        let lv1 = action_levels(acts1);
        let lv2 = action_levels(acts2);
        assert(action_levels(acts1 + acts2) =~= lv1 + lv2);
        lemma_frame_code(code);
        lemma_read_frame(receiver, lv1);
        lemma_run_reader_split(receiver, lv1, lv2);
        let (r1, outs1) = run_reader(receiver, lv1);
        let (r2, outs2) = run_reader(r1, lv2);
        lemma_transmit_queue(s1, r1);
        lemma_handed_on_append(outs1, outs2);
        reveal_with_fuel(handed_on, 8);
        assert(outs1.skip(7) =~= Seq::<(bool, Option<u8>, Option<u32>)>::empty());
        assert(outs1.drop_first().drop_first().drop_first().drop_first().drop_first().drop_first()
            .drop_first() =~= outs1.skip(7));
    }
}

/// The characters a teleprinter prints for `text` when it starts in `shift` and
/// each character arrives in the shift it is encoded for (characters sent without
/// a shift arrive in the current one).
pub open spec fn printed_text(shift: BaudotShift, text: Seq<u8>) -> Seq<u8>
    decreases text.len(),
{
    if text.len() == 0 {
        seq![]
    } else {
        let c = BaudotChar::encoded(text[0]);
        let shown = if c.0 == BaudotShift::Keep {
            shift
        } else {
            c.0
        };
        seq![BaudotChar(shown, c.1).decoded().0] + printed_text(shown, text.drop_first())
    }
}

/// Receiving two runs of codes one after the other is receiving the first, then
/// the second from the shift the first left.
pub proof fn lemma_decode_codes_append(shift: BaudotShift, a: Seq<u8>, b: Seq<u8>)
    ensures
        ({
            let (s1, out1) = decode_codes(shift, a);
            let (s2, out2) = decode_codes(s1, b);
            decode_codes(shift, a + b) == (s2, out1 + out2)
        }),
    decreases a.len(),
{
    if a.len() == 0 {
        assert(a + b =~= b);
        assert(Seq::<u8>::empty() + decode_codes(shift, b).1 =~= decode_codes(shift, b).1);
    } else {
        assert((a + b).drop_first() =~= a.drop_first() + b);
        lemma_decode_codes_append(receive(shift, a[0]).0, a.drop_first(), b);
        let (s1, out1) = decode_codes(shift, a);
        let (s2, out2) = decode_codes(s1, b);
        let (t1, rest1) = decode_codes(receive(shift, a[0]).0, a.drop_first());
        match receive(shift, a[0]).1 {
            Some(c) => {
                assert(seq![c] + (rest1 + out2) =~= (seq![c] + rest1) + out2);
            },
            None => {},
        }
    }
}

/// Queueing a character into a queue with room for two codes appends to it and
/// keeps what was there.
proof fn lemma_queue_step_appends(v: StreamView, ch: u8)
    requires
        v.wf(),
        v.pending.len() + 2 <= WRITE_BUF_LENGTH,
    ensures
        v.pending.len() <= v.queue_step(ch).pending.len() <= v.pending.len() + 2,
        v.queue_step(ch).pending.take(v.pending.len() as int) == v.pending,
        v.queue_step(ch).wf(),
{
    lemma_steps_keep_wf(v, true, ch);
    assert(v.queue_step(ch).pending.take(v.pending.len() as int) =~= v.pending);
}

/// Queueing a text into a queue with room for two codes per character appends to
/// it and keeps what was there.
proof fn lemma_queue_text_appends(v: StreamView, text: Seq<u8>)
    requires
        v.wf(),
        v.pending.len() + 2 * text.len() <= WRITE_BUF_LENGTH,
    ensures
        v.pending.len() <= queue_text(v, text).pending.len() <= v.pending.len() + 2 * text.len(),
        queue_text(v, text).pending.take(v.pending.len() as int) == v.pending,
        queue_text(v, text).wf(),
    decreases text.len(),
{
    if text.len() == 0 {
        assert(v.pending.take(v.pending.len() as int) =~= v.pending);
    } else {
        let v1 = v.queue_step(text[0]);
        lemma_queue_step_appends(v, text[0]);
        lemma_queue_text_appends(v1, text.drop_first());
        let w = queue_text(v1, text.drop_first());
        assert forall|i: int| 0 <= i < v.pending.len() implies w.pending[i] == v.pending[i] by {
            assert(w.pending.take(v1.pending.len() as int)[i] == v1.pending[i]);
            assert(v1.pending.take(v.pending.len() as int)[i] == v.pending[i]);
        }
        assert(w.pending.take(v.pending.len() as int) =~= v.pending);
    }
}

/// What is queued is what is printed: the codes that queueing `text` appends,
/// received by a teleprinter in the shift the queue ended in, make it hand on the
/// characters of `text` as printed in the shifts they are encoded for, one for
/// each, and leave it in the shift the queue now ends in.
pub proof fn lemma_queue_text_then_receive(v: StreamView, text: Seq<u8>)
    requires
        v.wf(),
        v.pending.len() + 2 * text.len() <= WRITE_BUF_LENGTH,
    ensures
        ({
            let w = queue_text(v, text);
            decode_codes(v.write_buf_end_shift, w.pending.skip(v.pending.len() as int)) == (
                w.write_buf_end_shift,
                printed_text(v.write_buf_end_shift, text),
            )
        }),
    decreases text.len(),
{
    if text.len() == 0 {
        assert(v.pending.skip(v.pending.len() as int) =~= Seq::<u8>::empty());
    } else {
        let v1 = v.queue_step(text[0]);
        let rest = text.drop_first();
        let w = queue_text(v1, rest);
        lemma_queue_step_appends(v, text[0]);
        lemma_queue_then_receive(v, text[0]);
        lemma_queue_text_appends(v1, rest);
        lemma_queue_text_then_receive(v1, rest);
        let a = v1.pending.skip(v.pending.len() as int);
        let b = w.pending.skip(v1.pending.len() as int);
        assert(w.pending.skip(v.pending.len() as int) =~= a + b) by {
            assert(w.pending.take(v1.pending.len() as int) == v1.pending);
        }
        lemma_decode_codes_append(v.write_buf_end_shift, a, b);
        let c = BaudotChar::encoded(text[0]);
        let shown = if c.0 == BaudotShift::Keep {
            v.write_buf_end_shift
        } else {
            c.0
        };
        assert(v1.write_buf_end_shift == shown) by {
            lemma_no_encoded_shift_codes();
        }
    }
}

/// How many more polls the sending side needs to send everything pending: the
/// rest of the frame in progress (five data bits less those sent, and the stop
/// bit), and seven for every other pending code.
pub open spec fn polls_to_drain(v: StreamView) -> nat {
    if v.pending.len() == 0 {
        0
    } else if !v.writing {
        7 * v.pending.len()
    } else {
        (6 - v.write_buf_char_pos + 7 * (v.pending.len() - 1)) as nat
    }
}

/// The sending side drains its queue, also from the middle of a frame: with `n`
/// codes pending, at most `7 * n` polls, each asking to be called again, send
/// them all and leave the queue empty and the sending side idle; the poll after
/// them closes the loop and asks for no further call.
pub proof fn lemma_drain(v: StreamView)
    requires
        v.wf(),
    ensures
        polls_to_drain(v) <= 7 * v.pending.len(),
        ({
            let (w, actions) = run_writer(v, polls_to_drain(v));
            &&& w.pending.len() == 0
            &&& !w.writing
            &&& w.wf()
            &&& actions.len() == polls_to_drain(v)
            &&& forall|k: int| 0 <= k < actions.len() ==> (#[trigger] actions[k]).1 is Some
            &&& w.write_step() == (w, (true, None::<u32>))
        }),
    decreases polls_to_drain(v),
{
    let n = polls_to_drain(v);
    if n > 0 {
        let (v1, a) = v.write_step();
        lemma_steps_keep_wf(v, true, 0);
        assert(polls_to_drain(v1) == n - 1);
        lemma_drain(v1);
        let (w, rest) = run_writer(v1, (n - 1) as nat);
        assert(run_writer(v, n) == (w, seq![a] + rest));
        assert forall|k: int| 0 <= k < n implies (#[trigger] run_writer(v, n).1[k]).1 is Some by {
            if k > 0 {
                assert(run_writer(v, n).1[k] == rest[k - 1]);
            }
        }
    }
}

/// Upper-case ASCII for every character of `text`.
pub open spec fn upper_text(text: Seq<u8>) -> Seq<u8> {
    text.map_values(|c: u8| ascii_upper(c))
}

/// Characters that ITA-2 has arrive as themselves, letters in upper case.
pub proof fn lemma_printed_text_plain(shift: BaudotShift, text: Seq<u8>)
    requires
        forall|i: int|
            0 <= i < text.len() ==> is_ascii_letter(#[trigger] text[i]) || is_ascii_digit(text[i])
                || is_ita2_punctuation(text[i]),
    ensures
        printed_text(shift, text) == upper_text(text),
    decreases text.len(),
{
    if text.len() > 0 {
        lemma_round_trip(text[0]);
        let c = BaudotChar::encoded(text[0]);
        lemma_printed_text_plain(c.0, text.drop_first());
        assert(upper_text(text) =~= seq![ascii_upper(text[0])] + upper_text(text.drop_first()));
    }
}

/// What is queued on a new stream is printed: letters, digits and the
/// punctuation that ITA-2 has, queued one after another on a fresh stream, make
/// a teleprinter that starts in the letters shift print exactly them, letters in
/// upper case.
pub proof fn lemma_queue_plain_text_on_new_stream(text: Seq<u8>)
    requires
        2 * text.len() <= WRITE_BUF_LENGTH,
        forall|i: int|
            0 <= i < text.len() ==> is_ascii_letter(#[trigger] text[i]) || is_ascii_digit(text[i])
                || is_ita2_punctuation(text[i]),
    ensures
        decode_codes(BaudotShift::Ltrs, queue_text(StreamView::initial(), text).pending).1
            == upper_text(text),
{
    let v = StreamView::initial();
    lemma_initial_wf();
    lemma_queue_text_then_receive(v, text);
    lemma_printed_text_plain(BaudotShift::Ltrs, text);
    let w = queue_text(v, text);
    assert(w.pending.skip(0) =~= w.pending);
}

/// An idle receiving side that reads the loop closed (marking, as between
/// characters and during stop bits) stays idle and unchanged, keeping its shift,
/// hands on nothing, and asks to be polled again as soon as possible; only an
/// open loop (a start bit) starts a character.
pub proof fn lemma_idle_marking(v: StreamView)
    requires
        v.wf(),
        !v.reading,
    ensures
        v.read_step(true) == (v, (true, None::<u8>, None::<u32>)),
        v.read_step(false).0 == (StreamView { reading: true, ..v }),
        v.read_step(false).1 == (false, None::<u8>, Some(BAUD_RATE)),
{
}

/// `k` polls of the loop reading closed.
pub open spec fn marks(k: nat) -> Seq<bool> {
    Seq::new(k, |i: int| true)
}

/// Any number of marking polls leave an idle receiving side as it was.
pub proof fn lemma_idle_marks(v: StreamView, k: nat)
    requires
        v.wf(),
        !v.reading,
    ensures
        run_reader(v, marks(k)).0 == v,
        handed_on(run_reader(v, marks(k)).1) == Seq::<u8>::empty(),
    decreases k,
{
    if k > 0 {
        assert(marks(k)[0]);
        assert(marks(k).drop_first() =~= marks((k - 1) as nat));
        lemma_idle_marks(v, (k - 1) as nat);
        let outs = run_reader(v, marks(k)).1;
        let rest = run_reader(v, marks((k - 1) as nat)).1;
        assert(outs == seq![(true, None::<u8>, None::<u32>)] + rest);
        assert(outs.drop_first() =~= rest);
        assert(outs[0].1 is None);
    } else {
        assert(marks(k).len() == 0);
    }
}

/// What an idle receiving side hands on for one received code: the character,
/// unless the code changed the shift.
pub open spec fn received_chars(shift: BaudotShift, code: u8) -> Seq<u8> {
    match receive(shift, code).1 {
        Some(c) => seq![c],
        None => seq![],
    }
}

/// The loop levels for `codes` sent one after another, each frame preceded by
/// `gaps[i]` polls of the idle, marking loop.
pub open spec fn framed_with_gaps(codes: Seq<u8>, gaps: Seq<nat>) -> Seq<bool>
    decreases codes.len(),
{
    if codes.len() == 0 || gaps.len() == 0 {
        seq![]
    } else {
        marks(gaps[0]) + frame_levels(codes[0]) + framed_with_gaps(
            codes.drop_first(),
            gaps.drop_first(),
        )
    }
}

/// Receiving one frame after any idle pause: the marking polls change nothing,
/// and the frame makes the receiving side hand on what the teleprinter makes of
/// the code, in the shift it was in before the pause.
pub proof fn lemma_idle_then_frame(v: StreamView, k: nat, code: u8)
    requires
        v.wf(),
        !v.reading,
        code < 32,
    ensures
        ({
            let (r, outs) = run_reader(v, marks(k) + frame_levels(code));
            &&& r == StreamView { current_shift: receive(v.current_shift, code).0, ..v }
            &&& r.wf()
            &&& handed_on(outs) == received_chars(v.current_shift, code)
        }),
{
    lemma_idle_marks(v, k);
    lemma_run_reader_split(v, marks(k), frame_levels(code));
    lemma_frame_code(code);
    lemma_read_frame(v, frame_levels(code));
    let (r0, outs0) = run_reader(v, marks(k));
    let (r, outs1) = run_reader(v, frame_levels(code));
    lemma_handed_on_append(outs0, outs1);
    reveal_with_fuel(handed_on, 8);
    assert(outs1.drop_first().drop_first().drop_first().drop_first().drop_first().drop_first()
        .drop_first() =~= Seq::<(bool, Option<u8>, Option<u32>)>::empty());
    assert(Seq::<u8>::empty() + handed_on(outs1) =~= handed_on(outs1));
}

/// Characters typed with pauses in between are received as typed: frames of
/// `codes`, each after any number of idle marking polls, make an idle receiving
/// side hand on exactly what a teleprinter makes of the codes, each decoded in
/// the shift the codes before it left (the pauses do not reset it), and leave it
/// idle in the last such shift.
pub proof fn lemma_receive_with_gaps(v: StreamView, codes: Seq<u8>, gaps: Seq<nat>)
    requires
        v.wf(),
        !v.reading,
        gaps.len() == codes.len(),
        forall|i: int| 0 <= i < codes.len() ==> #[trigger] codes[i] < 32,
    ensures
        ({
            let (r, outs) = run_reader(v, framed_with_gaps(codes, gaps));
            let (shift, text) = decode_codes(v.current_shift, codes);
            &&& r == StreamView { current_shift: shift, ..v }
            &&& handed_on(outs) == text
        }),
    decreases codes.len(),
{
    if codes.len() == 0 {
        assert(handed_on(Seq::<(bool, Option<u8>, Option<u32>)>::empty()) == Seq::<u8>::empty());
    } else {
        let first = marks(gaps[0]) + frame_levels(codes[0]);
        let rest = framed_with_gaps(codes.drop_first(), gaps.drop_first());
        lemma_idle_then_frame(v, gaps[0], codes[0]);
        let (r1, outs1) = run_reader(v, first);
        lemma_receive_with_gaps(r1, codes.drop_first(), gaps.drop_first());
        lemma_run_reader_split(v, first, rest);
        let (r2, outs2) = run_reader(r1, rest);
        lemma_handed_on_append(outs1, outs2);
        assert(framed_with_gaps(codes, gaps) == first + rest);
    }
}

/// Queueing a character appends all of its codes or none: when the queue has
/// room for the character's code and, if the shift changes, the shift code in
/// front of it, exactly those codes are appended (a FIGS or LTRS code only when
/// the character is printed in the other shift); otherwise nothing changes.
pub proof fn lemma_queue_all_or_nothing(v: StreamView, ch: u8)
    requires
        v.wf(),
    ensures
        ({
            let c = BaudotChar::encoded(ch);
            let w = v.queue_step(ch);
            let switch = (v.write_buf_end_shift == BaudotShift::Ltrs && c.0 == BaudotShift::Figs)
                || (v.write_buf_end_shift == BaudotShift::Figs && c.0 == BaudotShift::Ltrs);
            let appended = if switch {
                seq![if c.0 == BaudotShift::Figs {
                    FIGS_CODE
                } else {
                    LTRS_CODE
                }, c.1]
            } else {
                seq![c.1]
            };
            if v.pending.len() + appended.len() <= WRITE_BUF_LENGTH {
                &&& w.pending == v.pending + appended
                &&& w.write_buf_end_shift == (if switch {
                    c.0
                } else {
                    v.write_buf_end_shift
                })
            } else {
                w == v
            }
        }),
{
    let c = BaudotChar::encoded(ch);
    let w = v.queue_step(ch);
    if needs_switch(v.write_buf_end_shift, c.0) {
        assert(v.pending.push(switch_code(c.0)).push(c.1) =~= v.pending + seq![
            switch_code(c.0),
            c.1,
        ]);
    } else {
        assert(v.pending.push(c.1) =~= v.pending + seq![c.1]);
    }
}

} // verus!
