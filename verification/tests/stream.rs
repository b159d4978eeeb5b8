use tty::stream::forwarded_char;
use tty::{BaudotChar, BaudotShift, BaudotStream};

const BIT: u32 = 20_000;
const STOP: u32 = 28_400;

/// Polls the writing side until it is idle; returns each level and delay.
fn drain(s: &mut BaudotStream) -> Vec<(bool, Option<u32>)> {
    let mut out = Vec::new();
    loop {
        let a = s.poll_write();
        if a.1.is_none() {
            assert!(a.0);
            return out;
        }
        out.push(a);
    }
}

fn frame(code: u8) -> Vec<(bool, Option<u32>)> {
    let mut v = vec![(false, Some(BIT))];
    for i in 0..5 {
        v.push(((code >> i) & 1 == 1, Some(BIT)));
    }
    v.push((true, Some(STOP)));
    v
}

/// Feeds levels to the reading side; returns what it hands on.
fn receive(s: &mut BaudotStream, levels: &[bool]) -> Vec<u8> {
    let mut out = Vec::new();
    for &l in levels {
        let (state, ch, _) = s.poll_read(l);
        assert_eq!(state, l);
        if let Some(c) = ch {
            out.push(c);
        }
    }
    out
}

#[test]
fn idle_writer_keeps_loop_closed() {
    let mut s = BaudotStream::new();
    assert_eq!(s.poll_write(), (true, None));
    assert_eq!(s.poll_write(), (true, None));
}

#[test]
fn letter_is_sent_as_one_frame() {
    let mut s = BaudotStream::new();
    s.queue_write(b'A');
    assert_eq!(drain(&mut s), frame(0b000_11));
}

#[test]
fn figure_is_preceded_by_figs_code() {
    let mut s = BaudotStream::new();
    s.queue_write(b'1');
    let mut expected = frame(27);
    expected.extend(frame(0b101_11));
    assert_eq!(drain(&mut s), expected);
}

#[test]
fn shift_code_only_when_shift_changes() {
    let mut s = BaudotStream::new();
    for &c in b"1 2A".iter() {
        s.queue_write(c);
    }
    let mut expected = frame(27);
    expected.extend(frame(0b101_11));
    expected.extend(frame(4));
    expected.extend(frame(0b100_11));
    expected.extend(frame(31));
    expected.extend(frame(0b000_11));
    assert_eq!(drain(&mut s), expected);
}

#[test]
fn idle_reader_waits_for_start_bit() {
    let mut s = BaudotStream::new();
    assert_eq!(s.poll_read(true), (true, None, None));
    assert_eq!(s.poll_read(false), (false, None, Some(BIT)));
    assert_eq!(s.poll_read(true), (true, None, Some(BIT)));
}

#[test]
fn reader_decodes_a_frame() {
    let mut s = BaudotStream::new();
    let levels: Vec<bool> = frame(0b101_00).iter().map(|a| a.0).collect();
    assert_eq!(receive(&mut s, &levels), vec![b'H']);
}

#[test]
fn reader_follows_shift_codes() {
    let mut s = BaudotStream::new();
    let mut levels = Vec::new();
    for code in [27u8, 0b101_00, 31, 0b101_00] {
        levels.extend(frame(code).iter().map(|a| a.0));
    }
    assert_eq!(receive(&mut s, &levels), vec![b'$', b'H']);
}

#[test]
fn loopback_gives_back_the_text() {
    let mut sender = BaudotStream::new();
    let mut receiver = BaudotStream::new();
    for &c in b"HELLO, WORLD 42?\r\n".iter() {
        sender.queue_write(c);
    }
    let levels: Vec<bool> = drain(&mut sender).iter().map(|a| a.0).collect();
    assert_eq!(receive(&mut receiver, &levels), b"HELLO, WORLD 42?\r\n".to_vec());
}

#[test]
fn loopback_prints_lower_case_in_upper_case() {
    let mut sender = BaudotStream::new();
    let mut receiver = BaudotStream::new();
    for &c in b"teletype".iter() {
        sender.queue_write(c);
    }
    let levels: Vec<bool> = drain(&mut sender).iter().map(|a| a.0).collect();
    assert_eq!(receive(&mut receiver, &levels), b"TELETYPE".to_vec());
}

#[test]
fn full_queue_drops_characters() {
    let mut s = BaudotStream::new();
    for _ in 0..1030 {
        s.queue_write(b'E');
    }
    assert_eq!(drain(&mut s).len(), 1024 * 7);
}

#[test]
fn shifted_character_needs_two_slots() {
    let mut s = BaudotStream::new();
    for _ in 0..1023 {
        s.queue_write(b'E');
    }
    // No room for the FIGS code and the digit: dropped.
    s.queue_write(b'3');
    // Room for one letter.
    s.queue_write(b'T');
    let sent = drain(&mut s);
    assert_eq!(sent.len(), 1024 * 7);
    assert_eq!(sent[1023 * 7..].to_vec(), frame(0b100_00));
}

#[test]
fn characters_queued_while_sending_follow() {
    let mut s = BaudotStream::new();
    s.queue_write(b'E');
    assert_eq!(s.poll_write(), (false, Some(BIT)));
    s.queue_write(b'T');
    let mut rest = drain(&mut s);
    rest.insert(0, (false, Some(BIT)));
    let mut expected = frame(1);
    expected.extend(frame(0b100_00));
    assert_eq!(rest, expected);
    let c = BaudotChar::from_ascii(b'T');
    assert_eq!(c.0, BaudotShift::Ltrs);
}

#[test]
fn input_with_end_of_transmission_queues_nothing() {
    let mut s = BaudotStream::new();
    let mut buf = [0u8; 32];
    buf[..3].copy_from_slice(b"A\x04B");
    assert!(s.queue_input(buf, 3));
    assert_eq!(s.poll_write(), (true, None));
}

#[test]
fn end_of_transmission_past_nread_is_ignored() {
    let mut s = BaudotStream::new();
    let mut buf = [0u8; 32];
    buf[..2].copy_from_slice(b"E\x04");
    assert!(!s.queue_input(buf, 1));
    assert_eq!(drain(&mut s), frame(1));
}

#[test]
fn input_is_translated_and_queued() {
    let mut sender = BaudotStream::new();
    let mut receiver = BaudotStream::new();
    let mut buf = [0u8; 32];
    buf[..6].copy_from_slice(b"HI\n42\n");
    assert!(!sender.queue_input(buf, 6));
    let levels: Vec<bool> = drain(&mut sender).iter().map(|a| a.0).collect();
    assert_eq!(receive(&mut receiver, &levels), b"HI\r\n42\r\n".to_vec());
}

#[test]
fn nul_is_not_forwarded() {
    assert_eq!(forwarded_char(Some(0)), None);
    assert_eq!(forwarded_char(Some(b'A')), Some(b'A'));
    assert_eq!(forwarded_char(None), None);
}

#[test]
fn drain_from_the_middle_of_a_frame() {
    let mut s = BaudotStream::new();
    s.queue_write(b'E');
    s.queue_write(b'T');
    // start bit and two data bits of the first code
    for _ in 0..3 {
        assert!(s.poll_write().1.is_some());
    }
    let rest = drain(&mut s);
    // three data bits, the stop bit, then a whole frame
    assert_eq!(rest.len(), 4 + 7);
    assert!(rest.len() <= 7 * 2);
    assert_eq!(s.poll_write(), (true, None));
}
