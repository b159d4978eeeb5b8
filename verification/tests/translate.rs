use tty::translate;

fn run(input: &[u8]) -> Vec<u8> {
    let mut buf = [0u8; 32];
    buf[..input.len()].copy_from_slice(input);
    let (out, len) = translate(buf, input.len());
    assert!(out[len..].iter().all(|&b| b == 0));
    out[..len].to_vec()
}

#[test]
fn lone_line_feed_becomes_crlf() {
    assert_eq!(run(b"a\nb"), b"a\r\nb".to_vec());
}

#[test]
fn lone_carriage_return_becomes_crlf() {
    assert_eq!(run(b"a\rb"), b"a\r\nb".to_vec());
}

#[test]
fn crlf_pair_passes_through() {
    assert_eq!(run(b"\r\n"), b"\r\n".to_vec());
    assert_eq!(run(b"x\n\ry"), b"x\n\ry".to_vec());
}

#[test]
fn two_crlf_line_breaks_stay_two() {
    assert_eq!(run(b"\r\n\r\n"), b"\r\n\r\n".to_vec());
}

#[test]
fn repeated_line_feeds_each_become_crlf() {
    assert_eq!(run(b"\n\n"), b"\r\n\r\n".to_vec());
}

#[test]
fn a_byte_closes_at_most_one_pair() {
    // The CR after a CR LF pair is lone.
    assert_eq!(run(b"\r\n\r"), b"\r\n\r\n".to_vec());
}

#[test]
fn cr_lf_is_preferred_over_lf_cr() {
    // The CR begins a CR LF pair, so the first LF is lone.
    assert_eq!(run(b"\n\r\na"), b"\r\n\r\na".to_vec());
}

#[test]
fn translating_twice_changes_nothing() {
    for input in [&b"a\nb\rc\r\nd\n\re"[..], b"\n\n\r\r", b"\n\r\n", b"plain"] {
        let once = run(input);
        assert_eq!(run(&once), once);
    }
}

#[test]
fn plain_text_is_copied() {
    assert_eq!(run(b"HELLO 123"), b"HELLO 123".to_vec());
    assert_eq!(run(b""), Vec::<u8>::new());
}

#[test]
fn only_the_first_strlen_bytes_count() {
    let mut buf = [b'z'; 32];
    buf[0] = b'a';
    let (out, len) = translate(buf, 1);
    assert_eq!(len, 1);
    assert_eq!(out[0], b'a');
    assert!(out[1..].iter().all(|&b| b == 0));
}

#[test]
fn full_buffer_of_line_feeds_fills_output() {
    let buf = [b'\n'; 32];
    let (out, len) = translate(buf, 32);
    assert_eq!(len, 64);
    for i in 0..32 {
        assert_eq!(out[2 * i], b'\r');
        assert_eq!(out[2 * i + 1], b'\n');
    }
}
