use tty::{BaudotChar, BaudotShift};

#[test]
fn lower_case_a_is_letters_code_3() {
    let baudot = BaudotChar::from_ascii(b'a');
    assert_eq!(baudot.0, BaudotShift::Ltrs);
    assert_eq!(baudot.1, 0b000_11);
    let ascii = baudot.to_ascii();
    assert_eq!(ascii.0, b'A');
    assert_eq!(ascii.1, BaudotShift::Ltrs);
}

#[test]
fn letters_round_trip_in_upper_case() {
    for ch in b'A'..=b'Z' {
        let c = BaudotChar::from_ascii(ch);
        assert_eq!(c.0, BaudotShift::Ltrs);
        assert_eq!(c.to_ascii(), (ch, BaudotShift::Ltrs));
        let lower = BaudotChar::from_ascii(ch + 32);
        assert_eq!(lower.0, BaudotShift::Ltrs);
        assert_eq!(lower.1, c.1);
    }
}

#[test]
fn digits_and_punctuation_round_trip_in_figures() {
    for &ch in b"0123456789&()+,-./:=?".iter() {
        let c = BaudotChar::from_ascii(ch);
        assert_eq!(c.0, BaudotShift::Figs);
        assert!(c.1 < 32);
        assert_eq!(c.to_ascii(), (ch, BaudotShift::Figs));
    }
}

#[test]
fn digit_codes() {
    assert_eq!(BaudotChar::from_ascii(b'1').1, 0b101_11);
    assert_eq!(BaudotChar::from_ascii(b'3').1, 0b000_01);
    assert_eq!(BaudotChar::from_ascii(b'9').1, 0b110_00);
}

#[test]
fn format_characters_need_no_shift() {
    for &(ch, code) in [(b' ', 4u8), (b'\n', 2u8), (b'\r', 8u8)].iter() {
        let c = BaudotChar::from_ascii(ch);
        assert_eq!(c.0, BaudotShift::Keep);
        assert_eq!(c.1, code);
        assert_eq!(BaudotChar(BaudotShift::Ltrs, code).to_ascii(), (ch, BaudotShift::Ltrs));
        assert_eq!(BaudotChar(BaudotShift::Figs, code).to_ascii(), (ch, BaudotShift::Figs));
    }
}

#[test]
fn keep_decodes_to_nothing() {
    assert_eq!(BaudotChar(BaudotShift::Keep, 3).to_ascii(), (0, BaudotShift::Keep));
    assert_eq!(BaudotChar(BaudotShift::Keep, 200).to_ascii(), (0, BaudotShift::Keep));
}

#[test]
fn unprintable_characters_map_to_blank() {
    for &ch in b"!%*<>@[\\]^`{|}~".iter() {
        let c = BaudotChar::from_ascii(ch);
        assert_eq!(c.0, BaudotShift::Keep);
        assert_eq!(c.1, 0);
    }
    for ch in 128..=255u8 {
        let c = BaudotChar::from_ascii(ch);
        assert_eq!(c.0, BaudotShift::Keep);
        assert_eq!(c.1, 0);
    }
}

#[test]
fn shift_codes_switch_shift() {
    assert_eq!(BaudotChar(BaudotShift::Ltrs, 27).to_ascii(), (0, BaudotShift::Figs));
    assert_eq!(BaudotChar(BaudotShift::Figs, 27).to_ascii(), (0, BaudotShift::Figs));
    assert_eq!(BaudotChar(BaudotShift::Figs, 31).to_ascii(), (0, BaudotShift::Ltrs));
    assert_eq!(BaudotChar(BaudotShift::Ltrs, 31).to_ascii(), (0, BaudotShift::Ltrs));
}

#[test]
fn characters_ita2_prints_differently() {
    // '"' has the code of '+', '#' that of '$', ';' that of '='.
    assert_eq!(BaudotChar::from_ascii(b'"').to_ascii().0, b'+');
    assert_eq!(BaudotChar::from_ascii(b'#').to_ascii().0, b'$');
    assert_eq!(BaudotChar::from_ascii(b';').to_ascii().0, b'=');
    assert_eq!(BaudotChar::from_ascii(b'_').to_ascii().0, b'-');
    // BEL prints nothing, DEL is the LTRS code.
    assert_eq!(BaudotChar::from_ascii(7).to_ascii(), (0, BaudotShift::Figs));
    assert_eq!(BaudotChar::from_ascii(127).1, 31);
}

#[test]
fn printed_characters_identify_their_code() {
    for shift in [BaudotShift::Ltrs, BaudotShift::Figs] {
        for a in 0..32u8 {
            for b in 0..32u8 {
                let ca = BaudotChar(shift, a).to_ascii().0;
                let cb = BaudotChar(shift, b).to_ascii().0;
                if ca != 0 && ca == cb {
                    assert_eq!(a, b);
                }
            }
        }
    }
}
