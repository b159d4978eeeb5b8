//! The ITA-2 character set: the shift states of a teleprinter, five-bit
//! character codes, and the tables that map ASCII to ITA-2 and back.

use vstd::prelude::*;

verus! {

/// The shift state of the teleprinter.
#[derive(Debug, Clone, Copy, PartialEq, Eq, Structural)]
pub enum BaudotShift {
    /// LTRS
    Ltrs,
    /// FIGS
    Figs,
    /// This value says to keep the current state when writing this char to the current loop.
    Keep,
}

/// The ITA-2 code that switches the teleprinter to the figures shift.
pub const FIGS_CODE: u8 = 27;

/// The ITA-2 code that switches the teleprinter to the letters shift.
pub const LTRS_CODE: u8 = 31;

/// Table for converting ASCII characters to their equivalents in ITA-2.
///
/// Each entry holds the shift in which the character is printed and its five-bit
/// code. Characters that ITA-2 cannot print map to `(Keep, 0)`; the format
/// characters space, line feed and carriage return print in either shift and map
/// to `Keep` with their own code.
pub const ASCII_TO_BAUDOT: [(BaudotShift, u8); 256] = [
    (BaudotShift::Keep, 0),        // null
    (BaudotShift::Keep, 0),        // start of heading
    (BaudotShift::Keep, 0),        // start of text
    (BaudotShift::Keep, 0),        // end of text
    (BaudotShift::Keep, 0),        // end of transmision
    (BaudotShift::Figs, 0b10_010), // enquiry
    (BaudotShift::Keep, 0),        // acknowledge
    (BaudotShift::Figs, 0b010_11), // bell
    (BaudotShift::Keep, 0),        // backspace
    (BaudotShift::Keep, 0),        // tab
    (BaudotShift::Keep, 0b000_10), // new line
    (BaudotShift::Keep, 0),        // vertical tab
    (BaudotShift::Keep, 0),        // form feed
    (BaudotShift::Keep, 0b010_00), // carriage return
    (BaudotShift::Keep, 0),        // shift out
    (BaudotShift::Keep, 0),        // shift in
    (BaudotShift::Keep, 0),        // data link escape
    (BaudotShift::Keep, 0),        // device control 1
    (BaudotShift::Keep, 0),        // device control 2
    (BaudotShift::Keep, 0),        // device control 3
    (BaudotShift::Keep, 0),        // device control 4
    (BaudotShift::Keep, 0),        // negative acknowledge
    (BaudotShift::Keep, 0),        // synchronous idle
    (BaudotShift::Keep, 0),        // end of transmission
    (BaudotShift::Keep, 0),        // cancel
    (BaudotShift::Keep, 0),        // end of medium
    (BaudotShift::Keep, 0),        // substitute
    (BaudotShift::Keep, 0),        // escape
    (BaudotShift::Keep, 0),        // file separator
    (BaudotShift::Keep, 0),        // group separator
    (BaudotShift::Keep, 0),        // record separator
    (BaudotShift::Keep, 0),        // unit separator
    (BaudotShift::Keep, 0b001_00), // space
    (BaudotShift::Keep, 0),        // !
    (BaudotShift::Figs, 0b100_01), // "
    (BaudotShift::Figs, 0b101_00), // #
    (BaudotShift::Figs, 0b010_01), // $
    (BaudotShift::Keep, 0),        // %
    (BaudotShift::Figs, 0b110_10), // &
    (BaudotShift::Figs, 0b010_11), // '
    (BaudotShift::Figs, 0b011_11), // (
    (BaudotShift::Figs, 0b100_10), // )
    (BaudotShift::Keep, 0),        // *
    (BaudotShift::Figs, 0b100_01), // +
    (BaudotShift::Figs, 0b011_00), // ,
    (BaudotShift::Figs, 0b000_11), // -
    (BaudotShift::Figs, 0b111_00), // .
    (BaudotShift::Figs, 0b111_01), // /
    (BaudotShift::Figs, 0b101_10), // 0
    (BaudotShift::Figs, 0b101_11), // 1
    (BaudotShift::Figs, 0b100_11), // 2
    (BaudotShift::Figs, 0b000_01), // 3
    (BaudotShift::Figs, 0b010_10), // 4
    (BaudotShift::Figs, 0b100_00), // 5
    (BaudotShift::Figs, 0b101_01), // 6
    (BaudotShift::Figs, 0b001_11), // 7
    (BaudotShift::Figs, 0b001_10), // 8
    (BaudotShift::Figs, 0b110_00), // 9
    (BaudotShift::Figs, 0b011_10), // :
    (BaudotShift::Figs, 0b111_10), // ;
    (BaudotShift::Keep, 0),        // <
    (BaudotShift::Figs, 0b111_10), // =
    (BaudotShift::Keep, 0),        // >
    (BaudotShift::Figs, 0b110_01), // ?
    (BaudotShift::Keep, 0),        // @
    (BaudotShift::Ltrs, 0b000_11), // A
    (BaudotShift::Ltrs, 0b110_01), // B
    (BaudotShift::Ltrs, 0b011_10), // C
    (BaudotShift::Ltrs, 0b010_01), // D
    (BaudotShift::Ltrs, 0b000_01), // E
    (BaudotShift::Ltrs, 0b011_01), // F
    (BaudotShift::Ltrs, 0b110_10), // G
    (BaudotShift::Ltrs, 0b101_00), // H
    (BaudotShift::Ltrs, 0b001_10), // I
    (BaudotShift::Ltrs, 0b010_11), // J
    (BaudotShift::Ltrs, 0b011_11), // K
    (BaudotShift::Ltrs, 0b100_10), // L
    (BaudotShift::Ltrs, 0b111_00), // M
    (BaudotShift::Ltrs, 0b011_00), // N
    (BaudotShift::Ltrs, 0b110_00), // O
    (BaudotShift::Ltrs, 0b101_10), // P
    (BaudotShift::Ltrs, 0b101_11), // Q
    (BaudotShift::Ltrs, 0b010_10), // R
    (BaudotShift::Ltrs, 0b001_01), // S
    (BaudotShift::Ltrs, 0b100_00), // T
    (BaudotShift::Ltrs, 0b001_11), // U
    (BaudotShift::Ltrs, 0b111_10), // V
    (BaudotShift::Ltrs, 0b100_11), // W
    (BaudotShift::Ltrs, 0b111_01), // X
    (BaudotShift::Ltrs, 0b101_01), // Y
    (BaudotShift::Ltrs, 0b100_01), // Z
    (BaudotShift::Keep, 0),        // [
    (BaudotShift::Keep, 0),        // \
    (BaudotShift::Keep, 0),        // ]
    (BaudotShift::Keep, 0),        // ^
    (BaudotShift::Figs, 0b000_11), // _
    (BaudotShift::Keep, 0),        // `
    (BaudotShift::Ltrs, 0b000_11), // a
    (BaudotShift::Ltrs, 0b110_01), // b
    (BaudotShift::Ltrs, 0b011_10), // c
    (BaudotShift::Ltrs, 0b010_01), // d
    (BaudotShift::Ltrs, 0b000_01), // e
    (BaudotShift::Ltrs, 0b011_01), // f
    (BaudotShift::Ltrs, 0b110_10), // g
    (BaudotShift::Ltrs, 0b101_00), // h
    (BaudotShift::Ltrs, 0b001_10), // i
    (BaudotShift::Ltrs, 0b010_11), // j
    (BaudotShift::Ltrs, 0b011_11), // k
    (BaudotShift::Ltrs, 0b100_10), // l
    (BaudotShift::Ltrs, 0b111_00), // m
    (BaudotShift::Ltrs, 0b011_00), // n
    (BaudotShift::Ltrs, 0b110_00), // o
    (BaudotShift::Ltrs, 0b101_10), // p
    (BaudotShift::Ltrs, 0b101_11), // q
    (BaudotShift::Ltrs, 0b010_10), // r
    (BaudotShift::Ltrs, 0b001_01), // s
    (BaudotShift::Ltrs, 0b100_00), // t
    (BaudotShift::Ltrs, 0b001_11), // u
    (BaudotShift::Ltrs, 0b111_10), // v
    (BaudotShift::Ltrs, 0b100_11), // w
    (BaudotShift::Ltrs, 0b111_01), // x
    (BaudotShift::Ltrs, 0b101_01), // y
    (BaudotShift::Ltrs, 0b100_01), // z
    (BaudotShift::Keep, 0),        // {
    (BaudotShift::Keep, 0),        // |
    (BaudotShift::Keep, 0),        // }
    (BaudotShift::Keep, 0),        // ~
    (BaudotShift::Ltrs, 0b11_111), // delete
    (BaudotShift::Keep, 0),        // --- rest is unused ---
    (BaudotShift::Keep, 0),
    (BaudotShift::Keep, 0),
    (BaudotShift::Keep, 0),
    (BaudotShift::Keep, 0),
    (BaudotShift::Keep, 0),
    (BaudotShift::Keep, 0),
    (BaudotShift::Keep, 0),
    (BaudotShift::Keep, 0),
    (BaudotShift::Keep, 0),
    (BaudotShift::Keep, 0),
    (BaudotShift::Keep, 0),
    (BaudotShift::Keep, 0),
    (BaudotShift::Keep, 0),
    (BaudotShift::Keep, 0),
    (BaudotShift::Keep, 0),
    (BaudotShift::Keep, 0),
    (BaudotShift::Keep, 0),
    (BaudotShift::Keep, 0),
    (BaudotShift::Keep, 0),
    (BaudotShift::Keep, 0),
    (BaudotShift::Keep, 0),
    (BaudotShift::Keep, 0),
    (BaudotShift::Keep, 0),
    (BaudotShift::Keep, 0),
    (BaudotShift::Keep, 0),
    (BaudotShift::Keep, 0),
    (BaudotShift::Keep, 0),
    (BaudotShift::Keep, 0),
    (BaudotShift::Keep, 0),
    (BaudotShift::Keep, 0),
    (BaudotShift::Keep, 0),
    (BaudotShift::Keep, 0),
    (BaudotShift::Keep, 0),
    (BaudotShift::Keep, 0),
    (BaudotShift::Keep, 0),
    (BaudotShift::Keep, 0),
    (BaudotShift::Keep, 0),
    (BaudotShift::Keep, 0),
    (BaudotShift::Keep, 0),
    (BaudotShift::Keep, 0),
    (BaudotShift::Keep, 0),
    (BaudotShift::Keep, 0),
    (BaudotShift::Keep, 0),
    (BaudotShift::Keep, 0),
    (BaudotShift::Keep, 0),
    (BaudotShift::Keep, 0),
    (BaudotShift::Keep, 0),
    (BaudotShift::Keep, 0),
    (BaudotShift::Keep, 0),
    (BaudotShift::Keep, 0),
    (BaudotShift::Keep, 0),
    (BaudotShift::Keep, 0),
    (BaudotShift::Keep, 0),
    (BaudotShift::Keep, 0),
    (BaudotShift::Keep, 0),
    (BaudotShift::Keep, 0),
    (BaudotShift::Keep, 0),
    (BaudotShift::Keep, 0),
    (BaudotShift::Keep, 0),
    (BaudotShift::Keep, 0),
    (BaudotShift::Keep, 0),
    (BaudotShift::Keep, 0),
    (BaudotShift::Keep, 0),
    (BaudotShift::Keep, 0),
    (BaudotShift::Keep, 0),
    (BaudotShift::Keep, 0),
    (BaudotShift::Keep, 0),
    (BaudotShift::Keep, 0),
    (BaudotShift::Keep, 0),
    (BaudotShift::Keep, 0),
    (BaudotShift::Keep, 0),
    (BaudotShift::Keep, 0),
    (BaudotShift::Keep, 0),
    (BaudotShift::Keep, 0),
    (BaudotShift::Keep, 0),
    (BaudotShift::Keep, 0),
    (BaudotShift::Keep, 0),
    (BaudotShift::Keep, 0),
    (BaudotShift::Keep, 0),
    (BaudotShift::Keep, 0),
    (BaudotShift::Keep, 0),
    (BaudotShift::Keep, 0),
    (BaudotShift::Keep, 0),
    (BaudotShift::Keep, 0),
    (BaudotShift::Keep, 0),
    (BaudotShift::Keep, 0),
    (BaudotShift::Keep, 0),
    (BaudotShift::Keep, 0),
    (BaudotShift::Keep, 0),
    (BaudotShift::Keep, 0),
    (BaudotShift::Keep, 0),
    (BaudotShift::Keep, 0),
    (BaudotShift::Keep, 0),
    (BaudotShift::Keep, 0),
    (BaudotShift::Keep, 0),
    (BaudotShift::Keep, 0),
    (BaudotShift::Keep, 0),
    (BaudotShift::Keep, 0),
    (BaudotShift::Keep, 0),
    (BaudotShift::Keep, 0),
    (BaudotShift::Keep, 0),
    (BaudotShift::Keep, 0),
    (BaudotShift::Keep, 0),
    (BaudotShift::Keep, 0),
    (BaudotShift::Keep, 0),
    (BaudotShift::Keep, 0),
    (BaudotShift::Keep, 0),
    (BaudotShift::Keep, 0),
    (BaudotShift::Keep, 0),
    (BaudotShift::Keep, 0),
    (BaudotShift::Keep, 0),
    (BaudotShift::Keep, 0),
    (BaudotShift::Keep, 0),
    (BaudotShift::Keep, 0),
    (BaudotShift::Keep, 0),
    (BaudotShift::Keep, 0),
    (BaudotShift::Keep, 0),
    (BaudotShift::Keep, 0),
    (BaudotShift::Keep, 0),
    (BaudotShift::Keep, 0),
    (BaudotShift::Keep, 0),
    (BaudotShift::Keep, 0),
    (BaudotShift::Keep, 0),
    (BaudotShift::Keep, 0),
    (BaudotShift::Keep, 0),
    (BaudotShift::Keep, 0),
    (BaudotShift::Keep, 0),
];

/// Table for converting characters from ITA-2 to ASCII, after
/// https://en.wikipedia.org/wiki/Baudot_code#ITA_2_and_US-TTY.
/// The first dimension is indexed with the five-bit code and the second with the
/// current shift state of the teleprinter (0 for letters, 1 for figures).
/// The first value of each pair is the printed character and the second the
/// shift state of the teleprinter after printing it.
pub const BAUDOT_TO_ASCII: [[(u8, BaudotShift); 2]; 32] = [
    [(0, BaudotShift::Ltrs), (0, BaudotShift::Figs)], // NUL / NUL
    [(69, BaudotShift::Ltrs), (51, BaudotShift::Figs)], // E / 3
    [(10, BaudotShift::Ltrs), (10, BaudotShift::Figs)], // LF / LF
    [(65, BaudotShift::Ltrs), (45, BaudotShift::Figs)], // A / -
    [(32, BaudotShift::Ltrs), (32, BaudotShift::Figs)], // space / space
    [(83, BaudotShift::Ltrs), (39, BaudotShift::Figs)], // S / '
    [(73, BaudotShift::Ltrs), (56, BaudotShift::Figs)], // I / 8
    [(85, BaudotShift::Ltrs), (55, BaudotShift::Figs)], // U / 7
    [(13, BaudotShift::Ltrs), (13, BaudotShift::Figs)], // CR / CR
    [(68, BaudotShift::Ltrs), (0, BaudotShift::Figs)], // D / NUL (null represents ENQ)
    [(82, BaudotShift::Ltrs), (52, BaudotShift::Figs)], // R / 4
    [(74, BaudotShift::Ltrs), (0, BaudotShift::Figs)], // J / NUL (null represents BEL)
    [(78, BaudotShift::Ltrs), (44, BaudotShift::Figs)], // N / ,
    [(70, BaudotShift::Ltrs), (33, BaudotShift::Figs)], // F / !
    [(67, BaudotShift::Ltrs), (58, BaudotShift::Figs)], // C / :
    [(75, BaudotShift::Ltrs), (40, BaudotShift::Figs)], // K / (
    [(84, BaudotShift::Ltrs), (53, BaudotShift::Figs)], // T / 5
    [(90, BaudotShift::Ltrs), (43, BaudotShift::Figs)], // Z / +
    [(76, BaudotShift::Ltrs), (41, BaudotShift::Figs)], // L / )
    [(87, BaudotShift::Ltrs), (50, BaudotShift::Figs)], // W / 2
    [(72, BaudotShift::Ltrs), (36, BaudotShift::Figs)], // H / $ ('$' should be '£', but '£' is not in ascii)
    [(89, BaudotShift::Ltrs), (54, BaudotShift::Figs)], // Y / 6
    [(80, BaudotShift::Ltrs), (48, BaudotShift::Figs)], // P / 0
    [(81, BaudotShift::Ltrs), (49, BaudotShift::Figs)], // Q / 1
    [(79, BaudotShift::Ltrs), (57, BaudotShift::Figs)], // O / 9
    [(66, BaudotShift::Ltrs), (63, BaudotShift::Figs)], // B / ?
    [(71, BaudotShift::Ltrs), (38, BaudotShift::Figs)], // G / &
    [(0, BaudotShift::Figs), (0, BaudotShift::Figs)], // NUL / NUL (null represents FIGS)
    [(77, BaudotShift::Ltrs), (46, BaudotShift::Figs)], // M / .
    [(88, BaudotShift::Ltrs), (47, BaudotShift::Figs)], // X / /
    [(86, BaudotShift::Ltrs), (61, BaudotShift::Figs)], // V / =
    [(0, BaudotShift::Ltrs), (0, BaudotShift::Ltrs)], // NUL / NUL (null represents LTRS/DEL)
];

/// The column of [BAUDOT_TO_ASCII] that a shift state selects.
pub open spec fn shift_column(shift: BaudotShift) -> int {
    match shift {
        BaudotShift::Figs => 1,
        _ => 0,
    }
}

/// A five-bit ITA-2 code together with the shift it is meant for.
#[derive(Debug, Clone, Copy)]
pub struct BaudotChar(pub BaudotShift, pub u8);

impl BaudotChar {
    /// What the teleprinter prints for this code, and the shift it is in afterwards;
    /// `(0, Keep)` for a character marked `Keep`.
    pub open spec fn decoded(self) -> (u8, BaudotShift) {
        if self.0 == BaudotShift::Keep {
            (0, BaudotShift::Keep)
        } else {
            BAUDOT_TO_ASCII@[self.1 as int]@[shift_column(self.0)]
        }
    }

    /// The ITA-2 character that stands for the ASCII character `ch`.
    pub open spec fn encoded(ch: u8) -> BaudotChar {
        BaudotChar(ASCII_TO_BAUDOT@[ch as int].0, ASCII_TO_BAUDOT@[ch as int].1)
    }

    /// Converts the character to ASCII, as printed in the shift it carries.
    pub fn to_ascii(self) -> (r: (u8, BaudotShift))
        requires
            self.0 == BaudotShift::Keep || self.1 < 32,
        ensures
            r == self.decoded(),
    {
        if self.0 == BaudotShift::Keep {
            return (0, BaudotShift::Keep);
        }
        let column: usize = match self.0 {
            BaudotShift::Figs => 1,
            _ => 0,
        };
        BAUDOT_TO_ASCII[self.1 as usize][column]
    }

    /// Converts an ASCII character to its ITA-2 equivalent.
    pub fn from_ascii(ch: u8) -> (r: Self)
        ensures
            r == Self::encoded(ch),
            r.1 < 32,
    {
        proof {
            lemma_codes_are_five_bit();
        }
        let (shift, code) = ASCII_TO_BAUDOT[ch as usize];
        BaudotChar(shift, code)
    }
}

/// Every code in [ASCII_TO_BAUDOT] fits in five bits.
pub proof fn lemma_codes_are_five_bit()
    ensures
        forall|ch: u8| #[trigger] BaudotChar::encoded(ch).1 < 32,
{
    assert forall|i: int| 0 <= i < 256 implies #[trigger] ASCII_TO_BAUDOT@[i].1 < 32 by {}
    assert forall|ch: u8| #[trigger] BaudotChar::encoded(ch).1 < 32 by {
        assert(ASCII_TO_BAUDOT@[ch as int].1 < 32);
    }
}

/// Whether `ch` is an ASCII letter.
pub open spec fn is_ascii_letter(ch: u8) -> bool {
    (65 <= ch <= 90) || (97 <= ch <= 122)
}

/// Whether `ch` is an ASCII digit.
pub open spec fn is_ascii_digit(ch: u8) -> bool {
    48 <= ch <= 57
}

/// The punctuation that ITA-2 prints as itself: `& ( ) + , - . / : = ?`.
pub open spec fn is_ita2_punctuation(ch: u8) -> bool {
    ch == 38 || ch == 40 || ch == 41 || ch == 43 || ch == 44 || ch == 45 || ch == 46 || ch == 47
        || ch == 58 || ch == 61 || ch == 63
}

/// `ch` with a lower-case letter turned into upper case.
pub open spec fn ascii_upper(ch: u8) -> u8 {
    if 97 <= ch <= 122 {
        (ch - 32) as u8
    } else {
        ch
    }
}

/// After printing a code the teleprinter is in the figures shift if the code was
/// FIGS, in the letters shift if it was LTRS, and in the shift it was in otherwise.
pub proof fn lemma_decode_shift(shift: BaudotShift, code: u8)
    requires
        shift != BaudotShift::Keep,
        code < 32,
    ensures
        BaudotChar(shift, code).decoded().1 == (if code == FIGS_CODE {
            BaudotShift::Figs
        } else if code == LTRS_CODE {
            BaudotShift::Ltrs
        } else {
            shift
        }),
{
}

/// Encoding a letter, a digit or a punctuation mark that ITA-2 has, then decoding
/// the code in the shift it was encoded for, gives the character back (letters in
/// upper case), and leaves the teleprinter in that shift.
pub proof fn lemma_round_trip(ch: u8)
    requires
        is_ascii_letter(ch) || is_ascii_digit(ch) || is_ita2_punctuation(ch),
    ensures
        BaudotChar::encoded(ch).0 != BaudotShift::Keep,
        BaudotChar::encoded(ch).decoded() == (ascii_upper(ch), BaudotChar::encoded(ch).0),
        is_ascii_letter(ch) ==> BaudotChar::encoded(ch).0 == BaudotShift::Ltrs,
        !is_ascii_letter(ch) ==> BaudotChar::encoded(ch).0 == BaudotShift::Figs,
{
}

/// Space, line feed and carriage return are sent without a shift and print as
/// themselves in either shift, which they leave unchanged.
pub proof fn lemma_format_chars(ch: u8, shift: BaudotShift)
    requires
        ch == 32 || ch == 10 || ch == 13,
        shift != BaudotShift::Keep,
    ensures
        BaudotChar::encoded(ch).0 == BaudotShift::Keep,
        BaudotChar(shift, BaudotChar::encoded(ch).1).decoded() == (ch, shift),
{
}

/// No character is encoded as the FIGS code, and only one printed in the letters
/// shift (DEL) is encoded as the LTRS code.
pub proof fn lemma_no_encoded_shift_codes()
    ensures
        forall|ch: u8| #[trigger] BaudotChar::encoded(ch).1 != FIGS_CODE,
        forall|ch: u8|
            #[trigger] BaudotChar::encoded(ch).1 == LTRS_CODE ==> BaudotChar::encoded(ch).0
                == BaudotShift::Ltrs,
{
    assert forall|i: int| 0 <= i < 256 implies #[trigger] ASCII_TO_BAUDOT@[i].1 != FIGS_CODE && (
    ASCII_TO_BAUDOT@[i].1 == LTRS_CODE ==> ASCII_TO_BAUDOT@[i].0 == BaudotShift::Ltrs) by {}
    assert forall|ch: u8| #[trigger] BaudotChar::encoded(ch).1 != FIGS_CODE by {
        assert(ASCII_TO_BAUDOT@[ch as int].1 != FIGS_CODE);
    }
    assert forall|ch: u8|
        #[trigger] BaudotChar::encoded(ch).1 == LTRS_CODE implies BaudotChar::encoded(ch).0
            == BaudotShift::Ltrs by {
        assert(ASCII_TO_BAUDOT@[ch as int].1 == LTRS_CODE ==> ASCII_TO_BAUDOT@[ch as int].0
            == BaudotShift::Ltrs);
    }
}

/// Within one shift no two codes print the same character: a printed
/// character (anything but NUL) determines its code.
pub proof fn lemma_decode_injective(shift: BaudotShift, a: u8, b: u8)
    requires
        shift != BaudotShift::Keep,
        a < 32,
        b < 32,
        BaudotChar(shift, a).decoded().0 == BaudotChar(shift, b).decoded().0,
        BaudotChar(shift, a).decoded().0 != 0,
    ensures
        a == b,
{
}

/// The ITA-2 letters shift, code by code: `NUL E LF A space S I U CR D R J N F C K
/// T Z L W H Y P Q O B G FIGS M X V LTRS`, the two shift codes printing NUL.
pub open spec fn ita2_letters() -> Seq<u8> {
    seq![
        0u8, 69u8, 10u8, 65u8, 32u8, 83u8, 73u8, 85u8,  // NUL E LF A space S I U
        13u8, 68u8, 82u8, 74u8, 78u8, 70u8, 67u8, 75u8,  // CR D R J N F C K
        84u8, 90u8, 76u8, 87u8, 72u8, 89u8, 80u8, 81u8,  // T Z L W H Y P Q
        79u8, 66u8, 71u8, 0u8, 77u8, 88u8, 86u8, 0u8,  // O B G NUL M X V NUL
    ]
}

/// The ITA-2 figures shift, code by code: `NUL 3 LF - space ' 8 7 CR ENQ 4 BEL , !
/// : ( 5 + ) 2 $ 6 0 1 9 ? & FIGS . / = LTRS`, with `$` in place of the pound sign
/// and NUL for ENQ, BEL and the two shift codes.
pub open spec fn ita2_figures() -> Seq<u8> {
    seq![
        0u8, 51u8, 10u8, 45u8, 32u8, 39u8, 56u8, 55u8,  // NUL 3 LF - space ' 8 7
        13u8, 0u8, 52u8, 0u8, 44u8, 33u8, 58u8, 40u8,  // CR NUL 4 NUL , ! : (
        53u8, 43u8, 41u8, 50u8, 36u8, 54u8, 48u8, 49u8,  // 5 + ) 2 $ 6 0 1
        57u8, 63u8, 38u8, 0u8, 46u8, 47u8, 61u8, 0u8,  // 9 ? & NUL . / = NUL
    ]
}

/// Decoding reads [BAUDOT_TO_ASCII]: for every code and each of the two shifts,
/// the printed character and the shift afterwards are the table's entry for the
/// code, in column 0 for letters and 1 for figures.
pub proof fn lemma_decode_reads_table(shift: BaudotShift, code: u8)
    requires
        shift != BaudotShift::Keep,
        code < 32,
    ensures
        BaudotChar(shift, code).decoded() == BAUDOT_TO_ASCII@[code as int]@[if shift
            == BaudotShift::Figs {
            1int
        } else {
            0int
        }],
{
}

/// Decoding prints the ITA-2 character of the code in the shift: the letter in
/// the letters shift and the figure in the figures shift.
pub proof fn lemma_decode_prints_ita2(shift: BaudotShift, code: u8)
    requires
        shift != BaudotShift::Keep,
        code < 32,
    ensures
        BaudotChar(shift, code).decoded().0 == (if shift == BaudotShift::Ltrs {
            ita2_letters()[code as int]
        } else {
            ita2_figures()[code as int]
        }),
{
}

/// Encoding reads [ASCII_TO_BAUDOT]: every byte encodes to its table entry.
pub proof fn lemma_encode_reads_table(ch: u8)
    ensures
        BaudotChar::encoded(ch).0 == ASCII_TO_BAUDOT@[ch as int].0,
        BaudotChar::encoded(ch).1 == ASCII_TO_BAUDOT@[ch as int].1,
{
}

/// How the bytes that do not print as themselves are encoded: the figures-shift
/// codes of `" # $ ' ; _`, ENQ and BEL, the LTRS code for DEL, the format codes
/// for LF, CR and space, and a blank (`Keep`, code 0) for every other byte.
pub open spec fn special_encoding(ch: u8) -> (BaudotShift, u8) {
    if ch == 34 {
        (BaudotShift::Figs, 17)  // " on the code of +
    } else if ch == 35 {
        (BaudotShift::Figs, 20)  // # on the code of $
    } else if ch == 36 {
        (BaudotShift::Figs, 9)  // $ on the ENQ code
    } else if ch == 39 {
        (BaudotShift::Figs, 11)  // ' on the BEL code
    } else if ch == 59 {
        (BaudotShift::Figs, 30)  // ; on the code of =
    } else if ch == 95 {
        (BaudotShift::Figs, 3)  // _ on the code of -
    } else if ch == 5 {
        (BaudotShift::Figs, 18)  // ENQ
    } else if ch == 7 {
        (BaudotShift::Figs, 11)  // BEL
    } else if ch == 127 {
        (BaudotShift::Ltrs, LTRS_CODE)  // DEL
    } else if ch == 10 {
        (BaudotShift::Keep, 2)
    } else if ch == 13 {
        (BaudotShift::Keep, 8)
    } else if ch == 32 {
        (BaudotShift::Keep, 4)
    } else {
        (BaudotShift::Keep, 0)
    }
}

/// Every byte that is not a letter, a digit or punctuation that ITA-2 has is
/// encoded as [special_encoding] says.
pub proof fn lemma_encode_others(ch: u8)
    requires
        !(is_ascii_letter(ch) || is_ascii_digit(ch) || is_ita2_punctuation(ch)),
    ensures
        BaudotChar::encoded(ch).0 == special_encoding(ch).0,
        BaudotChar::encoded(ch).1 == special_encoding(ch).1,
{
}

/// Encoding letters, digits and ITA-2 punctuation gives the one code that prints
/// the character (letters in upper case) in its shift: any code that decodes to
/// it in that shift is the encoded one.
pub proof fn lemma_encode_is_the_printing_code(ch: u8, code: u8)
    requires
        is_ascii_letter(ch) || is_ascii_digit(ch) || is_ita2_punctuation(ch),
        code < 32,
        BaudotChar(BaudotChar::encoded(ch).0, code).decoded().0 == ascii_upper(ch),
    ensures
        BaudotChar::encoded(ch).1 == code,
{
    lemma_round_trip(ch);
    lemma_codes_are_five_bit();
    lemma_decode_injective(BaudotChar::encoded(ch).0, BaudotChar::encoded(ch).1, code);
}

/// A character marked `Keep` decodes to nothing and names no shift, whatever its
/// code.
pub proof fn lemma_decode_keep(code: u8)
    ensures
        BaudotChar(BaudotShift::Keep, code).decoded() == (0u8, BaudotShift::Keep),
{
}

} // verus!
