//! Line-end translation for text that a computer sends to the teleprinter.
//!
//! A teleprinter needs both a carriage return and a line feed to start a new
//! line. Text from the computer may end its lines with a lone LF (or a lone CR);
//! those become CR LF, while line breaks that already are a CR LF (or LF CR)
//! pair pass through as they are.

use vstd::prelude::*;

verus! {

/// Carriage return.
pub const CR: u8 = 13;

/// Line feed.
pub const LF: u8 = 10;

/// Whether `b` is a line-end byte, CR or LF.
pub open spec fn is_line_end(b: u8) -> bool {
    b == CR || b == LF
}

/// Whether `s` starts with a line break that is already complete: a CR LF pair,
/// or an LF CR pair whose CR does not begin a CR LF pair of its own.
pub open spec fn starts_with_pair(s: Seq<u8>) -> bool {
    s.len() >= 2 && ((s[0] == CR && s[1] == LF) || (s[0] == LF && s[1] == CR && !(s.len() >= 3
        && s[2] == LF)))
}

/// The translation of `s`, read from the front: a complete pair is copied, any
/// other line-end byte (a lone one) becomes CR LF, and every other byte is
/// copied.
pub open spec fn translated(s: Seq<u8>) -> Seq<u8>
    decreases s.len(),
{
    if s.len() == 0 {
        seq![]
    } else if starts_with_pair(s) {
        seq![s[0], s[1]] + translated(s.skip(2))
    } else if is_line_end(s[0]) {
        seq![CR, LF] + translated(s.skip(1))
    } else {
        seq![s[0]] + translated(s.skip(1))
    }
}

/// The number of lone line-end bytes in `s`, the ones that become CR LF.
pub open spec fn lone_line_ends(s: Seq<u8>) -> nat
    decreases s.len(),
{
    if s.len() == 0 {
        0
    } else if starts_with_pair(s) {
        lone_line_ends(s.skip(2))
    } else if is_line_end(s[0]) {
        1 + lone_line_ends(s.skip(1))
    } else {
        lone_line_ends(s.skip(1))
    }
}

/// `s` with its line-end bytes left out.
pub open spec fn without_line_ends(s: Seq<u8>) -> Seq<u8>
    decreases s.len(),
{
    if s.len() == 0 {
        seq![]
    } else if is_line_end(s[0]) {
        without_line_ends(s.skip(1))
    } else {
        seq![s[0]] + without_line_ends(s.skip(1))
    }
}

/// `s` with every LF that does not follow a CR replaced by CR LF; `after_cr`
/// says whether the byte before `s` was a CR.
pub open spec fn lone_lf_expanded(after_cr: bool, s: Seq<u8>) -> Seq<u8>
    decreases s.len(),
{
    if s.len() == 0 {
        seq![]
    } else if s[0] == LF && !after_cr {
        seq![CR, LF] + lone_lf_expanded(false, s.skip(1))
    } else {
        seq![s[0]] + lone_lf_expanded(s[0] == CR, s.skip(1))
    }
}

/// The translation is one byte longer than the input for each lone line end.
pub proof fn lemma_translated_len(s: Seq<u8>)
    ensures
        translated(s).len() == s.len() + lone_line_ends(s),
        lone_line_ends(s) <= s.len(),
    decreases s.len(),
{
    if s.len() > 0 {
        if starts_with_pair(s) {
            lemma_translated_len(s.skip(2));
        } else {
            lemma_translated_len(s.skip(1));
        }
    }
}

/// The translation has no lone line ends: every CR or LF in it stands next to
/// the other one of the two.
pub proof fn lemma_line_ends_paired(s: Seq<u8>)
    ensures
        forall|j: int|
            0 <= j < translated(s).len() && is_line_end(#[trigger] translated(s)[j]) ==> (j + 1
                < translated(s).len() && is_line_end(translated(s)[j + 1]) && translated(s)[j
                + 1] != translated(s)[j]) || (j >= 1 && is_line_end(translated(s)[j - 1])
                && translated(s)[j - 1] != translated(s)[j]),
    decreases s.len(),
{
    if s.len() > 0 {
        let t = translated(s);
        let (head, rest) = if starts_with_pair(s) || is_line_end(s[0]) {
            (2int, if starts_with_pair(s) {
                s.skip(2)
            } else {
                s.skip(1)
            })
        } else {
            (1int, s.skip(1))
        };
        lemma_line_ends_paired(rest);
        let tr = translated(rest);
        assert(t == t.take(head) + tr);
        assert forall|j: int|
            0 <= j < t.len() && is_line_end(#[trigger] t[j]) implies (j + 1 < t.len()
            && is_line_end(t[j + 1]) && t[j + 1] != t[j]) || (j >= 1 && is_line_end(t[j - 1])
            && t[j - 1] != t[j]) by {
            if j >= head {
                assert(t[j] == tr[j - head]);
                assert(is_line_end(tr[j - head]));
                if j - head + 1 < tr.len() && is_line_end(tr[j - head + 1]) && tr[j - head + 1]
                    != tr[j - head] {
                    assert(t[j + 1] == tr[j - head + 1]);
                } else {
                    assert(t[j - 1] == tr[j - head - 1]);
                }
            }
        }
    }
}

/// The translation adds and removes line-end bytes only: every other byte of the
/// input is kept, in order.
pub proof fn lemma_other_bytes_kept(s: Seq<u8>)
    ensures
        without_line_ends(translated(s)) == without_line_ends(s),
    decreases s.len(),
{
    if s.len() > 0 {
        let t = translated(s);
        if starts_with_pair(s) {
            let tr = translated(s.skip(2));
            lemma_other_bytes_kept(s.skip(2));
            assert(t.skip(1).skip(1) =~= tr);
            assert(s.skip(1).skip(1) =~= s.skip(2));
            assert(without_line_ends(t) == without_line_ends(t.skip(1)));
            assert(without_line_ends(t.skip(1)) == without_line_ends(t.skip(1).skip(1)));
            assert(without_line_ends(s) == without_line_ends(s.skip(1)));
            assert(without_line_ends(s.skip(1)) == without_line_ends(s.skip(1).skip(1)));
        } else if is_line_end(s[0]) {
            let tr = translated(s.skip(1));
            lemma_other_bytes_kept(s.skip(1));
            assert(t.skip(1).skip(1) =~= tr);
            assert(without_line_ends(t) == without_line_ends(t.skip(1)));
            assert(without_line_ends(t.skip(1)) == without_line_ends(t.skip(1).skip(1)));
        } else {
            lemma_other_bytes_kept(s.skip(1));
            assert(t.skip(1) =~= translated(s.skip(1)));
        }
    }
}

/// A translation begins with an LF only when its input does.
proof fn lemma_translated_first(s: Seq<u8>)
    ensures
        translated(s).len() == 0 <==> s.len() == 0,
        translated(s).len() > 0 && translated(s)[0] == LF ==> s[0] == LF,
{
}

/// Translating translated text changes nothing.
pub proof fn lemma_translate_idempotent(s: Seq<u8>)
    ensures
        translated(translated(s)) == translated(s),
    decreases s.len(),
{
    if s.len() > 0 {
        let t = translated(s);
        if starts_with_pair(s) {
            let r = s.skip(2);
            let tr = translated(r);
            lemma_translate_idempotent(r);
            lemma_translated_first(r);
            assert(t == seq![s[0], s[1]] + tr);
            assert(starts_with_pair(t));
            assert(t.skip(2) =~= tr);
        } else if is_line_end(s[0]) {
            let tr = translated(s.skip(1));
            lemma_translate_idempotent(s.skip(1));
            assert(t == seq![CR, LF] + tr);
            assert(starts_with_pair(t));
            assert(t.skip(2) =~= tr);
        } else {
            let tr = translated(s.skip(1));
            lemma_translate_idempotent(s.skip(1));
            assert(t == seq![s[0]] + tr);
            assert(!starts_with_pair(t));
            assert(t.skip(1) =~= tr);
        }
    }
}

/// Text whose every CR begins a CR LF pair changes only at its lone LFs: each LF
/// that does not follow a CR becomes CR LF, and everything else is copied.
pub proof fn lemma_crlf_text(s: Seq<u8>)
    requires
        forall|i: int| 0 <= i < s.len() && #[trigger] s[i] == CR ==> i + 1 < s.len() && s[i + 1]
            == LF,
    ensures
        translated(s) == lone_lf_expanded(false, s),
    decreases s.len(),
{
    if s.len() > 0 {
        assert forall|i: int| 0 <= i < s.skip(1).len() && #[trigger] s.skip(1)[i] == CR implies i
            + 1 < s.skip(1).len() && s.skip(1)[i + 1] == LF by {
            assert(s[i + 1] == CR);
        }
        lemma_crlf_text(s.skip(1));
        if s[0] == CR {
            assert(s.skip(2) =~= s.skip(1).skip(1));
            assert forall|i: int| 0 <= i < s.skip(2).len() && #[trigger] s.skip(2)[i] == CR implies i
                + 1 < s.skip(2).len() && s.skip(2)[i + 1] == LF by {
                assert(s[i + 2] == CR);
            }
            lemma_crlf_text(s.skip(2));
            assert(lone_lf_expanded(true, s.skip(1)) == seq![LF] + lone_lf_expanded(
                false,
                s.skip(2),
            ));
            assert(seq![CR, LF] + translated(s.skip(2)) =~= seq![CR] + (seq![LF]
                + lone_lf_expanded(false, s.skip(2))));
        } else if s[0] == LF {
            if s.len() >= 2 && s[1] == CR {
                assert(s[2] == LF);
            }
        }
    }
}

/// How translation goes, piece by piece from the front of the text: a CR LF
/// pair is copied; an LF CR pair is copied unless its CR begins a CR LF pair, in
/// which case the LF is lone; a lone LF or CR becomes CR LF; any other byte is
/// copied; and the rest of the text is translated on its own.
pub proof fn lemma_translate_pieces(t: Seq<u8>, b: u8)
    ensures
        translated(seq![CR, LF] + t) == seq![CR, LF] + translated(t),
        (t.len() == 0 || t[0] != LF) ==> translated(seq![LF, CR] + t) == seq![LF, CR]
            + translated(t),
        translated(seq![LF, CR, LF] + t) == seq![CR, LF, CR, LF] + translated(t),
        (is_line_end(b) && (t.len() == 0 || !is_line_end(t[0]) || t[0] == b)) ==> translated(
            seq![b] + t,
        ) == seq![CR, LF] + translated(t),
        !is_line_end(b) ==> translated(seq![b] + t) == seq![b] + translated(t),
{
    assert((seq![CR, LF] + t).skip(2) =~= t);
    assert((seq![LF, CR] + t).skip(2) =~= t);
    assert((seq![b] + t).skip(1) =~= t);
    let u = seq![LF, CR, LF] + t;
    assert(u.skip(1) =~= seq![CR, LF] + t);
    assert(translated(u) == seq![CR, LF] + translated(u.skip(1)));
    assert(seq![CR, LF] + (seq![CR, LF] + translated(t)) =~= seq![CR, LF, CR, LF] + translated(
        t,
    ));
}

/// `s` with every CR replaced by CR LF.
pub open spec fn cr_expanded(s: Seq<u8>) -> Seq<u8>
    decreases s.len(),
{
    if s.len() == 0 {
        seq![]
    } else if s[0] == CR {
        seq![CR, LF] + cr_expanded(s.skip(1))
    } else {
        seq![s[0]] + cr_expanded(s.skip(1))
    }
}

/// Text without LFs changes only at its CRs, each of which becomes CR LF.
pub proof fn lemma_cr_text(s: Seq<u8>)
    requires
        forall|i: int| 0 <= i < s.len() ==> #[trigger] s[i] != LF,
    ensures
        translated(s) == cr_expanded(s),
    decreases s.len(),
{
    if s.len() > 0 {
        assert forall|i: int| 0 <= i < s.skip(1).len() implies #[trigger] s.skip(1)[i] != LF by {
            assert(s[i + 1] != LF);
        }
        lemma_cr_text(s.skip(1));
        if s.len() >= 2 {
            assert(s[1] != LF);
        }
    }
}

/// Translate lone \n sent by the computer to \r\n.
///
/// The first `strlen` bytes of `string` are translated: a line-end byte (LF or
/// CR) that is not part of a CR LF or LF CR pair becomes CR LF, and pairs and all
/// other bytes are copied. Returns the translated bytes, followed by zeros, and
/// their number.
pub fn translate(string: [u8; 32], strlen: usize) -> (r: ([u8; 64], usize))
    requires
        strlen <= 32,
    ensures
        r.0@.take(r.1 as int) == translated(string@.take(strlen as int)),
        r.1 == strlen + lone_line_ends(string@.take(strlen as int)),
        forall|j: int| r.1 <= j < 64 ==> r.0@[j] == 0,
{
    let mut output = [0u8; 64];
    let mut out_len: usize = 0;
    let mut idx: usize = 0;
    let ghost s = string@.take(strlen as int);
    proof {
        lemma_translated_len(s);
        assert(s.skip(0) =~= s);
    }
    while idx < strlen
        invariant
            strlen <= 32,
            s == string@.take(strlen as int),
            idx <= strlen,
            idx <= out_len <= 2 * idx,
            output@.len() == 64,
            translated(s) == output@.take(out_len as int) + translated(s.skip(idx as int)),
            out_len + lone_line_ends(s.skip(idx as int)) + (strlen - idx) == strlen
                + lone_line_ends(s),
            forall|j: int| out_len <= j < 64 ==> output@[j] == 0,
        decreases strlen - idx,
    {
        let ghost rest = s.skip(idx as int);
        let ghost before = output@;
        let c = string[idx];
        assert(rest[0] == c);
        let pair = c == CR && idx + 1 < strlen && string[idx + 1] == LF || c == LF && idx + 1
            < strlen && string[idx + 1] == CR && !(idx + 2 < strlen && string[idx + 2] == LF);
        proof {
            if idx + 1 < strlen {
                assert(rest[1] == string@[idx + 1]);
            }
            if idx + 2 < strlen {
                assert(rest[2] == string@[idx + 2]);
            }
            assert(pair == starts_with_pair(rest));
            lemma_translated_len(rest);
        }
        if pair {
            let next = string[idx + 1];
            output[out_len] = c;
            output[out_len + 1] = next;
            assert(rest.skip(2) =~= s.skip(idx + 2));
            assert(output@.take(out_len + 2) =~= before.take(out_len as int) + seq![c, next]);
            out_len = out_len + 2;
            idx = idx + 2;
        } else if c == LF || c == CR {
            output[out_len] = CR;
            output[out_len + 1] = LF;
            assert(rest.skip(1) =~= s.skip(idx + 1));
            assert(output@.take(out_len + 2) =~= before.take(out_len as int) + seq![CR, LF]);
            out_len = out_len + 2;
            idx = idx + 1;
        } else {
            output[out_len] = c;
            assert(rest.skip(1) =~= s.skip(idx + 1));
            assert(output@.take(out_len + 1) =~= before.take(out_len as int) + seq![c]);
            out_len = out_len + 1;
            idx = idx + 1;
        }
    }
    assert(s.skip(strlen as int) =~= Seq::<u8>::empty());
    assert(translated(s) =~= output@.take(out_len as int));
    (output, out_len)
}

} // verus!
