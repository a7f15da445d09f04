//! What texts of ARIB STD-B24 show: by the bytes, the code elements and the
//! characters of the sets.

use crate::arib_b24::{
    behind, builtin_tables, decode, decoded, decoded_from, euc_jp_decoding, graphic, initial_state,
    plane2_row, state_behind, step, CharSet, DecoderView, TablesView,
};
use vstd::prelude::*;

verus! {

// ---- Sets ------------------------------------------------------------------

/// The marks that both kana sets end with.
pub open spec fn kana_mark(k: int) -> Seq<char> {
    if k == 0 {
        seq!['ー']
    } else if k == 1 {
        seq!['。']
    } else if k == 2 {
        seq!['「']
    } else if k == 3 {
        seq!['」']
    } else if k == 4 {
        seq!['、']
    } else if k == 5 {
        seq!['・']
    } else {
        Seq::empty()
    }
}

/// What the cell `k` of a one-byte set shows, from 0 to 93: `ぁ` to `ゔ`, `ゝ`, `ゞ`
/// and the marks; `ァ` to `ヶ`, `ヽ`, `ヾ` and the marks; `!` to `~`; `｡` to `ﾟ`; and a
/// geta mark for what the broadcaster draws. A cell that is empty shows nothing.
pub open spec fn shown_in(cs: CharSet, k: int) -> Seq<char> {
    match cs {
        CharSet::Hiragana => if k < 84 {
            seq![(0x3041 + k) as char]
        } else if k == 84 {
            seq!['ゝ']
        } else if k == 85 {
            seq!['ゞ']
        } else {
            kana_mark(k - 86)
        },
        CharSet::Katakana => if k < 86 {
            seq![(0x30a1 + k) as char]
        } else if k == 86 {
            seq!['ヽ']
        } else if k == 87 {
            seq!['ヾ']
        } else {
            kana_mark(k - 88)
        },
        CharSet::Alphanumeric => seq![(0x21 + k) as char],
        CharSet::HalfKatakana => if k < 63 {
            seq![(0xff61 + k) as char]
        } else {
            Seq::empty()
        },
        _ => seq!['〓'],
    }
}

pub open spec fn is_one_byte(cs: CharSet) -> bool {
    cs == CharSet::Hiragana || cs == CharSet::Katakana || cs == CharSet::Alphanumeric || cs
        == CharSet::HalfKatakana || cs == CharSet::Drcs
}

/// The text of bytes of a one-byte set, where `first` is the byte of its first
/// cell.
pub open spec fn run_text(cs: CharSet, run: Seq<u8>, first: int) -> Seq<char>
    decreases run.len(),
{
    if run.len() == 0 {
        Seq::empty()
    } else {
        shown_in(cs, run[0] - first) + run_text(cs, run.skip(1), first)
    }
}

/// A code point as a character, a geta mark where there is none.
pub open spec fn point_text(cp: u32) -> Seq<char> {
    if cp == 0 || 0xd800 <= cp < 0xe000 || cp > 0x10ffff {
        seq!['〓']
    } else {
        seq![cp as char]
    }
}

/// The row of plane 2, counted from 1, that stands at place `r` in its table: the
/// rows 1, 3, 4, 5, 8, 12 to 15 and 78 to 94.
pub open spec fn plane2_row_at(r: int) -> int {
    if r == 0 {
        1
    } else if r < 4 {
        r + 2
    } else if r == 4 {
        8
    } else if r < 9 {
        r + 7
    } else {
        r + 69
    }
}

/// Whether the two bytes of row `row` and column `column` of a two-byte set, both
/// counted from 1, show `text`.
pub open spec fn pair_shows(
    t: TablesView,
    cs: CharSet,
    row: int,
    column: int,
    text: Seq<char>,
) -> bool {
    match cs {
        CharSet::Kanji => {
            let (chars, wrong) = euc_jp_decoding(
                seq![(0xa0 + row) as u8, (0xa0 + column) as u8],
            );
            text == (if wrong {
                seq!['〓']
            } else if chars.len() == 0 {
                Seq::empty()
            } else if chars[0] == '\u{fffd}' {
                seq!['〓']
            } else {
                chars.take(1)
            })
        },
        CharSet::AribSymbol => {
            let at = (row - 90) * 94 + column - 1;
            text == (if 90 <= row && at < t.additional.len() {
                point_text(t.additional[at])
            } else {
                seq!['〓']
            })
        },
        _ => {
            &&& forall|r: int|
                0 <= r < t.plane2.len() && r < 26 && #[trigger] plane2_row_at(r) == row ==> text
                    == (if column - 1 < t.plane2[r].len() {
                    point_text(t.plane2[r][column - 1])
                } else {
                    seq!['〓']
                })
            &&& (forall|r: int| 0 <= r < t.plane2.len() && r < 26 ==> #[trigger] plane2_row_at(r) != row)
                ==> text == seq!['〓']
        },
    }
}

/// The set that the final byte of a designation names.
pub open spec fn names_set(two_byte: bool, f: u8, cs: CharSet) -> bool {
    let drawn = 0x40 <= f <= 0x4f || f == 0x70;
    match cs {
        CharSet::Hiragana => !two_byte && (f == 0x30 || f == 0x37),
        CharSet::Katakana => !two_byte && (f == 0x31 || f == 0x38),
        CharSet::HalfKatakana => !two_byte && f == 0x49,
        CharSet::Alphanumeric => !two_byte && (f == 0x4a || f == 0x36 || f == 0x4b || f == 0x4c),
        CharSet::JisPlane2 => two_byte && f == 0x3a,
        CharSet::AribSymbol => two_byte && f == 0x3b,
        CharSet::Drcs => if two_byte {
            drawn && f != 0x42
        } else {
            drawn && !(0x49 <= f <= 0x4c)
        },
        CharSet::Kanji => if two_byte {
            f == 0x42 || f != 0x3a && f != 0x3b && !drawn
        } else {
            !drawn && !(f == 0x30 || f == 0x31 || 0x36 <= f <= 0x38)
        },
    }
}

// ---- Escape sequences ------------------------------------------------------

/// The bytes that show the element `k` in the left half from here on.
pub open spec fn shift_left(k: int) -> Seq<u8> {
    if k == 0 {
        seq![0x0fu8]
    } else if k == 1 {
        seq![0x0eu8]
    } else if k == 2 {
        seq![0x1bu8, 0x6e]
    } else {
        seq![0x1bu8, 0x6f]
    }
}

/// The bytes that show the element `k` in the right half from here on; G0 has
/// none.
pub open spec fn shift_right(k: int) -> Seq<u8> {
    if k == 1 {
        seq![0x1bu8, 0x7e]
    } else if k == 2 {
        seq![0x1bu8, 0x7d]
    } else {
        seq![0x1bu8, 0x7c]
    }
}

/// The bytes that put the set with the final byte `f` into the element `i`.
pub open spec fn designation(i: int, two_byte: bool, f: u8) -> Seq<u8> {
    if two_byte {
        seq![0x1bu8, 0x24, (0x28 + i) as u8, f]
    } else {
        seq![0x1bu8, (0x28 + i) as u8, f]
    }
}

/// The short form of a designation of a two-byte set to G0.
pub open spec fn short_designation(f: u8) -> Seq<u8> {
    seq![0x1bu8, 0x24, f]
}

pub open spec fn all_left(run: Seq<u8>) -> bool {
    forall|i: int| 0 <= i < run.len() ==> 0x21 <= #[trigger] run[i] <= 0x7e
}

pub open spec fn all_right(run: Seq<u8>) -> bool {
    forall|i: int| 0 <= i < run.len() ==> 0xa1 <= #[trigger] run[i] <= 0xfe
}

/// Whether a state is one that a decoder can be in.
pub open spec fn is_state(st: DecoderView) -> bool {
    &&& st.g.len() == 4 && st.gl < 4 && st.gr < 4
    &&& st.gl_single matches Some(i) ==> i < 4
    &&& st.row matches Some(ku) ==> ku < 94
}

// ---- Steps -----------------------------------------------------------------

proof fn lemma_first_byte(t: TablesView, st: DecoderView, b: u8, rest: Seq<u8>)
    ensures
        ({
            let s = step(t, st, b, rest);
            decoded_from(t, st, seq![b] + rest) == s.text + decoded_from(
                t,
                s.state,
                behind(rest, s.used),
            )
        }),
{
    let input = seq![b] + rest;
    let s = step(t, st, b, rest);
    assert(input.skip(1) =~= rest);
    assert(behind(input, 1 + s.used) =~= behind(rest, s.used));
}

proof fn lemma_behind_part(part: Seq<u8>, rest: Seq<u8>)
    ensures
        behind(part + rest, part.len()) == rest,
{
    assert(behind(part + rest, part.len()) =~= rest);
}

/// A silent control: its parameters are skipped.
proof fn lemma_silent_control(
    t: TablesView,
    st: DecoderView,
    b: u8,
    parameters: Seq<u8>,
    rest: Seq<u8>,
    after: DecoderView,
)
    requires
        ({
            let s = step(t, st, b, parameters + rest);
            s.text.len() == 0 && s.used == parameters.len() && s.state == after
        }),
    ensures
        decoded_from(t, st, seq![b] + parameters + rest) == decoded_from(t, after, rest),
{
    lemma_first_byte(t, st, b, parameters + rest);
    lemma_behind_part(parameters, rest);
    assert(seq![b] + (parameters + rest) =~= seq![b] + parameters + rest);
    assert(Seq::<char>::empty() + decoded_from(t, after, rest) =~= decoded_from(t, after, rest));
    assert(step(t, st, b, parameters + rest).text =~= Seq::<char>::empty());
}

/// A locking shift shows an element in a half of the code table, whatever was
/// shown there before, and drops a first byte that waits for its second.
#[verifier::rlimit(60)]
pub proof fn law_locking_shifts(t: TablesView, st: DecoderView, k: int, rest: Seq<u8>)
    requires
        0 <= k < 4,
    ensures
        decoded_from(t, st, shift_left(k) + rest) == decoded_from(
            t,
            DecoderView { gl: k as nat, row: None, ..st },
            rest,
        ),
        k > 0 ==> decoded_from(t, st, shift_right(k) + rest) == decoded_from(
            t,
            DecoderView { gr: k as nat, row: None, ..st },
            rest,
        ),
{
    let left = DecoderView { gl: k as nat, row: None, ..st };
    let right = DecoderView { gr: k as nat, row: None, ..st };
    let none = Seq::<u8>::empty();
    assert(none + rest =~= rest);
    if k == 0 {
        lemma_silent_control(t, st, 0x0f, none, rest, left);
        assert(seq![0x0fu8] + none =~= shift_left(k));
    } else if k == 1 {
        lemma_silent_control(t, st, 0x0e, none, rest, left);
        assert(seq![0x0eu8] + none =~= shift_left(k));
    } else if k == 2 {
        lemma_silent_control(t, st, 0x1b, seq![0x6eu8], rest, left);
        assert(seq![0x1bu8] + seq![0x6eu8] =~= shift_left(k));
    } else {
        lemma_silent_control(t, st, 0x1b, seq![0x6fu8], rest, left);
        assert(seq![0x1bu8] + seq![0x6fu8] =~= shift_left(k));
    }
    if k == 1 {
        lemma_silent_control(t, st, 0x1b, seq![0x7eu8], rest, right);
        assert(seq![0x1bu8] + seq![0x7eu8] =~= shift_right(k));
    } else if k == 2 {
        lemma_silent_control(t, st, 0x1b, seq![0x7du8], rest, right);
        assert(seq![0x1bu8] + seq![0x7du8] =~= shift_right(k));
    } else if k == 3 {
        lemma_silent_control(t, st, 0x1b, seq![0x7cu8], rest, right);
        assert(seq![0x1bu8] + seq![0x7cu8] =~= shift_right(k));
    }
}

/// A designation puts the set that its final byte names into the element that it
/// names, and nothing else.
#[verifier::rlimit(60)]
pub proof fn law_designations(
    t: TablesView,
    st: DecoderView,
    i: int,
    two_byte: bool,
    f: u8,
    cs: CharSet,
    rest: Seq<u8>,
)
    requires
        0 <= i < 4,
        names_set(two_byte, f, cs),
    ensures
        decoded_from(t, st, designation(i, two_byte, f) + rest) == decoded_from(
            t,
            DecoderView { g: st.g.update(i, cs), row: None, ..st },
            rest,
        ),
        two_byte && !(0x28 <= f <= 0x2b) ==> decoded_from(t, st, short_designation(f) + rest)
            == decoded_from(t, DecoderView { g: st.g.update(0, cs), row: None, ..st }, rest),
{
    let after = DecoderView { g: st.g.update(i, cs), row: None, ..st };
    if two_byte {
        let p = seq![0x24u8, (0x28 + i) as u8, f];
        assert((p + rest)[0] == 0x24 && (p + rest)[1] == 0x28 + i && (p + rest)[2] == f);
        lemma_silent_control(t, st, 0x1b, p, rest, after);
        assert(seq![0x1bu8] + p =~= designation(i, two_byte, f));
        if !(0x28 <= f <= 0x2b) {
            let q = seq![0x24u8, f];
            assert((q + rest)[0] == 0x24 && (q + rest)[1] == f);
            lemma_silent_control(
                t,
                st,
                0x1b,
                q,
                rest,
                DecoderView { g: st.g.update(0, cs), row: None, ..st },
            );
            assert(seq![0x1bu8] + q =~= short_designation(f));
        }
    } else {
        let p = seq![(0x28 + i) as u8, f];
        assert((p + rest)[0] == 0x28 + i && (p + rest)[1] == f);
        lemma_silent_control(t, st, 0x1b, p, rest, after);
        assert(seq![0x1bu8] + p =~= designation(i, two_byte, f));
    }
}

proof fn lemma_one_byte_cell(t: TablesView, st: DecoderView, cs: CharSet, k: u8, rest: Seq<u8>)
    requires
        is_one_byte(cs),
        k < 94,
    ensures
        graphic(t, st, cs, k, rest).text == shown_in(cs, k as int),
        graphic(t, st, cs, k, rest).state == (DecoderView { row: None, ..st }),
        graphic(t, st, cs, k, rest).used == 0,
{
    assert(graphic(t, st, cs, k, rest).text =~= shown_in(cs, k as int));
}

/// Bytes of the left half show the cells of the one-byte set that is shifted in
/// there, one character each, in order.
pub proof fn law_left_half(t: TablesView, st: DecoderView, run: Seq<u8>, rest: Seq<u8>)
    requires
        is_state(st),
        st.gl_single is None,
        st.row is None,
        is_one_byte(st.g[st.gl as int]),
        all_left(run),
    ensures
        decoded_from(t, st, run + rest) == run_text(st.g[st.gl as int], run, 0x21) + decoded_from(
            t,
            st,
            rest,
        ),
    decreases run.len(),
{
    let cs = st.g[st.gl as int];
    if run.len() == 0 {
        assert(run + rest =~= rest);
        assert(run_text(cs, run, 0x21) + decoded_from(t, st, rest) =~= decoded_from(t, st, rest));
    } else {
        let b = run[0];
        let more = run.skip(1) + rest;
        assert(run + rest =~= seq![b] + more);
        lemma_first_byte(t, st, b, more);
        lemma_one_byte_cell(
            t,
            DecoderView { gl_single: None, ..st },
            cs,
            (b - 0x21) as u8,
            more,
        );
        assert(behind(more, 0) =~= more);
        assert forall|i: int| 0 <= i < run.skip(1).len() implies 0x21 <= #[trigger] run.skip(1)[i]
            <= 0x7e by {
            assert(run.skip(1)[i] == run[i + 1]);
        }
        law_left_half(t, st, run.skip(1), rest);
        assert(run_text(cs, run, 0x21) + decoded_from(t, st, rest) =~= shown_in(cs, b - 0x21) + (
        run_text(cs, run.skip(1), 0x21) + decoded_from(t, st, rest)));
    }
}

/// Bytes of the right half show the cells of the one-byte set that is shifted in
/// there, one character each, in order.
pub proof fn law_right_half(t: TablesView, st: DecoderView, run: Seq<u8>, rest: Seq<u8>)
    requires
        is_state(st),
        st.row is None,
        is_one_byte(st.g[st.gr as int]),
        all_right(run),
    ensures
        decoded_from(t, st, run + rest) == run_text(st.g[st.gr as int], run, 0xa1) + decoded_from(
            t,
            st,
            rest,
        ),
    decreases run.len(),
{
    let cs = st.g[st.gr as int];
    if run.len() == 0 {
        assert(run + rest =~= rest);
        assert(run_text(cs, run, 0xa1) + decoded_from(t, st, rest) =~= decoded_from(t, st, rest));
    } else {
        let b = run[0];
        let more = run.skip(1) + rest;
        assert(run + rest =~= seq![b] + more);
        lemma_first_byte(t, st, b, more);
        lemma_one_byte_cell(t, st, cs, (b - 0xa1) as u8, more);
        assert(behind(more, 0) =~= more);
        assert forall|i: int| 0 <= i < run.skip(1).len() implies 0xa1 <= #[trigger] run.skip(1)[i]
            <= 0xfe by {
            assert(run.skip(1)[i] == run[i + 1]);
        }
        law_right_half(t, st, run.skip(1), rest);
        assert(run_text(cs, run, 0xa1) + decoded_from(t, st, rest) =~= shown_in(cs, b - 0xa1) + (
        run_text(cs, run.skip(1), 0xa1) + decoded_from(t, st, rest)));
    }
}

/// Behind a locking shift the bytes of its half show the element that it is
/// defined to show. A text starts with kanji, alphanumerics, hiragana and katakana
/// in the elements, kanji on the left and hiragana on the right.
#[verifier::rlimit(40)]
pub proof fn law_shifted_texts(t: TablesView, left: Seq<u8>, right: Seq<u8>)
    requires
        all_left(left),
        all_right(right),
    ensures
        decoded(t, right) == run_text(CharSet::Hiragana, right, 0xa1),
        decoded(t, seq![0x1bu8, 0x7c] + right) == run_text(CharSet::Katakana, right, 0xa1),
        decoded(t, seq![0x1bu8, 0x7d] + right) == run_text(CharSet::Hiragana, right, 0xa1),
        decoded(t, seq![0x1bu8, 0x7e] + right) == run_text(CharSet::Alphanumeric, right, 0xa1),
        decoded(t, seq![0x0eu8] + left) == run_text(CharSet::Alphanumeric, left, 0x21),
        decoded(t, seq![0x1bu8, 0x6e] + left) == run_text(CharSet::Hiragana, left, 0x21),
        decoded(t, seq![0x1bu8, 0x6f] + left) == run_text(CharSet::Katakana, left, 0x21),
{
    let st = initial_state();
    let none = Seq::<u8>::empty();
    assert(right + none =~= right);
    assert(left + none =~= left);
    law_right_half(t, st, right, none);
    assert forall|k: int| 1 <= k < 4 implies #[trigger] decoded(t, shift_right(k) + right)
        == run_text(st.g[k], right, 0xa1) by {
        let after = DecoderView { gr: k as nat, row: None, ..st };
        law_locking_shifts(t, st, k, right);
        law_right_half(t, after, right, none);
        assert(run_text(st.g[k], right, 0xa1) + Seq::<char>::empty() =~= run_text(
            st.g[k],
            right,
            0xa1,
        ));
    }
    assert forall|k: int| 1 <= k < 4 implies #[trigger] decoded(t, shift_left(k) + left)
        == run_text(st.g[k], left, 0x21) by {
        let after = DecoderView { gl: k as nat, row: None, ..st };
        law_locking_shifts(t, st, k, left);
        law_left_half(t, after, left, none);
        assert(run_text(st.g[k], left, 0x21) + Seq::<char>::empty() =~= run_text(
            st.g[k],
            left,
            0x21,
        ));
    }
    assert(run_text(CharSet::Hiragana, right, 0xa1) + Seq::<char>::empty() =~= run_text(
        CharSet::Hiragana,
        right,
        0xa1,
    ));
    assert(decoded(t, shift_right(1) + right) == run_text(st.g[1], right, 0xa1));
    assert(decoded(t, shift_right(2) + right) == run_text(st.g[2], right, 0xa1));
    assert(decoded(t, shift_right(3) + right) == run_text(st.g[3], right, 0xa1));
    assert(decoded(t, shift_left(1) + left) == run_text(st.g[1], left, 0x21));
    assert(decoded(t, shift_left(2) + left) == run_text(st.g[2], left, 0x21));
    assert(decoded(t, shift_left(3) + left) == run_text(st.g[3], left, 0x21));
}

/// Whichever one-byte set is put into whichever element, its cells are shown when
/// that element is shifted in, in either half, whatever came before.
#[verifier::rlimit(40)]
pub proof fn law_designated_texts(
    t: TablesView,
    st: DecoderView,
    i: int,
    f: u8,
    cs: CharSet,
    left: Seq<u8>,
    right: Seq<u8>,
    rest: Seq<u8>,
)
    requires
        is_state(st),
        st.gl_single is None,
        0 <= i < 4,
        is_one_byte(cs),
        names_set(false, f, cs),
        all_left(left),
        all_right(right),
    ensures
        decoded_from(t, st, designation(i, false, f) + (shift_left(i) + (left + rest)))
            == run_text(cs, left, 0x21) + decoded_from(
            t,
            DecoderView { g: st.g.update(i, cs), gl: i as nat, row: None, ..st },
            rest,
        ),
        i > 0 ==> decoded_from(t, st, designation(i, false, f) + (shift_right(i) + (right + rest)))
            == run_text(cs, right, 0xa1) + decoded_from(
            t,
            DecoderView { g: st.g.update(i, cs), gr: i as nat, row: None, ..st },
            rest,
        ),
{
    let put = DecoderView { g: st.g.update(i, cs), row: None, ..st };
    law_designations(t, st, i, false, f, cs, shift_left(i) + (left + rest));
    law_locking_shifts(t, put, i, left + rest);
    law_left_half(t, DecoderView { gl: i as nat, row: None, ..put }, left, rest);
    if i > 0 {
        law_designations(t, st, i, false, f, cs, shift_right(i) + (right + rest));
        law_locking_shifts(t, put, i, right + rest);
        law_right_half(t, DecoderView { gr: i as nat, row: None, ..put }, right, rest);
    }
}

/// A single shift shows its element for the next character of the left half, and
/// for no other.
pub proof fn law_single_shifts(t: TablesView, st: DecoderView, b: u8, rest: Seq<u8>)
    requires
        is_state(st),
        0x21 <= b <= 0x7e,
    ensures
        is_one_byte(st.g[2]) ==> decoded_from(t, st, seq![0x19u8, b] + rest) == shown_in(
            st.g[2],
            b - 0x21,
        ) + decoded_from(t, DecoderView { gl_single: None, row: None, ..st }, rest),
        is_one_byte(st.g[3]) ==> decoded_from(t, st, seq![0x1du8, b] + rest) == shown_in(
            st.g[3],
            b - 0x21,
        ) + decoded_from(t, DecoderView { gl_single: None, row: None, ..st }, rest),
{
    let none = Seq::<u8>::empty();
    let more = seq![b] + rest;
    let second = DecoderView { gl_single: Some(2), row: None, ..st };
    let third = DecoderView { gl_single: Some(3), row: None, ..st };
    let after = DecoderView { gl_single: None, row: None, ..st };
    assert(none + more =~= more);
    assert(behind(rest, 0) =~= rest);
    assert(seq![0x19u8] + none + more =~= seq![0x19u8, b] + rest);
    assert(seq![0x1du8] + none + more =~= seq![0x1du8, b] + rest);
    lemma_silent_control(t, st, 0x19, none, more, second);
    lemma_silent_control(t, st, 0x1d, none, more, third);
    lemma_first_byte(t, second, b, rest);
    lemma_first_byte(t, third, b, rest);
    if is_one_byte(st.g[2]) {
        lemma_one_byte_cell(t, after, st.g[2], (b - 0x21) as u8, rest);
    }
    if is_one_byte(st.g[3]) {
        lemma_one_byte_cell(t, after, st.g[3], (b - 0x21) as u8, rest);
    }
}

proof fn lemma_plane2_place(ku: u8, r: int)
    requires
        0 <= r < 26,
    ensures
        plane2_row(ku) == Some(r) <==> plane2_row_at(r) == ku + 1,
        plane2_row(ku) matches Some(q) ==> 0 <= q < 26,
{
}

#[verifier::rlimit(40)]
proof fn lemma_pair(
    t: TablesView,
    st: DecoderView,
    cs: CharSet,
    ku: u8,
    ten: u8,
    rest: Seq<u8>,
)
    requires
        !is_one_byte(cs),
        ku < 94,
        ten < 94,
        st.row == Some(ku),
    ensures
        pair_shows(t, cs, ku + 1, ten + 1, graphic(t, st, cs, ten, rest).text),
        graphic(t, st, cs, ten, rest).state == (DecoderView { row: None, ..st }),
        graphic(t, st, cs, ten, rest).used == 0,
{
    let text = graphic(t, st, cs, ten, rest).text;
    match cs {
        CharSet::Kanji => {
            let pair = seq![(0xa0 + (ku + 1)) as u8, (0xa0 + (ten + 1)) as u8];
            assert(crate::arib_b24::euc_pair(ku, ten) =~= pair);
            let (chars, wrong) = euc_jp_decoding(pair);
            if !wrong && chars.len() > 0 {
                assert(chars.take(1) =~= seq![chars[0]]);
            }
            assert(text =~= (if wrong {
                seq!['〓']
            } else if chars.len() == 0 {
                Seq::empty()
            } else if chars[0] == '\u{fffd}' {
                seq!['〓']
            } else {
                chars.take(1)
            }));
        },
        CharSet::AribSymbol => {},
        _ => {
            assert forall|r: int| 0 <= r < 26 implies (plane2_row(ku) == Some(r)
                <==> #[trigger] plane2_row_at(r) == ku + 1) by {
                lemma_plane2_place(ku, r);
            }
            if let Some(q) = plane2_row(ku) {
                lemma_plane2_place(ku, 0);
                assert(plane2_row_at(q) == ku + 1);
            }
        },
    }
}

/// Two bytes of a two-byte set show the character of their row and column, in
/// either half, whatever text stands behind them.
#[verifier::rlimit(40)]
pub proof fn law_two_byte_characters(
    t: TablesView,
    st: DecoderView,
    row: int,
    column: int,
    rest: Seq<u8>,
)
    requires
        is_state(st),
        st.row is None,
        st.gl_single is None,
        1 <= row <= 94,
        1 <= column <= 94,
    ensures
        !is_one_byte(st.g[st.gl as int]) ==> exists|text: Seq<char>|
            {
                &&& #[trigger] pair_shows(t, st.g[st.gl as int], row, column, text)
                &&& decoded_from(t, st, seq![(0x20 + row) as u8, (0x20 + column) as u8] + rest)
                    == text + decoded_from(t, st, rest)
            },
        !is_one_byte(st.g[st.gr as int]) ==> exists|text: Seq<char>|
            {
                &&& #[trigger] pair_shows(t, st.g[st.gr as int], row, column, text)
                &&& decoded_from(t, st, seq![(0xa0 + row) as u8, (0xa0 + column) as u8] + rest)
                    == text + decoded_from(t, st, rest)
            },
{
    let ku = (row - 1) as u8;
    let ten = (column - 1) as u8;
    let waiting = DecoderView { row: Some(ku), ..st };
    assert(behind(rest, 0) =~= rest);
    let a = (0x20 + row) as u8;
    let b = (0x20 + column) as u8;
    let left = st.g[st.gl as int];
    if !is_one_byte(left) {
        let more = seq![b] + rest;
        assert(seq![a, b] + rest =~= seq![a] + more);
        assert(behind(more, 0) =~= more);
        lemma_first_byte(t, st, a, more);
        lemma_first_byte(t, waiting, b, rest);
        lemma_pair(t, waiting, left, ku, ten, rest);
        let text = graphic(t, waiting, left, ten, rest).text;
        assert(Seq::<char>::empty() + decoded_from(t, waiting, more) =~= decoded_from(
            t,
            waiting,
            more,
        ));
        assert(pair_shows(t, left, row, column, text));
    }
    let c = (0xa0 + row) as u8;
    let d = (0xa0 + column) as u8;
    let right = st.g[st.gr as int];
    if !is_one_byte(right) {
        let more = seq![d] + rest;
        assert(seq![c, d] + rest =~= seq![c] + more);
        assert(behind(more, 0) =~= more);
        lemma_first_byte(t, st, c, more);
        lemma_first_byte(t, waiting, d, rest);
        lemma_pair(t, waiting, right, ku, ten, rest);
        let text = graphic(t, waiting, right, ten, rest).text;
        assert(Seq::<char>::empty() + decoded_from(t, waiting, more) =~= decoded_from(
            t,
            waiting,
            more,
        ));
        assert(pair_shows(t, right, row, column, text));
    }
}

/// The first byte of a kanji with no second byte behind it shows nothing and
/// spoils nothing.
#[verifier::rlimit(40)]
pub proof fn law_orphans_show_nothing(t: TablesView, st: DecoderView, b: u8, rest: Seq<u8>)
    requires
        is_state(st),
        st.row is None,
        st.gl_single is None,
        rest.len() > 0 ==> !(0x21 <= rest[0] <= 0x7e) && !(0xa1 <= rest[0] <= 0xfe),
    ensures
        0x21 <= b <= 0x7e && st.g[st.gl as int] == CharSet::Kanji ==> decoded_from(
            t,
            st,
            seq![b] + rest,
        ) == decoded_from(t, st, rest),
        0xa1 <= b <= 0xfe && st.g[st.gr as int] == CharSet::Kanji ==> decoded_from(
            t,
            st,
            seq![b] + rest,
        ) == decoded_from(t, st, rest),
{
    lemma_first_byte(t, st, b, rest);
    assert(behind(rest, 0) =~= rest);
    assert(Seq::<char>::empty() + decoded_from(t, st, rest) =~= decoded_from(t, st, rest));
    assert(rest.len() == 0 ==> decoded_from(t, DecoderView { row: Some((b - 0x21) as u8), ..st }, rest)
        =~= Seq::<char>::empty());
}

/// A line break, of either kind, is a line break; a space is a wide one; delete
/// and the ends of the right half are nothing. None of them changes a set.
pub proof fn law_plain_controls(t: TablesView, st: DecoderView, b: u8, rest: Seq<u8>)
    ensures
        b == 0x0a || b == 0x0d ==> decoded_from(t, st, seq![b] + rest) == seq!['\n']
            + decoded_from(t, DecoderView { row: None, ..st }, rest),
        b == 0x20 ==> decoded_from(t, st, seq![b] + rest) == seq!['\u{3000}'] + decoded_from(
            t,
            st,
            rest,
        ),
        b == 0x7f || b == 0xa0 || b == 0xff ==> decoded_from(t, st, seq![b] + rest)
            == decoded_from(t, st, rest),
        b < 0x20 && b != 0x0a && b != 0x0d && b != 0x0e && b != 0x0f && b != 0x19 && b != 0x1d && b
            != 0x1b ==> decoded_from(t, st, seq![b] + rest) == decoded_from(
            t,
            DecoderView { row: None, ..st },
            rest,
        ),
{
    lemma_first_byte(t, st, b, rest);
    assert(behind(rest, 0) =~= rest);
    assert(Seq::<char>::empty() + decoded_from(t, st, rest) =~= decoded_from(t, st, rest));
    let plain = DecoderView { row: None, ..st };
    assert(Seq::<char>::empty() + decoded_from(t, plain, rest) =~= decoded_from(t, plain, rest));
}

/// Whether bytes are the parameters of a formatting control.
pub open spec fn are_parameters(b: u8, p: Seq<u8>) -> bool {
    if b == 0x90 {
        p.len() == 2 && (p[0] == 0x20 || p[0] == 0x28 || p[0] == 0x30 || p[0] == 0x38) || p.len()
            == 1 && p[0] != 0x20 && p[0] != 0x28 && p[0] != 0x30 && p[0] != 0x38
    } else if b == 0x9d {
        p.len() == 2 && p[0] == 0x20 || p.len() == 1 && p[0] != 0x20
    } else if b == 0x9b {
        &&& p.len() >= 1
        &&& 0x40 <= p.last() <= 0x7e
        &&& forall|i: int| 0 <= i < p.len() - 1 ==> !(0x40 <= #[trigger] p[i] <= 0x7e)
    } else if b == 0x8b || b == 0x91 || b == 0x93 || b == 0x94 || b == 0x97 || b == 0x98 {
        p.len() == 1
    } else {
        p.len() == 0
    }
}

proof fn lemma_csi(p: Seq<u8>, rest: Seq<u8>)
    requires
        are_parameters(0x9b, p),
    ensures
        crate::arib_b24::csi_len(p + rest) == p.len(),
    decreases p.len(),
{
    let all = p + rest;
    if p.len() > 1 {
        assert(all[0] == p[0]);
        assert(all.skip(1) =~= p.skip(1) + rest);
        assert forall|i: int| 0 <= i < p.skip(1).len() - 1 implies !(0x40 <= #[trigger] p.skip(1)[i]
            <= 0x7e) by {
            assert(p.skip(1)[i] == p[i + 1]);
        }
        lemma_csi(p.skip(1), rest);
    } else {
        assert(all[0] == p[0]);
    }
}

/// A formatting control shows nothing, and neither do its parameters.
pub proof fn law_formatting_shows_nothing(
    t: TablesView,
    st: DecoderView,
    b: u8,
    parameters: Seq<u8>,
    rest: Seq<u8>,
)
    requires
        0x80 <= b <= 0x9f,
        are_parameters(b, parameters),
    ensures
        decoded_from(t, st, seq![b] + parameters + rest) == decoded_from(
            t,
            DecoderView { row: None, ..st },
            rest,
        ),
{
    let all = parameters + rest;
    assert(parameters.len() > 0 ==> all[0] == parameters[0]);
    if b == 0x9b {
        lemma_csi(parameters, rest);
    }
    lemma_silent_control(t, st, b, parameters, rest, DecoderView { row: None, ..st });
}

/// An escape that is neither a shift nor a designation shows nothing.
pub proof fn law_other_escapes_show_nothing(t: TablesView, st: DecoderView, x: u8, rest: Seq<u8>)
    requires
        x != 0x24 && !(0x28 <= x <= 0x2b) && x != 0x6e && x != 0x6f && !(0x7c <= x <= 0x7e),
    ensures
        decoded_from(t, st, seq![0x1bu8, x] + rest) == decoded_from(
            t,
            DecoderView { row: None, ..st },
            rest,
        ),
        decoded_from(t, st, seq![0x1bu8]).len() == 0,
{
    assert((seq![x] + rest)[0] == x);
    lemma_silent_control(t, st, 0x1b, seq![x], rest, DecoderView { row: None, ..st });
    assert(seq![0x1bu8] + seq![x] + rest =~= seq![0x1bu8, x] + rest);
    let none = Seq::<u8>::empty();
    lemma_first_byte(t, st, 0x1b, none);
    assert(seq![0x1bu8] + none =~= seq![0x1bu8]);
}

/// The set that the next byte of the left half is looked up in: that of a single
/// shift where there is one, else the one that is shifted in.
pub open spec fn left_set(st: DecoderView) -> CharSet {
    match st.gl_single {
        Some(i) => st.g[i as int],
        None => st.g[st.gl as int],
    }
}

/// Whether a byte is one of either half.
pub open spec fn is_half(b: u8) -> bool {
    0x21 <= b <= 0x7e || 0xa1 <= b <= 0xfe
}

/// What one byte of a half does in any state: of a one-byte set it shows its cell
/// and drops a first byte that waits. Of a two-byte set it is the second byte where
/// a first one waits, whatever half that came from; otherwise it is a first byte,
/// which a kanji set drops where no byte of a half follows.
pub open spec fn does_what_it_should(
    t: TablesView,
    st: DecoderView,
    cs: CharSet,
    k: int,
    rest: Seq<u8>,
    text: Seq<char>,
    after: DecoderView,
) -> bool {
    if is_one_byte(cs) {
        text == shown_in(cs, k) && after == (DecoderView { row: None, ..st })
    } else if st.row is Some {
        pair_shows(t, cs, st.row->0 + 1, k + 1, text) && after == (DecoderView { row: None, ..st })
    } else if cs == CharSet::Kanji && rest.len() > 0 && !is_half(rest[0]) {
        text.len() == 0 && after == st
    } else {
        text.len() == 0 && after == (DecoderView { row: Some(k as u8), ..st })
    }
}

proof fn lemma_graphic(t: TablesView, st: DecoderView, cs: CharSet, k: u8, rest: Seq<u8>)
    requires
        k < 94,
        st.row matches Some(ku) ==> ku < 94,
    ensures
        does_what_it_should(
            t,
            st,
            cs,
            k as int,
            rest,
            graphic(t, st, cs, k, rest).text,
            graphic(t, st, cs, k, rest).state,
        ),
        graphic(t, st, cs, k, rest).used == 0,
{
    if is_one_byte(cs) {
        lemma_one_byte_cell(t, st, cs, k, rest);
    } else if st.row is Some {
        lemma_pair(t, st, cs, st.row->0, k, rest);
    }
}

/// Every byte of the left half does what it should, and uses up a single shift.
#[verifier::rlimit(60)]
pub proof fn law_any_left_byte(t: TablesView, st: DecoderView, b: u8, rest: Seq<u8>)
    requires
        is_state(st),
        0x21 <= b <= 0x7e,
    ensures
        exists|text: Seq<char>, after: DecoderView|
            {
                &&& #[trigger] does_what_it_should(
                    t,
                    DecoderView { gl_single: None, ..st },
                    left_set(st),
                    b - 0x21,
                    rest,
                    text,
                    after,
                )
                &&& decoded_from(t, st, seq![b] + rest) == text + decoded_from(t, after, rest)
            },
{
    let plain = DecoderView { gl_single: None, ..st };
    let k = (b - 0x21) as u8;
    lemma_first_byte(t, st, b, rest);
    lemma_graphic(t, plain, left_set(st), k, rest);
    assert(behind(rest, 0) =~= rest);
    let s = graphic(t, plain, left_set(st), k, rest);
    assert(does_what_it_should(t, plain, left_set(st), b - 0x21, rest, s.text, s.state));
}

/// Every byte of the right half does what it should; a single shift is not for it.
#[verifier::rlimit(60)]
pub proof fn law_any_right_byte(t: TablesView, st: DecoderView, b: u8, rest: Seq<u8>)
    requires
        is_state(st),
        0xa1 <= b <= 0xfe,
    ensures
        exists|text: Seq<char>, after: DecoderView|
            {
                &&& #[trigger] does_what_it_should(
                    t,
                    st,
                    st.g[st.gr as int],
                    b - 0xa1,
                    rest,
                    text,
                    after,
                )
                &&& decoded_from(t, st, seq![b] + rest) == text + decoded_from(t, after, rest)
            },
{
    let cs = st.g[st.gr as int];
    let k = (b - 0xa1) as u8;
    lemma_first_byte(t, st, b, rest);
    lemma_graphic(t, st, cs, k, rest);
    assert(behind(rest, 0) =~= rest);
    let s = graphic(t, st, cs, k, rest);
    assert(does_what_it_should(t, st, cs, b - 0xa1, rest, s.text, s.state));
}

/// A single shift waits for the next byte of the left half, and drops a first byte
/// that waits.
pub proof fn law_single_shifts_wait(t: TablesView, st: DecoderView, rest: Seq<u8>)
    ensures
        decoded_from(t, st, seq![0x19u8] + rest) == decoded_from(
            t,
            DecoderView { gl_single: Some(2), row: None, ..st },
            rest,
        ),
        decoded_from(t, st, seq![0x1du8] + rest) == decoded_from(
            t,
            DecoderView { gl_single: Some(3), row: None, ..st },
            rest,
        ),
{
    let none = Seq::<u8>::empty();
    assert(none + rest =~= rest);
    assert(seq![0x19u8] + none =~= seq![0x19u8]);
    assert(seq![0x1du8] + none =~= seq![0x1du8]);
    lemma_silent_control(
        t,
        st,
        0x19,
        none,
        rest,
        DecoderView { gl_single: Some(2), row: None, ..st },
    );
    lemma_silent_control(
        t,
        st,
        0x1d,
        none,
        rest,
        DecoderView { gl_single: Some(3), row: None, ..st },
    );
}

/// A control that is cut off at the end of a text shows nothing, and neither does
/// what there is of its parameters; no text, no characters.
pub proof fn law_cut_controls_show_nothing(
    t: TablesView,
    st: DecoderView,
    b: u8,
    parameters: Seq<u8>,
    n: int,
)
    requires
        0x80 <= b <= 0x9f,
        are_parameters(b, parameters),
        0 <= n <= parameters.len(),
    ensures
        decoded_from(t, st, seq![b] + parameters.take(n)).len() == 0,
        decoded_from(t, st, Seq::empty()).len() == 0,
{
    let p = parameters.take(n);
    lemma_first_byte(t, st, b, p);
    if n == parameters.len() {
        law_formatting_shows_nothing(t, st, b, parameters, Seq::empty());
        assert(p =~= parameters);
        assert(seq![b] + parameters + Seq::<u8>::empty() =~= seq![b] + p);
    } else if b == 0x9b {
        lemma_open_csi(p);
    } else if n > 0 {
        assert(p[0] == parameters[0]);
    }
}

proof fn lemma_open_csi(p: Seq<u8>)
    requires
        forall|i: int| 0 <= i < p.len() ==> !(0x40 <= #[trigger] p[i] <= 0x7e),
    ensures
        crate::arib_b24::csi_len(p) == p.len(),
    decreases p.len(),
{
    if p.len() > 0 {
        assert forall|i: int| 0 <= i < p.skip(1).len() implies !(0x40 <= #[trigger] p.skip(1)[i]
            <= 0x7e) by {
            assert(p.skip(1)[i] == p[i + 1]);
        }
        lemma_open_csi(p.skip(1));
    }
}

proof fn lemma_state_behind(
    t: TablesView,
    st: DecoderView,
    b: u8,
    parameters: Seq<u8>,
    after: DecoderView,
)
    requires
        ({
            let s = step(t, st, b, parameters);
            s.used == parameters.len() && s.state == after
        }),
    ensures
        state_behind(t, st, seq![b] + parameters) == after,
{
    let input = seq![b] + parameters;
    let s = step(t, st, b, parameters);
    assert(input.skip(1) =~= parameters);
    assert(behind(input, 1 + s.used) =~= Seq::<u8>::empty());
    assert(state_behind(t, after, Seq::<u8>::empty()) == after);
}

/// A decoder goes on where it stands: what is shifted in stays so for the next
/// text.
pub proof fn law_shifts_last(t: TablesView, st: DecoderView, k: int)
    requires
        0 <= k < 4,
    ensures
        state_behind(t, st, Seq::empty()) == st,
        state_behind(t, st, shift_left(k)) == (DecoderView { gl: k as nat, row: None, ..st }),
        k > 0 ==> state_behind(t, st, shift_right(k)) == (DecoderView {
            gr: k as nat,
            row: None,
            ..st
        }),
{
    let none = Seq::<u8>::empty();
    let left = DecoderView { gl: k as nat, row: None, ..st };
    let right = DecoderView { gr: k as nat, row: None, ..st };
    if k == 0 {
        lemma_state_behind(t, st, 0x0f, none, left);
        assert(seq![0x0fu8] + none =~= shift_left(k));
    } else if k == 1 {
        lemma_state_behind(t, st, 0x0e, none, left);
        assert(seq![0x0eu8] + none =~= shift_left(k));
        lemma_state_behind(t, st, 0x1b, seq![0x7eu8], right);
        assert(seq![0x1bu8] + seq![0x7eu8] =~= shift_right(k));
    } else if k == 2 {
        lemma_state_behind(t, st, 0x1b, seq![0x6eu8], left);
        assert(seq![0x1bu8] + seq![0x6eu8] =~= shift_left(k));
        lemma_state_behind(t, st, 0x1b, seq![0x7du8], right);
        assert(seq![0x1bu8] + seq![0x7du8] =~= shift_right(k));
    } else {
        lemma_state_behind(t, st, 0x1b, seq![0x6fu8], left);
        assert(seq![0x1bu8] + seq![0x6fu8] =~= shift_left(k));
        lemma_state_behind(t, st, 0x1b, seq![0x7cu8], right);
        assert(seq![0x1bu8] + seq![0x7cu8] =~= shift_right(k));
    }
}

/// Bytes of a one-byte set leave a decoder as it was, but for a single shift that
/// those of the left half use up and a first byte that they drop.
pub proof fn law_characters_leave_the_sets(t: TablesView, st: DecoderView, b: u8)
    requires
        is_state(st),
    ensures
        0x21 <= b <= 0x7e && is_one_byte(left_set(st)) ==> state_behind(t, st, seq![b])
            == (DecoderView { gl_single: None, row: None, ..st }),
        0xa1 <= b <= 0xfe && is_one_byte(st.g[st.gr as int]) ==> state_behind(t, st, seq![b])
            == (DecoderView { row: None, ..st }),
{
    let none = Seq::<u8>::empty();
    assert(seq![b] + none =~= seq![b]);
    if 0x21 <= b <= 0x7e && is_one_byte(left_set(st)) {
        let plain = DecoderView { gl_single: None, ..st };
        lemma_one_byte_cell(t, plain, left_set(st), (b - 0x21) as u8, none);
        lemma_state_behind(t, st, b, none, DecoderView { gl_single: None, row: None, ..st });
    }
    if 0xa1 <= b <= 0xfe && is_one_byte(st.g[st.gr as int]) {
        lemma_one_byte_cell(t, st, st.g[st.gr as int], (b - 0xa1) as u8, none);
        lemma_state_behind(t, st, b, none, DecoderView { row: None, ..st });
    }
}

/// A text of the programme guide starts in the same state every time.
pub proof fn law_decode_starts_afresh(input: &[u8], out: String)
    requires
        call_ensures(decode, (input,), out),
    ensures
        out@ == decoded_from(
            builtin_tables(),
            DecoderView {
                g: seq![
                    CharSet::Kanji,
                    CharSet::Alphanumeric,
                    CharSet::Hiragana,
                    CharSet::Katakana,
                ],
                gl: 0,
                gr: 2,
                gl_single: None,
                row: None,
            },
            input@,
        ),
{
}

} // verus!
