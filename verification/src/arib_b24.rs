//! ARIB STD-B24 text (a variant of ISO/IEC 2022) to Unicode: the character
//! sets that the programme guide of ISDB-T uses.

use crate::arib_symbols::ARIB_ADDITIONAL;
use crate::jis_plane2::{plane2, plane2_rows, rows};
use vstd::prelude::*;

verus! {

/// GETA MARK: stands for a character that has no Unicode character.
pub const GETA: char = '\u{3013}';

/// The space of the two-byte sets.
pub const IDEOGRAPHIC_SPACE: char = '\u{3000}';

/// REPLACEMENT CHARACTER: what a decoder puts for bytes that are no character.
pub const REPLACEMENT: char = '\u{fffd}';

// ---- The outside decoder ---------------------------------------------------

/// What decoding `bytes` as EUC-JP gives: the text, and whether there were
/// malformed sequences.
pub uninterp spec fn euc_jp_decoding(bytes: Seq<u8>) -> (Seq<char>, bool);

/// `encoding_rs::EUC_JP.decode`: the decoded text and whether it replaced
/// malformed sequences, both fixed by the bytes alone.
#[verifier::external_body]
fn euc_jp_decode(bytes: &[u8]) -> (out: (String, bool))
    ensures
        (out.0@, out.1) == euc_jp_decoding(bytes@),
{
    let (text, _, had_errors) = encoding_rs::EUC_JP.decode(bytes);
    (text.into_owned(), had_errors)
}

/// `char::from_u32` gives the character of a Unicode scalar value, and nothing
/// for any other number.
pub assume_specification[ char::from_u32 ](i: u32) -> (c: Option<char>)
    ensures
        c == (if is_scalar(i) {
            Some(i as char)
        } else {
            None
        }),
;

/// Whether `i` is a Unicode scalar value.
pub open spec fn is_scalar(i: u32) -> bool {
    i < 0xd800 || 0xe000 <= i <= 0x10ffff
}

// ---- Character sets --------------------------------------------------------

/// The sets that a code element can designate.
#[derive(Clone, Copy, Debug, PartialEq, Eq, Structural)]
pub enum CharSet {
    Kanji,
    Alphanumeric,
    Hiragana,
    Katakana,
    HalfKatakana,
    /// Characters drawn by the broadcaster.
    Drcs,
    /// JIS compatible plane 2 (JIS X 0213 plane 2).
    JisPlane2,
    /// The additional symbols, rows 90 to 94.
    AribSymbol,
}

/// The set that the final byte `f` of a designation names.
pub open spec fn charset(two_byte: bool, f: u8) -> CharSet {
    if two_byte {
        if f == 0x42 || f == 0x39 {
            CharSet::Kanji
        } else if f == 0x3a {
            CharSet::JisPlane2
        } else if f == 0x3b {
            CharSet::AribSymbol
        } else if 0x40 <= f <= 0x4f || f == 0x70 {
            CharSet::Drcs
        } else {
            CharSet::Kanji
        }
    } else {
        if f == 0x30 || f == 0x37 {
            CharSet::Hiragana
        } else if f == 0x31 || f == 0x38 {
            CharSet::Katakana
        } else if f == 0x49 {
            CharSet::HalfKatakana
        } else if f == 0x4a || f == 0x36 || f == 0x4b || f == 0x4c {
            CharSet::Alphanumeric
        } else if 0x40 <= f <= 0x4f || f == 0x70 {
            CharSet::Drcs
        } else {
            CharSet::Kanji
        }
    }
}

impl CharSet {
    pub fn from_f(two_byte: bool, f: u8) -> (cs: CharSet)
        ensures
            cs == charset(two_byte, f),
    {
        match (two_byte, f) {
            (true, 0x42) | (true, 0x39) => CharSet::Kanji,
            (true, 0x3a) => CharSet::JisPlane2,
            (true, 0x3b) => CharSet::AribSymbol,
            (false, 0x30) | (false, 0x37) => CharSet::Hiragana,
            (false, 0x31) | (false, 0x38) => CharSet::Katakana,
            (false, 0x49) => CharSet::HalfKatakana,
            (false, 0x4a) | (false, 0x36) | (false, 0x4b) | (false, 0x4c) => CharSet::Alphanumeric,
            (_, 0x40..=0x4f) | (_, 0x70) => CharSet::Drcs,
            _ => CharSet::Kanji,
        }
    }
}

/// The code point of cell `idx` of the one-byte hiragana set; 0 where the cell
/// is empty.
pub open spec fn hiragana(idx: u8) -> u32 {
    if idx <= 83 {
        (0x3041 + idx) as u32
    } else if idx <= 85 {
        (0x309d + (idx - 84)) as u32
    } else if idx <= 91 {
        punctuation((idx - 86) as u8)
    } else {
        0
    }
}

/// The code point of cell `idx` of the one-byte katakana set.
pub open spec fn katakana(idx: u8) -> u32 {
    if idx <= 85 {
        (0x30a1 + idx) as u32
    } else if idx <= 87 {
        (0x30fd + (idx - 86)) as u32
    } else if idx <= 93 {
        punctuation((idx - 88) as u8)
    } else {
        0
    }
}

/// The six marks that both kana sets end with.
pub open spec fn punctuation(k: u8) -> u32 {
    match k {
        0 => 0x30fcu32,
        1 => 0x3002u32,
        2 => 0x300cu32,
        3 => 0x300du32,
        4 => 0x3001u32,
        _ => 0x30fbu32,
    }
}

fn punctuation_mark(k: u8) -> (cp: u32)
    ensures
        cp == punctuation(k),
{
    match k {
        0 => 0x30fc,
        1 => 0x3002,
        2 => 0x300c,
        3 => 0x300d,
        4 => 0x3001,
        _ => 0x30fb,
    }
}

fn hiragana_cell(idx: u8) -> (cp: u32)
    ensures
        cp == hiragana(idx),
{
    if idx <= 83 {
        0x3041 + idx as u32
    } else if idx <= 85 {
        0x309d + (idx - 84) as u32
    } else if idx <= 91 {
        punctuation_mark(idx - 86)
    } else {
        0
    }
}

fn katakana_cell(idx: u8) -> (cp: u32)
    ensures
        cp == katakana(idx),
{
    if idx <= 85 {
        0x30a1 + idx as u32
    } else if idx <= 87 {
        0x30fd + (idx - 86) as u32
    } else if idx <= 93 {
        punctuation_mark(idx - 88)
    } else {
        0
    }
}

// ---- Symbol tables ---------------------------------------------------------

/// The code points of the two sets that have no rule. A cell that a table does
/// not reach, or where it holds 0, has no Unicode character.
#[derive(Clone, Copy, Debug)]
pub struct SymbolTables<'a> {
    /// Rows 90 to 94 of the additional symbols, 94 cells each.
    pub additional: &'a [u32],
    /// The rows of JIS X 0213 plane 2 that hold characters.
    pub plane2: &'a [[u32; 94]],
}

/// Symbol tables as sequences.
pub struct TablesView {
    pub additional: Seq<u32>,
    pub plane2: Seq<Seq<u32>>,
}

impl<'a> View for SymbolTables<'a> {
    type V = TablesView;

    open spec fn view(&self) -> TablesView {
        TablesView { additional: self.additional@, plane2: rows(self.plane2@) }
    }
}

/// The tables of this library.
pub open spec fn builtin_tables() -> TablesView {
    TablesView { additional: ARIB_ADDITIONAL@, plane2: plane2() }
}

/// Cell `i` of a table.
pub open spec fn cell(table: Seq<u32>, i: int) -> u32 {
    if 0 <= i < table.len() {
        table[i]
    } else {
        0
    }
}

/// The character that a cell with the code point `cp` shows.
pub open spec fn cell_char(cp: u32) -> char {
    if cp == 0 || !is_scalar(cp) {
        GETA
    } else {
        cp as char
    }
}

/// The additional symbol in row `ku` and column `ten`, counted from 0.
pub open spec fn additional_symbol(t: TablesView, ku: u8, ten: u8) -> char {
    if 89 <= ku <= 93 && ten < 94 {
        cell_char(cell(t.additional, (ku - 89) * 94 + ten))
    } else {
        GETA
    }
}

/// The place of row `ku` of plane 2, counted from 0, among the rows that hold
/// characters: rows 1, 3 to 5, 8, 12 to 15 and 78 to 94, counted from 1.
pub open spec fn plane2_row(ku: u8) -> Option<int> {
    if ku == 0 {
        Some(0)
    } else if 2 <= ku <= 4 {
        Some(ku - 1)
    } else if ku == 7 {
        Some(4)
    } else if 11 <= ku <= 14 {
        Some(ku - 6)
    } else if 77 <= ku <= 93 {
        Some(ku - 68)
    } else {
        None
    }
}

/// The plane 2 character in row `ku` and column `ten`, counted from 0.
pub open spec fn plane2_char(t: TablesView, ku: u8, ten: u8) -> char {
    match plane2_row(ku) {
        Some(row) if row < t.plane2.len() => cell_char(cell(t.plane2[row], ten as int)),
        _ => GETA,
    }
}

fn read_plane2(table: &[[u32; 94]], ku: u8, ten: u8) -> (c: char)
    ensures
        c == (match plane2_row(ku) {
            Some(row) if row < table@.len() => cell_char(cell(rows(table@)[row], ten as int)),
            _ => GETA,
        }),
{
    let row: usize = if ku == 0 {
        0
    } else if 2 <= ku && ku <= 4 {
        ku as usize - 1
    } else if ku == 7 {
        4
    } else if 11 <= ku && ku <= 14 {
        ku as usize - 6
    } else if 77 <= ku && ku <= 93 {
        ku as usize - 68
    } else {
        return GETA;
    };
    if row >= table.len() {
        return GETA;
    }
    table_char(&table[row], ten as usize)
}

fn table_char(table: &[u32], i: usize) -> (c: char)
    ensures
        c == cell_char(cell(table@, i as int)),
{
    if i >= table.len() {
        return GETA;
    }
    let cp = table[i];
    if cp == 0 {
        return GETA;
    }
    match char::from_u32(cp) {
        Some(c) => c,
        None => GETA,
    }
}

// ---- Kanji -----------------------------------------------------------------

/// The character that a decoding of one kanji gives: the first of the text, and
/// the geta mark where the bytes were no character.
pub open spec fn kanji_of(text: Seq<char>, had_errors: bool) -> Option<char> {
    if had_errors {
        Some(GETA)
    } else if text.len() == 0 {
        None
    } else if text[0] == REPLACEMENT {
        Some(GETA)
    } else {
        Some(text[0])
    }
}

/// The EUC-JP bytes of row `ku` and column `ten`, counted from 0.
pub open spec fn euc_pair(ku: u8, ten: u8) -> Seq<u8> {
    seq![
        ((ku + 0xa1) % 256) as u8,
        ((ten + 0xa1) % 256) as u8,
    ]
}

/// The kanji in row `ku` and column `ten`, counted from 0.
pub open spec fn kanji(ku: u8, ten: u8) -> Option<char> {
    let d = euc_jp_decoding(euc_pair(ku, ten));
    kanji_of(d.0, d.1)
}

/// The character that a decoding of one kanji gives.
pub fn kanji_from_decoding(text: &str, had_errors: bool) -> (c: Option<char>)
    ensures
        c == kanji_of(text@, had_errors),
{
    if had_errors {
        return Some(GETA);
    }
    let chars = crate::text::chars_of(text);
    if chars.len() == 0 {
        return None;
    }
    if chars[0] == REPLACEMENT {
        Some(GETA)
    } else {
        Some(chars[0])
    }
}

/// The kanji in row `ku` and column `ten`, counted from 0.
pub fn decode_jis(ku: u8, ten: u8) -> (c: Option<char>)
    ensures
        c == kanji(ku, ten),
{
    let hi = ku.wrapping_add(0xa1);
    let lo = ten.wrapping_add(0xa1);
    let bytes: [u8; 2] = [hi, lo];
    assert(bytes@ =~= euc_pair(ku, ten));
    let (text, had_errors) = euc_jp_decode(&bytes);
    kanji_from_decoding(text.as_str(), had_errors)
}

// ---- Decoder ---------------------------------------------------------------

/// What a decoder remembers between two bytes: the sets in G0 to G3, which of
/// them the left and the right half of the code table show, a set for the next
/// character alone, and the row of a two-byte character whose column is awaited.
pub struct DecoderView {
    pub g: Seq<CharSet>,
    pub gl: nat,
    pub gr: nat,
    pub gl_single: Option<nat>,
    pub row: Option<u8>,
}

/// What one byte does: the state after it, the text it adds, and how many of
/// the bytes behind it belong to it.
pub struct Step {
    pub state: DecoderView,
    pub text: Seq<char>,
    pub used: nat,
}

/// The state that every text starts in.
pub open spec fn initial_state() -> DecoderView {
    DecoderView {
        g: seq![CharSet::Kanji, CharSet::Alphanumeric, CharSet::Hiragana, CharSet::Katakana],
        gl: 0,
        gr: 2,
        gl_single: None,
        row: None,
    }
}

/// A step that adds no text.
pub open spec fn silent(state: DecoderView, used: nat) -> Step {
    Step { state, text: Seq::empty(), used }
}

/// `1` where a parameter byte follows.
pub open spec fn one_if_any(rest: Seq<u8>) -> nat {
    if rest.len() > 0 {
        1
    } else {
        0
    }
}

/// How many bytes a control sequence takes: up to its final byte, or all.
pub open spec fn csi_len(rest: Seq<u8>) -> nat
    decreases rest.len(),
{
    if rest.len() == 0 {
        0
    } else if 0x40 <= rest[0] <= 0x7e {
        1
    } else {
        1 + csi_len(rest.skip(1))
    }
}

/// The element that an intermediate byte of a designation names.
pub open spec fn designated(b: u8) -> Option<nat> {
    if 0x28 <= b <= 0x2b {
        Some((b - 0x28) as nat)
    } else {
        None
    }
}

/// Puts `cs` into element `i`.
pub open spec fn designate(st: DecoderView, i: nat, cs: CharSet) -> DecoderView {
    DecoderView { g: st.g.update(i as int, cs), ..st }
}

/// An escape sequence: a locking shift or a designation.
pub open spec fn escape(st: DecoderView, rest: Seq<u8>) -> Step {
    if rest.len() == 0 {
        silent(st, 0)
    } else if rest[0] == 0x6e {
        silent(DecoderView { gl: 2, ..st }, 1)
    } else if rest[0] == 0x6f {
        silent(DecoderView { gl: 3, ..st }, 1)
    } else if rest[0] == 0x7c {
        silent(DecoderView { gr: 3, ..st }, 1)
    } else if rest[0] == 0x7d {
        silent(DecoderView { gr: 2, ..st }, 1)
    } else if rest[0] == 0x7e {
        silent(DecoderView { gr: 1, ..st }, 1)
    } else if rest[0] == 0x24 && rest.len() >= 2 {
        match designated(rest[1]) {
            Some(i) if rest.len() >= 3 => silent(designate(st, i, charset(true, rest[2])), 3),
            _ => silent(designate(st, 0, charset(true, rest[1])), 2),
        }
    } else {
        match designated(rest[0]) {
            Some(i) if rest.len() >= 2 => silent(designate(st, i, charset(false, rest[1])), 2),
            _ => silent(st, 1),
        }
    }
}

/// A control of the C0 set.
pub open spec fn control_c0(st: DecoderView, b: u8, rest: Seq<u8>) -> Step {
    let st = DecoderView { row: None, ..st };
    if b == 0x0a || b == 0x0d {
        Step { state: st, text: seq!['\n'], used: 0 }
    } else if b == 0x0e {
        silent(DecoderView { gl: 1, ..st }, 0)
    } else if b == 0x0f {
        silent(DecoderView { gl: 0, ..st }, 0)
    } else if b == 0x19 {
        silent(DecoderView { gl_single: Some(2), ..st }, 0)
    } else if b == 0x1d {
        silent(DecoderView { gl_single: Some(3), ..st }, 0)
    } else if b == 0x1b {
        escape(st, rest)
    } else {
        silent(st, 0)
    }
}

/// How many parameter bytes a control of the C1 set takes.
pub open spec fn c1_parameters(b: u8, rest: Seq<u8>) -> nat {
    if b == 0x90 {
        if rest.len() >= 2 && (rest[0] == 0x20 || rest[0] == 0x28 || rest[0] == 0x30 || rest[0]
            == 0x38) {
            2
        } else {
            one_if_any(rest)
        }
    } else if b == 0x8b || b == 0x91 || b == 0x93 || b == 0x94 || b == 0x97 || b == 0x98 {
        one_if_any(rest)
    } else if b == 0x9b {
        csi_len(rest)
    } else if b == 0x9d {
        if rest.len() > 0 && rest[0] == 0x20 {
            2
        } else {
            one_if_any(rest)
        }
    } else {
        0
    }
}

/// Whether `b` shows a character, in either half of the code table.
pub open spec fn is_graphic(b: u8) -> bool {
    0x21 <= b <= 0x7e || 0xa1 <= b <= 0xfe
}

/// The text of an optional character.
pub open spec fn char_text(c: Option<char>) -> Seq<char> {
    match c {
        Some(c) => seq![c],
        None => Seq::empty(),
    }
}

/// The text of a kana cell.
pub open spec fn kana_text(cp: u32) -> Seq<char> {
    if cp == 0 {
        Seq::empty()
    } else {
        seq![cell_char(cp)]
    }
}

/// A byte of the two-byte set `cs`: the first gives the row, the second the
/// column. A first kanji byte with no character behind it is dropped.
pub open spec fn two_byte_char(
    t: TablesView,
    st: DecoderView,
    cs: CharSet,
    idx: u8,
    rest: Seq<u8>,
) -> Step {
    match st.row {
        Some(ku) => Step {
            state: DecoderView { row: None, ..st },
            text: match cs {
                CharSet::Kanji => char_text(kanji(ku, idx)),
                CharSet::JisPlane2 => seq![plane2_char(t, ku, idx)],
                _ => seq![additional_symbol(t, ku, idx)],
            },
            used: 0,
        },
        None => if cs == CharSet::Kanji && rest.len() > 0 && !is_graphic(rest[0]) {
            silent(st, 0)
        } else {
            silent(DecoderView { row: Some(idx), ..st }, 0)
        },
    }
}

/// Cell `idx` of the set `cs`.
pub open spec fn graphic(
    t: TablesView,
    st: DecoderView,
    cs: CharSet,
    idx: u8,
    rest: Seq<u8>,
) -> Step {
    let plain = DecoderView { row: None, ..st };
    match cs {
        CharSet::Kanji | CharSet::JisPlane2 | CharSet::AribSymbol => two_byte_char(
            t,
            st,
            cs,
            idx,
            rest,
        ),
        CharSet::Hiragana => Step { state: plain, text: kana_text(hiragana(idx)), used: 0 },
        CharSet::Katakana => Step { state: plain, text: kana_text(katakana(idx)), used: 0 },
        CharSet::Alphanumeric => Step {
            state: plain,
            text: seq![(idx + 0x21) as char],
            used: 0,
        },
        CharSet::HalfKatakana => Step {
            state: plain,
            text: if idx < 63 {
                seq![(idx + 0xff61) as char]
            } else {
                Seq::empty()
            },
            used: 0,
        },
        CharSet::Drcs => Step { state: plain, text: seq![GETA], used: 0 },
    }
}

/// A byte of the left half: the set for this character alone, where there is
/// one, else the set that is shifted in.
pub open spec fn graphic_left(t: TablesView, st: DecoderView, idx: u8, rest: Seq<u8>) -> Step {
    let cs = match st.gl_single {
        Some(i) => st.g[i as int],
        None => st.g[st.gl as int],
    };
    graphic(t, DecoderView { gl_single: None, ..st }, cs, idx, rest)
}

/// What the byte `b` does, with `rest` behind it.
pub open spec fn step(t: TablesView, st: DecoderView, b: u8, rest: Seq<u8>) -> Step {
    if b <= 0x1f {
        control_c0(st, b, rest)
    } else if b == 0x20 {
        Step { state: st, text: seq![IDEOGRAPHIC_SPACE], used: 0 }
    } else if b <= 0x7e {
        graphic_left(t, st, (b - 0x21) as u8, rest)
    } else if b == 0x7f || b == 0xa0 || b == 0xff {
        silent(st, 0)
    } else if b <= 0x9f {
        silent(DecoderView { row: None, ..st }, c1_parameters(b, rest))
    } else {
        graphic(t, st, st.g[st.gr as int], (b - 0xa1) as u8, rest)
    }
}

/// The bytes of `s` behind the first `n`.
pub open spec fn behind(s: Seq<u8>, n: nat) -> Seq<u8> {
    if n >= s.len() {
        Seq::empty()
    } else {
        s.skip(n as int)
    }
}

/// The text that `input` gives to a decoder in the state `st`.
pub open spec fn decoded_from(t: TablesView, st: DecoderView, input: Seq<u8>) -> Seq<char>
    decreases input.len(),
{
    if input.len() == 0 {
        Seq::empty()
    } else {
        let s = step(t, st, input[0], input.skip(1));
        s.text + decoded_from(t, s.state, behind(input, 1 + s.used))
    }
}

/// The state of a decoder in the state `st` when it has decoded `input`.
pub open spec fn state_behind(t: TablesView, st: DecoderView, input: Seq<u8>) -> DecoderView
    decreases input.len(),
{
    if input.len() == 0 {
        st
    } else {
        let s = step(t, st, input[0], input.skip(1));
        state_behind(t, s.state, behind(input, 1 + s.used))
    }
}

/// The text of `input` on its own.
pub open spec fn decoded(t: TablesView, input: Seq<u8>) -> Seq<char> {
    decoded_from(t, initial_state(), input)
}

pub struct Decoder<'a> {
    tables: SymbolTables<'a>,
    g: [CharSet; 4],
    gl: usize,
    gr: usize,
    gl_single: Option<usize>,
    kanji_ku: Option<u8>,
}

impl<'a> View for Decoder<'a> {
    type V = DecoderView;

    closed spec fn view(&self) -> DecoderView {
        DecoderView {
            g: self.g@,
            gl: self.gl as nat,
            gr: self.gr as nat,
            gl_single: match self.gl_single {
                Some(i) => Some(i as nat),
                None => None,
            },
            row: self.kanji_ku,
        }
    }
}

impl<'a> Decoder<'a> {
    /// The tables of the decoder.
    pub closed spec fn symbols(self) -> TablesView {
        self.tables@
    }

    /// Every shift names one of the four elements, and a row is one of 94.
    pub closed spec fn wf(self) -> bool {
        &&& self.gl < 4
        &&& self.gr < 4
        &&& self.gl_single matches Some(i) ==> i < 4
        &&& self.kanji_ku matches Some(ku) ==> ku < 94
    }

    /// A decoder at the start of a text.
    pub fn new(tables: SymbolTables<'a>) -> (d: Self)
        ensures
            d.wf(),
            d@ == initial_state(),
            d.symbols() == tables@,
    {
        let d = Decoder {
            tables,
            g: [CharSet::Kanji, CharSet::Alphanumeric, CharSet::Hiragana, CharSet::Katakana],
            gl: 0,
            gr: 2,
            gl_single: None,
            kanji_ku: None,
        };
        assert(d@.g =~= initial_state().g);
        d
    }

    /// Decodes `input`, going on from where the decoder stands.
    pub fn decode_bytes(&mut self, input: &[u8]) -> (out: String)
        requires
            old(self).wf(),
        ensures
            final(self).wf(),
            final(self).symbols() == old(self).symbols(),
            out@ == decoded_from(old(self).symbols(), old(self)@, input@),
            final(self)@ == state_behind(old(self).symbols(), old(self)@, input@),
    {
        let mut out = String::new();
        let mut pos: usize = 0;
        assert(behind(input@, 0) =~= input@);
        while pos < input.len()
            invariant
                self.wf(),
                self.symbols() == old(self).symbols(),
                decoded_from(old(self).symbols(), old(self)@, input@) == out@ + decoded_from(
                    self.symbols(),
                    self@,
                    behind(input@, pos as nat),
                ),
                state_behind(old(self).symbols(), old(self)@, input@) == state_behind(
                    self.symbols(),
                    self@,
                    behind(input@, pos as nat),
                ),
            decreases input@.len() - pos,
        {
            let b = input[pos];
            let ghost here = behind(input@, pos as nat);
            let ghost before = self@;
            let ghost text_before = out@;
            pos += 1;
            let rest = vstd::slice::slice_subrange(input, pos, input.len());
            assert(here.skip(1) =~= rest@);
            let used: usize = if b <= 0x1f {
                self.handle_c0(b, rest, &mut out)
            } else if b == 0x20 {
                out.push(IDEOGRAPHIC_SPACE);
                0
            } else if b <= 0x7e {
                self.handle_gl_char(b - 0x21, rest, &mut out)
            } else if b == 0x7f {
                0
            } else if b <= 0x9f {
                self.handle_c1(b, rest)
            } else if b == 0xa0 || b == 0xff {
                0
            } else {
                self.handle_gr_char(b - 0xa1, rest, &mut out)
            };
            let ghost s = step(self.symbols(), before, b, rest@);
            assert(out@ =~= text_before + s.text);
            assert(self@ == s.state);
            assert(behind(here, 1 + s.used) =~= behind(input@, (pos + used) as nat));
            if used > input.len() - pos {
                pos = input.len();
            } else {
                pos += used;
            }
            assert(behind(here, 1 + s.used) =~= behind(input@, pos as nat));
        }
        assert(behind(input@, pos as nat) =~= Seq::<u8>::empty());
        out
    }

    fn handle_c0(&mut self, b: u8, rest: &[u8], out: &mut String) -> (used: usize)
        requires
            old(self).wf(),
            b <= 0x1f,
        ensures
            final(self).wf(),
            final(self).symbols() == old(self).symbols(),
            final(self)@ == control_c0(old(self)@, b, rest@).state,
            final(out)@ == old(out)@ + control_c0(old(self)@, b, rest@).text,
            used == control_c0(old(self)@, b, rest@).used,
    {
        self.kanji_ku = None;
        assert(out@ + Seq::<char>::empty() =~= out@);
        if b == 0x0a || b == 0x0d {
            out.push('\n');
            assert(out@ =~= old(out)@ + seq!['\n']);
        } else if b == 0x0e {
            self.gl = 1;
        } else if b == 0x0f {
            self.gl = 0;
        } else if b == 0x19 {
            self.gl_single = Some(2);
        } else if b == 0x1d {
            self.gl_single = Some(3);
        } else if b == 0x1b {
            return self.handle_esc(rest);
        }
        0
    }

    fn handle_esc(&mut self, rest: &[u8]) -> (used: usize)
        requires
            old(self).wf(),
        ensures
            final(self).wf(),
            final(self).symbols() == old(self).symbols(),
            final(self)@ == escape(old(self)@, rest@).state,
            escape(old(self)@, rest@).text.len() == 0,
            used == escape(old(self)@, rest@).used,
    {
        if rest.len() == 0 {
            return 0;
        }
        let b = rest[0];
        match b {
            0x6e => {
                self.gl = 2;
                return 1;
            },
            0x6f => {
                self.gl = 3;
                return 1;
            },
            0x7c => {
                self.gr = 3;
                return 1;
            },
            0x7d => {
                self.gr = 2;
                return 1;
            },
            0x7e => {
                self.gr = 1;
                return 1;
            },
            _ => {},
        }
        if b == 0x24 {
            if rest.len() < 2 {
                return 1;
            }
            let i = rest[1];
            if 0x28 <= i && i <= 0x2b && rest.len() >= 3 {
                self.set_element((i - 0x28) as usize, CharSet::from_f(true, rest[2]));
                return 3;
            }
            self.set_element(0, CharSet::from_f(true, i));
            return 2;
        }
        if 0x28 <= b && b <= 0x2b && rest.len() >= 2 {
            self.set_element((b - 0x28) as usize, CharSet::from_f(false, rest[1]));
            return 2;
        }
        1
    }

    fn set_element(&mut self, i: usize, cs: CharSet)
        requires
            old(self).wf(),
            i < 4,
        ensures
            final(self).wf(),
            final(self).symbols() == old(self).symbols(),
            final(self)@ == designate(old(self)@, i as nat, cs),
    {
        self.g[i] = cs;
        assert(self@.g =~= old(self)@.g.update(i as int, cs));
    }

    fn handle_c1(&mut self, b: u8, rest: &[u8]) -> (used: usize)
        requires
            old(self).wf(),
        ensures
            final(self).wf(),
            final(self).symbols() == old(self).symbols(),
            final(self)@ == (DecoderView { row: None, ..old(self)@ }),
            used == c1_parameters(b, rest@),
    {
        self.kanji_ku = None;
        let one: usize = if rest.len() > 0 {
            1
        } else {
            0
        };
        match b {
            0x8b | 0x91 | 0x93 | 0x94 | 0x97 | 0x98 => one,
            0x90 => {
                if rest.len() >= 2 && (rest[0] == 0x20 || rest[0] == 0x28 || rest[0] == 0x30
                    || rest[0] == 0x38) {
                    2
                } else {
                    one
                }
            },
            0x9b => skip_csi(rest),
            0x9d => {
                if rest.len() > 0 && rest[0] == 0x20 {
                    2
                } else {
                    one
                }
            },
            _ => 0,
        }
    }

    fn handle_gl_char(&mut self, idx: u8, rest: &[u8], out: &mut String) -> (used: usize)
        requires
            old(self).wf(),
            idx < 94,
        ensures
            final(self).wf(),
            final(self).symbols() == old(self).symbols(),
            final(self)@ == graphic_left(old(self).symbols(), old(self)@, idx, rest@).state,
            final(out)@ == old(out)@ + graphic_left(
                old(self).symbols(),
                old(self)@,
                idx,
                rest@,
            ).text,
            used == graphic_left(old(self).symbols(), old(self)@, idx, rest@).used,
    {
        let cs = match self.gl_single {
            Some(i) => self.g[i],
            None => self.g[self.gl],
        };
        self.gl_single = None;
        self.emit_char(cs, idx, rest, out);
        0
    }

    fn handle_gr_char(&mut self, idx: u8, rest: &[u8], out: &mut String) -> (used: usize)
        requires
            old(self).wf(),
            idx < 94,
        ensures
            final(self).wf(),
            final(self).symbols() == old(self).symbols(),
            final(self)@ == graphic(
                old(self).symbols(),
                old(self)@,
                old(self)@.g[old(self)@.gr as int],
                idx,
                rest@,
            ).state,
            final(out)@ == old(out)@ + graphic(
                old(self).symbols(),
                old(self)@,
                old(self)@.g[old(self)@.gr as int],
                idx,
                rest@,
            ).text,
            used == 0,
    {
        let cs = self.g[self.gr];
        self.emit_char(cs, idx, rest, out);
        0
    }

    fn emit_char(&mut self, cs: CharSet, idx: u8, rest: &[u8], out: &mut String)
        requires
            old(self).wf(),
            idx < 94,
        ensures
            final(self).wf(),
            final(self).symbols() == old(self).symbols(),
            final(self)@ == graphic(old(self).symbols(), old(self)@, cs, idx, rest@).state,
            final(out)@ == old(out)@ + graphic(
                old(self).symbols(),
                old(self)@,
                cs,
                idx,
                rest@,
            ).text,
            graphic(old(self).symbols(), old(self)@, cs, idx, rest@).used == 0,
    {
        let ghost step = graphic(self.symbols(), self@, cs, idx, rest@);
        let row = self.kanji_ku;
        self.kanji_ku = None;
        match cs {
            CharSet::Kanji => {
                match row {
                    Some(ku) => {
                        if let Some(c) = decode_jis(ku, idx) {
                            out.push(c);
                        }
                    },
                    None => {
                        // A first byte with no character behind it is dropped.
                        if rest.len() == 0 || graphic_byte(rest[0]) {
                            self.kanji_ku = Some(idx);
                        }
                    },
                }
            },
            CharSet::Hiragana => push_kana(hiragana_cell(idx), out),
            CharSet::Katakana => push_kana(katakana_cell(idx), out),
            CharSet::Alphanumeric => out.push((idx + 0x21) as char),
            CharSet::HalfKatakana => {
                if idx < 63 {
                    if let Some(c) = char::from_u32(idx as u32 + 0xff61) {
                        out.push(c);
                    }
                }
            },
            CharSet::Drcs => out.push(GETA),
            CharSet::JisPlane2 => {
                match row {
                    Some(ku) => out.push(read_plane2(self.tables.plane2, ku, idx)),
                    None => {
                        self.kanji_ku = Some(idx);
                    },
                }
            },
            CharSet::AribSymbol => {
                match row {
                    Some(ku) => out.push(
                        if 89 <= ku && ku <= 93 {
                            table_char(
                                self.tables.additional,
                                (ku as usize - 89) * 94 + idx as usize,
                            )
                        } else {
                            GETA
                        },
                    ),
                    None => {
                        self.kanji_ku = Some(idx);
                    },
                }
            },
        }
        assert(out@ =~= old(out)@ + step.text);
    }
}

fn graphic_byte(b: u8) -> (is: bool)
    ensures
        is == is_graphic(b),
{
    (0x21 <= b && b <= 0x7e) || (0xa1 <= b && b <= 0xfe)
}

fn push_kana(cp: u32, out: &mut String)
    ensures
        final(out)@ == old(out)@ + kana_text(cp),
{
    assert(out@ + Seq::<char>::empty() =~= out@);
    if cp != 0 {
        let c = match char::from_u32(cp) {
            Some(c) => c,
            None => GETA,
        };
        out.push(c);
        assert(out@ =~= old(out)@ + seq![c]);
    }
}

/// How many bytes a control sequence takes: up to its final byte, or all.
pub fn skip_csi(rest: &[u8]) -> (used: usize)
    ensures
        used == csi_len(rest@),
        used <= rest@.len(),
{
    let mut i: usize = 0;
    assert(rest@.skip(0) =~= rest@);
    while i < rest.len()
        invariant
            i <= rest@.len(),
            csi_len(rest@) == i + csi_len(rest@.skip(i as int)),
        decreases rest@.len() - i,
    {
        let b = rest[i];
        if 0x40 <= b && b <= 0x7e {
            return i + 1;
        }
        assert(rest@.skip(i as int).skip(1) =~= rest@.skip(i + 1));
        i += 1;
    }
    i
}

/// Decodes a text by `tables`. Each text of a descriptor stands on its own.
pub fn decode_with(tables: SymbolTables<'_>, input: &[u8]) -> (out: String)
    ensures
        out@ == decoded(tables@, input@),
{
    let mut d = Decoder::new(tables);
    d.decode_bytes(input)
}

/// Decodes a text. Each text of a descriptor stands on its own.
pub fn decode(input: &[u8]) -> (out: String)
    ensures
        out@ == decoded(builtin_tables(), input@),
{
    let additional = ARIB_ADDITIONAL;
    let kanji = plane2_rows();
    let tables = SymbolTables { additional: &additional, plane2: &kanji };
    decode_with(tables, input)
}

// ---- Laws ------------------------------------------------------------------

/// A decoding depends on its bytes alone: whatever was decoded before or between,
/// the same bytes give the same text, and that is what a decoder gives that has
/// decoded nothing yet.
pub proof fn law_texts_stand_alone(first: &[u8], again: &[u8], text: String, text_again: String)
    requires
        first@ == again@,
        call_ensures(decode, (first,), text),
        call_ensures(decode, (again,), text_again),
    ensures
        text@ == text_again@,
        text@ == decoded_from(builtin_tables(), initial_state(), first@),
{
}

/// A text has no more characters than it has bytes, whatever the tables hold.
pub proof fn law_text_no_longer_than_input(t: TablesView, st: DecoderView, input: Seq<u8>)
    ensures
        decoded_from(t, st, input).len() <= input.len(),
    decreases input.len(),
{
    if input.len() > 0 {
        let s = step(t, st, input[0], input.skip(1));
        law_text_no_longer_than_input(t, s.state, behind(input, 1 + s.used));
    }
}

/// The characters that `bytes` are in ASCII.
pub open spec fn ascii_text(bytes: Seq<u8>) -> Seq<char> {
    bytes.map_values(|b: u8| b as char)
}

/// Behind a locking shift to G1 the printable bytes are ASCII, whatever the
/// tables hold.
pub proof fn law_ascii_behind_shift(t: TablesView, bytes: Seq<u8>)
    requires
        forall|i: int| 0 <= i < bytes.len() ==> 0x21 <= #[trigger] bytes[i] <= 0x7e,
    ensures
        decoded(t, seq![0x0eu8] + bytes) == ascii_text(bytes),
{
    let input = seq![0x0eu8] + bytes;
    let s = step(t, initial_state(), input[0], input.skip(1));
    assert(behind(input, 1) =~= bytes);
    lemma_ascii_from(t, s.state, bytes);
    assert(s.text + ascii_text(bytes) =~= ascii_text(bytes));
}

proof fn lemma_ascii_from(t: TablesView, st: DecoderView, bytes: Seq<u8>)
    requires
        forall|i: int| 0 <= i < bytes.len() ==> 0x21 <= #[trigger] bytes[i] <= 0x7e,
        st.gl_single is None,
        st.g[st.gl as int] == CharSet::Alphanumeric,
    ensures
        decoded_from(t, st, bytes) == ascii_text(bytes),
    decreases bytes.len(),
{
    if bytes.len() == 0 {
        assert(ascii_text(bytes) =~= Seq::<char>::empty());
    } else {
        let s = step(t, st, bytes[0], bytes.skip(1));
        assert(behind(bytes, 1) =~= bytes.skip(1));
        lemma_ascii_from(t, s.state, bytes.skip(1));
        assert(s.text + ascii_text(bytes.skip(1)) =~= ascii_text(bytes));
    }
}

} // verus!
