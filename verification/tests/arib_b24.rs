use dvb_rs::arib_b24::{decode, decode_jis, kanji_from_decoding, CharSet};

#[test]
fn arib_symbol_row90_col54_is_squared_kanji_te() {
    // ESC $ 3B → ARIB Additional Symbol Set to G0; LS0; then GL bytes 0x7A 0x56
    // → 1-based row 90, col 54 → ARIB-9054 → U+1F211 (🈑 squared CJK [手]).
    let raw: &[u8] = &[0x1b, 0x24, 0x3b, 0x0f, 0x7a, 0x56];
    let s = decode(raw);
    let c = s.chars().next().expect("should emit one char");
    assert_eq!(c as u32, 0x1F211, "expected U+1F211 (🈑)");
}

#[test]
fn arib_symbol_row93_col79_is_exclamation_question() {
    // GL bytes 0x7D 0x6F → 1-based row 93, col 79 → ARIB-9379 → U+2049 (⁉).
    let raw: &[u8] = &[0x1b, 0x24, 0x3b, 0x0f, 0x7d, 0x6f];
    let s = decode(raw);
    let c = s.chars().next().expect("should emit one char");
    assert_eq!(c as u32, 0x2049, "expected U+2049 (⁉)");
}

#[test]
fn kanji_of_the_first_set_are_decoded() {
    // 番組 (rows 40 and 33 of JIS X 0208).
    assert_eq!(decode(&[0x48, 0x56, 0x41, 0x48]), "番組");
    assert_eq!(decode_jis(0x48 - 0x21, 0x56 - 0x21), Some('番'));
}

#[test]
fn decodings_of_one_kanji_are_judged() {
    assert_eq!(kanji_from_decoding("番", false), Some('番'));
    assert_eq!(kanji_from_decoding("番", true), Some('〓'));
    assert_eq!(kanji_from_decoding("", false), None);
    assert_eq!(kanji_from_decoding("\u{fffd}", false), Some('〓'));
}

#[test]
fn shifts_and_kana() {
    // Locking shift 1: alphanumerics.
    assert_eq!(decode(b"\x0eNHK"), "NHK");
    // The right half is hiragana at the start.
    assert_eq!(decode(&[0xa2, 0xa4]), "あい");
    // Nothing comes of nothing.
    assert_eq!(decode(&[]), "");
}

#[test]
fn plane_two_kanji_are_decoded() {
    // ESC $ 3A designates JIS X 0213 plane 2 to G0; row 1, column 1.
    assert_eq!(decode(&[0x1b, 0x24, 0x3a, 0x0f, 0x21, 0x21]), "\u{20089}");
    // Row 94, column 86 is the last.
    assert_eq!(decode(&[0x1b, 0x24, 0x3a, 0x0f, 0x7e, 0x76]), "\u{2a6b2}");
    // Row 2 holds nothing.
    assert_eq!(decode(&[0x1b, 0x24, 0x3a, 0x0f, 0x22, 0x21]), "〓");
}

#[test]
fn character_sets_by_their_final_bytes() {
    assert!(matches!(CharSet::from_f(true, 0x3b), CharSet::AribSymbol));
    assert!(matches!(CharSet::from_f(true, 0x3a), CharSet::JisPlane2));
}

#[test]
fn a_text_is_no_longer_than_its_bytes() {
    let raw: Vec<u8> = (0..=255u8).collect();
    assert!(decode(&raw).chars().count() <= raw.len());
}

#[test]
fn texts_stand_alone() {
    let b: &[u8] = &[0xa2, 0xa4, 0x30, 0x21];
    let alone = decode(b);
    // Designations, locking and single shifts, and a first byte without a second.
    let before: [&[u8]; 5] = [
        &[0x1b, 0x24, 0x3b, 0x7a, 0x56],
        &[0x0e],
        &[0x1b, 0x7d],
        &[0x19],
        &[0x30],
    ];
    for a in before {
        decode(a);
        assert_eq!(decode(b), alone);
    }
}
