use pngme::chunk_type::{check_fifth_bit, ChunkType};
use pngme::Error;
use std::convert::TryFrom;
use std::str::FromStr;

fn flags(code: &str) -> (bool, bool, bool, bool) {
    let chunk_type = ChunkType::from_str(code).unwrap();
    (
        chunk_type.is_critical(),
        chunk_type.is_public(),
        chunk_type.is_reserved_bit_valid(),
        chunk_type.is_safe_to_copy(),
    )
}

#[test]
fn flags_follow_the_case_of_each_letter() {
    assert_eq!(flags("RuSt"), (true, false, true, true));
    assert_eq!(flags("ruSt"), (false, false, true, true));
    assert_eq!(flags("RUSt"), (true, true, true, true));
    assert_eq!(flags("Rust"), (true, false, false, true));
    assert_eq!(flags("RuST"), (true, false, true, false));
    assert_eq!(flags("RUST"), (true, true, true, false));
    assert_eq!(flags("rust"), (false, false, false, true));
}

#[test]
fn fifth_bit_is_the_bit_of_value_32() {
    assert!(!check_fifth_bit(&0));
    assert!(check_fifth_bit(&32));
    assert!(!check_fifth_bit(&b'A'));
    assert!(check_fifth_bit(&b'a'));
    assert!(!check_fifth_bit(&b'Z'));
    assert!(check_fifth_bit(&b'z'));
    assert!(!check_fifth_bit(&0b1101_1111));
    assert!(check_fifth_bit(&0b1111_1111));
    assert!(check_fifth_bit(&b'1'));
}

#[test]
fn text_with_a_digit_is_refused() {
    assert_eq!(ChunkType::from_str("Ru1t"), Err(Error::FormatError));
}

#[test]
fn text_of_three_letters_is_refused() {
    assert_eq!(ChunkType::from_str("Rus"), Err(Error::FormatError));
}

#[test]
fn text_of_another_length_is_refused() {
    assert_eq!(ChunkType::from_str(""), Err(Error::FormatError));
    assert_eq!(ChunkType::from_str("R"), Err(Error::FormatError));
    assert_eq!(ChunkType::from_str("RuStx"), Err(Error::FormatError));
    assert_eq!(ChunkType::from_str("RuStRuSt"), Err(Error::FormatError));
}

#[test]
fn text_with_anything_but_letters_is_refused() {
    assert_eq!(ChunkType::from_str("Ru t"), Err(Error::FormatError));
    assert_eq!(ChunkType::from_str("RuS\n"), Err(Error::FormatError));
    assert_eq!(ChunkType::from_str("\nRuS"), Err(Error::FormatError));
    assert_eq!(ChunkType::from_str("Ru_t"), Err(Error::FormatError));
    assert_eq!(ChunkType::from_str("R-St"), Err(Error::FormatError));
    assert_eq!(ChunkType::from_str("@uSt"), Err(Error::FormatError));
    assert_eq!(ChunkType::from_str("[uSt"), Err(Error::FormatError));
    assert_eq!(ChunkType::from_str("`uSt"), Err(Error::FormatError));
    assert_eq!(ChunkType::from_str("{uSt"), Err(Error::FormatError));
    assert_eq!(ChunkType::from_str("\0\0\0\0"), Err(Error::FormatError));
}

#[test]
fn text_that_is_not_ascii_is_refused() {
    // four bytes, three characters
    assert_eq!(ChunkType::from_str("\u{e9}ab"), Err(Error::FormatError));
    // four characters, five bytes
    assert_eq!(ChunkType::from_str("\u{e9}abc"), Err(Error::FormatError));
    // four bytes, one character
    assert_eq!(ChunkType::from_str("\u{1f600}"), Err(Error::FormatError));
    // a letter of another alphabet, two bytes each
    assert_eq!(ChunkType::from_str("\u{3b1}\u{3b2}"), Err(Error::FormatError));
}

#[test]
fn text_of_four_letters_gives_their_bytes() {
    assert_eq!(ChunkType::from_str("AZaz").unwrap().bytes(), [65, 90, 97, 122]);
    assert_eq!(ChunkType::from_str("IEND").unwrap().bytes(), [73, 69, 78, 68]);
    assert_eq!(ChunkType::from_str("tEXt").unwrap().bytes(), *b"tEXt");
}

#[test]
fn any_four_bytes_are_taken_as_they_are() {
    let chunk_type = ChunkType::try_from([0, 255, 49, 128]).unwrap();
    assert_eq!(chunk_type.bytes(), [0, 255, 49, 128]);
}

#[test]
fn a_code_is_valid_when_all_bytes_are_ascii() {
    assert!(ChunkType::try_from([0, 1, 126, 127]).unwrap().is_valid());
    assert!(ChunkType::try_from(*b"Ru1t").unwrap().is_valid());
    assert!(!ChunkType::try_from([128, 65, 65, 65]).unwrap().is_valid());
    assert!(!ChunkType::try_from([65, 200, 65, 65]).unwrap().is_valid());
    assert!(!ChunkType::try_from([65, 65, 255, 65]).unwrap().is_valid());
    assert!(!ChunkType::try_from([65, 65, 65, 128]).unwrap().is_valid());
}

#[test]
fn a_code_is_a_text_when_its_bytes_are_utf8() {
    assert!(ChunkType::try_from(*b"RuSt").unwrap().is_text());
    assert!(ChunkType::try_from(*b"Ru1t").unwrap().is_text());
    // "é" and two letters
    assert!(ChunkType::try_from([0xc3, 0xa9, 65, 66]).unwrap().is_text());
    assert!(!ChunkType::try_from([0xff, 65, 66, 67]).unwrap().is_text());
    // the first byte of a character of two bytes at the end
    assert!(!ChunkType::try_from([65, 66, 67, 0xc3]).unwrap().is_text());
}

#[test]
fn a_code_of_bytes_reads_as_the_text_they_encode() {
    assert_eq!(ChunkType::try_from(*b"Ru1t").unwrap().to_string(), "Ru1t");
    assert_eq!(ChunkType::try_from([0xc3, 0xa9, 65, 66]).unwrap().to_string(), "\u{e9}AB");
}

#[test]
fn a_code_is_compared_with_a_text_by_its_bytes() {
    let chunk_type = ChunkType::from_str("ruSt").unwrap();
    assert!(chunk_type.is_text_of("ruSt"));
    assert!(!chunk_type.is_text_of("RuSt"));
    assert!(!chunk_type.is_text_of("ruS"));
    assert!(!chunk_type.is_text_of("ruStx"));
    assert!(!chunk_type.is_text_of(""));
    assert!(ChunkType::try_from([0xc3, 0xa9, 65, 66]).unwrap().is_text_of("\u{e9}AB"));
    assert!(!ChunkType::try_from([0xff, 65, 66, 67]).unwrap().is_text_of("\u{ff}ABC"));
}

#[test]
fn codes_are_equal_when_their_bytes_are() {
    let a = ChunkType::try_from(*b"RuSt").unwrap();
    let b = ChunkType::from_str("RuSt").unwrap();
    let c = ChunkType::from_str("RuST").unwrap();
    assert!(a == b);
    assert!(a != c);
}

#[test]
fn bytes_that_only_look_like_utf8_are_no_text() {
    // "/" written with two bytes
    assert!(!ChunkType::try_from([0xc0, 0xaf, 65, 66]).unwrap().is_text());
    // a character of three bytes written with four
    assert!(!ChunkType::try_from([0xf0, 0x82, 0x82, 0xac]).unwrap().is_text());
    // one half of a surrogate pair
    assert!(!ChunkType::try_from([0xed, 0xa0, 0x80, 65]).unwrap().is_text());
    // behind the last character that there is
    assert!(!ChunkType::try_from([0xf4, 0x90, 0x80, 0x80]).unwrap().is_text());
    assert!(!ChunkType::try_from([0xf5, 0x80, 0x80, 0x80]).unwrap().is_text());
    // a byte that continues nothing
    assert!(!ChunkType::try_from([0x80, 65, 66, 67]).unwrap().is_text());
    // a character of three bytes without its last byte
    assert!(!ChunkType::try_from([65, 0xe2, 0x82, 66]).unwrap().is_text());
}

#[test]
fn characters_of_every_width_are_text() {
    assert_eq!(ChunkType::try_from([0, 0x7f, 65, 66]).unwrap().to_string(), "\0\u{7f}AB");
    assert_eq!(ChunkType::try_from([0xc2, 0x80, 0xdf, 0xbf]).unwrap().to_string(), "\u{80}\u{7ff}");
    assert_eq!(ChunkType::try_from([0xe2, 0x82, 0xac, 65]).unwrap().to_string(), "\u{20ac}A");
    assert_eq!(ChunkType::try_from([0xef, 0xbf, 0xbf, 65]).unwrap().to_string(), "\u{ffff}A");
    assert_eq!(ChunkType::try_from([0xf0, 0x90, 0x80, 0x80]).unwrap().to_string(), "\u{10000}");
    assert_eq!(ChunkType::try_from([0xf4, 0x8f, 0xbf, 0xbf]).unwrap().to_string(), "\u{10ffff}");
    assert_eq!(ChunkType::try_from([0xed, 0x9f, 0xbf, 65]).unwrap().to_string(), "\u{d7ff}A");
    assert_eq!(ChunkType::try_from([0xee, 0x80, 0x80, 65]).unwrap().to_string(), "\u{e000}A");
}

#[test]
fn the_pattern_for_type_texts_asks_for_letters_from_end_to_end() {
    assert_eq!(pngme::chunk_type::LETTERS, "^[a-zA-Z]+$");
}

#[test]
fn a_text_is_a_type_code_exactly_when_it_is_four_letters() {
    let alphabet = ['A', 'Z', 'a', 'z', '@', '[', '`', '{', '\n', '\u{e9}'];
    let mut texts = vec![String::new()];
    for _ in 0..4 {
        let longer: Vec<String> = texts
            .iter()
            .flat_map(|text| alphabet.iter().map(move |c| format!("{}{}", text, c)))
            .collect();
        texts = longer;
        for text in texts.iter().step_by(7) {
            let letters = text.chars().all(|c| c.is_ascii_alphabetic());
            let expected = text.chars().count() == 4 && letters;
            assert_eq!(ChunkType::from_str(text).is_ok(), expected, "{:?}", text);
            if expected {
                assert_eq!(ChunkType::from_str(text).unwrap().bytes(), text.as_bytes());
            }
        }
    }
    assert_eq!(texts.len(), 10000);
}
