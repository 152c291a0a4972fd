use pngme::chunk_type::ChunkType;

/// The first character that `bytes` encode in UTF-8 and the number of bytes
/// that it takes, by the rules of the encoding.
fn first_char(bytes: &[u8]) -> Option<(char, usize)> {
    let continues = |i: usize| i < bytes.len() && (0x80..=0xbf).contains(&bytes[i]);
    let tail = |i: usize| (bytes[i] & 0x3f) as u32;
    let b0 = *bytes.first()?;
    let (code, len) = if b0 <= 0x7f {
        (b0 as u32, 1)
    } else if (0xc0..=0xdf).contains(&b0) && continues(1) {
        (((b0 & 0x1f) as u32) << 6 | tail(1), 2)
    } else if (0xe0..=0xef).contains(&b0) && continues(1) && continues(2) {
        (((b0 & 0x0f) as u32) << 12 | tail(1) << 6 | tail(2), 3)
    } else if (0xf0..=0xf7).contains(&b0) && continues(1) && continues(2) && continues(3) {
        (((b0 & 0x07) as u32) << 18 | tail(1) << 12 | tail(2) << 6 | tail(3), 4)
    } else {
        return None;
    };
    let shortest = match len {
        1 => true,
        2 => 0x80 <= code,
        3 => 0x800 <= code,
        _ => 0x10000 <= code && code <= 0x10ffff,
    };
    let surrogate = (0xd800..=0xdfff).contains(&code);
    if shortest && !surrogate {
        Some((char::from_u32(code).unwrap(), len))
    } else {
        None
    }
}

/// The text that `bytes` encode in UTF-8, if they encode one.
fn decoded(bytes: &[u8]) -> Option<String> {
    let mut text = String::new();
    let mut at = 0;
    while at < bytes.len() {
        let (c, len) = first_char(&bytes[at..])?;
        text.push(c);
        at += len;
    }
    Some(text)
}

fn agrees(bytes: [u8; 4]) {
    let chunk_type = ChunkType::try_from(bytes).unwrap();
    let expected = decoded(&bytes);
    assert_eq!(chunk_type.is_text(), expected.is_some(), "{:?}", bytes);
    if let Some(text) = expected {
        assert_eq!(chunk_type.to_string(), text, "{:?}", bytes);
        assert!(chunk_type.is_text_of(&text), "{:?}", bytes);
    }
}

#[test]
fn every_pair_of_bytes_is_text_by_the_rules_of_utf8() {
    for b0 in 0..=255 {
        for b1 in 0..=255 {
            agrees([b0, b1, 65, 66]);
            agrees([65, b0, b1, 66]);
            agrees([65, 66, b0, b1]);
        }
    }
}

#[test]
fn every_character_of_three_bytes_is_text_by_the_rules_of_utf8() {
    for b0 in 0xe0..=0xef {
        for b1 in 0..=255 {
            for b2 in (0..=255).step_by(3) {
                agrees([b0, b1, b2, 65]);
                agrees([65, b0, b1, b2]);
            }
        }
    }
}

#[test]
fn every_character_of_four_bytes_is_text_by_the_rules_of_utf8() {
    for b0 in 0xf0..=0xff {
        for b1 in 0..=255 {
            for b2 in [0x00, 0x7f, 0x80, 0x8f, 0x90, 0xa0, 0xbf, 0xc0, 0xff] {
                for b3 in [0x00, 0x7f, 0x80, 0xbf, 0xc0, 0xff] {
                    agrees([b0, b1, b2, b3]);
                }
            }
        }
    }
}
