//! Text primitives, held against the standard library where it has the same ones.

use local_transfer_core::text::{
    char_is_control, char_is_whitespace, decimal_text, decode_hex, hex_text,
    longest_fitting_prefix, parse_canonical_decimal, split_text, text_precedes, trim_text,
};

#[test]
fn character_classes_are_those_of_unicode() {
    for c in '\0'..=char::MAX {
        assert_eq!(char_is_whitespace(c), c.is_whitespace(), "{c:?}");
        assert_eq!(char_is_control(c), c.is_control(), "{c:?}");
    }
}

#[test]
fn trimming_removes_unicode_whitespace_at_both_ends() {
    for text in ["", " ", "a", "\u{3000} a b\u{a0}", "\t\n", "\u{200b}a ", "a\u{2028}"] {
        assert_eq!(trim_text(text), text.trim());
    }
}

#[test]
fn texts_are_ordered_like_their_encodings() {
    let texts = ["", "a", "aa", "b", "é", "界", "\u{ffff}", "\u{10000}"];
    for a in texts {
        for b in texts {
            assert_eq!(text_precedes(a, b), a < b);
        }
    }
}

#[test]
fn decimal_notation_is_canonical() {
    assert_eq!(decimal_text(0), "0");
    assert_eq!(decimal_text(u64::MAX), "18446744073709551615");
    for n in [0, 1, 9, 10, 4242, 65535] {
        assert_eq!(parse_canonical_decimal(decimal_text(n.into()).as_bytes()), Some(n));
    }
    for bytes in ["", "+1", "-1", "01", "00", "65536", "100000", "1 ", "a"] {
        assert_eq!(parse_canonical_decimal(bytes.as_bytes()), None, "{bytes:?}");
    }
}

#[test]
fn hexadecimal_notation_is_canonical() {
    assert_eq!(hex_text(&[0x00, 0x7f, 0xab]), "007fab");
    assert_eq!(decode_hex("007fab"), Some(vec![0x00, 0x7f, 0xab]));
    for text in ["", "0", "0g", "AB", "é", "00 "] {
        assert_eq!(decode_hex(text), None, "{text:?}");
    }
}

#[test]
fn splitting_keeps_empty_parts() {
    for text in ["", "a", " ", "a b", " a  b "] {
        assert_eq!(split_text(text, ' '), text.split(' ').collect::<Vec<_>>());
    }
}

#[test]
fn prefixes_end_at_a_character_boundary() {
    assert_eq!(longest_fitting_prefix("aé界", 6), "aé界");
    assert_eq!(longest_fitting_prefix("aé界", 5), "aé");
    assert_eq!(longest_fitting_prefix("aé界", 2), "a");
    assert_eq!(longest_fitting_prefix("aé界", 0), "");
}
