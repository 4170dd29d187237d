use judge_compile::gcc::gcc_header;
use judge_compile::pattern::JAVA_CLASS;
use judge_compile::text::white_space;
use regex::Regex;

/// The zeros of all scripts; each is followed by the other nine digits.
const ZEROS: [u32; 76] = [
    0x30, 0x660, 0x6f0, 0x7c0, 0x966, 0x9e6, 0xa66, 0xae6,
    0xb66, 0xbe6, 0xc66, 0xce6, 0xd66, 0xde6, 0xe50, 0xed0,
    0xf20, 0x1040, 0x1090, 0x17e0, 0x1810, 0x1946, 0x19d0, 0x1a80,
    0x1a90, 0x1b50, 0x1bb0, 0x1c40, 0x1c50, 0xa620, 0xa8d0, 0xa900,
    0xa9d0, 0xa9f0, 0xaa50, 0xabf0, 0xff10, 0x104a0, 0x10d30, 0x10d40,
    0x11066, 0x110f0, 0x11136, 0x111d0, 0x112f0, 0x11450, 0x114d0, 0x11650,
    0x116c0, 0x116d0, 0x116da, 0x11730, 0x118e0, 0x11950, 0x11bf0, 0x11c50,
    0x11d50, 0x11da0, 0x11f50, 0x16130, 0x16a60, 0x16ac0, 0x16b50, 0x16d70,
    0x1ccf0, 0x1d7ce, 0x1d7d8, 0x1d7e2, 0x1d7ec, 0x1d7f6, 0x1e140, 0x1e2f0,
    0x1e4f0, 0x1e5f1, 0x1e950, 0x1fbf0,
];

fn all_characters() -> impl Iterator<Item = char> {
    (0..=0x10ffff).filter_map(char::from_u32)
}

#[test]
fn the_digits_of_a_pattern() {
    let digit = Regex::new(r"^\d$").unwrap();
    for c in all_characters() {
        let u = c as u32;
        let listed = ZEROS.iter().any(|z| *z <= u && u < *z + 10);
        assert_eq!(digit.is_match(&c.to_string()), listed, "{:x}", u);
    }
}

#[test]
fn the_white_space_of_a_pattern() {
    let space = Regex::new(r"^\s$").unwrap();
    for c in all_characters() {
        assert_eq!(space.is_match(&c.to_string()), white_space(c));
        assert_eq!(c.is_whitespace(), white_space(c));
    }
}

#[test]
fn digits_of_all_scripts_are_read() {
    for z in ZEROS {
        let nine = char::from_u32(z + 9).unwrap();
        let line = format!("a:{}:1: error: x", nine);
        assert_eq!(gcc_header(&line).unwrap().line, nine.to_string());
    }
}

#[test]
fn the_characters_of_a_name() {
    let class = Regex::new(JAVA_CLASS).unwrap();
    for c in all_characters() {
        let named = c.is_ascii_alphanumeric() || c == '_' || c == '$';
        assert_eq!(class.is_match(&format!("public class {}", c)), named, "{:x}", c as u32);
    }
}
