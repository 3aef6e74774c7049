use http11::grammar::{
    is_cr, is_hex_digit, is_horizontal_tab, is_lf, is_space, is_token, is_token_char,
    is_upper_alpha, is_vchar_sequence, is_vchar_sequence_with_white_space, is_visible_char,
    replace_white_space, to_lower_case,
};

#[test]
fn test_token_char() {
    for i in 65..91 {
        assert_eq!(is_token_char(i), true);
    }

    for i in 97..123 {
        assert_eq!(is_token_char(i), true);
    }
}

#[test]
fn test_hex_digits() {
    let str = "0123456789ABCDEFabcdef";
    let digits: Vec<char> = str.chars().collect();
    let digits: Vec<u8> = digits.into_iter().map(|c| c as u8).collect();

    for i in 0..=255 {
        assert_eq!(digits.contains(&i), is_hex_digit(i));
    }
}

#[test]
fn token_chars_exclude_controls_separators_and_high_octets() {
    let separators = "()<>@,;:\\\"/[]?={} \t";
    for i in 0..=255u8 {
        let expected = i > 31 && i < 127 && !separators.as_bytes().contains(&i);
        assert_eq!(is_token_char(i), expected, "octet {}", i);
    }
}

#[test]
fn visible_chars_are_0x21_to_0x7e() {
    for i in 0..=255u8 {
        assert_eq!(is_visible_char(i), (0x21..=0x7e).contains(&i));
    }
}

#[test]
fn single_octet_predicates() {
    assert!(is_cr(b'\r') && !is_cr(b'\n'));
    assert!(is_lf(b'\n') && !is_lf(b'\r'));
    assert!(is_space(b' ') && !is_space(b'\t'));
    assert!(is_horizontal_tab(b'\t') && !is_horizontal_tab(b' '));
    assert!(is_upper_alpha(b'A') && is_upper_alpha(b'Z'));
    assert!(!is_upper_alpha(b'@') && !is_upper_alpha(b'[') && !is_upper_alpha(b'a'));
}

#[test]
fn lower_case_fold_moves_only_upper_case_letters() {
    for i in 0..=255u8 {
        let expected = if i.is_ascii_uppercase() { i + 32 } else { i };
        assert_eq!(to_lower_case(i), expected);
    }
}

#[test]
fn sequences_are_checked_octet_by_octet() {
    assert!(is_token(b"Content-Length"));
    assert!(is_token(b""));
    assert!(!is_token(b"accept "));
    assert!(!is_token(b"a:b"));
    assert!(is_vchar_sequence(b"*/*"));
    assert!(!is_vchar_sequence(b"a b"));
    assert!(is_vchar_sequence_with_white_space(b"a b\tc"));
    assert!(!is_vchar_sequence_with_white_space(b"a\x12b"));
    assert!(!is_vchar_sequence_with_white_space(b"a\r\nb"));
}

#[test]
fn runs_of_blanks_become_one_space() {
    assert_eq!(replace_white_space("a  \t b"), "a b");
    assert_eq!(replace_white_space("\t\tx"), " x");
    assert_eq!(replace_white_space("x \t"), "x ");
    assert_eq!(replace_white_space("abc"), "abc");
    assert_eq!(replace_white_space(""), "");
    assert_eq!(replace_white_space("a\tb c"), "a b c");
}

#[test]
fn other_white_space_is_left_alone() {
    assert_eq!(replace_white_space("a\n\nb"), "a\n\nb");
    assert_eq!(replace_white_space("a\u{a0} b"), "a\u{a0} b");
}

#[test]
fn table_of_truth_values() {
    let mut bytes = [0u8; 256];
    bytes[3] = 1;
    bytes[255] = 200;
    let table = http11::grammar::byte_to_bool(bytes);
    for i in 0..256 {
        assert_eq!(table[i], i == 3 || i == 255);
    }
}
