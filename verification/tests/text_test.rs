use secure_api_key::text::{
    collect_chars, count_char, decimal_string, decimal_string_unsigned, first_field, hex_string,
    parse_u32, same_text, split_text, text_starts_with, trim_text,
};

#[test]
fn decimal_notation_of_signed_numbers() {
    assert_eq!(decimal_string(0), "0");
    assert_eq!(decimal_string(7), "7");
    assert_eq!(decimal_string(10), "10");
    assert_eq!(decimal_string(-1), "-1");
    assert_eq!(decimal_string(1_700_000_000), "1700000000");
    assert_eq!(decimal_string(i64::MAX), "9223372036854775807");
    assert_eq!(decimal_string(i64::MIN), "-9223372036854775808");
    for v in [-1000i64, -999, -10, -9, 9, 99, 100, 101, 4_294_967_295] {
        assert_eq!(decimal_string(v), v.to_string());
    }
}

#[test]
fn decimal_notation_of_unsigned_numbers() {
    assert_eq!(decimal_string_unsigned(0), "0");
    assert_eq!(decimal_string_unsigned(65_535), "65535");
    assert_eq!(
        decimal_string_unsigned(u128::MAX),
        "340282366920938463463374607431768211455"
    );
}

#[test]
fn unsigned_numbers_are_read_as_written() {
    assert_eq!(parse_u32("0"), Some(0));
    assert_eq!(parse_u32("1700000000"), Some(1_700_000_000));
    assert_eq!(parse_u32("4294967295"), Some(u32::MAX));
    assert_eq!(parse_u32("+42"), Some(42));
    assert_eq!(parse_u32("000000000000000000000042"), Some(42));
    assert_eq!(parse_u32("+0"), Some(0));
}

#[test]
fn what_is_not_an_unsigned_number_is_not_read() {
    for text in [
        "",
        "+",
        "-",
        "-0",
        "-1",
        "++1",
        "+-1",
        "1+",
        " 1",
        "1 ",
        "1_000",
        "12a",
        "0x1f",
        "1.0",
        "４２",
        "4294967296",
        "99999999999999999999999999",
        "4294967296x",
    ] {
        assert_eq!(parse_u32(text), None, "{:?}", text);
    }
}

#[test]
fn reading_agrees_with_writing() {
    for n in [0u32, 1, 9, 10, 99, 100, 12345, 1_700_000_000, u32::MAX - 1, u32::MAX] {
        assert_eq!(parse_u32(&decimal_string(n as i64)), Some(n));
        assert_eq!(parse_u32(&n.to_string()), Some(n));
    }
}

#[test]
fn hexadecimal_notation_is_lower_case_two_digits_a_byte() {
    assert_eq!(hex_string(&[]), "");
    assert_eq!(hex_string(&[0]), "00");
    assert_eq!(hex_string(&[0x0f, 0xf0, 0xff]), "0ff0ff");
    assert_eq!(
        hex_string(&[0x01, 0x23, 0x45, 0x67, 0x89, 0xab, 0xcd, 0xef]),
        "0123456789abcdef"
    );
}

#[test]
fn texts_are_compared_by_their_characters() {
    assert!(same_text("", ""));
    assert!(same_text("acme", "acme"));
    assert!(same_text("clé", "clé"));
    assert!(!same_text("acme", "acmE"));
    assert!(!same_text("acme", "acme "));
    assert!(!same_text("", "a"));
    assert!(!same_text("cle", "clé"));
}

#[test]
fn texts_are_divided_at_every_separator() {
    assert_eq!(split_text("", '_'), vec![""]);
    assert_eq!(split_text("abc", '_'), vec!["abc"]);
    assert_eq!(split_text("a_b", '_'), vec!["a", "b"]);
    assert_eq!(split_text("_", '_'), vec!["", ""]);
    assert_eq!(split_text("a__b_", '_'), vec!["a", "", "b", ""]);
    assert_eq!(split_text("_é_ü", '_'), vec!["", "é", "ü"]);
    assert_eq!(split_text("1.2.3.4, 5.6.7.8", ','), vec!["1.2.3.4", " 5.6.7.8"]);
    for text in ["", "_", "a_b_c", "__x__", "no separator"] {
        let expected: Vec<&str> = text.split('_').collect();
        assert_eq!(split_text(text, '_'), expected);
    }
}

#[test]
fn characters_are_collected_in_order() {
    assert_eq!(collect_chars(""), Vec::<char>::new());
    assert_eq!(collect_chars("aé_"), vec!['a', 'é', '_']);
}

#[test]
fn beginning_of_a_text() {
    assert!(text_starts_with("Bearer x", "Bearer "));
    assert!(text_starts_with("Bearer ", "Bearer "));
    assert!(text_starts_with("anything", ""));
    assert!(text_starts_with("", ""));
    assert!(!text_starts_with("Bearer", "Bearer "));
    assert!(!text_starts_with("bearer x", "Bearer "));
    assert!(!text_starts_with(" Bearer x", "Bearer "));
    assert!(!text_starts_with("", "v"));
}

#[test]
fn white_space_is_taken_off_both_ends() {
    assert_eq!(trim_text(""), "");
    assert_eq!(trim_text("   "), "");
    assert_eq!(trim_text("a"), "a");
    assert_eq!(trim_text("  a b  "), "a b");
    assert_eq!(trim_text("\t\n 10.0.0.1\r\n"), "10.0.0.1");
    assert_eq!(trim_text("\u{a0}\u{2003}x\u{3000}\u{85}"), "x");
    // not white space: zero width space, and the letter next to a space
    assert_eq!(trim_text("\u{200b}x"), "\u{200b}x");
    for text in [
        " a ",
        "\u{1680}a\u{2028}\u{2029}",
        "\u{202f}\u{205f}é ",
        "\u{b}\u{c}x\u{1f}",
        "\u{180e}x",
    ] {
        assert_eq!(trim_text(text), text.trim());
    }
}

#[test]
fn occurrences_of_a_character_are_counted() {
    assert_eq!(count_char("", '_'), 0);
    assert_eq!(count_char("abc", '_'), 0);
    assert_eq!(count_char("a_b_c", '_'), 2);
    assert_eq!(count_char("___", '_'), 3);
    assert_eq!(count_char("é_é", 'é'), 2);
    for text in ["", "_", "a_b_c", "__x__", "no separator"] {
        assert_eq!(count_char(text, '_') + 1, split_text(text, '_').len());
    }
}

#[test]
fn first_field_is_what_stands_before_the_first_separator() {
    assert_eq!(first_field("", ','), "");
    assert_eq!(first_field("abc", ','), "abc");
    assert_eq!(first_field("a,b,c", ','), "a");
    assert_eq!(first_field(",b", ','), "");
    assert_eq!(first_field("é ü,b", ','), "é ü");
    for text in ["", ",", "a,b", "abc,", ",,", "no comma"] {
        assert_eq!(first_field(text, ','), split_text(text, ',')[0]);
    }
}
