use recloset::ids::{find_id, first_free};
use recloset::text::{
    append, append_str, blank, chars_of, decimal_of, decimal_up_to, digit, digit_to_char,
    digits_only, framed, hex_digit, hex_digit_to_char, is_text, join, lines_of, parse_i32,
    parse_unsigned, position, same, same_str, slice, space, string_of, fold_char, to_folded,
    trimmed,
};

fn text(v: &Vec<char>) -> String {
    v.iter().collect()
}

#[test]
fn white_space_is_what_the_standard_says() {
    for code in 0..=0x10FFFFu32 {
        if let Some(c) = char::from_u32(code) {
            assert_eq!(space(c), c.is_whitespace(), "U+{:04X}", code);
        }
    }
}

#[test]
fn a_character_is_folded_where_its_lower_case_is_ascii() {
    let mut folded = Vec::new();
    for code in 0..=0x10FFFFu32 {
        if let Some(c) = char::from_u32(code) {
            let lower: String = c.to_lowercase().collect();
            if lower.is_ascii() {
                assert_eq!(lower, fold_char(c).to_string(), "U+{:04X}", code);
            } else {
                assert_eq!(fold_char(c), c, "U+{:04X}", code);
            }
            if fold_char(c) != c {
                folded.push(c);
            }
        }
    }
    let mut expected: Vec<char> = ('A'..='Z').collect();
    expected.push('\u{212A}');
    assert_eq!(folded, expected);
}

#[test]
fn folding_tells_an_ascii_word_as_lower_casing_does() {
    let words = ["keep", "chest", "exit", "sale for $1.50", "y", "k", ""];
    let texts = [
        "keep", "KEEP", "Keep", "\u{212A}eep", "\u{212A}EEP", "kee\u{3C1}", "ke\u{0130}p", "CHEST",
        "chest ", "EXIT", "e\u{445}it", "SALE FOR $1.50", "Sale for $1.5\u{660}", "Y", "\u{212A}", "K",
        "\u{3A3}", "\u{130}", "", "ÀbC-Z é K",
    ];
    for t in texts {
        let got = text(&to_folded(&chars_of(t)));
        for w in words {
            assert_eq!(got == w, t.to_lowercase() == w, "{:?} {:?}", t, w);
        }
    }
    assert_eq!(text(&to_folded(&chars_of("ÀbC-Z é \u{212A}K"))), "Àbc-z é kk");
}

#[test]
fn digits_are_ascii() {
    for code in 0..=0x10FFFFu32 {
        if let Some(c) = char::from_u32(code) {
            assert_eq!(digit(c), c.to_digit(10).filter(|_| c.is_ascii()).map(|d| d as u8));
            assert_eq!(hex_digit(c), c.to_digit(16).filter(|_| c.is_ascii()).map(|d| d as u8));
        }
    }
    for d in 0..10u8 {
        assert_eq!(digit(digit_to_char(d)), Some(d));
    }
    for d in 0..16u8 {
        assert_eq!(hex_digit(hex_digit_to_char(d)), Some(d));
        assert_eq!(
            hex_digit_to_char(d),
            char::from_digit(d as u32, 16).unwrap().to_ascii_uppercase()
        );
    }
}

#[test]
fn strings_and_characters_convert_both_ways() {
    for s in ["", "a", "héllo wörld", "日本語\n", "\u{10FFFF}x"] {
        let v = chars_of(s);
        assert_eq!(v, s.chars().collect::<Vec<char>>());
        assert_eq!(string_of(&v), s);
        assert!(is_text(&v, s));
        assert!(same(&v, &s.chars().collect()));
        assert!(same_str(s, &s.to_string()));
    }
    assert!(!same_str("ab", "abc"));
    assert!(!same_str("ab", "aB"));
    assert!(!is_text(&chars_of("ab"), "ba"));
    let mut v = chars_of("ab");
    append(&mut v, &chars_of("cd"));
    append_str(&mut v, "éf");
    assert_eq!(text(&v), "abcdéf");
    assert_eq!(text(&slice(&v, 1, 5)), "bcdé");
    assert_eq!(text(&slice(&v, 2, 2)), "");
    assert_eq!(framed("<", &chars_of("é"), ">"), "<é>");
    assert_eq!(position(&v, 0, 'c'), 2);
    assert_eq!(position(&v, 3, 'c'), 6);
    assert_eq!(position(&v, 0, 'z'), 6);
    assert_eq!(position(&v, 6, 'a'), 6);
}

#[test]
fn trimming_is_what_the_standard_does() {
    let samples = [
        "",
        " ",
        "a",
        "  a b  ",
        "\t\r\n x \u{00A0}\u{3000}",
        "\u{0085}y\u{2028}\u{2029}",
        "\u{200B}z\u{200B}",
        "\u{1680}\u{2000}\u{200A}\u{202F}\u{205F}",
        " é ",
    ];
    for s in samples {
        assert_eq!(text(&trimmed(&chars_of(s))), s.trim(), "{:?}", s);
        assert_eq!(blank(&chars_of(s)), s.trim().is_empty(), "{:?}", s);
    }
}

#[test]
fn lines_are_what_the_standard_gives() {
    let samples = [
        "",
        "\n",
        "a",
        "a\n",
        "a\nb",
        "a\r\nb\r\n",
        "a\r",
        "a\r\r\nb",
        "\r\n\r\n",
        "\n\na\n\n",
        "a\rb\nc",
        "é\n\u{2028}\n",
    ];
    for s in samples {
        let got: Vec<String> = lines_of(&chars_of(s)).iter().map(text).collect();
        let want: Vec<String> = s.lines().map(String::from).collect();
        assert_eq!(got, want, "{:?}", s);
    }
}

#[test]
fn numbers_are_read_as_the_standard_reads_them() {
    let samples = [
        "", "0", "-0", "+0", "7", "-7", "+7", "007", "2147483647", "2147483648", "-2147483648",
        "-2147483649", "99999999999999999999", "-", "+", "--1", "+-1", "1-", " 1", "1 ", "1.0",
        "0x1", "١٢", "4294967295", "4294967296", "18446744073709551615", "18446744073709551616",
        "00000000000000000000000000000000000000000001",
    ];
    for s in samples {
        let v = chars_of(s);
        assert_eq!(parse_i32(&v), s.parse::<i32>().ok(), "{:?}", s);
        assert_eq!(parse_unsigned(&v, u32::MAX as u64), s.parse::<u32>().ok().map(u64::from), "{:?}", s);
        assert_eq!(parse_unsigned(&v, u64::MAX), s.parse::<u64>().ok(), "{:?}", s);
        assert_eq!(digits_only(&v), s.chars().all(|c| c.is_ascii_digit()), "{:?}", s);
    }
    assert_eq!(decimal_up_to(&chars_of("123"), 123), Some(123));
    assert_eq!(decimal_up_to(&chars_of("124"), 123), None);
    assert_eq!(decimal_up_to(&chars_of(""), 0), Some(0));
    for n in [0u64, 1, 9, 10, 11, 99, 100, 2075, 4294967295, u64::MAX] {
        assert_eq!(text(&decimal_of(n)), n.to_string());
        assert_eq!(decimal_up_to(&decimal_of(n), u64::MAX), Some(n));
    }
}

#[test]
fn parts_are_joined_with_the_separator_between_them() {
    let parts = |items: &[&str]| items.iter().map(|s| chars_of(s)).collect::<Vec<Vec<char>>>();
    for items in [&[][..], &["a"][..], &["a", "b"][..], &["", "", ""][..], &["x", "", "é"][..]] {
        for sep in ["", "\n", "\n\n", ", "] {
            assert_eq!(text(&join(&parts(items), sep)), items.join(sep));
        }
    }
}

#[test]
fn ids_are_found_and_the_smallest_free_one_is_handed_out() {
    let ids = vec![3, 0, 1, 5, 1];
    assert_eq!(find_id(&ids, 3), Some(0));
    assert_eq!(find_id(&ids, 1), Some(2));
    assert_eq!(find_id(&ids, 5), Some(3));
    assert_eq!(find_id(&ids, 2), None);
    assert_eq!(find_id(&Vec::new(), 0), None);
    assert_eq!(first_free(&ids), 2);
    assert_eq!(first_free(&Vec::new()), 0);
    assert_eq!(first_free(&vec![1, 2, 3]), 0);
    assert_eq!(first_free(&vec![0, 1, 2, 3]), 4);
    assert_eq!(first_free(&vec![u32::MAX, 0]), 1);
}
