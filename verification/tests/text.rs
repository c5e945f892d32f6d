use webserver::text::{
    append_chars, chars_of, find_char, line_at, occurs_at, parse_decimal, push_decimal,
    remove_last, replace, slice_of, starts_with, string_of, white_space, word,
};

fn replaced(s: &str, pat: &str, with: &str) -> String {
    string_of(&replace(&chars_of(s), &chars_of(pat), &chars_of(with)))
}

#[test]
fn strings_and_characters_convert_both_ways() {
    for s in ["", "a", "GET / HTTP/1.1\r\n", "gr\u{fc}\u{df}e \u{8d8a}\u{1f980}", "\0\0\0"] {
        let chars = chars_of(s);
        assert_eq!(chars, s.chars().collect::<Vec<char>>());
        assert_eq!(string_of(&chars), s);
    }
}

#[test]
fn append_chars_puts_the_tail_behind() {
    let mut out = vec!['a', 'b'];
    append_chars(&mut out, &vec!['c', 'd', 'e']);
    assert_eq!(out, vec!['a', 'b', 'c', 'd', 'e']);
    append_chars(&mut out, &Vec::new());
    assert_eq!(out.len(), 5);
}

#[test]
fn occurs_at_finds_the_pattern_in_place() {
    let s = chars_of("abcabc");
    assert!(occurs_at(&s, 0, &chars_of("abc")));
    assert!(!occurs_at(&s, 1, &chars_of("abc")));
    assert!(occurs_at(&s, 3, &chars_of("abc")));
    assert!(!occurs_at(&s, 4, &chars_of("abc")));
    assert!(occurs_at(&s, 6, &chars_of("")));
    assert!(!occurs_at(&s, 6, &chars_of("a")));
    assert!(starts_with(&s, &chars_of("abca")));
    assert!(!starts_with(&s, &chars_of("abcabca")));
    assert!(starts_with(&s, &chars_of("")));
}

#[test]
fn replace_agrees_with_the_standard_library() {
    let subjects = [
        "",
        "a",
        "aaa",
        "aaaa",
        "abababa",
        "GET /a/b GET /c",
        "Port: 7878",
        "Port: Port: 1",
        "PortPort: : 1",
        "{\"path\":\"./www/a{b}.html\",\"public\":true}",
        "C:\\www\\index.html",
        "gr\u{fc}\u{df}e",
        "}{",
    ];
    let patterns = ["a", "aa", "aba", "GET /", "Port: ", "{", "}", "\\", "\u{fc}", "", "abababa", "abababab"];
    let withs = ["", "/", "{\n", "\n},", "aa", "xyz"];
    for s in subjects {
        for pat in patterns {
            for with in withs {
                assert_eq!(replaced(s, pat, with), s.replace(pat, with), "{:?} {:?} {:?}", s, pat, with);
            }
        }
    }
}

#[test]
fn replace_takes_matches_from_the_left_without_overlap() {
    assert_eq!(replaced("aaa", "aa", "b"), "ba");
    assert_eq!(replaced("abababa", "aba", "-"), "-b-");
    assert_eq!(replaced("abc", "", "-"), "-a-b-c-");
    assert_eq!(replaced("", "", "-"), "-");
    assert_eq!(replaced("", "x", "-"), "");
    assert_eq!(replaced("PortPort: : 1", "Port: ", ""), "Port: 1");
}

#[test]
fn find_char_gives_the_first_from_the_start_index() {
    let s = chars_of("a?b?c");
    assert_eq!(find_char(&s, 0, '?'), 1);
    assert_eq!(find_char(&s, 1, '?'), 1);
    assert_eq!(find_char(&s, 2, '?'), 3);
    assert_eq!(find_char(&s, 4, '?'), 5);
    assert_eq!(find_char(&s, 5, '?'), 5);
    assert_eq!(find_char(&s, 0, 'z'), 5);
    assert_eq!(slice_of(&s, 1, 4), chars_of("?b?"));
    assert_eq!(slice_of(&s, 2, 2), Vec::<char>::new());
}

#[test]
fn line_agrees_with_split_on_line_feeds() {
    let subjects = [
        "",
        "\n",
        "one",
        "one\n",
        "one\ntwo",
        "#Config for WebServer\nPort: 7878\nThreadPoolSize: 5\n",
        "\n\n\n",
        "a\r\nb\r\nc",
    ];
    for s in subjects {
        let pieces: Vec<&str> = s.split("\n").collect();
        for k in 0..6usize {
            let got = line_at(&chars_of(s), k).map(|l| string_of(&l));
            let want = pieces.get(k).map(|p| p.to_string());
            assert_eq!(got, want, "{:?} line {}", s, k);
        }
    }
}

#[test]
fn white_space_agrees_with_the_standard_library() {
    let mut count = 0;
    for n in 0..=0x10ffffu32 {
        if let Some(c) = char::from_u32(n) {
            assert_eq!(white_space(c), c.is_whitespace(), "U+{:04X}", n);
            if white_space(c) {
                count += 1;
            }
        }
    }
    assert_eq!(count, 25);
    assert!(white_space(' ') && white_space('\n') && white_space('\u{a0}'));
    assert!(!white_space('\0') && !white_space('.') && !white_space('\u{8d8a}'));
}

#[test]
fn word_agrees_with_split_whitespace() {
    let subjects = [
        "",
        " ",
        "  \t\n",
        "one",
        "one two",
        "  one\ttwo",
        "./www/index.html HTTP/1.1\r\nHost: x\r\n\r\n\0\0\0",
        "\u{2003}em\u{a0}space",
        "./www/a\u{3000}b",
        "\0\0",
    ];
    for s in subjects {
        let got = string_of(&word(&chars_of(s)));
        let want = s.split_whitespace().next().unwrap_or("");
        assert_eq!(got, want, "{:?}", s);
    }
}

#[test]
fn remove_last_drops_one_character() {
    let mut s = chars_of("[\n{},");
    remove_last(&mut s);
    assert_eq!(string_of(&s), "[\n{}");
    let mut s = chars_of("a\u{1f980}");
    remove_last(&mut s);
    assert_eq!(string_of(&s), "a");
    remove_last(&mut s);
    assert_eq!(string_of(&s), "");
    remove_last(&mut s);
    assert_eq!(string_of(&s), "");
}

#[test]
fn push_decimal_writes_the_numeral() {
    for n in [0usize, 1, 9, 10, 11, 99, 100, 101, 1024, 65535, 1000000, usize::MAX] {
        let mut out = chars_of("n=");
        push_decimal(&mut out, n);
        assert_eq!(string_of(&out), format!("n={}", n));
    }
}

#[test]
fn parse_decimal_agrees_with_the_standard_library() {
    let subjects = [
        "", "0", "5", "05", "007", "+5", "+", "++5", "-5", "-0", "5+", " 5", "5 ", "5\r", "1_000",
        "12a", "a12", "0x10", "1e3", "\u{664}", "\u{ff15}", "4294967295", "4294967296",
        "18446744073709551615", "18446744073709551616", "18446744073709551620",
        "99999999999999999999999999", "+18446744073709551615", "000000000000000000000000000001",
        "184467440737095516150",
    ];
    for s in subjects {
        assert_eq!(parse_decimal(s), s.parse::<usize>().ok(), "{:?}", s);
    }
    assert_eq!(parse_decimal("5"), Some(5));
    assert_eq!(parse_decimal("7878"), Some(7878));
    assert_eq!(parse_decimal("+12"), Some(12));
    assert_eq!(parse_decimal("twelve"), None);
}

#[test]
fn numerals_read_back() {
    for n in [0usize, 1, 9, 10, 99, 100, 12345, 1 << 31, usize::MAX - 1, usize::MAX] {
        let mut out = Vec::new();
        push_decimal(&mut out, n);
        assert_eq!(parse_decimal(&string_of(&out)), Some(n));
    }
}
