use asahi_brightness::text::{equal, format_u32, join, parse_u32, trim, white_space, NumberFault};

#[test]
fn trimming_is_that_of_the_standard_library() {
    for s in ["", " ", "a", " a", "a ", " a b ", "\t12\n", "\u{3000}x\u{2009}\u{85}", "\u{200b}x", "é "] {
        assert_eq!(trim(s), s.trim());
    }
}

#[test]
fn white_space_is_that_of_the_standard_library() {
    for code in 0..0x3100u32 {
        if let Some(c) = char::from_u32(code) {
            assert_eq!(white_space(c), c.is_whitespace(), "{code:x}");
        }
    }
}

#[test]
fn numbers_are_read_as_the_standard_library_does() {
    for s in [
        "", "+", "-", "-1", "0", "7", "+7", "007", "4294967295", "4294967296", "99999999999999999999",
        "12a", "a12", " 12", "1 2", "+-3", "++3", "٣", "99999999999a", "4294967296a", "429496729a",
    ] {
        match (parse_u32(s), s.parse::<u32>()) {
            (Ok(ours), Ok(expected)) => assert_eq!(ours, expected, "{s}"),
            (Err(ours), Err(expected)) => assert_eq!(ours.message(), expected.to_string(), "{s}"),
            (ours, expected) => panic!("{s}: {ours:?} and {expected:?}"),
        }
    }
}

#[test]
fn faults_of_numbers_are_told_apart() {
    assert!(matches!(parse_u32(""), Err(NumberFault::Empty)));
    assert!(matches!(parse_u32("many"), Err(NumberFault::InvalidDigit)));
    assert!(matches!(parse_u32("+"), Err(NumberFault::InvalidDigit)));
    assert!(matches!(parse_u32("4294967296"), Err(NumberFault::TooLarge)));
}

#[test]
fn written_numbers_are_read_back() {
    for n in [0u32, 1, 9, 10, 99, 100, 12345, 1_000_000_000, u32::MAX] {
        assert_eq!(format_u32(n), n.to_string());
        assert_eq!(parse_u32(format_u32(n).as_str()).unwrap(), n);
    }
}

#[test]
fn paths_are_joined_as_the_standard_library_does() {
    for (root, name) in [("/a", "b"), ("/a/", "b"), ("", "b"), ("/a", "/b"), ("/a", ""), ("a", "b/c")] {
        let expected = std::path::Path::new(root).join(name);
        assert_eq!(join(root, name), expected.to_str().unwrap(), "{root} and {name}");
    }
}

#[test]
fn equal_compares_whole_texts() {
    assert!(equal("leds", "leds"));
    assert!(!equal("leds", "led"));
    assert!(!equal("leds", "Leds"));
}
