use qdl_gui::text::{
    chars_le, chars_of, decimal_string, ends_with_chars, find_chars, hex4_string, line_ranges,
    range_equals, token_ranges, white_space,
};

fn pieces(cs: &[char], r: &[(usize, usize)]) -> Vec<String> {
    r.iter().map(|&(a, b)| cs[a..b].iter().collect()).collect()
}

#[test]
fn lines_as_str_lines_cuts_them() {
    for s in ["", "a", "a\n", "a\nb", "a\r\nb\r\n", "\n\n", "x\r", "x\ry\n", "\r\n"] {
        let cs = chars_of(s);
        let expected: Vec<String> = s.lines().map(|l| l.to_string()).collect();
        assert_eq!(pieces(&cs, &line_ranges(&cs)), expected, "text {:?}", s);
    }
}

#[test]
fn tokens_as_split_whitespace_cuts_them() {
    for s in ["", "  ", "a b", " a\tb  c ", "x\u{a0}y\u{2003}z", "one"] {
        let cs = chars_of(s);
        let expected: Vec<String> = s.split_whitespace().map(|w| w.to_string()).collect();
        assert_eq!(pieces(&cs, &token_ranges(&cs, 0, cs.len())), expected, "text {:?}", s);
    }
    let cs = chars_of("ab cd ef");
    assert_eq!(pieces(&cs, &token_ranges(&cs, 3, 8)), vec!["cd", "ef"]);
}

#[test]
fn whitespace_matches_char_is_whitespace() {
    for u in 0u32..0x3100 {
        if let Some(c) = char::from_u32(u) {
            assert_eq!(white_space(c), c.is_whitespace(), "char {:x}", u);
        }
    }
}

#[test]
fn search_and_suffix() {
    let cs = chars_of("abc_SN:12_SN:3");
    assert_eq!(find_chars(&cs, "_SN:"), Some(3));
    assert_eq!(find_chars(&cs, "zz"), None);
    assert_eq!(find_chars(&cs, ""), Some(0));
    assert!(ends_with_chars(&chars_of("patch0.xml"), ".xml"));
    assert!(!ends_with_chars(&chars_of("xml"), ".xml"));
    assert!(range_equals(&cs, 0, 3, "abc"));
    assert!(!range_equals(&cs, 0, 2, "abc"));
}

#[test]
fn number_formatting() {
    assert_eq!(hex4_string(0), "0000");
    assert_eq!(hex4_string(0x05c6), "05c6");
    assert_eq!(hex4_string(0xffff), "ffff");
    assert_eq!(hex4_string(0x900e), format!("{:04x}", 0x900eu16));
    assert_eq!(decimal_string(0), "0");
    assert_eq!(decimal_string(7), "7");
    assert_eq!(decimal_string(1000), "1000");
    assert_eq!(decimal_string(usize::MAX), usize::MAX.to_string());
}

#[test]
fn text_order_is_byte_order() {
    let names = ["a", "ab", "b", "", "Z", "é", "rawprogram10.xml", "rawprogram2.xml"];
    for x in names {
        for y in names {
            assert_eq!(chars_le(&chars_of(x), &chars_of(y)), x.as_bytes() <= y.as_bytes(), "{} {}", x, y);
        }
    }
}
