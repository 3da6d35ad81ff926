use pocket_relay_plugin::text::{append_decimal, char_is_whitespace, chars_of, clean_reply, parse_ipv4_chars};

#[test]
fn whitespace_agrees_with_std() {
    for u in 0u32..0x3100 {
        if let Some(c) = char::from_u32(u) {
            assert_eq!(char_is_whitespace(c), c.is_whitespace(), "char {:x}", u);
        }
    }
    for c in ['\u{feff}', '\u{10ffff}', '\u{200b}'] {
        assert_eq!(char_is_whitespace(c), c.is_whitespace());
    }
}

#[test]
fn clean_reply_trims_and_drops_line_feeds() {
    for s in ["  a\nb  ", "\n\n", "", "x", " \u{2003}1.2\n.3.4\r\n", "a \n b"] {
        let chars = chars_of(s);
        let cleaned: String = clean_reply(&chars).into_iter().collect();
        assert_eq!(cleaned, s.trim().replace('\n', ""));
    }
}

#[test]
fn decimal_text() {
    for n in [0u32, 5, 10, 255, 4096, 65535, u32::MAX] {
        let mut s = String::from("n=");
        append_decimal(&mut s, n);
        assert_eq!(s, format!("n={}", n));
    }
}

#[test]
fn dotted_quad_parse() {
    let p = |s: &str| parse_ipv4_chars(&chars_of(s));
    assert_eq!(p("10.20.30.40"), Some([10, 20, 30, 40]));
    assert_eq!(p("10.20.30.040"), None);
    assert_eq!(p("10.20.30.300"), None);
    assert_eq!(p("10.20.30"), None);
    assert_eq!(p(" 10.20.30.40"), None);
}
