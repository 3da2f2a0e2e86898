use tokscale_core::text::{is_blank, split_once, trim};

#[test]
fn trimming_takes_unicode_white_space() {
    let cases = [
        ("", ""),
        (" \t\r\n\u{b}\u{c}", ""),
        ("a", "a"),
        (" a b ", "a b"),
        ("\u{a0}\u{3000}x\u{2028}\u{85}", "x"),
        ("\u{200b}x\u{feff}", "\u{200b}x\u{feff}"),
        ("\u{1680}\u{2000}é\u{200a}\u{202f}\u{205f}", "é"),
    ];
    for (text, inner) in cases {
        assert_eq!(trim(text), inner);
        assert_eq!(trim(text), text.trim());
        assert_eq!(is_blank(text), inner.is_empty());
    }
    for code in 0..0x3100 {
        if let Some(c) = char::from_u32(code) {
            assert_eq!(is_blank(&c.to_string()), c.is_whitespace(), "{code:x}");
        }
    }
}

#[test]
fn splitting_takes_the_first_delimiter() {
    for text in ["", ":", "a", "a:b", "a:b:c", ":a", "a:", "é:日本:x"] {
        assert_eq!(split_once(text, ':'), text.split_once(':'));
    }
    assert_eq!(split_once("é:日本:x", '日'), Some(("é:", "本:x")));
    assert_eq!(split_once("abc", 'é'), None);
}
