use deepseeker::text::{char_is_whitespace, starts_with, str_eq, trim_chars};

fn chars(s: &str) -> Vec<char> {
    s.chars().collect()
}

#[test]
fn white_space_is_the_unicode_property() {
    let mut c = 0u32;
    while c <= 0x10FFFF {
        if let Some(ch) = char::from_u32(c) {
            assert_eq!(char_is_whitespace(ch), ch.is_whitespace(), "U+{:04X}", c);
        }
        c += 1;
    }
}

#[test]
fn trimming_agrees_with_the_standard_library() {
    let samples = [
        "",
        " ",
        "a",
        "  a  ",
        "\n\t a b \u{a0}\u{3000}",
        "\u{2003}x\u{2003}y\u{2003}",
        "no space",
        " \r\n ",
        "tail\n",
        "\nhead",
    ];
    for s in samples {
        let trimmed: String = trim_chars(&chars(s)).into_iter().collect();
        assert_eq!(trimmed, s.trim());
    }
}

#[test]
fn prefixes_and_equality() {
    assert!(starts_with(&chars("/docs/a.md"), &chars("/docs")));
    assert!(starts_with(&chars("/docs"), &chars("/docs")));
    assert!(starts_with(&chars("/docs"), &chars("")));
    assert!(!starts_with(&chars("/doc"), &chars("/docs")));
    assert!(!starts_with(&chars("/dacs/a.md"), &chars("/docs")));
    assert!(str_eq("md", "md"));
    assert!(!str_eq("md", "MD"));
    assert!(!str_eq("md", "mdx"));
}
