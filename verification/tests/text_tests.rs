use micro_agent::text::{is_whitespace, trim_text};

#[test]
fn whitespace_matches_std() {
    for c in (0u32..=0x10FFFF).filter_map(char::from_u32) {
        assert_eq!(is_whitespace(c), c.is_whitespace(), "{:?}", c);
    }
}

#[test]
fn trim_matches_std() {
    for s in ["", "  ", " a ", "\u{3000}x y\n", "abc", "\t\tb"] {
        assert_eq!(trim_text(s), s.trim());
    }
}

#[test]
fn trimming_twice_is_trimming_once() {
    for s in ["  a b  ", "\n\u{2028}x\u{2029}", "", "   "] {
        let once = trim_text(s);
        assert_eq!(trim_text(&once), once);
    }
}
