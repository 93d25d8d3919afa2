use brace::text::{chars_of, is_white_space, string_of, trim_bounds};

#[test]
fn white_space_matches_std() {
    for code in 0..=0x10FFFFu32 {
        if let Some(c) = char::from_u32(code) {
            assert_eq!(is_white_space(c), c.is_whitespace(), "U+{code:04X}");
        }
    }
}

#[test]
fn trimming_matches_std() {
    for s in ["", "  ", " a ", "\n\tbody\n\n", "x", "\u{3000}mid dle\u{2028}", "a b"] {
        let cs = chars_of(s);
        let (lo, hi) = trim_bounds(&cs, 0, cs.len());
        let got: String = cs[lo..hi].iter().collect();
        assert_eq!(got, s.trim());
    }
}

#[test]
fn chars_round_trip() {
    let s = "héllo, wörld";
    assert_eq!(string_of(&chars_of(s)), s);
}
