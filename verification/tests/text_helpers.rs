use teralaunch::text::{
    chars_of, contains_chars, eq_ignoring_case, is_white_space_char, lines_of, replace_all, rfind_char,
    split_chars, starts_with_chars, strip_prefix_all_chars, string_of, trim_chars,
};

fn cs(s: &str) -> Vec<char> {
    chars_of(s)
}

fn st(v: &[char]) -> String {
    string_of(v)
}

#[test]
fn chars_round_trip() {
    assert_eq!(st(&cs("héllo wörld")), "héllo wörld");
    assert_eq!(st(&cs("")), "");
}

#[test]
fn trim_matches_std() {
    for s in ["  a b  ", "\u{3000}x\u{85}", "", "   ", "\t\r\nk\n", "\u{200b}z"].iter() {
        assert_eq!(st(&trim_chars(&cs(s))), s.trim());
    }
}

#[test]
fn white_space_matches_std() {
    for u in 0u32..0x3100 {
        if let Some(c) = char::from_u32(u) {
            assert_eq!(is_white_space_char(c), c.is_whitespace(), "{:x}", u);
        }
    }
}

#[test]
fn lines_match_std() {
    for s in ["a\nb", "a\r\nb\r\n", "", "\n", "x\n\ny", "last\r", "\r\n\r\n"].iter() {
        let ours: Vec<String> = lines_of(&cs(s)).iter().map(|l| st(l)).collect();
        let std_lines: Vec<String> = s.lines().map(|l| l.to_string()).collect();
        assert_eq!(ours, std_lines, "{:?}", s);
    }
}

#[test]
fn split_matches_std() {
    for s in ["a;b;;c", "", ";", "abc"].iter() {
        let ours: Vec<String> = split_chars(&cs(s), ';').iter().map(|l| st(l)).collect();
        let std_pieces: Vec<String> = s.split(';').map(|l| l.to_string()).collect();
        assert_eq!(ours, std_pieces);
    }
}

#[test]
fn replace_matches_std() {
    let cases = [("aaa", "aa", "b"), ("{ {  }", "{ ", "{"), ("x", "y", "z"), ("ababab", "ab", "")];
    for (s, p, r) in cases.iter() {
        assert_eq!(st(&replace_all(&cs(s), &cs(p), &cs(r))), s.replace(p, r));
    }
}

#[test]
fn prefix_and_search() {
    assert!(starts_with_chars(&cs("launcher.sid=abc"), &cs("launcher.sid=")));
    assert!(!starts_with_chars(&cs("launcher"), &cs("launcher.sid=")));
    assert_eq!(st(&strip_prefix_all_chars(&cs("ababc"), &cs("ab"))), "ababc".trim_start_matches("ab"));
    assert_eq!(st(&strip_prefix_all_chars(&cs("abc"), &cs(""))), "abc");
    assert!(contains_chars(&cs("C:\\Games\\Binaries\\Toolbox\\x.exe"), &cs("\\Binaries\\Toolbox\\")));
    assert!(!contains_chars(&cs("abc"), &cs("abd")));
    assert_eq!(rfind_char(&cs("a/b/c"), '/'), Some(3));
    assert_eq!(rfind_char(&cs("abc"), '/'), None);
}

#[test]
fn lowercase_comparison() {
    assert!(eq_ignoring_case("ÀBCdef", "àbcDEF"));
    assert!(eq_ignoring_case("B94D27", "b94d27"));
    assert!(!eq_ignoring_case("b94d27", "b94d28"));
}
