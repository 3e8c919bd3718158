use livephoto::lowercase::small_extension;
use livephoto::mime::mime_for;
use livephoto::percent::{percent_decodable, percent_decode};
use livephoto::text::{
    begins_with, contains, find, is_text, is_white_space, joined, string_of, strings_of,
    to_ascii_lowercase, trim,
};

fn chars(s: &str) -> Vec<char> {
    s.chars().collect()
}

#[test]
fn white_space_is_that_of_the_standard_library() {
    let mut n: u32 = 0;
    while n <= 0x10FFFF {
        if let Some(c) = char::from_u32(n) {
            assert_eq!(is_white_space(c), c.is_whitespace(), "{n:x}");
        }
        n += 1;
    }
}

#[test]
fn texts_are_trimmed_at_both_ends() {
    for s in ["", "  ", " a", "a ", "\t a b \r\n", "\u{3000}x\u{a0}", "plain"] {
        let cs = chars(s);
        assert_eq!(string_of(trim(&cs)), s.trim());
    }
}

#[test]
fn the_first_occurrence_is_found() {
    for (s, pat) in [
        ("abcabc", "bc"),
        ("abcabc", "cb"),
        ("aaa", "aa"),
        ("", ""),
        ("abc", ""),
        ("", "a"),
        ("short", "longer than that"),
        ("x\u{e9}y\u{e9}", "\u{e9}"),
    ] {
        let expected = s.find(pat).map(|at| s[..at].chars().count());
        assert_eq!(find(&chars(s), &chars(pat)), expected, "{s:?} {pat:?}");
        assert_eq!(contains(&chars(s), pat), s.contains(pat));
        assert_eq!(begins_with(&chars(s), pat), s.starts_with(pat));
        assert_eq!(is_text(&chars(s), pat), s == pat);
    }
}

#[test]
fn ascii_letters_become_small() {
    assert_eq!(string_of(&to_ascii_lowercase(&chars("AzZ-19[@`\u{c9}"))), "azz-19[@`\u{c9}");
}

#[test]
fn texts_are_joined_and_copied() {
    assert_eq!(joined("location=", "/a b"), "location=/a b");
    assert_eq!(joined("", ""), "");
    assert_eq!(strings_of(&["-y", "", "x"]), vec!["-y".to_string(), String::new(), "x".to_string()]);
}

#[test]
fn extensions_become_small() {
    assert_eq!(small_extension(&Some("HEIC".to_string())), "heic");
    assert_eq!(small_extension(&Some("JpEg".to_string())), "jpeg");
    assert_eq!(small_extension(&Some("\u{130}A\u{3a3}".to_string())), "\u{130}A\u{3a3}".to_lowercase());
    assert_eq!(small_extension(&None), "");
}

#[test]
fn media_types_go_by_extension() {
    assert_eq!(mime_for("/photos/a.jpg"), "image/jpeg");
    assert_eq!(mime_for("/photos/a.JPEG"), "image/jpeg");
    assert_eq!(mime_for("a.png"), "image/png");
    assert_eq!(mime_for("a.gif"), "image/gif");
    assert_eq!(mime_for("a.WebP"), "image/webp");
    assert_eq!(mime_for("a.b.mov"), "video/quicktime");
    assert_eq!(mime_for("a.MP4"), "video/mp4");
    assert_eq!(mime_for("a.m4v"), "video/mp4");
    assert_eq!(mime_for("a.webm"), "video/webm");
    assert_eq!(mime_for("a.heic"), "application/octet-stream");
    assert_eq!(mime_for("a.jpg.bak"), "application/octet-stream");
    assert_eq!(mime_for(""), "application/octet-stream");
    assert_eq!(mime_for("a."), "application/octet-stream");
}

#[test]
fn a_name_without_a_dot_is_its_own_extension() {
    assert_eq!(mime_for("jpg"), "image/jpeg");
    assert_eq!(mime_for("/photos.d/png"), "application/octet-stream");
}

#[test]
fn the_rest_of_a_path_does_not_change_its_media_type() {
    assert_eq!(mime_for("x.MoV"), mime_for("/some/where/else.mov"));
}

#[test]
fn escapes_are_decoded() {
    assert_eq!(percent_decode("/my%20photos/a%2Fb%2fc"), "/my photos/a/b/c");
    assert_eq!(percent_decode("%41"), "A");
    assert_eq!(percent_decode("%e9"), "\u{e9}");
    assert_eq!(percent_decode("%+f"), "\u{f}");
    assert_eq!(percent_decode(""), "");
}

#[test]
fn what_is_no_escape_stands_for_itself() {
    assert_eq!(percent_decode("100%"), "100%");
    assert_eq!(percent_decode("%4"), "%4");
    assert_eq!(percent_decode("%zz"), "%zz");
    assert_eq!(percent_decode("%4g"), "%4g");
    assert_eq!(percent_decode("%-1"), "%-1");
    assert_eq!(percent_decode("%++"), "%++");
    assert_eq!(percent_decode("%%41"), "%A");
}

#[test]
fn other_bytes_become_the_characters_of_their_numbers() {
    assert_eq!(percent_decode("\u{e9}"), "\u{c3}\u{a9}");
    assert_eq!(percent_decode("%C3%A9"), "\u{c3}\u{a9}");
}

#[test]
fn plain_text_decodes_to_itself() {
    let s = "/Users/me/IMG_0001 (2).HEIC?x=1&y=+";
    assert_eq!(percent_decode(s), s);
}

#[test]
fn every_byte_survives_as_an_escape() {
    let mut encoded = String::new();
    let mut expected = String::new();
    for b in 0..=255u8 {
        encoded.push_str(&format!("%{b:02X}"));
        expected.push(b as char);
    }
    assert_eq!(percent_decode(&encoded), expected);
}

#[test]
fn a_character_that_an_escape_cuts_is_not_decodable() {
    assert!(percent_decodable("/a%20b"));
    assert!(percent_decodable("%"));
    assert!(percent_decodable("%\u{e9}x"));
    assert!(percent_decodable("%a"));
    assert!(!percent_decodable("%a\u{e9}"));
    assert!(!percent_decodable("%\u{20ac}"));
    assert!(percent_decodable("\u{20ac}%41"));
}
