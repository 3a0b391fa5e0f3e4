use wenku2epub::model::{escape_xml, sanitize_filename};
use wenku2epub::text::{parse_uint, split_str, tidy_lines_of, trim};

#[test]
fn escape_xml_replaces_all_five_specials() {
    assert_eq!(escape_xml("a<b>&\"'c"), "a&lt;b&gt;&amp;&quot;&apos;c");
    assert_eq!(escape_xml("普通文本"), "普通文本");
}

#[test]
fn escaped_text_has_no_markup_left() {
    let out = escape_xml("<script>alert('x') & \"y\"</script>");
    assert!(!out.contains('<'));
    assert!(!out.contains('>'));
    assert!(!out.contains('"'));
    assert!(!out.contains('\''));
}

#[test]
fn sanitize_filename_twice_is_once() {
    for t in ["  a/b:c  ", " <x> ", "ok", "  ", "a |\t"] {
        let once = sanitize_filename(t);
        assert_eq!(sanitize_filename(&once), once);
    }
}

#[test]
fn sanitize_filename_replaces_forbidden_and_trims() {
    assert_eq!(sanitize_filename("  a/b:c?d*e|f\\g\"h<i>j  "), "a_b_c_d_e_f_g_h_i_j");
    assert_eq!(sanitize_filename("书名"), "书名");
}

#[test]
fn sanitized_name_is_safe() {
    let out = sanitize_filename("<<::>>//??**||\"\\");
    for c in out.chars() {
        assert!(!"<>:\"/\\|?*".contains(c));
    }
}

#[test]
fn trim_uses_unicode_whitespace() {
    assert_eq!(trim("\u{3000} 书名\t\n"), "书名");
    assert_eq!(trim("   "), "");
}

#[test]
fn parse_uint_accepts_plus_and_rejects_junk() {
    assert_eq!(parse_uint("42", u64::MAX), Some(42));
    assert_eq!(parse_uint("+7", u64::MAX), Some(7));
    assert_eq!(parse_uint("", u64::MAX), None);
    assert_eq!(parse_uint("4x", u64::MAX), None);
    assert_eq!(parse_uint("300", 255), None);
}

#[test]
fn split_str_keeps_empty_pieces() {
    assert_eq!(split_str("a - b - - c", " - "), vec!["a", "b", "- c"]);
    assert_eq!(split_str("a -  - b", " - "), vec!["a", "", "b"]);
    assert_eq!(split_str("abc", " - "), vec!["abc"]);
}

#[test]
fn tidy_lines_drops_blank_lines() {
    assert_eq!(tidy_lines_of("  one \n\n two\n   \n"), "one\ntwo");
}
