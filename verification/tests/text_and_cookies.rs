use onyx::cookies::{
    contains_cookie_name, extract_cookie_pairs, extract_csrf_token, extract_set_cookie_headers,
    format_cookie_header, merge_cookie_pairs, parse_cookie_header_pairs,
};
use onyx::text::{
    before_first_str, eq_ignore_ascii_case_str, ends_with_ignore_ascii_case_str, join_strs,
    less_str, split_once_str, split_str, str_eq, trim_str,
};

fn strings(v: &[&str]) -> Vec<String> {
    v.iter().map(|s| s.to_string()).collect()
}

#[test]
fn trim_removes_unicode_whitespace_at_both_ends() {
    assert_eq!(trim_str("  a b \t\n"), "a b");
    assert_eq!(trim_str("\u{3000}x\u{00A0}"), "x");
    assert_eq!(trim_str(" \u{2028} "), "");
    assert_eq!(trim_str("abc"), "abc");
}

#[test]
fn split_keeps_empty_pieces() {
    assert_eq!(split_str("a;b;;c", ';'), strings(&["a", "b", "", "c"]));
    assert_eq!(split_str("", ';'), strings(&[""]));
    assert_eq!(split_str(";", ';'), strings(&["", ""]));
}

#[test]
fn split_once_and_before_first() {
    assert_eq!(split_once_str("a=b=c", '='), Some(("a", "b=c")));
    assert_eq!(split_once_str("abc", '='), None);
    assert_eq!(before_first_str("x=1; Path=/", ';'), "x=1");
    assert_eq!(before_first_str("x=1", ';'), "x=1");
}

#[test]
fn ascii_case_and_order() {
    assert!(eq_ignore_ascii_case_str("PhpSessId", "phpsessid"));
    assert!(!eq_ignore_ascii_case_str("phpsessid", "phpsessi"));
    assert!(!eq_ignore_ascii_case_str("é", "É"));
    assert!(ends_with_ignore_ascii_case_str("MAIN.C", ".c"));
    assert!(!ends_with_ignore_ascii_case_str("c", ".c"));
    assert!(less_str("a", "b"));
    assert!(less_str("ab", "abc"));
    assert!(!less_str("abc", "ab"));
    assert!(!less_str("x", "x"));
    assert!(less_str("Z", "a"));
    assert!(str_eq("same", "same"));
    assert!(!str_eq("same", "Same"));
    assert_eq!(join_strs(&strings(&["a", "b", "c"]), ", "), "a, b, c");
    assert_eq!(join_strs(&strings(&[]), ", "), "");
}

#[test]
fn cookie_pairs_come_from_text_header_values() {
    let values = vec![
        Some("PHPSESSID=abc; path=/; HttpOnly".to_string()),
        None,
        Some("   ; Secure".to_string()),
        Some(" lang=en ".to_string()),
    ];
    assert_eq!(extract_cookie_pairs(&values), strings(&["PHPSESSID=abc", "lang=en"]));
    assert_eq!(
        extract_set_cookie_headers(&values),
        strings(&["PHPSESSID=abc; path=/; HttpOnly", "   ; Secure", " lang=en "])
    );
}

#[test]
fn merge_sorts_by_name_and_keeps_the_last_value() {
    let merged = merge_cookie_pairs(strings(&["b=1", "a=2", "noequals"]), strings(&[" b = 3 ", "c="]));
    assert_eq!(merged, strings(&["a=2", "b=3", "c="]));
    let merged = merge_cookie_pairs(strings(&["PHPSESSID=old"]), strings(&["PHPSESSID=new"]));
    assert_eq!(merged, strings(&["PHPSESSID=new"]));
    assert_eq!(merge_cookie_pairs(vec![], vec![]), Vec::<String>::new());
}

#[test]
fn cookie_header_format_and_parse() {
    assert_eq!(format_cookie_header(strings(&["a=1", "b=2"])), "a=1; b=2");
    assert_eq!(format_cookie_header(vec![]), "");
    assert_eq!(parse_cookie_header_pairs(" a=1 ;; b=2 ; "), strings(&["a=1", "b=2"]));
    assert_eq!(parse_cookie_header_pairs(""), Vec::<String>::new());
}

#[test]
fn session_cookie_survives_being_written_and_read() {
    let merged = merge_cookie_pairs(
        strings(&["PHPSESSID=abc", "lang=en"]),
        strings(&["theme=dark", "PHPSESSID=def"]),
    );
    let header = format_cookie_header(merged.clone());
    assert_eq!(header, "PHPSESSID=def; lang=en; theme=dark");
    assert_eq!(parse_cookie_header_pairs(&header), merged);
}

#[test]
fn cookie_name_lookup_ignores_ascii_case_and_needs_equals() {
    assert!(contains_cookie_name("a=1; phpsessid=x", "PHPSESSID"));
    assert!(contains_cookie_name(" PHPSESSID =x", "PHPSESSID"));
    assert!(!contains_cookie_name("PHPSESSIDX=1", "PHPSESSID"));
    assert!(!contains_cookie_name("PHPSESSID", "PHPSESSID"));
    assert!(!contains_cookie_name("", "PHPSESSID"));
}

#[test]
fn login_token_is_read_after_its_field_name() {
    let html = r#"<form><input type="text" value="nope"><input type="hidden" name="_csrf_token" value="tok-123"></form>"#;
    assert_eq!(extract_csrf_token(html), Some("tok-123".to_string()));
    let attrs_before = r#"<input value="early" name="_csrf_token"><input value="late">"#;
    assert_eq!(extract_csrf_token(attrs_before), Some("late".to_string()));
    assert_eq!(extract_csrf_token("<input name=\"other\" value=\"x\">"), None);
    assert_eq!(extract_csrf_token("<input name=\"_csrf_token\">"), None);
    assert_eq!(extract_csrf_token("<input name=\"_csrf_token\" value=\"unterminated"), None);
    assert_eq!(extract_csrf_token("<input name=\"_csrf_token\" value=\"\">"), Some(String::new()));
}

#[test]
fn later_cookies_override_and_earlier_ones_survive() {
    let merged = merge_cookie_pairs(strings(&["PHPSESSID=page", "lang=en"]), strings(&["PHPSESSID=login", "remember=1"]));
    assert_eq!(merged, strings(&["PHPSESSID=login", "lang=en", "remember=1"]));
}
