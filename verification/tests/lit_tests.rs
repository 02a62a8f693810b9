use attr_meta::lit::{quote_string, starts_inner_doc, starts_outer_doc, str_lit_value};

#[test]
fn quote_plain_text() {
    assert_eq!(quote_string("/// hello"), "\"/// hello\"");
}

#[test]
fn quote_escapes_specials() {
    assert_eq!(quote_string("a\"b\\c"), "\"a\\\"b\\\\c\"");
    assert_eq!(quote_string("x\ny\tz\r"), "\"x\\ny\\tz\\r\"");
    assert_eq!(quote_string(""), "\"\"");
}

#[test]
fn str_lit_value_inverts_quote() {
    let text = "/** a \"quoted\" \\ thing\n */";
    let q = quote_string(text);
    assert_eq!(str_lit_value(&q), Some(text.to_string()));
}

#[test]
fn str_lit_value_rejects_non_literals() {
    assert_eq!(str_lit_value("nope"), None);
    assert_eq!(str_lit_value("\"unterminated"), None);
    assert_eq!(str_lit_value("\""), None);
    assert_eq!(str_lit_value(""), None);
}

#[test]
fn str_lit_value_rejects_unknown_escape() {
    assert_eq!(str_lit_value("\"bad\\q\""), None);
}

#[test]
fn str_lit_value_rejects_stray_quote() {
    assert_eq!(str_lit_value("\"a\"b\""), None);
}

#[test]
fn str_lit_value_rejects_dangling_backslash() {
    assert_eq!(str_lit_value("\"a\\\""), None);
}

#[test]
fn doc_prefix_recognition() {
    assert!(starts_outer_doc("/// x"));
    assert!(starts_outer_doc("/** x */"));
    assert!(!starts_outer_doc("// x"));
    assert!(!starts_outer_doc("//! x"));
    assert!(!starts_outer_doc("/* x */"));
    assert!(starts_inner_doc("//! x"));
    assert!(starts_inner_doc("/*! x */"));
    assert!(!starts_inner_doc("/// x"));
    assert!(!starts_inner_doc("/"));
}
