use ups::runner::normalize_output;
use ups::text::{str_eq, trim_str};

#[test]
fn success_with_output_yields_trimmed_value() {
    assert_eq!(normalize_output(true, "1.2.3\n"), Some("1.2.3".to_string()));
    assert_eq!(normalize_output(true, "  2.0\t\r\n"), Some("2.0".to_string()));
    assert_eq!(normalize_output(true, "v3"), Some("v3".to_string()));
}

#[test]
fn failure_exit_yields_none_whatever_the_output() {
    assert_eq!(normalize_output(false, "1.2.3\n"), None);
    assert_eq!(normalize_output(false, ""), None);
}

#[test]
fn blank_output_yields_none_even_on_success() {
    assert_eq!(normalize_output(true, ""), None);
    assert_eq!(normalize_output(true, "   \n\t  "), None);
}

#[test]
fn inner_whitespace_is_kept() {
    assert_eq!(normalize_output(true, "  1.2.3 beta \n"), Some("1.2.3 beta".to_string()));
}

#[test]
fn trim_edges() {
    assert_eq!(trim_str(""), "");
    assert_eq!(trim_str(" \t\r\n"), "");
    assert_eq!(trim_str("abc"), "abc");
    assert_eq!(trim_str("\n a b \t"), "a b");
}

#[test]
fn str_eq_agrees_with_equality() {
    assert!(str_eq("", ""));
    assert!(str_eq("abc", "abc"));
    assert!(!str_eq("abc", "abd"));
    assert!(!str_eq("abc", "abcd"));
}
