use app_monitor::text::{chars_of, contains, find_char, rfind_char, same_text, trim, trim_end_nul};

#[test]
fn text_helpers() {
    assert!(contains("ubuntu:gnome", "gnome"));
    assert!(contains("abc", ""));
    assert!(!contains("gno", "gnome"));
    assert!(!contains("gnom e", "gnome"));
    assert_eq!(trim("\t a b \n"), "a b");
    assert_eq!(trim("\u{85}\u{A0}x\u{2028}"), "x");
    assert_eq!(trim("   "), "");
    assert_eq!(trim_end_nul("ab\0\0"), "ab");
    assert_eq!(trim_end_nul("\0a"), "\0a");
    assert!(same_text("null", "null"));
    assert!(!same_text("null", "nul"));
    assert_eq!(find_char("a{b{", '{'), Some(1));
    assert_eq!(rfind_char("a}b}c", '}'), Some(3));
    assert_eq!(find_char("ñ{", '{'), Some(1));
    assert_eq!(rfind_char("abc", '}'), None);
    assert_eq!(chars_of("añb"), vec!['a', 'ñ', 'b']);
}
