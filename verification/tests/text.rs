use mcpg_cloud::text::{i64_text, join, lines, u64_text};

#[test]
fn lines_follow_std() {
    for s in ["", "\n", "a", "a\n", "a\n\nb", "a\r\nb\r\n", "x\r", "\r\n\r\n", "é\nü"] {
        let got = lines(s);
        let want: Vec<String> = s.lines().map(|l| l.to_string()).collect();
        assert_eq!(got, want, "{s:?}");
    }
}

#[test]
fn numbers_in_decimal() {
    assert_eq!(u64_text(0), "0");
    assert_eq!(u64_text(907), "907");
    assert_eq!(u64_text(u64::MAX), u64::MAX.to_string());
    assert_eq!(i64_text(-15), "-15");
    assert_eq!(i64_text(i64::MIN), i64::MIN.to_string());
    assert_eq!(i64_text(i64::MAX), i64::MAX.to_string());
}

#[test]
fn join_separates_items() {
    assert_eq!(join(&vec![], ", "), "");
    assert_eq!(join(&vec!["a".into()], ", "), "a");
    assert_eq!(join(&vec!["a".into(), "b".into(), "c".into()], ","), "a,b,c");
}
