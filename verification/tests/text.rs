use bettershot::text::{escape_quotes, find_ci};

#[test]
fn substring_search_ignores_ascii_case() {
    assert!(find_ci(b"Screen Recording PERMISSION missing", b"permission"));
    assert!(find_ci(b"permission", b"PERMISSION"));
    assert!(find_ci(b"xyz", b""));
    assert!(!find_ci(b"permissio", b"permission"));
    assert!(!find_ci(b"", b"a"));
}

#[test]
fn search_finds_needle_at_every_position() {
    assert!(find_ci(b"denied at start", b"denied"));
    assert!(find_ci(b"at the end denied", b"denied"));
    assert!(find_ci(b"in denied middle", b"denied"));
}

#[test]
fn quotes_are_escaped_for_script_literals() {
    assert_eq!(escape_quotes(b"say \"hi\""), b"say \\\"hi\\\"".to_vec());
    assert_eq!(escape_quotes(b"no quotes"), b"no quotes".to_vec());
    assert_eq!(escape_quotes(b""), Vec::<u8>::new());
    assert_eq!(escape_quotes(b"\"\""), b"\\\"\\\"".to_vec());
}
