use jack::store::CacheToken;
use jack::AuthError;

#[test]
fn insert_then_lookup_returns_token() {
    let mut st = CacheToken::new();
    st.insert("yt", "tok-1");
    assert_eq!(st.lookup("yt"), Some("tok-1".to_string()));
}

#[test]
fn lookup_on_empty_store_is_none() {
    let st = CacheToken::new();
    assert_eq!(st.lookup("yt"), None);
}

#[test]
fn first_write_wins_on_same_service() {
    let mut st = CacheToken::new();
    st.insert("yt", "first");
    st.insert("yt", "second");
    assert_eq!(st.lookup("yt"), Some("first".to_string()));
}

#[test]
fn distinct_inserts_keep_both_entries() {
    let mut st = CacheToken::new();
    st.insert("yt", "tok-a");
    st.insert("gh", "tok-b");
    assert_eq!(st.lookup("yt"), Some("tok-a".to_string()));
    assert_eq!(st.lookup("gh"), Some("tok-b".to_string()));

    let mut st2 = CacheToken::new();
    st2.insert("gh", "tok-b");
    st2.insert("yt", "tok-a");
    assert_eq!(st2.lookup("yt"), Some("tok-a".to_string()));
    assert_eq!(st2.lookup("gh"), Some("tok-b".to_string()));
}

#[test]
fn encode_of_plain_entries_is_one_line_each() {
    let mut st = CacheToken::new();
    st.insert("yt", "abc123");
    st.insert("gh", "xyz");
    assert_eq!(st.encode(), "yt:abc123\ngh:xyz\n");
}

#[test]
fn encode_escapes_the_format_characters() {
    let mut st = CacheToken::new();
    st.insert("a:b", "c%d\ne");
    assert_eq!(st.encode(), "a%00003ab:c%000025d%00000ae\n");
}

#[test]
fn parse_reads_back_what_encode_wrote() {
    let mut st = CacheToken::new();
    st.insert("yt", "token with spaces");
    st.insert("we:ird", "100%\n");
    st.insert("plain", "x");
    let text = st.encode();
    let back = CacheToken::parse(&text).expect("well-formed cache file");
    assert_eq!(back.lookup("yt"), Some("token with spaces".to_string()));
    assert_eq!(back.lookup("we:ird"), Some("100%\n".to_string()));
    assert_eq!(back.lookup("plain"), Some("x".to_string()));
}

#[test]
fn roundtrip_keeps_non_ascii_tokens() {
    let mut st = CacheToken::new();
    st.insert("svc", "t\u{00e9}\u{4e2d}\u{1f600}ok");
    let back = CacheToken::parse(&st.encode()).expect("well-formed cache file");
    assert_eq!(back.lookup("svc"), Some("t\u{00e9}\u{4e2d}\u{1f600}ok".to_string()));
}

#[test]
fn parse_of_empty_file_is_the_empty_table() {
    let st = CacheToken::parse("").expect("empty file is a table");
    assert_eq!(st.lookup("yt"), None);
}

#[test]
fn parse_rejects_broken_lines() {
    assert!(matches!(CacheToken::parse("no-colon\n"), Err(AuthError::StoreUnavailable)));
    assert!(matches!(CacheToken::parse("a:b"), Err(AuthError::StoreUnavailable)));
    assert!(matches!(CacheToken::parse("a:%zz\n"), Err(AuthError::StoreUnavailable)));
    assert!(matches!(CacheToken::parse("a:%00d800x\n"), Err(AuthError::StoreUnavailable)));
}

#[test]
fn contains_follows_lookup() {
    let mut st = CacheToken::new();
    assert!(!st.contains("yt"));
    st.insert("yt", "t");
    assert!(st.contains("yt"));
}
