use jack::api::generate_url;
use jack::api::Output;
use jack::api::OutputFormat;
use jack::url::parse_redirect;
use jack::AuthError;

#[test]
fn redirect_with_code_and_matching_state_yields_the_code() {
    let line = "GET /?code=4xCODE&state=STATE123 HTTP/1.1";
    assert_eq!(parse_redirect(line, "STATE123"), Ok("4xCODE".to_string()));
}

#[test]
fn redirect_missing_code_is_malformed() {
    let line = "GET /?state=STATE123 HTTP/1.1";
    assert_eq!(parse_redirect(line, "STATE123"), Err(AuthError::MalformedRedirect));
}

#[test]
fn redirect_missing_state_is_malformed() {
    let line = "GET /?code=4xCODE HTTP/1.1";
    assert_eq!(parse_redirect(line, "STATE123"), Err(AuthError::MalformedRedirect));
}

#[test]
fn redirect_with_foreign_state_is_a_mismatch() {
    let line = "GET /?code=4xCODE&state=EVIL HTTP/1.1";
    assert_eq!(parse_redirect(line, "STATE123"), Err(AuthError::StateMismatch));
}

#[test]
fn redirect_without_query_is_malformed() {
    assert_eq!(parse_redirect("GET / HTTP/1.1", "s"), Err(AuthError::MalformedRedirect));
}

#[test]
fn redirect_without_target_is_malformed() {
    assert_eq!(parse_redirect("GET", "s"), Err(AuthError::MalformedRedirect));
    assert_eq!(parse_redirect("", "s"), Err(AuthError::MalformedRedirect));
}

#[test]
fn redirect_decodes_query_escapes() {
    let line = "GET /cb?code=a%2Fb+c&state=s%31 HTTP/1.1";
    assert_eq!(parse_redirect(line, "s1"), Ok("a/b c".to_string()));
}

#[test]
fn redirect_takes_the_first_of_repeated_parameters() {
    let line = "GET /?code=one&code=two&state=s HTTP/1.1";
    assert_eq!(parse_redirect(line, "s"), Ok("one".to_string()));
}

#[test]
fn broken_or_non_ascii_escapes_stay_literal() {
    let line = "GET /?code=a%zz&state=s HTTP/1.1";
    assert_eq!(parse_redirect(line, "s"), Ok("a%zz".to_string()));
    let line2 = "GET /?code=%E9&state=s HTTP/1.1";
    assert_eq!(parse_redirect(line2, "s"), Ok("%E9".to_string()));
}

#[test]
fn extra_spaces_around_the_target_are_skipped() {
    let line = "GET   /?code=C&state=s   HTTP/1.1";
    assert_eq!(parse_redirect(line, "s"), Ok("C".to_string()));
}

#[test]
fn parameter_without_a_value_is_the_empty_string() {
    let line = "GET /?code&state=s HTTP/1.1";
    assert_eq!(parse_redirect(line, "s"), Ok("".to_string()));
}

#[test]
fn get_url_appends_parameters_without_a_trailing_separator() {
    let params = Some(vec![
        ("q".to_string(), "rust".to_string()),
        ("page".to_string(), "2".to_string()),
    ]);
    assert_eq!(
        generate_url("https://api.test/search", "GET", &params),
        "https://api.test/search?q=rust&page=2"
    );
}

#[test]
fn get_url_without_parameters_is_the_base_url() {
    assert_eq!(generate_url("https://api.test/x", "GET", &None), "https://api.test/x");
}

#[test]
fn get_url_with_an_empty_parameter_table_ends_at_the_question_mark() {
    let params: Option<Vec<(String, String)>> = Some(vec![]);
    assert_eq!(generate_url("https://api.test/x", "GET", &params), "https://api.test/x?");
}

#[test]
fn post_url_is_empty() {
    assert_eq!(generate_url("https://api.test/x", "POST", &None), "");
}

#[test]
fn output_format_names_parse_case_insensitively() {
    assert!(matches!(OutputFormat::from_str("json"), Ok(OutputFormat::Json)));
    assert!(matches!(OutputFormat::from_str("  JSON \n"), Ok(OutputFormat::Json)));
    assert!(matches!(OutputFormat::from_str("Pretty"), Ok(OutputFormat::Pretty)));
    assert!(matches!(OutputFormat::from_str("prettyjson"), Ok(OutputFormat::PrettyJson)));
    assert!(matches!(OutputFormat::from_str("pjson"), Ok(OutputFormat::PrettyJson)));
}

#[test]
fn unknown_output_format_is_the_error() {
    let e = OutputFormat::from_str("yaml").unwrap_err();
    assert_eq!(e, "`{s}` is an invalid output format");
}

#[test]
fn new_output_starts_with_no_filters() {
    let dest = "out-dir".to_string();
    let mut o = Output::new("svc".to_string(), OutputFormat::Json, Some(&dest));
    assert_eq!(o.service_name, "svc");
    assert!(matches!(o.output_format, OutputFormat::Json));
    assert_eq!(o.dest, Some("out-dir".to_string()));
    assert!(o.filters.is_empty());
    o.add_filter("k".to_string(), "v".to_string());
    assert_eq!(o.filters, vec![("k".to_string(), "v".to_string())]);

    let bare = Output::new("svc".to_string(), OutputFormat::Pretty, None);
    assert_eq!(bare.dest, None);
}
