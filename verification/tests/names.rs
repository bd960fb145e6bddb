use soma::names::{
    sanitize_identifier, strip_provider_prefix_and_camel_case, to_camel_case, to_pascal_case,
    try_strip_provider_prefix_and_camel_case,
};

#[test]
fn test_sanitize_identifier() {
    assert_eq!(sanitize_identifier("my-function"), "my_function");
    assert_eq!(sanitize_identifier("my.function"), "my_function");
    assert_eq!(sanitize_identifier("my@function"), "my_function");
    assert_eq!(sanitize_identifier("myFunction"), "myFunction");
}

#[test]
fn test_to_pascal_case() {
    assert_eq!(to_pascal_case("my_function"), "MyFunction");
    assert_eq!(to_pascal_case("my-function"), "MyFunction");
    assert_eq!(to_pascal_case("myFunction"), "MyFunction");
    assert_eq!(to_pascal_case("my_long_function_name"), "MyLongFunctionName");
}

#[test]
fn test_to_camel_case() {
    assert_eq!(to_camel_case("my_function"), "myFunction");
    assert_eq!(to_camel_case("my-function"), "myFunction");
    assert_eq!(to_camel_case("myFunction"), "myfunction");
    assert_eq!(to_camel_case("my_long_function_name"), "myLongFunctionName");
    assert_eq!(to_camel_case("google_mail"), "googleMail");
    assert_eq!(to_camel_case("approve_claim"), "approveClaim");
}

#[test]
fn test_strip_provider_prefix_and_camel_case() {
    assert_eq!(
        strip_provider_prefix_and_camel_case("google_mail_send_email", "google_mail"),
        "sendEmail"
    );
    assert_eq!(
        strip_provider_prefix_and_camel_case("approve_claim", "approve_claim"),
        "approveClaim"
    );
    assert_eq!(
        strip_provider_prefix_and_camel_case("some_other_function", "some"),
        "otherFunction"
    );
}

#[test]
fn sanitize_keeps_length_and_replaces_non_ascii() {
    assert_eq!(sanitize_identifier("héllo wörld"), "h_llo_w_rld");
    assert_eq!(sanitize_identifier(""), "");
    assert_eq!(sanitize_identifier("a_b9"), "a_b9");
}

#[test]
fn sanitize_is_idempotent_on_examples() {
    for s in ["my-function", "x.y@z", "already_ok", "ü-ß"] {
        let once = sanitize_identifier(s);
        assert_eq!(sanitize_identifier(&once), once);
    }
}

#[test]
fn pascal_case_edge_cases() {
    assert_eq!(to_pascal_case(""), "");
    assert_eq!(to_pascal_case("__a--b__"), "AB");
    assert_eq!(to_pascal_case("_x"), "X");
}

#[test]
fn camel_case_edge_cases() {
    assert_eq!(to_camel_case(""), "");
    assert_eq!(to_camel_case("---"), "");
    assert_eq!(to_camel_case("MyFunction"), "myfunction");
    assert_eq!(to_camel_case("A_B"), "aB");
}

#[test]
fn strip_prefix_without_separator_and_case_insensitive() {
    assert_eq!(strip_provider_prefix_and_camel_case("GoogleSend", "google"), "send");
    assert_eq!(strip_provider_prefix_and_camel_case("Google_Mail_x", "google_mail"), "x");
    assert_eq!(strip_provider_prefix_and_camel_case("other_fn", "slack"), "otherFn");
}

#[test]
fn strip_prefix_that_consumes_everything_keeps_original() {
    // "ab_" with provider "ab": stripping "ab_" leaves nothing.
    assert_eq!(strip_provider_prefix_and_camel_case("ab_", "ab"), "ab");
}

#[test]
fn try_strip_refuses_cut_inside_character() {
    assert_eq!(try_strip_provider_prefix_and_camel_case("x_send", "x"), Some("send".to_string()));
    assert_eq!(try_strip_provider_prefix_and_camel_case("éa", "é"), Some("a".to_string()));
    // 'İ' takes two bytes but lowercases to three, so the cut after the
    // lowercased provider falls inside 'é'.
    assert_eq!(try_strip_provider_prefix_and_camel_case("İé", "i\u{307}"), None);
}
