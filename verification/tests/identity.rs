use soma::identity::{
    create_mapping_source, is_blank, is_http_url_str, non_empty, oauth_config_input,
    optional_answer, optional_list, parse_api_key_role, parse_role_string, role_mappings,
    role_value_of, scope_group_step, string_to_role, MappingSource, PromptError, Role, RoleError,
    ScopeGroupStep,
};

#[test]
fn api_key_roles() {
    assert_eq!(parse_api_key_role("admin").unwrap(), Role::Admin);
    assert_eq!(parse_api_key_role("maintainer").unwrap(), Role::Maintainer);
    assert_eq!(parse_api_key_role("read-only-maintainer").unwrap(), Role::ReadOnlyMaintainer);
    assert_eq!(parse_api_key_role("agent").unwrap(), Role::Agent);
    assert_eq!(parse_api_key_role("user").unwrap(), Role::User);
    match parse_api_key_role("Admin") {
        Err(RoleError::InvalidRole { role }) => assert_eq!(role, "Admin"),
        _ => panic!("role names are case sensitive"),
    }
}

#[test]
fn yaml_roles_ignore_case() {
    assert_eq!(parse_role_string("ADMIN").unwrap(), Role::Admin);
    assert_eq!(parse_role_string("Maintainer").unwrap(), Role::Maintainer);
    assert_eq!(parse_role_string("agent").unwrap(), Role::Agent);
    assert_eq!(parse_role_string("UsEr").unwrap(), Role::User);
    assert!(matches!(parse_role_string("read-only-maintainer"), Err(RoleError::InvalidRole { .. })));
    assert!(matches!(parse_role_string(""), Err(RoleError::InvalidRole { .. })));
}

#[test]
fn role_names_round_trip() {
    for role in [Role::Admin, Role::Maintainer, Role::ReadOnlyMaintainer, Role::Agent, Role::User] {
        assert_eq!(parse_api_key_role(&role_value_of(role)).unwrap(), role);
    }
}

#[test]
fn variant_names_to_roles() {
    assert_eq!(string_to_role("Admin"), Role::Admin);
    assert_eq!(string_to_role("Maintainer"), Role::Maintainer);
    assert_eq!(string_to_role("ReadOnlyMaintainer"), Role::ReadOnlyMaintainer);
    assert_eq!(string_to_role("Agent"), Role::Agent);
    assert_eq!(string_to_role("User"), Role::User);
    assert_eq!(string_to_role("admin"), Role::User);
}

#[test]
fn role_mappings_follow_prompt_order() {
    let answers = vec![
        "admins, ops".to_string(),
        "".to_string(),
        " ro ".to_string(),
        "bots,,".to_string(),
        "everyone".to_string(),
    ];
    let m = role_mappings(&answers);
    assert_eq!(
        m,
        vec![
            ("admins".to_string(), Role::Admin),
            ("ops".to_string(), Role::Admin),
            ("ro".to_string(), Role::ReadOnlyMaintainer),
            ("bots".to_string(), Role::Agent),
            ("everyone".to_string(), Role::User),
        ]
    );
}

#[test]
fn mapping_sources() {
    assert_eq!(create_mapping_source("ID Token", "sub".to_string()).source, MappingSource::IdToken);
    assert_eq!(create_mapping_source("Userinfo", "sub".to_string()).source, MappingSource::Userinfo);
    assert_eq!(create_mapping_source("Access Token", "sub".to_string()).source, MappingSource::AccessToken);
    let other = create_mapping_source("something", "groups".to_string());
    assert_eq!(other.source, MappingSource::IdToken);
    assert_eq!(other.field, "groups");
}

#[test]
fn answers() {
    assert!(is_http_url_str("https://x"));
    assert!(is_http_url_str("http://x"));
    assert!(!is_http_url_str("ftp://x"));
    assert!(is_blank("  \t"));
    assert!(!is_blank(" a "));
    assert_eq!(optional_answer("   ".to_string()), None);
    assert_eq!(optional_answer(" v ".to_string()), Some(" v ".to_string()));
    assert_eq!(optional_list(" "), None);
    assert_eq!(optional_list("a, b ,"), Some(vec!["a".to_string(), "b".to_string()]));
    assert_eq!(non_empty::<u8>(vec![]), None);
    assert_eq!(non_empty(vec![1u8]), Some(vec![1u8]));
}

#[test]
fn scope_group_rounds() {
    assert!(matches!(scope_group_step(" ".to_string(), Some("g".to_string())), ScopeGroupStep::Finish));
    assert!(matches!(scope_group_step("s".to_string(), None), ScopeGroupStep::Skip));
    assert!(matches!(scope_group_step("s".to_string(), Some(" ".to_string())), ScopeGroupStep::Skip));
    match scope_group_step("read".to_string(), Some("readers".to_string())) {
        ScopeGroupStep::Add { scope, group } => {
            assert_eq!(scope, "read");
            assert_eq!(group, "readers");
        }
        _ => panic!("expected a mapping"),
    }
}

fn oauth(a: &str, t: &str, j: &str, id: &str, secret: &str) -> Result<Vec<String>, PromptError> {
    oauth_config_input(a.to_string(), t.to_string(), j.to_string(), id.to_string(), secret.to_string(), "openid, email")
        .map(|c| c.scopes)
}

#[test]
fn oauth_answers_are_checked_in_order() {
    assert_eq!(
        oauth("https://a", "https://t", "https://j", "id", "secret").unwrap(),
        vec!["openid".to_string(), "email".to_string()]
    );
    assert_eq!(oauth("a", "t", "j", "", "").unwrap_err(), PromptError::AuthorizationEndpointNotHttp);
    assert_eq!(oauth("https://a", "t", "j", "", "").unwrap_err(), PromptError::TokenEndpointNotHttp);
    assert_eq!(oauth("https://a", "http://t", "j", "", "").unwrap_err(), PromptError::JwksEndpointNotHttp);
    assert_eq!(oauth("https://a", "http://t", "http://j", " ", "").unwrap_err(), PromptError::EmptyClientId);
    assert_eq!(oauth("https://a", "http://t", "http://j", "id", "").unwrap_err(), PromptError::EmptyClientSecret);
}
