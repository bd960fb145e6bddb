use soma::codegen::{build_provider_data, try_build_provider_data, FunctionInstanceWithMetadata};
use soma::json_schema::{convert_schema_to_typescript_type, json_schema_to_typescript, JsonValue};

fn s(x: &str) -> JsonValue {
    JsonValue::Str(x.to_string())
}

fn obj(entries: Vec<(&str, JsonValue)>) -> JsonValue {
    JsonValue::Object(entries.into_iter().map(|(k, v)| (k.to_string(), v)).collect())
}

fn ts(v: &JsonValue) -> String {
    match json_schema_to_typescript(v, 0) {
        Ok(t) => t,
        Err(_) => panic!("conversion failed"),
    }
}

#[test]
fn schema_primitive_types() {
    assert_eq!(ts(&obj(vec![("type", s("string"))])), "string");
    assert_eq!(ts(&obj(vec![("type", s("number"))])), "number");
    assert_eq!(ts(&obj(vec![("type", s("integer"))])), "number");
    assert_eq!(ts(&obj(vec![("type", s("boolean"))])), "boolean");
    assert_eq!(ts(&obj(vec![("type", s("null"))])), "null");
    assert_eq!(ts(&obj(vec![("type", s("weird"))])), "any");
    assert_eq!(ts(&obj(vec![("type", JsonValue::Bool(true))])), "any");
    assert_eq!(ts(&JsonValue::Null), "any");
    assert_eq!(ts(&obj(vec![])), "any");
}

#[test]
fn schema_string_enum() {
    let v = obj(vec![
        ("type", s("string")),
        ("enum", JsonValue::Array(vec![s("a"), JsonValue::Number("1".to_string()), s("b")])),
    ]);
    assert_eq!(ts(&v), "\"a\" | \"b\"");
    let not_array = obj(vec![("type", s("string")), ("enum", s("a"))]);
    assert_eq!(ts(&not_array), "string");
}

#[test]
fn schema_arrays() {
    let v = obj(vec![("type", s("array")), ("items", obj(vec![("type", s("string"))]))]);
    assert_eq!(ts(&v), "Array<string>");
    assert_eq!(ts(&obj(vec![("type", s("array"))])), "Array<any>");
}

#[test]
fn schema_objects() {
    let v = obj(vec![
        ("properties", obj(vec![
            ("a-b", obj(vec![("type", s("string"))])),
            ("c", obj(vec![("type", s("number"))])),
        ])),
        ("required", JsonValue::Array(vec![s("a-b")])),
        ("type", s("object")),
    ]);
    assert_eq!(ts(&v), "{ a_b: string; c?: number }");
    assert_eq!(ts(&obj(vec![("type", s("object"))])), "Record<string, any>");
    let empty = obj(vec![("properties", obj(vec![])), ("type", s("object"))]);
    assert_eq!(ts(&empty), "{  }");
}

#[test]
fn schema_unions_and_intersections() {
    let one = obj(vec![(
        "oneOf",
        JsonValue::Array(vec![obj(vec![("type", s("string"))]), obj(vec![("type", s("null"))])]),
    )]);
    assert_eq!(ts(&one), "string | null");
    let any = obj(vec![("anyOf", JsonValue::Array(vec![obj(vec![("type", s("boolean"))])]))]);
    assert_eq!(ts(&any), "boolean");
    let all = obj(vec![(
        "allOf",
        JsonValue::Array(vec![obj(vec![("type", s("number"))]), obj(vec![])]),
    )]);
    assert_eq!(ts(&all), "number & any");
    assert_eq!(ts(&obj(vec![("oneOf", s("x"))])), "any");
}

#[test]
fn schema_depth_limit() {
    let mut v = obj(vec![("type", s("string"))]);
    for _ in 0..12 {
        v = obj(vec![("type", s("array")), ("items", v)]);
    }
    let expected = format!("{}any{}", "Array<".repeat(11), ">".repeat(11));
    assert_eq!(ts(&v), expected);
    match json_schema_to_typescript(&obj(vec![("type", s("string"))]), 11) {
        Ok(t) => assert_eq!(t, "any"),
        Err(_) => panic!("conversion failed"),
    }
    match convert_schema_to_typescript_type(&obj(vec![("type", s("boolean"))])) {
        Ok(t) => assert_eq!(t, "boolean"),
        Err(_) => panic!("conversion failed"),
    }
}

fn instance(provider: &str, account: &str, id: &str, function: &str) -> FunctionInstanceWithMetadata {
    FunctionInstanceWithMetadata {
        provider_controller_type_id: provider.to_string(),
        provider_display_name: account.to_string(),
        provider_instance_id: id.to_string(),
        function_controller_type_id: function.to_string(),
        parameters: obj(vec![("type", s("string"))]),
        output: obj(vec![("type", s("number"))]),
    }
}

#[test]
fn provider_data_groups_by_provider_and_account() {
    let fs = vec![
        instance("google_mail", "work", "i1", "google_mail_send_email"),
        instance("slack", "team", "i2", "slack_post"),
        instance("google_mail", "home", "i3", "google_mail_list"),
        instance("google_mail", "work", "i4", "google_mail_read"),
    ];
    let providers = build_provider_data(&fs);
    assert_eq!(providers.len(), 2);
    let gm = &providers[0];
    assert_eq!(gm.name, "googleMail");
    assert_eq!(gm.interface_name, "GoogleMailProvider");
    assert_eq!(gm.accounts.len(), 2);
    assert_eq!(gm.accounts[0].name, "work");
    assert_eq!(gm.accounts[0].provider_instance_id, "i1");
    assert_eq!(gm.accounts[0].functions.len(), 2);
    let f = &gm.accounts[0].functions[0];
    assert_eq!(f.name, "sendEmail");
    assert_eq!(f.function_controller_type_id, "google_mail_send_email");
    assert_eq!(f.params_type, "string");
    assert_eq!(f.params_type_name, "GoogleMailGoogleMailSendEmailParams");
    assert_eq!(f.return_type, "number");
    assert_eq!(f.return_type_name, "GoogleMailGoogleMailSendEmailResult");
    assert_eq!(gm.accounts[0].functions[1].name, "read");
    assert_eq!(gm.accounts[1].name, "home");
    assert_eq!(gm.accounts[1].provider_instance_id, "i3");
    assert_eq!(providers[1].name, "slack");
    assert_eq!(providers[1].interface_name, "SlackProvider");
    assert_eq!(providers[1].accounts[0].functions[0].name, "post");
}

#[test]
fn provider_data_accounts_for_every_function() {
    let fs = vec![
        instance("a", "x", "1", "a_f"),
        instance("b", "y", "2", "g"),
        instance("a", "x", "3", "a_h"),
    ];
    let providers = build_provider_data(&fs);
    let total: usize = providers
        .iter()
        .map(|p| p.accounts.iter().map(|a| a.functions.len()).sum::<usize>())
        .sum();
    assert_eq!(total, fs.len());
    assert!(build_provider_data(&vec![]).is_empty());
}

#[test]
fn provider_instance_id_skips_empty_ids() {
    let fs = vec![instance("p", "acc", "", "p_a"), instance("p", "acc", "id2", "p_b")];
    let providers = build_provider_data(&fs);
    assert_eq!(providers[0].accounts[0].provider_instance_id, "id2");
}

#[test]
fn try_build_refuses_cut_inside_character() {
    let ok = vec![instance("p", "acc", "1", "p_a")];
    assert!(try_build_provider_data(&ok).is_some());
    let bad = vec![instance("i\u{307}", "acc", "1", "İé")];
    assert!(try_build_provider_data(&bad).is_none());
}
