//! Identity settings entered on the command line: roles, token mapping sources,
//! OAuth endpoints, and the lists and optional answers of the guided prompts.
use vstd::prelude::*;
use crate::names::{lowercase_chars, str_lowercase};
use crate::text::{chars_eq, chars_of, chars_starts_with, comma_items, is_prefix, parse_comma_list, str_eq, trim, trim_chars};

verus! {

/// The roles of Soma's access control.
#[derive(Debug, Clone, Copy, PartialEq, Eq, Structural)]
pub enum Role {
    Admin,
    Maintainer,
    ReadOnlyMaintainer,
    Agent,
    User,
}

/// Why a role was refused.
#[derive(Debug)]
pub enum RoleError {
    /// The role is not one of the accepted names; the name is kept.
    InvalidRole { role: String },
}

/// The role names accepted for API keys, with their roles.
pub open spec fn api_key_role(name: Seq<char>) -> Option<Role> {
    if name == "admin"@ {
        Some(Role::Admin)
    } else if name == "maintainer"@ {
        Some(Role::Maintainer)
    } else if name == "read-only-maintainer"@ {
        Some(Role::ReadOnlyMaintainer)
    } else if name == "agent"@ {
        Some(Role::Agent)
    } else if name == "user"@ {
        Some(Role::User)
    } else {
        None
    }
}

fn owned(s: &str) -> (r: String)
    ensures
        r@ == s@,
{
    crate::text::string_of(chars_of(s).as_slice())
}

/// The role of a new API key: one of `admin`, `maintainer`,
/// `read-only-maintainer`, `agent`, `user`; any other name is refused.
pub fn parse_api_key_role(role: &str) -> (r: Result<Role, RoleError>)
    ensures
        match api_key_role(role@) {
            Some(x) => r matches Ok(y) && y == x,
            None => r matches Err(RoleError::InvalidRole { role: n }) && n@ == role@,
        },
{
    if str_eq(role, "admin") {
        Ok(Role::Admin)
    } else if str_eq(role, "maintainer") {
        Ok(Role::Maintainer)
    } else if str_eq(role, "read-only-maintainer") {
        Ok(Role::ReadOnlyMaintainer)
    } else if str_eq(role, "agent") {
        Ok(Role::Agent)
    } else if str_eq(role, "user") {
        Ok(Role::User)
    } else {
        Err(RoleError::InvalidRole { role: owned(role) })
    }
}

/// The role named by a role variant (`Admin`, `Maintainer`, `ReadOnlyMaintainer`,
/// `Agent`, `User`); other names fall back to `User`.
pub open spec fn role_of_variant(name: Seq<char>) -> Role {
    if name == "Admin"@ {
        Role::Admin
    } else if name == "Maintainer"@ {
        Role::Maintainer
    } else if name == "ReadOnlyMaintainer"@ {
        Role::ReadOnlyMaintainer
    } else if name == "Agent"@ {
        Role::Agent
    } else {
        Role::User
    }
}

/// The role named by a role variant name, `User` for unknown names.
pub fn string_to_role(role: &str) -> (r: Role)
    ensures
        r == role_of_variant(role@),
{
    if str_eq(role, "Admin") {
        Role::Admin
    } else if str_eq(role, "Maintainer") {
        Role::Maintainer
    } else if str_eq(role, "ReadOnlyMaintainer") {
        Role::ReadOnlyMaintainer
    } else if str_eq(role, "Agent") {
        Role::Agent
    } else {
        Role::User
    }
}

/// The roles that a role name in `soma.yaml` may give, compared in lowercase:
/// `admin`, `maintainer`, `agent`, `user`.
pub open spec fn yaml_role(lowercase_name: Seq<char>) -> Option<Role> {
    if lowercase_name == "admin"@ {
        Some(Role::Admin)
    } else if lowercase_name == "maintainer"@ {
        Some(Role::Maintainer)
    } else if lowercase_name == "agent"@ {
        Some(Role::Agent)
    } else if lowercase_name == "user"@ {
        Some(Role::User)
    } else {
        None
    }
}

/// Parse a role string from `soma.yaml`, ignoring case.
pub fn parse_role_string(role: &str) -> (r: Result<Role, RoleError>)
    ensures
        match yaml_role(str_lowercase(role@)) {
            Some(x) => r matches Ok(y) && y == x,
            None => r matches Err(RoleError::InvalidRole { role: n }) && n@ == role@,
        },
{
    let v = chars_of(role);
    let lower = lowercase_chars(v.as_slice());
    let l = lower.as_slice();
    if chars_eq(l, chars_of("admin").as_slice()) {
        Ok(Role::Admin)
    } else if chars_eq(l, chars_of("maintainer").as_slice()) {
        Ok(Role::Maintainer)
    } else if chars_eq(l, chars_of("agent").as_slice()) {
        Ok(Role::Agent)
    } else if chars_eq(l, chars_of("user").as_slice()) {
        Ok(Role::User)
    } else {
        Err(RoleError::InvalidRole { role: owned(role) })
    }
}

/// The name of a role in `soma.yaml` and on the API.
pub open spec fn role_value(role: Role) -> Seq<char> {
    match role {
        Role::Admin => "admin"@,
        Role::Maintainer => "maintainer"@,
        Role::ReadOnlyMaintainer => "read-only-maintainer"@,
        Role::Agent => "agent"@,
        Role::User => "user"@,
    }
}

/// The name of a role in `soma.yaml` and on the API.
pub fn role_value_of(role: Role) -> (r: String)
    ensures
        r@ == role_value(role),
{
    match role {
        Role::Admin => owned("admin"),
        Role::Maintainer => owned("maintainer"),
        Role::ReadOnlyMaintainer => owned("read-only-maintainer"),
        Role::Agent => owned("agent"),
        Role::User => owned("user"),
    }
}

/// The name of every role is accepted for API keys and gives that role back.
pub proof fn law_role_names_round_trip(role: Role)
    ensures
        api_key_role(role_value(role)) == Some(role),
{
    reveal_strlit("admin");
    reveal_strlit("maintainer");
    reveal_strlit("read-only-maintainer");
    reveal_strlit("agent");
    reveal_strlit("user");
    assert("maintainer"@ != "admin"@) by {
        assert("maintainer"@.len() != "admin"@.len());
    }
    assert("read-only-maintainer"@ != "admin"@) by {
        assert("read-only-maintainer"@.len() != "admin"@.len());
    }
    assert("read-only-maintainer"@ != "maintainer"@) by {
        assert("read-only-maintainer"@.len() != "maintainer"@.len());
    }
    assert("agent"@ != "admin"@) by {
        assert("agent"@[1] != "admin"@[1]);
    }
    assert("agent"@ != "maintainer"@) by {
        assert("agent"@.len() != "maintainer"@.len());
    }
    assert("agent"@ != "read-only-maintainer"@) by {
        assert("agent"@.len() != "read-only-maintainer"@.len());
    }
    assert("user"@ != "admin"@) by {
        assert("user"@.len() != "admin"@.len());
    }
    assert("user"@ != "maintainer"@) by {
        assert("user"@.len() != "maintainer"@.len());
    }
    assert("user"@ != "read-only-maintainer"@) by {
        assert("user"@.len() != "read-only-maintainer"@.len());
    }
    assert("user"@ != "agent"@) by {
        assert("user"@.len() != "agent"@.len());
    }
}

/// The order in which the prompts ask about roles.
pub open spec fn prompt_roles() -> Seq<Role> {
    seq![Role::Admin, Role::Maintainer, Role::ReadOnlyMaintainer, Role::Agent, Role::User]
}

/// The mappings that role prompts give: for each role in prompt order, every item
/// of its comma-separated answer maps to that role.
pub open spec fn role_mappings_of(answers: Seq<Seq<char>>) -> Seq<(Seq<char>, Role)>
    decreases answers.len(),
{
    if answers.len() == 0 || answers.len() > 5 {
        seq![]
    } else {
        let k = answers.len() - 1;
        role_mappings_of(answers.drop_last()) + comma_items(answers.last()).map_values(
            |item: Seq<char>| (item, prompt_roles()[k]),
        )
    }
}

/// Builds the item-to-role mappings from the answers to the role prompts (one
/// comma-separated answer per role, in prompt order).
pub fn role_mappings(answers: &Vec<String>) -> (r: Vec<(String, Role)>)
    requires
        answers@.len() <= 5,
    ensures
        r@.map_values(|m: (String, Role)| (m.0@, m.1)) == role_mappings_of(
            answers@.map_values(|a: String| a@),
        ),
{
    let roles: [Role; 5] = [
        Role::Admin,
        Role::Maintainer,
        Role::ReadOnlyMaintainer,
        Role::Agent,
        Role::User,
    ];
    assert(roles@ =~= prompt_roles());
    let ghost av = answers@.map_values(|a: String| a@);
    let mut r: Vec<(String, Role)> = Vec::new();
    let mut k: usize = 0;
    while k < answers.len()
        invariant
            k <= answers@.len() <= 5,
            roles@ == prompt_roles(),
            av == answers@.map_values(|a: String| a@),
            r@.map_values(|m: (String, Role)| (m.0@, m.1)) == role_mappings_of(av.take(k as int)),
        decreases answers@.len() - k,
    {
        assert(av.take(k + 1).drop_last() =~= av.take(k as int));
        assert(av.take(k + 1).last() == answers@[k as int]@);
        let items = parse_comma_list(answers[k].as_str());
        let role = roles[k];
        assert(role == prompt_roles()[k as int]);
        let ghost before = r@.map_values(|m: (String, Role)| (m.0@, m.1));
        let ghost iv = items@.map_values(|x: String| x@);
        let mut j: usize = 0;
        while j < items.len()
            invariant
                j <= items@.len(),
                iv == items@.map_values(|x: String| x@),
                k < 5,
                role == prompt_roles()[k as int],
                r@.map_values(|m: (String, Role)| (m.0@, m.1)) == before + iv.take(j as int).map_values(
                    |item: Seq<char>| (item, role),
                ),
            decreases items@.len() - j,
        {
            let ghost prev = r@;
            r.push((items[j].clone(), role));
            assert(r@.map_values(|m: (String, Role)| (m.0@, m.1)) =~= before + iv.take(j + 1).map_values(
                |item: Seq<char>| (item, role),
            )) by {
                assert(iv.take(j + 1) =~= iv.take(j as int).push(iv[j as int]));
                assert(iv.take(j + 1).map_values(|item: Seq<char>| (item, role)) =~= iv.take(
                    j as int,
                ).map_values(|item: Seq<char>| (item, role)).push((iv[j as int], role)));
                assert(r@ == prev.push(r@[r@.len() - 1]));
                assert(r@[r@.len() - 1].0@ == iv[j as int]);
                assert(r@.map_values(|m: (String, Role)| (m.0@, m.1)) =~= prev.map_values(
                    |m: (String, Role)| (m.0@, m.1),
                ).push((iv[j as int], role)));
                assert((before + iv.take(j as int).map_values(|item: Seq<char>| (item, role))).push(
                    (iv[j as int], role),
                ) =~= before + iv.take(j as int).map_values(|item: Seq<char>| (item, role)).push(
                    (iv[j as int], role),
                ));
            }
            j = j + 1;
        }
        assert(iv.take(items@.len() as int) =~= iv);
        k = k + 1;
    }
    assert(av.take(answers@.len() as int) =~= av);
    r
}

/// Where a token claim is read from.
#[derive(Debug, Clone, Copy, PartialEq, Eq, Structural)]
pub enum MappingSource {
    IdToken,
    Userinfo,
    AccessToken,
}

/// A token claim: where it is read and its field name.
pub struct MappingSourceString {
    pub source: MappingSource,
    pub field: String,
}

/// The source named by a prompt answer; unknown answers read the ID token.
pub open spec fn mapping_source_of(source: Seq<char>) -> MappingSource {
    if source == "ID Token"@ {
        MappingSource::IdToken
    } else if source == "Userinfo"@ {
        MappingSource::Userinfo
    } else if source == "Access Token"@ {
        MappingSource::AccessToken
    } else {
        MappingSource::IdToken
    }
}

/// The claim read from `field` of the source named `source`.
pub fn create_mapping_source(source: &str, field: String) -> (r: MappingSourceString)
    ensures
        r.source == mapping_source_of(source@),
        r.field == field,
{
    let s = if str_eq(source, "ID Token") {
        MappingSource::IdToken
    } else if str_eq(source, "Userinfo") {
        MappingSource::Userinfo
    } else if str_eq(source, "Access Token") {
        MappingSource::AccessToken
    } else {
        MappingSource::IdToken
    };
    MappingSourceString { source: s, field }
}

/// An endpoint must be an HTTP or HTTPS URL.
pub open spec fn is_http_url(s: Seq<char>) -> bool {
    is_prefix("https://"@, s) || is_prefix("http://"@, s)
}

/// Whether `s` starts with `https://` or `http://`.
pub fn is_http_url_str(s: &str) -> (r: bool)
    ensures
        r == is_http_url(s@),
{
    let v = chars_of(s);
    chars_starts_with(v.as_slice(), chars_of("https://").as_slice()) || chars_starts_with(
        v.as_slice(),
        chars_of("http://").as_slice(),
    )
}

/// Whether `s` is empty or only white space.
pub fn is_blank(s: &str) -> (r: bool)
    ensures
        r == (trim(s@).len() == 0),
{
    trim_chars(chars_of(s).as_slice()).len() == 0
}

/// An answer that may be left empty: blank answers give `None`, others are kept
/// as typed.
pub fn optional_answer(input: String) -> (r: Option<String>)
    ensures
        trim(input@).len() == 0 ==> r is None,
        trim(input@).len() != 0 ==> r == Some(input),
{
    if is_blank(input.as_str()) {
        None
    } else {
        Some(input)
    }
}

/// A comma-separated answer that may be left empty: blank answers give `None`,
/// others their trimmed non-empty items.
pub fn optional_list(input: &str) -> (r: Option<Vec<String>>)
    ensures
        trim(input@).len() == 0 ==> r is None,
        trim(input@).len() != 0 ==> (r matches Some(v) && v@.map_values(|x: String| x@)
            == comma_items(input@)),
{
    if is_blank(input) {
        None
    } else {
        Some(parse_comma_list(input))
    }
}

/// A list that is only kept when it is not empty.
pub fn non_empty<T>(v: Vec<T>) -> (r: Option<Vec<T>>)
    ensures
        v@.len() == 0 ==> r is None,
        v@.len() != 0 ==> r == Some(v),
{
    if v.len() == 0 {
        None
    } else {
        Some(v)
    }
}

/// What a scope-to-group prompt round does.
pub enum ScopeGroupStep {
    /// A blank scope ends the rounds.
    Finish,
    /// A scope with a group: the mapping is added.
    Add { scope: String, group: String },
    /// A blank group: nothing is added.
    Skip,
}

/// The step for a scope answer and a group answer.
pub fn scope_group_step(scope: String, group: Option<String>) -> (r: ScopeGroupStep)
    ensures
        trim(scope@).len() == 0 ==> r is Finish,
        trim(scope@).len() != 0 ==> match group {
            None => r is Skip,
            Some(g) => if trim(g@).len() == 0 {
                r is Skip
            } else {
                r matches ScopeGroupStep::Add { scope: s, group: h } && s == scope && h == g
            },
        },
{
    if is_blank(scope.as_str()) {
        return ScopeGroupStep::Finish;
    }
    match group {
        None => ScopeGroupStep::Skip,
        Some(g) => {
            if is_blank(g.as_str()) {
                ScopeGroupStep::Skip
            } else {
                ScopeGroupStep::Add { scope, group: g }
            }
        },
    }
}

/// Why an answer of the guided prompts was refused.
#[derive(Debug, PartialEq, Eq, Structural)]
pub enum PromptError {
    AuthorizationEndpointNotHttp,
    TokenEndpointNotHttp,
    JwksEndpointNotHttp,
    JwksUriNotHttp,
    EmptyClientId,
    EmptyClientSecret,
    EmptyConfigurationId,
}

/// The OAuth settings collected by the prompts.
pub struct OauthConfigInput {
    pub authorization_endpoint: String,
    pub token_endpoint: String,
    pub jwks_endpoint: String,
    pub client_id: String,
    pub client_secret: String,
    pub scopes: Vec<String>,
}

/// The first refused answer of the OAuth prompts, in the order they are asked.
pub open spec fn oauth_answer_error(
    authorization_endpoint: Seq<char>,
    token_endpoint: Seq<char>,
    jwks_endpoint: Seq<char>,
    client_id: Seq<char>,
    client_secret: Seq<char>,
) -> Option<PromptError> {
    if !is_http_url(authorization_endpoint) {
        Some(PromptError::AuthorizationEndpointNotHttp)
    } else if !is_http_url(token_endpoint) {
        Some(PromptError::TokenEndpointNotHttp)
    } else if !is_http_url(jwks_endpoint) {
        Some(PromptError::JwksEndpointNotHttp)
    } else if trim(client_id).len() == 0 {
        Some(PromptError::EmptyClientId)
    } else if trim(client_secret).len() == 0 {
        Some(PromptError::EmptyClientSecret)
    } else {
        None
    }
}

/// Checks the OAuth answers and collects them, with the scopes split at commas.
pub fn oauth_config_input(
    authorization_endpoint: String,
    token_endpoint: String,
    jwks_endpoint: String,
    client_id: String,
    client_secret: String,
    scopes_input: &str,
) -> (r: Result<OauthConfigInput, PromptError>)
    ensures
        match oauth_answer_error(
            authorization_endpoint@,
            token_endpoint@,
            jwks_endpoint@,
            client_id@,
            client_secret@,
        ) {
            Some(e) => r matches Err(f) && f == e,
            None => r matches Ok(c) && c.authorization_endpoint == authorization_endpoint
                && c.token_endpoint == token_endpoint && c.jwks_endpoint == jwks_endpoint
                && c.client_id == client_id && c.client_secret == client_secret
                && c.scopes@.map_values(|x: String| x@) == comma_items(scopes_input@),
        },
{
    if !is_http_url_str(authorization_endpoint.as_str()) {
        return Err(PromptError::AuthorizationEndpointNotHttp);
    }
    if !is_http_url_str(token_endpoint.as_str()) {
        return Err(PromptError::TokenEndpointNotHttp);
    }
    if !is_http_url_str(jwks_endpoint.as_str()) {
        return Err(PromptError::JwksEndpointNotHttp);
    }
    if is_blank(client_id.as_str()) {
        return Err(PromptError::EmptyClientId);
    }
    if is_blank(client_secret.as_str()) {
        return Err(PromptError::EmptyClientSecret);
    }
    let scopes = parse_comma_list(scopes_input);
    Ok(
        OauthConfigInput {
            authorization_endpoint,
            token_endpoint,
            jwks_endpoint,
            client_id,
            client_secret,
            scopes,
        },
    )
}

/// The role prompts map exactly the items of each answer, each to the role of
/// its prompt (Admin, Maintainer, ReadOnlyMaintainer, Agent, User in turn).
pub proof fn law_role_mappings_are_the_answers_items(answers: Seq<Seq<char>>, item: Seq<char>, role: Role)
    requires
        answers.len() <= 5,
    ensures
        role_mappings_of(answers).contains((item, role)) <==> exists|k: int|
            0 <= k < answers.len() && #[trigger] comma_items(answers[k]).contains(item) && role
                == prompt_roles()[k],
    decreases answers.len(),
{
    if answers.len() > 0 {
        let d = answers.drop_last();
        let k = answers.len() - 1;
        law_role_mappings_are_the_answers_items(d, item, role);
        let prev = role_mappings_of(d);
        let mine = comma_items(answers.last()).map_values(|x: Seq<char>| (x, prompt_roles()[k]));
        let all = role_mappings_of(answers);
        assert(all == prev + mine);
        if all.contains((item, role)) {
            let t = choose|t: int| 0 <= t < all.len() && all[t] == (item, role);
            if t < prev.len() {
                assert(prev[t] == (item, role));
                let j = choose|j: int|
                    0 <= j < d.len() && #[trigger] comma_items(d[j]).contains(item) && role == prompt_roles()[j];
                assert(d[j] == answers[j]);
                assert(comma_items(answers[j]).contains(item));
            } else {
                assert(mine[t - prev.len()] == (item, role));
                let ci = comma_items(answers.last());
                assert(ci[t - prev.len()] == item);
                assert(answers[k] == answers.last());
                assert(comma_items(answers[k]).contains(item));
            }
        }
        if exists|j: int|
            0 <= j < answers.len() && #[trigger] comma_items(answers[j]).contains(item) && role == prompt_roles()[j] {
            let j = choose|j: int|
                0 <= j < answers.len() && #[trigger] comma_items(answers[j]).contains(item) && role == prompt_roles()[j];
            if j < k {
                assert(d[j] == answers[j]);
                assert(comma_items(d[j]).contains(item));
                let t = choose|t: int| 0 <= t < prev.len() && prev[t] == (item, role);
                assert(all[t] == (item, role));
            } else {
                assert(answers[j] == answers.last());
                let ci = comma_items(answers.last());
                let t = choose|t: int| 0 <= t < ci.len() && ci[t] == item;
                assert(mine[t] == (item, role));
                assert(all[prev.len() + t] == (item, role));
            }
        }
    }
}

} // verus!
