//! The start-up sync as one plan: every write that brings the Soma API in line
//! with `soma.yaml`, decided from what the file holds and what the API lists.
use vstd::prelude::*;
use crate::sync::{
    law_no_provider_deleted_when_all_are_named, law_no_server_deleted_when_all_are_named,
    law_nothing_missing_when_all_exist, lemma_removals_none, function_upserts,
    law_missing_keys_complete_the_existing, law_unnamed_active_providers_are_deleted,
    law_unnamed_servers_are_deleted,
    wanted_function_op, contains_text, deletions, find_listed_server, first_function, function_key, function_keys,
    function_ops, listed_provider, listed_server, mcp_function_ops, mcp_server_action,
    mcp_servers_to_delete, missing, missing_keys, op_view, opt_text, provider_action,
    provider_action_for, providers_to_delete, server_deletions, texts, ExistingMcpServer,
    ExistingProvider, McpFunctionOp, McpFunctionOpView, McpFunctionSpec, McpServerAction,
    ProviderAction, ProviderSpec,
};

verus! {

/// An envelope key of `soma.yaml` (by its id: the ARN or the file name) and the
/// aliases of its data encryption keys.
pub struct YamlEnvelopeKey {
    pub id: String,
    pub dek_aliases: Vec<String>,
}

/// A provider of `soma.yaml` and the functions it enables (none when the file
/// lists none).
pub struct YamlProvider {
    pub spec: ProviderSpec,
    pub functions: Vec<String>,
}

/// An MCP server of `soma.yaml`.
pub struct YamlMcpServer {
    pub id: String,
    pub name: String,
    pub functions: Option<Vec<McpFunctionSpec>>,
}

/// What the start-up sync reads of `soma.yaml`; `None` where a section is absent.
pub struct StartupDefinition {
    pub envelope_keys: Option<Vec<YamlEnvelopeKey>>,
    pub providers: Option<Vec<YamlProvider>>,
    pub secrets: Option<Vec<String>>,
    pub environment_variables: Option<Vec<String>>,
    pub mcp_servers: Option<Vec<YamlMcpServer>>,
    pub api_keys: Option<Vec<String>>,
    pub sts_configurations: Option<Vec<String>>,
    pub user_auth_flows: Option<Vec<String>>,
}

/// The functions that the API lists as enabled for a provider.
pub struct ProviderFunctions {
    pub provider_id: String,
    pub enabled: Vec<String>,
}

/// What the API lists before the sync. `found_dek_aliases` are the DEK aliases
/// of the file that the API already resolves.
pub struct ApiSnapshot {
    pub envelope_keys: Vec<String>,
    pub found_dek_aliases: Vec<String>,
    pub providers: Vec<ExistingProvider>,
    pub enabled_functions: Vec<ProviderFunctions>,
    pub secrets: Vec<String>,
    pub environment_variables: Vec<String>,
    pub mcp_servers: Vec<ExistingMcpServer>,
    pub api_keys: Vec<String>,
    pub sts_configurations: Vec<String>,
    pub user_auth_flows: Vec<String>,
}

/// A write to the API.
pub enum ApiWrite {
    CreateEnvelopeKey { id: String },
    /// Import the file's DEK under this alias into this envelope key, and create
    /// the alias.
    ImportDek { envelope_key_id: String, alias: String },
    DeleteProvider { id: String },
    /// Create the provider as the file describes it, with its credentials.
    CreateProvider { id: String },
    /// List the functions of the just created provider, then disable those the
    /// file does not list and enable those it lists that are missing.
    SyncProviderFunctions { provider_id: String },
    DisableFunction { provider_id: String, function_id: String },
    EnableFunction { provider_id: String, function_id: String },
    ImportSecret { key: String },
    CreateVariable { key: String },
    CreateMcpServer { id: String },
    /// Give the MCP server the name that the file holds.
    RenameMcpServer { id: String },
    ChangeMcpServerFunction { server_id: String, op: McpFunctionOp },
    DeleteMcpServer { id: String },
    ImportApiKey { id: String },
    CreateStsConfig { id: String },
    ImportUserAuthFlow { id: String },
}

/// A write as plain values.
pub enum WriteView {
    CreateEnvelopeKey(Seq<char>),
    ImportDek(Seq<char>, Seq<char>),
    DeleteProvider(Seq<char>),
    CreateProvider(Seq<char>),
    SyncProviderFunctions(Seq<char>),
    DisableFunction(Seq<char>, Seq<char>),
    EnableFunction(Seq<char>, Seq<char>),
    ImportSecret(Seq<char>),
    CreateVariable(Seq<char>),
    CreateMcpServer(Seq<char>),
    RenameMcpServer(Seq<char>),
    ChangeMcpServerFunction(Seq<char>, McpFunctionOpView),
    DeleteMcpServer(Seq<char>),
    ImportApiKey(Seq<char>),
    CreateStsConfig(Seq<char>),
    ImportUserAuthFlow(Seq<char>),
}

pub open spec fn write_view(w: ApiWrite) -> WriteView {
    match w {
        ApiWrite::CreateEnvelopeKey { id } => WriteView::CreateEnvelopeKey(id@),
        ApiWrite::ImportDek { envelope_key_id, alias } => WriteView::ImportDek(envelope_key_id@, alias@),
        ApiWrite::DeleteProvider { id } => WriteView::DeleteProvider(id@),
        ApiWrite::CreateProvider { id } => WriteView::CreateProvider(id@),
        ApiWrite::SyncProviderFunctions { provider_id } => WriteView::SyncProviderFunctions(provider_id@),
        ApiWrite::DisableFunction { provider_id, function_id } => WriteView::DisableFunction(
            provider_id@,
            function_id@,
        ),
        ApiWrite::EnableFunction { provider_id, function_id } => WriteView::EnableFunction(
            provider_id@,
            function_id@,
        ),
        ApiWrite::ImportSecret { key } => WriteView::ImportSecret(key@),
        ApiWrite::CreateVariable { key } => WriteView::CreateVariable(key@),
        ApiWrite::CreateMcpServer { id } => WriteView::CreateMcpServer(id@),
        ApiWrite::RenameMcpServer { id } => WriteView::RenameMcpServer(id@),
        ApiWrite::ChangeMcpServerFunction { server_id, op } => WriteView::ChangeMcpServerFunction(
            server_id@,
            op_view(op),
        ),
        ApiWrite::DeleteMcpServer { id } => WriteView::DeleteMcpServer(id@),
        ApiWrite::ImportApiKey { id } => WriteView::ImportApiKey(id@),
        ApiWrite::CreateStsConfig { id } => WriteView::CreateStsConfig(id@),
        ApiWrite::ImportUserAuthFlow { id } => WriteView::ImportUserAuthFlow(id@),
    }
}

pub open spec fn writes_view(v: Seq<ApiWrite>) -> Seq<WriteView> {
    v.map_values(|w: ApiWrite| write_view(w))
}

/// The kinds of write that name one key.
pub enum KeyWrite {
    DeleteProvider,
    DisableFunction { provider_id: String },
    EnableFunction { provider_id: String },
    ImportSecret,
    CreateVariable,
    DeleteMcpServer,
    ImportApiKey,
    CreateStsConfig,
    ImportUserAuthFlow,
}

pub open spec fn key_write(kind: KeyWrite, k: Seq<char>) -> WriteView {
    match kind {
        KeyWrite::DeleteProvider => WriteView::DeleteProvider(k),
        KeyWrite::DisableFunction { provider_id } => WriteView::DisableFunction(provider_id@, k),
        KeyWrite::EnableFunction { provider_id } => WriteView::EnableFunction(provider_id@, k),
        KeyWrite::ImportSecret => WriteView::ImportSecret(k),
        KeyWrite::CreateVariable => WriteView::CreateVariable(k),
        KeyWrite::DeleteMcpServer => WriteView::DeleteMcpServer(k),
        KeyWrite::ImportApiKey => WriteView::ImportApiKey(k),
        KeyWrite::CreateStsConfig => WriteView::CreateStsConfig(k),
        KeyWrite::ImportUserAuthFlow => WriteView::ImportUserAuthFlow(k),
    }
}

pub open spec fn key_writes(kind: KeyWrite, keys: Seq<Seq<char>>) -> Seq<WriteView> {
    keys.map_values(|k: Seq<char>| key_write(kind, k))
}

fn make_key_write(kind: &KeyWrite, k: String) -> (r: ApiWrite)
    ensures
        write_view(r) == key_write(*kind, k@),
{
    match kind {
        KeyWrite::DeleteProvider => ApiWrite::DeleteProvider { id: k },
        KeyWrite::DisableFunction { provider_id } => ApiWrite::DisableFunction {
            provider_id: provider_id.clone(),
            function_id: k,
        },
        KeyWrite::EnableFunction { provider_id } => ApiWrite::EnableFunction {
            provider_id: provider_id.clone(),
            function_id: k,
        },
        KeyWrite::ImportSecret => ApiWrite::ImportSecret { key: k },
        KeyWrite::CreateVariable => ApiWrite::CreateVariable { key: k },
        KeyWrite::DeleteMcpServer => ApiWrite::DeleteMcpServer { id: k },
        KeyWrite::ImportApiKey => ApiWrite::ImportApiKey { id: k },
        KeyWrite::CreateStsConfig => ApiWrite::CreateStsConfig { id: k },
        KeyWrite::ImportUserAuthFlow => ApiWrite::ImportUserAuthFlow { id: k },
    }
}

/// Appends one write of `kind` for each key, in order.
fn push_key_writes(out: &mut Vec<ApiWrite>, kind: &KeyWrite, keys: &Vec<String>)
    ensures
        writes_view(final(out)@) == writes_view(old(out)@) + key_writes(*kind, texts(keys@)),
{
    let ghost start = writes_view(out@);
    let mut i: usize = 0;
    while i < keys.len()
        invariant
            i <= keys@.len(),
            writes_view(out@) == start + key_writes(*kind, texts(keys@).take(i as int)),
        decreases keys@.len() - i,
    {
        let ghost before = out@;
        let w = make_key_write(kind, keys[i].clone());
        out.push(w);
        assert(writes_view(out@) =~= writes_view(before).push(write_view(w)));
        assert(key_writes(*kind, texts(keys@).take(i + 1)) =~= key_writes(
            *kind,
            texts(keys@).take(i as int),
        ).push(key_write(*kind, keys@[i as int]@)));
        i = i + 1;
    }
    assert(texts(keys@).take(i as int) =~= texts(keys@));
}

/// The writes for the keys of a section that the API lacks, each once, in the
/// file's order; nothing for an absent section.
pub open spec fn section_writes(kind: KeyWrite, wanted: Option<Vec<String>>, existing: Seq<Seq<char>>) -> Seq<
    WriteView,
> {
    match wanted {
        Some(w) => key_writes(kind, missing(texts(w@), existing)),
        None => seq![],
    }
}

fn push_section_writes(out: &mut Vec<ApiWrite>, kind: &KeyWrite, wanted: &Option<Vec<String>>, existing: &Vec<String>)
    ensures
        writes_view(final(out)@) == writes_view(old(out)@) + section_writes(*kind, *wanted, texts(existing@)),
{
    match wanted {
        Some(w) => {
            let m = missing_keys(w, existing);
            push_key_writes(out, kind, &m);
        },
        None => {
            assert(writes_view(out@) + seq![] =~= writes_view(out@));
        },
    }
}

/// The DEK aliases of the first envelope keys, in the file's order.
pub open spec fn all_aliases(keys: Seq<YamlEnvelopeKey>) -> Seq<Seq<char>>
    decreases keys.len(),
{
    if keys.len() == 0 {
        seq![]
    } else {
        all_aliases(keys.drop_last()) + texts(keys.last().dek_aliases@)
    }
}

/// The DEK imports into envelope key `key_id` for its `aliases`: an alias is
/// imported unless it is `known` (the API resolves it, or it was imported
/// earlier in the sync) or came earlier in the list.
pub open spec fn dek_imports(key_id: Seq<char>, aliases: Seq<Seq<char>>, known: Seq<Seq<char>>) -> Seq<
    WriteView,
>
    decreases aliases.len(),
{
    if aliases.len() == 0 {
        seq![]
    } else {
        dek_imports(key_id, aliases.drop_last(), known) + if (known + aliases.drop_last()).contains(
            aliases.last(),
        ) {
            seq![]
        } else {
            seq![WriteView::ImportDek(key_id, aliases.last())]
        }
    }
}

/// The writes for the envelope keys, key by key in the file's order: the key is
/// created when the API lacks it, then its DEKs are imported.
pub open spec fn envelope_writes(keys: Seq<YamlEnvelopeKey>, existing: Seq<Seq<char>>, found: Seq<Seq<char>>) -> Seq<
    WriteView,
>
    decreases keys.len(),
{
    if keys.len() == 0 {
        seq![]
    } else {
        let k = keys.last();
        envelope_writes(keys.drop_last(), existing, found) + (if existing.contains(k.id@) {
            seq![]
        } else {
            seq![WriteView::CreateEnvelopeKey(k.id@)]
        }) + dek_imports(k.id@, texts(k.dek_aliases@), found + all_aliases(keys.drop_last()))
    }
}

fn push_dek_imports(out: &mut Vec<ApiWrite>, key_id: &String, aliases: &Vec<String>, known: &mut Vec<String>)
    ensures
        writes_view(final(out)@) == writes_view(old(out)@) + dek_imports(
            key_id@,
            texts(aliases@),
            texts(old(known)@),
        ),
        texts(final(known)@) == texts(old(known)@) + texts(aliases@),
{
    let ghost start = writes_view(out@);
    let ghost k0 = texts(known@);
    let mut i: usize = 0;
    while i < aliases.len()
        invariant
            i <= aliases@.len(),
            texts(known@) == k0 + texts(aliases@).take(i as int),
            writes_view(out@) == start + dek_imports(key_id@, texts(aliases@).take(i as int), k0),
        decreases aliases@.len() - i,
    {
        let ghost a = texts(aliases@).take(i + 1);
        assert(a.drop_last() =~= texts(aliases@).take(i as int));
        assert(a.last() == aliases@[i as int]@);
        assert(k0 + a.drop_last() =~= texts(known@));
        let ghost before = out@;
        if !contains_text(known, aliases[i].as_str()) {
            out.push(ApiWrite::ImportDek { envelope_key_id: key_id.clone(), alias: aliases[i].clone() });
            assert(writes_view(out@) =~= writes_view(before).push(write_view(out@.last())));
        } else {
            assert(writes_view(out@) + seq![] =~= writes_view(out@));
        }
        let ghost kb = known@;
        known.push(aliases[i].clone());
        assert(texts(known@) =~= texts(kb).push(aliases@[i as int]@));
        i = i + 1;
    }
    assert(texts(aliases@).take(i as int) =~= texts(aliases@));
}

fn push_envelope_writes(out: &mut Vec<ApiWrite>, keys: &Vec<YamlEnvelopeKey>, existing: &Vec<String>, found: &Vec<String>)
    ensures
        writes_view(final(out)@) == writes_view(old(out)@) + envelope_writes(
            keys@,
            texts(existing@),
            texts(found@),
        ),
{
    let ghost start = writes_view(out@);
    let mut known: Vec<String> = Vec::new();
    let mut j: usize = 0;
    while j < found.len()
        invariant
            j <= found@.len(),
            texts(known@) == texts(found@).take(j as int),
        decreases found@.len() - j,
    {
        let ghost kb = known@;
        known.push(found[j].clone());
        assert(texts(known@) =~= texts(kb).push(found@[j as int]@));
        assert(texts(found@).take(j + 1) =~= texts(found@).take(j as int).push(found@[j as int]@));
        j = j + 1;
    }
    assert(texts(found@).take(j as int) =~= texts(found@));
    let mut i: usize = 0;
    assert(all_aliases(keys@.take(0)) =~= Seq::<Seq<char>>::empty());
    assert(texts(known@) =~= texts(found@) + all_aliases(keys@.take(0)));
    while i < keys.len()
        invariant
            i <= keys@.len(),
            texts(known@) == texts(found@) + all_aliases(keys@.take(i as int)),
            writes_view(out@) == start + envelope_writes(
                keys@.take(i as int),
                texts(existing@),
                texts(found@),
            ),
        decreases keys@.len() - i,
    {
        let k = &keys[i];
        let ghost t = keys@.take(i + 1);
        assert(t.drop_last() =~= keys@.take(i as int));
        assert(t.last() == *k);
        let ghost before = out@;
        if !contains_text(existing, k.id.as_str()) {
            out.push(ApiWrite::CreateEnvelopeKey { id: k.id.clone() });
            assert(writes_view(out@) =~= writes_view(before) + seq![WriteView::CreateEnvelopeKey(k.id@)]);
        } else {
            assert(writes_view(out@) =~= writes_view(before) + seq![]);
        }
        let ghost mid = out@;
        let ghost kn = texts(known@);
        push_dek_imports(out, &k.id, &k.dek_aliases, &mut known);
        assert(writes_view(out@) =~= start + envelope_writes(t, texts(existing@), texts(found@)));
        assert(texts(known@) =~= texts(found@) + all_aliases(t));
        i = i + 1;
    }
    assert(keys@.take(i as int) =~= keys@);
}

/// The functions that the API lists as enabled for provider `id` (a later
/// listing of the same provider counts; none when it is not listed).
pub open spec fn enabled_of(fs: Seq<ProviderFunctions>, id: Seq<char>) -> Seq<Seq<char>>
    decreases fs.len(),
{
    if fs.len() == 0 {
        seq![]
    } else if fs.last().provider_id@ == id {
        texts(fs.last().enabled@)
    } else {
        enabled_of(fs.drop_last(), id)
    }
}

fn find_enabled(fs: &Vec<ProviderFunctions>, id: &str) -> (r: Option<usize>)
    ensures
        match r {
            Some(i) => i < fs@.len() && texts(fs@[i as int].enabled@) == enabled_of(fs@, id@),
            None => enabled_of(fs@, id@) == Seq::<Seq<char>>::empty(),
        },
{
    let mut n: usize = fs.len();
    assert(fs@.take(n as int) =~= fs@);
    while n > 0
        invariant
            n <= fs@.len(),
            enabled_of(fs@, id@) == enabled_of(fs@.take(n as int), id@),
        decreases n,
    {
        assert(fs@.take(n as int).last() == fs@[n - 1]);
        assert(fs@.take(n as int).drop_last() =~= fs@.take(n - 1));
        if crate::text::str_eq(fs[n - 1].provider_id.as_str(), id) {
            return Some(n - 1);
        }
        n = n - 1;
    }
    None
}

/// The writes for one provider of the file: created (and then its functions
/// synced) when the API lacks it; deleted and created anew when the API lists it
/// otherwise; when the API lists it as described, the functions it has enabled
/// that the file does not list are disabled, and those the file lists that are
/// not enabled are enabled.
pub open spec fn provider_writes_for(p: YamlProvider, providers: Seq<ExistingProvider>, fns: Seq<ProviderFunctions>) -> Seq<
    WriteView,
> {
    let id = p.spec.id@;
    match provider_action_for(p.spec, providers) {
        ProviderAction::Create => seq![WriteView::CreateProvider(id), WriteView::SyncProviderFunctions(id)],
        ProviderAction::Recreate => seq![
            WriteView::DeleteProvider(id),
            WriteView::CreateProvider(id),
            WriteView::SyncProviderFunctions(id),
        ],
        ProviderAction::Keep => {
            let en = enabled_of(fns, id);
            let w = texts(p.functions@);
            key_writes(KeyWrite::DisableFunction { provider_id: p.spec.id }, missing(en, w))
                + key_writes(KeyWrite::EnableFunction { provider_id: p.spec.id }, missing(w, en))
        },
    }
}

pub open spec fn providers_writes(ps: Seq<YamlProvider>, providers: Seq<ExistingProvider>, fns: Seq<ProviderFunctions>) -> Seq<
    WriteView,
>
    decreases ps.len(),
{
    if ps.len() == 0 {
        seq![]
    } else {
        providers_writes(ps.drop_last(), providers, fns) + provider_writes_for(ps.last(), providers, fns)
    }
}

pub open spec fn provider_ids(ps: Seq<YamlProvider>) -> Seq<Seq<char>> {
    ps.map_values(|p: YamlProvider| p.spec.id@)
}

/// The provider section: each provider of the file in turn, then the deletion
/// of the active listed providers that the file does not name.
pub open spec fn provider_section(wanted: Option<Vec<YamlProvider>>, providers: Seq<ExistingProvider>, fns: Seq<ProviderFunctions>) -> Seq<
    WriteView,
> {
    match wanted {
        None => seq![],
        Some(ps) => providers_writes(ps@, providers, fns) + key_writes(
            KeyWrite::DeleteProvider,
            deletions(providers, provider_ids(ps@), providers.len() as int),
        ),
    }
}

fn push_provider_writes(out: &mut Vec<ApiWrite>, p: &YamlProvider, a: &ApiSnapshot)
    ensures
        writes_view(final(out)@) == writes_view(old(out)@) + provider_writes_for(
            *p,
            a.providers@,
            a.enabled_functions@,
        ),
{
    let id = &p.spec.id;
    let ghost before = out@;
    let action = provider_action(&p.spec, &a.providers);
    if action == ProviderAction::Create {
        out.push(ApiWrite::CreateProvider { id: id.clone() });
        out.push(ApiWrite::SyncProviderFunctions { provider_id: id.clone() });
        assert(writes_view(out@) =~= writes_view(before) + provider_writes_for(
            *p,
            a.providers@,
            a.enabled_functions@,
        ));
    } else if action == ProviderAction::Recreate {
        out.push(ApiWrite::DeleteProvider { id: id.clone() });
        out.push(ApiWrite::CreateProvider { id: id.clone() });
        out.push(ApiWrite::SyncProviderFunctions { provider_id: id.clone() });
        assert(writes_view(out@) =~= writes_view(before) + provider_writes_for(
            *p,
            a.providers@,
            a.enabled_functions@,
        ));
    } else {
        let empty: Vec<String> = Vec::new();
        let en: &Vec<String> = match find_enabled(&a.enabled_functions, id.as_str()) {
            Some(i) => &a.enabled_functions[i].enabled,
            None => {
                assert(texts(empty@) =~= Seq::<Seq<char>>::empty());
                &empty
            },
        };
        let off = missing_keys(en, &p.functions);
        let on = missing_keys(&p.functions, en);
        push_key_writes(out, &KeyWrite::DisableFunction { provider_id: id.clone() }, &off);
        push_key_writes(out, &KeyWrite::EnableFunction { provider_id: id.clone() }, &on);
        assert(writes_view(out@) =~= writes_view(before) + provider_writes_for(
            *p,
            a.providers@,
            a.enabled_functions@,
        ));
    }
}

fn push_provider_section(out: &mut Vec<ApiWrite>, wanted: &Option<Vec<YamlProvider>>, a: &ApiSnapshot)
    ensures
        writes_view(final(out)@) == writes_view(old(out)@) + provider_section(
            *wanted,
            a.providers@,
            a.enabled_functions@,
        ),
{
    match wanted {
        None => {
            assert(writes_view(out@) + seq![] =~= writes_view(out@));
        },
        Some(ps) => {
            let ghost start = writes_view(out@);
            let mut ids: Vec<String> = Vec::new();
            let mut i: usize = 0;
            while i < ps.len()
                invariant
                    i <= ps@.len(),
                    texts(ids@) == provider_ids(ps@.take(i as int)),
                    writes_view(out@) == start + providers_writes(
                        ps@.take(i as int),
                        a.providers@,
                        a.enabled_functions@,
                    ),
                decreases ps@.len() - i,
            {
                let ghost t = ps@.take(i + 1);
                assert(t.drop_last() =~= ps@.take(i as int));
                assert(t.last() == ps@[i as int]);
                push_provider_writes(out, &ps[i], a);
                let ghost ib = ids@;
                ids.push(ps[i].spec.id.clone());
                assert(texts(ids@) =~= texts(ib).push(ps@[i as int].spec.id@));
                assert(provider_ids(t) =~= provider_ids(ps@.take(i as int)).push(ps@[i as int].spec.id@));
                assert(texts(ids@) =~= provider_ids(t));
                assert(writes_view(out@) =~= start + providers_writes(
                    t,
                    a.providers@,
                    a.enabled_functions@,
                ));
                i = i + 1;
            }
            assert(ps@.take(i as int) =~= ps@);
            let gone = providers_to_delete(&ids, &a.providers);
            push_key_writes(out, &KeyWrite::DeleteProvider, &gone);
            assert(writes_view(out@) =~= start + provider_section(
                *wanted,
                a.providers@,
                a.enabled_functions@,
            ));
        },
    }
}

pub open spec fn function_op_writes(server_id: Seq<char>, ops: Seq<McpFunctionOpView>) -> Seq<WriteView> {
    ops.map_values(|op: McpFunctionOpView| WriteView::ChangeMcpServerFunction(server_id, op))
}

pub open spec fn wanted_functions(s: YamlMcpServer) -> Option<Seq<McpFunctionSpec>> {
    match s.functions {
        Some(v) => Some(v@),
        None => None,
    }
}

/// The writes for one MCP server of the file: created when the API lacks it,
/// renamed when the API lists it under another name; then its functions are
/// brought in line with the file (against none for a new server).
pub open spec fn server_writes_for(s: YamlMcpServer, existing: Seq<ExistingMcpServer>) -> Seq<WriteView> {
    match listed_server(existing, s.id@) {
        None => seq![WriteView::CreateMcpServer(s.id@)] + function_op_writes(
            s.id@,
            function_ops(wanted_functions(s), seq![]),
        ),
        Some(e) => (if e.name@ != s.name@ {
            seq![WriteView::RenameMcpServer(s.id@)]
        } else {
            seq![]
        }) + function_op_writes(s.id@, function_ops(wanted_functions(s), e.functions@)),
    }
}

pub open spec fn servers_writes(ss: Seq<YamlMcpServer>, existing: Seq<ExistingMcpServer>) -> Seq<WriteView>
    decreases ss.len(),
{
    if ss.len() == 0 {
        seq![]
    } else {
        servers_writes(ss.drop_last(), existing) + server_writes_for(ss.last(), existing)
    }
}

pub open spec fn server_ids(ss: Seq<YamlMcpServer>) -> Seq<Seq<char>> {
    ss.map_values(|s: YamlMcpServer| s.id@)
}

/// The MCP server section: each server of the file in turn, then the deletion
/// of the listed servers that the file does not name.
pub open spec fn server_section(wanted: Option<Vec<YamlMcpServer>>, existing: Seq<ExistingMcpServer>) -> Seq<
    WriteView,
> {
    match wanted {
        None => seq![],
        Some(ss) => servers_writes(ss@, existing) + key_writes(
            KeyWrite::DeleteMcpServer,
            server_deletions(existing, server_ids(ss@), existing.len() as int),
        ),
    }
}

fn copy_op(op: &McpFunctionOp) -> (r: McpFunctionOp)
    ensures
        op_view(r) == op_view(*op),
{
    match op {
        McpFunctionOp::Remove {
            function_controller_type_id,
            provider_controller_type_id,
            provider_instance_id,
        } => McpFunctionOp::Remove {
            function_controller_type_id: function_controller_type_id.clone(),
            provider_controller_type_id: provider_controller_type_id.clone(),
            provider_instance_id: provider_instance_id.clone(),
        },
        McpFunctionOp::Add { index } => McpFunctionOp::Add { index: *index },
        McpFunctionOp::Update { index } => McpFunctionOp::Update { index: *index },
    }
}

fn push_function_ops(out: &mut Vec<ApiWrite>, server_id: &String, ops: &Vec<McpFunctionOp>)
    ensures
        writes_view(final(out)@) == writes_view(old(out)@) + function_op_writes(
            server_id@,
            ops@.map_values(|op: McpFunctionOp| op_view(op)),
        ),
{
    let ghost start = writes_view(out@);
    let ghost views = ops@.map_values(|op: McpFunctionOp| op_view(op));
    let mut i: usize = 0;
    while i < ops.len()
        invariant
            i <= ops@.len(),
            views == ops@.map_values(|op: McpFunctionOp| op_view(op)),
            writes_view(out@) == start + function_op_writes(server_id@, views.take(i as int)),
        decreases ops@.len() - i,
    {
        let ghost before = out@;
        let op = copy_op(&ops[i]);
        out.push(ApiWrite::ChangeMcpServerFunction { server_id: server_id.clone(), op });
        assert(writes_view(out@) =~= writes_view(before).push(write_view(out@.last())));
        assert(function_op_writes(server_id@, views.take(i + 1)) =~= function_op_writes(
            server_id@,
            views.take(i as int),
        ).push(WriteView::ChangeMcpServerFunction(server_id@, views[i as int])));
        i = i + 1;
    }
    assert(views.take(i as int) =~= views);
}

fn push_server_writes(out: &mut Vec<ApiWrite>, s: &YamlMcpServer, existing: &Vec<ExistingMcpServer>)
    ensures
        writes_view(final(out)@) == writes_view(old(out)@) + server_writes_for(*s, existing@),
{
    let ghost before = writes_view(out@);
    let idx = find_listed_server(existing, s.id.as_str());
    match idx {
        None => {
            out.push(ApiWrite::CreateMcpServer { id: s.id.clone() });
            let ghost mid = writes_view(out@);
            assert(mid =~= before + seq![WriteView::CreateMcpServer(s.id@)]);
            let empty: Vec<McpFunctionSpec> = Vec::new();
            let ops = mcp_function_ops(&s.functions, &empty);
            assert(empty@ =~= Seq::<McpFunctionSpec>::empty());
            push_function_ops(out, &s.id, &ops);
            assert(writes_view(out@) =~= before + server_writes_for(*s, existing@));
        },
        Some(i) => {
            let e = &existing[i];
            let action = mcp_server_action(s.name.as_str(), Some(e));
            if action == McpServerAction::Rename {
                out.push(ApiWrite::RenameMcpServer { id: s.id.clone() });
                assert(writes_view(out@) =~= before + seq![WriteView::RenameMcpServer(s.id@)]);
            } else {
                assert(writes_view(out@) =~= before + seq![]);
            }
            let ops = mcp_function_ops(&s.functions, &e.functions);
            push_function_ops(out, &s.id, &ops);
            assert(writes_view(out@) =~= before + server_writes_for(*s, existing@));
        },
    }
}

fn push_server_section(out: &mut Vec<ApiWrite>, wanted: &Option<Vec<YamlMcpServer>>, existing: &Vec<ExistingMcpServer>)
    ensures
        writes_view(final(out)@) == writes_view(old(out)@) + server_section(*wanted, existing@),
{
    match wanted {
        None => {
            assert(writes_view(out@) + seq![] =~= writes_view(out@));
        },
        Some(ss) => {
            let ghost start = writes_view(out@);
            let mut ids: Vec<String> = Vec::new();
            let mut i: usize = 0;
            while i < ss.len()
                invariant
                    i <= ss@.len(),
                    texts(ids@) == server_ids(ss@.take(i as int)),
                    writes_view(out@) == start + servers_writes(ss@.take(i as int), existing@),
                decreases ss@.len() - i,
            {
                let ghost t = ss@.take(i + 1);
                assert(t.drop_last() =~= ss@.take(i as int));
                assert(t.last() == ss@[i as int]);
                push_server_writes(out, &ss[i], existing);
                let ghost ib = ids@;
                ids.push(ss[i].id.clone());
                assert(texts(ids@) =~= texts(ib).push(ss@[i as int].id@));
                assert(server_ids(t) =~= server_ids(ss@.take(i as int)).push(ss@[i as int].id@));
                assert(writes_view(out@) =~= start + servers_writes(t, existing@));
                i = i + 1;
            }
            assert(ss@.take(i as int) =~= ss@);
            let gone = mcp_servers_to_delete(&ids, existing);
            push_key_writes(out, &KeyWrite::DeleteMcpServer, &gone);
            assert(writes_view(out@) =~= start + server_section(*wanted, existing@));
        },
    }
}

pub open spec fn envelope_section(wanted: Option<Vec<YamlEnvelopeKey>>, existing: Seq<Seq<char>>, found: Seq<Seq<char>>) -> Seq<
    WriteView,
> {
    match wanted {
        Some(ks) => envelope_writes(ks@, existing, found),
        None => seq![],
    }
}

/// Every write of the start-up sync, section by section as it runs: envelope
/// keys and their DEKs, providers and their functions, secrets, environment
/// variables, MCP servers and their functions, API keys, STS configurations and
/// user sign-in flows.
pub open spec fn startup_writes(d: StartupDefinition, a: ApiSnapshot) -> Seq<WriteView> {
    envelope_section(d.envelope_keys, texts(a.envelope_keys@), texts(a.found_dek_aliases@))
        + provider_section(d.providers, a.providers@, a.enabled_functions@)
        + section_writes(KeyWrite::ImportSecret, d.secrets, texts(a.secrets@))
        + section_writes(KeyWrite::CreateVariable, d.environment_variables, texts(a.environment_variables@))
        + server_section(d.mcp_servers, a.mcp_servers@)
        + section_writes(KeyWrite::ImportApiKey, d.api_keys, texts(a.api_keys@))
        + section_writes(KeyWrite::CreateStsConfig, d.sts_configurations, texts(a.sts_configurations@))
        + section_writes(KeyWrite::ImportUserAuthFlow, d.user_auth_flows, texts(a.user_auth_flows@))
}

/// The writes that bring the API, as `a` lists it, in line with the file `d`.
pub fn startup_plan(d: &StartupDefinition, a: &ApiSnapshot) -> (r: Vec<ApiWrite>)
    ensures
        writes_view(r@) == startup_writes(*d, *a),
{
    let mut out: Vec<ApiWrite> = Vec::new();
    assert(writes_view(out@) =~= Seq::<WriteView>::empty());
    match &d.envelope_keys {
        Some(ks) => push_envelope_writes(&mut out, ks, &a.envelope_keys, &a.found_dek_aliases),
        None => {},
    }
    let ghost s1 = writes_view(out@);
    assert(s1 =~= envelope_section(d.envelope_keys, texts(a.envelope_keys@), texts(a.found_dek_aliases@)));
    push_provider_section(&mut out, &d.providers, a);
    push_section_writes(&mut out, &KeyWrite::ImportSecret, &d.secrets, &a.secrets);
    push_section_writes(&mut out, &KeyWrite::CreateVariable, &d.environment_variables, &a.environment_variables);
    push_server_section(&mut out, &d.mcp_servers, &a.mcp_servers);
    push_section_writes(&mut out, &KeyWrite::ImportApiKey, &d.api_keys, &a.api_keys);
    push_section_writes(&mut out, &KeyWrite::CreateStsConfig, &d.sts_configurations, &a.sts_configurations);
    push_section_writes(&mut out, &KeyWrite::ImportUserAuthFlow, &d.user_auth_flows, &a.user_auth_flows);
    out
}

/// The envelope keys of the file exist in the API, and it resolves all their
/// DEK aliases.
pub open spec fn envelope_keys_in_place(wanted: Option<Vec<YamlEnvelopeKey>>, existing: Seq<Seq<char>>, found: Seq<Seq<char>>) -> bool {
    match wanted {
        None => true,
        Some(ks) => forall|i: int| 0 <= i < ks@.len() ==> envelope_key_in_place(#[trigger] ks@[i], existing, found),
    }
}

/// The envelope key exists in the API, and it resolves all its DEK aliases.
pub open spec fn envelope_key_in_place(k: YamlEnvelopeKey, existing: Seq<Seq<char>>, found: Seq<Seq<char>>) -> bool {
    &&& existing.contains(k.id@)
    &&& forall|x: Seq<char>| texts(k.dek_aliases@).contains(x) ==> #[trigger] found.contains(x)
}

/// The keys of a section of the file all exist in the API.
pub open spec fn keys_in_place(wanted: Option<Vec<String>>, existing: Seq<Seq<char>>) -> bool {
    match wanted {
        None => true,
        Some(w) => forall|x: Seq<char>| texts(w@).contains(x) ==> #[trigger] existing.contains(x),
    }
}

pub open spec fn same_members(a: Seq<Seq<char>>, b: Seq<Seq<char>>) -> bool {
    forall|x: Seq<char>| #[trigger] a.contains(x) <==> #[trigger] b.contains(x)
}

/// The API lists the provider as the file describes it, with the functions the
/// file lists enabled and no others.
pub open spec fn provider_in_place(p: YamlProvider, providers: Seq<ExistingProvider>, fns: Seq<ProviderFunctions>) -> bool {
    &&& listed_provider(providers, p.spec.id@) matches Some(e)
    &&& e.provider_controller_type_id@ == p.spec.provider_controller_type_id@
    &&& e.credential_controller_type_id@ == p.spec.credential_controller_type_id@
    &&& e.display_name@ == p.spec.display_name@
    &&& same_members(enabled_of(fns, p.spec.id@), texts(p.functions@))
}

/// Every provider of the file is in place, and every active provider that the
/// API lists is named in the file.
pub open spec fn providers_in_place(wanted: Option<Vec<YamlProvider>>, providers: Seq<ExistingProvider>, fns: Seq<ProviderFunctions>) -> bool {
    match wanted {
        None => true,
        Some(ps) => {
            &&& forall|i: int| 0 <= i < ps@.len() ==> provider_in_place(#[trigger] ps@[i], providers, fns)
            &&& forall|j: int|
                0 <= j < providers.len() && (#[trigger] providers[j]).status@ == "active"@
                    ==> provider_ids(ps@).contains(providers[j].id@)
        },
    }
}

/// An MCP server's functions in the API are those of the file: each function of
/// the file is there (the first with its key) under the file's name and
/// description, and the API has no function whose key the file does not list.
pub open spec fn functions_in_place(w: Seq<McpFunctionSpec>, e: Seq<McpFunctionSpec>) -> bool {
    &&& forall|i: int|
        0 <= i < w.len() ==> (first_function(e, function_key(#[trigger] w[i])) matches Some(f)
            && f.function_name@ == w[i].function_name@ && opt_text(f.function_description) == opt_text(
            w[i].function_description,
        ))
    &&& forall|j: int| 0 <= j < e.len() ==> function_keys(w).contains(function_key(#[trigger] e[j]))
}

pub open spec fn listed_functions(s: YamlMcpServer) -> Seq<McpFunctionSpec> {
    match s.functions {
        Some(v) => v@,
        None => seq![],
    }
}

/// The API lists the MCP server under the file's name, with its functions in place.
pub open spec fn server_in_place(s: YamlMcpServer, existing: Seq<ExistingMcpServer>) -> bool {
    &&& listed_server(existing, s.id@) matches Some(e)
    &&& e.name@ == s.name@
    &&& functions_in_place(listed_functions(s), e.functions@)
}

/// Every MCP server of the file is in place, and the file names every server
/// that the API lists.
pub open spec fn servers_in_place(wanted: Option<Vec<YamlMcpServer>>, existing: Seq<ExistingMcpServer>) -> bool {
    match wanted {
        None => true,
        Some(ss) => {
            &&& forall|i: int| 0 <= i < ss@.len() ==> server_in_place(#[trigger] ss@[i], existing)
            &&& forall|j: int|
                0 <= j < existing.len() ==> server_ids(ss@).contains((#[trigger] existing[j]).id@)
        },
    }
}

/// The API, as `a` lists it, reflects the file `d`: what a completed start-up
/// sync leaves when nothing else writes to the API.
pub open spec fn api_reflects(d: StartupDefinition, a: ApiSnapshot) -> bool {
    &&& envelope_keys_in_place(d.envelope_keys, texts(a.envelope_keys@), texts(a.found_dek_aliases@))
    &&& providers_in_place(d.providers, a.providers@, a.enabled_functions@)
    &&& keys_in_place(d.secrets, texts(a.secrets@))
    &&& keys_in_place(d.environment_variables, texts(a.environment_variables@))
    &&& servers_in_place(d.mcp_servers, a.mcp_servers@)
    &&& keys_in_place(d.api_keys, texts(a.api_keys@))
    &&& keys_in_place(d.sts_configurations, texts(a.sts_configurations@))
    &&& keys_in_place(d.user_auth_flows, texts(a.user_auth_flows@))
}

proof fn lemma_dek_imports_none(key_id: Seq<char>, aliases: Seq<Seq<char>>, known: Seq<Seq<char>>)
    requires
        forall|x: Seq<char>| aliases.contains(x) ==> #[trigger] known.contains(x),
    ensures
        dek_imports(key_id, aliases, known) == Seq::<WriteView>::empty(),
    decreases aliases.len(),
{
    if aliases.len() > 0 {
        let d = aliases.drop_last();
        assert forall|x: Seq<char>| d.contains(x) implies #[trigger] known.contains(x) by {
            let i = choose|i: int| 0 <= i < d.len() && d[i] == x;
            assert(aliases[i] == x);
        }
        lemma_dek_imports_none(key_id, d, known);
        let x = aliases.last();
        assert(aliases[aliases.len() - 1] == x);
        assert(known.contains(x));
        let i = choose|i: int| 0 <= i < known.len() && known[i] == x;
        assert((known + d)[i] == x);
        assert(dek_imports(key_id, aliases, known) =~= Seq::<WriteView>::empty());
    }
}

proof fn lemma_envelope_writes_none(keys: Seq<YamlEnvelopeKey>, existing: Seq<Seq<char>>, found: Seq<Seq<char>>)
    requires
        forall|i: int| 0 <= i < keys.len() ==> envelope_key_in_place(#[trigger] keys[i], existing, found),
    ensures
        envelope_writes(keys, existing, found) == Seq::<WriteView>::empty(),
    decreases keys.len(),
{
    if keys.len() > 0 {
        let d = keys.drop_last();
        assert forall|i: int| 0 <= i < d.len() implies envelope_key_in_place(#[trigger] d[i], existing, found) by {
            assert(d[i] == keys[i]);
        }
        lemma_envelope_writes_none(d, existing, found);
        let k = keys.last();
        assert(keys[keys.len() - 1] == k);
        assert(envelope_key_in_place(k, existing, found));
        let known = found + all_aliases(d);
        assert forall|x: Seq<char>| texts(k.dek_aliases@).contains(x) implies #[trigger] known.contains(x) by {
            assert(found.contains(x));
            let i = choose|i: int| 0 <= i < found.len() && found[i] == x;
            assert(known[i] == x);
        }
        lemma_dek_imports_none(k.id@, texts(k.dek_aliases@), known);
        assert(envelope_writes(keys, existing, found) =~= Seq::<WriteView>::empty());
    }
}

proof fn lemma_providers_writes_none(ps: Seq<YamlProvider>, providers: Seq<ExistingProvider>, fns: Seq<ProviderFunctions>)
    requires
        forall|i: int| 0 <= i < ps.len() ==> provider_in_place(#[trigger] ps[i], providers, fns),
    ensures
        providers_writes(ps, providers, fns) == Seq::<WriteView>::empty(),
    decreases ps.len(),
{
    if ps.len() > 0 {
        let d = ps.drop_last();
        assert forall|i: int| 0 <= i < d.len() implies provider_in_place(#[trigger] d[i], providers, fns) by {
            assert(d[i] == ps[i]);
        }
        lemma_providers_writes_none(d, providers, fns);
        let p = ps.last();
        assert(ps[ps.len() - 1] == p);
        assert(provider_in_place(p, providers, fns));
        let en = enabled_of(fns, p.spec.id@);
        let w = texts(p.functions@);
        assert(provider_action_for(p.spec, providers) == ProviderAction::Keep);
        law_nothing_missing_when_all_exist(en, w);
        law_nothing_missing_when_all_exist(w, en);
        assert(key_writes(KeyWrite::DisableFunction { provider_id: p.spec.id }, missing(en, w))
            =~= Seq::<WriteView>::empty());
        assert(key_writes(KeyWrite::EnableFunction { provider_id: p.spec.id }, missing(w, en))
            =~= Seq::<WriteView>::empty());
        assert(providers_writes(ps, providers, fns) =~= Seq::<WriteView>::empty());
    }
}

proof fn lemma_upserts_in_place(w: Seq<McpFunctionSpec>, e: Seq<McpFunctionSpec>, k: int)
    requires
        0 <= k <= w.len(),
        functions_in_place(w, e),
    ensures
        function_upserts(w, e, k) == Seq::<McpFunctionOpView>::empty(),
    decreases k,
{
    if k > 0 {
        lemma_upserts_in_place(w, e, k - 1);
        assert(first_function(e, function_key(w[k - 1])) is Some);
        assert(wanted_function_op(w, e, k - 1) =~= Seq::<McpFunctionOpView>::empty());
        assert(function_upserts(w, e, k) =~= Seq::<McpFunctionOpView>::empty());
    }
}

proof fn lemma_server_writes_none(s: YamlMcpServer, existing: Seq<ExistingMcpServer>)
    requires
        server_in_place(s, existing),
    ensures
        server_writes_for(s, existing) == Seq::<WriteView>::empty(),
{
    let e = listed_server(existing, s.id@).unwrap();
    let w = listed_functions(s);
    let ek = function_keys(e.functions@);
    assert forall|i: int| 0 <= i < ek.len() implies function_keys(w).contains(#[trigger] ek[i]) by {
        assert(ek[i] == function_key(e.functions@[i]));
    }
    lemma_removals_none(ek, function_keys(w), e.functions@.len() as int);
    lemma_upserts_in_place(w, e.functions@, w.len() as int);
    assert(function_ops(wanted_functions(s), e.functions@) =~= Seq::<McpFunctionOpView>::empty());
    assert(server_writes_for(s, existing) =~= Seq::<WriteView>::empty());
}

proof fn lemma_servers_writes_none(ss: Seq<YamlMcpServer>, existing: Seq<ExistingMcpServer>)
    requires
        forall|i: int| 0 <= i < ss.len() ==> server_in_place(#[trigger] ss[i], existing),
    ensures
        servers_writes(ss, existing) == Seq::<WriteView>::empty(),
    decreases ss.len(),
{
    if ss.len() > 0 {
        let d = ss.drop_last();
        assert forall|i: int| 0 <= i < d.len() implies server_in_place(#[trigger] d[i], existing) by {
            assert(d[i] == ss[i]);
        }
        lemma_servers_writes_none(d, existing);
        assert(ss[ss.len() - 1] == ss.last());
        lemma_server_writes_none(ss.last(), existing);
        assert(servers_writes(ss, existing) =~= Seq::<WriteView>::empty());
    }
}

proof fn lemma_section_none(kind: KeyWrite, wanted: Option<Vec<String>>, existing: Seq<Seq<char>>)
    requires
        keys_in_place(wanted, existing),
    ensures
        section_writes(kind, wanted, existing) == Seq::<WriteView>::empty(),
{
    if let Some(w) = wanted {
        law_nothing_missing_when_all_exist(texts(w@), existing);
        assert(section_writes(kind, wanted, existing) =~= Seq::<WriteView>::empty());
    }
}

/// A second start-up sync over an API that reflects `soma.yaml` (as the first
/// one left it, with nothing else writing in between) plans no write at all:
/// no key, DEK, provider, secret, variable, server or identity item is created,
/// imported, renamed or deleted, and no function is enabled, disabled, added,
/// changed or removed.
pub proof fn law_second_startup_sync_writes_nothing(d: StartupDefinition, a: ApiSnapshot)
    requires
        api_reflects(d, a),
    ensures
        startup_writes(d, a) == Seq::<WriteView>::empty(),
{
    if let Some(ks) = d.envelope_keys {
        lemma_envelope_writes_none(ks@, texts(a.envelope_keys@), texts(a.found_dek_aliases@));
    }
    if let Some(ps) = d.providers {
        lemma_providers_writes_none(ps@, a.providers@, a.enabled_functions@);
        law_no_provider_deleted_when_all_are_named(a.providers@, provider_ids(ps@));
        assert(key_writes(
            KeyWrite::DeleteProvider,
            deletions(a.providers@, provider_ids(ps@), a.providers@.len() as int),
        ) =~= Seq::<WriteView>::empty());
    }
    if let Some(ss) = d.mcp_servers {
        lemma_servers_writes_none(ss@, a.mcp_servers@);
        law_no_server_deleted_when_all_are_named(a.mcp_servers@, server_ids(ss@));
        assert(key_writes(
            KeyWrite::DeleteMcpServer,
            server_deletions(a.mcp_servers@, server_ids(ss@), a.mcp_servers@.len() as int),
        ) =~= Seq::<WriteView>::empty());
    }
    lemma_section_none(KeyWrite::ImportSecret, d.secrets, texts(a.secrets@));
    lemma_section_none(KeyWrite::CreateVariable, d.environment_variables, texts(a.environment_variables@));
    lemma_section_none(KeyWrite::ImportApiKey, d.api_keys, texts(a.api_keys@));
    lemma_section_none(KeyWrite::CreateStsConfig, d.sts_configurations, texts(a.sts_configurations@));
    lemma_section_none(KeyWrite::ImportUserAuthFlow, d.user_auth_flows, texts(a.user_auth_flows@));
    assert(startup_writes(d, a) =~= Seq::<WriteView>::empty());
}

proof fn lemma_key_writes_contains(kind: KeyWrite, keys: Seq<Seq<char>>, x: Seq<char>)
    ensures
        keys.contains(x) ==> key_writes(kind, keys).contains(key_write(kind, x)),
{
    if keys.contains(x) {
        let i = choose|i: int| 0 <= i < keys.len() && keys[i] == x;
        assert(key_writes(kind, keys)[i] == key_write(kind, x));
    }
}

/// A kept provider's writes are only function switches of that provider:
/// each function that `soma.yaml` lists and the API has not enabled is enabled,
/// each enabled function that the file does not list is disabled, and nothing
/// else. So after them the provider has enabled exactly the file's functions.
pub proof fn law_kept_provider_gets_exactly_its_functions(
    p: YamlProvider,
    providers: Seq<ExistingProvider>,
    fns: Seq<ProviderFunctions>,
)
    requires
        listed_provider(providers, p.spec.id@) matches Some(e) && e.provider_controller_type_id@
            == p.spec.provider_controller_type_id@ && e.credential_controller_type_id@
            == p.spec.credential_controller_type_id@ && e.display_name@ == p.spec.display_name@,
    ensures
        forall|f: Seq<char>|
            #[trigger] provider_writes_for(p, providers, fns).contains(WriteView::EnableFunction(p.spec.id@, f))
                <==> texts(p.functions@).contains(f) && !enabled_of(fns, p.spec.id@).contains(f),
        forall|f: Seq<char>|
            #[trigger] provider_writes_for(p, providers, fns).contains(WriteView::DisableFunction(p.spec.id@, f))
                <==> enabled_of(fns, p.spec.id@).contains(f) && !texts(p.functions@).contains(f),
        forall|w: WriteView|
            #[trigger] provider_writes_for(p, providers, fns).contains(w) ==> (w matches WriteView::EnableFunction(
                id,
                _,
            ) && id == p.spec.id@) || (w matches WriteView::DisableFunction(id, _) && id == p.spec.id@),
        forall|f: Seq<char>|
            ((enabled_of(fns, p.spec.id@).contains(f) && !provider_writes_for(p, providers, fns).contains(
                WriteView::DisableFunction(p.spec.id@, f),
            )) || provider_writes_for(p, providers, fns).contains(WriteView::EnableFunction(p.spec.id@, f)))
                <==> #[trigger] texts(p.functions@).contains(f),
{
    let id = p.spec.id@;
    let en = enabled_of(fns, id);
    let w = texts(p.functions@);
    let dk = KeyWrite::DisableFunction { provider_id: p.spec.id };
    let ek = KeyWrite::EnableFunction { provider_id: p.spec.id };
    let off = missing(en, w);
    let on = missing(w, en);
    crate::sync::law_missing_keys_complete_the_existing(en, w);
    crate::sync::law_missing_keys_complete_the_existing(w, en);
    let ws = provider_writes_for(p, providers, fns);
    assert(ws == key_writes(dk, off) + key_writes(ek, on));
    assert forall|x: WriteView| #[trigger] ws.contains(x) implies (x matches WriteView::EnableFunction(
        i,
        _,
    ) && i == id) || (x matches WriteView::DisableFunction(i, _) && i == id) by {
        let k = choose|k: int| 0 <= k < ws.len() && ws[k] == x;
        if k < off.len() {
            assert(ws[k] == key_writes(dk, off)[k]);
        } else {
            assert(ws[k] == key_writes(ek, on)[k - off.len()]);
        }
    }
    assert forall|f: Seq<char>|
        #[trigger] ws.contains(WriteView::EnableFunction(id, f)) <==> w.contains(f) && !en.contains(f) by {
        lemma_key_writes_contains(ek, on, f);
        if ws.contains(WriteView::EnableFunction(id, f)) {
            let k = choose|k: int| 0 <= k < ws.len() && ws[k] == WriteView::EnableFunction(id, f);
            if k < off.len() {
                assert(ws[k] == key_writes(dk, off)[k]);
            } else {
                assert(ws[k] == key_writes(ek, on)[k - off.len()]);
                assert(on[k - off.len()] == f);
                assert(on.contains(f));
            }
        }
        if on.contains(f) {
            let j = choose|j: int| 0 <= j < key_writes(ek, on).len() && key_writes(ek, on)[j] == key_write(ek, f);
            assert(ws[off.len() + j] == WriteView::EnableFunction(id, f));
        }
    }
    assert forall|f: Seq<char>|
        #[trigger] ws.contains(WriteView::DisableFunction(id, f)) <==> en.contains(f) && !w.contains(f) by {
        lemma_key_writes_contains(dk, off, f);
        if ws.contains(WriteView::DisableFunction(id, f)) {
            let k = choose|k: int| 0 <= k < ws.len() && ws[k] == WriteView::DisableFunction(id, f);
            if k < off.len() {
                assert(ws[k] == key_writes(dk, off)[k]);
                assert(off[k] == f);
                assert(off.contains(f));
            } else {
                assert(ws[k] == key_writes(ek, on)[k - off.len()]);
            }
        }
        if off.contains(f) {
            let j = choose|j: int| 0 <= j < key_writes(dk, off).len() && key_writes(dk, off)[j] == key_write(dk, f);
            assert(ws[j] == WriteView::DisableFunction(id, f));
        }
    }
}

proof fn lemma_providers_writes_include(ps: Seq<YamlProvider>, providers: Seq<ExistingProvider>, fns: Seq<ProviderFunctions>, i: int, x: WriteView)
    requires
        0 <= i < ps.len(),
        provider_writes_for(ps[i], providers, fns).contains(x),
    ensures
        providers_writes(ps, providers, fns).contains(x),
    decreases ps.len(),
{
    let d = ps.drop_last();
    let all = providers_writes(ps, providers, fns);
    let front = providers_writes(d, providers, fns);
    if i < ps.len() - 1 {
        assert(d[i] == ps[i]);
        lemma_providers_writes_include(d, providers, fns, i, x);
        let k = choose|k: int| 0 <= k < front.len() && front[k] == x;
        assert(all[k] == x);
    } else {
        assert(ps.last() == ps[i]);
        let last = provider_writes_for(ps.last(), providers, fns);
        let k = choose|k: int| 0 <= k < last.len() && last[k] == x;
        assert(all[front.len() + k] == x);
    }
}

/// The start-up plan enables, on every provider that the API keeps (listed as
/// `soma.yaml` describes it), each function that the file lists and the API has
/// not enabled, and disables each enabled function that the file does not list.
pub proof fn law_startup_plan_switches_kept_providers_functions(
    d: StartupDefinition,
    a: ApiSnapshot,
    i: int,
    f: Seq<char>,
)
    requires
        d.providers matches Some(ps) && 0 <= i < ps@.len() && (listed_provider(
            a.providers@,
            ps@[i].spec.id@,
        ) matches Some(e) && e.provider_controller_type_id@ == ps@[i].spec.provider_controller_type_id@
            && e.credential_controller_type_id@ == ps@[i].spec.credential_controller_type_id@
            && e.display_name@ == ps@[i].spec.display_name@),
    ensures
        ({
            let p = d.providers->0@[i];
            let en = enabled_of(a.enabled_functions@, p.spec.id@);
            let w = texts(p.functions@);
            &&& w.contains(f) && !en.contains(f) ==> startup_writes(d, a).contains(
                WriteView::EnableFunction(p.spec.id@, f),
            )
            &&& en.contains(f) && !w.contains(f) ==> startup_writes(d, a).contains(
                WriteView::DisableFunction(p.spec.id@, f),
            )
        }),
{
    let ps = d.providers->0@;
    let p = ps[i];
    law_kept_provider_gets_exactly_its_functions(p, a.providers@, a.enabled_functions@);
    let env = envelope_section(d.envelope_keys, texts(a.envelope_keys@), texts(a.found_dek_aliases@));
    let sec = provider_section(d.providers, a.providers@, a.enabled_functions@);
    let pw = providers_writes(ps, a.providers@, a.enabled_functions@);
    let all = startup_writes(d, a);
    let id = p.spec.id@;
    let ws = provider_writes_for(p, a.providers@, a.enabled_functions@);
    if ws.contains(WriteView::EnableFunction(id, f)) {
        lemma_providers_writes_include(ps, a.providers@, a.enabled_functions@, i, WriteView::EnableFunction(id, f));
        let k = choose|k: int| 0 <= k < pw.len() && pw[k] == WriteView::EnableFunction(id, f);
        assert(sec[k] == pw[k]);
        assert(all[env.len() + k] == sec[k]);
    }
    if ws.contains(WriteView::DisableFunction(id, f)) {
        lemma_providers_writes_include(ps, a.providers@, a.enabled_functions@, i, WriteView::DisableFunction(id, f));
        let k = choose|k: int| 0 <= k < pw.len() && pw[k] == WriteView::DisableFunction(id, f);
        assert(sec[k] == pw[k]);
        assert(all[env.len() + k] == sec[k]);
    }
}

proof fn lemma_concat_contains<A>(s: Seq<A>, t: Seq<A>, x: A)
    ensures
        (s.contains(x) || t.contains(x)) ==> (s + t).contains(x),
{
    if s.contains(x) {
        let i = choose|i: int| 0 <= i < s.len() && s[i] == x;
        assert((s + t)[i] == x);
    } else if t.contains(x) {
        let i = choose|i: int| 0 <= i < t.len() && t[i] == x;
        assert((s + t)[s.len() + i] == x);
    }
}

/// A write of any section is a write of the whole start-up plan.
proof fn lemma_in_startup(d: StartupDefinition, a: ApiSnapshot, x: WriteView)
    requires
        envelope_section(d.envelope_keys, texts(a.envelope_keys@), texts(a.found_dek_aliases@)).contains(x)
            || provider_section(d.providers, a.providers@, a.enabled_functions@).contains(x)
            || section_writes(KeyWrite::ImportSecret, d.secrets, texts(a.secrets@)).contains(x)
            || section_writes(KeyWrite::CreateVariable, d.environment_variables, texts(a.environment_variables@)).contains(x)
            || server_section(d.mcp_servers, a.mcp_servers@).contains(x)
            || section_writes(KeyWrite::ImportApiKey, d.api_keys, texts(a.api_keys@)).contains(x)
            || section_writes(KeyWrite::CreateStsConfig, d.sts_configurations, texts(a.sts_configurations@)).contains(x)
            || section_writes(KeyWrite::ImportUserAuthFlow, d.user_auth_flows, texts(a.user_auth_flows@)).contains(x),
    ensures
        startup_writes(d, a).contains(x),
{
    let s1 = envelope_section(d.envelope_keys, texts(a.envelope_keys@), texts(a.found_dek_aliases@));
    let s2 = provider_section(d.providers, a.providers@, a.enabled_functions@);
    let s3 = section_writes(KeyWrite::ImportSecret, d.secrets, texts(a.secrets@));
    let s4 = section_writes(KeyWrite::CreateVariable, d.environment_variables, texts(a.environment_variables@));
    let s5 = server_section(d.mcp_servers, a.mcp_servers@);
    let s6 = section_writes(KeyWrite::ImportApiKey, d.api_keys, texts(a.api_keys@));
    let s7 = section_writes(KeyWrite::CreateStsConfig, d.sts_configurations, texts(a.sts_configurations@));
    let s8 = section_writes(KeyWrite::ImportUserAuthFlow, d.user_auth_flows, texts(a.user_auth_flows@));
    lemma_concat_contains(s1, s2, x);
    lemma_concat_contains(s1 + s2, s3, x);
    lemma_concat_contains(s1 + s2 + s3, s4, x);
    lemma_concat_contains(s1 + s2 + s3 + s4, s5, x);
    lemma_concat_contains(s1 + s2 + s3 + s4 + s5, s6, x);
    lemma_concat_contains(s1 + s2 + s3 + s4 + s5 + s6, s7, x);
    lemma_concat_contains(s1 + s2 + s3 + s4 + s5 + s6 + s7, s8, x);
}

proof fn lemma_section_covers(kind: KeyWrite, w: Vec<String>, existing: Seq<Seq<char>>, k: Seq<char>)
    requires
        texts(w@).contains(k),
        !existing.contains(k),
    ensures
        section_writes(kind, Some(w), existing).contains(key_write(kind, k)),
{
    law_missing_keys_complete_the_existing(texts(w@), existing);
    lemma_key_writes_contains(kind, missing(texts(w@), existing), k);
}

/// Every secret, environment variable, API key, STS configuration and sign-in
/// flow of `soma.yaml` that the API lacks is imported or created by the
/// start-up plan.
pub proof fn law_startup_plan_adds_every_missing_item(d: StartupDefinition, a: ApiSnapshot, k: Seq<char>)
    ensures
        d.secrets matches Some(w) && texts(w@).contains(k) && !texts(a.secrets@).contains(k)
            ==> startup_writes(d, a).contains(WriteView::ImportSecret(k)),
        d.environment_variables matches Some(w) && texts(w@).contains(k) && !texts(
            a.environment_variables@,
        ).contains(k) ==> startup_writes(d, a).contains(WriteView::CreateVariable(k)),
        d.api_keys matches Some(w) && texts(w@).contains(k) && !texts(a.api_keys@).contains(k)
            ==> startup_writes(d, a).contains(WriteView::ImportApiKey(k)),
        d.sts_configurations matches Some(w) && texts(w@).contains(k) && !texts(
            a.sts_configurations@,
        ).contains(k) ==> startup_writes(d, a).contains(WriteView::CreateStsConfig(k)),
        d.user_auth_flows matches Some(w) && texts(w@).contains(k) && !texts(a.user_auth_flows@).contains(
            k,
        ) ==> startup_writes(d, a).contains(WriteView::ImportUserAuthFlow(k)),
{
    if let Some(w) = d.secrets {
        if texts(w@).contains(k) && !texts(a.secrets@).contains(k) {
            lemma_section_covers(KeyWrite::ImportSecret, w, texts(a.secrets@), k);
            lemma_in_startup(d, a, WriteView::ImportSecret(k));
        }
    }
    if let Some(w) = d.environment_variables {
        if texts(w@).contains(k) && !texts(a.environment_variables@).contains(k) {
            lemma_section_covers(KeyWrite::CreateVariable, w, texts(a.environment_variables@), k);
            lemma_in_startup(d, a, WriteView::CreateVariable(k));
        }
    }
    if let Some(w) = d.api_keys {
        if texts(w@).contains(k) && !texts(a.api_keys@).contains(k) {
            lemma_section_covers(KeyWrite::ImportApiKey, w, texts(a.api_keys@), k);
            lemma_in_startup(d, a, WriteView::ImportApiKey(k));
        }
    }
    if let Some(w) = d.sts_configurations {
        if texts(w@).contains(k) && !texts(a.sts_configurations@).contains(k) {
            lemma_section_covers(KeyWrite::CreateStsConfig, w, texts(a.sts_configurations@), k);
            lemma_in_startup(d, a, WriteView::CreateStsConfig(k));
        }
    }
    if let Some(w) = d.user_auth_flows {
        if texts(w@).contains(k) && !texts(a.user_auth_flows@).contains(k) {
            lemma_section_covers(KeyWrite::ImportUserAuthFlow, w, texts(a.user_auth_flows@), k);
            lemma_in_startup(d, a, WriteView::ImportUserAuthFlow(k));
        }
    }
}

proof fn lemma_dek_imports_cover(key_id: Seq<char>, aliases: Seq<Seq<char>>, known: Seq<Seq<char>>, p: int)
    requires
        0 <= p < aliases.len(),
        !known.contains(aliases[p]),
    ensures
        dek_imports(key_id, aliases, known).contains(WriteView::ImportDek(key_id, aliases[p])),
    decreases aliases.len(),
{
    let d = aliases.drop_last();
    let prev = dek_imports(key_id, d, known);
    let cur = dek_imports(key_id, aliases, known);
    let x = WriteView::ImportDek(key_id, aliases[p]);
    if p < aliases.len() - 1 {
        assert(d[p] == aliases[p]);
        lemma_dek_imports_cover(key_id, d, known, p);
        let t = choose|t: int| 0 <= t < prev.len() && prev[t] == x;
        assert(cur[t] == x);
    } else if (known + d).contains(aliases.last()) {
        let t = choose|t: int| 0 <= t < (known + d).len() && (known + d)[t] == aliases.last();
        if t < known.len() {
            assert(known[t] == aliases[p]);
        } else {
            let q = t - known.len();
            assert(d[q] == aliases[q]);
            assert(aliases[q] == aliases[p]);
            lemma_dek_imports_cover(key_id, d, known, q);
            let u = choose|u: int| 0 <= u < prev.len() && prev[u] == x;
            assert(cur[u] == x);
        }
    } else {
        assert(cur[prev.len() as int] == x);
    }
}

proof fn lemma_envelope_writes_include(
    keys: Seq<YamlEnvelopeKey>,
    existing: Seq<Seq<char>>,
    found: Seq<Seq<char>>,
    i: int,
    x: WriteView,
)
    requires
        0 <= i < keys.len(),
        ((if existing.contains(keys[i].id@) {
            seq![]
        } else {
            seq![WriteView::CreateEnvelopeKey(keys[i].id@)]
        }) + dek_imports(
            keys[i].id@,
            texts(keys[i].dek_aliases@),
            found + all_aliases(keys.take(i)),
        )).contains(x),
    ensures
        envelope_writes(keys, existing, found).contains(x),
    decreases keys.len(),
{
    let d = keys.drop_last();
    let front = envelope_writes(d, existing, found);
    let all = envelope_writes(keys, existing, found);
    if i < keys.len() - 1 {
        assert(d[i] == keys[i]);
        assert(d.take(i) =~= keys.take(i));
        lemma_envelope_writes_include(d, existing, found, i, x);
        let t = choose|t: int| 0 <= t < front.len() && front[t] == x;
        assert(all[t] == x);
    } else {
        assert(keys.last() == keys[i]);
        assert(d =~= keys.take(i));
        let tail = all.subrange(front.len() as int, all.len() as int);
        let part = (if existing.contains(keys[i].id@) {
            seq![]
        } else {
            seq![WriteView::CreateEnvelopeKey(keys[i].id@)]
        }) + dek_imports(keys[i].id@, texts(keys[i].dek_aliases@), found + all_aliases(keys.take(i)));
        assert(all =~= front + part);
        let t = choose|t: int| 0 <= t < part.len() && part[t] == x;
        assert(all[front.len() + t] == x);
    }
}

proof fn lemma_alias_in_earlier_key(keys: Seq<YamlEnvelopeKey>, i: int, x: Seq<char>)
    requires
        0 <= i <= keys.len(),
        all_aliases(keys.take(i)).contains(x),
    ensures
        exists|j: int| 0 <= j < i && #[trigger] texts(keys[j].dek_aliases@).contains(x),
    decreases i,
{
    let t = keys.take(i);
    assert(t.drop_last() =~= keys.take(i - 1));
    assert(t.last() == keys[i - 1]);
    let front = all_aliases(keys.take(i - 1));
    let own = texts(keys[i - 1].dek_aliases@);
    assert(all_aliases(t) =~= front + own);
    let p = choose|p: int| 0 <= p < all_aliases(t).len() && all_aliases(t)[p] == x;
    if p < front.len() {
        assert(front[p] == x);
        lemma_alias_in_earlier_key(keys, i - 1, x);
        let j = choose|j: int| 0 <= j < i - 1 && #[trigger] texts(keys[j].dek_aliases@).contains(x);
        assert(texts(keys[j].dek_aliases@).contains(x));
    } else {
        assert(own[p - front.len()] == x);
        assert(texts(keys[i - 1].dek_aliases@).contains(x));
    }
}

proof fn lemma_alias_imported(keys: Seq<YamlEnvelopeKey>, existing: Seq<Seq<char>>, found: Seq<Seq<char>>, i: int, x: Seq<char>)
    requires
        0 <= i < keys.len(),
        texts(keys[i].dek_aliases@).contains(x),
        !found.contains(x),
    ensures
        exists|j: int|
            0 <= j <= i && envelope_writes(keys, existing, found).contains(
                WriteView::ImportDek((#[trigger] keys[j]).id@, x),
            ),
    decreases i,
{
    let known = found + all_aliases(keys.take(i));
    if all_aliases(keys.take(i)).contains(x) {
        lemma_alias_in_earlier_key(keys, i, x);
        let j = choose|j: int| 0 <= j < i && #[trigger] texts(keys[j].dek_aliases@).contains(x);
        lemma_alias_imported(keys, existing, found, j, x);
        let j2 = choose|j2: int|
            0 <= j2 <= j && envelope_writes(keys, existing, found).contains(
                WriteView::ImportDek((#[trigger] keys[j2]).id@, x),
            );
        assert(envelope_writes(keys, existing, found).contains(WriteView::ImportDek(keys[j2].id@, x)));
    } else {
        assert(!known.contains(x)) by {
            if known.contains(x) {
                let t = choose|t: int| 0 <= t < known.len() && known[t] == x;
                if t < found.len() {
                    assert(found[t] == x);
                } else {
                    assert(all_aliases(keys.take(i))[t - found.len()] == x);
                }
            }
        }
        let al = texts(keys[i].dek_aliases@);
        let p = choose|p: int| 0 <= p < al.len() && al[p] == x;
        lemma_dek_imports_cover(keys[i].id@, al, known, p);
        let part = (if existing.contains(keys[i].id@) {
            seq![]
        } else {
            seq![WriteView::CreateEnvelopeKey(keys[i].id@)]
        }) + dek_imports(keys[i].id@, al, known);
        lemma_concat_contains(
            if existing.contains(keys[i].id@) {
                seq![]
            } else {
                seq![WriteView::CreateEnvelopeKey(keys[i].id@)]
            },
            dek_imports(keys[i].id@, al, known),
            WriteView::ImportDek(keys[i].id@, x),
        );
        lemma_envelope_writes_include(keys, existing, found, i, WriteView::ImportDek(keys[i].id@, x));
        assert(envelope_writes(keys, existing, found).contains(WriteView::ImportDek(keys[i].id@, x)));
    }
}

/// Every envelope key of `soma.yaml` that the API lacks is created, and every
/// DEK alias of the file that the API does not resolve is imported (into the
/// first envelope key that lists it) by the start-up plan.
pub proof fn law_startup_plan_adds_envelope_keys_and_deks(d: StartupDefinition, a: ApiSnapshot, i: int, x: Seq<char>)
    requires
        d.envelope_keys matches Some(ks) && 0 <= i < ks@.len(),
    ensures
        !texts(a.envelope_keys@).contains(d.envelope_keys->0@[i].id@) ==> startup_writes(d, a).contains(
            WriteView::CreateEnvelopeKey(d.envelope_keys->0@[i].id@),
        ),
        texts(d.envelope_keys->0@[i].dek_aliases@).contains(x) && !texts(a.found_dek_aliases@).contains(x)
            ==> exists|j: int|
            0 <= j <= i && startup_writes(d, a).contains(
                WriteView::ImportDek((#[trigger] d.envelope_keys->0@[j]).id@, x),
            ),
{
    let ks = d.envelope_keys->0@;
    let existing = texts(a.envelope_keys@);
    let found = texts(a.found_dek_aliases@);
    if !existing.contains(ks[i].id@) {
        let c = WriteView::CreateEnvelopeKey(ks[i].id@);
        let part_a = seq![c];
        let part_b = dek_imports(ks[i].id@, texts(ks[i].dek_aliases@), found + all_aliases(ks.take(i)));
        assert(part_a[0] == c);
        lemma_concat_contains(part_a, part_b, c);
        lemma_envelope_writes_include(ks, existing, found, i, c);
        lemma_in_startup(d, a, c);
    }
    if texts(ks[i].dek_aliases@).contains(x) && !found.contains(x) {
        lemma_alias_imported(ks, existing, found, i, x);
        let j = choose|j: int|
            0 <= j <= i && envelope_writes(ks, existing, found).contains(
                WriteView::ImportDek((#[trigger] ks[j]).id@, x),
            );
        lemma_in_startup(d, a, WriteView::ImportDek(ks[j].id@, x));
        assert(startup_writes(d, a).contains(WriteView::ImportDek(ks[j].id@, x)));
    }
}

proof fn lemma_provider_in_startup(d: StartupDefinition, a: ApiSnapshot, i: int, x: WriteView)
    requires
        d.providers matches Some(ps) && 0 <= i < ps@.len(),
        provider_writes_for(d.providers->0@[i], a.providers@, a.enabled_functions@).contains(x),
    ensures
        startup_writes(d, a).contains(x),
{
    let ps = d.providers->0@;
    lemma_providers_writes_include(ps, a.providers@, a.enabled_functions@, i, x);
    lemma_concat_contains(
        providers_writes(ps, a.providers@, a.enabled_functions@),
        key_writes(KeyWrite::DeleteProvider, deletions(a.providers@, provider_ids(ps), a.providers@.len() as int)),
        x,
    );
    lemma_in_startup(d, a, x);
}

/// Every provider of `soma.yaml` that the API does not list is created (and
/// then its functions synced); one that the API lists with another controller,
/// credential controller or display name is deleted and created anew; and every
/// active provider that the API lists (by its latest entry) and the file does
/// not name is deleted, by the start-up plan.
pub proof fn law_startup_plan_creates_replaces_and_deletes_providers(d: StartupDefinition, a: ApiSnapshot, i: int, j: int)
    requires
        d.providers is Some,
    ensures
        0 <= i < d.providers->0@.len() && listed_provider(a.providers@, d.providers->0@[i].spec.id@) is None
            ==> startup_writes(d, a).contains(WriteView::CreateProvider(d.providers->0@[i].spec.id@))
            && startup_writes(d, a).contains(WriteView::SyncProviderFunctions(d.providers->0@[i].spec.id@)),
        0 <= i < d.providers->0@.len() && (listed_provider(a.providers@, d.providers->0@[i].spec.id@) matches Some(e)
            && (e.provider_controller_type_id@ != d.providers->0@[i].spec.provider_controller_type_id@
            || e.credential_controller_type_id@ != d.providers->0@[i].spec.credential_controller_type_id@
            || e.display_name@ != d.providers->0@[i].spec.display_name@)) ==> startup_writes(d, a).contains(
            WriteView::DeleteProvider(d.providers->0@[i].spec.id@),
        ) && startup_writes(d, a).contains(WriteView::CreateProvider(d.providers->0@[i].spec.id@))
            && startup_writes(d, a).contains(WriteView::SyncProviderFunctions(d.providers->0@[i].spec.id@)),
        0 <= j < a.providers@.len() && (forall|k: int|
            j < k < a.providers@.len() ==> (#[trigger] a.providers@[k]).id@ != a.providers@[j].id@)
            && a.providers@[j].status@ == "active"@ && !provider_ids(d.providers->0@).contains(
            a.providers@[j].id@,
        ) ==> startup_writes(d, a).contains(WriteView::DeleteProvider(a.providers@[j].id@)),
{
    let ps = d.providers->0@;
    if 0 <= i < ps.len() {
        let p = ps[i];
        let id = p.spec.id@;
        let ws = provider_writes_for(p, a.providers@, a.enabled_functions@);
        match provider_action_for(p.spec, a.providers@) {
            ProviderAction::Create => {
                assert(ws[0] == WriteView::CreateProvider(id));
                assert(ws[1] == WriteView::SyncProviderFunctions(id));
                lemma_provider_in_startup(d, a, i, WriteView::CreateProvider(id));
                lemma_provider_in_startup(d, a, i, WriteView::SyncProviderFunctions(id));
            },
            ProviderAction::Recreate => {
                assert(ws[0] == WriteView::DeleteProvider(id));
                assert(ws[1] == WriteView::CreateProvider(id));
                assert(ws[2] == WriteView::SyncProviderFunctions(id));
                lemma_provider_in_startup(d, a, i, WriteView::DeleteProvider(id));
                lemma_provider_in_startup(d, a, i, WriteView::CreateProvider(id));
                lemma_provider_in_startup(d, a, i, WriteView::SyncProviderFunctions(id));
            },
            ProviderAction::Keep => {},
        }
    }
    if 0 <= j < a.providers@.len() && (forall|k: int|
        j < k < a.providers@.len() ==> (#[trigger] a.providers@[k]).id@ != a.providers@[j].id@)
        && a.providers@[j].status@ == "active"@ && !provider_ids(ps).contains(a.providers@[j].id@) {
        let gone = deletions(a.providers@, provider_ids(ps), a.providers@.len() as int);
        law_unnamed_active_providers_are_deleted(a.providers@, provider_ids(ps), j);
        lemma_key_writes_contains(KeyWrite::DeleteProvider, gone, a.providers@[j].id@);
        lemma_concat_contains(
            providers_writes(ps, a.providers@, a.enabled_functions@),
            key_writes(KeyWrite::DeleteProvider, gone),
            WriteView::DeleteProvider(a.providers@[j].id@),
        );
        lemma_in_startup(d, a, WriteView::DeleteProvider(a.providers@[j].id@));
    }
}

proof fn lemma_servers_writes_include(ss: Seq<YamlMcpServer>, existing: Seq<ExistingMcpServer>, i: int, x: WriteView)
    requires
        0 <= i < ss.len(),
        server_writes_for(ss[i], existing).contains(x),
    ensures
        servers_writes(ss, existing).contains(x),
    decreases ss.len(),
{
    let d = ss.drop_last();
    let all = servers_writes(ss, existing);
    let front = servers_writes(d, existing);
    if i < ss.len() - 1 {
        assert(d[i] == ss[i]);
        lemma_servers_writes_include(d, existing, i, x);
        let k = choose|k: int| 0 <= k < front.len() && front[k] == x;
        assert(all[k] == x);
    } else {
        assert(ss.last() == ss[i]);
        let last = server_writes_for(ss.last(), existing);
        let k = choose|k: int| 0 <= k < last.len() && last[k] == x;
        assert(all[front.len() + k] == x);
    }
}

proof fn lemma_server_in_startup(d: StartupDefinition, a: ApiSnapshot, i: int, x: WriteView)
    requires
        d.mcp_servers matches Some(ss) && 0 <= i < ss@.len(),
        server_writes_for(d.mcp_servers->0@[i], a.mcp_servers@).contains(x),
    ensures
        startup_writes(d, a).contains(x),
{
    let ss = d.mcp_servers->0@;
    lemma_servers_writes_include(ss, a.mcp_servers@, i, x);
    lemma_concat_contains(
        servers_writes(ss, a.mcp_servers@),
        key_writes(KeyWrite::DeleteMcpServer, server_deletions(a.mcp_servers@, server_ids(ss), a.mcp_servers@.len() as int)),
        x,
    );
    lemma_in_startup(d, a, x);
}

/// Every MCP server of `soma.yaml` that the API does not list is created, one
/// listed under another name is renamed, every change that its functions need
/// (against the listed ones, or none for a new server) is made, and every
/// server that the API lists and the file does not name is deleted, by the
/// start-up plan.
pub proof fn law_startup_plan_creates_renames_and_deletes_servers(
    d: StartupDefinition,
    a: ApiSnapshot,
    i: int,
    j: int,
    op: McpFunctionOpView,
)
    requires
        d.mcp_servers is Some,
    ensures
        0 <= i < d.mcp_servers->0@.len() && listed_server(a.mcp_servers@, d.mcp_servers->0@[i].id@) is None
            ==> startup_writes(d, a).contains(WriteView::CreateMcpServer(d.mcp_servers->0@[i].id@)),
        0 <= i < d.mcp_servers->0@.len() && (listed_server(a.mcp_servers@, d.mcp_servers->0@[i].id@) matches Some(e)
            && e.name@ != d.mcp_servers->0@[i].name@) ==> startup_writes(d, a).contains(
            WriteView::RenameMcpServer(d.mcp_servers->0@[i].id@),
        ),
        0 <= i < d.mcp_servers->0@.len() && function_ops(
            wanted_functions(d.mcp_servers->0@[i]),
            match listed_server(a.mcp_servers@, d.mcp_servers->0@[i].id@) {
                Some(e) => e.functions@,
                None => seq![],
            },
        ).contains(op) ==> startup_writes(d, a).contains(
            WriteView::ChangeMcpServerFunction(d.mcp_servers->0@[i].id@, op),
        ),
        0 <= j < a.mcp_servers@.len() && !server_ids(d.mcp_servers->0@).contains(a.mcp_servers@[j].id@)
            ==> startup_writes(d, a).contains(WriteView::DeleteMcpServer(a.mcp_servers@[j].id@)),
{
    let ss = d.mcp_servers->0@;
    if 0 <= i < ss.len() {
        let s = ss[i];
        let id = s.id@;
        let ws = server_writes_for(s, a.mcp_servers@);
        let fns = match listed_server(a.mcp_servers@, id) {
            Some(e) => e.functions@,
            None => seq![],
        };
        let ops = function_ops(wanted_functions(s), fns);
        let opw = function_op_writes(id, ops);
        match listed_server(a.mcp_servers@, id) {
            None => {
                assert(ws[0] == WriteView::CreateMcpServer(id));
                lemma_server_in_startup(d, a, i, WriteView::CreateMcpServer(id));
                if ops.contains(op) {
                    let t = choose|t: int| 0 <= t < ops.len() && ops[t] == op;
                    assert(ws[1 + t] == opw[t]);
                    lemma_server_in_startup(d, a, i, WriteView::ChangeMcpServerFunction(id, op));
                }
            },
            Some(e) => {
                let head: Seq<WriteView> = if e.name@ != s.name@ {
                    seq![WriteView::RenameMcpServer(id)]
                } else {
                    seq![]
                };
                assert(ws == head + opw);
                if e.name@ != s.name@ {
                    assert(ws[0] == WriteView::RenameMcpServer(id));
                    lemma_server_in_startup(d, a, i, WriteView::RenameMcpServer(id));
                }
                if ops.contains(op) {
                    let t = choose|t: int| 0 <= t < ops.len() && ops[t] == op;
                    assert(ws[head.len() + t] == opw[t]);
                    lemma_server_in_startup(d, a, i, WriteView::ChangeMcpServerFunction(id, op));
                }
            },
        }
    }
    if 0 <= j < a.mcp_servers@.len() && !server_ids(ss).contains(a.mcp_servers@[j].id@) {
        let gone = server_deletions(a.mcp_servers@, server_ids(ss), a.mcp_servers@.len() as int);
        law_unnamed_servers_are_deleted(a.mcp_servers@, server_ids(ss), j);
        lemma_key_writes_contains(KeyWrite::DeleteMcpServer, gone, a.mcp_servers@[j].id@);
        lemma_concat_contains(
            servers_writes(ss, a.mcp_servers@),
            key_writes(KeyWrite::DeleteMcpServer, gone),
            WriteView::DeleteMcpServer(a.mcp_servers@[j].id@),
        );
        lemma_in_startup(d, a, WriteView::DeleteMcpServer(a.mcp_servers@[j].id@));
    }
}

} // verus!
