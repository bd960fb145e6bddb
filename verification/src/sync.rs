//! Bringing the API in line with `soma.yaml` on start: which keys, providers,
//! functions and MCP servers must be created, recreated, enabled, disabled or
//! deleted, given what the YAML wants and what the API already has.
use vstd::prelude::*;
use crate::text::{str_eq, string_of, chars_of};

verus! {

/// The texts of a list of strings.
pub open spec fn texts(v: Seq<String>) -> Seq<Seq<char>> {
    v.map_values(|s: String| s@)
}

/// The wanted keys among the first `k` that do not exist yet, each once, in the
/// order they are first wanted.
pub open spec fn missing_upto(wanted: Seq<Seq<char>>, existing: Seq<Seq<char>>, k: int) -> Seq<Seq<char>>
    decreases k,
{
    if k <= 0 {
        seq![]
    } else {
        missing_upto(wanted, existing, k - 1) + if !existing.contains(wanted[k - 1])
            && !wanted.take(k - 1).contains(wanted[k - 1]) {
            seq![wanted[k - 1]]
        } else {
            seq![]
        }
    }
}

/// The wanted keys that do not exist yet, each once, in the order they are first
/// wanted.
pub open spec fn missing(wanted: Seq<Seq<char>>, existing: Seq<Seq<char>>) -> Seq<Seq<char>> {
    missing_upto(wanted, existing, wanted.len() as int)
}

/// Whether `s` is one of the first `upto` strings of `v`.
fn contains_text_upto(v: &Vec<String>, s: &str, upto: usize) -> (r: bool)
    requires
        upto <= v@.len(),
    ensures
        r == texts(v@).take(upto as int).contains(s@),
{
    let ghost tv = texts(v@).take(upto as int);
    let mut i: usize = 0;
    while i < upto
        invariant
            upto <= v@.len(),
            i <= upto,
            tv == texts(v@).take(upto as int),
            forall|j: int| 0 <= j < i ==> tv[j] != s@,
        decreases upto - i,
    {
        if str_eq(v[i].as_str(), s) {
            assert(tv[i as int] == s@);
            return true;
        }
        i = i + 1;
    }
    false
}

/// Whether `s` is one of the strings of `v`.
pub fn contains_text(v: &Vec<String>, s: &str) -> (r: bool)
    ensures
        r == texts(v@).contains(s@),
{
    let r = contains_text_upto(v, s, v.len());
    assert(texts(v@).take(v@.len() as int) =~= texts(v@));
    r
}

/// The keys of `wanted` that `existing` lacks, each once, in the order of
/// `wanted`: what must be created (envelope keys, secrets, variables, API keys,
/// STS and sign-in configurations, functions to enable), or, with the roles
/// swapped, what must go (functions to disable).
pub fn missing_keys(wanted: &Vec<String>, existing: &Vec<String>) -> (r: Vec<String>)
    ensures
        texts(r@) == missing(texts(wanted@), texts(existing@)),
{
    let ghost w = texts(wanted@);
    let ghost e = texts(existing@);
    let mut r: Vec<String> = Vec::new();
    let mut i: usize = 0;
    while i < wanted.len()
        invariant
            i <= wanted@.len(),
            w == texts(wanted@),
            e == texts(existing@),
            texts(r@) == missing_upto(w, e, i as int),
        decreases wanted@.len() - i,
    {
        let ghost before = r@;
        let present = contains_text(existing, wanted[i].as_str());
        let seen = contains_text_upto(wanted, wanted[i].as_str(), i);
        if !present && !seen {
            r.push(wanted[i].clone());
            assert(texts(r@) =~= texts(before) + seq![w[i as int]]);
        } else {
            assert(texts(r@) =~= texts(before) + seq![]);
        }
        i = i + 1;
    }
    r
}

proof fn lemma_missing_upto(wanted: Seq<Seq<char>>, existing: Seq<Seq<char>>, k: int)
    requires
        0 <= k <= wanted.len(),
    ensures
        missing_upto(wanted, existing, k).no_duplicates(),
        forall|x: Seq<char>|
            #[trigger] missing_upto(wanted, existing, k).contains(x) <==> wanted.take(k).contains(x)
                && !existing.contains(x),
    decreases k,
{
    if k > 0 {
        lemma_missing_upto(wanted, existing, k - 1);
        let prev = missing_upto(wanted, existing, k - 1);
        let cur = missing_upto(wanted, existing, k);
        let x0 = wanted[k - 1];
        let pw = wanted.take(k - 1);
        let cw = wanted.take(k);
        assert(cw =~= pw.push(x0));
        assert forall|x: Seq<char>| #[trigger] cur.contains(x) <==> cw.contains(x) && !existing.contains(x) by {
            if cur.contains(x) {
                let i = choose|i: int| 0 <= i < cur.len() && cur[i] == x;
                if i < prev.len() {
                    assert(prev[i] == x);
                    assert(prev.contains(x));
                    let j = choose|j: int| 0 <= j < pw.len() && pw[j] == x;
                    assert(cw[j] == x);
                } else {
                    assert(x == x0);
                    assert(cw[k - 1] == x);
                }
            }
            if cw.contains(x) && !existing.contains(x) {
                let j = choose|j: int| 0 <= j < cw.len() && cw[j] == x;
                if j < k - 1 {
                    assert(pw[j] == x);
                    assert(pw.contains(x));
                    assert(prev.contains(x));
                    let i = choose|i: int| 0 <= i < prev.len() && prev[i] == x;
                    assert(cur[i] == x);
                } else if pw.contains(x) {
                    assert(prev.contains(x));
                    let i = choose|i: int| 0 <= i < prev.len() && prev[i] == x;
                    assert(cur[i] == x);
                } else {
                    assert(x == x0);
                    assert(cur[cur.len() - 1] == x);
                }
            }
        }
        assert(cur.no_duplicates()) by {
            if !existing.contains(x0) && !pw.contains(x0) {
                assert(!prev.contains(x0));
                assert forall|i: int, j: int|
                    0 <= i < cur.len() && 0 <= j < cur.len() && i != j implies cur[i] != cur[j] by {
                    if i < prev.len() && j < prev.len() {
                        assert(cur[i] == prev[i]);
                        assert(cur[j] == prev[j]);
                    } else if i < prev.len() {
                        assert(cur[i] == prev[i]);
                        assert(cur[j] == x0);
                    } else {
                        assert(cur[j] == prev[j]);
                        assert(cur[i] == x0);
                    }
                }
            } else {
                assert(cur =~= prev);
            }
        }
    }
}

/// Creating the missing keys brings every wanted key into existence; nothing
/// that exists already is created again, and nothing twice.
pub proof fn law_missing_keys_complete_the_existing(wanted: Seq<Seq<char>>, existing: Seq<Seq<char>>)
    ensures
        missing(wanted, existing).no_duplicates(),
        forall|x: Seq<char>|
            #[trigger] missing(wanted, existing).contains(x) <==> wanted.contains(x) && !existing.contains(x),
{
    lemma_missing_upto(wanted, existing, wanted.len() as int);
    assert(wanted.take(wanted.len() as int) =~= wanted);
}

/// A provider instance as `soma.yaml` describes it.
pub struct ProviderSpec {
    pub id: String,
    pub provider_controller_type_id: String,
    pub credential_controller_type_id: String,
    pub display_name: String,
}

/// A provider instance as the API lists it.
pub struct ExistingProvider {
    pub id: String,
    pub provider_controller_type_id: String,
    pub credential_controller_type_id: String,
    pub display_name: String,
    pub status: String,
}

/// What to do with a provider instance of `soma.yaml`.
#[derive(Debug, Clone, Copy, PartialEq, Eq, Structural)]
pub enum ProviderAction {
    /// It does not exist yet: create it.
    Create,
    /// It exists with another controller, credential controller or display name:
    /// delete it and create it anew.
    Recreate,
    /// It exists as described: keep it.
    Keep,
}

/// The listed provider with the given id; when the list names an id twice, the
/// later entry counts (as when the list is collected into a map by id).
pub open spec fn listed_provider(existing: Seq<ExistingProvider>, id: Seq<char>) -> Option<
    ExistingProvider,
>
    decreases existing.len(),
{
    if existing.len() == 0 {
        None
    } else if existing.last().id@ == id {
        Some(existing.last())
    } else {
        listed_provider(existing.drop_last(), id)
    }
}

/// The action for a provider of `soma.yaml`, given the listed providers.
pub open spec fn provider_action_for(wanted: ProviderSpec, existing: Seq<ExistingProvider>) -> ProviderAction {
    match listed_provider(existing, wanted.id@) {
        None => ProviderAction::Create,
        Some(e) => if e.provider_controller_type_id@ != wanted.provider_controller_type_id@
            || e.credential_controller_type_id@ != wanted.credential_controller_type_id@
            || e.display_name@ != wanted.display_name@ {
            ProviderAction::Recreate
        } else {
            ProviderAction::Keep
        },
    }
}

/// Decides whether a provider of `soma.yaml` is created, recreated or kept.
pub fn provider_action(wanted: &ProviderSpec, existing: &Vec<ExistingProvider>) -> (r: ProviderAction)
    ensures
        r == provider_action_for(*wanted, existing@),
{
    let mut n: usize = existing.len();
    assert(existing@.take(n as int) =~= existing@);
    while n > 0
        invariant
            n <= existing@.len(),
            listed_provider(existing@, wanted.id@) == listed_provider(existing@.take(n as int), wanted.id@),
        decreases n,
    {
        let e = &existing[n - 1];
        assert(existing@.take(n as int).last() == existing@[n - 1]);
        assert(existing@.take(n as int).drop_last() =~= existing@.take(n - 1));
        if str_eq(e.id.as_str(), wanted.id.as_str()) {
            if !str_eq(e.provider_controller_type_id.as_str(), wanted.provider_controller_type_id.as_str())
                || !str_eq(
                e.credential_controller_type_id.as_str(),
                wanted.credential_controller_type_id.as_str(),
            ) || !str_eq(e.display_name.as_str(), wanted.display_name.as_str()) {
                return ProviderAction::Recreate;
            }
            return ProviderAction::Keep;
        }
        n = n - 1;
    }
    ProviderAction::Create
}

/// Whether the entry at `i` is the last one of the list with its id.
pub open spec fn last_with_its_id(existing: Seq<ExistingProvider>, i: int) -> bool {
    forall|j: int| i < j < existing.len() ==> existing[j].id@ != (#[trigger] existing[i]).id@
}

/// Whether the entry at `i` stands for a provider to delete: the last entry of its
/// id, absent from `soma.yaml`, and active.
pub open spec fn deletes_entry(existing: Seq<ExistingProvider>, yaml_ids: Seq<Seq<char>>, i: int) -> bool {
    &&& last_with_its_id(existing, i)
    &&& !yaml_ids.contains(existing[i].id@)
    &&& existing[i].status@ == "active"@
}

/// The ids of the providers to delete among the first `k` entries, in list order.
pub open spec fn deletions(existing: Seq<ExistingProvider>, yaml_ids: Seq<Seq<char>>, k: int) -> Seq<
    Seq<char>,
>
    decreases k,
{
    if k <= 0 {
        seq![]
    } else {
        deletions(existing, yaml_ids, k - 1) + if deletes_entry(existing, yaml_ids, k - 1) {
            seq![existing[k - 1].id@]
        } else {
            seq![]
        }
    }
}

fn is_last_with_its_id(existing: &Vec<ExistingProvider>, i: usize) -> (r: bool)
    requires
        i < existing@.len(),
    ensures
        r == last_with_its_id(existing@, i as int),
{
    let n = existing.len();
    let mut j: usize = i;
    while j < n - 1
        invariant
            n == existing@.len(),
            i <= j < n,
            forall|m: int| i < m <= j ==> existing@[m].id@ != existing@[i as int].id@,
        decreases n - j,
    {
        if str_eq(existing[j + 1].id.as_str(), existing[i].id.as_str()) {
            return false;
        }
        j = j + 1;
    }
    true
}

/// The listed providers that `soma.yaml` no longer names and that are active:
/// they are deleted (each id once).
pub fn providers_to_delete(yaml_ids: &Vec<String>, existing: &Vec<ExistingProvider>) -> (r: Vec<String>)
    ensures
        texts(r@) == deletions(existing@, texts(yaml_ids@), existing@.len() as int),
{
    let ghost ys = texts(yaml_ids@);
    let active = string_of(chars_of("active").as_slice());
    let mut r: Vec<String> = Vec::new();
    let mut i: usize = 0;
    while i < existing.len()
        invariant
            i <= existing@.len(),
            ys == texts(yaml_ids@),
            active@ == "active"@,
            texts(r@) == deletions(existing@, ys, i as int),
        decreases existing@.len() - i,
    {
        let e = &existing[i];
        let ghost before = r@;
        if is_last_with_its_id(existing, i) && !contains_text(yaml_ids, e.id.as_str()) && str_eq(
            e.status.as_str(),
            active.as_str(),
        ) {
            r.push(e.id.clone());
            assert(texts(r@) =~= texts(before) + seq![existing@[i as int].id@]);
        } else {
            assert(texts(r@) =~= texts(before) + seq![]);
        }
        i = i + 1;
    }
    r
}

/// A function that an MCP server exposes, as `soma.yaml` or the API describes it.
#[derive(Debug, Clone)]
pub struct McpFunctionSpec {
    pub function_controller_type_id: String,
    pub provider_controller_type_id: String,
    pub provider_instance_id: String,
    pub function_name: String,
    pub function_description: Option<String>,
}

/// What identifies an MCP server function: its function controller, provider
/// controller and provider instance.
pub open spec fn function_key(f: McpFunctionSpec) -> (Seq<char>, Seq<char>, Seq<char>) {
    (f.function_controller_type_id@, f.provider_controller_type_id@, f.provider_instance_id@)
}

pub open spec fn function_keys(fs: Seq<McpFunctionSpec>) -> Seq<(Seq<char>, Seq<char>, Seq<char>)> {
    fs.map_values(|f: McpFunctionSpec| function_key(f))
}

pub open spec fn opt_text(o: Option<String>) -> Option<Seq<char>> {
    match o {
        Some(s) => Some(s@),
        None => None,
    }
}

/// A change to the functions of an MCP server.
#[derive(Debug, PartialEq, Eq)]
pub enum McpFunctionOp {
    /// Remove the function with this key.
    Remove {
        function_controller_type_id: String,
        provider_controller_type_id: String,
        provider_instance_id: String,
    },
    /// Add the wanted function at this position of the YAML list.
    Add { index: usize },
    /// Rename or redescribe the function at this position of the YAML list.
    Update { index: usize },
}

/// What a function change stands for, over plain values.
pub enum McpFunctionOpView {
    Remove((Seq<char>, Seq<char>, Seq<char>)),
    Add(nat),
    Update(nat),
}

pub open spec fn op_view(op: McpFunctionOp) -> McpFunctionOpView {
    match op {
        McpFunctionOp::Remove {
            function_controller_type_id: a,
            provider_controller_type_id: b,
            provider_instance_id: c,
        } => McpFunctionOpView::Remove((a@, b@, c@)),
        McpFunctionOp::Add { index } => McpFunctionOpView::Add(index as nat),
        McpFunctionOp::Update { index } => McpFunctionOpView::Update(index as nat),
    }
}

/// Whether the entry at `i` is the first of the list with its key.
pub open spec fn first_with_its_key(keys: Seq<(Seq<char>, Seq<char>, Seq<char>)>, i: int) -> bool {
    forall|j: int| 0 <= j < i ==> keys[j] != #[trigger] keys[i]
}

/// The removals among the first `k` existing functions: each key once, for the
/// keys that the YAML does not list.
pub open spec fn function_removals(
    existing: Seq<(Seq<char>, Seq<char>, Seq<char>)>,
    wanted: Seq<(Seq<char>, Seq<char>, Seq<char>)>,
    k: int,
) -> Seq<McpFunctionOpView>
    decreases k,
{
    if k <= 0 {
        seq![]
    } else {
        function_removals(existing, wanted, k - 1) + if first_with_its_key(existing, k - 1)
            && !wanted.contains(existing[k - 1]) {
            seq![McpFunctionOpView::Remove(existing[k - 1])]
        } else {
            seq![]
        }
    }
}

/// The first existing function with the given key.
pub open spec fn first_function(existing: Seq<McpFunctionSpec>, key: (Seq<char>, Seq<char>, Seq<char>)) -> Option<
    McpFunctionSpec,
>
    decreases existing.len(),
{
    if existing.len() == 0 {
        None
    } else if function_key(existing[0]) == key {
        Some(existing[0])
    } else {
        first_function(existing.drop_first(), key)
    }
}

/// The change for the wanted function at `i`: added when no existing function
/// has its key, updated when the first one with its key has another name or
/// description, nothing otherwise.
pub open spec fn wanted_function_op(wanted: Seq<McpFunctionSpec>, existing: Seq<McpFunctionSpec>, i: int) -> Seq<
    McpFunctionOpView,
> {
    match first_function(existing, function_key(wanted[i])) {
        None => seq![McpFunctionOpView::Add(i as nat)],
        Some(e) => if e.function_name@ != wanted[i].function_name@ || opt_text(e.function_description)
            != opt_text(wanted[i].function_description) {
            seq![McpFunctionOpView::Update(i as nat)]
        } else {
            seq![]
        },
    }
}

/// The additions and updates for the first `k` wanted functions, in YAML order.
pub open spec fn function_upserts(wanted: Seq<McpFunctionSpec>, existing: Seq<McpFunctionSpec>, k: int) -> Seq<
    McpFunctionOpView,
>
    decreases k,
{
    if k <= 0 {
        seq![]
    } else {
        function_upserts(wanted, existing, k - 1) + wanted_function_op(wanted, existing, k - 1)
    }
}

/// All changes to an MCP server's functions: first the removals, then the
/// additions and updates. A server whose YAML lists no functions keeps none.
pub open spec fn function_ops(wanted: Option<Seq<McpFunctionSpec>>, existing: Seq<McpFunctionSpec>) -> Seq<
    McpFunctionOpView,
> {
    let w = match wanted {
        Some(w) => w,
        None => seq![],
    };
    function_removals(function_keys(existing), function_keys(w), existing.len() as int)
        + function_upserts(w, existing, w.len() as int)
}

fn same_key(a: &McpFunctionSpec, b: &McpFunctionSpec) -> (r: bool)
    ensures
        r == (function_key(*a) == function_key(*b)),
{
    str_eq(a.function_controller_type_id.as_str(), b.function_controller_type_id.as_str()) && str_eq(
        a.provider_controller_type_id.as_str(),
        b.provider_controller_type_id.as_str(),
    ) && str_eq(a.provider_instance_id.as_str(), b.provider_instance_id.as_str())
}

fn has_key(fs: &Vec<McpFunctionSpec>, f: &McpFunctionSpec, upto: usize) -> (r: bool)
    requires
        upto <= fs@.len(),
    ensures
        r == function_keys(fs@).take(upto as int).contains(function_key(*f)),
{
    let ghost ks = function_keys(fs@).take(upto as int);
    let mut j: usize = 0;
    while j < upto
        invariant
            upto <= fs@.len(),
            ks == function_keys(fs@).take(upto as int),
            j <= upto,
            forall|m: int| 0 <= m < j ==> ks[m] != function_key(*f),
        decreases upto - j,
    {
        if same_key(&fs[j], f) {
            assert(ks[j as int] == function_key(*f));
            return true;
        }
        j = j + 1;
    }
    false
}

fn opt_eq(a: &Option<String>, b: &Option<String>) -> (r: bool)
    ensures
        r == (opt_text(*a) == opt_text(*b)),
{
    match (a, b) {
        (Some(x), Some(y)) => str_eq(x.as_str(), y.as_str()),
        (None, None) => true,
        _ => false,
    }
}

fn find_first_function(existing: &Vec<McpFunctionSpec>, f: &McpFunctionSpec) -> (r: Option<usize>)
    ensures
        match first_function(existing@, function_key(*f)) {
            None => r is None,
            Some(e) => r matches Some(j) && j < existing@.len() && existing@[j as int] == e,
        },
{
    let mut j: usize = 0;
    assert(existing@.skip(0) =~= existing@);
    while j < existing.len()
        invariant
            j <= existing@.len(),
            first_function(existing@, function_key(*f)) == first_function(existing@.skip(j as int), function_key(*f)),
        decreases existing@.len() - j,
    {
        assert(existing@.skip(j as int)[0] == existing@[j as int]);
        assert(existing@.skip(j as int).drop_first() =~= existing@.skip(j + 1));
        if same_key(&existing[j], f) {
            return Some(j);
        }
        j = j + 1;
    }
    None
}

/// The changes that bring an MCP server's functions in line with `soma.yaml`.
pub fn mcp_function_ops(wanted: &Option<Vec<McpFunctionSpec>>, existing: &Vec<McpFunctionSpec>) -> (r: Vec<
    McpFunctionOp,
>)
    ensures
        r@.map_values(|op: McpFunctionOp| op_view(op)) == function_ops(
            match wanted {
                Some(w) => Some(w@),
                None => None,
            },
            existing@,
        ),
{
    let empty: Vec<McpFunctionSpec> = Vec::new();
    let w: &Vec<McpFunctionSpec> = match wanted {
        Some(v) => v,
        None => &empty,
    };
    let ghost ek = function_keys(existing@);
    let ghost wk = function_keys(w@);
    let mut r: Vec<McpFunctionOp> = Vec::new();
    let mut i: usize = 0;
    while i < existing.len()
        invariant
            i <= existing@.len(),
            ek == function_keys(existing@),
            wk == function_keys(w@),
            r@.map_values(|op: McpFunctionOp| op_view(op)) == function_removals(ek, wk, i as int),
        decreases existing@.len() - i,
    {
        let ghost before = r@.map_values(|op: McpFunctionOp| op_view(op));
        let f = &existing[i];
        let seen = has_key(existing, f, i);
        assert(seen == !first_with_its_key(ek, i as int)) by {
            if seen {
                let m = choose|m: int| 0 <= m < i && ek.take(i as int)[m] == function_key(*f);
                assert(ek[m] == ek[i as int]);
            } else {
                assert forall|m: int| 0 <= m < i implies ek[m] != #[trigger] ek[i as int] by {
                    assert(ek.take(i as int)[m] == ek[m]);
                }
            }
        }
        let listed = has_key(w, f, w.len());
        assert(w@.len() == wk.len());
        assert(wk.take(w@.len() as int) =~= wk);
        if !seen && !listed {
            r.push(
                McpFunctionOp::Remove {
                    function_controller_type_id: f.function_controller_type_id.clone(),
                    provider_controller_type_id: f.provider_controller_type_id.clone(),
                    provider_instance_id: f.provider_instance_id.clone(),
                },
            );
            assert(r@.map_values(|op: McpFunctionOp| op_view(op)) =~= before + seq![
                McpFunctionOpView::Remove(ek[i as int]),
            ]);
        } else {
            assert(r@.map_values(|op: McpFunctionOp| op_view(op)) =~= before + seq![]);
        }
        i = i + 1;
    }
    let ghost removals = r@.map_values(|op: McpFunctionOp| op_view(op));
    let mut k: usize = 0;
    while k < w.len()
        invariant
            k <= w@.len(),
            r@.map_values(|op: McpFunctionOp| op_view(op)) == removals + function_upserts(
                w@,
                existing@,
                k as int,
            ),
        decreases w@.len() - k,
    {
        let ghost before = r@.map_values(|op: McpFunctionOp| op_view(op));
        match find_first_function(existing, &w[k]) {
            None => {
                r.push(McpFunctionOp::Add { index: k });
                assert(r@.map_values(|op: McpFunctionOp| op_view(op)) =~= before + seq![
                    McpFunctionOpView::Add(k as nat),
                ]);
            },
            Some(j) => {
                let e = &existing[j];
                if !str_eq(e.function_name.as_str(), w[k].function_name.as_str()) || !opt_eq(
                    &e.function_description,
                    &w[k].function_description,
                ) {
                    r.push(McpFunctionOp::Update { index: k });
                    assert(r@.map_values(|op: McpFunctionOp| op_view(op)) =~= before + seq![
                        McpFunctionOpView::Update(k as nat),
                    ]);
                } else {
                    assert(r@.map_values(|op: McpFunctionOp| op_view(op)) =~= before + seq![]);
                }
            },
        }
        assert(removals + function_upserts(w@, existing@, k + 1) =~= before + wanted_function_op(
            w@,
            existing@,
            k as int,
        ));
        k = k + 1;
    }
    r
}

/// An MCP server instance as the API lists it, with its functions.
pub struct ExistingMcpServer {
    pub id: String,
    pub name: String,
    pub functions: Vec<McpFunctionSpec>,
}

/// The listed MCP server with the given id; a later entry of the same id counts.
pub open spec fn listed_server(existing: Seq<ExistingMcpServer>, id: Seq<char>) -> Option<ExistingMcpServer>
    decreases existing.len(),
{
    if existing.len() == 0 {
        None
    } else if existing.last().id@ == id {
        Some(existing.last())
    } else {
        listed_server(existing.drop_last(), id)
    }
}

/// Finds the listed MCP server with the given id.
pub fn find_listed_server(existing: &Vec<ExistingMcpServer>, id: &str) -> (r: Option<usize>)
    ensures
        match listed_server(existing@, id@) {
            None => r is None,
            Some(e) => r matches Some(i) && i < existing@.len() && existing@[i as int] == e,
        },
{
    let mut n: usize = existing.len();
    assert(existing@.take(n as int) =~= existing@);
    while n > 0
        invariant
            n <= existing@.len(),
            listed_server(existing@, id@) == listed_server(existing@.take(n as int), id@),
        decreases n,
    {
        assert(existing@.take(n as int).last() == existing@[n - 1]);
        assert(existing@.take(n as int).drop_last() =~= existing@.take(n - 1));
        if str_eq(existing[n - 1].id.as_str(), id) {
            return Some(n - 1);
        }
        n = n - 1;
    }
    None
}

/// What to do with an MCP server of `soma.yaml`.
#[derive(Debug, Clone, Copy, PartialEq, Eq, Structural)]
pub enum McpServerAction {
    /// It does not exist yet: create it.
    Create,
    /// It exists under another name: rename it.
    Rename,
    /// It exists as described.
    Keep,
}

/// Decides whether an MCP server of `soma.yaml` is created, renamed or kept,
/// given the listed server of its id (if any).
pub fn mcp_server_action(name: &str, listed: Option<&ExistingMcpServer>) -> (r: McpServerAction)
    ensures
        match listed {
            None => r == McpServerAction::Create,
            Some(e) => if e.name@ != name@ {
                r == McpServerAction::Rename
            } else {
                r == McpServerAction::Keep
            },
        },
{
    match listed {
        None => McpServerAction::Create,
        Some(e) => {
            if !str_eq(e.name.as_str(), name) {
                McpServerAction::Rename
            } else {
                McpServerAction::Keep
            }
        },
    }
}

/// The ids of the MCP servers to delete among the first `k` listed ones: those
/// that `soma.yaml` does not name, each id once (at its last entry), in list
/// order.
pub open spec fn server_deletions(existing: Seq<ExistingMcpServer>, yaml_ids: Seq<Seq<char>>, k: int) -> Seq<
    Seq<char>,
>
    decreases k,
{
    if k <= 0 {
        seq![]
    } else {
        server_deletions(existing, yaml_ids, k - 1) + if (forall|j: int|
            k - 1 < j < existing.len() ==> #[trigger] existing[j].id@ != existing[k - 1].id@)
            && !yaml_ids.contains(existing[k - 1].id@) {
            seq![existing[k - 1].id@]
        } else {
            seq![]
        }
    }
}

/// The listed MCP servers that `soma.yaml` no longer names: they are deleted.
pub fn mcp_servers_to_delete(yaml_ids: &Vec<String>, existing: &Vec<ExistingMcpServer>) -> (r: Vec<String>)
    ensures
        texts(r@) == server_deletions(existing@, texts(yaml_ids@), existing@.len() as int),
{
    let ghost ys = texts(yaml_ids@);
    let mut r: Vec<String> = Vec::new();
    let mut i: usize = 0;
    let n = existing.len();
    while i < n
        invariant
            n == existing@.len(),
            i <= n,
            ys == texts(yaml_ids@),
            texts(r@) == server_deletions(existing@, ys, i as int),
        decreases n - i,
    {
        let ghost before = r@;
        let mut last = true;
        let mut j: usize = i;
        while j < n - 1
            invariant
                n == existing@.len(),
                i <= j < n,
                last == forall|m: int| i < m <= j ==> #[trigger] existing@[m].id@ != existing@[i as int].id@,
            decreases n - j,
        {
            if str_eq(existing[j + 1].id.as_str(), existing[i].id.as_str()) {
                last = false;
            }
            j = j + 1;
        }
        if last && !contains_text(yaml_ids, existing[i].id.as_str()) {
            r.push(existing[i].id.clone());
            assert(texts(r@) =~= texts(before) + seq![existing@[i as int].id@]);
        } else {
            assert(texts(r@) =~= texts(before) + seq![]);
        }
        i = i + 1;
    }
    r
}

proof fn lemma_missing_upto_none(wanted: Seq<Seq<char>>, existing: Seq<Seq<char>>, k: int)
    requires
        0 <= k <= wanted.len(),
        forall|j: int| 0 <= j < k ==> existing.contains(#[trigger] wanted[j]),
    ensures
        missing_upto(wanted, existing, k) == Seq::<Seq<char>>::empty(),
    decreases k,
{
    if k > 0 {
        lemma_missing_upto_none(wanted, existing, k - 1);
        assert(existing.contains(wanted[k - 1]));
        assert(missing_upto(wanted, existing, k) =~= Seq::<Seq<char>>::empty());
    }
}

/// When every wanted key exists (as when the API reflects `soma.yaml`), none is
/// missing: nothing is created, imported, enabled or disabled for such keys.
pub proof fn law_nothing_missing_when_all_exist(wanted: Seq<Seq<char>>, existing: Seq<Seq<char>>)
    requires
        forall|x: Seq<char>| wanted.contains(x) ==> #[trigger] existing.contains(x),
    ensures
        missing(wanted, existing) == Seq::<Seq<char>>::empty(),
{
    assert forall|j: int| 0 <= j < wanted.len() implies existing.contains(#[trigger] wanted[j]) by {
        assert(wanted.contains(wanted[j]));
    }
    lemma_missing_upto_none(wanted, existing, wanted.len() as int);
}

/// Once the missing keys are created, planning again finds none missing: a
/// second start-up run creates no key.
pub proof fn law_missing_keys_after_creation(wanted: Seq<Seq<char>>, existing: Seq<Seq<char>>)
    ensures
        missing(wanted, existing + missing(wanted, existing)) == Seq::<Seq<char>>::empty(),
{
    let m = missing(wanted, existing);
    let e2 = existing + m;
    law_missing_keys_complete_the_existing(wanted, existing);
    assert forall|j: int| 0 <= j < wanted.len() implies e2.contains(#[trigger] wanted[j]) by {
        let x = wanted[j];
        assert(wanted.contains(x));
        if existing.contains(x) {
            let i = choose|i: int| 0 <= i < existing.len() && existing[i] == x;
            assert(e2[i] == x);
        } else {
            assert(m.contains(x));
            let i = choose|i: int| 0 <= i < m.len() && m[i] == x;
            assert(e2[existing.len() + i] == x);
        }
    }
    lemma_missing_upto_none(wanted, e2, wanted.len() as int);
}

/// A provider that the API lists as `soma.yaml` describes it (as its latest
/// entry, as after it was created) is kept: a second run neither creates nor
/// recreates it.
pub proof fn law_created_provider_is_kept(
    wanted: ProviderSpec,
    existing: Seq<ExistingProvider>,
    created: ExistingProvider,
)
    requires
        created.id@ == wanted.id@,
        created.provider_controller_type_id@ == wanted.provider_controller_type_id@,
        created.credential_controller_type_id@ == wanted.credential_controller_type_id@,
        created.display_name@ == wanted.display_name@,
    ensures
        provider_action_for(wanted, existing.push(created)) == ProviderAction::Keep,
{
    assert(existing.push(created).last() == created);
}

proof fn lemma_deletions_none(existing: Seq<ExistingProvider>, yaml_ids: Seq<Seq<char>>, k: int)
    requires
        0 <= k <= existing.len(),
        forall|i: int|
            0 <= i < existing.len() && (#[trigger] existing[i]).status@ == "active"@
                ==> yaml_ids.contains(existing[i].id@),
    ensures
        deletions(existing, yaml_ids, k) == Seq::<Seq<char>>::empty(),
    decreases k,
{
    if k > 0 {
        lemma_deletions_none(existing, yaml_ids, k - 1);
        assert(!deletes_entry(existing, yaml_ids, k - 1));
        assert(deletions(existing, yaml_ids, k) =~= Seq::<Seq<char>>::empty());
    }
}

/// When every active provider that the API lists is named in `soma.yaml` (as
/// after a run), none is deleted.
pub proof fn law_no_provider_deleted_when_all_are_named(
    existing: Seq<ExistingProvider>,
    yaml_ids: Seq<Seq<char>>,
)
    requires
        forall|i: int|
            0 <= i < existing.len() && (#[trigger] existing[i]).status@ == "active"@
                ==> yaml_ids.contains(existing[i].id@),
    ensures
        deletions(existing, yaml_ids, existing.len() as int) == Seq::<Seq<char>>::empty(),
{
    lemma_deletions_none(existing, yaml_ids, existing.len() as int);
}

proof fn lemma_server_deletions_none(existing: Seq<ExistingMcpServer>, yaml_ids: Seq<Seq<char>>, k: int)
    requires
        0 <= k <= existing.len(),
        forall|i: int| 0 <= i < existing.len() ==> yaml_ids.contains((#[trigger] existing[i]).id@),
    ensures
        server_deletions(existing, yaml_ids, k) == Seq::<Seq<char>>::empty(),
    decreases k,
{
    if k > 0 {
        lemma_server_deletions_none(existing, yaml_ids, k - 1);
        assert(yaml_ids.contains(existing[k - 1].id@));
        assert(server_deletions(existing, yaml_ids, k) =~= Seq::<Seq<char>>::empty());
    }
}

/// When `soma.yaml` names every MCP server that the API lists (as after a run),
/// none is deleted.
pub proof fn law_no_server_deleted_when_all_are_named(
    existing: Seq<ExistingMcpServer>,
    yaml_ids: Seq<Seq<char>>,
)
    requires
        forall|i: int| 0 <= i < existing.len() ==> yaml_ids.contains((#[trigger] existing[i]).id@),
    ensures
        server_deletions(existing, yaml_ids, existing.len() as int) == Seq::<Seq<char>>::empty(),
{
    lemma_server_deletions_none(existing, yaml_ids, existing.len() as int);
}

pub(crate) proof fn lemma_removals_none(
    existing: Seq<(Seq<char>, Seq<char>, Seq<char>)>,
    wanted: Seq<(Seq<char>, Seq<char>, Seq<char>)>,
    k: int,
)
    requires
        0 <= k <= existing.len(),
        forall|i: int| 0 <= i < existing.len() ==> wanted.contains(#[trigger] existing[i]),
    ensures
        function_removals(existing, wanted, k) == Seq::<McpFunctionOpView>::empty(),
    decreases k,
{
    if k > 0 {
        lemma_removals_none(existing, wanted, k - 1);
        assert(wanted.contains(existing[k - 1]));
        assert(function_removals(existing, wanted, k) =~= Seq::<McpFunctionOpView>::empty());
    }
}

proof fn lemma_first_function_of_own_key(s: Seq<McpFunctionSpec>, i: int)
    requires
        0 <= i < s.len(),
        function_keys(s).no_duplicates(),
    ensures
        first_function(s, function_key(s[i])) == Some(s[i]),
    decreases s.len(),
{
    if function_key(s[0]) != function_key(s[i]) {
        let t = s.drop_first();
        assert(i > 0);
        assert(t[i - 1] == s[i]);
        assert(function_keys(t).no_duplicates()) by {
            assert forall|a: int, b: int|
                0 <= a < function_keys(t).len() && 0 <= b < function_keys(t).len() && a != b
                implies function_keys(t)[a] != function_keys(t)[b] by {
                assert(function_keys(t)[a] == function_keys(s)[a + 1]);
                assert(function_keys(t)[b] == function_keys(s)[b + 1]);
            }
        }
        lemma_first_function_of_own_key(t, i - 1);
    } else if i != 0 {
        assert(function_keys(s)[0] == function_keys(s)[i]);
    }
}

proof fn lemma_upserts_none(w: Seq<McpFunctionSpec>, k: int)
    requires
        0 <= k <= w.len(),
        function_keys(w).no_duplicates(),
    ensures
        function_upserts(w, w, k) == Seq::<McpFunctionOpView>::empty(),
    decreases k,
{
    if k > 0 {
        lemma_upserts_none(w, k - 1);
        lemma_first_function_of_own_key(w, k - 1);
        assert(wanted_function_op(w, w, k - 1) =~= Seq::<McpFunctionOpView>::empty());
        assert(function_upserts(w, w, k) =~= Seq::<McpFunctionOpView>::empty());
    }
}

/// An MCP server whose functions in the API are those of `soma.yaml` (as after
/// a run; the file names each function once) needs no function change.
pub proof fn law_functions_in_place_need_no_change(w: Seq<McpFunctionSpec>)
    requires
        function_keys(w).no_duplicates(),
    ensures
        function_ops(Some(w), w) == Seq::<McpFunctionOpView>::empty(),
{
    let keys = function_keys(w);
    assert forall|i: int| 0 <= i < keys.len() implies keys.contains(#[trigger] keys[i]) by {}
    lemma_removals_none(keys, keys, w.len() as int);
    lemma_upserts_none(w, w.len() as int);
    assert(function_ops(Some(w), w) =~= Seq::<McpFunctionOpView>::empty());
}

proof fn lemma_removals_cover(
    existing: Seq<(Seq<char>, Seq<char>, Seq<char>)>,
    wanted: Seq<(Seq<char>, Seq<char>, Seq<char>)>,
    k: int,
)
    requires
        0 <= k <= existing.len(),
    ensures
        forall|j: int|
            0 <= j < k && !wanted.contains(#[trigger] existing[j]) ==> function_removals(existing, wanted, k).contains(
                McpFunctionOpView::Remove(existing[j]),
            ),
    decreases k,
{
    if k > 0 {
        lemma_removals_cover(existing, wanted, k - 1);
        let prev = function_removals(existing, wanted, k - 1);
        let cur = function_removals(existing, wanted, k);
        assert forall|j: int|
            0 <= j < k && !wanted.contains(#[trigger] existing[j]) implies cur.contains(
            McpFunctionOpView::Remove(existing[j]),
        ) by {
            let x = McpFunctionOpView::Remove(existing[j]);
            if j < k - 1 {
                let t = choose|t: int| 0 <= t < prev.len() && prev[t] == x;
                assert(cur[t] == x);
            } else if first_with_its_key(existing, k - 1) {
                assert(cur[prev.len() as int] == x);
            } else {
                let j2 = choose|j2: int| 0 <= j2 < k - 1 && #[trigger] existing[j2] == existing[k - 1];
                assert(!wanted.contains(existing[j2]));
                let t = choose|t: int| 0 <= t < prev.len() && prev[t] == McpFunctionOpView::Remove(existing[j2]);
                assert(cur[t] == x);
            }
        }
    }
}

proof fn lemma_upserts_cover(w: Seq<McpFunctionSpec>, existing: Seq<McpFunctionSpec>, k: int, i: int, x: McpFunctionOpView)
    requires
        0 <= i < k <= w.len(),
        wanted_function_op(w, existing, i).contains(x),
    ensures
        function_upserts(w, existing, k).contains(x),
    decreases k,
{
    let prev = function_upserts(w, existing, k - 1);
    let cur = function_upserts(w, existing, k);
    if i < k - 1 {
        lemma_upserts_cover(w, existing, k - 1, i, x);
        let t = choose|t: int| 0 <= t < prev.len() && prev[t] == x;
        assert(cur[t] == x);
    } else {
        let op = wanted_function_op(w, existing, i);
        let t = choose|t: int| 0 <= t < op.len() && op[t] == x;
        assert(cur[prev.len() + t] == x);
    }
}

/// Every needed change to an MCP server's functions is planned: each function
/// of the YAML whose key the server lacks is added, each one listed under
/// another name or description is updated, and each listed function whose key
/// the YAML does not name is removed.
pub proof fn law_function_changes_are_complete(w: Seq<McpFunctionSpec>, existing: Seq<McpFunctionSpec>)
    ensures
        forall|i: int|
            0 <= i < w.len() && first_function(existing, function_key(#[trigger] w[i])) is None
                ==> function_ops(Some(w), existing).contains(McpFunctionOpView::Add(i as nat)),
        forall|i: int|
            0 <= i < w.len() && (first_function(existing, function_key(#[trigger] w[i])) matches Some(e)
                && (e.function_name@ != w[i].function_name@ || opt_text(e.function_description) != opt_text(
                w[i].function_description,
            ))) ==> function_ops(Some(w), existing).contains(McpFunctionOpView::Update(i as nat)),
        forall|j: int|
            0 <= j < existing.len() && !function_keys(w).contains(function_key(#[trigger] existing[j]))
                ==> function_ops(Some(w), existing).contains(McpFunctionOpView::Remove(function_key(existing[j]))),
{
    let ek = function_keys(existing);
    let wk = function_keys(w);
    let rem = function_removals(ek, wk, existing.len() as int);
    let ups = function_upserts(w, existing, w.len() as int);
    let all = function_ops(Some(w), existing);
    assert(all == rem + ups);
    lemma_removals_cover(ek, wk, existing.len() as int);
    assert forall|j: int|
        0 <= j < existing.len() && !wk.contains(function_key(#[trigger] existing[j])) implies all.contains(
        McpFunctionOpView::Remove(function_key(existing[j])),
    ) by {
        assert(ek[j] == function_key(existing[j]));
        let t = choose|t: int| 0 <= t < rem.len() && rem[t] == McpFunctionOpView::Remove(ek[j]);
        assert(all[t] == rem[t]);
    }
    assert forall|i: int|
        0 <= i < w.len() && first_function(existing, function_key(#[trigger] w[i])) is None implies all.contains(
        McpFunctionOpView::Add(i as nat),
    ) by {
        assert(wanted_function_op(w, existing, i)[0] == McpFunctionOpView::Add(i as nat));
        lemma_upserts_cover(w, existing, w.len() as int, i, McpFunctionOpView::Add(i as nat));
        let t = choose|t: int| 0 <= t < ups.len() && ups[t] == McpFunctionOpView::Add(i as nat);
        assert(all[rem.len() + t] == ups[t]);
    }
    assert forall|i: int|
        0 <= i < w.len() && (first_function(existing, function_key(#[trigger] w[i])) matches Some(e)
            && (e.function_name@ != w[i].function_name@ || opt_text(e.function_description) != opt_text(
            w[i].function_description,
        ))) implies all.contains(McpFunctionOpView::Update(i as nat)) by {
        assert(wanted_function_op(w, existing, i)[0] == McpFunctionOpView::Update(i as nat));
        lemma_upserts_cover(w, existing, w.len() as int, i, McpFunctionOpView::Update(i as nat));
        let t = choose|t: int| 0 <= t < ups.len() && ups[t] == McpFunctionOpView::Update(i as nat);
        assert(all[rem.len() + t] == ups[t]);
    }
}

proof fn lemma_deletions_cover(existing: Seq<ExistingProvider>, yaml_ids: Seq<Seq<char>>, k: int, i: int)
    requires
        0 <= i < k <= existing.len(),
        deletes_entry(existing, yaml_ids, i),
    ensures
        deletions(existing, yaml_ids, k).contains(existing[i].id@),
    decreases k,
{
    let prev = deletions(existing, yaml_ids, k - 1);
    let cur = deletions(existing, yaml_ids, k);
    if i < k - 1 {
        lemma_deletions_cover(existing, yaml_ids, k - 1, i);
        let t = choose|t: int| 0 <= t < prev.len() && prev[t] == existing[i].id@;
        assert(cur[t] == existing[i].id@);
    } else {
        assert(cur[prev.len() as int] == existing[i].id@);
    }
}

/// Every active provider that the API lists (by its latest entry) and that
/// `soma.yaml` does not name is deleted.
pub proof fn law_unnamed_active_providers_are_deleted(existing: Seq<ExistingProvider>, yaml_ids: Seq<Seq<char>>, i: int)
    requires
        0 <= i < existing.len(),
        forall|j: int| i < j < existing.len() ==> (#[trigger] existing[j]).id@ != existing[i].id@,
        existing[i].status@ == "active"@,
        !yaml_ids.contains(existing[i].id@),
    ensures
        deletions(existing, yaml_ids, existing.len() as int).contains(existing[i].id@),
{
    lemma_deletions_cover(existing, yaml_ids, existing.len() as int, i);
}

proof fn lemma_server_deletions_cover(existing: Seq<ExistingMcpServer>, yaml_ids: Seq<Seq<char>>, k: int, i: int)
    requires
        0 <= i < k <= existing.len(),
        forall|j: int| i < j < existing.len() ==> (#[trigger] existing[j]).id@ != existing[i].id@,
        !yaml_ids.contains(existing[i].id@),
    ensures
        server_deletions(existing, yaml_ids, k).contains(existing[i].id@),
    decreases k,
{
    let prev = server_deletions(existing, yaml_ids, k - 1);
    let cur = server_deletions(existing, yaml_ids, k);
    if i < k - 1 {
        lemma_server_deletions_cover(existing, yaml_ids, k - 1, i);
        let t = choose|t: int| 0 <= t < prev.len() && prev[t] == existing[i].id@;
        assert(cur[t] == existing[i].id@);
    } else {
        assert(cur[prev.len() as int] == existing[i].id@);
    }
}

/// Every MCP server that the API lists and `soma.yaml` does not name is deleted.
pub proof fn law_unnamed_servers_are_deleted(existing: Seq<ExistingMcpServer>, yaml_ids: Seq<Seq<char>>, i: int)
    requires
        0 <= i < existing.len(),
        !yaml_ids.contains(existing[i].id@),
    ensures
        server_deletions(existing, yaml_ids, existing.len() as int).contains(existing[i].id@),
    decreases existing.len() - i,
{
    if forall|j: int| i < j < existing.len() ==> (#[trigger] existing[j]).id@ != existing[i].id@ {
        lemma_server_deletions_cover(existing, yaml_ids, existing.len() as int, i);
    } else {
        let j = choose|j: int| i < j < existing.len() && (#[trigger] existing[j]).id@ == existing[i].id@;
        law_unnamed_servers_are_deleted(existing, yaml_ids, j);
    }
}

} // verus!
