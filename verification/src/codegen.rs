//! Building the data of the TypeScript bridge client: the enabled functions are
//! grouped by provider and by account, and each gets its type names and types.
//! Rendering that data with the client template happens at the edge.
use vstd::prelude::*;
use crate::json_schema::{JsonValue, convert_schema_to_typescript_type, ts_type};
use crate::names::{
    camel, pascal, sanitize_identifier, sanitized, strip_is_in_bounds,
    strip_provider_prefix_and_camel_case, stripped_camel, to_camel_case, to_pascal_case,
    try_strip_provider_prefix_and_camel_case,
};
use crate::text::{chars_of, str_eq, string_of, extend_str};

verus! {

/// An enabled function, with what code generation reads of it and of the
/// provider instance (account) that it belongs to.
pub struct FunctionInstanceWithMetadata {
    pub provider_controller_type_id: String,
    pub provider_display_name: String,
    pub provider_instance_id: String,
    pub function_controller_type_id: String,
    pub parameters: JsonValue,
    pub output: JsonValue,
}

/// A function as the template renders it.
pub struct FunctionData {
    pub name: String,
    pub function_controller_type_id: String,
    pub params_type: String,
    pub params_type_name: String,
    pub return_type: String,
    pub return_type_name: String,
}

/// An account (provider instance) as the template renders it.
pub struct AccountData {
    pub name: String,
    pub provider_instance_id: String,
    pub functions: Vec<FunctionData>,
}

/// A provider as the template renders it.
pub struct ProviderData {
    pub name: String,
    pub interface_name: String,
    pub accounts: Vec<AccountData>,
}

pub ghost struct FunctionDataView {
    pub name: Seq<char>,
    pub function_controller_type_id: Seq<char>,
    pub params_type: Seq<char>,
    pub params_type_name: Seq<char>,
    pub return_type: Seq<char>,
    pub return_type_name: Seq<char>,
}

pub ghost struct AccountDataView {
    pub name: Seq<char>,
    pub provider_instance_id: Seq<char>,
    pub functions: Seq<FunctionDataView>,
}

pub ghost struct ProviderDataView {
    pub name: Seq<char>,
    pub interface_name: Seq<char>,
    pub accounts: Seq<AccountDataView>,
}

impl View for FunctionData {
    type V = FunctionDataView;

    open spec fn view(&self) -> FunctionDataView {
        FunctionDataView {
            name: self.name@,
            function_controller_type_id: self.function_controller_type_id@,
            params_type: self.params_type@,
            params_type_name: self.params_type_name@,
            return_type: self.return_type@,
            return_type_name: self.return_type_name@,
        }
    }
}

impl View for AccountData {
    type V = AccountDataView;

    open spec fn view(&self) -> AccountDataView {
        AccountDataView {
            name: self.name@,
            provider_instance_id: self.provider_instance_id@,
            functions: self.functions@.map_values(|f: FunctionData| f@),
        }
    }
}

impl View for ProviderData {
    type V = ProviderDataView;

    open spec fn view(&self) -> ProviderDataView {
        ProviderDataView {
            name: self.name@,
            interface_name: self.interface_name@,
            accounts: self.accounts@.map_values(|a: AccountData| a@),
        }
    }
}

/// The distinct provider type ids of `fs`, in order of first appearance.
pub open spec fn provider_ids(fs: Seq<FunctionInstanceWithMetadata>) -> Seq<Seq<char>>
    decreases fs.len(),
{
    if fs.len() == 0 {
        seq![]
    } else {
        let prev = provider_ids(fs.drop_last());
        if prev.contains(fs.last().provider_controller_type_id@) {
            prev
        } else {
            prev.push(fs.last().provider_controller_type_id@)
        }
    }
}

/// The distinct account names under provider `p`, in order of first appearance.
pub open spec fn account_names(fs: Seq<FunctionInstanceWithMetadata>, p: Seq<char>) -> Seq<
    Seq<char>,
>
    decreases fs.len(),
{
    if fs.len() == 0 {
        seq![]
    } else {
        let prev = account_names(fs.drop_last(), p);
        let f = fs.last();
        if f.provider_controller_type_id@ == p && !prev.contains(f.provider_display_name@) {
            prev.push(f.provider_display_name@)
        } else {
            prev
        }
    }
}

/// The functions of provider `p` under account `a`, in input order.
pub open spec fn group(fs: Seq<FunctionInstanceWithMetadata>, p: Seq<char>, a: Seq<char>) -> Seq<
    FunctionInstanceWithMetadata,
>
    decreases fs.len(),
{
    if fs.len() == 0 {
        seq![]
    } else {
        let prev = group(fs.drop_last(), p, a);
        let f = fs.last();
        if f.provider_controller_type_id@ == p && f.provider_display_name@ == a {
            prev.push(f)
        } else {
            prev
        }
    }
}

/// The account's instance id: that of its first function, or of the next one
/// while the ids seen so far are empty.
pub open spec fn first_instance_id(g: Seq<FunctionInstanceWithMetadata>) -> Seq<char>
    decreases g.len(),
{
    if g.len() == 0 {
        seq![]
    } else {
        let prev = first_instance_id(g.drop_last());
        if prev.len() == 0 {
            g.last().provider_instance_id@
        } else {
            prev
        }
    }
}

/// The template data of one function of provider `p`.
pub open spec fn function_view(p: Seq<char>, f: FunctionInstanceWithMetadata) -> FunctionDataView {
    let provider_pascal = pascal(sanitized(p));
    let function_pascal = pascal(sanitized(f.function_controller_type_id@));
    FunctionDataView {
        name: stripped_camel(f.function_controller_type_id@, p),
        function_controller_type_id: f.function_controller_type_id@,
        params_type: ts_type(f.parameters, 0),
        params_type_name: provider_pascal + function_pascal + "Params"@,
        return_type: ts_type(f.output, 0),
        return_type_name: provider_pascal + function_pascal + "Result"@,
    }
}

pub open spec fn account_view(fs: Seq<FunctionInstanceWithMetadata>, p: Seq<char>, a: Seq<char>) -> AccountDataView {
    AccountDataView {
        name: a,
        provider_instance_id: first_instance_id(group(fs, p, a)),
        functions: group(fs, p, a).map_values(|f: FunctionInstanceWithMetadata| function_view(p, f)),
    }
}

pub open spec fn provider_view(fs: Seq<FunctionInstanceWithMetadata>, p: Seq<char>) -> ProviderDataView {
    ProviderDataView {
        name: camel(sanitized(p)),
        interface_name: pascal(sanitized(p)) + "Provider"@,
        accounts: account_names(fs, p).map_values(|a: Seq<char>| account_view(fs, p, a)),
    }
}

/// The template data for all of `fs`.
pub open spec fn providers_view(fs: Seq<FunctionInstanceWithMetadata>) -> Seq<ProviderDataView> {
    provider_ids(fs).map_values(|p: Seq<char>| provider_view(fs, p))
}

/// Whether `f` is an instance of provider `p` under account `a`.
pub open spec fn in_account(f: FunctionInstanceWithMetadata, p: Seq<char>, a: Seq<char>) -> bool {
    f.provider_controller_type_id@ == p && f.provider_display_name@ == a
}

/// The functions grouped under provider `p` and account `a` are exactly the
/// instances of that provider and account, in input order.
pub proof fn law_group_is_the_account_instances(
    fs: Seq<FunctionInstanceWithMetadata>,
    p: Seq<char>,
    a: Seq<char>,
)
    ensures
        group(fs, p, a) == fs.filter(|f: FunctionInstanceWithMetadata| in_account(f, p, a)),
    decreases fs.len(),
{
    reveal_with_fuel(Seq::<FunctionInstanceWithMetadata>::filter, 1);
    if fs.len() > 0 {
        law_group_is_the_account_instances(fs.drop_last(), p, a);
    }
}

/// Each provider type is listed once, every instance's provider type is listed,
/// and only those are.
pub proof fn law_providers_listed_once(fs: Seq<FunctionInstanceWithMetadata>)
    ensures
        provider_ids(fs).no_duplicates(),
        forall|i: int|
            0 <= i < fs.len() ==> provider_ids(fs).contains(
                (#[trigger] fs[i]).provider_controller_type_id@,
            ),
        forall|x: Seq<char>|
            #[trigger] provider_ids(fs).contains(x) ==> exists|i: int|
                0 <= i < fs.len() && (#[trigger] fs[i]).provider_controller_type_id@ == x,
    decreases fs.len(),
{
    if fs.len() > 0 {
        let prev = fs.drop_last();
        law_providers_listed_once(prev);
        let before = provider_ids(prev);
        let ids = provider_ids(fs);
        let x0 = fs.last().provider_controller_type_id@;
        assert forall|x: Seq<char>| before.contains(x) implies #[trigger] ids.contains(x) by {
            let k = choose|k: int| 0 <= k < before.len() && before[k] == x;
            assert(ids[k] == x);
        }
        assert(ids.contains(x0)) by {
            if !before.contains(x0) {
                assert(ids[ids.len() - 1] == x0);
            }
        }
        assert forall|i: int| 0 <= i < fs.len() implies ids.contains(
            (#[trigger] fs[i]).provider_controller_type_id@,
        ) by {
            if i < fs.len() - 1 {
                assert(fs[i] == prev[i]);
            }
        }
        assert forall|x: Seq<char>| #[trigger] ids.contains(x) implies exists|i: int|
            0 <= i < fs.len() && (#[trigger] fs[i]).provider_controller_type_id@ == x by {
            if before.contains(x) {
                let i = choose|i: int|
                    0 <= i < prev.len() && (#[trigger] prev[i]).provider_controller_type_id@ == x;
                assert(fs[i] == prev[i]);
            } else {
                let k = choose|k: int| 0 <= k < ids.len() && ids[k] == x;
                assert(k == ids.len() - 1);
                assert(fs[fs.len() - 1].provider_controller_type_id@ == x);
            }
        }
    }
}

/// Under a provider type, each account name is listed once, every account of an
/// instance of that provider is listed, and only those are.
pub proof fn law_accounts_listed_once(fs: Seq<FunctionInstanceWithMetadata>, p: Seq<char>)
    ensures
        account_names(fs, p).no_duplicates(),
        forall|i: int|
            0 <= i < fs.len() && (#[trigger] fs[i]).provider_controller_type_id@ == p
                ==> account_names(fs, p).contains(fs[i].provider_display_name@),
        forall|x: Seq<char>|
            #[trigger] account_names(fs, p).contains(x) ==> exists|i: int|
                0 <= i < fs.len() && in_account(#[trigger] fs[i], p, x),
    decreases fs.len(),
{
    if fs.len() > 0 {
        let prev = fs.drop_last();
        law_accounts_listed_once(prev, p);
        let before = account_names(prev, p);
        let names = account_names(fs, p);
        let f = fs.last();
        assert forall|x: Seq<char>| before.contains(x) implies #[trigger] names.contains(x) by {
            let k = choose|k: int| 0 <= k < before.len() && before[k] == x;
            assert(names[k] == x);
        }
        assert(f.provider_controller_type_id@ == p ==> names.contains(f.provider_display_name@)) by {
            if f.provider_controller_type_id@ == p && !before.contains(f.provider_display_name@) {
                assert(names[names.len() - 1] == f.provider_display_name@);
            }
        }
        assert forall|i: int|
            0 <= i < fs.len() && (#[trigger] fs[i]).provider_controller_type_id@ == p implies names.contains(
            fs[i].provider_display_name@,
        ) by {
            if i < fs.len() - 1 {
                assert(fs[i] == prev[i]);
            }
        }
        assert forall|x: Seq<char>| #[trigger] names.contains(x) implies exists|i: int|
            0 <= i < fs.len() && in_account(#[trigger] fs[i], p, x) by {
            if before.contains(x) {
                let i = choose|i: int| 0 <= i < prev.len() && in_account(#[trigger] prev[i], p, x);
                assert(fs[i] == prev[i]);
            } else {
                let k = choose|k: int| 0 <= k < names.len() && names[k] == x;
                assert(k == names.len() - 1);
                assert(in_account(fs[fs.len() - 1], p, x));
            }
        }
    }
}

/// Every function's name can be cut at its provider prefix without leaving a
/// character boundary.
pub open spec fn names_in_bounds(fs: Seq<FunctionInstanceWithMetadata>) -> bool {
    forall|i: int|
        0 <= i < fs.len() ==> strip_is_in_bounds(
            (#[trigger] fs[i]).function_controller_type_id@,
            fs[i].provider_controller_type_id@,
        )
}

fn contains_str(v: &Vec<String>, s: &String) -> (r: bool)
    ensures
        r == v@.map_values(|x: String| x@).contains(s@),
{
    let ghost vs = v@.map_values(|x: String| x@);
    let mut i: usize = 0;
    while i < v.len()
        invariant
            i <= v@.len(),
            vs == v@.map_values(|x: String| x@),
            forall|j: int| 0 <= j < i ==> vs[j] != s@,
        decreases v@.len() - i,
    {
        if str_eq(v[i].as_str(), s.as_str()) {
            assert(vs[i as int] == s@);
            return true;
        }
        i = i + 1;
    }
    false
}

fn distinct_provider_ids(fs: &Vec<FunctionInstanceWithMetadata>) -> (r: Vec<String>)
    ensures
        r@.map_values(|x: String| x@) == provider_ids(fs@),
{
    let mut r: Vec<String> = Vec::new();
    let mut i: usize = 0;
    while i < fs.len()
        invariant
            i <= fs@.len(),
            r@.map_values(|x: String| x@) == provider_ids(fs@.take(i as int)),
        decreases fs@.len() - i,
    {
        assert(fs@.take(i + 1).drop_last() =~= fs@.take(i as int));
        let p = &fs[i].provider_controller_type_id;
        if !contains_str(&r, p) {
            let ghost before = r@;
            r.push(p.clone());
            assert(r@.map_values(|x: String| x@) =~= before.map_values(|x: String| x@).push(p@));
        }
        i = i + 1;
    }
    assert(fs@.take(fs@.len() as int) =~= fs@);
    r
}

fn distinct_account_names(fs: &Vec<FunctionInstanceWithMetadata>, p: &String) -> (r: Vec<String>)
    ensures
        r@.map_values(|x: String| x@) == account_names(fs@, p@),
{
    let mut r: Vec<String> = Vec::new();
    let mut i: usize = 0;
    while i < fs.len()
        invariant
            i <= fs@.len(),
            r@.map_values(|x: String| x@) == account_names(fs@.take(i as int), p@),
        decreases fs@.len() - i,
    {
        assert(fs@.take(i + 1).drop_last() =~= fs@.take(i as int));
        let f = &fs[i];
        if str_eq(f.provider_controller_type_id.as_str(), p.as_str()) && !contains_str(
            &r,
            &f.provider_display_name,
        ) {
            let ghost before = r@;
            r.push(f.provider_display_name.clone());
            assert(r@.map_values(|x: String| x@) =~= before.map_values(|x: String| x@).push(
                f.provider_display_name@,
            ));
        }
        i = i + 1;
    }
    assert(fs@.take(fs@.len() as int) =~= fs@);
    r
}

fn concat3(a: &String, b: &String, c: &str) -> (r: String)
    ensures
        r@ == a@ + b@ + c@,
{
    let mut v = chars_of(a.as_str());
    extend_str(&mut v, b.as_str());
    extend_str(&mut v, c);
    string_of(v.as_slice())
}

fn function_data(p: &String, f: &FunctionInstanceWithMetadata) -> (r: FunctionData)
    requires
        strip_is_in_bounds(f.function_controller_type_id@, p@),
    ensures
        r@ == function_view(p@, *f),
{
    let params_type = match convert_schema_to_typescript_type(&f.parameters) {
        Ok(t) => t,
        Err(_) => String::new(),
    };
    let return_type = match convert_schema_to_typescript_type(&f.output) {
        Ok(t) => t,
        Err(_) => String::new(),
    };
    let function_pascal = to_pascal_case(
        sanitize_identifier(f.function_controller_type_id.as_str()).as_str(),
    );
    let provider_pascal = to_pascal_case(sanitize_identifier(p.as_str()).as_str());
    let params_type_name = concat3(&provider_pascal, &function_pascal, "Params");
    let return_type_name = concat3(&provider_pascal, &function_pascal, "Result");
    let name = strip_provider_prefix_and_camel_case(
        f.function_controller_type_id.as_str(),
        p.as_str(),
    );
    FunctionData {
        name,
        function_controller_type_id: f.function_controller_type_id.clone(),
        params_type,
        params_type_name,
        return_type,
        return_type_name,
    }
}

fn account_data(fs: &Vec<FunctionInstanceWithMetadata>, p: &String, a: &String) -> (r: AccountData)
    requires
        forall|i: int|
            0 <= i < fs@.len() && (#[trigger] fs@[i]).provider_controller_type_id@ == p@
                ==> strip_is_in_bounds(fs@[i].function_controller_type_id@, p@),
    ensures
        r@ == account_view(fs@, p@, a@),
{
    let mut functions: Vec<FunctionData> = Vec::new();
    let mut instance_id = String::new();
    let mut i: usize = 0;
    while i < fs.len()
        invariant
            i <= fs@.len(),
            forall|j: int|
                0 <= j < fs@.len() && (#[trigger] fs@[j]).provider_controller_type_id@ == p@
                    ==> strip_is_in_bounds(fs@[j].function_controller_type_id@, p@),
            functions@.map_values(|x: FunctionData| x@) == group(fs@.take(i as int), p@, a@).map_values(
                |f: FunctionInstanceWithMetadata| function_view(p@, f),
            ),
            instance_id@ == first_instance_id(group(fs@.take(i as int), p@, a@)),
        decreases fs@.len() - i,
    {
        assert(fs@.take(i + 1).drop_last() =~= fs@.take(i as int));
        let f = &fs[i];
        if str_eq(f.provider_controller_type_id.as_str(), p.as_str()) && str_eq(
            f.provider_display_name.as_str(),
            a.as_str(),
        ) {
            let ghost g = group(fs@.take(i as int), p@, a@);
            assert(group(fs@.take(i + 1), p@, a@) == g.push(*f));
            assert(g.push(*f).drop_last() =~= g);
            let d = function_data(p, f);
            let ghost before = functions@;
            functions.push(d);
            proof {
                let fa = functions@.map_values(|x: FunctionData| x@);
                let ga = g.push(*f).map_values(|h: FunctionInstanceWithMetadata| function_view(p@, h));
                let gb = g.map_values(|h: FunctionInstanceWithMetadata| function_view(p@, h));
                assert(before.map_values(|x: FunctionData| x@) == gb);
                assert(gb.len() == g.len());
                assert(before.map_values(|x: FunctionData| x@).len() == before.len());
                assert(functions@.len() == before.len() + 1);
                assert(fa.len() == ga.len());
                assert forall|j: int| 0 <= j < fa.len() implies fa[j] == ga[j] by {
                    if j < before.len() {
                        assert(fa[j] == before.map_values(|x: FunctionData| x@)[j]);
                        assert(ga[j] == gb[j]);
                    }
                }
                assert(fa =~= ga);
            }
            if instance_id.unicode_len() == 0 {
                instance_id = f.provider_instance_id.clone();
            }
        }
        i = i + 1;
    }
    assert(fs@.take(fs@.len() as int) =~= fs@);
    AccountData { name: a.clone(), provider_instance_id: instance_id, functions }
}

fn provider_data(fs: &Vec<FunctionInstanceWithMetadata>, p: &String) -> (r: ProviderData)
    requires
        forall|i: int|
            0 <= i < fs@.len() && (#[trigger] fs@[i]).provider_controller_type_id@ == p@
                ==> strip_is_in_bounds(fs@[i].function_controller_type_id@, p@),
    ensures
        r@ == provider_view(fs@, p@),
{
    let names = distinct_account_names(fs, p);
    let ghost ns = names@.map_values(|x: String| x@);
    let mut accounts: Vec<AccountData> = Vec::new();
    let mut k: usize = 0;
    while k < names.len()
        invariant
            k <= names@.len(),
            ns == names@.map_values(|x: String| x@),
            ns == account_names(fs@, p@),
            forall|i: int|
                0 <= i < fs@.len() && (#[trigger] fs@[i]).provider_controller_type_id@ == p@
                    ==> strip_is_in_bounds(fs@[i].function_controller_type_id@, p@),
            accounts@.len() == k,
            forall|j: int| 0 <= j < k ==> (#[trigger] accounts@[j])@ == account_view(fs@, p@, ns[j]),
        decreases names@.len() - k,
    {
        let acc = account_data(fs, p, &names[k]);
        accounts.push(acc);
        k = k + 1;
    }
    let name = to_camel_case(sanitize_identifier(p.as_str()).as_str());
    let sp = sanitize_identifier(p.as_str());
    let pp = to_pascal_case(sp.as_str());
    let mut iv = chars_of(pp.as_str());
    extend_str(&mut iv, "Provider");
    let interface_name = string_of(iv.as_slice());
    let r = ProviderData { name, interface_name, accounts };
    assert(r@.accounts =~= account_names(fs@, p@).map_values(
        |a: Seq<char>| account_view(fs@, p@, a),
    ));
    r
}

/// Groups the function instances by provider type and by account (in order of
/// first appearance), and computes for each function its camelCase name, its
/// parameter and result types and their type names.
pub fn build_provider_data(function_instances: &Vec<FunctionInstanceWithMetadata>) -> (r: Vec<
    ProviderData,
>)
    requires
        names_in_bounds(function_instances@),
    ensures
        r@.map_values(|p: ProviderData| p@) == providers_view(function_instances@),
{
    let ids = distinct_provider_ids(function_instances);
    let ghost ps = ids@.map_values(|x: String| x@);
    let mut providers: Vec<ProviderData> = Vec::new();
    let mut k: usize = 0;
    while k < ids.len()
        invariant
            k <= ids@.len(),
            ps == ids@.map_values(|x: String| x@),
            ps == provider_ids(function_instances@),
            names_in_bounds(function_instances@),
            providers@.len() == k,
            forall|j: int|
                0 <= j < k ==> (#[trigger] providers@[j])@ == provider_view(
                    function_instances@,
                    ps[j],
                ),
        decreases ids@.len() - k,
    {
        assert(forall|i: int|
            0 <= i < function_instances@.len() && (#[trigger] function_instances@[i]).provider_controller_type_id@
                == ids@[k as int]@ ==> strip_is_in_bounds(
                function_instances@[i].function_controller_type_id@,
                ids@[k as int]@,
            ));
        let pd = provider_data(function_instances, &ids[k]);
        providers.push(pd);
        k = k + 1;
    }
    assert(providers@.map_values(|p: ProviderData| p@) =~= providers_view(function_instances@));
    providers
}

/// Like `build_provider_data`, for any input: `None` exactly when some function
/// name would be cut inside a character at its provider prefix.
pub fn try_build_provider_data(function_instances: &Vec<FunctionInstanceWithMetadata>) -> (r: Option<
    Vec<ProviderData>,
>)
    ensures
        r is Some <==> names_in_bounds(function_instances@),
        r matches Some(v) ==> v@.map_values(|p: ProviderData| p@) == providers_view(
            function_instances@,
        ),
{
    let mut i: usize = 0;
    while i < function_instances.len()
        invariant
            i <= function_instances@.len(),
            forall|j: int|
                0 <= j < i ==> strip_is_in_bounds(
                    (#[trigger] function_instances@[j]).function_controller_type_id@,
                    function_instances@[j].provider_controller_type_id@,
                ),
        decreases function_instances@.len() - i,
    {
        let f = &function_instances[i];
        if try_strip_provider_prefix_and_camel_case(
            f.function_controller_type_id.as_str(),
            f.provider_controller_type_id.as_str(),
        ).is_none() {
            return None;
        }
        i = i + 1;
    }
    Some(build_provider_data(function_instances))
}

} // verus!
