//! Translation of JSON Schema documents (as used for function parameters and
//! results) into TypeScript type expressions.
use vstd::prelude::*;
use crate::names::{sanitize_identifier, sanitized};
use crate::text::{chars_of, extend_chars, extend_str, str_eq, string_of};

verus! {

/// A JSON value. Numbers keep their JSON text, since nothing here reads them;
/// an object keeps its entries in the order in which the document lists them.
pub enum JsonValue {
    Null,
    Bool(bool),
    Number(String),
    Str(String),
    Array(Vec<JsonValue>),
    Object(Vec<(String, JsonValue)>),
}

/// The error type of schema conversion.
pub enum SchemaError {
    Unknown(String),
}

/// Recursion stops here: deeper schemas are typed `any`.
pub open spec fn max_depth() -> nat {
    10
}

/// The value stored under `key` in an object's entries (the first such entry).
pub open spec fn lookup(entries: Seq<(String, JsonValue)>, key: Seq<char>) -> Option<JsonValue>
    decreases entries.len(),
{
    if entries.len() == 0 {
        None
    } else if entries[0].0@ == key {
        Some(entries[0].1)
    } else {
        lookup(entries.drop_first(), key)
    }
}

/// The string elements of an array, in order (other elements are skipped).
pub open spec fn strings_of(items: Seq<JsonValue>) -> Seq<Seq<char>>
    decreases items.len(),
{
    if items.len() == 0 {
        seq![]
    } else {
        let prev = strings_of(items.drop_last());
        match items.last() {
            JsonValue::Str(s) => prev.push(s@),
            _ => prev,
        }
    }
}

/// The parts joined with `sep` between neighbours.
pub open spec fn join(parts: Seq<Seq<char>>, sep: Seq<char>) -> Seq<char>
    decreases parts.len(),
{
    if parts.len() == 0 {
        seq![]
    } else if parts.len() == 1 {
        parts[0]
    } else {
        join(parts.drop_last(), sep) + sep + parts.last()
    }
}

/// Each string wrapped in double quotes.
pub open spec fn quoted(parts: Seq<Seq<char>>) -> Seq<Seq<char>> {
    parts.map_values(|p: Seq<char>| "\""@ + p + "\""@)
}

/// The names listed under `required`, if that is an array.
pub open spec fn required_names(entries: Seq<(String, JsonValue)>) -> Seq<Seq<char>> {
    match lookup(entries, "required"@) {
        Some(JsonValue::Array(a)) => strings_of(a@),
        _ => seq![],
    }
}

/// Measure for the mutual recursion below: deeper calls have smaller measures.
pub open spec fn depth_measure(depth: nat) -> int {
    if depth <= max_depth() + 1 {
        2 * (max_depth() + 1 - depth)
    } else {
        0
    }
}

/// The TypeScript type of a JSON schema at the given nesting depth.
pub open spec fn ts_type(v: JsonValue, depth: nat) -> Seq<char>
    decreases depth_measure(depth) + 1, 0nat,
{
    if depth > max_depth() {
        "any"@
    } else {
        match v {
            JsonValue::Object(map) => {
                let m = map@;
                match lookup(m, "type"@) {
                    Some(type_val) => {
                        match type_val {
                            JsonValue::Str(t) => {
                                if t@ == "string"@ {
                                    match lookup(m, "enum"@) {
                                        Some(JsonValue::Array(a)) => join(
                                            quoted(strings_of(a@)),
                                            " | "@,
                                        ),
                                        _ => "string"@,
                                    }
                                } else if t@ == "number"@ || t@ == "integer"@ {
                                    "number"@
                                } else if t@ == "boolean"@ {
                                    "boolean"@
                                } else if t@ == "null"@ {
                                    "null"@
                                } else if t@ == "array"@ {
                                    match lookup(m, "items"@) {
                                        Some(items) => "Array<"@ + ts_type(items, depth + 1)
                                            + ">"@,
                                        None => "Array<any>"@,
                                    }
                                } else if t@ == "object"@ {
                                    match lookup(m, "properties"@) {
                                        Some(JsonValue::Object(props)) => "{ "@ + join(
                                            ts_fields(props@, required_names(m), depth + 1),
                                            "; "@,
                                        ) + " }"@,
                                        _ => "Record<string, any>"@,
                                    }
                                } else {
                                    "any"@
                                }
                            },
                            _ => "any"@,
                        }
                    },
                    None => {
                        match lookup(m, "oneOf"@) {
                            Some(one_of) => match one_of {
                                JsonValue::Array(a) => join(ts_types(a@, depth + 1), " | "@),
                                _ => "any"@,
                            },
                            None => match lookup(m, "anyOf"@) {
                                Some(any_of) => match any_of {
                                    JsonValue::Array(a) => join(ts_types(a@, depth + 1), " | "@),
                                    _ => "any"@,
                                },
                                None => match lookup(m, "allOf"@) {
                                    Some(all_of) => match all_of {
                                        JsonValue::Array(a) => join(
                                            ts_types(a@, depth + 1),
                                            " & "@,
                                        ),
                                        _ => "any"@,
                                    },
                                    None => "any"@,
                                },
                            },
                        }
                    },
                }
            },
            _ => "any"@,
        }
    }
}

/// The TypeScript types of the schemas in `items`, each at `depth`.
pub open spec fn ts_types(items: Seq<JsonValue>, depth: nat) -> Seq<Seq<char>>
    decreases depth_measure(depth) + 2, items.len(),
{
    if items.len() == 0 {
        seq![]
    } else {
        ts_types(items.drop_last(), depth).push(ts_type(items.last(), depth))
    }
}

/// The fields of an object type, in the order of its properties.
pub open spec fn ts_fields(props: Seq<(String, JsonValue)>, required: Seq<Seq<char>>, depth: nat) -> Seq<
    Seq<char>,
>
    decreases depth_measure(depth) + 2, props.len(),
{
    if props.len() == 0 {
        seq![]
    } else {
        ts_fields(props.drop_last(), required, depth).push(
            sanitized(props.last().0@) + (if required.contains(props.last().0@) {
                ""@
            } else {
                "?"@
            }) + ": "@ + ts_type(props.last().1, depth),
        )
    }
}

/// The value stored under `key`, looked up in an object's entries.
fn lookup_entry<'a>(entries: &'a Vec<(String, JsonValue)>, key: &str) -> (r: Option<&'a JsonValue>)
    ensures
        match lookup(entries@, key@) {
            Some(v) => r matches Some(x) && *x == v,
            None => r is None,
        },
{
    let mut i: usize = 0;
    assert(entries@.skip(0) =~= entries@);
    while i < entries.len()
        invariant
            i <= entries@.len(),
            lookup(entries@, key@) == lookup(entries@.skip(i as int), key@),
        decreases entries@.len() - i,
    {
        assert(entries@.skip(i as int)[0] == entries@[i as int]);
        assert(entries@.skip(i as int).drop_first() =~= entries@.skip(i + 1));
        if str_eq(entries[i].0.as_str(), key) {
            return Some(&entries[i].1);
        }
        i = i + 1;
    }
    None
}

fn strings_in(items: &Vec<JsonValue>) -> (r: Vec<Vec<char>>)
    ensures
        r@.map_values(|x: Vec<char>| x@) == strings_of(items@),
{
    let mut r: Vec<Vec<char>> = Vec::new();
    let mut i: usize = 0;
    while i < items.len()
        invariant
            i <= items@.len(),
            r@.map_values(|x: Vec<char>| x@) == strings_of(items@.take(i as int)),
        decreases items@.len() - i,
    {
        assert(items@.take(i + 1).drop_last() =~= items@.take(i as int));
        let ghost before = r@;
        match &items[i] {
            JsonValue::Str(s) => {
                r.push(chars_of(s.as_str()));
                assert(r@.map_values(|x: Vec<char>| x@) =~= before.map_values(|x: Vec<char>| x@).push(
                    s@,
                ));
            },
            _ => {},
        }
        i = i + 1;
    }
    assert(items@.take(items@.len() as int) =~= items@);
    r
}

/// Joins the parts with `sep` between neighbours.
fn join_parts(parts: &Vec<Vec<char>>, sep: &str) -> (r: Vec<char>)
    ensures
        r@ == join(parts@.map_values(|x: Vec<char>| x@), sep@),
{
    let ghost ps = parts@.map_values(|x: Vec<char>| x@);
    let mut r: Vec<char> = Vec::new();
    let mut i: usize = 0;
    while i < parts.len()
        invariant
            i <= parts@.len(),
            ps == parts@.map_values(|x: Vec<char>| x@),
            r@ == join(ps.take(i as int), sep@),
        decreases parts@.len() - i,
    {
        assert(ps.take(i + 1).drop_last() =~= ps.take(i as int));
        assert(ps.take(i + 1).last() == parts@[i as int]@);
        if i > 0 {
            extend_str(&mut r, sep);
        } else {
            assert(ps.take(1).len() == 1);
        }
        extend_chars(&mut r, parts[i].as_slice());
        i = i + 1;
    }
    assert(ps.take(parts@.len() as int) =~= ps);
    r
}

fn quote_all(parts: &Vec<Vec<char>>) -> (r: Vec<Vec<char>>)
    ensures
        r@.map_values(|x: Vec<char>| x@) == quoted(parts@.map_values(|x: Vec<char>| x@)),
{
    let mut r: Vec<Vec<char>> = Vec::new();
    let mut i: usize = 0;
    while i < parts.len()
        invariant
            i <= parts@.len(),
            r@.len() == i,
            forall|j: int| 0 <= j < i ==> r@[j]@ == "\""@ + parts@[j]@ + "\""@,
        decreases parts@.len() - i,
    {
        let mut q: Vec<char> = Vec::new();
        extend_str(&mut q, "\"");
        extend_chars(&mut q, parts[i].as_slice());
        extend_str(&mut q, "\"");
        r.push(q);
        i = i + 1;
    }
    assert(r@.map_values(|x: Vec<char>| x@) =~= quoted(parts@.map_values(|x: Vec<char>| x@)));
    r
}

fn contains_name(names: &Vec<Vec<char>>, key: &Vec<char>) -> (r: bool)
    ensures
        r == names@.map_values(|x: Vec<char>| x@).contains(key@),
{
    let ghost ns = names@.map_values(|x: Vec<char>| x@);
    let mut i: usize = 0;
    while i < names.len()
        invariant
            i <= names@.len(),
            ns == names@.map_values(|x: Vec<char>| x@),
            forall|j: int| 0 <= j < i ==> ns[j] != key@,
        decreases names@.len() - i,
    {
        if crate::text::chars_eq(names[i].as_slice(), key.as_slice()) {
            assert(ns[i as int] == key@);
            return true;
        }
        i = i + 1;
    }
    false
}

fn lit(s: &str) -> (r: Vec<char>)
    ensures
        r@ == s@,
{
    chars_of(s)
}

/// The TypeScript type of each schema in `items` at `depth`.
fn types_of(items: &Vec<JsonValue>, depth: usize) -> (r: Vec<Vec<char>>)
    requires
        depth <= max_depth() + 1,
    ensures
        r@.map_values(|x: Vec<char>| x@) == ts_types(items@, depth as nat),
    decreases depth_measure(depth as nat) + 2, 0nat,
{
    let mut r: Vec<Vec<char>> = Vec::new();
    let mut i: usize = 0;
    while i < items.len()
        invariant
            i <= items@.len(),
            depth <= max_depth() + 1,
            r@.map_values(|x: Vec<char>| x@) == ts_types(items@.take(i as int), depth as nat),
        decreases items@.len() - i,
    {
        assert(items@.take(i + 1).drop_last() =~= items@.take(i as int));
        let t = type_of(&items[i], depth);
        let ghost before = r@;
        r.push(t);
        assert(r@.map_values(|x: Vec<char>| x@) =~= before.map_values(|x: Vec<char>| x@).push(
            ts_type(items@[i as int], depth as nat),
        ));
        i = i + 1;
    }
    assert(items@.take(items@.len() as int) =~= items@);
    r
}

/// The fields of an object type.
fn fields_of(props: &Vec<(String, JsonValue)>, required: &Vec<Vec<char>>, depth: usize) -> (r: Vec<
    Vec<char>,
>)
    requires
        depth <= max_depth() + 1,
    ensures
        r@.map_values(|x: Vec<char>| x@) == ts_fields(
            props@,
            required@.map_values(|x: Vec<char>| x@),
            depth as nat,
        ),
    decreases depth_measure(depth as nat) + 2, 0nat,
{
    let ghost req = required@.map_values(|x: Vec<char>| x@);
    let mut r: Vec<Vec<char>> = Vec::new();
    let mut i: usize = 0;
    while i < props.len()
        invariant
            i <= props@.len(),
            depth <= max_depth() + 1,
            req == required@.map_values(|x: Vec<char>| x@),
            r@.map_values(|x: Vec<char>| x@) == ts_fields(props@.take(i as int), req, depth as nat),
        decreases props@.len() - i,
    {
        assert(props@.take(i + 1).drop_last() =~= props@.take(i as int));
        assert(props@.take(i + 1).last() == props@[i as int]);
        let key = &props[i].0;
        let key_chars = chars_of(key.as_str());
        let mut f = chars_of(sanitize_identifier(key.as_str()).as_str());
        if !contains_name(required, &key_chars) {
            extend_str(&mut f, "?");
        }
        extend_str(&mut f, ": ");
        let t = type_of(&props[i].1, depth);
        extend_chars(&mut f, t.as_slice());
        let ghost before = r@;
        r.push(f);
        proof {
            reveal_strlit("");
            let fld = sanitized(key@) + (if req.contains(key@) {
                ""@
            } else {
                "?"@
            }) + ": "@ + ts_type(props@[i as int].1, depth as nat);
            assert(f@ =~= fld);
            assert(r@.map_values(|x: Vec<char>| x@) =~= before.map_values(|x: Vec<char>| x@).push(
                fld,
            ));
        }
        i = i + 1;
    }
    assert(props@.take(props@.len() as int) =~= props@);
    r
}

/// The TypeScript type of one schema.
fn type_of(v: &JsonValue, depth: usize) -> (r: Vec<char>)
    requires
        depth <= max_depth() + 1,
    ensures
        r@ == ts_type(*v, depth as nat),
    decreases depth_measure(depth as nat) + 1, 0nat,
{
    if depth > 10 {
        return lit("any");
    }
    match v {
        JsonValue::Object(map) => {
            match lookup_entry(map, "type") {
                Some(type_val) => {
                    match type_val {
                        JsonValue::Str(t) => {
                            let t = t.as_str();
                            if str_eq(t, "string") {
                                match lookup_entry(map, "enum") {
                                    Some(JsonValue::Array(a)) => {
                                        let names = strings_in(a);
                                        let q = quote_all(&names);
                                        join_parts(&q, " | ")
                                    },
                                    _ => lit("string"),
                                }
                            } else if str_eq(t, "number") || str_eq(t, "integer") {
                                lit("number")
                            } else if str_eq(t, "boolean") {
                                lit("boolean")
                            } else if str_eq(t, "null") {
                                lit("null")
                            } else if str_eq(t, "array") {
                                match lookup_entry(map, "items") {
                                    Some(items) => {
                                        let inner = type_of(items, depth + 1);
                                        let mut out = lit("Array<");
                                        extend_chars(&mut out, inner.as_slice());
                                        extend_str(&mut out, ">");
                                        out
                                    },
                                    None => lit("Array<any>"),
                                }
                            } else if str_eq(t, "object") {
                                match lookup_entry(map, "properties") {
                                    Some(JsonValue::Object(props)) => {
                                        let required: Vec<Vec<char>> = match lookup_entry(
                                            map,
                                            "required",
                                        ) {
                                            Some(JsonValue::Array(a)) => {
                                                let r = strings_in(a);
                                                assert(r@.map_values(|x: Vec<char>| x@)
                                                    =~= required_names(map@));
                                                r
                                            },
                                            _ => {
                                                let r: Vec<Vec<char>> = Vec::new();
                                                assert(r@.map_values(|x: Vec<char>| x@)
                                                    =~= required_names(map@));
                                                r
                                            },
                                        };
                                        let fields = fields_of(props, &required, depth + 1);
                                        let joined = join_parts(&fields, "; ");
                                        let mut out = lit("{ ");
                                        extend_chars(&mut out, joined.as_slice());
                                        extend_str(&mut out, " }");
                                        out
                                    },
                                    _ => lit("Record<string, any>"),
                                }
                            } else {
                                lit("any")
                            }
                        },
                        _ => lit("any"),
                    }
                },
                None => {
                    match lookup_entry(map, "oneOf") {
                        Some(one_of) => match one_of {
                            JsonValue::Array(a) => {
                                let ts = types_of(a, depth + 1);
                                join_parts(&ts, " | ")
                            },
                            _ => lit("any"),
                        },
                        None => match lookup_entry(map, "anyOf") {
                            Some(any_of) => match any_of {
                                JsonValue::Array(a) => {
                                    let ts = types_of(a, depth + 1);
                                    join_parts(&ts, " | ")
                                },
                                _ => lit("any"),
                            },
                            None => match lookup_entry(map, "allOf") {
                                Some(all_of) => match all_of {
                                    JsonValue::Array(a) => {
                                        let ts = types_of(a, depth + 1);
                                        join_parts(&ts, " & ")
                                    },
                                    _ => lit("any"),
                                },
                                None => lit("any"),
                            },
                        },
                    }
                },
            }
        },
        _ => lit("any"),
    }
}

/// Recursively convert a JSON Schema to a TypeScript type string. Schemas nested
/// deeper than ten levels are typed `any`.
pub fn json_schema_to_typescript(value: &JsonValue, depth: usize) -> (r: Result<String, SchemaError>)
    ensures
        r matches Ok(s) && s@ == ts_type(*value, depth as nat),
{
    if depth > 10 {
        return Ok(string_of(lit("any").as_slice()));
    }
    let v = type_of(value, depth);
    Ok(string_of(v.as_slice()))
}

/// The TypeScript type of a function's parameter or result schema.
pub fn convert_schema_to_typescript_type(schema: &JsonValue) -> (r: Result<String, SchemaError>)
    ensures
        r matches Ok(s) && s@ == ts_type(*schema, 0),
{
    json_schema_to_typescript(schema, 0)
}

/// `anyOf` is a union: an object schema without `type` and `oneOf` whose `anyOf`
/// lists alternatives is typed as the alternatives' types joined by `" | "`, so a
/// value of any one alternative is assignable to it.
pub proof fn law_any_of_is_a_union(map: Vec<(String, JsonValue)>, alts: Vec<JsonValue>, depth: nat)
    requires
        depth <= max_depth(),
        lookup(map@, "type"@) is None,
        lookup(map@, "oneOf"@) is None,
        lookup(map@, "anyOf"@) == Some(JsonValue::Array(alts)),
    ensures
        ts_type(JsonValue::Object(map), depth) == join(ts_types(alts@, depth + 1), " | "@),
{
}

/// `anyOf` and `oneOf` give the same type for the same alternatives (both are
/// unions), while `allOf` is their intersection, joined by `" & "`.
pub proof fn law_any_of_types_as_one_of(
    any: Vec<(String, JsonValue)>,
    one: Vec<(String, JsonValue)>,
    all: Vec<(String, JsonValue)>,
    alts: Vec<JsonValue>,
    depth: nat,
)
    requires
        depth <= max_depth(),
        lookup(any@, "type"@) is None,
        lookup(any@, "oneOf"@) is None,
        lookup(any@, "anyOf"@) == Some(JsonValue::Array(alts)),
        lookup(one@, "type"@) is None,
        lookup(one@, "oneOf"@) == Some(JsonValue::Array(alts)),
        lookup(all@, "type"@) is None,
        lookup(all@, "oneOf"@) is None,
        lookup(all@, "anyOf"@) is None,
        lookup(all@, "allOf"@) == Some(JsonValue::Array(alts)),
    ensures
        ts_type(JsonValue::Object(any), depth) == ts_type(JsonValue::Object(one), depth),
        ts_type(JsonValue::Object(all), depth) == join(ts_types(alts@, depth + 1), " & "@),
{
}

/// How a schema with a `type` is typed: `string` (or, with an `enum`, the union
/// of its quoted values), `number` for numbers and integers, `boolean`, `null`,
/// `Array<T>` of its items' type (`Array<any>` without `items`), an object type
/// of its properties' fields (a `Record<string, any>` without properties), and
/// `any` for other types.
pub proof fn law_typed_schemas(map: Vec<(String, JsonValue)>, t: String, depth: nat)
    requires
        depth <= max_depth(),
        lookup(map@, "type"@) == Some(JsonValue::Str(t)),
    ensures
        t@ == "string"@ && !(lookup(map@, "enum"@) matches Some(JsonValue::Array(_))) ==> ts_type(
            JsonValue::Object(map),
            depth,
        ) == "string"@,
        t@ == "string"@ ==> (lookup(map@, "enum"@) matches Some(JsonValue::Array(a)) ==> ts_type(
            JsonValue::Object(map),
            depth,
        ) == join(strings_of(a@).map_values(|v: Seq<char>| "\""@ + v + "\""@), " | "@)),
        (t@ == "number"@ || t@ == "integer"@) ==> ts_type(JsonValue::Object(map), depth) == "number"@,
        t@ == "boolean"@ ==> ts_type(JsonValue::Object(map), depth) == "boolean"@,
        t@ == "null"@ ==> ts_type(JsonValue::Object(map), depth) == "null"@,
        t@ == "array"@ ==> (lookup(map@, "items"@) matches Some(items) ==> ts_type(
            JsonValue::Object(map),
            depth,
        ) == "Array<"@ + ts_type(items, depth + 1) + ">"@),
        t@ == "array"@ && lookup(map@, "items"@) is None ==> ts_type(JsonValue::Object(map), depth)
            == "Array<any>"@,
        t@ == "object"@ ==> (lookup(map@, "properties"@) matches Some(JsonValue::Object(props)) ==> ts_type(
            JsonValue::Object(map),
            depth,
        ) == "{ "@ + join(ts_fields(props@, required_names(map@), depth + 1), "; "@) + " }"@),
        t@ == "object"@ && !(lookup(map@, "properties"@) matches Some(JsonValue::Object(_))) ==> ts_type(
            JsonValue::Object(map),
            depth,
        ) == "Record<string, any>"@,
        !(t@ == "string"@ || t@ == "number"@ || t@ == "integer"@ || t@ == "boolean"@ || t@ == "null"@
            || t@ == "array"@ || t@ == "object"@) ==> ts_type(JsonValue::Object(map), depth) == "any"@,
{
    reveal_strlit("string");
    reveal_strlit("number");
    reveal_strlit("integer");
    reveal_strlit("boolean");
    reveal_strlit("null");
    reveal_strlit("array");
    reveal_strlit("object");
    assert("number"@[0] != "string"@[0]);
    assert("object"@[0] != "string"@[0]);
    assert("object"@[0] != "number"@[0]);
    assert("boolean"@[0] != "integer"@[0]);
    if t@ == "string"@ {
        if let Some(JsonValue::Array(a)) = lookup(map@, "enum"@) {
            assert(quoted(strings_of(a@)) =~= strings_of(a@).map_values(|v: Seq<char>| "\""@ + v + "\""@));
        }
    }
}

/// The fields of an object type, one per property in order: the sanitized
/// property name, `?` when the property is not required, `: ` and its type.
pub proof fn law_object_fields(props: Seq<(String, JsonValue)>, required: Seq<Seq<char>>, depth: nat)
    ensures
        ts_fields(props, required, depth).len() == props.len(),
        forall|i: int|
            0 <= i < props.len() ==> #[trigger] ts_fields(props, required, depth)[i] == sanitized(props[i].0@)
                + (if required.contains(props[i].0@) {
                ""@
            } else {
                "?"@
            }) + ": "@ + ts_type(props[i].1, depth),
    decreases props.len(),
{
    if props.len() > 0 {
        let d = props.drop_last();
        law_object_fields(d, required, depth);
        assert forall|i: int| 0 <= i < props.len() implies #[trigger] ts_fields(props, required, depth)[i]
            == sanitized(props[i].0@) + (if required.contains(props[i].0@) {
            ""@
        } else {
            "?"@
        }) + ": "@ + ts_type(props[i].1, depth) by {
            if i < props.len() - 1 {
                assert(d[i] == props[i]);
                assert(ts_fields(d, required, depth)[i] == sanitized(d[i].0@) + (if required.contains(d[i].0@) {
                    ""@
                } else {
                    "?"@
                }) + ": "@ + ts_type(d[i].1, depth));
            }
        }
    }
}

/// The types of a list of alternatives, one per alternative in order.
pub proof fn law_alternative_types(items: Seq<JsonValue>, depth: nat)
    ensures
        ts_types(items, depth).len() == items.len(),
        forall|i: int| 0 <= i < items.len() ==> #[trigger] ts_types(items, depth)[i] == ts_type(items[i], depth),
    decreases items.len(),
{
    if items.len() > 0 {
        let d = items.drop_last();
        law_alternative_types(d, depth);
        assert forall|i: int| 0 <= i < items.len() implies #[trigger] ts_types(items, depth)[i] == ts_type(
            items[i],
            depth,
        ) by {
            if i < items.len() - 1 {
                assert(d[i] == items[i]);
                assert(ts_types(d, depth)[i] == ts_type(d[i], depth));
            }
        }
    }
}

} // verus!
