//! Keeping the encryption section of `soma.yaml` in step with encryption key
//! events: which envelope keys and data encryption keys (DEKs) to add, rename or
//! remove in the file. DEKs are stored in the file under their alias once they
//! have one, and under their id before.
use vstd::prelude::*;
use crate::sync::texts;
use crate::text::str_eq;

verus! {

/// The DEK names that `soma.yaml` holds under one envelope key (`None` when the
/// key has no DEK list).
pub struct EnvelopeKeyDeks {
    pub envelope_key_id: String,
    pub deks: Option<Vec<String>>,
}

/// An envelope encryption key: one held in AWS KMS or a local key file.
#[derive(Debug, PartialEq, Eq)]
pub enum EnvelopeKeySpec {
    AwsKms { arn: String, region: String },
    Local { file_name: String },
}

/// The id of an envelope key in `soma.yaml`: its ARN or its file name.
pub open spec fn envelope_key_id(spec: EnvelopeKeySpec) -> Seq<char> {
    match spec {
        EnvelopeKeySpec::AwsKms { arn, .. } => arn@,
        EnvelopeKeySpec::Local { file_name } => file_name@,
    }
}

/// An encryption key event.
pub enum DekEvent {
    EnvelopeKeyAdded { key: EnvelopeKeySpec },
    EnvelopeKeyRemoved { envelope_key_id: String },
    DekAdded { dek_id: String },
    DekRemoved { dek_id: String },
    DekMigrated {
        old_dek_id: String,
        new_dek_id: String,
        from_envelope_key_id: String,
        to_envelope_key_id: String,
        aliases: Vec<String>,
    },
    AliasAdded { alias: String, dek_id: String, envelope_key_id: String, encrypted_key: String },
    AliasRemoved { alias: String },
    AliasUpdated { alias: String, dek_id: String, envelope_key_id: String, encrypted_key: String },
}

/// A change to the encryption section of `soma.yaml`.
#[derive(Debug, PartialEq, Eq)]
pub enum YamlDekOp {
    AddEnvelopeKey { key: EnvelopeKeySpec },
    RemoveEnvelopeKey { envelope_key_id: String },
    RemoveDek { envelope_key_id: String, name: String },
    RenameDek { envelope_key_id: String, from: String, to: String },
    AddDek { envelope_key_id: String, name: String, encrypted_key: String },
}

/// What a change stands for, over plain values.
pub enum DekOpView {
    AddEnvelopeKey(EnvelopeKeySpec),
    RemoveEnvelopeKey(Seq<char>),
    RemoveDek(Seq<char>, Seq<char>),
    RenameDek(Seq<char>, Seq<char>, Seq<char>),
    AddDek(Seq<char>, Seq<char>, Seq<char>),
}

pub open spec fn dek_op_view(op: YamlDekOp) -> DekOpView {
    match op {
        YamlDekOp::AddEnvelopeKey { key } => DekOpView::AddEnvelopeKey(key),
        YamlDekOp::RemoveEnvelopeKey { envelope_key_id } => DekOpView::RemoveEnvelopeKey(envelope_key_id@),
        YamlDekOp::RemoveDek { envelope_key_id, name } => DekOpView::RemoveDek(envelope_key_id@, name@),
        YamlDekOp::RenameDek { envelope_key_id, from, to } => DekOpView::RenameDek(
            envelope_key_id@,
            from@,
            to@,
        ),
        YamlDekOp::AddDek { envelope_key_id, name, encrypted_key } => DekOpView::AddDek(
            envelope_key_id@,
            name@,
            encrypted_key@,
        ),
    }
}

pub open spec fn ops_view(ops: Seq<YamlDekOp>) -> Seq<DekOpView> {
    ops.map_values(|op: YamlDekOp| dek_op_view(op))
}

/// The DEK names of an entry, if it has a list.
pub open spec fn entry_deks(e: EnvelopeKeyDeks) -> Option<Seq<Seq<char>>> {
    match e.deks {
        Some(d) => Some(texts(d@)),
        None => None,
    }
}

/// The DEK names under envelope key `key` (the first entry of that id), if the
/// file has the key and it has a DEK list.
pub open spec fn deks_of(entries: Seq<EnvelopeKeyDeks>, key: Seq<char>) -> Option<Seq<Seq<char>>>
    decreases entries.len(),
{
    if entries.len() == 0 {
        None
    } else if entries[0].envelope_key_id@ == key {
        entry_deks(entries[0])
    } else {
        deks_of(entries.drop_first(), key)
    }
}

/// The first of `aliases` that `deks` holds.
pub open spec fn first_held(aliases: Seq<Seq<char>>, deks: Seq<Seq<char>>) -> Option<Seq<char>>
    decreases aliases.len(),
{
    if aliases.len() == 0 {
        None
    } else if deks.contains(aliases[0]) {
        Some(aliases[0])
    } else {
        first_held(aliases.drop_first(), deks)
    }
}

/// The first entry whose DEK list holds `alias`.
pub open spec fn first_holding(entries: Seq<EnvelopeKeyDeks>, alias: Seq<char>) -> Option<
    EnvelopeKeyDeks,
>
    decreases entries.len(),
{
    if entries.len() == 0 {
        None
    } else if entry_deks(entries[0]) matches Some(d) && d.contains(alias) {
        Some(entries[0])
    } else {
        first_holding(entries.drop_first(), alias)
    }
}

/// A migrated DEK: it leaves the source envelope key (under its id, or else under
/// the first of its aliases found there), and in the target envelope key it is
/// renamed from its new id to its first alias.
pub open spec fn migration_ops(
    entries: Seq<EnvelopeKeyDeks>,
    old_dek_id: Seq<char>,
    new_dek_id: Seq<char>,
    from: Seq<char>,
    to: Seq<char>,
    aliases: Seq<Seq<char>>,
) -> Seq<DekOpView> {
    let leave = match deks_of(entries, from) {
        Some(d) => if d.contains(old_dek_id) {
            seq![DekOpView::RemoveDek(from, old_dek_id)]
        } else {
            match first_held(aliases, d) {
                Some(a) => seq![DekOpView::RemoveDek(from, a)],
                None => seq![],
            }
        },
        None => seq![],
    };
    let arrive = match deks_of(entries, to) {
        Some(d) => if d.contains(new_dek_id) && aliases.len() > 0 {
            seq![DekOpView::RenameDek(to, new_dek_id, aliases[0])]
        } else {
            seq![]
        },
        None => seq![],
    };
    leave + arrive
}

/// A new alias of a DEK: a DEK stored under its id is renamed to the alias; one
/// stored under neither is added under the alias.
pub open spec fn alias_added_ops(
    entries: Seq<EnvelopeKeyDeks>,
    alias: Seq<char>,
    dek_id: Seq<char>,
    key: Seq<char>,
    encrypted_key: Seq<char>,
) -> Seq<DekOpView> {
    match deks_of(entries, key) {
        Some(d) => if d.contains(dek_id) || d.contains(alias) {
            if d.contains(dek_id) && !d.contains(alias) {
                seq![DekOpView::RenameDek(key, dek_id, alias)]
            } else {
                seq![]
            }
        } else {
            seq![DekOpView::AddDek(key, alias, encrypted_key)]
        },
        None => seq![DekOpView::AddDek(key, alias, encrypted_key)],
    }
}

/// An alias that now names another DEK: an entry under the alias is removed; a
/// DEK stored under its id is renamed to the alias; otherwise the DEK is added
/// under the alias.
pub open spec fn alias_updated_ops(
    entries: Seq<EnvelopeKeyDeks>,
    alias: Seq<char>,
    dek_id: Seq<char>,
    key: Seq<char>,
    encrypted_key: Seq<char>,
) -> Seq<DekOpView> {
    match deks_of(entries, key) {
        Some(d) => {
            let remove = if d.contains(alias) {
                seq![DekOpView::RemoveDek(key, alias)]
            } else {
                seq![]
            };
            let renamed = d.contains(dek_id) && !d.contains(alias);
            remove + if renamed {
                seq![DekOpView::RenameDek(key, dek_id, alias)]
            } else {
                seq![DekOpView::AddDek(key, alias, encrypted_key)]
            }
        },
        None => seq![DekOpView::AddDek(key, alias, encrypted_key)],
    }
}

/// The changes to `soma.yaml` for an event, given the envelope keys and DEK
/// names the file holds (`None` when it has no envelope key list). Adding or
/// removing a DEK changes nothing: DEKs follow their aliases.
pub open spec fn dek_event_plan(yaml: Option<Seq<EnvelopeKeyDeks>>, event: DekEvent) -> Seq<DekOpView> {
    let entries = match yaml {
        Some(e) => e,
        None => seq![],
    };
    match event {
        DekEvent::EnvelopeKeyAdded { key } => seq![DekOpView::AddEnvelopeKey(key)],
        DekEvent::EnvelopeKeyRemoved { envelope_key_id } => seq![
            DekOpView::RemoveEnvelopeKey(envelope_key_id@),
        ],
        DekEvent::DekAdded { .. } => seq![],
        DekEvent::DekRemoved { .. } => seq![],
        DekEvent::DekMigrated { old_dek_id, new_dek_id, from_envelope_key_id, to_envelope_key_id, aliases } =>
            migration_ops(
            entries,
            old_dek_id@,
            new_dek_id@,
            from_envelope_key_id@,
            to_envelope_key_id@,
            texts(aliases@),
        ),
        DekEvent::AliasAdded { alias, dek_id, envelope_key_id, encrypted_key } => alias_added_ops(
            entries,
            alias@,
            dek_id@,
            envelope_key_id@,
            encrypted_key@,
        ),
        DekEvent::AliasRemoved { alias } => match first_holding(entries, alias@) {
            Some(e) => seq![DekOpView::RemoveDek(e.envelope_key_id@, alias@)],
            None => seq![],
        },
        DekEvent::AliasUpdated { alias, dek_id, envelope_key_id, encrypted_key } => alias_updated_ops(
            entries,
            alias@,
            dek_id@,
            envelope_key_id@,
            encrypted_key@,
        ),
    }
}

fn copy_key(k: &EnvelopeKeySpec) -> (r: EnvelopeKeySpec)
    ensures
        r == *k,
{
    match k {
        EnvelopeKeySpec::AwsKms { arn, region } => EnvelopeKeySpec::AwsKms {
            arn: arn.clone(),
            region: region.clone(),
        },
        EnvelopeKeySpec::Local { file_name } => EnvelopeKeySpec::Local { file_name: file_name.clone() },
    }
}

fn owned(s: &String) -> (r: String)
    ensures
        r@ == s@,
{
    s.clone()
}

fn holds(v: &Vec<String>, s: &String) -> (r: bool)
    ensures
        r == texts(v@).contains(s@),
{
    crate::sync::contains_text(v, s.as_str())
}

/// The DEK list under envelope key `key`, if any.
fn find_deks<'a>(entries: &'a Vec<EnvelopeKeyDeks>, key: &String) -> (r: Option<&'a Vec<String>>)
    ensures
        match deks_of(entries@, key@) {
            None => r is None,
            Some(d) => r matches Some(v) && texts(v@) == d,
        },
{
    let mut i: usize = 0;
    assert(entries@.skip(0) =~= entries@);
    while i < entries.len()
        invariant
            i <= entries@.len(),
            deks_of(entries@, key@) == deks_of(entries@.skip(i as int), key@),
        decreases entries@.len() - i,
    {
        assert(entries@.skip(i as int)[0] == entries@[i as int]);
        assert(entries@.skip(i as int).drop_first() =~= entries@.skip(i + 1));
        if str_eq(entries[i].envelope_key_id.as_str(), key.as_str()) {
            return match &entries[i].deks {
                Some(d) => Some(d),
                None => None,
            };
        }
        i = i + 1;
    }
    None
}

fn find_first_held(aliases: &Vec<String>, deks: &Vec<String>) -> (r: Option<usize>)
    ensures
        match first_held(texts(aliases@), texts(deks@)) {
            None => r is None,
            Some(a) => r matches Some(i) && i < aliases@.len() && aliases@[i as int]@ == a,
        },
{
    let mut i: usize = 0;
    assert(texts(aliases@).skip(0) =~= texts(aliases@));
    while i < aliases.len()
        invariant
            i <= aliases@.len(),
            first_held(texts(aliases@), texts(deks@)) == first_held(texts(aliases@).skip(i as int), texts(deks@)),
        decreases aliases@.len() - i,
    {
        assert(texts(aliases@).skip(i as int)[0] == aliases@[i as int]@);
        assert(texts(aliases@).skip(i as int).drop_first() =~= texts(aliases@).skip(i + 1));
        if holds(deks, &aliases[i]) {
            return Some(i);
        }
        i = i + 1;
    }
    None
}

fn find_first_holding(entries: &Vec<EnvelopeKeyDeks>, alias: &String) -> (r: Option<usize>)
    ensures
        match first_holding(entries@, alias@) {
            None => r is None,
            Some(e) => r matches Some(i) && i < entries@.len() && entries@[i as int] == e,
        },
{
    let mut i: usize = 0;
    assert(entries@.skip(0) =~= entries@);
    while i < entries.len()
        invariant
            i <= entries@.len(),
            first_holding(entries@, alias@) == first_holding(entries@.skip(i as int), alias@),
        decreases entries@.len() - i,
    {
        assert(entries@.skip(i as int)[0] == entries@[i as int]);
        assert(entries@.skip(i as int).drop_first() =~= entries@.skip(i + 1));
        let found = match &entries[i].deks {
            Some(d) => holds(d, alias),
            None => false,
        };
        if found {
            return Some(i);
        }
        i = i + 1;
    }
    None
}

/// The changes to make to `soma.yaml` for an encryption key event, given the
/// envelope keys and DEK names that the file holds (`None` when it has no
/// envelope key list).
pub fn dek_event_ops(yaml: &Option<Vec<EnvelopeKeyDeks>>, event: &DekEvent) -> (r: Vec<YamlDekOp>)
    ensures
        ops_view(r@) == dek_event_plan(
            match yaml {
                Some(e) => Some(e@),
                None => None,
            },
            *event,
        ),
{
    let empty: Vec<EnvelopeKeyDeks> = Vec::new();
    let entries: &Vec<EnvelopeKeyDeks> = match yaml {
        Some(e) => e,
        None => &empty,
    };
    let mut r: Vec<YamlDekOp> = Vec::new();
    match event {
        DekEvent::EnvelopeKeyAdded { key } => {
            r.push(YamlDekOp::AddEnvelopeKey { key: copy_key(key) });
            assert(ops_view(r@) =~= seq![DekOpView::AddEnvelopeKey(*key)]);
        },
        DekEvent::EnvelopeKeyRemoved { envelope_key_id } => {
            r.push(YamlDekOp::RemoveEnvelopeKey { envelope_key_id: owned(envelope_key_id) });
            assert(ops_view(r@) =~= seq![DekOpView::RemoveEnvelopeKey(envelope_key_id@)]);
        },
        DekEvent::DekAdded { .. } => {
            assert(ops_view(r@) =~= seq![]);
        },
        DekEvent::DekRemoved { .. } => {
            assert(ops_view(r@) =~= seq![]);
        },
        DekEvent::DekMigrated { old_dek_id, new_dek_id, from_envelope_key_id, to_envelope_key_id, aliases } => {
            match find_deks(entries, from_envelope_key_id) {
                Some(d) => {
                    if holds(d, old_dek_id) {
                        r.push(
                            YamlDekOp::RemoveDek {
                                envelope_key_id: owned(from_envelope_key_id),
                                name: owned(old_dek_id),
                            },
                        );
                    } else {
                        match find_first_held(aliases, d) {
                            Some(i) => {
                                r.push(
                                    YamlDekOp::RemoveDek {
                                        envelope_key_id: owned(from_envelope_key_id),
                                        name: owned(&aliases[i]),
                                    },
                                );
                            },
                            None => {},
                        }
                    }
                },
                None => {},
            }
            let ghost leave = ops_view(r@);
            match find_deks(entries, to_envelope_key_id) {
                Some(d) => {
                    if holds(d, new_dek_id) && aliases.len() > 0 {
                        r.push(
                            YamlDekOp::RenameDek {
                                envelope_key_id: owned(to_envelope_key_id),
                                from: owned(new_dek_id),
                                to: owned(&aliases[0]),
                            },
                        );
                        assert(ops_view(r@) =~= leave + seq![
                            DekOpView::RenameDek(to_envelope_key_id@, new_dek_id@, aliases@[0]@),
                        ]);
                    } else {
                        assert(ops_view(r@) =~= leave + seq![]);
                    }
                },
                None => {
                    assert(ops_view(r@) =~= leave + seq![]);
                },
            }
            assert(ops_view(r@) =~= dek_event_plan(
                match yaml {
                    Some(e) => Some(e@),
                    None => None,
                },
                *event,
            ));
        },
        DekEvent::AliasAdded { alias, dek_id, envelope_key_id, encrypted_key } => {
            let add = match find_deks(entries, envelope_key_id) {
                Some(d) => {
                    let by_id = holds(d, dek_id);
                    let by_alias = holds(d, alias);
                    if by_id || by_alias {
                        if by_id && !by_alias {
                            r.push(
                                YamlDekOp::RenameDek {
                                    envelope_key_id: owned(envelope_key_id),
                                    from: owned(dek_id),
                                    to: owned(alias),
                                },
                            );
                        }
                        false
                    } else {
                        true
                    }
                },
                None => true,
            };
            if add {
                r.push(
                    YamlDekOp::AddDek {
                        envelope_key_id: owned(envelope_key_id),
                        name: owned(alias),
                        encrypted_key: owned(encrypted_key),
                    },
                );
            }
            assert(ops_view(r@) =~= dek_event_plan(
                match yaml {
                    Some(e) => Some(e@),
                    None => None,
                },
                *event,
            ));
        },
        DekEvent::AliasRemoved { alias } => {
            match find_first_holding(entries, alias) {
                Some(i) => {
                    r.push(
                        YamlDekOp::RemoveDek {
                            envelope_key_id: owned(&entries[i].envelope_key_id),
                            name: owned(alias),
                        },
                    );
                },
                None => {},
            }
            assert(ops_view(r@) =~= dek_event_plan(
                match yaml {
                    Some(e) => Some(e@),
                    None => None,
                },
                *event,
            ));
        },
        DekEvent::AliasUpdated { alias, dek_id, envelope_key_id, encrypted_key } => {
            let add = match find_deks(entries, envelope_key_id) {
                Some(d) => {
                    let by_alias = holds(d, alias);
                    if by_alias {
                        r.push(
                            YamlDekOp::RemoveDek {
                                envelope_key_id: owned(envelope_key_id),
                                name: owned(alias),
                            },
                        );
                    }
                    if holds(d, dek_id) && !by_alias {
                        r.push(
                            YamlDekOp::RenameDek {
                                envelope_key_id: owned(envelope_key_id),
                                from: owned(dek_id),
                                to: owned(alias),
                            },
                        );
                        false
                    } else {
                        true
                    }
                },
                None => true,
            };
            if add {
                r.push(
                    YamlDekOp::AddDek {
                        envelope_key_id: owned(envelope_key_id),
                        name: owned(alias),
                        encrypted_key: owned(encrypted_key),
                    },
                );
            }
            assert(ops_view(r@) =~= dek_event_plan(
                match yaml {
                    Some(e) => Some(e@),
                    None => None,
                },
                *event,
            ));
        },
    }
    r
}

/// The DEK names under envelope key `key` after one change.
pub open spec fn names_after_op(names: Set<Seq<char>>, key: Seq<char>, op: DekOpView) -> Set<Seq<char>> {
    match op {
        DekOpView::RemoveDek(k, n) => if k == key {
            names.remove(n)
        } else {
            names
        },
        DekOpView::RenameDek(k, from, to) => if k == key && names.contains(from) {
            names.remove(from).insert(to)
        } else {
            names
        },
        DekOpView::AddDek(k, n, _) => if k == key {
            names.insert(n)
        } else {
            names
        },
        _ => names,
    }
}

/// The DEK names under envelope key `key` after the changes, in order.
pub open spec fn names_after(names: Set<Seq<char>>, key: Seq<char>, ops: Seq<DekOpView>) -> Set<Seq<char>>
    decreases ops.len(),
{
    if ops.len() == 0 {
        names
    } else {
        names_after(names_after_op(names, key, ops[0]), key, ops.drop_first())
    }
}

/// The DEK names that the file holds under `key`, as a set (none when it has no list).
pub open spec fn held_names(entries: Seq<EnvelopeKeyDeks>, key: Seq<char>) -> Set<Seq<char>> {
    match deks_of(entries, key) {
        Some(d) => d.to_set(),
        None => Set::empty(),
    }
}

proof fn lemma_names_after_one(names: Set<Seq<char>>, key: Seq<char>, op: DekOpView)
    ensures
        names_after(names, key, seq![op]) == names_after_op(names, key, op),
{
    let rest = seq![op].drop_first();
    assert(rest =~= Seq::<DekOpView>::empty());
    assert(names_after(names_after_op(names, key, op), key, rest) == names_after_op(names, key, op));
}

proof fn lemma_names_after_two(names: Set<Seq<char>>, key: Seq<char>, a: DekOpView, b: DekOpView)
    ensures
        names_after(names, key, seq![a, b]) == names_after_op(names_after_op(names, key, a), key, b),
{
    assert(seq![a, b].drop_first() =~= seq![b]);
    lemma_names_after_one(names_after_op(names, key, a), key, b);
}

/// After the changes for a new or re-pointed alias, the envelope key holds the
/// alias.
pub proof fn law_alias_is_held_after_sync(
    yaml: Option<Seq<EnvelopeKeyDeks>>,
    alias: String,
    dek_id: String,
    envelope_key_id: String,
    encrypted_key: String,
    updated: bool,
)
    ensures
        ({
            let entries = match yaml {
                Some(e) => e,
                None => seq![],
            };
            let event = if updated {
                DekEvent::AliasUpdated { alias, dek_id, envelope_key_id, encrypted_key }
            } else {
                DekEvent::AliasAdded { alias, dek_id, envelope_key_id, encrypted_key }
            };
            names_after(held_names(entries, envelope_key_id@), envelope_key_id@, dek_event_plan(yaml, event)).contains(
                alias@,
            )
        }),
{
    let entries = match yaml {
        Some(e) => e,
        None => seq![],
    };
    let key = envelope_key_id@;
    let a = alias@;
    let id = dek_id@;
    let names = held_names(entries, key);
    let add = DekOpView::AddDek(key, a, encrypted_key@);
    let rename = DekOpView::RenameDek(key, id, a);
    lemma_names_after_one(names, key, add);
    lemma_names_after_one(names, key, rename);
    match deks_of(entries, key) {
        Some(d) => {
            assert(d.contains(a) ==> names.contains(a));
            assert(d.contains(id) ==> names.contains(id));
            let remove = DekOpView::RemoveDek(key, a);
            lemma_names_after_two(names, key, remove, add);
            assert(names_after(names, key, seq![]) == names);
            if updated {
                if d.contains(a) {
                    assert(alias_updated_ops(entries, a, id, key, encrypted_key@) =~= seq![remove, add]);
                } else if d.contains(id) {
                    assert(alias_updated_ops(entries, a, id, key, encrypted_key@) =~= seq![rename]);
                } else {
                    assert(alias_updated_ops(entries, a, id, key, encrypted_key@) =~= seq![add]);
                }
            }
        },
        None => {},
    }
}

/// After the change for a removed alias, the envelope key that held it (the
/// first one, in file order) holds it no more.
pub proof fn law_removed_alias_is_gone_after_sync(yaml: Option<Seq<EnvelopeKeyDeks>>, alias: String)
    ensures
        ({
            let entries = match yaml {
                Some(e) => e,
                None => seq![],
            };
            match first_holding(entries, alias@) {
                Some(e) => !names_after(
                    entry_deks(e)->0.to_set(),
                    e.envelope_key_id@,
                    dek_event_plan(yaml, DekEvent::AliasRemoved { alias }),
                ).contains(alias@),
                None => dek_event_plan(yaml, DekEvent::AliasRemoved { alias }) == Seq::<DekOpView>::empty(),
            }
        }),
{
    let entries = match yaml {
        Some(e) => e,
        None => seq![],
    };
    match first_holding(entries, alias@) {
        Some(e) => {
            lemma_names_after_one(
                entry_deks(e)->0.to_set(),
                e.envelope_key_id@,
                DekOpView::RemoveDek(e.envelope_key_id@, alias@),
            );
        },
        None => {},
    }
}

/// After a migration, the target envelope key holds the DEK under its first
/// alias when it held it under its new id, and the source envelope key no longer
/// holds the old DEK id (for distinct source and target keys).
pub proof fn law_migrated_dek_moves(
    yaml: Option<Seq<EnvelopeKeyDeks>>,
    old_dek_id: String,
    new_dek_id: String,
    from_envelope_key_id: String,
    to_envelope_key_id: String,
    aliases: Vec<String>,
)
    requires
        from_envelope_key_id@ != to_envelope_key_id@,
    ensures
        ({
            let entries = match yaml {
                Some(e) => e,
                None => seq![],
            };
            let from = from_envelope_key_id@;
            let to = to_envelope_key_id@;
            let first_alias = aliases@[0]@;
            let old_id = old_dek_id@;
            let new_id = new_dek_id@;
            let plan = dek_event_plan(
                yaml,
                DekEvent::DekMigrated {
                    old_dek_id,
                    new_dek_id,
                    from_envelope_key_id,
                    to_envelope_key_id,
                    aliases,
                },
            );
            &&& (held_names(entries, to).contains(new_id) && aliases@.len() > 0) ==> names_after(
                held_names(entries, to),
                to,
                plan,
            ).contains(first_alias)
            &&& held_names(entries, from).contains(old_id) ==> !names_after(
                held_names(entries, from),
                from,
                plan,
            ).contains(old_id)
        }),
{
    let entries = match yaml {
        Some(e) => e,
        None => seq![],
    };
    let from = from_envelope_key_id@;
    let to = to_envelope_key_id@;
    let old_id = old_dek_id@;
    let new_id = new_dek_id@;
    let al = texts(aliases@);
    let leave = match deks_of(entries, from) {
        Some(d) => if d.contains(old_id) {
            seq![DekOpView::RemoveDek(from, old_id)]
        } else {
            match first_held(al, d) {
                Some(a) => seq![DekOpView::RemoveDek(from, a)],
                None => seq![],
            }
        },
        None => seq![],
    };
    let arrive = match deks_of(entries, to) {
        Some(d) => if d.contains(new_id) && al.len() > 0 {
            seq![DekOpView::RenameDek(to, new_id, al[0])]
        } else {
            seq![]
        },
        None => seq![],
    };
    let plan = leave + arrive;
    assert(migration_ops(entries, old_id, new_id, from, to, al) == plan);
    let nt = held_names(entries, to);
    let nf = held_names(entries, from);
    if leave.len() == 0 {
        assert(plan =~= arrive);
    } else {
        assert(leave.len() == 1);
        assert(plan.drop_first() =~= arrive);
        assert(plan[0] == leave[0]);
    }
    if arrive.len() == 1 {
        if leave.len() == 0 {
            lemma_names_after_one(nt, to, arrive[0]);
            lemma_names_after_one(nf, from, arrive[0]);
        } else {
            assert(plan =~= seq![leave[0], arrive[0]]);
            lemma_names_after_two(nt, to, leave[0], arrive[0]);
            lemma_names_after_two(nf, from, leave[0], arrive[0]);
        }
    } else {
        assert(arrive =~= Seq::<DekOpView>::empty());
        if leave.len() == 1 {
            assert(plan =~= seq![leave[0]]);
            lemma_names_after_one(nt, to, leave[0]);
            lemma_names_after_one(nf, from, leave[0]);
        } else {
            assert(plan =~= Seq::<DekOpView>::empty());
        }
    }
    if nt.contains(new_id) {
        assert(deks_of(entries, to) is Some);
    }
    if nf.contains(old_id) {
        assert(deks_of(entries, from) is Some);
    }
}

/// An added envelope key is written to the file as it is, a removed one is
/// removed by its id, and DEK events alone change nothing (DEKs are written
/// with their aliases).
pub proof fn law_envelope_key_events_are_written(
    yaml: Option<Seq<EnvelopeKeyDeks>>,
    key: EnvelopeKeySpec,
    envelope_key_id: String,
    dek_id: String,
)
    ensures
        dek_event_plan(yaml, DekEvent::EnvelopeKeyAdded { key }) == seq![DekOpView::AddEnvelopeKey(key)],
        dek_event_plan(yaml, DekEvent::EnvelopeKeyRemoved { envelope_key_id }) == seq![
            DekOpView::RemoveEnvelopeKey(envelope_key_id@),
        ],
        dek_event_plan(yaml, DekEvent::DekAdded { dek_id }) == Seq::<DekOpView>::empty(),
        dek_event_plan(yaml, DekEvent::DekRemoved { dek_id }) == Seq::<DekOpView>::empty(),
{
}

} // verus!
