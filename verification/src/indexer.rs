//! Building the descriptor index out of a descriptor set: map entries folded into map fields,
//! proto3 `optional` into a cardinality, oneof members listed under their oneof, comments looked
//! up by source path, and every message, enum and service keyed by its full name.

use vstd::prelude::*;

use crate::descriptor::{
    entries_map, insert_entry, strings_view, Cardinality, DescriptorIndex, EnumMeta, FieldKind,
    FieldMeta, MessageMeta, MethodMeta, OneofMeta, ServiceMeta,
};
use crate::expect::{cardinality_view, clone_kind, kind_view, CardinalityView, KindView};
use crate::index::{
    collect_map_entries, collect_nested_of, comments, comments_of, comments_view, copy_path,
    docs_get, entries_view, entry_for, field_kind, field_kind_of, full_name, full_name_of,
    trim_dots, trim_leading_dots, Comments, Docs, EntriesView, EnumProto, FieldLabel, FieldProto,
    FileProto, MapEntries, MessageProto, MethodProto, ServiceProto,
};
use crate::text::{decimal, decimal_of, push_all, push_str, string_of};

verus! {

/// `SourceCodeInfo` path components: the field numbers of the descriptor protos.
pub const FILE_MESSAGE: i32 = 4;

pub const FILE_ENUM: i32 = 5;

pub const FILE_SERVICE: i32 = 6;

pub const MESSAGE_FIELD: i32 = 2;

pub const MESSAGE_NESTED: i32 = 3;

pub const MESSAGE_ENUM: i32 = 4;

pub const ENUM_VALUE: i32 = 2;

pub const SERVICE_METHOD: i32 = 2;

pub struct FieldMetaView {
    pub name: Seq<char>,
    pub tag: u32,
    pub kind: KindView,
    pub cardinality: CardinalityView,
    pub docs: Seq<Seq<char>>,
    pub oneof: Option<usize>,
}

pub open spec fn field_meta_view(f: FieldMeta) -> FieldMetaView {
    FieldMetaView {
        name: f.name@,
        tag: f.tag,
        kind: kind_view(f.kind),
        cardinality: cardinality_view(f.cardinality),
        docs: strings_view(f.docs@),
        oneof: f.oneof,
    }
}

pub struct OneofMetaView {
    pub name: Seq<char>,
    pub fields: Seq<usize>,
}

pub open spec fn oneof_meta_view(o: OneofMeta) -> OneofMetaView {
    OneofMetaView { name: o.name@, fields: o.fields@ }
}

pub struct MessageMetaView {
    pub fields: Seq<FieldMetaView>,
    pub oneofs: Seq<OneofMetaView>,
    pub docs: Seq<Seq<char>>,
}

pub open spec fn message_meta_view(m: MessageMeta) -> MessageMetaView {
    MessageMetaView {
        fields: m.fields@.map_values(|f: FieldMeta| field_meta_view(f)),
        oneofs: m.oneofs@.map_values(|o: OneofMeta| oneof_meta_view(o)),
        docs: strings_view(m.docs@),
    }
}

pub struct EnumMetaView {
    pub values: Seq<(Seq<char>, i32)>,
    pub docs: Seq<Seq<char>>,
    pub value_docs: Seq<Seq<Seq<char>>>,
}

pub open spec fn enum_values_view(values: Seq<(String, i32)>) -> Seq<(Seq<char>, i32)> {
    values.map_values(|v: (String, i32)| (v.0@, v.1))
}

pub open spec fn enum_meta_view(e: EnumMeta) -> EnumMetaView {
    EnumMetaView {
        values: enum_values_view(e.values@),
        docs: strings_view(e.docs@),
        value_docs: e.value_docs@.map_values(|d: Vec<String>| strings_view(d@)),
    }
}

pub struct MethodMetaView {
    pub name: Seq<char>,
    pub input: Seq<char>,
    pub output: Seq<char>,
    pub client_streaming: bool,
    pub server_streaming: bool,
    pub docs: Seq<Seq<char>>,
}

pub open spec fn method_meta_view(m: MethodMeta) -> MethodMetaView {
    MethodMetaView {
        name: m.name@,
        input: m.input@,
        output: m.output@,
        client_streaming: m.client_streaming,
        server_streaming: m.server_streaming,
        docs: strings_view(m.docs@),
    }
}

pub struct ServiceMetaView {
    pub methods: Seq<MethodMetaView>,
    pub docs: Seq<Seq<char>>,
}

pub open spec fn service_meta_view(s: ServiceMeta) -> ServiceMetaView {
    ServiceMetaView {
        methods: s.methods@.map_values(|m: MethodMeta| method_meta_view(m)),
        docs: strings_view(s.docs@),
    }
}

/// The index as maps from full name to what is known of the message, enum or service.
pub struct IndexView {
    pub fingerprint: u64,
    pub messages: Map<Seq<char>, MessageMetaView>,
    pub enums: Map<Seq<char>, EnumMetaView>,
    pub services: Map<Seq<char>, ServiceMetaView>,
}

pub open spec fn index_view(idx: DescriptorIndex) -> IndexView {
    IndexView {
        fingerprint: idx.fingerprint,
        messages: entries_map(idx.messages@).map_values(|m: MessageMeta| message_meta_view(m)),
        enums: entries_map(idx.enums@).map_values(|e: EnumMeta| enum_meta_view(e)),
        services: entries_map(idx.services@).map_values(|s: ServiceMeta| service_meta_view(s)),
    }
}

proof fn lemma_map_values_insert<K, V, W>(m: Map<K, V>, k: K, v: V, f: spec_fn(V) -> W)
    ensures
        m.insert(k, v).map_values(f) == m.map_values(f).insert(k, f(v)),
{
    assert(m.insert(k, v).map_values(f) =~= m.map_values(f).insert(k, f(v)));
}

/// The comment recorded for `path`, or none.
pub open spec fn docs_at(docs: Docs, path: Seq<i32>) -> Seq<Seq<char>> {
    match docs_get(docs, path) {
        Some(lines) => lines,
        None => Seq::empty(),
    }
}

/// An enum: its values in order, its comment, and each value's comment.
pub open spec fn enum_of(e: EnumProto, docs: Docs, path: Seq<i32>) -> EnumMetaView {
    EnumMetaView {
        values: enum_values_view(e.values@),
        docs: docs_at(docs, path),
        value_docs: Seq::new(
            e.values@.len(),
            |i: int| docs_at(docs, path + seq![ENUM_VALUE, i as i32]),
        ),
    }
}

/// `idx` with the enum `e`, declared under `prefix` at `path`, set under its full name.
pub open spec fn add_enum_of(
    prefix: Seq<char>,
    e: EnumProto,
    docs: Docs,
    path: Seq<i32>,
    idx: IndexView,
) -> IndexView {
    IndexView {
        fingerprint: idx.fingerprint,
        messages: idx.messages,
        enums: idx.enums.insert(full_name_of(prefix, e.name@), enum_of(e, docs, path)),
        services: idx.services,
    }
}

/// `path` followed by `tag` and `index`.
fn extend_path(path: &Vec<i32>, tag: i32, index: usize) -> (out: Vec<i32>)
    ensures
        out@ == path@ + seq![tag, index as i32],
{
    let mut out = copy_path(path);
    out.push(tag);
    out.push(index as i32);
    assert(out@ =~= path@ + seq![tag, index as i32]);
    out
}

/// Adds an enum to the index under its full name.
pub fn add_enum(
    prefix: &str,
    enumeration: &EnumProto,
    comments: &Comments,
    path: Vec<i32>,
    index: &mut DescriptorIndex,
)
    requires
        old(index).wf(),
    ensures
        final(index).wf(),
        index_view(*final(index)) == add_enum_of(
            prefix@,
            *enumeration,
            comments_view(*comments),
            path@,
            index_view(*old(index)),
        ),
{
    let ghost docs = comments_view(*comments);
    let full = full_name(prefix, enumeration.name.as_str());
    let mut values: Vec<(String, i32)> = Vec::new();
    let mut value_docs: Vec<Vec<String>> = Vec::new();
    let mut i: usize = 0;
    while i < enumeration.values.len()
        invariant
            i <= enumeration.values@.len(),
            docs == comments_view(*comments),
            enum_values_view(values@) =~= enum_values_view(enumeration.values@.take(i as int)),
            value_docs@.len() == i,
            forall|j: int|
                0 <= j < i ==> strings_view((#[trigger] value_docs@[j])@) == docs_at(
                    docs,
                    path@ + seq![ENUM_VALUE, j as i32],
                ),
        decreases enumeration.values.len() - i,
    {
        let name = enumeration.values[i].0.clone();
        let ghost before = values@;
        values.push((name, enumeration.values[i].1));
        assert(enumeration.values@.take(i + 1) =~= enumeration.values@.take(i as int).push(
            enumeration.values@[i as int],
        ));
        assert(enum_values_view(values@) =~= enum_values_view(before).push(
            (enumeration.values@[i as int].0@, enumeration.values@[i as int].1),
        ));
        assert(enum_values_view(enumeration.values@.take(i + 1)) =~= enum_values_view(
            enumeration.values@.take(i as int),
        ).push((enumeration.values@[i as int].0@, enumeration.values@[i as int].1)));
        let value_path = extend_path(&path, ENUM_VALUE, i);
        value_docs.push(comments.get(&value_path));
        i = i + 1;
    }
    assert(enumeration.values@.take(i as int) =~= enumeration.values@);
    let meta = EnumMeta { values, docs: comments.get(&path), value_docs };
    proof {
        let v = enum_meta_view(meta);
        let w = enum_of(*enumeration, docs, path@);
        assert(v.value_docs =~= w.value_docs);
        assert(v == w);
    }
    let ghost old_map = entries_map(index.enums@);
    insert_entry(&mut index.enums, full, meta);
    proof {
        lemma_map_values_insert(old_map, full@, meta, |e: EnumMeta| enum_meta_view(e));
    }
}

/// An rpc: its name, its input and output message names without leading dot, how it streams,
/// and its comment.
pub open spec fn method_of(m: MethodProto, docs: Docs, path: Seq<i32>) -> MethodMetaView {
    MethodMetaView {
        name: m.name@,
        input: trim_dots(m.input_type@),
        output: trim_dots(m.output_type@),
        client_streaming: m.client_streaming,
        server_streaming: m.server_streaming,
        docs: docs_at(docs, path),
    }
}

/// The service at `at` in its file.
pub open spec fn service_of(s: ServiceProto, docs: Docs, at: int) -> ServiceMetaView {
    ServiceMetaView {
        methods: Seq::new(
            s.methods@.len(),
            |j: int|
                method_of(
                    s.methods@[j],
                    docs,
                    seq![FILE_SERVICE, at as i32, SERVICE_METHOD, j as i32],
                ),
        ),
        docs: docs_at(docs, seq![FILE_SERVICE, at as i32]),
    }
}

/// `idx` with the first `k` services set under their full names, in order.
pub open spec fn services_of(
    prefix: Seq<char>,
    services: Seq<ServiceProto>,
    docs: Docs,
    k: int,
    idx: IndexView,
) -> IndexView
    decreases k,
{
    if k <= 0 {
        idx
    } else {
        let before = services_of(prefix, services, docs, k - 1, idx);
        IndexView {
            fingerprint: before.fingerprint,
            messages: before.messages,
            enums: before.enums,
            services: before.services.insert(
                full_name_of(prefix, services[k - 1].name@),
                service_of(services[k - 1], docs, k - 1),
            ),
        }
    }
}

/// `idx` with every service of `file` set under its full name.
pub open spec fn add_services_of(file: FileProto, idx: IndexView) -> IndexView {
    services_of(
        file.package@,
        file.services@,
        comments_of(file.locations@),
        file.services@.len() as int,
        idx,
    )
}

fn method_meta(m: &MethodProto, comments: &Comments, path: &Vec<i32>) -> (meta: MethodMeta)
    ensures
        method_meta_view(meta) == method_of(*m, comments_view(*comments), path@),
{
    MethodMeta {
        name: m.name.clone(),
        input: trim_leading_dots(&m.input_type),
        output: trim_leading_dots(&m.output_type),
        client_streaming: m.client_streaming,
        server_streaming: m.server_streaming,
        docs: comments.get(path),
    }
}

/// Adds every service of `file` to the index under its full name, with its methods' comments
/// looked up the way the messages' are.
pub fn add_services(file: &FileProto, index: &mut DescriptorIndex)
    requires
        old(index).wf(),
    ensures
        final(index).wf(),
        index_view(*final(index)) == add_services_of(*file, index_view(*old(index))),
{
    let comments = comments(&file.locations);
    let ghost docs = comments_view(comments);
    let ghost start = index_view(*index);
    let mut s: usize = 0;
    while s < file.services.len()
        invariant
            s <= file.services@.len(),
            docs == comments_view(comments),
            docs == comments_of(file.locations@),
            index.wf(),
            index_view(*index) == services_of(
                file.package@,
                file.services@,
                docs,
                s as int,
                start,
            ),
        decreases file.services.len() - s,
    {
        let service = &file.services[s];
        let mut methods: Vec<MethodMeta> = Vec::new();
        let mut m: usize = 0;
        while m < service.methods.len()
            invariant
                m <= service.methods@.len(),
                docs == comments_view(comments),
                methods@.len() == m,
                forall|j: int|
                    0 <= j < m ==> method_meta_view(#[trigger] methods@[j]) == method_of(
                        service.methods@[j],
                        docs,
                        seq![FILE_SERVICE, s as i32, SERVICE_METHOD, j as i32],
                    ),
            decreases service.methods.len() - m,
        {
            let mut path = Vec::new();
            path.push(FILE_SERVICE);
            path.push(s as i32);
            path.push(SERVICE_METHOD);
            path.push(m as i32);
            assert(path@ =~= seq![FILE_SERVICE, s as i32, SERVICE_METHOD, m as i32]);
            methods.push(method_meta(&service.methods[m], &comments, &path));
            m = m + 1;
        }
        let mut path = Vec::new();
        path.push(FILE_SERVICE);
        path.push(s as i32);
        assert(path@ =~= seq![FILE_SERVICE, s as i32]);
        let meta = ServiceMeta { methods, docs: comments.get(&path) };
        proof {
            let v = service_meta_view(meta);
            let w = service_of(*service, docs, s as int);
            assert(v.methods =~= w.methods);
        }
        let ghost old_map = entries_map(index.services@);
        insert_entry(&mut index.services, full_name(file.package.as_str(), service.name.as_str()), meta);
        proof {
            lemma_map_values_insert(
                old_map,
                full_name_of(file.package@, service.name@),
                meta,
                |x: ServiceMeta| service_meta_view(x),
            );
        }
        s = s + 1;
    }
}

/// How a field sits in its message: proto3 `optional` is explicit presence, a repeated field of a
/// map-entry message is that map, another repeated field is repeated, and a singular field
/// belongs to the oneof its index names, if any.
pub open spec fn field_shape_of(f: FieldProto, kind: KindView, entries: EntriesView) -> (
    CardinalityView,
    Option<usize>,
) {
    if f.proto3_optional {
        (CardinalityView::Optional, None)
    } else if f.label is Repeated {
        match kind {
            KindView::Message(t) => match entry_for(entries, t) {
                Some(kv) => (CardinalityView::MapOf { key: kv.0, value: kv.1 }, None),
                None => (CardinalityView::Repeated, None),
            },
            _ => (CardinalityView::Repeated, None),
        }
    } else {
        (
            CardinalityView::Singular,
            match f.oneof_index {
                Some(x) => Some(x as usize),
                None => None,
            },
        )
    }
}

/// A field error, placed in its message and field.
pub open spec fn field_error_of(full: Seq<char>, name: Seq<char>, detail: Seq<char>) -> Seq<char> {
    "in message `"@ + full + "`, field `"@ + name + "`: "@ + detail
}

/// The field `f`, declared at `at` in the message `full` that has `n_oneofs` oneofs.
pub open spec fn field_of(
    full: Seq<char>,
    f: FieldProto,
    at: int,
    n_oneofs: int,
    entries: EntriesView,
    docs: Docs,
    path: Seq<i32>,
) -> Result<FieldMetaView, Seq<char>> {
    match field_kind_of(f) {
        Err(e) => Err(field_error_of(full, f.name@, e)),
        Ok(kind) => {
            let shape = field_shape_of(f, kind, entries);
            if shape.1 is Some && shape.1->0 >= n_oneofs {
                Err(
                    field_error_of(
                        full,
                        f.name@,
                        "oneof index "@ + decimal_of(shape.1->0 as nat) + " out of range"@,
                    ),
                )
            } else {
                Ok(
                    FieldMetaView {
                        name: f.name@,
                        tag: f.number as u32,
                        kind,
                        cardinality: shape.0,
                        docs: docs_at(docs, path + seq![MESSAGE_FIELD, at as i32]),
                        oneof: shape.1,
                    },
                )
            }
        },
    }
}

/// The first `k` fields, and the oneofs named `oneof_names` with the indices of their members.
pub open spec fn fields_of(
    full: Seq<char>,
    fields: Seq<FieldProto>,
    k: int,
    oneof_names: Seq<Seq<char>>,
    entries: EntriesView,
    docs: Docs,
    path: Seq<i32>,
) -> Result<(Seq<FieldMetaView>, Seq<OneofMetaView>), Seq<char>>
    decreases k,
{
    if k <= 0 {
        Ok(
            (
                Seq::empty(),
                oneof_names.map_values(
                    |n: Seq<char>| OneofMetaView { name: n, fields: Seq::empty() },
                ),
            ),
        )
    } else {
        match fields_of(full, fields, k - 1, oneof_names, entries, docs, path) {
            Err(e) => Err(e),
            Ok(acc) => match field_of(
                full,
                fields[k - 1],
                k - 1,
                oneof_names.len() as int,
                entries,
                docs,
                path,
            ) {
                Err(e) => Err(e),
                Ok(fv) => Ok(
                    (
                        acc.0.push(fv),
                        match fv.oneof {
                            Some(o) => acc.1.update(
                                o as int,
                                OneofMetaView {
                                    name: acc.1[o as int].name,
                                    fields: acc.1[o as int].fields.push((k - 1) as usize),
                                },
                            ),
                            None => acc.1,
                        },
                    ),
                ),
            },
        }
    }
}

/// `idx` with the message `m`, declared under `prefix` at `path`, and everything nested in it:
/// its nested messages first, then its enums, then itself. A map entry adds nothing.
pub open spec fn add_message_of(
    prefix: Seq<char>,
    m: MessageProto,
    entries: EntriesView,
    docs: Docs,
    path: Seq<i32>,
    idx: IndexView,
) -> Result<IndexView, Seq<char>>
    decreases m,
{
    let full = full_name_of(prefix, m.name@);
    if m.map_entry {
        Ok(idx)
    } else {
        match messages_of(
            full,
            m.nested@,
            m.nested@.len() as int,
            entries,
            docs,
            path + seq![MESSAGE_NESTED],
            idx,
        ) {
            Err(e) => Err(e),
            Ok(after_nested) => {
                let after_enums = enums_of(
                    full,
                    m.enums@,
                    m.enums@.len() as int,
                    docs,
                    path + seq![MESSAGE_ENUM],
                    after_nested,
                );
                match fields_of(
                    full,
                    m.fields@,
                    m.fields@.len() as int,
                    strings_view(m.oneofs@),
                    entries,
                    docs,
                    path,
                ) {
                    Err(e) => Err(e),
                    Ok(fo) => Ok(
                        IndexView {
                            fingerprint: after_enums.fingerprint,
                            messages: after_enums.messages.insert(
                                full,
                                MessageMetaView { fields: fo.0, oneofs: fo.1, docs: docs_at(docs, path) },
                            ),
                            enums: after_enums.enums,
                            services: after_enums.services,
                        },
                    ),
                }
            },
        }
    }
}

/// The first `k` messages of `list`, the one at `i` declared at `base` followed by `i`.
pub open spec fn messages_of(
    prefix: Seq<char>,
    list: Seq<MessageProto>,
    k: int,
    entries: EntriesView,
    docs: Docs,
    base: Seq<i32>,
    idx: IndexView,
) -> Result<IndexView, Seq<char>>
    decreases list, k,
{
    if k <= 0 || k > list.len() {
        Ok(idx)
    } else {
        match messages_of(prefix, list, k - 1, entries, docs, base, idx) {
            Err(e) => Err(e),
            Ok(a) => add_message_of(prefix, list[k - 1], entries, docs, base + seq![(k - 1) as i32], a),
        }
    }
}

/// The first `k` enums of `list`, the one at `i` declared at `base` followed by `i`.
pub open spec fn enums_of(
    prefix: Seq<char>,
    list: Seq<EnumProto>,
    k: int,
    docs: Docs,
    base: Seq<i32>,
    idx: IndexView,
) -> IndexView
    decreases k,
{
    if k <= 0 {
        idx
    } else {
        add_enum_of(
            prefix,
            list[k - 1],
            docs,
            base + seq![(k - 1) as i32],
            enums_of(prefix, list, k - 1, docs, base, idx),
        )
    }
}

/// `"in message `full`, field `name`: detail"`.
fn field_error(full: &String, name: &String, detail: &str) -> (message: String)
    ensures
        message@ == field_error_of(full@, name@, detail@),
{
    let mut out: Vec<char> = Vec::new();
    push_str(&mut out, "in message `");
    push_str(&mut out, full.as_str());
    push_str(&mut out, "`, field `");
    push_str(&mut out, name.as_str());
    push_str(&mut out, "`: ");
    push_str(&mut out, detail);
    string_of(out.as_slice())
}

fn oneof_range_error(o: usize) -> (message: String)
    ensures
        message@ == "oneof index "@ + decimal_of(o as nat) + " out of range"@,
{
    let mut out: Vec<char> = Vec::new();
    push_str(&mut out, "oneof index ");
    let digits = decimal(o as u64);
    push_all(&mut out, &digits);
    push_str(&mut out, " out of range");
    string_of(out.as_slice())
}

/// Where the last map entry recorded for `name` sits.
fn find_map_entry(map_entries: &MapEntries, name: &String) -> (found: Option<usize>)
    ensures
        match found {
            Some(i) => i < map_entries.entries@.len() && entry_for(entries_view(*map_entries), name@)
                == Some(
                (
                    kind_view(map_entries.entries@[i as int].1),
                    kind_view(map_entries.entries@[i as int].2),
                ),
            ),
            None => entry_for(entries_view(*map_entries), name@) is None,
        },
{
    let ghost all = entries_view(*map_entries);
    let mut end = map_entries.entries.len();
    assert(all.take(end as int) =~= all);
    while end > 0
        invariant
            end <= map_entries.entries@.len(),
            all == entries_view(*map_entries),
            entry_for(all, name@) == entry_for(all.take(end as int), name@),
        decreases end,
    {
        assert(all.take(end as int).last() == all[end - 1]);
        assert(all.take(end as int).drop_last() =~= all.take(end - 1));
        if crate::descriptor::string_eq(&map_entries.entries[end - 1].0, name.as_str()) {
            return Some(end - 1);
        }
        end = end - 1;
    }
    None
}

/// The field `field`, declared at `at` in the message `full` that has `n_oneofs` oneofs.
fn field_meta(
    full: &String,
    field: &FieldProto,
    at: usize,
    n_oneofs: usize,
    map_entries: &MapEntries,
    comments: &Comments,
    path: &Vec<i32>,
) -> (r: Result<FieldMeta, String>)
    ensures
        match r {
            Ok(f) => field_of(
                full@,
                *field,
                at as int,
                n_oneofs as int,
                entries_view(*map_entries),
                comments_view(*comments),
                path@,
            ) == Ok::<FieldMetaView, Seq<char>>(field_meta_view(f)),
            Err(e) => field_of(
                full@,
                *field,
                at as int,
                n_oneofs as int,
                entries_view(*map_entries),
                comments_view(*comments),
                path@,
            ) == Err::<FieldMetaView, Seq<char>>(e@),
        },
{
    let kind = match field_kind(field) {
        Ok(kind) => kind,
        Err(e) => {
            return Err(field_error(full, &field.name, e.as_str()));
        },
    };
    let field_path = extend_path(path, MESSAGE_FIELD, at);
    let (cardinality, oneof) = if field.proto3_optional {
        (Cardinality::Optional, None)
    } else {
        match field.label {
            FieldLabel::Repeated => {
                match &kind {
                    FieldKind::Message(target) => match find_map_entry(map_entries, target) {
                        Some(i) => (
                            Cardinality::MapOf {
                                key: clone_kind(&map_entries.entries[i].1),
                                value: clone_kind(&map_entries.entries[i].2),
                            },
                            None,
                        ),
                        None => (Cardinality::Repeated, None),
                    },
                    _ => (Cardinality::Repeated, None),
                }
            },
            _ => {
                let oneof: Option<usize> = match field.oneof_index {
                    Some(x) => Some(x as usize),
                    None => None,
                };
                (Cardinality::Singular, oneof)
            },
        }
    };
    match oneof {
        Some(o) => {
            if o >= n_oneofs {
                let detail = oneof_range_error(o);
                return Err(field_error(full, &field.name, detail.as_str()));
            }
        },
        None => {},
    }
    Ok(
        FieldMeta {
            name: field.name.clone(),
            tag: field.number as u32,
            kind,
            cardinality,
            docs: comments.get(&field_path),
            oneof,
        },
    )
}

proof fn lemma_fields_error_sticks(
    full: Seq<char>,
    fields: Seq<FieldProto>,
    k: int,
    j: int,
    names: Seq<Seq<char>>,
    entries: EntriesView,
    docs: Docs,
    path: Seq<i32>,
)
    requires
        0 <= k <= j,
        fields_of(full, fields, k, names, entries, docs, path) is Err,
    ensures
        fields_of(full, fields, j, names, entries, docs, path) == fields_of(
            full,
            fields,
            k,
            names,
            entries,
            docs,
            path,
        ),
    decreases j - k,
{
    if j > k {
        lemma_fields_error_sticks(full, fields, k, j - 1, names, entries, docs, path);
    }
}

proof fn lemma_messages_error_sticks(
    prefix: Seq<char>,
    list: Seq<MessageProto>,
    k: int,
    j: int,
    entries: EntriesView,
    docs: Docs,
    base: Seq<i32>,
    idx: IndexView,
)
    requires
        0 <= k <= j <= list.len(),
        messages_of(prefix, list, k, entries, docs, base, idx) is Err,
    ensures
        messages_of(prefix, list, j, entries, docs, base, idx) == messages_of(
            prefix,
            list,
            k,
            entries,
            docs,
            base,
            idx,
        ),
    decreases j - k,
{
    if j > k {
        lemma_messages_error_sticks(prefix, list, k, j - 1, entries, docs, base, idx);
    }
}

/// The fields of `message`, named `full`, and its oneofs with the indices of their members.
fn message_fields(
    full: &String,
    message: &MessageProto,
    map_entries: &MapEntries,
    comments: &Comments,
    path: &Vec<i32>,
) -> (r: Result<(Vec<FieldMeta>, Vec<OneofMeta>), String>)
    ensures
        match r {
            Ok(fo) => fields_of(
                full@,
                message.fields@,
                message.fields@.len() as int,
                strings_view(message.oneofs@),
                entries_view(*map_entries),
                comments_view(*comments),
                path@,
            ) == Ok::<(Seq<FieldMetaView>, Seq<OneofMetaView>), Seq<char>>(
                (
                    fo.0@.map_values(|f: FieldMeta| field_meta_view(f)),
                    fo.1@.map_values(|o: OneofMeta| oneof_meta_view(o)),
                ),
            ),
            Err(e) => fields_of(
                full@,
                message.fields@,
                message.fields@.len() as int,
                strings_view(message.oneofs@),
                entries_view(*map_entries),
                comments_view(*comments),
                path@,
            ) == Err::<(Seq<FieldMetaView>, Seq<OneofMetaView>), Seq<char>>(e@),
        },
{
    let ghost entries = entries_view(*map_entries);
    let ghost docs = comments_view(*comments);
    let ghost names = strings_view(message.oneofs@);
    let mut oneofs: Vec<OneofMeta> = Vec::new();
    let mut k: usize = 0;
    while k < message.oneofs.len()
        invariant
            k <= message.oneofs@.len(),
            names == strings_view(message.oneofs@),
            oneofs@.map_values(|o: OneofMeta| oneof_meta_view(o)) =~= names.take(k as int).map_values(
                |n: Seq<char>| OneofMetaView { name: n, fields: Seq::empty() },
            ),
        decreases message.oneofs.len() - k,
    {
        let ghost before = oneofs@;
        oneofs.push(OneofMeta { name: message.oneofs[k].clone(), fields: Vec::new() });
        assert(oneofs@.map_values(|o: OneofMeta| oneof_meta_view(o)) =~= before.map_values(
            |o: OneofMeta| oneof_meta_view(o),
        ).push(OneofMetaView { name: names[k as int], fields: Seq::empty() }));
        assert(names.take(k + 1) =~= names.take(k as int).push(names[k as int]));
        k = k + 1;
    }
    assert(names.take(k as int) =~= names);
    let mut fields: Vec<FieldMeta> = Vec::new();
    assert(fields@.map_values(|f: FieldMeta| field_meta_view(f)) =~= Seq::<FieldMetaView>::empty());
    let mut i: usize = 0;
    while i < message.fields.len()
        invariant
            i <= message.fields@.len(),
            entries == entries_view(*map_entries),
            docs == comments_view(*comments),
            names == strings_view(message.oneofs@),
            fields@.len() == i,
            oneofs@.len() == names.len(),
            fields_of(full@, message.fields@, i as int, names, entries, docs, path@) == Ok::<
                (Seq<FieldMetaView>, Seq<OneofMetaView>),
                Seq<char>,
            >(
                (
                    fields@.map_values(|f: FieldMeta| field_meta_view(f)),
                    oneofs@.map_values(|o: OneofMeta| oneof_meta_view(o)),
                ),
            ),
        decreases message.fields.len() - i,
    {
        let ghost before_fields = fields@;
        let ghost before_oneofs = oneofs@;
        let f = match field_meta(full, &message.fields[i], i, oneofs.len(), map_entries, comments, path) {
            Ok(f) => f,
            Err(e) => {
                proof {
                    lemma_fields_error_sticks(
                        full@,
                        message.fields@,
                        i + 1,
                        message.fields@.len() as int,
                        names,
                        entries,
                        docs,
                        path@,
                    );
                }
                return Err(e);
            },
        };
        match f.oneof {
            Some(o) => {
                let at = fields.len();
                oneofs[o].fields.push(at);
                proof {
                    let old_view = before_oneofs.map_values(|x: OneofMeta| oneof_meta_view(x));
                    assert(oneofs@.map_values(|x: OneofMeta| oneof_meta_view(x)) =~= old_view.update(
                        o as int,
                        OneofMetaView {
                            name: old_view[o as int].name,
                            fields: old_view[o as int].fields.push(i),
                        },
                    ));
                }
            },
            None => {},
        }
        fields.push(f);
        assert(fields@.map_values(|x: FieldMeta| field_meta_view(x)) =~= before_fields.map_values(
            |x: FieldMeta| field_meta_view(x),
        ).push(field_meta_view(f)));
        i = i + 1;
    }
    Ok((fields, oneofs))
}

/// Adds a message to the index under its full name, after the messages and enums nested in it;
/// map entries are skipped, since their parents' map fields stand for them.
pub fn add_message(
    prefix: &str,
    message: &MessageProto,
    map_entries: &MapEntries,
    comments: &Comments,
    path: Vec<i32>,
    index: &mut DescriptorIndex,
) -> (r: Result<(), String>)
    requires
        old(index).wf(),
    ensures
        final(index).wf(),
        match r {
            Ok(()) => add_message_of(
                prefix@,
                *message,
                entries_view(*map_entries),
                comments_view(*comments),
                path@,
                index_view(*old(index)),
            ) == Ok::<IndexView, Seq<char>>(index_view(*final(index))),
            Err(e) => add_message_of(
                prefix@,
                *message,
                entries_view(*map_entries),
                comments_view(*comments),
                path@,
                index_view(*old(index)),
            ) == Err::<IndexView, Seq<char>>(e@),
        },
    decreases message,
{
    let ghost entries = entries_view(*map_entries);
    let ghost docs = comments_view(*comments);
    let full = full_name(prefix, message.name.as_str());
    if message.map_entry {
        return Ok(());
    }
    let ghost start = index_view(*index);
    let ghost nested_base = path@ + seq![MESSAGE_NESTED];
    let mut i: usize = 0;
    while i < message.nested.len()
        invariant
            i <= message.nested@.len(),
            index.wf(),
            entries == entries_view(*map_entries),
            docs == comments_view(*comments),
            nested_base == path@ + seq![MESSAGE_NESTED],
            !message.map_entry,
            full@ == full_name_of(prefix@, message.name@),
            start == index_view(*old(index)),
            messages_of(full@, message.nested@, i as int, entries, docs, nested_base, start) == Ok::<
                IndexView,
                Seq<char>,
            >(index_view(*index)),
        decreases message.nested.len() - i,
    {
        let nested_path = extend_path(&path, MESSAGE_NESTED, i);
        assert(nested_path@ =~= nested_base + seq![i as i32]);
        let r = add_message(full.as_str(), &message.nested[i], map_entries, comments, nested_path, index);
        match r {
            Ok(()) => {},
            Err(e) => {
                proof {
                    assert(messages_of(
                        full@,
                        message.nested@,
                        i + 1,
                        entries,
                        docs,
                        nested_base,
                        start,
                    ) == Err::<IndexView, Seq<char>>(e@));
                    lemma_messages_error_sticks(
                        full@,
                        message.nested@,
                        i + 1,
                        message.nested@.len() as int,
                        entries,
                        docs,
                        nested_base,
                        start,
                    );
                }
                return Err(e);
            },
        }
        proof {
            assert(messages_of(full@, message.nested@, i + 1, entries, docs, nested_base, start)
                == Ok::<IndexView, Seq<char>>(index_view(*index)));
        }
        i = i + 1;
    }
    let ghost after_nested = index_view(*index);
    let ghost enum_base = path@ + seq![MESSAGE_ENUM];
    let mut j: usize = 0;
    while j < message.enums.len()
        invariant
            j <= message.enums@.len(),
            index.wf(),
            docs == comments_view(*comments),
            enum_base == path@ + seq![MESSAGE_ENUM],
            index_view(*index) == enums_of(full@, message.enums@, j as int, docs, enum_base, after_nested),
        decreases message.enums.len() - j,
    {
        let enum_path = extend_path(&path, MESSAGE_ENUM, j);
        assert(enum_path@ =~= enum_base + seq![j as i32]);
        add_enum(full.as_str(), &message.enums[j], comments, enum_path, index);
        j = j + 1;
    }
    let ghost after_enums = index_view(*index);
    let (fields, oneofs) = match message_fields(&full, message, map_entries, comments, &path) {
        Ok(fo) => fo,
        Err(e) => {
            return Err(e);
        },
    };
    let meta = MessageMeta { fields, oneofs, docs: comments.get(&path) };
    let ghost old_map = entries_map(index.messages@);
    insert_entry(&mut index.messages, full, meta);
    proof {
        lemma_map_values_insert(old_map, full@, meta, |x: MessageMeta| message_meta_view(x));
    }
    Ok(())
}

/// The map entries of the first `k` files, in order, added to `acc`.
pub open spec fn collect_files_of(files: Seq<FileProto>, k: int, acc: EntriesView) -> Result<
    EntriesView,
    Seq<char>,
>
    decreases k,
{
    if k <= 0 {
        Ok(acc)
    } else {
        match collect_files_of(files, k - 1, acc) {
            Err(e) => Err(e),
            Ok(a) => collect_nested_of(
                files[k - 1].package@,
                files[k - 1].messages@,
                files[k - 1].messages@.len() as int,
                a,
            ),
        }
    }
}

/// `idx` with a file's messages, then its enums, then its services.
pub open spec fn file_of(file: FileProto, entries: EntriesView, idx: IndexView) -> Result<
    IndexView,
    Seq<char>,
> {
    let docs = comments_of(file.locations@);
    match messages_of(
        file.package@,
        file.messages@,
        file.messages@.len() as int,
        entries,
        docs,
        seq![FILE_MESSAGE],
        idx,
    ) {
        Err(e) => Err(e),
        Ok(a) => Ok(
            add_services_of(
                file,
                enums_of(
                    file.package@,
                    file.enums@,
                    file.enums@.len() as int,
                    docs,
                    seq![FILE_ENUM],
                    a,
                ),
            ),
        ),
    }
}

/// `idx` with the first `k` files, in order.
pub open spec fn files_of(files: Seq<FileProto>, k: int, entries: EntriesView, idx: IndexView) -> Result<
    IndexView,
    Seq<char>,
>
    decreases k,
{
    if k <= 0 {
        Ok(idx)
    } else {
        match files_of(files, k - 1, entries, idx) {
            Err(e) => Err(e),
            Ok(a) => file_of(files[k - 1], entries, a),
        }
    }
}

/// The index of a descriptor set: every map entry collected first, so that map fields anywhere
/// can be folded, then every file's messages, enums and services, a later one of a name
/// replacing an earlier.
pub open spec fn build_of(fingerprint: u64, files: Seq<FileProto>) -> Result<IndexView, Seq<char>> {
    match collect_files_of(files, files.len() as int, Seq::empty()) {
        Err(e) => Err(e),
        Ok(entries) => files_of(
            files,
            files.len() as int,
            entries,
            IndexView {
                fingerprint,
                messages: Map::empty(),
                enums: Map::empty(),
                services: Map::empty(),
            },
        ),
    }
}

proof fn lemma_collect_files_error_sticks(files: Seq<FileProto>, k: int, j: int, acc: EntriesView)
    requires
        0 <= k <= j,
        collect_files_of(files, k, acc) is Err,
    ensures
        collect_files_of(files, j, acc) == collect_files_of(files, k, acc),
    decreases j - k,
{
    if j > k {
        lemma_collect_files_error_sticks(files, k, j - 1, acc);
    }
}

proof fn lemma_files_error_sticks(
    files: Seq<FileProto>,
    k: int,
    j: int,
    entries: EntriesView,
    idx: IndexView,
)
    requires
        0 <= k <= j,
        files_of(files, k, entries, idx) is Err,
    ensures
        files_of(files, j, entries, idx) == files_of(files, k, entries, idx),
    decreases j - k,
{
    if j > k {
        lemma_files_error_sticks(files, k, j - 1, entries, idx);
    }
}

/// The map entries of every file, in order.
fn collect_all(files: &Vec<FileProto>) -> (r: Result<MapEntries, String>)
    ensures
        match r {
            Ok(m) => collect_files_of(files@, files@.len() as int, Seq::empty()) == Ok::<
                EntriesView,
                Seq<char>,
            >(entries_view(m)),
            Err(e) => collect_files_of(files@, files@.len() as int, Seq::empty()) == Err::<
                EntriesView,
                Seq<char>,
            >(e@),
        },
{
    let mut map_entries = MapEntries { entries: Vec::new() };
    assert(entries_view(map_entries) =~= Seq::<(Seq<char>, KindView, KindView)>::empty());
    let mut f: usize = 0;
    while f < files.len()
        invariant
            f <= files@.len(),
            collect_files_of(files@, f as int, Seq::empty()) == Ok::<EntriesView, Seq<char>>(
                entries_view(map_entries),
            ),
        decreases files.len() - f,
    {
        let file = &files[f];
        let ghost before = entries_view(map_entries);
        let mut m: usize = 0;
        while m < file.messages.len()
            invariant
                m <= file.messages@.len(),
                f < files@.len(),
                *file == files@[f as int],
                collect_files_of(files@, f as int, Seq::empty()) == Ok::<EntriesView, Seq<char>>(
                    before,
                ),
                collect_nested_of(file.package@, file.messages@, m as int, before) == Ok::<
                    EntriesView,
                    Seq<char>,
                >(entries_view(map_entries)),
            decreases file.messages.len() - m,
        {
            match collect_map_entries(file.package.as_str(), &file.messages[m], &mut map_entries) {
                Ok(()) => {},
                Err(e) => {
                    proof {
                        assert(collect_nested_of(file.package@, file.messages@, m + 1, before)
                            == Err::<EntriesView, Seq<char>>(e@));
                        crate::index::lemma_collect_error_sticks(
                            file.package@,
                            file.messages@,
                            m + 1,
                            file.messages@.len() as int,
                            before,
                        );
                        assert(collect_files_of(files@, f + 1, Seq::empty()) == Err::<
                            EntriesView,
                            Seq<char>,
                        >(e@));
                        lemma_collect_files_error_sticks(
                            files@,
                            f + 1,
                            files@.len() as int,
                            Seq::empty(),
                        );
                    }
                    return Err(e);
                },
            }
            proof {
                assert(collect_nested_of(file.package@, file.messages@, m + 1, before) == Ok::<
                    EntriesView,
                    Seq<char>,
                >(entries_view(map_entries)));
            }
            m = m + 1;
        }
        assert(collect_files_of(files@, f + 1, Seq::empty()) == Ok::<EntriesView, Seq<char>>(
            entries_view(map_entries),
        ));
        f = f + 1;
    }
    Ok(map_entries)
}

/// Adds one file's messages, enums and services to the index.
fn add_file(file: &FileProto, map_entries: &MapEntries, index: &mut DescriptorIndex) -> (r: Result<
    (),
    String,
>)
    requires
        old(index).wf(),
    ensures
        final(index).wf(),
        match r {
            Ok(()) => file_of(*file, entries_view(*map_entries), index_view(*old(index))) == Ok::<
                IndexView,
                Seq<char>,
            >(index_view(*final(index))),
            Err(e) => file_of(*file, entries_view(*map_entries), index_view(*old(index))) == Err::<
                IndexView,
                Seq<char>,
            >(e@),
        },
{
    let ghost entries = entries_view(*map_entries);
    let comments = comments(&file.locations);
    let ghost docs = comments_view(comments);
    let ghost start = index_view(*index);
    let prefix = file.package.as_str();
    let mut m: usize = 0;
    while m < file.messages.len()
        invariant
            m <= file.messages@.len(),
            index.wf(),
            prefix@ == file.package@,
            entries == entries_view(*map_entries),
            docs == comments_view(comments),
            docs == comments_of(file.locations@),
            start == index_view(*old(index)),
            messages_of(prefix@, file.messages@, m as int, entries, docs, seq![FILE_MESSAGE], start)
                == Ok::<IndexView, Seq<char>>(index_view(*index)),
        decreases file.messages.len() - m,
    {
        let mut path = Vec::new();
        path.push(FILE_MESSAGE);
        path.push(m as i32);
        assert(path@ =~= seq![FILE_MESSAGE] + seq![m as i32]);
        match add_message(prefix, &file.messages[m], map_entries, &comments, path, index) {
            Ok(()) => {},
            Err(e) => {
                proof {
                    assert(messages_of(
                        prefix@,
                        file.messages@,
                        m + 1,
                        entries,
                        docs,
                        seq![FILE_MESSAGE],
                        start,
                    ) == Err::<IndexView, Seq<char>>(e@));
                    lemma_messages_error_sticks(
                        prefix@,
                        file.messages@,
                        m + 1,
                        file.messages@.len() as int,
                        entries,
                        docs,
                        seq![FILE_MESSAGE],
                        start,
                    );
                }
                return Err(e);
            },
        }
        proof {
            assert(messages_of(prefix@, file.messages@, m + 1, entries, docs, seq![FILE_MESSAGE], start)
                == Ok::<IndexView, Seq<char>>(index_view(*index)));
        }
        m = m + 1;
    }
    let ghost after_messages = index_view(*index);
    let mut e: usize = 0;
    while e < file.enums.len()
        invariant
            e <= file.enums@.len(),
            index.wf(),
            prefix@ == file.package@,
            docs == comments_view(comments),
            index_view(*index) == enums_of(
                prefix@,
                file.enums@,
                e as int,
                docs,
                seq![FILE_ENUM],
                after_messages,
            ),
        decreases file.enums.len() - e,
    {
        let mut path = Vec::new();
        path.push(FILE_ENUM);
        path.push(e as i32);
        assert(path@ =~= seq![FILE_ENUM] + seq![e as i32]);
        add_enum(prefix, &file.enums[e], &comments, path, index);
        e = e + 1;
    }
    add_services(file, index);
    Ok(())
}

/// Indexes a descriptor set.
pub fn build_index(fingerprint: u64, files: &Vec<FileProto>) -> (r: Result<DescriptorIndex, String>)
    ensures
        match r {
            Ok(index) => index.wf() && build_of(fingerprint, files@) == Ok::<IndexView, Seq<char>>(
                index_view(index),
            ),
            Err(e) => build_of(fingerprint, files@) == Err::<IndexView, Seq<char>>(e@),
        },
{
    let map_entries = collect_all(files)?;
    let ghost entries = entries_view(map_entries);
    let mut index = DescriptorIndex {
        fingerprint,
        messages: Vec::new(),
        enums: Vec::new(),
        services: Vec::new(),
    };
    let ghost empty = IndexView {
        fingerprint,
        messages: Map::empty(),
        enums: Map::empty(),
        services: Map::empty(),
    };
    assert(index_view(index) =~= empty) by {
        assert(index_view(index).messages =~= Map::<Seq<char>, MessageMetaView>::empty());
        assert(index_view(index).enums =~= Map::<Seq<char>, EnumMetaView>::empty());
        assert(index_view(index).services =~= Map::<Seq<char>, ServiceMetaView>::empty());
    }
    let mut f: usize = 0;
    while f < files.len()
        invariant
            f <= files@.len(),
            index.wf(),
            entries == entries_view(map_entries),
            empty == (IndexView {
                fingerprint,
                messages: Map::empty(),
                enums: Map::empty(),
                services: Map::empty(),
            }),
            collect_files_of(files@, files@.len() as int, Seq::empty()) == Ok::<EntriesView, Seq<char>>(
                entries,
            ),
            files_of(files@, f as int, entries, empty) == Ok::<IndexView, Seq<char>>(
                index_view(index),
            ),
        decreases files.len() - f,
    {
        match add_file(&files[f], &map_entries, &mut index) {
            Ok(()) => {
                assert(files_of(files@, f + 1, entries, empty) == Ok::<IndexView, Seq<char>>(
                    index_view(index),
                ));
            },
            Err(e) => {
                proof {
                    assert(files_of(files@, f + 1, entries, empty) == Err::<IndexView, Seq<char>>(e@));
                    lemma_files_error_sticks(files@, f + 1, files@.len() as int, entries, empty);

                }
                return Err(e);
            },
        }
        f = f + 1;
    }
    Ok(index)
}

/// The 64-bit FNV offset basis.
pub const FNV_OFFSET_BASIS: u64 = 0xcbf29ce484222325;

/// The 64-bit FNV prime.
pub const FNV_PRIME: u64 = 0x100000001b3;

/// FNV-1a over `bytes` from the state `h`: each byte is xored in, then the state multiplied by
/// the prime, wrapping.
pub open spec fn fnv1a_from(h: u64, bytes: Seq<u8>) -> u64
    decreases bytes.len(),
{
    if bytes.len() == 0 {
        h
    } else {
        fnv1a_from(((h ^ (bytes[0] as u64)) * FNV_PRIME) as u64, bytes.drop_first())
    }
}

/// `fnv::FnvHasher::default()` fed `bytes` in one `write`, then `finish`ed. The crate documents
/// it as 64-bit FNV-1a, and its source starts from the offset basis, xors each byte in and
/// multiplies by the FNV prime with `wrapping_mul`.
#[verifier::external_body]
fn fnv_hash(bytes: &[u8]) -> (h: u64)
    ensures
        h == fnv1a_from(FNV_OFFSET_BASIS, bytes@),
{
    let mut hasher = <fnv::FnvHasher as std::default::Default>::default();
    std::hash::Hasher::write(&mut hasher, bytes);
    std::hash::Hasher::finish(&hasher)
}

/// The fingerprint of a descriptor file: the FNV-1a hash of its bytes, which tells one
/// descriptor set from another.
pub fn fingerprint(bytes: &[u8]) -> (h: u64)
    ensures
        h == fnv1a_from(FNV_OFFSET_BASIS, bytes@),
{
    fnv_hash(bytes)
}

/// A message's oneofs and fields point at each other: a member's oneof index is in range, and
/// every index a oneof lists is a field that names that oneof.
pub open spec fn message_view_wf(m: MessageMetaView) -> bool {
    &&& forall|f: int|
        0 <= f < m.fields.len() ==> match (#[trigger] m.fields[f]).oneof {
            Some(o) => o < m.oneofs.len(),
            None => true,
        }
    &&& forall|o: int, j: int|
        0 <= o < m.oneofs.len() && 0 <= j < m.oneofs[o].fields.len() ==> {
            let x = #[trigger] m.oneofs[o].fields[j];
            &&& x < m.fields.len()
            &&& m.fields[x as int].oneof == Some(o as usize)
        }
}

/// Every message of the index is well formed, and every enum has one comment slot per value.
pub open spec fn index_wf(v: IndexView) -> bool {
    &&& forall|n: Seq<char>| #[trigger] v.messages.dom().contains(n) ==> message_view_wf(v.messages[n])
    &&& forall|n: Seq<char>|
        #[trigger] v.enums.dom().contains(n) ==> v.enums[n].value_docs.len() == v.enums[n].values.len()
}

proof fn lemma_fields_of_wf(
    full: Seq<char>,
    fields: Seq<FieldProto>,
    k: int,
    names: Seq<Seq<char>>,
    entries: EntriesView,
    docs: Docs,
    path: Seq<i32>,
)
    requires
        0 <= k <= usize::MAX,
        fields_of(full, fields, k, names, entries, docs, path) is Ok,
    ensures
        ({
            let fo = fields_of(full, fields, k, names, entries, docs, path)->Ok_0;
            &&& fo.0.len() == k
            &&& fo.1.len() == names.len()
            &&& message_view_wf(MessageMetaView { fields: fo.0, oneofs: fo.1, docs: Seq::empty() })
        }),
    decreases k,
{
    if k > 0 {
        lemma_fields_of_wf(full, fields, k - 1, names, entries, docs, path);
        let acc = fields_of(full, fields, k - 1, names, entries, docs, path)->Ok_0;
        let fv = field_of(full, fields[k - 1], k - 1, names.len() as int, entries, docs, path)->Ok_0;
        let fo = fields_of(full, fields, k, names, entries, docs, path)->Ok_0;
        let fs = fo.0;
        let os = fo.1;
        assert(fs == acc.0.push(fv));
        assert forall|f: int| 0 <= f < fs.len() implies match (#[trigger] fs[f]).oneof {
            Some(o) => o < os.len(),
            None => true,
        } by {
            if f < k - 1 {
                assert(fs[f] == acc.0[f]);
            }
        }
        assert forall|o: int, j: int| 0 <= o < os.len() && 0 <= j < os[o].fields.len() implies {
            let x = #[trigger] os[o].fields[j];
            &&& x < fs.len()
            &&& fs[x as int].oneof == Some(o as usize)
        } by {
            match fv.oneof {
                Some(oo) => {
                    if o == oo as int {
                        if j < acc.1[o].fields.len() {
                            assert(os[o].fields[j] == acc.1[o].fields[j]);
                            assert(fs[acc.1[o].fields[j] as int] == acc.0[acc.1[o].fields[j] as int]);
                        } else {
                            assert(os[o].fields[j] == (k - 1) as usize);
                        }
                    } else {
                        assert(os[o] == acc.1[o]);
                        assert(fs[acc.1[o].fields[j] as int] == acc.0[acc.1[o].fields[j] as int]);
                    }
                },
                None => {
                    assert(os[o] == acc.1[o]);
                    assert(fs[acc.1[o].fields[j] as int] == acc.0[acc.1[o].fields[j] as int]);
                },
            }
        }
    }
}

proof fn lemma_enums_of_wf(
    prefix: Seq<char>,
    list: Seq<EnumProto>,
    k: int,
    docs: Docs,
    base: Seq<i32>,
    idx: IndexView,
)
    requires
        index_wf(idx),
    ensures
        index_wf(enums_of(prefix, list, k, docs, base, idx)),
        enums_of(prefix, list, k, docs, base, idx).fingerprint == idx.fingerprint,
        enums_of(prefix, list, k, docs, base, idx).messages == idx.messages,
    decreases k,
{
    if k > 0 {
        lemma_enums_of_wf(prefix, list, k - 1, docs, base, idx);
        let before = enums_of(prefix, list, k - 1, docs, base, idx);
        let after = enums_of(prefix, list, k, docs, base, idx);
        assert forall|n: Seq<char>| #[trigger] after.enums.dom().contains(n) implies after.enums[n].value_docs.len()
            == after.enums[n].values.len() by {
            if n != full_name_of(prefix, list[k - 1].name@) {
                assert(before.enums.dom().contains(n));
            }
        }
    }
}

proof fn lemma_services_of_wf(
    prefix: Seq<char>,
    services: Seq<ServiceProto>,
    docs: Docs,
    k: int,
    idx: IndexView,
)
    requires
        index_wf(idx),
    ensures
        index_wf(services_of(prefix, services, docs, k, idx)),
        services_of(prefix, services, docs, k, idx).fingerprint == idx.fingerprint,
    decreases k,
{
    if k > 0 {
        lemma_services_of_wf(prefix, services, docs, k - 1, idx);
    }
}

proof fn lemma_add_message_wf(
    prefix: Seq<char>,
    m: MessageProto,
    entries: EntriesView,
    docs: Docs,
    path: Seq<i32>,
    idx: IndexView,
)
    requires
        index_wf(idx),
        add_message_of(prefix, m, entries, docs, path, idx) is Ok,
    ensures
        index_wf(add_message_of(prefix, m, entries, docs, path, idx)->Ok_0),
        (add_message_of(prefix, m, entries, docs, path, idx)->Ok_0).fingerprint == idx.fingerprint,
    decreases m,
{
    let full = full_name_of(prefix, m.name@);
    if !m.map_entry {
        lemma_messages_wf(
            full,
            m.nested@,
            m.nested@.len() as int,
            entries,
            docs,
            path + seq![MESSAGE_NESTED],
            idx,
        );
        let after_nested = messages_of(
            full,
            m.nested@,
            m.nested@.len() as int,
            entries,
            docs,
            path + seq![MESSAGE_NESTED],
            idx,
        )->Ok_0;
        lemma_enums_of_wf(
            full,
            m.enums@,
            m.enums@.len() as int,
            docs,
            path + seq![MESSAGE_ENUM],
            after_nested,
        );
        let after_enums = enums_of(
            full,
            m.enums@,
            m.enums@.len() as int,
            docs,
            path + seq![MESSAGE_ENUM],
            after_nested,
        );
        let names = strings_view(m.oneofs@);
        assert(m.fields.len() == m.fields@.len());
        lemma_fields_of_wf(full, m.fields@, m.fields@.len() as int, names, entries, docs, path);
        let fo = fields_of(full, m.fields@, m.fields@.len() as int, names, entries, docs, path)->Ok_0;
        let mv = MessageMetaView { fields: fo.0, oneofs: fo.1, docs: docs_at(docs, path) };
        assert(message_view_wf(MessageMetaView { fields: fo.0, oneofs: fo.1, docs: Seq::empty() }));
        assert(message_view_wf(mv));
        let out = add_message_of(prefix, m, entries, docs, path, idx)->Ok_0;
        assert forall|n: Seq<char>| #[trigger] out.messages.dom().contains(n) implies message_view_wf(
            out.messages[n],
        ) by {
            if n != full {
                assert(after_enums.messages.dom().contains(n));
            }
        }
    }
}

proof fn lemma_messages_wf(
    prefix: Seq<char>,
    list: Seq<MessageProto>,
    k: int,
    entries: EntriesView,
    docs: Docs,
    base: Seq<i32>,
    idx: IndexView,
)
    requires
        index_wf(idx),
        messages_of(prefix, list, k, entries, docs, base, idx) is Ok,
    ensures
        index_wf(messages_of(prefix, list, k, entries, docs, base, idx)->Ok_0),
        (messages_of(prefix, list, k, entries, docs, base, idx)->Ok_0).fingerprint == idx.fingerprint,
    decreases list, k,
{
    if 0 < k <= list.len() {
        lemma_messages_wf(prefix, list, k - 1, entries, docs, base, idx);
        let a = messages_of(prefix, list, k - 1, entries, docs, base, idx)->Ok_0;
        lemma_add_message_wf(prefix, list[k - 1], entries, docs, base + seq![(k - 1) as i32], a);
    }
}

proof fn lemma_files_wf(files: Seq<FileProto>, k: int, entries: EntriesView, idx: IndexView)
    requires
        index_wf(idx),
        files_of(files, k, entries, idx) is Ok,
    ensures
        index_wf(files_of(files, k, entries, idx)->Ok_0),
        (files_of(files, k, entries, idx)->Ok_0).fingerprint == idx.fingerprint,
    decreases k,
{
    if k > 0 {
        lemma_files_wf(files, k - 1, entries, idx);
        let a = files_of(files, k - 1, entries, idx)->Ok_0;
        let file = files[k - 1];
        let docs = comments_of(file.locations@);
        lemma_messages_wf(
            file.package@,
            file.messages@,
            file.messages@.len() as int,
            entries,
            docs,
            seq![FILE_MESSAGE],
            a,
        );
        let b = messages_of(
            file.package@,
            file.messages@,
            file.messages@.len() as int,
            entries,
            docs,
            seq![FILE_MESSAGE],
            a,
        )->Ok_0;
        lemma_enums_of_wf(file.package@, file.enums@, file.enums@.len() as int, docs, seq![FILE_ENUM], b);
        let c = enums_of(file.package@, file.enums@, file.enums@.len() as int, docs, seq![FILE_ENUM], b);
        lemma_services_of_wf(file.package@, file.services@, docs, file.services@.len() as int, c);
    }
}

/// An index built from a descriptor set carries the fingerprint it was given; in every message the
/// oneofs and their members point at each other; and every enum has one comment slot per value.
pub proof fn lemma_built_index_is_well_formed(fingerprint: u64, files: Seq<FileProto>)
    requires
        build_of(fingerprint, files) is Ok,
    ensures
        (build_of(fingerprint, files)->Ok_0).fingerprint == fingerprint,
        index_wf(build_of(fingerprint, files)->Ok_0),
{
    let entries = collect_files_of(files, files.len() as int, Seq::empty())->Ok_0;
    let empty = IndexView {
        fingerprint,
        messages: Map::empty(),
        enums: Map::empty(),
        services: Map::empty(),
    };
    lemma_files_wf(files, files.len() as int, entries, empty);
}

/// The index of the files decoded from the descriptor set `bytes`, fingerprinted by those bytes.
pub fn index_from_files(bytes: &[u8], files: &Vec<FileProto>) -> (r: Result<DescriptorIndex, String>)
    ensures
        match r {
            Ok(index) => index.wf() && index.fingerprint == fnv1a_from(FNV_OFFSET_BASIS, bytes@)
                && build_of(fnv1a_from(FNV_OFFSET_BASIS, bytes@), files@) == Ok::<IndexView, Seq<char>>(
                index_view(index),
            ),
            Err(e) => build_of(fnv1a_from(FNV_OFFSET_BASIS, bytes@), files@) == Err::<IndexView, Seq<char>>(
                e@,
            ),
        },
{
    let r = build_index(fingerprint(bytes), files);
    proof {
        if r is Ok {
            lemma_built_index_is_well_formed(fnv1a_from(FNV_OFFSET_BASIS, bytes@), files@);
        }
    }
    r
}

/// A field is indexed under its own name and number with the kind its proto type names: a
/// scalar's kind is described by the type's own `.proto` keyword, a message or enum field refers
/// to the type it names without the leading dots, and a group is refused.
pub proof fn lemma_indexed_field_keeps_its_type(
    full: Seq<char>,
    f: FieldProto,
    at: int,
    n_oneofs: int,
    entries: EntriesView,
    docs: Docs,
    path: Seq<i32>,
)
    ensures
        f.field_type is Group ==> field_of(full, f, at, n_oneofs, entries, docs, path) is Err,
        field_of(full, f, at, n_oneofs, entries, docs, path) is Ok ==> {
            let m = field_of(full, f, at, n_oneofs, entries, docs, path)->Ok_0;
            &&& m.name == f.name@
            &&& m.tag == f.number as u32
            &&& f.field_type is Message ==> m.kind == KindView::Message(trim_dots(f.referenced_type@))
            &&& f.field_type is Enum ==> m.kind == KindView::Enum(trim_dots(f.referenced_type@))
            &&& !(f.field_type is Message) && !(f.field_type is Enum) ==> crate::expect::kind_description_of(
                m.kind,
            ) == crate::index::proto_type_keyword(f.field_type)
        },
{
    crate::index::lemma_field_kind_is_named_by_its_type(f);
}

} // verus!
