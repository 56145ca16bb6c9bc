//! What the descriptor says a checked field is, and its human form for the shape asserts.

use vstd::prelude::*;

use crate::descriptor::{Cardinality, FieldKind, FieldMeta, MessageMeta};
use crate::order::{sort_by_key, sort_keyed};
use crate::text::{chars_of, join_of, push_str, string_of};

verus! {

/// What the descriptor says a checked field is, in the descriptor's own vocabulary.
pub struct Expectation {
    pub kind: FieldKind,
    pub cardinality: Cardinality,
}

/// The view of a field kind: its variant and, where it names one, the type's text.
pub enum KindView {
    Double,
    Float,
    Int32,
    Int64,
    UInt32,
    UInt64,
    Bool,
    String,
    Bytes,
    Message(Seq<char>),
    Enum(Seq<char>),
    Unsupported(Seq<char>),
}

pub open spec fn kind_view(kind: FieldKind) -> KindView {
    match kind {
        FieldKind::Double => KindView::Double,
        FieldKind::Float => KindView::Float,
        FieldKind::Int32 => KindView::Int32,
        FieldKind::Int64 => KindView::Int64,
        FieldKind::UInt32 => KindView::UInt32,
        FieldKind::UInt64 => KindView::UInt64,
        FieldKind::Bool => KindView::Bool,
        FieldKind::String => KindView::String,
        FieldKind::Bytes => KindView::Bytes,
        FieldKind::Message(name) => KindView::Message(name@),
        FieldKind::Enum(name) => KindView::Enum(name@),
        FieldKind::Unsupported(name) => KindView::Unsupported(name@),
    }
}

pub enum CardinalityView {
    Singular,
    Optional,
    Repeated,
    MapOf { key: KindView, value: KindView },
}

pub open spec fn cardinality_view(c: Cardinality) -> CardinalityView {
    match c {
        Cardinality::Singular => CardinalityView::Singular,
        Cardinality::Optional => CardinalityView::Optional,
        Cardinality::Repeated => CardinalityView::Repeated,
        Cardinality::MapOf { key, value } => CardinalityView::MapOf {
            key: kind_view(key),
            value: kind_view(value),
        },
    }
}

/// A copy of `kind`.
pub fn clone_kind(kind: &FieldKind) -> (c: FieldKind)
    ensures
        kind_view(c) == kind_view(*kind),
{
    match kind {
        FieldKind::Double => FieldKind::Double,
        FieldKind::Float => FieldKind::Float,
        FieldKind::Int32 => FieldKind::Int32,
        FieldKind::Int64 => FieldKind::Int64,
        FieldKind::UInt32 => FieldKind::UInt32,
        FieldKind::UInt64 => FieldKind::UInt64,
        FieldKind::Bool => FieldKind::Bool,
        FieldKind::String => FieldKind::String,
        FieldKind::Bytes => FieldKind::Bytes,
        FieldKind::Message(name) => FieldKind::Message(name.clone()),
        FieldKind::Enum(name) => FieldKind::Enum(name.clone()),
        FieldKind::Unsupported(name) => FieldKind::Unsupported(name.clone()),
    }
}

/// A copy of `c`.
pub fn clone_cardinality(c: &Cardinality) -> (copy: Cardinality)
    ensures
        cardinality_view(copy) == cardinality_view(*c),
{
    match c {
        Cardinality::Singular => Cardinality::Singular,
        Cardinality::Optional => Cardinality::Optional,
        Cardinality::Repeated => Cardinality::Repeated,
        Cardinality::MapOf { key, value } => Cardinality::MapOf {
            key: clone_kind(key),
            value: clone_kind(value),
        },
    }
}

impl Expectation {
    /// The expectation for a descriptor field.
    pub fn of(field: &FieldMeta) -> (e: Self)
        ensures
            kind_view(e.kind) == kind_view(field.kind),
            cardinality_view(e.cardinality) == cardinality_view(field.cardinality),
    {
        Expectation { kind: clone_kind(&field.kind), cardinality: clone_cardinality(&field.cardinality) }
    }
}

/// How a kind reads in a diagnostic: `message NAME`, `enum NAME`, the proto name of an
/// unsupported kind, or the scalar's name in lower case.
pub open spec fn kind_description_of(kind: KindView) -> Seq<char> {
    match kind {
        KindView::Message(name) => "message "@ + name,
        KindView::Enum(name) => "enum "@ + name,
        KindView::Unsupported(name) => name,
        KindView::Double => "double"@,
        KindView::Float => "float"@,
        KindView::Int32 => "int32"@,
        KindView::Int64 => "int64"@,
        KindView::UInt32 => "uint32"@,
        KindView::UInt64 => "uint64"@,
        KindView::Bool => "bool"@,
        KindView::String => "string"@,
        KindView::Bytes => "bytes"@,
    }
}

/// The cardinalities a Rust type may use for the expected field, as they read in a diagnostic: a
/// singular message field may also be `Option`.
pub open spec fn cardinalities_of(kind: KindView, cardinality: CardinalityView) -> Seq<Seq<char>> {
    match cardinality {
        CardinalityView::MapOf { .. } => seq!["map"@],
        CardinalityView::Repeated => seq!["repeated"@],
        CardinalityView::Optional => seq!["optional (explicit presence)"@],
        CardinalityView::Singular => if kind is Message {
            seq!["singular"@, "optional (explicit presence)"@]
        } else {
            seq!["singular"@]
        },
    }
}

/// Human form of the expected shape: `a map<K, V>`, or the accepted cardinalities joined with
/// `or`, then the kind.
pub open spec fn describe_of(kind: KindView, cardinality: CardinalityView) -> Seq<char> {
    match cardinality {
        CardinalityView::MapOf { key, value } => "a map<"@ + kind_description_of(key) + ", "@
            + kind_description_of(value) + ">"@,
        _ => join_of(cardinalities_of(kind, cardinality), " or "@) + " "@ + kind_description_of(
            kind,
        ),
    }
}

fn push_kind(out: &mut Vec<char>, kind: &FieldKind)
    ensures
        final(out)@ == old(out)@ + kind_description_of(kind_view(*kind)),
{
    match kind {
        FieldKind::Message(name) => {
            push_str(out, "message ");
            push_str(out, name.as_str());
        },
        FieldKind::Enum(name) => {
            push_str(out, "enum ");
            push_str(out, name.as_str());
        },
        FieldKind::Unsupported(name) => push_str(out, name.as_str()),
        FieldKind::Double => push_str(out, "double"),
        FieldKind::Float => push_str(out, "float"),
        FieldKind::Int32 => push_str(out, "int32"),
        FieldKind::Int64 => push_str(out, "int64"),
        FieldKind::UInt32 => push_str(out, "uint32"),
        FieldKind::UInt64 => push_str(out, "uint64"),
        FieldKind::Bool => push_str(out, "bool"),
        FieldKind::String => push_str(out, "string"),
        FieldKind::Bytes => push_str(out, "bytes"),
    }
    assert(final(out)@ =~= old(out)@ + kind_description_of(kind_view(*kind)));
}

/// How a kind reads in a diagnostic.
pub fn kind_description(kind: &FieldKind) -> (text: String)
    ensures
        text@ == kind_description_of(kind_view(*kind)),
{
    let mut out: Vec<char> = Vec::new();
    push_kind(&mut out, kind);
    assert(out@ =~= kind_description_of(kind_view(*kind)));
    string_of(out.as_slice())
}

/// The proto type a message- or enum-kind field names; scalars name nothing.
pub fn proto_type_name(kind: &FieldKind) -> (name: Option<&str>)
    ensures
        match kind_view(*kind) {
            KindView::Message(n) => name matches Some(s) && s@ == n,
            KindView::Enum(n) => name matches Some(s) && s@ == n,
            _ => name is None,
        },
{
    match kind {
        FieldKind::Message(name) => Some(name.as_str()),
        FieldKind::Enum(name) => Some(name.as_str()),
        _ => None,
    }
}

/// Human form of the expected shape, for the assert message.
pub fn describe(expect: &Expectation) -> (text: String)
    ensures
        text@ == describe_of(kind_view(expect.kind), cardinality_view(expect.cardinality)),
{
    let mut out: Vec<char> = Vec::new();
    match &expect.cardinality {
        Cardinality::MapOf { key, value } => {
            push_str(&mut out, "a map<");
            push_kind(&mut out, key);
            push_str(&mut out, ", ");
            push_kind(&mut out, value);
            push_str(&mut out, ">");
        },
        Cardinality::Repeated => push_str(&mut out, "repeated"),
        Cardinality::Optional => push_str(&mut out, "optional (explicit presence)"),
        Cardinality::Singular => {
            push_str(&mut out, "singular");
            if let FieldKind::Message(_) = &expect.kind {
                push_str(&mut out, " or ");
                push_str(&mut out, "optional (explicit presence)");
            }
        },
    }
    let is_map = match &expect.cardinality {
        Cardinality::MapOf { .. } => true,
        _ => false,
    };
    if !is_map {
        push_str(&mut out, " ");
        push_kind(&mut out, &expect.kind);
    }
    proof {
        reveal_with_fuel(join_of, 3);
        let cards = cardinalities_of(kind_view(expect.kind), cardinality_view(expect.cardinality));
        if cards.len() == 2 {
            assert(cards.drop_last() =~= seq!["singular"@]);
            assert(join_of(cards, " or "@) == "singular"@ + " or "@ + "optional (explicit presence)"@);
        }
    }
    assert(out@ =~= describe_of(kind_view(expect.kind), cardinality_view(expect.cardinality)));
    string_of(out.as_slice())
}

/// The kind that keeps a field's expectation from being checked, if any: for a map its key, else
/// its value, when the codec does not implement it (the map's own kind is not checked); otherwise
/// the field's own kind.
pub open spec fn unsupported_of(kind: KindView, cardinality: CardinalityView) -> Option<KindView> {
    match cardinality {
        CardinalityView::MapOf { key, value } => if key is Unsupported {
            Some(key)
        } else if value is Unsupported {
            Some(value)
        } else {
            None
        },
        _ => if kind is Unsupported {
            Some(kind)
        } else {
            None
        },
    }
}

/// The kind that keeps `expect` from being checked, as [`unsupported_of`] says.
pub fn unsupported_kind(expect: &Expectation) -> (r: Option<&FieldKind>)
    ensures
        match r {
            Some(k) => unsupported_of(kind_view(expect.kind), cardinality_view(expect.cardinality)) == Some(
                kind_view(*k),
            ),
            None => unsupported_of(kind_view(expect.kind), cardinality_view(expect.cardinality)) is None,
        },
{
    match &expect.cardinality {
        Cardinality::MapOf { key, value } => {
            if let FieldKind::Unsupported(_) = key {
                Some(key)
            } else if let FieldKind::Unsupported(_) = value {
                Some(value)
            } else {
                None
            }
        },
        _ => {
            if let FieldKind::Unsupported(_) = &expect.kind {
                Some(&expect.kind)
            } else {
                None
            }
        },
    }
}

/// The proto type the shape check names: a map's value type, any other field's own.
pub fn checked_type_name(expect: &Expectation) -> (name: Option<&str>)
    ensures
        ({
            let named = match cardinality_view(expect.cardinality) {
                CardinalityView::MapOf { value, .. } => value,
                _ => kind_view(expect.kind),
            };
            match named {
                KindView::Message(n) => name matches Some(s) && s@ == n,
                KindView::Enum(n) => name matches Some(s) && s@ == n,
                _ => name is None,
            }
        }),
{
    match &expect.cardinality {
        Cardinality::MapOf { value, .. } => proto_type_name(value),
        _ => proto_type_name(&expect.kind),
    }
}

pub open spec fn shape_message_of(
    type_ident: Seq<char>,
    proto_path: Seq<char>,
    kind: KindView,
    cardinality: CardinalityView,
) -> Seq<char> {
    "armonik: the Rust type of the field of `"@ + type_ident + "` mapping to proto field `"@ + proto_path
        + "` does not have the expected shape ("@ + describe_of(kind, cardinality) + ")"@
}

/// The message of the shape assert on the field of `type_ident` that maps to `proto_path`.
pub fn shape_message(type_ident: &str, proto_path: &str, expect: &Expectation) -> (text: String)
    ensures
        text@ == shape_message_of(
            type_ident@,
            proto_path@,
            kind_view(expect.kind),
            cardinality_view(expect.cardinality),
        ),
{
    let mut out: Vec<char> = Vec::new();
    push_str(&mut out, "armonik: the Rust type of the field of `");
    push_str(&mut out, type_ident);
    push_str(&mut out, "` mapping to proto field `");
    push_str(&mut out, proto_path);
    push_str(&mut out, "` does not have the expected shape (");
    let described = describe(expect);
    push_str(&mut out, described.as_str());
    push_str(&mut out, ")");
    assert(out@ =~= shape_message_of(
        type_ident@,
        proto_path@,
        kind_view(expect.kind),
        cardinality_view(expect.cardinality),
    ));
    string_of(out.as_slice())
}

pub open spec fn unsupported_message_of(kind: KindView, proto_path: Seq<char>) -> Seq<char> {
    "armonik: proto field `"@ + proto_path + "` uses wire kind "@ + kind_description_of(kind)
        + ", which the codec does not implement"@
}

/// The error for a proto field whose wire kind the codec does not implement.
pub fn unsupported_message(kind: &FieldKind, proto_path: &str) -> (text: String)
    ensures
        text@ == unsupported_message_of(kind_view(*kind), proto_path@),
{
    let mut out: Vec<char> = Vec::new();
    push_str(&mut out, "armonik: proto field `");
    push_str(&mut out, proto_path);
    push_str(&mut out, "` uses wire kind ");
    push_kind(&mut out, kind);
    push_str(&mut out, ", which the codec does not implement");
    assert(out@ =~= unsupported_message_of(kind_view(*kind), proto_path@));
    string_of(out.as_slice())
}

/// One field a generic instantiation is checked on: its tag, what the descriptor says it is, and
/// its proto path.
pub struct FieldCheck {
    pub tag: u32,
    pub expect: Expectation,
    pub proto_path: String,
}

pub open spec fn field_check_view(c: FieldCheck) -> (u32, KindView, CardinalityView, Seq<char>) {
    (c.tag, kind_view(c.expect.kind), cardinality_view(c.expect.cardinality), c.proto_path@)
}

/// The fields by tag, each as `(tag, position)`, fields of equal tag in declaration order.
pub open spec fn fields_by_tag(fields: Seq<FieldMeta>) -> Seq<(u32, usize)> {
    sort_by_key(Seq::new(fields.len(), |i: int| (fields[i].tag, i as usize)))
}

/// The checks of the first `k` fields of `order`, or the error of the first whose wire kind the
/// codec does not implement.
pub open spec fn checks_from(
    name: Seq<char>,
    fields: Seq<FieldMeta>,
    order: Seq<(u32, usize)>,
    k: int,
) -> Result<Seq<(u32, KindView, CardinalityView, Seq<char>)>, Seq<char>>
    decreases k,
{
    if k <= 0 {
        Ok(seq![])
    } else {
        match checks_from(name, fields, order, k - 1) {
            Err(e) => Err(e),
            Ok(done) => {
                let f = fields[order[k - 1].1 as int];
                let path = name + "."@ + f.name@;
                match unsupported_of(kind_view(f.kind), cardinality_view(f.cardinality)) {
                    Some(u) => Err(unsupported_message_of(u, path)),
                    None => Ok(done.push((f.tag, kind_view(f.kind), cardinality_view(f.cardinality), path))),
                }
            },
        }
    }
}

proof fn lemma_checks_error_sticks(
    name: Seq<char>,
    fields: Seq<FieldMeta>,
    order: Seq<(u32, usize)>,
    k: int,
    j: int,
)
    requires
        0 <= k <= j,
        checks_from(name, fields, order, k) is Err,
    ensures
        checks_from(name, fields, order, j) == checks_from(name, fields, order, k),
    decreases j - k,
{
    if j > k {
        lemma_checks_error_sticks(name, fields, order, k, j - 1);
    }
}

/// The checks a type alias gets for the message `name`: none when the alias instantiates nothing
/// or the message has a oneof; otherwise each field in tag order, or the error of the first whose
/// wire kind the codec does not implement.
pub open spec fn alias_checks_of(name: Seq<char>, meta: MessageMeta, instantiated: bool) -> Result<
    Seq<(u32, KindView, CardinalityView, Seq<char>)>,
    Seq<char>,
> {
    if !instantiated || meta.oneofs@.len() > 0 {
        Ok(seq![])
    } else {
        let order = fields_by_tag(meta.fields@);
        checks_from(name, meta.fields@, order, order.len() as int)
    }
}

/// The checks a type alias for the message `name` gets, as [`alias_checks_of`] says.
/// `instantiated` is whether the aliased path's last segment has generic arguments.
pub fn alias_checks(name: &str, meta: &MessageMeta, instantiated: bool) -> (r: Result<Vec<FieldCheck>, String>)
    ensures
        match r {
            Ok(checks) => alias_checks_of(name@, *meta, instantiated) == Ok::<
                Seq<(u32, KindView, CardinalityView, Seq<char>)>,
                Seq<char>,
            >(checks@.map_values(|c: FieldCheck| field_check_view(c))),
            Err(e) => alias_checks_of(name@, *meta, instantiated) == Err::<
                Seq<(u32, KindView, CardinalityView, Seq<char>)>,
                Seq<char>,
            >(e@),
        },
{
    if !instantiated || meta.oneofs.len() > 0 {
        let none: Vec<FieldCheck> = Vec::new();
        assert(none@.map_values(|c: FieldCheck| field_check_view(c)) =~= seq![]);
        return Ok(none);
    }
    let ghost fields = meta.fields@;
    let ghost unsorted = Seq::new(fields.len(), |i: int| (fields[i].tag, i as usize));
    let mut keyed: Vec<(u32, usize)> = Vec::new();
    let mut i: usize = 0;
    while i < meta.fields.len()
        invariant
            i <= fields.len(),
            fields == meta.fields@,
            unsorted == Seq::new(fields.len(), |j: int| (fields[j].tag, j as usize)),
            keyed@ =~= unsorted.take(i as int),
        decreases meta.fields.len() - i,
    {
        keyed.push((meta.fields[i].tag, i));
        i = i + 1;
    }
    assert(keyed@ =~= unsorted);
    let order = sort_keyed(keyed);
    proof {
        broadcast use vstd::seq_lib::group_to_multiset_ensures;

        crate::order::lemma_sort_by_key_orders_and_keeps(unsorted);
        assert forall|k: int| 0 <= k < order@.len() implies (#[trigger] order@[k]).1 < fields.len() by {
            assert(order@.to_multiset().count(order@[k]) > 0);
            assert(unsorted.to_multiset().count(order@[k]) > 0);
            assert(unsorted.contains(order@[k]));
        }
    }
    let mut out: Vec<FieldCheck> = Vec::new();
    assert(out@.map_values(|c: FieldCheck| field_check_view(c)) =~= seq![]);
    let mut k: usize = 0;
    while k < order.len()
        invariant
            k <= order@.len(),
            out@.len() == k,
            instantiated,
            meta.oneofs@.len() == 0,
            fields == meta.fields@,
            order@ == fields_by_tag(fields),
            forall|j: int| 0 <= j < order@.len() ==> (#[trigger] order@[j]).1 < fields.len(),
            checks_from(name@, fields, order@, k as int) == Ok::<
                Seq<(u32, KindView, CardinalityView, Seq<char>)>,
                Seq<char>,
            >(out@.map_values(|c: FieldCheck| field_check_view(c))),
        decreases order.len() - k,
    {
        let f = &meta.fields[order[k].1];
        let mut path: Vec<char> = Vec::new();
        push_str(&mut path, name);
        push_str(&mut path, ".");
        push_str(&mut path, f.name.as_str());
        let proto_path = string_of(path.as_slice());
        assert(proto_path@ =~= name@ + "."@ + f.name@);
        let expect = Expectation::of(f);
        match unsupported_kind(&expect) {
            Some(u) => {
                let message = unsupported_message(u, proto_path.as_str());
                proof {
                    assert(checks_from(name@, fields, order@, k + 1) == Err::<
                        Seq<(u32, KindView, CardinalityView, Seq<char>)>,
                        Seq<char>,
                    >(message@));
                    lemma_checks_error_sticks(name@, fields, order@, k + 1, order@.len() as int);
                }
                return Err(message);
            },
            None => {
                let ghost before = out@.map_values(|c: FieldCheck| field_check_view(c));
                out.push(FieldCheck { tag: f.tag, expect, proto_path });
                assert(out@.map_values(|c: FieldCheck| field_check_view(c)) =~= before.push(
                    field_check_view(out@[k as int]),
                ));
            },
        }
        k = k + 1;
    }
    Ok(out)
}

} // verus!
