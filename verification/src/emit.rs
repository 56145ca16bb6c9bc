//! What an expansion emits, as plain values: the slots a struct writes and merges, with the
//! compile-time check each is asserted with, in the plan's order.

use vstd::prelude::*;

use crate::descriptor::{clone_strings, strings_view};
use crate::expect::{
    shape_message, shape_message_of, unsupported_kind, unsupported_message, unsupported_message_of,
    unsupported_of,
};
use crate::shape::{plain_plan_view, slot_view, slots_view, PlainPlan, PlainPlanView, Slot, SlotCodec, SlotCodecView, SlotView};
use crate::enumeration::{
    catch_all_view, enum_plan_view, poisoned_list_view, EnumMode, EnumModeView, EnumPlan, EnumPlanView, EnumValue,
};
use crate::expect::{kind_view, cardinality_view, CardinalityView, Expectation, KindView};
use crate::oneof::{
    arm_view, named_slot_view, oneof_plan_view, Arm, ArmCodec, ArmCodecView, ArmView, NamedSlot, NamedSlotView, OneofPlan,
    OneofPlanView,
};
use crate::text::{chars_of, string_of};
use crate::order::{key_ordered, lemma_sort_by_key_orders_and_keeps, sort_by_key};

verus! {

/// The compile-time check a slot is emitted with.
pub enum SlotCheck {
    /// Nothing to check: a field with no expectation, such as one through a `with` adapter.
    Unchecked,
    /// A shape assert on the field's type, failing with this message.
    Shape(String),
    /// The field's wire kind has no codec: this error in place of the assert.
    Unsupported(String),
    /// A oneof delegate, asserted to stand for the oneof at this proto path.
    Oneof(String),
}

pub enum SlotCheckView {
    Unchecked,
    Shape(Seq<char>),
    Unsupported(Seq<char>),
    Oneof(Seq<char>),
}

/// What one slot emits: the field it writes, the tag it is written under, the tags whose
/// occurrences merge into it, and its check.
pub struct SlotEmission {
    pub field: usize,
    pub tag: u32,
    pub routes: Vec<u32>,
    pub check: SlotCheck,
}

pub struct SlotEmissionView {
    pub field: usize,
    pub tag: u32,
    pub routes: Seq<u32>,
    pub check: SlotCheckView,
}

pub open spec fn slot_emission_view(e: SlotEmission) -> SlotEmissionView {
    SlotEmissionView {
        field: e.field,
        tag: e.tag,
        routes: e.routes@,
        check: match e.check {
            SlotCheck::Unchecked => SlotCheckView::Unchecked,
            SlotCheck::Shape(m) => SlotCheckView::Shape(m@),
            SlotCheck::Unsupported(m) => SlotCheckView::Unsupported(m@),
            SlotCheck::Oneof(p) => SlotCheckView::Oneof(p@),
        },
    }
}

/// What a slot of the struct `type_ident` emits: a oneof delegate merges every member tag and is
/// asserted against its oneof; a field merges its own tag and is checked against what the
/// descriptor says it is, or reported when the codec has no such wire kind.
pub open spec fn slot_emission_of(type_ident: Seq<char>, s: SlotView) -> SlotEmissionView {
    match s.codec {
        SlotCodecView::Delegate { tags } => SlotEmissionView {
            field: s.field,
            tag: s.tag,
            routes: tags,
            check: SlotCheckView::Oneof(s.proto_path),
        },
        SlotCodecView::Field { checks, .. } => SlotEmissionView {
            field: s.field,
            tag: s.tag,
            routes: seq![s.tag],
            check: match checks {
                None => SlotCheckView::Unchecked,
                Some((kind, cardinality)) => match unsupported_of(kind, cardinality) {
                    Some(u) => SlotCheckView::Unsupported(unsupported_message_of(u, s.proto_path)),
                    None => SlotCheckView::Shape(shape_message_of(type_ident, s.proto_path, kind, cardinality)),
                },
            },
        },
    }
}

/// What a plain struct's expansion emits besides its item: the proto names it registers under,
/// the messages it absorbs, the fingerprint of its tripwire, and its slots, written in the plan's
/// order, which is tag order.
pub struct MessageEmission {
    pub names: Vec<String>,
    pub absorbs: Vec<String>,
    pub fingerprint: u64,
    pub slots: Vec<SlotEmission>,
}

pub struct MessageEmissionView {
    pub names: Seq<Seq<char>>,
    pub absorbs: Seq<Seq<char>>,
    pub fingerprint: u64,
    pub slots: Seq<SlotEmissionView>,
}

pub open spec fn message_emission_view(e: MessageEmission) -> MessageEmissionView {
    MessageEmissionView {
        names: strings_view(e.names@),
        absorbs: strings_view(e.absorbs@),
        fingerprint: e.fingerprint,
        slots: e.slots@.map_values(|x: SlotEmission| slot_emission_view(x)),
    }
}

pub open spec fn message_emission_of(type_ident: Seq<char>, fingerprint: u64, plan: PlainPlanView) -> MessageEmissionView {
    MessageEmissionView {
        names: plan.names,
        absorbs: plan.absorbs,
        fingerprint,
        slots: plan.slots.map_values(|s: SlotView| slot_emission_of(type_ident, s)),
    }
}

fn slot_emission(type_ident: &str, slot: &Slot) -> (e: SlotEmission)
    ensures
        slot_emission_view(e) == slot_emission_of(type_ident@, slot_view(*slot)),
{
    match &slot.codec {
        SlotCodec::Delegate { tags } => {
            let mut routes: Vec<u32> = Vec::new();
            let mut k: usize = 0;
            while k < tags.len()
                invariant
                    k <= tags@.len(),
                    routes@ =~= tags@.take(k as int),
                decreases tags.len() - k,
            {
                routes.push(tags[k]);
                k = k + 1;
            }
            assert(tags@.take(k as int) =~= tags@);
            let path = string_of(chars_of(slot.proto_path.as_str()).as_slice());
            SlotEmission { field: slot.field, tag: slot.tag, routes, check: SlotCheck::Oneof(path) }
        },
        SlotCodec::Field { checks, .. } => {
            let routes = vec![slot.tag];
            assert(routes@ =~= seq![slot.tag]);
            let check = match checks {
                None => SlotCheck::Unchecked,
                Some(expect) => match unsupported_kind(expect) {
                    Some(u) => SlotCheck::Unsupported(unsupported_message(u, slot.proto_path.as_str())),
                    None => SlotCheck::Shape(shape_message(type_ident, slot.proto_path.as_str(), expect)),
                },
            };
            SlotEmission { field: slot.field, tag: slot.tag, routes, check }
        },
    }
}

/// What the expansion of the plain struct `type_ident` emits, as [`message_emission_of`] says.
pub fn message_emission(type_ident: &str, fingerprint: u64, plan: &PlainPlan) -> (out: MessageEmission)
    ensures
        message_emission_view(out) == message_emission_of(type_ident@, fingerprint, plain_plan_view(*plan)),
{
    let mut slots: Vec<SlotEmission> = Vec::new();
    let mut k: usize = 0;
    while k < plan.slots.len()
        invariant
            k <= plan.slots@.len(),
            slots@.map_values(|x: SlotEmission| slot_emission_view(x)) =~= slots_view(plan.slots@).take(
                k as int,
            ).map_values(|s: SlotView| slot_emission_of(type_ident@, s)),
        decreases plan.slots.len() - k,
    {
        let e = slot_emission(type_ident, &plan.slots[k]);
        let ghost before = slots@.map_values(|x: SlotEmission| slot_emission_view(x));
        slots.push(e);
        proof {
            let f = |s: SlotView| slot_emission_of(type_ident@, s);
            assert(slots@.map_values(|x: SlotEmission| slot_emission_view(x)) =~= before.push(slot_emission_view(e)));
            assert(slots_view(plan.slots@).take(k + 1).map_values(f) =~= slots_view(plan.slots@).take(
                k as int,
            ).map_values(f).push(f(slots_view(plan.slots@)[k as int])));
        }
        k = k + 1;
    }
    assert(slots_view(plan.slots@).take(k as int) =~= slots_view(plan.slots@));
    MessageEmission {
        names: clone_strings(&plan.names),
        absorbs: clone_strings(&plan.absorbs),
        fingerprint,
        slots,
    }
}

/// What `Default` reads as: the variant standing for zero, else the unspecified constant, else a
/// placeholder where the enum declared no catch-all.
pub enum DefaultValue {
    Variant(String),
    Unspecified,
    Unimplemented,
}

pub enum DefaultValueView {
    Variant(Seq<char>),
    Unspecified,
    Unimplemented,
}

/// The wire side of an enumeration: a proto enum under the names that resolved, or a transparent
/// wrapper chain, its outermost tag and the tags of the wrappers under it, outermost first, or
/// placeholder bodies when no chain resolved.
pub enum WireEmission {
    Plain { names: Vec<String> },
    Chain { names: Vec<String>, root: u32, wrappers: Vec<u32> },
    Unresolved { names: Vec<String> },
}

pub enum WireEmissionView {
    Plain { names: Seq<Seq<char>> },
    Chain { names: Seq<Seq<char>>, root: u32, wrappers: Seq<u32> },
    Unresolved { names: Seq<Seq<char>> },
}

/// What an enumeration's expansion emits besides its item. The value-level items exist only for
/// an enum: the payload structs (the catch-all's, then those poisoned tuple variants name), the
/// `i32` conversions over the named values and the catch-all, `UNSPECIFIED` when no variant
/// stands for zero, `Default` unless the item derives it, and the comparison traits unless it
/// derives them.
pub struct EnumEmission {
    pub items: bool,
    pub payload_structs: Vec<String>,
    pub values: Vec<(i32, String)>,
    pub catch_all: Option<(String, String)>,
    pub unspecified: bool,
    pub default: Option<DefaultValue>,
    pub comparisons: bool,
    pub wire: WireEmission,
    pub fingerprint: u64,
    pub absorbs: Vec<String>,
}

pub struct EnumEmissionView {
    pub items: bool,
    pub payload_structs: Seq<Seq<char>>,
    pub values: Seq<(i32, Seq<char>)>,
    pub catch_all: Option<(Seq<char>, Seq<char>)>,
    pub unspecified: bool,
    pub default: Option<DefaultValueView>,
    pub comparisons: bool,
    pub wire: WireEmissionView,
    pub fingerprint: u64,
    pub absorbs: Seq<Seq<char>>,
}

pub open spec fn enum_emission_view(e: EnumEmission) -> EnumEmissionView {
    EnumEmissionView {
        items: e.items,
        payload_structs: strings_view(e.payload_structs@),
        values: e.values@.map_values(|v: (i32, String)| (v.0, v.1@)),
        catch_all: catch_all_view(e.catch_all),
        unspecified: e.unspecified,
        default: match e.default {
            Some(DefaultValue::Variant(v)) => Some(DefaultValueView::Variant(v@)),
            Some(DefaultValue::Unspecified) => Some(DefaultValueView::Unspecified),
            Some(DefaultValue::Unimplemented) => Some(DefaultValueView::Unimplemented),
            None => None,
        },
        comparisons: e.comparisons,
        wire: match e.wire {
            WireEmission::Plain { names } => WireEmissionView::Plain { names: strings_view(names@) },
            WireEmission::Chain { names, root, wrappers } => WireEmissionView::Chain {
                names: strings_view(names@),
                root,
                wrappers: wrappers@,
            },
            WireEmission::Unresolved { names } => WireEmissionView::Unresolved { names: strings_view(names@) },
        },
        fingerprint: e.fingerprint,
        absorbs: strings_view(e.absorbs@),
    }
}

/// The payload structs the poisoned variants name, in order.
pub open spec fn poisoned_payloads(p: Seq<(Seq<char>, Option<Seq<char>>)>, n: int) -> Seq<Seq<char>>
    decreases n,
{
    if n <= 0 {
        seq![]
    } else {
        match p[n - 1].1 {
            Some(t) => poisoned_payloads(p, n - 1).push(t),
            None => poisoned_payloads(p, n - 1),
        }
    }
}

pub open spec fn enum_emission_of(p: EnumPlanView) -> EnumEmissionView {
    let items = p.is_enum;
    EnumEmissionView {
        items,
        payload_structs: if items {
            (match p.catch_all {
                Some((_, payload)) => seq![payload],
                None => seq![],
            }) + poisoned_payloads(p.poisoned, p.poisoned.len() as int)
        } else {
            seq![]
        },
        values: if items {
            p.named.map_values(|v: crate::enumeration::EnumValueView| (v.number, v.ident))
        } else {
            seq![]
        },
        catch_all: if items {
            p.catch_all
        } else {
            None
        },
        unspecified: items && p.zero_variant is None && p.catch_all is Some,
        default: if items && !p.has_std_default {
            Some(
                match p.zero_variant {
                    Some(z) => DefaultValueView::Variant(z),
                    None => if p.catch_all is Some {
                        DefaultValueView::Unspecified
                    } else {
                        DefaultValueView::Unimplemented
                    },
                },
            )
        } else {
            None
        },
        comparisons: items && !p.derived_comparisons,
        wire: match p.mode {
            EnumModeView::Plain { names } => WireEmissionView::Plain { names },
            EnumModeView::Transparent { names, path } => match path {
                Some(tags) => if tags.len() > 0 {
                    WireEmissionView::Chain { names, root: tags[0], wrappers: tags.drop_first() }
                } else {
                    WireEmissionView::Unresolved { names }
                },
                None => WireEmissionView::Unresolved { names },
            },
        },
        fingerprint: p.fingerprint,
        absorbs: p.absorbs,
    }
}

/// What the expansion of a resolved enumeration emits, as [`enum_emission_of`] says.
pub fn enum_emission(plan: &EnumPlan) -> (out: EnumEmission)
    ensures
        enum_emission_view(out) == enum_emission_of(enum_plan_view(*plan)),
{
    let items = plan.is_enum;
    let ghost pv = enum_plan_view(*plan);
    let mut payload_structs: Vec<String> = Vec::new();
    let mut values: Vec<(i32, String)> = Vec::new();
    if items {
        match &plan.catch_all {
            Some((_, payload)) => payload_structs.push(payload.clone()),
            None => {},
        }
        let ghost head = strings_view(payload_structs@);
        assert(head =~= match pv.catch_all {
            Some((_, payload)) => seq![payload],
            None => seq![],
        });
        let mut k: usize = 0;
        while k < plan.poisoned.len()
            invariant
                k <= plan.poisoned@.len(),
                pv == enum_plan_view(*plan),
                strings_view(payload_structs@) =~= head + poisoned_payloads(pv.poisoned, k as int),
            decreases plan.poisoned.len() - k,
        {
            match &plan.poisoned[k].payload {
                Some(t) => {
                    let ghost before = strings_view(payload_structs@);
                    payload_structs.push(t.clone());
                    assert(strings_view(payload_structs@) =~= before.push(t@));
                },
                None => {},
            }
            k = k + 1;
        }
        let mut j: usize = 0;
        while j < plan.named.len()
            invariant
                j <= plan.named@.len(),
                pv == enum_plan_view(*plan),
                values@.map_values(|v: (i32, String)| (v.0, v.1@)) =~= pv.named.take(j as int).map_values(
                    |v: crate::enumeration::EnumValueView| (v.number, v.ident),
                ),
            decreases plan.named.len() - j,
        {
            let ghost before = values@.map_values(|v: (i32, String)| (v.0, v.1@));
            values.push((plan.named[j].number, plan.named[j].ident.clone()));
            proof {
                let f = |v: crate::enumeration::EnumValueView| (v.number, v.ident);
                assert(values@.map_values(|v: (i32, String)| (v.0, v.1@)) =~= before.push(
                    (plan.named@[j as int].number, plan.named@[j as int].ident@),
                ));
                assert(pv.named.take(j + 1).map_values(f) =~= pv.named.take(j as int).map_values(f).push(
                    f(pv.named[j as int]),
                ));
            }
            j = j + 1;
        }
        assert(pv.named.take(j as int) =~= pv.named);
    } else {
        assert(strings_view(payload_structs@) =~= seq![]);
        assert(values@.map_values(|v: (i32, String)| (v.0, v.1@)) =~= seq![]);
    }
    let catch_all = if items {
        match &plan.catch_all {
            Some((v, p)) => Some((v.clone(), p.clone())),
            None => None,
        }
    } else {
        None
    };
    let unspecified = items && plan.zero_variant.is_none() && plan.catch_all.is_some();
    let default = if items && !plan.has_std_default {
        Some(
            match &plan.zero_variant {
                Some(z) => DefaultValue::Variant(z.clone()),
                None => if plan.catch_all.is_some() {
                    DefaultValue::Unspecified
                } else {
                    DefaultValue::Unimplemented
                },
            },
        )
    } else {
        None
    };
    let wire = match &plan.mode {
        EnumMode::Plain { names } => WireEmission::Plain { names: clone_strings(names) },
        EnumMode::Transparent { names, path } => match path {
            Some(tags) => if tags.len() > 0 {
                let mut wrappers: Vec<u32> = Vec::new();
                let mut k: usize = 1;
                while k < tags.len()
                    invariant
                        1 <= k <= tags@.len(),
                        wrappers@ =~= tags@.subrange(1, k as int),
                    decreases tags.len() - k,
                {
                    wrappers.push(tags[k]);
                    k = k + 1;
                }
                assert(tags@.subrange(1, k as int) =~= tags@.drop_first());
                WireEmission::Chain { names: clone_strings(names), root: tags[0], wrappers }
            } else {
                WireEmission::Unresolved { names: clone_strings(names) }
            },
            None => WireEmission::Unresolved { names: clone_strings(names) },
        },
    };
    let out = EnumEmission {
        items,
        payload_structs,
        values,
        catch_all,
        unspecified,
        default,
        comparisons: items && !plan.derived_comparisons,
        wire,
        fingerprint: plan.fingerprint,
        absorbs: clone_strings(&plan.absorbs),
    };
    proof {
        let want = enum_emission_of(pv);
        let got = enum_emission_view(out);
        assert(got.payload_structs == want.payload_structs);
        assert(got.values == want.values);
        assert(got.catch_all == want.catch_all);
        assert(got.default == want.default);
        assert(got.wire == want.wire);
    }
    out
}

/// The check of a field with expectation `checks` at `proto_path` of the type `type_ident`.
pub open spec fn field_check_of(
    type_ident: Seq<char>,
    proto_path: Seq<char>,
    checks: Option<(KindView, CardinalityView)>,
) -> SlotCheckView {
    match checks {
        None => SlotCheckView::Unchecked,
        Some((kind, cardinality)) => match unsupported_of(kind, cardinality) {
            Some(u) => SlotCheckView::Unsupported(unsupported_message_of(u, proto_path)),
            None => SlotCheckView::Shape(shape_message_of(type_ident, proto_path, kind, cardinality)),
        },
    }
}

fn field_check(type_ident: &str, proto_path: &str, checks: Option<&Expectation>) -> (c: SlotCheck)
    ensures
        slot_check_view(c) == field_check_of(
            type_ident@,
            proto_path@,
            match checks {
                Some(e) => Some((kind_view(e.kind), cardinality_view(e.cardinality))),
                None => None,
            },
        ),
{
    match checks {
        None => SlotCheck::Unchecked,
        Some(expect) => match unsupported_kind(expect) {
            Some(u) => SlotCheck::Unsupported(unsupported_message(u, proto_path)),
            None => SlotCheck::Shape(shape_message(type_ident, proto_path, expect)),
        },
    }
}

pub open spec fn slot_check_view(c: SlotCheck) -> SlotCheckView {
    match c {
        SlotCheck::Unchecked => SlotCheckView::Unchecked,
        SlotCheck::Shape(m) => SlotCheckView::Shape(m@),
        SlotCheck::Unsupported(m) => SlotCheckView::Unsupported(m@),
        SlotCheck::Oneof(p) => SlotCheckView::Oneof(p@),
    }
}

/// One write of an arm: the tag it is written under and the check its type gets.
pub struct WriteEmission {
    pub tag: u32,
    pub check: SlotCheck,
}

pub open spec fn write_view(w: WriteEmission) -> (u32, SlotCheckView) {
    (w.tag, slot_check_view(w.check))
}

/// What one arm of a oneof-shaped enum emits: its variant, the member tag selecting it, its
/// writes (the member itself, or each part of an inlined member, in the plan's order), and the
/// order its encoding writes the variant's fields in: each entry a tag and the shared field it
/// belongs to, or `None` for the member.
pub struct ArmEmission {
    pub variant: usize,
    pub tag: u32,
    pub writes: Vec<WriteEmission>,
    pub order: Vec<(u32, Option<usize>)>,
}

pub struct ArmEmissionView {
    pub variant: usize,
    pub tag: u32,
    pub writes: Seq<(u32, SlotCheckView)>,
    pub order: Seq<(u32, Option<usize>)>,
}

pub open spec fn arm_emission_view(a: ArmEmission) -> ArmEmissionView {
    ArmEmissionView {
        variant: a.variant,
        tag: a.tag,
        writes: a.writes@.map_values(|w: WriteEmission| write_view(w)),
        order: a.order@,
    }
}

/// The fields a variant carries, keyed by tag: the shared fields in the plan's order, then the
/// member, where there is one.
pub open spec fn keyed_fields(shared: Seq<NamedSlotView>, member: Option<u32>) -> Seq<(u32, Option<usize>)> {
    Seq::new(shared.len(), |k: int| (shared[k].tag, Some(k as usize))) + match member {
        Some(tag) => seq![(tag, None::<usize>)],
        None => Seq::<(u32, Option<usize>)>::empty(),
    }
}

/// The order a variant's fields are written in: by ascending tag, so a shared field can sit
/// between two members, fields of one tag in the order they are carried.
pub open spec fn write_order_of(shared: Seq<NamedSlotView>, member: Option<u32>) -> Seq<(u32, Option<usize>)> {
    sort_by_key(keyed_fields(shared, member))
}

pub open spec fn part_write_of(type_ident: Seq<char>, p: NamedSlotView) -> (u32, SlotCheckView) {
    (p.tag, field_check_of(type_ident, p.proto_path, Some(p.checks)))
}

pub open spec fn arm_emission_of(type_ident: Seq<char>, shared: Seq<NamedSlotView>, a: ArmView) -> ArmEmissionView {
    ArmEmissionView {
        variant: a.variant,
        tag: a.tag,
        writes: match a.codec {
            ArmCodecView::Group { parts } => parts.map_values(|p: NamedSlotView| part_write_of(type_ident, p)),
            ArmCodecView::Presence(_) => seq![(a.tag, SlotCheckView::Unchecked)],
            ArmCodecView::Field { .. } => seq![(a.tag, field_check_of(type_ident, a.proto_path, a.checks))],
        },
        order: write_order_of(shared, Some(a.tag)),
    }
}

/// What a oneof-shaped enum's expansion emits besides its item: for a whole-message enum, the
/// proto names of its `Msg` impl, which it registers under; none for an embedded oneof, which is a
/// fragment of a message, so it gets no `Msg` impl and registers nothing; the `ONEOF` names of its marker (for an embedded oneof: the oneof's path, none when that
/// path is empty), the absorbed messages, the fingerprint, the shared fields' writes, the arms in
/// the plan's order, which is tag order, the variant written when no member is set, and the order
/// that variant writes the shared fields in.
pub struct OneofEmission {
    pub message: Option<Vec<String>>,
    pub marker: Option<Vec<String>>,
    pub absorbs: Vec<String>,
    pub fingerprint: u64,
    pub shared: Vec<WriteEmission>,
    pub arms: Vec<ArmEmission>,
    pub default_arm: Option<usize>,
    pub default_order: Vec<(u32, Option<usize>)>,
}

pub struct OneofEmissionView {
    pub message: Option<Seq<Seq<char>>>,
    pub marker: Option<Seq<Seq<char>>>,
    pub absorbs: Seq<Seq<char>>,
    pub fingerprint: u64,
    pub shared: Seq<(u32, SlotCheckView)>,
    pub arms: Seq<ArmEmissionView>,
    pub default_arm: Option<usize>,
    pub default_order: Seq<(u32, Option<usize>)>,
}

pub open spec fn oneof_emission_view(e: OneofEmission) -> OneofEmissionView {
    OneofEmissionView {
        message: match e.message {
            Some(n) => Some(strings_view(n@)),
            None => None,
        },
        marker: match e.marker {
            Some(m) => Some(strings_view(m@)),
            None => None,
        },
        absorbs: strings_view(e.absorbs@),
        fingerprint: e.fingerprint,
        shared: e.shared@.map_values(|w: WriteEmission| write_view(w)),
        arms: e.arms@.map_values(|a: ArmEmission| arm_emission_view(a)),
        default_arm: e.default_arm,
        default_order: e.default_order@,
    }
}

pub open spec fn oneof_emission_of(type_ident: Seq<char>, fingerprint: u64, p: OneofPlanView) -> OneofEmissionView {
    OneofEmissionView {
        message: match p.fragment_of {
            Some(_) => None,
            None => Some(p.names),
        },
        marker: match p.fragment_of {
            Some(path) => Some(if path.len() == 0 { seq![] } else { seq![path] }),
            None => None,
        },
        absorbs: p.absorbs,
        fingerprint,
        shared: p.shared.map_values(|s: NamedSlotView| part_write_of(type_ident, s)),
        arms: p.arms.map_values(|a: ArmView| arm_emission_of(type_ident, p.shared, a)),
        default_arm: p.default_arm,
        default_order: write_order_of(p.shared, None),
    }
}

fn part_writes(type_ident: &str, parts: &Vec<NamedSlot>) -> (w: Vec<WriteEmission>)
    ensures
        w@.map_values(|x: WriteEmission| write_view(x)) == parts@.map_values(|x: NamedSlot| named_slot_view(x)).map_values(
            |p: NamedSlotView| part_write_of(type_ident@, p),
        ),
{
    let ghost pv = parts@.map_values(|x: NamedSlot| named_slot_view(x));
    let ghost f = |p: NamedSlotView| part_write_of(type_ident@, p);
    let mut out: Vec<WriteEmission> = Vec::new();
    let mut k: usize = 0;
    while k < parts.len()
        invariant
            k <= parts@.len(),
            pv == parts@.map_values(|x: NamedSlot| named_slot_view(x)),
            f == |p: NamedSlotView| part_write_of(type_ident@, p),
            out@.map_values(|x: WriteEmission| write_view(x)) =~= pv.take(k as int).map_values(f),
        decreases parts.len() - k,
    {
        let part = &parts[k];
        let check = field_check(type_ident, part.proto_path.as_str(), Some(&part.checks));
        let ghost before = out@.map_values(|x: WriteEmission| write_view(x));
        let w = WriteEmission { tag: part.tag, check };
        out.push(w);
        proof {
            assert(write_view(w) == f(pv[k as int]));
            assert(out@.map_values(|x: WriteEmission| write_view(x)) =~= before.push(write_view(w)));
            assert(pv.take(k + 1).map_values(f) =~= pv.take(k as int).map_values(f).push(f(pv[k as int])));
        }
        k = k + 1;
    }
    assert(pv.take(k as int) =~= pv);
    out
}

/// The order a variant carrying `shared` and `member` writes them in.
fn write_order(shared: &Vec<NamedSlot>, member: Option<u32>) -> (order: Vec<(u32, Option<usize>)>)
    ensures
        order@ == write_order_of(shared@.map_values(|x: NamedSlot| named_slot_view(x)), member),
{
    let ghost sv = shared@.map_values(|x: NamedSlot| named_slot_view(x));
    let mut entries: Vec<(u32, Option<usize>)> = Vec::new();
    let mut k: usize = 0;
    while k < shared.len()
        invariant
            k <= shared@.len(),
            sv == shared@.map_values(|x: NamedSlot| named_slot_view(x)),
            entries@ =~= Seq::new(k as nat, |i: int| (sv[i].tag, Some(i as usize))),
        decreases shared.len() - k,
    {
        entries.push((shared[k].tag, Some(k)));
        k = k + 1;
    }
    if let Some(tag) = member {
        entries.push((tag, None));
    }
    assert(entries@ =~= keyed_fields(sv, member));
    crate::order::sort_keyed(entries)
}

fn arm_emission(type_ident: &str, shared: &Vec<NamedSlot>, arm: &Arm) -> (e: ArmEmission)
    ensures
        arm_emission_view(e) == arm_emission_of(
            type_ident@,
            shared@.map_values(|x: NamedSlot| named_slot_view(x)),
            arm_view(*arm),
        ),
{
    let writes = match &arm.codec {
        ArmCodec::Group { parts } => part_writes(type_ident, parts),
        ArmCodec::Presence(_) => {
            let w = vec![WriteEmission { tag: arm.tag, check: SlotCheck::Unchecked }];
            assert(w@.map_values(|x: WriteEmission| write_view(x)) =~= seq![(arm.tag, SlotCheckView::Unchecked)]);
            w
        },
        ArmCodec::Field { .. } => {
            let check = field_check(
                type_ident,
                arm.proto_path.as_str(),
                match &arm.checks {
                    Some(e) => Some(e),
                    None => None,
                },
            );
            let w = vec![WriteEmission { tag: arm.tag, check }];
            assert(w@.map_values(|x: WriteEmission| write_view(x)) =~= seq![write_view(w@[0])]);
            w
        },
    };
    let order = write_order(shared, Some(arm.tag));
    ArmEmission { variant: arm.variant, tag: arm.tag, writes, order }
}

/// What the expansion of the oneof-shaped enum `type_ident` emits, as [`oneof_emission_of`]
/// says.
pub fn oneof_emission(type_ident: &str, fingerprint: u64, plan: &OneofPlan) -> (out: OneofEmission)
    ensures
        oneof_emission_view(out) == oneof_emission_of(type_ident@, fingerprint, oneof_plan_view(*plan)),
{
    let ghost pv = oneof_plan_view(*plan);
    let shared = part_writes(type_ident, &plan.shared);
    let ghost f = |a: ArmView| arm_emission_of(type_ident@, pv.shared, a);
    let mut arms: Vec<ArmEmission> = Vec::new();
    let mut k: usize = 0;
    while k < plan.arms.len()
        invariant
            k <= plan.arms@.len(),
            pv == oneof_plan_view(*plan),
            f == |a: ArmView| arm_emission_of(type_ident@, pv.shared, a),
            arms@.map_values(|x: ArmEmission| arm_emission_view(x)) =~= pv.arms.take(k as int).map_values(f),
        decreases plan.arms.len() - k,
    {
        let e = arm_emission(type_ident, &plan.shared, &plan.arms[k]);
        let ghost before = arms@.map_values(|x: ArmEmission| arm_emission_view(x));
        arms.push(e);
        proof {
            assert(arms@.map_values(|x: ArmEmission| arm_emission_view(x)) =~= before.push(arm_emission_view(e)));
            assert(pv.arms.take(k + 1).map_values(f) =~= pv.arms.take(k as int).map_values(f).push(
                f(pv.arms[k as int]),
            ));
        }
        k = k + 1;
    }
    assert(pv.arms.take(k as int) =~= pv.arms);
    let marker = match &plan.fragment_of {
        Some(path) => {
            let mut names: Vec<String> = Vec::new();
            if chars_of(path.as_str()).len() > 0 {
                names.push(path.clone());
            }
            assert(strings_view(names@) =~= if path@.len() == 0 {
                Seq::<Seq<char>>::empty()
            } else {
                seq![path@]
            });
            Some(names)
        },
        None => None,
    };
    let message = match &plan.fragment_of {
        Some(_) => None,
        None => Some(clone_strings(&plan.names)),
    };
    OneofEmission {
        message,
        marker,
        absorbs: clone_strings(&plan.absorbs),
        fingerprint,
        shared,
        arms,
        default_arm: plan.default_arm,
        default_order: write_order(&plan.shared, None),
    }
}

/// A resolved struct's expansion writes its fields in ascending tag order.
pub proof fn lemma_struct_fields_written_in_tag_order(
    type_ident: Seq<char>,
    fingerprint: u64,
    messages: Seq<(String, crate::descriptor::MessageMeta)>,
    names: Seq<Seq<char>>,
    generic_params: bool,
    is_struct: bool,
    fields: Seq<crate::shape::StructField>,
    errors: Seq<(crate::shape::Site, Seq<char>)>,
)
    requires
        crate::shape::plain_of(messages, names, generic_params, is_struct, fields, errors) is Ok,
    ensures
        ({
            let plan = crate::shape::plain_of(messages, names, generic_params, is_struct, fields, errors)->Ok_0;
            let e = message_emission_of(type_ident, fingerprint, plan);
            forall|i: int, j: int| 0 <= i <= j < e.slots.len() ==> (#[trigger] e.slots[i]).tag <= (#[trigger] e.slots[j]).tag
        }),
{
    let plan = crate::shape::plain_of(messages, names, generic_params, is_struct, fields, errors)->Ok_0;
    crate::shape::lemma_struct_slots_in_tag_order(messages, names, generic_params, is_struct, fields, errors);
    let e = message_emission_of(type_ident, fingerprint, plan);
    assert forall|i: int, j: int| 0 <= i <= j < e.slots.len() implies (#[trigger] e.slots[i]).tag <= (
    #[trigger] e.slots[j]).tag by {
        assert(e.slots[i] == slot_emission_of(type_ident, plan.slots[i]));
        assert(e.slots[j] == slot_emission_of(type_ident, plan.slots[j]));
        assert(plan.slots[i].tag <= plan.slots[j].tag);
    }
}

/// Every variant of a oneof-shaped enum writes its fields in ascending tag order, and writes each
/// field it carries exactly once: the shared fields and its member.
pub proof fn lemma_oneof_fields_written_in_tag_order(type_ident: Seq<char>, fingerprint: u64, p: OneofPlanView)
    ensures
        ({
            let e = oneof_emission_of(type_ident, fingerprint, p);
            &&& forall|a: int|
                0 <= a < e.arms.len() ==> key_ordered((#[trigger] e.arms[a]).order)
                    && e.arms[a].order.to_multiset() == keyed_fields(p.shared, Some(p.arms[a].tag)).to_multiset()
            &&& key_ordered(e.default_order)
            &&& e.default_order.to_multiset() == keyed_fields(p.shared, None).to_multiset()
        }),
{
    let e = oneof_emission_of(type_ident, fingerprint, p);
    assert forall|a: int| 0 <= a < e.arms.len() implies key_ordered((#[trigger] e.arms[a]).order)
        && e.arms[a].order.to_multiset() == keyed_fields(p.shared, Some(p.arms[a].tag)).to_multiset() by {
        lemma_sort_by_key_orders_and_keeps(keyed_fields(p.shared, Some(p.arms[a].tag)));
    }
    lemma_sort_by_key_orders_and_keeps(keyed_fields(p.shared, None));
}

/// An enumeration's `Default` is its zero value: where a variant stands for zero it is that
/// variant, catch-all or not; it names the `UNSPECIFIED` const only when that const is emitted,
/// which is exactly when no variant stands for zero and a catch-all can hold it; and it is a
/// placeholder only when there is neither. An item that derives `Default`, or is no enum, gets
/// none.
pub proof fn lemma_enum_default_is_the_zero_value(p: EnumPlanView)
    ensures
        ({
            let e = enum_emission_of(p);
            &&& e.default is Some <==> p.is_enum && !p.has_std_default
            &&& e.unspecified <==> p.is_enum && p.zero_variant is None && p.catch_all is Some
            &&& forall|z: Seq<char>|
                p.is_enum && !p.has_std_default && p.zero_variant == Some(z) ==> e.default == Some(
                    DefaultValueView::Variant(z),
                )
            &&& e.default == Some(DefaultValueView::Unspecified) ==> e.unspecified
            &&& e.default == Some(DefaultValueView::Unimplemented) ==> p.zero_variant is None
                && p.catch_all is None
            &&& forall|v: Seq<char>| e.default == Some(DefaultValueView::Variant(v)) ==> p.zero_variant == Some(v)
        }),
{
}

/// An enum's value-level items convert exactly its named values, in order, number for number,
/// with its catch-all; the comparison traits are emitted unless the item derives them, and the
/// tripwire carries the plan's fingerprint. An item that is no enum gets none of these.
pub proof fn lemma_enum_items_follow_the_plan(p: EnumPlanView)
    ensures
        ({
            let e = enum_emission_of(p);
            &&& e.items == p.is_enum
            &&& e.fingerprint == p.fingerprint
            &&& e.comparisons <==> p.is_enum && !p.derived_comparisons
            &&& p.is_enum ==> e.catch_all == p.catch_all && e.values.len() == p.named.len() && forall|i: int|
                0 <= i < p.named.len() ==> (#[trigger] e.values[i]) == (p.named[i].number, p.named[i].ident)
            &&& !p.is_enum ==> e.catch_all is None && e.values.len() == 0 && e.payload_structs.len() == 0
        }),
{
}

/// A struct's field is merged back from exactly the tag it is written under: every field slot
/// routes its own tag and no other, a oneof delegate routes every member tag of its oneof, and
/// each slot keeps the field and tag of the plan's slot it comes from.
pub proof fn lemma_fields_merge_their_own_tag(type_ident: Seq<char>, fingerprint: u64, plan: PlainPlanView)
    ensures
        ({
            let e = message_emission_of(type_ident, fingerprint, plan);
            &&& e.slots.len() == plan.slots.len()
            &&& forall|i: int|
                0 <= i < plan.slots.len() ==> (#[trigger] e.slots[i]).field == plan.slots[i].field
                    && e.slots[i].tag == plan.slots[i].tag
            &&& forall|i: int|
                0 <= i < plan.slots.len() && plan.slots[i].codec is Field ==> (#[trigger] e.slots[i]).routes
                    == seq![plan.slots[i].tag]
            &&& forall|i: int|
                0 <= i < plan.slots.len() && plan.slots[i].codec is Delegate ==> (#[trigger] e.slots[i]).routes
                    == plan.slots[i].codec->Delegate_tags && e.slots[i].check == SlotCheckView::Oneof(
                    plan.slots[i].proto_path,
                )
            &&& forall|i: int|
                0 <= i < plan.slots.len() && plan.slots[i].codec is Field ==> ((#[trigger] e.slots[i]).check
                    is Unchecked <==> plan.slots[i].codec->Field_checks is None)
            &&& e.names == plan.names
            &&& e.absorbs == plan.absorbs
            &&& e.fingerprint == fingerprint
        }),
{
    let e = message_emission_of(type_ident, fingerprint, plan);
    assert forall|i: int| 0 <= i < plan.slots.len() implies (#[trigger] e.slots[i]) == slot_emission_of(
        type_ident,
        plan.slots[i],
    ) by {}
}

} // verus!
