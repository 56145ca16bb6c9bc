//! Resolving a plain struct against one proto message: every Rust field matched by name to a proto
//! field or oneof, every proto field and oneof covered, and the slots ordered by tag.
//!
//! The item arrives as plain values: the Rust field names, what each field's attributes said, and
//! whether the item is a struct and has generic parameters. Diagnostics point at a site of the item
//! rather than at a token span.

use vstd::prelude::*;

use crate::descriptor::{
    find_entry, position_of, strings_view, DescriptorIndex, FieldMeta, MessageMeta,
};
use crate::expect::{cardinality_view, kind_view, CardinalityView, Expectation, KindView};
use crate::matcher::{
    field_gaps, field_position, message_wf, not_found, not_found_of, oneof_gaps,
    oneof_member_message, oneof_position, unknown_field_message, Found, Matcher,
};
use crate::text::{chars_of, copy_range, decimal, decimal_of, push_str, string_of};

verus! {

/// Where a diagnostic points.
#[derive(Clone, Copy, Debug, PartialEq, Eq, Structural)]
pub enum Site {
    /// The item's name.
    Item,
    /// The `i`-th `message = ...` attribute.
    MessageAttr(usize),
    /// The `i`-th type-level attribute entry, whatever its key.
    Attr(usize),
    /// The `v`-th variant's name.
    Variant(usize),
    /// The `with = ...` key of the `v`-th variant.
    VariantWith(usize),
    /// The `inline` key of the `v`-th variant.
    VariantInline(usize),
    /// The name of field `f` of variant `v`.
    VariantField(usize, usize),
    /// The type of field `f` of variant `v`.
    VariantFieldType(usize, usize),
    /// The `with = ...` key of field `f` of variant `v`.
    VariantFieldWith(usize, usize),
    /// The `i`-th field.
    Field(usize),
    /// The `i`-th proto name given as the macro's argument.
    Name(usize),
    /// The `i`-th path the item's `derive` attributes list.
    Derive(usize),
}

/// A diagnostic and where it points.
pub struct Diagnostic {
    pub site: Site,
    pub message: String,
}

pub open spec fn diagnostic_view(d: Diagnostic) -> (Site, Seq<char>) {
    (d.site, d.message@)
}

pub open spec fn diagnostics_view(ds: Seq<Diagnostic>) -> Seq<(Site, Seq<char>)> {
    ds.map_values(|d: Diagnostic| diagnostic_view(d))
}

/// What a field's `#[armonik(...)]` attributes said.
pub struct FieldAttrs {
    /// `rename = "..."`: the proto name the field matches by.
    pub rename: Option<String>,
    /// `with = ...`: whether the field goes through an adapter.
    pub with: bool,
    /// `absorbs = ...`: messages the adapter flattens away.
    pub absorbs: Vec<String>,
}

/// A Rust field: its identifier as written (none for a tuple field), and its attributes as read,
/// or the diagnostics that rejected them.
pub struct StructField {
    pub ident: Option<String>,
    pub attrs: Result<FieldAttrs, Vec<Diagnostic>>,
}

/// How a slot is encoded: delegated whole to a oneof-shaped type with the oneof's member tags, or
/// as one field, through an adapter or checked against the descriptor.
pub enum SlotCodec {
    Delegate { tags: Vec<u32> },
    Field { adapter: bool, checks: Option<Expectation> },
}

/// One Rust field resolved: which field, its tag, how it is encoded, its proto path and docs.
pub struct Slot {
    pub field: usize,
    pub tag: u32,
    pub codec: SlotCodec,
    pub proto_path: String,
    pub docs: Vec<String>,
}

/// A plain struct resolved: the message it stands for, that message's docs, the absorbed
/// messages, and the slots in tag order.
pub struct PlainPlan {
    pub names: Vec<String>,
    pub docs: Vec<String>,
    pub absorbs: Vec<String>,
    pub slots: Vec<Slot>,
}

pub enum SlotCodecView {
    Delegate { tags: Seq<u32> },
    Field { adapter: bool, checks: Option<(KindView, CardinalityView)> },
}

pub struct SlotView {
    pub field: usize,
    pub tag: u32,
    pub codec: SlotCodecView,
    pub proto_path: Seq<char>,
    pub docs: Seq<Seq<char>>,
}

pub open spec fn slot_view(s: Slot) -> SlotView {
    SlotView {
        field: s.field,
        tag: s.tag,
        codec: match s.codec {
            SlotCodec::Delegate { tags } => SlotCodecView::Delegate { tags: tags@ },
            SlotCodec::Field { adapter, checks } => SlotCodecView::Field {
                adapter,
                checks: match checks {
                    Some(e) => Some((kind_view(e.kind), cardinality_view(e.cardinality))),
                    None => None,
                },
            },
        },
        proto_path: s.proto_path@,
        docs: strings_view(s.docs@),
    }
}

pub open spec fn slots_view(s: Seq<Slot>) -> Seq<SlotView> {
    s.map_values(|x: Slot| slot_view(x))
}

pub struct PlainPlanView {
    pub names: Seq<Seq<char>>,
    pub docs: Seq<Seq<char>>,
    pub absorbs: Seq<Seq<char>>,
    pub slots: Seq<SlotView>,
}

pub open spec fn plain_plan_view(p: PlainPlan) -> PlainPlanView {
    PlainPlanView {
        names: strings_view(p.names@),
        docs: strings_view(p.docs@),
        absorbs: strings_view(p.absorbs@),
        slots: slots_view(p.slots@),
    }
}

/// An identifier without its raw `r#` prefix.
pub open spec fn unraw_of(ident: Seq<char>) -> Seq<char> {
    if ident.len() >= 2 && ident[0] == 'r' && ident[1] == '#' {
        ident.skip(2)
    } else {
        ident
    }
}

/// An identifier without its raw `r#` prefix: the name it matches a proto name by.
pub fn unraw(ident: &str) -> (name: String)
    ensures
        name@ == unraw_of(ident@),
{
    let chars = chars_of(ident);
    if chars.len() >= 2 && chars[0] == 'r' && chars[1] == '#' {
        let rest = copy_range(&chars, 2, chars.len());
        assert(rest@ =~= chars@.skip(2));
        string_of(rest.as_slice())
    } else {
        ident.to_owned()
    }
}

/// Where a slot of tag `tag` goes in `sorted`: before the first slot whose tag is not smaller.
pub open spec fn insert_at(sorted: Seq<SlotView>, tag: u32) -> int
    decreases sorted.len(),
{
    if sorted.len() == 0 || sorted[0].tag >= tag {
        0
    } else {
        1 + insert_at(sorted.drop_first(), tag)
    }
}

/// The slots in tag order, slots of equal tag in the order they came: read from the last, each
/// slot inserted before every later one whose tag is not smaller.
pub open spec fn sort_by_tag(s: Seq<SlotView>) -> Seq<SlotView>
    decreases s.len(),
{
    if s.len() == 0 {
        s
    } else {
        let sorted = sort_by_tag(s.drop_first());
        let at = insert_at(sorted, s[0].tag);
        sorted.take(at).push(s[0]) + sorted.skip(at)
    }
}

proof fn lemma_insert_at_bounds(sorted: Seq<SlotView>, tag: u32)
    ensures
        0 <= insert_at(sorted, tag) <= sorted.len(),
    decreases sorted.len(),
{
    if sorted.len() > 0 && sorted[0].tag < tag {
        lemma_insert_at_bounds(sorted.drop_first(), tag);
    }
}

/// Where a slot of tag `tag` goes among `slots`.
fn insert_position(slots: &Vec<Slot>, tag: u32) -> (at: usize)
    ensures
        at as int == insert_at(slots_view(slots@), tag),
        at <= slots@.len(),
{
    let ghost view = slots_view(slots@);
    let mut i: usize = 0;
    assert(view.skip(0) =~= view);
    while i < slots.len() && slots[i].tag < tag
        invariant
            i <= slots@.len(),
            view == slots_view(slots@),
            insert_at(view, tag) == i + insert_at(view.skip(i as int), tag),
        decreases slots.len() - i,
    {
        assert(view.skip(i as int)[0] == view[i as int]);
        assert(view.skip(i as int).drop_first() =~= view.skip(i + 1));
        i = i + 1;
    }
    if i < slots.len() {
        assert(view.skip(i as int)[0] == view[i as int]);
    }
    i
}

/// The slots in tag order, equal tags keeping the order they came in.
pub(crate) fn sort_slots(slots: Vec<Slot>) -> (sorted: Vec<Slot>)
    ensures
        slots_view(sorted@) == sort_by_tag(slots_view(slots@)),
{
    let ghost all = slots_view(slots@);
    let mut rest = slots;
    let mut sorted: Vec<Slot> = Vec::new();
    assert(all.skip(all.len() as int) =~= Seq::<SlotView>::empty());
    while rest.len() > 0
        invariant
            rest@.len() <= all.len(),
            slots_view(rest@) == all.take(rest@.len() as int),
            slots_view(sorted@) == sort_by_tag(all.skip(rest@.len() as int)),
        decreases rest.len(),
    {
        let ghost n = rest@.len() as int;
        let x = rest.pop().unwrap();
        assert(slot_view(x) == all[n - 1]) by {
            assert(all.take(n)[n - 1] == all[n - 1]);
        }
        assert(slots_view(rest@) =~= all.take(n - 1));
        let ghost suffix = all.skip(n - 1);
        assert(suffix[0] == all[n - 1]);
        assert(suffix.drop_first() =~= all.skip(n));
        let at = insert_position(&sorted, x.tag);
        let ghost before = slots_view(sorted@);
        sorted.insert(at, x);
        assert(slots_view(sorted@) =~= before.take(at as int).push(slot_view(x)) + before.skip(
            at as int,
        ));
    }
    assert(all.skip(0) =~= all);
    sorted
}

/// The smallest of `tags`, or zero when there is none.
pub open spec fn min_tag(tags: Seq<u32>) -> u32
    decreases tags.len(),
{
    if tags.len() == 0 {
        0
    } else if tags.len() == 1 {
        tags[0]
    } else {
        let rest = min_tag(tags.drop_first());
        if tags[0] <= rest {
            tags[0]
        } else {
            rest
        }
    }
}

/// What resolving the fields has gathered so far.
pub struct PlainState {
    pub consumed: Seq<bool>,
    pub oneofs: Seq<bool>,
    pub slots: Seq<SlotView>,
    pub absorbs: Seq<Seq<char>>,
    pub errors: Seq<(Site, Seq<char>)>,
}

pub open spec fn tuple_field_message() -> Seq<char> {
    "tuple struct fields need #[armonik(rename = \"proto_field_name\")]"@
}

pub open spec fn adapter_on_oneof_message() -> Seq<char> {
    "with/tag attributes are not supported on oneof fields"@
}

/// The proto name a field matches by: its `rename`, else its identifier, unraw; a tuple field
/// without `rename` has none.
pub open spec fn proto_name_of(f: StructField, a: FieldAttrs) -> Option<Seq<char>> {
    match a.rename {
        Some(n) => Some(n@),
        None => match f.ident {
            Some(id) => Some(unraw_of(id@)),
            None => None,
        },
    }
}

/// The field at `i` resolved against the message `message`, after what `st` gathered: its
/// absorbed messages recorded, its proto name looked up among the fields then the oneofs and
/// marked consumed, and a slot or a diagnostic added.
pub open spec fn field_step_of(
    message: Seq<char>,
    meta: &MessageMeta,
    st: PlainState,
    f: StructField,
    i: int,
) -> PlainState {
    match f.attrs {
        Err(ds) => PlainState { errors: st.errors + diagnostics_view(ds@), ..st },
        Ok(a) => {
            let absorbs = st.absorbs + strings_view(a.absorbs@);
            let site = Site::Field(i as usize);
            match proto_name_of(f, a) {
                None => PlainState {
                    absorbs,
                    errors: st.errors.push((site, tuple_field_message())),
                    ..st
                },
                Some(name) => {
                    let path = message + "."@ + name;
                    match field_position(meta.fields@, name) {
                        Some(p) => {
                            let consumed = st.consumed.update(p, true);
                            let fm = meta.fields@[p];
                            if fm.oneof is Some {
                                PlainState {
                                    consumed,
                                    absorbs,
                                    errors: st.errors.push((site, oneof_member_message(message, name))),
                                    ..st
                                }
                            } else {
                                let slot = SlotView {
                                    field: i as usize,
                                    tag: fm.tag,
                                    codec: SlotCodecView::Field {
                                        adapter: a.with,
                                        checks: if a.with {
                                            None
                                        } else {
                                            Some((kind_view(fm.kind), cardinality_view(fm.cardinality)))
                                        },
                                    },
                                    proto_path: path,
                                    docs: strings_view(fm.docs@),
                                };
                                PlainState { consumed, absorbs, slots: st.slots.push(slot), ..st }
                            }
                        },
                        None => match oneof_position(meta.oneofs@, name) {
                            Some(q) => {
                                let oneofs = st.oneofs.update(q, true);
                                if a.with {
                                    PlainState {
                                        oneofs,
                                        absorbs,
                                        errors: st.errors.push((site, adapter_on_oneof_message())),
                                        ..st
                                    }
                                } else {
                                    let tags = meta.oneofs@[q].fields@.map_values(
                                        |x: usize| meta.fields@[x as int].tag,
                                    );
                                    let slot = SlotView {
                                        field: i as usize,
                                        tag: min_tag(tags),
                                        codec: SlotCodecView::Delegate { tags },
                                        proto_path: path,
                                        docs: Seq::empty(),
                                    };
                                    PlainState { oneofs, absorbs, slots: st.slots.push(slot), ..st }
                                }
                            },
                            None => PlainState {
                                absorbs,
                                errors: st.errors.push((site, unknown_field_message(message, name, meta))),
                                ..st
                            },
                        },
                    }
                },
            }
        },
    }
}

/// The first `k` fields resolved in order.
pub open spec fn fields_state_of(
    message: Seq<char>,
    meta: &MessageMeta,
    fields: Seq<StructField>,
    k: int,
    st: PlainState,
) -> PlainState
    decreases k,
{
    if k <= 0 {
        st
    } else {
        field_step_of(message, meta, fields_state_of(message, meta, fields, k - 1, st), fields[k - 1], k - 1)
    }
}

pub open spec fn missing_message_message() -> Seq<char> {
    "missing #[armonik(message = \"full.proto.Name\")] (or #[armonik(generic)] with explicit tags)"@
}

pub open spec fn generic_struct_message() -> Seq<char> {
    "descriptor-validated types cannot be generic; use #[armonik(generic)]"@
}

pub open spec fn one_message_message() -> Seq<char> {
    "a struct stands for one proto message; declare one #[armonik(message = ...)]"@
}

pub open spec fn expects_struct_message() -> Seq<char> {
    "#[armonik_macros::message] with `message = ...` expects a struct (use `oneof = ...` for flattened oneofs)"@
}

/// The fields of a struct resolved against `meta`, after the diagnostics `errs`: the slots in tag
/// order and the absorbed messages, or every diagnostic, the completeness ones last.
pub open spec fn struct_fields_of(
    message: Seq<char>,
    meta: &MessageMeta,
    fields: Seq<StructField>,
    errs: Seq<(Site, Seq<char>)>,
) -> Result<(Seq<SlotView>, Seq<Seq<char>>), Seq<(Site, Seq<char>)>> {
    let start = PlainState {
        consumed: Seq::new(meta.fields@.len(), |x: int| false),
        oneofs: Seq::new(meta.oneofs@.len(), |x: int| false),
        slots: Seq::empty(),
        absorbs: Seq::empty(),
        errors: errs,
    };
    let st = fields_state_of(message, meta, fields, fields.len() as int, start);
    let gaps = field_gaps(message, meta, st.consumed, st.oneofs, meta.fields@.len() as int)
        + oneof_gaps(message, meta, st.consumed, st.oneofs, meta.oneofs@.len() as int);
    let all = st.errors + gaps.map_values(|g: Seq<char>| (Site::Item, g));
    if all.len() > 0 {
        Err(all)
    } else {
        Ok((sort_by_tag(st.slots), st.absorbs))
    }
}

/// A plain struct resolved against the message its first `message = ...` names, after the
/// diagnostics `errors` already gathered: the slots in tag order with the message's docs, or every
/// diagnostic, the completeness ones last.
pub open spec fn plain_of(
    messages: Seq<(String, MessageMeta)>,
    names: Seq<Seq<char>>,
    generic_params: bool,
    is_struct: bool,
    fields: Seq<StructField>,
    errors: Seq<(Site, Seq<char>)>,
) -> Result<PlainPlanView, Seq<(Site, Seq<char>)>> {
    if names.len() == 0 {
        Err(errors.push((Site::Item, missing_message_message())))
    } else if generic_params {
        Err(errors.push((Site::Item, generic_struct_message())))
    } else {
        let errs = errors + Seq::new(
            (names.len() - 1) as nat,
            |j: int| (Site::MessageAttr((j + 1) as usize), one_message_message()),
        );
        match position_of(messages, names[0]) {
            None => Err(errs.push((Site::MessageAttr(0), not_found_of("message"@, names[0])))),
            Some(m) => if !is_struct {
                Err(errs.push((Site::Item, expects_struct_message())))
            } else {
                let meta = &messages[m].1;
                match struct_fields_of(names[0], meta, fields, errs) {
                    Err(all) => Err(all),
                    Ok(found) => Ok(
                        PlainPlanView {
                            names,
                            docs: strings_view(meta.docs@),
                            absorbs: found.1,
                            slots: found.0,
                        },
                    ),
                }
            },
        }
    }
}

pub(crate) fn diagnostic(site: Site, message: String) -> (d: Diagnostic)
    ensures
        diagnostic_view(d) == (site, message@),
{
    Diagnostic { site, message }
}

/// Appends copies of `ds` to `errors`.
pub(crate) fn push_diagnostics(errors: &mut Vec<Diagnostic>, ds: &Vec<Diagnostic>)
    ensures
        diagnostics_view(final(errors)@) == diagnostics_view(old(errors)@) + diagnostics_view(ds@),
{
    let ghost start = diagnostics_view(errors@);
    let mut i: usize = 0;
    while i < ds.len()
        invariant
            i <= ds@.len(),
            diagnostics_view(errors@) == start + diagnostics_view(ds@.take(i as int)),
        decreases ds.len() - i,
    {
        let ghost before = diagnostics_view(errors@);
        errors.push(Diagnostic { site: ds[i].site, message: ds[i].message.clone() });
        assert(diagnostics_view(errors@) =~= before.push(diagnostic_view(ds@[i as int])));
        assert(diagnostics_view(ds@.take(i + 1)) =~= diagnostics_view(ds@.take(i as int)).push(
            diagnostic_view(ds@[i as int]),
        ));
        i = i + 1;
    }
    assert(ds@.take(i as int) =~= ds@);
}

/// Appends copies of `names` to `out`.
pub(crate) fn push_strings(out: &mut Vec<String>, names: &Vec<String>)
    ensures
        strings_view(final(out)@) == strings_view(old(out)@) + strings_view(names@),
{
    let ghost start = strings_view(out@);
    let mut i: usize = 0;
    while i < names.len()
        invariant
            i <= names@.len(),
            strings_view(out@) == start + strings_view(names@.take(i as int)),
        decreases names.len() - i,
    {
        let ghost before = strings_view(out@);
        out.push(names[i].clone());
        assert(strings_view(out@) =~= before.push(names@[i as int]@));
        assert(strings_view(names@.take(i + 1)) =~= strings_view(names@.take(i as int)).push(
            names@[i as int]@,
        ));
        i = i + 1;
    }
    assert(names@.take(i as int) =~= names@);
}

/// The smallest of `tags`, or zero.
fn smallest_tag(tags: &Vec<u32>) -> (m: u32)
    ensures
        m == min_tag(tags@),
{
    if tags.len() == 0 {
        return 0;
    }
    let mut i = tags.len() - 1;
    let mut m = tags[i];
    assert(tags@.skip(i as int) =~= seq![tags@[i as int]]);
    while i > 0
        invariant
            i < tags@.len(),
            m == min_tag(tags@.skip(i as int)),
        decreases i,
    {
        i = i - 1;
        assert(tags@.skip(i as int).drop_first() =~= tags@.skip(i + 1));
        assert(tags@.skip(i as int)[0] == tags@[i as int]);
        if tags[i] <= m {
            m = tags[i];
        }
    }
    assert(tags@.skip(0) =~= tags@);
    m
}

/// `message.name`.
pub(crate) fn proto_path(message: &str, name: &String) -> (path: String)
    ensures
        path@ == message@ + "."@ + name@,
{
    let mut out: Vec<char> = Vec::new();
    push_str(&mut out, message);
    push_str(&mut out, ".");
    push_str(&mut out, name.as_str());
    string_of(out.as_slice())
}

pub open spec fn state_of<'a>(
    matcher: Matcher<'a>,
    slots: Seq<Slot>,
    absorbs: Seq<String>,
    errors: Seq<Diagnostic>,
) -> PlainState {
    PlainState {
        consumed: matcher.consumed(),
        oneofs: matcher.consumed_oneofs(),
        slots: slots_view(slots),
        absorbs: strings_view(absorbs),
        errors: diagnostics_view(errors),
    }
}

/// Resolves the field at `i` and records what it gave.
fn resolve_field<'a>(
    message: &str,
    matcher: &mut Matcher<'a>,
    field: &StructField,
    i: usize,
    slots: &mut Vec<Slot>,
    absorbs: &mut Vec<String>,
    errors: &mut Vec<Diagnostic>,
)
    requires
        old(matcher).inv(),
        old(matcher).message_name() == message@,
    ensures
        final(matcher).inv(),
        final(matcher).message_name() == old(matcher).message_name(),
        final(matcher).meta() == old(matcher).meta(),
        state_of(*final(matcher), final(slots)@, final(absorbs)@, final(errors)@) == field_step_of(
            message@,
            old(matcher).meta(),
            state_of(*old(matcher), old(slots)@, old(absorbs)@, old(errors)@),
            *field,
            i as int,
        ),
{
    let ghost st = state_of(*matcher, slots@, absorbs@, errors@);
    let ghost meta = matcher.meta();
    match &field.attrs {
        Err(ds) => {
            push_diagnostics(errors, ds);
        },
        Ok(a) => {
            push_strings(absorbs, &a.absorbs);
            let site = Site::Field(i);
            let name = match &a.rename {
                Some(n) => n.clone(),
                None => match &field.ident {
                    Some(id) => unraw(id.as_str()),
                    None => {
                        let ghost before = diagnostics_view(errors@);
                        errors.push(
                            diagnostic(
                                site,
                                "tuple struct fields need #[armonik(rename = \"proto_field_name\")]".to_owned(),
                            ),
                        );
                        proof {
                            reveal_strlit("tuple struct fields need #[armonik(rename = \"proto_field_name\")]");
                        }
                        assert(diagnostics_view(errors@) =~= before.push((site, tuple_field_message())));
                        return;
                    },
                },
            };
            assert(proto_name_of(*field, *a) == Some(name@));
            let path = proto_path(message, &name);
            match matcher.find(name.as_str()) {
                Err(m) => {
                    let ghost before = diagnostics_view(errors@);
                    errors.push(diagnostic(site, m));
                    assert(diagnostics_view(errors@) =~= before.push(diagnostic_view(errors@.last())));
                },
                Ok(Found::Oneof { tags }) => {
                    if a.with {
                        let ghost before = diagnostics_view(errors@);
                        errors.push(
                            diagnostic(site, "with/tag attributes are not supported on oneof fields".to_owned()),
                        );
                        proof {
                            reveal_strlit("with/tag attributes are not supported on oneof fields");
                        }
                        assert(diagnostics_view(errors@) =~= before.push((site, adapter_on_oneof_message())));
                    } else {
                        let tag = smallest_tag(&tags);
                        let ghost before = slots_view(slots@);
                        let slot = Slot {
                            field: i,
                            tag,
                            codec: SlotCodec::Delegate { tags },
                            proto_path: path,
                            docs: Vec::new(),
                        };
                        slots.push(slot);
                        assert(strings_view(Seq::<String>::empty()) =~= Seq::<Seq<char>>::empty());
                        assert(slots_view(slots@) =~= before.push(slot_view(slot)));
                    }
                },
                Ok(Found::Field(f)) => {
                    let checks = if a.with {
                        None
                    } else {
                        Some(Expectation::of(f))
                    };
                    let ghost before = slots_view(slots@);
                    let slot = Slot {
                        field: i,
                        tag: f.tag,
                        codec: SlotCodec::Field { adapter: a.with, checks },
                        proto_path: path,
                        docs: crate::descriptor::clone_strings(&f.docs),
                    };
                    slots.push(slot);
                    assert(slots_view(slots@) =~= before.push(slot_view(slot)));
                },
            }
        },
    }
}

/// Resolves a plain struct against the message its first `message = ...` names.
///
/// `names` are the messages the `message = ...` attributes name, in order; `errors` the
/// diagnostics gathered before. Every Rust field is matched by its `rename`, else its identifier,
/// to a proto field or a oneof mapped whole; every proto field and oneof must be covered. The
/// slots come out in tag order.
pub fn plain_plan(
    index: &DescriptorIndex,
    names: &Vec<String>,
    generic_params: bool,
    is_struct: bool,
    fields: &Vec<StructField>,
    errors: Vec<Diagnostic>,
) -> (r: Result<PlainPlan, Vec<Diagnostic>>)
    requires
        forall|m: int| 0 <= m < index.messages@.len() ==> message_wf(&(#[trigger] index.messages@[m]).1),
    ensures
        match r {
            Ok(plan) => plain_of(
                index.messages@,
                strings_view(names@),
                generic_params,
                is_struct,
                fields@,
                diagnostics_view(errors@),
            ) == Ok::<PlainPlanView, Seq<(Site, Seq<char>)>>(plain_plan_view(plan)),
            Err(e) => plain_of(
                index.messages@,
                strings_view(names@),
                generic_params,
                is_struct,
                fields@,
                diagnostics_view(errors@),
            ) == Err::<PlainPlanView, Seq<(Site, Seq<char>)>>(diagnostics_view(e@)),
        },
{
    let ghost errors0 = diagnostics_view(errors@);
    let mut errors = errors;
    if names.len() == 0 {
        errors.push(
            diagnostic(
                Site::Item,
                "missing #[armonik(message = \"full.proto.Name\")] (or #[armonik(generic)] with explicit tags)".to_owned(),
            ),
        );
        proof {
            reveal_strlit("missing #[armonik(message = \"full.proto.Name\")] (or #[armonik(generic)] with explicit tags)");
            assert(diagnostics_view(errors@) =~= errors0.push((Site::Item, missing_message_message())));
        }
        return Err(errors);
    }
    if generic_params {
        errors.push(
            diagnostic(
                Site::Item,
                "descriptor-validated types cannot be generic; use #[armonik(generic)]".to_owned(),
            ),
        );
        proof {
            reveal_strlit("descriptor-validated types cannot be generic; use #[armonik(generic)]");
            assert(diagnostics_view(errors@) =~= errors0.push((Site::Item, generic_struct_message())));
        }
        return Err(errors);
    }
    let ghost extra = Seq::new(
        (names@.len() - 1) as nat,
        |j: int| (Site::MessageAttr((j + 1) as usize), one_message_message()),
    );
    let mut j: usize = 1;
    while j < names.len()
        invariant
            1 <= j <= names@.len(),
            extra == Seq::new(
                (names@.len() - 1) as nat,
                |j: int| (Site::MessageAttr((j + 1) as usize), one_message_message()),
            ),
            diagnostics_view(errors@) == errors0 + extra.take(j - 1),
        decreases names.len() - j,
    {
        let ghost before = diagnostics_view(errors@);
        errors.push(
            diagnostic(
                Site::MessageAttr(j),
                "a struct stands for one proto message; declare one #[armonik(message = ...)]".to_owned(),
            ),
        );
        proof {
            reveal_strlit("a struct stands for one proto message; declare one #[armonik(message = ...)]");
            assert(extra[j - 1] == (Site::MessageAttr(j), one_message_message()));
            assert(extra.take(j as int) =~= extra.take(j - 1).push(extra[j - 1]));
            assert(diagnostics_view(errors@) =~= before.push(extra[j - 1]));
        }
        j = j + 1;
    }
    assert(extra.take(j - 1) =~= extra);
    let ghost errs = diagnostics_view(errors@);
    let name = &names[0];
    let m = match find_entry(&index.messages, name.as_str()) {
        Some(m) => m,
        None => {
            let ghost before = diagnostics_view(errors@);
            errors.push(diagnostic(Site::MessageAttr(0), not_found("message", name.as_str())));
            proof {
                reveal_strlit("message");
                assert(diagnostics_view(errors@) =~= before.push(
                    (Site::MessageAttr(0), not_found_of("message"@, names@[0]@)),
                ));
            }
            return Err(errors);
        },
    };
    if !is_struct {
        errors.push(
            diagnostic(
                Site::Item,
                "#[armonik_macros::message] with `message = ...` expects a struct (use `oneof = ...` for flattened oneofs)".to_owned(),
            ),
        );
        proof {
            reveal_strlit("#[armonik_macros::message] with `message = ...` expects a struct (use `oneof = ...` for flattened oneofs)");
            assert(diagnostics_view(errors@) =~= errs.push((Site::Item, expects_struct_message())));
        }
        return Err(errors);
    }
    let meta = &index.messages[m].1;
    match struct_fields(name, meta, fields, errors) {
        Err(all) => Err(all),
        Ok((slots, absorbs)) => {
            let mut plan_names: Vec<String> = Vec::new();
            push_strings(&mut plan_names, names);
            assert(strings_view(Seq::<String>::empty()) + strings_view(names@) =~= strings_view(
                names@,
            ));
            let docs = crate::descriptor::clone_strings(&meta.docs);
            Ok(PlainPlan { names: plan_names, docs, absorbs, slots })
        },
    }
}

/// The fields of a struct resolved against `meta`, after the diagnostics `errors`.
fn struct_fields(
    name: &String,
    meta: &MessageMeta,
    fields: &Vec<StructField>,
    errors: Vec<Diagnostic>,
) -> (r: Result<(Vec<Slot>, Vec<String>), Vec<Diagnostic>>)
    requires
        message_wf(meta),
    ensures
        match r {
            Ok(found) => struct_fields_of(name@, meta, fields@, diagnostics_view(errors@)) == Ok::<
                (Seq<SlotView>, Seq<Seq<char>>),
                Seq<(Site, Seq<char>)>,
            >((slots_view(found.0@), strings_view(found.1@))),
            Err(e) => struct_fields_of(name@, meta, fields@, diagnostics_view(errors@)) == Err::<
                (Seq<SlotView>, Seq<Seq<char>>),
                Seq<(Site, Seq<char>)>,
            >(diagnostics_view(e@)),
        },
{
    let mut errors = errors;
    let mut matcher = Matcher::new(name.as_str(), meta);
    let mut slots: Vec<Slot> = Vec::new();
    let mut absorbs: Vec<String> = Vec::new();
    let ghost start = state_of(matcher, slots@, absorbs@, errors@);
    assert(slots_view(slots@) =~= Seq::<SlotView>::empty());
    assert(strings_view(absorbs@) =~= Seq::<Seq<char>>::empty());
    let mut i: usize = 0;
    while i < fields.len()
        invariant
            i <= fields@.len(),
            matcher.inv(),
            matcher.message_name() == name@,
            matcher.meta() == meta,
            state_of(matcher, slots@, absorbs@, errors@) == fields_state_of(
                name@,
                meta,
                fields@,
                i as int,
                start,
            ),
        decreases fields.len() - i,
    {
        resolve_field(name.as_str(), &mut matcher, &fields[i], i, &mut slots, &mut absorbs, &mut errors);
        i = i + 1;
    }
    let gaps = matcher.check_complete();
    let ghost before = diagnostics_view(errors@);
    let mut g: usize = 0;
    while g < gaps.len()
        invariant
            g <= gaps@.len(),
            diagnostics_view(errors@) == before + strings_view(gaps@).take(g as int).map_values(
                |x: Seq<char>| (Site::Item, x),
            ),
        decreases gaps.len() - g,
    {
        let ghost prev = diagnostics_view(errors@);
        errors.push(diagnostic(Site::Item, gaps[g].clone()));
        assert(strings_view(gaps@).take(g + 1).map_values(|x: Seq<char>| (Site::Item, x)) =~= strings_view(
            gaps@,
        ).take(g as int).map_values(|x: Seq<char>| (Site::Item, x)).push((Site::Item, gaps@[g as int]@)));
        assert(diagnostics_view(errors@) =~= prev.push((Site::Item, gaps@[g as int]@)));
        g = g + 1;
    }
    assert(strings_view(gaps@).take(g as int) =~= strings_view(gaps@));
    if errors.len() > 0 {
        return Err(errors);
    }
    let sorted = sort_slots(slots);
    Ok((sorted, absorbs))
}

/// The tags of `s` never decrease.
pub open spec fn tag_ordered(s: Seq<SlotView>) -> bool {
    forall|i: int, j: int| 0 <= i <= j < s.len() ==> (#[trigger] s[i]).tag <= (#[trigger] s[j]).tag
}

proof fn lemma_insert_keeps_order(sorted: Seq<SlotView>, x: SlotView)
    requires
        tag_ordered(sorted),
    ensures
        tag_ordered(sorted.insert(insert_at(sorted, x.tag), x)),
        forall|k: int| 0 <= k < insert_at(sorted, x.tag) ==> (#[trigger] sorted[k]).tag < x.tag,
        insert_at(sorted, x.tag) < sorted.len() ==> sorted[insert_at(sorted, x.tag)].tag >= x.tag,
    decreases sorted.len(),
{
    lemma_insert_at_bounds(sorted, x.tag);
    let at = insert_at(sorted, x.tag);
    if sorted.len() > 0 && sorted[0].tag < x.tag {
        let rest = sorted.drop_first();
        assert(tag_ordered(rest)) by {
            assert forall|i: int, j: int| 0 <= i <= j < rest.len() implies (#[trigger] rest[i]).tag
                <= (#[trigger] rest[j]).tag by {
                assert(rest[i] == sorted[i + 1]);
                assert(rest[j] == sorted[j + 1]);
            }
        }
        lemma_insert_keeps_order(rest, x);
        lemma_insert_at_bounds(rest, x.tag);
        assert(at == 1 + insert_at(rest, x.tag));
        assert forall|k: int| 0 <= k < at implies (#[trigger] sorted[k]).tag < x.tag by {
            if k > 0 {
                assert(sorted[k] == rest[k - 1]);
            }
        }
        if at < sorted.len() {
            assert(sorted[at] == rest[at - 1]);
        }
    }
    let out = sorted.insert(at, x);
    assert forall|i: int, j: int| 0 <= i <= j < out.len() implies (#[trigger] out[i]).tag
        <= (#[trigger] out[j]).tag by {
        if i < at && j < at {
            assert(out[i] == sorted[i] && out[j] == sorted[j]);
        } else if i < at && j == at {
            assert(out[i] == sorted[i]);
        } else if i < at {
            assert(out[i] == sorted[i] && out[j] == sorted[j - 1]);
        } else if i == at && j > at {
            assert(out[j] == sorted[j - 1]);
            assert(sorted[at].tag <= sorted[j - 1].tag);
        } else if i > at {
            assert(out[i] == sorted[i - 1] && out[j] == sorted[j - 1]);
        }
    }
}

/// Sorting by tag orders the slots by tag and keeps exactly the slots it was given.
pub proof fn lemma_sort_by_tag_orders_and_keeps(s: Seq<SlotView>)
    ensures
        tag_ordered(sort_by_tag(s)),
        sort_by_tag(s).to_multiset() == s.to_multiset(),
    decreases s.len(),
{
    broadcast use vstd::seq_lib::group_to_multiset_ensures;

    if s.len() > 0 {
        lemma_sort_by_tag_orders_and_keeps(s.drop_first());
        let sorted = sort_by_tag(s.drop_first());
        let at = insert_at(sorted, s[0].tag);
        lemma_insert_at_bounds(sorted, s[0].tag);
        lemma_insert_keeps_order(sorted, s[0]);
        assert(sorted.take(at).push(s[0]) + sorted.skip(at) =~= sorted.insert(at, s[0]));
        vstd::seq_lib::to_multiset_insert(sorted, at, s[0]);
        assert(s =~= s.drop_first().insert(0, s[0]));
        vstd::seq_lib::to_multiset_insert(s.drop_first(), 0, s[0]);
    }
}

/// A resolved struct's slots are in ascending tag order.
pub proof fn lemma_struct_slots_in_tag_order(
    messages: Seq<(String, MessageMeta)>,
    names: Seq<Seq<char>>,
    generic_params: bool,
    is_struct: bool,
    fields: Seq<StructField>,
    errors: Seq<(Site, Seq<char>)>,
)
    requires
        plain_of(messages, names, generic_params, is_struct, fields, errors) is Ok,
    ensures
        tag_ordered(plain_of(messages, names, generic_params, is_struct, fields, errors)->Ok_0.slots),
{
    let errs = errors + Seq::new(
        (names.len() - 1) as nat,
        |j: int| (Site::MessageAttr((j + 1) as usize), one_message_message()),
    );
    let m = position_of(messages, names[0])->Some_0;
    let meta = &messages[m].1;
    let start = PlainState {
        consumed: Seq::new(meta.fields@.len(), |x: int| false),
        oneofs: Seq::new(meta.oneofs@.len(), |x: int| false),
        slots: Seq::empty(),
        absorbs: Seq::empty(),
        errors: errs,
    };
    let st = fields_state_of(names[0], meta, fields, fields.len() as int, start);
    lemma_sort_by_tag_orders_and_keeps(st.slots);
}

/// A type-level `#[armonik(...)]` entry.
pub enum TypeAttr {
    Message(String),
    Oneof(String),
    Generic,
    Transparent,
    /// Any other key.
    Other,
}

/// The shape a `message` item is resolved as.
pub enum Shape {
    /// An enum, or anything naming a oneof: resolved against a oneof's members.
    OneofShaped,
    /// `generic`: explicit tags, no descriptor.
    Generic,
    /// `transparent`: a newtype delegating to its one field, standing for the named messages.
    Transparent { names: Vec<String> },
    /// A struct whose fields are the named message's.
    Plain { names: Vec<String> },
}

pub enum ShapeView {
    OneofShaped,
    Generic,
    Transparent { names: Seq<Seq<char>> },
    Plain { names: Seq<Seq<char>> },
}

pub open spec fn shape_view(s: Shape) -> ShapeView {
    match s {
        Shape::OneofShaped => ShapeView::OneofShaped,
        Shape::Generic => ShapeView::Generic,
        Shape::Transparent { names } => ShapeView::Transparent { names: strings_view(names@) },
        Shape::Plain { names } => ShapeView::Plain { names: strings_view(names@) },
    }
}

/// The names the `message = ...` entries give, in order.
pub open spec fn message_names(entries: Seq<TypeAttr>) -> Seq<Seq<char>>
    decreases entries.len(),
{
    if entries.len() == 0 {
        Seq::empty()
    } else {
        let head = message_names(entries.drop_last());
        match entries.last() {
            TypeAttr::Message(n) => head.push(n@),
            _ => head,
        }
    }
}

/// The entries, among the first `k`, whose key a struct does not take at type level.
pub open spec fn stray_entries(entries: Seq<TypeAttr>, k: int) -> Seq<(Site, Seq<char>)>
    decreases k,
{
    if k <= 0 {
        Seq::empty()
    } else {
        let head = stray_entries(entries, k - 1);
        match entries[k - 1] {
            TypeAttr::Other => head.push((Site::Attr((k - 1) as usize), stray_message())),
            _ => head,
        }
    }
}

pub open spec fn stray_message() -> Seq<char> {
    "this armonik attribute is not valid at type level on a struct"@
}

pub open spec fn generic_and_transparent_message() -> Seq<char> {
    "generic and transparent cannot be combined: transparent flattens a single-field wrapper message into the type, generic skips descriptor validation because a generic type names no proto message, and there is no wrapper to flatten without one"@
}

pub open spec fn generic_with_message_message() -> Seq<char> {
    "#[armonik(generic)] types are not validated against the descriptor; remove the message attribute"@
}

/// The index of the last entry satisfying `key`, if any.
pub open spec fn last_entry(entries: Seq<TypeAttr>, k: int, key: spec_fn(TypeAttr) -> bool) -> Option<int>
    decreases k,
{
    if k <= 0 {
        None
    } else if key(entries[k - 1]) {
        Some(k - 1)
    } else {
        last_entry(entries, k - 1, key)
    }
}

/// Which shape a `message` item is, from its type-level entries: anything naming a oneof, and an
/// enum that is not `generic`, is oneof-shaped, decided before anything is reported; `generic` and
/// `transparent` exclude each other; a stray key is reported; a `generic` type names no message.
/// The shape, or none, with the diagnostics so far.
pub open spec fn shape_of(entries: Seq<TypeAttr>, is_enum: bool) -> (Option<ShapeView>, Seq<(Site, Seq<char>)>) {
    let n = entries.len() as int;
    let oneof = last_entry(entries, n, |e: TypeAttr| e is Oneof);
    let generic = last_entry(entries, n, |e: TypeAttr| e is Generic);
    let transparent = last_entry(entries, n, |e: TypeAttr| e is Transparent);
    let names = message_names(entries);
    if oneof is Some || (is_enum && generic is None) {
        (Some(ShapeView::OneofShaped), Seq::empty())
    } else if generic is Some && transparent is Some {
        (None, seq![(Site::Attr(transparent->0 as usize), generic_and_transparent_message())])
    } else {
        let stray = stray_entries(entries, n);
        if generic is Some {
            if names.len() > 0 {
                (None, stray.push((Site::Item, generic_with_message_message())))
            } else {
                (Some(ShapeView::Generic), stray)
            }
        } else if transparent is Some {
            (Some(ShapeView::Transparent { names }), stray)
        } else {
            (Some(ShapeView::Plain { names }), stray)
        }
    }
}

/// Picks the shape a `message` item is resolved as, from its type-level entries; the
/// diagnostics reported on the way come with it.
pub fn choose_shape(entries: &Vec<TypeAttr>, is_enum: bool) -> (r: (Option<Shape>, Vec<Diagnostic>))
    ensures
        ({
            let (shape, errors) = r;
            let spec = shape_of(entries@, is_enum);
            &&& diagnostics_view(errors@) == spec.1
            &&& match shape {
                Some(s) => spec.0 == Some(shape_view(s)),
                None => spec.0 is None,
            }
        }),
{
    let mut names: Vec<String> = Vec::new();
    let mut stray: Vec<Diagnostic> = Vec::new();
    let mut oneof = false;
    let mut generic: Option<usize> = None;
    let mut transparent: Option<usize> = None;
    let mut j: usize = 0;
    assert(strings_view(names@) =~= message_names(entries@.take(0)));
    while j < entries.len()
        invariant
            j <= entries@.len(),
            strings_view(names@) == message_names(entries@.take(j as int)),
            diagnostics_view(stray@) == stray_entries(entries@, j as int),
            oneof == last_entry(entries@, j as int, |e: TypeAttr| e is Oneof) is Some,
            generic == match last_entry(entries@, j as int, |e: TypeAttr| e is Generic) {
                Some(x) => Some(x as usize),
                None => None::<usize>,
            },
            transparent == match last_entry(entries@, j as int, |e: TypeAttr| e is Transparent) {
                Some(x) => Some(x as usize),
                None => None::<usize>,
            },
        decreases entries.len() - j,
    {
        assert(entries@.take(j + 1).drop_last() =~= entries@.take(j as int));
        assert(entries@.take(j + 1).last() == entries@[j as int]);
        match &entries[j] {
            TypeAttr::Message(n) => {
                let ghost before = strings_view(names@);
                names.push(n.clone());
                assert(strings_view(names@) =~= before.push(n@));
            },
            TypeAttr::Oneof(_) => {
                oneof = true;
            },
            TypeAttr::Generic => {
                generic = Some(j);
            },
            TypeAttr::Transparent => {
                transparent = Some(j);
            },
            TypeAttr::Other => {
                let ghost before = diagnostics_view(stray@);
                stray.push(
                    diagnostic(
                        Site::Attr(j),
                        "this armonik attribute is not valid at type level on a struct".to_owned(),
                    ),
                );
                proof {
                    reveal_strlit("this armonik attribute is not valid at type level on a struct");
                }
                assert(diagnostics_view(stray@) =~= before.push((Site::Attr(j), stray_message())));
            },
        }
        j = j + 1;
    }
    assert(entries@.take(j as int) =~= entries@);
    if oneof || (is_enum && generic.is_none()) {
        let none: Vec<Diagnostic> = Vec::new();
        assert(diagnostics_view(none@) =~= Seq::<(Site, Seq<char>)>::empty());
        return (Some(Shape::OneofShaped), none);
    }
    match (generic, transparent) {
        (Some(_), Some(t)) => {
            let mut errors: Vec<Diagnostic> = Vec::new();
            errors.push(
                diagnostic(
                    Site::Attr(t),
                    "generic and transparent cannot be combined: transparent flattens a single-field wrapper message into the type, generic skips descriptor validation because a generic type names no proto message, and there is no wrapper to flatten without one".to_owned(),
                ),
            );
            proof {
                reveal_strlit("generic and transparent cannot be combined: transparent flattens a single-field wrapper message into the type, generic skips descriptor validation because a generic type names no proto message, and there is no wrapper to flatten without one");
                assert(diagnostics_view(errors@) =~= seq![(Site::Attr(t), generic_and_transparent_message())]);
            }
            return (None, errors);
        },
        _ => {},
    }
    let mut errors = stray;
    if generic.is_some() {
        if names.len() > 0 {
            let ghost before = diagnostics_view(errors@);
            errors.push(
                diagnostic(
                    Site::Item,
                    "#[armonik(generic)] types are not validated against the descriptor; remove the message attribute".to_owned(),
                ),
            );
            proof {
                reveal_strlit("#[armonik(generic)] types are not validated against the descriptor; remove the message attribute");
                assert(diagnostics_view(errors@) =~= before.push((Site::Item, generic_with_message_message())));
            }
            return (None, errors);
        }
        return (Some(Shape::Generic), errors);
    }
    if transparent.is_some() {
        return (Some(Shape::Transparent { names }), errors);
    }
    (Some(Shape::Plain { names }), errors)
}

/// A field of a `generic` struct: its identifier as written (none for a tuple field), and its
/// `tag = ...` as read, or the diagnostics that rejected its attributes.
pub struct GenericField {
    pub ident: Option<String>,
    pub tag: Result<Option<u32>, Vec<Diagnostic>>,
}

pub open spec fn generic_expects_struct_message() -> Seq<char> {
    "#[armonik(generic)] expects a struct"@
}

pub open spec fn generic_needs_tag_message() -> Seq<char> {
    "generic-mode fields need an explicit #[armonik(tag = ...)]"@
}

/// The name a generic field's proto path ends in: its identifier, or its position.
pub open spec fn generic_field_name(f: GenericField, i: int) -> Seq<char> {
    match f.ident {
        Some(id) => id@,
        None => decimal_of(i as nat),
    }
}

/// The first `k` fields of a generic struct named `item`: a slot per tagged field, a diagnostic
/// for each field without a tag.
pub open spec fn generic_fields_of(
    item: Seq<char>,
    fields: Seq<GenericField>,
    k: int,
    errors: Seq<(Site, Seq<char>)>,
) -> (Seq<SlotView>, Seq<(Site, Seq<char>)>)
    decreases k,
{
    if k <= 0 {
        (Seq::empty(), errors)
    } else {
        let (slots, errs) = generic_fields_of(item, fields, k - 1, errors);
        let f = fields[k - 1];
        match f.tag {
            Err(ds) => (slots, errs + diagnostics_view(ds@)),
            Ok(None) => (slots, errs.push((Site::Field((k - 1) as usize), generic_needs_tag_message()))),
            Ok(Some(tag)) => (
                slots.push(
                    SlotView {
                        field: (k - 1) as usize,
                        tag,
                        codec: SlotCodecView::Field { adapter: false, checks: None },
                        proto_path: item + "."@ + generic_field_name(f, k - 1),
                        docs: Seq::empty(),
                    },
                ),
                errs,
            ),
        }
    }
}

/// A `generic` struct named `item` resolved: every field carries its own tag, nothing is checked
/// against a descriptor; the slots in tag order, or every diagnostic.
pub open spec fn generic_of(
    item: Seq<char>,
    is_struct: bool,
    fields: Seq<GenericField>,
    errors: Seq<(Site, Seq<char>)>,
) -> Result<Seq<SlotView>, Seq<(Site, Seq<char>)>> {
    if !is_struct {
        Err(errors.push((Site::Item, generic_expects_struct_message())))
    } else {
        let (slots, errs) = generic_fields_of(item, fields, fields.len() as int, errors);
        if errs.len() > 0 {
            Err(errs)
        } else {
            Ok(sort_by_tag(slots))
        }
    }
}

/// Resolves a `generic` struct named `item`: every field needs its own `tag = ...`; the slots come
/// out in tag order.
pub fn generic_plan(item: &str, is_struct: bool, fields: &Vec<GenericField>, errors: Vec<Diagnostic>) -> (r:
    Result<Vec<Slot>, Vec<Diagnostic>>)
    ensures
        match r {
            Ok(slots) => generic_of(item@, is_struct, fields@, diagnostics_view(errors@)) == Ok::<
                Seq<SlotView>,
                Seq<(Site, Seq<char>)>,
            >(slots_view(slots@)),
            Err(e) => generic_of(item@, is_struct, fields@, diagnostics_view(errors@)) == Err::<
                Seq<SlotView>,
                Seq<(Site, Seq<char>)>,
            >(diagnostics_view(e@)),
        },
{
    let ghost errors0 = diagnostics_view(errors@);
    let mut errors = errors;
    if !is_struct {
        errors.push(diagnostic(Site::Item, "#[armonik(generic)] expects a struct".to_owned()));
        proof {
            reveal_strlit("#[armonik(generic)] expects a struct");
            assert(diagnostics_view(errors@) =~= errors0.push((Site::Item, generic_expects_struct_message())));
        }
        return Err(errors);
    }
    let mut slots: Vec<Slot> = Vec::new();
    assert(slots_view(slots@) =~= Seq::<SlotView>::empty());
    let mut i: usize = 0;
    while i < fields.len()
        invariant
            i <= fields@.len(),
            (slots_view(slots@), diagnostics_view(errors@)) == generic_fields_of(
                item@,
                fields@,
                i as int,
                errors0,
            ),
        decreases fields.len() - i,
    {
        let f = &fields[i];
        match &f.tag {
            Err(ds) => {
                push_diagnostics(&mut errors, ds);
            },
            Ok(None) => {
                let ghost before = diagnostics_view(errors@);
                errors.push(
                    diagnostic(
                        Site::Field(i),
                        "generic-mode fields need an explicit #[armonik(tag = ...)]".to_owned(),
                    ),
                );
                proof {
                    reveal_strlit("generic-mode fields need an explicit #[armonik(tag = ...)]");
                }
                assert(diagnostics_view(errors@) =~= before.push(
                    (Site::Field(i), generic_needs_tag_message()),
                ));
            },
            Ok(Some(tag)) => {
                let name = match &f.ident {
                    Some(id) => id.clone(),
                    None => string_of(decimal(i as u64).as_slice()),
                };
                assert(name@ == generic_field_name(*f, i as int));
                let path = proto_path(item, &name);
                let ghost before = slots_view(slots@);
                let slot = Slot {
                    field: i,
                    tag: *tag,
                    codec: SlotCodec::Field { adapter: false, checks: None },
                    proto_path: path,
                    docs: Vec::new(),
                };
                slots.push(slot);
                assert(strings_view(Seq::<String>::empty()) =~= Seq::<Seq<char>>::empty());
                assert(slots_view(slots@) =~= before.push(slot_view(slot)));
            },
        }
        i = i + 1;
    }
    if errors.len() > 0 {
        return Err(errors);
    }
    Ok(sort_slots(slots))
}

/// A `transparent` newtype resolved: the messages it stands for and the first one's docs.
pub struct TransparentPlan {
    pub names: Vec<String>,
    pub docs: Vec<String>,
}

pub open spec fn transparent_generic_message() -> Seq<char> {
    "#[armonik(transparent)] structs cannot be generic"@
}

pub open spec fn transparent_one_message_message() -> Seq<char> {
    "#[armonik(transparent)] structs need exactly one #[armonik(message = \"full.proto.Name\")]"@
}

pub open spec fn transparent_expects_struct_message() -> Seq<char> {
    "#[armonik(transparent)] expects a struct"@
}

pub open spec fn transparent_one_field_message() -> Seq<char> {
    "#[armonik(transparent)] structs must have exactly one field, delegated to"@
}

/// A diagnostic for each of the first `k` names the index has no message for.
pub open spec fn unknown_messages(
    messages: Seq<(String, MessageMeta)>,
    names: Seq<Seq<char>>,
    k: int,
) -> Seq<(Site, Seq<char>)>
    decreases k,
{
    if k <= 0 {
        Seq::empty()
    } else {
        let head = unknown_messages(messages, names, k - 1);
        if position_of(messages, names[k - 1]) is None {
            head.push((Site::MessageAttr((k - 1) as usize), not_found_of("message"@, names[k - 1])))
        } else {
            head
        }
    }
}

/// A `transparent` newtype resolved: it must not be generic, must name exactly one message the
/// index has, and must be a struct of exactly one field; the names and the first message's docs,
/// or every diagnostic.
pub open spec fn transparent_of(
    messages: Seq<(String, MessageMeta)>,
    names: Seq<Seq<char>>,
    generic_params: bool,
    is_struct: bool,
    field_count: nat,
    errors: Seq<(Site, Seq<char>)>,
) -> Result<(Seq<Seq<char>>, Seq<Seq<char>>), Seq<(Site, Seq<char>)>> {
    let e1 = if generic_params {
        errors.push((Site::Item, transparent_generic_message()))
    } else {
        errors
    };
    let e2 = if names.len() != 1 {
        e1.push((Site::Item, transparent_one_message_message()))
    } else {
        e1
    };
    let e3 = e2 + unknown_messages(messages, names, names.len() as int);
    if !is_struct {
        Err(e3.push((Site::Item, transparent_expects_struct_message())))
    } else if field_count != 1 {
        Err(e3.push((Site::Item, transparent_one_field_message())))
    } else if e3.len() > 0 {
        Err(e3)
    } else {
        Ok(
            (
                names,
                match position_of(messages, names[0]) {
                    Some(m) => strings_view(messages[m].1.docs@),
                    None => Seq::empty(),
                },
            ),
        )
    }
}

pub(crate) fn push_message(errors: &mut Vec<Diagnostic>, site: Site, text: &str)
    ensures
        diagnostics_view(final(errors)@) == diagnostics_view(old(errors)@).push((site, text@)),
{
    let ghost before = diagnostics_view(errors@);
    errors.push(diagnostic(site, text.to_owned()));
    assert(diagnostics_view(errors@) =~= before.push((site, text@)));
}

/// Reports the `k`-th message name when the index has no message of that name.
fn report_unknown_message(index: &DescriptorIndex, name: &String, k: usize, errors: &mut Vec<Diagnostic>)
    ensures
        diagnostics_view(final(errors)@) == if position_of(index.messages@, name@) is None {
            diagnostics_view(old(errors)@).push((Site::MessageAttr(k), not_found_of("message"@, name@)))
        } else {
            diagnostics_view(old(errors)@)
        },
{
    match find_entry(&index.messages, name.as_str()) {
        Some(_) => {},
        None => {
            let ghost before = diagnostics_view(errors@);
            errors.push(diagnostic(Site::MessageAttr(k), not_found("message", name.as_str())));
            proof {
                reveal_strlit("message");
            }
            assert(diagnostics_view(errors@) =~= before.push(
                (Site::MessageAttr(k), not_found_of("message"@, name@)),
            ));
        },
    }
}

/// Resolves a `transparent` newtype, which delegates its whole encoding to its one field.
pub fn transparent_plan(
    index: &DescriptorIndex,
    names: &Vec<String>,
    generic_params: bool,
    is_struct: bool,
    field_count: usize,
    errors: Vec<Diagnostic>,
) -> (r: Result<TransparentPlan, Vec<Diagnostic>>)
    ensures
        match r {
            Ok(plan) => transparent_of(
                index.messages@,
                strings_view(names@),
                generic_params,
                is_struct,
                field_count as nat,
                diagnostics_view(errors@),
            ) == Ok::<(Seq<Seq<char>>, Seq<Seq<char>>), Seq<(Site, Seq<char>)>>(
                (strings_view(plan.names@), strings_view(plan.docs@)),
            ),
            Err(e) => transparent_of(
                index.messages@,
                strings_view(names@),
                generic_params,
                is_struct,
                field_count as nat,
                diagnostics_view(errors@),
            ) == Err::<(Seq<Seq<char>>, Seq<Seq<char>>), Seq<(Site, Seq<char>)>>(diagnostics_view(e@)),
        },
{
    let mut errors = errors;
    if generic_params {
        push_message(&mut errors, Site::Item, "#[armonik(transparent)] structs cannot be generic");
        proof {
            reveal_strlit("#[armonik(transparent)] structs cannot be generic");
        }
    }
    if names.len() != 1 {
        push_message(
            &mut errors,
            Site::Item,
            "#[armonik(transparent)] structs need exactly one #[armonik(message = \"full.proto.Name\")]",
        );
        proof {
            reveal_strlit("#[armonik(transparent)] structs need exactly one #[armonik(message = \"full.proto.Name\")]");
        }
    }
    let ghost e2 = diagnostics_view(errors@);
    let ghost all_names = strings_view(names@);
    let mut k: usize = 0;
    while k < names.len()
        invariant
            k <= names@.len(),
            all_names == strings_view(names@),
            diagnostics_view(errors@) == e2 + unknown_messages(index.messages@, all_names, k as int),
        decreases names.len() - k,
    {
        report_unknown_message(index, &names[k], k, &mut errors);
        k = k + 1;
    }
    if !is_struct {
        push_message(&mut errors, Site::Item, "#[armonik(transparent)] expects a struct");
        proof {
            reveal_strlit("#[armonik(transparent)] expects a struct");
        }
        return Err(errors);
    }
    if field_count != 1 {
        push_message(
            &mut errors,
            Site::Item,
            "#[armonik(transparent)] structs must have exactly one field, delegated to",
        );
        proof {
            reveal_strlit("#[armonik(transparent)] structs must have exactly one field, delegated to");
        }
        return Err(errors);
    }
    if errors.len() > 0 {
        return Err(errors);
    }
    let docs = match find_entry(&index.messages, names[0].as_str()) {
        Some(m) => crate::descriptor::clone_strings(&index.messages[m].1.docs),
        None => {
            let v: Vec<String> = Vec::new();
            assert(strings_view(v@) =~= Seq::<Seq<char>>::empty());
            v
        },
    };
    let mut plan_names: Vec<String> = Vec::new();
    push_strings(&mut plan_names, names);
    assert(strings_view(Seq::<String>::empty()) + strings_view(names@) =~= strings_view(names@));
    Ok(TransparentPlan { names: plan_names, docs })
}

} // verus!
