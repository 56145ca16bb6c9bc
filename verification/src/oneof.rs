//! Resolving a oneof-shaped enum: one variant per member of one oneof, with the message's
//! non-oneof fields, when the enum stands for the whole message, carried by every variant.
//!
//! The enum arrives as plain values: each variant's name, what its attributes said, and its
//! fields with their names, type text and attributes. Diagnostics point at a site of the item.

use vstd::prelude::*;

use crate::descriptor::{
    find_entry, position_of, strings_view, DescriptorIndex, FieldKind, FieldMeta, MessageMeta, OneofMeta,
};
use crate::matcher::{
    field_gaps, field_position, message_wf, not_found, not_found_of, oneof_gaps, oneof_member_message,
    oneof_position, unknown_field_message, unknown_name, unknown_name_of, Found, Matcher,
};
use crate::names::{snake_case, snake_case_of};
use crate::expect::{cardinality_view, kind_view, CardinalityView, Expectation, KindView};
use crate::order::{lemma_sort_by_key_map, sort_by_key, sort_keyed};
use crate::shape::{
    diagnostic, diagnostic_view, diagnostics_view, push_message, unraw_of, Diagnostic, FieldAttrs, Site,
    TypeAttr,
};
use crate::text::{decimal, decimal_of, push_all, push_str, string_of};

verus! {

/// Which oneof the enum stands for: the message (by its position in the index), the oneof (by
/// its position in the message), and whether the enum stands for the whole message.
pub struct Selected {
    pub proto_name: String,
    pub message: usize,
    pub oneof: usize,
    pub whole_message: bool,
}

pub struct SelectedView {
    pub proto_name: Seq<char>,
    pub message: int,
    pub oneof: int,
    pub whole_message: bool,
}

pub open spec fn selected_view(s: Selected) -> SelectedView {
    SelectedView {
        proto_name: s.proto_name@,
        message: s.message as int,
        oneof: s.oneof as int,
        whole_message: s.whole_message,
    }
}

pub open spec fn single_message_message() -> Seq<char> {
    "flattened oneofs support a single proto message"@
}

pub open spec fn not_on_flattened_oneof_message() -> Seq<char> {
    "this armonik attribute is not valid at type level on a flattened oneof"@
}

pub open spec fn needs_message_message() -> Seq<char> {
    "oneof-shaped enums need #[armonik(message = \"...\")]"@
}

pub open spec fn no_such_oneof_message(oneof: Seq<char>, message: Seq<char>) -> Seq<char> {
    "no oneof named `"@ + oneof + "` in proto message `"@ + message + "`"@
}

pub open spec fn oneof_is_whole_message(oneof: Seq<char>, message: Seq<char>) -> Seq<char> {
    "the oneof `"@ + oneof + "` covers the whole message `"@ + message
        + "`; drop the oneof attribute: #[armonik(message = ...)] alone declares a whole-message enum"@
}

pub open spec fn no_oneof_message(message: Seq<char>) -> Seq<char> {
    "proto message `"@ + message + "` has no oneof; a message without a oneof is derived on a struct"@
}

pub open spec fn several_oneofs_message(message: Seq<char>, n: nat) -> Seq<char> {
    "proto message `"@ + message + "` has "@ + decimal_of(n)
        + " oneofs; an enum can stand for the whole message only when there is exactly one. Declare one enum per oneof with #[armonik(oneof = \"...\")] and compose them in a struct"@
}

/// The first `k` type-level entries read: the last `message = ...` and where it stands, the last
/// `oneof = ...` and where it stands, and a diagnostic for a repeated message and for every other
/// key.
pub open spec fn select_scan(entries: Seq<TypeAttr>, k: int) -> (
    Option<(int, Seq<char>)>,
    Option<(int, Seq<char>)>,
    Seq<(Site, Seq<char>)>,
)
    decreases k,
{
    if k <= 0 {
        (None, None, Seq::empty())
    } else {
        let (p, o, e) = select_scan(entries, k - 1);
        let site = Site::Attr((k - 1) as usize);
        match entries[k - 1] {
            TypeAttr::Message(n) => (
                Some((k - 1, n@)),
                o,
                if p is Some {
                    e.push((site, single_message_message()))
                } else {
                    e
                },
            ),
            TypeAttr::Oneof(n) => (p, Some((k - 1, n@)), e),
            _ => (p, o, e.push((site, not_on_flattened_oneof_message()))),
        }
    }
}

/// Which oneof the enum stands for, from its type-level entries: `message = ...` names the
/// message; `oneof = ...` one of its oneofs, which must not be the whole message; without it the
/// message must have exactly one oneof, and the enum stands for the whole message. The selection,
/// or none, with the diagnostics so far.
pub open spec fn select_of(entries: Seq<TypeAttr>, messages: Seq<(String, MessageMeta)>) -> (
    Option<SelectedView>,
    Seq<(Site, Seq<char>)>,
) {
    let (p, o, e) = select_scan(entries, entries.len() as int);
    match p {
        None => (None, e.push((Site::Item, needs_message_message()))),
        Some((pj, pn)) => match position_of(messages, pn) {
            None => (None, e.push((Site::Attr(pj as usize), not_found_of("message"@, pn)))),
            Some(m) => pick_of(pn, m, messages[m].1, o, e),
        },
    }
}

/// The oneof of the message `pn`, at `m` in the index, that the enum stands for.
pub open spec fn pick_of(
    pn: Seq<char>,
    m: int,
    meta: MessageMeta,
    o: Option<(int, Seq<char>)>,
    e: Seq<(Site, Seq<char>)>,
) -> (Option<SelectedView>, Seq<(Site, Seq<char>)>) {
    match o {
        Some((oj, on)) => match oneof_position(meta.oneofs@, on) {
            None => (None, e.push((Site::Attr(oj as usize), no_such_oneof_message(on, pn)))),
            Some(q) => if forall|f: int|
                0 <= f < meta.fields@.len() ==> (#[trigger] meta.fields@[f]).oneof == Some(q as usize) {
                (None, e.push((Site::Attr(oj as usize), oneof_is_whole_message(on, pn))))
            } else {
                (Some(SelectedView { proto_name: pn, message: m, oneof: q, whole_message: false }), e)
            },
        },
        None => if meta.oneofs@.len() == 1 {
            (Some(SelectedView { proto_name: pn, message: m, oneof: 0, whole_message: true }), e)
        } else if meta.oneofs@.len() == 0 {
            (None, e.push((Site::Item, no_oneof_message(pn))))
        } else {
            (None, e.push((Site::Item, several_oneofs_message(pn, meta.oneofs@.len()))))
        },
    }
}

/// The type-level entries read: the last `message = ...`, the last `oneof = ...`, and the
/// diagnostics for a repeated message and for every other key.
fn scan_entries(entries: &Vec<TypeAttr>) -> (r: (Option<(usize, String)>, Option<(usize, String)>, Vec<Diagnostic>))
    ensures
        ({
            let (p, o, e) = select_scan(entries@, entries@.len() as int);
            &&& diagnostics_view(r.2@) == e
            &&& match r.0 {
                Some((pj, pn)) => p == Some((pj as int, pn@)),
                None => p is None,
            }
            &&& match r.1 {
                Some((oj, on)) => o == Some((oj as int, on@)),
                None => o is None,
            }
        }),
{
    let mut errors: Vec<Diagnostic> = Vec::new();
    let mut proto: Option<(usize, String)> = None;
    let mut oneof_name: Option<(usize, String)> = None;
    let mut j: usize = 0;
    assert(diagnostics_view(errors@) =~= Seq::<(Site, Seq<char>)>::empty());
    while j < entries.len()
        invariant
            j <= entries@.len(),
            ({
                let (p, o, e) = select_scan(entries@, j as int);
                &&& diagnostics_view(errors@) == e
                &&& match proto {
                    Some((pj, pn)) => p == Some((pj as int, pn@)),
                    None => p is None,
                }
                &&& match oneof_name {
                    Some((oj, on)) => o == Some((oj as int, on@)),
                    None => o is None,
                }
            }),
        decreases entries.len() - j,
    {
        match &entries[j] {
            TypeAttr::Message(n) => {
                if proto.is_some() {
                    push_message(&mut errors, Site::Attr(j), "flattened oneofs support a single proto message");
                    proof {
                        reveal_strlit("flattened oneofs support a single proto message");
                    }
                }
                proto = Some((j, n.clone()));
            },
            TypeAttr::Oneof(n) => {
                oneof_name = Some((j, n.clone()));
            },
            _ => {
                push_message(
                    &mut errors,
                    Site::Attr(j),
                    "this armonik attribute is not valid at type level on a flattened oneof",
                );
                proof {
                    reveal_strlit("this armonik attribute is not valid at type level on a flattened oneof");
                }
            },
        }
        j = j + 1;
    }
    (proto, oneof_name, errors)
}

/// Picks the message and the oneof an enum stands for, from its type-level entries.
pub fn select_oneof(entries: &Vec<TypeAttr>, index: &DescriptorIndex) -> (r: (Option<Selected>, Vec<Diagnostic>))
    ensures
        ({
            let spec = select_of(entries@, index.messages@);
            &&& diagnostics_view(r.1@) == spec.1
            &&& (r.0 matches Some(s) ==> s.message < index.messages@.len()
                && s.oneof < index.messages@[s.message as int].1.oneofs@.len())
            &&& match r.0 {
                Some(s) => spec.0 == Some(selected_view(s)),
                None => spec.0 is None,
            }
        }),
{
    let (proto, oneof_name, mut errors) = scan_entries(entries);
    let (pj, pn) = match proto {
        Some(p) => p,
        None => {
            push_message(&mut errors, Site::Item, "oneof-shaped enums need #[armonik(message = \"...\")]");
            proof {
                reveal_strlit("oneof-shaped enums need #[armonik(message = \"...\")]");
            }
            return (None, errors);
        },
    };
    let m = match find_entry(&index.messages, pn.as_str()) {
        Some(m) => m,
        None => {
            let ghost before = diagnostics_view(errors@);
            errors.push(diagnostic(Site::Attr(pj), not_found("message", pn.as_str())));
            proof {
                reveal_strlit("message");
                assert(diagnostics_view(errors@) =~= before.push(
                    (Site::Attr(pj), not_found_of("message"@, pn@)),
                ));
            }
            return (None, errors);
        },
    };
    pick_oneof(pn, m, &index.messages[m].1, oneof_name, errors)
}

/// The oneof of the message `pn`, at `m` in the index, that the enum stands for.
fn pick_oneof(
    pn: String,
    m: usize,
    meta: &MessageMeta,
    oneof_name: Option<(usize, String)>,
    errors: Vec<Diagnostic>,
) -> (r: (Option<Selected>, Vec<Diagnostic>))
    ensures
        ({
            let spec = pick_of(
                pn@,
                m as int,
                *meta,
                match oneof_name {
                    Some((oj, on)) => Some((oj as int, on@)),
                    None => None,
                },
                diagnostics_view(errors@),
            );
            &&& diagnostics_view(r.1@) == spec.1
            &&& (r.0 matches Some(s) ==> s.message == m && s.oneof < meta.oneofs@.len())
            &&& match r.0 {
                Some(s) => spec.0 == Some(selected_view(s)),
                None => spec.0 is None,
            }
        }),
{
    let mut errors = errors;
    match oneof_name {
        Some((oj, on)) => {
            match meta.oneof(on.as_str()) {
                None => {
                    proof {
                        assert(oneof_position(meta.oneofs@, on@) is None);
                    }
                    let mut out: Vec<char> = Vec::new();
                    push_str(&mut out, "no oneof named `");
                    push_str(&mut out, on.as_str());
                    push_str(&mut out, "` in proto message `");
                    push_str(&mut out, pn.as_str());
                    push_str(&mut out, "`");
                    proof {
                        reveal_strlit("no oneof named `");
                        reveal_strlit("` in proto message `");
                        reveal_strlit("`");
                        assert(out@ =~= no_such_oneof_message(on@, pn@));
                    }
                    let text = string_of(out.as_slice());
                    let ghost before = diagnostics_view(errors@);
                    errors.push(diagnostic(Site::Attr(oj), text));
                    assert(diagnostics_view(errors@) =~= before.push(
                        (Site::Attr(oj), no_such_oneof_message(on@, pn@)),
                    ));
                    (None, errors)
                },
                Some((q, _)) => {
                    proof {
                        let chosen = choose|k: int|
                            0 <= k < meta.oneofs@.len() && meta.oneofs@[k].name@ == on@ && forall|i: int|
                                0 <= i < k ==> (#[trigger] meta.oneofs@[i]).name@ != on@;
                        assert(meta.oneofs@[q as int].name@ == on@);
                        assert(chosen == q as int) by {
                            if chosen < q as int {
                            } else if chosen > q as int {
                            }
                        }
                        assert(oneof_position(meta.oneofs@, on@) == Some(q as int));
                    }
                    let mut all = true;
                    let mut f: usize = 0;
                    while f < meta.fields.len()
                        invariant
                            f <= meta.fields@.len(),
                            all == forall|g: int|
                                0 <= g < f ==> (#[trigger] meta.fields@[g]).oneof == Some(q),
                        decreases meta.fields.len() - f,
                    {
                        let same = match meta.fields[f].oneof {
                            Some(x) => x == q,
                            None => false,
                        };
                        if !same {
                            all = false;
                        }
                        f = f + 1;
                    }
                    if all {
                        let mut out: Vec<char> = Vec::new();
                        push_str(&mut out, "the oneof `");
                        push_str(&mut out, on.as_str());
                        push_str(&mut out, "` covers the whole message `");
                        push_str(&mut out, pn.as_str());
                        push_str(
                            &mut out,
                            "`; drop the oneof attribute: #[armonik(message = ...)] alone declares a whole-message enum",
                        );
                        proof {
                            reveal_strlit("the oneof `");
                            reveal_strlit("` covers the whole message `");
                            reveal_strlit("`; drop the oneof attribute: #[armonik(message = ...)] alone declares a whole-message enum");
                            assert(out@ =~= oneof_is_whole_message(on@, pn@));
                        }
                        let text = string_of(out.as_slice());
                        let ghost before = diagnostics_view(errors@);
                        errors.push(diagnostic(Site::Attr(oj), text));
                        assert(diagnostics_view(errors@) =~= before.push(
                            (Site::Attr(oj), oneof_is_whole_message(on@, pn@)),
                        ));
                        return (None, errors);
                    }
                    (Some(Selected { proto_name: pn, message: m, oneof: q, whole_message: false }), errors)
                },
            }
        },
        None => {
            let n = meta.oneofs.len();
            if n == 1 {
                (Some(Selected { proto_name: pn, message: m, oneof: 0, whole_message: true }), errors)
            } else if n == 0 {
                let mut out: Vec<char> = Vec::new();
                push_str(&mut out, "proto message `");
                push_str(&mut out, pn.as_str());
                push_str(&mut out, "` has no oneof; a message without a oneof is derived on a struct");
                proof {
                    reveal_strlit("proto message `");
                    reveal_strlit("` has no oneof; a message without a oneof is derived on a struct");
                    assert(out@ =~= no_oneof_message(pn@));
                }
                let text = string_of(out.as_slice());
                let ghost before = diagnostics_view(errors@);
                errors.push(diagnostic(Site::Item, text));
                assert(diagnostics_view(errors@) =~= before.push((Site::Item, no_oneof_message(pn@))));
                (None, errors)
            } else {
                let mut out: Vec<char> = Vec::new();
                push_str(&mut out, "proto message `");
                push_str(&mut out, pn.as_str());
                push_str(&mut out, "` has ");
                let digits = decimal(n as u64);
                push_all(&mut out, &digits);
                push_str(
                    &mut out,
                    " oneofs; an enum can stand for the whole message only when there is exactly one. Declare one enum per oneof with #[armonik(oneof = \"...\")] and compose them in a struct",
                );
                proof {
                    reveal_strlit("proto message `");
                    reveal_strlit("` has ");
                    reveal_strlit(" oneofs; an enum can stand for the whole message only when there is exactly one. Declare one enum per oneof with #[armonik(oneof = \"...\")] and compose them in a struct");
                    assert(out@ =~= several_oneofs_message(pn@, n as nat));
                }
                let ghost before = diagnostics_view(errors@);
                errors.push(diagnostic(Site::Item, string_of(out.as_slice())));
                assert(diagnostics_view(errors@) =~= before.push(
                    (Site::Item, several_oneofs_message(pn@, meta.oneofs@.len())),
                ));
                (None, errors)
            }
        },
    }
}

/// A named field of a struct variant: its identifier as written, its type's text, and its
/// attributes as read, or the diagnostics that rejected them.
pub struct VariantField {
    pub ident: String,
    pub ty: String,
    pub attrs: Result<FieldAttrs, Vec<Diagnostic>>,
}

/// A variant's fields: none, named, or positional (their types' text).
pub enum VariantFields {
    Unit,
    Named(Vec<VariantField>),
    Unnamed(Vec<String>),
}

/// The message's non-oneof fields a whole-message enum carries in every variant, each with the
/// binding, `(identifier, type text)`, the first variant declaring it fixed.
pub struct Siblings {
    pub entries: Vec<(usize, Option<(String, String)>)>,
}

pub type SiblingsView = Seq<(int, Option<(Seq<char>, Seq<char>)>)>;

pub open spec fn binding_view(b: Option<(String, String)>) -> Option<(Seq<char>, Seq<char>)> {
    match b {
        Some((i, t)) => Some((i@, t@)),
        None => None,
    }
}

pub open spec fn siblings_view(s: Siblings) -> SiblingsView {
    s.entries@.map_values(|e: (usize, Option<(String, String)>)| (e.0 as int, binding_view(e.1)))
}

/// The positions, among the first `k` fields, of those in no oneof.
pub open spec fn non_oneof_positions(fields: Seq<FieldMeta>, k: int) -> Seq<int>
    decreases k,
{
    if k <= 0 {
        Seq::empty()
    } else if fields[k - 1].oneof is None {
        non_oneof_positions(fields, k - 1).push(k - 1)
    } else {
        non_oneof_positions(fields, k - 1)
    }
}

/// The siblings an enum starts with: every non-oneof field of the message when it stands for the
/// whole message, none otherwise; nothing bound yet.
pub open spec fn siblings_start(whole_message: bool, meta: MessageMeta) -> SiblingsView {
    if whole_message {
        non_oneof_positions(meta.fields@, meta.fields@.len() as int).map_values(
            |f: int| (f, None::<(Seq<char>, Seq<char>)>),
        )
    } else {
        Seq::empty()
    }
}

/// The siblings are fields of the message.
pub open spec fn siblings_wf(sibs: SiblingsView, meta: MessageMeta) -> bool {
    forall|p: int| 0 <= p < sibs.len() ==> 0 <= (#[trigger] sibs[p]).0 < meta.fields@.len()
}

/// The first sibling, from `from` on, named `name`.
pub open spec fn sibling_at(sibs: SiblingsView, meta: MessageMeta, name: Seq<char>, from: int) -> Option<int>
    decreases sibs.len() - from,
{
    if from < 0 || from >= sibs.len() {
        None
    } else if meta.fields@[sibs[from].0].name@ == name {
        Some(from)
    } else {
        sibling_at(sibs, meta, name, from + 1)
    }
}

pub open spec fn sibling_name_message(name: Seq<char>, bound: Seq<char>) -> Seq<char> {
    "sibling field `"@ + name + "` must use the same name in every variant (`"@ + bound + "` elsewhere)"@
}

pub open spec fn sibling_type_message(name: Seq<char>) -> Seq<char> {
    "sibling field `"@ + name + "` must use the same type in every variant"@
}

/// A variant's field named `name`, written `ident: ty`, claimed as a sibling: none when no
/// sibling has that name; else the sibling is marked seen and bound, the first time, to the
/// field's binding, and afterwards checked against it.
pub open spec fn claim_of(
    sibs: SiblingsView,
    meta: MessageMeta,
    seen: Seq<bool>,
    name: Seq<char>,
    ident: Seq<char>,
    ty: Seq<char>,
    v: int,
    f: int,
    errors: Seq<(Site, Seq<char>)>,
) -> (Option<bool>, SiblingsView, Seq<bool>, Seq<(Site, Seq<char>)>) {
    match sibling_at(sibs, meta, name, 0) {
        None => (None, sibs, seen, errors),
        Some(p) => {
            let seen2 = seen.update(p, true);
            match sibs[p].1 {
                None => (Some(true), sibs.update(p, (sibs[p].0, Some((ident, ty)))), seen2, errors),
                Some((bi, bt)) => {
                    let e1 = if bi != ident {
                        errors.push(
                            (Site::VariantField(v as usize, f as usize), sibling_name_message(name, bi)),
                        )
                    } else {
                        errors
                    };
                    let e2 = if bt != ty {
                        e1.push((Site::VariantFieldType(v as usize, f as usize), sibling_type_message(name)))
                    } else {
                        e1
                    };
                    (Some(bi == ident && bt == ty), sibs, seen2, e2)
                },
            }
        },
    }
}

pub open spec fn missing_sibling_message(name: Seq<char>, proto: Seq<char>) -> Seq<char> {
    "the variant must carry the sibling field `"@ + name + "` of `"@ + proto
        + "` (every variant of a whole-message enum declares all non-oneof fields)"@
}

/// Every sibling, among the first `k`, the variant `v` did not declare, reported; whether there
/// was none.
pub open spec fn require_all_of(
    sibs: SiblingsView,
    meta: MessageMeta,
    proto: Seq<char>,
    seen: Seq<bool>,
    v: int,
    k: int,
    errors: Seq<(Site, Seq<char>)>,
) -> (bool, Seq<(Site, Seq<char>)>)
    decreases k,
{
    if k <= 0 {
        (true, errors)
    } else {
        let (complete, e) = require_all_of(sibs, meta, proto, seen, v, k - 1, errors);
        if seen[k - 1] {
            (complete, e)
        } else {
            (
                false,
                e.push(
                    (
                        Site::Variant(v as usize),
                        missing_sibling_message(meta.fields@[sibs[k - 1].0].name@, proto),
                    ),
                ),
            )
        }
    }
}

/// The siblings an enum starts with.
pub fn siblings_new(whole_message: bool, meta: &MessageMeta) -> (s: Siblings)
    ensures
        siblings_view(s) == siblings_start(whole_message, *meta),
        siblings_wf(siblings_view(s), *meta),
{
    let mut entries: Vec<(usize, Option<(String, String)>)> = Vec::new();
    if !whole_message {
        let s = Siblings { entries };
        assert(siblings_view(s) =~= siblings_start(whole_message, *meta));
        return s;
    }
    let mut f: usize = 0;
    while f < meta.fields.len()
        invariant
            f <= meta.fields@.len(),
            siblings_view(Siblings { entries }) =~= non_oneof_positions(meta.fields@, f as int).map_values(
                |x: int| (x, None::<(Seq<char>, Seq<char>)>),
            ),
            siblings_wf(siblings_view(Siblings { entries }), *meta),
        decreases meta.fields.len() - f,
    {
        if meta.fields[f].oneof.is_none() {
            let ghost before = siblings_view(Siblings { entries });
            entries.push((f, None));
            assert(siblings_view(Siblings { entries }) =~= before.push((f as int, None::<(Seq<char>, Seq<char>)>)));
        }
        f = f + 1;
    }
    Siblings { entries }
}

fn sibling_message(prefix: &str, name: &String, suffix: &str) -> (m: String)
    ensures
        m@ == prefix@ + name@ + suffix@,
{
    let mut out: Vec<char> = Vec::new();
    push_str(&mut out, prefix);
    push_str(&mut out, name.as_str());
    push_str(&mut out, suffix);
    string_of(out.as_slice())
}

impl Siblings {
    /// Claims the sibling named `name` for field `f` of variant `v`, written `ident: ty`.
    pub fn claim(
        &mut self,
        meta: &MessageMeta,
        seen: &mut Vec<bool>,
        name: &String,
        ident: &String,
        ty: &String,
        v: usize,
        f: usize,
        errors: &mut Vec<Diagnostic>,
    ) -> (ok: Option<bool>)
        requires
            siblings_wf(siblings_view(*old(self)), *meta),
            old(seen)@.len() == siblings_view(*old(self)).len(),
        ensures
            siblings_wf(siblings_view(*final(self)), *meta),
            siblings_view(*final(self)).len() == siblings_view(*old(self)).len(),
            final(seen)@.len() == old(seen)@.len(),
            (ok, siblings_view(*final(self)), final(seen)@, diagnostics_view(final(errors)@)) == claim_of(
                siblings_view(*old(self)),
                *meta,
                old(seen)@,
                name@,
                ident@,
                ty@,
                v as int,
                f as int,
                diagnostics_view(old(errors)@),
            ),
    {
        let ghost sibs = siblings_view(*self);
        let mut p: usize = 0;
        while p < self.entries.len()
            invariant
                p <= self.entries@.len(),
                sibs == siblings_view(*self),
                siblings_wf(sibs, *meta),
                sibling_at(sibs, *meta, name@, 0) == sibling_at(sibs, *meta, name@, p as int),
            ensures
                p <= self.entries@.len(),
                sibling_at(sibs, *meta, name@, 0) == sibling_at(sibs, *meta, name@, p as int),
                p < self.entries@.len() ==> meta.fields@[sibs[p as int].0].name@ == name@,
            decreases self.entries.len() - p,
        {
            let at = self.entries[p].0;
            assert(sibs[p as int].0 == at as int);
            if crate::descriptor::string_eq(&meta.fields[at].name, name.as_str()) {
                break;
            }
            p = p + 1;
        }
        if p == self.entries.len() {
            return None;
        }
        assert(sibling_at(sibs, *meta, name@, 0) == Some(p as int));
        seen.set(p, true);
        let at = self.entries[p].0;
        match &self.entries[p].1 {
            None => {
                self.entries.set(p, (at, Some((ident.clone(), ty.clone()))));
                assert(siblings_view(*self) =~= sibs.update(p as int, (sibs[p as int].0, Some((ident@, ty@)))));
                Some(true)
            },
            Some((bound_ident, bound_ty)) => {
                let mut ok = true;
                if !crate::descriptor::string_eq(bound_ident, ident.as_str()) {
                    let m = sibling_message(
                        "sibling field `",
                        name,
                        "` must use the same name in every variant (`",
                    );
                    let m = sibling_message(m.as_str(), bound_ident, "` elsewhere)");
                    proof {
                        reveal_strlit("sibling field `");
                        reveal_strlit("` must use the same name in every variant (`");
                        reveal_strlit("` elsewhere)");
                        assert(m@ =~= sibling_name_message(name@, bound_ident@));
                    }
                    let ghost before = diagnostics_view(errors@);
                    errors.push(diagnostic(Site::VariantField(v, f), m));
                    assert(diagnostics_view(errors@) =~= before.push(
                        (Site::VariantField(v, f), sibling_name_message(name@, bound_ident@)),
                    ));
                    ok = false;
                }
                if !crate::descriptor::string_eq(bound_ty, ty.as_str()) {
                    let m = sibling_message(
                        "sibling field `",
                        name,
                        "` must use the same type in every variant",
                    );
                    proof {
                        reveal_strlit("sibling field `");
                        reveal_strlit("` must use the same type in every variant");
                    }
                    let ghost before = diagnostics_view(errors@);
                    errors.push(diagnostic(Site::VariantFieldType(v, f), m));
                    assert(diagnostics_view(errors@) =~= before.push(
                        (Site::VariantFieldType(v, f), sibling_type_message(name@)),
                    ));
                    ok = false;
                }
                Some(ok)
            },
        }
    }

    /// Reports every sibling variant `v` did not declare; whether there was none.
    pub fn require_all(
        &self,
        meta: &MessageMeta,
        proto: &String,
        seen: &Vec<bool>,
        v: usize,
        errors: &mut Vec<Diagnostic>,
    ) -> (complete: bool)
        requires
            siblings_wf(siblings_view(*self), *meta),
            seen@.len() == siblings_view(*self).len(),
        ensures
            (complete, diagnostics_view(final(errors)@)) == require_all_of(
                siblings_view(*self),
                *meta,
                proto@,
                seen@,
                v as int,
                seen@.len() as int,
                diagnostics_view(old(errors)@),
            ),
    {
        let ghost sibs = siblings_view(*self);
        let ghost start = diagnostics_view(errors@);
        let mut complete = true;
        let mut p: usize = 0;
        while p < seen.len()
            invariant
                p <= seen@.len(),
                seen@.len() == sibs.len(),
                sibs == siblings_view(*self),
                siblings_wf(sibs, *meta),
                (complete, diagnostics_view(errors@)) == require_all_of(
                    sibs,
                    *meta,
                    proto@,
                    seen@,
                    v as int,
                    p as int,
                    start,
                ),
            decreases seen.len() - p,
        {
            if !seen[p] {
                let at = self.entries[p].0;
                assert(sibs[p as int].0 == at as int);
                let m = sibling_message("the variant must carry the sibling field `", &meta.fields[at].name, "` of `");
                let m = sibling_message(
                    m.as_str(),
                    proto,
                    "` (every variant of a whole-message enum declares all non-oneof fields)",
                );
                proof {
                    reveal_strlit("the variant must carry the sibling field `");
                    reveal_strlit("` of `");
                    reveal_strlit("` (every variant of a whole-message enum declares all non-oneof fields)");
                    assert(m@ =~= missing_sibling_message(meta.fields@[at as int].name@, proto@));
                }
                let ghost before = diagnostics_view(errors@);
                errors.push(diagnostic(Site::Variant(v), m));
                assert(diagnostics_view(errors@) =~= before.push(
                    (Site::Variant(v), missing_sibling_message(meta.fields@[at as int].name@, proto@)),
                ));
                complete = false;
            }
            p = p + 1;
        }
        complete
    }
}

/// A slot carried by a named field: the field's binding, its tag, its proto path, what the
/// descriptor says it is, and its docs. The siblings every variant shares are such slots, and so
/// are the parts of an inlined member.
pub struct NamedSlot {
    pub ident: String,
    pub ty: String,
    pub tag: u32,
    pub proto_path: String,
    pub checks: Expectation,
    pub docs: Vec<String>,
}

pub struct NamedSlotView {
    pub ident: Seq<char>,
    pub ty: Seq<char>,
    pub tag: u32,
    pub proto_path: Seq<char>,
    pub checks: (KindView, CardinalityView),
    pub docs: Seq<Seq<char>>,
}

pub open spec fn named_slot_view(s: NamedSlot) -> NamedSlotView {
    NamedSlotView {
        ident: s.ident@,
        ty: s.ty@,
        tag: s.tag,
        proto_path: s.proto_path@,
        checks: (kind_view(s.checks.kind), cardinality_view(s.checks.cardinality)),
        docs: strings_view(s.docs@),
    }
}

/// The bound siblings among the first `k`, each keyed by its tag.
pub open spec fn shared_pairs_of(sibs: SiblingsView, meta: MessageMeta, proto: Seq<char>, k: int) -> Seq<
    (u32, NamedSlotView),
>
    decreases k,
{
    if k <= 0 {
        Seq::empty()
    } else {
        let head = shared_pairs_of(sibs, meta, proto, k - 1);
        match sibs[k - 1].1 {
            Some((ident, ty)) => {
                let fm = meta.fields@[sibs[k - 1].0];
                head.push(
                    (
                        fm.tag,
                        NamedSlotView {
                            ident,
                            ty,
                            tag: fm.tag,
                            proto_path: proto + "."@ + fm.name@,
                            checks: (kind_view(fm.kind), cardinality_view(fm.cardinality)),
                            docs: strings_view(fm.docs@),
                        },
                    ),
                )
            },
            None => head,
        }
    }
}

/// The siblings as the plan's shared slots, in tag order: one per sibling some variant bound.
pub open spec fn shared_of(sibs: SiblingsView, meta: MessageMeta, proto: Seq<char>) -> Seq<NamedSlotView> {
    sort_by_key(shared_pairs_of(sibs, meta, proto, sibs.len() as int)).map_values(
        |p: (u32, NamedSlotView)| p.1,
    )
}

impl Siblings {
    /// The siblings as shared slots, in tag order.
    pub fn into_slots(self, meta: &MessageMeta, proto: &String) -> (slots: Vec<NamedSlot>)
        requires
            siblings_wf(siblings_view(self), *meta),
        ensures
            slots@.map_values(|x: NamedSlot| named_slot_view(x)) == shared_of(
                siblings_view(self),
                *meta,
                proto@,
            ),
    {
        let ghost sibs = siblings_view(self);
        let ghost f = |x: NamedSlot| named_slot_view(x);
        let ghost g = |p: (u32, NamedSlot)| (p.0, named_slot_view(p.1));
        let mut pairs: Vec<(u32, NamedSlot)> = Vec::new();
        let mut p: usize = 0;
        while p < self.entries.len()
            invariant
                p <= self.entries@.len(),
                sibs == siblings_view(self),
                siblings_wf(sibs, *meta),
                g == (|p: (u32, NamedSlot)| (p.0, named_slot_view(p.1))),
                pairs@.map_values(g) == shared_pairs_of(sibs, *meta, proto@, p as int),
            decreases self.entries.len() - p,
        {
            let at = self.entries[p].0;
            assert(sibs[p as int].0 == at as int);
            match &self.entries[p].1 {
                Some((ident, ty)) => {
                    let fm = &meta.fields[at];
                    let slot = NamedSlot {
                        ident: ident.clone(),
                        ty: ty.clone(),
                        tag: fm.tag,
                        proto_path: crate::shape::proto_path(proto.as_str(), &fm.name),
                        checks: Expectation::of(fm),
                        docs: crate::descriptor::clone_strings(&fm.docs),
                    };
                    let ghost before = pairs@;
                    pairs.push((fm.tag, slot));
                    assert(pairs@.map_values(g) =~= before.map_values(g).push(g((fm.tag, slot))));
                },
                None => {},
            }
            p = p + 1;
        }
        let ghost pv = pairs@;
        assert(pv.map_values(g) == shared_pairs_of(sibs, *meta, proto@, sibs.len() as int));
        let sorted = sort_keyed(pairs);
        proof {
            lemma_sort_by_key_map(pv, f);
            assert(pv.map_values(|q: (u32, NamedSlot)| (q.0, f(q.1))) =~= pv.map_values(g));
            assert(sort_by_key(pv).map_values(|q: (u32, NamedSlot)| (q.0, f(q.1))) =~= sort_by_key(
                pv,
            ).map_values(g));
        }
        let mut slots: Vec<NamedSlot> = Vec::new();
        let mut rest = sorted;
        let ghost all = rest@;
        // Popped from the end, so collected in reverse and turned around below.
        let mut reversed: Vec<NamedSlot> = Vec::new();
        while rest.len() > 0
            invariant
                all == sort_by_key(pv),
                sibs == siblings_view(self),
                g == (|p: (u32, NamedSlot)| (p.0, named_slot_view(p.1))),
                f == (|x: NamedSlot| named_slot_view(x)),
                pv.map_values(g) == shared_pairs_of(sibs, *meta, proto@, sibs.len() as int),
                sort_by_key(pv.map_values(g)) == sort_by_key(pv).map_values(g),
                rest@.len() <= all.len(),
                rest@ == all.take(rest@.len() as int),
                reversed@.len() + rest@.len() == all.len(),
                forall|i: int| 0 <= i < reversed@.len() ==> #[trigger] reversed@[i] == all[all.len() - 1 - i].1,
            decreases rest.len(),
        {
            let ghost n = rest@.len() as int;
            let (_, x) = rest.pop().unwrap();
            assert(all.take(n)[n - 1] == all[n - 1]);
            assert(rest@ =~= all.take(n - 1));
            reversed.push(x);
        }
        while reversed.len() > 0
            invariant
                all == sort_by_key(pv),
                sibs == siblings_view(self),
                g == (|p: (u32, NamedSlot)| (p.0, named_slot_view(p.1))),
                f == (|x: NamedSlot| named_slot_view(x)),
                pv.map_values(g) == shared_pairs_of(sibs, *meta, proto@, sibs.len() as int),
                sort_by_key(pv.map_values(g)) == sort_by_key(pv).map_values(g),
                reversed@.len() + slots@.len() == all.len(),
                forall|i: int| 0 <= i < reversed@.len() ==> #[trigger] reversed@[i] == all[all.len() - 1 - i].1,
                forall|i: int| 0 <= i < slots@.len() ==> #[trigger] slots@[i] == all[i].1,
            decreases reversed.len(),
        {
            let x = reversed.pop().unwrap();
            slots.push(x);
        }
        proof {
            assert(slots@.map_values(f) =~= sort_by_key(pv).map_values(g).map_values(
                |q: (u32, NamedSlotView)| q.1,
            ));
        }
        slots
    }
}

/// How a variant says its member is carried.
pub enum Carrier {
    /// Whole, the default, through an adapter when `with` is set.
    Whole { with: bool },
    /// By presence alone.
    Present,
    /// The member message's own fields, spread into the variant.
    Inline,
}

/// How a variant's member is carried, from its `present`, `inline` and `with` keys: each names a
/// carrier, so any two together are one mistake, reported at the second with every key named.
pub open spec fn carrier_keys(v: int, with: bool, present: bool, inline: bool) -> Seq<(Site, Seq<char>)> {
    (if present {
        seq![(Site::Variant(v as usize), "present"@)]
    } else {
        Seq::empty()
    }) + (if inline {
        seq![(Site::VariantInline(v as usize), "inline"@)]
    } else {
        Seq::empty()
    }) + (if with {
        seq![(Site::VariantWith(v as usize), "with = ..."@)]
    } else {
        Seq::empty()
    })
}

/// The keys, each in backticks, joined with `and`.
pub open spec fn keys_text(keys: Seq<(Site, Seq<char>)>) -> Seq<char>
    decreases keys.len(),
{
    if keys.len() == 0 {
        Seq::empty()
    } else if keys.len() == 1 {
        seq!['`'] + keys[0].1 + seq!['`']
    } else {
        keys_text(keys.drop_last()) + " and `"@ + keys.last().1 + seq!['`']
    }
}

pub open spec fn carriers_conflict_message(keys: Seq<(Site, Seq<char>)>) -> Seq<char> {
    keys_text(keys)
        + " each say how the member is carried (present: by presence alone; inline: its message's fields spread into the variant; with: through an adapter), so they cannot be combined"@
}

pub open spec fn carrier_of(v: int, with: bool, present: bool, inline: bool) -> Result<Carrier, (Site, Seq<char>)> {
    let keys = carrier_keys(v, with, present, inline);
    if keys.len() >= 2 {
        Err((keys[1].0, carriers_conflict_message(keys)))
    } else if present {
        Ok(Carrier::Present)
    } else if inline {
        Ok(Carrier::Inline)
    } else {
        Ok(Carrier::Whole { with })
    }
}

/// How variant `v` carries its member, or the diagnostic for keys that conflict.
pub fn carrier(v: usize, with: bool, present: bool, inline: bool) -> (r: Result<Carrier, Diagnostic>)
    ensures
        match r {
            Ok(c) => carrier_of(v as int, with, present, inline) == Ok::<Carrier, (Site, Seq<char>)>(c),
            Err(d) => carrier_of(v as int, with, present, inline) == Err::<Carrier, (Site, Seq<char>)>(
                diagnostic_view(d),
            ),
        },
{
    let ghost keys = carrier_keys(v as int, with, present, inline);
    let count = (if present { 1usize } else { 0 }) + (if inline { 1usize } else { 0 }) + (if with {
        1usize
    } else {
        0
    });
    proof {
        reveal_strlit("present");
        reveal_strlit("inline");
        reveal_strlit("with = ...");
        assert(keys.len() == count);
    }
    if count >= 2 {
        let mut out: Vec<char> = Vec::new();
        let mut first = true;
        let ghost mut taken: Seq<(Site, Seq<char>)> = Seq::empty();
        if present {
            push_str(&mut out, "`present`");
            first = false;
            proof {
                taken = taken.push((Site::Variant(v), "present"@));
            }
        }
        if inline {
            if !first {
                push_str(&mut out, " and ");
            }
            push_str(&mut out, "`inline`");
            first = false;
            proof {
                taken = taken.push((Site::VariantInline(v), "inline"@));
            }
        }
        if with {
            push_str(&mut out, " and ");
            push_str(&mut out, "`with = ...`");
            proof {
                taken = taken.push((Site::VariantWith(v), "with = ..."@));
            }
        }
        push_str(
            &mut out,
            " each say how the member is carried (present: by presence alone; inline: its message's fields spread into the variant; with: through an adapter), so they cannot be combined",
        );
        let site = if present {
            if inline {
                Site::VariantInline(v)
            } else {
                Site::VariantWith(v)
            }
        } else {
            Site::VariantWith(v)
        };
        proof {
            reveal_strlit("`present`");
            reveal_strlit("`inline`");
            reveal_strlit("`with = ...`");
            reveal_strlit(" and ");
            reveal_strlit(" and `");
            reveal_strlit(" each say how the member is carried (present: by presence alone; inline: its message's fields spread into the variant; with: through an adapter), so they cannot be combined");
            assert(taken =~= keys);
            reveal_with_fuel(keys_text, 3);
            if keys.len() == 2 {
                assert(keys.drop_last().len() == 1);
                assert(keys_text(keys) =~= seq!['`'] + keys[0].1 + seq!['`'] + " and `"@ + keys[1].1 + seq!['`']);
            } else {
                assert(keys.drop_last().drop_last().len() == 1);
                assert(keys.drop_last()[0] == keys[0]);
                assert(keys_text(keys) =~= seq!['`'] + keys[0].1 + seq!['`'] + " and `"@ + keys[1].1 + seq!['`']
                    + " and `"@ + keys[2].1 + seq!['`']);
            }
            assert(out@ =~= carriers_conflict_message(keys));
        }
        return Err(diagnostic(site, string_of(out.as_slice())));
    }
    if present {
        Ok(Carrier::Present)
    } else if inline {
        Ok(Carrier::Inline)
    } else {
        Ok(Carrier::Whole { with })
    }
}

/// A field of a struct variant that is no sibling, so it belongs to the member: the member
/// carried whole, or one of its own fields under `inline`.
pub struct Leftover {
    pub field: usize,
    pub ident: String,
    /// The proto name it matches by: the Rust name, or `rename`.
    pub name: String,
    pub ty: String,
    pub with: bool,
}

pub struct LeftoverView {
    pub field: usize,
    pub ident: Seq<char>,
    pub name: Seq<char>,
    pub ty: Seq<char>,
    pub with: bool,
}

pub open spec fn leftover_view(l: Leftover) -> LeftoverView {
    LeftoverView { field: l.field, ident: l.ident@, name: l.name@, ty: l.ty@, with: l.with }
}

pub open spec fn leftovers_view(ls: Seq<Leftover>) -> Seq<LeftoverView> {
    ls.map_values(|l: Leftover| leftover_view(l))
}

/// What a variant carries beyond the siblings: its leftover fields (none for a unit variant), or
/// the payload of a tuple variant, which is always the member.
pub enum Carried {
    Fields(Vec<Leftover>),
    Payload,
}

pub enum CarriedView {
    Fields(Seq<LeftoverView>),
    Payload,
}

pub open spec fn carried_view(c: Carried) -> CarriedView {
    match c {
        Carried::Fields(ls) => CarriedView::Fields(leftovers_view(ls@)),
        Carried::Payload => CarriedView::Payload,
    }
}

/// What sorting a variant's fields has gathered so far.
pub struct CarryState {
    pub seen: Seq<bool>,
    pub sibs: SiblingsView,
    pub leftovers: Seq<LeftoverView>,
    pub absorbs: Seq<Seq<char>>,
    pub errors: Seq<(Site, Seq<char>)>,
    pub failed: bool,
}

pub open spec fn sibling_with_message() -> Seq<char> {
    "with = ... is only valid on the member payload field, not on a sibling field"@
}

/// Field `i` of variant `v` sorted: claimed as a sibling, where one has its name, else kept as a
/// leftover for the member.
pub open spec fn carry_step_of(meta: MessageMeta, st: CarryState, f: VariantField, v: int, i: int) -> CarryState {
    match f.attrs {
        Err(ds) => CarryState { errors: st.errors + diagnostics_view(ds@), failed: true, ..st },
        Ok(a) => {
            let absorbs = st.absorbs + strings_view(a.absorbs@);
            let name = match a.rename {
                Some(n) => n@,
                None => unraw_of(f.ident@),
            };
            let (claimed, sibs, seen, errors) = claim_of(
                st.sibs,
                meta,
                st.seen,
                name,
                f.ident@,
                f.ty@,
                v,
                i,
                st.errors,
            );
            match claimed {
                Some(ok) => CarryState {
                    seen,
                    sibs,
                    absorbs,
                    errors: if a.with {
                        errors.push((Site::VariantFieldWith(v as usize, i as usize), sibling_with_message()))
                    } else {
                        errors
                    },
                    failed: st.failed || a.with || !ok,
                    leftovers: st.leftovers,
                },
                None => CarryState {
                    seen,
                    sibs,
                    absorbs,
                    errors,
                    leftovers: st.leftovers.push(
                        LeftoverView { field: i as usize, ident: f.ident@, name, ty: f.ty@, with: a.with },
                    ),
                    failed: st.failed,
                },
            }
        },
    }
}

/// The first `k` fields of variant `v` sorted.
pub open spec fn carry_fields_of(meta: MessageMeta, fields: Seq<VariantField>, k: int, v: int, st: CarryState) -> CarryState
    decreases k,
{
    if k <= 0 {
        st
    } else {
        carry_step_of(meta, carry_fields_of(meta, fields, k - 1, v, st), fields[k - 1], v, k - 1)
    }
}

/// A variant's fields sorted between the siblings it must carry and the leftovers belonging to the
/// member; none when a field is malformed, a binding disagrees or a sibling is missing.
pub open spec fn carried_of(
    meta: MessageMeta,
    proto: Seq<char>,
    fields: VariantFields,
    v: int,
    sibs: SiblingsView,
    absorbs: Seq<Seq<char>>,
    errors: Seq<(Site, Seq<char>)>,
) -> (Option<CarriedView>, SiblingsView, Seq<Seq<char>>, Seq<(Site, Seq<char>)>) {
    match fields {
        VariantFields::Unnamed(_) => (Some(CarriedView::Payload), sibs, absorbs, errors),
        _ => {
            let list = match fields {
                VariantFields::Named(fs) => fs@,
                _ => Seq::empty(),
            };
            let start = CarryState {
                seen: Seq::new(sibs.len(), |p: int| false),
                sibs,
                leftovers: Seq::empty(),
                absorbs,
                errors,
                failed: false,
            };
            let st = carry_fields_of(meta, list, list.len() as int, v, start);
            let (complete, errs) = require_all_of(
                st.sibs,
                meta,
                proto,
                st.seen,
                v,
                st.sibs.len() as int,
                st.errors,
            );
            (
                if st.failed || !complete {
                    None
                } else {
                    Some(CarriedView::Fields(st.leftovers))
                },
                st.sibs,
                st.absorbs,
                errs,
            )
        },
    }
}

/// Sorts the fields of variant `v` between the siblings it must carry and the leftovers
/// belonging to the member.
pub fn carried(
    meta: &MessageMeta,
    proto: &String,
    fields: &VariantFields,
    v: usize,
    siblings: &mut Siblings,
    absorbs: &mut Vec<String>,
    errors: &mut Vec<Diagnostic>,
) -> (r: Option<Carried>)
    requires
        siblings_wf(siblings_view(*old(siblings)), *meta),
    ensures
        siblings_wf(siblings_view(*final(siblings)), *meta),
        siblings_view(*final(siblings)).len() == siblings_view(*old(siblings)).len(),
        ({
            let spec = carried_of(
                *meta,
                proto@,
                *fields,
                v as int,
                siblings_view(*old(siblings)),
                strings_view(old(absorbs)@),
                diagnostics_view(old(errors)@),
            );
            &&& match r {
                Some(c) => spec.0 == Some(carried_view(c)),
                None => spec.0 is None,
            }
            &&& spec.1 == siblings_view(*final(siblings))
            &&& spec.2 == strings_view(final(absorbs)@)
            &&& spec.3 == diagnostics_view(final(errors)@)
        }),
{
    let empty: Vec<VariantField> = Vec::new();
    let list = match fields {
        VariantFields::Unnamed(_) => {
            return Some(Carried::Payload);
        },
        VariantFields::Named(fs) => fs,
        VariantFields::Unit => &empty,
    };
    let ghost sibs0 = siblings_view(*siblings);
    let mut seen: Vec<bool> = Vec::new();
    let mut p: usize = 0;
    while p < siblings.entries.len()
        invariant
            p <= siblings.entries@.len(),
            seen@ =~= Seq::new(p as nat, |x: int| false),
        decreases siblings.entries.len() - p,
    {
        seen.push(false);
        p = p + 1;
    }
    let ghost start = CarryState {
        seen: seen@,
        sibs: sibs0,
        leftovers: Seq::empty(),
        absorbs: strings_view(absorbs@),
        errors: diagnostics_view(errors@),
        failed: false,
    };
    let mut leftovers: Vec<Leftover> = Vec::new();
    let mut failed = false;
    assert(leftovers_view(leftovers@) =~= Seq::<LeftoverView>::empty());
    let mut i: usize = 0;
    while i < list.len()
        invariant
            i <= list@.len(),
            siblings_wf(siblings_view(*siblings), *meta),
            siblings_view(*siblings).len() == sibs0.len(),
            seen@.len() == sibs0.len(),
            carry_fields_of(*meta, list@, i as int, v as int, start) == (CarryState {
                seen: seen@,
                sibs: siblings_view(*siblings),
                leftovers: leftovers_view(leftovers@),
                absorbs: strings_view(absorbs@),
                errors: diagnostics_view(errors@),
                failed,
            }),
        decreases list.len() - i,
    {
        let field = &list[i];
        match &field.attrs {
            Err(ds) => {
                crate::shape::push_diagnostics(errors, ds);
                failed = true;
            },
            Ok(a) => {
                crate::shape::push_strings(absorbs, &a.absorbs);
                let name = match &a.rename {
                    Some(n) => n.clone(),
                    None => crate::shape::unraw(field.ident.as_str()),
                };
                match siblings.claim(meta, &mut seen, &name, &field.ident, &field.ty, v, i, errors) {
                    Some(ok) => {
                        if a.with {
                            push_message(
                                errors,
                                Site::VariantFieldWith(v, i),
                                "with = ... is only valid on the member payload field, not on a sibling field",
                            );
                            proof {
                                reveal_strlit("with = ... is only valid on the member payload field, not on a sibling field");
                            }
                            failed = true;
                        }
                        if !ok {
                            failed = true;
                        }
                    },
                    None => {
                        let ghost before = leftovers_view(leftovers@);
                        let l = Leftover {
                            field: i,
                            ident: field.ident.clone(),
                            name,
                            ty: field.ty.clone(),
                            with: a.with,
                        };
                        leftovers.push(l);
                        assert(leftovers_view(leftovers@) =~= before.push(leftover_view(l)));
                    },
                }
            },
        }
        i = i + 1;
    }
    let complete = siblings.require_all(meta, proto, &seen, v, errors);
    if failed || !complete {
        None
    } else {
        Some(Carried::Fields(leftovers))
    }
}

/// How an arm reaches its member's value: not at all (presence, or an inlined group), through a
/// tuple variant's payload, or through a named field.
pub enum Access {
    Unit,
    Payload,
    Field(String),
}

pub enum AccessView {
    Unit,
    Payload,
    Field(Seq<char>),
}

pub open spec fn access_view(a: Access) -> AccessView {
    match a {
        Access::Unit => AccessView::Unit,
        Access::Payload => AccessView::Payload,
        Access::Field(i) => AccessView::Field(i@),
    }
}

/// What a marker variant's presence is read from: a `bool` member, or an empty message.
#[derive(Clone, Copy, PartialEq, Eq, Structural)]
pub enum Presence {
    Bool,
    EmptyMessage,
}

/// How an arm's member is encoded: as one field of the given type, through an adapter or not; by
/// presence alone; or as the inlined member's own fields.
pub enum ArmCodec {
    Field { ty: String, adapter: bool },
    Presence(Presence),
    Group { parts: Vec<NamedSlot> },
}

pub enum ArmCodecView {
    Field { ty: Seq<char>, adapter: bool },
    Presence(Presence),
    Group { parts: Seq<NamedSlotView> },
}

pub open spec fn arm_codec_view(c: ArmCodec) -> ArmCodecView {
    match c {
        ArmCodec::Field { ty, adapter } => ArmCodecView::Field { ty: ty@, adapter },
        ArmCodec::Presence(p) => ArmCodecView::Presence(p),
        ArmCodec::Group { parts } => ArmCodecView::Group {
            parts: parts@.map_values(|x: NamedSlot| named_slot_view(x)),
        },
    }
}

pub open spec fn checks_view(c: Option<Expectation>) -> Option<(KindView, CardinalityView)> {
    match c {
        Some(e) => Some((kind_view(e.kind), cardinality_view(e.cardinality))),
        None => None,
    }
}

/// How a variant carries its member: access, codec, and what the shape assert checks.
pub type ResolvedView = (AccessView, ArmCodecView, Option<(KindView, CardinalityView)>);

/// What a variant is resolved against: its index, the member's descriptor field, the message's
/// name, the member's proto path and the name the variant matched it by.
pub struct VariantCtx {
    pub v: int,
    pub member: FieldMeta,
    pub proto_name: Seq<char>,
    pub proto_path: Seq<char>,
    pub member_name: Seq<char>,
}

pub open spec fn expectation_of(f: FieldMeta) -> (KindView, CardinalityView) {
    (kind_view(f.kind), cardinality_view(f.cardinality))
}

/// How `Debug` writes a string (`<str as Debug>::fmt`): in double quotes, with the escapes that
/// trait chooses.
pub uninterp spec fn debug_str_of(s: Seq<char>) -> Seq<char>;

/// `format!("{:?}", s)`: the string as `Debug` writes it.
#[verifier::external_body]
fn debug_str(s: &str) -> (text: String)
    ensures
        text@ == debug_str_of(s@),
{
    format!("{:?}", s)
}

/// A field kind as `Debug` writes it.
pub open spec fn kind_debug_of(kind: KindView) -> Seq<char> {
    match kind {
        KindView::Double => "Double"@,
        KindView::Float => "Float"@,
        KindView::Int32 => "Int32"@,
        KindView::Int64 => "Int64"@,
        KindView::UInt32 => "UInt32"@,
        KindView::UInt64 => "UInt64"@,
        KindView::Bool => "Bool"@,
        KindView::String => "String"@,
        KindView::Bytes => "Bytes"@,
        KindView::Message(n) => "Message("@ + debug_str_of(n) + seq![')'],
        KindView::Enum(n) => "Enum("@ + debug_str_of(n) + seq![')'],
        KindView::Unsupported(n) => "Unsupported("@ + debug_str_of(n) + seq![')'],
    }
}

pub open spec fn present_with_siblings_message(proto: Seq<char>) -> Seq<char> {
    "#[armonik(present)] needs a unit variant, but `"@ + proto
        + "` has non-oneof fields that every variant must carry; give the variant an empty member type instead"@
}

pub open spec fn marker_not_unit_message() -> Seq<char> {
    "#[armonik(present)] variants must be unit variants"@
}

pub open spec fn marker_kind_message(path: Seq<char>, kind: KindView) -> Seq<char> {
    "#[armonik(present)] needs a bool or message member, but `"@ + path + "` is "@ + kind_debug_of(kind)
}

pub open spec fn inline_with_siblings_message(proto: Seq<char>) -> Seq<char> {
    "inline and the non-oneof fields of `"@ + proto
        + "` cannot be combined: every variant carries those fields, and inline spreads the member's own into the same variant; carry the member whole in a field of its own instead"@
}

pub open spec fn inline_not_struct_message() -> Seq<char> {
    "inline needs a struct variant: there is nothing to spread the member's fields into"@
}

pub open spec fn payload_with_siblings_message(proto: Seq<char>) -> Seq<char> {
    "`"@ + proto + "` has non-oneof fields, so every variant must be a struct variant carrying them"@
}

pub open spec fn struct_variant_with_message() -> Seq<char> {
    "in a struct variant, put with = ... on the field carrying the member"@
}

pub open spec fn no_payload_message(member: Seq<char>) -> Seq<char> {
    "the variant needs a field carrying the member `"@ + member + "`"@
}

pub open spec fn two_payloads_message(member: Seq<char>) -> Seq<char> {
    "only one field of the variant may carry the member `"@ + member
        + "`; add #[armonik(inline)] to the variant if these are the member message's own fields, spread into it"@
}

pub open spec fn bad_variant_shape_message() -> Seq<char> {
    "oneof variants must be `Variant(T)`, `Variant { .. }`, a #[armonik(present)] marker, or the attribute-less default"@
}

/// A `present` marker variant: a unit variant whose member is a `bool` or an empty message.
pub open spec fn marker_of(ctx: VariantCtx, fields: VariantFields) -> Result<ResolvedView, (Site, Seq<char>)> {
    if !(fields is Unit) {
        Err((Site::Variant(ctx.v as usize), marker_not_unit_message()))
    } else {
        match kind_view(ctx.member.kind) {
            KindView::Bool => Ok((AccessView::Unit, ArmCodecView::Presence(Presence::Bool), None)),
            KindView::Message(_) => Ok((AccessView::Unit, ArmCodecView::Presence(Presence::EmptyMessage), None)),
            other => Err((Site::Variant(ctx.v as usize), marker_kind_message(ctx.proto_path, other))),
        }
    }
}

/// A variant whose member is carried whole: a one-field tuple variant, or a struct variant with
/// exactly one field left once the siblings are claimed.
pub open spec fn whole_of(
    ctx: VariantCtx,
    with: bool,
    fields: VariantFields,
    leftovers: Seq<LeftoverView>,
    has_siblings: bool,
) -> Result<ResolvedView, (Site, Seq<char>)> {
    let site = Site::Variant(ctx.v as usize);
    match fields {
        VariantFields::Unnamed(tys) => if tys@.len() == 1 {
            if has_siblings {
                Err((site, payload_with_siblings_message(ctx.proto_name)))
            } else {
                Ok(
                    (
                        AccessView::Payload,
                        ArmCodecView::Field { ty: tys@[0]@, adapter: with },
                        if with {
                            None
                        } else {
                            Some(expectation_of(ctx.member))
                        },
                    ),
                )
            }
        } else {
            Err((site, bad_variant_shape_message()))
        },
        VariantFields::Named(_) => if with {
            Err((Site::VariantWith(ctx.v as usize), struct_variant_with_message()))
        } else if leftovers.len() == 1 {
            let l = leftovers[0];
            Ok(
                (
                    AccessView::Field(l.ident),
                    ArmCodecView::Field { ty: l.ty, adapter: l.with },
                    if l.with {
                        None
                    } else {
                        Some(expectation_of(ctx.member))
                    },
                ),
            )
        } else if leftovers.len() == 0 {
            Err((site, no_payload_message(ctx.member_name)))
        } else {
            Err((Site::VariantField(ctx.v as usize, leftovers[1].field), two_payloads_message(ctx.member_name)))
        },
        VariantFields::Unit => Err((site, bad_variant_shape_message())),
    }
}

pub open spec fn inline_with_adapter_message() -> Seq<char> {
    "with = ... is not supported on an inlined field"@
}

pub open spec fn inline_not_message_message(path: Seq<char>) -> Seq<char> {
    "inline spreads a message member's fields, but `"@ + path + "` is not a message"@
}

pub open spec fn inline_missing_message(inner: Seq<char>) -> Seq<char> {
    "proto message `"@ + inner + "` not found"@
}

pub open spec fn inline_has_oneof_message(inner: Seq<char>) -> Seq<char> {
    "`"@ + inner + "` contains a oneof; it cannot be inlined into a struct variant"@
}

/// What matching an inlined member's fields has gathered so far.
pub struct InlineState {
    pub consumed: Seq<bool>,
    pub oneofs: Seq<bool>,
    pub parts: Seq<(u32, NamedSlotView)>,
    pub errors: Seq<(Site, Seq<char>)>,
}

/// A leftover of variant `v` matched to a field of the inlined message `inner_name`.
pub open spec fn inline_step_of(
    inner_name: Seq<char>,
    inner: &MessageMeta,
    st: InlineState,
    l: LeftoverView,
    v: int,
) -> InlineState {
    let site = Site::VariantField(v as usize, l.field);
    if l.with {
        InlineState { errors: st.errors.push((site, inline_with_adapter_message())), ..st }
    } else {
        match field_position(inner.fields@, l.name) {
            Some(p) => {
                let consumed = st.consumed.update(p, true);
                let fm = inner.fields@[p];
                if fm.oneof is Some {
                    InlineState {
                        consumed,
                        errors: st.errors.push((site, oneof_member_message(inner_name, l.name))),
                        ..st
                    }
                } else {
                    InlineState {
                        consumed,
                        parts: st.parts.push(
                            (
                                fm.tag,
                                NamedSlotView {
                                    ident: l.ident,
                                    ty: l.ty,
                                    tag: fm.tag,
                                    proto_path: inner_name + "."@ + fm.name@,
                                    checks: expectation_of(fm),
                                    docs: strings_view(fm.docs@),
                                },
                            ),
                        ),
                        ..st
                    }
                }
            },
            None => match oneof_position(inner.oneofs@, l.name) {
                Some(q) => InlineState { oneofs: st.oneofs.update(q, true), ..st },
                None => InlineState {
                    errors: st.errors.push((site, unknown_field_message(inner_name, l.name, inner))),
                    ..st
                },
            },
        }
    }
}

/// The first `k` leftovers matched in order.
pub open spec fn inline_parts_of(
    inner_name: Seq<char>,
    inner: &MessageMeta,
    leftovers: Seq<LeftoverView>,
    k: int,
    v: int,
    st: InlineState,
) -> InlineState
    decreases k,
{
    if k <= 0 {
        st
    } else {
        inline_step_of(inner_name, inner, inline_parts_of(inner_name, inner, leftovers, k - 1, v, st), leftovers[k - 1], v)
    }
}

/// The leftovers of variant `v` matched against the message `inner_name` and completed: the
/// parts in tag order, and the diagnostics.
#[verifier::opaque]
pub open spec fn inline_group_of(
    inner_name: Seq<char>,
    inner: &MessageMeta,
    leftovers: Seq<LeftoverView>,
    v: int,
    errors: Seq<(Site, Seq<char>)>,
) -> (Seq<NamedSlotView>, Seq<(Site, Seq<char>)>) {
    let start = InlineState {
        consumed: Seq::new(inner.fields@.len(), |x: int| false),
        oneofs: Seq::new(inner.oneofs@.len(), |x: int| false),
        parts: Seq::empty(),
        errors,
    };
    let st = inline_parts_of(inner_name, inner, leftovers, leftovers.len() as int, v, start);
    let gaps = field_gaps(inner_name, inner, st.consumed, st.oneofs, inner.fields@.len() as int)
        + oneof_gaps(inner_name, inner, st.consumed, st.oneofs, inner.oneofs@.len() as int);
    (
        sort_by_key(st.parts).map_values(|p: (u32, NamedSlotView)| p.1),
        st.errors + gaps.map_values(|g: Seq<char>| (Site::Variant(v as usize), g)),
    )
}

/// Which message an `inline` variant spreads: the member must be a message the index has, with
/// no oneof. Its name and position, or the diagnostics with the reason added.
pub open spec fn inline_target_of(
    messages: Seq<(String, MessageMeta)>,
    ctx: VariantCtx,
    errors: Seq<(Site, Seq<char>)>,
) -> Result<(Seq<char>, int), Seq<(Site, Seq<char>)>> {
    let site = Site::Variant(ctx.v as usize);
    match kind_view(ctx.member.kind) {
        KindView::Message(inner_name) => match position_of(messages, inner_name) {
            None => Err(errors.push((site, inline_missing_message(inner_name)))),
            Some(m) => if messages[m].1.oneofs@.len() > 0 {
                Err(errors.push((site, inline_has_oneof_message(inner_name))))
            } else {
                Ok((inner_name, m))
            },
        },
        _ => Err(errors.push((site, inline_not_message_message(ctx.proto_path)))),
    }
}

/// An `inline` variant: its leftovers are the member message's own fields, matched and
/// completed against it, and the member message is absorbed.
pub open spec fn inline_of(
    messages: Seq<(String, MessageMeta)>,
    ctx: VariantCtx,
    leftovers: Seq<LeftoverView>,
    absorbs: Seq<Seq<char>>,
    errors: Seq<(Site, Seq<char>)>,
) -> (Option<ResolvedView>, Seq<Seq<char>>, Seq<(Site, Seq<char>)>) {
    match inline_target_of(messages, ctx, errors) {
        Err(e) => (None, absorbs, e),
        Ok((inner_name, m)) => {
            let (parts, errs) = inline_group_of(inner_name, &messages[m].1, leftovers, ctx.v, errors);
            (Some((AccessView::Unit, ArmCodecView::Group { parts }, None)), absorbs.push(inner_name), errs)
        },
    }
}

/// A variant resolved against its member through its carrier: how it reaches and encodes the
/// member, or none once its diagnostics are reported.
pub open spec fn resolve_variant_of(
    messages: Seq<(String, MessageMeta)>,
    ctx: VariantCtx,
    carrier: Carrier,
    fields: VariantFields,
    leftovers: Seq<LeftoverView>,
    has_siblings: bool,
    absorbs: Seq<Seq<char>>,
    errors: Seq<(Site, Seq<char>)>,
) -> (Option<ResolvedView>, Seq<Seq<char>>, Seq<(Site, Seq<char>)>) {
    let site = Site::Variant(ctx.v as usize);
    match carrier {
        Carrier::Present => if has_siblings {
            (None, absorbs, errors.push((site, present_with_siblings_message(ctx.proto_name))))
        } else {
            match marker_of(ctx, fields) {
                Ok(r) => (Some(r), absorbs, errors),
                Err(d) => (None, absorbs, errors.push(d)),
            }
        },
        Carrier::Inline => if has_siblings {
            (
                None,
                absorbs,
                errors.push((Site::VariantInline(ctx.v as usize), inline_with_siblings_message(ctx.proto_name))),
            )
        } else if !(fields is Named) {
            (None, absorbs, errors.push((Site::VariantInline(ctx.v as usize), inline_not_struct_message())))
        } else {
            inline_of(messages, ctx, leftovers, absorbs, errors)
        },
        Carrier::Whole { with } => match whole_of(ctx, with, fields, leftovers, has_siblings) {
            Ok(r) => (Some(r), absorbs, errors),
            Err(d) => (None, absorbs, errors.push(d)),
        },
    }
}

pub open spec fn resolved_view(r: (Access, ArmCodec, Option<Expectation>)) -> ResolvedView {
    (access_view(r.0), arm_codec_view(r.1), checks_view(r.2))
}

pub open spec fn ctx_of(
    v: usize,
    member: FieldMeta,
    proto_name: String,
    proto_path: String,
    member_name: String,
) -> VariantCtx {
    VariantCtx {
        v: v as int,
        member,
        proto_name: proto_name@,
        proto_path: proto_path@,
        member_name: member_name@,
    }
}

/// A field kind as `Debug` writes it.
pub(crate) fn kind_debug(kind: &FieldKind) -> (text: Vec<char>)
    ensures
        text@ == kind_debug_of(kind_view(*kind)),
{
    let mut out: Vec<char> = Vec::new();
    match kind {
        FieldKind::Double => push_str(&mut out, "Double"),
        FieldKind::Float => push_str(&mut out, "Float"),
        FieldKind::Int32 => push_str(&mut out, "Int32"),
        FieldKind::Int64 => push_str(&mut out, "Int64"),
        FieldKind::UInt32 => push_str(&mut out, "UInt32"),
        FieldKind::UInt64 => push_str(&mut out, "UInt64"),
        FieldKind::Bool => push_str(&mut out, "Bool"),
        FieldKind::String => push_str(&mut out, "String"),
        FieldKind::Bytes => push_str(&mut out, "Bytes"),
        FieldKind::Message(n) => {
            push_str(&mut out, "Message(");
            push_str(&mut out, debug_str(n.as_str()).as_str());
            out.push(')');
        },
        FieldKind::Enum(n) => {
            push_str(&mut out, "Enum(");
            push_str(&mut out, debug_str(n.as_str()).as_str());
            out.push(')');
        },
        FieldKind::Unsupported(n) => {
            push_str(&mut out, "Unsupported(");
            push_str(&mut out, debug_str(n.as_str()).as_str());
            out.push(')');
        },
    }
    assert(out@ =~= kind_debug_of(kind_view(*kind)));
    out
}

fn text3(a: &str, b: &String, c: &str) -> (t: String)
    ensures
        t@ == a@ + b@ + c@,
{
    let mut out: Vec<char> = Vec::new();
    push_str(&mut out, a);
    push_str(&mut out, b.as_str());
    push_str(&mut out, c);
    string_of(out.as_slice())
}

/// A `present` marker variant.
fn marker(
    v: usize,
    member: &FieldMeta,
    proto_path: &String,
    fields: &VariantFields,
) -> (r: Result<(Access, ArmCodec, Option<Expectation>), Diagnostic>)
    ensures
        match r {
            Ok(x) => marker_of(
                VariantCtx {
                    v: v as int,
                    member: *member,
                    proto_name: Seq::empty(),
                    proto_path: proto_path@,
                    member_name: Seq::empty(),
                },
                *fields,
            ) == Ok::<ResolvedView, (Site, Seq<char>)>(resolved_view(x)),
            Err(d) => marker_of(
                VariantCtx {
                    v: v as int,
                    member: *member,
                    proto_name: Seq::empty(),
                    proto_path: proto_path@,
                    member_name: Seq::empty(),
                },
                *fields,
            ) == Err::<ResolvedView, (Site, Seq<char>)>(diagnostic_view(d)),
        },
{
    match fields {
        VariantFields::Unit => {},
        _ => {
            proof {
                reveal_strlit("#[armonik(present)] variants must be unit variants");
            }
            return Err(diagnostic(Site::Variant(v), "#[armonik(present)] variants must be unit variants".to_owned()));
        },
    }
    match &member.kind {
        FieldKind::Bool => Ok((Access::Unit, ArmCodec::Presence(Presence::Bool), None)),
        FieldKind::Message(_) => Ok((Access::Unit, ArmCodec::Presence(Presence::EmptyMessage), None)),
        other => {
            let mut out: Vec<char> = Vec::new();
            push_str(&mut out, "#[armonik(present)] needs a bool or message member, but `");
            push_str(&mut out, proto_path.as_str());
            push_str(&mut out, "` is ");
            let debug = kind_debug(other);
            crate::text::push_all(&mut out, &debug);
            proof {
                reveal_strlit("#[armonik(present)] needs a bool or message member, but `");
                reveal_strlit("` is ");
                assert(out@ =~= marker_kind_message(proto_path@, kind_view(member.kind)));
            }
            Err(diagnostic(Site::Variant(v), string_of(out.as_slice())))
        },
    }
}

/// A variant whose member is carried whole.
fn whole(
    v: usize,
    member: &FieldMeta,
    proto_name: &String,
    member_name: &String,
    with: bool,
    fields: &VariantFields,
    leftovers: &Vec<Leftover>,
    has_siblings: bool,
) -> (r: Result<(Access, ArmCodec, Option<Expectation>), Diagnostic>)
    ensures
        ({
            let ctx = VariantCtx {
                v: v as int,
                member: *member,
                proto_name: proto_name@,
                proto_path: Seq::empty(),
                member_name: member_name@,
            };
            match r {
                Ok(x) => whole_of(ctx, with, *fields, leftovers_view(leftovers@), has_siblings) == Ok::<
                    ResolvedView,
                    (Site, Seq<char>),
                >(resolved_view(x)),
                Err(d) => whole_of(ctx, with, *fields, leftovers_view(leftovers@), has_siblings) == Err::<
                    ResolvedView,
                    (Site, Seq<char>),
                >(diagnostic_view(d)),
            }
        }),
{
    let bad = "oneof variants must be `Variant(T)`, `Variant { .. }`, a #[armonik(present)] marker, or the attribute-less default";
    proof {
        reveal_strlit("oneof variants must be `Variant(T)`, `Variant { .. }`, a #[armonik(present)] marker, or the attribute-less default");
    }
    match fields {
        VariantFields::Unnamed(tys) => {
            if tys.len() != 1 {
                return Err(diagnostic(Site::Variant(v), bad.to_owned()));
            }
            if has_siblings {
                let m = text3("`", proto_name, "` has non-oneof fields, so every variant must be a struct variant carrying them");
                proof {
                    reveal_strlit("`");
                    reveal_strlit("` has non-oneof fields, so every variant must be a struct variant carrying them");
                }
                return Err(diagnostic(Site::Variant(v), m));
            }
            let checks = if with {
                None
            } else {
                Some(Expectation::of(member))
            };
            Ok((Access::Payload, ArmCodec::Field { ty: tys[0].clone(), adapter: with }, checks))
        },
        VariantFields::Named(_) => {
            if with {
                proof {
                    reveal_strlit("in a struct variant, put with = ... on the field carrying the member");
                }
                return Err(
                    diagnostic(
                        Site::VariantWith(v),
                        "in a struct variant, put with = ... on the field carrying the member".to_owned(),
                    ),
                );
            }
            if leftovers.len() == 1 {
                let l = &leftovers[0];
                let checks = if l.with {
                    None
                } else {
                    Some(Expectation::of(member))
                };
                Ok((Access::Field(l.ident.clone()), ArmCodec::Field { ty: l.ty.clone(), adapter: l.with }, checks))
            } else if leftovers.len() == 0 {
                let m = text3("the variant needs a field carrying the member `", member_name, "`");
                proof {
                    reveal_strlit("the variant needs a field carrying the member `");
                    reveal_strlit("`");
                }
                Err(diagnostic(Site::Variant(v), m))
            } else {
                let m = text3(
                    "only one field of the variant may carry the member `",
                    member_name,
                    "`; add #[armonik(inline)] to the variant if these are the member message's own fields, spread into it",
                );
                proof {
                    reveal_strlit("only one field of the variant may carry the member `");
                    reveal_strlit("`; add #[armonik(inline)] to the variant if these are the member message's own fields, spread into it");
                }
                Err(diagnostic(Site::VariantField(v, leftovers[1].field), m))
            }
        },
        VariantFields::Unit => Err(diagnostic(Site::Variant(v), bad.to_owned())),
    }
}

/// Every message of the index keeps its oneofs and members in range.
#[verifier::opaque]
pub open spec fn messages_wf(messages: Seq<(String, MessageMeta)>) -> bool {
    forall|m: int| 0 <= m < messages.len() ==> message_wf(&(#[trigger] messages[m]).1)
}

pub proof fn lemma_message_wf_at(messages: Seq<(String, MessageMeta)>, m: int)
    requires
        messages_wf(messages),
        0 <= m < messages.len(),
    ensures
        message_wf(&messages[m].1),
{
    reveal(messages_wf);
}

pub open spec fn inline_state<'a>(matcher: Matcher<'a>, parts: Seq<(u32, NamedSlot)>, errors: Seq<Diagnostic>) -> InlineState {
    InlineState {
        consumed: matcher.consumed(),
        oneofs: matcher.consumed_oneofs(),
        parts: parts.map_values(|p: (u32, NamedSlot)| (p.0, named_slot_view(p.1))),
        errors: diagnostics_view(errors),
    }
}

/// Matches one leftover of variant `v` against the inlined message.
fn inline_step<'a>(
    inner_name: &String,
    matcher: &mut Matcher<'a>,
    l: &Leftover,
    v: usize,
    parts: &mut Vec<(u32, NamedSlot)>,
    errors: &mut Vec<Diagnostic>,
)
    requires
        old(matcher).inv(),
        old(matcher).message_name() == inner_name@,
    ensures
        final(matcher).inv(),
        final(matcher).message_name() == old(matcher).message_name(),
        final(matcher).meta() == old(matcher).meta(),
        inline_state(*final(matcher), final(parts)@, final(errors)@) == inline_step_of(
            inner_name@,
            old(matcher).meta(),
            inline_state(*old(matcher), old(parts)@, old(errors)@),
            leftover_view(*l),
            v as int,
        ),
{
    let site = Site::VariantField(v, l.field);
    let ghost g = |p: (u32, NamedSlot)| (p.0, named_slot_view(p.1));
    if l.with {
        push_message(errors, site, "with = ... is not supported on an inlined field");
        proof {
            reveal_strlit("with = ... is not supported on an inlined field");
        }
        return;
    }
    match matcher.find(l.name.as_str()) {
        Err(m) => {
            let ghost before = diagnostics_view(errors@);
            errors.push(diagnostic(site, m));
            assert(diagnostics_view(errors@) =~= before.push(diagnostic_view(errors@.last())));
        },
        Ok(Found::Oneof { .. }) => {},
        Ok(Found::Field(fm)) => {
            let slot = NamedSlot {
                ident: l.ident.clone(),
                ty: l.ty.clone(),
                tag: fm.tag,
                proto_path: crate::shape::proto_path(inner_name.as_str(), &fm.name),
                checks: Expectation::of(fm),
                docs: crate::descriptor::clone_strings(&fm.docs),
            };
            let ghost before = parts@;
            parts.push((fm.tag, slot));
            assert(parts@.map_values(g) =~= before.map_values(g).push(g((fm.tag, slot))));
        },
    }
}

/// Which message an `inline` variant spreads.
#[verifier::rlimit(100)]
fn inline_target<'a>(
    index: &'a DescriptorIndex,
    v: usize,
    member: &'a FieldMeta,
    proto_path: &String,
    errors: &mut Vec<Diagnostic>,
) -> (r: Option<(&'a String, usize)>)
    ensures
        ({
            let ctx = VariantCtx {
                v: v as int,
                member: *member,
                proto_name: Seq::empty(),
                proto_path: proto_path@,
                member_name: Seq::empty(),
            };
            match r {
                Some((n, m)) => inline_target_of(index.messages@, ctx, diagnostics_view(old(errors)@))
                    == Ok::<(Seq<char>, int), Seq<(Site, Seq<char>)>>((n@, m as int))
                    && diagnostics_view(final(errors)@) == diagnostics_view(old(errors)@)
                    && m < index.messages@.len(),
                None => inline_target_of(index.messages@, ctx, diagnostics_view(old(errors)@)) == Err::<
                    (Seq<char>, int),
                    Seq<(Site, Seq<char>)>,
                >(diagnostics_view(final(errors)@)),
            }
        }),
{
    let site = Site::Variant(v);
    let inner_name = match &member.kind {
        FieldKind::Message(n) => n,
        _ => {
            let m = text3("inline spreads a message member's fields, but `", proto_path, "` is not a message");
            proof {
                reveal_strlit("inline spreads a message member's fields, but `");
                reveal_strlit("` is not a message");
            }
            let ghost before = diagnostics_view(errors@);
            errors.push(diagnostic(site, m));
            assert(diagnostics_view(errors@) =~= before.push(diagnostic_view(errors@.last())));
            return None;
        },
    };
    let m = match find_entry(&index.messages, inner_name.as_str()) {
        Some(m) => m,
        None => {
            assert(kind_view(member.kind) == KindView::Message(inner_name@));
            assert(position_of(index.messages@, inner_name@) is None);
            let t = text3("proto message `", inner_name, "` not found");
            proof {
                reveal_strlit("proto message `");
                reveal_strlit("` not found");
            }
            let ghost before = diagnostics_view(errors@);
            errors.push(diagnostic(site, t));
            assert(diagnostics_view(errors@) =~= before.push(diagnostic_view(errors@.last())));
            return None;
        },
    };
    if index.messages[m].1.oneofs.len() > 0 {
        let t = text3("`", inner_name, "` contains a oneof; it cannot be inlined into a struct variant");
        proof {
            reveal_strlit("`");
            reveal_strlit("` contains a oneof; it cannot be inlined into a struct variant");
        }
        let ghost before = diagnostics_view(errors@);
        errors.push(diagnostic(site, t));
        assert(diagnostics_view(errors@) =~= before.push(diagnostic_view(errors@.last())));
        return None;
    }
    Some((inner_name, m))
}

/// An `inline` variant: its leftovers matched against the member message's own fields.
fn inline(
    index: &DescriptorIndex,
    v: usize,
    member: &FieldMeta,
    proto_path: &String,
    leftovers: &Vec<Leftover>,
    absorbs: &mut Vec<String>,
    errors: &mut Vec<Diagnostic>,
) -> (r: Option<(Access, ArmCodec, Option<Expectation>)>)
    requires
        messages_wf(index.messages@),
    ensures
        ({
            let ctx = VariantCtx {
                v: v as int,
                member: *member,
                proto_name: Seq::empty(),
                proto_path: proto_path@,
                member_name: Seq::empty(),
            };
            let spec = inline_of(
                index.messages@,
                ctx,
                leftovers_view(leftovers@),
                strings_view(old(absorbs)@),
                diagnostics_view(old(errors)@),
            );
            &&& match r {
                Some(x) => spec.0 == Some(resolved_view(x)),
                None => spec.0 is None,
            }
            &&& spec.1 == strings_view(final(absorbs)@)
            &&& spec.2 == diagnostics_view(final(errors)@)
        }),
{
    let (inner_name, m) = match inline_target(index, v, member, proto_path, errors) {
        Some(t) => t,
        None => {
            return None;
        },
    };
    let inner = &index.messages[m].1;
    proof {
        lemma_message_wf_at(index.messages@, m as int);
    }
    let values = inline_group(inner_name, inner, leftovers, v, errors);
    let ghost before_absorbs = strings_view(absorbs@);
    absorbs.push(inner_name.clone());
    assert(strings_view(absorbs@) =~= before_absorbs.push(inner_name@));
    Some((Access::Unit, ArmCodec::Group { parts: values }, None))
}

/// Matches the leftovers of variant `v` against the message `inner_name` and completes it; the
/// parts come out in tag order.
fn inline_group(
    inner_name: &String,
    inner: &MessageMeta,
    leftovers: &Vec<Leftover>,
    v: usize,
    errors: &mut Vec<Diagnostic>,
) -> (values: Vec<NamedSlot>)
    requires
        message_wf(inner),
    ensures
        ({
            let spec = inline_group_of(inner_name@, inner, leftovers_view(leftovers@), v as int, diagnostics_view(old(errors)@));
            &&& values@.map_values(|x: NamedSlot| named_slot_view(x)) == spec.0
            &&& diagnostics_view(final(errors)@) == spec.1
        }),
{
    reveal(inline_group_of);
    let site = Site::Variant(v);
    let mut matcher = Matcher::new(inner_name.as_str(), inner);
    let mut parts: Vec<(u32, NamedSlot)> = Vec::new();
    let ghost start = inline_state(matcher, parts@, errors@);
    assert(parts@.map_values(|p: (u32, NamedSlot)| (p.0, named_slot_view(p.1))) =~= Seq::<(u32, NamedSlotView)>::empty());
    let mut i: usize = 0;
    while i < leftovers.len()
        invariant
            i <= leftovers@.len(),
            matcher.inv(),
            matcher.message_name() == inner_name@,
            matcher.meta() == inner,
            inline_state(matcher, parts@, errors@) == inline_parts_of(
                inner_name@,
                inner,
                leftovers_view(leftovers@),
                i as int,
                v as int,
                start,
            ),
        decreases leftovers.len() - i,
    {
        inline_step(inner_name, &mut matcher, &leftovers[i], v, &mut parts, errors);
        i = i + 1;
    }
    let gaps = matcher.check_complete();
    let ghost before = diagnostics_view(errors@);
    let mut g: usize = 0;
    while g < gaps.len()
        invariant
            g <= gaps@.len(),
            diagnostics_view(errors@) == before + strings_view(gaps@).take(g as int).map_values(
                |x: Seq<char>| (site, x),
            ),
        decreases gaps.len() - g,
    {
        let ghost prev = diagnostics_view(errors@);
        errors.push(diagnostic(site, gaps[g].clone()));
        assert(strings_view(gaps@).take(g + 1).map_values(|x: Seq<char>| (site, x)) =~= strings_view(
            gaps@,
        ).take(g as int).map_values(|x: Seq<char>| (site, x)).push((site, gaps@[g as int]@)));
        assert(diagnostics_view(errors@) =~= prev.push((site, gaps@[g as int]@)));
        g = g + 1;
    }
    assert(strings_view(gaps@).take(g as int) =~= strings_view(gaps@));
    let ghost pv = parts@;
    let ghost f = |x: NamedSlot| named_slot_view(x);
    let sorted = sort_keyed(parts);
    let values = crate::order::values_of(sorted);
    proof {
        lemma_sort_by_key_map(pv, f);
        assert(pv.map_values(|q: (u32, NamedSlot)| (q.0, f(q.1))) =~= pv.map_values(
            |p: (u32, NamedSlot)| (p.0, named_slot_view(p.1)),
        ));
        assert(values@.map_values(f) =~= sort_by_key(pv).map_values(|q: (u32, NamedSlot)| (q.0, f(q.1))).map_values(
            |p: (u32, NamedSlotView)| p.1,
        ));
    }
    values
}

/// Resolves variant `v` against its member through its carrier; none once its diagnostics are
/// reported.
fn resolve_variant(
    index: &DescriptorIndex,
    v: usize,
    member: &FieldMeta,
    proto_name: &String,
    proto_path: &String,
    member_name: &String,
    carrier: Carrier,
    fields: &VariantFields,
    leftovers: &Vec<Leftover>,
    has_siblings: bool,
    absorbs: &mut Vec<String>,
    errors: &mut Vec<Diagnostic>,
) -> (r: Option<(Access, ArmCodec, Option<Expectation>)>)
    requires
        messages_wf(index.messages@),
    ensures
        ({
            let spec = resolve_variant_of(
                index.messages@,
                ctx_of(v, *member, *proto_name, *proto_path, *member_name),
                carrier,
                *fields,
                leftovers_view(leftovers@),
                has_siblings,
                strings_view(old(absorbs)@),
                diagnostics_view(old(errors)@),
            );
            &&& match r {
                Some(x) => spec.0 == Some(resolved_view(x)),
                None => spec.0 is None,
            }
            &&& spec.1 == strings_view(final(absorbs)@)
            &&& spec.2 == diagnostics_view(final(errors)@)
        }),
{
    let ghost ctx = ctx_of(v, *member, *proto_name, *proto_path, *member_name);
    match carrier {
        Carrier::Present => {
            if has_siblings {
                let m = text3(
                    "#[armonik(present)] needs a unit variant, but `",
                    proto_name,
                    "` has non-oneof fields that every variant must carry; give the variant an empty member type instead",
                );
                proof {
                    reveal_strlit("#[armonik(present)] needs a unit variant, but `");
                    reveal_strlit("` has non-oneof fields that every variant must carry; give the variant an empty member type instead");
                }
                let ghost before = diagnostics_view(errors@);
                errors.push(diagnostic(Site::Variant(v), m));
                assert(diagnostics_view(errors@) =~= before.push(diagnostic_view(errors@.last())));
                return None;
            }
            match marker(v, member, proto_path, fields) {
                Ok(x) => {
                    assert(marker_of(ctx, *fields) == marker_of(
                        VariantCtx { proto_name: Seq::empty(), member_name: Seq::empty(), ..ctx },
                        *fields,
                    ));
                    Some(x)
                },
                Err(d) => {
                    assert(marker_of(ctx, *fields) == marker_of(
                        VariantCtx { proto_name: Seq::empty(), member_name: Seq::empty(), ..ctx },
                        *fields,
                    ));
                    let ghost before = diagnostics_view(errors@);
                    errors.push(d);
                    assert(diagnostics_view(errors@) =~= before.push(diagnostic_view(d)));
                    None
                },
            }
        },
        Carrier::Inline => {
            if has_siblings {
                let m = text3(
                    "inline and the non-oneof fields of `",
                    proto_name,
                    "` cannot be combined: every variant carries those fields, and inline spreads the member's own into the same variant; carry the member whole in a field of its own instead",
                );
                proof {
                    reveal_strlit("inline and the non-oneof fields of `");
                    reveal_strlit("` cannot be combined: every variant carries those fields, and inline spreads the member's own into the same variant; carry the member whole in a field of its own instead");
                }
                let ghost before = diagnostics_view(errors@);
                errors.push(diagnostic(Site::VariantInline(v), m));
                assert(diagnostics_view(errors@) =~= before.push(diagnostic_view(errors@.last())));
                return None;
            }
            match fields {
                VariantFields::Named(_) => {},
                _ => {
                    push_message(
                        errors,
                        Site::VariantInline(v),
                        "inline needs a struct variant: there is nothing to spread the member's fields into",
                    );
                    proof {
                        reveal_strlit("inline needs a struct variant: there is nothing to spread the member's fields into");
                    }
                    return None;
                },
            }
            let r = inline(index, v, member, proto_path, leftovers, absorbs, errors);
            assert(inline_of(index.messages@, ctx, leftovers_view(leftovers@), strings_view(old(absorbs)@), diagnostics_view(old(errors)@))
                == inline_of(
                index.messages@,
                VariantCtx { proto_name: Seq::empty(), member_name: Seq::empty(), ..ctx },
                leftovers_view(leftovers@),
                strings_view(old(absorbs)@),
                diagnostics_view(old(errors)@),
            ));
            r
        },
        Carrier::Whole { with } => {
            let r = whole(v, member, proto_name, member_name, with, fields, leftovers, has_siblings);
            assert(whole_of(ctx, with, *fields, leftovers_view(leftovers@), has_siblings) == whole_of(
                VariantCtx { proto_path: Seq::empty(), ..ctx },
                with,
                *fields,
                leftovers_view(leftovers@),
                has_siblings,
            ));
            match r {
                Ok(x) => Some(x),
                Err(d) => {
                    let ghost before = diagnostics_view(errors@);
                    errors.push(d);
                    assert(diagnostics_view(errors@) =~= before.push(diagnostic_view(d)));
                    None
                },
            }
        },
    }
}

/// What a variant's `#[armonik(...)]` attributes said.
pub struct VariantAttrs {
    /// `rename = "..."`: the member it names, when not its own name in snake case.
    pub rename: Option<String>,
    /// `with = ...`: the member goes through an adapter.
    pub with: bool,
    /// `present`: the member is carried by presence alone.
    pub present: bool,
    /// `inline`: the member message's own fields are spread into the variant.
    pub inline: bool,
    /// `absorbs = ...`: messages the adapter flattens away.
    pub absorbs: Vec<String>,
}

/// A variant of the enum: its identifier as written, its attributes as read or the diagnostics
/// that rejected them, and its fields.
pub struct Variant {
    pub ident: String,
    pub attrs: Result<VariantAttrs, Vec<Diagnostic>>,
    pub fields: VariantFields,
}

/// A variant resolved to its member: which variant, how it reaches and encodes the member, the
/// member's tag, what the shape assert checks, the member's proto path and its docs.
pub struct Arm {
    pub variant: usize,
    pub access: Access,
    pub tag: u32,
    pub codec: ArmCodec,
    pub checks: Option<Expectation>,
    pub proto_path: String,
    pub docs: Vec<String>,
}

pub struct ArmView {
    pub variant: usize,
    pub access: AccessView,
    pub tag: u32,
    pub codec: ArmCodecView,
    pub checks: Option<(KindView, CardinalityView)>,
    pub proto_path: Seq<char>,
    pub docs: Seq<Seq<char>>,
}

pub open spec fn arm_view(a: Arm) -> ArmView {
    ArmView {
        variant: a.variant,
        access: access_view(a.access),
        tag: a.tag,
        codec: arm_codec_view(a.codec),
        checks: checks_view(a.checks),
        proto_path: a.proto_path@,
        docs: strings_view(a.docs@),
    }
}

/// What resolving the variants has gathered so far.
pub struct OneofState {
    pub sibs: SiblingsView,
    pub covered: Seq<bool>,
    pub arms: Seq<(u32, ArmView)>,
    pub default_arm: Option<usize>,
    pub absorbs: Seq<Seq<char>>,
    pub errors: Seq<(Site, Seq<char>)>,
}

/// The first member of `oneof`, from `from` on, named `name`.
pub open spec fn member_at(meta: MessageMeta, oneof: OneofMeta, name: Seq<char>, from: int) -> Option<int>
    decreases oneof.fields@.len() - from,
{
    if from < 0 || from >= oneof.fields@.len() {
        None
    } else if meta.fields@[oneof.fields@[from] as int].name@ == name {
        Some(from)
    } else {
        member_at(meta, oneof, name, from + 1)
    }
}

pub open spec fn member_names(meta: MessageMeta, oneof: OneofMeta) -> Seq<Seq<char>> {
    oneof.fields@.map_values(|f: usize| meta.fields@[f as int].name@)
}

pub open spec fn unknown_member_message(
    member: Seq<char>,
    proto: Seq<char>,
    meta: MessageMeta,
    oneof: OneofMeta,
) -> Seq<char> {
    unknown_name_of(
        "member"@,
        member,
        "oneof `"@ + proto + "."@ + oneof.name@ + "`"@,
        member_names(meta, oneof),
        "use #[armonik(rename = \"...\")] if the names differ"@,
    )
}

pub open spec fn second_default_message() -> Seq<char> {
    "at most one attribute-less variant (the \"no member set\" case) is allowed"@
}

/// Variant `v` resolved: its attributes read, its fields sorted between siblings and the member,
/// its member named by `rename` or its name in snake case. A variant that names no member and
/// carries nothing of its own, with no key, is the "no member set" case, of which there is at
/// most one; any other is an arm for its member, which is covered even when the arm fails.
pub open spec fn variant_step_of(
    messages: Seq<(String, MessageMeta)>,
    proto: Seq<char>,
    meta: MessageMeta,
    oneof: OneofMeta,
    st: OneofState,
    var: Variant,
    v: int,
) -> OneofState {
    match var.attrs {
        Err(ds) => OneofState { errors: st.errors + diagnostics_view(ds@), ..st },
        Ok(a) => {
            let absorbs = st.absorbs + strings_view(a.absorbs@);
            let (carried, sibs, absorbs2, errs) = if a.present {
                (Some(CarriedView::Fields(Seq::empty())), st.sibs, absorbs, st.errors)
            } else {
                carried_of(meta, proto, var.fields, v, st.sibs, absorbs, st.errors)
            };
            match carried {
                None => OneofState { sibs, absorbs: absorbs2, errors: errs, ..st },
                Some(c) => {
                    let member_name = match a.rename {
                        Some(n) => n@,
                        None => snake_case_of(unraw_of(var.ident@)),
                    };
                    let carries_nothing = match c {
                        CarriedView::Fields(ls) => ls.len() == 0,
                        CarriedView::Payload => false,
                    };
                    match member_at(meta, oneof, member_name, 0) {
                        None => if carries_nothing && a.rename is None && !a.present && !a.inline && !a.with {
                            OneofState {
                                sibs,
                                absorbs: absorbs2,
                                errors: if st.default_arm is Some {
                                    errs.push((Site::Variant(v as usize), second_default_message()))
                                } else {
                                    errs
                                },
                                default_arm: Some(v as usize),
                                ..st
                            }
                        } else {
                            OneofState {
                                sibs,
                                absorbs: absorbs2,
                                errors: errs.push(
                                    (Site::Variant(v as usize), unknown_member_message(member_name, proto, meta, oneof)),
                                ),
                                ..st
                            }
                        },
                        Some(q) => arm_step_of(
                            messages,
                            proto,
                            meta,
                            oneof,
                            OneofState { sibs, absorbs: absorbs2, errors: errs, ..st },
                            q,
                            a,
                            c,
                            member_name,
                            var.fields,
                            v,
                        ),
                    }
                },
            }
        },
    }
}

/// Variant `v`, with attributes `a`, carrying `c`, resolved to the member at `q` of the oneof:
/// the member is covered, and the variant's arm added when its carrier and shape resolve.
pub open spec fn arm_step_of(
    messages: Seq<(String, MessageMeta)>,
    proto: Seq<char>,
    meta: MessageMeta,
    oneof: OneofMeta,
    st: OneofState,
    q: int,
    a: VariantAttrs,
    c: CarriedView,
    member_name: Seq<char>,
    fields: VariantFields,
    v: int,
) -> OneofState {
    let fm = meta.fields@[oneof.fields@[q] as int];
    let proto_path = proto + "."@ + fm.name@;
    let covered = st.covered.update(q, true);
    match carrier_of(v, a.with, a.present, a.inline) {
        Err(d) => OneofState { errors: st.errors.push(d), covered, ..st },
        Ok(carrier) => {
            let ctx = VariantCtx { v, member: fm, proto_name: proto, proto_path, member_name };
            let leftovers = match c {
                CarriedView::Fields(ls) => ls,
                CarriedView::Payload => Seq::empty(),
            };
            let (r, absorbs3, errs3) = resolve_variant_of(
                messages,
                ctx,
                carrier,
                fields,
                leftovers,
                st.sibs.len() > 0,
                st.absorbs,
                st.errors,
            );
            match r {
                None => OneofState { absorbs: absorbs3, errors: errs3, covered, ..st },
                Some(rv) => OneofState {
                    absorbs: absorbs3,
                    errors: errs3,
                    covered,
                    arms: st.arms.push(
                        (
                            fm.tag,
                            ArmView {
                                variant: v as usize,
                                access: rv.0,
                                tag: fm.tag,
                                codec: rv.1,
                                checks: rv.2,
                                proto_path,
                                docs: strings_view(fm.docs@),
                            },
                        ),
                    ),
                    ..st
                },
            }
        },
    }
}

pub open spec fn oneof_state(
    siblings: Siblings,
    covered: Seq<bool>,
    arms: Seq<(u32, Arm)>,
    default_arm: Option<usize>,
    absorbs: Seq<String>,
    errors: Seq<Diagnostic>,
) -> OneofState {
    OneofState {
        sibs: siblings_view(siblings),
        covered,
        arms: arms.map_values(|p: (u32, Arm)| (p.0, arm_view(p.1))),
        default_arm,
        absorbs: strings_view(absorbs),
        errors: diagnostics_view(errors),
    }
}

/// The members of `oneof` are fields of the message.
pub open spec fn oneof_in(oneof: OneofMeta, meta: MessageMeta) -> bool {
    forall|j: int| 0 <= j < oneof.fields@.len() ==> (#[trigger] oneof.fields@[j]) < meta.fields@.len()
}

/// Variant `v` resolved to the member at `q`: the member covered, and the arm added when it
/// resolves.
fn resolve_arm(
    index: &DescriptorIndex,
    proto: &String,
    meta: &MessageMeta,
    oneof: &OneofMeta,
    q: usize,
    a: &VariantAttrs,
    c: Carried,
    member_name: &String,
    fields: &VariantFields,
    v: usize,
    siblings: &Siblings,
    covered: &mut Vec<bool>,
    arms: &mut Vec<(u32, Arm)>,
    absorbs: &mut Vec<String>,
    errors: &mut Vec<Diagnostic>,
)
    requires
        messages_wf(index.messages@),
        oneof_in(*oneof, *meta),
        q < oneof.fields@.len(),
        old(covered)@.len() == oneof.fields@.len(),
    ensures
        final(covered)@.len() == old(covered)@.len(),
        ({
            let before = oneof_state(*siblings, old(covered)@, old(arms)@, None, old(absorbs)@, old(errors)@);
            let after = arm_step_of(
                index.messages@,
                proto@,
                *meta,
                *oneof,
                before,
                q as int,
                *a,
                carried_view(c),
                member_name@,
                *fields,
                v as int,
            );
            &&& after.covered == final(covered)@
            &&& after.arms == final(arms)@.map_values(|p: (u32, Arm)| (p.0, arm_view(p.1)))
            &&& after.absorbs == strings_view(final(absorbs)@)
            &&& after.errors == diagnostics_view(final(errors)@)
        }),
{
    let ghost g = |p: (u32, Arm)| (p.0, arm_view(p.1));
    let fm = &meta.fields[oneof.fields[q]];
    let path = crate::shape::proto_path(proto.as_str(), &fm.name);
    covered.set(q, true);
    match carrier(v, a.with, a.present, a.inline) {
        Err(d) => {
            let ghost before = diagnostics_view(errors@);
            errors.push(d);
            assert(diagnostics_view(errors@) =~= before.push(diagnostic_view(d)));
        },
        Ok(carrier) => {
            let leftovers = match c {
                Carried::Fields(ls) => ls,
                Carried::Payload => Vec::new(),
            };
            assert(leftovers_view(leftovers@) == match carried_view(c) {
                CarriedView::Fields(ls) => ls,
                CarriedView::Payload => Seq::<LeftoverView>::empty(),
            }) by {
                if c is Payload {
                    assert(leftovers_view(leftovers@) =~= Seq::<LeftoverView>::empty());
                }
            }
            let has_siblings = siblings.entries.len() > 0;
            match resolve_variant(
                index,
                v,
                fm,
                proto,
                &path,
                member_name,
                carrier,
                fields,
                &leftovers,
                has_siblings,
                absorbs,
                errors,
            ) {
                None => {},
                Some((access, codec, checks)) => {
                    let arm = Arm {
                        variant: v,
                        access,
                        tag: fm.tag,
                        codec,
                        checks,
                        proto_path: path,
                        docs: crate::descriptor::clone_strings(&fm.docs),
                    };
                    let ghost before = arms@;
                    arms.push((fm.tag, arm));
                    assert(arms@.map_values(g) =~= before.map_values(g).push(g((fm.tag, arm))));
                },
            }
        },
    }
}

/// Where the member named `name` sits in `oneof`.
fn find_member(meta: &MessageMeta, oneof: &OneofMeta, name: &String) -> (q: Option<usize>)
    requires
        oneof_in(*oneof, *meta),
    ensures
        match q {
            Some(q) => q < oneof.fields@.len() && member_at(*meta, *oneof, name@, 0) == Some(q as int),
            None => member_at(*meta, *oneof, name@, 0) is None,
        },
{
    let mut q: usize = 0;
    while q < oneof.fields.len()
        invariant
            q <= oneof.fields@.len(),
            oneof_in(*oneof, *meta),
            member_at(*meta, *oneof, name@, 0) == member_at(*meta, *oneof, name@, q as int),
        decreases oneof.fields.len() - q,
    {
        let f = oneof.fields[q];
        if crate::descriptor::string_eq(&meta.fields[f].name, name.as_str()) {
            return Some(q);
        }
        q = q + 1;
    }
    None
}

/// The names of the members of `oneof`.
fn member_name_list(meta: &MessageMeta, oneof: &OneofMeta) -> (names: Vec<String>)
    requires
        oneof_in(*oneof, *meta),
    ensures
        strings_view(names@) == member_names(*meta, *oneof),
{
    let mut names: Vec<String> = Vec::new();
    let mut j: usize = 0;
    while j < oneof.fields.len()
        invariant
            j <= oneof.fields@.len(),
            oneof_in(*oneof, *meta),
            strings_view(names@) =~= member_names(*meta, *oneof).take(j as int),
        decreases oneof.fields.len() - j,
    {
        let ghost before = strings_view(names@);
        names.push(meta.fields[oneof.fields[j]].name.clone());
        assert(strings_view(names@) =~= before.push(member_names(*meta, *oneof)[j as int]));
        j = j + 1;
    }
    names
}

/// Resolves variant `v` of the enum standing for `oneof` of the message `proto`.
fn resolve_one_variant(
    index: &DescriptorIndex,
    proto: &String,
    meta: &MessageMeta,
    oneof: &OneofMeta,
    var: &Variant,
    v: usize,
    siblings: &mut Siblings,
    covered: &mut Vec<bool>,
    arms: &mut Vec<(u32, Arm)>,
    default_arm: &mut Option<usize>,
    absorbs: &mut Vec<String>,
    errors: &mut Vec<Diagnostic>,
)
    requires
        messages_wf(index.messages@),
        oneof_in(*oneof, *meta),
        siblings_wf(siblings_view(*old(siblings)), *meta),
        old(covered)@.len() == oneof.fields@.len(),
    ensures
        siblings_wf(siblings_view(*final(siblings)), *meta),
        final(covered)@.len() == old(covered)@.len(),
        oneof_state(
            *final(siblings),
            final(covered)@,
            final(arms)@,
            *final(default_arm),
            final(absorbs)@,
            final(errors)@,
        ) == variant_step_of(
            index.messages@,
            proto@,
            *meta,
            *oneof,
            oneof_state(
                *old(siblings),
                old(covered)@,
                old(arms)@,
                *old(default_arm),
                old(absorbs)@,
                old(errors)@,
            ),
            *var,
            v as int,
        ),
{
    let a = match &var.attrs {
        Err(ds) => {
            crate::shape::push_diagnostics(errors, ds);
            return;
        },
        Ok(a) => a,
    };
    crate::shape::push_strings(absorbs, &a.absorbs);
    let c = if a.present {
        let none: Vec<Leftover> = Vec::new();
        assert(leftovers_view(none@) =~= Seq::<LeftoverView>::empty());
        Carried::Fields(none)
    } else {
        match carried(meta, proto, &var.fields, v, siblings, absorbs, errors) {
            Some(c) => c,
            None => {
                return;
            },
        }
    };
    let member_name = match &a.rename {
        Some(n) => n.clone(),
        None => snake_case(crate::shape::unraw(var.ident.as_str()).as_str()),
    };
    let carries_nothing = match &c {
        Carried::Fields(ls) => ls.len() == 0,
        Carried::Payload => false,
    };
    match find_member(meta, oneof, &member_name) {
        None => {
            if carries_nothing && a.rename.is_none() && !a.present && !a.inline && !a.with {
                if default_arm.is_some() {
                    push_message(
                        errors,
                        Site::Variant(v),
                        "at most one attribute-less variant (the \"no member set\" case) is allowed",
                    );
                    proof {
                        reveal_strlit("at most one attribute-less variant (the \"no member set\" case) is allowed");
                    }
                }
                *default_arm = Some(v);
                return;
            }
            let mut container: Vec<char> = Vec::new();
            push_str(&mut container, "oneof `");
            push_str(&mut container, proto.as_str());
            push_str(&mut container, ".");
            push_str(&mut container, oneof.name.as_str());
            push_str(&mut container, "`");
            let container = string_of(container.as_slice());
            let available = member_name_list(meta, oneof);
            let m = unknown_name(
                "member",
                member_name.as_str(),
                container.as_str(),
                available,
                "use #[armonik(rename = \"...\")] if the names differ",
            );
            let ghost before = diagnostics_view(errors@);
            errors.push(diagnostic(Site::Variant(v), m));
            proof {
                reveal_strlit("member");
                reveal_strlit("oneof `");
                reveal_strlit(".");
                reveal_strlit("`");
                reveal_strlit("use #[armonik(rename = \"...\")] if the names differ");
                assert(container@ =~= "oneof `"@ + proto@ + "."@ + oneof.name@ + "`"@);
                assert(diagnostics_view(errors@) =~= before.push(
                    (Site::Variant(v), unknown_member_message(member_name@, proto@, *meta, *oneof)),
                ));
            }
        },
        Some(q) => {
            resolve_arm(
                index,
                proto,
                meta,
                oneof,
                q,
                a,
                c,
                &member_name,
                &var.fields,
                v,
                siblings,
                covered,
                arms,
                absorbs,
                errors,
            );
        },
    }
}

/// The first `k` variants resolved in order.
pub open spec fn variants_of(
    messages: Seq<(String, MessageMeta)>,
    proto: Seq<char>,
    meta: MessageMeta,
    oneof: OneofMeta,
    vars: Seq<Variant>,
    k: int,
    st: OneofState,
) -> OneofState
    decreases k,
{
    if k <= 0 {
        st
    } else {
        variant_step_of(
            messages,
            proto,
            meta,
            oneof,
            variants_of(messages, proto, meta, oneof, vars, k - 1, st),
            vars[k - 1],
            k - 1,
        )
    }
}

pub open spec fn uncovered_member_message(proto: Seq<char>, field: FieldMeta) -> Seq<char> {
    "oneof member `"@ + proto + "."@ + field.name@ + "` (tag "@ + decimal_of(field.tag as nat)
        + ") is not covered by any variant"@
}

/// A diagnostic for each member, among the first `k`, no variant covered.
pub open spec fn uncovered_members_of(
    proto: Seq<char>,
    meta: MessageMeta,
    oneof: OneofMeta,
    covered: Seq<bool>,
    k: int,
) -> Seq<(Site, Seq<char>)>
    decreases k,
{
    if k <= 0 {
        Seq::empty()
    } else {
        let head = uncovered_members_of(proto, meta, oneof, covered, k - 1);
        if covered[k - 1] {
            head
        } else {
            head.push((Site::Item, uncovered_member_message(proto, meta.fields@[oneof.fields@[k - 1] as int])))
        }
    }
}

pub open spec fn expects_enum_message() -> Seq<char> {
    "#[armonik(oneof = ...)] expects an enum"@
}

/// A oneof-shaped enum resolved: the message it stands for, that message's docs, the oneof it is
/// a fragment of when it does not stand for the whole message, the absorbed messages, the
/// siblings every variant carries, the arms in tag order, and the "no member set" variant.
pub struct OneofPlan {
    pub names: Vec<String>,
    pub docs: Vec<String>,
    pub fragment_of: Option<String>,
    pub absorbs: Vec<String>,
    pub shared: Vec<NamedSlot>,
    pub arms: Vec<Arm>,
    pub default_arm: Option<usize>,
}

pub struct OneofPlanView {
    pub names: Seq<Seq<char>>,
    pub docs: Seq<Seq<char>>,
    pub fragment_of: Option<Seq<char>>,
    pub absorbs: Seq<Seq<char>>,
    pub shared: Seq<NamedSlotView>,
    pub arms: Seq<ArmView>,
    pub default_arm: Option<usize>,
}

pub open spec fn oneof_plan_view(p: OneofPlan) -> OneofPlanView {
    OneofPlanView {
        names: strings_view(p.names@),
        docs: strings_view(p.docs@),
        fragment_of: match p.fragment_of {
            Some(f) => Some(f@),
            None => None,
        },
        absorbs: strings_view(p.absorbs@),
        shared: p.shared@.map_values(|x: NamedSlot| named_slot_view(x)),
        arms: p.arms@.map_values(|a: Arm| arm_view(a)),
        default_arm: p.default_arm,
    }
}

/// A oneof-shaped enum resolved against the oneof its type-level entries select: every variant
/// resolved in order, every member covered; the plan, or every diagnostic, the uncovered members
/// last.
pub open spec fn oneof_of(
    entries: Seq<TypeAttr>,
    messages: Seq<(String, MessageMeta)>,
    is_enum: bool,
    vars: Seq<Variant>,
) -> Result<OneofPlanView, Seq<(Site, Seq<char>)>> {
    let (sel, e) = select_of(entries, messages);
    match sel {
        None => Err(e),
        Some(s) => {
            let meta = messages[s.message].1;
            let oneof = meta.oneofs@[s.oneof];
            if !is_enum {
                Err(e.push((Site::Item, expects_enum_message())))
            } else {
                let start = OneofState {
                    sibs: siblings_start(s.whole_message, meta),
                    covered: Seq::new(oneof.fields@.len(), |q: int| false),
                    arms: Seq::empty(),
                    default_arm: None,
                    absorbs: Seq::empty(),
                    errors: e,
                };
                let st = variants_of(messages, s.proto_name, meta, oneof, vars, vars.len() as int, start);
                let errs = st.errors + uncovered_members_of(
                    s.proto_name,
                    meta,
                    oneof,
                    st.covered,
                    oneof.fields@.len() as int,
                );
                if errs.len() > 0 {
                    Err(errs)
                } else {
                    Ok(
                        OneofPlanView {
                            names: seq![s.proto_name],
                            docs: strings_view(meta.docs@),
                            fragment_of: if s.whole_message {
                                None
                            } else {
                                Some(s.proto_name + "."@ + oneof.name@)
                            },
                            absorbs: st.absorbs,
                            shared: shared_of(st.sibs, meta, s.proto_name),
                            arms: sort_by_key(st.arms).map_values(|p: (u32, ArmView)| p.1),
                            default_arm: st.default_arm,
                        },
                    )
                }
            }
        },
    }
}

/// Resolves every variant in order.
fn resolve_variants(
    index: &DescriptorIndex,
    proto: &String,
    meta: &MessageMeta,
    oneof: &OneofMeta,
    variants: &Vec<Variant>,
    siblings: &mut Siblings,
    covered: &mut Vec<bool>,
    arms: &mut Vec<(u32, Arm)>,
    default_arm: &mut Option<usize>,
    absorbs: &mut Vec<String>,
    errors: &mut Vec<Diagnostic>,
)
    requires
        messages_wf(index.messages@),
        oneof_in(*oneof, *meta),
        siblings_wf(siblings_view(*old(siblings)), *meta),
        old(covered)@.len() == oneof.fields@.len(),
    ensures
        siblings_wf(siblings_view(*final(siblings)), *meta),
        final(covered)@.len() == old(covered)@.len(),
        oneof_state(
            *final(siblings),
            final(covered)@,
            final(arms)@,
            *final(default_arm),
            final(absorbs)@,
            final(errors)@,
        ) == variants_of(
            index.messages@,
            proto@,
            *meta,
            *oneof,
            variants@,
            variants@.len() as int,
            oneof_state(
                *old(siblings),
                old(covered)@,
                old(arms)@,
                *old(default_arm),
                old(absorbs)@,
                old(errors)@,
            ),
        ),
{
    let ghost start = oneof_state(*siblings, covered@, arms@, *default_arm, absorbs@, errors@);
    let mut v: usize = 0;
    while v < variants.len()
        invariant
            v <= variants@.len(),
            messages_wf(index.messages@),
            oneof_in(*oneof, *meta),
            siblings_wf(siblings_view(*siblings), *meta),
            covered@.len() == oneof.fields@.len(),
            oneof_state(*siblings, covered@, arms@, *default_arm, absorbs@, errors@) == variants_of(
                index.messages@,
                proto@,
                *meta,
                *oneof,
                variants@,
                v as int,
                start,
            ),
        decreases variants.len() - v,
    {
        resolve_one_variant(
            index,
            proto,
            meta,
            oneof,
            &variants[v],
            v,
            siblings,
            covered,
            arms,
            default_arm,
            absorbs,
            errors,
        );
        v = v + 1;
    }
}

/// Reports every member no variant covered.
fn report_uncovered(
    proto: &String,
    meta: &MessageMeta,
    oneof: &OneofMeta,
    covered: &Vec<bool>,
    errors: &mut Vec<Diagnostic>,
)
    requires
        oneof_in(*oneof, *meta),
        covered@.len() == oneof.fields@.len(),
    ensures
        diagnostics_view(final(errors)@) == diagnostics_view(old(errors)@) + uncovered_members_of(
            proto@,
            *meta,
            *oneof,
            covered@,
            covered@.len() as int,
        ),
{
    let ghost start = diagnostics_view(errors@);
    let mut q: usize = 0;
    while q < covered.len()
        invariant
            q <= covered@.len(),
            covered@.len() == oneof.fields@.len(),
            oneof_in(*oneof, *meta),
            diagnostics_view(errors@) == start + uncovered_members_of(proto@, *meta, *oneof, covered@, q as int),
        decreases covered.len() - q,
    {
        if !covered[q] {
            let field = &meta.fields[oneof.fields[q]];
            let mut out: Vec<char> = Vec::new();
            push_str(&mut out, "oneof member `");
            push_str(&mut out, proto.as_str());
            push_str(&mut out, ".");
            push_str(&mut out, field.name.as_str());
            push_str(&mut out, "` (tag ");
            let digits = decimal(field.tag as u64);
            push_all(&mut out, &digits);
            push_str(&mut out, ") is not covered by any variant");
            proof {
                reveal_strlit("oneof member `");
                reveal_strlit(".");
                reveal_strlit("` (tag ");
                reveal_strlit(") is not covered by any variant");
                assert(out@ =~= uncovered_member_message(proto@, *field));
            }
            let ghost before = diagnostics_view(errors@);
            errors.push(diagnostic(Site::Item, string_of(out.as_slice())));
            assert(diagnostics_view(errors@) =~= before.push((Site::Item, uncovered_member_message(proto@, *field))));
        }
        q = q + 1;
    }
}

/// The arms in tag order.
fn sort_arms(arms: Vec<(u32, Arm)>) -> (sorted: Vec<Arm>)
    ensures
        sorted@.map_values(|a: Arm| arm_view(a)) == sort_by_key(
            arms@.map_values(|p: (u32, Arm)| (p.0, arm_view(p.1))),
        ).map_values(|p: (u32, ArmView)| p.1),
{
    let ghost pv = arms@;
    let ghost f = |a: Arm| arm_view(a);
    let keyed = sort_keyed(arms);
    let values = crate::order::values_of(keyed);
    proof {
        lemma_sort_by_key_map(pv, f);
        assert(pv.map_values(|q: (u32, Arm)| (q.0, f(q.1))) =~= pv.map_values(
            |p: (u32, Arm)| (p.0, arm_view(p.1)),
        ));
        assert(values@.map_values(f) =~= sort_by_key(pv).map_values(|q: (u32, Arm)| (q.0, f(q.1))).map_values(
            |p: (u32, ArmView)| p.1,
        ));
    }
    values
}

/// Resolves a oneof-shaped enum: the oneof its type-level entries select, every variant
/// resolved against a member of it, every member covered; the arms come out in tag order.
pub fn oneof_plan(
    entries: &Vec<TypeAttr>,
    index: &DescriptorIndex,
    is_enum: bool,
    variants: &Vec<Variant>,
) -> (r: Result<OneofPlan, Vec<Diagnostic>>)
    requires
        messages_wf(index.messages@),
    ensures
        match r {
            Ok(plan) => oneof_of(entries@, index.messages@, is_enum, variants@) == Ok::<
                OneofPlanView,
                Seq<(Site, Seq<char>)>,
            >(oneof_plan_view(plan)),
            Err(e) => oneof_of(entries@, index.messages@, is_enum, variants@) == Err::<
                OneofPlanView,
                Seq<(Site, Seq<char>)>,
            >(diagnostics_view(e@)),
        },
{
    let (sel, errors) = select_oneof(entries, index);
    let mut errors = errors;
    let sel = match sel {
        None => {
            return Err(errors);
        },
        Some(s) => s,
    };
    let meta = &index.messages[sel.message].1;
    proof {
        lemma_message_wf_at(index.messages@, sel.message as int);
    }
    let oneof = &meta.oneofs[sel.oneof];
    assert(oneof_in(*oneof, *meta));
    let mut siblings = siblings_new(sel.whole_message, meta);
    if !is_enum {
        push_message(&mut errors, Site::Item, "#[armonik(oneof = ...)] expects an enum");
        proof {
            reveal_strlit("#[armonik(oneof = ...)] expects an enum");
        }
        return Err(errors);
    }
    let mut covered: Vec<bool> = Vec::new();
    let mut q: usize = 0;
    while q < oneof.fields.len()
        invariant
            q <= oneof.fields@.len(),
            covered@ =~= Seq::new(q as nat, |x: int| false),
        decreases oneof.fields.len() - q,
    {
        covered.push(false);
        q = q + 1;
    }
    let mut arms: Vec<(u32, Arm)> = Vec::new();
    let mut default_arm: Option<usize> = None;
    let mut absorbs: Vec<String> = Vec::new();
    assert(arms@.map_values(|p: (u32, Arm)| (p.0, arm_view(p.1))) =~= Seq::<(u32, ArmView)>::empty());
    assert(strings_view(absorbs@) =~= Seq::<Seq<char>>::empty());
    resolve_variants(
        index,
        &sel.proto_name,
        meta,
        oneof,
        variants,
        &mut siblings,
        &mut covered,
        &mut arms,
        &mut default_arm,
        &mut absorbs,
        &mut errors,
    );
    report_uncovered(&sel.proto_name, meta, oneof, &covered, &mut errors);
    if errors.len() > 0 {
        return Err(errors);
    }
    let shared = siblings.into_slots(meta, &sel.proto_name);
    let sorted = sort_arms(arms);
    let fragment_of = if sel.whole_message {
        None
    } else {
        Some(crate::shape::proto_path(sel.proto_name.as_str(), &oneof.name))
    };
    let mut names: Vec<String> = Vec::new();
    names.push(sel.proto_name.clone());
    assert(strings_view(names@) =~= seq![sel.proto_name@]);
    let docs = crate::descriptor::clone_strings(&meta.docs);
    Ok(OneofPlan { names, docs, fragment_of, absorbs, shared, arms: sorted, default_arm })
}

/// Whether every message of the index keeps its oneof indices and oneof members in range, as an
/// index built from a descriptor set does.
pub fn messages_consistent(index: &DescriptorIndex) -> (b: bool)
    ensures
        b == messages_wf(index.messages@),
{
    reveal(messages_wf);
    let mut m: usize = 0;
    while m < index.messages.len()
        invariant
            m <= index.messages@.len(),
            forall|k: int| 0 <= k < m ==> message_wf(&(#[trigger] index.messages@[k]).1),
        decreases index.messages.len() - m,
    {
        let meta = &index.messages[m].1;
        let mut f: usize = 0;
        while f < meta.fields.len()
            invariant
                f <= meta.fields@.len(),
                m < index.messages@.len(),
                *meta == index.messages@[m as int].1,
                forall|g: int|
                    0 <= g < f ==> match (#[trigger] meta.fields@[g]).oneof {
                        Some(o) => o < meta.oneofs@.len(),
                        None => true,
                    },
            decreases meta.fields.len() - f,
        {
            match meta.fields[f].oneof {
                Some(o) => {
                    if o >= meta.oneofs.len() {
                        proof {
                            reveal(messages_wf);
                            assert(!message_wf(&index.messages@[m as int].1)) by {
                                assert(meta.fields@[f as int].oneof == Some(o));
                            }
                        }
                        return false;
                    }
                },
                None => {},
            }
            f = f + 1;
        }
        let mut o: usize = 0;
        while o < meta.oneofs.len()
            invariant
                o <= meta.oneofs@.len(),
                m < index.messages@.len(),
                *meta == index.messages@[m as int].1,
                forall|p: int, j: int|
                    0 <= p < o && 0 <= j < meta.oneofs@[p].fields@.len() ==> (
                    #[trigger] meta.oneofs@[p].fields@[j]) < meta.fields@.len(),
            decreases meta.oneofs.len() - o,
        {
            let members = &meta.oneofs[o].fields;
            let mut j: usize = 0;
            while j < members.len()
                invariant
                    j <= members@.len(),
                    o < meta.oneofs@.len(),
                    m < index.messages@.len(),
                    *meta == index.messages@[m as int].1,
                    *members == meta.oneofs@[o as int].fields,
                    forall|i: int| 0 <= i < j ==> #[trigger] members@[i] < meta.fields@.len(),
                decreases members.len() - j,
            {
                if members[j] >= meta.fields.len() {
                    proof {
                        reveal(messages_wf);
                        assert(!message_wf(&index.messages@[m as int].1)) by {
                            assert(meta.oneofs@[o as int].fields@[j as int] == members@[j as int]);
                        }
                    }
                    return false;
                }
                j = j + 1;
            }
            o = o + 1;
        }
        m = m + 1;
    }
    true
}

/// A `message` item resolved: a plain struct or a oneof-shaped type.
pub enum Plan {
    Struct(crate::shape::PlainPlan),
    Oneof(OneofPlan),
}

impl Plan {
    /// Proto messages a flattening construct swallowed into this type, so they have no Rust type
    /// of their own.
    pub fn absorbs(&self) -> (a: &Vec<String>)
        ensures
            a@ == match self {
                Plan::Struct(p) => p.absorbs@,
                Plan::Oneof(p) => p.absorbs@,
            },
    {
        match self {
            Plan::Struct(plan) => &plan.absorbs,
            Plan::Oneof(plan) => &plan.absorbs,
        }
    }
}

proof fn lemma_uncovered_members_empty(
    proto: Seq<char>,
    meta: MessageMeta,
    oneof: OneofMeta,
    covered: Seq<bool>,
    k: int,
)
    requires
        0 <= k,
    ensures
        uncovered_members_of(proto, meta, oneof, covered, k).len() == 0 <==> forall|q: int|
            0 <= q < k ==> #[trigger] covered[q],
    decreases k,
{
    if k > 0 {
        lemma_uncovered_members_empty(proto, meta, oneof, covered, k - 1);
        if !covered[k - 1] {
            assert(!(forall|q: int| 0 <= q < k ==> #[trigger] covered[q]));
        }
    }
}

/// A oneof-shaped enum that resolves leaves no member of its oneof uncovered: every member is
/// carried by one of the variants.
pub proof fn lemma_resolved_oneof_covers_every_member(
    entries: Seq<TypeAttr>,
    messages: Seq<(String, MessageMeta)>,
    is_enum: bool,
    vars: Seq<Variant>,
)
    requires
        oneof_of(entries, messages, is_enum, vars) is Ok,
    ensures
        ({
            let s = select_of(entries, messages).0.unwrap();
            let meta = messages[s.message].1;
            let oneof = meta.oneofs@[s.oneof];
            let start = OneofState {
                sibs: siblings_start(s.whole_message, meta),
                covered: Seq::new(oneof.fields@.len(), |q: int| false),
                arms: Seq::empty(),
                default_arm: None,
                absorbs: Seq::empty(),
                errors: select_of(entries, messages).1,
            };
            let st = variants_of(messages, s.proto_name, meta, oneof, vars, vars.len() as int, start);
            &&& is_enum
            &&& forall|q: int| 0 <= q < oneof.fields@.len() ==> #[trigger] st.covered[q]
        }),
{
    let s = select_of(entries, messages).0.unwrap();
    let meta = messages[s.message].1;
    let oneof = meta.oneofs@[s.oneof];
    let start = OneofState {
        sibs: siblings_start(s.whole_message, meta),
        covered: Seq::new(oneof.fields@.len(), |q: int| false),
        arms: Seq::empty(),
        default_arm: None,
        absorbs: Seq::empty(),
        errors: select_of(entries, messages).1,
    };
    let st = variants_of(messages, s.proto_name, meta, oneof, vars, vars.len() as int, start);
    lemma_uncovered_members_empty(s.proto_name, meta, oneof, st.covered, oneof.fields@.len() as int);
}

/// Each arm is keyed by its own tag.
pub open spec fn arms_keyed(arms: Seq<(u32, ArmView)>) -> bool {
    forall|i: int| 0 <= i < arms.len() ==> (#[trigger] arms[i]).0 == arms[i].1.tag
}

proof fn lemma_variants_keep_arms_keyed(
    messages: Seq<(String, MessageMeta)>,
    proto: Seq<char>,
    meta: MessageMeta,
    oneof: OneofMeta,
    vars: Seq<Variant>,
    k: int,
    st: OneofState,
)
    requires
        arms_keyed(st.arms),
    ensures
        arms_keyed(variants_of(messages, proto, meta, oneof, vars, k, st).arms),
    decreases k,
{
    if k > 0 {
        lemma_variants_keep_arms_keyed(messages, proto, meta, oneof, vars, k - 1, st);
        let prev = variants_of(messages, proto, meta, oneof, vars, k - 1, st);
        let next = variant_step_of(messages, proto, meta, oneof, prev, vars[k - 1], k - 1);
        assert(arms_keyed(next.arms));
    }
}

/// The arms of a resolved oneof come out in tag order.
pub proof fn lemma_resolved_oneof_arms_in_tag_order(
    entries: Seq<TypeAttr>,
    messages: Seq<(String, MessageMeta)>,
    is_enum: bool,
    vars: Seq<Variant>,
)
    requires
        oneof_of(entries, messages, is_enum, vars) is Ok,
    ensures
        ({
            let arms = (oneof_of(entries, messages, is_enum, vars)->Ok_0).arms;
            forall|i: int, j: int| 0 <= i <= j < arms.len() ==> (#[trigger] arms[i]).tag <= (#[trigger] arms[j]).tag
        }),
{
    broadcast use vstd::seq_lib::group_to_multiset_ensures;

    let s = select_of(entries, messages).0.unwrap();
    let meta = messages[s.message].1;
    let oneof = meta.oneofs@[s.oneof];
    let start = OneofState {
        sibs: siblings_start(s.whole_message, meta),
        covered: Seq::new(oneof.fields@.len(), |q: int| false),
        arms: Seq::empty(),
        default_arm: None,
        absorbs: Seq::empty(),
        errors: select_of(entries, messages).1,
    };
    let st = variants_of(messages, s.proto_name, meta, oneof, vars, vars.len() as int, start);
    lemma_variants_keep_arms_keyed(messages, s.proto_name, meta, oneof, vars, vars.len() as int, start);
    let sorted = sort_by_key(st.arms);
    crate::order::lemma_sort_by_key_orders_and_keeps(st.arms);
    assert(arms_keyed(sorted)) by {
        assert forall|i: int| 0 <= i < sorted.len() implies (#[trigger] sorted[i]).0 == sorted[i].1.tag by {
            assert(sorted.to_multiset().count(sorted[i]) > 0);
            assert(st.arms.to_multiset().count(sorted[i]) > 0);
            assert(st.arms.contains(sorted[i]));
        }
    }
    let arms = (oneof_of(entries, messages, is_enum, vars)->Ok_0).arms;
    assert(arms == sorted.map_values(|p: (u32, ArmView)| p.1));
    assert forall|i: int, j: int| 0 <= i <= j < arms.len() implies (#[trigger] arms[i]).tag <= (
    #[trigger] arms[j]).tag by {
        assert(arms[i] == sorted[i].1);
        assert(arms[j] == sorted[j].1);
        assert(sorted[i].0 <= sorted[j].0);
    }
}

} // verus!
