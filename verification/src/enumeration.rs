//! `#[armonik_macros::enumeration]`: matching the unit variants of a Rust enum to the values of the
//! proto enum (or the unified proto enums) it stands for.
//!
//! A variant's proto name is its `rename`, or its own name; it matches a proto value spelled that
//! way in full, or whose prost-style short form (see [`crate::names::variant_name`]) is that name.
//! Unified enums must agree on the number. Every proto value needs a variant, except the zero value,
//! which the catch-all covers; that completeness check runs only when every variant resolved.

use vstd::prelude::*;

use crate::descriptor::{
    clone_strings, find_entry, position_of, string_eq, strings_view, DescriptorIndex, EnumMeta,
    MessageMeta,
};
use crate::expect::kind_view;
use crate::descriptor::FieldKind;
use crate::oneof::{kind_debug, kind_debug_of};
use crate::error::last_index_of;
use crate::matcher::{not_found, not_found_of, unknown_name, unknown_name_of};
use crate::names::{variant_name, variant_name_of};
use crate::shape::{diagnostics_view, Diagnostic, Site, TypeAttr};
use crate::text::{chars_of, copy_range, push_all, push_str, signed_decimal, signed_decimal_of, string_of};

verus! {

/// The simple name of a full proto name: what follows its last `.`.
pub open spec fn simple_name_of(full: Seq<char>) -> Seq<char> {
    full.skip(last_index_of(full, '.') + 1)
}

/// Whether proto value `value_name` of the enum named `simple` is spelled `proto_name`, in full or
/// in its prost-style short form.
pub open spec fn value_matches(simple: Seq<char>, value_name: Seq<char>, proto_name: Seq<char>) -> bool {
    value_name == proto_name || variant_name_of(simple, value_name) == proto_name
}

/// The first value of `meta` that `proto_name` names.
pub open spec fn first_match(meta: EnumMeta, simple: Seq<char>, proto_name: Seq<char>) -> Option<int> {
    if exists|at: int|
        0 <= at < meta.values@.len() && value_matches(simple, (#[trigger] meta.values@[at]).0@, proto_name) {
        Some(
            choose|at: int|
                0 <= at < meta.values@.len() && value_matches(simple, meta.values@[at].0@, proto_name)
                    && forall|j: int|
                    0 <= j < at ==> !value_matches(simple, (#[trigger] meta.values@[j]).0@, proto_name),
        )
    } else {
        None
    }
}

pub open spec fn disagree_message(proto_name: Seq<char>) -> Seq<char> {
    "unified proto enums disagree on the value of `"@ + proto_name + "`"@
}

pub open spec fn unknown_value_message(enum_name: Seq<char>, meta: EnumMeta, proto_name: Seq<char>) -> Seq<char> {
    unknown_name_of(
        "value"@,
        proto_name,
        "proto enum `"@ + enum_name + "`"@,
        meta.values@.map_values(|v: (String, i32)| variant_name_of(simple_name_of(enum_name), v.0@)),
        "use #[armonik(rename = \"...\")] with the full proto value name if needed"@,
    )
}

pub open spec fn uncovered_message(enum_name: Seq<char>, value_name: Seq<char>, number: i32) -> Seq<char> {
    "proto enum value `"@ + enum_name + "."@ + value_name + "` (= "@ + signed_decimal_of(number as int)
        + ") is not covered by any Rust variant"@
}

/// What matching one variant against the enums decided.
pub struct ScanView {
    pub number: Option<i32>,
    pub docs: Seq<Seq<char>>,
    pub consumed: Seq<Seq<bool>>,
    pub errors: Seq<Seq<char>>,
}

/// One variant's proto name matched against the first `k` enums, in order, starting from what was
/// consumed before: the first match's number, the first non-empty match's docs, every match
/// consumed, and an error for each enum with no match and each that disagrees on the number.
pub open spec fn scan_enums(
    enums: Seq<(String, EnumMeta)>,
    proto_name: Seq<char>,
    consumed: Seq<Seq<bool>>,
    k: int,
) -> ScanView
    decreases k,
{
    if k <= 0 {
        ScanView { number: None, docs: seq![], consumed, errors: seq![] }
    } else {
        let s = scan_enums(enums, proto_name, consumed, k - 1);
        let name = enums[k - 1].0@;
        let meta = enums[k - 1].1;
        match first_match(meta, simple_name_of(name), proto_name) {
            Some(at) => {
                let value = meta.values@[at].1;
                ScanView {
                    number: if s.number is None {
                        Some(value)
                    } else {
                        s.number
                    },
                    docs: if s.docs.len() == 0 {
                        strings_view(meta.value_docs@[at]@)
                    } else {
                        s.docs
                    },
                    consumed: s.consumed.update(k - 1, s.consumed[k - 1].update(at, true)),
                    errors: if s.number matches Some(n) && n != value {
                        s.errors.push(disagree_message(proto_name))
                    } else {
                        s.errors
                    },
                }
            },
            None => ScanView {
                number: s.number,
                docs: s.docs,
                consumed: s.consumed,
                errors: s.errors.push(unknown_value_message(name, meta, proto_name)),
            },
        }
    }
}

/// Every enum's values, each consumed from the start exactly when it is the zero value.
pub open spec fn initially_consumed(enums: Seq<(String, EnumMeta)>) -> Seq<Seq<bool>> {
    Seq::new(
        enums.len(),
        |k: int| Seq::new(enums[k].1.values@.len(), |at: int| enums[k].1.values@[at].1 == 0),
    )
}

/// Each enum's values and value docs are parallel.
pub open spec fn enums_wf(enums: Seq<(String, EnumMeta)>) -> bool {
    forall|k: int|
        0 <= k < enums.len() ==> (#[trigger] enums[k]).1.value_docs@.len() == enums[k].1.values@.len()
}

/// A variant matched to a proto value: its name, the value's number, and the value's docs.
pub struct EnumValue {
    pub ident: String,
    pub number: i32,
    pub docs: Vec<String>,
}

pub struct EnumValueView {
    pub ident: Seq<char>,
    pub number: i32,
    pub docs: Seq<Seq<char>>,
}

impl View for EnumValue {
    type V = EnumValueView;

    open spec fn view(&self) -> EnumValueView {
        EnumValueView { ident: self.ident@, number: self.number, docs: strings_view(self.docs@) }
    }
}

/// A unit variant to match: its position among the item's variants, its name, and the proto
/// name it goes by.
pub struct NamedVariant {
    pub site: usize,
    pub ident: String,
    pub proto_name: String,
}

pub struct NamedVariantView {
    pub site: usize,
    pub ident: Seq<char>,
    pub proto_name: Seq<char>,
}

impl View for NamedVariant {
    type V = NamedVariantView;

    open spec fn view(&self) -> NamedVariantView {
        NamedVariantView { site: self.site, ident: self.ident@, proto_name: self.proto_name@ }
    }
}

pub open spec fn named_variants_view(variants: Seq<NamedVariant>) -> Seq<NamedVariantView> {
    variants.map_values(|v: NamedVariant| v@)
}

/// Each message, pointing at `site`.
pub open spec fn sited(site: Site, messages: Seq<Seq<char>>) -> Seq<(Site, Seq<char>)> {
    messages.map_values(|m: Seq<char>| (site, m))
}

/// What the variants matched: the named values, the variants that matched nothing, the variant
/// standing for zero, and the errors, in the order they were found.
pub struct ValueMatch {
    pub named: Vec<EnumValue>,
    pub poisoned: Vec<String>,
    pub zero_variant: Option<String>,
    pub errors: Vec<Diagnostic>,
}

pub struct ValueMatchView {
    pub named: Seq<EnumValueView>,
    pub poisoned: Seq<Seq<char>>,
    pub zero_variant: Option<Seq<char>>,
    pub errors: Seq<(Site, Seq<char>)>,
}

impl View for ValueMatch {
    type V = ValueMatchView;

    open spec fn view(&self) -> ValueMatchView {
        ValueMatchView {
            named: self.named@.map_values(|v: EnumValue| v@),
            poisoned: strings_view(self.poisoned@),
            zero_variant: match self.zero_variant {
                Some(z) => Some(z@),
                None => None,
            },
            errors: diagnostics_view(self.errors@),
        }
    }
}

pub struct MatchState {
    pub named: Seq<EnumValueView>,
    pub poisoned: Seq<Seq<char>>,
    pub zero_variant: Option<Seq<char>>,
    pub errors: Seq<(Site, Seq<char>)>,
    pub consumed: Seq<Seq<bool>>,
}

/// The first `n` variants matched in order; a variant's errors point at it.
pub open spec fn match_variants(
    enums: Seq<(String, EnumMeta)>,
    variants: Seq<NamedVariantView>,
    n: int,
) -> MatchState
    decreases n,
{
    if n <= 0 {
        MatchState {
            named: seq![],
            poisoned: seq![],
            zero_variant: None,
            errors: seq![],
            consumed: initially_consumed(enums),
        }
    } else {
        let m = match_variants(enums, variants, n - 1);
        let ident = variants[n - 1].ident;
        let s = scan_enums(enums, variants[n - 1].proto_name, m.consumed, enums.len() as int);
        let found = sited(Site::Variant(variants[n - 1].site), s.errors);
        match s.number {
            Some(number) => MatchState {
                named: m.named.push(EnumValueView { ident, number, docs: s.docs }),
                poisoned: m.poisoned,
                zero_variant: if number == 0 {
                    Some(ident)
                } else {
                    m.zero_variant
                },
                errors: m.errors + found,
                consumed: s.consumed,
            },
            None => MatchState {
                named: m.named,
                poisoned: m.poisoned.push(ident),
                zero_variant: m.zero_variant,
                errors: m.errors + found,
                consumed: s.consumed,
            },
        }
    }
}

/// The values of one enum, among its first `n`, that nothing consumed.
pub open spec fn uncovered_values(name: Seq<char>, meta: EnumMeta, consumed: Seq<bool>, n: int) -> Seq<
    Seq<char>,
>
    decreases n,
{
    if n <= 0 {
        seq![]
    } else {
        let head = uncovered_values(name, meta, consumed, n - 1);
        if consumed[n - 1] {
            head
        } else {
            head.push(uncovered_message(name, meta.values@[n - 1].0@, meta.values@[n - 1].1))
        }
    }
}

/// The unconsumed values of the first `k` enums, enum by enum.
pub open spec fn uncovered_in(enums: Seq<(String, EnumMeta)>, consumed: Seq<Seq<bool>>, k: int) -> Seq<
    Seq<char>,
>
    decreases k,
{
    if k <= 0 {
        seq![]
    } else {
        uncovered_in(enums, consumed, k - 1) + uncovered_values(
            enums[k - 1].0@,
            enums[k - 1].1,
            consumed[k - 1],
            enums[k - 1].1.values@.len() as int,
        )
    }
}

/// The variants matched against the enums; the completeness errors, which point at the item,
/// follow when nothing, here or before (`poisoned_before`), failed to resolve.
pub open spec fn match_values_of(
    enums: Seq<(String, EnumMeta)>,
    variants: Seq<NamedVariantView>,
    poisoned_before: bool,
) -> ValueMatchView {
    let m = match_variants(enums, variants, variants.len() as int);
    ValueMatchView {
        named: m.named,
        poisoned: m.poisoned,
        zero_variant: m.zero_variant,
        errors: if !poisoned_before && m.poisoned.len() == 0 {
            m.errors + sited(Site::Item, uncovered_in(enums, m.consumed, enums.len() as int))
        } else {
            m.errors
        },
    }
}

/// The simple name of a full proto name: what follows its last `.`.
pub fn simple_name(full: &str) -> (simple: String)
    ensures
        simple@ == simple_name_of(full@),
{
    let chars = chars_of(full);
    assert(chars@.take(chars@.len() as int) =~= chars@);
    let start = match crate::error::rfind_char(&chars, chars.len(), '.') {
        Some(i) => i + 1,
        None => 0,
    };
    let out = copy_range(&chars, start, chars.len());
    assert(out@ =~= simple_name_of(full@));
    string_of(out.as_slice())
}

fn matches_value(simple: &str, value_name: &String, proto_name: &String) -> (b: bool)
    ensures
        b == value_matches(simple@, value_name@, proto_name@),
{
    if string_eq(value_name, proto_name.as_str()) {
        return true;
    }
    let short = variant_name(simple, value_name.as_str());
    string_eq(&short, proto_name.as_str())
}

fn find_value(meta: &EnumMeta, simple: &str, proto_name: &String) -> (found: Option<usize>)
    ensures
        match found {
            Some(at) => at < meta.values@.len() && first_match(*meta, simple@, proto_name@) == Some(
                at as int,
            ),
            None => first_match(*meta, simple@, proto_name@) is None,
        },
{
    let mut at: usize = 0;
    while at < meta.values.len()
        invariant
            at <= meta.values@.len(),
            forall|j: int|
                0 <= j < at ==> !value_matches(simple@, (#[trigger] meta.values@[j]).0@, proto_name@),
        decreases meta.values.len() - at,
    {
        if matches_value(simple, &meta.values[at].0, proto_name) {
            assert(0 <= at < meta.values@.len() && value_matches(
                simple@,
                meta.values@[at as int].0@,
                proto_name@,
            ));
            let ghost chosen = choose|k: int|
                0 <= k < meta.values@.len() && value_matches(simple@, meta.values@[k].0@, proto_name@)
                    && forall|j: int|
                    0 <= j < k ==> !value_matches(simple@, (#[trigger] meta.values@[j]).0@, proto_name@);
            assert(chosen == at) by {
                if chosen < at {
                } else if chosen > at {
                }
            }
            return Some(at);
        }
        at = at + 1;
    }
    None
}

fn copy_bools(v: &Vec<bool>) -> (out: Vec<bool>)
    ensures
        out@ == v@,
{
    let mut out: Vec<bool> = Vec::new();
    let mut i: usize = 0;
    while i < v.len()
        invariant
            i <= v.len(),
            out@ =~= v@.take(i as int),
        decreases v.len() - i,
    {
        out.push(v[i]);
        i = i + 1;
    }
    assert(v@.take(v.len() as int) =~= v@);
    out
}

/// The enums at `positions` of `enums`, in that order.
pub open spec fn selected(enums: Seq<(String, EnumMeta)>, positions: Seq<usize>) -> Seq<(String, EnumMeta)> {
    positions.map_values(|p: usize| enums[p as int])
}

pub open spec fn rows_view(rows: Seq<Vec<bool>>) -> Seq<Seq<bool>> {
    rows.map_values(|r: Vec<bool>| r@)
}

/// `rows[k][at] = true`.
fn consume(rows: &mut Vec<Vec<bool>>, k: usize, at: usize)
    requires
        k < old(rows)@.len(),
        at < old(rows)@[k as int]@.len(),
    ensures
        rows_view(final(rows)@) == rows_view(old(rows)@).update(
            k as int,
            rows_view(old(rows)@)[k as int].update(at as int, true),
        ),
        final(rows)@.len() == old(rows)@.len(),
        forall|j: int| 0 <= j < old(rows)@.len() ==> (#[trigger] final(rows)@[j])@.len() == old(rows)@[j]@.len(),
{
    let mut row = copy_bools(&rows[k]);
    row.set(at, true);
    let ghost before = rows_view(rows@);
    rows.set(k, row);
    assert(rows_view(rows@) =~= before.update(k as int, before[k as int].update(at as int, true)));
}

fn unknown_value(enum_name: &String, meta: &EnumMeta, proto_name: &String) -> (message: String)
    ensures
        message@ == unknown_value_message(enum_name@, *meta, proto_name@),
{
    let simple = simple_name(enum_name.as_str());
    let mut available: Vec<String> = Vec::new();
    let ghost expected = meta.values@.map_values(
        |v: (String, i32)| variant_name_of(simple_name_of(enum_name@), v.0@),
    );
    let mut at: usize = 0;
    while at < meta.values.len()
        invariant
            at <= meta.values@.len(),
            simple@ == simple_name_of(enum_name@),
            expected == meta.values@.map_values(
                |v: (String, i32)| variant_name_of(simple_name_of(enum_name@), v.0@),
            ),
            strings_view(available@) =~= expected.take(at as int),
        decreases meta.values.len() - at,
    {
        let ghost before = strings_view(available@);
        available.push(variant_name(simple.as_str(), meta.values[at].0.as_str()));
        assert(strings_view(available@) =~= before.push(expected[at as int]));
        assert(expected.take(at + 1) =~= expected.take(at as int).push(expected[at as int]));
        at = at + 1;
    }
    assert(expected.take(at as int) =~= expected);
    let mut container: Vec<char> = Vec::new();
    push_str(&mut container, "proto enum `");
    push_str(&mut container, enum_name.as_str());
    push_str(&mut container, "`");
    let container = string_of(container.as_slice());
    assert(container@ =~= "proto enum `"@ + enum_name@ + "`"@);
    unknown_name(
        "value",
        proto_name.as_str(),
        container.as_str(),
        available,
        "use #[armonik(rename = \"...\")] with the full proto value name if needed",
    )
}

fn disagree(proto_name: &String) -> (message: String)
    ensures
        message@ == disagree_message(proto_name@),
{
    let mut out: Vec<char> = Vec::new();
    push_str(&mut out, "unified proto enums disagree on the value of `");
    push_str(&mut out, proto_name.as_str());
    push_str(&mut out, "`");
    assert(out@ =~= disagree_message(proto_name@));
    string_of(out.as_slice())
}

/// One variant's proto name matched against every enum, in order.
fn scan_variant(
    enums: &Vec<(String, EnumMeta)>,
    positions: &Vec<usize>,
    proto_name: &String,
    consumed: &mut Vec<Vec<bool>>,
) -> (r: (Option<i32>, Vec<String>, Vec<String>))
    requires
        enums_wf(enums@),
        forall|k: int| 0 <= k < positions@.len() ==> (#[trigger] positions@[k]) < enums@.len(),
        old(consumed)@.len() == positions@.len(),
        forall|k: int|
            0 <= k < positions@.len() ==> (#[trigger] old(consumed)@[k])@.len()
                == enums@[positions@[k] as int].1.values@.len(),
    ensures
        ({
            let s = scan_enums(
                selected(enums@, positions@),
                proto_name@,
                rows_view(old(consumed)@),
                positions@.len() as int,
            );
            &&& r.0 == s.number
            &&& strings_view(r.1@) == s.docs
            &&& strings_view(r.2@) == s.errors
            &&& rows_view(final(consumed)@) == s.consumed
        }),
        final(consumed)@.len() == positions@.len(),
        forall|k: int|
            0 <= k < positions@.len() ==> (#[trigger] final(consumed)@[k])@.len()
                == enums@[positions@[k] as int].1.values@.len(),
{
    let ghost sel = selected(enums@, positions@);
    let ghost start = rows_view(consumed@);
    let mut number: Option<i32> = None;
    let mut docs: Vec<String> = Vec::new();
    let mut errors: Vec<String> = Vec::new();
    let mut k: usize = 0;
    while k < positions.len()
        invariant
            k <= positions@.len(),
            enums_wf(enums@),
            sel == selected(enums@, positions@),
            forall|j: int| 0 <= j < positions@.len() ==> (#[trigger] positions@[j]) < enums@.len(),
            consumed@.len() == positions@.len(),
            forall|j: int|
                0 <= j < positions@.len() ==> (#[trigger] consumed@[j])@.len()
                    == enums@[positions@[j] as int].1.values@.len(),
            ({
                let s = scan_enums(sel, proto_name@, start, k as int);
                &&& number == s.number
                &&& strings_view(docs@) == s.docs
                &&& strings_view(errors@) == s.errors
                &&& rows_view(consumed@) == s.consumed
            }),
        decreases positions.len() - k,
    {
        let (name, meta) = &enums[positions[k]];
        assert(sel[k as int] == enums@[positions@[k as int] as int]);
        let simple = simple_name(name.as_str());
        match find_value(meta, simple.as_str(), proto_name) {
            Some(at) => {
                let value = meta.values[at].1;
                let ghost old_number = number;
                if docs.len() == 0 {
                    docs = clone_strings(&meta.value_docs[at]);
                }
                consume(consumed, k, at);
                match number {
                    Some(n) => {
                        if n != value {
                            let ghost before = strings_view(errors@);
                            errors.push(disagree(proto_name));
                            assert(strings_view(errors@) =~= before.push(disagree_message(proto_name@)));
                        }
                    },
                    None => {
                        number = Some(value);
                    },
                }
            },
            None => {
                let ghost before = strings_view(errors@);
                errors.push(unknown_value(name, meta, proto_name));
                assert(strings_view(errors@) =~= before.push(
                    unknown_value_message(name@, *meta, proto_name@),
                ));
            },
        }
        k = k + 1;
    }
    (number, docs, errors)
}

fn uncovered(enum_name: &String, value_name: &String, number: i32) -> (message: String)
    ensures
        message@ == uncovered_message(enum_name@, value_name@, number),
{
    let mut out: Vec<char> = Vec::new();
    push_str(&mut out, "proto enum value `");
    push_str(&mut out, enum_name.as_str());
    push_str(&mut out, ".");
    push_str(&mut out, value_name.as_str());
    push_str(&mut out, "` (= ");
    let digits = signed_decimal(number);
    push_all(&mut out, &digits);
    push_str(&mut out, ") is not covered by any Rust variant");
    assert(out@ =~= uncovered_message(enum_name@, value_name@, number));
    string_of(out.as_slice())
}

/// Matches the unit variants against the enums at `positions` of `enums`, then checks that every
/// proto value is covered when nothing failed to resolve.
pub fn match_values(
    enums: &Vec<(String, EnumMeta)>,
    positions: &Vec<usize>,
    variants: &Vec<NamedVariant>,
    poisoned_before: bool,
) -> (r: ValueMatch)
    requires
        enums_wf(enums@),
        forall|k: int| 0 <= k < positions@.len() ==> (#[trigger] positions@[k]) < enums@.len(),
    ensures
        r@ == match_values_of(selected(enums@, positions@), named_variants_view(variants@), poisoned_before),
{
    let ghost sel = selected(enums@, positions@);
    let mut consumed: Vec<Vec<bool>> = Vec::new();
    let mut k: usize = 0;
    while k < positions.len()
        invariant
            k <= positions@.len(),
            sel == selected(enums@, positions@),
            forall|j: int| 0 <= j < positions@.len() ==> (#[trigger] positions@[j]) < enums@.len(),
            consumed@.len() == k,
            forall|j: int|
                0 <= j < k ==> (#[trigger] consumed@[j])@.len() == enums@[positions@[j] as int].1.values@.len(),
            rows_view(consumed@) =~= initially_consumed(sel).take(k as int),
        decreases positions.len() - k,
    {
        let meta = &enums[positions[k]].1;
        let mut row: Vec<bool> = Vec::new();
        let mut at: usize = 0;
        while at < meta.values.len()
            invariant
                at <= meta.values@.len(),
                row@ =~= Seq::new(at as nat, |i: int| meta.values@[i].1 == 0),
            decreases meta.values.len() - at,
        {
            row.push(meta.values[at].1 == 0);
            at = at + 1;
        }
        let ghost before = rows_view(consumed@);
        consumed.push(row);
        assert(sel[k as int] == enums@[positions@[k as int] as int]);
        assert(rows_view(consumed@) =~= before.push(initially_consumed(sel)[k as int]));
        k = k + 1;
    }
    assert(initially_consumed(sel).take(k as int) =~= initially_consumed(sel));

    let mut named: Vec<EnumValue> = Vec::new();
    let mut poisoned: Vec<String> = Vec::new();
    let mut zero_variant: Option<String> = None;
    let mut errors: Vec<Diagnostic> = Vec::new();
    let mut v: usize = 0;
    while v < variants.len()
        invariant
            v <= variants@.len(),
            enums_wf(enums@),
            sel == selected(enums@, positions@),
            forall|j: int| 0 <= j < positions@.len() ==> (#[trigger] positions@[j]) < enums@.len(),
            consumed@.len() == positions@.len(),
            forall|j: int|
                0 <= j < positions@.len() ==> (#[trigger] consumed@[j])@.len()
                    == enums@[positions@[j] as int].1.values@.len(),
            ({
                let m = match_variants(sel, named_variants_view(variants@), v as int);
                &&& named@.map_values(|x: EnumValue| x@) == m.named
                &&& strings_view(poisoned@) == m.poisoned
                &&& match zero_variant {
                    Some(z) => m.zero_variant == Some(z@),
                    None => m.zero_variant is None,
                }
                &&& diagnostics_view(errors@) == m.errors
                &&& rows_view(consumed@) == m.consumed
            }),
        decreases variants.len() - v,
    {
        let ident = &variants[v].ident;
        let site = Site::Variant(variants[v].site);
        let (number, docs, found) = scan_variant(enums, positions, &variants[v].proto_name, &mut consumed);
        let ghost old_errors = diagnostics_view(errors@);
        let mut e: usize = 0;
        while e < found.len()
            invariant
                e <= found@.len(),
                site == Site::Variant(variants@[v as int].site),
                diagnostics_view(errors@) =~= old_errors + sited(site, strings_view(found@)).take(e as int),
            decreases found.len() - e,
        {
            let ghost before = diagnostics_view(errors@);
            errors.push(Diagnostic { site, message: found[e].clone() });
            assert(diagnostics_view(errors@) =~= before.push((site, found@[e as int]@)));
            e = e + 1;
        }
        assert(sited(site, strings_view(found@)).take(e as int) =~= sited(site, strings_view(found@)));
        match number {
            Some(number) => {
                if number == 0 {
                    zero_variant = Some(ident.clone());
                }
                let ghost before = named@.map_values(|x: EnumValue| x@);
                named.push(EnumValue { ident: ident.clone(), number, docs });
                assert(named@.map_values(|x: EnumValue| x@) =~= before.push(named@.last()@));
            },
            None => {
                let ghost before = strings_view(poisoned@);
                poisoned.push(ident.clone());
                assert(strings_view(poisoned@) =~= before.push(ident@));
            },
        }
        v = v + 1;
    }

    if !poisoned_before && poisoned.len() == 0 {
        let ghost base = diagnostics_view(errors@);
        let ghost rows = rows_view(consumed@);
        let mut k: usize = 0;
        while k < positions.len()
            invariant
                k <= positions@.len(),
                sel == selected(enums@, positions@),
                forall|j: int| 0 <= j < positions@.len() ==> (#[trigger] positions@[j]) < enums@.len(),
                consumed@.len() == positions@.len(),
                rows == rows_view(consumed@),
                forall|j: int|
                    0 <= j < positions@.len() ==> (#[trigger] consumed@[j])@.len()
                        == enums@[positions@[j] as int].1.values@.len(),
                diagnostics_view(errors@) =~= base + sited(Site::Item, uncovered_in(sel, rows, k as int)),
            decreases positions.len() - k,
        {
            let (name, meta) = &enums[positions[k]];
            assert(sel[k as int] == enums@[positions@[k as int] as int]);
            let ghost mid = diagnostics_view(errors@);
            let mut at: usize = 0;
            while at < meta.values.len()
                invariant
                    at <= meta.values@.len(),
                    k < consumed@.len(),
                    consumed@[k as int]@.len() == meta.values@.len(),
                    rows == rows_view(consumed@),
                    diagnostics_view(errors@) =~= mid + sited(
                        Site::Item,
                        uncovered_values(name@, *meta, rows[k as int], at as int),
                    ),
                decreases meta.values.len() - at,
            {
                if !consumed[k][at] {
                    let ghost before = diagnostics_view(errors@);
                    errors.push(
                        Diagnostic {
                            site: Site::Item,
                            message: uncovered(name, &meta.values[at].0, meta.values[at].1),
                        },
                    );
                    assert(diagnostics_view(errors@) =~= before.push(
                        (
                            Site::Item,
                            uncovered_message(name@, meta.values@[at as int].0@, meta.values@[at as int].1),
                        ),
                    ));
                }
                at = at + 1;
            }
            k = k + 1;
        }
    }
    ValueMatch { named, poisoned, zero_variant, errors }
}

/// The proto enums named, in order, by their positions in the index; a name the index does not
/// have is an error of its own, pointing at the name, and is skipped.
pub open spec fn resolve_enum_names_of(enums: Seq<(String, EnumMeta)>, names: Seq<String>, n: int) -> (
    Seq<usize>,
    Seq<(Site, Seq<char>)>,
)
    decreases n,
{
    if n <= 0 {
        (seq![], seq![])
    } else {
        let (positions, errors) = resolve_enum_names_of(enums, names, n - 1);
        match crate::descriptor::position_of(enums, names[n - 1]@) {
            Some(p) => (positions.push(p as usize), errors),
            None => (
                positions,
                errors.push(
                    (Site::Name((n - 1) as usize), crate::matcher::not_found_of("enum"@, names[n - 1]@)),
                ),
            ),
        }
    }
}

/// Looks the proto enum names a type stands for up in the index.
pub fn resolve_enum_names(index: &DescriptorIndex, names: &Vec<String>) -> (r: (Vec<usize>, Vec<Diagnostic>))
    ensures
        (r.0@, diagnostics_view(r.1@)) == resolve_enum_names_of(index.enums@, names@, names@.len() as int),
        forall|k: int| 0 <= k < r.0@.len() ==> (#[trigger] r.0@[k]) < index.enums@.len(),
{
    let mut positions: Vec<usize> = Vec::new();
    let mut errors: Vec<Diagnostic> = Vec::new();
    let mut i: usize = 0;
    while i < names.len()
        invariant
            i <= names@.len(),
            (positions@, diagnostics_view(errors@)) == resolve_enum_names_of(index.enums@, names@, i as int),
            forall|k: int| 0 <= k < positions@.len() ==> (#[trigger] positions@[k]) < index.enums@.len(),
        decreases names.len() - i,
    {
        match crate::descriptor::find_entry(&index.enums, names[i].as_str()) {
            Some(p) => {
                positions.push(p);
            },
            None => {
                let ghost before = diagnostics_view(errors@);
                errors.push(
                    Diagnostic { site: Site::Name(i), message: crate::matcher::not_found("enum", names[i].as_str()) },
                );
                assert(diagnostics_view(errors@) =~= before.push(
                    (Site::Name(i), crate::matcher::not_found_of("enum"@, names@[i as int]@)),
                ));
            },
        }
        i = i + 1;
    }
    (positions, errors)
}

proof fn lemma_uncovered_values_empty(name: Seq<char>, meta: EnumMeta, consumed: Seq<bool>, n: int)
    requires
        0 <= n,
    ensures
        uncovered_values(name, meta, consumed, n).len() == 0 <==> forall|at: int|
            0 <= at < n ==> #[trigger] consumed[at],
    decreases n,
{
    if n > 0 {
        lemma_uncovered_values_empty(name, meta, consumed, n - 1);
        if !consumed[n - 1] {
            assert(!(forall|at: int| 0 <= at < n ==> #[trigger] consumed[at]));
        }
    }
}

/// No completeness error is reported exactly when every value of every enum was consumed, by a
/// variant or as the zero value.
pub proof fn lemma_uncovered_exactly_when_unconsumed(
    enums: Seq<(String, EnumMeta)>,
    consumed: Seq<Seq<bool>>,
    k: int,
)
    requires
        0 <= k <= enums.len(),
    ensures
        uncovered_in(enums, consumed, k).len() == 0 <==> forall|e: int, at: int|
            0 <= e < k && 0 <= at < enums[e].1.values@.len() ==> #[trigger] consumed[e][at],
    decreases k,
{
    if k > 0 {
        lemma_uncovered_exactly_when_unconsumed(enums, consumed, k - 1);
        let e = k - 1;
        lemma_uncovered_values_empty(enums[e].0@, enums[e].1, consumed[e], enums[e].1.values@.len() as int);
        let full = forall|ee: int, at: int|
            0 <= ee < k && 0 <= at < enums[ee].1.values@.len() ==> #[trigger] consumed[ee][at];
        if full {
            assert(forall|at: int| 0 <= at < enums[e].1.values@.len() ==> #[trigger] consumed[e][at]);
        }
        if uncovered_in(enums, consumed, k).len() == 0 {
            assert(uncovered_in(enums, consumed, k - 1).len() == 0);
            assert forall|ee: int, at: int|
                0 <= ee < k && 0 <= at < enums[ee].1.values@.len() implies #[trigger] consumed[ee][at] by {
                if ee == e {
                    assert(consumed[e][at]);
                }
            }
        }
    }
}

/// How a variant is written.
pub enum VariantForm {
    /// No fields.
    Unit,
    /// A single unnamed field: the name of its type when that type is a bare identifier.
    Payload(Option<String>),
    /// Any other fields.
    Other,
}

/// A variant of the item, as plain values.
pub struct EnumVariant {
    pub ident: String,
    /// What the variant's armonik attributes said: `Some(rename)` when they scanned, `None` when
    /// they did not (the scanner reports why).
    pub scanned: Option<Option<String>>,
    /// Whether the variant carries the standard `#[default]` attribute.
    pub has_default: bool,
    pub form: VariantForm,
}

/// A variant that could not be given a meaning, and the payload struct it names when it is a
/// single-payload tuple variant.
pub struct Poisoned {
    pub ident: String,
    pub payload: Option<String>,
}

pub open spec fn poisoned_view(p: Poisoned) -> (Seq<char>, Option<Seq<char>>) {
    (
        p.ident@,
        match p.payload {
            Some(t) => Some(t@),
            None => None,
        },
    )
}

pub open spec fn poisoned_list_view(ps: Seq<Poisoned>) -> Seq<(Seq<char>, Option<Seq<char>>)> {
    ps.map_values(|p: Poisoned| poisoned_view(p))
}

pub open spec fn bad_payload_message() -> Seq<char> {
    "the catch-all payload must be a bare type name; the derive emits that struct"@
}

pub open spec fn second_catch_all_message() -> Seq<char> {
    "#[armonik_macros::enumeration] expects exactly one catch-all tuple variant"@
}

pub open spec fn bad_variant_message() -> Seq<char> {
    "#[armonik_macros::enumeration] variants must be unit variants or the single catch-all tuple variant"@
}

/// What the variants are, read in order.
pub struct ClassView {
    pub named: Seq<NamedVariantView>,
    /// The catch-all variant and its payload struct.
    pub catch_all: Option<(Seq<char>, Seq<char>)>,
    pub poisoned: Seq<(Seq<char>, Option<Seq<char>>)>,
    pub has_std_default: bool,
    pub errors: Seq<(Site, Seq<char>)>,
}

/// The first `n` variants sorted out: a unit variant is named, by its `rename` or its own name; the
/// first single-payload tuple variant naming a bare type is the catch-all; every other variant is
/// poisoned, with an error unless its attributes already failed to scan.
pub open spec fn classify_of(variants: Seq<EnumVariant>, n: int) -> ClassView
    decreases n,
{
    if n <= 0 {
        ClassView { named: seq![], catch_all: None, poisoned: seq![], has_std_default: false, errors: seq![] }
    } else {
        let c = classify_of(variants, n - 1);
        let v = variants[n - 1];
        let site = Site::Variant((n - 1) as usize);
        let has_std_default = c.has_std_default || v.has_default;
        match v.scanned {
            None => ClassView { has_std_default, poisoned: c.poisoned.push((v.ident@, None)), ..c },
            Some(rename) => match v.form {
                VariantForm::Unit => ClassView {
                    has_std_default,
                    named: c.named.push(
                        NamedVariantView {
                            site: (n - 1) as usize,
                            ident: v.ident@,
                            proto_name: match rename {
                                Some(r) => r@,
                                None => crate::shape::unraw_of(v.ident@),
                            },
                        },
                    ),
                    ..c
                },
                VariantForm::Payload(None) => ClassView {
                    has_std_default,
                    poisoned: c.poisoned.push((v.ident@, None)),
                    errors: c.errors.push((site, bad_payload_message())),
                    ..c
                },
                VariantForm::Payload(Some(payload)) => if c.catch_all is Some {
                    ClassView {
                        has_std_default,
                        poisoned: c.poisoned.push((v.ident@, Some(payload@))),
                        errors: c.errors.push((site, second_catch_all_message())),
                        ..c
                    }
                } else {
                    ClassView { has_std_default, catch_all: Some((v.ident@, payload@)), ..c }
                },
                VariantForm::Other => ClassView {
                    has_std_default,
                    poisoned: c.poisoned.push((v.ident@, None)),
                    errors: c.errors.push((site, bad_variant_message())),
                    ..c
                },
            },
        }
    }
}

/// What sorting the variants out found.
pub struct Classified {
    pub named: Vec<NamedVariant>,
    pub catch_all: Option<(String, String)>,
    pub poisoned: Vec<Poisoned>,
    pub has_std_default: bool,
    pub errors: Vec<Diagnostic>,
}

pub open spec fn catch_all_view(c: Option<(String, String)>) -> Option<(Seq<char>, Seq<char>)> {
    match c {
        Some((v, p)) => Some((v@, p@)),
        None => None,
    }
}

pub open spec fn classified_view(c: Classified) -> ClassView {
    ClassView {
        named: named_variants_view(c.named@),
        catch_all: catch_all_view(c.catch_all),
        poisoned: poisoned_list_view(c.poisoned@),
        has_std_default: c.has_std_default,
        errors: diagnostics_view(c.errors@),
    }
}

/// Sorts the variants into the named ones, the catch-all and the poisoned ones.
pub fn classify_variants(variants: &Vec<EnumVariant>) -> (r: Classified)
    ensures
        classified_view(r) == classify_of(variants@, variants@.len() as int),
{
    let mut out = Classified {
        named: Vec::new(),
        catch_all: None,
        poisoned: Vec::new(),
        has_std_default: false,
        errors: Vec::new(),
    };
    proof {
        assert(named_variants_view(out.named@) =~= seq![]);
        assert(poisoned_list_view(out.poisoned@) =~= seq![]);
        assert(diagnostics_view(out.errors@) =~= seq![]);
    }
    let mut i: usize = 0;
    while i < variants.len()
        invariant
            i <= variants@.len(),
            classified_view(out) == classify_of(variants@, i as int),
        decreases variants.len() - i,
    {
        let v = &variants[i];
        let ghost before = classified_view(out);
        let site = Site::Variant(i);
        out.has_std_default = out.has_std_default || v.has_default;
        match &v.scanned {
            None => {
                out.poisoned.push(Poisoned { ident: v.ident.clone(), payload: None });
            },
            Some(rename) => match &v.form {
                VariantForm::Unit => {
                    let proto_name = match rename {
                        Some(r) => r.clone(),
                        None => crate::shape::unraw(v.ident.as_str()),
                    };
                    out.named.push(NamedVariant { site: i, ident: v.ident.clone(), proto_name });
                },
                VariantForm::Payload(None) => {
                    out.poisoned.push(Poisoned { ident: v.ident.clone(), payload: None });
                    out.errors.push(Diagnostic { site, message: "the catch-all payload must be a bare type name; the derive emits that struct".to_owned() });
                },
                VariantForm::Payload(Some(payload)) => {
                    if out.catch_all.is_some() {
                        out.poisoned.push(Poisoned { ident: v.ident.clone(), payload: Some(payload.clone()) });
                        out.errors.push(Diagnostic { site, message: "#[armonik_macros::enumeration] expects exactly one catch-all tuple variant".to_owned() });
                    } else {
                        out.catch_all = Some((v.ident.clone(), payload.clone()));
                    }
                },
                VariantForm::Other => {
                    out.poisoned.push(Poisoned { ident: v.ident.clone(), payload: None });
                    out.errors.push(Diagnostic { site, message: "#[armonik_macros::enumeration] variants must be unit variants or the single catch-all tuple variant".to_owned() });
                },
            },
        }
        proof {
            assert(named_variants_view(out.named@) =~= classify_of(variants@, i + 1).named);
            assert(poisoned_list_view(out.poisoned@) =~= classify_of(variants@, i + 1).poisoned);
            assert(diagnostics_view(out.errors@) =~= classify_of(variants@, i + 1).errors);
        }
        i = i + 1;
    }
    out
}

/// The traits the expansion implements itself.
pub open spec fn implemented(name: Seq<char>) -> bool {
    ||| name == "PartialEq"@
    ||| name == "Eq"@
    ||| name == "PartialOrd"@
    ||| name == "Ord"@
    ||| name == "Hash"@
}

pub open spec fn derive_message(name: Seq<char>) -> Seq<char> {
    "an enumeration must not derive `"@ + name
        + "`: the expansion implements it in terms of the proto value, so that the two spellings of one value (the named variant, and the catch-all holding its number) are one value"@
}

/// An error for each of the first `n` derived paths that names a trait the expansion implements.
pub open spec fn derive_errors_of(derives: Seq<String>, n: int) -> Seq<(Site, Seq<char>)>
    decreases n,
{
    if n <= 0 {
        seq![]
    } else if implemented(derives[n - 1]@) {
        derive_errors_of(derives, n - 1).push((Site::Derive((n - 1) as usize), derive_message(derives[n - 1]@)))
    } else {
        derive_errors_of(derives, n - 1)
    }
}

fn derive_error(name: &String) -> (message: String)
    ensures
        message@ == derive_message(name@),
{
    let mut out: Vec<char> = Vec::new();
    push_str(&mut out, "an enumeration must not derive `");
    push_str(&mut out, name.as_str());
    push_str(
        &mut out,
        "`: the expansion implements it in terms of the proto value, so that the two spellings of one value (the named variant, and the catch-all holding its number) are one value",
    );
    assert(out@ =~= derive_message(name@));
    string_of(out.as_slice())
}

/// Rejects deriving a comparison trait, or `Hash`, that the expansion implements: one error per
/// such path, and whether there was any. `derives` are the paths the item's `derive` attributes
/// list, as written.
pub fn reject_implemented_derives(derives: &Vec<String>) -> (r: (bool, Vec<Diagnostic>))
    ensures
        r.0 == exists|i: int| 0 <= i < derives@.len() && implemented((#[trigger] derives@[i])@),
        diagnostics_view(r.1@) == derive_errors_of(derives@, derives@.len() as int),
{
    let mut found = false;
    let mut errors: Vec<Diagnostic> = Vec::new();
    let mut i: usize = 0;
    while i < derives.len()
        invariant
            i <= derives@.len(),
            found == exists|j: int| 0 <= j < i && implemented((#[trigger] derives@[j])@),
            diagnostics_view(errors@) == derive_errors_of(derives@, i as int),
        decreases derives.len() - i,
    {
        let name = &derives[i];
        if string_eq(name, "PartialEq") || string_eq(name, "Eq") || string_eq(name, "PartialOrd")
            || string_eq(name, "Ord") || string_eq(name, "Hash") {
            found = true;
            let ghost before = diagnostics_view(errors@);
            errors.push(Diagnostic { site: Site::Derive(i), message: derive_error(name) });
            assert(diagnostics_view(errors@) =~= before.push((Site::Derive(i), derive_message(name@))));
        }
        i = i + 1;
    }
    (found, errors)
}

/// Where following a wrapper chain ended: the tags walked, the inner wrapper messages passed
/// through, and the enum reached or why the walk stopped.
pub struct ChainView {
    pub path: Seq<u32>,
    pub absorbs: Seq<Seq<char>>,
    pub end: Result<Seq<char>, Seq<char>>,
}

pub open spec fn not_wrapper_message(current: Seq<char>) -> Seq<char> {
    "`"@ + current + "` is not a single-field wrapper message"@
}

pub open spec fn neither_message(current: Seq<char>, kind: Seq<char>) -> Seq<char> {
    "the single field of `"@ + current + "` is neither an enum nor a wrapper message ("@ + kind + ")"@
}

/// The chain of single-field wrappers from message `current` down to an enum, within `fuel` steps
/// (`None` when it takes more).
#[verifier::opaque]
pub open spec fn chain_of(messages: Seq<(String, MessageMeta)>, current: Seq<char>, fuel: nat) -> Option<
    ChainView,
>
    decreases fuel,
{
    if fuel == 0 {
        None
    } else {
        match position_of(messages, current) {
            None => Some(
                ChainView { path: seq![], absorbs: seq![], end: Err(not_found_of("message"@, current)) },
            ),
            Some(i) => {
                let fields = messages[i].1.fields@;
                if fields.len() != 1 {
                    Some(ChainView { path: seq![], absorbs: seq![], end: Err(not_wrapper_message(current)) })
                } else {
                    let field = fields[0];
                    match field.kind {
                        FieldKind::Enum(inner) => Some(
                            ChainView { path: seq![field.tag], absorbs: seq![], end: Ok(inner@) },
                        ),
                        FieldKind::Message(inner) => match chain_of(messages, inner@, (fuel - 1) as nat) {
                            None => None,
                            Some(rest) => Some(
                                ChainView {
                                    path: seq![field.tag] + rest.path,
                                    absorbs: seq![inner@] + rest.absorbs,
                                    end: rest.end,
                                },
                            ),
                        },
                        _ => Some(
                            ChainView {
                                path: seq![field.tag],
                                absorbs: seq![],
                                end: Err(neither_message(current, kind_debug_of(kind_view(field.kind)))),
                            },
                        ),
                    }
                }
            },
        }
    }
}

/// One step of a chain that ends within `fuel` steps.
pub proof fn lemma_chain_step(messages: Seq<(String, MessageMeta)>, current: Seq<char>, fuel: nat)
    requires
        chain_of(messages, current, fuel) is Some,
    ensures
        fuel > 0,
        ({
            let c = chain_of(messages, current, fuel).unwrap();
            match position_of(messages, current) {
                None => c == ChainView { path: seq![], absorbs: seq![], end: Err(not_found_of("message"@, current)) },
                Some(i) => {
                    let fields = messages[i].1.fields@;
                    if fields.len() != 1 {
                        c == ChainView { path: seq![], absorbs: seq![], end: Err(not_wrapper_message(current)) }
                    } else {
                        match fields[0].kind {
                            FieldKind::Enum(inner) => c == ChainView {
                                path: seq![fields[0].tag],
                                absorbs: seq![],
                                end: Ok(inner@),
                            },
                            FieldKind::Message(inner) => {
                                &&& chain_of(messages, inner@, (fuel - 1) as nat) is Some
                                &&& c == prefixed(
                                    seq![fields[0].tag],
                                    seq![inner@],
                                    chain_of(messages, inner@, (fuel - 1) as nat).unwrap(),
                                )
                            },
                            _ => c == ChainView {
                                path: seq![fields[0].tag],
                                absorbs: seq![],
                                end: Err(neither_message(current, kind_debug_of(kind_view(fields[0].kind)))),
                            },
                        }
                    }
                },
            }
        }),
{
    reveal(chain_of);
}

/// The chain from `name` ends: it reaches an enum or stops, rather than coming back to a message
/// it passed.
pub open spec fn chain_ends(messages: Seq<(String, MessageMeta)>, name: Seq<char>) -> bool {
    exists|fuel: nat| (#[trigger] chain_of(messages, name, fuel)) is Some
}

/// The chain from `name`, when it ends.
pub open spec fn chain(messages: Seq<(String, MessageMeta)>, name: Seq<char>) -> ChainView {
    chain_of(messages, name, choose|fuel: nat| (#[trigger] chain_of(messages, name, fuel)) is Some).unwrap()
}

pub open spec fn prefixed(path: Seq<u32>, absorbs: Seq<Seq<char>>, rest: ChainView) -> ChainView {
    ChainView { path: path + rest.path, absorbs: absorbs + rest.absorbs, end: rest.end }
}

pub open spec fn chain_result_view(r: (Vec<u32>, Vec<String>, Result<String, String>)) -> ChainView {
    ChainView {
        path: r.0@,
        absorbs: strings_view(r.1@),
        end: match r.2 {
            Ok(e) => Ok(e@),
            Err(m) => Err(m@),
        },
    }
}

fn not_wrapper(current: &String) -> (message: String)
    ensures
        message@ == not_wrapper_message(current@),
{
    let mut out: Vec<char> = Vec::new();
    push_str(&mut out, "`");
    push_str(&mut out, current.as_str());
    push_str(&mut out, "` is not a single-field wrapper message");
    assert(out@ =~= not_wrapper_message(current@));
    string_of(out.as_slice())
}

fn neither(current: &String, kind: &FieldKind) -> (message: String)
    ensures
        message@ == neither_message(current@, kind_debug_of(kind_view(*kind))),
{
    let mut out: Vec<char> = Vec::new();
    push_str(&mut out, "the single field of `");
    push_str(&mut out, current.as_str());
    push_str(&mut out, "` is neither an enum nor a wrapper message (");
    let debug = kind_debug(kind);
    push_all(&mut out, &debug);
    push_str(&mut out, ")");
    assert(out@ =~= neither_message(current@, kind_debug_of(kind_view(*kind))));
    string_of(out.as_slice())
}

/// Follows the chain of single-field wrapper messages from `name` down to the enum it flattens.
pub fn wrapper_chain(index: &DescriptorIndex, name: &String) -> (r: (Vec<u32>, Vec<String>, Result<String, String>))
    requires
        chain_ends(index.messages@, name@),
    ensures
        chain_result_view(r) == chain(index.messages@, name@),
{
    let ghost messages = index.messages@;
    let ghost fuel: nat = choose|fuel: nat| (#[trigger] chain_of(messages, name@, fuel)) is Some;
    let ghost target = chain_of(messages, name@, fuel).unwrap();
    assert(target == chain(messages, name@));
    let ghost mut left: nat = fuel;
    let mut path: Vec<u32> = Vec::new();
    let mut absorbs: Vec<String> = Vec::new();
    let mut current: String = name.clone();
    proof {
        assert(path@ =~= seq![]);
        assert(strings_view(absorbs@) =~= seq![]);
        assert(chain_of(messages, current@, left) is Some);
        assert(prefixed(path@, strings_view(absorbs@), chain_of(messages, current@, left).unwrap())
            =~= chain_of(messages, current@, left).unwrap());
    }
    loop
        invariant
            messages == index.messages@,
            target == chain(messages, name@),
            chain_of(messages, current@, left) is Some,
            target == prefixed(
                path@,
                strings_view(absorbs@),
                chain_of(messages, current@, left).unwrap(),
            ),
        decreases left,
    {
        let ghost rest = chain_of(messages, current@, left).unwrap();
        proof {
            lemma_chain_step(messages, current@, left);
        }
        match find_entry(&index.messages, current.as_str()) {
            None => {
                let message = not_found("message", current.as_str());
                proof {
                    assert(rest == ChainView { path: seq![], absorbs: seq![], end: Err(message@) });
                    assert(path@ + rest.path =~= path@);
                    assert(strings_view(absorbs@) + rest.absorbs =~= strings_view(absorbs@));
                }
                return (path, absorbs, Err(message));
            },
            Some(i) => {
                let meta = &index.messages[i].1;
                if meta.fields.len() != 1 {
                    let message = not_wrapper(&current);
                    proof {
                        assert(path@ + rest.path =~= path@);
                        assert(strings_view(absorbs@) + rest.absorbs =~= strings_view(absorbs@));
                    }
                    return (path, absorbs, Err(message));
                }
                let field = &meta.fields[0];
                let ghost before_path = path@;
                path.push(field.tag);
                assert(path@ =~= before_path + seq![field.tag]);
                match &field.kind {
                    FieldKind::Enum(inner) => {
                        proof {
                            assert(before_path + rest.path =~= path@);
                            assert(strings_view(absorbs@) + rest.absorbs =~= strings_view(absorbs@));
                        }
                        return (path, absorbs, Ok(inner.clone()));
                    },
                    FieldKind::Message(inner) => {
                        let ghost before_absorbs = strings_view(absorbs@);
                        absorbs.push(inner.clone());
                        assert(strings_view(absorbs@) =~= before_absorbs + seq![inner@]);
                        current = inner.clone();
                        proof {
                            let next = chain_of(messages, inner@, (left - 1) as nat).unwrap();
                            assert(before_path + rest.path =~= path@ + next.path);
                            assert(before_absorbs + rest.absorbs =~= strings_view(absorbs@) + next.absorbs);
                            left = (left - 1) as nat;
                        }
                    },
                    other => {
                        let message = neither(&current, other);
                        proof {
                            assert(before_path + rest.path =~= path@);
                            assert(strings_view(absorbs@) + rest.absorbs =~= strings_view(absorbs@));
                        }
                        return (path, absorbs, Err(message));
                    },
                }
            },
        }
    }
}

pub open spec fn disagree_path_message() -> Seq<char> {
    "transparent wrapper messages disagree on the wrapper tag path"@
}

/// What following the wrapper chains of the proto names found.
pub struct WrapperState {
    /// The tag path of the first chain that reached an enum.
    pub path: Option<Seq<u32>>,
    /// The enums reached, by their positions in the index.
    pub positions: Seq<usize>,
    pub absorbs: Seq<Seq<char>>,
    pub errors: Seq<(Site, Seq<char>)>,
}

/// The chains of the first `n` names followed in order: every inner wrapper passed is absorbed, a
/// chain that stops is an error at its name, and one that reaches an enum must walk the same tags
/// as the first that did, and reach an enum the index has.
pub open spec fn wrappers_of(
    messages: Seq<(String, MessageMeta)>,
    enums: Seq<(String, EnumMeta)>,
    names: Seq<String>,
    n: int,
) -> WrapperState
    decreases n,
{
    if n <= 0 {
        WrapperState { path: None, positions: seq![], absorbs: seq![], errors: seq![] }
    } else {
        let w = wrappers_of(messages, enums, names, n - 1);
        let c = chain(messages, names[n - 1]@);
        let site = Site::Name((n - 1) as usize);
        let absorbs = w.absorbs + c.absorbs;
        match c.end {
            Err(e) => WrapperState { absorbs, errors: w.errors.push((site, e)), ..w },
            Ok(enum_name) => {
                let path = match w.path {
                    Some(p) => Some(p),
                    None => Some(c.path),
                };
                let errors = match w.path {
                    Some(p) => if p != c.path {
                        w.errors.push((site, disagree_path_message()))
                    } else {
                        w.errors
                    },
                    None => w.errors,
                };
                match position_of(enums, enum_name) {
                    Some(p) => WrapperState { path, positions: w.positions.push(p as usize), absorbs, errors },
                    None => WrapperState {
                        path,
                        positions: w.positions,
                        absorbs,
                        errors: errors.push((site, not_found_of("enum"@, enum_name))),
                    },
                }
            },
        }
    }
}

fn u32s_eq(a: &Vec<u32>, b: &Vec<u32>) -> (eq: bool)
    ensures
        eq == (a@ == b@),
{
    if a.len() != b.len() {
        return false;
    }
    let mut i: usize = 0;
    while i < a.len()
        invariant
            i <= a@.len(),
            a@.len() == b@.len(),
            forall|j: int| 0 <= j < i ==> a@[j] == b@[j],
        decreases a.len() - i,
    {
        if a[i] != b[i] {
            return false;
        }
        i = i + 1;
    }
    assert(a@ =~= b@);
    true
}

pub struct Wrappers {
    pub path: Option<Vec<u32>>,
    pub positions: Vec<usize>,
    pub absorbs: Vec<String>,
    pub errors: Vec<Diagnostic>,
}

pub open spec fn wrappers_view(w: Wrappers) -> WrapperState {
    WrapperState {
        path: match w.path {
            Some(p) => Some(p@),
            None => None,
        },
        positions: w.positions@,
        absorbs: strings_view(w.absorbs@),
        errors: diagnostics_view(w.errors@),
    }
}

/// Follows the wrapper chain of every proto name, in order.
pub fn follow_wrappers(index: &DescriptorIndex, names: &Vec<String>) -> (r: Wrappers)
    requires
        forall|k: int| 0 <= k < names@.len() ==> chain_ends(index.messages@, (#[trigger] names@[k])@),
    ensures
        wrappers_view(r) == wrappers_of(index.messages@, index.enums@, names@, names@.len() as int),
        forall|k: int| 0 <= k < r.positions@.len() ==> (#[trigger] r.positions@[k]) < index.enums@.len(),
{
    let mut out = Wrappers { path: None, positions: Vec::new(), absorbs: Vec::new(), errors: Vec::new() };
    proof {
        assert(out.positions@ =~= seq![]);
        assert(strings_view(out.absorbs@) =~= seq![]);
        assert(diagnostics_view(out.errors@) =~= seq![]);
    }
    let mut i: usize = 0;
    while i < names.len()
        invariant
            i <= names@.len(),
            forall|k: int| 0 <= k < names@.len() ==> chain_ends(index.messages@, (#[trigger] names@[k])@),
            wrappers_view(out) == wrappers_of(index.messages@, index.enums@, names@, i as int),
            forall|k: int| 0 <= k < out.positions@.len() ==> (#[trigger] out.positions@[k]) < index.enums@.len(),
        decreases names.len() - i,
    {
        let ghost w = wrappers_view(out);
        assert(chain_ends(index.messages@, names@[i as int]@));
        let (path, absorbs, end) = wrapper_chain(index, &names[i]);
        let site = Site::Name(i);
        crate::shape::push_strings(&mut out.absorbs, &absorbs);
        match end {
            Err(e) => {
                out.errors.push(Diagnostic { site, message: e });
            },
            Ok(enum_name) => {
                let disagrees = match &out.path {
                    Some(p) => !u32s_eq(p, &path),
                    None => false,
                };
                if out.path.is_none() {
                    out.path = Some(path);
                }
                if disagrees {
                    out.errors.push(
                        Diagnostic {
                            site,
                            message: "transparent wrapper messages disagree on the wrapper tag path".to_owned(),
                        },
                    );
                }
                match find_entry(&index.enums, enum_name.as_str()) {
                    Some(p) => {
                        out.positions.push(p);
                    },
                    None => {
                        out.errors.push(Diagnostic { site, message: not_found("enum", enum_name.as_str()) });
                    },
                }
            },
        }
        proof {
            let next = wrappers_of(index.messages@, index.enums@, names@, i + 1);
            assert(diagnostics_view(out.errors@) =~= next.errors);
            assert(out.positions@ =~= next.positions);
            assert(strings_view(out.absorbs@) =~= next.absorbs);
        }
        i = i + 1;
    }
    out
}

pub open spec fn type_attr_message() -> Seq<char> {
    "this armonik attribute is not valid at type level on derive(Enum)"@
}

pub open spec fn transparent_missing_message() -> Seq<char> {
    "#[armonik(transparent)] requires the single-field wrapper message as the macro's argument: #[armonik_macros::enumeration(\"full.proto.Name\")]"@
}

pub open spec fn plain_missing_message() -> Seq<char> {
    "missing the proto enum this type stands for: #[armonik_macros::enumeration(\"full.proto.Name\")]"@
}

pub open spec fn not_enum_message() -> Seq<char> {
    "#[armonik_macros::enumeration] expects an enum"@
}

pub open spec fn catch_all_missing_message() -> Seq<char> {
    "#[armonik_macros::enumeration] requires a catch-all tuple variant, e.g. `Unknown(UnknownTaskStatus)`"@
}

/// Whether a type-level entry asks for the transparent mode.
pub open spec fn is_transparent(attrs: Seq<TypeAttr>) -> bool {
    exists|i: int| 0 <= i < attrs.len() && (#[trigger] attrs[i]) is Transparent
}

/// An error at each of the first `n` type-level entries other than `transparent`.
pub open spec fn attr_errors_of(attrs: Seq<TypeAttr>, n: int) -> Seq<(Site, Seq<char>)>
    decreases n,
{
    if n <= 0 {
        seq![]
    } else if attrs[n - 1] is Transparent {
        attr_errors_of(attrs, n - 1)
    } else {
        attr_errors_of(attrs, n - 1).push((Site::Attr((n - 1) as usize), type_attr_message()))
    }
}

/// An enumeration item, as plain values.
pub struct EnumItem {
    /// The paths the item's `derive` attributes list, as written.
    pub derives: Vec<String>,
    /// The item's type-level armonik attribute entries.
    pub attrs: Vec<TypeAttr>,
    /// The proto names given as the macro's argument.
    pub proto_names: Vec<String>,
    /// The variants, or `None` when the item is not an enum.
    pub variants: Option<Vec<EnumVariant>>,
}

/// What the Rust enum stands for.
pub enum EnumMode {
    /// The proto enums, by the names that resolved.
    Plain { names: Vec<String> },
    /// The wrapper messages the enum is flattened out of, by the names claimed, and the tags from
    /// the outermost wrapper down to the enum field, `None` when no chain resolved.
    Transparent { names: Vec<String>, path: Option<Vec<u32>> },
}

pub enum EnumModeView {
    Plain { names: Seq<Seq<char>> },
    Transparent { names: Seq<Seq<char>>, path: Option<Seq<u32>> },
}

pub open spec fn mode_view(m: EnumMode) -> EnumModeView {
    match m {
        EnumMode::Plain { names } => EnumModeView::Plain { names: strings_view(names@) },
        EnumMode::Transparent { names, path } => EnumModeView::Transparent {
            names: strings_view(names@),
            path: match path {
                Some(p) => Some(p@),
                None => None,
            },
        },
    }
}

/// The resolved enumeration. Total: whatever failed is an error, and the plan degrades.
pub struct EnumPlan {
    /// The catch-all variant and the payload struct the expansion emits for it.
    pub catch_all: Option<(String, String)>,
    /// The leading comment of the proto enum, or in transparent mode of the outermost wrapper.
    pub docs: Vec<String>,
    pub named: Vec<EnumValue>,
    pub poisoned: Vec<Poisoned>,
    /// The named variant standing for zero.
    pub zero_variant: Option<String>,
    /// Whether a variant carries the standard `#[default]`.
    pub has_std_default: bool,
    /// Whether the item derives a trait the expansion implements.
    pub derived_comparisons: bool,
    pub is_enum: bool,
    pub mode: EnumMode,
    pub fingerprint: u64,
    /// Inner wrapper messages the transparent chains flatten away.
    pub absorbs: Vec<String>,
    pub errors: Vec<Diagnostic>,
}

pub struct EnumPlanView {
    pub catch_all: Option<(Seq<char>, Seq<char>)>,
    pub docs: Seq<Seq<char>>,
    pub named: Seq<EnumValueView>,
    pub poisoned: Seq<(Seq<char>, Option<Seq<char>>)>,
    pub zero_variant: Option<Seq<char>>,
    pub has_std_default: bool,
    pub derived_comparisons: bool,
    pub is_enum: bool,
    pub mode: EnumModeView,
    pub fingerprint: u64,
    pub absorbs: Seq<Seq<char>>,
    pub errors: Seq<(Site, Seq<char>)>,
}

pub open spec fn enum_plan_view(p: EnumPlan) -> EnumPlanView {
    EnumPlanView {
        catch_all: catch_all_view(p.catch_all),
        docs: strings_view(p.docs@),
        named: p.named@.map_values(|v: EnumValue| v@),
        poisoned: poisoned_list_view(p.poisoned@),
        zero_variant: match p.zero_variant {
            Some(z) => Some(z@),
            None => None,
        },
        has_std_default: p.has_std_default,
        derived_comparisons: p.derived_comparisons,
        is_enum: p.is_enum,
        mode: mode_view(p.mode),
        fingerprint: p.fingerprint,
        absorbs: strings_view(p.absorbs@),
        errors: diagnostics_view(p.errors@),
    }
}

/// What the proto names resolve to.
pub struct HeadView {
    pub positions: Seq<usize>,
    pub mode: EnumModeView,
    pub docs: Seq<Seq<char>>,
    pub absorbs: Seq<Seq<char>>,
    pub errors: Seq<(Site, Seq<char>)>,
}

/// The proto names resolved: in transparent mode each through its wrapper chain, documented by
/// the first name's message; otherwise each as a proto enum, documented by the first that
/// resolved. No name at all is an error at the item.
pub open spec fn head_of(index: DescriptorIndex, item: EnumItem) -> HeadView {
    let names = item.proto_names@;
    if is_transparent(item.attrs@) {
        let missing = if names.len() == 0 {
            seq![(Site::Item, transparent_missing_message())]
        } else {
            seq![]
        };
        let w = wrappers_of(index.messages@, index.enums@, names, names.len() as int);
        HeadView {
            positions: w.positions,
            mode: EnumModeView::Transparent { names: strings_view(names), path: w.path },
            docs: if names.len() > 0 {
                match position_of(index.messages@, names[0]@) {
                    Some(i) => strings_view(index.messages@[i].1.docs@),
                    None => seq![],
                }
            } else {
                seq![]
            },
            absorbs: w.absorbs,
            errors: missing + w.errors,
        }
    } else {
        let missing = if names.len() == 0 {
            seq![(Site::Item, plain_missing_message())]
        } else {
            seq![]
        };
        let (positions, errors) = resolve_enum_names_of(index.enums@, names, names.len() as int);
        HeadView {
            positions,
            mode: EnumModeView::Plain { names: positions.map_values(|p: usize| index.enums@[p as int].0@) },
            docs: if positions.len() > 0 {
                strings_view(index.enums@[positions[0] as int].1.docs@)
            } else {
                seq![]
            },
            absorbs: seq![],
            errors: missing + errors,
        }
    }
}

/// The enumeration resolved against the index: the derives and type-level entries checked, the
/// proto names resolved, the variants sorted out and matched against the proto values, and every
/// error in the order it was found.
pub open spec fn enum_plan_of(index: DescriptorIndex, item: EnumItem) -> EnumPlanView {
    let derived = exists|i: int|
        0 <= i < item.derives@.len() && implemented((#[trigger] item.derives@[i])@);
    let h = head_of(index, item);
    let before = derive_errors_of(item.derives@, item.derives@.len() as int) + attr_errors_of(
        item.attrs@,
        item.attrs@.len() as int,
    ) + h.errors;
    match item.variants {
        None => EnumPlanView {
            catch_all: None,
            docs: h.docs,
            named: seq![],
            poisoned: seq![],
            zero_variant: None,
            has_std_default: false,
            derived_comparisons: derived,
            is_enum: false,
            mode: h.mode,
            fingerprint: index.fingerprint,
            absorbs: h.absorbs,
            errors: before.push((Site::Item, not_enum_message())),
        },
        Some(variants) => {
            let c = classify_of(variants@, variants@.len() as int);
            let missing = if c.catch_all is None {
                seq![(Site::Item, catch_all_missing_message())]
            } else {
                seq![]
            };
            let m = match_values_of(selected(index.enums@, h.positions), c.named, c.poisoned.len() > 0);
            EnumPlanView {
                catch_all: c.catch_all,
                docs: h.docs,
                named: m.named,
                poisoned: c.poisoned + m.poisoned.map_values(
                    |ident: Seq<char>| (ident, None::<Seq<char>>),
                ),
                zero_variant: m.zero_variant,
                has_std_default: c.has_std_default,
                derived_comparisons: derived,
                is_enum: true,
                mode: h.mode,
                fingerprint: index.fingerprint,
                absorbs: h.absorbs,
                errors: before + c.errors + missing + m.errors,
            }
        },
    }
}

/// Each enum of the index has a doc entry for each of its values.
pub fn enums_consistent(index: &DescriptorIndex) -> (b: bool)
    ensures
        b == enums_wf(index.enums@),
{
    let mut k: usize = 0;
    while k < index.enums.len()
        invariant
            k <= index.enums@.len(),
            forall|j: int|
                0 <= j < k ==> (#[trigger] index.enums@[j]).1.value_docs@.len() == index.enums@[j].1.values@.len(),
        decreases index.enums.len() - k,
    {
        if index.enums[k].1.value_docs.len() != index.enums[k].1.values.len() {
            return false;
        }
        k = k + 1;
    }
    true
}

/// The type-level entries checked: whether one asks for the transparent mode, and an error at
/// each of the others.
fn check_type_attrs(attrs: &Vec<TypeAttr>) -> (r: (bool, Vec<Diagnostic>))
    ensures
        r.0 == is_transparent(attrs@),
        diagnostics_view(r.1@) == attr_errors_of(attrs@, attrs@.len() as int),
{
    let mut transparent = false;
    let mut errors: Vec<Diagnostic> = Vec::new();
    let mut i: usize = 0;
    while i < attrs.len()
        invariant
            i <= attrs@.len(),
            transparent == exists|j: int| 0 <= j < i && (#[trigger] attrs@[j]) is Transparent,
            diagnostics_view(errors@) == attr_errors_of(attrs@, i as int),
        decreases attrs.len() - i,
    {
        match &attrs[i] {
            TypeAttr::Transparent => {
                transparent = true;
            },
            _ => {
                let ghost before = diagnostics_view(errors@);
                errors.push(
                    Diagnostic {
                        site: Site::Attr(i),
                        message: "this armonik attribute is not valid at type level on derive(Enum)".to_owned(),
                    },
                );
                assert(diagnostics_view(errors@) =~= before.push((Site::Attr(i), type_attr_message())));
            },
        }
        i = i + 1;
    }
    (transparent, errors)
}

/// The proto names resolved, as [`head_of`] says.
fn resolve_head(index: &DescriptorIndex, item: &EnumItem, transparent: bool) -> (r: (
    Vec<usize>,
    EnumMode,
    Vec<String>,
    Vec<String>,
    Vec<Diagnostic>,
))
    requires
        transparent == is_transparent(item.attrs@),
        transparent ==> forall|k: int|
            0 <= k < item.proto_names@.len() ==> chain_ends(index.messages@, (#[trigger] item.proto_names@[k])@),
    ensures
        ({
            let h = head_of(*index, *item);
            &&& r.0@ == h.positions
            &&& mode_view(r.1) == h.mode
            &&& strings_view(r.2@) == h.docs
            &&& strings_view(r.3@) == h.absorbs
            &&& diagnostics_view(r.4@) == h.errors
        }),
        forall|k: int| 0 <= k < r.0@.len() ==> (#[trigger] r.0@[k]) < index.enums@.len(),
{
    let names = &item.proto_names;
    let mut errors: Vec<Diagnostic> = Vec::new();
    if transparent {
        if names.len() == 0 {
            errors.push(
                Diagnostic {
                    site: Site::Item,
                    message: "#[armonik(transparent)] requires the single-field wrapper message as the macro's argument: #[armonik_macros::enumeration(\"full.proto.Name\")]".to_owned(),
                },
            );
        }
        let ghost missing = diagnostics_view(errors@);
        let w = follow_wrappers(index, names);
        crate::shape::push_diagnostics(&mut errors, &w.errors);
        let docs = if names.len() > 0 {
            index.message_docs(Some(names[0].as_str()))
        } else {
            Vec::new()
        };
        let mode = EnumMode::Transparent { names: clone_strings(names), path: w.path };
        proof {
            assert(strings_view(docs@) =~= head_of(*index, *item).docs);
            assert(diagnostics_view(errors@) =~= head_of(*index, *item).errors);
        }
        (w.positions, mode, docs, w.absorbs, errors)
    } else {
        if names.len() == 0 {
            errors.push(
                Diagnostic {
                    site: Site::Item,
                    message: "missing the proto enum this type stands for: #[armonik_macros::enumeration(\"full.proto.Name\")]".to_owned(),
                },
            );
        }
        let (positions, found) = resolve_enum_names(index, names);
        crate::shape::push_diagnostics(&mut errors, &found);
        let mut resolved: Vec<String> = Vec::new();
        let mut k: usize = 0;
        while k < positions.len()
            invariant
                k <= positions@.len(),
                forall|j: int| 0 <= j < positions@.len() ==> (#[trigger] positions@[j]) < index.enums@.len(),
                strings_view(resolved@) =~= positions@.take(k as int).map_values(
                    |p: usize| index.enums@[p as int].0@,
                ),
            decreases positions.len() - k,
        {
            let ghost prev = strings_view(resolved@);
            resolved.push(index.enums[positions[k]].0.clone());
            proof {
                let f = |p: usize| index.enums@[p as int].0@;
                assert(strings_view(resolved@) =~= prev.push(f(positions@[k as int])));
                assert(positions@.take(k + 1).map_values(f) =~= positions@.take(k as int).map_values(f).push(
                    f(positions@[k as int]),
                ));
            }
            k = k + 1;
        }
        let docs = if positions.len() > 0 {
            clone_strings(&index.enums[positions[0]].1.docs)
        } else {
            Vec::new()
        };
        proof {
            assert(positions@.take(k as int) =~= positions@);
            assert(strings_view(docs@) =~= head_of(*index, *item).docs);
            assert(diagnostics_view(errors@) =~= head_of(*index, *item).errors);
        }
        let none: Vec<String> = Vec::new();
        assert(strings_view(none@) =~= seq![]);
        (positions, EnumMode::Plain { names: resolved }, docs, none, errors)
    }
}

/// Resolves `#[armonik_macros::enumeration]` against the index, as [`enum_plan_of`] says.
pub fn resolve_enumeration(index: &DescriptorIndex, item: &EnumItem) -> (plan: EnumPlan)
    requires
        enums_wf(index.enums@),
        is_transparent(item.attrs@) ==> forall|k: int|
            0 <= k < item.proto_names@.len() ==> chain_ends(index.messages@, (#[trigger] item.proto_names@[k])@),
    ensures
        enum_plan_view(plan) == enum_plan_of(*index, *item),
{
    let (derived_comparisons, mut errors) = reject_implemented_derives(&item.derives);
    let (transparent, attr_errors) = check_type_attrs(&item.attrs);
    crate::shape::push_diagnostics(&mut errors, &attr_errors);
    let (positions, mode, docs, absorbs, head_errors) = resolve_head(index, item, transparent);
    crate::shape::push_diagnostics(&mut errors, &head_errors);
    match &item.variants {
        None => {
            errors.push(Diagnostic { site: Site::Item, message: "#[armonik_macros::enumeration] expects an enum".to_owned() });
            let plan = EnumPlan {
                catch_all: None,
                docs,
                named: Vec::new(),
                poisoned: Vec::new(),
                zero_variant: None,
                has_std_default: false,
                derived_comparisons,
                is_enum: false,
                mode,
                fingerprint: index.fingerprint,
                absorbs,
                errors,
            };
            proof {
                let want = enum_plan_of(*index, *item);
                assert(enum_plan_view(plan).named =~= want.named);
                assert(enum_plan_view(plan).poisoned =~= want.poisoned);
                assert(enum_plan_view(plan).errors =~= want.errors);
            }
            plan
        },
        Some(variants) => {
            let c = classify_variants(variants);
            crate::shape::push_diagnostics(&mut errors, &c.errors);
            if c.catch_all.is_none() {
                errors.push(
                    Diagnostic {
                        site: Site::Item,
                        message: "#[armonik_macros::enumeration] requires a catch-all tuple variant, e.g. `Unknown(UnknownTaskStatus)`".to_owned(),
                    },
                );
            }
            let m = match_values(&index.enums, &positions, &c.named, c.poisoned.len() > 0);
            crate::shape::push_diagnostics(&mut errors, &m.errors);
            let mut poisoned = c.poisoned;
            let ghost before = poisoned_list_view(poisoned@);
            let mut k: usize = 0;
            while k < m.poisoned.len()
                invariant
                    k <= m.poisoned@.len(),
                    poisoned_list_view(poisoned@) =~= before + strings_view(m.poisoned@).take(k as int).map_values(
                        |ident: Seq<char>| (ident, None::<Seq<char>>),
                    ),
                decreases m.poisoned.len() - k,
            {
                let ghost prev = poisoned_list_view(poisoned@);
                poisoned.push(Poisoned { ident: m.poisoned[k].clone(), payload: None });
                proof {
                    let f = |ident: Seq<char>| (ident, None::<Seq<char>>);
                    assert(poisoned_list_view(poisoned@) =~= prev.push(f(m.poisoned@[k as int]@)));
                    assert(strings_view(m.poisoned@).take(k + 1).map_values(f) =~= strings_view(m.poisoned@).take(
                        k as int,
                    ).map_values(f).push(f(m.poisoned@[k as int]@)));
                }
                k = k + 1;
            }
            let plan = EnumPlan {
                catch_all: c.catch_all,
                docs,
                named: m.named,
                poisoned,
                zero_variant: m.zero_variant,
                has_std_default: c.has_std_default,
                derived_comparisons,
                is_enum: true,
                mode,
                fingerprint: index.fingerprint,
                absorbs,
                errors,
            };
            proof {
                let want = enum_plan_of(*index, *item);
                assert(strings_view(m.poisoned@).take(k as int) =~= strings_view(m.poisoned@));
                assert(enum_plan_view(plan).poisoned =~= want.poisoned);
                assert(enum_plan_view(plan).errors =~= want.errors);
            }
            plan
        },
    }
}

proof fn lemma_classify_counts(variants: Seq<EnumVariant>, n: int)
    requires
        0 <= n <= variants.len(),
    ensures
        ({
            let c = classify_of(variants, n);
            c.named.len() + c.poisoned.len() + (if c.catch_all is Some { 1int } else { 0int }) == n
        }),
    decreases n,
{
    if n > 0 {
        lemma_classify_counts(variants, n - 1);
    }
}

proof fn lemma_match_counts(enums: Seq<(String, EnumMeta)>, variants: Seq<NamedVariantView>, n: int)
    requires
        0 <= n <= variants.len(),
    ensures
        match_variants(enums, variants, n).named.len() + match_variants(enums, variants, n).poisoned.len() == n,
    decreases n,
{
    if n > 0 {
        lemma_match_counts(enums, variants, n - 1);
    }
}

/// Resolving an enum accounts for every variant exactly once: each is a named value, the
/// catch-all, or poisoned.
pub proof fn lemma_every_variant_is_accounted_for(index: DescriptorIndex, item: EnumItem)
    requires
        item.variants is Some,
    ensures
        ({
            let p = enum_plan_of(index, item);
            p.named.len() + p.poisoned.len() + (if p.catch_all is Some { 1int } else { 0int })
                == item.variants.unwrap()@.len()
        }),
{
    let variants = item.variants.unwrap()@;
    let c = classify_of(variants, variants.len() as int);
    lemma_classify_counts(variants, variants.len() as int);
    let h = head_of(index, item);
    lemma_match_counts(selected(index.enums@, h.positions), c.named, c.named.len() as int);
}

/// The message after `current` on a wrapper chain: the message the single field of `current` is,
/// when `current` is a single-field wrapper of a message.
#[verifier::opaque]
pub open spec fn next_wrapper(messages: Seq<(String, MessageMeta)>, current: Seq<char>) -> Option<Seq<char>> {
    match position_of(messages, current) {
        None => None,
        Some(i) => {
            let fields = messages[i].1.fields@;
            if fields.len() != 1 {
                None
            } else {
                match fields[0].kind {
                    FieldKind::Message(inner) => Some(inner@),
                    _ => None,
                }
            }
        },
    }
}

/// The message `k` wrapper steps down the chain from `name`, while the chain lasts.
pub open spec fn reach(messages: Seq<(String, MessageMeta)>, name: Seq<char>, k: nat) -> Option<Seq<char>>
    decreases k,
{
    if k == 0 {
        Some(name)
    } else {
        match reach(messages, name, (k - 1) as nat) {
            Some(c) => next_wrapper(messages, c),
            None => None,
        }
    }
}

proof fn lemma_reach_shift(messages: Seq<(String, MessageMeta)>, name: Seq<char>, k: nat)
    ensures
        reach(messages, name, k + 1) == match next_wrapper(messages, name) {
            Some(i) => reach(messages, i, k),
            None => None,
        },
    decreases k,
{
    if k > 0 {
        lemma_reach_shift(messages, name, (k - 1) as nat);
        assert(reach(messages, name, k + 1) == match reach(messages, name, k) {
            Some(c) => next_wrapper(messages, c),
            None => None,
        });
        match next_wrapper(messages, name) {
            Some(i) => {
                assert(reach(messages, i, k) == match reach(messages, i, (k - 1) as nat) {
                    Some(c) => next_wrapper(messages, c),
                    None => None,
                });
            },
            None => {},
        }
    }
}

proof fn lemma_chain_runs_on_exactly_when_reached(messages: Seq<(String, MessageMeta)>, name: Seq<char>, fuel: nat)
    ensures
        chain_of(messages, name, fuel) is None <==> reach(messages, name, fuel) is Some,
    decreases fuel,
{
    reveal(chain_of);
    reveal(next_wrapper);
    if fuel > 0 {
        lemma_reach_shift(messages, name, (fuel - 1) as nat);
        match next_wrapper(messages, name) {
            Some(inner) => {
                lemma_chain_runs_on_exactly_when_reached(messages, inner, (fuel - 1) as nat);
            },
            None => {},
        }
    }
}

proof fn lemma_reach_prefix(messages: Seq<(String, MessageMeta)>, name: Seq<char>, i: nat, j: nat)
    requires
        i <= j,
        reach(messages, name, j) is Some,
    ensures
        reach(messages, name, i) is Some,
    decreases j - i,
{
    if i < j {
        lemma_reach_prefix(messages, name, i, (j - 1) as nat);
    }
}

proof fn lemma_reach_repeats(messages: Seq<(String, MessageMeta)>, name: Seq<char>, i: nat, j: nat, m: nat)
    requires
        reach(messages, name, i) is Some,
        reach(messages, name, i) == reach(messages, name, j),
    ensures
        reach(messages, name, i + m) == reach(messages, name, j + m),
    decreases m,
{
    if m > 0 {
        lemma_reach_repeats(messages, name, i, j, (m - 1) as nat);
        assert(reach(messages, name, i + m) == match reach(messages, name, (i + m - 1) as nat) {
            Some(c) => next_wrapper(messages, c),
            None => None,
        });
        assert(reach(messages, name, j + m) == match reach(messages, name, (j + m - 1) as nat) {
            Some(c) => next_wrapper(messages, c),
            None => None,
        });
    }
}

proof fn lemma_reach_forever(messages: Seq<(String, MessageMeta)>, name: Seq<char>, i: nat, j: nat, k: nat)
    requires
        i < j,
        reach(messages, name, j) is Some,
        reach(messages, name, i) == reach(messages, name, j),
    ensures
        reach(messages, name, k) is Some,
    decreases k,
{
    if k <= j {
        lemma_reach_prefix(messages, name, k, j);
    } else {
        let m = (k - j) as nat;
        lemma_reach_prefix(messages, name, i, j);
        lemma_reach_repeats(messages, name, i, j, m);
        lemma_reach_forever(messages, name, i, j, (i + m) as nat);
    }
}

proof fn lemma_position_found<T>(entries: Seq<(String, T)>, name: Seq<char>, w: int)
    requires
        0 <= w < entries.len(),
        entries[w].0@ == name,
    ensures
        exists|i: int|
            0 <= i < entries.len() && entries[i].0@ == name && forall|j: int|
                0 <= j < i ==> (#[trigger] entries[j]).0@ != name,
    decreases w,
{
    if exists|j: int| 0 <= j < w && (#[trigger] entries[j]).0@ == name {
        let j = choose|j: int| 0 <= j < w && (#[trigger] entries[j]).0@ == name;
        lemma_position_found(entries, name, j);
    } else {
        assert(forall|j: int| 0 <= j < w ==> (#[trigger] entries[j]).0@ != name);
    }
}

proof fn lemma_position_in_range<T>(entries: Seq<(String, T)>, name: Seq<char>)
    ensures
        position_of(entries, name) matches Some(p) ==> 0 <= p < entries.len() && entries[p].0@ == name,
{
    if exists|i: int| 0 <= i < entries.len() && (#[trigger] entries[i]).0@ == name {
        let w = choose|i: int| 0 <= i < entries.len() && (#[trigger] entries[i]).0@ == name;
        lemma_position_found(entries, name, w);
    }
}

/// A chain still going after more wrapper steps than the index has messages has come back to a
/// message it passed, and so never ends.
proof fn lemma_long_chain_cycles(messages: Seq<(String, MessageMeta)>, name: Seq<char>)
    requires
        reach(messages, name, (messages.len() + 1) as nat) is Some,
    ensures
        forall|k: nat| #[trigger] reach(messages, name, k) is Some,
{
    reveal(next_wrapper);
    let n = messages.len();
    let ps = Seq::new(n + 1, |k: int| position_of(messages, reach(messages, name, k as nat)->Some_0)->Some_0);
    assert forall|k: int| 0 <= k <= n implies {
        &&& reach(messages, name, k as nat) is Some
        &&& position_of(messages, reach(messages, name, k as nat)->Some_0) is Some
        &&& 0 <= #[trigger] ps[k] < n
        &&& messages[ps[k]].0@ == reach(messages, name, k as nat)->Some_0
    } by {
        lemma_reach_prefix(messages, name, (k + 1) as nat, (n + 1) as nat);
        lemma_reach_prefix(messages, name, k as nat, (k + 1) as nat);
        lemma_position_in_range(messages, reach(messages, name, k as nat)->Some_0);
    }
    if ps.no_duplicates() {
        ps.unique_seq_to_set();
        vstd::set_lib::lemma_int_range(0, n as int);
        assert(ps.to_set().subset_of(vstd::set_lib::set_int_range(0, n as int))) by {
            assert forall|x: int| ps.to_set().contains(x) implies vstd::set_lib::set_int_range(0, n as int).contains(x) by {
                let k = choose|k: int| 0 <= k < ps.len() && ps[k] == x;
            }
        }
        vstd::set_lib::lemma_len_subset(ps.to_set(), vstd::set_lib::set_int_range(0, n as int));
        assert(false);
    }
    let (i, j) = choose|i: int, j: int| 0 <= i < ps.len() && 0 <= j < ps.len() && i != j && ps[i] == ps[j];
    let (lo, hi) = if i < j { (i, j) } else { (j, i) };
    assert(reach(messages, name, lo as nat) == reach(messages, name, hi as nat));
    assert forall|k: nat| #[trigger] reach(messages, name, k) is Some by {
        lemma_reach_forever(messages, name, lo as nat, hi as nat, k);
    }
}

/// A chain ends exactly when it ends within one more step than the index has messages.
pub proof fn lemma_chain_ends_within_the_index(messages: Seq<(String, MessageMeta)>, name: Seq<char>)
    ensures
        chain_ends(messages, name) <==> chain_of(messages, name, (messages.len() + 1) as nat) is Some,
{
    let bound = (messages.len() + 1) as nat;
    if chain_of(messages, name, bound) is None {
        lemma_chain_runs_on_exactly_when_reached(messages, name, bound);
        lemma_long_chain_cycles(messages, name);
        assert forall|fuel: nat| !(#[trigger] chain_of(messages, name, fuel) is Some) by {
            lemma_chain_runs_on_exactly_when_reached(messages, name, fuel);
            assert(reach(messages, name, fuel) is Some);
        }
    }
}

/// The message after `current` on its wrapper chain, as [`next_wrapper`] says.
fn next_wrapper_of(index: &DescriptorIndex, current: &String) -> (next: Option<String>)
    ensures
        match next {
            Some(n) => next_wrapper(index.messages@, current@) == Some(n@),
            None => next_wrapper(index.messages@, current@) is None,
        },
{
    reveal(next_wrapper);
    match find_entry(&index.messages, current.as_str()) {
        None => None,
        Some(i) => {
            let meta = &index.messages[i].1;
            if meta.fields.len() != 1 {
                return None;
            }
            match &meta.fields[0].kind {
                FieldKind::Message(inner) => Some(inner.clone()),
                _ => None,
            }
        },
    }
}

/// Whether the wrapper chain from `name` ends, rather than coming back to a message it passed.
pub fn wrapper_chain_ends(index: &DescriptorIndex, name: &String) -> (b: bool)
    ensures
        b == chain_ends(index.messages@, name@),
{
    let ghost messages = index.messages@;
    let mut current = name.clone();
    let mut k: usize = 0;
    while k < index.messages.len()
        invariant
            messages == index.messages@,
            k <= messages.len(),
            reach(messages, name@, k as nat) == Some(current@),
        decreases index.messages.len() - k,
    {
        match next_wrapper_of(index, &current) {
            None => {
                proof {
                    lemma_chain_runs_on_exactly_when_reached(messages, name@, (k + 1) as nat);
                    assert(chain_of(messages, name@, (k + 1) as nat) is Some);
                }
                return true;
            },
            Some(n) => {
                current = n;
            },
        }
        k = k + 1;
    }
    let last = next_wrapper_of(index, &current);
    proof {
        let bound = (messages.len() + 1) as nat;
        lemma_chain_runs_on_exactly_when_reached(messages, name@, bound);
        lemma_chain_ends_within_the_index(messages, name@);
    }
    last.is_none()
}

} // verus!
