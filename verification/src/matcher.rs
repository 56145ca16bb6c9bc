//! Field-and-oneof lookup with coverage over one proto message.
//!
//! Resolving any shape is the same walk: take a proto name, find what it maps to, record that it
//! was consumed, and at the end turn whatever was not consumed into "this proto field is not
//! covered" errors.

use vstd::prelude::*;

use crate::descriptor::{clone_strings, string_eq, strings_view, FieldMeta, MessageMeta, OneofMeta};
use crate::order::{lex_leq, sort_strings};
use crate::text::{decimal, decimal_of, join, join_of, push_str, string_of};

verus! {

/// Every oneof member index and every field's oneof index is in range.
pub open spec fn message_wf(meta: &MessageMeta) -> bool {
    &&& forall|f: int|
        0 <= f < meta.fields@.len() ==> match (#[trigger] meta.fields@[f]).oneof {
            Some(o) => o < meta.oneofs@.len(),
            None => true,
        }
    &&& forall|o: int, j: int|
        0 <= o < meta.oneofs@.len() && 0 <= j < meta.oneofs@[o].fields@.len() ==> (
        #[trigger] meta.oneofs@[o].fields@[j]) < meta.fields@.len()
}

/// The first field named `name`.
pub open spec fn field_position(fields: Seq<FieldMeta>, name: Seq<char>) -> Option<int> {
    if exists|i: int| 0 <= i < fields.len() && (#[trigger] fields[i]).name@ == name {
        Some(
            choose|i: int|
                0 <= i < fields.len() && fields[i].name@ == name && forall|j: int|
                    0 <= j < i ==> (#[trigger] fields[j]).name@ != name,
        )
    } else {
        None
    }
}

/// The first oneof named `name`.
pub open spec fn oneof_position(oneofs: Seq<OneofMeta>, name: Seq<char>) -> Option<int> {
    if exists|i: int| 0 <= i < oneofs.len() && (#[trigger] oneofs[i]).name@ == name {
        Some(
            choose|i: int|
                0 <= i < oneofs.len() && oneofs[i].name@ == name && forall|j: int|
                    0 <= j < i ==> (#[trigger] oneofs[j]).name@ != name,
        )
    } else {
        None
    }
}

/// "proto message/enum `name` not found in the compiled descriptor set".
pub open spec fn not_found_of(what: Seq<char>, name: Seq<char>) -> Seq<char> {
    "proto "@ + what + " `"@ + name + "` not found in the compiled descriptor set"@
}

/// `no {what} named `{name}` in {container} (available: ...); {hint}`, the available names sorted.
pub open spec fn unknown_name_of(
    what: Seq<char>,
    name: Seq<char>,
    container: Seq<char>,
    available: Seq<Seq<char>>,
    hint: Seq<char>,
) -> Seq<char> {
    "no "@ + what + " named `"@ + name + "` in "@ + container + " (available: "@ + join_of(
        available.sort_by(lex_leq()),
        ", "@,
    ) + "); "@ + hint
}

/// The names a message offers a Rust name: its fields, then its oneofs.
pub open spec fn available_names(meta: &MessageMeta) -> Seq<Seq<char>> {
    meta.fields@.map_values(|f: FieldMeta| f.name@) + meta.oneofs@.map_values(|o: OneofMeta| o.name@)
}

pub open spec fn oneof_member_message(message: Seq<char>, name: Seq<char>) -> Seq<char> {
    "proto field `"@ + message + "."@ + name
        + "` belongs to a oneof; map the whole oneof to one field named after it"@
}

pub open spec fn unknown_field_message(message: Seq<char>, name: Seq<char>, meta: &MessageMeta) -> Seq<
    char,
> {
    unknown_name_of(
        "field or oneof"@,
        name,
        "proto message `"@ + message + "`"@,
        available_names(meta),
        "use #[armonik(rename = \"...\")] if the names differ"@,
    )
}

pub open spec fn field_gap_message(message: Seq<char>, field: FieldMeta) -> Seq<char> {
    "proto field `"@ + message + "."@ + field.name@ + "` (tag "@ + decimal_of(field.tag as nat)
        + ") is not covered by any Rust field"@
}

pub open spec fn oneof_gap_message(message: Seq<char>, oneof: OneofMeta) -> Seq<char> {
    "proto oneof `"@ + message + "."@ + oneof.name@ + "` is not covered by any Rust field"@
}

/// A field is covered when consumed itself or through its oneof, mapped whole.
pub open spec fn field_covered(f: int, meta: &MessageMeta, consumed: Seq<bool>, oneofs: Seq<bool>) -> bool {
    consumed[f] || match meta.fields@[f].oneof {
        Some(o) => oneofs[o as int],
        None => false,
    }
}

/// A oneof is covered when mapped whole or when every member was mapped on its own.
pub open spec fn oneof_covered(o: int, meta: &MessageMeta, consumed: Seq<bool>, oneofs: Seq<bool>) -> bool {
    oneofs[o] || forall|j: int|
        0 <= j < meta.oneofs@[o].fields@.len() ==> consumed[#[trigger] meta.oneofs@[o].fields@[j] as int]
}

/// The completeness errors for the first `n` fields, in order.
pub open spec fn field_gaps(
    message: Seq<char>,
    meta: &MessageMeta,
    consumed: Seq<bool>,
    oneofs: Seq<bool>,
    n: int,
) -> Seq<Seq<char>>
    decreases n,
{
    if n <= 0 {
        seq![]
    } else {
        let head = field_gaps(message, meta, consumed, oneofs, n - 1);
        if field_covered(n - 1, meta, consumed, oneofs) {
            head
        } else {
            head.push(field_gap_message(message, meta.fields@[n - 1]))
        }
    }
}

/// The completeness errors for the first `n` oneofs, in order.
pub open spec fn oneof_gaps(
    message: Seq<char>,
    meta: &MessageMeta,
    consumed: Seq<bool>,
    oneofs: Seq<bool>,
    n: int,
) -> Seq<Seq<char>>
    decreases n,
{
    if n <= 0 {
        seq![]
    } else {
        let head = oneof_gaps(message, meta, consumed, oneofs, n - 1);
        if oneof_covered(n - 1, meta, consumed, oneofs) {
            head
        } else {
            head.push(oneof_gap_message(message, meta.oneofs@[n - 1]))
        }
    }
}

/// What a name resolved to: a plain field, or a oneof mapped whole with its members' tags.
pub enum Found<'a> {
    Field(&'a FieldMeta),
    Oneof { tags: Vec<u32> },
}

/// Field-or-oneof lookup with coverage over one proto message.
pub struct Matcher<'a> {
    message_name: &'a str,
    meta: &'a MessageMeta,
    consumed: Vec<bool>,
    consumed_oneofs: Vec<bool>,
    looked_up: Ghost<Seq<Seq<char>>>,
}

impl<'a> Matcher<'a> {
    pub closed spec fn message_name(&self) -> Seq<char> {
        self.message_name@
    }

    pub closed spec fn meta(&self) -> &'a MessageMeta {
        self.meta
    }

    /// Which fields were consumed, by index.
    pub closed spec fn consumed(&self) -> Seq<bool> {
        self.consumed@
    }

    /// Which oneofs were consumed whole, by index.
    pub closed spec fn consumed_oneofs(&self) -> Seq<bool> {
        self.consumed_oneofs@
    }

    /// The names looked up so far, in order.
    pub closed spec fn looked_up(&self) -> Seq<Seq<char>> {
        self.looked_up@
    }

    pub closed spec fn inv(&self) -> bool {
        &&& message_wf(self.meta)
        &&& self.consumed@.len() == self.meta.fields@.len()
        &&& self.consumed_oneofs@.len() == self.meta.oneofs@.len()
        &&& consumed_by(self.meta, self.looked_up@, self.looked_up@.len() as int) == (
            self.consumed@,
            self.consumed_oneofs@,
        )
    }

    /// A matcher over `meta` with nothing consumed yet.
    pub fn new(message_name: &'a str, meta: &'a MessageMeta) -> (m: Self)
        requires
            message_wf(meta),
        ensures
            m.inv(),
            m.message_name() == message_name@,
            m.meta() == meta,
            m.consumed() == Seq::new(meta.fields@.len(), |i: int| false),
            m.consumed_oneofs() == Seq::new(meta.oneofs@.len(), |i: int| false),
            m.looked_up() == Seq::<Seq<char>>::empty(),
    {
        let mut consumed: Vec<bool> = Vec::new();
        let mut i: usize = 0;
        while i < meta.fields.len()
            invariant
                i <= meta.fields@.len(),
                consumed@ =~= Seq::new(i as nat, |k: int| false),
            decreases meta.fields.len() - i,
        {
            consumed.push(false);
            i = i + 1;
        }
        let mut consumed_oneofs: Vec<bool> = Vec::new();
        let mut j: usize = 0;
        while j < meta.oneofs.len()
            invariant
                j <= meta.oneofs@.len(),
                consumed_oneofs@ =~= Seq::new(j as nat, |k: int| false),
            decreases meta.oneofs.len() - j,
        {
            consumed_oneofs.push(false);
            j = j + 1;
        }
        Matcher { message_name, meta, consumed, consumed_oneofs, looked_up: Ghost(Seq::empty()) }
    }
}

/// "proto {what} `{name}` not found in the compiled descriptor set".
pub fn not_found(what: &str, name: &str) -> (message: String)
    ensures
        message@ == not_found_of(what@, name@),
{
    let mut out: Vec<char> = Vec::new();
    push_str(&mut out, "proto ");
    push_str(&mut out, what);
    push_str(&mut out, " `");
    push_str(&mut out, name);
    push_str(&mut out, "` not found in the compiled descriptor set");
    assert(out@ =~= not_found_of(what@, name@));
    string_of(out.as_slice())
}

/// The shared shape of every name-lookup miss:
/// `no {what} named `{name}` in {container} (available: ...); {hint}`, the names sorted.
pub fn unknown_name(
    what: &str,
    name: &str,
    container: &str,
    available: Vec<String>,
    hint: &str,
) -> (message: String)
    ensures
        message@ == unknown_name_of(what@, name@, container@, strings_view(available@), hint@),
{
    let sorted = sort_strings(available);
    let mut out: Vec<char> = Vec::new();
    push_str(&mut out, "no ");
    push_str(&mut out, what);
    push_str(&mut out, " named `");
    push_str(&mut out, name);
    push_str(&mut out, "` in ");
    push_str(&mut out, container);
    push_str(&mut out, " (available: ");
    let joined = join(&sorted, ", ");
    crate::text::push_all(&mut out, &joined);
    push_str(&mut out, "); ");
    push_str(&mut out, hint);
    assert(sorted@.map_values(|p: String| p@) == strings_view(sorted@));
    assert(out@ =~= unknown_name_of(what@, name@, container@, strings_view(available@), hint@));
    string_of(out.as_slice())
}

impl<'a> Matcher<'a> {
    fn field_index(&self, proto_name: &str) -> (found: Option<usize>)
        ensures
            match found {
                Some(p) => p < self.meta.fields@.len() && field_position(self.meta.fields@, proto_name@)
                    == Some(p as int),
                None => field_position(self.meta.fields@, proto_name@) is None,
            },
    {
        let fields = &self.meta.fields;
        let mut i: usize = 0;
        while i < fields.len()
            invariant
                i <= fields@.len(),
                fields@ == self.meta.fields@,
                forall|j: int| 0 <= j < i ==> (#[trigger] fields@[j]).name@ != proto_name@,
            decreases fields.len() - i,
        {
            if string_eq(&fields[i].name, proto_name) {
                assert(0 <= i < fields@.len() && fields@[i as int].name@ == proto_name@);
                let ghost chosen = choose|k: int|
                    0 <= k < fields@.len() && fields@[k].name@ == proto_name@ && forall|j: int|
                        0 <= j < k ==> (#[trigger] fields@[j]).name@ != proto_name@;
                assert(0 <= i < fields@.len() && fields@[i as int].name@ == proto_name@);
                assert(chosen == i) by {
                    if chosen < i {
                    } else if chosen > i {
                    }
                }
                return Some(i);
            }
            i = i + 1;
        }
        None
    }

    fn available(&self) -> (names: Vec<String>)
        ensures
            strings_view(names@) == available_names(self.meta),
    {
        let mut names: Vec<String> = Vec::new();
        let ghost fields = self.meta.fields@.map_values(|f: FieldMeta| f.name@);
        let ghost oneofs = self.meta.oneofs@.map_values(|o: OneofMeta| o.name@);
        let mut i: usize = 0;
        while i < self.meta.fields.len()
            invariant
                i <= self.meta.fields@.len(),
                fields == self.meta.fields@.map_values(|f: FieldMeta| f.name@),
                strings_view(names@) =~= fields.take(i as int),
            decreases self.meta.fields.len() - i,
        {
            let ghost before = strings_view(names@);
            names.push(self.meta.fields[i].name.clone());
            assert(strings_view(names@) =~= before.push(fields[i as int]));
            assert(fields.take(i + 1) =~= fields.take(i as int).push(fields[i as int]));
            i = i + 1;
        }
        let mut j: usize = 0;
        while j < self.meta.oneofs.len()
            invariant
                j <= self.meta.oneofs@.len(),
                fields == self.meta.fields@.map_values(|f: FieldMeta| f.name@),
                oneofs == self.meta.oneofs@.map_values(|o: OneofMeta| o.name@),
                strings_view(names@) =~= fields + oneofs.take(j as int),
            decreases self.meta.oneofs.len() - j,
        {
            let ghost before = strings_view(names@);
            names.push(self.meta.oneofs[j].name.clone());
            assert(strings_view(names@) =~= before.push(oneofs[j as int]));
            assert(oneofs.take(j + 1) =~= oneofs.take(j as int).push(oneofs[j as int]));
            j = j + 1;
        }
        assert(oneofs.take(j as int) =~= oneofs);
        names
    }

    /// Look `proto_name` up among the message's fields, then its oneofs, marking what it names
    /// consumed. An error when nothing matches, or when the field can only be mapped through its
    /// oneof.
    pub fn find(&mut self, proto_name: &str) -> (r: Result<Found<'a>, String>)
        requires
            old(self).inv(),
        ensures
            final(self).inv(),
            final(self).message_name() == old(self).message_name(),
            final(self).meta() == old(self).meta(),
            final(self).looked_up() == old(self).looked_up().push(proto_name@),
            match field_position(old(self).meta().fields@, proto_name@) {
                Some(p) => {
                    &&& final(self).consumed() == old(self).consumed().update(p, true)
                    &&& final(self).consumed_oneofs() == old(self).consumed_oneofs()
                    &&& if old(self).meta().fields@[p].oneof is Some {
                        r matches Err(m) && m@ == oneof_member_message(
                            old(self).message_name(),
                            proto_name@,
                        )
                    } else {
                        r matches Ok(Found::Field(f)) && *f == old(self).meta().fields@[p]
                    }
                },
                None => match oneof_position(old(self).meta().oneofs@, proto_name@) {
                    Some(q) => {
                        &&& final(self).consumed() == old(self).consumed()
                        &&& final(self).consumed_oneofs() == old(self).consumed_oneofs().update(
                            q,
                            true,
                        )
                        &&& r matches Ok(Found::Oneof { tags }) && tags@ == old(
                            self,
                        ).meta().oneofs@[q].fields@.map_values(
                            |f: usize| old(self).meta().fields@[f as int].tag,
                        )
                    },
                    None => {
                        &&& final(self).consumed() == old(self).consumed()
                        &&& final(self).consumed_oneofs() == old(self).consumed_oneofs()
                        &&& r matches Err(m) && m@ == unknown_field_message(
                            old(self).message_name(),
                            proto_name@,
                            old(self).meta(),
                        )
                    },
                },
            },
    {
        let ghost before = self.looked_up@;
        proof {
            lemma_consumed_by_extended(self.meta, before, proto_name@, before.len() as int);
        }
        self.looked_up = Ghost(before.push(proto_name@));
        if let Some(position) = self.field_index(proto_name) {
            self.consumed.set(position, true);
            let meta: &'a MessageMeta = self.meta;
            let field: &'a FieldMeta = &meta.fields[position];
            if field.oneof.is_some() {
                let mut out: Vec<char> = Vec::new();
                push_str(&mut out, "proto field `");
                push_str(&mut out, self.message_name);
                push_str(&mut out, ".");
                push_str(&mut out, proto_name);
                push_str(
                    &mut out,
                    "` belongs to a oneof; map the whole oneof to one field named after it",
                );
                assert(out@ =~= oneof_member_message(self.message_name@, proto_name@));
                return Err(string_of(out.as_slice()));
            }
            return Ok(Found::Field(field));
        }
        match self.meta.oneof(proto_name) {
            Some((index, oneof)) => {
                proof {
                    let q = index as int;
                    assert(oneof_position(self.meta.oneofs@, proto_name@) == Some(q)) by {
                        let chosen = choose|k: int|
                            0 <= k < self.meta.oneofs@.len() && self.meta.oneofs@[k].name@
                                == proto_name@ && forall|j: int|
                                0 <= j < k ==> (#[trigger] self.meta.oneofs@[j]).name@ != proto_name@;
                        assert(self.meta.oneofs@[q].name@ == proto_name@);
                        if chosen < q {
                        } else if chosen > q {
                        }
                    }
                }
                self.consumed_oneofs.set(index, true);
                let mut tags: Vec<u32> = Vec::new();
                let mut j: usize = 0;
                while j < oneof.fields.len()
                    invariant
                        j <= oneof.fields@.len(),
                        message_wf(self.meta),
                        index < self.meta.oneofs@.len(),
                        *oneof == self.meta.oneofs@[index as int],
                        tags@ =~= oneof.fields@.take(j as int).map_values(
                            |f: usize| self.meta.fields@[f as int].tag,
                        ),
                    decreases oneof.fields.len() - j,
                {
                    let f = oneof.fields[j];
                    assert(self.meta.oneofs@[index as int].fields@[j as int] == f);
                    tags.push(self.meta.fields[f].tag);
                    assert(oneof.fields@.take(j + 1) =~= oneof.fields@.take(j as int).push(f));
                    j = j + 1;
                }
                assert(oneof.fields@.take(j as int) =~= oneof.fields@);
                Ok(Found::Oneof { tags })
            },
            None => {
                proof {
                    assert(oneof_position(self.meta.oneofs@, proto_name@) is None);
                }
                let mut container: Vec<char> = Vec::new();
                push_str(&mut container, "proto message `");
                push_str(&mut container, self.message_name);
                push_str(&mut container, "`");
                let container = string_of(container.as_slice());
                let available = self.available();
                let message = unknown_name(
                    "field or oneof",
                    proto_name,
                    container.as_str(),
                    available,
                    "use #[armonik(rename = \"...\")] if the names differ",
                );
                Err(message)
            },
        }
    }

    /// Completeness: every proto field and oneof left uncovered, as an error message, fields
    /// first. A field is covered through its oneof when the oneof was mapped whole; a oneof is
    /// covered when every member was mapped on its own.
    pub fn check_complete(&self) -> (errors: Vec<String>)
        requires
            self.inv(),
        ensures
            strings_view(errors@) == field_gaps(
                self.message_name(),
                self.meta(),
                self.consumed(),
                self.consumed_oneofs(),
                self.meta().fields@.len() as int,
            ) + oneof_gaps(
                self.message_name(),
                self.meta(),
                self.consumed(),
                self.consumed_oneofs(),
                self.meta().oneofs@.len() as int,
            ),
    {
        let ghost message = self.message_name@;
        let mut errors: Vec<String> = Vec::new();
        let mut f: usize = 0;
        while f < self.meta.fields.len()
            invariant
                self.inv(),
                message == self.message_name@,
                f <= self.meta.fields@.len(),
                strings_view(errors@) =~= field_gaps(
                    message,
                    self.meta,
                    self.consumed@,
                    self.consumed_oneofs@,
                    f as int,
                ),
            decreases self.meta.fields.len() - f,
        {
            let field = &self.meta.fields[f];
            let in_oneof_group = match field.oneof {
                Some(o) => self.consumed_oneofs[o],
                None => false,
            };
            if !self.consumed[f] && !in_oneof_group {
                let mut out: Vec<char> = Vec::new();
                push_str(&mut out, "proto field `");
                push_str(&mut out, self.message_name);
                push_str(&mut out, ".");
                push_str(&mut out, field.name.as_str());
                push_str(&mut out, "` (tag ");
                let digits = decimal(field.tag as u64);
                crate::text::push_all(&mut out, &digits);
                push_str(&mut out, ") is not covered by any Rust field");
                assert(out@ =~= field_gap_message(message, *field));
                let ghost before = strings_view(errors@);
                errors.push(string_of(out.as_slice()));
                assert(strings_view(errors@) =~= before.push(out@));
            }
            f = f + 1;
        }
        let ghost fields_part = strings_view(errors@);
        let mut o: usize = 0;
        while o < self.meta.oneofs.len()
            invariant
                self.inv(),
                message == self.message_name@,
                o <= self.meta.oneofs@.len(),
                strings_view(errors@) =~= fields_part + oneof_gaps(
                    message,
                    self.meta,
                    self.consumed@,
                    self.consumed_oneofs@,
                    o as int,
                ),
            decreases self.meta.oneofs.len() - o,
        {
            let oneof = &self.meta.oneofs[o];
            let mut members_covered = true;
            let mut j: usize = 0;
            while j < oneof.fields.len()
                invariant
                    self.inv(),
                    o < self.meta.oneofs@.len(),
                    *oneof == self.meta.oneofs@[o as int],
                    j <= oneof.fields@.len(),
                    members_covered == forall|k: int|
                        0 <= k < j ==> self.consumed@[#[trigger] oneof.fields@[k] as int],
                decreases oneof.fields.len() - j,
            {
                let member = oneof.fields[j];
                assert(self.meta.oneofs@[o as int].fields@[j as int] == member);
                members_covered = members_covered && self.consumed[member];
                j = j + 1;
            }
            if !self.consumed_oneofs[o] && !members_covered {
                let mut out: Vec<char> = Vec::new();
                push_str(&mut out, "proto oneof `");
                push_str(&mut out, self.message_name);
                push_str(&mut out, ".");
                push_str(&mut out, oneof.name.as_str());
                push_str(&mut out, "` is not covered by any Rust field");
                assert(out@ =~= oneof_gap_message(message, *oneof));
                let ghost before = strings_view(errors@);
                errors.push(string_of(out.as_slice()));
                assert(strings_view(errors@) =~= before.push(out@));
            }
            o = o + 1;
        }
        errors
    }
}

proof fn lemma_field_gaps_empty(
    message: Seq<char>,
    meta: &MessageMeta,
    consumed: Seq<bool>,
    oneofs: Seq<bool>,
    n: int,
)
    requires
        0 <= n <= meta.fields@.len(),
    ensures
        field_gaps(message, meta, consumed, oneofs, n).len() == 0 <==> forall|f: int|
            0 <= f < n ==> #[trigger] field_covered(f, meta, consumed, oneofs),
    decreases n,
{
    if n > 0 {
        lemma_field_gaps_empty(message, meta, consumed, oneofs, n - 1);
        if !field_covered(n - 1, meta, consumed, oneofs) {
            assert(!(forall|f: int| 0 <= f < n ==> #[trigger] field_covered(f, meta, consumed, oneofs)));
        }
    }
}

proof fn lemma_oneof_gaps_empty(
    message: Seq<char>,
    meta: &MessageMeta,
    consumed: Seq<bool>,
    oneofs: Seq<bool>,
    n: int,
)
    requires
        0 <= n <= meta.oneofs@.len(),
    ensures
        oneof_gaps(message, meta, consumed, oneofs, n).len() == 0 <==> forall|o: int|
            0 <= o < n ==> #[trigger] oneof_covered(o, meta, consumed, oneofs),
    decreases n,
{
    if n > 0 {
        lemma_oneof_gaps_empty(message, meta, consumed, oneofs, n - 1);
        if !oneof_covered(n - 1, meta, consumed, oneofs) {
            assert(!(forall|o: int| 0 <= o < n ==> #[trigger] oneof_covered(o, meta, consumed, oneofs)));
        }
    }
}

/// Completeness reports nothing exactly when every proto field is covered, by itself or through
/// its oneof mapped whole, and every oneof is covered, whole or member by member.
pub proof fn lemma_complete_exactly_when_covered(
    message: Seq<char>,
    meta: &MessageMeta,
    consumed: Seq<bool>,
    oneofs: Seq<bool>,
)
    requires
        message_wf(meta),
        consumed.len() == meta.fields@.len(),
        oneofs.len() == meta.oneofs@.len(),
    ensures
        (field_gaps(message, meta, consumed, oneofs, meta.fields@.len() as int) + oneof_gaps(
            message,
            meta,
            consumed,
            oneofs,
            meta.oneofs@.len() as int,
        )).len() == 0 <==> (forall|f: int|
            0 <= f < meta.fields@.len() ==> #[trigger] field_covered(f, meta, consumed, oneofs))
            && (forall|o: int|
            0 <= o < meta.oneofs@.len() ==> #[trigger] oneof_covered(o, meta, consumed, oneofs)),
{
    lemma_field_gaps_empty(message, meta, consumed, oneofs, meta.fields@.len() as int);
    lemma_oneof_gaps_empty(message, meta, consumed, oneofs, meta.oneofs@.len() as int);
}

/// Looking one more name up leaves what the earlier ones consumed as it was.
proof fn lemma_consumed_by_extended(meta: &MessageMeta, names: Seq<Seq<char>>, x: Seq<char>, n: int)
    requires
        0 <= n <= names.len(),
    ensures
        consumed_by(meta, names.push(x), n) == consumed_by(meta, names, n),
    decreases n,
{
    if n > 0 {
        lemma_consumed_by_extended(meta, names, x, n - 1);
        assert(names.push(x)[n - 1] == names[n - 1]);
    }
}

/// What looking up the first `n` of `names`, in order, on a fresh matcher over `meta` consumes:
/// the fields and the oneofs mapped whole, by index, as [`Matcher::find`] marks them.
pub open spec fn consumed_by(meta: &MessageMeta, names: Seq<Seq<char>>, n: int) -> (Seq<bool>, Seq<bool>)
    decreases n,
{
    if n <= 0 {
        (Seq::new(meta.fields@.len(), |i: int| false), Seq::new(meta.oneofs@.len(), |i: int| false))
    } else {
        let (c, o) = consumed_by(meta, names, n - 1);
        match field_position(meta.fields@, names[n - 1]) {
            Some(p) => (c.update(p, true), o),
            None => match oneof_position(meta.oneofs@, names[n - 1]) {
                Some(q) => (c, o.update(q, true)),
                None => (c, o),
            },
        }
    }
}

proof fn lemma_field_position_in_range(fields: Seq<FieldMeta>, name: Seq<char>)
    ensures
        field_position(fields, name) matches Some(p) ==> 0 <= p < fields.len() && fields[p].name@ == name,
{
    if exists|i: int| 0 <= i < fields.len() && (#[trigger] fields[i]).name@ == name {
        let w = choose|i: int| 0 <= i < fields.len() && (#[trigger] fields[i]).name@ == name;
        let p = choose|i: int|
            0 <= i < fields.len() && fields[i].name@ == name && forall|j: int|
                0 <= j < i ==> (#[trigger] fields[j]).name@ != name;
        assert(exists|i: int|
            0 <= i < fields.len() && fields[i].name@ == name && forall|j: int|
                0 <= j < i ==> (#[trigger] fields[j]).name@ != name) by {
            lemma_first_match(fields, name, w);
        }
    }
}

proof fn lemma_first_match(fields: Seq<FieldMeta>, name: Seq<char>, w: int)
    requires
        0 <= w < fields.len(),
        fields[w].name@ == name,
    ensures
        exists|i: int|
            0 <= i < fields.len() && fields[i].name@ == name && forall|j: int|
                0 <= j < i ==> (#[trigger] fields[j]).name@ != name,
    decreases w,
{
    if exists|j: int| 0 <= j < w && (#[trigger] fields[j]).name@ == name {
        let j = choose|j: int| 0 <= j < w && (#[trigger] fields[j]).name@ == name;
        lemma_first_match(fields, name, j);
    } else {
        assert(forall|j: int| 0 <= j < w ==> (#[trigger] fields[j]).name@ != name);
    }
}

proof fn lemma_oneof_position_in_range(oneofs: Seq<OneofMeta>, name: Seq<char>)
    ensures
        oneof_position(oneofs, name) matches Some(q) ==> 0 <= q < oneofs.len() && oneofs[q].name@ == name,
{
    if exists|i: int| 0 <= i < oneofs.len() && (#[trigger] oneofs[i]).name@ == name {
        let w = choose|i: int| 0 <= i < oneofs.len() && (#[trigger] oneofs[i]).name@ == name;
        lemma_first_oneof(oneofs, name, w);
    }
}

proof fn lemma_first_oneof(oneofs: Seq<OneofMeta>, name: Seq<char>, w: int)
    requires
        0 <= w < oneofs.len(),
        oneofs[w].name@ == name,
    ensures
        exists|i: int|
            0 <= i < oneofs.len() && oneofs[i].name@ == name && forall|j: int|
                0 <= j < i ==> (#[trigger] oneofs[j]).name@ != name,
    decreases w,
{
    if exists|j: int| 0 <= j < w && (#[trigger] oneofs[j]).name@ == name {
        let j = choose|j: int| 0 <= j < w && (#[trigger] oneofs[j]).name@ == name;
        lemma_first_oneof(oneofs, name, j);
    } else {
        assert(forall|j: int| 0 <= j < w ==> (#[trigger] oneofs[j]).name@ != name);
    }
}

pub open spec fn field_found_by(meta: &MessageMeta, names: Seq<Seq<char>>, n: int, f: int) -> bool {
    exists|k: int| 0 <= k < n && field_position(meta.fields@, #[trigger] names[k]) == Some(f)
}

pub open spec fn oneof_found_by(meta: &MessageMeta, names: Seq<Seq<char>>, n: int, q: int) -> bool {
    exists|k: int|
        0 <= k < n && field_position(meta.fields@, #[trigger] names[k]) is None && oneof_position(
            meta.oneofs@,
            names[k],
        ) == Some(q)
}

proof fn lemma_fields_step(meta: &MessageMeta, names: Seq<Seq<char>>, n: int)
    requires
        0 < n <= names.len(),
        consumed_by(meta, names, n - 1).0.len() == meta.fields@.len(),
        forall|f: int|
            0 <= f < meta.fields@.len() ==> (#[trigger] consumed_by(meta, names, n - 1).0[f]
                <==> field_found_by(meta, names, n - 1, f)),
    ensures
        consumed_by(meta, names, n).0.len() == meta.fields@.len(),
        forall|f: int|
            0 <= f < meta.fields@.len() ==> (#[trigger] consumed_by(meta, names, n).0[f]
                <==> field_found_by(meta, names, n, f)),
{
    lemma_field_position_in_range(meta.fields@, names[n - 1]);
    let c0 = consumed_by(meta, names, n - 1).0;
    let c = consumed_by(meta, names, n).0;
    let pf = field_position(meta.fields@, names[n - 1]);
    assert forall|f: int| 0 <= f < meta.fields@.len() implies (#[trigger] c[f] <==> field_found_by(
        meta,
        names,
        n,
        f,
    )) by {
        if pf == Some(f) {
            assert(field_position(meta.fields@, names[n - 1]) == Some(f));
            assert(c[f]);
        } else {
            assert(c[f] == c0[f]);
            if field_found_by(meta, names, n, f) {
                let k = choose|k: int| 0 <= k < n && field_position(meta.fields@, #[trigger] names[k]) == Some(f);
                assert(k < n - 1);
                assert(field_found_by(meta, names, n - 1, f));
            }
            if field_found_by(meta, names, n - 1, f) {
                let k = choose|k: int|
                    0 <= k < n - 1 && field_position(meta.fields@, #[trigger] names[k]) == Some(f);
                assert(field_found_by(meta, names, n, f));
            }
        }
    }
}

#[verifier::rlimit(60)]
proof fn lemma_oneofs_step(meta: &MessageMeta, names: Seq<Seq<char>>, n: int)
    requires
        0 < n <= names.len(),
        consumed_by(meta, names, n - 1).1.len() == meta.oneofs@.len(),
        forall|q: int|
            0 <= q < meta.oneofs@.len() ==> (#[trigger] consumed_by(meta, names, n - 1).1[q]
                <==> oneof_found_by(meta, names, n - 1, q)),
    ensures
        consumed_by(meta, names, n).1.len() == meta.oneofs@.len(),
        forall|q: int|
            0 <= q < meta.oneofs@.len() ==> (#[trigger] consumed_by(meta, names, n).1[q]
                <==> oneof_found_by(meta, names, n, q)),
{
    lemma_oneof_position_in_range(meta.oneofs@, names[n - 1]);
    let o0 = consumed_by(meta, names, n - 1).1;
    let o = consumed_by(meta, names, n).1;
    let pf = field_position(meta.fields@, names[n - 1]);
    let po = oneof_position(meta.oneofs@, names[n - 1]);
    assert forall|q: int| 0 <= q < meta.oneofs@.len() implies (#[trigger] o[q] <==> oneof_found_by(
        meta,
        names,
        n,
        q,
    )) by {
        if pf is None && po == Some(q) {
            assert(o[q]);
            assert(field_position(meta.fields@, names[n - 1]) is None);
        } else {
            assert(o[q] == o0[q]);
            if oneof_found_by(meta, names, n, q) {
                let k = choose|k: int|
                    0 <= k < n && field_position(meta.fields@, #[trigger] names[k]) is None && oneof_position(
                        meta.oneofs@,
                        names[k],
                    ) == Some(q);
                assert(k < n - 1);
                assert(oneof_found_by(meta, names, n - 1, q));
            }
            if oneof_found_by(meta, names, n - 1, q) {
                let k = choose|k: int|
                    0 <= k < n - 1 && field_position(meta.fields@, #[trigger] names[k]) is None
                        && oneof_position(meta.oneofs@, names[k]) == Some(q);
                assert(oneof_found_by(meta, names, n, q));
            }
        }
    }
}

/// Looking names up consumes exactly the field each name finds first, and the oneof each name
/// that finds no field finds: a field is consumed when some name finds it, a oneof when some
/// name that names no field finds it, and nothing else. [`Matcher::check_complete`] then
/// reports [`field_gaps`] and [`oneof_gaps`] over these marks.
pub proof fn lemma_consumed_by_names(meta: &MessageMeta, names: Seq<Seq<char>>, n: int)
    requires
        0 <= n <= names.len(),
    ensures
        consumed_by(meta, names, n).0.len() == meta.fields@.len(),
        consumed_by(meta, names, n).1.len() == meta.oneofs@.len(),
        forall|f: int|
            0 <= f < meta.fields@.len() ==> (#[trigger] consumed_by(meta, names, n).0[f]
                <==> field_found_by(meta, names, n, f)),
        forall|q: int|
            0 <= q < meta.oneofs@.len() ==> (#[trigger] consumed_by(meta, names, n).1[q]
                <==> oneof_found_by(meta, names, n, q)),
    decreases n,
{
    if n > 0 {
        lemma_consumed_by_names(meta, names, n - 1);
        lemma_fields_step(meta, names, n);
        lemma_oneofs_step(meta, names, n);
    }
}

/// A matcher's marks are those of the names looked up on it, in order: a field is consumed
/// exactly when some name looked up found it, a oneof exactly when some name that found no field
/// found it. [`Matcher::check_complete`] reports the gaps of these marks, so it reports exactly
/// what no name looked up covered.
pub proof fn lemma_matcher_marks_what_was_looked_up(m: &Matcher)
    requires
        m.inv(),
    ensures
        m.consumed().len() == m.meta().fields@.len(),
        m.consumed_oneofs().len() == m.meta().oneofs@.len(),
        forall|f: int|
            0 <= f < m.meta().fields@.len() ==> (#[trigger] m.consumed()[f] <==> field_found_by(
                m.meta(),
                m.looked_up(),
                m.looked_up().len() as int,
                f,
            )),
        forall|q: int|
            0 <= q < m.meta().oneofs@.len() ==> (#[trigger] m.consumed_oneofs()[q] <==> oneof_found_by(
                m.meta(),
                m.looked_up(),
                m.looked_up().len() as int,
                q,
            )),
{
    lemma_consumed_by_names(m.meta(), m.looked_up(), m.looked_up().len() as int);
}

} // verus!
