//! Indexing a compiled descriptor set: comments re-attributed and cleaned, map entries folded into
//! map fields, proto3 `optional` folded into a cardinality, and every message, enum and service
//! keyed by its full name.
//!
//! The descriptor set arrives as plain values mirroring `prost_types`' descriptor protos, with
//! every absent optional field read as its default, the way their accessors read it.

use vstd::prelude::*;

use crate::comment::{clean_comment, clean_comment_of, previous_sibling, previous_sibling_of};
use crate::descriptor::{strings_view, FieldKind};
use crate::expect::{kind_view, KindView};
use crate::text::{chars_of, copy_range, push_str, string_of};

verus! {

/// A `SourceCodeInfo.Location`: the path of the element, its span, and its comments.
pub struct Location {
    pub path: Vec<i32>,
    /// `[line, col, end_col]` on one line, `[line, col, end_line, end_col]` across several.
    pub span: Vec<i32>,
    pub leading_comments: Option<String>,
    pub trailing_comments: Option<String>,
}

pub open spec fn start_line(l: Location) -> int {
    if l.span@.len() > 0 {
        l.span@[0] as int
    } else {
        0
    }
}

pub open spec fn end_line(l: Location) -> int {
    if l.span@.len() == 4 {
        l.span@[2] as int
    } else {
        start_line(l)
    }
}

pub open spec fn start_col(l: Location) -> int {
    if l.span@.len() > 1 {
        l.span@[1] as int
    } else {
        0
    }
}

/// The last location recorded for `path`.
pub open spec fn location_at(locations: Seq<Location>, path: Seq<i32>) -> Option<Location>
    decreases locations.len(),
{
    if locations.len() == 0 {
        None
    } else if locations.last().path@ == path {
        Some(locations.last())
    } else {
        location_at(locations.drop_last(), path)
    }
}

/// Comments keyed by path, the first entry for a path being the one that counts.
pub type Docs = Seq<(Seq<i32>, Seq<Seq<char>>)>;

pub open spec fn docs_get(docs: Docs, path: Seq<i32>) -> Option<Seq<Seq<char>>>
    decreases docs.len(),
{
    if docs.len() == 0 {
        None
    } else if docs[0].0 == path {
        Some(docs[0].1)
    } else {
        docs_get(docs.drop_first(), path)
    }
}

/// `docs` with `path` set to `lines`, replacing what it had.
pub open spec fn docs_insert(docs: Docs, path: Seq<i32>, lines: Seq<Seq<char>>) -> Docs {
    seq![(path, lines)] + docs
}

/// `docs` with `path` set to `lines` unless it already has an entry.
pub open spec fn docs_or_insert(docs: Docs, path: Seq<i32>, lines: Seq<Seq<char>>) -> Docs {
    if docs_get(docs, path) is Some {
        docs
    } else {
        seq![(path, lines)] + docs
    }
}

/// Trailing comments of the first `n` locations, recorded against the element they follow.
pub open spec fn trailing_docs(locations: Seq<Location>, n: int) -> Docs
    decreases n,
{
    if n <= 0 {
        seq![]
    } else {
        let docs = trailing_docs(locations, n - 1);
        match locations[n - 1].trailing_comments {
            Some(text) => docs_insert(docs, locations[n - 1].path@, clean_comment_of(text@)),
            None => docs,
        }
    }
}

/// Who owns a leading comment: the previous sibling when that ends on the line just before this
/// element starts and nothing precedes this element on its line (there was nowhere to write the
/// comment above it), else the element itself.
pub open spec fn leading_owner(locations: Seq<Location>, l: Location) -> Seq<i32> {
    match previous_sibling_of(l.path@) {
        Some(previous) => match location_at(locations, previous) {
            Some(p) => if end_line(p) + 1 == start_line(l) && start_col(l) <= start_col(p) {
                previous
            } else {
                l.path@
            },
            None => l.path@,
        },
        None => l.path@,
    }
}

/// The first `n` leading comments added to `docs`, never displacing an entry already there.
pub open spec fn leading_docs(locations: Seq<Location>, docs: Docs, n: int) -> Docs
    decreases n,
{
    if n <= 0 {
        docs
    } else {
        let before = leading_docs(locations, docs, n - 1);
        let l = locations[n - 1];
        match l.leading_comments {
            Some(text) => docs_or_insert(before, leading_owner(locations, l), clean_comment_of(text@)),
            None => before,
        }
    }
}

/// The cleaned comment of every location of a file, keyed by path.
pub open spec fn comments_of(locations: Seq<Location>) -> Docs {
    leading_docs(locations, trailing_docs(locations, locations.len() as int), locations.len() as int)
}

/// A comment table: `(path, lines)` pairs, the first one for a path counting.
pub struct Comments {
    pub entries: Vec<(Vec<i32>, Vec<String>)>,
}

pub open spec fn comments_view(c: Comments) -> Docs {
    c.entries@.map_values(|e: (Vec<i32>, Vec<String>)| (e.0@, strings_view(e.1@)))
}

fn paths_eq(a: &Vec<i32>, b: &Vec<i32>) -> (eq: bool)
    ensures
        eq == (a@ == b@),
{
    if a.len() != b.len() {
        return false;
    }
    let mut i: usize = 0;
    while i < a.len()
        invariant
            i <= a.len() == b.len(),
            forall|j: int| 0 <= j < i ==> a@[j] == b@[j],
        decreases a.len() - i,
    {
        if a[i] != b[i] {
            return false;
        }
        i = i + 1;
    }
    assert(a@ =~= b@);
    true
}

pub fn copy_path(p: &Vec<i32>) -> (out: Vec<i32>)
    ensures
        out@ == p@,
{
    let mut out: Vec<i32> = Vec::new();
    let mut i: usize = 0;
    while i < p.len()
        invariant
            i <= p.len(),
            out@ =~= p@.take(i as int),
        decreases p.len() - i,
    {
        out.push(p[i]);
        i = i + 1;
    }
    assert(p@.take(p.len() as int) =~= p@);
    out
}

impl Comments {
    /// The lines recorded for `path`, or none.
    pub fn get(&self, path: &Vec<i32>) -> (lines: Vec<String>)
        ensures
            strings_view(lines@) == match docs_get(comments_view(*self), path@) {
                Some(l) => l,
                None => Seq::<Seq<char>>::empty(),
            },
    {
        let ghost view = comments_view(*self);
        let mut i: usize = 0;
        assert(view.skip(0) =~= view);
        while i < self.entries.len()
            invariant
                i <= self.entries@.len(),
                view == comments_view(*self),
                docs_get(view, path@) == docs_get(view.skip(i as int), path@),
            decreases self.entries.len() - i,
        {
            assert(view.skip(i as int).drop_first() =~= view.skip(i + 1));
            assert(view.skip(i as int)[0] == view[i as int]);
            if paths_eq(&self.entries[i].0, path) {
                return crate::descriptor::clone_strings(&self.entries[i].1);
            }
            i = i + 1;
        }
        let v: Vec<String> = Vec::new();
        assert(strings_view(v@) =~= Seq::<Seq<char>>::empty());
        v
    }

    fn contains(&self, path: &Vec<i32>) -> (b: bool)
        ensures
            b == docs_get(comments_view(*self), path@) is Some,
    {
        let ghost view = comments_view(*self);
        let mut i: usize = 0;
        assert(view.skip(0) =~= view);
        while i < self.entries.len()
            invariant
                i <= self.entries@.len(),
                view == comments_view(*self),
                docs_get(view, path@) == docs_get(view.skip(i as int), path@),
            decreases self.entries.len() - i,
        {
            assert(view.skip(i as int).drop_first() =~= view.skip(i + 1));
            assert(view.skip(i as int)[0] == view[i as int]);
            if paths_eq(&self.entries[i].0, path) {
                return true;
            }
            i = i + 1;
        }
        false
    }

    fn insert(&mut self, path: Vec<i32>, lines: Vec<String>)
        ensures
            comments_view(*final(self)) == docs_insert(comments_view(*old(self)), path@, strings_view(lines@)),
    {
        let ghost before = comments_view(*self);
        let ghost entry = (path@, strings_view(lines@));
        self.entries.insert(0, (path, lines));
        assert(comments_view(*self) =~= seq![entry] + before);
    }
}

/// Where the last location recorded for `path` sits.
fn find_location(locations: &Vec<Location>, path: &Vec<i32>) -> (found: Option<usize>)
    ensures
        match found {
            Some(i) => i < locations@.len() && location_at(locations@, path@) == Some(locations@[i as int]),
            None => location_at(locations@, path@) is None,
        },
{
    let mut end = locations.len();
    assert(locations@.take(end as int) =~= locations@);
    while end > 0
        invariant
            end <= locations@.len(),
            location_at(locations@, path@) == location_at(locations@.take(end as int), path@),
        decreases end,
    {
        assert(locations@.take(end as int).last() == locations@[end - 1]);
        assert(locations@.take(end as int).drop_last() =~= locations@.take(end - 1));
        if paths_eq(&locations[end - 1].path, path) {
            return Some(end - 1);
        }
        end = end - 1;
    }
    None
}

fn first_or_zero(v: &Vec<i32>, at: usize) -> (x: i64)
    ensures
        x == if at < v@.len() {
            v@[at as int] as int
        } else {
            0
        },
{
    if at < v.len() {
        v[at] as i64
    } else {
        0
    }
}

/// Who owns a leading comment.
fn owner_of(locations: &Vec<Location>, l: &Location) -> (owner: Vec<i32>)
    ensures
        owner@ == leading_owner(locations@, *l),
{
    match previous_sibling(l.path.as_slice()) {
        Some(previous) => match find_location(locations, &previous) {
            Some(i) => {
                let p = &locations[i];
                let p_start = first_or_zero(&p.span, 0);
                let p_end = if p.span.len() == 4 {
                    p.span[2] as i64
                } else {
                    p_start
                };
                let l_start = first_or_zero(&l.span, 0);
                if p_end + 1 == l_start && first_or_zero(&l.span, 1) <= first_or_zero(&p.span, 1) {
                    previous
                } else {
                    copy_path(&l.path)
                }
            },
            None => copy_path(&l.path),
        },
        None => copy_path(&l.path),
    }
}

/// The cleaned comment of every location of a file, keyed by path.
///
/// Trailing comments are recorded against the element they follow. A leading comment is moved
/// onto the previous sibling when there was no line to write it above the element it is recorded
/// against, and never displaces an entry already there.
pub fn comments(locations: &Vec<Location>) -> (docs: Comments)
    ensures
        comments_view(docs) == comments_of(locations@),
{
    let mut docs = Comments { entries: Vec::new() };
    assert(comments_view(docs) =~= trailing_docs(locations@, 0));
    let mut i: usize = 0;
    while i < locations.len()
        invariant
            i <= locations@.len(),
            comments_view(docs) == trailing_docs(locations@, i as int),
        decreases locations.len() - i,
    {
        let l = &locations[i];
        match &l.trailing_comments {
            Some(text) => {
                let lines = clean_comment(text.as_str());
                docs.insert(copy_path(&l.path), lines);
            },
            None => {},
        }
        i = i + 1;
    }
    let ghost trailing = comments_view(docs);
    let mut j: usize = 0;
    while j < locations.len()
        invariant
            j <= locations@.len(),
            trailing == trailing_docs(locations@, locations@.len() as int),
            comments_view(docs) == leading_docs(locations@, trailing, j as int),
        decreases locations.len() - j,
    {
        let l = &locations[j];
        match &l.leading_comments {
            Some(text) => {
                let owner = owner_of(locations, l);
                if !docs.contains(&owner) {
                    let lines = clean_comment(text.as_str());
                    docs.insert(owner, lines);
                }
            },
            None => {},
        }
        j = j + 1;
    }
    docs
}

/// `FieldDescriptorProto.Type`.
pub enum FieldType {
    Double,
    Float,
    Int64,
    Uint64,
    Int32,
    Fixed64,
    Fixed32,
    Bool,
    String,
    Group,
    Message,
    Bytes,
    Uint32,
    Enum,
    Sfixed32,
    Sfixed64,
    Sint32,
    Sint64,
}

/// `FieldDescriptorProto.Label`.
pub enum FieldLabel {
    Optional,
    Required,
    Repeated,
}

/// A `FieldDescriptorProto`.
pub struct FieldProto {
    pub name: String,
    pub number: i32,
    pub label: FieldLabel,
    pub field_type: FieldType,
    /// The referenced type's name, with its leading dot, for message and enum fields.
    pub referenced_type: String,
    pub oneof_index: Option<i32>,
    pub proto3_optional: bool,
}

/// An `EnumDescriptorProto`: its name and its values, `(name, number)`, in declaration order.
pub struct EnumProto {
    pub name: String,
    pub values: Vec<(String, i32)>,
}

/// A `DescriptorProto`.
pub struct MessageProto {
    pub name: String,
    pub fields: Vec<FieldProto>,
    pub nested: Vec<MessageProto>,
    pub enums: Vec<EnumProto>,
    /// The names of its oneof declarations.
    pub oneofs: Vec<String>,
    /// `options.map_entry`: a synthetic map entry.
    pub map_entry: bool,
}

/// A `MethodDescriptorProto`.
pub struct MethodProto {
    pub name: String,
    pub input_type: String,
    pub output_type: String,
    pub client_streaming: bool,
    pub server_streaming: bool,
}

/// A `ServiceDescriptorProto`.
pub struct ServiceProto {
    pub name: String,
    pub methods: Vec<MethodProto>,
}

/// A `FileDescriptorProto`.
pub struct FileProto {
    pub package: String,
    pub messages: Vec<MessageProto>,
    pub enums: Vec<EnumProto>,
    pub services: Vec<ServiceProto>,
    /// `source_code_info.location`, empty when the file carries none.
    pub locations: Vec<Location>,
}

/// `name` under `prefix`: `prefix.name`, or `name` alone when there is no prefix.
pub open spec fn full_name_of(prefix: Seq<char>, name: Seq<char>) -> Seq<char> {
    if prefix.len() == 0 {
        name
    } else {
        prefix + seq!['.'] + name
    }
}

/// `name` under `prefix`.
pub fn full_name(prefix: &str, name: &str) -> (full: String)
    ensures
        full@ == full_name_of(prefix@, name@),
{
    let p = chars_of(prefix);
    if p.len() == 0 {
        return name.to_owned();
    }
    let mut out: Vec<char> = Vec::new();
    push_str(&mut out, prefix);
    out.push('.');
    push_str(&mut out, name);
    string_of(out.as_slice())
}

/// `s` without any leading `.`.
pub open spec fn trim_dots(s: Seq<char>) -> Seq<char>
    decreases s.len(),
{
    if s.len() > 0 && s[0] == '.' {
        trim_dots(s.drop_first())
    } else {
        s
    }
}

/// `s.trim_start_matches('.')`.
pub fn trim_leading_dots(s: &String) -> (out: String)
    ensures
        out@ == trim_dots(s@),
{
    let chars = chars_of(s.as_str());
    let mut start: usize = 0;
    assert(chars@.skip(0) =~= chars@);
    while start < chars.len() && chars[start] == '.'
        invariant
            start <= chars@.len(),
            trim_dots(chars@) == trim_dots(chars@.skip(start as int)),
        decreases chars.len() - start,
    {
        assert(chars@.skip(start as int).drop_first() =~= chars@.skip(start + 1));
        start = start + 1;
    }
    let out = copy_range(&chars, start, chars.len());
    assert(out@ =~= chars@.skip(start as int));
    string_of(out.as_slice())
}

/// The kind a field's type maps to: the scalars by name, a message or an enum by the type's name
/// without its leading dot, the kinds the codec does not implement as `Unsupported`, and a group
/// as an error.
pub open spec fn field_kind_of(f: FieldProto) -> Result<KindView, Seq<char>> {
    match f.field_type {
        FieldType::Double => Ok(KindView::Double),
        FieldType::Float => Ok(KindView::Float),
        FieldType::Int32 => Ok(KindView::Int32),
        FieldType::Int64 => Ok(KindView::Int64),
        FieldType::Uint32 => Ok(KindView::UInt32),
        FieldType::Uint64 => Ok(KindView::UInt64),
        FieldType::Sint32 => Ok(KindView::Unsupported("sint32"@)),
        FieldType::Sint64 => Ok(KindView::Unsupported("sint64"@)),
        FieldType::Fixed32 => Ok(KindView::Unsupported("fixed32"@)),
        FieldType::Fixed64 => Ok(KindView::Unsupported("fixed64"@)),
        FieldType::Sfixed32 => Ok(KindView::Unsupported("sfixed32"@)),
        FieldType::Sfixed64 => Ok(KindView::Unsupported("sfixed64"@)),
        FieldType::Bool => Ok(KindView::Bool),
        FieldType::String => Ok(KindView::String),
        FieldType::Bytes => Ok(KindView::Bytes),
        FieldType::Message => Ok(KindView::Message(trim_dots(f.referenced_type@))),
        FieldType::Enum => Ok(KindView::Enum(trim_dots(f.referenced_type@))),
        FieldType::Group => Err("proto2 groups are not supported"@),
    }
}

/// The kind a field's type maps to.
pub fn field_kind(field: &FieldProto) -> (r: Result<FieldKind, String>)
    ensures
        match r {
            Ok(kind) => field_kind_of(*field) == Ok::<KindView, Seq<char>>(kind_view(kind)),
            Err(message) => field_kind_of(*field) == Err::<KindView, Seq<char>>(message@),
        },
{
    match field.field_type {
        FieldType::Double => Ok(FieldKind::Double),
        FieldType::Float => Ok(FieldKind::Float),
        FieldType::Int32 => Ok(FieldKind::Int32),
        FieldType::Int64 => Ok(FieldKind::Int64),
        FieldType::Uint32 => Ok(FieldKind::UInt32),
        FieldType::Uint64 => Ok(FieldKind::UInt64),
        FieldType::Sint32 => Ok(FieldKind::Unsupported("sint32".to_owned())),
        FieldType::Sint64 => Ok(FieldKind::Unsupported("sint64".to_owned())),
        FieldType::Fixed32 => Ok(FieldKind::Unsupported("fixed32".to_owned())),
        FieldType::Fixed64 => Ok(FieldKind::Unsupported("fixed64".to_owned())),
        FieldType::Sfixed32 => Ok(FieldKind::Unsupported("sfixed32".to_owned())),
        FieldType::Sfixed64 => Ok(FieldKind::Unsupported("sfixed64".to_owned())),
        FieldType::Bool => Ok(FieldKind::Bool),
        FieldType::String => Ok(FieldKind::String),
        FieldType::Bytes => Ok(FieldKind::Bytes),
        FieldType::Message => Ok(FieldKind::Message(trim_leading_dots(&field.referenced_type))),
        FieldType::Enum => Ok(FieldKind::Enum(trim_leading_dots(&field.referenced_type))),
        FieldType::Group => Err("proto2 groups are not supported".to_owned()),
    }
}

/// Map entry messages by full name with their key and value kinds, in the order they were found;
/// for a name found twice the later entry counts.
pub type EntriesView = Seq<(Seq<char>, KindView, KindView)>;

/// The last entry recorded for `name`.
pub open spec fn entry_for(entries: EntriesView, name: Seq<char>) -> Option<(KindView, KindView)>
    decreases entries.len(),
{
    if entries.len() == 0 {
        None
    } else if entries.last().0 == name {
        Some((entries.last().1, entries.last().2))
    } else {
        entry_for(entries.drop_last(), name)
    }
}

/// The first field numbered `number`.
pub open spec fn field_numbered(fields: Seq<FieldProto>, number: i32) -> Option<FieldProto>
    decreases fields.len(),
{
    if fields.len() == 0 {
        None
    } else if fields[0].number == number {
        Some(fields[0])
    } else {
        field_numbered(fields.drop_first(), number)
    }
}

/// A message's map entries, and those of everything nested in it, added to `acc`; a map entry
/// needs fields numbered 1 (key) and 2 (value).
pub open spec fn collect_of(prefix: Seq<char>, m: MessageProto, acc: EntriesView) -> Result<
    EntriesView,
    Seq<char>,
>
    decreases m,
{
    let full = full_name_of(prefix, m.name@);
    if m.map_entry {
        match field_numbered(m.fields@, 1) {
            None => Err("map entry `"@ + full + "` has no key field"@),
            Some(key) => match field_numbered(m.fields@, 2) {
                None => Err("map entry `"@ + full + "` has no value field"@),
                Some(value) => match field_kind_of(key) {
                    Err(e) => Err(e),
                    Ok(key_kind) => match field_kind_of(value) {
                        Err(e) => Err(e),
                        Ok(value_kind) => Ok(acc.push((full, key_kind, value_kind))),
                    },
                },
            },
        }
    } else {
        collect_nested_of(full, m.nested@, m.nested@.len() as int, acc)
    }
}

/// The first `k` of `nested`, in order, through [`collect_of`].
pub open spec fn collect_nested_of(
    prefix: Seq<char>,
    nested: Seq<MessageProto>,
    k: int,
    acc: EntriesView,
) -> Result<EntriesView, Seq<char>>
    decreases nested, k,
{
    if k <= 0 || k > nested.len() {
        Ok(acc)
    } else {
        match collect_nested_of(prefix, nested, k - 1, acc) {
            Err(e) => Err(e),
            Ok(a) => collect_of(prefix, nested[k - 1], a),
        }
    }
}

/// Map entries found so far.
pub struct MapEntries {
    pub entries: Vec<(String, FieldKind, FieldKind)>,
}

pub open spec fn entries_view(e: MapEntries) -> EntriesView {
    e.entries@.map_values(
        |x: (String, FieldKind, FieldKind)| (x.0@, kind_view(x.1), kind_view(x.2)),
    )
}

fn find_numbered(fields: &Vec<FieldProto>, number: i32) -> (found: Option<usize>)
    ensures
        match found {
            Some(i) => i < fields@.len() && field_numbered(fields@, number) == Some(fields@[i as int]),
            None => field_numbered(fields@, number) is None,
        },
{
    let mut i: usize = 0;
    assert(fields@.skip(0) =~= fields@);
    while i < fields.len()
        invariant
            i <= fields@.len(),
            field_numbered(fields@, number) == field_numbered(fields@.skip(i as int), number),
        decreases fields.len() - i,
    {
        assert(fields@.skip(i as int)[0] == fields@[i as int]);
        assert(fields@.skip(i as int).drop_first() =~= fields@.skip(i + 1));
        if fields[i].number == number {
            return Some(i);
        }
        i = i + 1;
    }
    None
}

fn map_entry_error(full: &String, tail: &str) -> (message: String)
    ensures
        message@ == "map entry `"@ + full@ + tail@,
{
    let mut out: Vec<char> = Vec::new();
    push_str(&mut out, "map entry `");
    push_str(&mut out, full.as_str());
    push_str(&mut out, tail);
    string_of(out.as_slice())
}

pub proof fn lemma_collect_error_sticks(
    prefix: Seq<char>,
    nested: Seq<MessageProto>,
    k: int,
    j: int,
    acc: EntriesView,
)
    requires
        0 <= k <= j <= nested.len(),
        collect_nested_of(prefix, nested, k, acc) is Err,
    ensures
        collect_nested_of(prefix, nested, j, acc) == collect_nested_of(prefix, nested, k, acc),
    decreases j - k,
{
    if j > k {
        lemma_collect_error_sticks(prefix, nested, k, j - 1, acc);
    }
}

/// Collects the synthetic map-entry messages of `message` and everything nested in it, so that
/// map fields can be folded into a map cardinality.
pub fn collect_map_entries(prefix: &str, message: &MessageProto, map_entries: &mut MapEntries) -> (r:
    Result<(), String>)
    ensures
        match r {
            Ok(()) => collect_of(prefix@, *message, entries_view(*old(map_entries))) == Ok::<
                EntriesView,
                Seq<char>,
            >(entries_view(*final(map_entries))),
            Err(e) => collect_of(prefix@, *message, entries_view(*old(map_entries))) == Err::<
                EntriesView,
                Seq<char>,
            >(e@),
        },
    decreases message,
{
    let full = full_name(prefix, message.name.as_str());
    if message.map_entry {
        let key = match find_numbered(&message.fields, 1) {
            Some(i) => &message.fields[i],
            None => {
                let e = map_entry_error(&full, "` has no key field");
                return Err(e);
            },
        };
        let value = match find_numbered(&message.fields, 2) {
            Some(i) => &message.fields[i],
            None => {
                let e = map_entry_error(&full, "` has no value field");
                return Err(e);
            },
        };
        let key_kind = field_kind(key)?;
        let value_kind = field_kind(value)?;
        let ghost before = entries_view(*map_entries);
        map_entries.entries.push((full, key_kind, value_kind));
        assert(entries_view(*map_entries) =~= before.push(
            (full_name_of(prefix@, message.name@), kind_view(key_kind), kind_view(value_kind)),
        ));
        return Ok(());
    }
    let ghost start = entries_view(*map_entries);
    let mut i: usize = 0;
    while i < message.nested.len()
        invariant
            i <= message.nested@.len(),
            full@ == full_name_of(prefix@, message.name@),
            !message.map_entry,
            start == entries_view(*old(map_entries)),
            collect_nested_of(full@, message.nested@, i as int, start) == Ok::<EntriesView, Seq<char>>(
                entries_view(*map_entries),
            ),
        decreases message.nested.len() - i,
    {
        let ghost before = entries_view(*map_entries);
        let r = collect_map_entries(full.as_str(), &message.nested[i], map_entries);
        match r {
            Ok(()) => {},
            Err(e) => {
                proof {
                    assert(collect_nested_of(full@, message.nested@, i + 1, start) == Err::<
                        EntriesView,
                        Seq<char>,
                    >(e@));
                    lemma_collect_error_sticks(
                        full@,
                        message.nested@,
                        i + 1,
                        message.nested@.len() as int,
                        start,
                    );
                }
                return Err(e);
            },
        }
        proof {
            assert(collect_nested_of(full@, message.nested@, i + 1, start) == Ok::<
                EntriesView,
                Seq<char>,
            >(entries_view(*map_entries)));
        }
        i = i + 1;
    }
    Ok(())
}

/// The keyword a `.proto` file spells a field's type with.
pub open spec fn proto_type_keyword(t: FieldType) -> Seq<char> {
    match t {
        FieldType::Double => "double"@,
        FieldType::Float => "float"@,
        FieldType::Int64 => "int64"@,
        FieldType::Uint64 => "uint64"@,
        FieldType::Int32 => "int32"@,
        FieldType::Fixed64 => "fixed64"@,
        FieldType::Fixed32 => "fixed32"@,
        FieldType::Bool => "bool"@,
        FieldType::String => "string"@,
        FieldType::Group => "group"@,
        FieldType::Message => "message"@,
        FieldType::Bytes => "bytes"@,
        FieldType::Uint32 => "uint32"@,
        FieldType::Enum => "enum"@,
        FieldType::Sfixed32 => "sfixed32"@,
        FieldType::Sfixed64 => "sfixed64"@,
        FieldType::Sint32 => "sint32"@,
        FieldType::Sint64 => "sint64"@,
    }
}

/// A field's kind is the one its proto type names: every scalar type gives the kind that a
/// diagnostic describes by the type's own `.proto` keyword (`double` stays `double`, `float`
/// stays `float`, and the wire kinds the codec lacks keep their names), a message or enum field
/// gives the referenced type's name without its leading dots, and only a group is refused.
pub proof fn lemma_field_kind_is_named_by_its_type(f: FieldProto)
    ensures
        field_kind_of(f) is Err <==> f.field_type is Group,
        f.field_type is Message ==> field_kind_of(f) == Ok::<KindView, Seq<char>>(
            KindView::Message(trim_dots(f.referenced_type@)),
        ),
        f.field_type is Enum ==> field_kind_of(f) == Ok::<KindView, Seq<char>>(
            KindView::Enum(trim_dots(f.referenced_type@)),
        ),
        !(f.field_type is Group) && !(f.field_type is Message) && !(f.field_type is Enum) ==> ({
            &&& field_kind_of(f) is Ok
            &&& !(field_kind_of(f)->Ok_0 is Message) && !(field_kind_of(f)->Ok_0 is Enum)
            &&& crate::expect::kind_description_of(field_kind_of(f)->Ok_0) == proto_type_keyword(f.field_type)
        }),
{
}

} // verus!
