//! The protobuf descriptor, as the expansions see it: every message, enum and service, flattened
//! out of its file and nesting structure and keyed by full name without leading dot.

use vstd::prelude::*;

verus! {

/// Scalar/wire kind of a protobuf field, mirrored from the descriptor.
pub enum FieldKind {
    Double,
    Float,
    Int32,
    Int64,
    UInt32,
    UInt64,
    Bool,
    String,
    Bytes,
    /// Full name of the message type, without leading dot.
    Message(String),
    /// Full name of the enum type, without leading dot.
    Enum(String),
    /// A wire kind the codec does not implement (`sint*`, `fixed*`, `sfixed*`), by its proto name.
    Unsupported(String),
}

/// Cardinality of a protobuf field.
pub enum Cardinality {
    /// Singular proto3 field: implicit presence.
    Singular,
    /// `optional` proto3 field: explicit presence.
    Optional,
    /// Repeated field.
    Repeated,
    /// Map field, folded from its synthetic `*Entry` message.
    MapOf { key: FieldKind, value: FieldKind },
}

/// A field of a protobuf message.
pub struct FieldMeta {
    pub name: String,
    pub tag: u32,
    pub kind: FieldKind,
    pub cardinality: Cardinality,
    /// Leading comment from the proto, cleaned up line by line.
    pub docs: Vec<String>,
    /// Index into [`MessageMeta::oneofs`] when the field is a member of a real oneof.
    pub oneof: Option<usize>,
}

/// A oneof declaration and the fields belonging to it.
pub struct OneofMeta {
    pub name: String,
    /// Indices into [`MessageMeta::fields`].
    pub fields: Vec<usize>,
}

/// A protobuf message.
pub struct MessageMeta {
    pub fields: Vec<FieldMeta>,
    pub oneofs: Vec<OneofMeta>,
    /// Leading comment from the proto, cleaned up line by line.
    pub docs: Vec<String>,
}

/// A protobuf enum.
pub struct EnumMeta {
    /// Pairs of (full proto value name, numeric value), in declaration order.
    pub values: Vec<(String, i32)>,
    /// Leading comment from the proto, cleaned up line by line.
    pub docs: Vec<String>,
    /// Per-value leading comments, parallel to `values`.
    pub value_docs: Vec<Vec<String>>,
}

/// An RPC of a protobuf service.
pub struct MethodMeta {
    pub name: String,
    /// Full name of the input message, without leading dot.
    pub input: String,
    /// Full name of the output message, without leading dot.
    pub output: String,
    pub client_streaming: bool,
    pub server_streaming: bool,
    /// Leading comment from the proto, cleaned up line by line.
    pub docs: Vec<String>,
}

/// A protobuf service.
pub struct ServiceMeta {
    pub methods: Vec<MethodMeta>,
    pub docs: Vec<String>,
}

/// The views of a list of strings.
pub open spec fn strings_view(v: Seq<String>) -> Seq<Seq<char>> {
    v.map_values(|s: String| s@)
}

/// Index of the entry named `name` in `entries`, the first one if several are.
pub open spec fn position_of<T>(entries: Seq<(String, T)>, name: Seq<char>) -> Option<int> {
    if exists|i: int| 0 <= i < entries.len() && (#[trigger] entries[i]).0@ == name {
        Some(
            choose|i: int|
                0 <= i < entries.len() && entries[i].0@ == name && forall|j: int|
                    0 <= j < i ==> (#[trigger] entries[j]).0@ != name,
        )
    } else {
        None
    }
}

/// No two entries share a name.
pub open spec fn unique_names<T>(entries: Seq<(String, T)>) -> bool {
    forall|i: int, j: int|
        0 <= i < entries.len() && 0 <= j < entries.len() && i != j ==> (#[trigger] entries[i]).0@
            != (#[trigger] entries[j]).0@
}

/// Every message, enum and service in the descriptor set, keyed by full name without leading dot
/// (e.g. `armonik.api.grpc.v1.TaskOptions`), each name at most once per kind.
pub struct DescriptorIndex {
    pub fingerprint: u64,
    pub messages: Vec<(String, MessageMeta)>,
    pub enums: Vec<(String, EnumMeta)>,
    pub services: Vec<(String, ServiceMeta)>,
}

impl DescriptorIndex {
    pub open spec fn wf(&self) -> bool {
        &&& unique_names(self.messages@)
        &&& unique_names(self.enums@)
        &&& unique_names(self.services@)
    }
}

/// The entries as a map from name to value, the first entry for a name counting.
pub open spec fn entries_map<T>(entries: Seq<(String, T)>) -> Map<Seq<char>, T> {
    Map::new(
        |k: Seq<char>| position_of(entries, k) is Some,
        |k: Seq<char>| entries[position_of(entries, k)->0].1,
    )
}

/// With names unique, the entry named `k` is the one at the only index that carries it.
pub proof fn lemma_position_unique<T>(entries: Seq<(String, T)>, k: Seq<char>, i: int)
    requires
        unique_names(entries),
        0 <= i < entries.len(),
        entries[i].0@ == k,
    ensures
        position_of(entries, k) == Some(i),
{
    assert(0 <= i < entries.len() && (#[trigger] entries[i]).0@ == k);
    let c = choose|c: int|
        0 <= c < entries.len() && entries[c].0@ == k && forall|j: int|
            0 <= j < c ==> (#[trigger] entries[j]).0@ != k;
    assert(0 <= c < entries.len() && entries[c].0@ == k);
    if c != i {
        assert(entries[c].0@ != entries[i].0@);
    }
}

/// No entry carries `k`: the name is absent.
pub proof fn lemma_position_none<T>(entries: Seq<(String, T)>, k: Seq<char>)
    requires
        forall|j: int| 0 <= j < entries.len() ==> (#[trigger] entries[j]).0@ != k,
    ensures
        position_of(entries, k) is None,
{
}

/// Sets `name` to `value`: the entry of that name is replaced where there is one, else a new
/// entry is added at the end.
pub fn insert_entry<T>(entries: &mut Vec<(String, T)>, name: String, value: T)
    requires
        unique_names(old(entries)@),
    ensures
        unique_names(final(entries)@),
        entries_map(final(entries)@) == entries_map(old(entries)@).insert(name@, value),
{
    let ghost before = entries@;
    let ghost key = name@;
    match find_entry(entries, name.as_str()) {
        Some(i) => {
            entries.set(i, (name, value));
            let ghost after = entries@;
            assert forall|a: int, b: int|
                0 <= a < after.len() && 0 <= b < after.len() && a != b implies (#[trigger] after[a]).0@
                != (#[trigger] after[b]).0@ by {
                assert(before[a].0@ == after[a].0@);
                assert(before[b].0@ == after[b].0@);
            }
            assert forall|k: Seq<char>|
                #![trigger entries_map(after).dom().contains(k)]
                #![trigger entries_map(after)[k]]
                #![trigger entries_map(before).insert(key, value).dom().contains(k)]
                entries_map(after).dom().contains(k) == entries_map(before).insert(key, value).dom().contains(k)
                && (entries_map(after).dom().contains(k) ==> entries_map(after)[k] == entries_map(
                before,
            ).insert(key, value)[k]) by {
                if k == key {
                    lemma_position_unique(after, k, i as int);
                } else {
                    match position_of(before, k) {
                        Some(p) => {
                            assert(before[p].0@ == k);
                            assert(p != i);
                            assert(after[p] == before[p]);
                            lemma_position_unique(after, k, p);
                        },
                        None => {
                            assert forall|j: int| 0 <= j < after.len() implies (#[trigger] after[j]).0@
                                != k by {
                                if j != i && after[j].0@ == k {
                                    assert(before[j] == after[j]);
                                    assert(0 <= j < before.len() && (#[trigger] before[j]).0@ == k);
                                }
                            }
                            lemma_position_none(after, k);
                        },
                    }
                }
            }
            assert(entries_map(after) =~= entries_map(before).insert(key, value));
        },
        None => {
            assert forall|j: int| 0 <= j < before.len() implies (#[trigger] before[j]).0@ != key by {
                if before[j].0@ == key {
                    assert(0 <= j < before.len() && (#[trigger] before[j]).0@ == key);
                }
            }
            entries.push((name, value));
            let ghost after = entries@;
            assert forall|a: int, b: int|
                0 <= a < after.len() && 0 <= b < after.len() && a != b implies (#[trigger] after[a]).0@
                != (#[trigger] after[b]).0@ by {
                if a < before.len() {
                    assert(after[a] == before[a]);
                }
                if b < before.len() {
                    assert(after[b] == before[b]);
                }
            }
            assert forall|k: Seq<char>|
                #![trigger entries_map(after).dom().contains(k)]
                #![trigger entries_map(after)[k]]
                #![trigger entries_map(before).insert(key, value).dom().contains(k)]
                entries_map(after).dom().contains(k) == entries_map(before).insert(key, value).dom().contains(k)
                && (entries_map(after).dom().contains(k) ==> entries_map(after)[k] == entries_map(
                before,
            ).insert(key, value)[k]) by {
                if k == key {
                    lemma_position_unique(after, k, before.len() as int);
                } else {
                    match position_of(before, k) {
                        Some(p) => {
                            assert(before[p].0@ == k);
                            assert(after[p] == before[p]);
                            lemma_position_unique(after, k, p);
                        },
                        None => {
                            assert forall|j: int| 0 <= j < after.len() implies (#[trigger] after[j]).0@
                                != k by {
                                if j < before.len() && after[j].0@ == k {
                                    assert(before[j] == after[j]);
                                    assert(0 <= j < before.len() && (#[trigger] before[j]).0@ == k);
                                }
                            }
                            lemma_position_none(after, k);
                        },
                    }
                }
            }
            assert(entries_map(after) =~= entries_map(before).insert(key, value));
        },
    }
}

/// Where `name` sits in `entries`.
pub fn find_entry<T>(entries: &Vec<(String, T)>, name: &str) -> (found: Option<usize>)
    ensures
        match found {
            Some(i) => i < entries@.len() && position_of(entries@, name@) == Some(i as int)
                && entries@[i as int].0@ == name@,
            None => position_of(entries@, name@) is None,
        },
{
    let mut i: usize = 0;
    while i < entries.len()
        invariant
            i <= entries.len(),
            forall|j: int| 0 <= j < i ==> (#[trigger] entries@[j]).0@ != name@,
        decreases entries.len() - i,
    {
        if string_eq(&entries[i].0, name) {
            let ghost witness = i as int;
            assert(0 <= witness < entries@.len() && entries@[witness].0@ == name@);
            let ghost chosen = choose|k: int|
                0 <= k < entries@.len() && entries@[k].0@ == name@ && forall|j: int|
                    0 <= j < k ==> (#[trigger] entries@[j]).0@ != name@;
            assert(0 <= chosen < entries@.len() && entries@[chosen].0@ == name@ && forall|j: int|
                0 <= j < chosen ==> (#[trigger] entries@[j]).0@ != name@);
            assert(chosen == witness) by {
                if chosen < witness {
                } else if chosen > witness {
                }
            }
            return Some(i);
        }
        i = i + 1;
    }
    None
}

/// `a == b`, compared by characters.
pub fn string_eq(a: &String, b: &str) -> (eq: bool)
    ensures
        eq == (a@ == b@),
{
    let x = crate::text::chars_of(a.as_str());
    let y = crate::text::chars_of(b);
    chars_eq(&x, &y)
}

/// `a == b`, compared by characters.
pub fn chars_eq(x: &Vec<char>, y: &Vec<char>) -> (eq: bool)
    ensures
        eq == (x@ == y@),
{
    if x.len() != y.len() {
        return false;
    }
    let mut i: usize = 0;
    while i < x.len()
        invariant
            i <= x.len() == y.len(),
            forall|j: int| 0 <= j < i ==> x@[j] == y@[j],
        decreases x.len() - i,
    {
        if x[i] != y[i] {
            return false;
        }
        i = i + 1;
    }
    assert(x@ =~= y@);
    true
}

/// A copy of a list of strings.
pub fn clone_strings(v: &Vec<String>) -> (out: Vec<String>)
    ensures
        strings_view(out@) == strings_view(v@),
{
    let mut out: Vec<String> = Vec::new();
    let mut i: usize = 0;
    while i < v.len()
        invariant
            i <= v.len(),
            strings_view(out@) =~= strings_view(v@.take(i as int)),
        decreases v.len() - i,
    {
        out.push(v[i].clone());
        assert(strings_view(v@.take(i + 1)) =~= strings_view(v@.take(i as int)).push(v@[i as int]@));
        i = i + 1;
    }
    assert(v@.take(v.len() as int) =~= v@);
    out
}

impl MessageMeta {
    /// The oneof named `name`, with its index.
    pub fn oneof(&self, name: &str) -> (found: Option<(usize, &OneofMeta)>)
        ensures
            match found {
                Some((i, oneof)) => i < self.oneofs@.len() && *oneof == self.oneofs@[i as int]
                    && oneof.name@ == name@ && forall|j: int|
                    0 <= j < i ==> (#[trigger] self.oneofs@[j]).name@ != name@,
                None => forall|j: int|
                    0 <= j < self.oneofs@.len() ==> (#[trigger] self.oneofs@[j]).name@ != name@,
            },
    {
        let mut i: usize = 0;
        while i < self.oneofs.len()
            invariant
                i <= self.oneofs@.len(),
                forall|j: int| 0 <= j < i ==> (#[trigger] self.oneofs@[j]).name@ != name@,
            decreases self.oneofs.len() - i,
        {
            if string_eq(&self.oneofs[i].name, name) {
                return Some((i, &self.oneofs[i]));
            }
            i = i + 1;
        }
        None
    }
}

impl DescriptorIndex {
    /// Leading comment of a message, for the type that stands for it. Empty for a type that names
    /// no message and for a name the descriptor does not have.
    pub fn message_docs(&self, name: Option<&str>) -> (docs: Vec<String>)
        ensures
            strings_view(docs@) == match name {
                Some(name) => match position_of(self.messages@, name@) {
                    Some(i) => strings_view(self.messages@[i].1.docs@),
                    None => Seq::<Seq<char>>::empty(),
                },
                None => Seq::<Seq<char>>::empty(),
            },
    {
        match name {
            Some(name) => match find_entry(&self.messages, name) {
                Some(i) => clone_strings(&self.messages[i].1.docs),
                None => {
                    let v: Vec<String> = Vec::new();
                    assert(strings_view(v@) =~= Seq::<Seq<char>>::empty());
                    v
                },
            },
            None => {
                let v: Vec<String> = Vec::new();
                assert(strings_view(v@) =~= Seq::<Seq<char>>::empty());
                v
            },
        }
    }
}

} // verus!
