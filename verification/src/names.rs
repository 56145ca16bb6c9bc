//! The naming rules Rust identifiers are matched to proto names by.
//!
//! One home, because two callers disagreeing would be invisible: a value prefix stripped by the
//! Rust type's name instead of the proto enum's still resolves, and silently harvests no comments.

use vstd::prelude::*;

use crate::text::{chars_of, string_of};

verus! {

/// What `char::is_uppercase` answers for `c` (Unicode's `Uppercase` property).
pub uninterp spec fn is_uppercase(c: char) -> bool;

/// What `char::to_lowercase` yields for `c` (Unicode's lowercase mapping, one or more characters).
pub uninterp spec fn lowercase_of(c: char) -> Seq<char>;

pub open spec fn is_ascii_upper(c: char) -> bool {
    'A' <= c <= 'Z'
}

pub open spec fn is_ascii_lower(c: char) -> bool {
    'a' <= c <= 'z'
}

pub open spec fn is_ascii_digit(c: char) -> bool {
    '0' <= c <= '9'
}

/// `c` with an ASCII upper-case letter lowered, anything else kept.
pub open spec fn ascii_lower(c: char) -> char {
    if is_ascii_upper(c) {
        ((c as u32) + 32) as char
    } else {
        c
    }
}

/// `c` with an ASCII lower-case letter raised, anything else kept.
pub open spec fn ascii_upper(c: char) -> char {
    if is_ascii_lower(c) {
        ((c as u32) - 32) as char
    } else {
        c
    }
}

/// `char::is_uppercase`.
///
/// The contract states only what the Unicode tables say of ASCII: exactly `A`..`Z` are
/// upper case there. Beyond ASCII the answer is the name `is_uppercase`.
#[verifier::external_body]
fn char_is_uppercase(c: char) -> (b: bool)
    ensures
        b == is_uppercase(c),
        (c as u32) < 128 ==> (b <==> is_ascii_upper(c)),
{
    c.is_uppercase()
}

/// `char::to_lowercase`, collected.
///
/// The contract states only what the Unicode tables say of ASCII: a letter `A`..`Z` lowers to its
/// one ASCII counterpart. Beyond that the result is the name `lowercase_of`.
#[verifier::external_body]
fn char_to_lowercase(c: char) -> (lower: Vec<char>)
    ensures
        lower@ == lowercase_of(c),
        is_ascii_upper(c) ==> lower@ == seq![ascii_lower(c)],
{
    c.to_lowercase().collect()
}

fn to_ascii_lower(c: char) -> (l: char)
    ensures
        l == ascii_lower(c),
{
    if 'A' <= c && c <= 'Z' {
        ((c as u32) + 32) as u8 as char
    } else {
        c
    }
}

fn to_ascii_upper(c: char) -> (u: char)
    ensures
        u == ascii_upper(c),
{
    if 'a' <= c && c <= 'z' {
        ((c as u32) - 32) as u8 as char
    } else {
        c
    }
}

/// Every character of `s` is ASCII.
pub open spec fn is_ascii(s: Seq<char>) -> bool {
    forall|i: int| 0 <= i < s.len() ==> (#[trigger] s[i] as u32) < 128
}

/// `HealthChecks` -> `health_checks`: every upper-case character lowered, with an underscore
/// before it unless it is the first character.
pub open spec fn snake_of(name: Seq<char>) -> Seq<char>
    decreases name.len(),
{
    if name.len() == 0 {
        seq![]
    } else {
        let head = snake_of(name.drop_last());
        let c = name.last();
        if is_uppercase(c) {
            if name.len() > 1 {
                head + seq!['_'] + lowercase_of(c)
            } else {
                head + lowercase_of(c)
            }
        } else {
            head.push(c)
        }
    }
}

/// The ASCII-only `snake_of`: the name a Rust field or variant matches a proto field by default.
pub open spec fn snake_case_of(camel: Seq<char>) -> Seq<char>
    decreases camel.len(),
{
    if camel.len() == 0 {
        seq![]
    } else {
        let head = snake_case_of(camel.drop_last());
        let c = camel.last();
        if is_ascii_upper(c) {
            if camel.len() > 1 {
                head + seq!['_', ascii_lower(c)]
            } else {
                head.push(ascii_lower(c))
            }
        } else {
            head.push(c)
        }
    }
}

/// `TASK_STATUS_CREATING` -> `TaskStatusCreating`: split on `_`, empty parts dropped, each part's
/// first character raised and the rest lowered (ASCII), the parts joined. Read left to right,
/// `at_start` says whether the next character opens a part.
pub open spec fn camel_from(s: Seq<char>, at_start: bool) -> Seq<char>
    decreases s.len(),
{
    if s.len() == 0 {
        seq![]
    } else if s[0] == '_' {
        camel_from(s.drop_first(), true)
    } else {
        let c = if at_start {
            ascii_upper(s[0])
        } else {
            ascii_lower(s[0])
        };
        seq![c] + camel_from(s.drop_first(), false)
    }
}

pub open spec fn upper_camel_of(screaming_snake: Seq<char>) -> Seq<char> {
    camel_from(screaming_snake, true)
}

/// The prost-style variant name of a proto enum value: the value upper-camelled, then stripped of
/// the enum's simple name where that prefixes it, unless stripping would leave nothing or a name
/// starting with a digit.
pub open spec fn variant_name_of(enum_simple_name: Seq<char>, value_name: Seq<char>) -> Seq<char> {
    let camel = upper_camel_of(value_name);
    let rest = camel.skip(enum_simple_name.len() as int);
    if enum_simple_name.len() <= camel.len() && camel.take(enum_simple_name.len() as int)
        == enum_simple_name && rest.len() > 0 && !is_ascii_digit(rest[0]) {
        rest
    } else {
        camel
    }
}

fn snake_chars(name: &Vec<char>) -> (out: Vec<char>)
    ensures
        out@ == snake_of(name@),
        is_ascii(name@) ==> out@ == snake_case_of(name@),
{
    let mut out: Vec<char> = Vec::new();
    let mut i: usize = 0;
    while i < name.len()
        invariant
            i <= name.len(),
            out@ == snake_of(name@.take(i as int)),
            is_ascii(name@) ==> out@ == snake_case_of(name@.take(i as int)),
        decreases name.len() - i,
    {
        let c = name[i];
        assert(name@.take(i + 1).drop_last() =~= name@.take(i as int));
        assert(name@.take(i + 1).last() == c);
        if char_is_uppercase(c) {
            if i != 0 {
                out.push('_');
            }
            let lower = char_to_lowercase(c);
            crate::text::push_all(&mut out, &lower);
        } else {
            out.push(c);
        }
        assert(out@ =~= snake_of(name@.take(i + 1)));
        proof {
            if is_ascii(name@) {
                assert((c as u32) < 128);
                assert(out@ =~= snake_case_of(name@.take(i + 1)));
            }
        }
        i = i + 1;
    }
    assert(name@.take(name.len() as int) =~= name@);
    out
}

/// `HealthChecks` -> `health_checks`. On an ASCII name it agrees with [`snake_case`].
pub fn snake(name: &str) -> (out: String)
    ensures
        out@ == snake_of(name@),
        is_ascii(name@) ==> out@ == snake_case_of(name@),
{
    let chars = chars_of(name);
    string_of(snake_chars(&chars).as_slice())
}

fn upper_camel_chars(s: &Vec<char>) -> (out: Vec<char>)
    ensures
        out@ == upper_camel_of(s@),
{
    let mut out: Vec<char> = Vec::new();
    let mut at_start = true;
    let mut i: usize = 0;
    assert(s@.skip(0) =~= s@);
    while i < s.len()
        invariant
            i <= s.len(),
            out@ + camel_from(s@.skip(i as int), at_start) == upper_camel_of(s@),
        decreases s.len() - i,
    {
        let c = s[i];
        assert(s@.skip(i as int).drop_first() =~= s@.skip(i + 1));
        assert(s@.skip(i as int)[0] == c);
        if c == '_' {
            at_start = true;
        } else {
            let d = if at_start {
                to_ascii_upper(c)
            } else {
                to_ascii_lower(c)
            };
            let ghost before = out@;
            out.push(d);
            assert(before + (seq![d] + camel_from(s@.skip(i + 1), false)) =~= out@ + camel_from(
                s@.skip(i + 1),
                false,
            ));
            at_start = false;
        }
        i = i + 1;
    }
    assert(out@ + camel_from(s@.skip(i as int), at_start) =~= out@);
    out
}

/// `TASK_STATUS_CREATING` -> `TaskStatusCreating`.
pub fn upper_camel(screaming_snake: &str) -> (out: String)
    ensures
        out@ == upper_camel_of(screaming_snake@),
{
    let chars = chars_of(screaming_snake);
    string_of(upper_camel_chars(&chars).as_slice())
}

/// The prost-style Rust variant name for a proto enum value: `TASK_STATUS_CREATING` of
/// `TaskStatus` is `Creating`.
///
/// `enum_simple_name` is the *proto* enum's simple name, never the Rust type's: they are free to
/// differ, and the proto side is what the value names are actually prefixed with.
pub fn variant_name(enum_simple_name: &str, value_name: &str) -> (out: String)
    ensures
        out@ == variant_name_of(enum_simple_name@, value_name@),
{
    let prefix = chars_of(enum_simple_name);
    let value = chars_of(value_name);
    let camel = upper_camel_chars(&value);
    let n = prefix.len();
    if n < camel.len() {
        let mut i: usize = 0;
        while i < n
            invariant
                i <= n < camel.len(),
                n == prefix.len(),
                prefix@ == enum_simple_name@,
                camel@ == upper_camel_of(value_name@),
                forall|j: int| 0 <= j < i ==> camel@[j] == prefix@[j],
            decreases n - i,
        {
            if camel[i] != prefix[i] {
                assert(camel@.take(n as int)[i as int] == camel@[i as int]);
                assert(camel@.take(n as int) != prefix@);
                return string_of(camel.as_slice());
            }
            i = i + 1;
        }
        assert(camel@.take(n as int) =~= prefix@);
        if '0' <= camel[n] && camel[n] <= '9' {
            assert(camel@.skip(n as int)[0] == camel@[n as int]);
            return string_of(camel.as_slice());
        }
        let rest = crate::text::copy_range(&camel, n, camel.len());
        assert(rest@ =~= camel@.skip(n as int));
        return string_of(rest.as_slice());
    }
    assert(camel@.skip(n as int).len() == 0 || n > camel@.len());
    string_of(camel.as_slice())
}

/// `TaskDetailed` -> `task_detailed`: the proto field name a Rust field or variant matches by
/// default. Distinct from [`snake`] only in that it is ASCII-only, which is what a proto
/// identifier is.
pub fn snake_case(camel: &str) -> (out: String)
    ensures
        out@ == snake_case_of(camel@),
{
    let name = chars_of(camel);
    let mut out: Vec<char> = Vec::new();
    let mut i: usize = 0;
    while i < name.len()
        invariant
            i <= name.len(),
            out@ == snake_case_of(name@.take(i as int)),
        decreases name.len() - i,
    {
        let c = name[i];
        assert(name@.take(i + 1).drop_last() =~= name@.take(i as int));
        assert(name@.take(i + 1).last() == c);
        if 'A' <= c && c <= 'Z' {
            if i != 0 {
                out.push('_');
            }
            out.push(to_ascii_lower(c));
        } else {
            out.push(c);
        }
        assert(out@ =~= snake_case_of(name@.take(i + 1)));
        i = i + 1;
    }
    assert(name@.take(name.len() as int) =~= name@);
    string_of(out.as_slice())
}

/// Nothing `snake_case` writes is an ASCII upper-case letter.
pub proof fn lemma_snake_case_is_lower(camel: Seq<char>)
    ensures
        forall|i: int|
            0 <= i < snake_case_of(camel).len() ==> !is_ascii_upper(#[trigger] snake_case_of(camel)[i]),
    decreases camel.len(),
{
    if camel.len() > 0 {
        lemma_snake_case_is_lower(camel.drop_last());
        let head = snake_case_of(camel.drop_last());
        let c = camel.last();
        assert forall|i: int|
            0 <= i < snake_case_of(camel).len() implies !is_ascii_upper(
            #[trigger] snake_case_of(camel)[i],
        ) by {
            if i < head.len() {
                assert(snake_case_of(camel)[i] == head[i]);
            }
        }
    }
}

/// A name with no ASCII upper-case letter is its own `snake_case`.
pub proof fn lemma_snake_case_keeps_lower(name: Seq<char>)
    requires
        forall|i: int| 0 <= i < name.len() ==> !is_ascii_upper(#[trigger] name[i]),
    ensures
        snake_case_of(name) == name,
    decreases name.len(),
{
    if name.len() > 0 {
        assert(!is_ascii_upper(name[name.len() - 1]));
        lemma_snake_case_keeps_lower(name.drop_last());
        assert(name.drop_last().push(name.last()) =~= name);
    }
}

/// `snake_case` is idempotent: a name already in snake case stays as it is.
pub proof fn lemma_snake_case_idempotent(camel: Seq<char>)
    ensures
        snake_case_of(snake_case_of(camel)) == snake_case_of(camel),
{
    lemma_snake_case_is_lower(camel);
    lemma_snake_case_keeps_lower(snake_case_of(camel));
}

proof fn lemma_camel_from_has_no_underscore(s: Seq<char>, at_start: bool)
    ensures
        forall|i: int| 0 <= i < camel_from(s, at_start).len() ==> #[trigger] camel_from(s, at_start)[i] != '_',
    decreases s.len(),
{
    if s.len() > 0 {
        lemma_camel_from_has_no_underscore(s.drop_first(), true);
        lemma_camel_from_has_no_underscore(s.drop_first(), false);
        if s[0] == '_' {
            assert(camel_from(s, at_start) == camel_from(s.drop_first(), true));
        } else {
            let c = if at_start {
                ascii_upper(s[0])
            } else {
                ascii_lower(s[0])
            };
            if at_start && is_ascii_lower(s[0]) {
                assert((((s[0] as u32) - 32) as char) as u32 == (s[0] as u32) - 32);
            } else if !at_start && is_ascii_upper(s[0]) {
                assert((((s[0] as u32) + 32) as char) as u32 == (s[0] as u32) + 32);
            }
            assert(c != '_');
            let tail = camel_from(s.drop_first(), false);
            assert forall|i: int| 0 <= i < camel_from(s, at_start).len() implies #[trigger] camel_from(
                s,
                at_start,
            )[i] != '_' by {
                if i > 0 {
                    assert(camel_from(s, at_start)[i] == tail[i - 1]);
                }
            }
        }
    }
}

/// `upper_camel` leaves no underscore: every separator is dropped.
pub proof fn lemma_upper_camel_has_no_underscore(screaming_snake: Seq<char>)
    ensures
        forall|i: int|
            0 <= i < upper_camel_of(screaming_snake).len() ==> #[trigger] upper_camel_of(
                screaming_snake,
            )[i] != '_',
{
    lemma_camel_from_has_no_underscore(screaming_snake, true);
}

/// A variant name is the upper-camelled value, or what follows the enum's name in it; a prefix is
/// only ever stripped when what is left is non-empty and does not start with a digit.
pub proof fn lemma_variant_name_strips_only_to_an_identifier(
    enum_simple_name: Seq<char>,
    value_name: Seq<char>,
)
    ensures
        ({
            let camel = upper_camel_of(value_name);
            let out = variant_name_of(enum_simple_name, value_name);
            ||| out == camel
            ||| (camel == enum_simple_name + out && out.len() > 0 && !is_ascii_digit(out[0]))
        }),
{
    let camel = upper_camel_of(value_name);
    let n = enum_simple_name.len() as int;
    if n <= camel.len() && camel.take(n) == enum_simple_name {
        assert(camel =~= camel.take(n) + camel.skip(n));
    }
}

} // verus!
