//! Error codes crossing the C ABI, and the message a failed connection reports.
//!
//! `0` is success, a gRPC status code is above zero, and the codes below zero are this ABI's own,
//! so the two ranges never collide.

use vstd::prelude::*;

use crate::text::{chars_of, is_white_space, push_all, string_of, trim_end, trimmed_end_len};

verus! {

/// A required pointer was null.
pub const AK_ERR_NULL_POINTER: i32 = -1;

/// Bytes that were supposed to be UTF-8 were not.
pub const AK_ERR_INVALID_UTF8: i32 = -2;

/// The configuration was rejected before a connection was attempted.
pub const AK_ERR_INVALID_CONFIG: i32 = -3;

/// Establishing the connection itself failed.
pub const AK_ERR_CONNECTION_FAILED: i32 = -4;

/// Code on the other side of the call panicked; the panic did not cross the ABI boundary.
pub const AK_ERR_PANIC: i32 = -5;

/// Index of the last `c` in `s`, or `-1`.
pub open spec fn last_index_of(s: Seq<char>, c: char) -> int
    decreases s.len(),
{
    if s.len() == 0 {
        -1
    } else if s.last() == c {
        s.len() - 1
    } else {
        last_index_of(s.drop_last(), c)
    }
}

/// Index of the last `" ["` in `s`, or `-1`.
pub open spec fn last_tag_start(s: Seq<char>) -> int
    decreases s.len(),
{
    if s.len() < 2 {
        -1
    } else if s[s.len() - 2] == ' ' && s[s.len() - 1] == '[' {
        s.len() - 2
    } else {
        last_tag_start(s.drop_last())
    }
}

/// A non-empty run of ASCII digits.
pub open spec fn is_digits(s: Seq<char>) -> bool {
    s.len() > 0 && forall|i: int| 0 <= i < s.len() ==> '0' <= #[trigger] s[i] <= '9'
}

/// `pattern` occurs in `s` at `at`.
pub open spec fn occurs_at(s: Seq<char>, pattern: Seq<char>, at: int) -> bool {
    0 <= at && at + pattern.len() <= s.len() && s.subrange(at, at + pattern.len()) == pattern
}

/// `pattern` occurs somewhere in `s`.
pub open spec fn contains(s: Seq<char>, pattern: Seq<char>) -> bool {
    exists|at: int| occurs_at(s, pattern, at)
}

/// `file:line:column`, read from the right: the column after the last `:`, the line between the
/// last two, and a file naming a `.rs` path before that.
pub open spec fn is_source_location(tag: Seq<char>) -> bool {
    let column_colon = last_index_of(tag, ':');
    let line_colon = last_index_of(tag.take(column_colon), ':');
    &&& column_colon >= 0
    &&& line_colon >= 0
    &&& contains(tag.take(line_colon), seq!['.', 'r', 's'])
    &&& is_digits(tag.subrange(line_colon + 1, column_colon))
    &&& is_digits(tag.skip(column_colon + 1))
}

/// `message` without a trailing ` [file.rs:line:column]`, when the text after its last `" ["` is
/// exactly such a location and a closing bracket; the text before the tag loses its trailing white
/// space too. Any other message is unchanged.
pub open spec fn strip_location_of(message: Seq<char>) -> Seq<char> {
    let at = last_tag_start(message);
    let tag = message.skip(at + 2);
    if at >= 0 && tag.len() > 0 && tag.last() == ']' && is_source_location(tag.drop_last()) {
        trim_end(message.take(at))
    } else {
        message
    }
}

/// Every message of an error chain, located tags stripped, joined with `": "`.
pub open spec fn describe_chain(messages: Seq<Seq<char>>) -> Seq<char>
    decreases messages.len(),
{
    if messages.len() == 0 {
        seq![]
    } else if messages.len() == 1 {
        strip_location_of(messages[0])
    } else {
        describe_chain(messages.drop_last()) + seq![':', ' '] + strip_location_of(messages.last())
    }
}

/// Index of the last `c` among the first `len` characters of `s`.
pub fn rfind_char(s: &Vec<char>, len: usize, c: char) -> (found: Option<usize>)
    requires
        len <= s.len(),
    ensures
        match found {
            Some(i) => i < len && last_index_of(s@.take(len as int), c) == i,
            None => last_index_of(s@.take(len as int), c) == -1,
        },
{
    let mut end = len;
    while end > 0
        invariant
            end <= len <= s.len(),
            last_index_of(s@.take(len as int), c) == last_index_of(s@.take(end as int), c),
        decreases end,
    {
        if s[end - 1] == c {
            return Some(end - 1);
        }
        assert(s@.take(end as int).drop_last() =~= s@.take(end - 1));
        end = end - 1;
    }
    None
}

/// Index of the last `" ["` in `s`.
fn rfind_tag_start(s: &Vec<char>) -> (found: Option<usize>)
    ensures
        match found {
            Some(i) => i + 2 <= s.len() && last_tag_start(s@) == i,
            None => last_tag_start(s@) == -1,
        },
{
    let mut end = s.len();
    assert(s@.take(end as int) =~= s@);
    while end >= 2
        invariant
            end <= s.len(),
            last_tag_start(s@) == last_tag_start(s@.take(end as int)),
        decreases end,
    {
        if s[end - 2] == ' ' && s[end - 1] == '[' {
            return Some(end - 2);
        }
        assert(s@.take(end as int).drop_last() =~= s@.take(end - 1));
        end = end - 1;
    }
    None
}

/// Whether `s[from..to]` is a non-empty run of ASCII digits.
fn digits_between(s: &Vec<char>, from: usize, to: usize) -> (b: bool)
    requires
        from <= to <= s.len(),
    ensures
        b == is_digits(s@.subrange(from as int, to as int)),
{
    if from == to {
        return false;
    }
    let mut i = from;
    while i < to
        invariant
            from <= i <= to <= s.len(),
            forall|j: int| from <= j < i ==> '0' <= #[trigger] s@[j] <= '9',
        decreases to - i,
    {
        if !('0' <= s[i] && s[i] <= '9') {
            assert(!('0' <= s@.subrange(from as int, to as int)[i - from] <= '9'));
            return false;
        }
        i = i + 1;
    }
    assert forall|j: int| 0 <= j < to - from implies '0' <= #[trigger] s@.subrange(
        from as int,
        to as int,
    )[j] <= '9' by {
        assert(s@.subrange(from as int, to as int)[j] == s@[from + j]);
    }
    true
}

/// Whether `.rs` occurs among the first `len` characters of `s`.
fn contains_rs(s: &Vec<char>, len: usize) -> (b: bool)
    requires
        len <= s.len(),
    ensures
        b == contains(s@.take(len as int), seq!['.', 'r', 's']),
{
    let ghost pattern = seq!['.', 'r', 's'];
    let ghost head = s@.take(len as int);
    let mut i: usize = 0;
    while len >= 3 && i <= len - 3
        invariant
            len <= s.len(),
            head == s@.take(len as int),
            pattern == seq!['.', 'r', 's'],
            forall|j: int| 0 <= j < i ==> !occurs_at(head, pattern, j),
        decreases len - i,
    {
        if s[i] == '.' && s[i + 1] == 'r' && s[i + 2] == 's' {
            assert(head[i as int] == s@[i as int]);
            assert(head[i + 1] == s@[i + 1]);
            assert(head[i + 2] == s@[i + 2]);
            assert(head.subrange(i as int, i + 3) =~= pattern);
            assert(occurs_at(head, pattern, i as int));
            return true;
        }
        assert(!occurs_at(head, pattern, i as int)) by {
            if occurs_at(head, pattern, i as int) {
                assert(head.subrange(i as int, i + 3)[0] == head[i as int]);
                assert(head.subrange(i as int, i + 3)[1] == head[i + 1]);
                assert(head.subrange(i as int, i + 3)[2] == head[i + 2]);
            }
        }
        i = i + 1;
    }
    assert forall|j: int| !occurs_at(head, pattern, j) by {
        if 0 <= j && j >= i {
            assert(j + 3 > len);
        }
    }
    false
}

/// Whether `s[from..to]` (with no closing bracket) names a source location.
fn location_between(s: &Vec<char>, from: usize, to: usize) -> (b: bool)
    requires
        from <= to <= s.len(),
    ensures
        b == is_source_location(s@.subrange(from as int, to as int)),
{
    let tag = crate::text::copy_range(s, from, to);
    let column_colon = match rfind_char(&tag, tag.len(), ':') {
        Some(i) => i,
        None => {
            assert(tag@.take(tag@.len() as int) =~= tag@);
            return false;
        },
    };
    assert(tag@.take(tag@.len() as int) =~= tag@);
    let line_colon = match rfind_char(&tag, column_colon, ':') {
        Some(i) => i,
        None => return false,
    };
    assert(tag@.take(column_colon as int).take(line_colon as int) =~= tag@.take(line_colon as int));
    assert(tag@.take(column_colon as int).subrange(line_colon + 1, column_colon as int)
        =~= tag@.subrange(line_colon + 1, column_colon as int));
    assert(tag@.skip(column_colon + 1) =~= tag@.subrange(column_colon + 1, tag@.len() as int));
    contains_rs(&tag, line_colon) && digits_between(&tag, line_colon + 1, column_colon)
        && digits_between(&tag, column_colon + 1, tag.len())
}

fn strip_location_chars(message: &Vec<char>) -> (out: Vec<char>)
    ensures
        out@ == strip_location_of(message@),
{
    let at = match rfind_tag_start(message) {
        Some(at) => at,
        None => return crate::text::copy_all(message),
    };
    let len = message.len();
    let ghost tag = message@.skip(at + 2);
    if at + 2 < len && message[len - 1] == ']' {
        assert(tag.last() == message@[len - 1]);
        assert(tag.drop_last() =~= message@.subrange(at + 2, len - 1));
        if location_between(message, at + 2, len - 1) {
            let end = trimmed_end_len(message, at);
            return crate::text::copy_range(message, 0, end);
        }
    }
    crate::text::copy_all(message)
}

/// `message` without a trailing ` [file.rs:line:column]` source-location tag, if the whole string
/// ends with one.
///
/// Only a suffix shaped exactly like a location is stripped, so a message ending in brackets for
/// another reason (an IPv6 address, say) is left alone.
pub fn strip_location(message: &str) -> (out: String)
    ensures
        out@ == strip_location_of(message@),
{
    let chars = chars_of(message);
    let stripped = strip_location_chars(&chars);
    string_of(stripped.as_slice())
}

/// Whether `tag` reads as `file.rs:line:column`.
pub fn looks_like_a_source_location(tag: &str) -> (b: bool)
    ensures
        b == is_source_location(tag@),
{
    let chars = chars_of(tag);
    assert(chars@.subrange(0, chars@.len() as int) =~= chars@);
    location_between(&chars, 0, chars.len())
}

/// An error and every cause behind it, each on the same line after `": "`, with the source
/// locations the messages embed stripped.
///
/// `chain[0]` is the error's own message and each following entry the message of the cause behind
/// the previous one.
pub fn describe(chain: &Vec<String>) -> (message: String)
    ensures
        message@ == describe_chain(chain@.map_values(|m: String| m@)),
{
    let ghost messages = chain@.map_values(|m: String| m@);
    let mut out: Vec<char> = Vec::new();
    let mut i: usize = 0;
    while i < chain.len()
        invariant
            i <= chain.len(),
            messages == chain@.map_values(|m: String| m@),
            out@ == describe_chain(messages.take(i as int)),
        decreases chain.len() - i,
    {
        let part = strip_location_chars(&chars_of(chain[i].as_str()));
        assert(messages.take(i + 1).drop_last() =~= messages.take(i as int));
        if i > 0 {
            out.push(':');
            out.push(' ');
        } else {
            assert(out@ =~= seq![]);
        }
        push_all(&mut out, &part);
        assert(out@ =~= describe_chain(messages.take(i + 1)));
        i = i + 1;
    }
    assert(messages.take(chain.len() as int) =~= messages);
    string_of(out.as_slice())
}

proof fn lemma_trim_end_is_prefix(s: Seq<char>)
    ensures
        trim_end(s).len() <= s.len(),
        s.take(trim_end(s).len() as int) == trim_end(s),
    decreases s.len(),
{
    if s.len() > 0 && is_white_space(s.last()) {
        lemma_trim_end_is_prefix(s.drop_last());
        assert(s.drop_last().take(trim_end(s).len() as int) =~= s.take(trim_end(s).len() as int));
    } else {
        assert(s.take(s.len() as int) =~= s);
    }
}

proof fn lemma_last_tag_start_bounds(s: Seq<char>)
    ensures
        -1 <= last_tag_start(s),
        last_tag_start(s) >= 0 ==> last_tag_start(s) + 2 <= s.len(),
        last_tag_start(s) >= 0 ==> s[last_tag_start(s)] == ' ' && s[last_tag_start(s) + 1] == '[',
    decreases s.len(),
{
    if s.len() >= 2 && !(s[s.len() - 2] == ' ' && s[s.len() - 1] == '[') {
        lemma_last_tag_start_bounds(s.drop_last());
    }
}

/// Stripping a location only ever cuts the message short: what is left is a prefix of it.
pub proof fn lemma_strip_location_is_prefix(message: Seq<char>)
    ensures
        strip_location_of(message).len() <= message.len(),
        message.take(strip_location_of(message).len() as int) == strip_location_of(message),
{
    let at = last_tag_start(message);
    lemma_last_tag_start_bounds(message);
    if strip_location_of(message) != message {
        let kept = message.take(at);
        lemma_trim_end_is_prefix(kept);
        assert(message.take(trim_end(kept).len() as int) =~= kept.take(trim_end(kept).len() as int));
    } else {
        assert(message.take(message.len() as int) =~= message);
    }
}

/// A message that does not end in `]` carries no location to strip, and is left as it is.
pub proof fn lemma_strip_location_needs_a_bracket(message: Seq<char>)
    requires
        message.len() == 0 || message.last() != ']',
    ensures
        strip_location_of(message) == message,
{
    let at = last_tag_start(message);
    lemma_last_tag_start_bounds(message);
    if at >= 0 {
        let tag = message.skip(at + 2);
        if tag.len() > 0 {
            assert(tag.last() == message.last());
        }
    }
}

proof fn lemma_last_tag_start_at(s: Seq<char>, k: int)
    requires
        0 <= k,
        k + 2 <= s.len(),
        s[k] == ' ',
        s[k + 1] == '[',
        forall|i: int| k + 1 < i < s.len() ==> s[i] != '[',
    ensures
        last_tag_start(s) == k,
    decreases s.len(),
{
    if s.len() > k + 2 {
        assert(s[s.len() - 1] != '[');
        assert forall|i: int| k + 1 < i < s.drop_last().len() implies s.drop_last()[i] != '[' by {
            assert(s.drop_last()[i] == s[i]);
        }
        lemma_last_tag_start_at(s.drop_last(), k);
    }
}

/// A message followed by a space and a bracketed source location, with no other `[` inside the
/// location, loses that tag and the white space before it.
pub proof fn lemma_strip_location_drops_the_tag(message: Seq<char>, location: Seq<char>)
    requires
        is_source_location(location),
        forall|i: int| 0 <= i < location.len() ==> location[i] != '[',
    ensures
        strip_location_of(message + seq![' ', '['] + location + seq![']']) == trim_end(message),
{
    let s = message + seq![' ', '['] + location + seq![']'];
    let k = message.len() as int;
    assert forall|i: int| k + 1 < i < s.len() implies s[i] != '[' by {
        if i < s.len() - 1 {
            assert(s[i] == location[i - k - 2]);
        }
    }
    lemma_last_tag_start_at(s, k);
    assert(s.skip(k + 2) =~= location + seq![']']);
    assert((location + seq![']']).drop_last() =~= location);
    assert(s.take(k) =~= message);
}

} // verus!
