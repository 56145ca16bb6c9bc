//! Character-level helpers shared by the string-shaped logic of the crate: conversions between
//! `str`/`String` and character vectors, Unicode white space, and trimming.

use vstd::prelude::*;

verus! {

/// The characters of `text`, in order.
pub(crate) fn chars_of(text: &str) -> (chars: Vec<char>)
    ensures
        chars@ == text@,
{
    broadcast use vstd::string::axiom_spec_iter;

    let mut chars: Vec<char> = Vec::new();
    for c in it: text.chars()
        invariant
            it.seq() == text@,
            chars@ == it.seq().take(it.index() as int),
    {
        chars.push(c);
    }
    chars
}

/// The string spelled by `chars`, in order.
#[verifier::external_body]
pub(crate) fn string_of(chars: &[char]) -> (text: String)
    ensures
        text@ == chars@,
{
    chars.iter().collect()
}

/// Unicode's `White_Space` property, the set `char::is_whitespace` (and so `str::trim_start`
/// and `str::trim_end`) test against.
pub open spec fn is_white_space(c: char) -> bool {
    let u = c as u32;
    ||| 0x09 <= u <= 0x0D
    ||| u == 0x20
    ||| u == 0x85
    ||| u == 0xA0
    ||| u == 0x1680
    ||| 0x2000 <= u <= 0x200A
    ||| u == 0x2028
    ||| u == 0x2029
    ||| u == 0x202F
    ||| u == 0x205F
    ||| u == 0x3000
}

pub fn white_space(c: char) -> (b: bool)
    ensures
        b == is_white_space(c),
{
    let u = c as u32;
    (0x09 <= u && u <= 0x0D) || u == 0x20 || u == 0x85 || u == 0xA0 || u == 0x1680 || (0x2000
        <= u && u <= 0x200A) || u == 0x2028 || u == 0x2029 || u == 0x202F || u == 0x205F || u
        == 0x3000
}

/// `s` without its trailing white space.
pub open spec fn trim_end(s: Seq<char>) -> Seq<char>
    decreases s.len(),
{
    if s.len() > 0 && is_white_space(s.last()) {
        trim_end(s.drop_last())
    } else {
        s
    }
}

/// `s` without its leading white space.
pub open spec fn trim_start(s: Seq<char>) -> Seq<char>
    decreases s.len(),
{
    if s.len() > 0 && is_white_space(s[0]) {
        trim_start(s.drop_first())
    } else {
        s
    }
}

/// The length `s` keeps once its trailing white space is trimmed.
pub fn trimmed_end_len(s: &Vec<char>, len: usize) -> (end: usize)
    requires
        len <= s.len(),
    ensures
        end <= len,
        trim_end(s@.take(len as int)) == s@.take(end as int),
{
    let mut end = len;
    while end > 0 && white_space(s[end - 1])
        invariant
            end <= len <= s.len(),
            trim_end(s@.take(len as int)) == trim_end(s@.take(end as int)),
        decreases end,
    {
        assert(s@.take(end as int).drop_last() =~= s@.take(end - 1));
        end = end - 1;
    }
    end
}

/// Where `s` starts once its leading white space is trimmed.
pub fn trimmed_start(s: &Vec<char>) -> (start: usize)
    ensures
        start <= s.len(),
        trim_start(s@) == s@.skip(start as int),
        forall|i: int| 0 <= i < start ==> is_white_space(#[trigger] s@[i]),
{
    let mut start: usize = 0;
    assert(s@.skip(0) =~= s@);
    while start < s.len() && white_space(s[start])
        invariant
            start <= s.len(),
            trim_start(s@) == trim_start(s@.skip(start as int)),
            forall|i: int| 0 <= i < start ==> is_white_space(#[trigger] s@[i]),
        decreases s.len() - start,
    {
        assert(s@.skip(start as int).drop_first() =~= s@.skip(start + 1));
        start = start + 1;
    }
    start
}

/// The characters `s[from..to]`, copied.
pub fn copy_range(s: &Vec<char>, from: usize, to: usize) -> (out: Vec<char>)
    requires
        from <= to <= s.len(),
    ensures
        out@ == s@.subrange(from as int, to as int),
{
    let mut out: Vec<char> = Vec::new();
    let mut i = from;
    while i < to
        invariant
            from <= i <= to <= s.len(),
            out@ == s@.subrange(from as int, i as int),
        decreases to - i,
    {
        out.push(s[i]);
        assert(s@.subrange(from as int, i + 1) =~= s@.subrange(from as int, i as int).push(s@[i as int]));
        i = i + 1;
    }
    out
}

/// A copy of `s`.
pub fn copy_all(s: &Vec<char>) -> (out: Vec<char>)
    ensures
        out@ == s@,
{
    let out = copy_range(s, 0, s.len());
    assert(s@.subrange(0, s@.len() as int) =~= s@);
    out
}

/// Appends `extra` to `out`.
pub fn push_all(out: &mut Vec<char>, extra: &Vec<char>)
    ensures
        final(out)@ == old(out)@ + extra@,
{
    let mut i: usize = 0;
    while i < extra.len()
        invariant
            i <= extra.len(),
            out@ == old(out)@ + extra@.take(i as int),
        decreases extra.len() - i,
    {
        out.push(extra[i]);
        assert(extra@.take(i + 1) =~= extra@.take(i as int).push(extra@[i as int]));
        i = i + 1;
    }
    assert(extra@.take(extra.len() as int) =~= extra@);
}

/// Appends the characters of `text` to `out`.
pub fn push_str(out: &mut Vec<char>, text: &str)
    ensures
        final(out)@ == old(out)@ + text@,
{
    let chars = chars_of(text);
    push_all(out, &chars);
}

/// The decimal digits of `n`, most significant first, with no leading zero (`0` is `"0"`).
pub open spec fn decimal_of(n: nat) -> Seq<char>
    decreases n,
{
    if n < 10 {
        seq![(('0' as u32) + n) as char]
    } else {
        decimal_of(n / 10) + seq![(('0' as u32) + (n % 10)) as char]
    }
}

fn digit(d: u64) -> (c: char)
    requires
        d < 10,
    ensures
        c == (('0' as u32) + d) as char,
{
    (48u8 + (d as u8)) as char
}

/// `n` written in decimal, as `format!("{n}")` writes it.
pub fn decimal(n: u64) -> (out: Vec<char>)
    ensures
        out@ == decimal_of(n as nat),
    decreases n,
{
    if n < 10 {
        let mut out: Vec<char> = Vec::new();
        out.push(digit(n));
        out
    } else {
        let mut out = decimal(n / 10);
        out.push(digit(n % 10));
        out
    }
}

/// `n` written in decimal with its sign, as `format!("{n}")` writes an `i32`.
pub open spec fn signed_decimal_of(n: int) -> Seq<char> {
    if n < 0 {
        seq!['-'] + decimal_of((-n) as nat)
    } else {
        decimal_of(n as nat)
    }
}

/// `n` written in decimal with its sign.
pub fn signed_decimal(n: i32) -> (out: Vec<char>)
    ensures
        out@ == signed_decimal_of(n as int),
{
    if n < 0 {
        let magnitude: u64 = if n == i32::MIN {
            2147483648
        } else {
            (-n) as u64
        };
        let mut out: Vec<char> = Vec::new();
        out.push('-');
        let digits = decimal(magnitude);
        push_all(&mut out, &digits);
        out
    } else {
        decimal(n as u64)
    }
}

/// `parts` joined with `separator` between each two.
pub open spec fn join_of(parts: Seq<Seq<char>>, separator: Seq<char>) -> Seq<char>
    decreases parts.len(),
{
    if parts.len() == 0 {
        seq![]
    } else if parts.len() == 1 {
        parts[0]
    } else {
        join_of(parts.drop_last(), separator) + separator + parts.last()
    }
}

/// `parts.join(separator)`.
pub fn join(parts: &Vec<String>, separator: &str) -> (out: Vec<char>)
    ensures
        out@ == join_of(parts@.map_values(|p: String| p@), separator@),
{
    let ghost views = parts@.map_values(|p: String| p@);
    let mut out: Vec<char> = Vec::new();
    let mut i: usize = 0;
    while i < parts.len()
        invariant
            i <= parts.len(),
            views == parts@.map_values(|p: String| p@),
            out@ == join_of(views.take(i as int), separator@),
        decreases parts.len() - i,
    {
        assert(views.take(i + 1).drop_last() =~= views.take(i as int));
        if i > 0 {
            push_str(&mut out, separator);
        } else {
            assert(out@ =~= seq![]);
        }
        push_str(&mut out, parts[i].as_str());
        assert(out@ =~= join_of(views.take(i + 1), separator@));
        i = i + 1;
    }
    assert(views.take(parts.len() as int) =~= views);
    out
}

} // verus!
