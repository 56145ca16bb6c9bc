//! Proto comments turned into rustdoc prose: line splitting, the javadoc `*` margin, and the
//! escapes that keep a harvested comment from opening a code block or a link.

use vstd::prelude::*;

use crate::text::{
    chars_of, copy_all, copy_range, is_white_space, push_all, string_of, trim_end, trim_start,
    trimmed_end_len, trimmed_start,
};

verus! {

/// The most leading indentation CommonMark allows before it opens an indented code block.
pub const MAX_INDENT: usize = 3;

/// The column a run of leading white space reaches, measured the way CommonMark measures it: a
/// tab advances to the next multiple of four, anything else by one.
pub open spec fn indent_width(prefix: Seq<char>) -> nat
    decreases prefix.len(),
{
    if prefix.len() == 0 {
        0
    } else {
        let width = indent_width(prefix.drop_last());
        if prefix.last() == '\t' {
            (width + 4 - width % 4) as nat
        } else {
            width + 1
        }
    }
}

/// Length of the run of backticks starting at `at`.
pub open spec fn run_len(s: Seq<char>, at: int) -> nat
    decreases s.len() - at,
{
    if 0 <= at < s.len() && s[at] == '`' {
        1 + run_len(s, at + 1)
    } else {
        0
    }
}

/// Where the first run of exactly `len` backticks at or after `from` starts, runs being read whole
/// from the left.
pub open spec fn closing_of(s: Seq<char>, from: int, len: nat) -> Option<int>
    decreases s.len() - from,
{
    if from < 0 || from >= s.len() {
        None
    } else if s[from] != '`' {
        closing_of(s, from + 1, len)
    } else {
        let run = run_len(s, from);
        if run == len {
            Some(from)
        } else {
            let next = from + run_len_pos(s, from);
            if next > s.len() {
                None
            } else {
                closing_of(s, next, len)
            }
        }
    }
}

/// `run_len`, clamped to at least one so that a scan always moves.
pub open spec fn run_len_pos(s: Seq<char>, at: int) -> nat {
    if run_len(s, at) == 0 {
        1
    } else {
        run_len(s, at)
    }
}

/// Characters rustdoc would read as markup that can break a build: a link, an HTML tag, an escape.
pub open spec fn needs_escape(c: char) -> bool {
    c == '[' || c == '<' || c == '\\'
}

/// `body` from `at` on, with every `[`, `<` and `\` outside a code span escaped. A run of
/// backticks and everything up to its matching closing run is copied through; an unmatched run is
/// copied alone, and what follows it is prose again.
pub open spec fn escape_from(body: Seq<char>, at: int) -> Seq<char>
    decreases body.len() - at,
{
    if at < 0 || at >= body.len() {
        seq![]
    } else if body[at] == '`' {
        let run = run_len_pos(body, at);
        let end = match closing_of(body, at + run, run) {
            Some(close) => close + run,
            None => at + run,
        };
        if end <= at || end > body.len() {
            seq![]
        } else {
            body.subrange(at, end) + escape_from(body, end)
        }
    } else if needs_escape(body[at]) {
        seq!['\\', body[at]] + escape_from(body, at + 1)
    } else {
        seq![body[at]] + escape_from(body, at + 1)
    }
}

/// A fence opener: three backticks or three tildes.
pub open spec fn starts_with_fence(s: Seq<char>) -> bool {
    s.len() >= 3 && ((s[0] == '`' && s[1] == '`' && s[2] == '`') || (s[0] == '~' && s[1] == '~'
        && s[2] == '~'))
}

pub open spec fn spaces(n: nat) -> Seq<char> {
    Seq::new(n, |i: int| ' ')
}

/// One harvested line rendered as inert prose: leading indentation clamped to `MAX_INDENT`
/// spaces, a leading fence escaped, and `[`, `<`, `\` escaped outside code spans.
pub open spec fn escape_prose_of(line: Seq<char>) -> Seq<char> {
    let body = trim_start(line);
    let indent = indent_width(line.take(line.len() - body.len()));
    let clamped = if indent < MAX_INDENT {
        indent
    } else {
        MAX_INDENT as nat
    };
    let fence = if starts_with_fence(body) {
        seq!['\\']
    } else {
        seq![]
    };
    spaces(clamped) + fence + escape_from(body, 0)
}

proof fn lemma_run_len_bound(s: Seq<char>, at: int)
    requires
        0 <= at,
    ensures
        at + run_len(s, at) <= if at <= s.len() {
            s.len() as int
        } else {
            at
        },
        forall|j: int| at <= j < at + run_len(s, at) ==> s[j] == '`',
        at + run_len(s, at) < s.len() ==> s[at + run_len(s, at)] != '`',
    decreases s.len() - at,
{
    if 0 <= at < s.len() && s[at] == '`' {
        lemma_run_len_bound(s, at + 1);
    }
}

proof fn lemma_closing_bounds(s: Seq<char>, from: int, len: nat)
    requires
        0 <= from,
    ensures
        match closing_of(s, from, len) {
            Some(i) => from <= i < s.len() && run_len(s, i) == len && i + len <= s.len(),
            None => true,
        },
    decreases s.len() - from,
{
    if 0 <= from < s.len() {
        if s[from] != '`' {
            lemma_closing_bounds(s, from + 1, len);
        } else {
            lemma_run_len_bound(s, from);
            let next = from + run_len_pos(s, from);
            if next <= s.len() && run_len(s, from) != len {
                lemma_closing_bounds(s, next, len);
            }
        }
    }
}

/// Length of the run of backticks starting at `at`.
pub fn backtick_run(bytes: &[char], at: usize) -> (run: usize)
    requires
        at <= bytes@.len(),
    ensures
        run == run_len(bytes@, at as int),
        at + run <= bytes@.len(),
{
    proof {
        lemma_run_len_bound(bytes@, at as int);
    }
    let mut end = at;
    while end < bytes.len() && bytes[end] == '`'
        invariant
            at <= end <= bytes@.len(),
            run_len(bytes@, at as int) == (end - at) + run_len(bytes@, end as int),
        decreases bytes@.len() - end,
    {
        end = end + 1;
    }
    end - at
}

/// Where the run of exactly `len` backticks that closes this code span starts, if there is one.
pub fn closing_run(bytes: &[char], from: usize, len: usize) -> (close: Option<usize>)
    requires
        from <= bytes@.len(),
    ensures
        match closing_of(bytes@, from as int, len as nat) {
            Some(i) => close == Some(i as usize) && from <= i && i + len <= bytes@.len(),
            None => close is None,
        },
{
    proof {
        lemma_closing_bounds(bytes@, from as int, len as nat);
    }
    let mut at = from;
    while at < bytes.len()
        invariant
            from <= at <= bytes@.len(),
            closing_of(bytes@, from as int, len as nat) == closing_of(bytes@, at as int, len as nat),
        decreases bytes@.len() - at,
    {
        if bytes[at] != '`' {
            at = at + 1;
            continue;
        }
        let run = backtick_run(bytes, at);
        if run == len {
            return Some(at);
        }
        at = at + run;
    }
    None
}

proof fn lemma_indent_monotone(p: Seq<char>, j: int, k: int)
    requires
        0 <= j <= k <= p.len(),
    ensures
        indent_width(p.take(j)) <= indent_width(p.take(k)),
    decreases k - j,
{
    if j < k {
        lemma_indent_monotone(p, j, k - 1);
        assert(p.take(k).drop_last() =~= p.take(k - 1));
    }
}

/// `min(indent_width(s[..len]), MAX_INDENT)`.
fn clamped_indent(s: &Vec<char>, len: usize) -> (indent: usize)
    requires
        len <= s.len(),
    ensures
        indent == if indent_width(s@.take(len as int)) < MAX_INDENT {
            indent_width(s@.take(len as int))
        } else {
            MAX_INDENT as nat
        },
{
    let mut width: usize = 0;
    let mut i: usize = 0;
    assert(s@.take(0) =~= seq![]);
    while i < len && width < MAX_INDENT
        invariant
            i <= len <= s.len(),
            width == indent_width(s@.take(i as int)),
        decreases len - i,
    {
        assert(s@.take(i + 1).drop_last() =~= s@.take(i as int));
        if s[i] == '\t' {
            width = width + 4 - width % 4;
        } else {
            width = width + 1;
        }
        i = i + 1;
    }
    if width >= MAX_INDENT {
        proof {
            lemma_indent_monotone(s@, i as int, len as int);
        }
        MAX_INDENT
    } else {
        width
    }
}

/// `escape_from(body, 0)`.
fn escape_body(body: &Vec<char>) -> (out: Vec<char>)
    ensures
        out@ == escape_from(body@, 0),
{
    let mut out: Vec<char> = Vec::new();
    let mut at: usize = 0;
    while at < body.len()
        invariant
            at <= body.len(),
            escape_from(body@, 0) == out@ + escape_from(body@, at as int),
        decreases body.len() - at,
    {
        let c = body[at];
        if c == '`' {
            let run = backtick_run(body.as_slice(), at);
            assert(run_len(body@, at as int) == 1 + run_len(body@, at + 1));
            let end = match closing_run(body.as_slice(), at + run, run) {
                Some(close) => close + run,
                None => at + run,
            };
            assert(run_len_pos(body@, at as int) == run);
            assert(end == match closing_of(body@, at + run, run as nat) {
                Some(close) => close + run,
                None => at + run,
            });
            assert(at < end <= body@.len());
            assert(escape_from(body@, at as int) == body@.subrange(at as int, end as int)
                + escape_from(body@, end as int));
            let piece = copy_range(body, at, end);
            let ghost before = out@;
            push_all(&mut out, &piece);
            assert(before + (body@.subrange(at as int, end as int) + escape_from(body@, end as int))
                =~= out@ + escape_from(body@, end as int));
            at = end;
        } else if c == '[' || c == '<' || c == '\\' {
            let ghost before = out@;
            out.push('\\');
            out.push(c);
            assert(before + (seq!['\\', c] + escape_from(body@, at + 1)) =~= out@ + escape_from(
                body@,
                at + 1,
            ));
            at = at + 1;
        } else {
            let ghost before = out@;
            out.push(c);
            assert(before + (seq![c] + escape_from(body@, at + 1)) =~= out@ + escape_from(
                body@,
                at + 1,
            ));
            at = at + 1;
        }
    }
    assert(out@ + escape_from(body@, at as int) =~= out@);
    out
}

fn escape_prose_chars(line: &Vec<char>) -> (out: Vec<char>)
    ensures
        out@ == escape_prose_of(line@),
{
    let start = trimmed_start(line);
    let body = copy_range(line, start, line.len());
    assert(body@ =~= trim_start(line@));
    assert(line@.len() - body@.len() == start);
    let indent = clamped_indent(line, start);
    let mut out: Vec<char> = Vec::new();
    let mut i: usize = 0;
    while i < indent
        invariant
            i <= indent,
            out@ =~= spaces(i as nat),
        decreases indent - i,
    {
        out.push(' ');
        i = i + 1;
    }
    let fence = body.len() >= 3 && ((body[0] == '`' && body[1] == '`' && body[2] == '`') || (
    body[0] == '~' && body[1] == '~' && body[2] == '~'));
    if fence {
        out.push('\\');
    }
    let ghost head = out@;
    let escaped = escape_body(&body);
    push_all(&mut out, &escaped);
    assert(out@ =~= escape_prose_of(line@));
    out
}

/// Render one harvested line as inert prose.
///
/// Indentation is clamped below the four columns that open a CommonMark indented code block
/// (which rustdoc would compile as a doctest), a leading fence is escaped, and `[`, `<` and `\`
/// are escaped outside code spans. Code spans are copied through untouched.
pub fn escape_prose(line: &str) -> (out: String)
    ensures
        out@ == escape_prose_of(line@),
{
    let chars = chars_of(line);
    string_of(escape_prose_chars(&chars).as_slice())
}

/// `line` without one trailing carriage return.
pub open spec fn strip_cr(line: Seq<char>) -> Seq<char> {
    if line.len() > 0 && line.last() == '\r' {
        line.drop_last()
    } else {
        line
    }
}

/// The lines of `s` as `str::lines` reads them, `current` being the unterminated line read so far:
/// split after every `\n`, a `\r\n` ending counting as one, and a final empty piece dropped.
pub open spec fn lines_from(s: Seq<char>, current: Seq<char>) -> Seq<Seq<char>>
    decreases s.len(),
{
    if s.len() == 0 {
        if current.len() == 0 {
            seq![]
        } else {
            seq![current]
        }
    } else if s[0] == '\n' {
        seq![strip_cr(current)] + lines_from(s.drop_first(), seq![])
    } else {
        lines_from(s.drop_first(), current.push(s[0]))
    }
}

pub open spec fn lines_of(s: Seq<char>) -> Seq<Seq<char>> {
    lines_from(s, seq![])
}

/// One comment line cleaned: one leading space and the trailing white space dropped, the javadoc
/// `*` margin removed (a bare `*` is a blank line), then rendered as inert prose.
pub open spec fn clean_line_of(line: Seq<char>) -> Seq<char> {
    let unspaced = if line.len() > 0 && line[0] == ' ' {
        line.drop_first()
    } else {
        line
    };
    let trimmed = trim_end(unspaced);
    let unstarred = if trimmed == seq!['*'] {
        seq![]
    } else if trimmed.len() >= 2 && trimmed[0] == '*' && trimmed[1] == ' ' {
        trimmed.skip(2)
    } else {
        trimmed
    };
    escape_prose_of(unstarred)
}

pub open spec fn drop_leading_blank(lines: Seq<Seq<char>>) -> Seq<Seq<char>>
    decreases lines.len(),
{
    if lines.len() > 0 && lines[0].len() == 0 {
        drop_leading_blank(lines.drop_first())
    } else {
        lines
    }
}

pub open spec fn drop_trailing_blank(lines: Seq<Seq<char>>) -> Seq<Seq<char>>
    decreases lines.len(),
{
    if lines.len() > 0 && lines.last().len() == 0 {
        drop_trailing_blank(lines.drop_last())
    } else {
        lines
    }
}

/// A proto comment as rustdoc lines: every line cleaned, blank lines at either end dropped.
pub open spec fn clean_comment_of(comment: Seq<char>) -> Seq<Seq<char>> {
    drop_trailing_blank(drop_leading_blank(lines_of(comment).map_values(|l: Seq<char>| clean_line_of(l))))
}

fn lines_chars(s: &Vec<char>) -> (out: Vec<Vec<char>>)
    ensures
        out@.map_values(|l: Vec<char>| l@) == lines_of(s@),
{
    let mut out: Vec<Vec<char>> = Vec::new();
    let mut current: Vec<char> = Vec::new();
    let mut i: usize = 0;
    assert(s@.skip(0) =~= s@);
    while i < s.len()
        invariant
            i <= s.len(),
            lines_of(s@) == out@.map_values(|l: Vec<char>| l@) + lines_from(
                s@.skip(i as int),
                current@,
            ),
        decreases s.len() - i,
    {
        let c = s[i];
        assert(s@.skip(i as int).drop_first() =~= s@.skip(i + 1));
        assert(s@.skip(i as int)[0] == c);
        if c == '\n' {
            let ghost before = out@.map_values(|l: Vec<char>| l@);
            let n = current.len();
            let line = if n > 0 && current[n - 1] == '\r' {
                let l = copy_range(&current, 0, n - 1);
                assert(l@ =~= current@.drop_last());
                l
            } else {
                copy_all(&current)
            };
            assert(line@ == strip_cr(current@));
            out.push(line);
            assert(out@.map_values(|l: Vec<char>| l@) =~= before.push(strip_cr(current@)));
            assert(before + (seq![strip_cr(current@)] + lines_from(s@.skip(i + 1), seq![]))
                =~= before.push(strip_cr(current@)) + lines_from(s@.skip(i + 1), seq![]));
            current = Vec::new();
            assert(current@ =~= seq![]);
        } else {
            current.push(c);
        }
        i = i + 1;
    }
    if current.len() > 0 {
        let ghost before = out@.map_values(|l: Vec<char>| l@);
        let last = copy_all(&current);
        out.push(last);
        assert(out@.map_values(|l: Vec<char>| l@) =~= before + seq![current@]);
    } else {
        assert(out@.map_values(|l: Vec<char>| l@) + seq![] =~= out@.map_values(|l: Vec<char>| l@));
    }
    out
}

fn clean_line_chars(line: &Vec<char>) -> (out: Vec<char>)
    ensures
        out@ == clean_line_of(line@),
{
    let unspaced = if line.len() > 0 && line[0] == ' ' {
        let u = copy_range(line, 1, line.len());
        assert(u@ =~= line@.drop_first());
        u
    } else {
        copy_all(line)
    };
    let end = trimmed_end_len(&unspaced, unspaced.len());
    assert(unspaced@.take(unspaced@.len() as int) =~= unspaced@);
    let trimmed = copy_range(&unspaced, 0, end);
    assert(trimmed@ =~= unspaced@.take(end as int));
    let unstarred = if trimmed.len() == 1 && trimmed[0] == '*' {
        assert(trimmed@ =~= seq!['*']);
        Vec::new()
    } else if trimmed.len() >= 2 && trimmed[0] == '*' && trimmed[1] == ' ' {
        assert(trimmed@ != seq!['*']);
        let u = copy_range(&trimmed, 2, trimmed.len());
        assert(u@ =~= trimmed@.skip(2));
        u
    } else {
        assert(trimmed@ != seq!['*']) by {
            if trimmed@ == seq!['*'] {
                assert(trimmed@.len() == 1 && trimmed@[0] == '*');
            }
        }
        trimmed
    };
    escape_prose_chars(&unstarred)
}

/// Clean a proto comment into rustdoc lines: drop the javadoc-style `*` margin and the common
/// leading space, trim trailing white space, render each line as inert prose, and drop the blank
/// lines at either end.
pub fn clean_comment(comment: &str) -> (lines: Vec<String>)
    ensures
        lines@.map_values(|l: String| l@) == clean_comment_of(comment@),
{
    let raw = lines_chars(&chars_of(comment));
    let ghost raw_view = raw@.map_values(|l: Vec<char>| l@);
    let mut cleaned: Vec<Vec<char>> = Vec::new();
    let mut i: usize = 0;
    while i < raw.len()
        invariant
            i <= raw.len(),
            raw_view == raw@.map_values(|l: Vec<char>| l@),
            cleaned@.map_values(|l: Vec<char>| l@) =~= raw_view.take(i as int).map_values(
                |l: Seq<char>| clean_line_of(l),
            ),
        decreases raw.len() - i,
    {
        let line = clean_line_chars(&raw[i]);
        cleaned.push(line);
        assert(raw_view.take(i + 1).map_values(|l: Seq<char>| clean_line_of(l)) =~= raw_view.take(
            i as int,
        ).map_values(|l: Seq<char>| clean_line_of(l)).push(clean_line_of(raw_view[i as int])));
        i = i + 1;
    }
    assert(raw_view.take(raw.len() as int) =~= raw_view);
    let ghost all = cleaned@.map_values(|l: Vec<char>| l@);
    let mut first: usize = 0;
    assert(all.skip(0) =~= all);
    while first < cleaned.len() && cleaned[first].len() == 0
        invariant
            first <= cleaned.len(),
            all == cleaned@.map_values(|l: Vec<char>| l@),
            drop_leading_blank(all) == drop_leading_blank(all.skip(first as int)),
        decreases cleaned.len() - first,
    {
        assert(all.skip(first as int).drop_first() =~= all.skip(first + 1));
        first = first + 1;
    }
    assert(drop_leading_blank(all.skip(first as int)) == all.skip(first as int));
    let mut last: usize = cleaned.len();
    assert(all.subrange(first as int, last as int) =~= all.skip(first as int));
    while last > first && cleaned[last - 1].len() == 0
        invariant
            first <= last <= cleaned.len(),
            all == cleaned@.map_values(|l: Vec<char>| l@),
            drop_trailing_blank(all.skip(first as int)) == drop_trailing_blank(
                all.subrange(first as int, last as int),
            ),
        decreases last,
    {
        assert(all.subrange(first as int, last as int).drop_last() =~= all.subrange(
            first as int,
            last - 1,
        ));
        last = last - 1;
    }
    let mut lines: Vec<String> = Vec::new();
    let mut k = first;
    while k < last
        invariant
            first <= k <= last <= cleaned.len(),
            all == cleaned@.map_values(|l: Vec<char>| l@),
            lines@.map_values(|l: String| l@) =~= all.subrange(first as int, k as int),
        decreases last - k,
    {
        lines.push(string_of(cleaned[k].as_slice()));
        assert(all.subrange(first as int, k + 1) =~= all.subrange(first as int, k as int).push(
            all[k as int],
        ));
        k = k + 1;
    }
    lines
}

/// The path of the element declared just before `path` among its siblings: the last index minus
/// one, when there is a last index above zero.
pub open spec fn previous_sibling_of(path: Seq<i32>) -> Option<Seq<i32>> {
    if path.len() > 0 && path.last() > 0 {
        Some(path.drop_last().push((path.last() - 1) as i32))
    } else {
        None
    }
}

/// The path of the element declared just before `path` among its siblings, if any.
pub fn previous_sibling(path: &[i32]) -> (previous: Option<Vec<i32>>)
    ensures
        match previous {
            Some(p) => previous_sibling_of(path@) == Some(p@),
            None => previous_sibling_of(path@) is None,
        },
{
    let n = path.len();
    if n == 0 || path[n - 1] <= 0 {
        return None;
    }
    let mut previous: Vec<i32> = Vec::new();
    let mut i: usize = 0;
    while i < n - 1
        invariant
            n == path@.len(),
            0 < n,
            i <= n - 1,
            previous@ =~= path@.take(i as int),
        decreases n - 1 - i,
    {
        previous.push(path[i]);
        i = i + 1;
    }
    previous.push(path[n - 1] - 1);
    assert(previous@ =~= path@.drop_last().push((path@.last() - 1) as i32));
    Some(previous)
}

proof fn lemma_trim_start_after_spaces(n: nat, rest: Seq<char>)
    requires
        rest.len() == 0 || !is_white_space(rest[0]),
    ensures
        trim_start(spaces(n) + rest) == rest,
    decreases n,
{
    if n > 0 {
        assert((spaces(n) + rest)[0] == ' ');
        assert((spaces(n) + rest).drop_first() =~= spaces((n - 1) as nat) + rest);
        lemma_trim_start_after_spaces((n - 1) as nat, rest);
    } else {
        assert(spaces(0) + rest =~= rest);
        if rest.len() > 0 {
            assert(!is_white_space(rest[0]));
        }
    }
}

proof fn lemma_trim_start_lands_on_text(s: Seq<char>)
    ensures
        trim_start(s).len() == 0 || !is_white_space(trim_start(s)[0]),
    decreases s.len(),
{
    if s.len() > 0 && is_white_space(s[0]) {
        lemma_trim_start_lands_on_text(s.drop_first());
    }
}

/// A rendered line never opens an indented code block: it starts with at most three spaces, and
/// no other white space, before its text.
pub proof fn lemma_escape_prose_opens_no_code_block(line: Seq<char>)
    ensures
        ({
            let out = escape_prose_of(line);
            let indent = out.len() - trim_start(out).len();
            &&& 0 <= indent <= MAX_INDENT
            &&& out == spaces(indent as nat) + trim_start(out)
        }),
{
    let body = trim_start(line);
    let indent = indent_width(line.take(line.len() - body.len()));
    let clamped: nat = if indent < MAX_INDENT {
        indent
    } else {
        MAX_INDENT as nat
    };
    let fence = if starts_with_fence(body) {
        seq!['\\']
    } else {
        seq![]
    };
    let rest = fence + escape_from(body, 0);
    lemma_trim_start_lands_on_text(line);
    if body.len() > 0 {
        if body[0] == '`' {
            let run = run_len_pos(body, 0);
            let end = match closing_of(body, run as int, run) {
                Some(close) => close + run,
                None => run as int,
            };
            if end > 0 && end <= body.len() {
                assert(escape_from(body, 0)[0] == body[0]);
            }
        }
    }
    if rest.len() > 0 {
        if fence.len() == 0 {
            assert(rest[0] == escape_from(body, 0)[0]);
        }
    }
    lemma_trim_start_after_spaces(clamped, rest);
    assert(escape_prose_of(line) =~= spaces(clamped) + rest);
}

proof fn lemma_escape_from_plain(body: Seq<char>, at: int)
    requires
        0 <= at <= body.len(),
        forall|i: int| 0 <= i < body.len() ==> !needs_escape(#[trigger] body[i]) && body[i] != '`',
    ensures
        escape_from(body, at) == body.skip(at),
    decreases body.len() - at,
{
    if at < body.len() {
        lemma_escape_from_plain(body, at + 1);
        assert(body.skip(at) =~= seq![body[at]] + body.skip(at + 1));
    } else {
        assert(body.skip(at) =~= Seq::<char>::empty());
    }
}

/// Prose with nothing to escape comes out as it went in: no leading white space, no fence, and no
/// `[`, `<`, `\`, or backtick.
pub proof fn lemma_plain_prose_is_unchanged(line: Seq<char>)
    requires
        line.len() == 0 || !is_white_space(line[0]),
        !starts_with_fence(line),
        forall|i: int| 0 <= i < line.len() ==> !needs_escape(#[trigger] line[i]) && line[i] != '`',
    ensures
        escape_prose_of(line) == line,
{
    assert(trim_start(line) == line);
    assert(line.take(0) =~= Seq::<char>::empty());
    lemma_escape_from_plain(line, 0);
    assert(line.skip(0) =~= line);
    assert(spaces(0) + seq![] + line =~= line);
}

proof fn lemma_drop_leading_blank_shape(lines: Seq<Seq<char>>)
    ensures
        drop_leading_blank(lines).len() > 0 ==> drop_leading_blank(lines)[0].len() > 0,
    decreases lines.len(),
{
    if lines.len() > 0 && lines[0].len() == 0 {
        lemma_drop_leading_blank_shape(lines.drop_first());
    }
}

proof fn lemma_drop_trailing_blank_shape(lines: Seq<Seq<char>>)
    ensures
        drop_trailing_blank(lines).len() <= lines.len(),
        forall|i: int| 0 <= i < drop_trailing_blank(lines).len() ==> #[trigger] drop_trailing_blank(lines)[i]
            == lines[i],
        drop_trailing_blank(lines).len() > 0 ==> drop_trailing_blank(lines).last().len() > 0,
        lines.len() > 0 && lines[0].len() > 0 ==> drop_trailing_blank(lines).len() > 0,
    decreases lines.len(),
{
    if lines.len() > 0 && lines.last().len() == 0 {
        lemma_drop_trailing_blank_shape(lines.drop_last());
    }
}

/// A cleaned comment neither starts nor ends with a blank line.
pub proof fn lemma_clean_comment_is_trimmed(comment: Seq<char>)
    ensures
        clean_comment_of(comment).len() > 0 ==> clean_comment_of(comment)[0].len() > 0
            && clean_comment_of(comment).last().len() > 0,
{
    let cleaned = lines_of(comment).map_values(|l: Seq<char>| clean_line_of(l));
    let lead = drop_leading_blank(cleaned);
    lemma_drop_leading_blank_shape(cleaned);
    lemma_drop_trailing_blank_shape(lead);
    if drop_trailing_blank(lead).len() > 0 {
        assert(drop_trailing_blank(lead)[0] == lead[0]);
    }
}

} // verus!
