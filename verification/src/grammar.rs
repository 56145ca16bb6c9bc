//! The `service!` grammar, over the invocation's tokens:
//!
//! ```text
//! Marker in module::path @ "full.proto.Service";
//! [unexposed(Method, ...);]
//! [deprecated;]
//! rpc Method([stream] req::Request) -> [stream] resp::Response [as name] [=> field | => ()] [manual];
//! ...
//! ```
//!
//! Tokens arrive flattened: a delimited group is its opening delimiter, its tokens, and its
//! closing delimiter; a punctuation mark records whether it is joined to the next one, which is
//! how `::`, `->` and `=>` are told from two separate marks. The proto names a derive macro is
//! given as its argument (`"a.B", "a.C"`) are read from the same tokens.

use vstd::prelude::*;

use crate::service::{Projection, RpcLine, ServiceLines};
use crate::text::{chars_of, string_of};

verus! {

/// One token of a `service!` invocation.
pub enum SvcToken {
    Ident(String),
    /// A punctuation mark, and whether it is joined to the next one.
    Punct(char, bool),
    /// A string literal, by its value.
    Str(String),
    /// Any other literal.
    Other,
    Open(char),
    Close(char),
}

/// Where parsing stopped, and what it expected there.
pub struct ParseError {
    pub at: usize,
    pub expected: String,
}

pub struct ParseErrorView {
    pub at: int,
    pub expected: Seq<char>,
}

pub open spec fn perr(at: int, expected: Seq<char>) -> ParseErrorView {
    ParseErrorView { at, expected }
}

pub open spec fn error_view(e: ParseError) -> ParseErrorView {
    ParseErrorView { at: e.at as int, expected: e.expected@ }
}

pub open spec fn ident_at(t: Seq<SvcToken>, i: int) -> Option<Seq<char>> {
    if 0 <= i < t.len() {
        match t[i] {
            SvcToken::Ident(w) => Some(w@),
            _ => None,
        }
    } else {
        None
    }
}

pub open spec fn word_at(t: Seq<SvcToken>, i: int, word: Seq<char>) -> bool {
    ident_at(t, i) == Some(word)
}

pub open spec fn punct_at(t: Seq<SvcToken>, i: int, c: char) -> bool {
    0 <= i < t.len() && (t[i] matches SvcToken::Punct(p, _) && p == c)
}

pub open spec fn joint_at(t: Seq<SvcToken>, i: int, c: char) -> bool {
    0 <= i < t.len() && (t[i] matches SvcToken::Punct(p, j) && p == c && j)
}

pub open spec fn open_at(t: Seq<SvcToken>, i: int, c: char) -> bool {
    0 <= i < t.len() && (t[i] matches SvcToken::Open(p) && p == c)
}

pub open spec fn close_at(t: Seq<SvcToken>, i: int, c: char) -> bool {
    0 <= i < t.len() && (t[i] matches SvcToken::Close(p) && p == c)
}

/// `::` at `i`.
pub open spec fn colons_at(t: Seq<SvcToken>, i: int) -> bool {
    joint_at(t, i, ':') && punct_at(t, i + 1, ':')
}

/// The segments after the first of a path, from `i` on.
pub open spec fn path_rest_of(t: Seq<SvcToken>, i: int, acc: Seq<Seq<char>>) -> Result<
    (Seq<Seq<char>>, int),
    ParseErrorView,
>
    decreases t.len() - i,
{
    if 0 <= i && colons_at(t, i) {
        match ident_at(t, i + 2) {
            Some(n) => path_rest_of(t, i + 3, acc.push(n)),
            None => Err(perr(i + 2, "identifier"@)),
        }
    } else {
        Ok((acc, i))
    }
}

/// A path from `i`: an optional leading `::`, then identifiers separated by `::`.
pub open spec fn path_of(t: Seq<SvcToken>, i: int) -> Result<(Seq<Seq<char>>, int), ParseErrorView> {
    let start = if colons_at(t, i) {
        i + 2
    } else {
        i
    };
    match ident_at(t, start) {
        Some(n) => path_rest_of(t, start + 1, seq![n]),
        None => Err(perr(start, "identifier"@)),
    }
}

pub open spec fn expect_punct(t: Seq<SvcToken>, i: int, c: char, what: Seq<char>) -> Result<int, ParseErrorView> {
    if punct_at(t, i, c) {
        Ok(i + 1)
    } else {
        Err(perr(i, what))
    }
}

/// The names of `unexposed(...)` from `i`, just past its `(`: identifiers separated by `,`, an
/// optional trailing `,`, up to the `)`; the position past the `)`.
pub open spec fn names_of(t: Seq<SvcToken>, i: int, acc: Seq<Seq<char>>) -> Result<(Seq<Seq<char>>, int), ParseErrorView>
    decreases t.len() - i,
{
    if i < 0 || i >= t.len() {
        Err(perr(i, "`)`"@))
    } else if close_at(t, i, ')') {
        Ok((acc, i + 1))
    } else {
        match ident_at(t, i) {
            None => Err(perr(i, "identifier"@)),
            Some(n) => if close_at(t, i + 1, ')') {
                Ok((acc.push(n), i + 2))
            } else if punct_at(t, i + 1, ',') {
                names_of(t, i + 2, acc.push(n))
            } else {
                Err(perr(i + 1, "`,`"@))
            },
        }
    }
}

/// What the header of an invocation says.
pub struct HeaderView {
    pub marker: Seq<char>,
    pub module: Seq<Seq<char>>,
    pub name: Seq<char>,
    pub unexposed: Seq<Seq<char>>,
    pub deprecated: bool,
}

/// The header, and the position of the first rpc line.
pub open spec fn header_of(t: Seq<SvcToken>) -> Result<(HeaderView, int), ParseErrorView> {
    match ident_at(t, 0) {
        None => Err(perr(0, "identifier"@)),
        Some(marker) => if !word_at(t, 1, "in"@) {
            Err(perr(1, "`in`"@))
        } else {
            match path_of(t, 2) {
                Err(e) => Err(e),
                Ok((module, i)) => match expect_punct(t, i, '@', "`@`"@) {
                    Err(e) => Err(e),
                    Ok(j) => if !(0 <= j < t.len() && t[j] is Str) {
                        Err(perr(j, "string literal"@))
                    } else {
                        let name = t[j]->Str_0@;
                        match expect_punct(t, j + 1, ';', "`;`"@) {
                            Err(e) => Err(e),
                            Ok(k) => {
                                let un = if word_at(t, k, "unexposed"@) {
                                    if !open_at(t, k + 1, '(') {
                                        Err(perr(k + 1, "`(`"@))
                                    } else {
                                        match names_of(t, k + 2, seq![]) {
                                            Err(e) => Err(e),
                                            Ok((names, m)) => match expect_punct(t, m, ';', "`;`"@) {
                                                Err(e) => Err(e),
                                                Ok(m2) => Ok((names, m2)),
                                            },
                                        }
                                    }
                                } else {
                                    Ok((seq![], k))
                                };
                                match un {
                                    Err(e) => Err(e),
                                    Ok((unexposed, m)) => if word_at(t, m, "deprecated"@) {
                                        match expect_punct(t, m + 1, ';', "`;`"@) {
                                            Err(e) => Err(e),
                                            Ok(n) => Ok(
                                                (HeaderView { marker, module, name, unexposed, deprecated: true }, n),
                                            ),
                                        }
                                    } else {
                                        Ok((HeaderView { marker, module, name, unexposed, deprecated: false }, m))
                                    },
                                }
                            },
                        }
                    },
                },
            }
        },
    }
}

/// One rpc line as written.
pub struct RpcView {
    pub method: Seq<char>,
    pub client_stream: bool,
    pub request: Seq<Seq<char>>,
    pub server_stream: bool,
    pub response: Seq<Seq<char>>,
    pub ergonomic: Option<Seq<char>>,
    /// `None` for the whole response, `Some(None)` for `=> ()`, `Some(Some(field))` for a field.
    pub project: Option<Option<Seq<char>>>,
    pub manual: bool,
}

/// The tail of an rpc line from `i`, just past its response path: `as name`, the projection,
/// `manual`, and the closing `;`.
pub open spec fn rpc_tail_of(t: Seq<SvcToken>, i: int) -> Result<
    (Option<Seq<char>>, Option<Option<Seq<char>>>, bool, int),
    ParseErrorView,
> {
    let named: Result<(Option<Seq<char>>, int), ParseErrorView> = if word_at(t, i, "as"@) {
        match ident_at(t, i + 1) {
            Some(n) => Ok((Some(n), i + 2)),
            None => Err(perr(i + 1, "identifier"@)),
        }
    } else {
        Ok((None, i))
    };
    match named {
        Err(e) => Err(e),
        Ok((ergonomic, j)) => {
            let projected: Result<(Option<Option<Seq<char>>>, int), ParseErrorView> = if joint_at(t, j, '=')
                && punct_at(t, j + 1, '>') {
                if open_at(t, j + 2, '(') {
                    if close_at(t, j + 3, ')') {
                        Ok((Some(None), j + 4))
                    } else {
                        Err(perr(j + 3, "`()` (discard the response)"@))
                    }
                } else {
                    match ident_at(t, j + 2) {
                        Some(f) => Ok((Some(Some(f)), j + 3)),
                        None => Err(perr(j + 2, "identifier"@)),
                    }
                }
            } else {
                Ok((None, j))
            };
            match projected {
                Err(e) => Err(e),
                Ok((project, k)) => {
                    let manual = word_at(t, k, "manual"@);
                    let m = if manual {
                        k + 1
                    } else {
                        k
                    };
                    match expect_punct(t, m, ';', "`;`"@) {
                        Err(e) => Err(e),
                        Ok(n) => Ok((ergonomic, project, manual, n)),
                    }
                },
            }
        },
    }
}

/// One rpc line from `i`, and the position past it.
pub open spec fn rpc_of(t: Seq<SvcToken>, i: int) -> Result<(RpcView, int), ParseErrorView> {
    if !word_at(t, i, "rpc"@) {
        Err(perr(i, "`rpc`"@))
    } else {
        match ident_at(t, i + 1) {
            None => Err(perr(i + 1, "identifier"@)),
            Some(method) => if !open_at(t, i + 2, '(') {
                Err(perr(i + 2, "`(`"@))
            } else {
                let client_stream = word_at(t, i + 3, "stream"@);
                let r = if client_stream {
                    i + 4
                } else {
                    i + 3
                };
                match path_of(t, r) {
                    Err(e) => Err(e),
                    Ok((request, a)) => if !close_at(t, a, ')') {
                        Err(perr(a, "a single request type"@))
                    } else if !(joint_at(t, a + 1, '-') && punct_at(t, a + 2, '>')) {
                        Err(perr(a + 1, "`->`"@))
                    } else {
                        let server_stream = word_at(t, a + 3, "stream"@);
                        let s = if server_stream {
                            a + 4
                        } else {
                            a + 3
                        };
                        match path_of(t, s) {
                            Err(e) => Err(e),
                            Ok((response, b)) => match rpc_tail_of(t, b) {
                                Err(e) => Err(e),
                                Ok((ergonomic, project, manual, c)) => Ok(
                                    (
                                        RpcView {
                                            method,
                                            client_stream,
                                            request,
                                            server_stream,
                                            response,
                                            ergonomic,
                                            project,
                                            manual,
                                        },
                                        c,
                                    ),
                                ),
                            },
                        }
                    },
                }
            },
        }
    }
}

/// The rpc lines from `i` to the end.
pub open spec fn rpcs_of(t: Seq<SvcToken>, i: int, acc: Seq<RpcView>) -> Result<Seq<RpcView>, ParseErrorView>
    decreases t.len() - i,
{
    if i < 0 || i >= t.len() {
        Ok(acc)
    } else {
        match rpc_of(t, i) {
            Err(e) => Err(e),
            Ok((rpc, j)) => if j <= i {
                Err(perr(i, "`rpc`"@))
            } else {
                rpcs_of(t, j, acc.push(rpc))
            },
        }
    }
}

/// A whole invocation: its header and its rpc lines, or where it first fails to parse.
pub open spec fn service_grammar_of(t: Seq<SvcToken>) -> Result<(HeaderView, Seq<RpcView>), ParseErrorView> {
    match header_of(t) {
        Err(e) => Err(e),
        Ok((h, i)) => match rpcs_of(t, i, seq![]) {
            Err(e) => Err(e),
            Ok(rpcs) => Ok((h, rpcs)),
        },
    }
}

pub open spec fn seqs_view(v: Seq<String>) -> Seq<Seq<char>> {
    v.map_values(|s: String| s@)
}

/// One parsed rpc line: the line [`crate::service::validate`] checks, its response path, and
/// its projection.
pub struct RpcDef {
    pub line: RpcLine,
    pub response: Vec<String>,
    pub project: Projection,
}

/// A parsed invocation.
pub struct ServiceDef {
    pub marker: String,
    pub module: Vec<String>,
    pub name: String,
    pub unexposed: Vec<String>,
    pub deprecated: bool,
    pub rpcs: Vec<RpcDef>,
}

pub open spec fn rpc_def_view(d: RpcDef) -> RpcView {
    RpcView {
        method: d.line.method@,
        client_stream: d.line.client_stream,
        request: seqs_view(d.line.request@),
        server_stream: d.line.server_stream,
        response: seqs_view(d.response@),
        ergonomic: match d.line.ergonomic {
            Some(n) => Some(n@),
            None => None,
        },
        project: match d.project {
            Projection::Field(f) => Some(Some(f@)),
            Projection::Discard => Some(None),
            _ => None,
        },
        manual: d.line.manual,
    }
}

pub open spec fn service_def_view(d: ServiceDef) -> (HeaderView, Seq<RpcView>) {
    (
        HeaderView {
            marker: d.marker@,
            module: seqs_view(d.module@),
            name: d.name@,
            unexposed: seqs_view(d.unexposed@),
            deprecated: d.deprecated,
        },
        d.rpcs@.map_values(|r: RpcDef| rpc_def_view(r)),
    )
}

fn err(at: usize, expected: &str) -> (e: ParseError)
    ensures
        error_view(e) == perr(at as int, expected@),
{
    ParseError { at, expected: string_of(chars_of(expected).as_slice()) }
}

fn ident_x(t: &Vec<SvcToken>, i: usize) -> (r: Option<String>)
    ensures
        match r {
            Some(n) => ident_at(t@, i as int) == Some(n@),
            None => ident_at(t@, i as int) is None,
        },
{
    if i < t.len() {
        match &t[i] {
            SvcToken::Ident(w) => Some(w.clone()),
            _ => None,
        }
    } else {
        None
    }
}

fn word_x(t: &Vec<SvcToken>, i: usize, word: &str) -> (b: bool)
    ensures
        b == word_at(t@, i as int, word@),
{
    if i < t.len() {
        match &t[i] {
            SvcToken::Ident(w) => crate::descriptor::string_eq(w, word),
            _ => false,
        }
    } else {
        false
    }
}

fn punct_x(t: &Vec<SvcToken>, i: usize, c: char) -> (b: bool)
    ensures
        b == punct_at(t@, i as int, c),
{
    if i < t.len() {
        match &t[i] {
            SvcToken::Punct(p, _) => *p == c,
            _ => false,
        }
    } else {
        false
    }
}

fn joint_x(t: &Vec<SvcToken>, i: usize, c: char) -> (b: bool)
    ensures
        b == joint_at(t@, i as int, c),
{
    if i < t.len() {
        match &t[i] {
            SvcToken::Punct(p, j) => *p == c && *j,
            _ => false,
        }
    } else {
        false
    }
}

fn open_x(t: &Vec<SvcToken>, i: usize, c: char) -> (b: bool)
    ensures
        b == open_at(t@, i as int, c),
{
    if i < t.len() {
        match &t[i] {
            SvcToken::Open(p) => *p == c,
            _ => false,
        }
    } else {
        false
    }
}

fn close_x(t: &Vec<SvcToken>, i: usize, c: char) -> (b: bool)
    ensures
        b == close_at(t@, i as int, c),
{
    if i < t.len() {
        match &t[i] {
            SvcToken::Close(p) => *p == c,
            _ => false,
        }
    } else {
        false
    }
}

fn path_rest_x(t: &Vec<SvcToken>, i: usize, acc: Vec<String>) -> (r: Result<(Vec<String>, usize), ParseError>)
    requires
        t@.len() + 8 <= usize::MAX,
        i <= t@.len() + 4,
    ensures
        match r {
            Ok((v, j)) => path_rest_of(t@, i as int, seqs_view(acc@)) == Ok::<
                (Seq<Seq<char>>, int),
                ParseErrorView,
            >((seqs_view(v@), j as int)) && j <= t@.len() + 4,
            Err(e) => path_rest_of(t@, i as int, seqs_view(acc@)) == Err::<(Seq<Seq<char>>, int), ParseErrorView>(
                error_view(e),
            ),
        },
    decreases t@.len() - i,
{
    if joint_x(t, i, ':') && punct_x(t, i + 1, ':') {
        match ident_x(t, i + 2) {
            Some(n) => {
                let mut next = acc;
                let ghost before = seqs_view(next@);
                next.push(n);
                assert(seqs_view(next@) =~= before.push(n@));
                path_rest_x(t, i + 3, next)
            },
            None => Err(err(i + 2, "identifier")),
        }
    } else {
        Ok((acc, i))
    }
}

fn path_x(t: &Vec<SvcToken>, i: usize) -> (r: Result<(Vec<String>, usize), ParseError>)
    requires
        t@.len() + 8 <= usize::MAX,
        i <= t@.len() + 4,
    ensures
        match r {
            Ok((v, j)) => path_of(t@, i as int) == Ok::<(Seq<Seq<char>>, int), ParseErrorView>(
                (seqs_view(v@), j as int),
            ) && j <= t@.len() + 4,
            Err(e) => path_of(t@, i as int) == Err::<(Seq<Seq<char>>, int), ParseErrorView>(error_view(e)),
        },
{
    let start = if joint_x(t, i, ':') && punct_x(t, i + 1, ':') {
        i + 2
    } else {
        i
    };
    match ident_x(t, start) {
        Some(n) => {
            let first = vec![n];
            assert(seqs_view(first@) =~= seq![first@[0]@]);
            path_rest_x(t, start + 1, first)
        },
        None => Err(err(start, "identifier")),
    }
}

fn expect_x(t: &Vec<SvcToken>, i: usize, c: char, what: &str) -> (r: Result<usize, ParseError>)
    requires
        i <= t@.len() + 4,
        t@.len() + 8 <= usize::MAX,
    ensures
        match r {
            Ok(j) => expect_punct(t@, i as int, c, what@) == Ok::<int, ParseErrorView>(j as int) && j
                <= t@.len() + 4,
            Err(e) => expect_punct(t@, i as int, c, what@) == Err::<int, ParseErrorView>(error_view(e)),
        },
{
    if punct_x(t, i, c) {
        Ok(i + 1)
    } else {
        Err(err(i, what))
    }
}

fn names_x(t: &Vec<SvcToken>, i: usize, acc: Vec<String>) -> (r: Result<(Vec<String>, usize), ParseError>)
    requires
        t@.len() + 8 <= usize::MAX,
        i <= t@.len() + 4,
    ensures
        match r {
            Ok((v, j)) => names_of(t@, i as int, seqs_view(acc@)) == Ok::<
                (Seq<Seq<char>>, int),
                ParseErrorView,
            >((seqs_view(v@), j as int)) && j <= t@.len() + 4,
            Err(e) => names_of(t@, i as int, seqs_view(acc@)) == Err::<(Seq<Seq<char>>, int), ParseErrorView>(
                error_view(e),
            ),
        },
    decreases t@.len() - i,
{
    if i >= t.len() {
        return Err(err(i, "`)`"));
    }
    if close_x(t, i, ')') {
        return Ok((acc, i + 1));
    }
    match ident_x(t, i) {
        None => Err(err(i, "identifier")),
        Some(n) => {
            let mut next = acc;
            let ghost before = seqs_view(next@);
            next.push(n);
            assert(seqs_view(next@) =~= before.push(n@));
            if close_x(t, i + 1, ')') {
                Ok((next, i + 2))
            } else if punct_x(t, i + 1, ',') {
                names_x(t, i + 2, next)
            } else {
                Err(err(i + 1, "`,`"))
            }
        },
    }
}

fn header_x(t: &Vec<SvcToken>) -> (r: Result<(String, Vec<String>, String, Vec<String>, bool, usize), ParseError>)
    requires
        t@.len() + 8 <= usize::MAX,
    ensures
        match r {
            Ok((marker, module, name, unexposed, deprecated, i)) => header_of(t@) == Ok::<
                (HeaderView, int),
                ParseErrorView,
            >(
                (
                    HeaderView {
                        marker: marker@,
                        module: seqs_view(module@),
                        name: name@,
                        unexposed: seqs_view(unexposed@),
                        deprecated,
                    },
                    i as int,
                ),
            ) && i <= t@.len() + 4,
            Err(e) => header_of(t@) == Err::<(HeaderView, int), ParseErrorView>(error_view(e)),
        },
{
    let marker = match ident_x(t, 0) {
        Some(m) => m,
        None => return Err(err(0, "identifier")),
    };
    if !word_x(t, 1, "in") {
        return Err(err(1, "`in`"));
    }
    let (module, i) = path_x(t, 2)?;
    let j = expect_x(t, i, '@', "`@`")?;
    let name = if j < t.len() {
        match &t[j] {
            SvcToken::Str(v) => v.clone(),
            _ => return Err(err(j, "string literal")),
        }
    } else {
        return Err(err(j, "string literal"));
    };
    let k = expect_x(t, j + 1, ';', "`;`")?;
    let (unexposed, m) = if word_x(t, k, "unexposed") {
        if !open_x(t, k + 1, '(') {
            return Err(err(k + 1, "`(`"));
        }
        let none: Vec<String> = Vec::new();
        assert(seqs_view(none@) =~= seq![]);
        let (names, m1) = names_x(t, k + 2, none)?;
        let m2 = expect_x(t, m1, ';', "`;`")?;
        (names, m2)
    } else {
        let none: Vec<String> = Vec::new();
        assert(seqs_view(none@) =~= seq![]);
        (none, k)
    };
    if word_x(t, m, "deprecated") {
        let n = expect_x(t, m + 1, ';', "`;`")?;
        Ok((marker, module, name, unexposed, true, n))
    } else {
        Ok((marker, module, name, unexposed, false, m))
    }
}

fn rpc_tail_x(t: &Vec<SvcToken>, i: usize) -> (r: Result<(Option<String>, Projection, bool, usize), ParseError>)
    requires
        t@.len() + 8 <= usize::MAX,
        i <= t@.len() + 4,
    ensures
        match r {
            Ok((ergonomic, project, manual, n)) => rpc_tail_of(t@, i as int) == Ok::<
                (Option<Seq<char>>, Option<Option<Seq<char>>>, bool, int),
                ParseErrorView,
            >(
                (
                    match ergonomic {
                        Some(e) => Some(e@),
                        None => None,
                    },
                    match project {
                        Projection::Field(f) => Some(Some(f@)),
                        Projection::Discard => Some(None),
                        _ => None,
                    },
                    manual,
                    n as int,
                ),
            ) && n <= t@.len() + 4 && !(project is Auto),
            Err(e) => rpc_tail_of(t@, i as int) == Err::<
                (Option<Seq<char>>, Option<Option<Seq<char>>>, bool, int),
                ParseErrorView,
            >(error_view(e)),
        },
{
    let (ergonomic, j) = if word_x(t, i, "as") {
        match ident_x(t, i + 1) {
            Some(n) => (Some(n), i + 2),
            None => return Err(err(i + 1, "identifier")),
        }
    } else {
        (None, i)
    };
    let (project, k) = if joint_x(t, j, '=') && punct_x(t, j + 1, '>') {
        if open_x(t, j + 2, '(') {
            if close_x(t, j + 3, ')') {
                (Projection::Discard, j + 4)
            } else {
                return Err(err(j + 3, "`()` (discard the response)"));
            }
        } else {
            match ident_x(t, j + 2) {
                Some(f) => (Projection::Field(f), j + 3),
                None => return Err(err(j + 2, "identifier")),
            }
        }
    } else {
        (Projection::Whole, j)
    };
    let manual = word_x(t, k, "manual");
    let m = if manual {
        k + 1
    } else {
        k
    };
    let n = expect_x(t, m, ';', "`;`")?;
    Ok((ergonomic, project, manual, n))
}

fn rpc_x(t: &Vec<SvcToken>, i: usize) -> (r: Result<(RpcDef, usize), ParseError>)
    requires
        t@.len() + 8 <= usize::MAX,
        i <= t@.len() + 4,
    ensures
        match r {
            Ok((d, j)) => rpc_of(t@, i as int) == Ok::<(RpcView, int), ParseErrorView>(
                (rpc_def_view(d), j as int),
            ) && j <= t@.len() + 4,
            Err(e) => rpc_of(t@, i as int) == Err::<(RpcView, int), ParseErrorView>(error_view(e)),
        },
{
    if !word_x(t, i, "rpc") {
        return Err(err(i, "`rpc`"));
    }
    let method = match ident_x(t, i + 1) {
        Some(m) => m,
        None => return Err(err(i + 1, "identifier")),
    };
    if !open_x(t, i + 2, '(') {
        return Err(err(i + 2, "`(`"));
    }
    let client_stream = word_x(t, i + 3, "stream");
    let r = if client_stream {
        i + 4
    } else {
        i + 3
    };
    let (request, a) = path_x(t, r)?;
    if !close_x(t, a, ')') {
        return Err(err(a, "a single request type"));
    }
    if !(joint_x(t, a + 1, '-') && punct_x(t, a + 2, '>')) {
        return Err(err(a + 1, "`->`"));
    }
    let server_stream = word_x(t, a + 3, "stream");
    let s = if server_stream {
        a + 4
    } else {
        a + 3
    };
    let (response, b) = path_x(t, s)?;
    let (ergonomic, project, manual, c) = rpc_tail_x(t, b)?;
    let d = RpcDef {
        line: RpcLine { method, client_stream, request, server_stream, ergonomic, manual },
        response,
        project,
    };
    Ok((d, c))
}

fn rpcs_x(t: &Vec<SvcToken>, i: usize, acc: Vec<RpcDef>) -> (r: Result<Vec<RpcDef>, ParseError>)
    requires
        t@.len() + 8 <= usize::MAX,
        i <= t@.len() + 4,
    ensures
        match r {
            Ok(v) => rpcs_of(t@, i as int, acc@.map_values(|x: RpcDef| rpc_def_view(x))) == Ok::<
                Seq<RpcView>,
                ParseErrorView,
            >(v@.map_values(|x: RpcDef| rpc_def_view(x))),
            Err(e) => rpcs_of(t@, i as int, acc@.map_values(|x: RpcDef| rpc_def_view(x))) == Err::<
                Seq<RpcView>,
                ParseErrorView,
            >(error_view(e)),
        },
    decreases t@.len() - i,
{
    if i >= t.len() {
        return Ok(acc);
    }
    let (d, j) = rpc_x(t, i)?;
    if j <= i {
        return Err(err(i, "`rpc`"));
    }
    let mut next = acc;
    let ghost before = next@.map_values(|x: RpcDef| rpc_def_view(x));
    let ghost dv = rpc_def_view(d);
    next.push(d);
    assert(next@.map_values(|x: RpcDef| rpc_def_view(x)) =~= before.push(dv));
    rpcs_x(t, j, next)
}

/// Parses a `service!` invocation's tokens, as [`service_grammar_of`] says.
pub fn parse_service(tokens: &Vec<SvcToken>) -> (r: Result<ServiceDef, ParseError>)
    requires
        tokens@.len() + 8 <= usize::MAX,
    ensures
        match r {
            Ok(d) => service_grammar_of(tokens@) == Ok::<(HeaderView, Seq<RpcView>), ParseErrorView>(
                service_def_view(d),
            ),
            Err(e) => service_grammar_of(tokens@) == Err::<(HeaderView, Seq<RpcView>), ParseErrorView>(
                error_view(e),
            ),
        },
{
    let (marker, module, name, unexposed, deprecated, i) = header_x(tokens)?;
    let none: Vec<RpcDef> = Vec::new();
    assert(none@.map_values(|x: RpcDef| rpc_def_view(x)) =~= seq![]);
    let rpcs = rpcs_x(tokens, i, none)?;
    Ok(ServiceDef { marker, module, name, unexposed, deprecated, rpcs })
}

fn clone_line(l: &RpcLine) -> (c: RpcLine)
    ensures
        c.method@ == l.method@,
        c.client_stream == l.client_stream,
        seqs_view(c.request@) == seqs_view(l.request@),
        c.server_stream == l.server_stream,
        match (c.ergonomic, l.ergonomic) {
            (Some(a), Some(b)) => a@ == b@,
            (None, None) => true,
            _ => false,
        },
        c.manual == l.manual,
{
    RpcLine {
        method: l.method.clone(),
        client_stream: l.client_stream,
        request: crate::descriptor::clone_strings(&l.request),
        server_stream: l.server_stream,
        ergonomic: match &l.ergonomic {
            Some(e) => Some(e.clone()),
            None => None,
        },
        manual: l.manual,
    }
}

/// The lines of a parsed invocation, as [`crate::service::validate`] takes them.
pub fn lines_of(d: &ServiceDef) -> (lines: ServiceLines)
    ensures
        seqs_view(lines.unexposed@) == seqs_view(d.unexposed@),
        lines.rpcs@.len() == d.rpcs@.len(),
        forall|k: int|
            0 <= k < d.rpcs@.len() ==> {
                let a = #[trigger] lines.rpcs@[k];
                let b = d.rpcs@[k].line;
                &&& a.method@ == b.method@
                &&& a.client_stream == b.client_stream
                &&& seqs_view(a.request@) == seqs_view(b.request@)
                &&& a.server_stream == b.server_stream
                &&& a.manual == b.manual
                &&& match (a.ergonomic, b.ergonomic) {
                    (Some(x), Some(y)) => x@ == y@,
                    (None, None) => true,
                    _ => false,
                }
            },
{
    let mut rpcs: Vec<RpcLine> = Vec::new();
    let mut k: usize = 0;
    while k < d.rpcs.len()
        invariant
            k <= d.rpcs@.len(),
            rpcs@.len() == k,
            forall|j: int|
                0 <= j < k ==> {
                    let a = #[trigger] rpcs@[j];
                    let b = d.rpcs@[j].line;
                    &&& a.method@ == b.method@
                    &&& a.client_stream == b.client_stream
                    &&& seqs_view(a.request@) == seqs_view(b.request@)
                    &&& a.server_stream == b.server_stream
                    &&& a.manual == b.manual
                    &&& match (a.ergonomic, b.ergonomic) {
                        (Some(x), Some(y)) => x@ == y@,
                        (None, None) => true,
                        _ => false,
                    }
                },
        decreases d.rpcs.len() - k,
    {
        rpcs.push(clone_line(&d.rpcs[k].line));
        k = k + 1;
    }
    let unexposed = crate::descriptor::clone_strings(&d.unexposed);
    assert(seqs_view(unexposed@) =~= crate::descriptor::strings_view(unexposed@));
    assert(seqs_view(d.unexposed@) =~= crate::descriptor::strings_view(d.unexposed@));
    ServiceLines { unexposed, rpcs }
}

/// The proto names given as a macro's argument, from `i`: string literals separated by `,`, with
/// an optional trailing `,`.
pub open spec fn proto_names_of(t: Seq<SvcToken>, i: int, acc: Seq<Seq<char>>) -> Result<Seq<Seq<char>>, ParseErrorView>
    decreases t.len() - i,
{
    if i < 0 || i >= t.len() {
        Ok(acc)
    } else if !(t[i] is Str) {
        Err(perr(i, "string literal"@))
    } else {
        let next = acc.push(t[i]->Str_0@);
        if i + 1 >= t.len() {
            Ok(next)
        } else if punct_at(t, i + 1, ',') {
            proto_names_of(t, i + 2, next)
        } else {
            Err(perr(i + 1, "`,`"@))
        }
    }
}

fn proto_names_x(t: &Vec<SvcToken>, i: usize, acc: Vec<String>) -> (r: Result<Vec<String>, ParseError>)
    requires
        t@.len() + 8 <= usize::MAX,
        i <= t@.len() + 4,
    ensures
        match r {
            Ok(v) => proto_names_of(t@, i as int, seqs_view(acc@)) == Ok::<Seq<Seq<char>>, ParseErrorView>(
                seqs_view(v@),
            ),
            Err(e) => proto_names_of(t@, i as int, seqs_view(acc@)) == Err::<Seq<Seq<char>>, ParseErrorView>(
                error_view(e),
            ),
        },
    decreases t@.len() - i,
{
    if i >= t.len() {
        return Ok(acc);
    }
    let value = match &t[i] {
        SvcToken::Str(v) => v.clone(),
        _ => return Err(err(i, "string literal")),
    };
    let mut next = acc;
    let ghost before = seqs_view(next@);
    next.push(value);
    assert(seqs_view(next@) =~= before.push(t@[i as int]->Str_0@));
    if i + 1 >= t.len() {
        Ok(next)
    } else if punct_x(t, i + 1, ',') {
        proto_names_x(t, i + 2, next)
    } else {
        Err(err(i + 1, "`,`"))
    }
}

/// The proto names a macro was given as its argument, as [`proto_names_of`] says; none for an
/// empty argument.
pub fn parse_proto_names(tokens: &Vec<SvcToken>) -> (r: Result<Vec<String>, ParseError>)
    requires
        tokens@.len() + 8 <= usize::MAX,
    ensures
        match r {
            Ok(v) => proto_names_of(tokens@, 0, seq![]) == Ok::<Seq<Seq<char>>, ParseErrorView>(seqs_view(v@)),
            Err(e) => proto_names_of(tokens@, 0, seq![]) == Err::<Seq<Seq<char>>, ParseErrorView>(error_view(e)),
        },
{
    let none: Vec<String> = Vec::new();
    assert(seqs_view(none@) =~= seq![]);
    proto_names_x(tokens, 0, none)
}

} // verus!
