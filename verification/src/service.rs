//! `service!`: the RPC lines of one service, validated against the descriptor.
//!
//! What is validated, in order: every `rpc` line names a method of the service, no method is
//! declared twice, the `stream` keywords agree with the streaming flags, every line has a handler
//! name and no two share one,
//! every `unexposed(...)` name is a method that no line declares, and every method is either
//! declared or unexposed.

use vstd::prelude::*;

use crate::descriptor::{string_eq, MethodMeta, ServiceMeta};
use crate::text::{chars_of, push_all, string_of};

verus! {

/// The three call shapes an exposed RPC takes.
#[derive(Clone, Copy, PartialEq, Eq, Structural)]
pub enum CallKind {
    Unary,
    ClientStream,
    ServerStream,
    /// Both the request and the response are streams.
    Bidirectional,
}

/// One `rpc Method([stream] req::Request) -> [stream] req::Response [as name] [manual];` line.
pub struct RpcLine {
    pub method: String,
    pub client_stream: bool,
    /// The request type's path, segment by segment.
    pub request: Vec<String>,
    pub server_stream: bool,
    /// The `as name` override of the handler name.
    pub ergonomic: Option<String>,
    pub manual: bool,
}

/// The lines of one `service!` invocation.
pub struct ServiceLines {
    pub unexposed: Vec<String>,
    pub rpcs: Vec<RpcLine>,
}

/// One line, resolved: the line, the method it names, its handler name and its call shape.
pub struct Resolved {
    pub rpc: usize,
    pub method: usize,
    pub ergonomic: String,
    pub kind: CallKind,
}

pub struct ResolvedView {
    pub rpc: usize,
    pub method: usize,
    pub ergonomic: Seq<char>,
    pub kind: CallKind,
}

impl View for Resolved {
    type V = ResolvedView;

    open spec fn view(&self) -> ResolvedView {
        ResolvedView { rpc: self.rpc, method: self.method, ergonomic: self.ergonomic@, kind: self.kind }
    }
}

/// Why a `service!` invocation is rejected; `rpc` and `unexposed` index the offending line or name.
pub enum ServiceError {
    /// The line names no method of the service.
    NoMethod { rpc: usize },
    /// The line's method was declared by an earlier line.
    DeclaredTwice { rpc: usize },
    /// The line's client `stream` keyword disagrees with the proto, which says `streaming`.
    ClientStreaming { rpc: usize, streaming: bool },
    /// The line's server `stream` keyword disagrees with the proto, which says `streaming`.
    ServerStreaming { rpc: usize, streaming: bool },
    /// The request path has no module segment to name the handler after.
    NoModuleSegment { rpc: usize },
    /// The line's handler name is an earlier line's.
    DuplicateErgonomic { rpc: usize },
    /// An unexposed name that is no method of the service.
    UnknownUnexposed { unexposed: usize },
    /// An unexposed name that a line declares.
    UnexposedDeclared { unexposed: usize },
    /// Methods neither declared nor unexposed, by index into the service's methods.
    Undeclared { missing: Vec<usize> },
}

pub enum ServiceErrorView {
    NoMethod { rpc: usize },
    DeclaredTwice { rpc: usize },
    ClientStreaming { rpc: usize, streaming: bool },
    ServerStreaming { rpc: usize, streaming: bool },
    NoModuleSegment { rpc: usize },
    DuplicateErgonomic { rpc: usize },
    UnknownUnexposed { unexposed: usize },
    UnexposedDeclared { unexposed: usize },
    Undeclared { missing: Seq<usize> },
}

impl View for ServiceError {
    type V = ServiceErrorView;

    open spec fn view(&self) -> ServiceErrorView {
        match self {
            ServiceError::NoMethod { rpc } => ServiceErrorView::NoMethod { rpc: *rpc },
            ServiceError::DeclaredTwice { rpc } => ServiceErrorView::DeclaredTwice { rpc: *rpc },
            ServiceError::ClientStreaming { rpc, streaming } => ServiceErrorView::ClientStreaming {
                rpc: *rpc,
                streaming: *streaming,
            },
            ServiceError::ServerStreaming { rpc, streaming } => ServiceErrorView::ServerStreaming {
                rpc: *rpc,
                streaming: *streaming,
            },
            ServiceError::NoModuleSegment { rpc } => ServiceErrorView::NoModuleSegment { rpc: *rpc },
            ServiceError::DuplicateErgonomic { rpc } => ServiceErrorView::DuplicateErgonomic {
                rpc: *rpc,
            },
            ServiceError::UnknownUnexposed { unexposed } => ServiceErrorView::UnknownUnexposed {
                unexposed: *unexposed,
            },
            ServiceError::UnexposedDeclared { unexposed } => ServiceErrorView::UnexposedDeclared {
                unexposed: *unexposed,
            },
            ServiceError::Undeclared { missing } => ServiceErrorView::Undeclared { missing: missing@ },
        }
    }
}

/// The first method named `name`.
#[verifier::opaque]
pub open spec fn method_position(methods: Seq<MethodMeta>, name: Seq<char>) -> Option<int> {
    if exists|i: int| 0 <= i < methods.len() && (#[trigger] methods[i]).name@ == name {
        Some(
            choose|i: int|
                0 <= i < methods.len() && methods[i].name@ == name && forall|j: int|
                    0 <= j < i ==> (#[trigger] methods[j]).name@ != name,
        )
    } else {
        None
    }
}

/// The handler name of a line: its `as name`, else the module segment of its request path (the
/// segment before the last), else none.
pub open spec fn ergonomic_of(rpc: RpcLine) -> Option<Seq<char>> {
    match rpc.ergonomic {
        Some(name) => Some(name@),
        None => if rpc.request@.len() >= 2 {
            Some(rpc.request@[rpc.request@.len() - 2]@)
        } else {
            None
        },
    }
}

pub open spec fn kind_of(rpc: RpcLine) -> CallKind {
    if rpc.client_stream && rpc.server_stream {
        CallKind::Bidirectional
    } else if rpc.client_stream {
        CallKind::ClientStream
    } else if rpc.server_stream {
        CallKind::ServerStream
    } else {
        CallKind::Unary
    }
}

/// The lines from `i` on, checked in order against the methods and handler names the earlier
/// lines took: the resolved lines, or the first line's error.
pub open spec fn check_lines(
    methods: Seq<MethodMeta>,
    rpcs: Seq<RpcLine>,
    i: int,
    declared: Set<Seq<char>>,
    ergonomics: Set<Seq<char>>,
) -> Result<Seq<ResolvedView>, ServiceErrorView>
    decreases rpcs.len() - i,
{
    if i < 0 || i >= rpcs.len() {
        Ok(seq![])
    } else {
        let rpc = rpcs[i];
        let at = i as usize;
        match method_position(methods, rpc.method@) {
            None => Err(ServiceErrorView::NoMethod { rpc: at }),
            Some(m) => {
                let meta = methods[m];
                if declared.contains(meta.name@) {
                    Err(ServiceErrorView::DeclaredTwice { rpc: at })
                } else if meta.client_streaming != rpc.client_stream {
                    Err(ServiceErrorView::ClientStreaming { rpc: at, streaming: meta.client_streaming })
                } else if meta.server_streaming != rpc.server_stream {
                    Err(ServiceErrorView::ServerStreaming { rpc: at, streaming: meta.server_streaming })
                } else {
                    match ergonomic_of(rpc) {
                        None => Err(ServiceErrorView::NoModuleSegment { rpc: at }),
                        Some(ergonomic) => if ergonomics.contains(ergonomic) {
                            Err(ServiceErrorView::DuplicateErgonomic { rpc: at })
                        } else {
                            match check_lines(
                                methods,
                                rpcs,
                                i + 1,
                                declared.insert(meta.name@),
                                ergonomics.insert(ergonomic),
                            ) {
                                Err(e) => Err(e),
                                Ok(rest) => Ok(
                                    seq![ResolvedView { rpc: at, method: m as usize, ergonomic, kind: kind_of(rpc) }]
                                        + rest,
                                ),
                            }
                        },
                    }
                }
            },
        }
    }
}

/// The method names the lines declare.
#[verifier::opaque]
pub open spec fn declared_names(rpcs: Seq<RpcLine>) -> Set<Seq<char>> {
    Set::new(|name: Seq<char>| exists|i: int| 0 <= i < rpcs.len() && (#[trigger] rpcs[i]).method@ == name)
}

/// The first unexposed name, from `j` on, that is no method or that a line declares.
pub open spec fn check_unexposed(
    methods: Seq<MethodMeta>,
    unexposed: Seq<String>,
    declared: Set<Seq<char>>,
    j: int,
) -> Option<ServiceErrorView>
    decreases unexposed.len() - j,
{
    if j < 0 || j >= unexposed.len() {
        None
    } else if method_position(methods, unexposed[j]@) is None {
        Some(ServiceErrorView::UnknownUnexposed { unexposed: j as usize })
    } else if declared.contains(unexposed[j]@) {
        Some(ServiceErrorView::UnexposedDeclared { unexposed: j as usize })
    } else {
        check_unexposed(methods, unexposed, declared, j + 1)
    }
}

/// The indices of the methods, in order, that are neither declared nor unexposed.
pub open spec fn missing_methods(
    methods: Seq<MethodMeta>,
    unexposed: Seq<String>,
    declared: Set<Seq<char>>,
) -> Seq<usize>
    decreases methods.len(),
{
    if methods.len() == 0 {
        seq![]
    } else {
        let last = methods.last().name@;
        let head = missing_methods(methods.drop_last(), unexposed, declared);
        if !declared.contains(last) && forall|k: int|
            0 <= k < unexposed.len() ==> (#[trigger] unexposed[k])@ != last {
            head.push((methods.len() - 1) as usize)
        } else {
            head
        }
    }
}

/// A `service!` invocation validated: every line resolved, or the first rejection.
pub open spec fn validate_of(service: &ServiceMeta, def: &ServiceLines) -> Result<
    Seq<ResolvedView>,
    ServiceErrorView,
> {
    let methods = service.methods@;
    match check_lines(methods, def.rpcs@, 0, Set::empty(), Set::empty()) {
        Err(e) => Err(e),
        Ok(resolved) => {
            let declared = declared_names(def.rpcs@);
            match check_unexposed(methods, def.unexposed@, declared, 0) {
                Some(e) => Err(e),
                None => {
                    let missing = missing_methods(methods, def.unexposed@, declared);
                    if missing.len() > 0 {
                        Err(ServiceErrorView::Undeclared { missing })
                    } else {
                        Ok(resolved)
                    }
                },
            }
        },
    }
}

/// The names a list holds, as a set.
#[verifier::opaque]
pub open spec fn names_set(names: Seq<String>) -> Set<Seq<char>> {
    Set::new(|name: Seq<char>| exists|k: int| 0 <= k < names.len() && (#[trigger] names[k])@ == name)
}

/// `done` followed by what the remaining lines resolve to.
pub open spec fn prepend(
    done: Seq<ResolvedView>,
    rest: Result<Seq<ResolvedView>, ServiceErrorView>,
) -> Result<Seq<ResolvedView>, ServiceErrorView> {
    match rest {
        Ok(rest) => Ok(done + rest),
        Err(e) => Err(e),
    }
}

fn contains_name(names: &Vec<String>, name: &str) -> (b: bool)
    ensures
        b == names_set(names@).contains(name@),
{
    reveal(names_set);
    let mut k: usize = 0;
    while k < names.len()
        invariant
            k <= names.len(),
            forall|j: int| 0 <= j < k ==> (#[trigger] names@[j])@ != name@,
        decreases names.len() - k,
    {
        if string_eq(&names[k], name) {
            assert(names_set(names@).contains(name@)) by {
                reveal(names_set);
                assert(names@[k as int]@ == name@);
            }
            return true;
        }
        k = k + 1;
    }
    assert(!names_set(names@).contains(name@)) by {
        reveal(names_set);
    }
    false
}

fn find_method(methods: &Vec<MethodMeta>, name: &str) -> (found: Option<usize>)
    ensures
        match found {
            Some(i) => i < methods@.len() && method_position(methods@, name@) == Some(i as int)
                && methods@[i as int].name@ == name@,
            None => method_position(methods@, name@) is None,
        },
{
    reveal(method_position);
    let mut i: usize = 0;
    while i < methods.len()
        invariant
            i <= methods.len(),
            forall|j: int| 0 <= j < i ==> (#[trigger] methods@[j]).name@ != name@,
        decreases methods.len() - i,
    {
        if string_eq(&methods[i].name, name) {
            let ghost chosen = choose|k: int|
                0 <= k < methods@.len() && methods@[k].name@ == name@ && forall|j: int|
                    0 <= j < k ==> (#[trigger] methods@[j]).name@ != name@;
            assert(0 <= i < methods@.len() && methods@[i as int].name@ == name@);
            assert(chosen == i) by {
                if chosen < i {
                } else if chosen > i {
                }
            }
            assert(method_position(methods@, name@) == Some(i as int)) by {
                reveal(method_position);
            }
            return Some(i);
        }
        i = i + 1;
    }
    assert(method_position(methods@, name@) is None) by {
        reveal(method_position);
    }
    None
}

/// The module segment of `list::Request`, the default handler name: the segment before the last.
pub fn request_module_segment(request: &Vec<String>) -> (segment: Option<String>)
    ensures
        match segment {
            Some(s) => request@.len() >= 2 && s@ == request@[request@.len() - 2]@,
            None => request@.len() < 2,
        },
{
    if request.len() < 2 {
        return None;
    }
    Some(request[request.len() - 2].clone())
}

fn ergonomic(rpc: &RpcLine) -> (name: Option<String>)
    ensures
        match name {
            Some(n) => ergonomic_of(*rpc) == Some(n@),
            None => ergonomic_of(*rpc) is None,
        },
{
    match &rpc.ergonomic {
        Some(name) => Some(name.clone()),
        None => request_module_segment(&rpc.request),
    }
}

proof fn lemma_names_set_push(names: Seq<String>, name: String)
    ensures
        names_set(names.push(name)) =~= names_set(names).insert(name@),
{
    reveal(names_set);
    assert forall|n: Seq<char>| names_set(names.push(name)).contains(n) implies names_set(names).insert(
        name@,
    ).contains(n) by {
        let k = choose|k: int| 0 <= k < names.len() + 1 && (#[trigger] names.push(name)[k])@ == n;
        if k < names.len() {
            assert(names[k] == names.push(name)[k]);
        }
    }
    assert forall|n: Seq<char>| names_set(names).insert(name@).contains(n) implies names_set(
        names.push(name),
    ).contains(n) by {
        if n == name@ {
            assert(names.push(name)[names.len() as int]@ == n);
        } else {
            let k = choose|k: int| 0 <= k < names.len() && (#[trigger] names[k])@ == n;
            assert(names.push(name)[k]@ == n);
        }
    }
}

proof fn lemma_declared_names_step(rpcs: Seq<RpcLine>, i: int)
    requires
        0 <= i < rpcs.len(),
    ensures
        declared_names(rpcs.take(i + 1)) =~= declared_names(rpcs.take(i)).insert(rpcs[i].method@),
{
    reveal(declared_names);
    assert forall|n: Seq<char>| declared_names(rpcs.take(i + 1)).contains(n) implies declared_names(
        rpcs.take(i),
    ).insert(rpcs[i].method@).contains(n) by {
        let k = choose|k: int| 0 <= k < i + 1 && (#[trigger] rpcs.take(i + 1)[k]).method@ == n;
        if k < i {
            assert(rpcs.take(i)[k] == rpcs.take(i + 1)[k]);
        }
    }
    assert forall|n: Seq<char>| declared_names(rpcs.take(i)).insert(rpcs[i].method@).contains(
        n,
    ) implies declared_names(rpcs.take(i + 1)).contains(n) by {
        if n == rpcs[i].method@ {
            assert(rpcs.take(i + 1)[i] == rpcs[i]);
        } else {
            let k = choose|k: int| 0 <= k < i && (#[trigger] rpcs.take(i)[k]).method@ == n;
            assert(rpcs.take(i + 1)[k] == rpcs.take(i)[k]);
        }
    }
}

/// One line checked against the methods and handler names the earlier lines took.
fn check_line(
    service: &ServiceMeta,
    def: &ServiceLines,
    at: usize,
    declared: &Vec<String>,
    ergonomics: &Vec<String>,
) -> (r: Result<Resolved, ServiceError>)
    requires
        at < def.rpcs@.len(),
    ensures
        match r {
            Ok(entry) => {
                &&& entry.rpc == at
                &&& entry.method < service.methods@.len()
                &&& service.methods@[entry.method as int].name@ == def.rpcs@[at as int].method@
                &&& check_lines(service.methods@, def.rpcs@, at as int, names_set(declared@), names_set(ergonomics@))
                    == prepend(seq![entry@], check_lines(
                    service.methods@,
                    def.rpcs@,
                    at + 1,
                    names_set(declared@).insert(service.methods@[entry.method as int].name@),
                    names_set(ergonomics@).insert(entry.ergonomic@),
                ))
            },
            Err(e) => check_lines(
                service.methods@,
                def.rpcs@,
                at as int,
                names_set(declared@),
                names_set(ergonomics@),
            ) == Err::<Seq<ResolvedView>, ServiceErrorView>(e@),
        },
{
    let rpc = &def.rpcs[at];
    let m = match find_method(&service.methods, rpc.method.as_str()) {
        Some(m) => m,
        None => return Err(ServiceError::NoMethod { rpc: at }),
    };
    let meta = &service.methods[m];
    if contains_name(declared, meta.name.as_str()) {
        return Err(ServiceError::DeclaredTwice { rpc: at });
    }
    if meta.client_streaming != rpc.client_stream {
        return Err(ServiceError::ClientStreaming { rpc: at, streaming: meta.client_streaming });
    }
    if meta.server_streaming != rpc.server_stream {
        return Err(ServiceError::ServerStreaming { rpc: at, streaming: meta.server_streaming });
    }
    let name = match ergonomic(rpc) {
        Some(name) => name,
        None => return Err(ServiceError::NoModuleSegment { rpc: at }),
    };
    if contains_name(ergonomics, name.as_str()) {
        return Err(ServiceError::DuplicateErgonomic { rpc: at });
    }
    let kind = if rpc.client_stream && rpc.server_stream {
        CallKind::Bidirectional
    } else if rpc.client_stream {
        CallKind::ClientStream
    } else if rpc.server_stream {
        CallKind::ServerStream
    } else {
        CallKind::Unary
    };
    let entry = Resolved { rpc: at, method: m, ergonomic: name, kind };
    proof {
        let rest = check_lines(
            service.methods@,
            def.rpcs@,
            at + 1,
            names_set(declared@).insert(meta.name@),
            names_set(ergonomics@).insert(entry.ergonomic@),
        );
        match rest {
            Ok(r) => {
                assert(seq![entry@] + r =~= seq![entry@] + r);
            },
            Err(_) => {},
        }
    }
    Ok(entry)
}

/// The lines checked in order: the resolved lines and the names they declare.
fn check_rpc_lines(def: &ServiceLines, service: &ServiceMeta) -> (r: Result<
    (Vec<Resolved>, Vec<String>),
    ServiceError,
>)
    ensures
        match r {
            Ok((resolved, declared)) => {
                &&& check_lines(service.methods@, def.rpcs@, 0, Set::empty(), Set::empty()) == Ok::<
                    Seq<ResolvedView>,
                    ServiceErrorView,
                >(resolved@.map_values(|x: Resolved| x@))
                &&& names_set(declared@) == declared_names(def.rpcs@)
            },
            Err(e) => check_lines(service.methods@, def.rpcs@, 0, Set::empty(), Set::empty())
                == Err::<Seq<ResolvedView>, ServiceErrorView>(e@),
        },
{
    let ghost methods = service.methods@;
    let ghost rpcs = def.rpcs@;
    let mut resolved: Vec<Resolved> = Vec::new();
    let mut declared: Vec<String> = Vec::new();
    let mut ergonomics: Vec<String> = Vec::new();
    let mut i: usize = 0;
    assert(names_set(declared@) =~= Set::<Seq<char>>::empty()) by {
        reveal(names_set);
    }
    assert(names_set(ergonomics@) =~= Set::<Seq<char>>::empty()) by {
        reveal(names_set);
    }
    assert(declared_names(rpcs.take(0)) =~= Set::<Seq<char>>::empty()) by {
        reveal(declared_names);
    }
    proof {
        match check_lines(methods, rpcs, 0, Set::empty(), Set::empty()) {
            Ok(r) => {
                assert(resolved@.map_values(|x: Resolved| x@) + r =~= r);
            },
            Err(_) => {},
        }
    }
    while i < def.rpcs.len()
        invariant
            i <= def.rpcs@.len(),
            methods == service.methods@,
            rpcs == def.rpcs@,
            check_lines(methods, rpcs, 0, Set::empty(), Set::empty()) == prepend(
                resolved@.map_values(|x: Resolved| x@),
                check_lines(methods, rpcs, i as int, names_set(declared@), names_set(ergonomics@)),
            ),
            names_set(declared@) == declared_names(rpcs.take(i as int)),
        decreases def.rpcs.len() - i,
    {
        let entry = check_line(service, def, i, &declared, &ergonomics)?;
        let ghost before = resolved@.map_values(|x: Resolved| x@);
        let ghost old_declared = declared@;
        let ghost old_ergonomics = ergonomics@;
        let ghost after = check_lines(
            methods,
            rpcs,
            i + 1,
            names_set(declared@).insert(methods[entry.method as int].name@),
            names_set(ergonomics@).insert(entry.ergonomic@),
        );
        declared.push(service.methods[entry.method].name.clone());
        ergonomics.push(entry.ergonomic.clone());
        let ghost entry_view = entry@;
        resolved.push(entry);
        proof {
            lemma_names_set_push(old_declared, declared@.last());
            lemma_names_set_push(old_ergonomics, ergonomics@.last());
            lemma_declared_names_step(rpcs, i as int);
            assert(resolved@.map_values(|x: Resolved| x@) =~= before.push(entry_view));
            match after {
                Ok(rest) => {
                    assert(before + (seq![entry_view] + rest) =~= before.push(entry_view) + rest);
                },
                Err(_) => {},
            }
        }
        i = i + 1;
    }
    assert(rpcs.take(i as int) =~= rpcs);
    proof {
        assert(resolved@.map_values(|x: Resolved| x@) + seq![] =~= resolved@.map_values(
            |x: Resolved| x@,
        ));
    }
    Ok((resolved, declared))
}

/// The first unexposed name that is no method, or that a line declares.
fn check_unexposed_names(def: &ServiceLines, service: &ServiceMeta, declared: &Vec<String>) -> (r: Option<ServiceError>)
    ensures
        match r {
            Some(e) => check_unexposed(service.methods@, def.unexposed@, names_set(declared@), 0)
                == Some(e@),
            None => check_unexposed(service.methods@, def.unexposed@, names_set(declared@), 0) is None,
        },
{
    let mut j: usize = 0;
    while j < def.unexposed.len()
        invariant
            j <= def.unexposed@.len(),
            check_unexposed(service.methods@, def.unexposed@, names_set(declared@), 0)
                == check_unexposed(service.methods@, def.unexposed@, names_set(declared@), j as int),
        decreases def.unexposed.len() - j,
    {
        let name = def.unexposed[j].as_str();
        if find_method(&service.methods, name).is_none() {
            return Some(ServiceError::UnknownUnexposed { unexposed: j });
        }
        if contains_name(declared, name) {
            return Some(ServiceError::UnexposedDeclared { unexposed: j });
        }
        j = j + 1;
    }
    None
}

/// The methods, in order, that are neither declared nor unexposed.
fn missing_method_indices(def: &ServiceLines, service: &ServiceMeta, declared: &Vec<String>) -> (missing: Vec<usize>)
    ensures
        missing@ == missing_methods(service.methods@, def.unexposed@, names_set(declared@)),
{
    let ghost methods = service.methods@;
    let mut missing: Vec<usize> = Vec::new();
    let mut k: usize = 0;
    while k < service.methods.len()
        invariant
            k <= service.methods@.len(),
            methods == service.methods@,
            missing@ == missing_methods(methods.take(k as int), def.unexposed@, names_set(declared@)),
        decreases service.methods.len() - k,
    {
        let name = service.methods[k].name.as_str();
        assert(methods.take(k + 1).drop_last() =~= methods.take(k as int));
        assert(methods.take(k + 1).last() == methods[k as int]);
        let is_declared = contains_name(declared, name);
        let is_unexposed = contains_name(&def.unexposed, name);
        assert(is_unexposed == exists|u: int|
            0 <= u < def.unexposed@.len() && (#[trigger] def.unexposed@[u])@ == name@) by {
            reveal(names_set);
        }
        if !is_declared && !is_unexposed {
            missing.push(k);
        }
        k = k + 1;
    }
    assert(methods.take(k as int) =~= methods);
    missing
}

/// Checks the lines of a `service!` invocation against the service's methods, in the order the
/// module documentation lists, and resolves every line.
pub fn validate(def: &ServiceLines, service: &ServiceMeta) -> (r: Result<Vec<Resolved>, ServiceError>)
    ensures
        match r {
            Ok(resolved) => validate_of(service, def) == Ok::<
                Seq<ResolvedView>,
                ServiceErrorView,
            >(resolved@.map_values(|x: Resolved| x@)),
            Err(e) => validate_of(service, def) == Err::<Seq<ResolvedView>, ServiceErrorView>(e@),
        },
{
    let (resolved, declared) = check_rpc_lines(def, service)?;
    if let Some(e) = check_unexposed_names(def, service, &declared) {
        return Err(e);
    }
    let missing = missing_method_indices(def, service, &declared);
    if missing.len() > 0 {
        return Err(ServiceError::Undeclared { missing });
    }
    Ok(resolved)
}

proof fn lemma_first_named(methods: Seq<MethodMeta>, name: Seq<char>, i: int)
    requires
        0 <= i < methods.len(),
        methods[i].name@ == name,
    ensures
        exists|c: int|
            0 <= c < methods.len() && methods[c].name@ == name && forall|j: int|
                0 <= j < c ==> (#[trigger] methods[j]).name@ != name,
    decreases i,
{
    if exists|j: int| 0 <= j < i && (#[trigger] methods[j]).name@ == name {
        let j = choose|j: int| 0 <= j < i && (#[trigger] methods[j]).name@ == name;
        lemma_first_named(methods, name, j);
    } else {
        assert(forall|j: int| 0 <= j < i ==> (#[trigger] methods[j]).name@ != name);
    }
}

proof fn lemma_method_position(methods: Seq<MethodMeta>, name: Seq<char>)
    ensures
        match method_position(methods, name) {
            Some(m) => 0 <= m < methods.len() && methods[m].name@ == name,
            None => true,
        },
{
    reveal(method_position);
    if exists|i: int| 0 <= i < methods.len() && (#[trigger] methods[i]).name@ == name {
        let i = choose|i: int| 0 <= i < methods.len() && (#[trigger] methods[i]).name@ == name;
        lemma_first_named(methods, name, i);
    }
}

/// What every resolved line satisfies, against the names taken before it.
pub open spec fn resolved_line(
    methods: Seq<MethodMeta>,
    rpcs: Seq<RpcLine>,
    r: ResolvedView,
    at: int,
    declared: Set<Seq<char>>,
    ergonomics: Set<Seq<char>>,
) -> bool {
    &&& r.rpc == at as usize
    &&& r.method < methods.len()
    &&& method_position(methods, rpcs[at].method@) == Some(r.method as int)
    &&& ergonomic_of(rpcs[at]) == Some(r.ergonomic)
    &&& r.kind == kind_of(rpcs[at])
    &&& methods[r.method as int].name@ == rpcs[at].method@
    &&& methods[r.method as int].client_streaming == rpcs[at].client_stream
    &&& methods[r.method as int].server_streaming == rpcs[at].server_stream
    &&& !declared.contains(methods[r.method as int].name@)
    &&& !ergonomics.contains(r.ergonomic)
}

#[verifier::spinoff_prover]
proof fn lemma_check_lines_shape(
    methods: Seq<MethodMeta>,
    rpcs: Seq<RpcLine>,
    i: int,
    declared: Set<Seq<char>>,
    ergonomics: Set<Seq<char>>,
)
    requires
        0 <= i <= rpcs.len(),
        methods.len() <= usize::MAX,
        rpcs.len() <= usize::MAX,
        check_lines(methods, rpcs, i, declared, ergonomics) is Ok,
    ensures
        ({
            let r = check_lines(methods, rpcs, i, declared, ergonomics)->Ok_0;
            &&& r.len() == rpcs.len() - i
            &&& forall|k: int|
                0 <= k < r.len() ==> resolved_line(
                    methods,
                    rpcs,
                    #[trigger] r[k],
                    i + k,
                    declared,
                    ergonomics,
                )
            &&& forall|a: int, b: int|
                0 <= a < r.len() && 0 <= b < r.len() && a != b ==> (#[trigger] r[a]).ergonomic
                    != (#[trigger] r[b]).ergonomic && r[a].method != r[b].method
        }),
    decreases rpcs.len() - i,
{
    if i < rpcs.len() {
        let rpc = rpcs[i];
        lemma_method_position(methods, rpc.method@);
        let m = method_position(methods, rpc.method@)->0;
        let meta = methods[m];
        let ergonomic = ergonomic_of(rpc)->0;
        let d2 = declared.insert(meta.name@);
        let e2 = ergonomics.insert(ergonomic);
        lemma_check_lines_shape(methods, rpcs, i + 1, d2, e2);
        let rest = check_lines(methods, rpcs, i + 1, d2, e2)->Ok_0;
        let r = check_lines(methods, rpcs, i, declared, ergonomics)->Ok_0;
        let head = ResolvedView { rpc: i as usize, method: m as usize, ergonomic, kind: kind_of(rpc) };
        assert(r == seq![head] + rest);
        assert(resolved_line(methods, rpcs, head, i, declared, ergonomics));
        assert forall|k: int| 0 <= k < r.len() implies resolved_line(
            methods,
            rpcs,
            #[trigger] r[k],
            i + k,
            declared,
            ergonomics,
        ) by {
            if k > 0 {
                assert(r[k] == rest[k - 1]);
                assert(resolved_line(methods, rpcs, rest[k - 1], i + 1 + (k - 1), d2, e2));
            }
        }
        assert forall|a: int, b: int|
            0 <= a < r.len() && 0 <= b < r.len() && a != b implies (#[trigger] r[a]).ergonomic
            != (#[trigger] r[b]).ergonomic && r[a].method != r[b].method by {
            if a == 0 {
                assert(r[b] == rest[b - 1]);
                assert(resolved_line(methods, rpcs, rest[b - 1], i + 1 + (b - 1), d2, e2));
            } else if b == 0 {
                assert(r[a] == rest[a - 1]);
                assert(resolved_line(methods, rpcs, rest[a - 1], i + 1 + (a - 1), d2, e2));
            } else {
                assert(r[a] == rest[a - 1]);
                assert(r[b] == rest[b - 1]);
            }
        }
    }
}

proof fn lemma_no_missing_method(methods: Seq<MethodMeta>, unexposed: Seq<String>, declared: Set<Seq<char>>)
    requires
        missing_methods(methods, unexposed, declared).len() == 0,
    ensures
        forall|m: int|
            0 <= m < methods.len() ==> declared.contains(#[trigger] methods[m].name@) || exists|k: int|
                0 <= k < unexposed.len() && (#[trigger] unexposed[k])@ == methods[m].name@,
    decreases methods.len(),
{
    if methods.len() > 0 {
        lemma_no_missing_method(methods.drop_last(), unexposed, declared);
        assert forall|m: int| 0 <= m < methods.len() implies declared.contains(
            #[trigger] methods[m].name@,
        ) || exists|k: int| 0 <= k < unexposed.len() && (#[trigger] unexposed[k])@ == methods[m].name@ by {
            if m < methods.len() - 1 {
                assert(methods.drop_last()[m] == methods[m]);
            }
        }
    }
}

/// A validated `service!` resolves every line, in order, to the method it names, with the
/// streaming the proto gives it; no two lines share a method or a handler name; and every method
/// of the service is declared by a line or listed as unexposed.
pub proof fn lemma_validated_service(service: &ServiceMeta, def: &ServiceLines)
    requires
        validate_of(service, def) is Ok,
    ensures
        ({
            let methods = service.methods@;
            let rpcs = def.rpcs@;
            let r = validate_of(service, def)->Ok_0;
            &&& r.len() == rpcs.len()
            &&& forall|k: int|
                0 <= k < r.len() ==> resolved_line(
                    methods,
                    rpcs,
                    #[trigger] r[k],
                    k,
                    Set::empty(),
                    Set::empty(),
                )
            &&& forall|a: int, b: int|
                0 <= a < r.len() && 0 <= b < r.len() && a != b ==> (#[trigger] r[a]).ergonomic
                    != (#[trigger] r[b]).ergonomic && r[a].method != r[b].method
            &&& forall|m: int|
                0 <= m < methods.len() ==> declared_names(rpcs).contains(#[trigger] methods[m].name@)
                    || exists|k: int|
                    0 <= k < def.unexposed@.len() && (#[trigger] def.unexposed@[k])@ == methods[m].name@
        }),
{
    let methods = service.methods@;
    assert(service.methods.len() == methods.len());
    assert(def.rpcs.len() == def.rpcs@.len());
    lemma_check_lines_shape(methods, def.rpcs@, 0, Set::empty(), Set::empty());
    let r = validate_of(service, def)->Ok_0;
    assert forall|k: int| 0 <= k < r.len() implies resolved_line(
        methods,
        def.rpcs@,
        #[trigger] r[k],
        k,
        Set::empty(),
        Set::empty(),
    ) by {
        assert(resolved_line(methods, def.rpcs@, r[k], 0 + k, Set::empty(), Set::empty()));
    }
    lemma_no_missing_method(methods, def.unexposed@, declared_names(def.rpcs@));
}

/// The input and output messages of the first `n` unexposed methods, in order.
pub open spec fn unexposed_messages_of(methods: Seq<MethodMeta>, unexposed: Seq<String>, n: int) -> Seq<
    Seq<char>,
>
    decreases n,
{
    if n <= 0 {
        seq![]
    } else {
        let i = method_position(methods, unexposed[n - 1]@).unwrap();
        unexposed_messages_of(methods, unexposed, n - 1) + seq![methods[i].input@, methods[i].output@]
    }
}

/// The messages of the unexposed methods, which no Rust type stands for: each method's input,
/// then its output. Every unexposed name is one of the service's methods, as [`validate`]
/// requires.
pub fn unexposed_messages(service: &ServiceMeta, unexposed: &Vec<String>) -> (r: Vec<String>)
    requires
        forall|k: int|
            0 <= k < unexposed@.len() ==> method_position(service.methods@, (#[trigger] unexposed@[k])@) is Some,
    ensures
        crate::descriptor::strings_view(r@) == unexposed_messages_of(
            service.methods@,
            unexposed@,
            unexposed@.len() as int,
        ),
{
    let mut out: Vec<String> = Vec::new();
    let mut k: usize = 0;
    while k < unexposed.len()
        invariant
            k <= unexposed@.len(),
            forall|j: int|
                0 <= j < unexposed@.len() ==> method_position(service.methods@, (#[trigger] unexposed@[j])@) is Some,
            crate::descriptor::strings_view(out@) == unexposed_messages_of(service.methods@, unexposed@, k as int),
        decreases unexposed.len() - k,
    {
        assert(method_position(service.methods@, unexposed@[k as int]@) is Some);
        match find_method(&service.methods, unexposed[k].as_str()) {
            Some(i) => {
                let ghost before = crate::descriptor::strings_view(out@);
                out.push(service.methods[i].input.clone());
                out.push(service.methods[i].output.clone());
                assert(crate::descriptor::strings_view(out@) =~= before + seq![
                    service.methods@[i as int].input@,
                    service.methods@[i as int].output@,
                ]);
            },
            None => {},
        }
        k = k + 1;
    }
    out
}

pub open spec fn convenience_path_message() -> Seq<char> {
    "convenience emission needs a `module::Type` request path; use `manual` to opt out"@
}

/// Where a line's client convenience method comes from: nothing for a `manual` line; otherwise the
/// request path's parent segments and the field-reflection callback its type declares, named
/// after the type in snake case, or an error when the path has no parent.
pub open spec fn convenience_of(rpc: RpcLine) -> Result<Option<(Seq<Seq<char>>, Seq<char>)>, Seq<char>> {
    if rpc.manual {
        Ok(None)
    } else if rpc.request@.len() < 2 {
        Err(convenience_path_message())
    } else {
        let segments = crate::descriptor::strings_view(rpc.request@);
        Ok(
            Some(
                (
                    segments.drop_last(),
                    "__armonik_fields_"@ + crate::names::snake_of(segments.last()),
                ),
            ),
        )
    }
}

/// Where a line's client convenience method comes from, as [`convenience_of`] says.
pub fn convenience_target(rpc: &RpcLine) -> (r: Result<Option<(Vec<String>, String)>, String>)
    ensures
        match r {
            Ok(None) => convenience_of(*rpc) == Ok::<Option<(Seq<Seq<char>>, Seq<char>)>, Seq<char>>(None),
            Ok(Some((parents, callback))) => convenience_of(*rpc) == Ok::<
                Option<(Seq<Seq<char>>, Seq<char>)>,
                Seq<char>,
            >(Some((crate::descriptor::strings_view(parents@), callback@))),
            Err(e) => convenience_of(*rpc) == Err::<Option<(Seq<Seq<char>>, Seq<char>)>, Seq<char>>(e@),
        },
{
    if rpc.manual {
        return Ok(None);
    }
    let n = rpc.request.len();
    if n < 2 {
        return Err("convenience emission needs a `module::Type` request path; use `manual` to opt out".to_owned());
    }
    let mut parents: Vec<String> = Vec::new();
    let mut k: usize = 0;
    while k < n - 1
        invariant
            n == rpc.request@.len(),
            n >= 2,
            k <= n - 1,
            crate::descriptor::strings_view(parents@) =~= crate::descriptor::strings_view(rpc.request@).take(
                k as int,
            ),
        decreases n - 1 - k,
    {
        let ghost before = crate::descriptor::strings_view(parents@);
        parents.push(rpc.request[k].clone());
        assert(crate::descriptor::strings_view(parents@) =~= before.push(rpc.request@[k as int]@));
        k = k + 1;
    }
    let mut callback: Vec<char> = Vec::new();
    crate::text::push_str(&mut callback, "__armonik_fields_");
    let stem = crate::names::snake(rpc.request[n - 1].as_str());
    crate::text::push_str(&mut callback, stem.as_str());
    proof {
        let segments = crate::descriptor::strings_view(rpc.request@);
        assert(segments.take(k as int) =~= segments.drop_last());
        assert(callback@ =~= "__armonik_fields_"@ + crate::names::snake_of(segments.last()));
    }
    Ok(Some((parents, string_of(callback.as_slice()))))
}

/// Whether every index `e` holds points into the lines, the unexposed names or the methods, and
/// a duplicate handler name's line has one.
pub open spec fn error_in_range(e: ServiceErrorView, def: ServiceLines, service: ServiceMeta) -> bool {
    match e {
        ServiceErrorView::NoMethod { rpc } => rpc < def.rpcs@.len(),
        ServiceErrorView::DeclaredTwice { rpc } => rpc < def.rpcs@.len(),
        ServiceErrorView::ClientStreaming { rpc, .. } => rpc < def.rpcs@.len(),
        ServiceErrorView::ServerStreaming { rpc, .. } => rpc < def.rpcs@.len(),
        ServiceErrorView::NoModuleSegment { rpc } => rpc < def.rpcs@.len(),
        ServiceErrorView::DuplicateErgonomic { rpc } => rpc < def.rpcs@.len() && ergonomic_of(
            def.rpcs@[rpc as int],
        ) is Some,
        ServiceErrorView::UnknownUnexposed { unexposed } => unexposed < def.unexposed@.len(),
        ServiceErrorView::UnexposedDeclared { unexposed } => unexposed < def.unexposed@.len(),
        ServiceErrorView::Undeclared { missing } => forall|k: int|
            0 <= k < missing.len() ==> (#[trigger] missing[k]) < service.methods@.len(),
    }
}

pub open spec fn is_or_not(b: bool) -> Seq<char> {
    if b {
        "is"@
    } else {
        "is not"@
    }
}

/// The text a rejection reads as, for the service whose full proto name is `name`.
pub open spec fn error_message_of(
    e: ServiceErrorView,
    name: Seq<char>,
    def: ServiceLines,
    service: ServiceMeta,
) -> Seq<char> {
    match e {
        ServiceErrorView::NoMethod { rpc } => "service `"@ + name + "` has no method `"@
            + def.rpcs@[rpc as int].method@ + "`"@,
        ServiceErrorView::DeclaredTwice { rpc } => "method `"@ + def.rpcs@[rpc as int].method@
            + "` is declared twice"@,
        ServiceErrorView::ClientStreaming { rpc, streaming } => "`"@ + def.rpcs@[rpc as int].method@
            + "` "@ + is_or_not(streaming) + " client-streaming in the proto"@,
        ServiceErrorView::ServerStreaming { rpc, streaming } => "`"@ + def.rpcs@[rpc as int].method@
            + "` "@ + is_or_not(streaming) + " server-streaming in the proto"@,
        ServiceErrorView::NoModuleSegment { .. } =>
            "the request path has no module segment to derive the method name from; add an `as name` override"@,
        ServiceErrorView::DuplicateErgonomic { rpc } => "two RPCs would both be named `"@ + ergonomic_of(
            def.rpcs@[rpc as int],
        ).unwrap() + "`; disambiguate with `as name`"@,
        ServiceErrorView::UnknownUnexposed { unexposed } => "service `"@ + name + "` has no method `"@
            + def.unexposed@[unexposed as int]@ + "`"@,
        ServiceErrorView::UnexposedDeclared { unexposed } => "`"@ + def.unexposed@[unexposed as int]@
            + "` is declared as an rpc and cannot also be unexposed"@,
        ServiceErrorView::Undeclared { missing } => "service `"@ + name + "` has undeclared methods: "@
            + crate::text::join_of(
            missing.map_values(|m: usize| service.methods@[m as int].name@),
            ", "@,
        ) + "; add `rpc` lines or list them in `unexposed(...)`"@,
    }
}

fn text_of(parts: &Vec<&str>) -> (t: String)
    ensures
        t@ == parts@.fold_left(Seq::<char>::empty(), |acc: Seq<char>, p: &str| acc + p@),
{
    let mut out: Vec<char> = Vec::new();
    let mut i: usize = 0;
    while i < parts.len()
        invariant
            i <= parts@.len(),
            out@ == parts@.take(i as int).fold_left(Seq::<char>::empty(), |acc: Seq<char>, p: &str| acc + p@),
        decreases parts.len() - i,
    {
        crate::text::push_str(&mut out, parts[i]);
        proof {
            let f = |acc: Seq<char>, p: &str| acc + p@;
            assert(parts@.take(i + 1).drop_last() =~= parts@.take(i as int));
        }
        i = i + 1;
    }
    assert(parts@.take(i as int) =~= parts@);
    string_of(out.as_slice())
}

/// The text a rejection reads as, for the service whose full proto name is `name`.
pub fn error_message(e: &ServiceError, name: &str, def: &ServiceLines, service: &ServiceMeta) -> (text: String)
    requires
        error_in_range(e@, *def, *service),
    ensures
        text@ == error_message_of(e@, name@, *def, *service),
{
    let t = match e {
        ServiceError::NoMethod { rpc } => text_of(&vec!["service `", name, "` has no method `", def.rpcs[*rpc].method.as_str(), "`"]),
        ServiceError::DeclaredTwice { rpc } => text_of(&vec!["method `", def.rpcs[*rpc].method.as_str(), "` is declared twice"]),
        ServiceError::ClientStreaming { rpc, streaming } => text_of(&vec![
            "`",
            def.rpcs[*rpc].method.as_str(),
            "` ",
            if *streaming { "is" } else { "is not" },
            " client-streaming in the proto",
        ]),
        ServiceError::ServerStreaming { rpc, streaming } => text_of(&vec![
            "`",
            def.rpcs[*rpc].method.as_str(),
            "` ",
            if *streaming { "is" } else { "is not" },
            " server-streaming in the proto",
        ]),
        ServiceError::NoModuleSegment { .. } => text_of(&vec![
            "the request path has no module segment to derive the method name from; add an `as name` override",
        ]),
        ServiceError::DuplicateErgonomic { rpc } => {
            let handler = match ergonomic(&def.rpcs[*rpc]) {
                Some(n) => n,
                None => String::new(),
            };
            text_of(&vec!["two RPCs would both be named `", handler.as_str(), "`; disambiguate with `as name`"])
        },
        ServiceError::UnknownUnexposed { unexposed } => text_of(&vec![
            "service `",
            name,
            "` has no method `",
            def.unexposed[*unexposed].as_str(),
            "`",
        ]),
        ServiceError::UnexposedDeclared { unexposed } => text_of(&vec![
            "`",
            def.unexposed[*unexposed].as_str(),
            "` is declared as an rpc and cannot also be unexposed",
        ]),
        ServiceError::Undeclared { missing } => {
            let mut names: Vec<String> = Vec::new();
            assert(e@ == ServiceErrorView::Undeclared { missing: missing@ });
            assert(forall|j: int|
                0 <= j < missing@.len() ==> (#[trigger] missing@[j]) < service.methods@.len()) by {
                assert(error_in_range(e@, *def, *service));
                let ev = e@;
                assert(ev matches ServiceErrorView::Undeclared { missing: ms } && ms == missing@);
                assert(error_in_range(ServiceErrorView::Undeclared { missing: missing@ }, *def, *service));
            }
            let mut k: usize = 0;
            while k < missing.len()
                invariant
                    k <= missing@.len(),
                    forall|j: int| 0 <= j < missing@.len() ==> (#[trigger] missing@[j]) < service.methods@.len(),
                    names@.map_values(|p: String| p@) =~= missing@.take(k as int).map_values(
                        |m: usize| service.methods@[m as int].name@,
                    ),
                decreases missing.len() - k,
            {
                let ghost before = names@.map_values(|p: String| p@);
                names.push(service.methods[missing[k]].name.clone());
                proof {
                    let f = |m: usize| service.methods@[m as int].name@;
                    assert(names@.map_values(|p: String| p@) =~= before.push(f(missing@[k as int])));
                    assert(missing@.take(k + 1).map_values(f) =~= missing@.take(k as int).map_values(f).push(
                        f(missing@[k as int]),
                    ));
                }
                k = k + 1;
            }
            assert(missing@.take(k as int) =~= missing@);
            let joined = string_of(crate::text::join(&names, ", ").as_slice());
            text_of(&vec![
                "service `",
                name,
                "` has undeclared methods: ",
                joined.as_str(),
                "; add `rpc` lines or list them in `unexposed(...)`",
            ])
        },
    };
    proof {
        reveal_with_fuel(Seq::fold_left, 6);
    }
    t
}

/// What one exposed rpc line emits: its `Rpc` constants (`METHOD`, `PATH`, `LABEL`), its call
/// shape and the router helper serving it, the handler method of the service trait, the proto
/// messages its request and response types are asserted against, and the method's docs.
pub struct RpcEmission {
    pub rpc: usize,
    pub method: String,
    pub path: String,
    pub label: String,
    pub handler: String,
    pub kind: CallKind,
    pub serve: String,
    pub input: String,
    pub output: String,
    pub docs: Vec<String>,
}

pub struct RpcEmissionView {
    pub rpc: usize,
    pub method: Seq<char>,
    pub path: Seq<char>,
    pub label: Seq<char>,
    pub handler: Seq<char>,
    pub kind: CallKind,
    pub serve: Seq<char>,
    pub input: Seq<char>,
    pub output: Seq<char>,
    pub docs: Seq<Seq<char>>,
}

pub open spec fn rpc_emission_view(e: RpcEmission) -> RpcEmissionView {
    RpcEmissionView {
        rpc: e.rpc,
        method: e.method@,
        path: e.path@,
        label: e.label@,
        handler: e.handler@,
        kind: e.kind,
        serve: e.serve@,
        input: e.input@,
        output: e.output@,
        docs: crate::descriptor::strings_view(e.docs@),
    }
}

/// The router helper that serves a call shape.
pub open spec fn serve_of(kind: CallKind) -> Seq<char> {
    match kind {
        CallKind::Unary => "serve_unary"@,
        CallKind::ServerStream => "serve_server_stream"@,
        CallKind::ClientStream => "serve_client_stream"@,
        CallKind::Bidirectional => seq![],
    }
}

/// What the resolved line `r` emits, for the service `full_name` whose marker is `marker`.
pub open spec fn rpc_emission_of(
    marker: Seq<char>,
    full_name: Seq<char>,
    service: ServiceMeta,
    def: ServiceLines,
    r: ResolvedView,
) -> RpcEmissionView {
    let method = def.rpcs@[r.rpc as int].method@;
    let meta = service.methods@[r.method as int];
    RpcEmissionView {
        rpc: r.rpc,
        method,
        path: "/"@ + full_name + "/"@ + method,
        label: marker + "::"@ + r.ergonomic,
        handler: r.ergonomic,
        kind: r.kind,
        serve: serve_of(r.kind),
        input: meta.input@,
        output: meta.output@,
        docs: crate::descriptor::strings_view(meta.docs@),
    }
}

/// The emissions of the first `n` resolved lines, bidirectional ones left out: no router helper
/// serves a bidirectional call, so it is answered as an unexposed method is.
pub open spec fn rpc_emissions_of(
    marker: Seq<char>,
    full_name: Seq<char>,
    service: ServiceMeta,
    def: ServiceLines,
    resolved: Seq<ResolvedView>,
    n: int,
) -> Seq<RpcEmissionView>
    decreases n,
{
    if n <= 0 {
        seq![]
    } else {
        let head = rpc_emissions_of(marker, full_name, service, def, resolved, n - 1);
        if resolved[n - 1].kind is Bidirectional {
            head
        } else {
            head.push(rpc_emission_of(marker, full_name, service, def, resolved[n - 1]))
        }
    }
}

/// What one `service!` invocation emits, as plain values: the marker and the proto name its
/// `Service` impl carries, the service docs, the fingerprint tripwire, whether the client alias
/// is deprecated, the server trait, extension trait and server function names, every exposed
/// rpc, and the messages of the unexposed methods.
pub struct ServiceEmission {
    pub marker: String,
    pub full_name: String,
    pub docs: Vec<String>,
    pub fingerprint: u64,
    pub deprecated: bool,
    pub trait_name: String,
    pub ext_name: String,
    pub server_fn: String,
    pub rpcs: Vec<RpcEmission>,
    pub unexposed_messages: Vec<String>,
}

pub struct ServiceEmissionView {
    pub marker: Seq<char>,
    pub full_name: Seq<char>,
    pub docs: Seq<Seq<char>>,
    pub fingerprint: u64,
    pub deprecated: bool,
    pub trait_name: Seq<char>,
    pub ext_name: Seq<char>,
    pub server_fn: Seq<char>,
    pub rpcs: Seq<RpcEmissionView>,
    pub unexposed_messages: Seq<Seq<char>>,
}

pub open spec fn service_emission_view(e: ServiceEmission) -> ServiceEmissionView {
    ServiceEmissionView {
        marker: e.marker@,
        full_name: e.full_name@,
        docs: crate::descriptor::strings_view(e.docs@),
        fingerprint: e.fingerprint,
        deprecated: e.deprecated,
        trait_name: e.trait_name@,
        ext_name: e.ext_name@,
        server_fn: e.server_fn@,
        rpcs: e.rpcs@.map_values(|r: RpcEmission| rpc_emission_view(r)),
        unexposed_messages: crate::descriptor::strings_view(e.unexposed_messages@),
    }
}

/// What the invocation with marker `marker`, for the service `full_name` of the descriptor with
/// fingerprint `fingerprint`, emits from its resolved lines.
pub open spec fn service_emission_of(
    marker: Seq<char>,
    full_name: Seq<char>,
    deprecated: bool,
    fingerprint: u64,
    service: ServiceMeta,
    def: ServiceLines,
    resolved: Seq<ResolvedView>,
) -> ServiceEmissionView {
    ServiceEmissionView {
        marker,
        full_name,
        docs: crate::descriptor::strings_view(service.docs@),
        fingerprint,
        deprecated,
        trait_name: marker + "Service"@,
        ext_name: marker + "ServiceExt"@,
        server_fn: crate::names::snake_of(marker) + "_server"@,
        rpcs: rpc_emissions_of(marker, full_name, service, def, resolved, resolved.len() as int),
        unexposed_messages: unexposed_messages_of(service.methods@, def.unexposed@, def.unexposed@.len() as int),
    }
}

/// What one `service!` invocation emits, as [`service_emission_of`] says; `resolved` are its
/// lines as [`validate`] resolved them.
pub fn service_emission(
    marker: &str,
    full_name: &str,
    deprecated: bool,
    fingerprint: u64,
    service: &ServiceMeta,
    def: &ServiceLines,
    resolved: &Vec<Resolved>,
) -> (out: ServiceEmission)
    requires
        forall|k: int|
            0 <= k < resolved@.len() ==> (#[trigger] resolved@[k]).rpc < def.rpcs@.len() && resolved@[k].method
                < service.methods@.len(),
        forall|k: int|
            0 <= k < def.unexposed@.len() ==> method_position(service.methods@, (#[trigger] def.unexposed@[k])@) is Some,
    ensures
        service_emission_view(out) == service_emission_of(
            marker@,
            full_name@,
            deprecated,
            fingerprint,
            *service,
            *def,
            resolved@.map_values(|r: Resolved| r@),
        ),
{
    let ghost views = resolved@.map_values(|r: Resolved| r@);
    let mut rpcs: Vec<RpcEmission> = Vec::new();
    let mut k: usize = 0;
    while k < resolved.len()
        invariant
            k <= resolved@.len(),
            views == resolved@.map_values(|r: Resolved| r@),
            forall|j: int|
                0 <= j < resolved@.len() ==> (#[trigger] resolved@[j]).rpc < def.rpcs@.len() && resolved@[j].method
                    < service.methods@.len(),
            rpcs@.map_values(|r: RpcEmission| rpc_emission_view(r)) == rpc_emissions_of(
                marker@,
                full_name@,
                *service,
                *def,
                views,
                k as int,
            ),
        decreases resolved.len() - k,
    {
        let r = &resolved[k];
        let ghost before = rpcs@.map_values(|x: RpcEmission| rpc_emission_view(x));
        match r.kind {
            CallKind::Bidirectional => {},
            _ => {
                let method = &def.rpcs[r.rpc].method;
                let meta = &service.methods[r.method];
                let serve = match r.kind {
                    CallKind::Unary => "serve_unary",
                    CallKind::ServerStream => "serve_server_stream",
                    _ => "serve_client_stream",
                };
                let e = RpcEmission {
                    rpc: r.rpc,
                    method: method.clone(),
                    path: text_of(&vec!["/", full_name, "/", method.as_str()]),
                    label: text_of(&vec![marker, "::", r.ergonomic.as_str()]),
                    handler: r.ergonomic.clone(),
                    kind: r.kind,
                    serve: text_of(&vec![serve]),
                    input: meta.input.clone(),
                    output: meta.output.clone(),
                    docs: crate::descriptor::clone_strings(&meta.docs),
                };
                proof {
                    reveal_with_fuel(Seq::fold_left, 6);
                    assert(views[k as int] == r@);
                    assert(rpc_emission_view(e) == rpc_emission_of(marker@, full_name@, *service, *def, r@));
                }
                rpcs.push(e);
                assert(rpcs@.map_values(|x: RpcEmission| rpc_emission_view(x)) =~= before.push(
                    rpc_emission_view(e),
                ));
            },
        }
        proof {
            assert(views[k as int] == r@);
        }
        k = k + 1;
    }
    let server_fn = text_of(&vec![crate::names::snake(marker).as_str(), "_server"]);
    let out = ServiceEmission {
        marker: text_of(&vec![marker]),
        full_name: text_of(&vec![full_name]),
        docs: crate::descriptor::clone_strings(&service.docs),
        fingerprint,
        deprecated,
        trait_name: text_of(&vec![marker, "Service"]),
        ext_name: text_of(&vec![marker, "ServiceExt"]),
        server_fn,
        rpcs,
        unexposed_messages: unexposed_messages(service, &def.unexposed),
    };
    proof {
        reveal_with_fuel(Seq::fold_left, 4);
    }
    out
}

/// How a convenience method reads its response: whole, dropped, one named field, or, for `auto`,
/// decided by the response's fields.
pub enum Projection {
    Whole,
    Discard,
    Field(String),
    Auto,
}

/// What a convenience method gives.
pub enum Returned {
    /// The whole response.
    Whole,
    /// Nothing: the response is dropped.
    Unit,
    /// One field of the response, typed by the alias `alias` under `parent`.
    Field { field: String, parent: Vec<String>, alias: String },
}

/// How a convenience method widens one request field into its parameter: as the field's own type,
/// as anything `Into` it, as any iterable of items `Into` its element, as any iterable of pairs
/// `Into` its key and value, or as any iterable of iterables of its filter element.
#[derive(PartialEq, Eq, Structural, Clone, Copy, Debug)]
pub enum SugarClass {
    Plain,
    Into,
    Iter,
    Pairs,
    Filters,
}

/// One parameter of a convenience method: the request field it fills, how it is widened, and the
/// type aliases, under the request type's parent, its type is written with (the field's own; its
/// element's; its key's and value's).
pub struct Param {
    pub name: String,
    pub class: SugarClass,
    pub aliases: Vec<String>,
}

pub struct ParamView {
    pub name: Seq<char>,
    pub class: SugarClass,
    pub aliases: Seq<Seq<char>>,
}

pub open spec fn param_view(p: Param) -> ParamView {
    ParamView { name: p.name@, class: p.class, aliases: crate::descriptor::strings_view(p.aliases@) }
}

/// The alias of the request type `stem` for `suffix`.
pub open spec fn field_alias_of(stem: Seq<char>, suffix: Seq<char>) -> Seq<char> {
    "__armonik_ty_"@ + stem + "_"@ + suffix
}

/// The parameter the request field `name` of the request type `stem` becomes under `class`.
pub open spec fn param_of(stem: Seq<char>, name: Seq<char>, class: SugarClass) -> ParamView {
    ParamView {
        name,
        class,
        aliases: match class {
            SugarClass::Plain | SugarClass::Into => seq![field_alias_of(stem, name)],
            SugarClass::Iter | SugarClass::Filters => seq![field_alias_of(stem, name + "_elem"@)],
            SugarClass::Pairs => seq![
                field_alias_of(stem, name + "_key"@),
                field_alias_of(stem, name + "_value"@),
            ],
        },
    }
}

/// The parameters of the request fields, in order.
pub open spec fn params_of(stem: Seq<char>, fields: Seq<(String, SugarClass)>) -> Seq<ParamView> {
    fields.map_values(|f: (String, SugarClass)| param_of(stem, f.0@, f.1))
}

/// What emitting a convenience method comes to.
pub enum Convenience {
    /// An `auto` projection whose response fields are not known yet: the response type's field
    /// callback, under `parent`, to go through first.
    Hop { parent: Vec<String>, callback: String },
    /// The method: what it gives, whether as a stream of it, where the request type's parameter
    /// aliases live, and its parameters, one per request field, in order.
    Method { gives: Returned, stream: bool, request_parent: Vec<String>, request_stem: String, params: Vec<Param> },
}

pub enum ReturnedView {
    Whole,
    Unit,
    Field { field: Seq<char>, parent: Seq<Seq<char>>, alias: Seq<char> },
}

pub enum ConvenienceView {
    Hop { parent: Seq<Seq<char>>, callback: Seq<char> },
    Method {
        gives: ReturnedView,
        stream: bool,
        request_parent: Seq<Seq<char>>,
        request_stem: Seq<char>,
        params: Seq<ParamView>,
    },
}

pub open spec fn convenience_view(c: Convenience) -> ConvenienceView {
    match c {
        Convenience::Hop { parent, callback } => ConvenienceView::Hop {
            parent: crate::descriptor::strings_view(parent@),
            callback: callback@,
        },
        Convenience::Method { gives, stream, request_parent, request_stem, params } => ConvenienceView::Method {
            gives: match gives {
                Returned::Whole => ReturnedView::Whole,
                Returned::Unit => ReturnedView::Unit,
                Returned::Field { field, parent, alias } => ReturnedView::Field {
                    field: field@,
                    parent: crate::descriptor::strings_view(parent@),
                    alias: alias@,
                },
            },
            stream,
            request_parent: crate::descriptor::strings_view(request_parent@),
            request_stem: request_stem@,
            params: params@.map_values(|p: Param| param_view(p)),
        },
    }
}

pub open spec fn module_path_message() -> Seq<char> {
    "expected a `module::Type` path"@
}

pub open spec fn discard_stream_message() -> Seq<char> {
    "`=> ()` is not valid on a server-streaming rpc"@
}

/// The projection an `auto` reading comes to once the response's fields are known: the field for
/// exactly one, the whole response otherwise.
pub open spec fn auto_projection(fields: Seq<Seq<char>>) -> ReturnedView {
    if fields.len() == 1 {
        ReturnedView::Field { field: fields[0], parent: seq![], alias: seq![] }
    } else {
        ReturnedView::Whole
    }
}

/// A convenience method from its projection, the response's fields when they are known, whether
/// the rpc streams its response, the request and response type paths, segment by segment, and the
/// request's fields with their sugar classes.
pub open spec fn convenience_method_of(
    project: Projection,
    response_fields: Option<Seq<Seq<char>>>,
    stream: bool,
    request: Seq<Seq<char>>,
    response: Seq<Seq<char>>,
    request_fields: Seq<(String, SugarClass)>,
) -> Result<ConvenienceView, Seq<char>> {
    // The projection once `auto` is decided; `None` for the hop.
    let wanted: Option<ReturnedView> = match project {
        Projection::Whole => Some(ReturnedView::Whole),
        Projection::Discard => Some(ReturnedView::Unit),
        Projection::Field(f) => Some(ReturnedView::Field { field: f@, parent: seq![], alias: seq![] }),
        Projection::Auto => match response_fields {
            Some(fields) => Some(auto_projection(fields)),
            None => None,
        },
    };
    match wanted {
        None => if response.len() < 2 {
            Err(module_path_message())
        } else {
            Ok(
                ConvenienceView::Hop {
                    parent: response.drop_last(),
                    callback: "__armonik_fields_"@ + crate::names::snake_of(response.last()),
                },
            )
        },
        Some(w) => if request.len() < 2 {
            Err(module_path_message())
        } else {
            let method = |gives: ReturnedView|
                ConvenienceView::Method {
                    gives,
                    stream,
                    request_parent: request.drop_last(),
                    request_stem: crate::names::snake_of(request.last()),
                    params: params_of(crate::names::snake_of(request.last()), request_fields),
                };
            match w {
                ReturnedView::Whole => Ok(method(ReturnedView::Whole)),
                ReturnedView::Unit => if stream {
                    Err(discard_stream_message())
                } else {
                    Ok(method(ReturnedView::Unit))
                },
                ReturnedView::Field { field, .. } => if response.len() < 2 {
                    Err(module_path_message())
                } else {
                    Ok(
                        method(
                            ReturnedView::Field {
                                field,
                                parent: response.drop_last(),
                                alias: "__armonik_ty_"@ + crate::names::snake_of(response.last()) + "_"@
                                    + field,
                            },
                        ),
                    )
                },
            }
        },
    }
}

fn parent_of(path: &Vec<String>) -> (parent: Vec<String>)
    requires
        path@.len() >= 1,
    ensures
        crate::descriptor::strings_view(parent@) == crate::descriptor::strings_view(path@).drop_last(),
{
    let mut parent: Vec<String> = Vec::new();
    let mut k: usize = 0;
    while k < path.len() - 1
        invariant
            path@.len() >= 1,
            k <= path@.len() - 1,
            crate::descriptor::strings_view(parent@) =~= crate::descriptor::strings_view(path@).take(k as int),
        decreases path.len() - 1 - k,
    {
        let ghost before = crate::descriptor::strings_view(parent@);
        parent.push(path[k].clone());
        assert(crate::descriptor::strings_view(parent@) =~= before.push(path@[k as int]@));
        k = k + 1;
    }
    parent
}

fn field_alias(stem: &str, name: &str, tail: &str) -> (a: String)
    ensures
        a@ == field_alias_of(stem@, name@ + tail@),
{
    let a = text_of(&vec!["__armonik_ty_", stem, "_", name, tail]);
    proof {
        reveal_with_fuel(Seq::fold_left, 6);
        assert(a@ =~= field_alias_of(stem@, name@ + tail@));
    }
    a
}

fn param(stem: &String, name: &String, class: SugarClass) -> (p: Param)
    ensures
        param_view(p) == param_of(stem@, name@, class),
{
    let aliases = match class {
        SugarClass::Plain | SugarClass::Into => {
            let a = field_alias(stem.as_str(), name.as_str(), "");
            proof {
                reveal_strlit("");
                assert(name@ + ""@ =~= name@);
            }
            vec![a]
        },
        SugarClass::Iter | SugarClass::Filters => vec![field_alias(stem.as_str(), name.as_str(), "_elem")],
        SugarClass::Pairs => vec![
            field_alias(stem.as_str(), name.as_str(), "_key"),
            field_alias(stem.as_str(), name.as_str(), "_value"),
        ],
    };
    assert(crate::descriptor::strings_view(aliases@) =~= param_of(stem@, name@, class).aliases);
    Param { name: name.clone(), class, aliases }
}

fn params(stem: &String, fields: &Vec<(String, SugarClass)>) -> (ps: Vec<Param>)
    ensures
        ps@.map_values(|p: Param| param_view(p)) == params_of(stem@, fields@),
{
    let mut ps: Vec<Param> = Vec::new();
    let mut k: usize = 0;
    while k < fields.len()
        invariant
            k <= fields@.len(),
            ps@.map_values(|p: Param| param_view(p)) =~= params_of(stem@, fields@.take(k as int)),
        decreases fields.len() - k,
    {
        let p = param(stem, &fields[k].0, fields[k].1);
        let ghost before = ps@.map_values(|p: Param| param_view(p));
        ps.push(p);
        assert(fields@.take(k + 1) =~= fields@.take(k as int).push(fields@[k as int]));
        assert(ps@.map_values(|p: Param| param_view(p)) =~= before.push(param_view(p)));
        k = k + 1;
    }
    assert(fields@.take(k as int) =~= fields@);
    ps
}

/// A convenience method, as [`convenience_method_of`] says.
pub fn convenience_method(
    project: &Projection,
    response_fields: &Option<Vec<String>>,
    stream: bool,
    request: &Vec<String>,
    response: &Vec<String>,
    request_fields: &Vec<(String, SugarClass)>,
) -> (r: Result<Convenience, String>)
    ensures
        match r {
            Ok(c) => convenience_method_of(
                *project,
                match response_fields {
                    Some(f) => Some(crate::descriptor::strings_view(f@)),
                    None => None,
                },
                stream,
                crate::descriptor::strings_view(request@),
                crate::descriptor::strings_view(response@),
                request_fields@,
            ) == Ok::<ConvenienceView, Seq<char>>(convenience_view(c)),
            Err(e) => convenience_method_of(
                *project,
                match response_fields {
                    Some(f) => Some(crate::descriptor::strings_view(f@)),
                    None => None,
                },
                stream,
                crate::descriptor::strings_view(request@),
                crate::descriptor::strings_view(response@),
                request_fields@,
            ) == Err::<ConvenienceView, Seq<char>>(e@),
        },
{
    // 0: whole, 1: unit, 2: a field; `None` for the hop.
    let mut field: String = String::new();
    let wanted: Option<u8> = match project {
        Projection::Whole => Some(0),
        Projection::Discard => Some(1),
        Projection::Field(f) => {
            field = f.clone();
            Some(2)
        },
        Projection::Auto => match response_fields {
            Some(fields) => if fields.len() == 1 {
                field = fields[0].clone();
                Some(2)
            } else {
                Some(0)
            },
            None => None,
        },
    };
    match wanted {
        None => {
            if response.len() < 2 {
                return Err("expected a `module::Type` path".to_owned());
            }
            let parent = parent_of(response);
            let callback = text_of(
                &vec!["__armonik_fields_", crate::names::snake(response[response.len() - 1].as_str()).as_str()],
            );
            proof {
                reveal_with_fuel(Seq::fold_left, 3);
            }
            Ok(Convenience::Hop { parent, callback })
        },
        Some(w) => {
            if request.len() < 2 {
                return Err("expected a `module::Type` path".to_owned());
            }
            let request_parent = parent_of(request);
            let request_stem = crate::names::snake(request[request.len() - 1].as_str());
            let gives = if w == 0 {
                Returned::Whole
            } else if w == 1 {
                if stream {
                    return Err("`=> ()` is not valid on a server-streaming rpc".to_owned());
                }
                Returned::Unit
            } else {
                if response.len() < 2 {
                    return Err("expected a `module::Type` path".to_owned());
                }
                let parent = parent_of(response);
                let alias = text_of(
                    &vec![
                        "__armonik_ty_",
                        crate::names::snake(response[response.len() - 1].as_str()).as_str(),
                        "_",
                        field.as_str(),
                    ],
                );
                proof {
                    reveal_with_fuel(Seq::fold_left, 5);
                }
                Returned::Field { field, parent, alias }
            };
            let params = params(&request_stem, request_fields);
            Ok(Convenience::Method { gives, stream, request_parent, request_stem, params })
        },
    }
}

/// The method names the first `i` lines declare.
pub open spec fn declared_before(rpcs: Seq<RpcLine>, i: int) -> Set<Seq<char>> {
    Set::new(|n: Seq<char>| exists|k: int| 0 <= k < i && (#[trigger] rpcs[k]).method@ == n)
}

/// The handler names the first `i` lines take.
pub open spec fn handlers_before(rpcs: Seq<RpcLine>, i: int) -> Set<Seq<char>> {
    Set::new(|n: Seq<char>| exists|k: int| 0 <= k < i && ergonomic_of(#[trigger] rpcs[k]) == Some(n))
}

/// Every line names a method of the service with the streaming the proto gives it, no two lines
/// name the same method, every line has a handler name and no two share one, every unexposed
/// name is a method no line declares, and every method is declared or unexposed.
pub open spec fn well_declared(methods: Seq<MethodMeta>, def: ServiceLines) -> bool {
    let rpcs = def.rpcs@;
    &&& forall|k: int|
        0 <= k < rpcs.len() ==> match method_position(methods, (#[trigger] rpcs[k]).method@) {
            Some(m) => methods[m].client_streaming == rpcs[k].client_stream && methods[m].server_streaming
                == rpcs[k].server_stream,
            None => false,
        }
    &&& forall|a: int, b: int|
        0 <= a < rpcs.len() && 0 <= b < rpcs.len() && a != b ==> (#[trigger] rpcs[a]).method@
            != (#[trigger] rpcs[b]).method@
    &&& forall|k: int| 0 <= k < rpcs.len() ==> ergonomic_of(#[trigger] rpcs[k]) is Some
    &&& forall|a: int, b: int|
        0 <= a < rpcs.len() && 0 <= b < rpcs.len() && a != b ==> ergonomic_of(#[trigger] rpcs[a])
            != ergonomic_of(#[trigger] rpcs[b])
    &&& forall|j: int|
        0 <= j < def.unexposed@.len() ==> method_position(methods, (#[trigger] def.unexposed@[j])@) is Some
            && !declared_names(rpcs).contains(def.unexposed@[j]@)
    &&& forall|m: int|
        0 <= m < methods.len() ==> declared_names(rpcs).contains(#[trigger] methods[m].name@) || exists|j: int|
            0 <= j < def.unexposed@.len() && (#[trigger] def.unexposed@[j])@ == methods[m].name@
}

proof fn lemma_lines_accepted(methods: Seq<MethodMeta>, def: ServiceLines, i: int)
    requires
        well_declared(methods, def),
        0 <= i <= def.rpcs@.len(),
    ensures
        check_lines(methods, def.rpcs@, i, declared_before(def.rpcs@, i), handlers_before(def.rpcs@, i)) is Ok,
    decreases def.rpcs@.len() - i,
{
    let rpcs = def.rpcs@;
    if i < rpcs.len() {
        let rpc = rpcs[i];
        lemma_method_position(methods, rpc.method@);
        let m = method_position(methods, rpc.method@)->Some_0;
        assert(match method_position(methods, rpcs[i].method@) {
            Some(m) => methods[m].client_streaming == rpcs[i].client_stream && methods[m].server_streaming
                == rpcs[i].server_stream,
            None => false,
        });
        assert(!declared_before(rpcs, i).contains(methods[m].name@)) by {
            if declared_before(rpcs, i).contains(methods[m].name@) {
                let k = choose|k: int| 0 <= k < i && (#[trigger] rpcs[k]).method@ == methods[m].name@;
                assert(rpcs[k].method@ != rpcs[i].method@);
            }
        }
        assert(ergonomic_of(rpcs[i]) is Some);
        let e = ergonomic_of(rpc)->Some_0;
        assert(!handlers_before(rpcs, i).contains(e)) by {
            if handlers_before(rpcs, i).contains(e) {
                let k = choose|k: int| 0 <= k < i && ergonomic_of(#[trigger] rpcs[k]) == Some(e);
                assert(ergonomic_of(rpcs[k]) != ergonomic_of(rpcs[i]));
            }
        }
        lemma_lines_accepted(methods, def, i + 1);
        assert(declared_before(rpcs, i).insert(methods[m].name@) =~= declared_before(rpcs, i + 1)) by {
            assert forall|n: Seq<char>| declared_before(rpcs, i + 1).contains(n) implies declared_before(
                rpcs,
                i,
            ).insert(methods[m].name@).contains(n) by {
                let k = choose|k: int| 0 <= k < i + 1 && (#[trigger] rpcs[k]).method@ == n;
                if k < i {
                    assert(declared_before(rpcs, i).contains(n));
                }
            }
            assert forall|n: Seq<char>| declared_before(rpcs, i).insert(methods[m].name@).contains(
                n,
            ) implies declared_before(rpcs, i + 1).contains(n) by {
                if n == methods[m].name@ {
                    assert(rpcs[i].method@ == n);
                } else {
                    let k = choose|k: int| 0 <= k < i && (#[trigger] rpcs[k]).method@ == n;
                    assert(0 <= k < i + 1);
                }
            }
        }
        assert(handlers_before(rpcs, i).insert(e) =~= handlers_before(rpcs, i + 1)) by {
            assert forall|n: Seq<char>| handlers_before(rpcs, i + 1).contains(n) implies handlers_before(
                rpcs,
                i,
            ).insert(e).contains(n) by {
                let k = choose|k: int| 0 <= k < i + 1 && ergonomic_of(#[trigger] rpcs[k]) == Some(n);
                if k < i {
                    assert(handlers_before(rpcs, i).contains(n));
                }
            }
            assert forall|n: Seq<char>| handlers_before(rpcs, i).insert(e).contains(n) implies handlers_before(
                rpcs,
                i + 1,
            ).contains(n) by {
                if n == e {
                    assert(ergonomic_of(rpcs[i]) == Some(n));
                } else {
                    let k = choose|k: int| 0 <= k < i && ergonomic_of(#[trigger] rpcs[k]) == Some(n);
                    assert(0 <= k < i + 1);
                }
            }
        }
    }
}

proof fn lemma_unexposed_accepted(methods: Seq<MethodMeta>, def: ServiceLines, j: int)
    requires
        well_declared(methods, def),
        0 <= j <= def.unexposed@.len(),
    ensures
        check_unexposed(methods, def.unexposed@, declared_names(def.rpcs@), j) is None,
    decreases def.unexposed@.len() - j,
{
    if j < def.unexposed@.len() {
        assert(method_position(methods, def.unexposed@[j]@) is Some);
        lemma_unexposed_accepted(methods, def, j + 1);
    }
}

proof fn lemma_none_missing(methods: Seq<MethodMeta>, unexposed: Seq<String>, declared: Set<Seq<char>>)
    requires
        forall|m: int|
            0 <= m < methods.len() ==> declared.contains(#[trigger] methods[m].name@) || exists|j: int|
                0 <= j < unexposed.len() && (#[trigger] unexposed[j])@ == methods[m].name@,
    ensures
        missing_methods(methods, unexposed, declared).len() == 0,
    decreases methods.len(),
{
    if methods.len() > 0 {
        let last = methods.last().name@;
        assert(methods.last() == methods[methods.len() - 1]);
        assert forall|m: int| 0 <= m < methods.drop_last().len() implies declared.contains(
            #[trigger] methods.drop_last()[m].name@,
        ) || exists|j: int| 0 <= j < unexposed.len() && (#[trigger] unexposed[j])@ == methods.drop_last()[m].name@ by {
            assert(methods.drop_last()[m] == methods[m]);
        }
        lemma_none_missing(methods.drop_last(), unexposed, declared);
        assert(declared.contains(methods[methods.len() - 1].name@) || exists|j: int|
            0 <= j < unexposed.len() && (#[trigger] unexposed[j])@ == methods[methods.len() - 1].name@);
    }
}

/// `validate` accepts an invocation exactly when its lines are well declared: every line names a
/// method of the service with the proto's streaming, no method twice, every line has a handler
/// name and none is shared, every unexposed name is a method no line declares, and every method
/// is declared or unexposed.
pub proof fn lemma_validate_accepts_exactly_the_well_declared(service: &ServiceMeta, def: &ServiceLines)
    ensures
        validate_of(service, def) is Ok <==> well_declared(service.methods@, *def),
{
    let methods = service.methods@;
    if well_declared(methods, *def) {
        lemma_lines_accepted(methods, *def, 0);
        assert(declared_before(def.rpcs@, 0) =~= Set::<Seq<char>>::empty());
        assert(handlers_before(def.rpcs@, 0) =~= Set::<Seq<char>>::empty());
        lemma_unexposed_accepted(methods, *def, 0);
        lemma_none_missing(methods, def.unexposed@, declared_names(def.rpcs@));
    }
    if validate_of(service, def) is Ok {
        lemma_validated_is_well_declared(service, def);
    }
}

proof fn lemma_unexposed_checked(
    methods: Seq<MethodMeta>,
    unexposed: Seq<String>,
    declared: Set<Seq<char>>,
    j: int,
)
    requires
        0 <= j,
        check_unexposed(methods, unexposed, declared, j) is None,
    ensures
        forall|k: int|
            j <= k < unexposed.len() ==> method_position(methods, (#[trigger] unexposed[k])@) is Some
                && !declared.contains(unexposed[k]@),
    decreases unexposed.len() - j,
{
    if j < unexposed.len() {
        lemma_unexposed_checked(methods, unexposed, declared, j + 1);
    }
}

proof fn lemma_validated_is_well_declared(service: &ServiceMeta, def: &ServiceLines)
    requires
        validate_of(service, def) is Ok,
    ensures
        well_declared(service.methods@, *def),
{
    let methods = service.methods@;
    let rpcs = def.rpcs@;
    lemma_validated_service(service, def);
    let r = validate_of(service, def)->Ok_0;
    assert forall|k: int| 0 <= k < rpcs.len() implies match method_position(
        methods,
        (#[trigger] rpcs[k]).method@,
    ) {
        Some(m) => methods[m].client_streaming == rpcs[k].client_stream && methods[m].server_streaming
            == rpcs[k].server_stream,
        None => false,
    } by {
        assert(resolved_line(methods, rpcs, r[k], k, Set::empty(), Set::empty()));
    }
    assert forall|a: int, b: int|
        0 <= a < rpcs.len() && 0 <= b < rpcs.len() && a != b implies (#[trigger] rpcs[a]).method@
        != (#[trigger] rpcs[b]).method@ by {
        assert(resolved_line(methods, rpcs, r[a], a, Set::empty(), Set::empty()));
        assert(resolved_line(methods, rpcs, r[b], b, Set::empty(), Set::empty()));
        assert(r[a].method != r[b].method);
    }
    assert forall|k: int| 0 <= k < rpcs.len() implies ergonomic_of(#[trigger] rpcs[k]) is Some by {
        assert(resolved_line(methods, rpcs, r[k], k, Set::empty(), Set::empty()));
    }
    assert forall|a: int, b: int|
        0 <= a < rpcs.len() && 0 <= b < rpcs.len() && a != b implies ergonomic_of(#[trigger] rpcs[a])
        != ergonomic_of(#[trigger] rpcs[b]) by {
        assert(resolved_line(methods, rpcs, r[a], a, Set::empty(), Set::empty()));
        assert(resolved_line(methods, rpcs, r[b], b, Set::empty(), Set::empty()));
        assert(r[a].ergonomic != r[b].ergonomic);
    }
    assert(check_lines(methods, rpcs, 0, Set::empty(), Set::empty()) is Ok);
    assert(check_unexposed(methods, def.unexposed@, declared_names(rpcs), 0) is None);
    lemma_unexposed_checked(methods, def.unexposed@, declared_names(rpcs), 0);
}

proof fn lemma_rpc_emissions_come_from_lines(
    marker: Seq<char>,
    full_name: Seq<char>,
    service: ServiceMeta,
    def: ServiceLines,
    resolved: Seq<ResolvedView>,
    n: int,
)
    requires
        0 <= n <= resolved.len(),
    ensures
        ({
            let rpcs = rpc_emissions_of(marker, full_name, service, def, resolved, n);
            forall|i: int|
                #![trigger rpcs[i]]
                0 <= i < rpcs.len() ==> exists|k: int|
                    0 <= k < n && !((#[trigger] resolved[k]).kind is Bidirectional) && rpcs[i]
                        == rpc_emission_of(marker, full_name, service, def, resolved[k])
        }),
    decreases n,
{
    if n > 0 {
        lemma_rpc_emissions_come_from_lines(marker, full_name, service, def, resolved, n - 1);
        let head = rpc_emissions_of(marker, full_name, service, def, resolved, n - 1);
        let rpcs = rpc_emissions_of(marker, full_name, service, def, resolved, n);
        assert forall|i: int| #![trigger rpcs[i]] 0 <= i < rpcs.len() implies exists|k: int|
            0 <= k < n && !((#[trigger] resolved[k]).kind is Bidirectional) && rpcs[i] == rpc_emission_of(
                marker,
                full_name,
                service,
                def,
                resolved[k],
            ) by {
            if i < head.len() {
                assert(rpcs[i] == head[i]);
                let k = choose|k: int|
                    0 <= k < n - 1 && !((#[trigger] resolved[k]).kind is Bidirectional) && head[i]
                        == rpc_emission_of(marker, full_name, service, def, resolved[k]);
            } else {
                assert(!(resolved[n - 1].kind is Bidirectional));
                assert(rpcs[i] == rpc_emission_of(marker, full_name, service, def, resolved[n - 1]));
            }
        }
    }
}

proof fn lemma_rpc_emissions_cover_lines(
    marker: Seq<char>,
    full_name: Seq<char>,
    service: ServiceMeta,
    def: ServiceLines,
    resolved: Seq<ResolvedView>,
    n: int,
)
    requires
        0 <= n <= resolved.len(),
    ensures
        ({
            let rpcs = rpc_emissions_of(marker, full_name, service, def, resolved, n);
            forall|k: int|
                #![trigger resolved[k]]
                0 <= k < n && !(resolved[k].kind is Bidirectional) ==> exists|i: int|
                    0 <= i < rpcs.len() && #[trigger] rpcs[i] == rpc_emission_of(
                        marker,
                        full_name,
                        service,
                        def,
                        resolved[k],
                    )
        }),
    decreases n,
{
    if n > 0 {
        lemma_rpc_emissions_cover_lines(marker, full_name, service, def, resolved, n - 1);
        let head = rpc_emissions_of(marker, full_name, service, def, resolved, n - 1);
        let rpcs = rpc_emissions_of(marker, full_name, service, def, resolved, n);
        assert forall|k: int|
            #![trigger resolved[k]]
            0 <= k < n && !(resolved[k].kind is Bidirectional) implies exists|i: int|
                0 <= i < rpcs.len() && #[trigger] rpcs[i] == rpc_emission_of(
                    marker,
                    full_name,
                    service,
                    def,
                    resolved[k],
                ) by {
            if k < n - 1 {
                let i = choose|i: int|
                    0 <= i < head.len() && #[trigger] head[i] == rpc_emission_of(
                        marker,
                        full_name,
                        service,
                        def,
                        resolved[k],
                    );
                assert(rpcs[i] == head[i]);
            } else {
                assert(rpcs[head.len() as int] == rpc_emission_of(marker, full_name, service, def, resolved[k]));
            }
        }
    }
}

/// A validated `service!` emits an rpc for each of its lines but the bidirectional ones.
pub proof fn lemma_every_served_line_is_emitted(
    marker: Seq<char>,
    full_name: Seq<char>,
    deprecated: bool,
    fingerprint: u64,
    service: ServiceMeta,
    def: ServiceLines,
)
    requires
        validate_of(&service, &def) is Ok,
    ensures
        ({
            let resolved = validate_of(&service, &def)->Ok_0;
            let e = service_emission_of(marker, full_name, deprecated, fingerprint, service, def, resolved);
            forall|k: int|
                #![trigger def.rpcs@[k]]
                0 <= k < def.rpcs@.len() && !(kind_of(def.rpcs@[k]) is Bidirectional) ==> exists|i: int|
                    0 <= i < e.rpcs.len() && (#[trigger] e.rpcs[i]).rpc == k
        }),
{
    let resolved = validate_of(&service, &def)->Ok_0;
    lemma_validated_service(&service, &def);
    lemma_rpc_emissions_cover_lines(marker, full_name, service, def, resolved, resolved.len() as int);
    let e = service_emission_of(marker, full_name, deprecated, fingerprint, service, def, resolved);
    assert forall|k: int|
        #![trigger def.rpcs@[k]]
        0 <= k < def.rpcs@.len() && !(kind_of(def.rpcs@[k]) is Bidirectional) implies exists|i: int|
            0 <= i < e.rpcs.len() && (#[trigger] e.rpcs[i]).rpc == k by {
        assert(resolved_line(service.methods@, def.rpcs@, resolved[k], k, Set::empty(), Set::empty()));
        assert(def.rpcs@.len() == def.rpcs.len());
        assert(!(resolved[k].kind is Bidirectional));
        let i = choose|i: int|
            0 <= i < e.rpcs.len() && #[trigger] e.rpcs[i] == rpc_emission_of(
                marker,
                full_name,
                service,
                def,
                resolved[k],
            );
        assert(e.rpcs[i].rpc == k);
    }
}

/// Every rpc a validated `service!` emits is one of its lines, typed by the proto method that line
/// names: the method's name, its `/service/method` path, and its input and output messages as the
/// request and response types' assertions, with the line's handler name and call shape.
pub proof fn lemma_emitted_rpcs_carry_their_methods_messages(
    marker: Seq<char>,
    full_name: Seq<char>,
    deprecated: bool,
    fingerprint: u64,
    service: ServiceMeta,
    def: ServiceLines,
)
    requires
        validate_of(&service, &def) is Ok,
    ensures
        ({
            let resolved = validate_of(&service, &def)->Ok_0;
            let e = service_emission_of(marker, full_name, deprecated, fingerprint, service, def, resolved);
            forall|i: int|
                #![trigger e.rpcs[i]]
                0 <= i < e.rpcs.len() ==> {
                    let r = e.rpcs[i];
                    let line = def.rpcs@[r.rpc as int];
                    &&& 0 <= r.rpc < def.rpcs@.len()
                    &&& method_position(service.methods@, line.method@) is Some
                    &&& r.method == line.method@
                    &&& r.path == "/"@ + full_name + "/"@ + line.method@
                    &&& r.input == service.methods@[method_position(service.methods@, line.method@)->Some_0].input@
                    &&& r.output == service.methods@[method_position(service.methods@, line.method@)->Some_0].output@
                    &&& r.handler == ergonomic_of(line)->Some_0
                    &&& r.kind == kind_of(line)
                }
        }),
{
    let resolved = validate_of(&service, &def)->Ok_0;
    lemma_validated_service(&service, &def);
    lemma_rpc_emissions_come_from_lines(marker, full_name, service, def, resolved, resolved.len() as int);
    let e = service_emission_of(marker, full_name, deprecated, fingerprint, service, def, resolved);
    assert forall|i: int| #![trigger e.rpcs[i]] 0 <= i < e.rpcs.len() implies {
        let r = e.rpcs[i];
        let line = def.rpcs@[r.rpc as int];
        &&& 0 <= r.rpc < def.rpcs@.len()
        &&& method_position(service.methods@, line.method@) is Some
        &&& r.method == line.method@
        &&& r.path == "/"@ + full_name + "/"@ + line.method@
        &&& r.input == service.methods@[method_position(service.methods@, line.method@)->Some_0].input@
        &&& r.output == service.methods@[method_position(service.methods@, line.method@)->Some_0].output@
        &&& r.handler == ergonomic_of(line)->Some_0
        &&& r.kind == kind_of(line)
    } by {
        let k = choose|k: int|
            0 <= k < resolved.len() && !((#[trigger] resolved[k]).kind is Bidirectional) && e.rpcs[i]
                == rpc_emission_of(marker, full_name, service, def, resolved[k]);
        assert(resolved_line(service.methods@, def.rpcs@, resolved[k], k, Set::empty(), Set::empty()));
        assert(def.rpcs@.len() == def.rpcs.len());
        assert(e.rpcs[i].rpc == resolved[k].rpc);
        assert(resolved[k].rpc as int == k);
        let line = def.rpcs@[k];
        assert(method_position(service.methods@, line.method@) == Some(resolved[k].method as int));
        assert(e.rpcs[i].output == service.methods@[resolved[k].method as int].output@);
    }
}

} // verus!
