//! `client`: tying hand-written client methods to the RPCs they stand for, by name.
//!
//! The attribute finds the service its impl block names, reads which RPC each method claims, and
//! hands back that RPC's harvested documentation.

use vstd::prelude::*;

use crate::descriptor::{clone_strings, find_entry, position_of, string_eq, strings_view, DescriptorIndex, ServiceMeta};
use crate::matcher::{unknown_name, unknown_name_of};
use crate::order::{lex_leq, sort_strings};
use crate::text::{join, join_of, push_all, push_str, string_of};

verus! {

/// The names of the services, in the index's order.
pub open spec fn service_names(services: Seq<(String, ServiceMeta)>) -> Seq<Seq<char>> {
    services.map_values(|s: (String, ServiceMeta)| s.0@)
}

pub open spec fn unknown_service_message(name: Seq<char>, known: Seq<Seq<char>>) -> Seq<char> {
    "no service `"@ + name + "` in the descriptor; known services: "@ + join_of(known.sort_by(lex_leq()), ", "@)
}

/// The service named `name`, by its position in the index; else the diagnostic naming the known
/// services, sorted.
pub fn find_service(index: &DescriptorIndex, name: &str) -> (r: Result<usize, String>)
    ensures
        match r {
            Ok(i) => position_of(index.services@, name@) == Some(i as int),
            Err(m) => position_of(index.services@, name@) is None && m@ == unknown_service_message(
                name@,
                service_names(index.services@),
            ),
        },
{
    match find_entry(&index.services, name) {
        Some(i) => Ok(i),
        None => {
            let mut known: Vec<String> = Vec::new();
            let mut k: usize = 0;
            while k < index.services.len()
                invariant
                    k <= index.services@.len(),
                    strings_view(known@) =~= service_names(index.services@).take(k as int),
                decreases index.services.len() - k,
            {
                let ghost before = strings_view(known@);
                known.push(index.services[k].0.clone());
                assert(strings_view(known@) =~= before.push(service_names(index.services@)[k as int]));
                k = k + 1;
            }
            assert(service_names(index.services@).take(k as int) =~= service_names(index.services@));
            let sorted = sort_strings(known);
            let mut out: Vec<char> = Vec::new();
            push_str(&mut out, "no service `");
            push_str(&mut out, name);
            push_str(&mut out, "` in the descriptor; known services: ");
            let joined = join(&sorted, ", ");
            push_all(&mut out, &joined);
            proof {
                reveal_strlit(", ");
            }
            assert(out@ =~= unknown_service_message(name@, service_names(index.services@)));
            Err(string_of(out.as_slice()))
        },
    }
}

/// The first method of `methods`, from `from` on, named `name`.
pub open spec fn method_at(methods: Seq<crate::descriptor::MethodMeta>, name: Seq<char>, from: int) -> Option<int>
    decreases methods.len() - from,
{
    if from < 0 || from >= methods.len() {
        None
    } else if methods[from].name@ == name {
        Some(from)
    } else {
        method_at(methods, name, from + 1)
    }
}

pub open spec fn method_names(service: ServiceMeta) -> Seq<Seq<char>> {
    service.methods@.map_values(|m: crate::descriptor::MethodMeta| m.name@)
}

/// The documentation of the RPC `method` of the service named `service_name`; else the
/// diagnostic for an RPC the service does not have.
pub open spec fn method_docs_of(service: ServiceMeta, method: Seq<char>, service_name: Seq<char>) -> Result<
    Seq<Seq<char>>,
    Seq<char>,
> {
    match method_at(service.methods@, method, 0) {
        Some(i) => Ok(strings_view(service.methods@[i].docs@)),
        None => Err(
            unknown_name_of(
                "method"@,
                method,
                "service `"@ + service_name + "`"@,
                method_names(service),
                "check the RPC name against the proto service"@,
            ),
        ),
    }
}

/// The harvested documentation of the RPC a client method claims.
pub fn method_docs(service: &ServiceMeta, method: &str, service_name: &str) -> (r: Result<Vec<String>, String>)
    ensures
        match r {
            Ok(docs) => method_docs_of(*service, method@, service_name@) == Ok::<
                Seq<Seq<char>>,
                Seq<char>,
            >(strings_view(docs@)),
            Err(m) => method_docs_of(*service, method@, service_name@) == Err::<Seq<Seq<char>>, Seq<char>>(
                m@,
            ),
        },
{
    let mut i: usize = 0;
    while i < service.methods.len()
        invariant
            i <= service.methods@.len(),
            method_at(service.methods@, method@, 0) == method_at(service.methods@, method@, i as int),
        decreases service.methods.len() - i,
    {
        if string_eq(&service.methods[i].name, method) {
            return Ok(clone_strings(&service.methods[i].docs));
        }
        i = i + 1;
    }
    let mut available: Vec<String> = Vec::new();
    let mut k: usize = 0;
    while k < service.methods.len()
        invariant
            k <= service.methods@.len(),
            strings_view(available@) =~= method_names(*service).take(k as int),
        decreases service.methods.len() - k,
    {
        let ghost before = strings_view(available@);
        available.push(service.methods[k].name.clone());
        assert(strings_view(available@) =~= before.push(method_names(*service)[k as int]));
        k = k + 1;
    }
    assert(method_names(*service).take(k as int) =~= method_names(*service));
    let mut container: Vec<char> = Vec::new();
    push_str(&mut container, "service `");
    push_str(&mut container, service_name);
    push_str(&mut container, "`");
    let container = string_of(container.as_slice());
    let m = unknown_name("method", method, container.as_str(), available, "check the RPC name against the proto service");
    proof {
        reveal_strlit("method");
        reveal_strlit("service `");
        reveal_strlit("`");
        reveal_strlit("check the RPC name against the proto service");
        assert(container@ =~= "service `"@ + service_name@ + "`"@);
    }
    Err(m)
}

/// A token of a macro invocation's input, as far as finding its leading name needs.
pub enum Token {
    Punct(char),
    Group,
    Ident(String),
    Literal,
}

/// Past any leading attributes (`#` and its bracketed group), from `at` on.
pub open spec fn past_attributes(tokens: Seq<Token>, at: int) -> int
    decreases tokens.len() - at,
{
    if 0 <= at < tokens.len() && tokens[at] == Token::Punct('#') {
        if at + 1 < tokens.len() && tokens[at + 1] is Group {
            past_attributes(tokens, at + 2)
        } else {
            past_attributes(tokens, at + 1)
        }
    } else {
        at
    }
}

/// The RPC a `client_method!` invocation leads with: the first identifier past its attributes;
/// any other macro claims nothing.
pub open spec fn claim_of_macro_of(macro_name: Seq<char>, tokens: Seq<Token>) -> Option<Seq<char>> {
    if macro_name != "client_method"@ {
        None
    } else {
        let at = past_attributes(tokens, 0);
        if 0 <= at < tokens.len() {
            match tokens[at] {
                Token::Ident(name) => Some(name@),
                _ => None,
            }
        } else {
            None
        }
    }
}

/// The RPC an item-position macro invocation claims, from the last segment of its path and its
/// input's tokens.
pub fn claim_of_macro(macro_name: &str, tokens: &Vec<Token>) -> (claim: Option<String>)
    ensures
        match claim {
            Some(n) => claim_of_macro_of(macro_name@, tokens@) == Some(n@),
            None => claim_of_macro_of(macro_name@, tokens@) is None,
        },
{
    let expected = "client_method";
    let name = crate::text::chars_of(macro_name);
    let wanted = crate::text::chars_of(expected);
    proof {
        reveal_strlit("client_method");
    }
    if !crate::descriptor::chars_eq(&name, &wanted) {
        return None;
    }
    let mut at: usize = 0;
    while at < tokens.len()
        invariant
            at <= tokens@.len(),
            past_attributes(tokens@, 0) == past_attributes(tokens@, at as int),
        ensures
            past_attributes(tokens@, 0) == at as int,
        decreases tokens.len() - at,
    {
        let is_hash = match &tokens[at] {
            Token::Punct(c) => *c == '#',
            _ => false,
        };
        if !is_hash {
            break;
        }
        let group_follows = at + 1 < tokens.len() && match &tokens[at + 1] {
            Token::Group => true,
            _ => false,
        };
        if group_follows {
            at = at + 2;
        } else {
            at = at + 1;
        }
    }
    if at < tokens.len() {
        match &tokens[at] {
            Token::Ident(n) => Some(n.clone()),
            _ => None,
        }
    } else {
        None
    }
}

} // verus!
