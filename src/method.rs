//! The HTTP methods an operation can be declared with.
use crate::text::{chars_of, eq_ignore_ascii_case, eq_ignore_ascii_case_exec};
use vstd::prelude::*;

verus! {

/// An operation's method. `Ws` is a websocket upgrade, routed as `GET`.
#[derive(Clone, Copy, Debug, PartialEq, Eq, Hash, Structural)]
pub enum HttpMethod {
    Get,
    Post,
    Put,
    Patch,
    Delete,
    Head,
    Options,
    Trace,
    Ws,
}

/// The method whose lower-case name is `name`, up to ASCII case.
pub open spec fn method_named(name: Seq<char>) -> Option<HttpMethod> {
    if eq_ignore_ascii_case(name, seq!['g', 'e', 't']) {
        Some(HttpMethod::Get)
    } else if eq_ignore_ascii_case(name, seq!['p', 'o', 's', 't']) {
        Some(HttpMethod::Post)
    } else if eq_ignore_ascii_case(name, seq!['p', 'u', 't']) {
        Some(HttpMethod::Put)
    } else if eq_ignore_ascii_case(name, seq!['p', 'a', 't', 'c', 'h']) {
        Some(HttpMethod::Patch)
    } else if eq_ignore_ascii_case(name, seq!['d', 'e', 'l', 'e', 't', 'e']) {
        Some(HttpMethod::Delete)
    } else if eq_ignore_ascii_case(name, seq!['h', 'e', 'a', 'd']) {
        Some(HttpMethod::Head)
    } else if eq_ignore_ascii_case(name, seq!['o', 'p', 't', 'i', 'o', 'n', 's']) {
        Some(HttpMethod::Options)
    } else if eq_ignore_ascii_case(name, seq!['t', 'r', 'a', 'c', 'e']) {
        Some(HttpMethod::Trace)
    } else if eq_ignore_ascii_case(name, seq!['w', 's']) {
        Some(HttpMethod::Ws)
    } else {
        None
    }
}

/// The method under which the router and the document register an
/// operation: a websocket upgrade is a `GET`.
pub open spec fn routed_method(m: HttpMethod) -> HttpMethod {
    if m == HttpMethod::Ws {
        HttpMethod::Get
    } else {
        m
    }
}

/// The method's name on the wire.
pub open spec fn wire_name(m: HttpMethod) -> Seq<char> {
    match m {
        HttpMethod::Get | HttpMethod::Ws => seq!['G', 'E', 'T'],
        HttpMethod::Post => seq!['P', 'O', 'S', 'T'],
        HttpMethod::Put => seq!['P', 'U', 'T'],
        HttpMethod::Patch => seq!['P', 'A', 'T', 'C', 'H'],
        HttpMethod::Delete => seq!['D', 'E', 'L', 'E', 'T', 'E'],
        HttpMethod::Head => seq!['H', 'E', 'A', 'D'],
        HttpMethod::Options => seq!['O', 'P', 'T', 'I', 'O', 'N', 'S'],
        HttpMethod::Trace => seq!['T', 'R', 'A', 'C', 'E'],
    }
}

fn named(name: &Vec<char>, lower: &str) -> (r: bool)
    ensures
        r == eq_ignore_ascii_case(name@, lower@),
{
    let l = chars_of(lower);
    eq_ignore_ascii_case_exec(name, &l)
}

impl HttpMethod {
    /// Reads a method name, accepting any ASCII case (`get`, `GET`, `Get`).
    pub fn from_name(name: &str) -> (r: Option<HttpMethod>)
        ensures
            r == method_named(name@),
    {
        proof {
            reveal_strlit("get");
            reveal_strlit("post");
            reveal_strlit("put");
            reveal_strlit("patch");
            reveal_strlit("delete");
            reveal_strlit("head");
            reveal_strlit("options");
            reveal_strlit("trace");
            reveal_strlit("ws");
        }
        let n = chars_of(name);
        if named(&n, "get") {
            Some(HttpMethod::Get)
        } else if named(&n, "post") {
            Some(HttpMethod::Post)
        } else if named(&n, "put") {
            Some(HttpMethod::Put)
        } else if named(&n, "patch") {
            Some(HttpMethod::Patch)
        } else if named(&n, "delete") {
            Some(HttpMethod::Delete)
        } else if named(&n, "head") {
            Some(HttpMethod::Head)
        } else if named(&n, "options") {
            Some(HttpMethod::Options)
        } else if named(&n, "trace") {
            Some(HttpMethod::Trace)
        } else if named(&n, "ws") {
            Some(HttpMethod::Ws)
        } else {
            None
        }
    }

    /// The method's name on the wire (`GET` for a websocket upgrade).
    pub fn wire_name(self) -> (r: &'static str)
        ensures
            r@ == wire_name(self),
    {
        match self {
            HttpMethod::Get | HttpMethod::Ws => {
                proof { reveal_strlit("GET"); }
                "GET"
            },
            HttpMethod::Post => {
                proof { reveal_strlit("POST"); }
                "POST"
            },
            HttpMethod::Put => {
                proof { reveal_strlit("PUT"); }
                "PUT"
            },
            HttpMethod::Patch => {
                proof { reveal_strlit("PATCH"); }
                "PATCH"
            },
            HttpMethod::Delete => {
                proof { reveal_strlit("DELETE"); }
                "DELETE"
            },
            HttpMethod::Head => {
                proof { reveal_strlit("HEAD"); }
                "HEAD"
            },
            HttpMethod::Options => {
                proof { reveal_strlit("OPTIONS"); }
                "OPTIONS"
            },
            HttpMethod::Trace => {
                proof { reveal_strlit("TRACE"); }
                "TRACE"
            },
        }
    }

    /// The method under which the operation is routed and documented.
    pub fn routed(self) -> (r: HttpMethod)
        ensures
            r == routed_method(self),
    {
        match self {
            HttpMethod::Ws => HttpMethod::Get,
            m => m,
        }
    }
}

} // verus!
