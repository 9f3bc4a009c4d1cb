//! Classifies an operation's declared parameters into binding kinds.
use crate::text::{
    chars_of, contains_exec, contains_seq, eq_ignore_ascii_case, eq_ignore_ascii_case_exec,
    joined, string_of_range,
};
use vstd::prelude::*;

verus! {

/// One declared parameter (the receiver excluded), as written: its name, the
/// text of its type, and its markers.
pub struct RawParam {
    pub name: String,
    pub ty: String,
    /// Bound through the pluggable extraction protocol.
    pub special: bool,
    /// No schema is generated for its type.
    pub no_schema: bool,
}

/// A query key declared on a route, with an optional description.
pub struct QueryDecl {
    pub name: String,
    pub description: Option<String>,
}

#[derive(Clone, Copy, Debug, PartialEq, Eq, Structural)]
pub enum ArgKind {
    Path,
    Query,
    Header,
    Payload,
    Special,
}

/// One classified parameter. `inner_ty` is the type with an outer
/// `Option<..>` removed; `required` is false exactly for such a type.
pub struct Argument {
    pub name: String,
    pub ty: String,
    pub inner_ty: String,
    pub kind: ArgKind,
    pub required: bool,
    pub description: Option<String>,
    pub no_schema: bool,
}

#[derive(Clone, Copy, Debug, PartialEq, Eq, Structural)]
pub enum ClassifyErrorKind {
    /// A type written `Option..` that is not a well-formed `Option<T>`.
    MalformedOptional,
    /// A stream payload together with another payload.
    StreamWithPayload,
}

/// A classification failure, with the index of the parameter concerned.
#[derive(Clone, Copy, Debug, PartialEq, Eq, Structural)]
pub struct ClassifyError {
    pub kind: ClassifyErrorKind,
    pub param: usize,
}

pub open spec fn is_ident_char(c: char) -> bool {
    ('a' <= c <= 'z') || ('A' <= c <= 'Z') || ('0' <= c <= '9') || c == '_'
}

/// `t` begins with the whole identifier `word`.
pub open spec fn starts_with_word(t: Seq<char>, word: Seq<char>) -> bool {
    t.len() >= word.len() && t.subrange(0, word.len() as int) == word && (t.len() == word.len()
        || !is_ident_char(t[word.len() as int]))
}

/// `<` minus `>` in `s`.
pub open spec fn angle_depth(s: Seq<char>) -> int
    decreases s.len(),
{
    if s.len() == 0 {
        0
    } else {
        angle_depth(s.drop_last()) + if s.last() == '<' {
            1int
        } else if s.last() == '>' {
            -1int
        } else {
            0int
        }
    }
}

/// Every prefix of `s` closes no more angle brackets than it opens, and `s`
/// closes all it opens.
pub open spec fn balanced(s: Seq<char>) -> bool {
    &&& forall|k: int| 0 <= k <= s.len() ==> angle_depth(#[trigger] s.subrange(0, k)) >= 0
    &&& angle_depth(s) == 0
}

/// A type's shape: not optional, `Option<inner>`, or malformed.
pub enum TypeShape {
    Plain,
    Optional(Seq<char>),
    Malformed,
}

pub open spec fn option_word() -> Seq<char> {
    "Option"@
}

pub open spec fn shape_of(t: Seq<char>) -> TypeShape {
    if !starts_with_word(t, option_word()) {
        TypeShape::Plain
    } else if t.len() >= 8 && t[6] == '<' && t.last() == '>' && balanced(t.subrange(7, t.len() - 1)) {
        TypeShape::Optional(t.subrange(7, t.len() - 1))
    } else {
        TypeShape::Malformed
    }
}

/// The type used for binding: the inner type of an optional one.
pub open spec fn unwrapped(t: Seq<char>) -> Seq<char> {
    match shape_of(t) {
        TypeShape::Optional(inner) => inner,
        _ => t,
    }
}

pub open spec fn is_optional(t: Seq<char>) -> bool {
    shape_of(t) is Optional
}

/// The (unwrapped) type is a typed header: its first identifier is
/// `TypedHeader`, in any ASCII case.
pub open spec fn is_header_type(u: Seq<char>) -> bool {
    &&& u.len() >= 11
    &&& eq_ignore_ascii_case(u.subrange(0, 11), "TypedHeader"@)
    &&& (u.len() == 11 || !is_ident_char(u[11]))
}

/// `name` between braces.
pub open spec fn braced(name: Seq<char>) -> Seq<char> {
    seq!['{'] + name + seq!['}']
}

/// `{name}` occurs in the path template.
pub open spec fn is_placeholder(path: Seq<char>, name: Seq<char>) -> bool {
    contains_seq(path, braced(name))
}

pub open spec fn is_first_query(query: Seq<QueryDecl>, name: Seq<char>, i: int) -> bool {
    &&& 0 <= i < query.len()
    &&& query[i].name@ == name
    &&& forall|j: int| 0 <= j < i ==> query[j].name@ != name
}

pub open spec fn declares_query(query: Seq<QueryDecl>, name: Seq<char>) -> bool {
    exists|i: int| 0 <= i < query.len() && query[i].name@ == name
}

/// The description of the first query declaration of `name`.
pub open spec fn query_description(query: Seq<QueryDecl>, name: Seq<char>) -> Option<Seq<char>> {
    let i = choose|i: int| is_first_query(query, name, i);
    opt_view(query[i].description)
}

pub open spec fn opt_view(o: Option<String>) -> Option<Seq<char>> {
    match o {
        Some(s) => Some(s@),
        None => None,
    }
}

/// The binding kind, by precedence: special marker, path placeholder,
/// declared query key, typed header, payload.
pub open spec fn kind_of(p: RawParam, path: Seq<char>, query: Seq<QueryDecl>) -> ArgKind {
    if p.special {
        ArgKind::Special
    } else if is_placeholder(path, p.name@) {
        ArgKind::Path
    } else if declares_query(query, p.name@) {
        ArgKind::Query
    } else if is_header_type(unwrapped(p.ty@)) {
        ArgKind::Header
    } else {
        ArgKind::Payload
    }
}

/// `a` is the classification of `p`.
pub open spec fn classifies_as(p: RawParam, path: Seq<char>, query: Seq<QueryDecl>, a: Argument) -> bool {
    &&& a.name@ == p.name@
    &&& a.ty@ == p.ty@
    &&& a.inner_ty@ == unwrapped(p.ty@)
    &&& a.kind == kind_of(p, path, query)
    &&& a.required == !is_optional(p.ty@)
    &&& a.no_schema == p.no_schema
    &&& opt_view(a.description) == if a.kind == ArgKind::Query {
        query_description(query, p.name@)
    } else {
        None
    }
}

proof fn lemma_depth_step(s: Seq<char>, k: int)
    requires
        0 <= k < s.len(),
    ensures
        angle_depth(s.subrange(0, k + 1)) == angle_depth(s.subrange(0, k)) + if s[k] == '<' {
            1int
        } else if s[k] == '>' {
            -1int
        } else {
            0int
        },
{
    assert(s.subrange(0, k + 1).drop_last() =~= s.subrange(0, k));
}

fn starts_with_word_exec(t: &Vec<char>, word: &Vec<char>) -> (r: bool)
    ensures
        r == starts_with_word(t@, word@),
{
    if t.len() < word.len() {
        return false;
    }
    let mut i: usize = 0;
    while i < word.len()
        invariant
            t@.len() >= word@.len(),
            i <= word@.len(),
            forall|m: int| 0 <= m < i ==> t@[m] == word@[m],
        decreases word.len() - i,
    {
        if t[i] != word[i] {
            assert(t@.subrange(0, word@.len() as int)[i as int] != word@[i as int]);
            return false;
        }
        i = i + 1;
    }
    assert(t@.subrange(0, word@.len() as int) =~= word@);
    if t.len() == word.len() {
        return true;
    }
    let c = t[word.len()];
    !(('a' <= c && c <= 'z') || ('A' <= c && c <= 'Z') || ('0' <= c && c <= '9') || c == '_')
}

/// Reads the shape of a type: `Option<T>` yields `T`, with the angle
/// brackets inside `T` tracked by depth.
pub fn type_shape(ty: &String) -> (r: Result<Option<String>, ()>)
    ensures
        match r {
            Ok(Some(inner)) => shape_of(ty@) == TypeShape::Optional(inner@),
            Ok(None) => shape_of(ty@) is Plain,
            Err(()) => shape_of(ty@) is Malformed,
        },
{
    let t = chars_of(ty.as_str());
    let word = chars_of("Option");
    proof {
        reveal_strlit("Option");
    }
    if !starts_with_word_exec(&t, &word) {
        return Ok(None);
    }
    let n = t.len();
    if n < 8 || t[6] != '<' || t[n - 1] != '>' {
        return Err(());
    }
    let ghost inner = t@.subrange(7, n - 1);
    let mut depth: usize = 0;
    let mut k: usize = 7;
    while k < n - 1
        invariant
            n == t@.len(),
            n >= 8,
            t@ == ty@,
            starts_with_word(ty@, option_word()),
            t@[6] == '<',
            t@[n - 1] == '>',
            inner == t@.subrange(7, n - 1),
            7 <= k <= n - 1,
            depth as int == angle_depth(inner.subrange(0, k - 7)),
            depth <= k - 7,
            forall|m: int| 0 <= m <= k - 7 ==> angle_depth(#[trigger] inner.subrange(0, m)) >= 0,
        decreases n - 1 - k,
    {
        proof {
            lemma_depth_step(inner, k - 7);
            assert(inner[k - 7] == t@[k as int]);
        }
        if t[k] == '<' {
            depth = depth + 1;
        } else if t[k] == '>' {
            if depth == 0 {
                assert(angle_depth(inner.subrange(0, k - 7 + 1)) < 0);
                assert(!balanced(inner));
                assert(t@.last() == t@[n - 1]);
                return Err(());
            }
            depth = depth - 1;
        }
        k = k + 1;
    }
    assert(inner.subrange(0, inner.len() as int) =~= inner);
    assert(t@.last() == t@[n - 1]);
    if depth != 0 {
        return Err(());
    }
    Ok(Some(string_of_range(ty.as_str(), 7, n - 1)))
}

/// Whether the (unwrapped) type is a typed header.
pub fn is_header_type_exec(u: &String) -> (r: bool)
    ensures
        r == is_header_type(u@),
{
    let c = chars_of(u.as_str());
    if c.len() < 11 {
        return false;
    }
    let first = chars_of(string_of_range(u.as_str(), 0, 11).as_str());
    let word = chars_of("TypedHeader");
    if !eq_ignore_ascii_case_exec(&first, &word) {
        return false;
    }
    if c.len() == 11 {
        return true;
    }
    let d = c[11];
    !(('a' <= d && d <= 'z') || ('A' <= d && d <= 'Z') || ('0' <= d && d <= '9') || d == '_')
}

/// Whether `{name}` occurs in the path template.
pub fn is_placeholder_exec(path: &String, name: &String) -> (r: bool)
    ensures
        r == is_placeholder(path@, name@),
{
    proof {
        reveal_strlit("{");
        reveal_strlit("}");
    }
    let pattern = joined(joined("{", name.as_str()).as_str(), "}");
    assert(pattern@ =~= braced(name@));
    let p = chars_of(path.as_str());
    let q = chars_of(pattern.as_str());
    contains_exec(&p, &q)
}

fn find_query(query: &Vec<QueryDecl>, name: &String) -> (r: Option<usize>)
    ensures
        match r {
            Some(i) => is_first_query(query@, name@, i as int),
            None => !declares_query(query@, name@),
        },
{
    let mut i: usize = 0;
    while i < query.len()
        invariant
            i <= query@.len(),
            forall|j: int| 0 <= j < i ==> query@[j].name@ != name@,
        decreases query.len() - i,
    {
        if query[i].name == *name {
            return Some(i);
        }
        i = i + 1;
    }
    None
}

pub(crate) fn clone_opt(o: &Option<String>) -> (r: Option<String>)
    ensures
        opt_view(r) == opt_view(*o),
{
    match o {
        Some(s) => Some(s.clone()),
        None => None,
    }
}

/// Classifies one parameter; fails only on a malformed optional type.
pub fn classify(p: &RawParam, path: &String, query: &Vec<QueryDecl>) -> (r: Result<Argument, ()>)
    ensures
        match r {
            Ok(a) => !(shape_of(p.ty@) is Malformed) && classifies_as(*p, path@, query@, a),
            Err(()) => shape_of(p.ty@) is Malformed,
        },
{
    let (inner_ty, required) = match type_shape(&p.ty) {
        Ok(Some(inner)) => (inner, false),
        Ok(None) => (p.ty.clone(), true),
        Err(()) => return Err(()),
    };
    let mut description: Option<String> = None;
    let kind = if p.special {
        ArgKind::Special
    } else if is_placeholder_exec(path, &p.name) {
        ArgKind::Path
    } else {
        match find_query(query, &p.name) {
            Some(i) => {
                proof {
                    let f = choose|f: int| is_first_query(query@, p.name@, f);
                    assert(is_first_query(query@, p.name@, f));
                    if f < i {
                    } else if i < f {
                    }
                }
                description = clone_opt(&query[i].description);
                ArgKind::Query
            },
            None => {
                if is_header_type_exec(&inner_ty) {
                    ArgKind::Header
                } else {
                    ArgKind::Payload
                }
            },
        }
    };
    Ok(
        Argument {
            name: p.name.clone(),
            ty: p.ty.clone(),
            inner_ty,
            kind,
            required,
            description,
            no_schema: p.no_schema,
        },
    )
}

pub open spec fn stream_type() -> Seq<char> {
    "DataStream"@
}

/// Parameter `i` is bound as a payload.
pub open spec fn is_payload_at(params: Seq<RawParam>, path: Seq<char>, query: Seq<QueryDecl>, i: int) -> bool {
    0 <= i < params.len() && kind_of(params[i], path, query) == ArgKind::Payload
}

/// Parameter `i` is a stream payload.
pub open spec fn is_stream_at(params: Seq<RawParam>, path: Seq<char>, query: Seq<QueryDecl>, i: int) -> bool {
    is_payload_at(params, path, query, i) && params[i].ty@ == stream_type()
}

/// A stream payload stands beside another payload.
pub open spec fn mixes_stream(params: Seq<RawParam>, path: Seq<char>, query: Seq<QueryDecl>) -> bool {
    exists|i: int, j: int|
        i != j && is_stream_at(params, path, query, i) && is_payload_at(params, path, query, j)
}

pub open spec fn malformed_at(params: Seq<RawParam>, i: int) -> bool {
    0 <= i < params.len() && shape_of(params[i].ty@) is Malformed
}

/// `e` is the failure that classifying `params` reports: the first malformed
/// optional type, else the first stream payload that stands beside another.
pub open spec fn is_classify_failure(
    params: Seq<RawParam>,
    path: Seq<char>,
    query: Seq<QueryDecl>,
    e: ClassifyError,
) -> bool {
    if exists|i: int| malformed_at(params, i) {
        e.kind == ClassifyErrorKind::MalformedOptional && malformed_at(params, e.param as int) && forall|
            j: int,
        |
            0 <= j < e.param ==> !malformed_at(params, j)
    } else {
        &&& mixes_stream(params, path, query)
        &&& e.kind == ClassifyErrorKind::StreamWithPayload
        &&& is_stream_at(params, path, query, e.param as int)
        &&& forall|j: int| 0 <= j < e.param ==> !is_stream_at(params, path, query, j)
    }
}

/// `args` is the classification of `params`, one for one and in order.
pub open spec fn classified(params: Seq<RawParam>, path: Seq<char>, query: Seq<QueryDecl>, args: Seq<
    Argument,
>) -> bool {
    &&& args.len() == params.len()
    &&& forall|i: int| 0 <= i < params.len() ==> classifies_as(params[i], path, query, #[trigger] args[i])
    &&& forall|i: int| !malformed_at(params, i)
    &&& !mixes_stream(params, path, query)
}

/// Classifies every parameter, in declaration order.
pub fn classify_all(params: &Vec<RawParam>, path: &String, query: &Vec<QueryDecl>) -> (r: Result<
    Vec<Argument>,
    ClassifyError,
>)
    ensures
        match r {
            Ok(args) => classified(params@, path@, query@, args@),
            Err(e) => is_classify_failure(params@, path@, query@, e),
        },
{
    let mut args: Vec<Argument> = Vec::new();
    let mut i: usize = 0;
    while i < params.len()
        invariant
            i <= params@.len(),
            args@.len() == i,
            forall|j: int| 0 <= j < i ==> classifies_as(params@[j], path@, query@, #[trigger] args@[j]),
            forall|j: int| 0 <= j < i ==> !malformed_at(params@, j),
        decreases params.len() - i,
    {
        match classify(&params[i], path, query) {
            Ok(a) => args.push(a),
            Err(()) => {
                assert(malformed_at(params@, i as int));
                return Err(ClassifyError { kind: ClassifyErrorKind::MalformedOptional, param: i });
            },
        }
        i = i + 1;
    }
    let stream = String::from_str("DataStream");
    let mut first_stream: Option<usize> = None;
    let mut payloads: usize = 0;
    let mut k: usize = 0;
    while k < args.len()
        invariant
            args@.len() == params@.len(),
            stream@ == stream_type(),
            forall|j: int| 0 <= j < params@.len() ==> classifies_as(params@[j], path@, query@, #[trigger] args@[j]),
            k <= args@.len(),
            payloads <= k,
            payloads == 0 ==> forall|j: int| 0 <= j < k ==> !is_payload_at(params@, path@, query@, j),
            payloads == 1 ==> exists|j: int| 0 <= j < k && is_payload_at(params@, path@, query@, j),
            payloads >= 2 ==> exists|a: int, b: int|
                0 <= a < b < k && is_payload_at(params@, path@, query@, a) && is_payload_at(
                    params@,
                    path@,
                    query@,
                    b,
                ),
            payloads == 1 ==> forall|a: int, b: int|
                0 <= a < k && 0 <= b < k && is_payload_at(params@, path@, query@, a) && is_payload_at(
                    params@,
                    path@,
                    query@,
                    b,
                ) ==> a == b,
            match first_stream {
                Some(f) => f < k && is_stream_at(params@, path@, query@, f as int) && forall|j: int|
                    0 <= j < f ==> !is_stream_at(params@, path@, query@, j),
                None => forall|j: int| 0 <= j < k ==> !is_stream_at(params@, path@, query@, j),
            },
        decreases args.len() - k,
    {
        assert(classifies_as(params@[k as int], path@, query@, args@[k as int]));
        if args[k].kind == ArgKind::Payload {
            assert(is_payload_at(params@, path@, query@, k as int));
            proof {
                if payloads == 1 {
                    let j = choose|j: int| 0 <= j < k && is_payload_at(params@, path@, query@, j);
                    assert(is_payload_at(params@, path@, query@, k as int));
                    assert(is_payload_at(params@, path@, query@, j));
                }
            }
            if first_stream.is_none() && args[k].ty == stream {
                first_stream = Some(k);
            }
            if payloads < 2 {
                payloads = payloads + 1;
            }
        } else {
            assert(!is_payload_at(params@, path@, query@, k as int));
        }
        k = k + 1;
    }
    match first_stream {
        Some(f) => {
            if payloads >= 2 {
                proof {
                    let (a, b) = choose|a: int, b: int|
                        0 <= a < b < args@.len() && is_payload_at(params@, path@, query@, a)
                            && is_payload_at(params@, path@, query@, b);
                    if a != f as int {
                        assert(is_stream_at(params@, path@, query@, f as int) && is_payload_at(params@, path@, query@, a));
                    } else {
                        assert(is_stream_at(params@, path@, query@, f as int) && is_payload_at(params@, path@, query@, b));
                    }
                    assert(mixes_stream(params@, path@, query@));
                }
                return Err(ClassifyError { kind: ClassifyErrorKind::StreamWithPayload, param: f });
            }
        },
        None => {},
    }
    Ok(args)
}

} // verus!
