//! The surface syntax of declarations, read from text: a route
//! (`["!"] "path"` with the options `method = NAME`,
//! `query = [name ["description"], ...]`, `routes = [group, ...]`, `raw`,
//! `no_auth`), the errors of an operation, a shared category, a parameter,
//! and the service-wide arguments.
use crate::arguments::{QueryDecl, RawParam};
use crate::lexer::{lex, tokenize, Token, TokenView, token_views};
use crate::method::{method_named, HttpMethod};
use crate::model::{string_views, OperationDecl, ServiceConfig, SuccessType};
use crate::taxonomy::{CategoryEntry, ErrorAttribute, ErrorCategory, ErrorRef, ErrorSource};
use crate::text::chars_of;
use vstd::prelude::*;

verus! {

/// A route declaration as read.
pub struct RouteAttr {
    pub absolute: bool,
    pub path: String,
    pub method: HttpMethod,
    pub query: Vec<QueryDecl>,
    pub groups: Vec<String>,
    pub raw: bool,
    pub no_auth: bool,
}

pub struct RouteAttrView {
    pub absolute: bool,
    pub path: Seq<char>,
    pub method: HttpMethod,
    pub query: Seq<(Seq<char>, Option<Seq<char>>)>,
    pub groups: Seq<Seq<char>>,
    pub raw: bool,
    pub no_auth: bool,
}

pub open spec fn query_views(q: Seq<QueryDecl>) -> Seq<(Seq<char>, Option<Seq<char>>)> {
    q.map_values(|d: QueryDecl| (d.name@, crate::arguments::opt_view(d.description)))
}

impl View for RouteAttr {
    type V = RouteAttrView;

    open spec fn view(&self) -> RouteAttrView {
        RouteAttrView {
            absolute: self.absolute,
            path: self.path@,
            method: self.method,
            query: query_views(self.query@),
            groups: string_views(self.groups@),
            raw: self.raw,
            no_auth: self.no_auth,
        }
    }
}

#[derive(Clone, Copy, Debug, PartialEq, Eq, Structural)]
pub enum ParseErrorKind {
    UnterminatedString,
    ExpectedPath,
    ExpectedOption,
    ExpectedEquals,
    UnknownOption,
    UnknownMethod,
    ExpectedList,
    ExpectedName,
    ExpectedComma,
    ExpectedColon,
    ExpectedStatus,
    ExpectedMessage,
    UnknownMarker,
    ExpectedType,
    ExpectedString,
    ExpectedReceiver,
}

/// A parse failure and the index of the token where it was found.
#[derive(Clone, Copy, Debug, PartialEq, Eq, Structural)]
pub struct ParseError {
    pub kind: ParseErrorKind,
    pub token: usize,
}

pub open spec fn punct(c: char) -> TokenView {
    TokenView::Punct(seq![c])
}

pub open spec fn fail<T>(kind: ParseErrorKind, k: int) -> Result<T, ParseError> {
    Err(ParseError { kind, token: k as usize })
}

/// The `name ["description"]` items of a bracketed query list from token
/// `k`, up to and past the closing `]`.
pub open spec fn query_items(t: Seq<TokenView>, k: int, items: Seq<(Seq<char>, Option<Seq<char>>)>) -> Result<
    (int, Seq<(Seq<char>, Option<Seq<char>>)>),
    ParseError,
>
    decreases t.len() - k,
{
    if k < 0 || k >= t.len() {
        fail(ParseErrorKind::ExpectedList, k)
    } else if t[k] == punct(']') {
        Ok((k + 1, items))
    } else if let TokenView::Ident(n) = t[k] {
        let has_desc = k + 1 < t.len() && t[k + 1] is Str;
        let desc = if has_desc {
            Some(t[k + 1]->Str_0)
        } else {
            None
        };
        let j = if has_desc {
            k + 2
        } else {
            k + 1
        };
        let more = items.push((n, desc));
        if j < t.len() && t[j] == punct(']') {
            Ok((j + 1, more))
        } else if j < t.len() && t[j] == punct(',') {
            query_items(t, j + 1, more)
        } else {
            fail(ParseErrorKind::ExpectedList, j)
        }
    } else {
        fail(ParseErrorKind::ExpectedName, k)
    }
}

/// The group names of a bracketed list from token `k`.
pub open spec fn group_items(t: Seq<TokenView>, k: int, items: Seq<Seq<char>>) -> Result<(int, Seq<Seq<char>>), ParseError>
    decreases t.len() - k,
{
    if k < 0 || k >= t.len() {
        fail(ParseErrorKind::ExpectedList, k)
    } else if t[k] == punct(']') {
        Ok((k + 1, items))
    } else if let TokenView::Ident(n) = t[k] {
        let more = items.push(n);
        if k + 1 < t.len() && t[k + 1] == punct(']') {
            Ok((k + 2, more))
        } else if k + 1 < t.len() && t[k + 1] == punct(',') {
            group_items(t, k + 2, more)
        } else {
            fail(ParseErrorKind::ExpectedList, k + 1)
        }
    } else {
        fail(ParseErrorKind::ExpectedName, k)
    }
}

/// One option from token `k`: the position after it and the declaration
/// with it applied.
pub open spec fn option_step(t: Seq<TokenView>, k: int, acc: RouteAttrView) -> Result<(int, RouteAttrView), ParseError> {
    if let TokenView::Ident(name) = t[k] {
        if name == "raw"@ {
            Ok((k + 1, RouteAttrView { raw: true, ..acc }))
        } else if name == "no_auth"@ {
            Ok((k + 1, RouteAttrView { no_auth: true, ..acc }))
        } else if !(k + 1 < t.len() && t[k + 1] == punct('=')) {
            fail(ParseErrorKind::ExpectedEquals, k + 1)
        } else if name == "method"@ {
            if k + 2 < t.len() && t[k + 2] is Ident && method_named(t[k + 2]->Ident_0) is Some {
                Ok((k + 3, RouteAttrView { method: method_named(t[k + 2]->Ident_0)->0, ..acc }))
            } else {
                fail(ParseErrorKind::UnknownMethod, k + 2)
            }
        } else if name == "query"@ {
            if k + 2 < t.len() && t[k + 2] == punct('[') {
                match query_items(t, k + 3, seq![]) {
                    Ok((j, items)) => Ok((j, RouteAttrView { query: acc.query + items, ..acc })),
                    Err(e) => Err(e),
                }
            } else {
                fail(ParseErrorKind::ExpectedList, k + 2)
            }
        } else if name == "routes"@ {
            if k + 2 < t.len() && t[k + 2] == punct('[') {
                match group_items(t, k + 3, seq![]) {
                    Ok((j, items)) => Ok((j, RouteAttrView { groups: items, ..acc })),
                    Err(e) => Err(e),
                }
            } else {
                fail(ParseErrorKind::ExpectedList, k + 2)
            }
        } else {
            fail(ParseErrorKind::UnknownOption, k)
        }
    } else {
        fail(ParseErrorKind::ExpectedOption, k)
    }
}

/// The comma-separated options from token `k` (a trailing comma allowed).
pub open spec fn options_from(t: Seq<TokenView>, k: int, acc: RouteAttrView) -> Result<RouteAttrView, ParseError>
    decreases t.len() - k,
{
    if k < 0 || k >= t.len() {
        Ok(acc)
    } else {
        match option_step(t, k, acc) {
            Err(e) => Err(e),
            Ok((next, after)) => if next >= t.len() {
                Ok(after)
            } else if t[next] == punct(',') && next + 1 > k {
                options_from(t, next + 1, after)
            } else {
                fail(ParseErrorKind::ExpectedComma, next)
            },
        }
    }
}

/// A route declaration: `["!"] "path"`, then options after a comma.
pub open spec fn route_of_tokens(t: Seq<TokenView>) -> Result<RouteAttrView, ParseError> {
    let absolute = t.len() > 0 && t[0] == punct('!');
    let p: int = if absolute {
        1
    } else {
        0
    };
    if !(p < t.len() && t[p] is Str) {
        fail(ParseErrorKind::ExpectedPath, p)
    } else {
        let acc = RouteAttrView {
            absolute,
            path: t[p]->Str_0,
            method: HttpMethod::Get,
            query: seq![],
            groups: seq![],
            raw: false,
            no_auth: false,
        };
        if p + 1 >= t.len() {
            Ok(acc)
        } else if t[p + 1] == punct(',') {
            options_from(t, p + 2, acc)
        } else {
            fail(ParseErrorKind::ExpectedComma, p + 1)
        }
    }
}

/// The route declaration written in `text`.
pub open spec fn route_of_text(text: Seq<char>) -> Result<RouteAttrView, ParseError> {
    match lex(text) {
        None => fail(ParseErrorKind::UnterminatedString, 0),
        Some(t) => route_of_tokens(t),
    }
}

fn punct_at(t: &Vec<Token>, k: usize, c: char) -> (r: bool)
    ensures
        r == (k < t@.len() && token_views(t@)[k as int] == punct(c)),
{
    if k >= t.len() {
        return false;
    }
    assert(token_views(t@)[k as int] == t@[k as int]@);
    match &t[k] {
        Token::Punct(p) => {
            let n = p.as_str().unicode_len();
            if n == 1 && p.as_str().get_char(0) == c {
                assert(p@ =~= seq![c]);
                true
            } else {
                assert(p@.len() != 1 || p@[0] != seq![c][0]);
                false
            }
        },
        _ => false,
    }
}

fn ident_at(t: &Vec<Token>, k: usize) -> (r: Option<String>)
    ensures
        match r {
            Some(n) => k < t@.len() && token_views(t@)[k as int] == TokenView::Ident(n@),
            None => !(k < t@.len() && token_views(t@)[k as int] is Ident),
        },
{
    if k >= t.len() {
        return None;
    }
    assert(token_views(t@)[k as int] == t@[k as int]@);
    match &t[k] {
        Token::Ident(n) => Some(n.clone()),
        _ => None,
    }
}

fn str_at(t: &Vec<Token>, k: usize) -> (r: Option<String>)
    ensures
        match r {
            Some(n) => k < t@.len() && token_views(t@)[k as int] == TokenView::Str(n@),
            None => !(k < t@.len() && token_views(t@)[k as int] is Str),
        },
{
    if k >= t.len() {
        return None;
    }
    assert(token_views(t@)[k as int] == t@[k as int]@);
    match &t[k] {
        Token::Str(n) => Some(n.clone()),
        _ => None,
    }
}

fn query_items_exec(t: &Vec<Token>, start: usize) -> (r: Result<(usize, Vec<QueryDecl>), ParseError>)
    requires
        start <= t@.len(),
    ensures
        match r {
            Ok((j, items)) => query_items(token_views(t@), start as int, seq![]) == Ok::<
                (int, Seq<(Seq<char>, Option<Seq<char>>)>),
                ParseError,
            >((j as int, query_views(items@))) && start < j <= t@.len(),
            Err(e) => query_items(token_views(t@), start as int, seq![]) == Err::<
                (int, Seq<(Seq<char>, Option<Seq<char>>)>),
                ParseError,
            >(e),
        },
{
    let ghost tv = token_views(t@);
    let mut items: Vec<QueryDecl> = Vec::new();
    let mut k: usize = start;
    assert(query_views(items@) =~= Seq::<(Seq<char>, Option<Seq<char>>)>::empty());
    loop
        invariant
            tv == token_views(t@),
            tv.len() == t@.len(),
            start <= k <= t@.len(),
            query_items(tv, k as int, query_views(items@)) == query_items(tv, start as int, seq![]),
        decreases t@.len() - k,
    {
        if k >= t.len() {
            return Err(ParseError { kind: ParseErrorKind::ExpectedList, token: k });
        }
        if punct_at(t, k, ']') {
            return Ok((k + 1, items));
        }
        let n = match ident_at(t, k) {
            Some(n) => n,
            None => {
                return Err(ParseError { kind: ParseErrorKind::ExpectedName, token: k });
            },
        };
        let (desc, j) = match str_at(t, k + 1) {
            Some(d) => (Some(d), k + 2),
            None => (None, k + 1),
        };
        let ghost before = query_views(items@);
        items.push(QueryDecl { name: n, description: desc });
        assert(query_views(items@) =~= before.push((n@, crate::arguments::opt_view(desc))));
        if punct_at(t, j, ']') {
            return Ok((j + 1, items));
        }
        if !punct_at(t, j, ',') {
            return Err(ParseError { kind: ParseErrorKind::ExpectedList, token: j });
        }
        k = j + 1;
    }
}

fn group_items_exec(t: &Vec<Token>, start: usize) -> (r: Result<(usize, Vec<String>), ParseError>)
    requires
        start <= t@.len(),
    ensures
        match r {
            Ok((j, items)) => group_items(token_views(t@), start as int, seq![]) == Ok::<
                (int, Seq<Seq<char>>),
                ParseError,
            >((j as int, string_views(items@))) && start < j <= t@.len(),
            Err(e) => group_items(token_views(t@), start as int, seq![]) == Err::<
                (int, Seq<Seq<char>>),
                ParseError,
            >(e),
        },
{
    let ghost tv = token_views(t@);
    let mut items: Vec<String> = Vec::new();
    let mut k: usize = start;
    assert(string_views(items@) =~= Seq::<Seq<char>>::empty());
    loop
        invariant
            tv == token_views(t@),
            tv.len() == t@.len(),
            start <= k <= t@.len(),
            group_items(tv, k as int, string_views(items@)) == group_items(tv, start as int, seq![]),
        decreases t@.len() - k,
    {
        if k >= t.len() {
            return Err(ParseError { kind: ParseErrorKind::ExpectedList, token: k });
        }
        if punct_at(t, k, ']') {
            return Ok((k + 1, items));
        }
        let n = match ident_at(t, k) {
            Some(n) => n,
            None => {
                return Err(ParseError { kind: ParseErrorKind::ExpectedName, token: k });
            },
        };
        let ghost before = string_views(items@);
        items.push(n);
        assert(string_views(items@) =~= before.push(n@));
        if punct_at(t, k + 1, ']') {
            return Ok((k + 2, items));
        }
        if !punct_at(t, k + 1, ',') {
            return Err(ParseError { kind: ParseErrorKind::ExpectedList, token: k + 1 });
        }
        k = k + 2;
    }
}

fn word_is(n: &String, w: &str) -> (r: bool)
    ensures
        r == (n@ == w@),
{
    *n == String::from_str(w)
}

fn option_step_exec(t: &Vec<Token>, k: usize, acc: RouteAttr) -> (r: Result<(usize, RouteAttr), ParseError>)
    requires
        k < t@.len(),
    ensures
        match r {
            Ok((next, after)) => option_step(token_views(t@), k as int, acc@) == Ok::<
                (int, RouteAttrView),
                ParseError,
            >((next as int, after@)) && k < next <= t@.len(),
            Err(e) => option_step(token_views(t@), k as int, acc@) == Err::<(int, RouteAttrView), ParseError>(
                e,
            ),
        },
{
    let mut acc = acc;
    let n = t.len();
    let name = match ident_at(t, k) {
        Some(n) => n,
        None => {
            return Err(ParseError { kind: ParseErrorKind::ExpectedOption, token: k });
        },
    };
    proof {
        reveal_strlit("raw");
        reveal_strlit("no_auth");
        reveal_strlit("method");
        reveal_strlit("query");
        reveal_strlit("routes");
    }
    if word_is(&name, "raw") {
        acc.raw = true;
        return Ok((k + 1, acc));
    }
    if word_is(&name, "no_auth") {
        acc.no_auth = true;
        return Ok((k + 1, acc));
    }
    if !punct_at(t, k + 1, '=') {
        return Err(ParseError { kind: ParseErrorKind::ExpectedEquals, token: k + 1 });
    }
    if word_is(&name, "method") {
        match ident_at(t, k + 2) {
            Some(m) => match HttpMethod::from_name(m.as_str()) {
                Some(method) => {
                    acc.method = method;
                    return Ok((k + 3, acc));
                },
                None => {},
            },
            None => {},
        }
        return Err(ParseError { kind: ParseErrorKind::UnknownMethod, token: k + 2 });
    }
    if word_is(&name, "query") {
        if !punct_at(t, k + 2, '[') {
            return Err(ParseError { kind: ParseErrorKind::ExpectedList, token: k + 2 });
        }
        match query_items_exec(t, k + 3) {
            Ok((j, mut items)) => {
                let ghost before = query_views(acc.query@);
                let ghost added = query_views(items@);
                acc.query.append(&mut items);
                assert(query_views(acc.query@) =~= before + added);
                return Ok((j, acc));
            },
            Err(e) => return Err(e),
        }
    }
    if word_is(&name, "routes") {
        if !punct_at(t, k + 2, '[') {
            return Err(ParseError { kind: ParseErrorKind::ExpectedList, token: k + 2 });
        }
        match group_items_exec(t, k + 3) {
            Ok((j, items)) => {
                acc.groups = items;
                return Ok((j, acc));
            },
            Err(e) => return Err(e),
        }
    }
    Err(ParseError { kind: ParseErrorKind::UnknownOption, token: k })
}

/// Reads a route declaration from text.
pub fn parse_route(text: &str) -> (r: Result<RouteAttr, ParseError>)
    ensures
        match r {
            Ok(a) => route_of_text(text@) == Ok::<RouteAttrView, ParseError>(a@),
            Err(e) => route_of_text(text@) == Err::<RouteAttrView, ParseError>(e),
        },
{
    let t = match tokenize(text) {
        Some(t) => t,
        None => return Err(ParseError { kind: ParseErrorKind::UnterminatedString, token: 0 }),
    };
    let ghost tv = token_views(t@);
    assert(tv.len() == t@.len());
    let absolute = punct_at(&t, 0, '!');
    let p: usize = if absolute { 1 } else { 0 };
    let path = match str_at(&t, p) {
        Some(path) => path,
        None => return Err(ParseError { kind: ParseErrorKind::ExpectedPath, token: p }),
    };
    let mut acc = RouteAttr {
        absolute,
        path,
        method: HttpMethod::Get,
        query: Vec::new(),
        groups: Vec::new(),
        raw: false,
        no_auth: false,
    };
    assert(acc@.query =~= Seq::<(Seq<char>, Option<Seq<char>>)>::empty());
    assert(acc@.groups =~= Seq::<Seq<char>>::empty());
    if p + 1 >= t.len() {
        return Ok(acc);
    }
    if !punct_at(&t, p + 1, ',') {
        return Err(ParseError { kind: ParseErrorKind::ExpectedComma, token: p + 1 });
    }
    let ghost start = acc@;
    let mut k: usize = p + 2;
    loop
        invariant
            tv == token_views(t@),
            tv.len() == t@.len(),
            k <= t@.len(),
            route_of_text(text@) == options_from(tv, k as int, acc@),
        decreases t@.len() - k,
    {
        if k >= t.len() {
            return Ok(acc);
        }
        match option_step_exec(&t, k, acc) {
            Err(e) => return Err(e),
            Ok((next, after)) => {
                if next >= t.len() {
                    return Ok(after);
                }
                if !punct_at(&t, next, ',') {
                    return Err(ParseError { kind: ParseErrorKind::ExpectedComma, token: next });
                }
                acc = after;
                k = next + 1;
            },
        }
    }
}

/// The operation declared by a route declaration and the rest of an
/// operation's signature; it requires authentication unless `no_auth`.
pub fn declare(
    id: String,
    route: RouteAttr,
    params: Vec<RawParam>,
    errors: Vec<ErrorRef>,
    success: SuccessType,
    doc: Vec<String>,
) -> (r: OperationDecl)
    ensures
        r.id == id,
        r.path == route.path,
        r.absolute == route.absolute,
        r.method == route.method,
        r.params == params,
        r.query == route.query,
        r.groups == route.groups,
        r.requires_auth == !route.no_auth,
        r.raw == route.raw,
        r.errors == errors,
        r.success == success,
        r.doc == doc,
{
    let RouteAttr { absolute, path, method, query, groups, raw, no_auth } = route;
    OperationDecl {
        id,
        path,
        absolute,
        method,
        params,
        query,
        groups,
        requires_auth: !no_auth,
        raw,
        errors,
        success,
        doc,
    }
}

pub type AttrView = (Seq<char>, Option<Seq<char>>);

pub enum SourceView {
    Shared(Seq<char>, Seq<char>),
    Inline(Seq<char>, u16, Seq<char>),
}

pub struct ErrorRefView {
    pub source: SourceView,
    pub attributes: Seq<AttrView>,
}

pub open spec fn attr_views(v: Seq<ErrorAttribute>) -> Seq<AttrView> {
    v.map_values(|a: ErrorAttribute| (a.attribute@, crate::arguments::opt_view(a.condition)))
}

pub open spec fn ref_view(r: ErrorRef) -> ErrorRefView {
    ErrorRefView {
        source: match r.source {
            ErrorSource::Shared { category, entry } => SourceView::Shared(category@, entry@),
            ErrorSource::Inline { name, status, message } => SourceView::Inline(name@, status, message@),
        },
        attributes: attr_views(r.attributes@),
    }
}

pub open spec fn ref_views(v: Seq<ErrorRef>) -> Seq<ErrorRefView> {
    v.map_values(|r: ErrorRef| ref_view(r))
}

pub open spec fn digit_value(c: char) -> int {
    c as int - '0' as int
}

pub open spec fn is_digit(c: char) -> bool {
    '0' <= c <= '9'
}

/// A status written as three digits.
pub open spec fn status_value(s: Seq<char>) -> Option<u16> {
    if s.len() == 3 && is_digit(s[0]) && is_digit(s[1]) && is_digit(s[2]) {
        Some((digit_value(s[0]) * 100 + digit_value(s[1]) * 10 + digit_value(s[2])) as u16)
    } else {
        None
    }
}

/// The attributes `key: *` or `key: condition` up to and past `]`.
pub open spec fn attrs_from(t: Seq<TokenView>, k: int, acc: Seq<AttrView>) -> Result<(int, Seq<AttrView>), ParseError>
    decreases t.len() - k,
{
    if k < 0 || k >= t.len() {
        fail(ParseErrorKind::ExpectedList, k)
    } else if t[k] == punct(']') {
        Ok((k + 1, acc))
    } else if let TokenView::Ident(key) = t[k] {
        if !(k + 1 < t.len() && t[k + 1] == punct(':')) {
            fail(ParseErrorKind::ExpectedColon, k + 1)
        } else if k + 2 < t.len() && t[k + 2] == punct('*') {
            attrs_from(t, k + 3, acc.push((key, None)))
        } else if k + 2 < t.len() && t[k + 2] is Ident {
            attrs_from(t, k + 3, acc.push((key, Some(t[k + 2]->Ident_0))))
        } else {
            fail(ParseErrorKind::ExpectedName, k + 2)
        }
    } else {
        fail(ParseErrorKind::ExpectedName, k)
    }
}

/// An optional bracketed attribute list at `k`.
pub open spec fn opt_attrs(t: Seq<TokenView>, k: int) -> Result<(int, Seq<AttrView>), ParseError> {
    if 0 <= k < t.len() && t[k] == punct('[') {
        attrs_from(t, k + 1, seq![])
    } else {
        Ok((k, seq![]))
    }
}

/// The entries `entry [attributes]` of category `cat` up to and past `)`.
pub open spec fn entries_from(t: Seq<TokenView>, k: int, cat: Seq<char>, acc: Seq<ErrorRefView>) -> Result<
    (int, Seq<ErrorRefView>),
    ParseError,
>
    decreases t.len() - k,
{
    if k < 0 || k >= t.len() {
        fail(ParseErrorKind::ExpectedList, k)
    } else if t[k] == punct(')') {
        Ok((k + 1, acc))
    } else if let TokenView::Ident(e) = t[k] {
        match opt_attrs(t, k + 1) {
            Err(err) => Err(err),
            Ok((j, attrs)) => if k < j <= t.len() {
                entries_from(
                    t,
                    j,
                    cat,
                    acc.push(ErrorRefView { source: SourceView::Shared(cat, e), attributes: attrs }),
                )
            } else {
                fail(ParseErrorKind::ExpectedList, j)
            },
        }
    } else {
        fail(ParseErrorKind::ExpectedName, k)
    }
}

/// The entries `Name "message" STATUS [attributes]` up to and past `}`,
/// commas between them optional.
pub open spec fn customs_from(t: Seq<TokenView>, k: int, acc: Seq<ErrorRefView>) -> Result<
    (int, Seq<ErrorRefView>),
    ParseError,
>
    decreases t.len() - k,
{
    if k < 0 || k >= t.len() {
        fail(ParseErrorKind::ExpectedList, k)
    } else if t[k] == punct('}') {
        Ok((k + 1, acc))
    } else if t[k] == punct(',') {
        customs_from(t, k + 1, acc)
    } else if let TokenView::Ident(name) = t[k] {
        if !(k + 1 < t.len() && t[k + 1] is Str) {
            fail(ParseErrorKind::ExpectedMessage, k + 1)
        } else if !(k + 2 < t.len() && t[k + 2] is Ident && status_value(t[k + 2]->Ident_0) is Some) {
            fail(ParseErrorKind::ExpectedStatus, k + 2)
        } else {
            match opt_attrs(t, k + 3) {
                Err(err) => Err(err),
                Ok((j, attrs)) => if k < j <= t.len() {
                    customs_from(
                        t,
                        j,
                        acc.push(
                            ErrorRefView {
                                source: SourceView::Inline(
                                    name,
                                    status_value(t[k + 2]->Ident_0)->0,
                                    t[k + 1]->Str_0,
                                ),
                                attributes: attrs,
                            },
                        ),
                    )
                } else {
                    fail(ParseErrorKind::ExpectedList, j)
                },
            }
        }
    } else {
        fail(ParseErrorKind::ExpectedName, k)
    }
}

/// The error declarations from token `k`: `category(entries)` groups and
/// `{ entries }` blocks, commas between them optional.
pub open spec fn refs_from(t: Seq<TokenView>, k: int, acc: Seq<ErrorRefView>) -> Result<Seq<ErrorRefView>, ParseError>
    decreases t.len() - k,
{
    if k < 0 || k >= t.len() {
        Ok(acc)
    } else if t[k] == punct(',') {
        refs_from(t, k + 1, acc)
    } else if t[k] == punct('{') {
        match customs_from(t, k + 1, seq![]) {
            Err(err) => Err(err),
            Ok((j, items)) => if k < j <= t.len() {
                refs_from(t, j, acc + items)
            } else {
                fail(ParseErrorKind::ExpectedList, j)
            },
        }
    } else if let TokenView::Ident(cat) = t[k] {
        if k + 1 < t.len() && t[k + 1] == punct('(') {
            match entries_from(t, k + 2, cat, seq![]) {
                Err(err) => Err(err),
                Ok((j, items)) => if k < j <= t.len() {
                    refs_from(t, j, acc + items)
                } else {
                    fail(ParseErrorKind::ExpectedList, j)
                },
            }
        } else {
            fail(ParseErrorKind::ExpectedList, k + 1)
        }
    } else {
        fail(ParseErrorKind::ExpectedName, k)
    }
}

/// The error declarations written in `text`.
pub open spec fn refs_of_text(text: Seq<char>) -> Result<Seq<ErrorRefView>, ParseError> {
    match lex(text) {
        None => fail(ParseErrorKind::UnterminatedString, 0),
        Some(t) => refs_from(t, 0, seq![]),
    }
}

fn status_of(n: &String) -> (r: Option<u16>)
    ensures
        r == status_value(n@),
{
    let c = chars_of(n.as_str());
    if c.len() != 3 {
        return None;
    }
    let a = c[0];
    let b = c[1];
    let d = c[2];
    if !('0' <= a && a <= '9' && '0' <= b && b <= '9' && '0' <= d && d <= '9') {
        return None;
    }
    let v: u32 = (a as u32 - '0' as u32) * 100 + (b as u32 - '0' as u32) * 10 + (d as u32 - '0' as u32);
    Some(v as u16)
}

fn attrs_exec(t: &Vec<Token>, start: usize) -> (r: Result<(usize, Vec<ErrorAttribute>), ParseError>)
    requires
        start <= t@.len(),
    ensures
        match r {
            Ok((j, items)) => attrs_from(token_views(t@), start as int, seq![]) == Ok::<
                (int, Seq<AttrView>),
                ParseError,
            >((j as int, attr_views(items@))) && start < j <= t@.len(),
            Err(e) => attrs_from(token_views(t@), start as int, seq![]) == Err::<(int, Seq<AttrView>), ParseError>(
                e,
            ),
        },
{
    let ghost tv = token_views(t@);
    let mut items: Vec<ErrorAttribute> = Vec::new();
    let mut k: usize = start;
    assert(attr_views(items@) =~= Seq::<AttrView>::empty());
    loop
        invariant
            tv == token_views(t@),
            tv.len() == t@.len(),
            start <= k <= t@.len(),
            attrs_from(tv, k as int, attr_views(items@)) == attrs_from(tv, start as int, seq![]),
        decreases t@.len() - k,
    {
        if k >= t.len() {
            return Err(ParseError { kind: ParseErrorKind::ExpectedList, token: k });
        }
        if punct_at(t, k, ']') {
            return Ok((k + 1, items));
        }
        let key = match ident_at(t, k) {
            Some(n) => n,
            None => {
                return Err(ParseError { kind: ParseErrorKind::ExpectedName, token: k });
            },
        };
        if !punct_at(t, k + 1, ':') {
            return Err(ParseError { kind: ParseErrorKind::ExpectedColon, token: k + 1 });
        }
        let condition = if punct_at(t, k + 2, '*') {
            None
        } else {
            match ident_at(t, k + 2) {
                Some(v) => Some(v),
                None => {
                    return Err(ParseError { kind: ParseErrorKind::ExpectedName, token: k + 2 });
                },
            }
        };
        let ghost before = attr_views(items@);
        items.push(ErrorAttribute { attribute: key, condition });
        assert(attr_views(items@) =~= before.push((key@, crate::arguments::opt_view(condition))));
        k = k + 3;
    }
}

fn opt_attrs_exec(t: &Vec<Token>, k: usize) -> (r: Result<(usize, Vec<ErrorAttribute>), ParseError>)
    requires
        k <= t@.len(),
    ensures
        match r {
            Ok((j, items)) => opt_attrs(token_views(t@), k as int) == Ok::<(int, Seq<AttrView>), ParseError>(
                (j as int, attr_views(items@)),
            ) && k <= j <= t@.len(),
            Err(e) => opt_attrs(token_views(t@), k as int) == Err::<(int, Seq<AttrView>), ParseError>(e),
        },
{
    let n = t.len();
    if punct_at(t, k, '[') {
        attrs_exec(t, k + 1)
    } else {
        let items: Vec<ErrorAttribute> = Vec::new();
        assert(attr_views(items@) =~= Seq::<AttrView>::empty());
        Ok((k, items))
    }
}

fn entries_exec(t: &Vec<Token>, start: usize, cat: &String) -> (r: Result<(usize, Vec<ErrorRef>), ParseError>)
    requires
        start <= t@.len(),
    ensures
        match r {
            Ok((j, items)) => entries_from(token_views(t@), start as int, cat@, seq![]) == Ok::<
                (int, Seq<ErrorRefView>),
                ParseError,
            >((j as int, ref_views(items@))) && start < j <= t@.len(),
            Err(e) => entries_from(token_views(t@), start as int, cat@, seq![]) == Err::<
                (int, Seq<ErrorRefView>),
                ParseError,
            >(e),
        },
{
    let ghost tv = token_views(t@);
    let mut items: Vec<ErrorRef> = Vec::new();
    let mut k: usize = start;
    assert(ref_views(items@) =~= Seq::<ErrorRefView>::empty());
    loop
        invariant
            tv == token_views(t@),
            tv.len() == t@.len(),
            start <= k <= t@.len(),
            entries_from(tv, k as int, cat@, ref_views(items@)) == entries_from(tv, start as int, cat@, seq![]),
        decreases t@.len() - k,
    {
        if k >= t.len() {
            return Err(ParseError { kind: ParseErrorKind::ExpectedList, token: k });
        }
        if punct_at(t, k, ')') {
            return Ok((k + 1, items));
        }
        let entry = match ident_at(t, k) {
            Some(n) => n,
            None => {
                return Err(ParseError { kind: ParseErrorKind::ExpectedName, token: k });
            },
        };
        let (j, attributes) = match opt_attrs_exec(t, k + 1) {
            Ok(x) => x,
            Err(e) => return Err(e),
        };
        let ghost before = ref_views(items@);
        let ghost entry_view = entry@;
        let ghost attrs_view = attr_views(attributes@);
        items.push(ErrorRef { source: ErrorSource::Shared { category: cat.clone(), entry }, attributes });
        assert(ref_views(items@) =~= before.push(
            ErrorRefView { source: SourceView::Shared(cat@, entry_view), attributes: attrs_view },
        ));
        k = j;
    }
}

fn customs_exec(t: &Vec<Token>, start: usize) -> (r: Result<(usize, Vec<ErrorRef>), ParseError>)
    requires
        start <= t@.len(),
    ensures
        match r {
            Ok((j, items)) => customs_from(token_views(t@), start as int, seq![]) == Ok::<
                (int, Seq<ErrorRefView>),
                ParseError,
            >((j as int, ref_views(items@))) && start < j <= t@.len(),
            Err(e) => customs_from(token_views(t@), start as int, seq![]) == Err::<
                (int, Seq<ErrorRefView>),
                ParseError,
            >(e),
        },
{
    let ghost tv = token_views(t@);
    let mut items: Vec<ErrorRef> = Vec::new();
    let mut k: usize = start;
    assert(ref_views(items@) =~= Seq::<ErrorRefView>::empty());
    loop
        invariant
            tv == token_views(t@),
            tv.len() == t@.len(),
            start <= k <= t@.len(),
            customs_from(tv, k as int, ref_views(items@)) == customs_from(tv, start as int, seq![]),
        decreases t@.len() - k,
    {
        if k >= t.len() {
            return Err(ParseError { kind: ParseErrorKind::ExpectedList, token: k });
        }
        if punct_at(t, k, '}') {
            return Ok((k + 1, items));
        }
        if punct_at(t, k, ',') {
            k = k + 1;
        } else {
            let name = match ident_at(t, k) {
                Some(n) => n,
                None => {
                    return Err(ParseError { kind: ParseErrorKind::ExpectedName, token: k });
                },
            };
            let message = match str_at(t, k + 1) {
                Some(m) => m,
                None => {
                    return Err(ParseError { kind: ParseErrorKind::ExpectedMessage, token: k + 1 });
                },
            };
            let status = match ident_at(t, k + 2) {
                Some(code) => match status_of(&code) {
                    Some(v) => v,
                    None => {
                        return Err(ParseError { kind: ParseErrorKind::ExpectedStatus, token: k + 2 });
                    },
                },
                None => {
                    return Err(ParseError { kind: ParseErrorKind::ExpectedStatus, token: k + 2 });
                },
            };
            let (j, attributes) = match opt_attrs_exec(t, k + 3) {
                Ok(x) => x,
                Err(e) => return Err(e),
            };
            let ghost before = ref_views(items@);
            let ghost v = ErrorRefView {
                source: SourceView::Inline(name@, status, message@),
                attributes: attr_views(attributes@),
            };
            items.push(ErrorRef { source: ErrorSource::Inline { name, status, message }, attributes });
            assert(ref_views(items@) =~= before.push(v));
            k = j;
        }
    }
}

/// Reads the error declarations of an operation from text.
pub fn parse_errors(text: &str) -> (r: Result<Vec<ErrorRef>, ParseError>)
    ensures
        match r {
            Ok(refs) => refs_of_text(text@) == Ok::<Seq<ErrorRefView>, ParseError>(ref_views(refs@)),
            Err(e) => refs_of_text(text@) == Err::<Seq<ErrorRefView>, ParseError>(e),
        },
{
    let t = match tokenize(text) {
        Some(t) => t,
        None => return Err(ParseError { kind: ParseErrorKind::UnterminatedString, token: 0 }),
    };
    let ghost tv = token_views(t@);
    let mut refs: Vec<ErrorRef> = Vec::new();
    let mut k: usize = 0;
    assert(ref_views(refs@) =~= Seq::<ErrorRefView>::empty());
    loop
        invariant
            tv == token_views(t@),
            tv.len() == t@.len(),
            k <= t@.len(),
            refs_from(tv, k as int, ref_views(refs@)) == refs_of_text(text@),
        decreases t@.len() - k,
    {
        if k >= t.len() {
            return Ok(refs);
        }
        if punct_at(&t, k, ',') {
            k = k + 1;
        } else if punct_at(&t, k, '{') {
            let (j, mut items) = match customs_exec(&t, k + 1) {
                Ok(x) => x,
                Err(e) => return Err(e),
            };
            let ghost before = ref_views(refs@);
            let ghost added = ref_views(items@);
            refs.append(&mut items);
            assert(ref_views(refs@) =~= before + added);
            k = j;
        } else {
            let cat = match ident_at(&t, k) {
                Some(n) => n,
                None => {
                    return Err(ParseError { kind: ParseErrorKind::ExpectedName, token: k });
                },
            };
            if !punct_at(&t, k + 1, '(') {
                return Err(ParseError { kind: ParseErrorKind::ExpectedList, token: k + 1 });
            }
            let (j, mut items) = match entries_exec(&t, k + 2, &cat) {
                Ok(x) => x,
                Err(e) => return Err(e),
            };
            let ghost before = ref_views(refs@);
            let ghost added = ref_views(items@);
            refs.append(&mut items);
            assert(ref_views(refs@) =~= before + added);
            k = j;
        }
    }
}

pub type CategoryEntryView = (Seq<char>, u16, Seq<char>);

pub open spec fn category_entry_views(v: Seq<CategoryEntry>) -> Seq<CategoryEntryView> {
    v.map_values(|e: CategoryEntry| (e.name@, e.status, e.message@))
}

/// The entries `name ("message" STATUS)` of a category up to and past `}`.
pub open spec fn category_entries(t: Seq<TokenView>, k: int, acc: Seq<CategoryEntryView>) -> Result<
    (int, Seq<CategoryEntryView>),
    ParseError,
>
    decreases t.len() - k,
{
    if k < 0 || k >= t.len() {
        fail(ParseErrorKind::ExpectedList, k)
    } else if t[k] == punct('}') {
        Ok((k + 1, acc))
    } else if let TokenView::Ident(name) = t[k] {
        if !(k + 1 < t.len() && t[k + 1] == punct('(')) {
            fail(ParseErrorKind::ExpectedList, k + 1)
        } else if !(k + 2 < t.len() && t[k + 2] is Str) {
            fail(ParseErrorKind::ExpectedMessage, k + 2)
        } else if !(k + 3 < t.len() && t[k + 3] is Ident && status_value(t[k + 3]->Ident_0) is Some) {
            fail(ParseErrorKind::ExpectedStatus, k + 3)
        } else if !(k + 4 < t.len() && t[k + 4] == punct(')')) {
            fail(ParseErrorKind::ExpectedList, k + 4)
        } else {
            let more = acc.push((name, status_value(t[k + 3]->Ident_0)->0, t[k + 2]->Str_0));
            if k + 5 < t.len() && t[k + 5] == punct('}') {
                Ok((k + 6, more))
            } else if k + 5 < t.len() && t[k + 5] == punct(',') {
                category_entries(t, k + 6, more)
            } else {
                fail(ParseErrorKind::ExpectedComma, k + 5)
            }
        }
    } else {
        fail(ParseErrorKind::ExpectedName, k)
    }
}

/// A category definition: `name { entry ("message" STATUS), ... }`.
pub open spec fn category_of_tokens(t: Seq<TokenView>) -> Result<(Seq<char>, Seq<CategoryEntryView>), ParseError> {
    if !(t.len() > 0 && t[0] is Ident) {
        fail(ParseErrorKind::ExpectedName, 0)
    } else if !(t.len() > 1 && t[1] == punct('{')) {
        fail(ParseErrorKind::ExpectedList, 1)
    } else {
        match category_entries(t, 2, seq![]) {
            Err(e) => Err(e),
            Ok((j, entries)) => if j == t.len() {
                Ok((t[0]->Ident_0, entries))
            } else {
                fail(ParseErrorKind::ExpectedComma, j)
            },
        }
    }
}

pub open spec fn category_of_text(text: Seq<char>) -> Result<(Seq<char>, Seq<CategoryEntryView>), ParseError> {
    match lex(text) {
        None => fail(ParseErrorKind::UnterminatedString, 0),
        Some(t) => category_of_tokens(t),
    }
}

fn category_entries_exec(t: &Vec<Token>, start: usize) -> (r: Result<(usize, Vec<CategoryEntry>), ParseError>)
    requires
        start <= t@.len(),
    ensures
        match r {
            Ok((j, items)) => category_entries(token_views(t@), start as int, seq![]) == Ok::<
                (int, Seq<CategoryEntryView>),
                ParseError,
            >((j as int, category_entry_views(items@))) && start < j <= t@.len(),
            Err(e) => category_entries(token_views(t@), start as int, seq![]) == Err::<
                (int, Seq<CategoryEntryView>),
                ParseError,
            >(e),
        },
{
    let ghost tv = token_views(t@);
    let mut items: Vec<CategoryEntry> = Vec::new();
    let mut k: usize = start;
    assert(category_entry_views(items@) =~= Seq::<CategoryEntryView>::empty());
    loop
        invariant
            tv == token_views(t@),
            tv.len() == t@.len(),
            start <= k <= t@.len(),
            category_entries(tv, k as int, category_entry_views(items@)) == category_entries(
                tv,
                start as int,
                seq![],
            ),
        decreases t@.len() - k,
    {
        if k >= t.len() {
            return Err(ParseError { kind: ParseErrorKind::ExpectedList, token: k });
        }
        if punct_at(t, k, '}') {
            return Ok((k + 1, items));
        }
        let name = match ident_at(t, k) {
            Some(n) => n,
            None => {
                return Err(ParseError { kind: ParseErrorKind::ExpectedName, token: k });
            },
        };
        if !punct_at(t, k + 1, '(') {
            return Err(ParseError { kind: ParseErrorKind::ExpectedList, token: k + 1 });
        }
        let message = match str_at(t, k + 2) {
            Some(m) => m,
            None => {
                return Err(ParseError { kind: ParseErrorKind::ExpectedMessage, token: k + 2 });
            },
        };
        let status = match ident_at(t, k + 3) {
            Some(code) => match status_of(&code) {
                Some(v) => v,
                None => {
                    return Err(ParseError { kind: ParseErrorKind::ExpectedStatus, token: k + 3 });
                },
            },
            None => {
                return Err(ParseError { kind: ParseErrorKind::ExpectedStatus, token: k + 3 });
            },
        };
        if !punct_at(t, k + 4, ')') {
            return Err(ParseError { kind: ParseErrorKind::ExpectedList, token: k + 4 });
        }
        let ghost before = category_entry_views(items@);
        let ghost v = (name@, status, message@);
        items.push(CategoryEntry { name, status, message });
        assert(category_entry_views(items@) =~= before.push(v));
        if punct_at(t, k + 5, '}') {
            return Ok((k + 6, items));
        }
        if !punct_at(t, k + 5, ',') {
            return Err(ParseError { kind: ParseErrorKind::ExpectedComma, token: k + 5 });
        }
        k = k + 6;
    }
}

/// Reads a shared category definition from text.
pub fn parse_category(text: &str) -> (r: Result<ErrorCategory, ParseError>)
    ensures
        match r {
            Ok(c) => category_of_text(text@) == Ok::<(Seq<char>, Seq<CategoryEntryView>), ParseError>(
                (c.name@, category_entry_views(c.entries@)),
            ),
            Err(e) => category_of_text(text@) == Err::<(Seq<char>, Seq<CategoryEntryView>), ParseError>(e),
        },
{
    let t = match tokenize(text) {
        Some(t) => t,
        None => return Err(ParseError { kind: ParseErrorKind::UnterminatedString, token: 0 }),
    };
    let name = match ident_at(&t, 0) {
        Some(n) => n,
        None => return Err(ParseError { kind: ParseErrorKind::ExpectedName, token: 0 }),
    };
    if !punct_at(&t, 1, '{') {
        return Err(ParseError { kind: ParseErrorKind::ExpectedList, token: 1 });
    }
    let (j, entries) = match category_entries_exec(&t, 2) {
        Ok(x) => x,
        Err(e) => return Err(e),
    };
    if j != t.len() {
        return Err(ParseError { kind: ParseErrorKind::ExpectedComma, token: j });
    }
    Ok(ErrorCategory { name, entries })
}

/// The text a token is written as.
pub open spec fn token_text(tk: TokenView) -> Seq<char> {
    match tk {
        TokenView::Ident(s) => s,
        TokenView::Str(s) => seq!['"'] + s + seq!['"'],
        TokenView::Punct(p) => p,
    }
}

/// Tokens `from..to` written back as text, a space only between two
/// identifiers.
pub open spec fn joined_text(t: Seq<TokenView>, from: int, to: int) -> Seq<char>
    decreases to - from,
{
    if to <= from {
        seq![]
    } else {
        let sep = if to - 1 > from && t[to - 2] is Ident && t[to - 1] is Ident {
            seq![' ']
        } else {
            seq![]
        };
        joined_text(t, from, to - 1) + sep + token_text(t[to - 1])
    }
}

/// The markers `#[special]` and `#[no_schema]` from token `k`, before `end`.
pub open spec fn markers_from(t: Seq<TokenView>, k: int, end: int, special: bool, no_schema: bool) -> Result<
    (int, bool, bool),
    ParseError,
>
    decreases end - k,
{
    if k < 0 || k >= end || end > t.len() || t[k] != punct('#') {
        Ok((k, special, no_schema))
    } else if !(k + 1 < end && t[k + 1] == punct('[')) {
        fail(ParseErrorKind::ExpectedList, k + 1)
    } else if !(k + 2 < end && (t[k + 2] == TokenView::Ident("special"@) || t[k + 2]
        == TokenView::Ident("no_schema"@))) {
        fail(ParseErrorKind::UnknownMarker, k + 2)
    } else if !(k + 3 < end && t[k + 3] == punct(']')) {
        fail(ParseErrorKind::ExpectedList, k + 3)
    } else if t[k + 2] == TokenView::Ident("special"@) {
        markers_from(t, k + 4, end, true, no_schema)
    } else {
        markers_from(t, k + 4, end, special, true)
    }
}

/// The parameter written in tokens `from..end`: `[markers] [mut] name: Type`,
/// as its name, type text and markers.
pub open spec fn param_in(t: Seq<TokenView>, from: int, end: int) -> Result<(Seq<char>, Seq<char>, bool, bool), ParseError> {
    match markers_from(t, from, end, false, false) {
        Err(e) => Err(e),
        Ok((k0, special, no_schema)) => {
            let k = if 0 <= k0 && k0 + 1 < end && t[k0] == TokenView::Ident("mut"@) && t[k0 + 1] is Ident {
                k0 + 1
            } else {
                k0
            };
            if !(0 <= k < end && t[k] is Ident) {
                fail(ParseErrorKind::ExpectedName, k)
            } else if !(k + 1 < end && t[k + 1] == punct(':')) {
                fail(ParseErrorKind::ExpectedColon, k + 1)
            } else if k + 2 >= end {
                fail(ParseErrorKind::ExpectedType, k + 2)
            } else {
                Ok((t[k]->Ident_0, joined_text(t, k + 2, end), special, no_schema))
            }
        },
    }
}

pub open spec fn param_of_text(text: Seq<char>) -> Result<(Seq<char>, Seq<char>, bool, bool), ParseError> {
    match lex(text) {
        None => fail(ParseErrorKind::UnterminatedString, 0),
        Some(t) => param_in(t, 0, t.len() as int),
    }
}

pub open spec fn angle_step(tk: TokenView) -> int {
    if tk == punct('<') {
        1
    } else if tk == punct('>') {
        -1
    } else {
        0
    }
}

/// The first comma at or after `k` outside angle brackets (`depth` open
/// so far), or `end`.
pub open spec fn top_comma(t: Seq<TokenView>, k: int, end: int, depth: int) -> int
    decreases end - k,
{
    if k < 0 || k >= end {
        end
    } else if t[k] == punct(',') && depth == 0 {
        k
    } else {
        top_comma(t, k + 1, end, depth + angle_step(t[k]))
    }
}

pub type ParamView = (Seq<char>, Seq<char>, bool, bool);

/// The parameters from token `k` on, separated by commas outside angle
/// brackets (a trailing comma allowed).
pub open spec fn params_from(t: Seq<TokenView>, k: int, acc: Seq<ParamView>) -> Result<Seq<ParamView>, ParseError>
    decreases t.len() - k,
{
    if k < 0 || k >= t.len() {
        Ok(acc)
    } else {
        let c = top_comma(t, k, t.len() as int, 0);
        match param_in(t, k, c) {
            Err(e) => Err(e),
            Ok(p) => if c >= t.len() || c < k {
                Ok(acc.push(p))
            } else {
                params_from(t, c + 1, acc.push(p))
            },
        }
    }
}

/// A parameter list: the receiver `&self`, then the parameters.
pub open spec fn params_of_text(text: Seq<char>) -> Result<Seq<ParamView>, ParseError> {
    match lex(text) {
        None => fail(ParseErrorKind::UnterminatedString, 0),
        Some(t) => if !(t.len() > 1 && t[0] == punct('&') && t[1] == TokenView::Ident("self"@)) {
            fail(ParseErrorKind::ExpectedReceiver, 0)
        } else if t.len() == 2 {
            Ok(seq![])
        } else if t[2] == punct(',') {
            params_from(t, 3, seq![])
        } else {
            fail(ParseErrorKind::ExpectedComma, 2)
        },
    }
}

proof fn lemma_top_comma(t: Seq<TokenView>, k: int, end: int, depth: int)
    requires
        0 <= k <= end,
    ensures
        k <= top_comma(t, k, end, depth) <= end,
    decreases end - k,
{
    if k < end && !(t[k] == punct(',') && depth == 0) {
        lemma_top_comma(t, k + 1, end, depth + angle_step(t[k]));
    }
}

pub open spec fn param_view(p: RawParam) -> ParamView {
    (p.name@, p.ty@, p.special, p.no_schema)
}

fn token_text_exec(tk: &Token) -> (r: String)
    ensures
        r@ == token_text(tk@),
{
    match tk {
        Token::Ident(s) => s.clone(),
        Token::Str(s) => {
            proof {
                reveal_strlit("\"");
            }
            let mut out = String::from_str("\"");
            out.append(s.as_str());
            out.append("\"");
            assert(out@ =~= seq!['"'] + s@ + seq!['"']);
            out
        },
        Token::Punct(p) => p.clone(),
    }
}

fn markers_exec(t: &Vec<Token>, from: usize, end: usize) -> (r: Result<(usize, bool, bool), ParseError>)
    requires
        from <= end <= t@.len(),
    ensures
        match r {
            Ok((k, special, no_schema)) => markers_from(token_views(t@), from as int, end as int, false, false)
                == Ok::<(int, bool, bool), ParseError>((k as int, special, no_schema)) && from <= k <= end,
            Err(e) => markers_from(token_views(t@), from as int, end as int, false, false) == Err::<
                (int, bool, bool),
                ParseError,
            >(e),
        },
{
    let ghost tv = token_views(t@);
    let mut special = false;
    let mut no_schema = false;
    let mut k: usize = from;
    proof {
        reveal_strlit("special");
        reveal_strlit("no_schema");
    }
    loop
        invariant
            tv == token_views(t@),
            tv.len() == t@.len(),
            from <= k <= end,
            end <= t@.len(),
            markers_from(tv, k as int, end as int, special, no_schema) == markers_from(
                tv,
                from as int,
                end as int,
                false,
                false,
            ),
        decreases end - k,
    {
        if k >= end || !punct_at(t, k, '#') {
            return Ok((k, special, no_schema));
        }
        if !(k + 1 < end && punct_at(t, k + 1, '[')) {
            return Err(ParseError { kind: ParseErrorKind::ExpectedList, token: k + 1 });
        }
        let marker = if k + 2 < end {
            ident_at(t, k + 2)
        } else {
            None
        };
        let marker = match marker {
            Some(m) => m,
            None => return Err(ParseError { kind: ParseErrorKind::UnknownMarker, token: k + 2 }),
        };
        let is_special = word_is(&marker, "special");
        if !is_special && !word_is(&marker, "no_schema") {
            return Err(ParseError { kind: ParseErrorKind::UnknownMarker, token: k + 2 });
        }
        if !(k + 3 < end && punct_at(t, k + 3, ']')) {
            return Err(ParseError { kind: ParseErrorKind::ExpectedList, token: k + 3 });
        }
        if is_special {
            special = true;
        } else {
            no_schema = true;
        }
        k = k + 4;
    }
}

fn param_tokens(t: &Vec<Token>, from: usize, end: usize) -> (r: Result<RawParam, ParseError>)
    requires
        from <= end <= t@.len(),
    ensures
        match r {
            Ok(p) => param_in(token_views(t@), from as int, end as int) == Ok::<ParamView, ParseError>(param_view(p)),
            Err(e) => param_in(token_views(t@), from as int, end as int) == Err::<ParamView, ParseError>(e),
        },
{
    let ghost tv = token_views(t@);
    let (k0, special, no_schema) = match markers_exec(t, from, end) {
        Ok(x) => x,
        Err(e) => return Err(e),
    };
    proof {
        reveal_strlit("mut");
    }
    let mut k = k0;
    if k0 < end && k0 + 1 < end {
        match ident_at(t, k0) {
            Some(first) => {
                if word_is(&first, "mut") && ident_at(t, k0 + 1).is_some() {
                    k = k0 + 1;
                }
            },
            None => {},
        }
    }
    let name = if k < end {
        ident_at(t, k)
    } else {
        None
    };
    let name = match name {
        Some(nm) => nm,
        None => return Err(ParseError { kind: ParseErrorKind::ExpectedName, token: k }),
    };
    if !(k + 1 < end && punct_at(t, k + 1, ':')) {
        return Err(ParseError { kind: ParseErrorKind::ExpectedColon, token: k + 1 });
    }
    if k + 2 >= end {
        return Err(ParseError { kind: ParseErrorKind::ExpectedType, token: k + 2 });
    }
    let start = k + 2;
    let mut ty = String::new();
    let mut m: usize = start;
    while m < end
        invariant
            tv == token_views(t@),
            tv.len() == t@.len(),
            end <= t@.len(),
            start <= m <= end,
            ty@ == joined_text(tv, start as int, m as int),
        decreases end - m,
    {
        assert(tv[m as int] == t@[m as int]@);
        if m > start {
            let both = match (&t[m - 1], &t[m]) {
                (Token::Ident(_), Token::Ident(_)) => true,
                _ => false,
            };
            assert(tv[m - 1] == t@[m - 1]@);
            if both {
                ty.append(" ");
            }
        }
        let piece = token_text_exec(&t[m]);
        ty.append(piece.as_str());
        assert(ty@ =~= joined_text(tv, start as int, m + 1)) by {
            reveal_strlit(" ");
        }
        m = m + 1;
    }
    Ok(RawParam { name, ty, special, no_schema })
}

/// Reads one parameter declaration: markers, then `name: Type`.
pub fn parse_param(text: &str) -> (r: Result<RawParam, ParseError>)
    ensures
        match r {
            Ok(p) => param_of_text(text@) == Ok::<ParamView, ParseError>(param_view(p)),
            Err(e) => param_of_text(text@) == Err::<ParamView, ParseError>(e),
        },
{
    let t = match tokenize(text) {
        Some(t) => t,
        None => return Err(ParseError { kind: ParseErrorKind::UnterminatedString, token: 0 }),
    };
    let n = t.len();
    param_tokens(&t, 0, n)
}

fn top_comma_exec(t: &Vec<Token>, k: usize) -> (r: usize)
    requires
        k <= t@.len(),
    ensures
        r as int == top_comma(token_views(t@), k as int, t@.len() as int, 0),
        k <= r <= t@.len(),
{
    let ghost tv = token_views(t@);
    let n = t.len();
    let mut depth: i128 = 0;
    let mut m: usize = k;
    proof {
        lemma_top_comma(tv, k as int, n as int, 0);
    }
    while m < n
        invariant
            tv == token_views(t@),
            n == t@.len(),
            k <= m <= n,
            -(m as int) <= depth <= m as int,
            top_comma(tv, m as int, n as int, depth as int) == top_comma(tv, k as int, n as int, 0),
        decreases n - m,
    {
        if punct_at(t, m, ',') && depth == 0 {
            proof {
                lemma_top_comma(tv, k as int, n as int, 0);
            }
            return m;
        }
        if punct_at(t, m, '<') {
            depth = depth + 1;
        } else if punct_at(t, m, '>') {
            depth = depth - 1;
        }
        m = m + 1;
    }
    proof {
        lemma_top_comma(tv, k as int, n as int, 0);
    }
    n
}

/// Reads a parameter list: `&self`, then the parameters, each one
/// `[markers] [mut] name: Type`, separated by commas outside angle brackets.
pub fn parse_params(text: &str) -> (r: Result<Vec<RawParam>, ParseError>)
    ensures
        match r {
            Ok(ps) => params_of_text(text@) == Ok::<Seq<ParamView>, ParseError>(
                ps@.map_values(|p: RawParam| param_view(p)),
            ),
            Err(e) => params_of_text(text@) == Err::<Seq<ParamView>, ParseError>(e),
        },
{
    let t = match tokenize(text) {
        Some(t) => t,
        None => return Err(ParseError { kind: ParseErrorKind::UnterminatedString, token: 0 }),
    };
    let ghost tv = token_views(t@);
    let n = t.len();
    proof {
        reveal_strlit("self");
    }
    let receiver = match ident_at(&t, 1) {
        Some(s) => punct_at(&t, 0, '&') && word_is(&s, "self"),
        None => false,
    };
    if !receiver {
        return Err(ParseError { kind: ParseErrorKind::ExpectedReceiver, token: 0 });
    }
    let mut out: Vec<RawParam> = Vec::new();
    if n == 2 {
        assert(out@.map_values(|p: RawParam| param_view(p)) =~= Seq::<ParamView>::empty());
        return Ok(out);
    }
    if !punct_at(&t, 2, ',') {
        return Err(ParseError { kind: ParseErrorKind::ExpectedComma, token: 2 });
    }
    let mut k: usize = 3;
    assert(out@.map_values(|p: RawParam| param_view(p)) =~= Seq::<ParamView>::empty());
    loop
        invariant
            tv == token_views(t@),
            tv.len() == t@.len(),
            n == t@.len(),
            k <= n,
            params_of_text(text@) == params_from(tv, k as int, out@.map_values(|p: RawParam| param_view(p))),
        decreases n - k,
    {
        if k >= n {
            return Ok(out);
        }
        let c = top_comma_exec(&t, k);
        let p = match param_tokens(&t, k, c) {
            Ok(p) => p,
            Err(e) => return Err(e),
        };
        let ghost before = out@.map_values(|q: RawParam| param_view(q));
        let ghost pv = param_view(p);
        out.push(p);
        assert(out@.map_values(|q: RawParam| param_view(q)) =~= before.push(pv));
        if c >= n {
            return Ok(out);
        }
        k = c + 1;
    }
}

/// Service-wide arguments: the path prefix, the documentation tag, and
/// whether client procedures are wanted at all.
pub struct ServiceArgs {
    pub prefix: String,
    pub tag: Option<String>,
    pub no_sdk: bool,
}

pub struct ServiceArgsView {
    pub prefix: Seq<char>,
    pub tag: Option<Seq<char>>,
    pub no_sdk: bool,
}

impl View for ServiceArgs {
    type V = ServiceArgsView;

    open spec fn view(&self) -> ServiceArgsView {
        ServiceArgsView {
            prefix: self.prefix@,
            tag: crate::arguments::opt_view(self.tag),
            no_sdk: self.no_sdk,
        }
    }
}

/// The service options from token `k`: `no_sdk`, `path = "..."`,
/// `tag = "..."`, separated by commas; a later one overrides an earlier one.
pub open spec fn service_options(t: Seq<TokenView>, k: int, acc: ServiceArgsView) -> Result<ServiceArgsView, ParseError>
    decreases t.len() - k,
{
    if k < 0 || k >= t.len() {
        Ok(acc)
    } else if let TokenView::Ident(name) = t[k] {
        let step: Result<(int, ServiceArgsView), ParseError> = if name == "no_sdk"@ {
            Ok((k + 1, ServiceArgsView { no_sdk: true, ..acc }))
        } else if !(k + 1 < t.len() && t[k + 1] == punct('=')) {
            fail(ParseErrorKind::ExpectedEquals, k + 1)
        } else if name != "path"@ && name != "tag"@ {
            fail(ParseErrorKind::UnknownOption, k)
        } else if !(k + 2 < t.len() && t[k + 2] is Str) {
            fail(ParseErrorKind::ExpectedString, k + 2)
        } else if name == "path"@ {
            Ok((k + 3, ServiceArgsView { prefix: t[k + 2]->Str_0, ..acc }))
        } else {
            Ok((k + 3, ServiceArgsView { tag: Some(t[k + 2]->Str_0), ..acc }))
        };
        match step {
            Err(e) => Err(e),
            Ok((next, after)) => if next >= t.len() {
                Ok(after)
            } else if t[next] == punct(',') && next > k {
                service_options(t, next + 1, after)
            } else {
                fail(ParseErrorKind::ExpectedComma, next)
            },
        }
    } else {
        fail(ParseErrorKind::ExpectedOption, k)
    }
}

pub open spec fn service_of_text(text: Seq<char>) -> Result<ServiceArgsView, ParseError> {
    match lex(text) {
        None => fail(ParseErrorKind::UnterminatedString, 0),
        Some(t) => service_options(t, 0, ServiceArgsView { prefix: seq![], tag: None, no_sdk: false }),
    }
}

/// Reads the service-wide arguments from text.
pub fn parse_service(text: &str) -> (r: Result<ServiceArgs, ParseError>)
    ensures
        match r {
            Ok(a) => service_of_text(text@) == Ok::<ServiceArgsView, ParseError>(a@),
            Err(e) => service_of_text(text@) == Err::<ServiceArgsView, ParseError>(e),
        },
{
    let t = match tokenize(text) {
        Some(t) => t,
        None => return Err(ParseError { kind: ParseErrorKind::UnterminatedString, token: 0 }),
    };
    let ghost tv = token_views(t@);
    let n = t.len();
    let mut acc = ServiceArgs { prefix: String::new(), tag: None, no_sdk: false };
    let mut k: usize = 0;
    proof {
        reveal_strlit("no_sdk");
        reveal_strlit("path");
        reveal_strlit("tag");
    }
    loop
        invariant
            tv == token_views(t@),
            tv.len() == t@.len(),
            n == t@.len(),
            k <= t@.len(),
            service_of_text(text@) == service_options(tv, k as int, acc@),
        decreases t@.len() - k,
    {
        if k >= n {
            return Ok(acc);
        }
        let name = match ident_at(&t, k) {
            Some(nm) => nm,
            None => return Err(ParseError { kind: ParseErrorKind::ExpectedOption, token: k }),
        };
        let next: usize;
        if word_is(&name, "no_sdk") {
            acc.no_sdk = true;
            next = k + 1;
        } else {
            if !punct_at(&t, k + 1, '=') {
                return Err(ParseError { kind: ParseErrorKind::ExpectedEquals, token: k + 1 });
            }
            let is_path = word_is(&name, "path");
            if !is_path && !word_is(&name, "tag") {
                return Err(ParseError { kind: ParseErrorKind::UnknownOption, token: k });
            }
            let value = match str_at(&t, k + 2) {
                Some(v) => v,
                None => return Err(ParseError { kind: ParseErrorKind::ExpectedString, token: k + 2 }),
            };
            if is_path {
                acc.prefix = value;
            } else {
                acc.tag = Some(value);
            }
            next = k + 3;
        }
        if next >= n {
            return Ok(acc);
        }
        if !punct_at(&t, next, ',') {
            return Err(ParseError { kind: ParseErrorKind::ExpectedComma, token: next });
        }
        k = next + 1;
    }
}

impl ServiceArgs {
    /// The settings the model is built with.
    pub fn config(self) -> (r: ServiceConfig)
        ensures
            r.prefix == self.prefix,
            r.tag == self.tag,
    {
        ServiceConfig { prefix: self.prefix, tag: self.tag }
    }
}

} // verus!
