//! The interface document: per operation, its parameters, request body and
//! responses, as a documentation renderer takes them.
use crate::arguments::{clone_opt, opt_view, stream_type, ArgKind, Argument};
use crate::bridge::{converted_case, to_case};
use crate::method::{routed_method, HttpMethod};
use crate::model::{RouteSpec, SuccessType};
use crate::taxonomy::{EntryView, ErrorTaxonomy};
use crate::dispatch::{dedup, push_new};
use crate::model::string_views;
use crate::text::{chars_of, joined};
use vstd::prelude::*;

verus! {

/// A documented parameter: Path, Query or Header.
pub struct ParamDoc {
    pub name: String,
    pub location: ArgKind,
    pub required: bool,
    pub description: Option<String>,
    /// The referenced schema: the parameter's type, unless it has none.
    pub schema: Option<String>,
}

/// The request body: a byte stream, one payload's type, or a record
/// synthesized from several payloads (named `schema`, with `fields`).
pub struct RequestBodyDoc {
    pub stream: bool,
    pub schema: Option<String>,
    pub fields: Vec<String>,
}

/// A response. Its document key is the status with the ordinal among the
/// responses of the same status, so that entries sharing a status stay apart.
pub struct ResponseDoc {
    pub status: u16,
    pub ordinal: usize,
    pub description: String,
    pub schema: Option<String>,
    /// The error's wire id, for an error response.
    pub error_id: Option<String>,
}

pub struct OperationDoc {
    pub operation_id: String,
    pub method: HttpMethod,
    pub path: String,
    pub tag: Option<String>,
    pub summary: Option<String>,
    pub description: Option<String>,
    pub params: Vec<ParamDoc>,
    pub body: Option<RequestBodyDoc>,
    pub responses: Vec<ResponseDoc>,
}

pub struct ParamDocView {
    pub name: Seq<char>,
    pub location: ArgKind,
    pub required: bool,
    pub description: Option<Seq<char>>,
    pub schema: Option<Seq<char>>,
}

pub struct RequestBodyView {
    pub stream: bool,
    pub schema: Option<Seq<char>>,
    pub fields: Seq<Seq<char>>,
}

pub struct ResponseView {
    pub status: u16,
    pub ordinal: usize,
    pub description: Seq<char>,
    pub schema: Option<Seq<char>>,
    pub error_id: Option<Seq<char>>,
}

pub struct OperationDocView {
    pub operation_id: Seq<char>,
    pub method: HttpMethod,
    pub path: Seq<char>,
    pub tag: Option<Seq<char>>,
    pub summary: Option<Seq<char>>,
    pub description: Option<Seq<char>>,
    pub params: Seq<ParamDocView>,
    pub body: Option<RequestBodyView>,
    pub responses: Seq<ResponseView>,
}

impl View for ParamDoc {
    type V = ParamDocView;

    open spec fn view(&self) -> ParamDocView {
        ParamDocView {
            name: self.name@,
            location: self.location,
            required: self.required,
            description: opt_view(self.description),
            schema: opt_view(self.schema),
        }
    }
}

impl View for RequestBodyDoc {
    type V = RequestBodyView;

    open spec fn view(&self) -> RequestBodyView {
        RequestBodyView {
            stream: self.stream,
            schema: opt_view(self.schema),
            fields: self.fields@.map_values(|s: String| s@),
        }
    }
}

impl View for ResponseDoc {
    type V = ResponseView;

    open spec fn view(&self) -> ResponseView {
        ResponseView {
            status: self.status,
            ordinal: self.ordinal,
            description: self.description@,
            schema: opt_view(self.schema),
            error_id: opt_view(self.error_id),
        }
    }
}

impl View for OperationDoc {
    type V = OperationDocView;

    open spec fn view(&self) -> OperationDocView {
        OperationDocView {
            operation_id: self.operation_id@,
            method: self.method,
            path: self.path@,
            tag: opt_view(self.tag),
            summary: opt_view(self.summary),
            description: opt_view(self.description),
            params: self.params@.map_values(|p: ParamDoc| p@),
            body: match self.body {
                Some(b) => Some(b@),
                None => None,
            },
            responses: self.responses@.map_values(|r: ResponseDoc| r@),
        }
    }
}

/// The document entry of an argument, if it is a Path, Query or Header one.
pub open spec fn param_doc(a: Argument) -> ParamDocView {
    ParamDocView {
        name: a.name@,
        location: a.kind,
        required: a.kind == ArgKind::Path || a.required,
        description: opt_view(a.description),
        schema: if a.kind != ArgKind::Header && !a.no_schema {
            Some(a.ty@)
        } else {
            None
        },
    }
}

pub open spec fn is_parameter(a: Argument) -> bool {
    a.kind == ArgKind::Path || a.kind == ArgKind::Query || a.kind == ArgKind::Header
}

/// The parameters documented among the first `n` arguments.
pub open spec fn param_docs(args: Seq<Argument>, n: int) -> Seq<ParamDocView>
    decreases n,
{
    if n <= 0 {
        seq![]
    } else if is_parameter(args[n - 1]) {
        param_docs(args, n - 1).push(param_doc(args[n - 1]))
    } else {
        param_docs(args, n - 1)
    }
}

/// The Payload arguments among the first `n`.
pub open spec fn payloads(args: Seq<Argument>, n: int) -> Seq<Argument>
    decreases n,
{
    if n <= 0 {
        seq![]
    } else if args[n - 1].kind == ArgKind::Payload {
        payloads(args, n - 1).push(args[n - 1])
    } else {
        payloads(args, n - 1)
    }
}

pub open spec fn record_name(operation_id: Seq<char>) -> Seq<char> {
    converted_case(operation_id, true) + "Payload"@
}

/// The request body: none without payload; the single payload's type (or a
/// byte stream); else a record of all payloads.
pub open spec fn body_of(route: RouteSpec) -> Option<RequestBodyView> {
    let p = payloads(route.arguments@, route.arguments@.len() as int);
    if p.len() == 0 {
        None
    } else if p.len() == 1 {
        if p[0].ty@ == stream_type() {
            Some(RequestBodyView { stream: true, schema: None, fields: seq![] })
        } else {
            Some(RequestBodyView { stream: false, schema: Some(p[0].ty@), fields: seq![] })
        }
    } else {
        Some(
            RequestBodyView {
                stream: false,
                schema: Some(record_name(route.operation_id@)),
                fields: p.map_values(|a: Argument| a.name@),
            },
        )
    }
}

pub open spec fn is_blank(s: Seq<char>) -> bool {
    forall|k: int| 0 <= k < s.len() ==> s[k] == ' ' || s[k] == '\t' || s[k] == '\n' || s[k] == '\r'
}

/// The documentation lines after the first, up to line `n`, blank ones
/// removed.
pub open spec fn kept_lines(doc: Seq<String>, n: int) -> Seq<Seq<char>>
    decreases n,
{
    if n <= 1 {
        seq![]
    } else if is_blank(doc[n - 1]@) {
        kept_lines(doc, n - 1)
    } else {
        kept_lines(doc, n - 1).push(doc[n - 1]@)
    }
}

pub open spec fn line_break() -> Seq<char> {
    "<br/>\n"@
}

pub open spec fn joined_lines(lines: Seq<Seq<char>>) -> Seq<char>
    decreases lines.len(),
{
    if lines.len() == 0 {
        seq![]
    } else if lines.len() == 1 {
        lines[0]
    } else {
        joined_lines(lines.drop_last()) + line_break() + lines.last()
    }
}

pub open spec fn summary_of(doc: Seq<String>) -> Option<Seq<char>> {
    if doc.len() == 0 {
        None
    } else {
        Some(doc[0]@)
    }
}

pub open spec fn description_of(doc: Seq<String>) -> Option<Seq<char>> {
    let kept = kept_lines(doc, doc.len() as int);
    if kept.len() == 0 {
        None
    } else {
        Some(joined_lines(kept))
    }
}

pub open spec fn success_description() -> Seq<char> {
    "Success"@
}

/// The success response: 204 with no content, or 200 with the value's type.
pub open spec fn success_response(s: SuccessType) -> ResponseView {
    match s {
        SuccessType::Unit => ResponseView {
            status: 204,
            ordinal: 0,
            description: success_description(),
            schema: None,
            error_id: None,
        },
        SuccessType::Value(t) => ResponseView {
            status: 200,
            ordinal: 0,
            description: success_description(),
            schema: Some(t@),
            error_id: None,
        },
    }
}

/// How many responses of `rs` have status `status`.
pub open spec fn count_status(rs: Seq<ResponseView>, status: u16) -> nat
    decreases rs.len(),
{
    if rs.len() == 0 {
        0
    } else {
        count_status(rs.drop_last(), status) + if rs.last().status == status {
            1nat
        } else {
            0nat
        }
    }
}

pub open spec fn error_response(e: EntryView, ordinal: nat) -> ResponseView {
    ResponseView {
        status: e.status,
        ordinal: ordinal as usize,
        description: e.message,
        schema: None,
        error_id: Some(e.key),
    }
}

/// The success response, then one response per taxonomy entry from 1 up
/// to (not including) `n`.
pub open spec fn responses_upto(s: SuccessType, entries: Seq<EntryView>, n: int) -> Seq<ResponseView>
    decreases n,
{
    if n <= 1 {
        seq![success_response(s)]
    } else {
        let rs = responses_upto(s, entries, n - 1);
        rs.push(error_response(entries[n - 1], count_status(rs, entries[n - 1].status)))
    }
}

pub open spec fn document_of(tag: Option<Seq<char>>, route: RouteSpec) -> OperationDocView {
    OperationDocView {
        operation_id: route.operation_id@,
        method: routed_method(route.method),
        path: route.path@,
        tag,
        summary: summary_of(route.doc@),
        description: description_of(route.doc@),
        params: param_docs(route.arguments@, route.arguments@.len() as int),
        body: body_of(route),
        responses: responses_upto(route.success, route.taxonomy.views(), route.taxonomy.entries@.len() as int),
    }
}

pub open spec fn param_views(v: Seq<ParamDoc>) -> Seq<ParamDocView> {
    v.map_values(|p: ParamDoc| p@)
}

pub open spec fn response_views(v: Seq<ResponseDoc>) -> Seq<ResponseView> {
    v.map_values(|r: ResponseDoc| r@)
}

/// The documented parameters of an argument list, in order.
pub fn param_docs_exec(args: &Vec<Argument>) -> (r: Vec<ParamDoc>)
    ensures
        param_views(r@) == param_docs(args@, args@.len() as int),
{
    let mut out: Vec<ParamDoc> = Vec::new();
    let mut i: usize = 0;
    while i < args.len()
        invariant
            i <= args@.len(),
            param_views(out@) == param_docs(args@, i as int),
        decreases args.len() - i,
    {
        let a = &args[i];
        if a.kind == ArgKind::Path || a.kind == ArgKind::Query || a.kind == ArgKind::Header {
            let schema = if a.kind != ArgKind::Header && !a.no_schema {
                Some(a.ty.clone())
            } else {
                None
            };
            out.push(
                ParamDoc {
                    name: a.name.clone(),
                    location: a.kind,
                    required: a.kind == ArgKind::Path || a.required,
                    description: clone_opt(&a.description),
                    schema,
                },
            );
            assert(param_views(out@) =~= param_docs(args@, i as int).push(param_doc(args@[i as int])));
        }
        i = i + 1;
    }
    out
}

/// The indices of the Payload arguments, in order.
fn payload_indices(args: &Vec<Argument>) -> (r: Vec<usize>)
    ensures
        r@.len() == payloads(args@, args@.len() as int).len(),
        forall|k: int| 0 <= k < r@.len() ==> #[trigger] r@[k] < args@.len(),
        forall|k: int|
            0 <= k < r@.len() ==> #[trigger] payloads(args@, args@.len() as int)[k] == args@[r@[k] as int],
{
    let mut out: Vec<usize> = Vec::new();
    let mut i: usize = 0;
    while i < args.len()
        invariant
            i <= args@.len(),
            out@.len() == payloads(args@, i as int).len(),
            forall|k: int| 0 <= k < out@.len() ==> #[trigger] out@[k] < i,
            forall|k: int|
                0 <= k < out@.len() ==> #[trigger] payloads(args@, i as int)[k] == args@[out@[k] as int],
        decreases args.len() - i,
    {
        let ghost before = out@;
        if args[i].kind == ArgKind::Payload {
            out.push(i);
        }
        proof {
            assert(payloads(args@, i + 1) == if args@[i as int].kind == ArgKind::Payload {
                payloads(args@, i as int).push(args@[i as int])
            } else {
                payloads(args@, i as int)
            });
            assert forall|k: int|
                0 <= k < out@.len() implies #[trigger] payloads(args@, i + 1)[k]
                    == args@[out@[k] as int] by {
                if k < before.len() {
                    assert(out@[k] == before[k]);
                    assert(payloads(args@, i as int)[k] == args@[before[k] as int]);
                }
            }
        }
        i = i + 1;
    }
    out
}

/// The request body of a route.
pub fn body_exec(route: &RouteSpec) -> (r: Option<RequestBodyDoc>)
    ensures
        match r {
            Some(b) => body_of(*route) == Some(b@),
            None => body_of(*route) is None,
        },
{
    let args = &route.arguments;
    let idx = payload_indices(args);
    let ghost p = payloads(args@, args@.len() as int);
    if idx.len() == 0 {
        return None;
    }
    if idx.len() == 1 {
        let a = &args[idx[0]];
        assert(payloads(args@, args@.len() as int)[0] == args@[idx@[0] as int]);
        assert(p[0] == a);
        if a.ty == String::from_str("DataStream") {
            let b = RequestBodyDoc { stream: true, schema: None, fields: Vec::new() };
            assert(b@.fields =~= Seq::<Seq<char>>::empty());
            return Some(b);
        }
        let b = RequestBodyDoc { stream: false, schema: Some(a.ty.clone()), fields: Vec::new() };
        assert(b@.fields =~= Seq::<Seq<char>>::empty());
        return Some(b);
    }
    let mut fields: Vec<String> = Vec::new();
    let mut k: usize = 0;
    assert forall|m: int| 0 <= m < idx@.len() implies #[trigger] p[m] == args@[idx@[m] as int] by {
        assert(payloads(args@, args@.len() as int)[m] == args@[idx@[m] as int]);
    }
    while k < idx.len()
        invariant
            k <= idx@.len(),
            fields@.len() == k,
            idx@.len() == p.len(),
            p == payloads(args@, args@.len() as int),
            *args == route.arguments,
            forall|m: int| 0 <= m < idx@.len() ==> #[trigger] idx@[m] < args@.len(),
            forall|m: int| 0 <= m < idx@.len() ==> #[trigger] p[m] == args@[idx@[m] as int],
            fields@.map_values(|s: String| s@) == p.map_values(|a: Argument| a.name@).subrange(0, k as int),
        decreases idx.len() - k,
    {
        assert(p[k as int] == args@[idx@[k as int] as int]);
        fields.push(args[idx[k]].name.clone());
        assert(fields@.map_values(|s: String| s@) =~= p.map_values(|a: Argument| a.name@).subrange(0, k + 1));
        k = k + 1;
    }
    assert(p.map_values(|a: Argument| a.name@).subrange(0, p.len() as int) =~= p.map_values(|a: Argument| a.name@));
    let name = joined(to_case(route.operation_id.as_str(), true).as_str(), "Payload");
    Some(RequestBodyDoc { stream: false, schema: Some(name), fields })
}

fn is_blank_exec(s: &String) -> (r: bool)
    ensures
        r == is_blank(s@),
{
    let c = chars_of(s.as_str());
    let mut k: usize = 0;
    while k < c.len()
        invariant
            c@ == s@,
            k <= c@.len(),
            forall|m: int| 0 <= m < k ==> c@[m] == ' ' || c@[m] == '\t' || c@[m] == '\n' || c@[m] == '\r',
        decreases c.len() - k,
    {
        let x = c[k];
        if !(x == ' ' || x == '\t' || x == '\n' || x == '\r') {
            return false;
        }
        k = k + 1;
    }
    true
}

/// The description: the lines after the first, blank ones removed, joined
/// by line breaks; none when no line is left.
pub fn description_exec(doc: &Vec<String>) -> (r: Option<String>)
    ensures
        opt_view(r) == description_of(doc@),
{
    if doc.len() == 0 {
        return None;
    }
    let mut text = String::new();
    let mut count: usize = 0;
    let mut i: usize = 1;
    proof {
        reveal_strlit("<br/>\n");
    }
    while i < doc.len()
        invariant
            1 <= i <= doc@.len(),
            count as int == kept_lines(doc@, i as int).len(),
            count <= i,
            count > 0 ==> text@ == joined_lines(kept_lines(doc@, i as int)),
        decreases doc.len() - i,
    {
        if !is_blank_exec(&doc[i]) {
            let ghost kept = kept_lines(doc@, i as int);
            assert(kept_lines(doc@, i + 1) == kept.push(doc@[i as int]@));
            assert(kept.push(doc@[i as int]@).drop_last() =~= kept);
            if count == 0 {
                text = doc[i].clone();
            } else {
                text.append("<br/>\n");
                text.append(doc[i].as_str());
            }
            count = count + 1;
        }
        i = i + 1;
    }
    if count == 0 {
        None
    } else {
        assert(i == doc@.len());
        Some(text)
    }
}

fn count_status_exec(rs: &Vec<ResponseDoc>, status: u16) -> (r: usize)
    ensures
        r as int == count_status(response_views(rs@), status),
{
    let mut n: usize = 0;
    let mut k: usize = 0;
    while k < rs.len()
        invariant
            k <= rs@.len(),
            n <= k,
            n as int == count_status(response_views(rs@).subrange(0, k as int), status),
        decreases rs.len() - k,
    {
        assert(response_views(rs@).subrange(0, k + 1).drop_last() =~= response_views(rs@).subrange(0, k as int));
        if rs[k].status == status {
            n = n + 1;
        }
        k = k + 1;
    }
    assert(response_views(rs@).subrange(0, rs@.len() as int) =~= response_views(rs@));
    n
}

/// The responses of an operation: success first, then one per error entry
/// (the communication entry excluded), numbered within each status.
pub fn responses_exec(success: &SuccessType, taxonomy: &ErrorTaxonomy) -> (r: Vec<ResponseDoc>)
    ensures
        response_views(r@) == responses_upto(*success, taxonomy.views(), taxonomy.entries@.len() as int),
{
    let mut out: Vec<ResponseDoc> = Vec::new();
    let first = match success {
        SuccessType::Unit => ResponseDoc {
            status: 204,
            ordinal: 0,
            description: String::from_str("Success"),
            schema: None,
            error_id: None,
        },
        SuccessType::Value(t) => ResponseDoc {
            status: 200,
            ordinal: 0,
            description: String::from_str("Success"),
            schema: Some(t.clone()),
            error_id: None,
        },
    };
    out.push(first);
    assert(response_views(out@) =~= responses_upto(*success, taxonomy.views(), 1));
    let entries = &taxonomy.entries;
    if entries.len() == 0 {
        return out;
    }
    let mut k: usize = 1;
    while k < entries.len()
        invariant
            1 <= k <= entries@.len(),
            *entries == taxonomy.entries,
            response_views(out@) == responses_upto(*success, taxonomy.views(), k as int),
        decreases entries.len() - k,
    {
        let e = &entries[k];
        let ordinal = count_status_exec(&out, e.status);
        out.push(
            ResponseDoc {
                status: e.status,
                ordinal,
                description: e.message.clone(),
                schema: None,
                error_id: Some(e.key.clone()),
            },
        );
        assert(response_views(out@) =~= responses_upto(*success, taxonomy.views(), k + 1));
        k = k + 1;
    }
    out
}

/// The document of one operation.
pub fn emit_document(tag: &Option<String>, route: &RouteSpec) -> (r: OperationDoc)
    ensures
        r@ == document_of(opt_view(*tag), *route),
{
    let summary = if route.doc.len() == 0 {
        None
    } else {
        Some(route.doc[0].clone())
    };
    OperationDoc {
        operation_id: route.operation_id.clone(),
        method: route.method.routed(),
        path: route.path.clone(),
        tag: clone_opt(tag),
        summary,
        description: description_exec(&route.doc),
        params: param_docs_exec(&route.arguments),
        body: body_exec(route),
        responses: responses_exec(&route.success, &route.taxonomy),
    }
}

/// The documents of every operation, in route order.
pub fn emit_documents(tag: &Option<String>, routes: &Vec<RouteSpec>) -> (r: Vec<OperationDoc>)
    ensures
        r@.map_values(|d: OperationDoc| d@) == routes@.map_values(
            |route: RouteSpec| document_of(opt_view(*tag), route),
        ),
{
    let mut out: Vec<OperationDoc> = Vec::new();
    let mut i: usize = 0;
    while i < routes.len()
        invariant
            i <= routes@.len(),
            out@.len() == i,
            out@.map_values(|d: OperationDoc| d@) == routes@.map_values(
                |route: RouteSpec| document_of(opt_view(*tag), route),
            ).subrange(0, i as int),
        decreases routes.len() - i,
    {
        out.push(emit_document(tag, &routes[i]));
        assert(out@.map_values(|d: OperationDoc| d@) =~= routes@.map_values(
            |route: RouteSpec| document_of(opt_view(*tag), route),
        ).subrange(0, i + 1));
        i = i + 1;
    }
    assert(routes@.map_values(|route: RouteSpec| document_of(opt_view(*tag), route)).subrange(
        0,
        routes@.len() as int,
    ) =~= routes@.map_values(|route: RouteSpec| document_of(opt_view(*tag), route)));
    out
}

pub open spec fn opt_seq(o: Option<Seq<char>>) -> Seq<Seq<char>> {
    match o {
        Some(x) => seq![x],
        None => seq![],
    }
}

pub open spec fn param_schemas(ps: Seq<ParamDocView>, n: int) -> Seq<Seq<char>>
    decreases n,
{
    if n <= 0 {
        seq![]
    } else {
        param_schemas(ps, n - 1) + opt_seq(ps[n - 1].schema)
    }
}

pub open spec fn response_schemas(rs: Seq<ResponseView>, n: int) -> Seq<Seq<char>>
    decreases n,
{
    if n <= 0 {
        seq![]
    } else {
        response_schemas(rs, n - 1) + opt_seq(rs[n - 1].schema)
    }
}

/// The schemas one document refers to: its parameters', its body's, its
/// responses', in that order.
pub open spec fn doc_schemas(d: OperationDocView) -> Seq<Seq<char>> {
    param_schemas(d.params, d.params.len() as int) + match d.body {
        Some(b) => opt_seq(b.schema),
        None => seq![],
    } + response_schemas(d.responses, d.responses.len() as int)
}

pub open spec fn schema_refs(docs: Seq<OperationDocView>, n: int) -> Seq<Seq<char>>
    decreases n,
{
    if n <= 0 {
        seq![]
    } else {
        schema_refs(docs, n - 1) + doc_schemas(docs[n - 1])
    }
}

/// The schema table: every referenced schema name once, in order of first
/// reference.
pub open spec fn schema_table(docs: Seq<OperationDocView>) -> Seq<Seq<char>> {
    dedup(schema_refs(docs, docs.len() as int))
}

fn add_schema(names: &mut Vec<String>, o: &Option<String>, Ghost(prefix): Ghost<Seq<Seq<char>>>)
    requires
        string_views(old(names)@) == dedup(prefix),
    ensures
        string_views(final(names)@) == dedup(prefix + opt_seq(opt_view(*o))),
{
    match o {
        Some(x) => {
            push_new(names, x);
            assert((prefix + opt_seq(opt_view(*o))).drop_last() =~= prefix);
        },
        None => {
            assert(prefix + opt_seq(opt_view(*o)) =~= prefix);
        },
    }
}

/// The schema table of a set of documents.
pub fn schema_names(docs: &Vec<OperationDoc>) -> (r: Vec<String>)
    ensures
        string_views(r@) == schema_table(docs@.map_values(|d: OperationDoc| d@)),
{
    let ghost dv = docs@.map_values(|d: OperationDoc| d@);
    let mut names: Vec<String> = Vec::new();
    assert(string_views(names@) =~= dedup(seq![]));
    let mut i: usize = 0;
    while i < docs.len()
        invariant
            i <= docs@.len(),
            dv == docs@.map_values(|d: OperationDoc| d@),
            string_views(names@) == dedup(schema_refs(dv, i as int)),
        decreases docs.len() - i,
    {
        let d = &docs[i];
        assert(dv[i as int] == d@);
        let ghost base = schema_refs(dv, i as int);
        let mut j: usize = 0;
        while j < d.params.len()
            invariant
                j <= d.params@.len(),
                string_views(names@) == dedup(base + param_schemas(d@.params, j as int)),
            decreases d.params.len() - j,
        {
            assert(d@.params[j as int] == d.params@[j as int]@);
            add_schema(&mut names, &d.params[j].schema, Ghost(base + param_schemas(d@.params, j as int)));
            assert(base + param_schemas(d@.params, j as int) + opt_seq(d@.params[j as int].schema) =~= base
                + param_schemas(d@.params, j + 1));
            j = j + 1;
        }
        let ghost after_params = base + param_schemas(d@.params, d@.params.len() as int);
        let none: Option<String> = None;
        let body_schema = match &d.body {
            Some(b) => &b.schema,
            None => &none,
        };
        add_schema(&mut names, body_schema, Ghost(after_params));
        let ghost after_body = after_params + opt_seq(opt_view(*body_schema));
        let mut k: usize = 0;
        assert(after_body + response_schemas(d@.responses, 0) =~= after_body);
        while k < d.responses.len()
            invariant
                k <= d.responses@.len(),
                string_views(names@) == dedup(after_body + response_schemas(d@.responses, k as int)),
            decreases d.responses.len() - k,
        {
            assert(d@.responses[k as int] == d.responses@[k as int]@);
            add_schema(&mut names, &d.responses[k].schema, Ghost(after_body + response_schemas(d@.responses, k as int)));
            assert(after_body + response_schemas(d@.responses, k as int) + opt_seq(d@.responses[k as int].schema)
                =~= after_body + response_schemas(d@.responses, k + 1));
            k = k + 1;
        }
        proof {
            let body_part = match d@.body {
                Some(b) => opt_seq(b.schema),
                None => seq![],
            };
            assert(opt_seq(opt_view(*body_schema)) == body_part);
            assert(schema_refs(dv, i + 1) =~= after_body + response_schemas(d@.responses, d@.responses.len() as int));
        }
        i = i + 1;
    }
    names
}

} // verus!
