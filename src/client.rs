//! The client side: per operation, how a request is built and how its
//! answer is decoded.
use crate::arguments::{braced, opt_view, stream_type, ArgKind, Argument};
use crate::bridge::{
    envelope_id, envelope_id_of, join_url, json_quoted, json_string, percent_encode, percent_encoded,
    url_joined,
};
use crate::method::{routed_method, HttpMethod};
use crate::model::{string_views, RouteSpec, SuccessType};
use crate::taxonomy::ErrorTaxonomy;
use crate::document::payloads;
use crate::text::{chars_of, join_with, string_of_range};
use crate::validate::brace_free;
use vstd::prelude::*;

verus! {

/// A piece of a path template.
pub enum Segment {
    Literal(String),
    Placeholder(String),
}

pub enum SegmentView {
    Literal(Seq<char>),
    Placeholder(Seq<char>),
}

impl View for Segment {
    type V = SegmentView;

    open spec fn view(&self) -> SegmentView {
        match self {
            Segment::Literal(s) => SegmentView::Literal(s@),
            Segment::Placeholder(s) => SegmentView::Placeholder(s@),
        }
    }
}

pub open spec fn segment_views(v: Seq<Segment>) -> Seq<SegmentView> {
    v.map_values(|s: Segment| s@)
}

/// The text a list of segments stands for.
pub open spec fn template_text(segs: Seq<SegmentView>) -> Seq<char>
    decreases segs.len(),
{
    if segs.len() == 0 {
        seq![]
    } else {
        template_text(segs.drop_last()) + match segs.last() {
            SegmentView::Literal(t) => t,
            SegmentView::Placeholder(n) => braced(n),
        }
    }
}

/// A valid split of `path`: it spells the path, and each placeholder is a
/// brace-free name.
pub open spec fn splits(path: Seq<char>, segs: Seq<SegmentView>) -> bool {
    &&& template_text(segs) == path
    &&& forall|k: int|
        0 <= k < segs.len() ==> (#[trigger] segs[k] matches SegmentView::Placeholder(n) ==> brace_free(n))
}

/// The first brace at or after `j` (the length when there is none).
pub open spec fn next_brace(path: Seq<char>, j: int) -> int
    decreases path.len() - j,
{
    if j < 0 || j >= path.len() {
        path.len() as int
    } else if path[j] == '{' || path[j] == '}' {
        j
    } else {
        next_brace(path, j + 1)
    }
}

pub open spec fn literal_between(path: Seq<char>, start: int, end: int) -> Seq<SegmentView> {
    if start < end {
        seq![SegmentView::Literal(path.subrange(start, end))]
    } else {
        seq![]
    }
}

/// The split of `path` from position `i`, with literal text pending since
/// `start`: a `{` whose next brace is a `}` opens a placeholder.
pub open spec fn split_from(path: Seq<char>, start: int, i: int) -> Seq<SegmentView>
    decreases path.len() - i,
{
    if i < 0 || i >= path.len() {
        literal_between(path, start, path.len() as int)
    } else {
        let j = next_brace(path, i + 1);
        if path[i] == '{' && j < path.len() && path[j] == '}' && j > i {
            literal_between(path, start, i) + seq![SegmentView::Placeholder(path.subrange(i + 1, j))]
                + split_from(path, j + 1, j + 1)
        } else {
            split_from(path, start, i + 1)
        }
    }
}

/// The split of a path template into literal text and placeholders.
pub open spec fn template_split(path: Seq<char>) -> Seq<SegmentView> {
    split_from(path, 0, 0)
}

proof fn lemma_next_brace(path: Seq<char>, j: int)
    requires
        0 <= j,
    ensures
        j <= next_brace(path, j) <= path.len() || (j > path.len() && next_brace(path, j) == path.len()),
        next_brace(path, j) < path.len() ==> (path[next_brace(path, j)] == '{' || path[next_brace(path, j)] == '}'),
        forall|m: int| j <= m < next_brace(path, j) ==> path[m] != '{' && path[m] != '}',
    decreases path.len() - j,
{
    if j < path.len() && !(path[j] == '{' || path[j] == '}') {
        lemma_next_brace(path, j + 1);
    }
}

/// Splits a path template into literal text and `{name}` placeholders.
pub fn split_template(path: &String) -> (r: Vec<Segment>)
    ensures
        splits(path@, segment_views(r@)),
        segment_views(r@) == template_split(path@),
{
    let c = chars_of(path.as_str());
    let len = c.len();
    let mut out: Vec<Segment> = Vec::new();
    let mut start: usize = 0;
    let mut i: usize = 0;
    while i < len
        invariant
            len == c@.len(),
            c@ == path@,
            start <= i <= len,
            template_text(segment_views(out@)) == path@.subrange(0, start as int),
            segment_views(out@) + split_from(path@, start as int, i as int) == template_split(path@),
            forall|k: int|
                0 <= k < out@.len() ==> (#[trigger] segment_views(out@)[k] matches SegmentView::Placeholder(
                    n,
                ) ==> brace_free(n)),
        decreases len - i,
    {
        if c[i] == '{' {
            let mut j: usize = i + 1;
            while j < len && c[j] != '{' && c[j] != '}'
                invariant
                    len == c@.len(),
                    c@ == path@,
                    i < j <= len,
                    forall|m: int| i < m < j ==> c@[m] != '{' && c@[m] != '}',
                    next_brace(path@, j as int) == next_brace(path@, i + 1),
                decreases len - j,
            {
                j = j + 1;
            }
            proof {
                lemma_next_brace(path@, i + 1);
                assert(next_brace(path@, j as int) == j);
            }
            if j < len && c[j] == '}' {
                let ghost before = segment_views(out@);
                if start < i {
                    out.push(Segment::Literal(string_of_range(path.as_str(), start, i)));
                    proof {
                        let now = segment_views(out@);
                        assert(now.drop_last() =~= before);
                        assert(path@.subrange(0, start as int) + path@.subrange(start as int, i as int)
                            =~= path@.subrange(0, i as int));
                    }
                }
                assert(template_text(segment_views(out@)) == path@.subrange(0, i as int));
                let ghost mid = segment_views(out@);
                let name = string_of_range(path.as_str(), i + 1, j);
                assert(brace_free(name@));
                out.push(Segment::Placeholder(name));
                proof {
                    let now = segment_views(out@);
                    assert(now[now.len() - 1] == SegmentView::Placeholder(name@));
                    assert(now.drop_last() =~= mid);
                    assert(path@.subrange(0, i as int) + braced(name@) =~= path@.subrange(0, j + 1));
                    assert forall|k: int|
                        0 <= k < now.len() implies (#[trigger] now[k] matches SegmentView::Placeholder(n)
                            ==> brace_free(n)) by {
                        if k < before.len() {
                            assert(now[k] == before[k]);
                        } else if k < mid.len() {
                            assert(now[k] == mid[k]);
                            assert(mid[k] is Literal);
                        }
                    }
                }
                proof {
                    let lit = literal_between(path@, start as int, i as int);
                    assert(segment_views(out@) =~= before + lit + seq![SegmentView::Placeholder(name@)]);
                    assert(split_from(path@, start as int, i as int) == lit + seq![SegmentView::Placeholder(name@)]
                        + split_from(path@, j + 1, j + 1));
                    assert(segment_views(out@) + split_from(path@, j + 1, j + 1) =~= before + split_from(
                        path@,
                        start as int,
                        i as int,
                    ));
                }
                start = j + 1;
                i = j + 1;
            } else {
                i = i + 1;
            }
        } else {
            i = i + 1;
        }
    }
    if start < len {
        let ghost before = segment_views(out@);
        out.push(Segment::Literal(string_of_range(path.as_str(), start, len)));
        proof {
            let now = segment_views(out@);
            assert(now =~= before + split_from(path@, start as int, len as int));
            assert(now.drop_last() =~= before);
            assert(path@.subrange(0, start as int) + path@.subrange(start as int, len as int) =~= path@);
            assert forall|k: int|
                0 <= k < now.len() implies (#[trigger] now[k] matches SegmentView::Placeholder(n) ==> brace_free(n)) by {
                if k < before.len() {
                    assert(now[k] == before[k]);
                }
            }
        }
    } else {
        assert(path@.subrange(0, len as int) =~= path@);
        assert(segment_views(out@) + split_from(path@, start as int, len as int) =~= segment_views(out@));
    }
    out
}

/// How the request body is made: none, one JSON payload, a JSON record of
/// several payloads (their names), or a byte stream.
pub enum BodyPlan {
    Empty,
    Json(String),
    Record(Vec<String>),
    Stream(String),
}

pub enum BodyPlanView {
    Empty,
    Json(Seq<char>),
    Record(Seq<Seq<char>>),
    Stream(Seq<char>),
}

impl View for BodyPlan {
    type V = BodyPlanView;

    open spec fn view(&self) -> BodyPlanView {
        match self {
            BodyPlan::Empty => BodyPlanView::Empty,
            BodyPlan::Json(n) => BodyPlanView::Json(n@),
            BodyPlan::Record(ns) => BodyPlanView::Record(string_views(ns@)),
            BodyPlan::Stream(n) => BodyPlanView::Stream(n@),
        }
    }
}

/// A header argument the request carries; an optional one only when given.
pub struct HeaderPlan {
    pub name: String,
    pub required: bool,
}

/// The client procedure of one operation.
pub struct ClientPlan {
    pub operation_id: String,
    pub method: HttpMethod,
    pub segments: Vec<Segment>,
    pub path_params: Vec<String>,
    pub query_params: Vec<String>,
    pub headers: Vec<HeaderPlan>,
    pub body: BodyPlan,
    /// The request asks for JSON and the answer is decoded (not raw).
    pub accepts_json: bool,
    /// Success carries no value.
    pub expects_unit: bool,
    /// False for a websocket operation: its client side is not built.
    pub implemented: bool,
}

pub struct ClientPlanView {
    pub operation_id: Seq<char>,
    pub method: HttpMethod,
    pub segments: Seq<SegmentView>,
    pub path_params: Seq<Seq<char>>,
    pub query_params: Seq<Seq<char>>,
    pub headers: Seq<(Seq<char>, bool)>,
    pub body: BodyPlanView,
    pub accepts_json: bool,
    pub expects_unit: bool,
    pub implemented: bool,
}

impl View for ClientPlan {
    type V = ClientPlanView;

    open spec fn view(&self) -> ClientPlanView {
        ClientPlanView {
            operation_id: self.operation_id@,
            method: self.method,
            segments: segment_views(self.segments@),
            path_params: string_views(self.path_params@),
            query_params: string_views(self.query_params@),
            headers: self.headers@.map_values(|h: HeaderPlan| (h.name@, h.required)),
            body: self.body@,
            accepts_json: self.accepts_json,
            expects_unit: self.expects_unit,
            implemented: self.implemented,
        }
    }
}

/// The names of the arguments of `kind` among the first `n`.
pub open spec fn names_of_kind(args: Seq<Argument>, kind: ArgKind, n: int) -> Seq<Seq<char>>
    decreases n,
{
    if n <= 0 {
        seq![]
    } else if args[n - 1].kind == kind {
        names_of_kind(args, kind, n - 1).push(args[n - 1].name@)
    } else {
        names_of_kind(args, kind, n - 1)
    }
}

pub open spec fn header_plans(args: Seq<Argument>, n: int) -> Seq<(Seq<char>, bool)>
    decreases n,
{
    if n <= 0 {
        seq![]
    } else if args[n - 1].kind == ArgKind::Header {
        header_plans(args, n - 1).push((args[n - 1].name@, args[n - 1].required))
    } else {
        header_plans(args, n - 1)
    }
}

pub open spec fn body_plan_of(args: Seq<Argument>) -> BodyPlanView {
    let p = payloads(args, args.len() as int);
    if p.len() == 0 {
        BodyPlanView::Empty
    } else if p.len() == 1 {
        if p[0].ty@ == stream_type() {
            BodyPlanView::Stream(p[0].name@)
        } else {
            BodyPlanView::Json(p[0].name@)
        }
    } else {
        BodyPlanView::Record(p.map_values(|a: Argument| a.name@))
    }
}

/// `plan` is the client procedure of `route`.
pub open spec fn plans(route: RouteSpec, plan: ClientPlanView) -> bool {
    let args = route.arguments@;
    let n = args.len() as int;
    &&& plan.operation_id == route.operation_id@
    &&& plan.method == routed_method(route.method)
    &&& splits(route.path@, plan.segments)
    &&& plan.segments == template_split(route.path@)
    &&& plan.path_params == names_of_kind(args, ArgKind::Path, n)
    &&& plan.query_params == names_of_kind(args, ArgKind::Query, n)
    &&& plan.headers == header_plans(args, n)
    &&& plan.body == body_plan_of(args)
    &&& plan.accepts_json == !route.raw
    &&& plan.expects_unit == (route.success is Unit)
    &&& plan.implemented == (route.method != HttpMethod::Ws)
}

/// The names of the arguments of one kind, in order.
pub fn names_of_kind_exec(args: &Vec<Argument>, kind: ArgKind) -> (r: Vec<String>)
    ensures
        string_views(r@) == names_of_kind(args@, kind, args@.len() as int),
{
    let mut out: Vec<String> = Vec::new();
    let mut i: usize = 0;
    while i < args.len()
        invariant
            i <= args@.len(),
            string_views(out@) == names_of_kind(args@, kind, i as int),
        decreases args.len() - i,
    {
        if args[i].kind == kind {
            out.push(args[i].name.clone());
            assert(string_views(out@) =~= names_of_kind(args@, kind, i as int).push(args@[i as int].name@));
        }
        i = i + 1;
    }
    out
}

fn header_plans_exec(args: &Vec<Argument>) -> (r: Vec<HeaderPlan>)
    ensures
        r@.map_values(|h: HeaderPlan| (h.name@, h.required)) == header_plans(args@, args@.len() as int),
{
    let mut out: Vec<HeaderPlan> = Vec::new();
    let mut i: usize = 0;
    while i < args.len()
        invariant
            i <= args@.len(),
            out@.map_values(|h: HeaderPlan| (h.name@, h.required)) == header_plans(args@, i as int),
        decreases args.len() - i,
    {
        if args[i].kind == ArgKind::Header {
            out.push(HeaderPlan { name: args[i].name.clone(), required: args[i].required });
            assert(out@.map_values(|h: HeaderPlan| (h.name@, h.required)) =~= header_plans(args@, i as int).push(
                (args@[i as int].name@, args@[i as int].required),
            ));
        }
        i = i + 1;
    }
    out
}

fn body_plan_exec(args: &Vec<Argument>) -> (r: BodyPlan)
    ensures
        r@ == body_plan_of(args@),
{
    let names = names_of_kind_exec(args, ArgKind::Payload);
    let ghost p = payloads(args@, args@.len() as int);
    proof {
        lemma_payload_names(args@, args@.len() as int);
        assert(string_views(names@).len() == names@.len());
        assert(p.map_values(|a: Argument| a.name@).len() == p.len());
    }
    if names.len() == 0 {
        return BodyPlan::Empty;
    }
    if names.len() == 1 {
        let mut i: usize = 0;
        while i < args.len()
            invariant
                i <= args@.len(),
                p == payloads(args@, args@.len() as int),
                p.len() == 1,
                names_of_kind(args@, ArgKind::Payload, i as int).len() == 0,
            decreases args.len() - i,
        {
            if args[i].kind == ArgKind::Payload {
                proof {
                    lemma_payload_names(args@, i + 1);
                    lemma_payload_names(args@, i as int);
                    lemma_payloads_prefix(args@, i + 1, args@.len() as int);
                    assert(payloads(args@, i as int).map_values(|a: Argument| a.name@).len() == payloads(args@, i as int).len());
                    assert(payloads(args@, i + 1)[0] == args@[i as int]);
                    assert(p[0] == args@[i as int]);
                }
                let name = args[i].name.clone();
                if args[i].ty == String::from_str("DataStream") {
                    return BodyPlan::Stream(name);
                }
                return BodyPlan::Json(name);
            }
            i = i + 1;
        }
        assert(false);
        return BodyPlan::Empty;
    }
    assert(string_views(names@) =~= p.map_values(|a: Argument| a.name@));
    BodyPlan::Record(names)
}

proof fn lemma_payload_names(args: Seq<Argument>, n: int)
    requires
        0 <= n <= args.len(),
    ensures
        names_of_kind(args, ArgKind::Payload, n) == payloads(args, n).map_values(|a: Argument| a.name@),
    decreases n,
{
    if n > 0 {
        lemma_payload_names(args, n - 1);
        assert(payloads(args, n - 1).push(args[n - 1]).map_values(|a: Argument| a.name@) =~= payloads(
            args,
            n - 1,
        ).map_values(|a: Argument| a.name@).push(args[n - 1].name@));
    } else {
        assert(payloads(args, n).map_values(|a: Argument| a.name@) =~= Seq::<Seq<char>>::empty());
    }
}

proof fn lemma_payloads_prefix(args: Seq<Argument>, m: int, n: int)
    requires
        0 <= m <= n <= args.len(),
    ensures
        payloads(args, m).len() <= payloads(args, n).len(),
        forall|k: int| 0 <= k < payloads(args, m).len() ==> payloads(args, n)[k] == payloads(args, m)[k],
    decreases n - m,
{
    if m < n {
        lemma_payloads_prefix(args, m, n - 1);
    }
}

/// Emits the client procedure of one route.
pub fn emit_client(route: &RouteSpec) -> (r: ClientPlan)
    ensures
        plans(*route, r@),
{
    let args = &route.arguments;
    ClientPlan {
        operation_id: route.operation_id.clone(),
        method: route.method.routed(),
        segments: split_template(&route.path),
        path_params: names_of_kind_exec(args, ArgKind::Path),
        query_params: names_of_kind_exec(args, ArgKind::Query),
        headers: header_plans_exec(args),
        body: body_plan_exec(args),
        accepts_json: !route.raw,
        expects_unit: match route.success {
            SuccessType::Unit => true,
            SuccessType::Value(_) => false,
        },
        implemented: route.method != HttpMethod::Ws,
    }
}

/// The client procedures of every route, in route order.
pub fn emit_clients(routes: &Vec<RouteSpec>) -> (r: Vec<ClientPlan>)
    ensures
        r@.len() == routes@.len(),
        forall|i: int| 0 <= i < routes@.len() ==> plans(routes@[i], #[trigger] r@[i]@),
{
    let mut out: Vec<ClientPlan> = Vec::new();
    let mut i: usize = 0;
    while i < routes.len()
        invariant
            i <= routes@.len(),
            out@.len() == i,
            forall|j: int| 0 <= j < i ==> plans(routes@[j], #[trigger] out@[j]@),
        decreases routes.len() - i,
    {
        out.push(emit_client(&routes[i]));
        i = i + 1;
    }
    out
}

pub open spec fn is_first_name(names: Seq<Seq<char>>, n: Seq<char>, k: int) -> bool {
    0 <= k < names.len() && names[k] == n && forall|j: int| 0 <= j < k ==> names[j] != n
}

/// What a placeholder becomes: the percent-encoded value of the first
/// parameter of its name; a placeholder no parameter names stays as written.
pub open spec fn placeholder_value(names: Seq<Seq<char>>, values: Seq<Seq<char>>, n: Seq<char>) -> Seq<char> {
    if names.contains(n) {
        percent_encoded(values[choose|k: int| is_first_name(names, n, k)])
    } else {
        braced(n)
    }
}

/// The segments with their placeholders substituted.
pub open spec fn render(segs: Seq<SegmentView>, names: Seq<Seq<char>>, values: Seq<Seq<char>>) -> Seq<char>
    decreases segs.len(),
{
    if segs.len() == 0 {
        seq![]
    } else {
        render(segs.drop_last(), names, values) + match segs.last() {
            SegmentView::Literal(t) => t,
            SegmentView::Placeholder(n) => placeholder_value(names, values, n),
        }
    }
}

pub open spec fn query_pair(name: Seq<char>, value: Seq<char>) -> Seq<char> {
    percent_encoded(name) + "="@ + percent_encoded(value)
}

/// The query pairs of the first `n` parameters; one without a value is left out.
pub open spec fn query_pairs(names: Seq<Seq<char>>, values: Seq<Option<Seq<char>>>, n: int) -> Seq<Seq<char>>
    decreases n,
{
    if n <= 0 {
        seq![]
    } else {
        match values[n - 1] {
            Some(v) => query_pairs(names, values, n - 1).push(query_pair(names[n - 1], v)),
            None => query_pairs(names, values, n - 1),
        }
    }
}

pub open spec fn query_suffix(names: Seq<Seq<char>>, values: Seq<Option<Seq<char>>>) -> Seq<char> {
    let pairs = query_pairs(names, values, names.len() as int);
    if pairs.len() == 0 {
        seq![]
    } else {
        "?"@ + join_with(pairs, "&"@)
    }
}

pub open spec fn opt_views(v: Seq<Option<String>>) -> Seq<Option<Seq<char>>> {
    v.map_values(|o: Option<String>| opt_view(o))
}

/// The request target: path with placeholders substituted, then the query.
pub open spec fn target_of(plan: ClientPlanView, path_values: Seq<Seq<char>>, query_values: Seq<
    Option<Seq<char>>,
>) -> Seq<char> {
    render(plan.segments, plan.path_params, path_values) + query_suffix(plan.query_params, query_values)
}

fn find_name(names: &Vec<String>, n: &String) -> (r: Option<usize>)
    ensures
        match r {
            Some(k) => is_first_name(string_views(names@), n@, k as int),
            None => !string_views(names@).contains(n@),
        },
{
    let mut k: usize = 0;
    while k < names.len()
        invariant
            k <= names@.len(),
            forall|j: int| 0 <= j < k ==> string_views(names@)[j] != n@,
        decreases names.len() - k,
    {
        if names[k] == *n {
            return Some(k);
        }
        k = k + 1;
    }
    proof {
        if string_views(names@).contains(n@) {
            let j = choose|j: int| 0 <= j < names@.len() && string_views(names@)[j] == n@;
        }
    }
    None
}

/// Builds the request target of an operation from the values of its Path
/// and Query arguments, given in the plan's order.
pub fn request_target(plan: &ClientPlan, path_values: &Vec<String>, query_values: &Vec<Option<String>>) -> (r: String)
    requires
        path_values@.len() == plan.path_params@.len(),
        query_values@.len() == plan.query_params@.len(),
    ensures
        r@ == target_of(plan@, string_views(path_values@), opt_views(query_values@)),
{
    let ghost names = string_views(plan.path_params@);
    let ghost values = string_views(path_values@);
    let ghost segs = segment_views(plan.segments@);
    let mut out = String::new();
    let mut i: usize = 0;
    while i < plan.segments.len()
        invariant
            i <= segs.len(),
            segs == segment_views(plan.segments@),
            names == string_views(plan.path_params@),
            values == string_views(path_values@),
            path_values@.len() == plan.path_params@.len(),
            out@ == render(segs.subrange(0, i as int), names, values),
        decreases plan.segments.len() - i,
    {
        proof {
            assert(segs.subrange(0, i + 1).drop_last() =~= segs.subrange(0, i as int));
        }
        match &plan.segments[i] {
            Segment::Literal(t) => {
                out.append(t.as_str());
            },
            Segment::Placeholder(n) => {
                match find_name(&plan.path_params, n) {
                    Some(k) => {
                        proof {
                            let c = choose|c: int| is_first_name(names, n@, c);
                            if c < k {
                            } else if k < c {
                            }
                            assert(names[k as int] == n@);
                        }
                        let v = percent_encode(path_values[k].as_str());
                        out.append(v.as_str());
                    },
                    None => {
                        proof {
                            reveal_strlit("{");
                            reveal_strlit("}");
                        }
                        out.append("{");
                        out.append(n.as_str());
                        out.append("}");
                        assert(out@ =~= render(segs.subrange(0, i as int), names, values) + braced(n@));
                    },
                }
            },
        }
        i = i + 1;
    }
    assert(segs.subrange(0, segs.len() as int) =~= segs);
    let ghost qn = string_views(plan.query_params@);
    let ghost qv = opt_views(query_values@);
    let mut query = String::new();
    let mut count: usize = 0;
    let mut k: usize = 0;
    while k < query_values.len()
        invariant
            k <= query_values@.len(),
            query_values@.len() == plan.query_params@.len(),
            qn == string_views(plan.query_params@),
            qv == opt_views(query_values@),
            count as int == query_pairs(qn, qv, k as int).len(),
            count <= k,
            count > 0 ==> query@ == join_with(query_pairs(qn, qv, k as int), "&"@),
        decreases query_values.len() - k,
    {
        match &query_values[k] {
            Some(v) => {
                let mut pair = percent_encode(plan.query_params[k].as_str());
                pair.append("=");
                let ev = percent_encode(v.as_str());
                pair.append(ev.as_str());
                let ghost before = query_pairs(qn, qv, k as int);
                assert(before.push(pair@).drop_last() =~= before);
                if count == 0 {
                    query = pair;
                } else {
                    query.append("&");
                    query.append(pair.as_str());
                }
                count = count + 1;
            },
            None => {},
        }
        k = k + 1;
    }
    if count > 0 {
        out.append("?");
        out.append(query.as_str());
    }
    out
}

pub open spec fn record_field(name: Seq<char>, value: Seq<char>) -> Seq<char> {
    json_quoted(name) + ":"@ + value
}

pub open spec fn record_fields(names: Seq<Seq<char>>, values: Seq<Seq<char>>, n: int) -> Seq<Seq<char>>
    decreases n,
{
    if n <= 0 {
        seq![]
    } else {
        record_fields(names, values, n - 1).push(record_field(names[n - 1], values[n - 1]))
    }
}

/// The JSON record `{"name":value,...}` a multi-payload body is sent as.
pub open spec fn record_text(names: Seq<Seq<char>>, values: Seq<Seq<char>>) -> Seq<char> {
    "{"@ + join_with(record_fields(names, values, names.len() as int), ","@) + "}"@
}

/// Builds the JSON record body from the payloads' names and their values,
/// each value already in JSON form.
pub fn record_body(names: &Vec<String>, values: &Vec<String>) -> (r: String)
    requires
        names@.len() == values@.len(),
    ensures
        r@ == record_text(string_views(names@), string_views(values@)),
{
    let ghost ns = string_views(names@);
    let ghost vs = string_views(values@);
    let mut inner = String::new();
    let mut k: usize = 0;
    while k < names.len()
        invariant
            k <= names@.len(),
            names@.len() == values@.len(),
            ns == string_views(names@),
            vs == string_views(values@),
            k > 0 ==> inner@ == join_with(record_fields(ns, vs, k as int), ","@),
            k == 0 ==> inner@ == Seq::<char>::empty(),
        decreases names.len() - k,
    {
        let mut field = json_string(names[k].as_str());
        field.append(":");
        field.append(values[k].as_str());
        let ghost before = record_fields(ns, vs, k as int);
        assert(before.push(field@).drop_last() =~= before);
        assert(record_fields(ns, vs, k + 1) == before.push(field@));
        if k == 0 {
            inner = field;
        } else {
            inner.append(",");
            inner.append(field.as_str());
        }
        k = k + 1;
    }
    let mut out = String::from_str("{");
    out.append(inner.as_str());
    out.append("}");
    proof {
        if names@.len() == 0 {
            assert(inner@ == Seq::<char>::empty());
        }
    }
    out
}

/// What the transport made of a request.
pub enum TransportOutcome {
    /// The request failed before any status was obtained.
    Failed,
    Answered { status: u16, body: Vec<u8> },
}

/// What the client hands back for an answer.
pub enum ClientResult {
    /// Success without a value.
    Unit,
    /// Success: the body, JSON to decode or raw bytes.
    Body(Vec<u8>),
    /// A declared error: the index of its taxonomy entry.
    Declared(usize),
    /// The transport failed.
    CommunicationFailure,
    /// An error status whose envelope names no declared entry.
    Unrecognized(u16),
}

/// A status the transport reports as an error: a client or server error.
pub open spec fn is_error_status(status: u16) -> bool {
    400 <= status <= 599
}

/// What an error answer with wire id `id` decodes to.
pub open spec fn decodes_error(tax: ErrorTaxonomy, status: u16, id: Option<Seq<char>>, r: ClientResult) -> bool {
    match id {
        Some(i) => if exists|k: int| 1 <= k < tax.entries@.len() && tax.views()[k].key == i {
            r matches ClientResult::Declared(k) && 1 <= k < tax.entries@.len() && tax.views()[k as int].key == i
        } else {
            r == ClientResult::Unrecognized(status)
        },
        None => r == ClientResult::Unrecognized(status),
    }
}

/// Decodes an error answer from the wire id found in its envelope.
pub fn decode_error_id(tax: &ErrorTaxonomy, status: u16, id: Option<String>) -> (r: ClientResult)
    ensures
        decodes_error(*tax, status, opt_view(id), r),
{
    match id {
        Some(i) => match tax.entry_for_id(&i) {
            Some(k) => ClientResult::Declared(k),
            None => ClientResult::Unrecognized(status),
        },
        None => ClientResult::Unrecognized(status),
    }
}

/// Decodes what the transport made of a request: success, a declared error,
/// an unrecognized error, or a communication failure.
pub fn decode_response(tax: &ErrorTaxonomy, plan: &ClientPlan, outcome: TransportOutcome) -> (r: ClientResult)
    ensures
        match outcome {
            TransportOutcome::Failed => r == ClientResult::CommunicationFailure,
            TransportOutcome::Answered { status, body } => if is_error_status(status) {
                decodes_error(*tax, status, envelope_id_of(body@), r)
            } else if plan.expects_unit && plan.accepts_json {
                r == ClientResult::Unit
            } else {
                r == ClientResult::Body(body)
            },
        },
{
    match outcome {
        TransportOutcome::Failed => ClientResult::CommunicationFailure,
        TransportOutcome::Answered { status, body } => {
            if 400 <= status && status <= 599 {
                let id = envelope_id(body.as_slice());
                decode_error_id(tax, status, id)
            } else if plan.expects_unit && plan.accepts_json {
                ClientResult::Unit
            } else {
                ClientResult::Body(body)
            }
        },
    }
}

/// The target without its leading `/`, to be resolved against a base URL.
pub open spec fn relative_target(t: Seq<char>) -> Seq<char> {
    if t.len() > 0 && t[0] == '/' {
        t.subrange(1, t.len() as int)
    } else {
        t
    }
}

/// The full URL of a request: the target, taken relative, resolved against
/// the service's base URL.
pub fn request_url(
    plan: &ClientPlan,
    base: &String,
    path_values: &Vec<String>,
    query_values: &Vec<Option<String>>,
) -> (r: Option<String>)
    requires
        path_values@.len() == plan.path_params@.len(),
        query_values@.len() == plan.query_params@.len(),
    ensures
        opt_view(r) == url_joined(
            base@,
            relative_target(target_of(plan@, string_views(path_values@), opt_views(query_values@))),
        ),
{
    let target = request_target(plan, path_values, query_values);
    let n = target.as_str().unicode_len();
    let relative = if n > 0 && target.as_str().get_char(0) == '/' {
        string_of_range(target.as_str(), 1, n)
    } else {
        target
    };
    join_url(base.as_str(), relative.as_str())
}

} // verus!
