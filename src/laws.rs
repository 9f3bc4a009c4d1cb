//! Properties that relate several functions of the library, proved from
//! their contracts.
use crate::arguments::{classified, classifies_as, is_optional, ArgKind, Argument, QueryDecl, RawParam};
use crate::client::{decodes_error, plans, ClientPlan, ClientResult};
use crate::dispatch::{dedup, dispatch_of, entry_of, flat_groups, group_names, implicit_groups, in_group, members, RouteGroup};
use crate::document::{count_status, document_of, responses_upto, schema_refs, schema_table, OperationDoc, OperationDocView, ResponseView};
use crate::model::SuccessType;
use crate::taxonomy::EntryView;
use crate::model::{string_views, RouteSpec, ServiceDefinition};
use crate::service::{built_from, emitted, Artifacts};
use crate::model::{route_groups, OperationDecl};
use crate::taxonomy::ErrorCategory;
use crate::taxonomy::{keys_distinct, ErrorTaxonomy};
use crate::validate::{is_placeholder_name, path_args_match, route_violations, violations, violations_upto, Violation, ViolationKind};
use vstd::prelude::*;

verus! {

/// The operation ids of a model.
pub open spec fn route_ids(routes: Seq<RouteSpec>) -> Set<Seq<char>> {
    Set::new(|id: Seq<char>| exists|i: int| 0 <= i < routes.len() && routes[i].operation_id@ == id)
}

/// The operation ids the dispatch table serves, over all groups.
pub open spec fn dispatch_ids(a: Artifacts) -> Set<Seq<char>> {
    Set::new(
        |id: Seq<char>|
            exists|g: int, e: int|
                0 <= g < a.dispatch@.len() && 0 <= e < a.dispatch@[g]@.entries.len()
                    && a.dispatch@[g]@.entries[e].operation_id == id,
    )
}

pub open spec fn document_ids(a: Artifacts) -> Set<Seq<char>> {
    Set::new(|id: Seq<char>| exists|i: int| 0 <= i < a.documents@.len() && a.documents@[i].operation_id@ == id)
}

pub open spec fn client_ids(a: Artifacts) -> Set<Seq<char>> {
    Set::new(|id: Seq<char>| exists|i: int| 0 <= i < a.clients@.len() && a.clients@[i].operation_id@ == id)
}

proof fn lemma_dedup_contains(s: Seq<Seq<char>>, x: Seq<char>)
    ensures
        dedup(s).contains(x) <==> s.contains(x),
    decreases s.len(),
{
    if s.len() > 0 {
        lemma_dedup_contains(s.drop_last(), x);
        let d = dedup(s.drop_last());
        if s.drop_last().contains(x) {
            let k = choose|k: int| 0 <= k < s.drop_last().len() && s.drop_last()[k] == x;
            assert(s[k] == x);
        }
        if s.contains(x) && x != s.last() {
            let k = choose|k: int| 0 <= k < s.len() && s[k] == x;
            assert(s.drop_last()[k] == x);
        }
        if !d.contains(s.last()) {
            assert(d.push(s.last())[d.len() as int] == s.last());
            if d.contains(x) {
                let k = choose|k: int| 0 <= k < d.len() && d[k] == x;
                assert(d.push(s.last())[k] == x);
            }
            if d.push(s.last()).contains(x) && x != s.last() {
                let k = choose|k: int| 0 <= k < d.len() + 1 && d.push(s.last())[k] == x;
                assert(d[k] == x);
            }
        }
        assert(s[s.len() - 1] == s.last());
    }
}

proof fn lemma_flat_contains(routes: Seq<RouteSpec>, n: int, i: int, g: int)
    requires
        0 <= i < n <= routes.len(),
        0 <= g < routes[i].groups@.len(),
    ensures
        flat_groups(routes, n).contains(routes[i].groups@[g]@),
    decreases n,
{
    let sv = string_views(routes[n - 1].groups@);
    if i < n - 1 {
        lemma_flat_contains(routes, n - 1, i, g);
        let f = flat_groups(routes, n - 1);
        let k = choose|k: int| 0 <= k < f.len() && f[k] == routes[i].groups@[g]@;
        assert(flat_groups(routes, n)[k] == routes[i].groups@[g]@);
    } else {
        assert(flat_groups(routes, n)[flat_groups(routes, n - 1).len() + g] == sv[g]);
    }
}

proof fn lemma_members(routes: Seq<RouteSpec>, name: Seq<char>, n: int)
    requires
        0 <= n <= routes.len(),
    ensures
        forall|e: int|
            0 <= e < members(routes, name, n).len() ==> exists|j: int|
                0 <= j < n && #[trigger] members(routes, name, n)[e] == entry_of(routes, j),
        forall|j: int|
            0 <= j < n && in_group(routes[j], name) ==> members(routes, name, n).contains(#[trigger] entry_of(routes, j)),
    decreases n,
{
    if n > 0 {
        lemma_members(routes, name, n - 1);
        let m = members(routes, name, n - 1);
        if in_group(routes[n - 1], name) {
            assert(members(routes, name, n) == m.push(entry_of(routes, n - 1)));
            assert forall|e: int| 0 <= e < members(routes, name, n).len() implies exists|j: int|
                0 <= j < n && #[trigger] members(routes, name, n)[e] == entry_of(routes, j) by {
                if e < m.len() {
                    let j = choose|j: int| 0 <= j < n - 1 && #[trigger] m[e] == entry_of(routes, j);
                    assert(members(routes, name, n)[e] == entry_of(routes, j));
                } else {
                    assert(members(routes, name, n)[e] == entry_of(routes, n - 1));
                }
            }
            assert forall|j: int| 0 <= j < n && in_group(routes[j], name) implies members(routes, name, n).contains(
                #[trigger] entry_of(routes, j),
            ) by {
                if j < n - 1 {
                    let k = choose|k: int| 0 <= k < m.len() && m[k] == entry_of(routes, j);
                    assert(members(routes, name, n)[k] == entry_of(routes, j));
                } else {
                    assert(members(routes, name, n)[m.len() as int] == entry_of(routes, j));
                }
            }
        }
    }
}

/// Cross-artifact agreement: the dispatch table (over all its groups), the
/// interface documents and the client procedures name exactly the
/// operations of the model.
pub proof fn lemma_artifacts_agree_on_operations(def: ServiceDefinition, a: Artifacts)
    requires
        emitted(def, a),
        forall|i: int| 0 <= i < def.routes@.len() ==> #[trigger] def.routes@[i].groups@.len() > 0,
    ensures
        dispatch_ids(a) == route_ids(def.routes@),
        document_ids(a) == route_ids(def.routes@),
        client_ids(a) == route_ids(def.routes@),
{
    let routes = def.routes@;
    let n = routes.len() as int;
    let names = group_names(routes);
    let table = dispatch_of(routes);
    assert(a.dispatch@.len() == table.len()) by {
        assert(a.dispatch@.map_values(|g: RouteGroup| g@).len() == a.dispatch@.len());
    }
    assert forall|id: Seq<char>| dispatch_ids(a).contains(id) <==> route_ids(routes).contains(id) by {
        if dispatch_ids(a).contains(id) {
            let (g, e) = choose|g: int, e: int|
                0 <= g < a.dispatch@.len() && 0 <= e < a.dispatch@[g]@.entries.len()
                    && a.dispatch@[g]@.entries[e].operation_id == id;
            assert(a.dispatch@[g]@ == table[g]);
            lemma_members(routes, names[g], n);
            let j = choose|j: int| 0 <= j < n && #[trigger] members(routes, names[g], n)[e] == entry_of(routes, j);
            assert(routes[j].operation_id@ == id);
        }
        if route_ids(routes).contains(id) {
            let i = choose|i: int| 0 <= i < routes.len() && routes[i].operation_id@ == id;
            let g0 = routes[i].groups@[0]@;
            lemma_flat_contains(routes, n, i, 0);
            let f = flat_groups(routes, n);
            let k = choose|k: int| 0 <= k < f.len() && f[k] == g0;
            assert((implicit_groups() + f)[3 + k] == g0);
            lemma_dedup_contains(implicit_groups() + f, g0);
            let gi = choose|gi: int| 0 <= gi < names.len() && names[gi] == g0;
            assert(in_group(routes[i], g0)) by {
                assert(string_views(routes[i].groups@)[0] == g0);
            }
            lemma_members(routes, g0, n);
            let m = members(routes, g0, n);
            let e = choose|e: int| 0 <= e < m.len() && m[e] == entry_of(routes, i);
            assert(a.dispatch@[gi]@ == table[gi]);
            assert(a.dispatch@[gi]@.entries[e].operation_id == id);
        }
    }
    assert(dispatch_ids(a) =~= route_ids(routes));
    let tag = crate::arguments::opt_view(def.config.tag);
    let docs = a.documents@.map_values(|d: OperationDoc| d@);
    let expected = routes.map_values(|route: RouteSpec| document_of(tag, route));
    assert(docs.len() == a.documents@.len());
    assert(expected.len() == routes.len());
    assert forall|i: int| 0 <= i < routes.len() implies a.documents@[i]@ == document_of(tag, routes[i]) by {
        assert(docs[i] == expected[i]);
    }
    assert forall|id: Seq<char>| document_ids(a).contains(id) <==> route_ids(routes).contains(id) by {
        if document_ids(a).contains(id) {
            let i = choose|i: int| 0 <= i < a.documents@.len() && a.documents@[i].operation_id@ == id;
            assert(a.documents@[i]@ == document_of(crate::arguments::opt_view(def.config.tag), routes[i]));
        }
        if route_ids(routes).contains(id) {
            let i = choose|i: int| 0 <= i < routes.len() && routes[i].operation_id@ == id;
            assert(a.documents@[i]@ == document_of(crate::arguments::opt_view(def.config.tag), routes[i]));
        }
    }
    assert(document_ids(a) =~= route_ids(routes));
    assert forall|id: Seq<char>| client_ids(a).contains(id) <==> route_ids(routes).contains(id) by {
        if client_ids(a).contains(id) {
            let i = choose|i: int| 0 <= i < a.clients@.len() && a.clients@[i].operation_id@ == id;
            assert(plans(routes[i], a.clients@[i]@));
        }
        if route_ids(routes).contains(id) {
            let i = choose|i: int| 0 <= i < routes.len() && routes[i].operation_id@ == id;
            assert(plans(routes[i], a.clients@[i]@));
        }
    }
    assert(client_ids(a) =~= route_ids(routes));
}

proof fn lemma_mismatch_listed(routes: Seq<RouteSpec>, i: int, n: int)
    requires
        0 <= i < n <= routes.len(),
        !path_args_match(routes[i]),
    ensures
        violations_upto(routes, n).contains(
            Violation { operation: i as usize, kind: ViolationKind::PlaceholderMismatch },
        ),
    decreases n,
{
    let v = Violation { operation: i as usize, kind: ViolationKind::PlaceholderMismatch };
    let before = violations_upto(routes, n - 1);
    if i < n - 1 {
        lemma_mismatch_listed(routes, i, n - 1);
        let k = choose|k: int| 0 <= k < before.len() && before[k] == v;
        assert(violations_upto(routes, n)[k] == v);
    } else {
        let rv = route_violations(routes, i);
        let first = crate::validate::one_if(
            crate::validate::repeats_id(routes, i),
            Violation { operation: i as usize, kind: ViolationKind::DuplicateOperationId },
        );
        assert(rv[first.len() as int] == v);
        assert(violations_upto(routes, n)[(before.len() + first.len()) as int] == v);
    }
}

/// Placeholders and Path arguments in bijection: for a route of a model on
/// which the validator reports no placeholder mismatch, the names of the
/// path's placeholders are exactly the names of its Path arguments, and
/// each placeholder is named by exactly one Path argument.
pub proof fn lemma_placeholders_biject(routes: Seq<RouteSpec>, i: int)
    requires
        0 <= i < routes.len(),
        !violations(routes).contains(
            Violation { operation: i as usize, kind: ViolationKind::PlaceholderMismatch },
        ),
    ensures
        forall|n: Seq<char>|
            is_placeholder_name(routes[i].path@, n) <==> exists|a: int|
                0 <= a < routes[i].arguments@.len() && routes[i].arguments@[a].kind == ArgKind::Path
                    && #[trigger] routes[i].arguments@[a].name@ == n,
        forall|a: int, b: int|
            0 <= a < routes[i].arguments@.len() && 0 <= b < routes[i].arguments@.len()
                && routes[i].arguments@[a].kind == ArgKind::Path && routes[i].arguments@[b].kind
                == ArgKind::Path && routes[i].arguments@[a].name@ == routes[i].arguments@[b].name@
                ==> a == b,
{
    if !path_args_match(routes[i]) {
        lemma_mismatch_listed(routes, i, routes.len() as int);
    }
    let args = routes[i].arguments@;
    assert forall|n: Seq<char>|
        (exists|a: int| 0 <= a < args.len() && args[a].kind == ArgKind::Path && #[trigger] args[a].name@ == n)
            implies is_placeholder_name(routes[i].path@, n) by {
        let a = choose|a: int| 0 <= a < args.len() && args[a].kind == ArgKind::Path && #[trigger] args[a].name@ == n;
        assert(is_placeholder_name(routes[i].path@, args[a].name@));
    }
    assert forall|a: int, b: int|
        0 <= a < args.len() && 0 <= b < args.len() && args[a].kind == ArgKind::Path && args[b].kind
            == ArgKind::Path && args[a].name@ == args[b].name@ implies a == b by {
        if a < b {
        } else if b < a {
        }
    }
}

/// Distinct wire keys, and decoding by them: in a resolved taxonomy no two
/// entries share a key, even with one status; an envelope carrying the key
/// of a declared entry decodes to that entry; any other id decodes to an
/// unrecognized error, never to a success or a communication failure.
pub proof fn lemma_taxonomy_decoding(tax: ErrorTaxonomy, status: u16, id: Seq<char>, r: ClientResult)
    requires
        tax.wf(),
        decodes_error(tax, status, Some(id), r),
    ensures
        keys_distinct(tax.views()),
        forall|k: int| 1 <= k < tax.entries@.len() && tax.views()[k].key == id ==> r == ClientResult::Declared(k as usize),
        (forall|k: int| 1 <= k < tax.entries@.len() ==> tax.views()[k].key != id) ==> r == ClientResult::Unrecognized(status),
        !(r is Unit) && !(r is Body) && !(r is CommunicationFailure),
{
    assert forall|k: int| 1 <= k < tax.entries@.len() && tax.views()[k].key == id implies r == ClientResult::Declared(k as usize) by {
        let got = r->Declared_0;
        if (got as int) < k {
        } else if k < (got as int) {
        }
    }
}

/// `required` of a Query argument: false exactly when its declared type is
/// optional.
pub proof fn lemma_query_required(params: Seq<RawParam>, path: Seq<char>, query: Seq<QueryDecl>, args: Seq<Argument>)
    requires
        classified(params, path, query, args),
    ensures
        forall|i: int|
            0 <= i < args.len() && #[trigger] args[i].kind == ArgKind::Query ==> (args[i].required <==> !is_optional(params[i].ty@)),
{
    assert forall|i: int| 0 <= i < args.len() && #[trigger] args[i].kind == ArgKind::Query implies (args[i].required
        <==> !is_optional(params[i].ty@)) by {
        assert(classifies_as(params[i], path, query, args[i]));
    }
}

/// Emitting twice from one model gives the same artifacts: the same
/// dispatch table, the same documents and the same client procedures.
pub proof fn lemma_emission_deterministic(def: ServiceDefinition, a: Artifacts, b: Artifacts)
    requires
        emitted(def, a),
        emitted(def, b),
    ensures
        a.dispatch@.map_values(|g: RouteGroup| g@) == b.dispatch@.map_values(|g: RouteGroup| g@),
        a.documents@.map_values(|d: OperationDoc| d@) == b.documents@.map_values(|d: OperationDoc| d@),
        a.clients@.map_values(|c: ClientPlan| c@) == b.clients@.map_values(|c: ClientPlan| c@),
{
    let x = a.clients@.map_values(|c: ClientPlan| c@);
    let y = b.clients@.map_values(|c: ClientPlan| c@);
    assert forall|i: int| 0 <= i < x.len() implies x[i] == y[i] by {
        assert(plans(def.routes@[i], a.clients@[i]@));
        assert(plans(def.routes@[i], b.clients@[i]@));
    }
    assert(x =~= y);
}

/// Cross-artifact agreement for a translated service: every built route
/// has a group, so the artifacts emitted from the model name exactly its
/// operations.
pub proof fn lemma_translation_agrees_on_operations(
    prefix: Seq<char>,
    cats: Seq<ErrorCategory>,
    decls: Seq<OperationDecl>,
    def: ServiceDefinition,
    a: Artifacts,
)
    requires
        built_from(prefix, cats, decls, def.routes@),
        emitted(def, a),
    ensures
        dispatch_ids(a) == route_ids(def.routes@),
        document_ids(a) == route_ids(def.routes@),
        client_ids(a) == route_ids(def.routes@),
{
    assert forall|i: int| 0 <= i < def.routes@.len() implies #[trigger] def.routes@[i].groups@.len() > 0 by {
        assert(crate::model::builds(prefix, cats, decls[i], def.routes@[i]));
        assert(string_views(def.routes@[i].groups@).len() == route_groups(decls[i]).len());
    }
    lemma_artifacts_agree_on_operations(def, a);
}

proof fn lemma_count_step(rs: Seq<ResponseView>, m: int, status: u16)
    requires
        0 <= m < rs.len(),
    ensures
        count_status(rs.subrange(0, m + 1), status) == count_status(rs.subrange(0, m), status) + if rs[m].status
            == status {
            1nat
        } else {
            0nat
        },
{
    assert(rs.subrange(0, m + 1).drop_last() =~= rs.subrange(0, m));
}

proof fn lemma_count_monotone(rs: Seq<ResponseView>, m: int, n: int, status: u16)
    requires
        0 <= m <= n <= rs.len(),
    ensures
        count_status(rs.subrange(0, m), status) <= count_status(rs.subrange(0, n), status),
    decreases n - m,
{
    if m < n {
        lemma_count_monotone(rs, m, n - 1, status);
        lemma_count_step(rs, n - 1, status);
    }
}

proof fn lemma_ordinals_count(s: SuccessType, entries: Seq<EntryView>, n: int)
    requires
        1 <= n <= usize::MAX,
    ensures
        responses_upto(s, entries, n).len() == n,
        forall|j: int|
            0 <= j < responses_upto(s, entries, n).len() ==> #[trigger] responses_upto(s, entries, n)[j].ordinal
                as int == count_status(
                responses_upto(s, entries, n).subrange(0, j),
                responses_upto(s, entries, n)[j].status,
            ),
    decreases n,
{
    let rs = responses_upto(s, entries, n);
    if n > 1 {
        lemma_ordinals_count(s, entries, n - 1);
        let prev = responses_upto(s, entries, n - 1);
        let st = entries[n - 1].status;
        lemma_count_monotone(prev, 0, prev.len() as int, st);
        lemma_count_bound(prev, st);
        assert(prev.subrange(0, prev.len() as int) =~= prev);
        assert forall|j: int| 0 <= j < rs.len() implies #[trigger] rs[j].ordinal as int == count_status(
            rs.subrange(0, j),
            rs[j].status,
        ) by {
            assert(rs.subrange(0, j) =~= prev.subrange(0, j)) by {
                if j < prev.len() {
                    assert forall|x: int| 0 <= x < j implies rs.subrange(0, j)[x] == prev.subrange(0, j)[x] by {}
                }
            }
            if j < prev.len() {
                assert(rs[j] == prev[j]);
            }
        }
    } else {
        assert(rs.subrange(0, 0) =~= Seq::<ResponseView>::empty());
    }
}

proof fn lemma_count_bound(rs: Seq<ResponseView>, status: u16)
    ensures
        count_status(rs, status) <= rs.len(),
    decreases rs.len(),
{
    if rs.len() > 0 {
        lemma_count_bound(rs.drop_last(), status);
    }
}

/// Response keys stay apart: in the responses of an operation, no two share
/// both status and ordinal, even when several errors share a status.
pub proof fn lemma_response_keys_distinct(s: SuccessType, entries: Seq<EntryView>, n: int)
    requires
        1 <= n <= usize::MAX,
    ensures
        forall|a: int, b: int|
            0 <= a < b < responses_upto(s, entries, n).len() ==> !(responses_upto(s, entries, n)[a].status
                == responses_upto(s, entries, n)[b].status && responses_upto(s, entries, n)[a].ordinal
                == responses_upto(s, entries, n)[b].ordinal),
{
    let rs = responses_upto(s, entries, n);
    lemma_ordinals_count(s, entries, n);
    assert forall|a: int, b: int|
        0 <= a < b < rs.len() implies !(rs[a].status == rs[b].status && rs[a].ordinal == rs[b].ordinal) by {
        if rs[a].status == rs[b].status {
            let st = rs[a].status;
            lemma_count_step(rs, a, st);
            lemma_count_monotone(rs, a + 1, b, st);
            assert(rs[a].ordinal as int == count_status(rs.subrange(0, a), st));
            assert(rs[b].ordinal as int == count_status(rs.subrange(0, b), st));
        }
    }
}

proof fn lemma_dedup_distinct(s: Seq<Seq<char>>)
    ensures
        forall|a: int, b: int| 0 <= a < b < dedup(s).len() ==> dedup(s)[a] != dedup(s)[b],
    decreases s.len(),
{
    if s.len() > 0 {
        lemma_dedup_distinct(s.drop_last());
        let d = dedup(s.drop_last());
        if !d.contains(s.last()) {
            let e = d.push(s.last());
            assert forall|a: int, b: int| 0 <= a < b < e.len() implies e[a] != e[b] by {
                if b == d.len() {
                    if e[a] == e[b] {
                        assert(d[a] == s.last());
                    }
                } else {
                    assert(e[a] == d[a] && e[b] == d[b]);
                }
            }
        }
    }
}

/// The schema table holds each referenced schema name exactly once.
pub proof fn lemma_schema_table_once(docs: Seq<OperationDocView>)
    ensures
        forall|x: Seq<char>| schema_table(docs).contains(x) <==> schema_refs(docs, docs.len() as int).contains(x),
        forall|a: int, b: int|
            0 <= a < b < schema_table(docs).len() ==> schema_table(docs)[a] != schema_table(docs)[b],
{
    let refs = schema_refs(docs, docs.len() as int);
    assert forall|x: Seq<char>| schema_table(docs).contains(x) <==> refs.contains(x) by {
        lemma_dedup_contains(refs, x);
    }
    lemma_dedup_distinct(refs);
}

} // verus!
