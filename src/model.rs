//! The canonical model: one route per declared operation, built from its
//! declaration, and the service that holds them.
use crate::arguments::{
    classified, classify_all, is_classify_failure, Argument, ClassifyError, QueryDecl, RawParam,
};
use crate::method::HttpMethod;
use crate::taxonomy::{
    entries_resolve, is_taxonomy_failure, resolve_taxonomy, ErrorCategory, ErrorRef, ErrorTaxonomy,
    TaxonomyError,
};
use crate::text::joined;
use vstd::prelude::*;

verus! {

/// Service-wide settings.
pub struct ServiceConfig {
    /// Put before every path not declared absolute.
    pub prefix: String,
    /// Documentation tag of every operation.
    pub tag: Option<String>,
}

/// What an operation returns on success.
pub enum SuccessType {
    /// Nothing: an empty (no-content) response.
    Unit,
    /// A value of the named type, sent as JSON.
    Value(String),
}

/// One operation as declared.
pub struct OperationDecl {
    pub id: String,
    pub path: String,
    /// The path is taken as it stands, without the service prefix.
    pub absolute: bool,
    pub method: HttpMethod,
    pub params: Vec<RawParam>,
    pub query: Vec<QueryDecl>,
    /// Explicit groups; none declared means the `default` group.
    pub groups: Vec<String>,
    pub requires_auth: bool,
    /// The body goes and comes back as raw bytes, unconverted.
    pub raw: bool,
    pub errors: Vec<ErrorRef>,
    pub success: SuccessType,
    /// Documentation lines.
    pub doc: Vec<String>,
}

/// One operation of the model.
pub struct RouteSpec {
    pub operation_id: String,
    pub path: String,
    pub method: HttpMethod,
    pub arguments: Vec<Argument>,
    pub taxonomy: ErrorTaxonomy,
    pub success: SuccessType,
    pub groups: Vec<String>,
    pub requires_auth: bool,
    pub raw: bool,
    pub doc: Vec<String>,
}

/// The model of a whole service.
pub struct ServiceDefinition {
    pub config: ServiceConfig,
    pub routes: Vec<RouteSpec>,
}

#[derive(Clone, Copy, Debug, PartialEq, Eq, Structural)]
pub enum BuildErrorKind {
    /// The path, with the prefix applied, does not begin with `/`.
    PathWithoutSlash,
    Classify(ClassifyError),
    Taxonomy(TaxonomyError),
}

pub open spec fn string_views(v: Seq<String>) -> Seq<Seq<char>> {
    v.map_values(|s: String| s@)
}

/// The path of an operation: the service prefix, then the declared path,
/// unless it is absolute.
pub open spec fn full_path(prefix: Seq<char>, d: OperationDecl) -> Seq<char> {
    if d.absolute {
        d.path@
    } else {
        prefix + d.path@
    }
}

pub open spec fn default_group() -> Seq<char> {
    "default"@
}

pub open spec fn with_auth_group() -> Seq<char> {
    "with_auth"@
}

pub open spec fn without_auth_group() -> Seq<char> {
    "without_auth"@
}

/// The implicit group for an authentication requirement.
pub open spec fn auth_group(requires_auth: bool) -> Seq<char> {
    if requires_auth {
        with_auth_group()
    } else {
        without_auth_group()
    }
}

/// The groups of an operation: its explicit ones (or `default` when it has
/// none), then its authentication group.
pub open spec fn route_groups(d: OperationDecl) -> Seq<Seq<char>> {
    let explicit = if d.groups@.len() == 0 {
        seq![default_group()]
    } else {
        string_views(d.groups@)
    };
    explicit.push(auth_group(d.requires_auth))
}

/// `r` is the route built from `d`.
pub open spec fn builds(prefix: Seq<char>, cats: Seq<ErrorCategory>, d: OperationDecl, r: RouteSpec) -> bool {
    &&& r.operation_id == d.id
    &&& r.path@ == full_path(prefix, d)
    &&& r.method == d.method
    &&& classified(d.params@, r.path@, d.query@, r.arguments@)
    &&& r.taxonomy.wf()
    &&& r.taxonomy.declared@ == d.errors@
    &&& r.taxonomy.requires_auth == d.requires_auth
    &&& entries_resolve(cats, d.errors@, d.requires_auth, r.taxonomy.views())
    &&& string_views(r.groups@) == route_groups(d)
    &&& r.success == d.success
    &&& r.requires_auth == d.requires_auth
    &&& r.raw == d.raw
    &&& r.doc == d.doc
}

/// `e` is the failure building `d` reports: a path without leading `/`,
/// else the classification failure, else the taxonomy failure.
pub open spec fn is_build_failure(prefix: Seq<char>, cats: Seq<ErrorCategory>, d: OperationDecl, e: BuildErrorKind) -> bool {
    let path = full_path(prefix, d);
    if path.len() == 0 || path[0] != '/' {
        e == BuildErrorKind::PathWithoutSlash
    } else if exists|args: Seq<Argument>| classified(d.params@, path, d.query@, args) {
        e matches BuildErrorKind::Taxonomy(t) && is_taxonomy_failure(cats, d.errors@, d.requires_auth, t)
    } else {
        e matches BuildErrorKind::Classify(c) && is_classify_failure(d.params@, path, d.query@, c)
    }
}

/// Builds the route of one declared operation.
pub fn build_route(prefix: &String, cats: &Vec<ErrorCategory>, d: OperationDecl) -> (r: Result<
    RouteSpec,
    BuildErrorKind,
>)
    ensures
        match r {
            Ok(route) => builds(prefix@, cats@, d, route),
            Err(e) => is_build_failure(prefix@, cats@, d, e),
        },
{
    let ghost d0 = d;
    let OperationDecl {
        id,
        path,
        absolute,
        method,
        params,
        query,
        groups,
        requires_auth,
        raw,
        errors,
        success,
        doc,
    } = d;
    let full = if absolute {
        path
    } else {
        joined(prefix.as_str(), path.as_str())
    };
    if full.as_str().unicode_len() == 0 || full.as_str().get_char(0) != '/' {
        return Err(BuildErrorKind::PathWithoutSlash);
    }
    let arguments = match classify_all(&params, &full, &query) {
        Ok(a) => a,
        Err(c) => {
            proof {
                if exists|args: Seq<Argument>| classified(d0.params@, full@, d0.query@, args) {
                    let args = choose|args: Seq<Argument>| classified(d0.params@, full@, d0.query@, args);
                    assert(forall|i: int| !crate::arguments::malformed_at(d0.params@, i));
                }
            }
            return Err(BuildErrorKind::Classify(c));
        },
    };
    let taxonomy = match resolve_taxonomy(cats, errors, requires_auth) {
        Ok(t) => t,
        Err(t) => return Err(BuildErrorKind::Taxonomy(t)),
    };
    let mut member_of: Vec<String> = Vec::new();
    if groups.len() == 0 {
        member_of.push(String::from_str("default"));
    } else {
        let mut i: usize = 0;
        while i < groups.len()
            invariant
                i <= groups@.len(),
                member_of@.len() == i,
                string_views(member_of@) == string_views(groups@).subrange(0, i as int),
            decreases groups.len() - i,
        {
            let g = groups[i].clone();
            member_of.push(g);
            proof {
                assert(string_views(member_of@)[i as int] == string_views(groups@)[i as int]);
                assert(string_views(member_of@) =~= string_views(groups@).subrange(0, i + 1));
            }
            i = i + 1;
        }
        proof {
            assert(string_views(groups@).subrange(0, groups@.len() as int) =~= string_views(groups@));
        }
    }
    if requires_auth {
        member_of.push(String::from_str("with_auth"));
    } else {
        member_of.push(String::from_str("without_auth"));
    }
    proof {
        assert(string_views(member_of@) =~= route_groups(d0));
    }
    Ok(
        RouteSpec {
            operation_id: id,
            path: full,
            method,
            arguments,
            taxonomy,
            success,
            groups: member_of,
            requires_auth,
            raw,
            doc,
        },
    )
}

} // verus!
