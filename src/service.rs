//! The translator as a whole: declarations in, one validated model out,
//! then the three artifacts emitted from it.
use crate::arguments::opt_view;
use crate::client::{emit_clients, plans, ClientPlan};
use crate::dispatch::{dispatch_of, emit_dispatch, RouteGroup};
use crate::document::{document_of, emit_documents, OperationDoc};
use crate::model::{build_route, builds, is_build_failure, BuildErrorKind, OperationDecl, RouteSpec, ServiceConfig, ServiceDefinition};
use crate::taxonomy::ErrorCategory;
use crate::validate::{validate, violations, Violation};
use vstd::prelude::*;

verus! {

/// A declaration that could not be built, by index.
#[derive(Clone, Copy, Debug, PartialEq, Eq, Structural)]
pub struct BuildError {
    pub operation: usize,
    pub kind: BuildErrorKind,
}

/// Why a translation stopped: the declarations that could not be built, or
/// the violations of the built model. Either list holds all that were found.
pub enum TranslateError {
    Build(Vec<BuildError>),
    Invalid(Vec<Violation>),
}

/// The three artifacts.
pub struct Artifacts {
    pub dispatch: Vec<RouteGroup>,
    pub documents: Vec<OperationDoc>,
    pub clients: Vec<ClientPlan>,
}

/// `routes` are built, one for one, from `decls`.
pub open spec fn built_from(prefix: Seq<char>, cats: Seq<ErrorCategory>, decls: Seq<OperationDecl>, routes: Seq<RouteSpec>) -> bool {
    routes.len() == decls.len() && forall|i: int| 0 <= i < decls.len() ==> builds(prefix, cats, decls[i], #[trigger] routes[i])
}

/// `errors` report, in declaration order, a failure for each declaration
/// that builds no route, and only for those.
pub open spec fn reports_build(prefix: Seq<char>, cats: Seq<ErrorCategory>, decls: Seq<OperationDecl>, errors: Seq<BuildError>) -> bool {
    &&& errors.len() > 0
    &&& forall|k: int| 0 <= k < errors.len() ==> (#[trigger] errors[k]).operation < decls.len()
        && is_build_failure(prefix, cats, decls[errors[k].operation as int], errors[k].kind)
    &&& forall|a: int, b: int| 0 <= a < b < errors.len() ==> errors[a].operation < errors[b].operation
    &&& forall|i: int|
        0 <= i < decls.len() && !reported(errors, i) ==> #[trigger] builds_some(prefix, cats, decls[i])
}

/// Some error of `errors` concerns declaration `i`.
pub open spec fn reported(errors: Seq<BuildError>, i: int) -> bool {
    exists|k: int| 0 <= k < errors.len() && errors[k].operation == i
}

/// Some route is built from `d`.
pub open spec fn builds_some(prefix: Seq<char>, cats: Seq<ErrorCategory>, d: OperationDecl) -> bool {
    exists|r: RouteSpec| builds(prefix, cats, d, r)
}

/// Builds the model of a service from its declarations; reports every
/// declaration that cannot be built.
pub fn build_service(config: ServiceConfig, cats: &Vec<ErrorCategory>, decls: Vec<OperationDecl>) -> (r: Result<
    ServiceDefinition,
    Vec<BuildError>,
>)
    ensures
        match r {
            Ok(def) => def.config == config && built_from(config.prefix@, cats@, decls@, def.routes@),
            Err(errors) => reports_build(config.prefix@, cats@, decls@, errors@),
        },
{
    let ghost all = decls@;
    let ghost prefix = config.prefix@;
    let n = decls.len();
    let mut rest = decls;
    let mut routes: Vec<RouteSpec> = Vec::new();
    let mut errors: Vec<BuildError> = Vec::new();
    let mut i: usize = 0;
    while rest.len() > 0
        invariant
            i <= all.len(),
            n == all.len(),
            rest@ == all.subrange(i as int, all.len() as int),
            prefix == config.prefix@,
            errors@.len() == 0 ==> routes@.len() == i && forall|j: int| 0 <= j < i ==> builds(prefix, cats@, all[j], #[trigger] routes@[j]),
            forall|k: int| 0 <= k < errors@.len() ==> (#[trigger] errors@[k]).operation < i
                && is_build_failure(prefix, cats@, all[errors@[k].operation as int], errors@[k].kind),
            forall|a: int, b: int| 0 <= a < b < errors@.len() ==> errors@[a].operation < errors@[b].operation,
            forall|j: int| 0 <= j < i && !reported(errors@, j) ==> #[trigger] builds_some(prefix, cats@, all[j]),
        decreases rest.len(),
    {
        let d = rest.remove(0);
        assert(d == all[i as int]);
        let ghost before = errors@;
        match build_route(&config.prefix, cats, d) {
            Ok(route) => {
                assert(builds_some(prefix, cats@, all[i as int]));
                if errors.len() == 0 {
                    routes.push(route);
                }
            },
            Err(kind) => {
                errors.push(BuildError { operation: i, kind });
                proof {
                    assert forall|k: int| 0 <= k < before.len() implies errors@[k] == before[k] by {}
                    assert(errors@[errors@.len() - 1].operation == i);
                    assert(reported(errors@, i as int));
                }
            },
        }
        proof {
            assert(rest@ =~= all.subrange(i + 1, all.len() as int));
            assert forall|j: int| 0 <= j < i + 1 && !reported(errors@, j) implies #[trigger] builds_some(
                prefix,
                cats@,
                all[j],
            ) by {
                if j < i {
                    if reported(before, j) {
                        let k = choose|k: int| 0 <= k < before.len() && before[k].operation == j;
                        assert(errors@[k] == before[k]);
                    }
                }
            }
        }
        i = i + 1;
    }
    if errors.len() > 0 {
        return Err(errors);
    }
    assert(i == all.len());
    Ok(ServiceDefinition { config, routes })
}

/// `a` holds the three artifacts of `def`.
pub open spec fn emitted(def: ServiceDefinition, a: Artifacts) -> bool {
    &&& a.dispatch@.map_values(|g: RouteGroup| g@) == dispatch_of(def.routes@)
    &&& a.documents@.map_values(|d: OperationDoc| d@) == def.routes@.map_values(
        |route: RouteSpec| document_of(opt_view(def.config.tag), route),
    )
    &&& a.clients@.len() == def.routes@.len()
    &&& forall|i: int| 0 <= i < def.routes@.len() ==> plans(def.routes@[i], #[trigger] a.clients@[i]@)
}

/// Emits the dispatch table, the interface documents and the client
/// procedures of a model.
pub fn emit(def: &ServiceDefinition) -> (r: Artifacts)
    ensures
        emitted(*def, r),
{
    Artifacts {
        dispatch: emit_dispatch(&def.routes),
        documents: emit_documents(&def.config.tag, &def.routes),
        clients: emit_clients(&def.routes),
    }
}

/// Translates a service: builds the model, validates it, and emits the
/// artifacts only when it is valid.
pub fn translate(config: ServiceConfig, cats: &Vec<ErrorCategory>, decls: Vec<OperationDecl>) -> (r: Result<
    (ServiceDefinition, Artifacts),
    TranslateError,
>)
    ensures
        match r {
            Ok((def, a)) => {
                &&& def.config == config
                &&& built_from(config.prefix@, cats@, decls@, def.routes@)
                &&& violations(def.routes@).len() == 0
                &&& emitted(def, a)
            },
            Err(TranslateError::Build(errors)) => reports_build(config.prefix@, cats@, decls@, errors@),
            Err(TranslateError::Invalid(found)) => {
                &&& found@.len() > 0
                &&& exists|routes: Seq<RouteSpec>|
                    built_from(config.prefix@, cats@, decls@, routes) && found@ == violations(routes)
            },
        },
{
    let def = match build_service(config, cats, decls) {
        Ok(def) => def,
        Err(errors) => return Err(TranslateError::Build(errors)),
    };
    let found = validate(&def.routes);
    if found.len() > 0 {
        return Err(TranslateError::Invalid(found));
    }
    let a = emit(&def);
    Ok((def, a))
}

} // verus!
