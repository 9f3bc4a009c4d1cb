//! Whole-model checks made before anything is emitted. Every violation is
//! reported, each with the index of the operation it concerns.
use crate::arguments::{braced, is_placeholder, is_placeholder_exec, ArgKind};
use crate::method::routed_method;
use crate::model::RouteSpec;
use crate::taxonomy::{first_repeated_key, keys_distinct};
use crate::text::{chars_of, occurs_at, string_of_range};
use vstd::prelude::*;

verus! {

#[derive(Clone, Copy, Debug, PartialEq, Eq, Structural)]
pub enum ViolationKind {
    /// Another, earlier operation has the same id.
    DuplicateOperationId,
    /// Placeholders of the path and Path arguments are not one for one.
    PlaceholderMismatch,
    /// An earlier operation of a shared group has the same path and method.
    DuplicateRoute,
    /// Two entries of the error taxonomy share a key.
    DuplicateErrorKey,
}

#[derive(Clone, Copy, Debug, PartialEq, Eq, Structural)]
pub struct Violation {
    pub operation: usize,
    pub kind: ViolationKind,
}

pub open spec fn brace_free(n: Seq<char>) -> bool {
    forall|k: int| 0 <= k < n.len() ==> n[k] != '{' && n[k] != '}'
}

/// `n` is the name of a placeholder `{n}` of the path.
pub open spec fn is_placeholder_name(path: Seq<char>, n: Seq<char>) -> bool {
    brace_free(n) && is_placeholder(path, n)
}

/// Placeholders and Path arguments correspond one for one: each Path
/// argument names a placeholder, no two name the same one, and each
/// placeholder is named.
pub open spec fn path_args_match(route: RouteSpec) -> bool {
    let args = route.arguments@;
    let path = route.path@;
    &&& forall|a: int|
        0 <= a < args.len() && args[a].kind == ArgKind::Path ==> is_placeholder_name(path, #[trigger] args[a].name@)
    &&& forall|a: int, b: int|
        0 <= a < b < args.len() && args[a].kind == ArgKind::Path && args[b].kind == ArgKind::Path
            ==> args[a].name@ != args[b].name@
    &&& forall|n: Seq<char>|
        is_placeholder_name(path, n) ==> exists|a: int|
            0 <= a < args.len() && args[a].kind == ArgKind::Path && #[trigger] args[a].name@ == n
}

pub open spec fn repeats_id(routes: Seq<RouteSpec>, i: int) -> bool {
    exists|j: int| 0 <= j < i && routes[j].operation_id@ == routes[i].operation_id@
}

pub open spec fn share_group(a: RouteSpec, b: RouteSpec) -> bool {
    exists|g: int, h: int|
        0 <= g < a.groups@.len() && 0 <= h < b.groups@.len() && a.groups@[g]@ == b.groups@[h]@
}

/// An earlier route of a shared group has the same path and routed method.
pub open spec fn repeats_route(routes: Seq<RouteSpec>, i: int) -> bool {
    exists|j: int|
        0 <= j < i && routes[j].path@ == routes[i].path@ && routed_method(routes[j].method)
            == routed_method(routes[i].method) && share_group(routes[j], routes[i])
}

pub open spec fn one_if(cond: bool, v: Violation) -> Seq<Violation> {
    if cond {
        seq![v]
    } else {
        seq![]
    }
}

/// The violations of route `i`, in the order of the kinds.
pub open spec fn route_violations(routes: Seq<RouteSpec>, i: int) -> Seq<Violation> {
    let op = i as usize;
    one_if(repeats_id(routes, i), Violation { operation: op, kind: ViolationKind::DuplicateOperationId })
        + one_if(!path_args_match(routes[i]), Violation { operation: op, kind: ViolationKind::PlaceholderMismatch })
        + one_if(repeats_route(routes, i), Violation { operation: op, kind: ViolationKind::DuplicateRoute })
        + one_if(!keys_distinct(routes[i].taxonomy.views()), Violation { operation: op, kind: ViolationKind::DuplicateErrorKey })
}

/// The violations of the first `n` routes, route by route.
pub open spec fn violations_upto(routes: Seq<RouteSpec>, n: int) -> Seq<Violation>
    decreases n,
{
    if n <= 0 {
        seq![]
    } else {
        violations_upto(routes, n - 1) + route_violations(routes, n - 1)
    }
}

/// All violations of the model.
pub open spec fn violations(routes: Seq<RouteSpec>) -> Seq<Violation> {
    violations_upto(routes, routes.len() as int)
}

/// `{n}` occurs in the path at position `m`.
pub open spec fn placeholder_at(path: Seq<char>, n: Seq<char>, m: int) -> bool {
    occurs_at(path, braced(n), m)
}

/// The names of the placeholders `{name}` of a path, in order of appearance.
pub fn placeholders(path: &String) -> (r: Vec<String>)
    ensures
        forall|k: int| 0 <= k < r@.len() ==> is_placeholder_name(path@, #[trigger] r@[k]@),
        forall|n: Seq<char>|
            is_placeholder_name(path@, n) ==> exists|k: int| 0 <= k < r@.len() && #[trigger] r@[k]@ == n,
{
    let c = chars_of(path.as_str());
    let len = c.len();
    let mut out: Vec<String> = Vec::new();
    let mut i: usize = 0;
    while i < len
        invariant
            len == c@.len(),
            c@ == path@,
            i <= len,
            forall|k: int| 0 <= k < out@.len() ==> is_placeholder_name(path@, #[trigger] out@[k]@),
            forall|n: Seq<char>, m: int|
                0 <= m < i && brace_free(n) && #[trigger] placeholder_at(path@, n, m)
                    ==> exists|k: int| 0 <= k < out@.len() && #[trigger] out@[k]@ == n,
        decreases len - i,
    {
        let ghost before = out@;
        if c[i] == '{' {
            let mut j: usize = i + 1;
            while j < len && c[j] != '{' && c[j] != '}'
                invariant
                    before == out@,
                    len == c@.len(),
                    i < j <= len,
                    c@[i as int] == '{',
                    forall|m: int| i < m < j ==> c@[m] != '{' && c@[m] != '}',
                decreases len - j,
            {
                j = j + 1;
            }
            if j < len && c[j] == '}' {
                let name = string_of_range(path.as_str(), i + 1, j);
                proof {
                    assert(brace_free(name@));
                    assert(path@.subrange(i as int, j + 1) =~= braced(name@));
                    assert(placeholder_at(path@, name@, i as int));
                }
                out.push(name);
            }
            proof {
                assert forall|n: Seq<char>|
                    brace_free(n) && #[trigger] placeholder_at(path@, n, i as int)
                        implies exists|k: int| 0 <= k < out@.len() && #[trigger] out@[k]@ == n by {
                    let w = braced(n);
                    let e = i + 1 + n.len();
                    assert(path@.subrange(i as int, i + w.len()) == w);
                    assert forall|m: int| i < m < e implies c@[m] != '{' && c@[m] != '}' by {
                        assert(w[m - i] == path@[m]);
                        assert(w[m - i] == n[m - i - 1]);
                    }
                    assert(w[n.len() + 1int] == '}');
                    assert(path@[e] == w[e - i]);
                    if j < e {
                        assert(c@[j as int] == '{' || c@[j as int] == '}');
                    }
                    assert(j == e);
                    let k = out@.len() - 1;
                    assert(out@[k]@ =~= n) by {
                        assert forall|t: int| 0 <= t < n.len() implies out@[k]@[t] == n[t] by {
                            assert(w[t + 1] == path@[i + 1 + t]);
                        }
                    }
                }
            }
        } else {
            proof {
                assert forall|n: Seq<char>|
                    brace_free(n) && #[trigger] placeholder_at(path@, n, i as int) implies false by {
                    let w = braced(n);
                    assert(path@.subrange(i as int, i + w.len())[0] == w[0]);
                }
            }
        }
        proof {
            assert forall|n: Seq<char>, m: int|
                0 <= m < i && brace_free(n) && #[trigger] placeholder_at(path@, n, m)
                    implies exists|k: int| 0 <= k < out@.len() && #[trigger] out@[k]@ == n by {
                let k = choose|k: int| 0 <= k < before.len() && #[trigger] before[k]@ == n;
                assert(out@[k] == before[k]);
            }
        }
        i = i + 1;
    }
    proof {
        assert forall|n: Seq<char>|
            is_placeholder_name(path@, n) implies exists|k: int| 0 <= k < out@.len() && #[trigger] out@[k]@ == n by {
            let m = choose|m: int| occurs_at(path@, braced(n), m);
            assert(placeholder_at(path@, n, m));
            assert(m < len);
        }
    }
    out
}

fn brace_free_exec(s: &String) -> (r: bool)
    ensures
        r == brace_free(s@),
{
    let c = chars_of(s.as_str());
    let mut k: usize = 0;
    while k < c.len()
        invariant
            c@ == s@,
            k <= c@.len(),
            forall|m: int| 0 <= m < k ==> c@[m] != '{' && c@[m] != '}',
        decreases c.len() - k,
    {
        if c[k] == '{' || c[k] == '}' {
            return false;
        }
        k = k + 1;
    }
    true
}

/// Whether the placeholders of the route's path and its Path arguments
/// correspond one for one.
pub fn path_args_match_exec(route: &RouteSpec) -> (r: bool)
    ensures
        r == path_args_match(*route),
{
    let args = &route.arguments;
    let mut a: usize = 0;
    while a < args.len()
        invariant
            *args == route.arguments,
            a <= args@.len(),
            forall|x: int|
                0 <= x < a && args@[x].kind == ArgKind::Path ==> is_placeholder_name(route.path@, #[trigger] args@[x].name@),
            forall|x: int, y: int|
                0 <= x < y < a && args@[x].kind == ArgKind::Path && args@[y].kind == ArgKind::Path
                    ==> args@[x].name@ != args@[y].name@,
        decreases args.len() - a,
    {
        if args[a].kind == ArgKind::Path {
            if !is_placeholder_exec(&route.path, &args[a].name) || !brace_free_exec(&args[a].name) {
                return false;
            }
            let mut b: usize = 0;
            while b < a
                invariant
                    *args == route.arguments,
                    b <= a < args@.len(),
                    args@[a as int].kind == ArgKind::Path,
                    forall|x: int|
                        0 <= x < b && args@[x].kind == ArgKind::Path ==> args@[x].name@ != args@[a as int].name@,
                decreases a - b,
            {
                if args[b].kind == ArgKind::Path && args[b].name == args[a].name {
                    return false;
                }
                b = b + 1;
            }
        }
        a = a + 1;
    }
    let names = placeholders(&route.path);
    let mut k: usize = 0;
    while k < names.len()
        invariant
            *args == route.arguments,
            k <= names@.len(),
            forall|x: int| 0 <= x < names@.len() ==> is_placeholder_name(route.path@, #[trigger] names@[x]@),
            forall|x: int|
                0 <= x < k ==> exists|y: int|
                    0 <= y < args@.len() && args@[y].kind == ArgKind::Path && #[trigger] args@[y].name@
                        == #[trigger] names@[x]@,
        decreases names.len() - k,
    {
        let mut found = false;
        let mut b: usize = 0;
        while b < args.len()
            invariant
                *args == route.arguments,
                k < names@.len(),
                b <= args@.len(),
                found ==> exists|y: int|
                    0 <= y < args@.len() && args@[y].kind == ArgKind::Path && #[trigger] args@[y].name@
                        == names@[k as int]@,
                !found ==> forall|y: int|
                    0 <= y < b ==> !(args@[y].kind == ArgKind::Path && #[trigger] args@[y].name@
                        == names@[k as int]@),
            decreases args.len() - b,
        {
            if args[b].kind == ArgKind::Path && args[b].name == names[k] {
                found = true;
            }
            b = b + 1;
        }
        if !found {
            assert(is_placeholder_name(route.path@, names@[k as int]@));
            return false;
        }
        k = k + 1;
    }
    proof {
        assert forall|n: Seq<char>| is_placeholder_name(route.path@, n) implies exists|y: int|
            0 <= y < args@.len() && args@[y].kind == ArgKind::Path && #[trigger] args@[y].name@ == n by {
            let x = choose|x: int| 0 <= x < names@.len() && #[trigger] names@[x]@ == n;
            assert(exists|y: int|
                0 <= y < args@.len() && args@[y].kind == ArgKind::Path && #[trigger] args@[y].name@
                    == #[trigger] names@[x]@);
        }
    }
    true
}

fn repeats_id_exec(routes: &Vec<RouteSpec>, i: usize) -> (r: bool)
    requires
        i < routes@.len(),
    ensures
        r == repeats_id(routes@, i as int),
{
    let mut j: usize = 0;
    while j < i
        invariant
            i < routes@.len(),
            j <= i,
            forall|m: int| 0 <= m < j ==> routes@[m].operation_id@ != routes@[i as int].operation_id@,
        decreases i - j,
    {
        if routes[j].operation_id == routes[i].operation_id {
            return true;
        }
        j = j + 1;
    }
    false
}

fn share_group_exec(a: &RouteSpec, b: &RouteSpec) -> (r: bool)
    ensures
        r == share_group(*a, *b),
{
    let mut g: usize = 0;
    while g < a.groups.len()
        invariant
            g <= a.groups@.len(),
            forall|x: int, y: int|
                0 <= x < g && 0 <= y < b.groups@.len() ==> a.groups@[x]@ != b.groups@[y]@,
        decreases a.groups.len() - g,
    {
        let mut h: usize = 0;
        while h < b.groups.len()
            invariant
                g < a.groups@.len(),
                h <= b.groups@.len(),
                forall|x: int, y: int|
                    0 <= x < g && 0 <= y < b.groups@.len() ==> a.groups@[x]@ != b.groups@[y]@,
                forall|y: int| 0 <= y < h ==> a.groups@[g as int]@ != b.groups@[y]@,
            decreases b.groups.len() - h,
        {
            if a.groups[g] == b.groups[h] {
                return true;
            }
            h = h + 1;
        }
        g = g + 1;
    }
    false
}

fn repeats_route_exec(routes: &Vec<RouteSpec>, i: usize) -> (r: bool)
    requires
        i < routes@.len(),
    ensures
        r == repeats_route(routes@, i as int),
{
    let mut j: usize = 0;
    while j < i
        invariant
            i < routes@.len(),
            j <= i,
            forall|m: int|
                0 <= m < j ==> !(routes@[m].path@ == routes@[i as int].path@ && routed_method(
                    routes@[m].method,
                ) == routed_method(routes@[i as int].method) && share_group(
                    routes@[m],
                    routes@[i as int],
                )),
        decreases i - j,
    {
        if routes[j].path == routes[i].path && routes[j].method.routed() == routes[i].method.routed()
            && share_group_exec(&routes[j], &routes[i]) {
            return true;
        }
        j = j + 1;
    }
    false
}

/// The violations of route `i`, in the order of the kinds.
pub fn route_violations_exec(routes: &Vec<RouteSpec>, i: usize) -> (r: Vec<Violation>)
    requires
        i < routes@.len(),
    ensures
        r@ == route_violations(routes@, i as int),
{
    let mut out: Vec<Violation> = Vec::new();
    if repeats_id_exec(routes, i) {
        out.push(Violation { operation: i, kind: ViolationKind::DuplicateOperationId });
    }
    if !path_args_match_exec(&routes[i]) {
        out.push(Violation { operation: i, kind: ViolationKind::PlaceholderMismatch });
    }
    if repeats_route_exec(routes, i) {
        out.push(Violation { operation: i, kind: ViolationKind::DuplicateRoute });
    }
    if first_repeated_key(&routes[i].taxonomy.entries).is_some() {
        out.push(Violation { operation: i, kind: ViolationKind::DuplicateErrorKey });
    }
    assert(out@ =~= route_violations(routes@, i as int));
    out
}

/// Checks the whole model and reports every violation, route by route.
pub fn validate(routes: &Vec<RouteSpec>) -> (r: Vec<Violation>)
    ensures
        r@ == violations(routes@),
{
    let mut out: Vec<Violation> = Vec::new();
    let mut i: usize = 0;
    while i < routes.len()
        invariant
            i <= routes@.len(),
            out@ == violations_upto(routes@, i as int),
        decreases routes.len() - i,
    {
        let mut v = route_violations_exec(routes, i);
        out.append(&mut v);
        i = i + 1;
    }
    out
}

} // verus!
