//! The dispatch table: per route group, the operations it serves.
use crate::method::{routed_method, HttpMethod};
use crate::model::{default_group, string_views, with_auth_group, without_auth_group, RouteSpec};
use vstd::prelude::*;

verus! {

/// One registered operation: route index, id, path template and the method
/// it is routed under. The handler binding is the route index.
pub struct DispatchEntry {
    pub route: usize,
    pub operation_id: String,
    pub path: String,
    pub method: HttpMethod,
}

/// A named group and the operations it serves, in route order.
pub struct RouteGroup {
    pub name: String,
    pub entries: Vec<DispatchEntry>,
}

pub struct DispatchEntryView {
    pub route: usize,
    pub operation_id: Seq<char>,
    pub path: Seq<char>,
    pub method: HttpMethod,
}

pub struct RouteGroupView {
    pub name: Seq<char>,
    pub entries: Seq<DispatchEntryView>,
}

impl View for DispatchEntry {
    type V = DispatchEntryView;

    open spec fn view(&self) -> DispatchEntryView {
        DispatchEntryView {
            route: self.route,
            operation_id: self.operation_id@,
            path: self.path@,
            method: self.method,
        }
    }
}

impl View for RouteGroup {
    type V = RouteGroupView;

    open spec fn view(&self) -> RouteGroupView {
        RouteGroupView { name: self.name@, entries: self.entries@.map_values(|e: DispatchEntry| e@) }
    }
}

pub open spec fn implicit_groups() -> Seq<Seq<char>> {
    seq![default_group(), with_auth_group(), without_auth_group()]
}

/// The group names of the first `n` routes, route by route.
pub open spec fn flat_groups(routes: Seq<RouteSpec>, n: int) -> Seq<Seq<char>>
    decreases n,
{
    if n <= 0 {
        seq![]
    } else {
        flat_groups(routes, n - 1) + string_views(routes[n - 1].groups@)
    }
}

/// `s` without repeats, each kept where it first appears.
pub open spec fn dedup(s: Seq<Seq<char>>) -> Seq<Seq<char>>
    decreases s.len(),
{
    if s.len() == 0 {
        seq![]
    } else {
        let d = dedup(s.drop_last());
        if d.contains(s.last()) {
            d
        } else {
            d.push(s.last())
        }
    }
}

/// The groups of the table: the three implicit ones, then the explicit ones
/// in order of first appearance.
pub open spec fn group_names(routes: Seq<RouteSpec>) -> Seq<Seq<char>> {
    dedup(implicit_groups() + flat_groups(routes, routes.len() as int))
}

pub open spec fn in_group(route: RouteSpec, g: Seq<char>) -> bool {
    string_views(route.groups@).contains(g)
}

pub open spec fn entry_of(routes: Seq<RouteSpec>, i: int) -> DispatchEntryView {
    DispatchEntryView {
        route: i as usize,
        operation_id: routes[i].operation_id@,
        path: routes[i].path@,
        method: routed_method(routes[i].method),
    }
}

/// The entries of group `g` among the first `n` routes.
pub open spec fn members(routes: Seq<RouteSpec>, g: Seq<char>, n: int) -> Seq<DispatchEntryView>
    decreases n,
{
    if n <= 0 {
        seq![]
    } else if in_group(routes[n - 1], g) {
        members(routes, g, n - 1).push(entry_of(routes, n - 1))
    } else {
        members(routes, g, n - 1)
    }
}

/// The dispatch table of a model.
pub open spec fn dispatch_of(routes: Seq<RouteSpec>) -> Seq<RouteGroupView> {
    group_names(routes).map_values(
        |g: Seq<char>| RouteGroupView { name: g, entries: members(routes, g, routes.len() as int) },
    )
}

fn contains_string(v: &Vec<String>, s: &String) -> (r: bool)
    ensures
        r == string_views(v@).contains(s@),
{
    let mut i: usize = 0;
    while i < v.len()
        invariant
            i <= v@.len(),
            forall|j: int| 0 <= j < i ==> v@[j]@ != s@,
        decreases v.len() - i,
    {
        if v[i] == *s {
            assert(string_views(v@)[i as int] == s@);
            return true;
        }
        i = i + 1;
    }
    assert(!string_views(v@).contains(s@)) by {
        if string_views(v@).contains(s@) {
            let j = choose|j: int| 0 <= j < v@.len() && string_views(v@)[j] == s@;
            assert(v@[j]@ == s@);
        }
    }
    false
}

pub(crate) fn push_new(names: &mut Vec<String>, g: &String)
    ensures
        string_views(final(names)@) == if string_views(old(names)@).contains(g@) {
            string_views(old(names)@)
        } else {
            string_views(old(names)@).push(g@)
        },
{
    if !contains_string(names, g) {
        names.push(g.clone());
        assert(string_views(final(names)@) =~= string_views(old(names)@).push(g@));
    }
}

/// The group names of a model, in table order.
pub fn group_names_exec(routes: &Vec<RouteSpec>) -> (r: Vec<String>)
    ensures
        string_views(r@) == group_names(routes@),
{
    let mut names: Vec<String> = Vec::new();
    let ghost prefix: Seq<Seq<char>> = seq![];
    let implicit = [String::from_str("default"), String::from_str("with_auth"), String::from_str("without_auth")];
    assert(dedup(seq![]) == Seq::<Seq<char>>::empty());
    let mut k: usize = 0;
    while k < 3
        invariant
            k <= 3,
            implicit@.len() == 3,
            implicit@[0]@ == default_group(),
            implicit@[1]@ == with_auth_group(),
            implicit@[2]@ == without_auth_group(),
            string_views(names@) == dedup(implicit_groups().subrange(0, k as int)),
        decreases 3 - k,
    {
        push_new(&mut names, &implicit[k]);
        proof {
            assert(implicit_groups().subrange(0, k + 1).drop_last() =~= implicit_groups().subrange(0, k as int));
        }
        k = k + 1;
    }
    assert(implicit_groups().subrange(0, 3) =~= implicit_groups());
    let mut i: usize = 0;
    while i < routes.len()
        invariant
            i <= routes@.len(),
            string_views(names@) == dedup(implicit_groups() + flat_groups(routes@, i as int)),
        decreases routes.len() - i,
    {
        let groups = &routes[i].groups;
        let ghost base = implicit_groups() + flat_groups(routes@, i as int);
        let mut j: usize = 0;
        while j < groups.len()
            invariant
                i < routes@.len(),
                *groups == routes@[i as int].groups,
                j <= groups@.len(),
                base == implicit_groups() + flat_groups(routes@, i as int),
                string_views(names@) == dedup(base + string_views(groups@).subrange(0, j as int)),
            decreases groups.len() - j,
        {
            push_new(&mut names, &groups[j]);
            proof {
                let next = base + string_views(groups@).subrange(0, j + 1);
                assert(next.drop_last() =~= base + string_views(groups@).subrange(0, j as int));
                assert(next.last() == groups@[j as int]@);
            }
            j = j + 1;
        }
        proof {
            assert(string_views(groups@).subrange(0, groups@.len() as int) =~= string_views(groups@));
            assert(flat_groups(routes@, i + 1) == flat_groups(routes@, i as int) + string_views(routes@[i as int].groups@));
            assert(base + string_views(groups@) =~= implicit_groups() + flat_groups(routes@, i + 1));
        }
        i = i + 1;
    }
    names
}

fn in_group_exec(route: &RouteSpec, g: &String) -> (r: bool)
    ensures
        r == in_group(*route, g@),
{
    contains_string(&route.groups, g)
}

/// The entries of group `g`, in route order.
pub fn members_exec(routes: &Vec<RouteSpec>, g: &String) -> (r: Vec<DispatchEntry>)
    ensures
        r@.map_values(|e: DispatchEntry| e@) == members(routes@, g@, routes@.len() as int),
{
    let mut out: Vec<DispatchEntry> = Vec::new();
    let mut i: usize = 0;
    while i < routes.len()
        invariant
            i <= routes@.len(),
            out@.map_values(|e: DispatchEntry| e@) == members(routes@, g@, i as int),
        decreases routes.len() - i,
    {
        if in_group_exec(&routes[i], g) {
            let r = &routes[i];
            out.push(
                DispatchEntry {
                    route: i,
                    operation_id: r.operation_id.clone(),
                    path: r.path.clone(),
                    method: r.method.routed(),
                },
            );
            assert(out@.map_values(|e: DispatchEntry| e@) =~= members(routes@, g@, i as int).push(
                entry_of(routes@, i as int),
            ));
        }
        i = i + 1;
    }
    out
}

/// Emits the dispatch table: every group, with the operations it serves.
pub fn emit_dispatch(routes: &Vec<RouteSpec>) -> (r: Vec<RouteGroup>)
    ensures
        r@.map_values(|g: RouteGroup| g@) == dispatch_of(routes@),
{
    let names = group_names_exec(routes);
    let mut out: Vec<RouteGroup> = Vec::new();
    let mut k: usize = 0;
    while k < names.len()
        invariant
            k <= names@.len(),
            out@.len() == k,
            string_views(names@) == group_names(routes@),
            out@.map_values(|g: RouteGroup| g@) == dispatch_of(routes@).subrange(0, k as int),
        decreases names.len() - k,
    {
        let entries = members_exec(routes, &names[k]);
        let ghost before = out@;
        out.push(RouteGroup { name: names[k].clone(), entries });
        proof {
            assert(string_views(names@)[k as int] == names@[k as int]@);
            assert(group_names(routes@).len() == names@.len());
            assert(out@[k as int]@ == dispatch_of(routes@)[k as int]);
            assert(out@.subrange(0, k as int) =~= before);
        }
        assert(out@.map_values(|g: RouteGroup| g@) =~= dispatch_of(routes@).subrange(0, k + 1));
        k = k + 1;
    }
    assert(dispatch_of(routes@).subrange(0, names@.len() as int) =~= dispatch_of(routes@));
    out
}

} // verus!
