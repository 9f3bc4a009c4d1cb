//! The error taxonomy of one operation: its declared error references,
//! resolved against shared categories, with the implicit entries added and
//! the attribute mappings checked.
use crate::bridge::{converted_case, json_quoted, json_string, status_is_valid, to_case};
use crate::text::joined;
use vstd::prelude::*;

verus! {

/// One named entry of a shared category.
pub struct CategoryEntry {
    pub name: String,
    pub status: u16,
    pub message: String,
}

/// A shared, pre-declared category: entry name to status and message.
pub struct ErrorCategory {
    pub name: String,
    pub entries: Vec<CategoryEntry>,
}

/// Where a declared error comes from.
pub enum ErrorSource {
    /// An entry of a shared category, named by category and entry.
    Shared { category: String, entry: String },
    /// An entry written in place, with its own status and message.
    Inline { name: String, status: u16, message: String },
}

/// An attribute on a declared error: `attribute: *` (its default mapping,
/// `condition` is `None`) or `attribute: condition` (a specific mapping).
pub struct ErrorAttribute {
    pub attribute: String,
    pub condition: Option<String>,
}

/// One declared error of an operation.
pub struct ErrorRef {
    pub source: ErrorSource,
    pub attributes: Vec<ErrorAttribute>,
}

/// One resolved entry: its wire key, status and message.
pub struct ErrorEntry {
    pub key: String,
    pub status: u16,
    pub message: String,
}

/// The mathematical value of an entry.
pub struct EntryView {
    pub key: Seq<char>,
    pub status: u16,
    pub message: Seq<char>,
}

impl View for ErrorEntry {
    type V = EntryView;

    open spec fn view(&self) -> EntryView {
        EntryView { key: self.key@, status: self.status, message: self.message@ }
    }
}

/// The resolved taxonomy: entry 0 is the communication failure, entry 1 the
/// invalid authentication when the operation requires it, then one entry per
/// declared error, in order. The declared errors are kept for their
/// attribute mappings.
pub struct ErrorTaxonomy {
    pub entries: Vec<ErrorEntry>,
    pub declared: Vec<ErrorRef>,
    pub requires_auth: bool,
}

#[derive(Clone, Copy, Debug, PartialEq, Eq, Structural)]
pub enum TaxonomyErrorKind {
    UnknownCategory,
    UnknownEntry,
    InvalidStatus,
    DuplicateKey,
    DuplicateDefault,
    MappingWithoutDefault,
    DuplicateMapping,
    UnknownAttribute,
    UnknownCondition,
}

/// A resolution failure, with the index of the declared error it concerns
/// (`None`: the implicit authentication entry).
#[derive(Clone, Copy, Debug, PartialEq, Eq, Structural)]
pub struct TaxonomyError {
    pub kind: TaxonomyErrorKind,
    pub reference: Option<usize>,
}

pub open spec fn communication_key() -> Seq<char> {
    "communication"@
}

pub open spec fn communication_entry() -> EntryView {
    EntryView { key: communication_key(), status: 400, message: "Invalid Request/Response"@ }
}

pub open spec fn auth_category() -> Seq<char> {
    "auth"@
}

pub open spec fn auth_entry() -> Seq<char> {
    "invalid"@
}

pub open spec fn is_first_category(cats: Seq<ErrorCategory>, name: Seq<char>, i: int) -> bool {
    &&& 0 <= i < cats.len()
    &&& cats[i].name@ == name
    &&& forall|j: int| 0 <= j < i ==> cats[j].name@ != name
}

pub open spec fn has_category(cats: Seq<ErrorCategory>, name: Seq<char>) -> bool {
    exists|i: int| 0 <= i < cats.len() && cats[i].name@ == name
}

pub open spec fn first_category(cats: Seq<ErrorCategory>, name: Seq<char>) -> int {
    choose|i: int| is_first_category(cats, name, i)
}

pub open spec fn is_first_entry(entries: Seq<CategoryEntry>, name: Seq<char>, i: int) -> bool {
    &&& 0 <= i < entries.len()
    &&& entries[i].name@ == name
    &&& forall|j: int| 0 <= j < i ==> entries[j].name@ != name
}

pub open spec fn has_entry(entries: Seq<CategoryEntry>, name: Seq<char>) -> bool {
    exists|i: int| 0 <= i < entries.len() && entries[i].name@ == name
}

pub open spec fn first_entry(entries: Seq<CategoryEntry>, name: Seq<char>) -> int {
    choose|i: int| is_first_entry(entries, name, i)
}

/// The key of a shared entry: `category/entry`.
pub open spec fn shared_key(category: Seq<char>, entry: Seq<char>) -> Seq<char> {
    category + "/"@ + entry
}

/// What the entry `entry` of category `category` resolves to.
pub open spec fn shared_outcome(cats: Seq<ErrorCategory>, category: Seq<char>, entry: Seq<char>) -> Result<
    EntryView,
    TaxonomyErrorKind,
> {
    if !has_category(cats, category) {
        Err(TaxonomyErrorKind::UnknownCategory)
    } else {
        let c = cats[first_category(cats, category)];
        if !has_entry(c.entries@, entry) {
            Err(TaxonomyErrorKind::UnknownEntry)
        } else {
            let e = c.entries@[first_entry(c.entries@, entry)];
            Ok(EntryView { key: shared_key(category, entry), status: e.status, message: e.message@ })
        }
    }
}

/// What a declared error resolves to.
pub open spec fn source_outcome(cats: Seq<ErrorCategory>, src: ErrorSource) -> Result<
    EntryView,
    TaxonomyErrorKind,
> {
    match src {
        ErrorSource::Shared { category, entry } => shared_outcome(cats, category@, entry@),
        ErrorSource::Inline { name, status, message } => {
            if 100 <= status <= 999 {
                Ok(EntryView { key: converted_case(name@, false), status, message: message@ })
            } else {
                Err(TaxonomyErrorKind::InvalidStatus)
            }
        },
    }
}

/// Where the declared errors start among the entries.
pub open spec fn declared_offset(requires_auth: bool) -> int {
    if requires_auth {
        2
    } else {
        1
    }
}

/// `entries` is the resolution of `refs`, with the implicit entries first.
pub open spec fn entries_resolve(
    cats: Seq<ErrorCategory>,
    refs: Seq<ErrorRef>,
    requires_auth: bool,
    entries: Seq<EntryView>,
) -> bool {
    let off = declared_offset(requires_auth);
    &&& entries.len() == refs.len() + off
    &&& entries[0] == communication_entry()
    &&& requires_auth ==> shared_outcome(cats, auth_category(), auth_entry()) == Ok::<
        EntryView,
        TaxonomyErrorKind,
    >(entries[1])
    &&& forall|i: int|
        0 <= i < refs.len() ==> source_outcome(cats, refs[i].source) == Ok::<
            EntryView,
            TaxonomyErrorKind,
        >(entries[off + i])
}

/// Every reference (and the implicit authentication entry) resolves.
pub open spec fn all_resolve(cats: Seq<ErrorCategory>, refs: Seq<ErrorRef>, requires_auth: bool) -> bool {
    &&& requires_auth ==> shared_outcome(cats, auth_category(), auth_entry()) is Ok
    &&& forall|i: int| 0 <= i < refs.len() ==> source_outcome(cats, refs[i].source) is Ok
}

/// `e` is the first resolution failure.
pub open spec fn is_resolution_failure(
    cats: Seq<ErrorCategory>,
    refs: Seq<ErrorRef>,
    requires_auth: bool,
    e: TaxonomyError,
) -> bool {
    match e.reference {
        None => requires_auth && shared_outcome(cats, auth_category(), auth_entry()) == Err::<
            EntryView,
            TaxonomyErrorKind,
        >(e.kind),
        Some(i) => {
            &&& i < refs.len()
            &&& requires_auth ==> shared_outcome(cats, auth_category(), auth_entry()) is Ok
            &&& forall|j: int| 0 <= j < i ==> source_outcome(cats, refs[j].source) is Ok
            &&& source_outcome(cats, refs[i as int].source) == Err::<EntryView, TaxonomyErrorKind>(
                e.kind,
            )
        },
    }
}

fn find_category(cats: &Vec<ErrorCategory>, name: &String) -> (r: Option<usize>)
    ensures
        match r {
            Some(i) => is_first_category(cats@, name@, i as int),
            None => !has_category(cats@, name@),
        },
{
    let mut i: usize = 0;
    while i < cats.len()
        invariant
            i <= cats@.len(),
            forall|j: int| 0 <= j < i ==> cats@[j].name@ != name@,
        decreases cats.len() - i,
    {
        if cats[i].name == *name {
            return Some(i);
        }
        i = i + 1;
    }
    None
}

fn find_entry(entries: &Vec<CategoryEntry>, name: &String) -> (r: Option<usize>)
    ensures
        match r {
            Some(i) => is_first_entry(entries@, name@, i as int),
            None => !has_entry(entries@, name@),
        },
{
    let mut i: usize = 0;
    while i < entries.len()
        invariant
            i <= entries@.len(),
            forall|j: int| 0 <= j < i ==> entries@[j].name@ != name@,
        decreases entries.len() - i,
    {
        if entries[i].name == *name {
            return Some(i);
        }
        i = i + 1;
    }
    None
}

/// Looks up entry `entry` of category `category`.
pub fn resolve_shared(cats: &Vec<ErrorCategory>, category: &String, entry: &String) -> (r: Result<
    ErrorEntry,
    TaxonomyErrorKind,
>)
    ensures
        match r {
            Ok(e) => shared_outcome(cats@, category@, entry@) == Ok::<EntryView, TaxonomyErrorKind>(e@),
            Err(k) => shared_outcome(cats@, category@, entry@) == Err::<EntryView, TaxonomyErrorKind>(k),
        },
{
    let ci = match find_category(cats, category) {
        Some(ci) => ci,
        None => return Err(TaxonomyErrorKind::UnknownCategory),
    };
    proof {
        assert(has_category(cats@, category@));
        let f = first_category(cats@, category@);
        assert(is_first_category(cats@, category@, f));
        if f < ci {
        } else if ci < f {
        }
        assert(f == ci);
    }
    let c = &cats[ci];
    let ei = match find_entry(&c.entries, entry) {
        Some(ei) => ei,
        None => return Err(TaxonomyErrorKind::UnknownEntry),
    };
    proof {
        assert(has_entry(c.entries@, entry@));
        let f = first_entry(c.entries@, entry@);
        assert(is_first_entry(c.entries@, entry@, f));
        if f < ei {
        } else if ei < f {
        }
        assert(f == ei);
    }
    let found = &c.entries[ei];
    let key = joined(&joined(category.as_str(), "/"), entry.as_str());
    Ok(ErrorEntry { key, status: found.status, message: found.message.clone() })
}

/// Resolves one declared error.
pub fn resolve_source(cats: &Vec<ErrorCategory>, src: &ErrorSource) -> (r: Result<
    ErrorEntry,
    TaxonomyErrorKind,
>)
    ensures
        match r {
            Ok(e) => source_outcome(cats@, *src) == Ok::<EntryView, TaxonomyErrorKind>(e@),
            Err(k) => source_outcome(cats@, *src) == Err::<EntryView, TaxonomyErrorKind>(k),
        },
{
    match src {
        ErrorSource::Shared { category, entry } => resolve_shared(cats, category, entry),
        ErrorSource::Inline { name, status, message } => {
            if !status_is_valid(*status) {
                return Err(TaxonomyErrorKind::InvalidStatus);
            }
            let key = to_case(name.as_str(), false);
            Ok(ErrorEntry { key, status: *status, message: message.clone() })
        },
    }
}

/// The communication-failure entry.
pub fn communication() -> (r: ErrorEntry)
    ensures
        r@ == communication_entry(),
{
    ErrorEntry {
        key: String::from_str("communication"),
        status: 400,
        message: String::from_str("Invalid Request/Response"),
    }
}

pub open spec fn entry_views(entries: Seq<ErrorEntry>) -> Seq<EntryView> {
    entries.map_values(|e: ErrorEntry| e@)
}

/// Resolves every declared error, after the implicit entries; fails on the
/// first one that does not resolve.
pub fn resolve_entries(cats: &Vec<ErrorCategory>, refs: &Vec<ErrorRef>, requires_auth: bool) -> (r:
    Result<Vec<ErrorEntry>, TaxonomyError>)
    ensures
        match r {
            Ok(entries) => all_resolve(cats@, refs@, requires_auth) && entries_resolve(
                cats@,
                refs@,
                requires_auth,
                entry_views(entries@),
            ),
            Err(e) => !all_resolve(cats@, refs@, requires_auth) && is_resolution_failure(
                cats@,
                refs@,
                requires_auth,
                e,
            ),
        },
{
    let mut entries: Vec<ErrorEntry> = Vec::new();
    entries.push(communication());
    if requires_auth {
        let category = String::from_str("auth");
        let entry = String::from_str("invalid");
        match resolve_shared(cats, &category, &entry) {
            Ok(e) => entries.push(e),
            Err(kind) => {
                return Err(TaxonomyError { kind, reference: None });
            },
        }
    }
    let ghost off = declared_offset(requires_auth);
    let mut i: usize = 0;
    while i < refs.len()
        invariant
            i <= refs@.len(),
            entries@.len() == i + off,
            off == declared_offset(requires_auth),
            entries@[0]@ == communication_entry(),
            requires_auth ==> shared_outcome(cats@, auth_category(), auth_entry()) == Ok::<
                EntryView,
                TaxonomyErrorKind,
            >(entries@[1]@),
            forall|j: int|
                0 <= j < i ==> source_outcome(cats@, refs@[j].source) == Ok::<
                    EntryView,
                    TaxonomyErrorKind,
                >(entries@[off + j]@),
        decreases refs.len() - i,
    {
        match resolve_source(cats, &refs[i].source) {
            Ok(e) => entries.push(e),
            Err(kind) => {
                return Err(TaxonomyError { kind, reference: Some(i) });
            },
        }
        i = i + 1;
    }
    proof {
        let v = entry_views(entries@);
        assert forall|j: int| 0 <= j < refs@.len() implies source_outcome(cats@, refs@[j].source)
            == Ok::<EntryView, TaxonomyErrorKind>(v[off + j]) by {}
    }
    Ok(entries)
}

/// The key of entry `k` repeats an earlier one.
pub open spec fn repeats_key(entries: Seq<EntryView>, k: int) -> bool {
    exists|j: int| 0 <= j < k && entries[j].key == entries[k].key
}

/// Keys are pairwise distinct.
pub open spec fn keys_distinct(entries: Seq<EntryView>) -> bool {
    forall|a: int, b: int| 0 <= a < b < entries.len() ==> entries[a].key != entries[b].key
}

/// The first entry whose key repeats an earlier one, if any.
pub fn first_repeated_key(entries: &Vec<ErrorEntry>) -> (r: Option<usize>)
    ensures
        match r {
            Some(k) => k < entries@.len() && repeats_key(entry_views(entries@), k as int) && forall|
                m: int,
            |
                0 <= m < k ==> !repeats_key(entry_views(entries@), m),
            None => keys_distinct(entry_views(entries@)),
        },
{
    let ghost v = entry_views(entries@);
    let mut k: usize = 0;
    while k < entries.len()
        invariant
            k <= entries@.len(),
            v == entry_views(entries@),
            forall|m: int| 0 <= m < k ==> !repeats_key(v, m),
        decreases entries.len() - k,
    {
        let mut j: usize = 0;
        while j < k
            invariant
                j <= k < entries@.len(),
                v == entry_views(entries@),
                forall|m: int| 0 <= m < j ==> v[m].key != v[k as int].key,
                forall|m: int| 0 <= m < k ==> !repeats_key(v, m),
            decreases k - j,
        {
            if entries[j].key == entries[k].key {
                assert(v[j as int].key == v[k as int].key);
                return Some(k);
            }
            j = j + 1;
        }
        k = k + 1;
    }
    proof {
        assert forall|a: int, b: int| 0 <= a < b < v.len() implies v[a].key != v[b].key by {
            assert(!repeats_key(v, b));
        }
    }
    None
}

pub open spec fn at_pos(refs: Seq<ErrorRef>, i: int, p: int) -> ErrorAttribute {
    refs[i].attributes@[p]
}

pub open spec fn valid_pos(refs: Seq<ErrorRef>, i: int, p: int) -> bool {
    0 <= i < refs.len() && 0 <= p < refs[i].attributes@.len()
}

/// Position `(j, q)` comes before `(i, p)` in declaration order.
pub open spec fn before(j: int, q: int, i: int, p: int) -> bool {
    j < i || (j == i && q < p)
}

/// Two attributes clash: both defaults of one attribute (`mapping` false),
/// or both the same specific mapping (`mapping` true).
pub open spec fn clash(x: ErrorAttribute, y: ErrorAttribute, mapping: bool) -> bool {
    &&& x.attribute@ == y.attribute@
    &&& if mapping {
        x.condition is Some && y.condition is Some && x.condition->0@ == y.condition->0@
    } else {
        x.condition is None && y.condition is None
    }
}

/// Some attribute of declared error `i` clashes with an earlier one.
pub open spec fn repeats_at(refs: Seq<ErrorRef>, i: int, mapping: bool) -> bool {
    exists|p: int, j: int, q: int|
        valid_pos(refs, i, p) && valid_pos(refs, j, q) && before(j, q, i, p) && clash(
            #[trigger] at_pos(refs, i, p),
            #[trigger] at_pos(refs, j, q),
            mapping,
        )
}

/// Some declared error gives `attribute` a default mapping.
pub open spec fn has_default(refs: Seq<ErrorRef>, attribute: Seq<char>) -> bool {
    exists|i: int, p: int|
        valid_pos(refs, i, p) && #[trigger] at_pos(refs, i, p).attribute@ == attribute && at_pos(
            refs,
            i,
            p,
        ).condition is None
}

/// Declared error `i` maps a condition of an attribute that has no default.
pub open spec fn lacks_default_at(refs: Seq<ErrorRef>, i: int) -> bool {
    exists|p: int|
        valid_pos(refs, i, p) && #[trigger] at_pos(refs, i, p).condition is Some && !has_default(
            refs,
            at_pos(refs, i, p).attribute@,
        )
}

pub open spec fn known_attribute(a: Seq<char>) -> bool {
    a == "io"@ || a == "sql"@ || a == "redis"@
}

/// The specific conditions an attribute accepts: any for `io`, four for
/// `sql`, none for `redis`.
pub open spec fn known_condition(a: Seq<char>, c: Seq<char>) -> bool {
    ||| a == "io"@
    ||| a == "sql"@ && (c == "not_found"@ || c == "check"@ || c == "foreign_key"@ || c == "unique"@)
}

pub open spec fn unknown_attribute_at(refs: Seq<ErrorRef>, i: int) -> bool {
    exists|p: int| valid_pos(refs, i, p) && !known_attribute(#[trigger] at_pos(refs, i, p).attribute@)
}

pub open spec fn unknown_condition_at(refs: Seq<ErrorRef>, i: int) -> bool {
    exists|p: int|
        valid_pos(refs, i, p) && #[trigger] at_pos(refs, i, p).condition is Some && !known_condition(
            at_pos(refs, i, p).attribute@,
            at_pos(refs, i, p).condition->0@,
        )
}

fn clashes(x: &ErrorAttribute, y: &ErrorAttribute, mapping: bool) -> (r: bool)
    ensures
        r == clash(*x, *y, mapping),
{
    if x.attribute != y.attribute {
        return false;
    }
    match (&x.condition, &y.condition) {
        (Some(a), Some(b)) => mapping && *a == *b,
        (None, None) => !mapping,
        _ => false,
    }
}

/// Whether an attribute of declared error `i` clashes with an earlier one.
fn repeats_at_exec(refs: &Vec<ErrorRef>, i: usize, mapping: bool) -> (r: bool)
    requires
        i < refs@.len(),
    ensures
        r == repeats_at(refs@, i as int, mapping),
{
    let attrs = &refs[i].attributes;
    let n = refs.len();
    let mut p: usize = 0;
    while p < attrs.len()
        invariant
            i < refs@.len(),
            n == refs@.len(),
            *attrs == refs@[i as int].attributes,
            p <= attrs@.len(),
            forall|pp: int, j: int, q: int|
                0 <= pp < p && valid_pos(refs@, j, q) && before(j, q, i as int, pp) ==> !clash(
                    #[trigger] at_pos(refs@, i as int, pp),
                    #[trigger] at_pos(refs@, j, q),
                    mapping,
                ),
        decreases attrs.len() - p,
    {
        let mut j: usize = 0;
        while j <= i
            invariant
                i < refs@.len(),
                n == refs@.len(),
                *attrs == refs@[i as int].attributes,
                p < attrs@.len(),
                j <= i + 1,
                forall|pp: int, jj: int, q: int|
                    0 <= pp < p && valid_pos(refs@, jj, q) && before(jj, q, i as int, pp) ==> !clash(
                        #[trigger] at_pos(refs@, i as int, pp),
                        #[trigger] at_pos(refs@, jj, q),
                        mapping,
                    ),
                forall|jj: int, q: int|
                    0 <= jj < j && valid_pos(refs@, jj, q) && before(jj, q, i as int, p as int)
                        ==> !clash(at_pos(refs@, i as int, p as int), #[trigger] at_pos(refs@, jj, q), mapping),
            decreases i + 1 - j,
        {
            let other = &refs[j].attributes;
            let limit = if j == i { p } else { other.len() };
            let mut q: usize = 0;
            while q < limit
                invariant
                    i < refs@.len(),
                    j <= i,
                    *attrs == refs@[i as int].attributes,
                    *other == refs@[j as int].attributes,
                    p < attrs@.len(),
                    limit == (if j == i { p as int } else { other@.len() as int }),
                    q <= limit,
                    forall|qq: int|
                        0 <= qq < q ==> !clash(
                            at_pos(refs@, i as int, p as int),
                            #[trigger] at_pos(refs@, j as int, qq),
                            mapping,
                        ),
                decreases limit - q,
            {
                if clashes(&attrs[p], &other[q], mapping) {
                    assert(valid_pos(refs@, j as int, q as int));
                    assert(valid_pos(refs@, i as int, p as int));
                    assert(at_pos(refs@, i as int, p as int) == attrs@[p as int]);
                    assert(at_pos(refs@, j as int, q as int) == other@[q as int]);
                    assert(before(j as int, q as int, i as int, p as int));
                    return true;
                }
                q = q + 1;
            }
            j = j + 1;
        }
        p = p + 1;
    }
    false
}

/// Whether some declared error gives `attribute` a default.
fn has_default_exec(refs: &Vec<ErrorRef>, attribute: &String) -> (r: bool)
    ensures
        r == has_default(refs@, attribute@),
{
    let mut i: usize = 0;
    while i < refs.len()
        invariant
            i <= refs@.len(),
            forall|ii: int, p: int|
                0 <= ii < i && valid_pos(refs@, ii, p) ==> !(#[trigger] at_pos(refs@, ii, p).attribute@
                    == attribute@ && at_pos(refs@, ii, p).condition is None),
        decreases refs.len() - i,
    {
        let attrs = &refs[i].attributes;
        let mut p: usize = 0;
        while p < attrs.len()
            invariant
                i < refs@.len(),
                *attrs == refs@[i as int].attributes,
                p <= attrs@.len(),
                forall|ii: int, pp: int|
                    0 <= ii < i && valid_pos(refs@, ii, pp) ==> !(#[trigger] at_pos(refs@, ii, pp).attribute@
                        == attribute@ && at_pos(refs@, ii, pp).condition is None),
                forall|pp: int|
                    0 <= pp < p ==> !(#[trigger] at_pos(refs@, i as int, pp).attribute@ == attribute@
                        && at_pos(refs@, i as int, pp).condition is None),
            decreases attrs.len() - p,
        {
            if attrs[p].attribute == *attribute && attrs[p].condition.is_none() {
                assert(valid_pos(refs@, i as int, p as int));
                assert(at_pos(refs@, i as int, p as int).attribute@ == attribute@);
                return true;
            }
            p = p + 1;
        }
        i = i + 1;
    }
    false
}

fn known_attribute_exec(a: &String) -> (r: bool)
    ensures
        r == known_attribute(a@),
{
    *a == String::from_str("io") || *a == String::from_str("sql") || *a == String::from_str("redis")
}

fn known_condition_exec(a: &String, c: &String) -> (r: bool)
    ensures
        r == known_condition(a@, c@),
{
    if *a == String::from_str("io") {
        return true;
    }
    *a == String::from_str("sql") && (*c == String::from_str("not_found") || *c == String::from_str(
        "check",
    ) || *c == String::from_str("foreign_key") || *c == String::from_str("unique"))
}

/// The checks on attributes, in the order they are made: a repeated default,
/// a specific mapping without a default, a repeated specific mapping, an
/// unknown attribute or condition.
pub open spec fn check_fails(refs: Seq<ErrorRef>, check: int, i: int) -> bool {
    if check == 0 {
        repeats_at(refs, i, false)
    } else if check == 1 {
        lacks_default_at(refs, i)
    } else if check == 2 {
        repeats_at(refs, i, true)
    } else {
        unknown_attribute_at(refs, i) || unknown_condition_at(refs, i)
    }
}

pub open spec fn check_kind(refs: Seq<ErrorRef>, check: int, i: int) -> TaxonomyErrorKind {
    if check == 0 {
        TaxonomyErrorKind::DuplicateDefault
    } else if check == 1 {
        TaxonomyErrorKind::MappingWithoutDefault
    } else if check == 2 {
        TaxonomyErrorKind::DuplicateMapping
    } else if unknown_attribute_at(refs, i) {
        TaxonomyErrorKind::UnknownAttribute
    } else {
        TaxonomyErrorKind::UnknownCondition
    }
}

/// The attributes of `refs` pass every check.
pub open spec fn attributes_sound(refs: Seq<ErrorRef>) -> bool {
    forall|check: int, i: int| 0 <= check < 4 && 0 <= i < refs.len() ==> !check_fails(refs, check, i)
}

/// `e` is the first attribute failure: by check, then by declared error.
pub open spec fn is_attribute_failure(refs: Seq<ErrorRef>, e: TaxonomyError) -> bool {
    exists|check: int, i: int|
        0 <= check < 4 && 0 <= i < refs.len() && #[trigger] check_fails(refs, check, i) && e
            == TaxonomyError { kind: check_kind(refs, check, i), reference: Some(i as usize) }
            && (forall|c2: int, i2: int|
            0 <= c2 < check && 0 <= i2 < refs.len() ==> !check_fails(refs, c2, i2)) && (forall|
            i2: int,
        |
            0 <= i2 < i ==> !check_fails(refs, check, i2))
}

fn lacks_default_exec(refs: &Vec<ErrorRef>, i: usize) -> (r: bool)
    requires
        i < refs@.len(),
    ensures
        r == lacks_default_at(refs@, i as int),
{
    let attrs = &refs[i].attributes;
    let mut p: usize = 0;
    while p < attrs.len()
        invariant
            i < refs@.len(),
            *attrs == refs@[i as int].attributes,
            p <= attrs@.len(),
            forall|pp: int|
                0 <= pp < p ==> !(#[trigger] at_pos(refs@, i as int, pp).condition is Some
                    && !has_default(refs@, at_pos(refs@, i as int, pp).attribute@)),
        decreases attrs.len() - p,
    {
        if attrs[p].condition.is_some() && !has_default_exec(refs, &attrs[p].attribute) {
            assert(valid_pos(refs@, i as int, p as int));
            assert(at_pos(refs@, i as int, p as int) == attrs@[p as int]);
            return true;
        }
        p = p + 1;
    }
    false
}

fn unknown_at_exec(refs: &Vec<ErrorRef>, i: usize) -> (r: (bool, bool))
    requires
        i < refs@.len(),
    ensures
        r.0 == unknown_attribute_at(refs@, i as int),
        r.1 == unknown_condition_at(refs@, i as int),
{
    let attrs = &refs[i].attributes;
    let mut attribute = false;
    let mut condition = false;
    let mut p: usize = 0;
    while p < attrs.len()
        invariant
            i < refs@.len(),
            *attrs == refs@[i as int].attributes,
            p <= attrs@.len(),
            attribute == exists|pp: int|
                0 <= pp < p && !known_attribute(#[trigger] at_pos(refs@, i as int, pp).attribute@),
            condition == exists|pp: int|
                0 <= pp < p && #[trigger] at_pos(refs@, i as int, pp).condition is Some
                    && !known_condition(
                    at_pos(refs@, i as int, pp).attribute@,
                    at_pos(refs@, i as int, pp).condition->0@,
                ),
        decreases attrs.len() - p,
    {
        assert(at_pos(refs@, i as int, p as int) == attrs@[p as int]);
        if !known_attribute_exec(&attrs[p].attribute) {
            attribute = true;
        }
        match &attrs[p].condition {
            Some(c) => {
                if !known_condition_exec(&attrs[p].attribute, c) {
                    condition = true;
                }
            },
            None => {},
        }
        p = p + 1;
    }
    (attribute, condition)
}

fn check_fails_exec(refs: &Vec<ErrorRef>, check: usize, i: usize) -> (r: bool)
    requires
        i < refs@.len(),
    ensures
        r == check_fails(refs@, check as int, i as int),
{
    if check == 0 {
        repeats_at_exec(refs, i, false)
    } else if check == 1 {
        lacks_default_exec(refs, i)
    } else if check == 2 {
        repeats_at_exec(refs, i, true)
    } else {
        let (a, c) = unknown_at_exec(refs, i);
        a || c
    }
}

/// Checks the attributes of the declared errors.
pub fn attribute_failure(refs: &Vec<ErrorRef>) -> (r: Option<TaxonomyError>)
    ensures
        match r {
            Some(e) => !attributes_sound(refs@) && is_attribute_failure(refs@, e),
            None => attributes_sound(refs@),
        },
{
    let mut check: usize = 0;
    while check < 4
        invariant
            check <= 4,
            forall|c2: int, i2: int|
                0 <= c2 < check && 0 <= i2 < refs@.len() ==> !check_fails(refs@, c2, i2),
        decreases 4 - check,
    {
        let mut i: usize = 0;
        while i < refs.len()
            invariant
                check < 4,
                i <= refs@.len(),
                forall|c2: int, i2: int|
                    0 <= c2 < check && 0 <= i2 < refs@.len() ==> !check_fails(refs@, c2, i2),
                forall|i2: int| 0 <= i2 < i ==> !check_fails(refs@, check as int, i2),
            decreases refs.len() - i,
        {
            if check_fails_exec(refs, check, i) {
                let kind = if check == 0 {
                    TaxonomyErrorKind::DuplicateDefault
                } else if check == 1 {
                    TaxonomyErrorKind::MappingWithoutDefault
                } else if check == 2 {
                    TaxonomyErrorKind::DuplicateMapping
                } else if unknown_at_exec(refs, i).0 {
                    TaxonomyErrorKind::UnknownAttribute
                } else {
                    TaxonomyErrorKind::UnknownCondition
                };
                let e = TaxonomyError { kind, reference: Some(i) };
                assert(check_fails(refs@, check as int, i as int));
                assert(is_attribute_failure(refs@, e));
                return Some(e);
            }
            i = i + 1;
        }
        check = check + 1;
    }
    None
}

impl ErrorTaxonomy {
    /// Where the declared errors start among the entries.
    pub open spec fn offset(&self) -> int {
        declared_offset(self.requires_auth)
    }

    pub open spec fn views(&self) -> Seq<EntryView> {
        entry_views(self.entries@)
    }

    /// The shape every resolved taxonomy has.
    pub open spec fn wf(&self) -> bool {
        &&& self.entries@.len() == self.declared@.len() + self.offset()
        &&& self.views()[0] == communication_entry()
        &&& keys_distinct(self.views())
        &&& attributes_sound(self.declared@)
    }
}

/// `e` is the failure that resolving `refs` reports: the first reference
/// that does not resolve; else the first entry whose key repeats; else the
/// first failed attribute check.
pub open spec fn is_taxonomy_failure(
    cats: Seq<ErrorCategory>,
    refs: Seq<ErrorRef>,
    requires_auth: bool,
    e: TaxonomyError,
) -> bool {
    let off = declared_offset(requires_auth);
    if !all_resolve(cats, refs, requires_auth) {
        is_resolution_failure(cats, refs, requires_auth, e)
    } else if exists|entries: Seq<EntryView>|
        entries_resolve(cats, refs, requires_auth, entries) && !keys_distinct(entries) {
        e.kind == TaxonomyErrorKind::DuplicateKey && e.reference is Some && exists|entries: Seq<EntryView>|
            entries_resolve(cats, refs, requires_auth, entries) && repeats_key(
                entries,
                off + e.reference->0,
            ) && forall|m: int| 0 <= m < off + e.reference->0 ==> !repeats_key(entries, m)
    } else {
        !attributes_sound(refs) && is_attribute_failure(refs, e)
    }
}

proof fn lemma_resolution_unique(
    cats: Seq<ErrorCategory>,
    refs: Seq<ErrorRef>,
    requires_auth: bool,
    a: Seq<EntryView>,
    b: Seq<EntryView>,
)
    requires
        entries_resolve(cats, refs, requires_auth, a),
        entries_resolve(cats, refs, requires_auth, b),
    ensures
        a == b,
{
    let off = declared_offset(requires_auth);
    assert forall|k: int| 0 <= k < a.len() implies a[k] == b[k] by {
        if k >= off {
            assert(source_outcome(cats, refs[k - off].source) == Ok::<EntryView, TaxonomyErrorKind>(
                a[off + (k - off)],
            ));
        }
    }
    assert(a =~= b);
}

/// Resolves the error declarations of one operation into its taxonomy.
pub fn resolve_taxonomy(cats: &Vec<ErrorCategory>, refs: Vec<ErrorRef>, requires_auth: bool) -> (r:
    Result<ErrorTaxonomy, TaxonomyError>)
    ensures
        match r {
            Ok(t) => {
                &&& t.wf()
                &&& t.requires_auth == requires_auth
                &&& t.declared@ == refs@
                &&& all_resolve(cats@, refs@, requires_auth)
                &&& entries_resolve(cats@, refs@, requires_auth, t.views())
            },
            Err(e) => is_taxonomy_failure(cats@, refs@, requires_auth, e),
        },
{
    let entries = match resolve_entries(cats, &refs, requires_auth) {
        Ok(entries) => entries,
        Err(e) => return Err(e),
    };
    let ghost off = declared_offset(requires_auth);
    let ghost v = entry_views(entries@);
    match first_repeated_key(&entries) {
        Some(k) => {
            proof {
                reveal_strlit("communication");
                reveal_strlit("auth");
                reveal_strlit("invalid");
                reveal_strlit("/");
                if requires_auth {
                    if k == 1 {
                        assert(v[0].key.len() != v[1].key.len());
                    }
                }
                assert(k >= off);
                assert forall|other: Seq<EntryView>|
                    entries_resolve(cats@, refs@, requires_auth, other) implies other == v by {
                    lemma_resolution_unique(cats@, refs@, requires_auth, other, v);
                }
                assert(!keys_distinct(v)) by {
                    let j = choose|j: int| 0 <= j < k && v[j].key == v[k as int].key;
                    assert(v[j].key == v[k as int].key);
                }
            }
            let e = TaxonomyError { kind: TaxonomyErrorKind::DuplicateKey, reference: Some(k - (if requires_auth { 2 } else { 1 })) };
            return Err(e);
        },
        None => {},
    }
    proof {
        assert forall|other: Seq<EntryView>|
            entries_resolve(cats@, refs@, requires_auth, other) implies keys_distinct(other) by {
            lemma_resolution_unique(cats@, refs@, requires_auth, other, v);
        }
    }
    match attribute_failure(&refs) {
        Some(e) => return Err(e),
        None => {},
    }
    Ok(ErrorTaxonomy { entries, declared: refs, requires_auth })
}

/// The error envelope an entry is sent in:
/// `{"error":{"id":<key>,"msg":<message>}}`.
pub open spec fn envelope_text(e: EntryView) -> Seq<char> {
    "{\"error\":{\"id\":"@ + json_quoted(e.key) + ",\"msg\":"@ + json_quoted(e.message) + "}}"@
}

impl ErrorTaxonomy {
    /// The entry a wire id names: a declared entry (or the authentication
    /// one) whose key is `id`. The communication entry is never named.
    pub fn entry_for_id(&self, id: &String) -> (r: Option<usize>)
        ensures
            match r {
                Some(k) => 1 <= k < self.entries@.len() && self.views()[k as int].key == id@,
                None => forall|k: int| 1 <= k < self.entries@.len() ==> self.views()[k].key != id@,
            },
    {
        let mut k: usize = 1;
        while k < self.entries.len()
            invariant
                1 <= k,
                forall|m: int| 1 <= m < k ==> self.views()[m].key != id@,
            decreases self.entries.len() - k,
        {
            if self.entries[k].key == *id {
                return Some(k);
            }
            k = k + 1;
        }
        None
    }

    /// The body a failed request answers with for entry `k`.
    pub fn envelope(&self, k: usize) -> (r: String)
        requires
            k < self.entries@.len(),
        ensures
            r@ == envelope_text(self.views()[k as int]),
    {
        let e = &self.entries[k];
        let mut out = String::from_str("{\"error\":{\"id\":");
        let id = json_string(e.key.as_str());
        out.append(id.as_str());
        out.append(",\"msg\":");
        let msg = json_string(e.message.as_str());
        out.append(msg.as_str());
        out.append("}}");
        out
    }

    /// Where an outside condition of `attribute` is mapped: the declared
    /// entry with that specific mapping, else the entry with the attribute's
    /// default, as an index into the entries.
    pub fn mapped_entry(&self, attribute: &String, condition: &String) -> (r: Option<usize>)
        requires
            self.wf(),
        ensures
            match r {
                Some(e) => e >= self.offset() && e < self.entries@.len() && ({
                    ||| maps_specifically(self.declared@, e - self.offset(), attribute@, condition@)
                    ||| !specific_mapping_exists(self.declared@, attribute@, condition@)
                        && maps_by_default(self.declared@, e - self.offset(), attribute@)
                }),
                None => !specific_mapping_exists(self.declared@, attribute@, condition@)
                    && !has_default(self.declared@, attribute@),
            },
    {
        let refs = &self.declared;
        let n = self.entries.len();
        let off: usize = if self.requires_auth { 2 } else { 1 };
        let mut fallback: Option<usize> = None;
        let mut i: usize = 0;
        while i < refs.len()
            invariant
                self.wf(),
                *refs == self.declared,
                n == self.entries@.len(),
                off == self.offset(),
                i <= refs@.len(),
                forall|ii: int, p: int|
                    0 <= ii < i && valid_pos(refs@, ii, p) ==> !(#[trigger] at_pos(refs@, ii, p).attribute@
                        == attribute@ && at_pos(refs@, ii, p).condition is Some && at_pos(
                        refs@,
                        ii,
                        p,
                    ).condition->0@ == condition@),
                match fallback {
                    Some(f) => f < i && exists|p: int|
                        valid_pos(refs@, f as int, p) && #[trigger] at_pos(refs@, f as int, p).attribute@
                            == attribute@ && at_pos(refs@, f as int, p).condition is None,
                    None => forall|ii: int, p: int|
                        0 <= ii < i && valid_pos(refs@, ii, p) ==> !(#[trigger] at_pos(
                            refs@,
                            ii,
                            p,
                        ).attribute@ == attribute@ && at_pos(refs@, ii, p).condition is None),
                },
            decreases refs.len() - i,
        {
            let attrs = &refs[i].attributes;
            let mut p: usize = 0;
            while p < attrs.len()
                invariant
                    self.wf(),
                    *refs == self.declared,
                    n == self.entries@.len(),
                    off == self.offset(),
                    i < refs@.len(),
                    *attrs == refs@[i as int].attributes,
                    p <= attrs@.len(),
                    forall|ii: int, pp: int|
                        0 <= ii < i && valid_pos(refs@, ii, pp) ==> !(#[trigger] at_pos(
                            refs@,
                            ii,
                            pp,
                        ).attribute@ == attribute@ && at_pos(refs@, ii, pp).condition is Some
                            && at_pos(refs@, ii, pp).condition->0@ == condition@),
                    forall|pp: int|
                        0 <= pp < p ==> !(#[trigger] at_pos(refs@, i as int, pp).attribute@
                            == attribute@ && at_pos(refs@, i as int, pp).condition is Some && at_pos(
                            refs@,
                            i as int,
                            pp,
                        ).condition->0@ == condition@),
                    match fallback {
                        Some(f) => f <= i && exists|pp: int|
                            valid_pos(refs@, f as int, pp) && #[trigger] at_pos(
                                refs@,
                                f as int,
                                pp,
                            ).attribute@ == attribute@ && at_pos(refs@, f as int, pp).condition is None,
                        None => (forall|ii: int, pp: int|
                            0 <= ii < i && valid_pos(refs@, ii, pp) ==> !(#[trigger] at_pos(
                                refs@,
                                ii,
                                pp,
                            ).attribute@ == attribute@ && at_pos(refs@, ii, pp).condition is None))
                            && (forall|pp: int|
                            0 <= pp < p ==> !(#[trigger] at_pos(refs@, i as int, pp).attribute@
                                == attribute@ && at_pos(refs@, i as int, pp).condition is None)),
                    },
                decreases attrs.len() - p,
            {
                assert(at_pos(refs@, i as int, p as int) == attrs@[p as int]);
                assert(valid_pos(refs@, i as int, p as int));
                if attrs[p].attribute == *attribute {
                    match &attrs[p].condition {
                        Some(c) => {
                            if *c == *condition {
                                assert(maps_specifically(refs@, i as int, attribute@, condition@));
                                return Some(i + off);
                            }
                        },
                        None => {
                            if fallback.is_none() {
                                fallback = Some(i);
                            }
                        },
                    }
                }
                p = p + 1;
            }
            i = i + 1;
        }
        match fallback {
            Some(f) => {
                assert(maps_by_default(refs@, f as int, attribute@));
                Some(f + off)
            },
            None => None,
        }
    }
}

/// Declared error `i` maps `condition` of `attribute` specifically.
pub open spec fn maps_specifically(refs: Seq<ErrorRef>, i: int, attribute: Seq<char>, condition: Seq<
    char,
>) -> bool {
    exists|p: int|
        valid_pos(refs, i, p) && #[trigger] at_pos(refs, i, p).attribute@ == attribute && at_pos(
            refs,
            i,
            p,
        ).condition is Some && at_pos(refs, i, p).condition->0@ == condition
}

/// Declared error `i` is the default of `attribute`.
pub open spec fn maps_by_default(refs: Seq<ErrorRef>, i: int, attribute: Seq<char>) -> bool {
    exists|p: int|
        valid_pos(refs, i, p) && #[trigger] at_pos(refs, i, p).attribute@ == attribute && at_pos(
            refs,
            i,
            p,
        ).condition is None
}

/// Some declared error maps `condition` of `attribute` specifically.
pub open spec fn specific_mapping_exists(refs: Seq<ErrorRef>, attribute: Seq<char>, condition: Seq<
    char,
>) -> bool {
    exists|i: int, p: int|
        valid_pos(refs, i, p) && #[trigger] at_pos(refs, i, p).attribute@ == attribute && at_pos(
            refs,
            i,
            p,
        ).condition is Some && at_pos(refs, i, p).condition->0@ == condition
}

} // verus!
