//! The filter planner. Given a schema context and the caller's equality
//! filter, it deterministically selects the single key attribute, emits the
//! key-condition fragment, demotes every remaining predicate to the filter
//! condition, always appends the soft-delete exclusion conjunct, and collects
//! alias and placeholder bindings without collisions.

use vstd::prelude::*;

use serde_json::Value;

use crate::errors::Error;
use crate::schema::SchemaContext;
use crate::schema::SchemaModel;
use crate::text::lex_le;
use crate::text::str_lex_le;
use crate::values::entry_views;
use crate::values::name_pair_views;

verus! {

/// The expression alias generated for an attribute name.
pub open spec fn alias_of(name: Seq<char>) -> Seq<char> {
    "#"@ + name + "_key"@
}

/// The value placeholder generated for an attribute name.
pub open spec fn placeholder_of(name: Seq<char>) -> Seq<char> {
    ":"@ + name + "_val"@
}

/// The equality comparison fragment for an attribute name.
pub open spec fn eq_frag(name: Seq<char>) -> Seq<char> {
    alias_of(name) + " = "@ + placeholder_of(name)
}

/// The conjunction separator.
pub open spec fn and_sep() -> Seq<char> {
    " and "@
}

/// The permanent conjunct that excludes soft-deleted records: the reserved
/// placeholder is bound to the store's null sentinel at the store boundary.
pub open spec fn soft_delete_frag() -> Seq<char> {
    "deleted_at != :deleted_at_val"@
}

/// Whether the filter holds an entry for `name`.
pub open spec fn filter_has(filter: Seq<(Seq<char>, Value)>, name: Seq<char>) -> bool {
    exists|i: int| 0 <= i < filter.len() && filter[i].0 == name
}

/// The position of the first entry for `name`.
pub open spec fn first_idx(filter: Seq<(Seq<char>, Value)>, name: Seq<char>) -> int
    decreases filter.len(),
{
    if filter.len() == 0 {
        0
    } else if filter[0].0 == name {
        0
    } else {
        1 + first_idx(filter.drop_first(), name)
    }
}

/// Whether two filter entries share an attribute name, which would make the
/// generated aliases and placeholders collide.
pub open spec fn has_dup(filter: Seq<(Seq<char>, Value)>) -> bool {
    exists|i: int, j: int| 0 <= i < j < filter.len() && filter[i].0 == filter[j].0
}

/// The index entry selected for a filter that lacks the primary key: among
/// the entries whose attribute occurs in the filter, the one with the
/// lexicographically least attribute name (the earliest such entry on a tie).
pub open spec fn select_index_entry(
    indexes: Seq<(Seq<char>, Seq<char>)>,
    filter: Seq<(Seq<char>, Value)>,
) -> Option<(Seq<char>, Seq<char>)>
    decreases indexes.len(),
{
    if indexes.len() == 0 {
        None
    } else {
        let rest = select_index_entry(indexes.drop_first(), filter);
        if !filter_has(filter, indexes[0].0) {
            rest
        } else {
            match rest {
                None => Some(indexes[0]),
                Some(e) => if lex_le(indexes[0].0, e.0) {
                    Some(indexes[0])
                } else {
                    Some(e)
                },
            }
        }
    }
}

/// The key attribute chosen for a filter: the primary key when present,
/// otherwise the selected index entry's attribute, otherwise nothing.
/// Yields (key attribute, whether an index is used, index identifier).
pub open spec fn spec_select_key(
    schema: SchemaModel,
    filter: Seq<(Seq<char>, Value)>,
) -> Option<(Seq<char>, bool, Option<Seq<char>>)> {
    if filter_has(filter, schema.primary_key) {
        Some((schema.primary_key, false, None))
    } else {
        match select_index_entry(schema.index_data, filter) {
            Some(e) => Some((e.0, true, Some(e.1))),
            None => None,
        }
    }
}

/// The residual filter-condition text for the given entries: one equality
/// fragment per entry, each followed by the conjunction separator.
pub open spec fn residual_conjuncts(residual: Seq<(Seq<char>, Value)>) -> Seq<char>
    decreases residual.len(),
{
    if residual.len() == 0 {
        Seq::empty()
    } else {
        eq_frag(residual[0].0) + and_sep() + residual_conjuncts(residual.drop_first())
    }
}

/// Mathematical image of a planned query.
#[verifier::ext_equal]
pub struct PlanModel {
    pub key_attribute: Seq<char>,
    pub uses_index: bool,
    pub index_name: Option<Seq<char>>,
    pub key_condition: Seq<char>,
    pub filter_condition: Seq<char>,
    pub bindings: Seq<(Seq<char>, Value)>,
    pub name_aliases: Seq<(Seq<char>, Seq<char>)>,
}

/// The placeholder bindings generated for residual entries.
pub open spec fn bound_entries(residual: Seq<(Seq<char>, Value)>) -> Seq<(Seq<char>, Value)> {
    residual.map_values(|e: (Seq<char>, Value)| (placeholder_of(e.0), e.1))
}

/// The alias pairs generated for residual entries.
pub open spec fn alias_entries(residual: Seq<(Seq<char>, Value)>) -> Seq<(Seq<char>, Seq<char>)> {
    residual.map_values(|e: (Seq<char>, Value)| (alias_of(e.0), e.0))
}

/// The successful plan for a key choice and a filter.
pub open spec fn build_model(
    key: Seq<char>,
    uses_index: bool,
    index_name: Option<Seq<char>>,
    filter: Seq<(Seq<char>, Value)>,
) -> PlanModel {
    let ki = first_idx(filter, key);
    let residual = filter.remove(ki);
    PlanModel {
        key_attribute: key,
        uses_index: uses_index,
        index_name: index_name,
        key_condition: eq_frag(key),
        filter_condition: residual_conjuncts(residual) + soft_delete_frag(),
        bindings: seq![(placeholder_of(key), filter[ki].1)] + bound_entries(residual),
        name_aliases: seq![(alias_of(key), key)] + alias_entries(residual),
    }
}

/// What planning yields for a schema and a filter: the plan, or the failure
/// that the filter forces. Planning is a function of its two arguments alone,
/// so re-planning an identical pair yields an identical result.
pub open spec fn spec_plan(schema: SchemaModel, filter: Seq<(Seq<char>, Value)>) -> Result<
    PlanModel,
    Error,
> {
    match spec_select_key(schema, filter) {
        None => Err(Error::NoKeyCondition),
        Some((key, uses_index, index_name)) => if has_dup(filter) {
            Err(Error::AmbiguousFilterAttribute)
        } else {
            Ok(build_model(key, uses_index, index_name, filter))
        },
    }
}

/// The planned single-page query: the mandatory key condition, the residual
/// filter condition (always ending in the soft-delete exclusion), and the
/// alias and placeholder bindings, each derived deterministically from the
/// attribute names.
pub struct PlannedQuery {
    pub key_attribute: String,
    pub uses_index: bool,
    pub index_name: Option<String>,
    pub key_condition: String,
    pub filter_condition: String,
    pub bindings: Vec<(String, Value)>,
    pub name_aliases: Vec<(String, String)>,
}

impl View for PlannedQuery {
    type V = PlanModel;

    open spec fn view(&self) -> PlanModel {
        PlanModel {
            key_attribute: self.key_attribute@,
            uses_index: self.uses_index,
            index_name: match self.index_name {
                Some(ref s) => Some(s@),
                None => None,
            },
            key_condition: self.key_condition@,
            filter_condition: self.filter_condition@,
            bindings: entry_views(self.bindings@),
            name_aliases: name_pair_views(self.name_aliases@),
        }
    }
}

/// The result of planning, at the mathematical level.
pub open spec fn plan_view(r: Result<PlannedQuery, Error>) -> Result<PlanModel, Error> {
    match r {
        Ok(p) => Ok(p@),
        Err(e) => Err(e),
    }
}

/// Builds the expression alias for an attribute name.
fn build_alias(name: &String) -> (r: String)
    ensures
        r@ == alias_of(name@),
{
    let mut s = String::new();
    s.append("#");
    s.append(name.as_str());
    s.append("_key");
    proof {
        assert(s@ =~= alias_of(name@));
    }
    s
}

/// Builds the value placeholder for an attribute name.
fn build_placeholder(name: &String) -> (r: String)
    ensures
        r@ == placeholder_of(name@),
{
    let mut s = String::new();
    s.append(":");
    s.append(name.as_str());
    s.append("_val");
    proof {
        assert(s@ =~= placeholder_of(name@));
    }
    s
}

/// Builds the equality comparison fragment for an attribute name.
fn build_eq_frag(name: &String) -> (r: String)
    ensures
        r@ == eq_frag(name@),
{
    let mut s = build_alias(name);
    s.append(" = ");
    let placeholder = build_placeholder(name);
    s.append(placeholder.as_str());
    proof {
        assert(s@ =~= eq_frag(name@));
    }
    s
}

/// Finds the first filter entry whose attribute is `name`.
fn find_name(entries: &Vec<(String, Value)>, name: &String) -> (r: Option<usize>)
    ensures
        match r {
            Some(i) => i < entries@.len() && entries@[i as int].0@ == name@ && (forall|j: int|
                0 <= j < i ==> entries@[j].0@ != name@),
            None => forall|j: int| 0 <= j < entries@.len() ==> entries@[j].0@ != name@,
        },
{
    let mut i: usize = 0;
    while i < entries.len()
        invariant
            i <= entries@.len(),
            forall|j: int| 0 <= j < i ==> entries@[j].0@ != name@,
        decreases entries@.len() - i,
    {
        if entries[i].0 == *name {
            return Some(i);
        }
        i = i + 1;
    }
    None
}

/// When `name` occurs in the filter, `first_idx` really is the position of
/// its first occurrence.
proof fn lemma_first_idx(f: Seq<(Seq<char>, Value)>, n: Seq<char>)
    requires
        filter_has(f, n),
    ensures
        0 <= first_idx(f, n) < f.len(),
        f[first_idx(f, n)].0 == n,
        forall|j: int| 0 <= j < first_idx(f, n) ==> f[j].0 != n,
    decreases f.len(),
{
    let w = choose|i: int| 0 <= i < f.len() && f[i].0 == n;
    if f[0].0 == n {
    } else {
        assert(f.drop_first()[w - 1].0 == n);
        assert(filter_has(f.drop_first(), n));
        lemma_first_idx(f.drop_first(), n);
        let fi = first_idx(f, n);
        assert(f[fi].0 == f.drop_first()[fi - 1].0);
        assert(forall|j: int| 0 < j < fi ==> f[j].0 == f.drop_first()[j - 1].0);
    }
}

/// What index selection yields: when nothing is selected, no indexed
/// attribute occurs in the filter; when an entry is selected, it is an entry
/// of the index list whose attribute occurs in the filter.
proof fn lemma_select_props(indexes: Seq<(Seq<char>, Seq<char>)>, filter: Seq<(Seq<char>, Value)>)
    ensures
        match select_index_entry(indexes, filter) {
            None => forall|j: int| 0 <= j < indexes.len() ==> !filter_has(filter, indexes[j].0),
            Some(e) => (exists|j: int| 0 <= j < indexes.len() && indexes[j] == e) && filter_has(
                filter,
                e.0,
            ),
        },
    decreases indexes.len(),
{
    if indexes.len() == 0 {
    } else {
        lemma_select_props(indexes.drop_first(), filter);
        let rest = select_index_entry(indexes.drop_first(), filter);
        match rest {
            None => {
                assert(forall|j: int|
                    0 < j < indexes.len() ==> indexes[j] == indexes.drop_first()[j - 1]);
            },
            Some(e) => {
                let w = choose|j: int|
                    0 <= j < indexes.drop_first().len() && indexes.drop_first()[j] == e;
                assert(indexes[w + 1] == e);
            },
        }
    }
}

/// Extending the processed prefix by one entry appends exactly that entry's
/// conjunct and the separator.
proof fn lemma_conjuncts_take_snoc(r: Seq<(Seq<char>, Value)>, i: int)
    requires
        0 <= i < r.len(),
    ensures
        residual_conjuncts(r.take(i + 1)) == residual_conjuncts(r.take(i)) + eq_frag(r[i].0)
            + and_sep(),
    decreases i,
{
    let rt1 = r.take(i + 1);
    if i == 0 {
        assert(rt1.drop_first() =~= Seq::<(Seq<char>, Value)>::empty());
        assert(r.take(0) =~= Seq::<(Seq<char>, Value)>::empty());
        assert(residual_conjuncts(rt1) =~= residual_conjuncts(r.take(0)) + eq_frag(r[0].0)
            + and_sep());
    } else {
        assert(rt1.drop_first() =~= r.drop_first().take(i));
        assert(r.take(i).drop_first() =~= r.drop_first().take(i - 1));
        lemma_conjuncts_take_snoc(r.drop_first(), i - 1);
        assert(r.drop_first()[i - 1] == r[i]);
        assert(residual_conjuncts(rt1) == eq_frag(r[0].0) + and_sep() + (residual_conjuncts(
            r.drop_first().take(i - 1),
        ) + eq_frag(r[i].0) + and_sep()));
        assert(residual_conjuncts(r.take(i)) == eq_frag(r[0].0) + and_sep() + residual_conjuncts(
            r.drop_first().take(i - 1),
        ));
        assert(residual_conjuncts(rt1) =~= residual_conjuncts(r.take(i)) + eq_frag(r[i].0)
            + and_sep());
    }
}

/// Decides whether two filter entries share an attribute name.
fn has_duplicate_name(entries: &Vec<(String, Value)>) -> (r: bool)
    ensures
        r == has_dup(entry_views(entries@)),
{
    let ghost f = entry_views(entries@);
    let mut i: usize = 0;
    while i < entries.len()
        invariant
            f == entry_views(entries@),
            i <= entries@.len(),
            forall|p: int, q: int| 0 <= p < q < entries@.len() && p < i ==> f[p].0 != f[q].0,
        decreases entries@.len() - i,
    {
        let mut j: usize = i + 1;
        while j < entries.len()
            invariant
                f == entry_views(entries@),
                i < j,
                i < entries@.len(),
                j <= entries@.len(),
                forall|q: int| i < q < j ==> f[i as int].0 != f[q].0,
            decreases entries@.len() - j,
        {
            if entries[i].0 == entries[j].0 {
                assert(f[i as int].0 == f[j as int].0);
                return true;
            }
            j = j + 1;
        }
        i = i + 1;
    }
    false
}

/// An optional owned name pair at the character level.
pub open spec fn opt_name_pair_view(b: Option<(String, String)>) -> Option<(Seq<char>, Seq<char>)> {
    match b {
        Some(p) => Some((p.0@, p.1@)),
        None => None,
    }
}

/// Plans the query for `filter` against `schema`.
///
/// On success the returned plan is exactly `spec_plan`'s: the primary key is
/// selected when the filter holds it, else the matching indexed attribute
/// with the lexicographically least name; every residual predicate and the
/// soft-delete exclusion form the filter condition; every binding and alias
/// is derived from its attribute name. Planning fails with `NoKeyCondition`
/// exactly when the filter holds neither the primary key nor any indexed
/// attribute, and with `AmbiguousFilterAttribute` exactly when two filter
/// entries would share an alias. Being a function of its arguments alone,
/// re-planning an identical pair yields an identical plan.
pub fn plan_query(schema: &SchemaContext, filter: &Vec<(String, Value)>) -> (r: Result<
    PlannedQuery,
    Error,
>)
    ensures
        plan_view(r) == spec_plan(schema@, entry_views(filter@)),
{
    let ghost fviews = entry_views(filter@);
    let ghost iviews = name_pair_views(schema.index_data@);

    // Step 1: select the key attribute, preferring the primary key.
    let pk_present = find_name(filter, &schema.primary_key);
    proof {
        match pk_present {
            Some(i) => {
                assert(fviews[i as int].0 == schema@.primary_key);
                assert(filter_has(fviews, schema@.primary_key));
            },
            None => {
                assert(!filter_has(fviews, schema@.primary_key)) by {
                    if filter_has(fviews, schema@.primary_key) {
                        let w = choose|i: int|
                            0 <= i < fviews.len() && fviews[i].0 == schema@.primary_key;
                        assert(filter@[w].0@ == schema@.primary_key);
                    }
                }
            },
        }
    }
    let selection: (String, bool, Option<String>) = if pk_present.is_some() {
        (schema.primary_key.clone(), false, None)
    } else {
        // Walk the index list back to front, keeping the selected entry so
        // far, which mirrors the recursive selection over each suffix.
        let mut i: usize = schema.index_data.len();
        let mut best: Option<(String, String)> = None;
        while i > 0
            invariant
                i <= schema.index_data@.len(),
                iviews == name_pair_views(schema.index_data@),
                fviews == entry_views(filter@),
                opt_name_pair_view(best) == select_index_entry(iviews.skip(i as int), fviews),
            decreases i,
        {
            i = i - 1;
            proof {
                assert(iviews.skip(i as int).drop_first() =~= iviews.skip(i as int + 1));
                assert(iviews.skip(i as int)[0] == iviews[i as int]);
            }
            let present = find_name(filter, &schema.index_data[i].0);
            match present {
                Some(w) => {
                    proof {
                        assert(fviews[w as int].0 == iviews[i as int].0);
                        assert(filter_has(fviews, iviews[i as int].0));
                    }
                    let replace = match &best {
                        None => true,
                        Some(b) => str_lex_le(
                            schema.index_data[i].0.as_str(),
                            b.0.as_str(),
                        ),
                    };
                    if replace {
                        best = Some(
                            (schema.index_data[i].0.clone(), schema.index_data[i].1.clone()),
                        );
                    }
                },
                None => {
                    proof {
                        assert(!filter_has(fviews, iviews[i as int].0)) by {
                            if filter_has(fviews, iviews[i as int].0) {
                                let w = choose|k: int|
                                    0 <= k < fviews.len() && fviews[k].0 == iviews[i as int].0;
                                assert(filter@[w].0@ == iviews[i as int].0);
                            }
                        }
                    }
                },
            }
        }
        proof {
            assert(iviews.skip(0) =~= iviews);
        }
        match best {
            None => {
                return Err(Error::NoKeyCondition);
            },
            Some(b) => (b.0, true, Some(b.1)),
        }
    };
    let (key, uses_index, index_name) = selection;
    let ghost key_view = key@;
    let ghost index_name_view = match index_name {
        Some(ref s) => Some(s@),
        None => None,
    };
    proof {
        if pk_present is None {
            lemma_select_props(iviews, fviews);
        }
        assert(spec_select_key(schema@, fviews) == Some((key_view, uses_index, index_name_view)));
        assert(filter_has(fviews, key_view));
    }

    // Step 2: refuse colliding alias/placeholder names.
    if has_duplicate_name(filter) {
        return Err(Error::AmbiguousFilterAttribute);
    }

    // Step 3: locate the key entry and split off the residual entries.
    let key_idx = match find_name(filter, &key) {
        Some(i) => i,
        None => {
            proof {
                let w = choose|i: int| 0 <= i < fviews.len() && fviews[i].0 == key_view;
                assert(filter@[w].0@ == key_view);
                assert(false);
            }
            return Err(Error::NoKeyCondition);
        },
    };
    let ghost ki = first_idx(fviews, key_view);
    proof {
        lemma_first_idx(fviews, key_view);
        assert(fviews[key_idx as int].0 == key_view);
        if ki < key_idx {
            assert(filter@[ki].0@ == key_view);
            assert(false);
        }
        if key_idx < ki {
            assert(false);
        }
    }
    let ghost rviews = fviews.remove(ki);

    let mut residual: Vec<(String, Value)> = Vec::new();
    let mut j: usize = 0;
    while j < filter.len()
        invariant
            fviews == entry_views(filter@),
            rviews == fviews.remove(ki),
            0 <= ki < fviews.len(),
            ki == key_idx as int,
            j <= filter@.len(),
            residual@.len() == if j <= key_idx {
                j as int
            } else {
                j - 1
            },
            entry_views(residual@) == rviews.take(residual@.len() as int),
        decreases filter@.len() - j,
    {
        if j != key_idx {
            let name_c = filter[j].0.clone();
            let val_c = filter[j].1.clone();
            residual.push((name_c, val_c));
            proof {
                let n = residual@.len() as int;
                assert(rviews[n - 1] == fviews[j as int]);
                assert(entry_views(residual@) =~= rviews.take(n));
            }
        }
        j = j + 1;
    }
    proof {
        assert(rviews.take(residual@.len() as int) =~= rviews);
    }

    // Step 4: emit conditions, bindings and aliases.
    let key_condition = build_eq_frag(&key);
    let mut filter_condition = String::new();
    let mut bindings: Vec<(String, Value)> = Vec::new();
    bindings.push((build_placeholder(&key), filter[key_idx].1.clone()));
    let mut name_aliases: Vec<(String, String)> = Vec::new();
    name_aliases.push((build_alias(&key), key.clone()));
    let ghost bind0 = seq![(placeholder_of(key_view), fviews[ki].1)];
    let ghost alias0 = seq![(alias_of(key_view), key_view)];
    proof {
        assert(fviews[ki].1 == filter@[ki].1);
        assert(entry_views(bindings@) =~= bind0 + bound_entries(rviews.take(0)));
        assert(name_pair_views(name_aliases@) =~= alias0 + alias_entries(rviews.take(0)));
        assert(filter_condition@ =~= residual_conjuncts(rviews.take(0)));
    }
    let mut k: usize = 0;
    while k < residual.len()
        invariant
            entry_views(residual@) == rviews,
            residual@.len() == rviews.len(),
            k <= rviews.len(),
            filter_condition@ == residual_conjuncts(rviews.take(k as int)),
            entry_views(bindings@) == bind0 + bound_entries(rviews.take(k as int)),
            name_pair_views(name_aliases@) == alias0 + alias_entries(rviews.take(k as int)),
        decreases rviews.len() - k,
    {
        proof {
            assert(rviews[k as int] == entry_views(residual@)[k as int]);
            assert(entry_views(residual@)[k as int] == (
                residual@[k as int].0@,
                residual@[k as int].1,
            ));
        }
        let ghost bprev = bindings@;
        let ghost aprev = name_aliases@;
        let frag = build_eq_frag(&residual[k].0);
        filter_condition.append(frag.as_str());
        filter_condition.append(" and ");
        bindings.push((build_placeholder(&residual[k].0), residual[k].1.clone()));
        name_aliases.push((build_alias(&residual[k].0), residual[k].0.clone()));
        proof {
            lemma_conjuncts_take_snoc(rviews, k as int);
            assert(filter_condition@ =~= residual_conjuncts(rviews.take(k as int + 1)));
            assert(bound_entries(rviews.take(k as int + 1)) =~= bound_entries(
                rviews.take(k as int),
            ).push((placeholder_of(rviews[k as int].0), rviews[k as int].1)));
            assert(entry_views(bindings@) =~= entry_views(bprev).push(
                (placeholder_of(rviews[k as int].0), rviews[k as int].1),
            ));
            assert(entry_views(bindings@) =~= bind0 + bound_entries(rviews.take(k as int + 1)));
            assert(alias_entries(rviews.take(k as int + 1)) =~= alias_entries(
                rviews.take(k as int),
            ).push((alias_of(rviews[k as int].0), rviews[k as int].0)));
            assert(name_pair_views(name_aliases@) =~= name_pair_views(aprev).push(
                (alias_of(rviews[k as int].0), rviews[k as int].0),
            ));
            assert(name_pair_views(name_aliases@) =~= alias0 + alias_entries(
                rviews.take(k as int + 1),
            ));
        }
        k = k + 1;
    }
    proof {
        assert(rviews.take(rviews.len() as int) =~= rviews);
    }
    filter_condition.append("deleted_at != :deleted_at_val");

    let planned = PlannedQuery {
        key_attribute: key,
        uses_index,
        index_name,
        key_condition,
        filter_condition,
        bindings,
        name_aliases,
    };
    proof {
        assert(planned@ =~= build_model(key_view, uses_index, index_name_view, fviews));
    }
    Ok(planned)
}

/// Whether `suffix` is a suffix of `s`.
pub open spec fn ends_with(s: Seq<char>, suffix: Seq<char>) -> bool {
    s.len() >= suffix.len() && s.skip(s.len() - suffix.len()) == suffix
}

/// For every filter holding the primary-key attribute (and no colliding
/// names), planning succeeds, selects the primary key as the key attribute
/// and uses no index, regardless of what else the filter holds.
pub proof fn lemma_primary_key_selected(schema: SchemaModel, filter: Seq<(Seq<char>, Value)>)
    requires
        filter_has(filter, schema.primary_key),
        !has_dup(filter),
    ensures
        spec_plan(schema, filter) is Ok,
        spec_plan(schema, filter)->Ok_0.key_attribute == schema.primary_key,
        !spec_plan(schema, filter)->Ok_0.uses_index,
        spec_plan(schema, filter)->Ok_0.index_name is None,
{
}

/// When exactly one index entry's attribute occurs in the filter, selection
/// yields that entry.
proof fn lemma_select_unique(
    indexes: Seq<(Seq<char>, Seq<char>)>,
    filter: Seq<(Seq<char>, Value)>,
    i: int,
)
    requires
        0 <= i < indexes.len(),
        filter_has(filter, indexes[i].0),
        forall|j: int| 0 <= j < indexes.len() && j != i ==> !filter_has(filter, indexes[j].0),
    ensures
        select_index_entry(indexes, filter) == Some(indexes[i]),
    decreases indexes.len(),
{
    let rest = select_index_entry(indexes.drop_first(), filter);
    if i == 0 {
        lemma_select_props(indexes.drop_first(), filter);
        if rest is Some {
            let e = rest->Some_0;
            let w = choose|j: int|
                0 <= j < indexes.drop_first().len() && indexes.drop_first()[j] == e;
            assert(indexes[w + 1] == e);
            assert(false);
        }
    } else {
        assert(!filter_has(filter, indexes[0].0));
        assert(indexes.drop_first()[i - 1] == indexes[i]);
        assert(forall|j: int|
            0 <= j < indexes.drop_first().len() && j != i - 1 ==> indexes.drop_first()[j]
                == indexes[j + 1] && !filter_has(filter, indexes[j + 1].0));
        lemma_select_unique(indexes.drop_first(), filter, i - 1);
    }
}

/// For every filter without the primary key but with exactly one attribute
/// present in the index list (and no colliding names), planning succeeds,
/// selects that attribute, uses an index, and names the index that the
/// schema maps that attribute to.
pub proof fn lemma_single_index_selected(
    schema: SchemaModel,
    filter: Seq<(Seq<char>, Value)>,
    i: int,
)
    requires
        !filter_has(filter, schema.primary_key),
        !has_dup(filter),
        0 <= i < schema.index_data.len(),
        filter_has(filter, schema.index_data[i].0),
        forall|j: int|
            0 <= j < schema.index_data.len() && j != i ==> !filter_has(
                filter,
                schema.index_data[j].0,
            ),
    ensures
        spec_plan(schema, filter) is Ok,
        spec_plan(schema, filter)->Ok_0.key_attribute == schema.index_data[i].0,
        spec_plan(schema, filter)->Ok_0.uses_index,
        spec_plan(schema, filter)->Ok_0.index_name == Some(schema.index_data[i].1),
{
    lemma_select_unique(schema.index_data, filter, i);
}

/// For every filter holding neither the primary key nor any indexed
/// attribute, planning fails with `NoKeyCondition`, so no query is issued.
pub proof fn lemma_no_key_condition(schema: SchemaModel, filter: Seq<(Seq<char>, Value)>)
    requires
        !filter_has(filter, schema.primary_key),
        forall|j: int|
            0 <= j < schema.index_data.len() ==> !filter_has(filter, schema.index_data[j].0),
    ensures
        spec_plan(schema, filter) == Err::<PlanModel, Error>(Error::NoKeyCondition),
{
    lemma_select_props(schema.index_data, filter);
    if select_index_entry(schema.index_data, filter) is Some {
        let e = select_index_entry(schema.index_data, filter)->Some_0;
        let w = choose|j: int|
            0 <= j < schema.index_data.len() && schema.index_data[j] == e;
        assert(false);
    }
}

/// On every successful plan the filter condition ends with the soft-delete
/// exclusion conjunct, even when the residual filter is empty.
pub proof fn lemma_soft_delete_always_present(schema: SchemaModel, filter: Seq<(Seq<char>, Value)>)
    requires
        spec_plan(schema, filter) is Ok,
    ensures
        ends_with(spec_plan(schema, filter)->Ok_0.filter_condition, soft_delete_frag()),
{
    let fc = spec_plan(schema, filter)->Ok_0.filter_condition;
    assert(fc.skip(fc.len() - soft_delete_frag().len()) =~= soft_delete_frag());
}

/// Placeholder generation is injective: distinct attribute names never
/// share a placeholder.
pub proof fn lemma_placeholder_injective(a: Seq<char>, b: Seq<char>)
    requires
        placeholder_of(a) == placeholder_of(b),
    ensures
        a == b,
{
    reveal_strlit(":");
    reveal_strlit("_val");
    assert(placeholder_of(a).len() == 5 + a.len());
    assert(placeholder_of(b).len() == 5 + b.len());
    assert(a.len() == b.len());
    assert(a =~= placeholder_of(a).subrange(1, 1 + a.len() as int));
    assert(b =~= placeholder_of(b).subrange(1, 1 + b.len() as int));
    assert(placeholder_of(a).subrange(1, 1 + a.len() as int) == placeholder_of(b).subrange(
        1,
        1 + b.len() as int,
    ));
}

/// Alias generation is injective: distinct attribute names never share an
/// alias.
pub proof fn lemma_alias_injective(a: Seq<char>, b: Seq<char>)
    requires
        alias_of(a) == alias_of(b),
    ensures
        a == b,
{
    reveal_strlit("#");
    reveal_strlit("_key");
    assert(alias_of(a).len() == 5 + a.len());
    assert(alias_of(b).len() == 5 + b.len());
    assert(a.len() == b.len());
    assert(a =~= alias_of(a).subrange(1, 1 + a.len() as int));
    assert(b =~= alias_of(b).subrange(1, 1 + b.len() as int));
    assert(alias_of(a).subrange(1, 1 + a.len() as int) == alias_of(b).subrange(
        1,
        1 + b.len() as int,
    ));
}

/// On every successful plan, no two bindings share a placeholder name and no
/// two alias pairs share an alias name: colliding filters were refused, and
/// name generation is injective, so nothing is silently overwritten.
pub proof fn lemma_no_binding_collision(
    schema: SchemaModel,
    filter: Seq<(Seq<char>, Value)>,
    plan: PlanModel,
)
    requires
        spec_plan(schema, filter) == Ok::<PlanModel, Error>(plan),
    ensures
        forall|i: int, j: int|
            0 <= i < j < plan.bindings.len() ==> plan.bindings[i].0 != plan.bindings[j].0,
        forall|i: int, j: int|
            0 <= i < j < plan.name_aliases.len() ==> plan.name_aliases[i].0
                != plan.name_aliases[j].0,
{
    let sel = spec_select_key(schema, filter);
    let key = sel->Some_0.0;
    if !filter_has(filter, schema.primary_key) {
        lemma_select_props(schema.index_data, filter);
    }
    assert(filter_has(filter, key));
    assert(!has_dup(filter));
    lemma_first_idx(filter, key);
    let ki = first_idx(filter, key);
    let residual = filter.remove(ki);
    filter.remove_ensures(ki);

    assert forall|t: int| 0 <= t < residual.len() implies residual[t].0 != key by {
        if t < ki {
            if residual[t].0 == key {
                assert(filter[t].0 == filter[ki].0);
                assert(has_dup(filter));
            }
        } else {
            if residual[t].0 == key {
                assert(filter[t + 1].0 == filter[ki].0);
                assert(has_dup(filter));
            }
        }
    }
    assert forall|t1: int, t2: int|
        0 <= t1 < t2 < residual.len() implies residual[t1].0 != residual[t2].0 by {
        let o1 = if t1 < ki {
            t1
        } else {
            t1 + 1
        };
        let o2 = if t2 < ki {
            t2
        } else {
            t2 + 1
        };
        assert(residual[t1] == filter[o1]);
        assert(residual[t2] == filter[o2]);
        if residual[t1].0 == residual[t2].0 {
            assert(filter[o1].0 == filter[o2].0);
            assert(has_dup(filter));
        }
    }

    assert(plan.bindings.len() == 1 + residual.len());
    assert(plan.bindings[0].0 == placeholder_of(key));
    assert(forall|t: int|
        0 <= t < residual.len() ==> plan.bindings[t + 1] == bound_entries(residual)[t]);
    assert(forall|t: int|
        0 <= t < residual.len() ==> bound_entries(residual)[t].0 == placeholder_of(residual[t].0));
    assert forall|i: int, j: int|
        0 <= i < j < plan.bindings.len() implies plan.bindings[i].0 != plan.bindings[j].0 by {
        if plan.bindings[i].0 == plan.bindings[j].0 {
            if i == 0 {
                lemma_placeholder_injective(key, residual[j - 1].0);
            } else {
                lemma_placeholder_injective(residual[i - 1].0, residual[j - 1].0);
            }
        }
    }

    assert(plan.name_aliases.len() == 1 + residual.len());
    assert(plan.name_aliases[0].0 == alias_of(key));
    assert(forall|t: int|
        0 <= t < residual.len() ==> plan.name_aliases[t + 1] == alias_entries(residual)[t]);
    assert(forall|t: int|
        0 <= t < residual.len() ==> alias_entries(residual)[t].0 == alias_of(residual[t].0));
    assert forall|i: int, j: int|
        0 <= i < j < plan.name_aliases.len() implies plan.name_aliases[i].0
        != plan.name_aliases[j].0 by {
        if plan.name_aliases[i].0 == plan.name_aliases[j].0 {
            if i == 0 {
                lemma_alias_injective(key, residual[j - 1].0);
            } else {
                lemma_alias_injective(residual[i - 1].0, residual[j - 1].0);
            }
        }
    }
}

/// Planning is deterministic: two plans of the same (schema, filter) pair
/// are identical, condition fragments and binding sets included. Combined
/// with `plan_query`'s contract, re-planning an identical pair twice yields
/// byte-identical results.
pub proof fn lemma_plan_idempotent(
    schema: SchemaModel,
    filter: Seq<(Seq<char>, Value)>,
    r1: Result<PlanModel, Error>,
    r2: Result<PlanModel, Error>,
)
    requires
        r1 == spec_plan(schema, filter),
        r2 == spec_plan(schema, filter),
    ensures
        r1 == r2,
{
}

} // verus!
