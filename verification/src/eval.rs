//! Evaluation of `check` and `expand` requests: a fuel-indexed mathematical
//! semantics of userset-rewrite interpretation, and the executable evaluator
//! proved to compute exactly that semantics.
//!
//! The executable `check` threads a visited set of *(object, relation, user)*
//! triples through the recursion: a triple is inserted on entry and removed
//! on exit, and re-entering a triple already on the path yields `false`, so
//! cyclic userset graphs terminate with the cyclic branch treated as empty.
//! Termination is proved with a counting measure over a finite grid of
//! candidate triples drawn from the store and the configurations.

use vstd::prelude::*;
use crate::error::{SpecError, ZanzibarError, res_view};
use crate::model::{ExpandedUserset, NamespaceConfig, Object, Relation, RelationTuple, SpecExpanded, SpecExpr,
    SpecNamespaceConfig, SpecObject, SpecRelationConfig, SpecTuple, SpecUser, User,
    UsersetExpression, expanded_view, expandeds_view, obj_eq, rel_eq, user_eq};
use crate::store::{TupleStore, filter_tuples, lemma_filter_tuples, tuples_view};

verus! {

/// The triple entered into the visited set for one check.
pub open spec fn mk_triple(o: SpecObject, r: Seq<char>, u: SpecUser) -> SpecTuple {
    SpecTuple { object: o, relation: r, user: u }
}

/// View of a sequence of namespace configurations, element by element.
pub open spec fn configs_view(cs: Seq<NamespaceConfig>) -> Seq<SpecNamespaceConfig> {
    Seq::new(cs.len(), |i: int| cs[i]@)
}

/// The visited set of the check evaluator: a duplicate-free vector of
/// triples, viewed as a set.
pub struct TripleSet {
    entries: Vec<RelationTuple>,
}

impl View for TripleSet {
    type V = Set<SpecTuple>;

    closed spec fn view(&self) -> Set<SpecTuple> {
        Set::new(
            |t: SpecTuple| exists|i: int| 0 <= i < self.entries@.len() && self.entries@[i]@ == t,
        )
    }
}

impl TripleSet {
    /// No two entries denote the same triple.
    pub closed spec fn wf(&self) -> bool {
        forall|i: int, j: int|
            0 <= i < j < self.entries@.len() ==> self.entries@[i]@ != self.entries@[j]@
    }

    /// An empty visited set.
    pub fn new() -> (r: Self)
        ensures
            r.wf(),
            r@ == Set::<SpecTuple>::empty(),
    {
        let r = TripleSet { entries: Vec::new() };
        proof {
            assert(r@ =~= Set::<SpecTuple>::empty());
        }
        r
    }

    /// Is the triple in the set?
    fn contains3(&self, o: &Object, r: &Relation, u: &User) -> (res: bool)
        ensures
            res == self@.contains(mk_triple(o@, r@, u@)),
    {
        let ghost t = mk_triple(o@, r@, u@);
        let mut i: usize = 0;
        while i < self.entries.len()
            invariant
                i <= self.entries@.len(),
                t == mk_triple(o@, r@, u@),
                forall|j: int| 0 <= j < i ==> self.entries@[j]@ != t,
            decreases self.entries@.len() - i,
        {
            let e = &self.entries[i];
            if obj_eq(&e.object, o) && rel_eq(&e.relation, r) && user_eq(&e.user, u) {
                proof {
                    assert(self.entries@[i as int]@ == t);
                }
                return true;
            }
            proof {
                assert(self.entries@[i as int]@ != t);
            }
            i += 1;
        }
        false
    }

    /// Inserts a fresh triple.
    fn insert3(&mut self, o: &Object, r: &Relation, u: &User)
        requires
            old(self).wf(),
            !old(self)@.contains(mk_triple(o@, r@, u@)),
        ensures
            final(self).wf(),
            final(self)@ == old(self)@.insert(mk_triple(o@, r@, u@)),
    {
        let ghost t = mk_triple(o@, r@, u@);
        let ghost old_entries = self.entries@;
        let tuple = RelationTuple { object: o.clone(), relation: r.clone(), user: u.clone() };
        proof {
            assert(tuple@ == t);
        }
        self.entries.push(tuple);
        proof {
            assert forall|a: int, b: int|
                0 <= a < b < self.entries@.len() implies self.entries@[a]@
                != self.entries@[b]@ by {
                if b == self.entries@.len() - 1 {
                    assert(self.entries@[a] == old_entries[a]);
                    assert(self.entries@[b]@ == t);
                    if old_entries[a]@ == t {
                        assert(old(self).entries@[a]@ == t);
                        assert(old(self)@.contains(t));
                        assert(false);
                    }
                } else {
                    assert(self.entries@[a] == old_entries[a]);
                    assert(self.entries@[b] == old_entries[b]);
                }
            }
            assert(self@ =~= old(self)@.insert(t)) by {
                assert forall|x: SpecTuple| self@.contains(x) implies old(self)@.insert(t).contains(
                    x,
                ) by {
                    let i = choose|i: int|
                        0 <= i < self.entries@.len() && self.entries@[i]@ == x;
                    if i < old_entries.len() {
                        assert(old_entries[i]@ == x);
                    }
                }
                assert forall|x: SpecTuple| old(self)@.insert(t).contains(x) implies self@.contains(
                    x,
                ) by {
                    if x == t {
                        assert(self.entries@[self.entries@.len() - 1]@ == x);
                    } else {
                        let i = choose|i: int|
                            0 <= i < old_entries.len() && old_entries[i]@ == x;
                        assert(self.entries@[i]@ == x);
                    }
                }
            }
        }
    }

    /// Removes a present triple.
    fn remove3(&mut self, o: &Object, r: &Relation, u: &User)
        requires
            old(self).wf(),
            old(self)@.contains(mk_triple(o@, r@, u@)),
        ensures
            final(self).wf(),
            final(self)@ == old(self)@.remove(mk_triple(o@, r@, u@)),
    {
        let ghost t = mk_triple(o@, r@, u@);
        let mut i: usize = 0;
        while i < self.entries.len()
            invariant
                *self == *old(self),
                old(self).wf(),
                old(self)@.contains(t),
                t == mk_triple(o@, r@, u@),
                i <= self.entries@.len(),
                forall|j: int| 0 <= j < i ==> self.entries@[j]@ != t,
            decreases self.entries@.len() - i,
        {
            let e = &self.entries[i];
            if obj_eq(&e.object, o) && rel_eq(&e.relation, r) && user_eq(&e.user, u) {
                let ghost old_entries = self.entries@;
                let ghost gi = i as int;
                self.entries.remove(i);
                proof {
                    assert(old_entries[gi]@ == t);
                    old_entries.remove_ensures(gi);
                    let removed = old_entries.remove(gi);
                    assert(self.entries@ == removed);
                    assert forall|a: int, b: int|
                        0 <= a < b < self.entries@.len() implies self.entries@[a]@
                        != self.entries@[b]@ by {
                        if a < gi {
                            assert(removed[a] == old_entries[a]);
                        } else {
                            assert(removed[a] == old_entries[a + 1]);
                        }
                        if b < gi {
                            assert(removed[b] == old_entries[b]);
                        } else {
                            assert(removed[b] == old_entries[b + 1]);
                        }
                    }
                    assert(self@ =~= old(self)@.remove(t)) by {
                        assert forall|x: SpecTuple| self@.contains(x) implies old(self)@.remove(
                            t,
                        ).contains(x) by {
                            let k = choose|k: int|
                                0 <= k < removed.len() && removed[k]@ == x;
                            if k < gi {
                                assert(old_entries[k]@ == x);
                                assert(x != t);
                            } else {
                                assert(old_entries[k + 1]@ == x);
                                assert(x != t);
                            }
                        }
                        assert forall|x: SpecTuple| old(self)@.remove(t).contains(x)
                            implies self@.contains(x) by {
                            let k = choose|k: int|
                                0 <= k < old_entries.len() && old_entries[k]@ == x;
                            if k < gi {
                                assert(removed[k]@ == x);
                            } else {
                                assert(k != gi);
                                assert(removed[k - 1]@ == x);
                            }
                        }
                    }
                }
                return ;
            }
            proof {
                assert(self.entries@[i as int]@ != t);
            }
            i += 1;
        }
        proof {
            let k = choose|k: int| 0 <= k < self.entries@.len() && self.entries@[k]@ == t;
            assert(false);
        }
    }
}

/// Index of the first configuration with the given namespace name.
pub open spec fn find_ns(cfgs: Seq<SpecNamespaceConfig>, name: Seq<char>) -> Option<int>
    decreases cfgs.len(),
{
    if cfgs.len() == 0 {
        None
    } else if cfgs[0].name == name {
        Some(0)
    } else {
        match find_ns(cfgs.drop_first(), name) {
            Some(i) => Some(i + 1),
            None => None,
        }
    }
}

/// Index of the first relation configuration with the given relation name.
pub open spec fn find_rel(rcs: Seq<SpecRelationConfig>, name: Seq<char>) -> Option<int>
    decreases rcs.len(),
{
    if rcs.len() == 0 {
        None
    } else if rcs[0].name == name {
        Some(0)
    } else {
        match find_rel(rcs.drop_first(), name) {
            Some(i) => Some(i + 1),
            None => None,
        }
    }
}

/// What [`find_ns`] returns: the first index whose name matches, if any.
pub proof fn lemma_find_ns(cfgs: Seq<SpecNamespaceConfig>, name: Seq<char>)
    ensures
        match find_ns(cfgs, name) {
            Some(i) => 0 <= i < cfgs.len() && cfgs[i].name == name && forall|j: int|
                0 <= j < i ==> cfgs[j].name != name,
            None => forall|j: int| 0 <= j < cfgs.len() ==> cfgs[j].name != name,
        },
    decreases cfgs.len(),
{
    if cfgs.len() > 0 && cfgs[0].name != name {
        lemma_find_ns(cfgs.drop_first(), name);
        assert forall|j: int| 0 < j < cfgs.len() implies cfgs.drop_first()[j - 1] == cfgs[j] by {}
    }
}

/// What [`find_rel`] returns: the first index whose name matches, if any.
pub proof fn lemma_find_rel(rcs: Seq<SpecRelationConfig>, name: Seq<char>)
    ensures
        match find_rel(rcs, name) {
            Some(i) => 0 <= i < rcs.len() && rcs[i].name == name && forall|j: int|
                0 <= j < i ==> rcs[j].name != name,
            None => forall|j: int| 0 <= j < rcs.len() ==> rcs[j].name != name,
        },
    decreases rcs.len(),
{
    if rcs.len() > 0 && rcs[0].name != name {
        lemma_find_rel(rcs.drop_first(), name);
        assert forall|j: int| 0 < j < rcs.len() implies rcs.drop_first()[j - 1] == rcs[j] by {}
    }
}

/// Finds the first configuration for the namespace name, as [`find_ns`] does.
pub(crate) fn find_namespace(cfgs: &Vec<NamespaceConfig>, name: &String) -> (r: Option<usize>)
    ensures
        match r {
            Some(i) => i < cfgs@.len() && find_ns(configs_view(cfgs@), name@) == Some(i as int),
            None => find_ns(configs_view(cfgs@), name@) == None::<int>,
        },
{
    let ghost cv = configs_view(cfgs@);
    let mut i: usize = 0;
    while i < cfgs.len()
        invariant
            i <= cfgs@.len(),
            cv == configs_view(cfgs@),
            forall|j: int| 0 <= j < i ==> cv[j].name != name@,
        decreases cfgs@.len() - i,
    {
        if cfgs[i].name == *name {
            proof {
                assert(cv[i as int].name == name@);
                lemma_find_ns(cv, name@);
                let k = find_ns(cv, name@);
                assert(k == Some(i as int));
            }
            return Some(i);
        }
        proof {
            assert(cv[i as int].name != name@);
        }
        i += 1;
    }
    proof {
        lemma_find_ns(cv, name@);
    }
    None
}

/// Finds the first relation configuration for the relation name, as
/// [`find_rel`] does.
fn find_relation(rcs: &Vec<crate::model::RelationConfig>, name: &Relation) -> (r: Option<usize>)
    ensures
        match r {
            Some(i) => i < rcs@.len() && find_rel(
                Seq::new(rcs@.len(), |k: int| rcs@[k]@),
                name@,
            ) == Some(i as int),
            None => find_rel(Seq::new(rcs@.len(), |k: int| rcs@[k]@), name@) == None::<int>,
        },
{
    let ghost rv = Seq::new(rcs@.len(), |k: int| rcs@[k]@);
    let mut i: usize = 0;
    while i < rcs.len()
        invariant
            i <= rcs@.len(),
            rv == Seq::new(rcs@.len(), |k: int| rcs@[k]@),
            forall|j: int| 0 <= j < i ==> rv[j].name != name@,
        decreases rcs@.len() - i,
    {
        if rel_eq(&rcs[i].name, name) {
            proof {
                assert(rv[i as int].name == name@);
                lemma_find_rel(rv, name@);
            }
            return Some(i);
        }
        proof {
            assert(rv[i as int].name != name@);
        }
        i += 1;
    }
    proof {
        lemma_find_rel(rv, name@);
    }
    None
}

/// How many relations of `rels` give an unvisited triple on object `o`.
pub open spec fn row_count(
    o: SpecObject,
    rels: Seq<Seq<char>>,
    u: SpecUser,
    v: Set<SpecTuple>,
) -> nat
    decreases rels.len(),
{
    if rels.len() == 0 {
        0
    } else {
        (if v.contains(mk_triple(o, rels[0], u)) {
            0nat
        } else {
            1nat
        }) + row_count(o, rels.drop_first(), u, v)
    }
}

/// How many (object, relation) cells of the grid give an unvisited triple:
/// the termination measure of the check evaluator.
pub open spec fn grid_count(
    objs: Seq<SpecObject>,
    rels: Seq<Seq<char>>,
    u: SpecUser,
    v: Set<SpecTuple>,
) -> nat
    decreases objs.len(),
{
    if objs.len() == 0 {
        0
    } else {
        row_count(objs[0], rels, u, v) + grid_count(objs.drop_first(), rels, u, v)
    }
}

/// Inserting a triple never increases a row count.
proof fn lemma_row_insert_le(
    o: SpecObject,
    rels: Seq<Seq<char>>,
    u: SpecUser,
    v: Set<SpecTuple>,
    t: SpecTuple,
)
    ensures
        row_count(o, rels, u, v.insert(t)) <= row_count(o, rels, u, v),
    decreases rels.len(),
{
    if rels.len() > 0 {
        lemma_row_insert_le(o, rels.drop_first(), u, v, t);
    }
}

/// Inserting an unvisited triple of this row strictly decreases its count.
proof fn lemma_row_insert_lt(
    o: SpecObject,
    rels: Seq<Seq<char>>,
    u: SpecUser,
    v: Set<SpecTuple>,
    t: SpecTuple,
)
    requires
        t.object == o,
        t.user == u,
        rels.contains(t.relation),
        !v.contains(t),
    ensures
        row_count(o, rels, u, v.insert(t)) < row_count(o, rels, u, v),
    decreases rels.len(),
{
    assert(rels.len() > 0);
    if rels[0] == t.relation {
        assert(mk_triple(o, rels[0], u) == t);
        lemma_row_insert_le(o, rels.drop_first(), u, v, t);
    } else {
        assert(rels.drop_first().contains(t.relation)) by {
            let k = choose|k: int| 0 <= k < rels.len() && rels[k] == t.relation;
            assert(rels.drop_first()[k - 1] == t.relation);
        }
        lemma_row_insert_lt(o, rels.drop_first(), u, v, t);
    }
}

/// Inserting a triple never increases the grid count.
pub proof fn lemma_grid_insert_le(
    objs: Seq<SpecObject>,
    rels: Seq<Seq<char>>,
    u: SpecUser,
    v: Set<SpecTuple>,
    t: SpecTuple,
)
    ensures
        grid_count(objs, rels, u, v.insert(t)) <= grid_count(objs, rels, u, v),
    decreases objs.len(),
{
    if objs.len() > 0 {
        lemma_row_insert_le(objs[0], rels, u, v, t);
        lemma_grid_insert_le(objs.drop_first(), rels, u, v, t);
    }
}

/// Inserting an unvisited triple drawn from the grid strictly decreases the
/// grid count.
pub proof fn lemma_grid_insert_lt(
    objs: Seq<SpecObject>,
    rels: Seq<Seq<char>>,
    u: SpecUser,
    v: Set<SpecTuple>,
    t: SpecTuple,
)
    requires
        objs.contains(t.object),
        rels.contains(t.relation),
        t.user == u,
        !v.contains(t),
    ensures
        grid_count(objs, rels, u, v.insert(t)) < grid_count(objs, rels, u, v),
    decreases objs.len(),
{
    assert(objs.len() > 0);
    if objs[0] == t.object {
        lemma_row_insert_lt(objs[0], rels, u, v, t);
        lemma_grid_insert_le(objs.drop_first(), rels, u, v, t);
    } else {
        assert(objs.drop_first().contains(t.object)) by {
            let k = choose|k: int| 0 <= k < objs.len() && objs[k] == t.object;
            assert(objs.drop_first()[k - 1] == t.object);
        }
        lemma_row_insert_le(objs[0], rels, u, v, t);
        lemma_grid_insert_lt(objs.drop_first(), rels, u, v, t);
    }
}

/// Every relation name a rewrite expression can route a check to is in
/// `rels`: the computed-userset targets of the expression.
pub open spec fn expr_rels_in(e: SpecExpr, rels: Seq<Seq<char>>) -> bool
    decreases e,
{
    match e {
        SpecExpr::This => true,
        SpecExpr::ComputedUserset { relation } => rels.contains(relation),
        SpecExpr::TupleToUserset { computed_userset_relation, .. } => rels.contains(
            computed_userset_relation,
        ),
        SpecExpr::Union(es) => exprs_rels_in(es, rels),
        SpecExpr::Intersection(es) => exprs_rels_in(es, rels),
        SpecExpr::Exclusion { base, exclude } => expr_rels_in(*base, rels) && expr_rels_in(
            *exclude,
            rels,
        ),
    }
}

/// [`expr_rels_in`] for every expression of a sequence.
pub open spec fn exprs_rels_in(es: Seq<SpecExpr>, rels: Seq<Seq<char>>) -> bool
    decreases es,
{
    if es.len() == 0 {
        true
    } else {
        expr_rels_in(es[0], rels) && exprs_rels_in(es.drop_first(), rels)
    }
}

/// [`exprs_rels_in`] covers each element.
pub proof fn lemma_exprs_rels_in(es: Seq<SpecExpr>, rels: Seq<Seq<char>>)
    requires
        exprs_rels_in(es, rels),
    ensures
        forall|i: int| 0 <= i < es.len() ==> expr_rels_in(#[trigger] es[i], rels),
    decreases es,
{
    if es.len() > 0 {
        lemma_exprs_rels_in(es.drop_first(), rels);
        assert forall|i: int| 0 <= i < es.len() implies expr_rels_in(#[trigger] es[i], rels) by {
            if i > 0 {
                assert(es.drop_first()[i - 1] == es[i]);
            }
        }
    }
}

/// Every userset user stored in the tuples names an object of `objs` and a
/// relation of `rels`.
pub open spec fn store_closed(
    tuples: Seq<SpecTuple>,
    objs: Seq<SpecObject>,
    rels: Seq<Seq<char>>,
) -> bool {
    forall|k: int|
        0 <= k < tuples.len() ==> match (#[trigger] tuples[k]).user {
            SpecUser::Userset(o2, r2) => objs.contains(o2) && rels.contains(r2),
            SpecUser::UserId(_) => true,
        }
}

/// Every rewrite of every configuration routes only to relations of `rels`.
pub open spec fn configs_closed(configs: Seq<SpecNamespaceConfig>, rels: Seq<Seq<char>>) -> bool {
    forall|c: int, k: int|
        0 <= c < configs.len() && 0 <= k < configs[c].relations.len() ==> match (
        #[trigger] configs[c].relations[k]).userset_rewrite {
            Some(e) => expr_rels_in(e, rels),
            None => true,
        }
}

/// Structural size of a rewrite expression, the measure of expression
/// recursion.
pub open spec fn expr_size(e: SpecExpr) -> nat
    decreases e,
{
    match e {
        SpecExpr::This => 1,
        SpecExpr::ComputedUserset { .. } => 1,
        SpecExpr::TupleToUserset { .. } => 1,
        SpecExpr::Union(es) => 1 + exprs_size(es),
        SpecExpr::Intersection(es) => 1 + exprs_size(es),
        SpecExpr::Exclusion { base, exclude } => 1 + expr_size(*base) + expr_size(*exclude),
    }
}

/// Combined size of a sequence of rewrite expressions.
pub open spec fn exprs_size(es: Seq<SpecExpr>) -> nat
    decreases es,
{
    if es.len() == 0 {
        0
    } else {
        1 + expr_size(es[0]) + exprs_size(es.drop_first())
    }
}

/// The rewrite interpreted for a relation configuration: an absent rewrite
/// means `This`.
pub open spec fn rewrite_of(rc: SpecRelationConfig) -> SpecExpr {
    match rc.userset_rewrite {
        Some(e) => e,
        None => SpecExpr::This,
    }
}

/// Fuel-indexed semantics of one check: `None` means the fuel ran out (which
/// the executable evaluator proves cannot happen for sufficient fuel);
/// `Some(Ok(b))` and `Some(Err(e))` mirror the evaluator's outcomes. A triple
/// already visited answers `false` immediately; otherwise the namespace and
/// relation are resolved and the rewrite is interpreted with the triple added
/// to the visited set.
pub open spec fn spec_check(
    tuples: Seq<SpecTuple>,
    configs: Seq<SpecNamespaceConfig>,
    o: SpecObject,
    r: Seq<char>,
    u: SpecUser,
    visited: Set<SpecTuple>,
    fuel: nat,
) -> Option<Result<bool, SpecError>>
    decreases fuel, 0nat, 0nat, 0nat,
{
    if visited.contains(mk_triple(o, r, u)) {
        Some(Ok(false))
    } else if fuel == 0 {
        None
    } else {
        match find_ns(configs, o.namespace) {
            None => Some(Err(SpecError::NamespaceNotFound(o.namespace))),
            Some(ci) => match find_rel(configs[ci].relations, r) {
                None => Some(Err(SpecError::RelationNotFound(r, configs[ci].name))),
                Some(ri) => spec_eval(
                    tuples,
                    configs,
                    o,
                    r,
                    u,
                    visited.insert(mk_triple(o, r, u)),
                    rewrite_of(configs[ci].relations[ri]),
                    (fuel - 1) as nat,
                ),
            },
        }
    }
}

/// Fuel-indexed semantics of one rewrite expression at *(o, r)*.
pub open spec fn spec_eval(
    tuples: Seq<SpecTuple>,
    configs: Seq<SpecNamespaceConfig>,
    o: SpecObject,
    r: Seq<char>,
    u: SpecUser,
    visited: Set<SpecTuple>,
    e: SpecExpr,
    fuel: nat,
) -> Option<Result<bool, SpecError>>
    decreases fuel, 2nat, expr_size(e), 0nat,
{
    match e {
        SpecExpr::This => {
            if filter_tuples(tuples, o, Some(r), Some(u)).len() > 0 {
                Some(Ok(true))
            } else {
                spec_this_loop(
                    tuples,
                    configs,
                    u,
                    visited,
                    filter_tuples(tuples, o, Some(r), None),
                    fuel,
                )
            }
        },
        SpecExpr::ComputedUserset { relation } => spec_check(
            tuples,
            configs,
            o,
            relation,
            u,
            visited,
            fuel,
        ),
        SpecExpr::TupleToUserset { tupleset_relation, computed_userset_relation } => spec_ttu_loop(
            tuples,
            configs,
            computed_userset_relation,
            u,
            visited,
            filter_tuples(tuples, o, Some(tupleset_relation), None),
            fuel,
        ),
        SpecExpr::Union(es) => spec_union_loop(tuples, configs, o, r, u, visited, es, fuel),
        SpecExpr::Intersection(es) => spec_inter_loop(tuples, configs, o, r, u, visited, es, fuel),
        SpecExpr::Exclusion { base, exclude } => match spec_eval(
            tuples,
            configs,
            o,
            r,
            u,
            visited,
            *exclude,
            fuel,
        ) {
            None => None,
            Some(Err(err)) => Some(Err(err)),
            Some(Ok(true)) => Some(Ok(false)),
            Some(Ok(false)) => spec_eval(tuples, configs, o, r, u, visited, *base, fuel),
        },
    }
}

/// Semantics of the userset-indirection pass of `This`: each stored userset
/// tuple is checked in order; the first `true` wins, errors propagate, users
/// that are plain identifiers are skipped.
pub open spec fn spec_this_loop(
    tuples: Seq<SpecTuple>,
    configs: Seq<SpecNamespaceConfig>,
    u: SpecUser,
    visited: Set<SpecTuple>,
    ts: Seq<SpecTuple>,
    fuel: nat,
) -> Option<Result<bool, SpecError>>
    decreases fuel, 1nat, 0nat, ts.len(),
{
    if ts.len() == 0 {
        Some(Ok(false))
    } else {
        match ts[0].user {
            SpecUser::UserId(_) => spec_this_loop(
                tuples,
                configs,
                u,
                visited,
                ts.drop_first(),
                fuel,
            ),
            SpecUser::Userset(o2, r2) => match spec_check(
                tuples,
                configs,
                o2,
                r2,
                u,
                visited,
                fuel,
            ) {
                None => None,
                Some(Err(err)) => Some(Err(err)),
                Some(Ok(true)) => Some(Ok(true)),
                Some(Ok(false)) => spec_this_loop(
                    tuples,
                    configs,
                    u,
                    visited,
                    ts.drop_first(),
                    fuel,
                ),
            },
        }
    }
}

/// Semantics of tuple-to-userset: each stored tupleset tuple whose user is a
/// userset leads to a check of the computed relation on the parent object.
pub open spec fn spec_ttu_loop(
    tuples: Seq<SpecTuple>,
    configs: Seq<SpecNamespaceConfig>,
    computed: Seq<char>,
    u: SpecUser,
    visited: Set<SpecTuple>,
    ts: Seq<SpecTuple>,
    fuel: nat,
) -> Option<Result<bool, SpecError>>
    decreases fuel, 1nat, 0nat, ts.len(),
{
    if ts.len() == 0 {
        Some(Ok(false))
    } else {
        match ts[0].user {
            SpecUser::UserId(_) => spec_ttu_loop(
                tuples,
                configs,
                computed,
                u,
                visited,
                ts.drop_first(),
                fuel,
            ),
            SpecUser::Userset(o2, _) => match spec_check(
                tuples,
                configs,
                o2,
                computed,
                u,
                visited,
                fuel,
            ) {
                None => None,
                Some(Err(err)) => Some(Err(err)),
                Some(Ok(true)) => Some(Ok(true)),
                Some(Ok(false)) => spec_ttu_loop(
                    tuples,
                    configs,
                    computed,
                    u,
                    visited,
                    ts.drop_first(),
                    fuel,
                ),
            },
        }
    }
}

/// Semantics of a union: short-circuit disjunction in order.
pub open spec fn spec_union_loop(
    tuples: Seq<SpecTuple>,
    configs: Seq<SpecNamespaceConfig>,
    o: SpecObject,
    r: Seq<char>,
    u: SpecUser,
    visited: Set<SpecTuple>,
    es: Seq<SpecExpr>,
    fuel: nat,
) -> Option<Result<bool, SpecError>>
    decreases fuel, 2nat, exprs_size(es), 0nat,
{
    if es.len() == 0 {
        Some(Ok(false))
    } else {
        match spec_eval(tuples, configs, o, r, u, visited, es[0], fuel) {
            None => None,
            Some(Err(err)) => Some(Err(err)),
            Some(Ok(true)) => Some(Ok(true)),
            Some(Ok(false)) => spec_union_loop(
                tuples,
                configs,
                o,
                r,
                u,
                visited,
                es.drop_first(),
                fuel,
            ),
        }
    }
}

/// Semantics of an intersection: short-circuit conjunction in order; an empty
/// intersection holds.
pub open spec fn spec_inter_loop(
    tuples: Seq<SpecTuple>,
    configs: Seq<SpecNamespaceConfig>,
    o: SpecObject,
    r: Seq<char>,
    u: SpecUser,
    visited: Set<SpecTuple>,
    es: Seq<SpecExpr>,
    fuel: nat,
) -> Option<Result<bool, SpecError>>
    decreases fuel, 2nat, exprs_size(es), 0nat,
{
    if es.len() == 0 {
        Some(Ok(true))
    } else {
        match spec_eval(tuples, configs, o, r, u, visited, es[0], fuel) {
            None => None,
            Some(Err(err)) => Some(Err(err)),
            Some(Ok(false)) => Some(Ok(false)),
            Some(Ok(true)) => spec_inter_loop(
                tuples,
                configs,
                o,
                r,
                u,
                visited,
                es.drop_first(),
                fuel,
            ),
        }
    }
}


/// Each element's size is below the combined size of the sequence.
pub proof fn lemma_exprs_size_elem(es: Seq<SpecExpr>, i: int)
    requires
        0 <= i < es.len(),
    ensures
        expr_size(es[i]) < exprs_size(es),
    decreases es.len(),
{
    if i > 0 {
        lemma_exprs_size_elem(es.drop_first(), i - 1);
        assert(es.drop_first()[i - 1] == es[i]);
    }
}

/// One step of tail recursion over a sequence: dropping the head of the
/// suffix at `i` gives the suffix at `i + 1`.
proof fn lemma_skip_step<A>(s: Seq<A>, i: int)
    requires
        0 <= i < s.len(),
    ensures
        s.skip(i).len() == s.len() - i,
        s.skip(i)[0] == s[i],
        s.skip(i).drop_first() == s.skip(i + 1),
{
    assert(s.skip(i).drop_first() =~= s.skip(i + 1));
}

/// The recursive check evaluator. Resolves the configuration of the object's
/// namespace and of the relation, then interprets the rewrite with the triple
/// added to the visited set, removing it again on exit. Returns exactly what
/// [`spec_check`] denotes, for every sufficient fuel.
#[verifier::loop_isolation(false)]
fn check_internal<S: TupleStore>(
    object: &Object,
    relation: &Relation,
    user: &User,
    configs: &Vec<NamespaceConfig>,
    store: &S,
    visited: TripleSet,
    Ghost(objs): Ghost<Seq<SpecObject>>,
    Ghost(rels): Ghost<Seq<Seq<char>>>,
) -> (out: (Result<bool, ZanzibarError>, TripleSet))
    requires
        store.inv(),
        visited.wf(),
        objs.contains(object@),
        rels.contains(relation@),
        store_closed(store.tuples(), objs, rels),
        configs_closed(configs_view(configs@), rels),
    ensures
        out.1.wf(),
        out.1@ == visited@,
        forall|f: nat|
            f >= grid_count(objs, rels, user@, visited@) + 1 ==> spec_check(
                store.tuples(),
                configs_view(configs@),
                object@,
                relation@,
                user@,
                visited@,
                f,
            ) == Some(res_view(out.0)),
    decreases grid_count(objs, rels, user@, visited@), 0nat, 0nat,
{
    let ghost t = mk_triple(object@, relation@, user@);
    let ghost v0 = visited@;
    let ghost cv = configs_view(configs@);
    if visited.contains3(object, relation, user) {
        return (Ok(false), visited);
    }
    match find_namespace(configs, &object.namespace) {
        None => (Err(ZanzibarError::NamespaceNotFound(object.namespace.clone())), visited),
        Some(ci) => {
            let cfg = &configs[ci];
            let ghost rv = Seq::new(cfg.relations@.len(), |k: int| cfg.relations@[k]@);
            proof {
                assert(cv[ci as int] == cfg@);
                assert(cfg@.relations =~= rv);
            }
            match find_relation(&cfg.relations, relation) {
                None => (
                    (Err(ZanzibarError::RelationNotFound(relation.0.clone(), cfg.name.clone())),
                    visited),
                ).0,
                Some(ri) => {
                    let mut vis = visited;
                    vis.insert3(object, relation, user);
                    proof {
                        lemma_grid_insert_lt(objs, rels, user@, v0, t);
                    }
                    let rc = &cfg.relations[ri];
                    let this_default = UsersetExpression::This;
                    let expr: &UsersetExpression = match &rc.userset_rewrite {
                        Some(e) => e,
                        None => &this_default,
                    };
                    proof {
                        assert(rv[ri as int] == rc@);
                        assert(expr@ == rewrite_of(cv[ci as int].relations[ri as int]));
                        assert(expr_rels_in(expr@, rels)) by {
                            assert(match cv[ci as int].relations[ri as int].userset_rewrite {
                                Some(e) => expr_rels_in(e, rels),
                                None => true,
                            });
                        }
                    }
                    let (res, vis2) = eval_expression(
                        object,
                        relation,
                        user,
                        configs,
                        store,
                        expr,
                        vis,
                        Ghost(objs),
                        Ghost(rels),
                    );
                    let mut vis3 = vis2;
                    vis3.remove3(object, relation, user);
                    proof {
                        assert(vis3@ =~= v0);
                        assert forall|f: nat| f >= grid_count(objs, rels, user@, v0) + 1
                            implies spec_check(store.tuples(), cv, object@, relation@, user@, v0, f)
                            == Some(res_view(res)) by {
                            assert(f >= 1);
                            assert((f - 1) as nat >= grid_count(objs, rels, user@, v0.insert(t))
                                + 1);
                            assert(spec_eval(
                                store.tuples(),
                                cv,
                                object@,
                                relation@,
                                user@,
                                v0.insert(t),
                                expr@,
                                (f - 1) as nat,
                            ) == Some(res_view(res)));
                            assert(!v0.contains(t));
                            assert(find_ns(cv, object@.namespace) == Some(ci as int));
                            assert(find_rel(cv[ci as int].relations, relation@) == Some(
                                ri as int,
                            ));
                            assert(spec_check(store.tuples(), cv, object@, relation@, user@, v0, f)
                                == spec_eval(
                                store.tuples(),
                                cv,
                                object@,
                                relation@,
                                user@,
                                v0.insert(mk_triple(object@, relation@, user@)),
                                rewrite_of(cv[ci as int].relations[ri as int]),
                                (f - 1) as nat,
                            ));
                        }
                    }
                    (res, vis3)
                },
            }
        },
    }
}

/// The recursive expression evaluator at *(object, relation)*. Returns
/// exactly what [`spec_eval`] denotes, for every sufficient fuel, and leaves
/// the visited set as it found it.
#[verifier::loop_isolation(false)]
fn eval_expression<S: TupleStore>(
    object: &Object,
    relation: &Relation,
    user: &User,
    configs: &Vec<NamespaceConfig>,
    store: &S,
    expression: &UsersetExpression,
    visited: TripleSet,
    Ghost(objs): Ghost<Seq<SpecObject>>,
    Ghost(rels): Ghost<Seq<Seq<char>>>,
) -> (out: (Result<bool, ZanzibarError>, TripleSet))
    requires
        store.inv(),
        visited.wf(),
        objs.contains(object@),
        expr_rels_in(expression@, rels),
        store_closed(store.tuples(), objs, rels),
        configs_closed(configs_view(configs@), rels),
    ensures
        out.1.wf(),
        out.1@ == visited@,
        forall|f: nat|
            f >= grid_count(objs, rels, user@, visited@) + 1 ==> spec_eval(
                store.tuples(),
                configs_view(configs@),
                object@,
                relation@,
                user@,
                visited@,
                expression@,
                f,
            ) == Some(res_view(out.0)),
    decreases grid_count(objs, rels, user@, visited@), 1nat, expr_size(expression@),
{
    let ghost v0 = visited@;
    let ghost cv = configs_view(configs@);
    let ghost tuples = store.tuples();
    let ghost bound = grid_count(objs, rels, user@, v0) + 1;
    match expression {
        UsersetExpression::This => {
            let direct = store.read_tuples(object, Some(relation), Some(user));
            if direct.len() > 0 {
                proof {
                    assert(tuples_view(direct@).len() > 0);
                }
                return (Ok(true), visited);
            }
            proof {
                assert(tuples_view(direct@).len() == 0);
            }
            let ts = store.read_tuples(object, Some(relation), None);
            let ghost fs = filter_tuples(tuples, object@, Some(relation@), None);
            proof {
                assert(tuples_view(ts@) == fs);
                lemma_filter_tuples(tuples, object@, Some(relation@), None);
            }
            proof {
                assert(fs.skip(0) =~= fs);
            }
            let mut vis = visited;
            let mut i: usize = 0;
            while i < ts.len()
                invariant
                    store.inv(),
                    vis.wf(),
                    vis@ == v0,
                    i <= ts@.len(),
                    tuples_view(ts@) == fs,
                    tuples == store.tuples(),
                    cv == configs_view(configs@),
                    bound == grid_count(objs, rels, user@, v0) + 1,
                    objs.contains(object@),
                    store_closed(tuples, objs, rels),
                    configs_closed(cv, rels),
                    forall|k: int| 0 <= k < fs.len() ==> tuples.contains(#[trigger] fs[k]),
                    forall|f: nat|
                        f >= bound ==> spec_this_loop(tuples, cv, user@, v0, fs, f)
                            == spec_this_loop(tuples, cv, user@, v0, fs.skip(i as int), f),
                decreases ts@.len() - i,
            {
                let ghost gi = i as int;
                proof {
                    lemma_skip_step(fs, gi);
                    assert(fs[gi] == ts@[gi]@);
                }
                match &ts[i].user {
                    User::UserId(_) => {
                        proof {
                            assert(fs[gi].user is UserId);
                        }
                    },
                    User::Userset(o2, r2) => {
                        proof {
                            assert(fs[gi].user == SpecUser::Userset(o2@, r2@));
                            let k = choose|k: int|
                                0 <= k < tuples.len() && tuples[k] == fs[gi];
                            assert(match tuples[k].user {
                                SpecUser::Userset(a, b) => objs.contains(a) && rels.contains(b),
                                SpecUser::UserId(_) => true,
                            });
                        }
                        let (r_i, vis2) = check_internal(
                            o2,
                            r2,
                            user,
                            configs,
                            store,
                            vis,
                            Ghost(objs),
                            Ghost(rels),
                        );
                        vis = vis2;
                        match r_i {
                            Ok(true) => {
                                proof {
                                    assert(expression@ == SpecExpr::This);
                                    assert forall|f: nat| f >= bound implies spec_eval(
                                        tuples,
                                        cv,
                                        object@,
                                        relation@,
                                        user@,
                                        v0,
                                        expression@,
                                        f,
                                    ) == Some(res_view(Ok::<bool, ZanzibarError>(true))) by {
                                        assert(spec_check(tuples, cv, o2@, r2@, user@, v0, f)
                                            == Some(Ok::<bool, SpecError>(true)));
                                        assert(spec_this_loop(tuples, cv, user@, v0, fs.skip(gi), f)
                                            == Some(Ok::<bool, SpecError>(true)));
                                        assert(spec_this_loop(tuples, cv, user@, v0, fs, f)
                                            == Some(Ok::<bool, SpecError>(true)));
                                    }
                                }
                                return (Ok(true), vis);
                            },
                            Ok(false) => {},
                            Err(e) => {
                                let ghost ev = e@;
                                proof {
                                    assert(expression@ == SpecExpr::This);
                                    assert forall|f: nat| f >= bound implies spec_eval(
                                        tuples,
                                        cv,
                                        object@,
                                        relation@,
                                        user@,
                                        v0,
                                        expression@,
                                        f,
                                    ) == Some(Err::<bool, SpecError>(ev)) by {
                                        assert(spec_check(tuples, cv, o2@, r2@, user@, v0, f)
                                            == Some(Err::<bool, SpecError>(ev)));
                                        assert(spec_this_loop(tuples, cv, user@, v0, fs.skip(gi), f)
                                            == Some(Err::<bool, SpecError>(ev)));
                                        assert(spec_this_loop(tuples, cv, user@, v0, fs, f)
                                            == Some(Err::<bool, SpecError>(ev)));
                                    }
                                }
                                return (Err(e), vis);
                            },
                        }
                    },
                }
                proof {
                    assert forall|f: nat| f >= bound implies spec_this_loop(
                        tuples,
                        cv,
                        user@,
                        v0,
                        fs.skip(gi),
                        f,
                    ) == spec_this_loop(tuples, cv, user@, v0, fs.skip(gi + 1), f) by {
                        if fs[gi].user is Userset {
                            let (o2, r2) = (fs[gi].user->Userset_0, fs[gi].user->Userset_1);
                            assert(spec_check(tuples, cv, o2, r2, user@, v0, f) == Some(Ok::<
                                bool,
                                SpecError,
                            >(false)));
                        }
                    }
                }
                i += 1;
            }
            proof {
                assert(fs.skip(fs.len() as int) =~= Seq::<SpecTuple>::empty());
                assert(fs.len() == ts@.len());
                assert(expression@ == SpecExpr::This);
                assert forall|f: nat| f >= bound implies spec_eval(tuples, cv, object@, relation@,
                user@, v0, expression@, f) == Some(Ok::<bool, SpecError>(false)) by {
                    assert(spec_this_loop(tuples, cv, user@, v0, fs.skip(i as int), f) == Some(Ok::<
                        bool,
                        SpecError,
                    >(false)));
                    assert(spec_this_loop(tuples, cv, user@, v0, fs, f) == Some(Ok::<
                        bool,
                        SpecError,
                    >(false)));
                }
            }
            (Ok(false), vis)
        },
        UsersetExpression::ComputedUserset { relation: r2 } => {
            proof {
                assert(expression@ == SpecExpr::ComputedUserset { relation: r2@ });
            }
            let (res, vis2) = check_internal(
                object,
                r2,
                user,
                configs,
                store,
                visited,
                Ghost(objs),
                Ghost(rels),
            );
            proof {
                assert forall|f: nat| f >= bound implies spec_eval(tuples, cv, object@, relation@,
                user@, v0, expression@, f) == Some(res_view(res)) by {
                    assert(spec_check(tuples, cv, object@, r2@, user@, v0, f) == Some(res_view(
                        res,
                    )));
                }
            }
            (res, vis2)
        },
        UsersetExpression::TupleToUserset { tupleset_relation, computed_userset_relation } => {
            let ts = store.read_tuples(object, Some(tupleset_relation), None);
            let ghost fs = filter_tuples(tuples, object@, Some(tupleset_relation@), None);
            proof {
                assert(expression@ == SpecExpr::TupleToUserset {
                    tupleset_relation: tupleset_relation@,
                    computed_userset_relation: computed_userset_relation@,
                });
                assert(tuples_view(ts@) == fs);
                lemma_filter_tuples(tuples, object@, Some(tupleset_relation@), None);
            }
            let ghost cr = computed_userset_relation@;
            proof {
                assert(fs.skip(0) =~= fs);
            }
            let mut vis = visited;
            let mut i: usize = 0;
            while i < ts.len()
                invariant
                    store.inv(),
                    vis.wf(),
                    vis@ == v0,
                    i <= ts@.len(),
                    tuples_view(ts@) == fs,
                    tuples == store.tuples(),
                    cv == configs_view(configs@),
                    bound == grid_count(objs, rels, user@, v0) + 1,
                    cr == computed_userset_relation@,
                    rels.contains(cr),
                    store_closed(tuples, objs, rels),
                    configs_closed(cv, rels),
                    forall|k: int| 0 <= k < fs.len() ==> tuples.contains(#[trigger] fs[k]),
                    forall|f: nat|
                        f >= bound ==> spec_ttu_loop(tuples, cv, cr, user@, v0, fs, f)
                            == spec_ttu_loop(tuples, cv, cr, user@, v0, fs.skip(i as int), f),
                decreases ts@.len() - i,
            {
                let ghost gi = i as int;
                proof {
                    lemma_skip_step(fs, gi);
                    assert(fs[gi] == ts@[gi]@);
                }
                match &ts[i].user {
                    User::UserId(_) => {
                        proof {
                            assert(fs[gi].user is UserId);
                        }
                    },
                    User::Userset(o2, _) => {
                        proof {
                            let k = choose|k: int|
                                0 <= k < tuples.len() && tuples[k] == fs[gi];
                            assert(match tuples[k].user {
                                SpecUser::Userset(a, b) => objs.contains(a) && rels.contains(b),
                                SpecUser::UserId(_) => true,
                            });
                        }
                        let (r_i, vis2) = check_internal(
                            o2,
                            computed_userset_relation,
                            user,
                            configs,
                            store,
                            vis,
                            Ghost(objs),
                            Ghost(rels),
                        );
                        vis = vis2;
                        match r_i {
                            Ok(true) => {
                                proof {
                                    assert forall|f: nat| f >= bound implies spec_eval(
                                        tuples,
                                        cv,
                                        object@,
                                        relation@,
                                        user@,
                                        v0,
                                        expression@,
                                        f,
                                    ) == Some(res_view(Ok::<bool, ZanzibarError>(true))) by {
                                        assert(spec_check(tuples, cv, o2@, cr, user@, v0, f)
                                            == Some(Ok::<bool, SpecError>(true)));
                                        assert(spec_ttu_loop(tuples, cv, cr, user@, v0,
                                        fs.skip(gi), f) == Some(Ok::<bool, SpecError>(true)));
                                        assert(spec_ttu_loop(tuples, cv, cr, user@, v0, fs, f)
                                            == Some(Ok::<bool, SpecError>(true)));
                                    }
                                }
                                return (Ok(true), vis);
                            },
                            Ok(false) => {},
                            Err(e) => {
                                let ghost ev = e@;
                                proof {
                                    assert forall|f: nat| f >= bound implies spec_eval(
                                        tuples,
                                        cv,
                                        object@,
                                        relation@,
                                        user@,
                                        v0,
                                        expression@,
                                        f,
                                    ) == Some(Err::<bool, SpecError>(ev)) by {
                                        assert(spec_check(tuples, cv, o2@, cr, user@, v0, f)
                                            == Some(Err::<bool, SpecError>(ev)));
                                        assert(spec_ttu_loop(tuples, cv, cr, user@, v0,
                                        fs.skip(gi), f) == Some(Err::<bool, SpecError>(ev)));
                                        assert(spec_ttu_loop(tuples, cv, cr, user@, v0, fs, f)
                                            == Some(Err::<bool, SpecError>(ev)));
                                    }
                                }
                                return (Err(e), vis);
                            },
                        }
                    },
                }
                proof {
                    assert forall|f: nat| f >= bound implies spec_ttu_loop(
                        tuples,
                        cv,
                        cr,
                        user@,
                        v0,
                        fs.skip(gi),
                        f,
                    ) == spec_ttu_loop(tuples, cv, cr, user@, v0, fs.skip(gi + 1), f) by {
                        if fs[gi].user is Userset {
                            let o2 = fs[gi].user->Userset_0;
                            assert(spec_check(tuples, cv, o2, cr, user@, v0, f) == Some(Ok::<
                                bool,
                                SpecError,
                            >(false)));
                        }
                    }
                }
                i += 1;
            }
            proof {
                assert(fs.skip(fs.len() as int) =~= Seq::<SpecTuple>::empty());
                assert(fs.len() == ts@.len());
                assert forall|f: nat| f >= bound implies spec_eval(tuples, cv, object@, relation@,
                user@, v0, expression@, f) == Some(Ok::<bool, SpecError>(false)) by {
                    assert(spec_ttu_loop(tuples, cv, cr, user@, v0, fs.skip(i as int), f) == Some(
                        Ok::<bool, SpecError>(false),
                    ));
                    assert(spec_ttu_loop(tuples, cv, cr, user@, v0, fs, f) == Some(Ok::<
                        bool,
                        SpecError,
                    >(false)));
                }
            }
            (Ok(false), vis)
        },
        UsersetExpression::Union(es) => {
            let ghost cs = crate::model::exprs_view(es@);
            proof {
                crate::model::lemma_exprs_view(es@);
                assert(expression@ == SpecExpr::Union(cs));
                lemma_exprs_rels_in(cs, rels);
            }
            proof {
                assert(cs.skip(0) =~= cs);
            }
            let mut vis = visited;
            let mut j: usize = 0;
            while j < es.len()
                invariant
                    store.inv(),
                    vis.wf(),
                    vis@ == v0,
                    j <= es@.len(),
                    cs == crate::model::exprs_view(es@),
                    cs.len() == es@.len(),
                    forall|k: int| 0 <= k < es@.len() ==> cs[k] == crate::model::expr_view(es@[k]),
                    forall|k: int| 0 <= k < cs.len() ==> expr_rels_in(#[trigger] cs[k], rels),
                    tuples == store.tuples(),
                    cv == configs_view(configs@),
                    bound == grid_count(objs, rels, user@, v0) + 1,
                    objs.contains(object@),
                    store_closed(tuples, objs, rels),
                    configs_closed(cv, rels),
                    forall|f: nat|
                        f >= bound ==> spec_union_loop(tuples, cv, object@, relation@, user@, v0,
                        cs, f) == spec_union_loop(tuples, cv, object@, relation@, user@, v0,
                        cs.skip(j as int), f),
                decreases es@.len() - j,
            {
                let ghost gj = j as int;
                proof {
                    lemma_skip_step(cs, gj);
                    lemma_exprs_size_elem(cs, gj);
                    assert(es@[gj]@ == cs[gj]);
                }
                let (r_j, vis2) = eval_expression(
                    object,
                    relation,
                    user,
                    configs,
                    store,
                    &es[j],
                    vis,
                    Ghost(objs),
                    Ghost(rels),
                );
                vis = vis2;
                match r_j {
                    Ok(true) => {
                        proof {
                            assert forall|f: nat| f >= bound implies spec_eval(tuples, cv, object@,
                            relation@, user@, v0, expression@, f) == Some(Ok::<bool, SpecError>(
                                true,
                            )) by {
                                assert(spec_eval(tuples, cv, object@, relation@, user@, v0, cs[gj],
                                f) == Some(Ok::<bool, SpecError>(true)));
                                assert(spec_union_loop(tuples, cv, object@, relation@, user@, v0,
                                cs.skip(gj), f) == Some(Ok::<bool, SpecError>(true)));
                                assert(spec_union_loop(tuples, cv, object@, relation@, user@, v0,
                                cs, f) == Some(Ok::<bool, SpecError>(true)));
                                assert(expression@ == SpecExpr::Union(cs));
                                assert(spec_eval(tuples, cv, object@, relation@, user@, v0,
                                expression@, f) == spec_union_loop(tuples, cv, object@, relation@,
                                user@, v0, cs, f));
                            }
                        }
                        return (Ok(true), vis);
                    },
                    Ok(false) => {},
                    Err(e) => {
                        let ghost ev = e@;
                        proof {
                            assert forall|f: nat| f >= bound implies spec_eval(tuples, cv, object@,
                            relation@, user@, v0, expression@, f) == Some(Err::<bool, SpecError>(
                                ev,
                            )) by {
                                assert(spec_eval(tuples, cv, object@, relation@, user@, v0, cs[gj],
                                f) == Some(Err::<bool, SpecError>(ev)));
                                assert(spec_union_loop(tuples, cv, object@, relation@, user@, v0,
                                cs.skip(gj), f) == Some(Err::<bool, SpecError>(ev)));
                                assert(spec_union_loop(tuples, cv, object@, relation@, user@, v0,
                                cs, f) == Some(Err::<bool, SpecError>(ev)));
                                assert(expression@ == SpecExpr::Union(cs));
                                assert(spec_eval(tuples, cv, object@, relation@, user@, v0,
                                expression@, f) == spec_union_loop(tuples, cv, object@, relation@,
                                user@, v0, cs, f));
                            }
                        }
                        return (Err(e), vis);
                    },
                }
                proof {
                    assert forall|f: nat| f >= bound implies spec_union_loop(tuples, cv, object@,
                    relation@, user@, v0, cs.skip(gj), f) == spec_union_loop(tuples, cv, object@,
                    relation@, user@, v0, cs.skip(gj + 1), f) by {
                        assert(spec_eval(tuples, cv, object@, relation@, user@, v0, cs[gj], f)
                            == Some(Ok::<bool, SpecError>(false)));
                    }
                }
                j += 1;
            }
            proof {
                assert(cs.skip(cs.len() as int) =~= Seq::<SpecExpr>::empty());
                assert forall|f: nat| f >= bound implies spec_eval(tuples, cv, object@, relation@,
                user@, v0, expression@, f) == Some(Ok::<bool, SpecError>(false)) by {
                    assert(spec_union_loop(tuples, cv, object@, relation@, user@, v0,
                    cs.skip(j as int), f) == Some(Ok::<bool, SpecError>(false)));
                    assert(spec_union_loop(tuples, cv, object@, relation@, user@, v0, cs, f)
                        == Some(Ok::<bool, SpecError>(false)));
                }
            }
            (Ok(false), vis)
        },
        UsersetExpression::Intersection(es) => {
            let ghost cs = crate::model::exprs_view(es@);
            proof {
                crate::model::lemma_exprs_view(es@);
                assert(expression@ == SpecExpr::Intersection(cs));
                lemma_exprs_rels_in(cs, rels);
            }
            proof {
                assert(cs.skip(0) =~= cs);
            }
            let mut vis = visited;
            let mut j: usize = 0;
            while j < es.len()
                invariant
                    store.inv(),
                    vis.wf(),
                    vis@ == v0,
                    j <= es@.len(),
                    cs == crate::model::exprs_view(es@),
                    cs.len() == es@.len(),
                    forall|k: int| 0 <= k < es@.len() ==> cs[k] == crate::model::expr_view(es@[k]),
                    forall|k: int| 0 <= k < cs.len() ==> expr_rels_in(#[trigger] cs[k], rels),
                    tuples == store.tuples(),
                    cv == configs_view(configs@),
                    bound == grid_count(objs, rels, user@, v0) + 1,
                    objs.contains(object@),
                    store_closed(tuples, objs, rels),
                    configs_closed(cv, rels),
                    forall|f: nat|
                        f >= bound ==> spec_inter_loop(tuples, cv, object@, relation@, user@, v0,
                        cs, f) == spec_inter_loop(tuples, cv, object@, relation@, user@, v0,
                        cs.skip(j as int), f),
                decreases es@.len() - j,
            {
                let ghost gj = j as int;
                proof {
                    lemma_skip_step(cs, gj);
                    lemma_exprs_size_elem(cs, gj);
                    assert(es@[gj]@ == cs[gj]);
                }
                let (r_j, vis2) = eval_expression(
                    object,
                    relation,
                    user,
                    configs,
                    store,
                    &es[j],
                    vis,
                    Ghost(objs),
                    Ghost(rels),
                );
                vis = vis2;
                match r_j {
                    Ok(true) => {},
                    Ok(false) => {
                        proof {
                            assert forall|f: nat| f >= bound implies spec_eval(tuples, cv, object@,
                            relation@, user@, v0, expression@, f) == Some(Ok::<bool, SpecError>(
                                false,
                            )) by {
                                assert(spec_eval(tuples, cv, object@, relation@, user@, v0, cs[gj],
                                f) == Some(Ok::<bool, SpecError>(false)));
                                assert(spec_inter_loop(tuples, cv, object@, relation@, user@, v0,
                                cs.skip(gj), f) == Some(Ok::<bool, SpecError>(false)));
                                assert(spec_inter_loop(tuples, cv, object@, relation@, user@, v0,
                                cs, f) == Some(Ok::<bool, SpecError>(false)));
                                assert(expression@ == SpecExpr::Intersection(cs));
                                assert(spec_eval(tuples, cv, object@, relation@, user@, v0,
                                expression@, f) == spec_inter_loop(tuples, cv, object@, relation@,
                                user@, v0, cs, f));
                            }
                        }
                        return (Ok(false), vis);
                    },
                    Err(e) => {
                        let ghost ev = e@;
                        proof {
                            assert forall|f: nat| f >= bound implies spec_eval(tuples, cv, object@,
                            relation@, user@, v0, expression@, f) == Some(Err::<bool, SpecError>(
                                ev,
                            )) by {
                                assert(spec_eval(tuples, cv, object@, relation@, user@, v0, cs[gj],
                                f) == Some(Err::<bool, SpecError>(ev)));
                                assert(spec_inter_loop(tuples, cv, object@, relation@, user@, v0,
                                cs.skip(gj), f) == Some(Err::<bool, SpecError>(ev)));
                                assert(spec_inter_loop(tuples, cv, object@, relation@, user@, v0,
                                cs, f) == Some(Err::<bool, SpecError>(ev)));
                                assert(expression@ == SpecExpr::Intersection(cs));
                                assert(spec_eval(tuples, cv, object@, relation@, user@, v0,
                                expression@, f) == spec_inter_loop(tuples, cv, object@, relation@,
                                user@, v0, cs, f));
                            }
                        }
                        return (Err(e), vis);
                    },
                }
                proof {
                    assert forall|f: nat| f >= bound implies spec_inter_loop(tuples, cv, object@,
                    relation@, user@, v0, cs.skip(gj), f) == spec_inter_loop(tuples, cv, object@,
                    relation@, user@, v0, cs.skip(gj + 1), f) by {
                        assert(spec_eval(tuples, cv, object@, relation@, user@, v0, cs[gj], f)
                            == Some(Ok::<bool, SpecError>(true)));
                    }
                }
                j += 1;
            }
            proof {
                assert(cs.skip(cs.len() as int) =~= Seq::<SpecExpr>::empty());
                assert forall|f: nat| f >= bound implies spec_eval(tuples, cv, object@, relation@,
                user@, v0, expression@, f) == Some(Ok::<bool, SpecError>(true)) by {
                    assert(spec_inter_loop(tuples, cv, object@, relation@, user@, v0,
                    cs.skip(j as int), f) == Some(Ok::<bool, SpecError>(true)));
                    assert(spec_inter_loop(tuples, cv, object@, relation@, user@, v0, cs, f)
                        == Some(Ok::<bool, SpecError>(true)));
                }
            }
            (Ok(true), vis)
        },
        UsersetExpression::Exclusion { base, exclude } => {
            proof {
                assert(expression@ == SpecExpr::Exclusion {
                    base: Box::new(base@),
                    exclude: Box::new(exclude@),
                });
            }
            let (r_ex, vis2) = eval_expression(
                object,
                relation,
                user,
                configs,
                store,
                exclude,
                visited,
                Ghost(objs),
                Ghost(rels),
            );
            proof {
                assert forall|f: nat| f >= bound implies spec_eval(tuples, cv, object@, relation@,
                user@, v0, exclude@, f) == Some(res_view(r_ex)) by {}
            }
            match r_ex {
                Err(e) => {
                    let ghost ev = e@;
                    proof {
                        assert forall|f: nat| f >= bound implies spec_eval(tuples, cv, object@,
                        relation@, user@, v0, expression@, f) == Some(Err::<bool, SpecError>(
                            ev,
                        )) by {
                            assert(spec_eval(tuples, cv, object@, relation@, user@, v0, exclude@, f)
                                == Some(Err::<bool, SpecError>(ev)));
                        }
                    }
                    (Err(e), vis2)
                },
                Ok(true) => {
                    proof {
                        assert forall|f: nat| f >= bound implies spec_eval(tuples, cv, object@,
                        relation@, user@, v0, expression@, f) == Some(Ok::<bool, SpecError>(
                            false,
                        )) by {
                            assert(spec_eval(tuples, cv, object@, relation@, user@, v0, exclude@, f)
                                == Some(Ok::<bool, SpecError>(true)));
                        }
                    }
                    (Ok(false), vis2)
                },
                Ok(false) => {
                    let (r_b, vis3) = eval_expression(
                        object,
                        relation,
                        user,
                        configs,
                        store,
                        base,
                        vis2,
                        Ghost(objs),
                        Ghost(rels),
                    );
                    proof {
                        assert forall|f: nat| f >= bound implies spec_eval(tuples, cv, object@,
                        relation@, user@, v0, expression@, f) == Some(res_view(r_b)) by {
                            assert(spec_eval(tuples, cv, object@, relation@, user@, v0, exclude@, f)
                                == Some(Ok::<bool, SpecError>(false)));
                            assert(spec_eval(tuples, cv, object@, relation@, user@, v0, base@, f)
                                == Some(res_view(r_b)));
                        }
                    }
                    (r_b, vis3)
                },
            }
        },
    }
}


/// Does every element of `a` occur in `b`?
pub open spec fn sub_rels(a: Seq<Seq<char>>, b: Seq<Seq<char>>) -> bool {
    forall|x: Seq<char>| a.contains(x) ==> b.contains(x)
}

/// Membership carries over from a part of a concatenation to the whole.
proof fn lemma_add_contains<A>(a: Seq<A>, b: Seq<A>)
    ensures
        forall|x: A| a.contains(x) ==> #[trigger] (a + b).contains(x),
        forall|x: A| b.contains(x) ==> #[trigger] (a + b).contains(x),
{
    assert forall|x: A| a.contains(x) implies #[trigger] (a + b).contains(x) by {
        let i = choose|i: int| 0 <= i < a.len() && a[i] == x;
        assert((a + b)[i] == x);
    }
    assert forall|x: A| b.contains(x) implies #[trigger] (a + b).contains(x) by {
        let i = choose|i: int| 0 <= i < b.len() && b[i] == x;
        assert((a + b)[a.len() + i] == x);
    }
}

/// The objects named by userset users of the stored tuples.
pub open spec fn userset_objs(ts: Seq<SpecTuple>) -> Seq<SpecObject>
    decreases ts.len(),
{
    if ts.len() == 0 {
        Seq::empty()
    } else {
        (match ts[0].user {
            SpecUser::Userset(o2, _) => seq![o2],
            SpecUser::UserId(_) => Seq::empty(),
        }) + userset_objs(ts.drop_first())
    }
}

/// The relations named by userset users of the stored tuples.
pub open spec fn userset_rels(ts: Seq<SpecTuple>) -> Seq<Seq<char>>
    decreases ts.len(),
{
    if ts.len() == 0 {
        Seq::empty()
    } else {
        (match ts[0].user {
            SpecUser::Userset(_, r2) => seq![r2],
            SpecUser::UserId(_) => Seq::empty(),
        }) + userset_rels(ts.drop_first())
    }
}

/// The relation names a rewrite expression can route a check to.
pub open spec fn expr_rels(e: SpecExpr) -> Seq<Seq<char>>
    decreases e,
{
    match e {
        SpecExpr::This => Seq::empty(),
        SpecExpr::ComputedUserset { relation } => seq![relation],
        SpecExpr::TupleToUserset { computed_userset_relation, .. } => seq![
            computed_userset_relation,
        ],
        SpecExpr::Union(es) => exprs_rels(es),
        SpecExpr::Intersection(es) => exprs_rels(es),
        SpecExpr::Exclusion { base, exclude } => expr_rels(*base) + expr_rels(*exclude),
    }
}

/// The relation names of a sequence of rewrite expressions.
pub open spec fn exprs_rels(es: Seq<SpecExpr>) -> Seq<Seq<char>>
    decreases es,
{
    if es.len() == 0 {
        Seq::empty()
    } else {
        expr_rels(es[0]) + exprs_rels(es.drop_first())
    }
}

/// The relation names routed to by the rewrites of a relation list.
pub open spec fn relcfgs_rels(rcs: Seq<SpecRelationConfig>) -> Seq<Seq<char>>
    decreases rcs.len(),
{
    if rcs.len() == 0 {
        Seq::empty()
    } else {
        (match rcs[0].userset_rewrite {
            Some(e) => expr_rels(e),
            None => Seq::empty(),
        }) + relcfgs_rels(rcs.drop_first())
    }
}

/// The relation names routed to by any rewrite of any configuration.
pub open spec fn configs_rels(cfgs: Seq<SpecNamespaceConfig>) -> Seq<Seq<char>>
    decreases cfgs.len(),
{
    if cfgs.len() == 0 {
        Seq::empty()
    } else {
        relcfgs_rels(cfgs[0].relations) + configs_rels(cfgs.drop_first())
    }
}

/// [`userset_objs`] and [`userset_rels`] cover every userset user stored.
proof fn lemma_userset_closure(ts: Seq<SpecTuple>)
    ensures
        forall|k: int|
            0 <= k < ts.len() ==> match (#[trigger] ts[k]).user {
                SpecUser::Userset(o2, r2) => userset_objs(ts).contains(o2) && userset_rels(
                    ts,
                ).contains(r2),
                SpecUser::UserId(_) => true,
            },
    decreases ts.len(),
{
    if ts.len() > 0 {
        lemma_userset_closure(ts.drop_first());
        assert forall|k: int| 0 <= k < ts.len() implies match (#[trigger] ts[k]).user {
            SpecUser::Userset(o2, r2) => userset_objs(ts).contains(o2) && userset_rels(
                ts,
            ).contains(r2),
            SpecUser::UserId(_) => true,
        } by {
            match ts[k].user {
                SpecUser::Userset(o2, r2) => {
                    if k == 0 {
                        assert(userset_objs(ts) == seq![o2] + userset_objs(ts.drop_first()));
                        assert((seq![o2] + userset_objs(ts.drop_first()))[0] == o2);
                        assert(userset_rels(ts) == seq![r2] + userset_rels(ts.drop_first()));
                        assert((seq![r2] + userset_rels(ts.drop_first()))[0] == r2);
                    } else {
                        assert(ts.drop_first()[k - 1] == ts[k]);
                        assert(userset_objs(ts.drop_first()).contains(o2));
                        assert(userset_rels(ts.drop_first()).contains(r2));
                        let i = choose|i: int|
                            0 <= i < userset_objs(ts.drop_first()).len() && userset_objs(
                                ts.drop_first(),
                            )[i] == o2;
                        let hd = match ts[0].user {
                            SpecUser::Userset(a, _) => seq![a],
                            SpecUser::UserId(_) => Seq::<SpecObject>::empty(),
                        };
                        assert(userset_objs(ts) == hd + userset_objs(ts.drop_first()));
                        assert((hd + userset_objs(ts.drop_first()))[hd.len() + i] == o2);
                        let j = choose|j: int|
                            0 <= j < userset_rels(ts.drop_first()).len() && userset_rels(
                                ts.drop_first(),
                            )[j] == r2;
                        let hr = match ts[0].user {
                            SpecUser::Userset(_, b) => seq![b],
                            SpecUser::UserId(_) => Seq::<Seq<char>>::empty(),
                        };
                        assert(userset_rels(ts) == hr + userset_rels(ts.drop_first()));
                        assert((hr + userset_rels(ts.drop_first()))[hr.len() + j] == r2);
                    }
                },
                SpecUser::UserId(_) => {},
            }
        }
    }
}

/// An expression routes only to relations of any superset of its own names.
proof fn lemma_expr_rels_in_mono(e: SpecExpr, a: Seq<Seq<char>>, b: Seq<Seq<char>>)
    requires
        expr_rels_in(e, a),
        sub_rels(a, b),
    ensures
        expr_rels_in(e, b),
    decreases e,
{
    match e {
        SpecExpr::Union(es) => lemma_exprs_rels_in_mono(es, a, b),
        SpecExpr::Intersection(es) => lemma_exprs_rels_in_mono(es, a, b),
        SpecExpr::Exclusion { base, exclude } => {
            lemma_expr_rels_in_mono(*base, a, b);
            lemma_expr_rels_in_mono(*exclude, a, b);
        },
        _ => {},
    }
}

/// [`lemma_expr_rels_in_mono`] for a sequence of expressions.
proof fn lemma_exprs_rels_in_mono(es: Seq<SpecExpr>, a: Seq<Seq<char>>, b: Seq<Seq<char>>)
    requires
        exprs_rels_in(es, a),
        sub_rels(a, b),
    ensures
        exprs_rels_in(es, b),
    decreases es,
{
    if es.len() > 0 {
        lemma_expr_rels_in_mono(es[0], a, b);
        lemma_exprs_rels_in_mono(es.drop_first(), a, b);
    }
}

/// An expression routes only to its own relation names.
proof fn lemma_expr_rels_self(e: SpecExpr)
    ensures
        expr_rels_in(e, expr_rels(e)),
    decreases e,
{
    match e {
        SpecExpr::Union(es) => lemma_exprs_rels_self(es),
        SpecExpr::Intersection(es) => lemma_exprs_rels_self(es),
        SpecExpr::Exclusion { base, exclude } => {
            lemma_expr_rels_self(*base);
            lemma_expr_rels_self(*exclude);
            lemma_add_contains(expr_rels(*base), expr_rels(*exclude));
            lemma_expr_rels_in_mono(*base, expr_rels(*base), expr_rels(e));
            lemma_expr_rels_in_mono(*exclude, expr_rels(*exclude), expr_rels(e));
        },
        SpecExpr::ComputedUserset { relation } => {
            assert(expr_rels(e)[0] == relation);
        },
        SpecExpr::TupleToUserset { computed_userset_relation, .. } => {
            assert(expr_rels(e)[0] == computed_userset_relation);
        },
        SpecExpr::This => {},
    }
}

/// [`lemma_expr_rels_self`] for a sequence of expressions.
proof fn lemma_exprs_rels_self(es: Seq<SpecExpr>)
    ensures
        exprs_rels_in(es, exprs_rels(es)),
    decreases es,
{
    if es.len() > 0 {
        lemma_expr_rels_self(es[0]);
        lemma_exprs_rels_self(es.drop_first());
        lemma_add_contains(expr_rels(es[0]), exprs_rels(es.drop_first()));
        lemma_expr_rels_in_mono(es[0], expr_rels(es[0]), exprs_rels(es));
        lemma_exprs_rels_in_mono(es.drop_first(), exprs_rels(es.drop_first()), exprs_rels(es));
    }
}

/// The rewrites of a relation list route only to [`relcfgs_rels`] of it.
proof fn lemma_relcfgs_rels_self(rcs: Seq<SpecRelationConfig>)
    ensures
        forall|k: int|
            0 <= k < rcs.len() ==> match (#[trigger] rcs[k]).userset_rewrite {
                Some(e) => expr_rels_in(e, relcfgs_rels(rcs)),
                None => true,
            },
    decreases rcs.len(),
{
    if rcs.len() > 0 {
        lemma_relcfgs_rels_self(rcs.drop_first());
        let hd = match rcs[0].userset_rewrite {
            Some(e) => expr_rels(e),
            None => Seq::empty(),
        };
        lemma_add_contains(hd, relcfgs_rels(rcs.drop_first()));
        assert forall|k: int| 0 <= k < rcs.len() implies match (
        #[trigger] rcs[k]).userset_rewrite {
            Some(e) => expr_rels_in(e, relcfgs_rels(rcs)),
            None => true,
        } by {
            if k == 0 {
                match rcs[0].userset_rewrite {
                    Some(e) => {
                        lemma_expr_rels_self(e);
                        lemma_expr_rels_in_mono(e, expr_rels(e), relcfgs_rels(rcs));
                    },
                    None => {},
                }
            } else {
                assert(rcs.drop_first()[k - 1] == rcs[k]);
                match rcs[k].userset_rewrite {
                    Some(e) => {
                        lemma_expr_rels_in_mono(
                            e,
                            relcfgs_rels(rcs.drop_first()),
                            relcfgs_rels(rcs),
                        );
                    },
                    None => {},
                }
            }
        }
    }
}

/// Every rewrite of every configuration routes only to [`configs_rels`].
proof fn lemma_configs_rels_self(cfgs: Seq<SpecNamespaceConfig>)
    ensures
        configs_closed(cfgs, configs_rels(cfgs)),
    decreases cfgs.len(),
{
    if cfgs.len() > 0 {
        lemma_configs_rels_self(cfgs.drop_first());
        lemma_relcfgs_rels_self(cfgs[0].relations);
        lemma_add_contains(relcfgs_rels(cfgs[0].relations), configs_rels(cfgs.drop_first()));
        assert forall|c: int, k: int|
            0 <= c < cfgs.len() && 0 <= k < cfgs[c].relations.len() implies match (
        #[trigger] cfgs[c].relations[k]).userset_rewrite {
            Some(e) => expr_rels_in(e, configs_rels(cfgs)),
            None => true,
        } by {
            if c == 0 {
                match cfgs[0].relations[k].userset_rewrite {
                    Some(e) => {
                        lemma_expr_rels_in_mono(
                            e,
                            relcfgs_rels(cfgs[0].relations),
                            configs_rels(cfgs),
                        );
                    },
                    None => {},
                }
            } else {
                assert(cfgs.drop_first()[c - 1] == cfgs[c]);
                match cfgs[c].relations[k].userset_rewrite {
                    Some(e) => {
                        lemma_expr_rels_in_mono(
                            e,
                            configs_rels(cfgs.drop_first()),
                            configs_rels(cfgs),
                        );
                    },
                    None => {},
                }
            }
        }
    }
}

/// The object and relation universe for one check, and the facts the
/// evaluator needs of it.
proof fn setup_universe(
    tuples: Seq<SpecTuple>,
    cfgs: Seq<SpecNamespaceConfig>,
    o: SpecObject,
    r: Seq<char>,
) -> (u: (Seq<SpecObject>, Seq<Seq<char>>))
    ensures
        u.0.contains(o),
        u.1.contains(r),
        store_closed(tuples, u.0, u.1),
        configs_closed(cfgs, u.1),
{
    let objs = seq![o] + userset_objs(tuples);
    let rels = seq![r] + (userset_rels(tuples) + configs_rels(cfgs));
    assert((seq![o] + userset_objs(tuples))[0] == o);
    assert((seq![r] + (userset_rels(tuples) + configs_rels(cfgs)))[0] == r);
    lemma_add_contains(seq![o], userset_objs(tuples));
    lemma_add_contains(seq![r], userset_rels(tuples) + configs_rels(cfgs));
    lemma_add_contains(userset_rels(tuples), configs_rels(cfgs));
    lemma_userset_closure(tuples);
    lemma_configs_rels_self(cfgs);
    assert forall|c: int, k: int|
        0 <= c < cfgs.len() && 0 <= k < cfgs[c].relations.len() implies match (
    #[trigger] cfgs[c].relations[k]).userset_rewrite {
        Some(e) => expr_rels_in(e, rels),
        None => true,
    } by {
        match cfgs[c].relations[k].userset_rewrite {
            Some(e) => {
                lemma_expr_rels_in_mono(e, configs_rels(cfgs), rels);
            },
            None => {},
        }
    }
    (objs, rels)
}

/// Evaluates one check request against the given configurations and store,
/// threading the caller's visited set. The result is precisely the limit of
/// the fuel-indexed semantics [`spec_check`] from the given visited set;
/// the visited set is returned as it came.
pub fn check<S: TupleStore>(
    object: &Object,
    relation: &Relation,
    user: &User,
    configs: &Vec<NamespaceConfig>,
    store: &S,
    visited: &mut TripleSet,
) -> (res: Result<bool, ZanzibarError>)
    requires
        store.inv(),
        old(visited).wf(),
    ensures
        final(visited).wf(),
        final(visited)@ == old(visited)@,
        exists|f: nat|
            spec_check(
                store.tuples(),
                configs_view(configs@),
                object@,
                relation@,
                user@,
                old(visited)@,
                f,
            ) == Some(res_view(res)),
{
    let ghost (objs, rels) = setup_universe(
        store.tuples(),
        configs_view(configs@),
        object@,
        relation@,
    );
    let mut work = TripleSet::new();
    core::mem::swap(visited, &mut work);
    let (res, work2) = check_internal(
        object,
        relation,
        user,
        configs,
        store,
        work,
        Ghost(objs),
        Ghost(rels),
    );
    let mut work3 = work2;
    core::mem::swap(visited, &mut work3);
    proof {
        let f0 = grid_count(objs, rels, user@, old(visited)@) + 1;
        assert(spec_check(
            store.tuples(),
            configs_view(configs@),
            object@,
            relation@,
            user@,
            old(visited)@,
            f0,
        ) == Some(res_view(res)));
    }
    res
}

/// Does the check semantics, started with no visited triples, converge to the
/// outcome `x`? The executable check from a fresh visited set returns exactly
/// the `x` this holds of; [`lemma_check_outcome_unique`] shows there is at
/// most one.
pub open spec fn check_outcome(
    tuples: Seq<SpecTuple>,
    configs: Seq<SpecNamespaceConfig>,
    o: SpecObject,
    r: Seq<char>,
    u: SpecUser,
    x: Result<bool, SpecError>,
) -> bool {
    exists|f: nat| spec_check(tuples, configs, o, r, u, Set::empty(), f) == Some(x)
}


/// View of an expand result, lifting the error to its view.
pub open spec fn exp_res_view(r: Result<ExpandedUserset, ZanzibarError>) -> Result<
    SpecExpanded,
    SpecError,
> {
    match r {
        Ok(t) => Ok(expanded_view(t)),
        Err(e) => Err(e@),
    }
}

/// The visited set of the expand evaluator: a duplicate-free vector of
/// *(object, relation)* pairs, viewed as a set.
pub struct PairSet {
    entries: Vec<(Object, Relation)>,
}

impl View for PairSet {
    type V = Set<(SpecObject, Seq<char>)>;

    closed spec fn view(&self) -> Set<(SpecObject, Seq<char>)> {
        Set::new(
            |p: (SpecObject, Seq<char>)|
                exists|i: int|
                    0 <= i < self.entries@.len() && (self.entries@[i].0@, self.entries@[i].1@)
                        == p,
        )
    }
}

impl PairSet {
    /// No two entries denote the same pair.
    pub closed spec fn wf(&self) -> bool {
        forall|i: int, j: int|
            0 <= i < j < self.entries@.len() ==> (self.entries@[i].0@, self.entries@[i].1@) != (
            self.entries@[j].0@,
            self.entries@[j].1@,
            )
    }

    /// An empty visited set.
    pub fn new() -> (r: Self)
        ensures
            r.wf(),
            r@ == Set::<(SpecObject, Seq<char>)>::empty(),
    {
        let r = PairSet { entries: Vec::new() };
        proof {
            assert(r@ =~= Set::<(SpecObject, Seq<char>)>::empty());
        }
        r
    }

    /// Is the pair in the set?
    fn contains2(&self, o: &Object, r: &Relation) -> (res: bool)
        ensures
            res == self@.contains((o@, r@)),
    {
        let ghost t = (o@, r@);
        let mut i: usize = 0;
        while i < self.entries.len()
            invariant
                i <= self.entries@.len(),
                t == (o@, r@),
                forall|j: int|
                    0 <= j < i ==> (self.entries@[j].0@, self.entries@[j].1@) != t,
            decreases self.entries@.len() - i,
        {
            let e = &self.entries[i];
            if obj_eq(&e.0, o) && rel_eq(&e.1, r) {
                proof {
                    assert((self.entries@[i as int].0@, self.entries@[i as int].1@) == t);
                }
                return true;
            }
            proof {
                assert((self.entries@[i as int].0@, self.entries@[i as int].1@) != t);
            }
            i += 1;
        }
        false
    }

    /// Inserts a fresh pair.
    fn insert2(&mut self, o: &Object, r: &Relation)
        requires
            old(self).wf(),
            !old(self)@.contains((o@, r@)),
        ensures
            final(self).wf(),
            final(self)@ == old(self)@.insert((o@, r@)),
    {
        let ghost t = (o@, r@);
        let ghost old_entries = self.entries@;
        let pair = (o.clone(), r.clone());
        proof {
            assert((pair.0@, pair.1@) == t);
        }
        self.entries.push(pair);
        proof {
            assert forall|a: int, b: int|
                0 <= a < b < self.entries@.len() implies (self.entries@[a].0@,
            self.entries@[a].1@) != (self.entries@[b].0@, self.entries@[b].1@) by {
                if b == self.entries@.len() - 1 {
                    assert(self.entries@[a] == old_entries[a]);
                    assert((self.entries@[b].0@, self.entries@[b].1@) == t);
                    if (old_entries[a].0@, old_entries[a].1@) == t {
                        assert((old(self).entries@[a].0@, old(self).entries@[a].1@) == t);
                        assert(old(self)@.contains(t));
                        assert(false);
                    }
                } else {
                    assert(self.entries@[a] == old_entries[a]);
                    assert(self.entries@[b] == old_entries[b]);
                }
            }
            assert(self@ =~= old(self)@.insert(t)) by {
                assert forall|x: (SpecObject, Seq<char>)| self@.contains(x) implies old(
                    self,
                )@.insert(t).contains(x) by {
                    let i = choose|i: int|
                        0 <= i < self.entries@.len() && (self.entries@[i].0@,
                        self.entries@[i].1@) == x;
                    if i < old_entries.len() {
                        assert((old_entries[i].0@, old_entries[i].1@) == x);
                    }
                }
                assert forall|x: (SpecObject, Seq<char>)| old(self)@.insert(t).contains(x)
                    implies self@.contains(x) by {
                    if x == t {
                        assert((self.entries@[self.entries@.len() - 1].0@,
                        self.entries@[self.entries@.len() - 1].1@) == x);
                    } else {
                        let i = choose|i: int|
                            0 <= i < old_entries.len() && (old_entries[i].0@, old_entries[i].1@)
                                == x;
                        assert((self.entries@[i].0@, self.entries@[i].1@) == x);
                    }
                }
            }
        }
    }

    /// Removes a present pair.
    fn remove2(&mut self, o: &Object, r: &Relation)
        requires
            old(self).wf(),
            old(self)@.contains((o@, r@)),
        ensures
            final(self).wf(),
            final(self)@ == old(self)@.remove((o@, r@)),
    {
        let ghost t = (o@, r@);
        let mut i: usize = 0;
        while i < self.entries.len()
            invariant
                *self == *old(self),
                old(self).wf(),
                old(self)@.contains(t),
                t == (o@, r@),
                i <= self.entries@.len(),
                forall|j: int|
                    0 <= j < i ==> (self.entries@[j].0@, self.entries@[j].1@) != t,
            decreases self.entries@.len() - i,
        {
            let e = &self.entries[i];
            if obj_eq(&e.0, o) && rel_eq(&e.1, r) {
                let ghost old_entries = self.entries@;
                let ghost gi = i as int;
                self.entries.remove(i);
                proof {
                    assert((old_entries[gi].0@, old_entries[gi].1@) == t);
                    old_entries.remove_ensures(gi);
                    let removed = old_entries.remove(gi);
                    assert(self.entries@ == removed);
                    assert forall|a: int, b: int|
                        0 <= a < b < self.entries@.len() implies (self.entries@[a].0@,
                    self.entries@[a].1@) != (self.entries@[b].0@, self.entries@[b].1@) by {
                        if a < gi {
                            assert(removed[a] == old_entries[a]);
                        } else {
                            assert(removed[a] == old_entries[a + 1]);
                        }
                        if b < gi {
                            assert(removed[b] == old_entries[b]);
                        } else {
                            assert(removed[b] == old_entries[b + 1]);
                        }
                    }
                    assert(self@ =~= old(self)@.remove(t)) by {
                        assert forall|x: (SpecObject, Seq<char>)| self@.contains(x) implies old(
                            self,
                        )@.remove(t).contains(x) by {
                            let k = choose|k: int|
                                0 <= k < removed.len() && (removed[k].0@, removed[k].1@) == x;
                            if k < gi {
                                assert((old_entries[k].0@, old_entries[k].1@) == x);
                                assert(x != t);
                            } else {
                                assert((old_entries[k + 1].0@, old_entries[k + 1].1@) == x);
                                assert(x != t);
                            }
                        }
                        assert forall|x: (SpecObject, Seq<char>)| old(self)@.remove(t).contains(x)
                            implies self@.contains(x) by {
                            let k = choose|k: int|
                                0 <= k < old_entries.len() && (old_entries[k].0@,
                                old_entries[k].1@) == x;
                            if k < gi {
                                assert((removed[k].0@, removed[k].1@) == x);
                            } else {
                                assert(k != gi);
                                assert((removed[k - 1].0@, removed[k - 1].1@) == x);
                            }
                        }
                    }
                }
                return ;
            }
            proof {
                assert((self.entries@[i as int].0@, self.entries@[i as int].1@) != t);
            }
            i += 1;
        }
        proof {
            let k = choose|k: int|
                0 <= k < self.entries@.len() && (self.entries@[k].0@, self.entries@[k].1@) == t;
            assert(false);
        }
    }
}

/// How many relations of `rels` give an unvisited pair on object `o`.
pub open spec fn prow_count(
    o: SpecObject,
    rels: Seq<Seq<char>>,
    v: Set<(SpecObject, Seq<char>)>,
) -> nat
    decreases rels.len(),
{
    if rels.len() == 0 {
        0
    } else {
        (if v.contains((o, rels[0])) {
            0nat
        } else {
            1nat
        }) + prow_count(o, rels.drop_first(), v)
    }
}

/// How many (object, relation) cells give an unvisited pair: the termination
/// measure of the expand evaluator.
pub open spec fn pgrid_count(
    objs: Seq<SpecObject>,
    rels: Seq<Seq<char>>,
    v: Set<(SpecObject, Seq<char>)>,
) -> nat
    decreases objs.len(),
{
    if objs.len() == 0 {
        0
    } else {
        prow_count(objs[0], rels, v) + pgrid_count(objs.drop_first(), rels, v)
    }
}

/// Inserting a pair never increases a row count.
proof fn lemma_prow_insert_le(
    o: SpecObject,
    rels: Seq<Seq<char>>,
    v: Set<(SpecObject, Seq<char>)>,
    t: (SpecObject, Seq<char>),
)
    ensures
        prow_count(o, rels, v.insert(t)) <= prow_count(o, rels, v),
    decreases rels.len(),
{
    if rels.len() > 0 {
        lemma_prow_insert_le(o, rels.drop_first(), v, t);
    }
}

/// Inserting an unvisited pair of this row strictly decreases its count.
proof fn lemma_prow_insert_lt(
    o: SpecObject,
    rels: Seq<Seq<char>>,
    v: Set<(SpecObject, Seq<char>)>,
    t: (SpecObject, Seq<char>),
)
    requires
        t.0 == o,
        rels.contains(t.1),
        !v.contains(t),
    ensures
        prow_count(o, rels, v.insert(t)) < prow_count(o, rels, v),
    decreases rels.len(),
{
    assert(rels.len() > 0);
    if rels[0] == t.1 {
        assert((o, rels[0]) == t);
        lemma_prow_insert_le(o, rels.drop_first(), v, t);
    } else {
        assert(rels.drop_first().contains(t.1)) by {
            let k = choose|k: int| 0 <= k < rels.len() && rels[k] == t.1;
            assert(rels.drop_first()[k - 1] == t.1);
        }
        lemma_prow_insert_lt(o, rels.drop_first(), v, t);
    }
}

/// Inserting a pair never increases the grid count.
proof fn lemma_pgrid_insert_le(
    objs: Seq<SpecObject>,
    rels: Seq<Seq<char>>,
    v: Set<(SpecObject, Seq<char>)>,
    t: (SpecObject, Seq<char>),
)
    ensures
        pgrid_count(objs, rels, v.insert(t)) <= pgrid_count(objs, rels, v),
    decreases objs.len(),
{
    if objs.len() > 0 {
        lemma_prow_insert_le(objs[0], rels, v, t);
        lemma_pgrid_insert_le(objs.drop_first(), rels, v, t);
    }
}

/// Inserting an unvisited pair drawn from the grid strictly decreases the
/// grid count.
proof fn lemma_pgrid_insert_lt(
    objs: Seq<SpecObject>,
    rels: Seq<Seq<char>>,
    v: Set<(SpecObject, Seq<char>)>,
    t: (SpecObject, Seq<char>),
)
    requires
        objs.contains(t.0),
        rels.contains(t.1),
        !v.contains(t),
    ensures
        pgrid_count(objs, rels, v.insert(t)) < pgrid_count(objs, rels, v),
    decreases objs.len(),
{
    assert(objs.len() > 0);
    if objs[0] == t.0 {
        lemma_prow_insert_lt(objs[0], rels, v, t);
        lemma_pgrid_insert_le(objs.drop_first(), rels, v, t);
    } else {
        assert(objs.drop_first().contains(t.0)) by {
            let k = choose|k: int| 0 <= k < objs.len() && objs[k] == t.0;
            assert(objs.drop_first()[k - 1] == t.0);
        }
        lemma_prow_insert_le(objs[0], rels, v, t);
        lemma_pgrid_insert_lt(objs.drop_first(), rels, v, t);
    }
}

/// The leaf node an expand of `This` produces for one stored tuple: the user
/// itself, or the stored userset verbatim, not recursively expanded.
pub open spec fn expand_leaf(t: SpecTuple) -> SpecExpanded {
    match t.user {
        SpecUser::UserId(id) => SpecExpanded::User(id),
        SpecUser::Userset(o2, r2) => SpecExpanded::Userset(o2, r2),
    }
}

/// The leaves an expand of `This` produces for the stored tuples, in order.
pub open spec fn expand_leaves(ts: Seq<SpecTuple>) -> Seq<SpecExpanded>
    decreases ts.len(),
{
    if ts.len() == 0 {
        Seq::empty()
    } else {
        expand_leaves(ts.drop_last()).push(expand_leaf(ts.last()))
    }
}

/// Fuel-indexed semantics of one expand: a pair already on the path yields
/// the userset reference itself, unexpanded, so cyclic policies terminate;
/// otherwise the namespace and relation are resolved and the rewrite is
/// expanded with the pair added to the visited set.
pub open spec fn spec_expand(
    tuples: Seq<SpecTuple>,
    configs: Seq<SpecNamespaceConfig>,
    o: SpecObject,
    r: Seq<char>,
    visited: Set<(SpecObject, Seq<char>)>,
    fuel: nat,
) -> Option<Result<SpecExpanded, SpecError>>
    decreases fuel, 0nat, 0nat, 0nat,
{
    if visited.contains((o, r)) {
        Some(Ok(SpecExpanded::Userset(o, r)))
    } else if fuel == 0 {
        None
    } else {
        match find_ns(configs, o.namespace) {
            None => Some(Err(SpecError::NamespaceNotFound(o.namespace))),
            Some(ci) => match find_rel(configs[ci].relations, r) {
                None => Some(Err(SpecError::RelationNotFound(r, configs[ci].name))),
                Some(ri) => spec_expand_expr(
                    tuples,
                    configs,
                    o,
                    r,
                    visited.insert((o, r)),
                    rewrite_of(configs[ci].relations[ri]),
                    (fuel - 1) as nat,
                ),
            },
        }
    }
}

/// Fuel-indexed semantics of expanding one rewrite expression at *(o, r)*.
pub open spec fn spec_expand_expr(
    tuples: Seq<SpecTuple>,
    configs: Seq<SpecNamespaceConfig>,
    o: SpecObject,
    r: Seq<char>,
    visited: Set<(SpecObject, Seq<char>)>,
    e: SpecExpr,
    fuel: nat,
) -> Option<Result<SpecExpanded, SpecError>>
    decreases fuel, 2nat, expr_size(e), 0nat,
{
    match e {
        SpecExpr::This => Some(
            Ok(SpecExpanded::Union(expand_leaves(filter_tuples(tuples, o, Some(r), None)))),
        ),
        SpecExpr::ComputedUserset { relation } => spec_expand(
            tuples,
            configs,
            o,
            relation,
            visited,
            fuel,
        ),
        SpecExpr::TupleToUserset { tupleset_relation, computed_userset_relation } => match
        spec_expand_ttu_loop(
            tuples,
            configs,
            computed_userset_relation,
            visited,
            filter_tuples(tuples, o, Some(tupleset_relation), None),
            fuel,
        ) {
            None => None,
            Some(Err(err)) => Some(Err(err)),
            Some(Ok(xs)) => Some(Ok(SpecExpanded::Union(xs))),
        },
        SpecExpr::Union(es) => match spec_expand_children(tuples, configs, o, r, visited, es, fuel) {
            None => None,
            Some(Err(err)) => Some(Err(err)),
            Some(Ok(xs)) => Some(Ok(SpecExpanded::Union(xs))),
        },
        SpecExpr::Intersection(es) => match spec_expand_children(
            tuples,
            configs,
            o,
            r,
            visited,
            es,
            fuel,
        ) {
            None => None,
            Some(Err(err)) => Some(Err(err)),
            Some(Ok(xs)) => Some(Ok(SpecExpanded::Intersection(xs))),
        },
        SpecExpr::Exclusion { base, exclude } => match spec_expand_expr(
            tuples,
            configs,
            o,
            r,
            visited,
            *base,
            fuel,
        ) {
            None => None,
            Some(Err(err)) => Some(Err(err)),
            Some(Ok(b)) => match spec_expand_expr(tuples, configs, o, r, visited, *exclude, fuel) {
                None => None,
                Some(Err(err)) => Some(Err(err)),
                Some(Ok(x)) => Some(
                    Ok(SpecExpanded::Exclusion { base: Box::new(b), exclude: Box::new(x) }),
                ),
            },
        },
    }
}

/// Semantics of expanding the parents of a tuple-to-userset: each stored
/// tupleset tuple whose user is a userset contributes the expansion of the
/// computed relation on the parent object, in order; plain users are skipped.
pub open spec fn spec_expand_ttu_loop(
    tuples: Seq<SpecTuple>,
    configs: Seq<SpecNamespaceConfig>,
    computed: Seq<char>,
    visited: Set<(SpecObject, Seq<char>)>,
    ts: Seq<SpecTuple>,
    fuel: nat,
) -> Option<Result<Seq<SpecExpanded>, SpecError>>
    decreases fuel, 1nat, 0nat, ts.len(),
{
    if ts.len() == 0 {
        Some(Ok(Seq::empty()))
    } else {
        match ts[0].user {
            SpecUser::UserId(_) => spec_expand_ttu_loop(
                tuples,
                configs,
                computed,
                visited,
                ts.drop_first(),
                fuel,
            ),
            SpecUser::Userset(o2, _) => match spec_expand(tuples, configs, o2, computed, visited,
            fuel) {
                None => None,
                Some(Err(err)) => Some(Err(err)),
                Some(Ok(x)) => match spec_expand_ttu_loop(
                    tuples,
                    configs,
                    computed,
                    visited,
                    ts.drop_first(),
                    fuel,
                ) {
                    None => None,
                    Some(Err(err)) => Some(Err(err)),
                    Some(Ok(xs)) => Some(Ok(seq![x] + xs)),
                },
            },
        }
    }
}

/// Semantics of expanding the children of a union or intersection, in order.
pub open spec fn spec_expand_children(
    tuples: Seq<SpecTuple>,
    configs: Seq<SpecNamespaceConfig>,
    o: SpecObject,
    r: Seq<char>,
    visited: Set<(SpecObject, Seq<char>)>,
    es: Seq<SpecExpr>,
    fuel: nat,
) -> Option<Result<Seq<SpecExpanded>, SpecError>>
    decreases fuel, 2nat, exprs_size(es), 0nat,
{
    if es.len() == 0 {
        Some(Ok(Seq::empty()))
    } else {
        match spec_expand_expr(tuples, configs, o, r, visited, es[0], fuel) {
            None => None,
            Some(Err(err)) => Some(Err(err)),
            Some(Ok(x)) => match spec_expand_children(
                tuples,
                configs,
                o,
                r,
                visited,
                es.drop_first(),
                fuel,
            ) {
                None => None,
                Some(Err(err)) => Some(Err(err)),
                Some(Ok(xs)) => Some(Ok(seq![x] + xs)),
            },
        }
    }
}


/// The recursive expand evaluator. Resolves the configuration of the object's
/// namespace and of the relation, then expands the rewrite with the pair
/// added to the visited set, removing it again on exit; a pair already on the
/// path yields the userset reference itself. Returns exactly what
/// [`spec_expand`] denotes, for every sufficient fuel.
#[verifier::loop_isolation(false)]
fn expand_internal<S: TupleStore>(
    object: &Object,
    relation: &Relation,
    configs: &Vec<NamespaceConfig>,
    store: &S,
    visited: PairSet,
    Ghost(objs): Ghost<Seq<SpecObject>>,
    Ghost(rels): Ghost<Seq<Seq<char>>>,
) -> (out: (Result<ExpandedUserset, ZanzibarError>, PairSet))
    requires
        store.inv(),
        visited.wf(),
        objs.contains(object@),
        rels.contains(relation@),
        store_closed(store.tuples(), objs, rels),
        configs_closed(configs_view(configs@), rels),
    ensures
        out.1.wf(),
        out.1@ == visited@,
        forall|f: nat|
            f >= pgrid_count(objs, rels, visited@) + 1 ==> spec_expand(
                store.tuples(),
                configs_view(configs@),
                object@,
                relation@,
                visited@,
                f,
            ) == Some(exp_res_view(out.0)),
    decreases pgrid_count(objs, rels, visited@), 0nat, 0nat,
{
    let ghost t = (object@, relation@);
    let ghost v0 = visited@;
    let ghost cv = configs_view(configs@);
    if visited.contains2(object, relation) {
        return (Ok(ExpandedUserset::Userset(object.clone(), relation.clone())), visited);
    }
    match find_namespace(configs, &object.namespace) {
        None => (Err(ZanzibarError::NamespaceNotFound(object.namespace.clone())), visited),
        Some(ci) => {
            let cfg = &configs[ci];
            let ghost rv = Seq::new(cfg.relations@.len(), |k: int| cfg.relations@[k]@);
            proof {
                assert(cv[ci as int] == cfg@);
                assert(cfg@.relations =~= rv);
            }
            match find_relation(&cfg.relations, relation) {
                None => (
                    Err(ZanzibarError::RelationNotFound(relation.0.clone(), cfg.name.clone())),
                    visited,
                ),
                Some(ri) => {
                    let mut vis = visited;
                    vis.insert2(object, relation);
                    proof {
                        lemma_pgrid_insert_lt(objs, rels, v0, t);
                    }
                    let rc = &cfg.relations[ri];
                    let this_default = UsersetExpression::This;
                    let expr: &UsersetExpression = match &rc.userset_rewrite {
                        Some(e) => e,
                        None => &this_default,
                    };
                    proof {
                        assert(rv[ri as int] == rc@);
                        assert(expr@ == rewrite_of(cv[ci as int].relations[ri as int]));
                        assert(expr_rels_in(expr@, rels)) by {
                            assert(match cv[ci as int].relations[ri as int].userset_rewrite {
                                Some(e) => expr_rels_in(e, rels),
                                None => true,
                            });
                        }
                    }
                    let (res, vis2) = expand_expression(
                        object,
                        relation,
                        configs,
                        store,
                        expr,
                        vis,
                        Ghost(objs),
                        Ghost(rels),
                    );
                    let mut vis3 = vis2;
                    vis3.remove2(object, relation);
                    proof {
                        assert(vis3@ =~= v0);
                        assert forall|f: nat| f >= pgrid_count(objs, rels, v0) + 1
                            implies spec_expand(store.tuples(), cv, object@, relation@, v0, f)
                            == Some(exp_res_view(res)) by {
                            assert(f >= 1);
                            assert((f - 1) as nat >= pgrid_count(objs, rels, v0.insert(t)) + 1);
                            assert(spec_expand_expr(
                                store.tuples(),
                                cv,
                                object@,
                                relation@,
                                v0.insert(t),
                                expr@,
                                (f - 1) as nat,
                            ) == Some(exp_res_view(res)));
                            assert(!v0.contains(t));
                            assert(find_ns(cv, object@.namespace) == Some(ci as int));
                            assert(find_rel(cv[ci as int].relations, relation@) == Some(
                                ri as int,
                            ));
                        }
                    }
                    (res, vis3)
                },
            }
        },
    }
}

/// The recursive expansion of one rewrite expression at *(object, relation)*.
/// Returns exactly what [`spec_expand_expr`] denotes, for every sufficient
/// fuel, and leaves the visited set as it found it.
#[verifier::loop_isolation(false)]
fn expand_expression<S: TupleStore>(
    object: &Object,
    relation: &Relation,
    configs: &Vec<NamespaceConfig>,
    store: &S,
    expression: &UsersetExpression,
    visited: PairSet,
    Ghost(objs): Ghost<Seq<SpecObject>>,
    Ghost(rels): Ghost<Seq<Seq<char>>>,
) -> (out: (Result<ExpandedUserset, ZanzibarError>, PairSet))
    requires
        store.inv(),
        visited.wf(),
        objs.contains(object@),
        expr_rels_in(expression@, rels),
        store_closed(store.tuples(), objs, rels),
        configs_closed(configs_view(configs@), rels),
    ensures
        out.1.wf(),
        out.1@ == visited@,
        forall|f: nat|
            f >= pgrid_count(objs, rels, visited@) + 1 ==> spec_expand_expr(
                store.tuples(),
                configs_view(configs@),
                object@,
                relation@,
                visited@,
                expression@,
                f,
            ) == Some(exp_res_view(out.0)),
    decreases pgrid_count(objs, rels, visited@), 1nat, expr_size(expression@),
{
    let ghost v0 = visited@;
    let ghost cv = configs_view(configs@);
    let ghost tuples = store.tuples();
    let ghost bound = pgrid_count(objs, rels, v0) + 1;
    match expression {
        UsersetExpression::This => {
            let ts = store.read_tuples(object, Some(relation), None);
            let ghost fs = filter_tuples(tuples, object@, Some(relation@), None);
            proof {
                assert(tuples_view(ts@) == fs);
            }
            let mut leaves: Vec<ExpandedUserset> = Vec::new();
            let mut i: usize = 0;
            while i < ts.len()
                invariant
                    i <= ts@.len(),
                    expandeds_view(leaves@) == expand_leaves(fs.take(i as int)),
                decreases ts@.len() - i,
            {
                let t = &ts[i];
                let leaf = match &t.user {
                    User::UserId(id) => ExpandedUserset::User(id.clone()),
                    User::Userset(o2, r2) => ExpandedUserset::Userset(o2.clone(), r2.clone()),
                };
                proof {
                    assert(fs[i as int] == ts@[i as int]@);
                    assert(leaf@ == expand_leaf(fs[i as int]));
                }
                let ghost old_leaves = leaves@;
                leaves.push(leaf);
                proof {
                    crate::model::lemma_expandeds_view(old_leaves);
                    crate::model::lemma_expandeds_view(leaves@);
                    assert(expandeds_view(leaves@) =~= expandeds_view(old_leaves).push(
                        leaves@.last()@,
                    ));
                    assert(fs.take(i + 1).drop_last() =~= fs.take(i as int));
                    assert(fs.take(i + 1).last() == fs[i as int]);
                }
                i += 1;
            }
            proof {
                assert(fs.take(fs.len() as int) =~= fs);
                assert(fs.len() == ts@.len());
                assert(expression@ == SpecExpr::This);
                assert(expanded_view(ExpandedUserset::Union(leaves)) == SpecExpanded::Union(
                    expand_leaves(fs),
                ));
            }
            (Ok(ExpandedUserset::Union(leaves)), visited)
        },
        UsersetExpression::ComputedUserset { relation: r2 } => {
            proof {
                assert(expression@ == SpecExpr::ComputedUserset { relation: r2@ });
            }
            let (res, vis2) = expand_internal(
                object,
                r2,
                configs,
                store,
                visited,
                Ghost(objs),
                Ghost(rels),
            );
            proof {
                assert forall|f: nat| f >= bound implies spec_expand_expr(tuples, cv, object@,
                relation@, v0, expression@, f) == Some(exp_res_view(res)) by {
                    assert(spec_expand(tuples, cv, object@, r2@, v0, f) == Some(exp_res_view(
                        res,
                    )));
                }
            }
            (res, vis2)
        },
        UsersetExpression::TupleToUserset { tupleset_relation, computed_userset_relation } => {
            let ts = store.read_tuples(object, Some(tupleset_relation), None);
            let ghost fs = filter_tuples(tuples, object@, Some(tupleset_relation@), None);
            proof {
                assert(expression@ == SpecExpr::TupleToUserset {
                    tupleset_relation: tupleset_relation@,
                    computed_userset_relation: computed_userset_relation@,
                });
                assert(tuples_view(ts@) == fs);
                lemma_filter_tuples(tuples, object@, Some(tupleset_relation@), None);
                assert(fs.skip(0) =~= fs);
            }
            let ghost cr = computed_userset_relation@;
            let mut vis = visited;
            let mut children: Vec<ExpandedUserset> = Vec::new();
            let mut i: usize = 0;
            while i < ts.len()
                invariant
                    vis.wf(),
                    vis@ == v0,
                    i <= ts@.len(),
                    forall|f: nat|
                        f >= bound ==> spec_expand_ttu_loop(tuples, cv, cr, v0, fs, f) == (
                        match spec_expand_ttu_loop(tuples, cv, cr, v0, fs.skip(i as int), f) {
                            Some(Ok(xs)) => Some(Ok(expandeds_view(children@) + xs)),
                            other => other,
                        }),
                decreases ts@.len() - i,
            {
                let ghost gi = i as int;
                proof {
                    lemma_skip_step(fs, gi);
                    assert(fs[gi] == ts@[gi]@);
                }
                match &ts[i].user {
                    User::UserId(_) => {
                        proof {
                            assert(fs[gi].user is UserId);
                        }
                    },
                    User::Userset(o2, _) => {
                        proof {
                            let k = choose|k: int|
                                0 <= k < tuples.len() && tuples[k] == fs[gi];
                            assert(match tuples[k].user {
                                SpecUser::Userset(a, b) => objs.contains(a) && rels.contains(b),
                                SpecUser::UserId(_) => true,
                            });
                        }
                        let (r_i, vis2) = expand_internal(
                            o2,
                            computed_userset_relation,
                            configs,
                            store,
                            vis,
                            Ghost(objs),
                            Ghost(rels),
                        );
                        vis = vis2;
                        match r_i {
                            Ok(x) => {
                                let ghost old_children = children@;
                                children.push(x);
                                proof {
                                    crate::model::lemma_expandeds_view(old_children);
                                    crate::model::lemma_expandeds_view(children@);
                                    assert(expandeds_view(children@) =~= expandeds_view(
                                        old_children,
                                    ).push(children@.last()@));
                                    assert forall|f: nat| f >= bound implies spec_expand_ttu_loop(
                                        tuples,
                                        cv,
                                        cr,
                                        v0,
                                        fs,
                                        f,
                                    ) == (match spec_expand_ttu_loop(tuples, cv, cr, v0,
                                    fs.skip(gi + 1), f) {
                                        Some(Ok(xs)) => Some(Ok(expandeds_view(children@) + xs)),
                                        other => other,
                                    }) by {
                                        assert(spec_expand(tuples, cv, fs[gi].user->Userset_0, cr,
                                        v0, f) == Some(Ok::<SpecExpanded, SpecError>(
                                            expandeds_view(children@).last(),
                                        )));
                                        match spec_expand_ttu_loop(tuples, cv, cr, v0,
                                        fs.skip(gi + 1), f) {
                                            Some(Ok(xs)) => {
                                                assert(spec_expand_ttu_loop(tuples, cv, cr, v0,
                                                fs.skip(gi), f) == Some(Ok::<
                                                    Seq<SpecExpanded>,
                                                    SpecError,
                                                >(seq![expandeds_view(children@).last()] + xs)));
                                                assert(expandeds_view(old_children) + (seq![
                                                    expandeds_view(children@).last()] + xs)
                                                    =~= expandeds_view(children@) + xs);
                                            },
                                            _ => {},
                                        }
                                    }
                                }
                            },
                            Err(e) => {
                                let ghost ev = e@;
                                proof {
                                    assert forall|f: nat| f >= bound implies spec_expand_expr(
                                        tuples,
                                        cv,
                                        object@,
                                        relation@,
                                        v0,
                                        expression@,
                                        f,
                                    ) == Some(Err::<SpecExpanded, SpecError>(ev)) by {
                                        assert(spec_expand(tuples, cv, fs[gi].user->Userset_0, cr,
                                        v0, f) == Some(Err::<SpecExpanded, SpecError>(ev)));
                                        assert(spec_expand_ttu_loop(tuples, cv, cr, v0,
                                        fs.skip(gi), f) == Some(Err::<Seq<SpecExpanded>, SpecError>(
                                            ev,
                                        )));
                                        assert(spec_expand_ttu_loop(tuples, cv, cr, v0, fs, f)
                                            == Some(Err::<Seq<SpecExpanded>, SpecError>(ev)));
                                    }
                                }
                                return (Err(e), vis);
                            },
                        }
                    },
                }
                i += 1;
            }
            proof {
                assert(fs.skip(fs.len() as int) =~= Seq::<SpecTuple>::empty());
                assert(fs.len() == ts@.len());
                assert forall|f: nat| f >= bound implies spec_expand_expr(tuples, cv, object@,
                relation@, v0, expression@, f) == Some(Ok::<SpecExpanded, SpecError>(
                    SpecExpanded::Union(expandeds_view(children@)),
                )) by {
                    assert(spec_expand_ttu_loop(tuples, cv, cr, v0, fs.skip(i as int), f) == Some(
                        Ok::<Seq<SpecExpanded>, SpecError>(Seq::empty()),
                    ));
                    assert(expandeds_view(children@) + Seq::<SpecExpanded>::empty()
                        =~= expandeds_view(children@));
                    assert(spec_expand_ttu_loop(tuples, cv, cr, v0, fs, f) == Some(Ok::<
                        Seq<SpecExpanded>,
                        SpecError,
                    >(expandeds_view(children@))));
                }
                crate::model::lemma_expandeds_view(children@);
            }
            (Ok(ExpandedUserset::Union(children)), vis)
        },
        UsersetExpression::Union(es) => {
            let (r_c, vis2) = expand_children(
                object,
                relation,
                configs,
                store,
                es,
                visited,
                Ghost(objs),
                Ghost(rels),
            );
            proof {
                crate::model::lemma_exprs_view(es@);
                assert(expression@ == SpecExpr::Union(crate::model::exprs_view(es@)));
            }
            match r_c {
                Ok(children) => {
                    proof {
                        crate::model::lemma_expandeds_view(children@);
                        assert forall|f: nat| f >= bound implies spec_expand_expr(tuples, cv,
                        object@, relation@, v0, expression@, f) == Some(Ok::<
                            SpecExpanded,
                            SpecError,
                        >(SpecExpanded::Union(expandeds_view(children@)))) by {
                            assert(spec_expand_children(tuples, cv, object@, relation@, v0,
                            crate::model::exprs_view(es@), f) == Some(Ok::<
                                Seq<SpecExpanded>,
                                SpecError,
                            >(expandeds_view(children@))));
                        }
                    }
                    (Ok(ExpandedUserset::Union(children)), vis2)
                },
                Err(e) => {
                    let ghost ev = e@;
                    proof {
                        assert forall|f: nat| f >= bound implies spec_expand_expr(tuples, cv,
                        object@, relation@, v0, expression@, f) == Some(Err::<
                            SpecExpanded,
                            SpecError,
                        >(ev)) by {
                            assert(spec_expand_children(tuples, cv, object@, relation@, v0,
                            crate::model::exprs_view(es@), f) == Some(Err::<
                                Seq<SpecExpanded>,
                                SpecError,
                            >(ev)));
                        }
                    }
                    (Err(e), vis2)
                },
            }
        },
        UsersetExpression::Intersection(es) => {
            let (r_c, vis2) = expand_children(
                object,
                relation,
                configs,
                store,
                es,
                visited,
                Ghost(objs),
                Ghost(rels),
            );
            proof {
                crate::model::lemma_exprs_view(es@);
                assert(expression@ == SpecExpr::Intersection(crate::model::exprs_view(es@)));
            }
            match r_c {
                Ok(children) => {
                    proof {
                        crate::model::lemma_expandeds_view(children@);
                        assert forall|f: nat| f >= bound implies spec_expand_expr(tuples, cv,
                        object@, relation@, v0, expression@, f) == Some(Ok::<
                            SpecExpanded,
                            SpecError,
                        >(SpecExpanded::Intersection(expandeds_view(children@)))) by {
                            assert(spec_expand_children(tuples, cv, object@, relation@, v0,
                            crate::model::exprs_view(es@), f) == Some(Ok::<
                                Seq<SpecExpanded>,
                                SpecError,
                            >(expandeds_view(children@))));
                        }
                    }
                    (Ok(ExpandedUserset::Intersection(children)), vis2)
                },
                Err(e) => {
                    let ghost ev = e@;
                    proof {
                        assert forall|f: nat| f >= bound implies spec_expand_expr(tuples, cv,
                        object@, relation@, v0, expression@, f) == Some(Err::<
                            SpecExpanded,
                            SpecError,
                        >(ev)) by {
                            assert(spec_expand_children(tuples, cv, object@, relation@, v0,
                            crate::model::exprs_view(es@), f) == Some(Err::<
                                Seq<SpecExpanded>,
                                SpecError,
                            >(ev)));
                        }
                    }
                    (Err(e), vis2)
                },
            }
        },
        UsersetExpression::Exclusion { base, exclude } => {
            proof {
                assert(expression@ == SpecExpr::Exclusion {
                    base: Box::new(base@),
                    exclude: Box::new(exclude@),
                });
            }
            let (r_b, vis2) = expand_expression(
                object,
                relation,
                configs,
                store,
                base,
                visited,
                Ghost(objs),
                Ghost(rels),
            );
            proof {
                assert forall|f: nat| f >= bound implies spec_expand_expr(tuples, cv, object@,
                relation@, v0, base@, f) == Some(exp_res_view(r_b)) by {}
            }
            match r_b {
                Err(e) => {
                    let ghost ev = e@;
                    proof {
                        assert forall|f: nat| f >= bound implies spec_expand_expr(tuples, cv,
                        object@, relation@, v0, expression@, f) == Some(Err::<
                            SpecExpanded,
                            SpecError,
                        >(ev)) by {
                            assert(spec_expand_expr(tuples, cv, object@, relation@, v0, base@, f)
                                == Some(Err::<SpecExpanded, SpecError>(ev)));
                        }
                    }
                    (Err(e), vis2)
                },
                Ok(b) => {
                    let ghost bv = b@;
                    let (r_x, vis3) = expand_expression(
                        object,
                        relation,
                        configs,
                        store,
                        exclude,
                        vis2,
                        Ghost(objs),
                        Ghost(rels),
                    );
                    match r_x {
                        Err(e) => {
                            let ghost ev = e@;
                            proof {
                                assert forall|f: nat| f >= bound implies spec_expand_expr(tuples,
                                cv, object@, relation@, v0, expression@, f) == Some(Err::<
                                    SpecExpanded,
                                    SpecError,
                                >(ev)) by {
                                    assert(spec_expand_expr(tuples, cv, object@, relation@, v0,
                                    base@, f) == Some(Ok::<SpecExpanded, SpecError>(bv)));
                                    assert(spec_expand_expr(tuples, cv, object@, relation@, v0,
                                    exclude@, f) == Some(Err::<SpecExpanded, SpecError>(ev)));
                                }
                            }
                            (Err(e), vis3)
                        },
                        Ok(x) => {
                            let ghost xv = x@;
                            let out = ExpandedUserset::Exclusion {
                                base: Box::new(b),
                                exclude: Box::new(x),
                            };
                            proof {
                                assert(expanded_view(out) == SpecExpanded::Exclusion {
                                    base: Box::new(bv),
                                    exclude: Box::new(xv),
                                });
                                assert forall|f: nat| f >= bound implies spec_expand_expr(tuples,
                                cv, object@, relation@, v0, expression@, f) == Some(Ok::<
                                    SpecExpanded,
                                    SpecError,
                                >(expanded_view(out))) by {
                                    assert(spec_expand_expr(tuples, cv, object@, relation@, v0,
                                    base@, f) == Some(Ok::<SpecExpanded, SpecError>(bv)));
                                    assert(spec_expand_expr(tuples, cv, object@, relation@, v0,
                                    exclude@, f) == Some(Ok::<SpecExpanded, SpecError>(xv)));
                                }
                            }
                            (Ok(out), vis3)
                        },
                    }
                },
            }
        },
    }
}

/// Expands the children of a union or intersection in order, collecting the
/// expanded trees or the first error, as [`spec_expand_children`] denotes.
#[verifier::loop_isolation(false)]
fn expand_children<S: TupleStore>(
    object: &Object,
    relation: &Relation,
    configs: &Vec<NamespaceConfig>,
    store: &S,
    es: &Vec<UsersetExpression>,
    visited: PairSet,
    Ghost(objs): Ghost<Seq<SpecObject>>,
    Ghost(rels): Ghost<Seq<Seq<char>>>,
) -> (out: (Result<Vec<ExpandedUserset>, ZanzibarError>, PairSet))
    requires
        store.inv(),
        visited.wf(),
        objs.contains(object@),
        exprs_rels_in(crate::model::exprs_view(es@), rels),
        store_closed(store.tuples(), objs, rels),
        configs_closed(configs_view(configs@), rels),
    ensures
        out.1.wf(),
        out.1@ == visited@,
        forall|f: nat|
            f >= pgrid_count(objs, rels, visited@) + 1 ==> spec_expand_children(
                store.tuples(),
                configs_view(configs@),
                object@,
                relation@,
                visited@,
                crate::model::exprs_view(es@),
                f,
            ) == Some(
                match out.0 {
                    Ok(cs) => Ok(expandeds_view(cs@)),
                    Err(e) => Err(e@),
                },
            ),
    decreases pgrid_count(objs, rels, visited@), 1nat, exprs_size(crate::model::exprs_view(es@)),
{
    let ghost v0 = visited@;
    let ghost cv = configs_view(configs@);
    let ghost tuples = store.tuples();
    let ghost bound = pgrid_count(objs, rels, v0) + 1;
    let ghost cs = crate::model::exprs_view(es@);
    proof {
        crate::model::lemma_exprs_view(es@);
        lemma_exprs_rels_in(cs, rels);
        assert(cs.skip(0) =~= cs);
    }
    let mut vis = visited;
    let mut children: Vec<ExpandedUserset> = Vec::new();
    let mut j: usize = 0;
    while j < es.len()
        invariant
            vis.wf(),
            vis@ == v0,
            j <= es@.len(),
            forall|f: nat|
                f >= bound ==> spec_expand_children(tuples, cv, object@, relation@, v0, cs, f) == (
                match spec_expand_children(tuples, cv, object@, relation@, v0, cs.skip(j as int),
                f) {
                    Some(Ok(xs)) => Some(Ok(expandeds_view(children@) + xs)),
                    other => other,
                }),
        decreases es@.len() - j,
    {
        let ghost gj = j as int;
        proof {
            lemma_skip_step(cs, gj);
            lemma_exprs_size_elem(cs, gj);
            assert(es@[gj]@ == cs[gj]);
        }
        let (r_j, vis2) = expand_expression(
            object,
            relation,
            configs,
            store,
            &es[j],
            vis,
            Ghost(objs),
            Ghost(rels),
        );
        vis = vis2;
        match r_j {
            Ok(x) => {
                let ghost old_children = children@;
                children.push(x);
                proof {
                    crate::model::lemma_expandeds_view(old_children);
                    crate::model::lemma_expandeds_view(children@);
                    assert(expandeds_view(children@) =~= expandeds_view(old_children).push(
                        children@.last()@,
                    ));
                    assert forall|f: nat| f >= bound implies spec_expand_children(tuples, cv,
                    object@, relation@, v0, cs, f) == (match spec_expand_children(tuples, cv,
                    object@, relation@, v0, cs.skip(gj + 1), f) {
                        Some(Ok(xs)) => Some(Ok(expandeds_view(children@) + xs)),
                        other => other,
                    }) by {
                        assert(spec_expand_expr(tuples, cv, object@, relation@, v0, cs[gj], f)
                            == Some(Ok::<SpecExpanded, SpecError>(expandeds_view(
                            children@,
                        ).last())));
                        match spec_expand_children(tuples, cv, object@, relation@, v0,
                        cs.skip(gj + 1), f) {
                            Some(Ok(xs)) => {
                                assert(spec_expand_children(tuples, cv, object@, relation@, v0,
                                cs.skip(gj), f) == Some(Ok::<Seq<SpecExpanded>, SpecError>(seq![
                                    expandeds_view(children@).last()] + xs)));
                                assert(expandeds_view(old_children) + (seq![expandeds_view(
                                    children@,
                                ).last()] + xs) =~= expandeds_view(children@) + xs);
                            },
                            _ => {},
                        }
                    }
                }
            },
            Err(e) => {
                let ghost ev = e@;
                proof {
                    assert forall|f: nat| f >= bound implies spec_expand_children(tuples, cv,
                    object@, relation@, v0, cs, f) == Some(Err::<Seq<SpecExpanded>, SpecError>(
                        ev,
                    )) by {
                        assert(spec_expand_expr(tuples, cv, object@, relation@, v0, cs[gj], f)
                            == Some(Err::<SpecExpanded, SpecError>(ev)));
                        assert(spec_expand_children(tuples, cv, object@, relation@, v0,
                        cs.skip(gj), f) == Some(Err::<Seq<SpecExpanded>, SpecError>(ev)));
                    }
                }
                return (Err(e), vis);
            },
        }
        j += 1;
    }
    proof {
        assert(cs.skip(cs.len() as int) =~= Seq::<SpecExpr>::empty());
        assert forall|f: nat| f >= bound implies spec_expand_children(tuples, cv, object@,
        relation@, v0, cs, f) == Some(Ok::<Seq<SpecExpanded>, SpecError>(expandeds_view(
            children@,
        ))) by {
            assert(spec_expand_children(tuples, cv, object@, relation@, v0, cs.skip(j as int), f)
                == Some(Ok::<Seq<SpecExpanded>, SpecError>(Seq::empty())));
            assert(expandeds_view(children@) + Seq::<SpecExpanded>::empty() =~= expandeds_view(
                children@,
            ));
        }
    }
    (Ok(children), vis)
}

/// Expands the userset tree for the relation on the object: the result is
/// precisely the limit of the fuel-indexed semantics [`spec_expand`] from an
/// empty visited set.
pub fn expand<S: TupleStore>(
    object: &Object,
    relation: &Relation,
    configs: &Vec<NamespaceConfig>,
    store: &S,
) -> (res: Result<ExpandedUserset, ZanzibarError>)
    requires
        store.inv(),
    ensures
        exists|f: nat|
            spec_expand(
                store.tuples(),
                configs_view(configs@),
                object@,
                relation@,
                Set::empty(),
                f,
            ) == Some(exp_res_view(res)),
{
    let ghost (objs, rels) = setup_universe(
        store.tuples(),
        configs_view(configs@),
        object@,
        relation@,
    );
    let visited = PairSet::new();
    let (res, _vis) = expand_internal(
        object,
        relation,
        configs,
        store,
        visited,
        Ghost(objs),
        Ghost(rels),
    );
    proof {
        let f0 = pgrid_count(objs, rels, Set::empty()) + 1;
        assert(spec_expand(
            store.tuples(),
            configs_view(configs@),
            object@,
            relation@,
            Set::empty(),
            f0,
        ) == Some(exp_res_view(res)));
    }
    res
}

/// Does the expand semantics, started with no visited pairs, converge to the
/// outcome `x`?
pub open spec fn expand_outcome(
    tuples: Seq<SpecTuple>,
    configs: Seq<SpecNamespaceConfig>,
    o: SpecObject,
    r: Seq<char>,
    x: Result<SpecExpanded, SpecError>,
) -> bool {
    exists|f: nat| spec_expand(tuples, configs, o, r, Set::empty(), f) == Some(x)
}

} // verus!
