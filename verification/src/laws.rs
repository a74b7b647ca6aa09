//! The laws of the engine, proved against the fuel-indexed semantics: the
//! semantics converges (more fuel never changes a settled answer, so a check
//! has at most one outcome); a stored tuple is never denied by a rewrite that
//! reaches `This` through unions; and checks under policies built only from
//! `This`, computed usersets, tuple-to-userset and unions never lose access
//! when a tuple is added.

use vstd::prelude::*;
use crate::error::SpecError;
use crate::eval::{check_outcome, expand_outcome, find_ns, find_rel, mk_triple, rewrite_of,
    spec_check, spec_eval, spec_expand, spec_expand_children, spec_expand_expr,
    spec_expand_ttu_loop, spec_inter_loop, spec_this_loop, spec_ttu_loop, spec_union_loop};
use crate::model::{SpecExpr, SpecNamespaceConfig, SpecTuple, SpecUser};
use crate::store::filter_tuples;

verus! {

/// More fuel never changes a settled check: once the semantics returns
/// `Some`, every larger fuel returns the same.
pub proof fn lemma_check_fuel_mono(
    tuples: Seq<SpecTuple>,
    configs: Seq<SpecNamespaceConfig>,
    o: crate::model::SpecObject,
    r: Seq<char>,
    u: SpecUser,
    v: Set<SpecTuple>,
    f1: nat,
    f2: nat,
)
    requires
        f1 <= f2,
        spec_check(tuples, configs, o, r, u, v, f1) is Some,
    ensures
        spec_check(tuples, configs, o, r, u, v, f2) == spec_check(tuples, configs, o, r, u, v, f1),
    decreases f1, 0nat, 0nat, 0nat,
{
    if !v.contains(mk_triple(o, r, u)) {
        assert(f1 > 0);
        match find_ns(configs, o.namespace) {
            None => {},
            Some(ci) => match find_rel(configs[ci].relations, r) {
                None => {},
                Some(ri) => {
                    lemma_eval_fuel_mono(
                        tuples,
                        configs,
                        o,
                        r,
                        u,
                        v.insert(mk_triple(o, r, u)),
                        rewrite_of(configs[ci].relations[ri]),
                        (f1 - 1) as nat,
                        (f2 - 1) as nat,
                    );
                },
            },
        }
    }
}

/// [`lemma_check_fuel_mono`] for one rewrite expression.
proof fn lemma_eval_fuel_mono(
    tuples: Seq<SpecTuple>,
    configs: Seq<SpecNamespaceConfig>,
    o: crate::model::SpecObject,
    r: Seq<char>,
    u: SpecUser,
    v: Set<SpecTuple>,
    e: SpecExpr,
    f1: nat,
    f2: nat,
)
    requires
        f1 <= f2,
        spec_eval(tuples, configs, o, r, u, v, e, f1) is Some,
    ensures
        spec_eval(tuples, configs, o, r, u, v, e, f2) == spec_eval(
            tuples,
            configs,
            o,
            r,
            u,
            v,
            e,
            f1,
        ),
    decreases f1, 2nat, crate::eval::expr_size(e), 0nat,
{
    match e {
        SpecExpr::This => {
            if filter_tuples(tuples, o, Some(r), Some(u)).len() == 0 {
                lemma_this_loop_fuel_mono(
                    tuples,
                    configs,
                    u,
                    v,
                    filter_tuples(tuples, o, Some(r), None),
                    f1,
                    f2,
                );
            }
        },
        SpecExpr::ComputedUserset { relation } => {
            lemma_check_fuel_mono(tuples, configs, o, relation, u, v, f1, f2);
        },
        SpecExpr::TupleToUserset { tupleset_relation, computed_userset_relation } => {
            lemma_ttu_loop_fuel_mono(
                tuples,
                configs,
                computed_userset_relation,
                u,
                v,
                filter_tuples(tuples, o, Some(tupleset_relation), None),
                f1,
                f2,
            );
        },
        SpecExpr::Union(es) => {
            lemma_union_loop_fuel_mono(tuples, configs, o, r, u, v, es, f1, f2);
        },
        SpecExpr::Intersection(es) => {
            lemma_inter_loop_fuel_mono(tuples, configs, o, r, u, v, es, f1, f2);
        },
        SpecExpr::Exclusion { base, exclude } => {
            lemma_eval_fuel_mono(tuples, configs, o, r, u, v, *exclude, f1, f2);
            match spec_eval(tuples, configs, o, r, u, v, *exclude, f1) {
                Some(Ok(false)) => {
                    lemma_eval_fuel_mono(tuples, configs, o, r, u, v, *base, f1, f2);
                },
                _ => {},
            }
        },
    }
}

/// [`lemma_check_fuel_mono`] for the userset-indirection pass of `This`.
proof fn lemma_this_loop_fuel_mono(
    tuples: Seq<SpecTuple>,
    configs: Seq<SpecNamespaceConfig>,
    u: SpecUser,
    v: Set<SpecTuple>,
    ts: Seq<SpecTuple>,
    f1: nat,
    f2: nat,
)
    requires
        f1 <= f2,
        spec_this_loop(tuples, configs, u, v, ts, f1) is Some,
    ensures
        spec_this_loop(tuples, configs, u, v, ts, f2) == spec_this_loop(
            tuples,
            configs,
            u,
            v,
            ts,
            f1,
        ),
    decreases f1, 1nat, 0nat, ts.len(),
{
    if ts.len() > 0 {
        match ts[0].user {
            SpecUser::UserId(_) => {
                lemma_this_loop_fuel_mono(tuples, configs, u, v, ts.drop_first(), f1, f2);
            },
            SpecUser::Userset(o2, r2) => {
                lemma_check_fuel_mono(tuples, configs, o2, r2, u, v, f1, f2);
                match spec_check(tuples, configs, o2, r2, u, v, f1) {
                    Some(Ok(false)) => {
                        lemma_this_loop_fuel_mono(tuples, configs, u, v, ts.drop_first(), f1, f2);
                    },
                    _ => {},
                }
            },
        }
    }
}

/// [`lemma_check_fuel_mono`] for the parents of a tuple-to-userset.
proof fn lemma_ttu_loop_fuel_mono(
    tuples: Seq<SpecTuple>,
    configs: Seq<SpecNamespaceConfig>,
    computed: Seq<char>,
    u: SpecUser,
    v: Set<SpecTuple>,
    ts: Seq<SpecTuple>,
    f1: nat,
    f2: nat,
)
    requires
        f1 <= f2,
        spec_ttu_loop(tuples, configs, computed, u, v, ts, f1) is Some,
    ensures
        spec_ttu_loop(tuples, configs, computed, u, v, ts, f2) == spec_ttu_loop(
            tuples,
            configs,
            computed,
            u,
            v,
            ts,
            f1,
        ),
    decreases f1, 1nat, 0nat, ts.len(),
{
    if ts.len() > 0 {
        match ts[0].user {
            SpecUser::UserId(_) => {
                lemma_ttu_loop_fuel_mono(
                    tuples,
                    configs,
                    computed,
                    u,
                    v,
                    ts.drop_first(),
                    f1,
                    f2,
                );
            },
            SpecUser::Userset(o2, _) => {
                lemma_check_fuel_mono(tuples, configs, o2, computed, u, v, f1, f2);
                match spec_check(tuples, configs, o2, computed, u, v, f1) {
                    Some(Ok(false)) => {
                        lemma_ttu_loop_fuel_mono(
                            tuples,
                            configs,
                            computed,
                            u,
                            v,
                            ts.drop_first(),
                            f1,
                            f2,
                        );
                    },
                    _ => {},
                }
            },
        }
    }
}

/// [`lemma_check_fuel_mono`] for the children of a union.
proof fn lemma_union_loop_fuel_mono(
    tuples: Seq<SpecTuple>,
    configs: Seq<SpecNamespaceConfig>,
    o: crate::model::SpecObject,
    r: Seq<char>,
    u: SpecUser,
    v: Set<SpecTuple>,
    es: Seq<SpecExpr>,
    f1: nat,
    f2: nat,
)
    requires
        f1 <= f2,
        spec_union_loop(tuples, configs, o, r, u, v, es, f1) is Some,
    ensures
        spec_union_loop(tuples, configs, o, r, u, v, es, f2) == spec_union_loop(
            tuples,
            configs,
            o,
            r,
            u,
            v,
            es,
            f1,
        ),
    decreases f1, 2nat, crate::eval::exprs_size(es), 0nat,
{
    if es.len() > 0 {
        crate::eval::lemma_exprs_size_elem(es, 0);
        lemma_eval_fuel_mono(tuples, configs, o, r, u, v, es[0], f1, f2);
        match spec_eval(tuples, configs, o, r, u, v, es[0], f1) {
            Some(Ok(false)) => {
                lemma_union_loop_fuel_mono(tuples, configs, o, r, u, v, es.drop_first(), f1, f2);
            },
            _ => {},
        }
    }
}

/// [`lemma_check_fuel_mono`] for the children of an intersection.
proof fn lemma_inter_loop_fuel_mono(
    tuples: Seq<SpecTuple>,
    configs: Seq<SpecNamespaceConfig>,
    o: crate::model::SpecObject,
    r: Seq<char>,
    u: SpecUser,
    v: Set<SpecTuple>,
    es: Seq<SpecExpr>,
    f1: nat,
    f2: nat,
)
    requires
        f1 <= f2,
        spec_inter_loop(tuples, configs, o, r, u, v, es, f1) is Some,
    ensures
        spec_inter_loop(tuples, configs, o, r, u, v, es, f2) == spec_inter_loop(
            tuples,
            configs,
            o,
            r,
            u,
            v,
            es,
            f1,
        ),
    decreases f1, 2nat, crate::eval::exprs_size(es), 0nat,
{
    if es.len() > 0 {
        crate::eval::lemma_exprs_size_elem(es, 0);
        lemma_eval_fuel_mono(tuples, configs, o, r, u, v, es[0], f1, f2);
        match spec_eval(tuples, configs, o, r, u, v, es[0], f1) {
            Some(Ok(true)) => {
                lemma_inter_loop_fuel_mono(tuples, configs, o, r, u, v, es.drop_first(), f1, f2);
            },
            _ => {},
        }
    }
}

/// A check has at most one outcome: the fuel-indexed semantics converges, so
/// the results the evaluator is specified against are unambiguous.
pub proof fn lemma_check_outcome_unique(
    tuples: Seq<SpecTuple>,
    configs: Seq<SpecNamespaceConfig>,
    o: crate::model::SpecObject,
    r: Seq<char>,
    u: SpecUser,
    x: Result<bool, SpecError>,
    y: Result<bool, SpecError>,
)
    requires
        check_outcome(tuples, configs, o, r, u, x),
        check_outcome(tuples, configs, o, r, u, y),
    ensures
        x == y,
{
    let fx = choose|f: nat| spec_check(tuples, configs, o, r, u, Set::empty(), f) == Some(x);
    let fy = choose|f: nat| spec_check(tuples, configs, o, r, u, Set::empty(), f) == Some(y);
    if fx <= fy {
        lemma_check_fuel_mono(tuples, configs, o, r, u, Set::empty(), fx, fy);
    } else {
        lemma_check_fuel_mono(tuples, configs, o, r, u, Set::empty(), fy, fx);
    }
}


/// Does the expression reach `This` through unions alone, so that a direct
/// grant is always admitted?
pub open spec fn this_reachable(e: SpecExpr) -> bool
    decreases e,
{
    match e {
        SpecExpr::This => true,
        SpecExpr::Union(es) => some_this_reachable(es),
        _ => false,
    }
}

/// Does some expression of the sequence reach `This` through unions?
pub open spec fn some_this_reachable(es: Seq<SpecExpr>) -> bool
    decreases es,
{
    if es.len() == 0 {
        false
    } else {
        this_reachable(es[0]) || some_this_reachable(es.drop_first())
    }
}

/// A union loop answers `Ok(false)` only if every child answered `Ok(false)`.
proof fn lemma_union_loop_not_false(
    tuples: Seq<SpecTuple>,
    configs: Seq<SpecNamespaceConfig>,
    o: crate::model::SpecObject,
    r: Seq<char>,
    u: SpecUser,
    v: Set<SpecTuple>,
    es: Seq<SpecExpr>,
    k: int,
    f: nat,
)
    requires
        0 <= k < es.len(),
        spec_eval(tuples, configs, o, r, u, v, es[k], f) != Some(Ok::<bool, SpecError>(false)),
    ensures
        spec_union_loop(tuples, configs, o, r, u, v, es, f) != Some(Ok::<bool, SpecError>(false)),
    decreases es.len(),
{
    if k > 0 {
        match spec_eval(tuples, configs, o, r, u, v, es[0], f) {
            Some(Ok(false)) => {
                assert(es.drop_first()[k - 1] == es[k]);
                lemma_union_loop_not_false(
                    tuples,
                    configs,
                    o,
                    r,
                    u,
                    v,
                    es.drop_first(),
                    k - 1,
                    f,
                );
            },
            _ => {},
        }
    }
}

/// A stored tuple reached by `This` makes the whole expression admit its
/// user: the evaluation cannot answer `Ok(false)`.
proof fn lemma_this_reachable_eval(
    tuples: Seq<SpecTuple>,
    configs: Seq<SpecNamespaceConfig>,
    t: SpecTuple,
    v: Set<SpecTuple>,
    e: SpecExpr,
    f: nat,
)
    requires
        tuples.contains(t),
        this_reachable(e),
    ensures
        spec_eval(tuples, configs, t.object, t.relation, t.user, v, e, f) != Some(Ok::<
            bool,
            SpecError,
        >(false)),
    decreases e,
{
    match e {
        SpecExpr::This => {
            crate::store::lemma_filter_tuples(
                tuples,
                t.object,
                Some(t.relation),
                Some(t.user),
            );
            let k = choose|k: int| 0 <= k < tuples.len() && tuples[k] == t;
            assert(crate::store::tuple_matches(
                tuples[k],
                t.object,
                Some(t.relation),
                Some(t.user),
            ));
            assert(filter_tuples(tuples, t.object, Some(t.relation), Some(t.user)).contains(t));
            assert(filter_tuples(tuples, t.object, Some(t.relation), Some(t.user)).len() > 0);
        },
        SpecExpr::Union(es) => {
            let k = lemma_some_this_reachable_witness(es);
            lemma_this_reachable_eval(tuples, configs, t, v, es[k], f);
            lemma_union_loop_not_false(
                tuples,
                configs,
                t.object,
                t.relation,
                t.user,
                v,
                es,
                k,
                f,
            );
        },
        _ => {},
    }
}

/// A witness index for [`some_this_reachable`].
proof fn lemma_some_this_reachable_witness(es: Seq<SpecExpr>) -> (k: int)
    requires
        some_this_reachable(es),
    ensures
        0 <= k < es.len(),
        this_reachable(es[k]),
    decreases es,
{
    if this_reachable(es[0]) {
        0
    } else {
        let k = lemma_some_this_reachable_witness(es.drop_first());
        assert(es.drop_first()[k] == es[k + 1]);
        k + 1
    }
}

/// A written tuple is never denied: when the resolved rewrite of its relation
/// reaches `This` through unions, a check of the tuple's own triple from a
/// fresh visited set cannot answer `Ok(false)` — it answers `Ok(true)`, or
/// fails on a rewrite that routes into missing configuration.
pub proof fn lemma_written_tuple_not_denied(
    tuples: Seq<SpecTuple>,
    configs: Seq<SpecNamespaceConfig>,
    t: SpecTuple,
    f: nat,
)
    requires
        tuples.contains(t),
        match find_ns(configs, t.object.namespace) {
            Some(ci) => match find_rel(configs[ci].relations, t.relation) {
                Some(ri) => this_reachable(rewrite_of(configs[ci].relations[ri])),
                None => false,
            },
            None => false,
        },
    ensures
        spec_check(tuples, configs, t.object, t.relation, t.user, Set::empty(), f) != Some(Ok::<
            bool,
            SpecError,
        >(false)),
{
    if f > 0 {
        let ci = find_ns(configs, t.object.namespace)->Some_0;
        let ri = find_rel(configs[ci].relations, t.relation)->Some_0;
        lemma_this_reachable_eval(
            tuples,
            configs,
            t,
            Set::empty().insert(mk_triple(t.object, t.relation, t.user)),
            rewrite_of(configs[ci].relations[ri]),
            (f - 1) as nat,
        );
        assert(!Set::empty().contains(mk_triple(t.object, t.relation, t.user)));
    }
}


/// Is the expression built from `This`, computed usersets, tuple-to-userset
/// and unions alone?
pub open spec fn union_only_expr(e: SpecExpr) -> bool
    decreases e,
{
    match e {
        SpecExpr::This => true,
        SpecExpr::ComputedUserset { .. } => true,
        SpecExpr::TupleToUserset { .. } => true,
        SpecExpr::Union(es) => all_union_only(es),
        SpecExpr::Intersection(..) => false,
        SpecExpr::Exclusion { .. } => false,
    }
}

/// [`union_only_expr`] for every expression of a sequence.
pub open spec fn all_union_only(es: Seq<SpecExpr>) -> bool
    decreases es,
{
    if es.len() == 0 {
        true
    } else {
        union_only_expr(es[0]) && all_union_only(es.drop_first())
    }
}

/// Is every rewrite of every configuration built without intersections and
/// exclusions?
pub open spec fn union_only_configs(configs: Seq<SpecNamespaceConfig>) -> bool {
    forall|c: int, k: int|
        0 <= c < configs.len() && 0 <= k < configs[c].relations.len() ==> match (
        #[trigger] configs[c].relations[k]).userset_rewrite {
            Some(e) => union_only_expr(e),
            None => true,
        }
}

/// [`all_union_only`] covers each element.
proof fn lemma_all_union_only(es: Seq<SpecExpr>, k: int)
    requires
        all_union_only(es),
        0 <= k < es.len(),
    ensures
        union_only_expr(es[k]),
    decreases es,
{
    if k > 0 {
        assert(es.drop_first()[k - 1] == es[k]);
        lemma_all_union_only(es.drop_first(), k - 1);
    }
}

/// Everything in a sequence is still in it after an insertion.
proof fn lemma_insert_contains(ts1: Seq<SpecTuple>, ts2: Seq<SpecTuple>, i: int, t: SpecTuple)
    requires
        0 <= i <= ts1.len(),
        ts2 == ts1.insert(i, t),
    ensures
        forall|x: SpecTuple| ts1.contains(x) ==> ts2.contains(x),
{
    assert forall|x: SpecTuple| ts1.contains(x) implies ts2.contains(x) by {
        let k = choose|k: int| 0 <= k < ts1.len() && ts1[k] == x;
        if k < i {
            assert(ts2[k] == x);
        } else {
            assert(ts2[k + 1] == x);
        }
    }
}

/// A tuple matching a read filter before an insertion still matches and is
/// still read after it.
proof fn lemma_filter_after_insert(
    ts1: Seq<SpecTuple>,
    ts2: Seq<SpecTuple>,
    i: int,
    t: SpecTuple,
    o: crate::model::SpecObject,
    ro: Option<Seq<char>>,
    uo: Option<SpecUser>,
)
    requires
        0 <= i <= ts1.len(),
        ts2 == ts1.insert(i, t),
    ensures
        forall|w: SpecTuple|
            filter_tuples(ts1, o, ro, uo).contains(w) ==> filter_tuples(ts2, o, ro, uo).contains(
                w,
            ),
{
    crate::store::lemma_filter_tuples(ts1, o, ro, uo);
    crate::store::lemma_filter_tuples(ts2, o, ro, uo);
    lemma_insert_contains(ts1, ts2, i, t);
    assert forall|w: SpecTuple| filter_tuples(ts1, o, ro, uo).contains(w) implies filter_tuples(
        ts2,
        o,
        ro,
        uo,
    ).contains(w) by {
        let k = choose|k: int|
            0 <= k < filter_tuples(ts1, o, ro, uo).len() && filter_tuples(ts1, o, ro, uo)[k] == w;
        assert(crate::store::tuple_matches(w, o, ro, uo));
        assert(ts1.contains(w));
        assert(ts2.contains(w));
        let m = choose|m: int| 0 <= m < ts2.len() && ts2[m] == w;
    }
}

/// A userset-indirection loop answers `Ok(false)` only if every stored
/// userset on it checked `Ok(false)`.
proof fn lemma_this_loop_not_false(
    tuples: Seq<SpecTuple>,
    configs: Seq<SpecNamespaceConfig>,
    u: SpecUser,
    v: Set<SpecTuple>,
    ts: Seq<SpecTuple>,
    k: int,
    f: nat,
)
    requires
        0 <= k < ts.len(),
        ts[k].user is Userset,
        spec_check(
            tuples,
            configs,
            ts[k].user->Userset_0,
            ts[k].user->Userset_1,
            u,
            v,
            f,
        ) != Some(Ok::<bool, SpecError>(false)),
    ensures
        spec_this_loop(tuples, configs, u, v, ts, f) != Some(Ok::<bool, SpecError>(false)),
    decreases ts.len(),
{
    if k > 0 {
        let continue_on = match ts[0].user {
            SpecUser::UserId(_) => true,
            SpecUser::Userset(o2, r2) => spec_check(tuples, configs, o2, r2, u, v, f) == Some(Ok::<
                bool,
                SpecError,
            >(false)),
        };
        if continue_on {
            assert(ts.drop_first()[k - 1] == ts[k]);
            lemma_this_loop_not_false(tuples, configs, u, v, ts.drop_first(), k - 1, f);
        }
    }
}

/// A parent loop answers `Ok(false)` only if every stored userset parent
/// checked `Ok(false)`.
proof fn lemma_ttu_loop_not_false(
    tuples: Seq<SpecTuple>,
    configs: Seq<SpecNamespaceConfig>,
    computed: Seq<char>,
    u: SpecUser,
    v: Set<SpecTuple>,
    ts: Seq<SpecTuple>,
    k: int,
    f: nat,
)
    requires
        0 <= k < ts.len(),
        ts[k].user is Userset,
        spec_check(tuples, configs, ts[k].user->Userset_0, computed, u, v, f) != Some(Ok::<
            bool,
            SpecError,
        >(false)),
    ensures
        spec_ttu_loop(tuples, configs, computed, u, v, ts, f) != Some(Ok::<bool, SpecError>(
            false,
        )),
    decreases ts.len(),
{
    if k > 0 {
        let continue_on = match ts[0].user {
            SpecUser::UserId(_) => true,
            SpecUser::Userset(o2, _) => spec_check(tuples, configs, o2, computed, u, v, f) == Some(
                Ok::<bool, SpecError>(false),
            ),
        };
        if continue_on {
            assert(ts.drop_first()[k - 1] == ts[k]);
            lemma_ttu_loop_not_false(tuples, configs, computed, u, v, ts.drop_first(), k - 1, f);
        }
    }
}

/// When a userset-indirection loop answers `Ok(true)`, some stored userset
/// on it checked `Ok(true)`.
proof fn lemma_this_loop_true_witness(
    tuples: Seq<SpecTuple>,
    configs: Seq<SpecNamespaceConfig>,
    u: SpecUser,
    v: Set<SpecTuple>,
    ts: Seq<SpecTuple>,
    f: nat,
) -> (k: int)
    requires
        spec_this_loop(tuples, configs, u, v, ts, f) == Some(Ok::<bool, SpecError>(true)),
    ensures
        0 <= k < ts.len(),
        ts[k].user is Userset,
        spec_check(
            tuples,
            configs,
            ts[k].user->Userset_0,
            ts[k].user->Userset_1,
            u,
            v,
            f,
        ) == Some(Ok::<bool, SpecError>(true)),
    decreases ts.len(),
{
    match ts[0].user {
        SpecUser::UserId(_) => {
            let k = lemma_this_loop_true_witness(tuples, configs, u, v, ts.drop_first(), f);
            assert(ts.drop_first()[k] == ts[k + 1]);
            k + 1
        },
        SpecUser::Userset(o2, r2) => {
            if spec_check(tuples, configs, o2, r2, u, v, f) == Some(Ok::<bool, SpecError>(true)) {
                0
            } else {
                let k = lemma_this_loop_true_witness(tuples, configs, u, v, ts.drop_first(), f);
                assert(ts.drop_first()[k] == ts[k + 1]);
                k + 1
            }
        },
    }
}

/// When a parent loop answers `Ok(true)`, some stored userset parent checked
/// `Ok(true)`.
proof fn lemma_ttu_loop_true_witness(
    tuples: Seq<SpecTuple>,
    configs: Seq<SpecNamespaceConfig>,
    computed: Seq<char>,
    u: SpecUser,
    v: Set<SpecTuple>,
    ts: Seq<SpecTuple>,
    f: nat,
) -> (k: int)
    requires
        spec_ttu_loop(tuples, configs, computed, u, v, ts, f) == Some(Ok::<bool, SpecError>(true)),
    ensures
        0 <= k < ts.len(),
        ts[k].user is Userset,
        spec_check(tuples, configs, ts[k].user->Userset_0, computed, u, v, f) == Some(Ok::<
            bool,
            SpecError,
        >(true)),
    decreases ts.len(),
{
    match ts[0].user {
        SpecUser::UserId(_) => {
            let k = lemma_ttu_loop_true_witness(
                tuples,
                configs,
                computed,
                u,
                v,
                ts.drop_first(),
                f,
            );
            assert(ts.drop_first()[k] == ts[k + 1]);
            k + 1
        },
        SpecUser::Userset(o2, _) => {
            if spec_check(tuples, configs, o2, computed, u, v, f) == Some(Ok::<bool, SpecError>(
                true,
            )) {
                0
            } else {
                let k = lemma_ttu_loop_true_witness(
                    tuples,
                    configs,
                    computed,
                    u,
                    v,
                    ts.drop_first(),
                    f,
                );
                assert(ts.drop_first()[k] == ts[k + 1]);
                k + 1
            }
        },
    }
}

/// When a union loop answers `Ok(true)`, some child evaluated `Ok(true)`.
proof fn lemma_union_loop_true_witness(
    tuples: Seq<SpecTuple>,
    configs: Seq<SpecNamespaceConfig>,
    o: crate::model::SpecObject,
    r: Seq<char>,
    u: SpecUser,
    v: Set<SpecTuple>,
    es: Seq<SpecExpr>,
    f: nat,
) -> (k: int)
    requires
        spec_union_loop(tuples, configs, o, r, u, v, es, f) == Some(Ok::<bool, SpecError>(true)),
    ensures
        0 <= k < es.len(),
        spec_eval(tuples, configs, o, r, u, v, es[k], f) == Some(Ok::<bool, SpecError>(true)),
    decreases es.len(),
{
    if spec_eval(tuples, configs, o, r, u, v, es[0], f) == Some(Ok::<bool, SpecError>(true)) {
        0
    } else {
        let k = lemma_union_loop_true_witness(
            tuples,
            configs,
            o,
            r,
            u,
            v,
            es.drop_first(),
            f,
        );
        assert(es.drop_first()[k] == es[k + 1]);
        k + 1
    }
}

/// Adding one tuple to the store never turns a true check into a false one,
/// for configurations without intersections and exclusions.
proof fn lemma_mono_check(
    ts1: Seq<SpecTuple>,
    ts2: Seq<SpecTuple>,
    i: int,
    t: SpecTuple,
    configs: Seq<SpecNamespaceConfig>,
    o: crate::model::SpecObject,
    r: Seq<char>,
    u: SpecUser,
    v: Set<SpecTuple>,
    f1: nat,
    f2: nat,
)
    requires
        0 <= i <= ts1.len(),
        ts2 == ts1.insert(i, t),
        union_only_configs(configs),
        spec_check(ts1, configs, o, r, u, v, f1) == Some(Ok::<bool, SpecError>(true)),
    ensures
        spec_check(ts2, configs, o, r, u, v, f2) != Some(Ok::<bool, SpecError>(false)),
    decreases f1, 0nat, 0nat, 0nat,
{
    if !v.contains(mk_triple(o, r, u)) && f2 > 0 {
        assert(f1 > 0);
        match find_ns(configs, o.namespace) {
            None => {},
            Some(ci) => match find_rel(configs[ci].relations, r) {
                None => {},
                Some(ri) => {
                    crate::eval::lemma_find_ns(configs, o.namespace);
                    crate::eval::lemma_find_rel(configs[ci].relations, r);
                    let e = rewrite_of(configs[ci].relations[ri]);
                    assert(union_only_expr(e)) by {
                        assert(match configs[ci].relations[ri].userset_rewrite {
                            Some(x) => union_only_expr(x),
                            None => true,
                        });
                    }
                    lemma_mono_eval(
                        ts1,
                        ts2,
                        i,
                        t,
                        configs,
                        o,
                        r,
                        u,
                        v.insert(mk_triple(o, r, u)),
                        e,
                        (f1 - 1) as nat,
                        (f2 - 1) as nat,
                    );
                },
            },
        }
    }
}

/// [`lemma_mono_check`] for one rewrite expression without intersections and
/// exclusions.
proof fn lemma_mono_eval(
    ts1: Seq<SpecTuple>,
    ts2: Seq<SpecTuple>,
    i: int,
    t: SpecTuple,
    configs: Seq<SpecNamespaceConfig>,
    o: crate::model::SpecObject,
    r: Seq<char>,
    u: SpecUser,
    v: Set<SpecTuple>,
    e: SpecExpr,
    f1: nat,
    f2: nat,
)
    requires
        0 <= i <= ts1.len(),
        ts2 == ts1.insert(i, t),
        union_only_configs(configs),
        union_only_expr(e),
        spec_eval(ts1, configs, o, r, u, v, e, f1) == Some(Ok::<bool, SpecError>(true)),
    ensures
        spec_eval(ts2, configs, o, r, u, v, e, f2) != Some(Ok::<bool, SpecError>(false)),
    decreases f1, 2nat, crate::eval::expr_size(e), 0nat,
{
    match e {
        SpecExpr::This => {
            if filter_tuples(ts1, o, Some(r), Some(u)).len() > 0 {
                lemma_filter_after_insert(ts1, ts2, i, t, o, Some(r), Some(u));
                let w = filter_tuples(ts1, o, Some(r), Some(u))[0];
                assert(filter_tuples(ts1, o, Some(r), Some(u)).contains(w));
                assert(filter_tuples(ts2, o, Some(r), Some(u)).contains(w));
                assert(filter_tuples(ts2, o, Some(r), Some(u)).len() > 0);
            } else if filter_tuples(ts2, o, Some(r), Some(u)).len() > 0 {
            } else {
                let fs1 = filter_tuples(ts1, o, Some(r), None);
                let fs2 = filter_tuples(ts2, o, Some(r), None);
                let k = lemma_this_loop_true_witness(ts1, configs, u, v, fs1, f1);
                let w = fs1[k];
                lemma_filter_after_insert(ts1, ts2, i, t, o, Some(r), None);
                assert(fs1.contains(w));
                assert(fs2.contains(w));
                let k2 = choose|k2: int| 0 <= k2 < fs2.len() && fs2[k2] == w;
                lemma_mono_check(
                    ts1,
                    ts2,
                    i,
                    t,
                    configs,
                    w.user->Userset_0,
                    w.user->Userset_1,
                    u,
                    v,
                    f1,
                    f2,
                );
                lemma_this_loop_not_false(ts2, configs, u, v, fs2, k2, f2);
            }
        },
        SpecExpr::ComputedUserset { relation } => {
            lemma_mono_check(ts1, ts2, i, t, configs, o, relation, u, v, f1, f2);
        },
        SpecExpr::TupleToUserset { tupleset_relation, computed_userset_relation } => {
            let fs1 = filter_tuples(ts1, o, Some(tupleset_relation), None);
            let fs2 = filter_tuples(ts2, o, Some(tupleset_relation), None);
            let k = lemma_ttu_loop_true_witness(
                ts1,
                configs,
                computed_userset_relation,
                u,
                v,
                fs1,
                f1,
            );
            let w = fs1[k];
            lemma_filter_after_insert(ts1, ts2, i, t, o, Some(tupleset_relation), None);
            assert(fs1.contains(w));
            assert(fs2.contains(w));
            let k2 = choose|k2: int| 0 <= k2 < fs2.len() && fs2[k2] == w;
            lemma_mono_check(
                ts1,
                ts2,
                i,
                t,
                configs,
                w.user->Userset_0,
                computed_userset_relation,
                u,
                v,
                f1,
                f2,
            );
            lemma_ttu_loop_not_false(
                ts2,
                configs,
                computed_userset_relation,
                u,
                v,
                fs2,
                k2,
                f2,
            );
        },
        SpecExpr::Union(es) => {
            let k = lemma_union_loop_true_witness(ts1, configs, o, r, u, v, es, f1);
            lemma_all_union_only(es, k);
            crate::eval::lemma_exprs_size_elem(es, k);
            lemma_mono_eval(ts1, ts2, i, t, configs, o, r, u, v, es[k], f1, f2);
            lemma_union_loop_not_false(ts2, configs, o, r, u, v, es, k, f2);
        },
        _ => {},
    }
}

/// Check is monotonic under tuple addition for configurations built only
/// from `This`, computed usersets, tuple-to-userset and unions: adding a
/// tuple can flip an outcome from false to true but never from true to
/// false.
pub proof fn lemma_check_monotonic(
    ts1: Seq<SpecTuple>,
    ts2: Seq<SpecTuple>,
    i: int,
    t: SpecTuple,
    configs: Seq<SpecNamespaceConfig>,
    o: crate::model::SpecObject,
    r: Seq<char>,
    u: SpecUser,
    x: Result<bool, SpecError>,
)
    requires
        0 <= i <= ts1.len(),
        ts2 == ts1.insert(i, t),
        union_only_configs(configs),
        check_outcome(ts1, configs, o, r, u, Ok(true)),
        check_outcome(ts2, configs, o, r, u, x),
    ensures
        x != Ok::<bool, SpecError>(false),
{
    let f1 = choose|f: nat|
        spec_check(ts1, configs, o, r, u, Set::empty(), f) == Some(Ok::<bool, SpecError>(true));
    let f2 = choose|f: nat| spec_check(ts2, configs, o, r, u, Set::empty(), f) == Some(x);
    lemma_mono_check(ts1, ts2, i, t, configs, o, r, u, Set::empty(), f1, f2);
}


/// Corollary at the outcome level: whatever a check of a stored tuple's own
/// triple converges to, it is not a denial, when the tuple's relation
/// resolves to a rewrite that reaches `This` through unions.
pub proof fn lemma_written_tuple_outcome(
    tuples: Seq<SpecTuple>,
    configs: Seq<SpecNamespaceConfig>,
    t: SpecTuple,
    x: Result<bool, SpecError>,
)
    requires
        tuples.contains(t),
        match find_ns(configs, t.object.namespace) {
            Some(ci) => match find_rel(configs[ci].relations, t.relation) {
                Some(ri) => this_reachable(rewrite_of(configs[ci].relations[ri])),
                None => false,
            },
            None => false,
        },
        check_outcome(tuples, configs, t.object, t.relation, t.user, x),
    ensures
        x != Ok::<bool, SpecError>(false),
{
    let f = choose|f: nat|
        spec_check(tuples, configs, t.object, t.relation, t.user, Set::empty(), f) == Some(x);
    lemma_written_tuple_not_denied(tuples, configs, t, f);
}

/// The configuration a name resolves to, if any.
pub open spec fn lookup_ns(
    cfgs: Seq<SpecNamespaceConfig>,
    n: Seq<char>,
) -> Option<SpecNamespaceConfig> {
    match find_ns(cfgs, n) {
        Some(i) => Some(cfgs[i]),
        None => None,
    }
}

/// Installing a configuration is last-writer-wins per name: afterwards its
/// own name resolves to it, and every other name resolves as before.
pub proof fn lemma_install_lookup(
    cfgs: Seq<SpecNamespaceConfig>,
    c: SpecNamespaceConfig,
    n: Seq<char>,
)
    ensures
        lookup_ns(crate::install(cfgs, c), c.name) == Some(c),
        n != c.name ==> lookup_ns(crate::install(cfgs, c), n) == lookup_ns(cfgs, n),
{
    let r = crate::install(cfgs, c);
    crate::eval::lemma_find_ns(cfgs, c.name);
    crate::eval::lemma_find_ns(cfgs, n);
    crate::eval::lemma_find_ns(r, c.name);
    crate::eval::lemma_find_ns(r, n);
    match find_ns(cfgs, c.name) {
        Some(i) => {
            assert(r == cfgs.update(i, c));
            assert(r[i] == c);
            match find_ns(r, c.name) {
                Some(k) => {
                    if k < i {
                        assert(r[k] == cfgs[k]);
                        assert(false);
                    }
                    if k > i {
                        assert(r[i].name == c.name);
                        assert(false);
                    }
                    assert(lookup_ns(r, c.name) == Some(c));
                },
                None => {
                    assert(r[i].name == c.name);
                    assert(false);
                },
            }
            if n != c.name {
                assert forall|m: int| 0 <= m < r.len() implies (r[m].name == n) == (cfgs[m].name
                    == n) by {
                    if m != i {
                        assert(r[m] == cfgs[m]);
                    } else {
                        assert(r[m] == c);
                        assert(cfgs[m].name == c.name);
                    }
                }
                match (find_ns(cfgs, n), find_ns(r, n)) {
                    (Some(j), Some(k)) => {
                        if j < k {
                            assert(r[j].name == n);
                            assert(false);
                        }
                        if k < j {
                            assert(cfgs[k].name == n);
                            assert(false);
                        }
                        assert(j != i);
                        assert(r[j] == cfgs[j]);
                    },
                    (Some(j), None) => {
                        assert(r[j].name == n);
                        assert(false);
                    },
                    (None, Some(k)) => {
                        assert(cfgs[k].name == n);
                        assert(false);
                    },
                    (None, None) => {},
                }
            }
        },
        None => {
            assert(r == cfgs.push(c));
            assert(r[r.len() - 1] == c);
            match find_ns(r, c.name) {
                Some(k) => {
                    if k < r.len() - 1 {
                        assert(r[k] == cfgs[k]);
                        assert(false);
                    }
                    assert(lookup_ns(r, c.name) == Some(c));
                },
                None => {
                    assert(r[r.len() - 1].name == c.name);
                    assert(false);
                },
            }
            if n != c.name {
                assert forall|m: int| 0 <= m < cfgs.len() implies r[m] == cfgs[m] by {}
                match (find_ns(cfgs, n), find_ns(r, n)) {
                    (Some(j), Some(k)) => {
                        if j < k {
                            assert(r[j].name == n);
                            assert(false);
                        }
                        if k < j {
                            assert(k < cfgs.len());
                            assert(cfgs[k].name == n);
                            assert(false);
                        }
                    },
                    (Some(j), None) => {
                        assert(r[j].name == n);
                        assert(false);
                    },
                    (None, Some(k)) => {
                        if k < cfgs.len() {
                            assert(cfgs[k].name == n);
                            assert(false);
                        } else {
                            assert(r[k] == c);
                            assert(false);
                        }
                    },
                    (None, None) => {},
                }
            }
        },
    }
}


/// More fuel never changes a settled expand: once the semantics returns
/// `Some`, every larger fuel returns the same.
pub proof fn lemma_expand_fuel_mono(
    tuples: Seq<SpecTuple>,
    configs: Seq<SpecNamespaceConfig>,
    o: crate::model::SpecObject,
    r: Seq<char>,
    v: Set<(crate::model::SpecObject, Seq<char>)>,
    f1: nat,
    f2: nat,
)
    requires
        f1 <= f2,
        spec_expand(tuples, configs, o, r, v, f1) is Some,
    ensures
        spec_expand(tuples, configs, o, r, v, f2) == spec_expand(tuples, configs, o, r, v, f1),
    decreases f1, 0nat, 0nat, 0nat,
{
    if !v.contains((o, r)) {
        assert(f1 > 0);
        match find_ns(configs, o.namespace) {
            None => {},
            Some(ci) => match find_rel(configs[ci].relations, r) {
                None => {},
                Some(ri) => {
                    lemma_expand_expr_fuel_mono(
                        tuples,
                        configs,
                        o,
                        r,
                        v.insert((o, r)),
                        rewrite_of(configs[ci].relations[ri]),
                        (f1 - 1) as nat,
                        (f2 - 1) as nat,
                    );
                },
            },
        }
    }
}

/// [`lemma_expand_fuel_mono`] for one rewrite expression.
proof fn lemma_expand_expr_fuel_mono(
    tuples: Seq<SpecTuple>,
    configs: Seq<SpecNamespaceConfig>,
    o: crate::model::SpecObject,
    r: Seq<char>,
    v: Set<(crate::model::SpecObject, Seq<char>)>,
    e: SpecExpr,
    f1: nat,
    f2: nat,
)
    requires
        f1 <= f2,
        spec_expand_expr(tuples, configs, o, r, v, e, f1) is Some,
    ensures
        spec_expand_expr(tuples, configs, o, r, v, e, f2) == spec_expand_expr(
            tuples,
            configs,
            o,
            r,
            v,
            e,
            f1,
        ),
    decreases f1, 2nat, crate::eval::expr_size(e), 0nat,
{
    match e {
        SpecExpr::This => {},
        SpecExpr::ComputedUserset { relation } => {
            lemma_expand_fuel_mono(tuples, configs, o, relation, v, f1, f2);
        },
        SpecExpr::TupleToUserset { tupleset_relation, computed_userset_relation } => {
            lemma_expand_ttu_fuel_mono(
                tuples,
                configs,
                computed_userset_relation,
                v,
                filter_tuples(tuples, o, Some(tupleset_relation), None),
                f1,
                f2,
            );
        },
        SpecExpr::Union(es) => {
            lemma_expand_children_fuel_mono(tuples, configs, o, r, v, es, f1, f2);
        },
        SpecExpr::Intersection(es) => {
            lemma_expand_children_fuel_mono(tuples, configs, o, r, v, es, f1, f2);
        },
        SpecExpr::Exclusion { base, exclude } => {
            lemma_expand_expr_fuel_mono(tuples, configs, o, r, v, *base, f1, f2);
            match spec_expand_expr(tuples, configs, o, r, v, *base, f1) {
                Some(Ok(_)) => {
                    lemma_expand_expr_fuel_mono(tuples, configs, o, r, v, *exclude, f1, f2);
                },
                _ => {},
            }
        },
    }
}

/// [`lemma_expand_fuel_mono`] for the parents of a tuple-to-userset.
proof fn lemma_expand_ttu_fuel_mono(
    tuples: Seq<SpecTuple>,
    configs: Seq<SpecNamespaceConfig>,
    computed: Seq<char>,
    v: Set<(crate::model::SpecObject, Seq<char>)>,
    ts: Seq<SpecTuple>,
    f1: nat,
    f2: nat,
)
    requires
        f1 <= f2,
        spec_expand_ttu_loop(tuples, configs, computed, v, ts, f1) is Some,
    ensures
        spec_expand_ttu_loop(tuples, configs, computed, v, ts, f2) == spec_expand_ttu_loop(
            tuples,
            configs,
            computed,
            v,
            ts,
            f1,
        ),
    decreases f1, 1nat, 0nat, ts.len(),
{
    if ts.len() > 0 {
        match ts[0].user {
            SpecUser::UserId(_) => {
                lemma_expand_ttu_fuel_mono(
                    tuples,
                    configs,
                    computed,
                    v,
                    ts.drop_first(),
                    f1,
                    f2,
                );
            },
            SpecUser::Userset(o2, _) => {
                lemma_expand_fuel_mono(tuples, configs, o2, computed, v, f1, f2);
                match spec_expand(tuples, configs, o2, computed, v, f1) {
                    Some(Ok(_)) => {
                        lemma_expand_ttu_fuel_mono(
                            tuples,
                            configs,
                            computed,
                            v,
                            ts.drop_first(),
                            f1,
                            f2,
                        );
                    },
                    _ => {},
                }
            },
        }
    }
}

/// [`lemma_expand_fuel_mono`] for the children of a union or intersection.
proof fn lemma_expand_children_fuel_mono(
    tuples: Seq<SpecTuple>,
    configs: Seq<SpecNamespaceConfig>,
    o: crate::model::SpecObject,
    r: Seq<char>,
    v: Set<(crate::model::SpecObject, Seq<char>)>,
    es: Seq<SpecExpr>,
    f1: nat,
    f2: nat,
)
    requires
        f1 <= f2,
        spec_expand_children(tuples, configs, o, r, v, es, f1) is Some,
    ensures
        spec_expand_children(tuples, configs, o, r, v, es, f2) == spec_expand_children(
            tuples,
            configs,
            o,
            r,
            v,
            es,
            f1,
        ),
    decreases f1, 2nat, crate::eval::exprs_size(es), 0nat,
{
    if es.len() > 0 {
        crate::eval::lemma_exprs_size_elem(es, 0);
        lemma_expand_expr_fuel_mono(tuples, configs, o, r, v, es[0], f1, f2);
        match spec_expand_expr(tuples, configs, o, r, v, es[0], f1) {
            Some(Ok(_)) => {
                lemma_expand_children_fuel_mono(
                    tuples,
                    configs,
                    o,
                    r,
                    v,
                    es.drop_first(),
                    f1,
                    f2,
                );
            },
            _ => {},
        }
    }
}

/// An expand has at most one outcome.
pub proof fn lemma_expand_outcome_unique(
    tuples: Seq<SpecTuple>,
    configs: Seq<SpecNamespaceConfig>,
    o: crate::model::SpecObject,
    r: Seq<char>,
    x: Result<crate::model::SpecExpanded, SpecError>,
    y: Result<crate::model::SpecExpanded, SpecError>,
)
    requires
        expand_outcome(tuples, configs, o, r, x),
        expand_outcome(tuples, configs, o, r, y),
    ensures
        x == y,
{
    let fx = choose|f: nat| spec_expand(tuples, configs, o, r, Set::empty(), f) == Some(x);
    let fy = choose|f: nat| spec_expand(tuples, configs, o, r, Set::empty(), f) == Some(y);
    if fx <= fy {
        lemma_expand_fuel_mono(tuples, configs, o, r, Set::empty(), fx, fy);
    } else {
        lemma_expand_fuel_mono(tuples, configs, o, r, Set::empty(), fy, fx);
    }
}

} // verus!
