//! Core data model: objects, relations, users, relation tuples, namespace
//! configurations and userset-rewrite expression trees, together with their
//! mathematical views used by the contracts.

use vstd::prelude::*;

verus! {

/// A namespaced object, e.g. `doc:readme`.
#[derive(Debug, PartialEq, Eq)]
pub struct Object {
    pub namespace: String,
    pub id: String,
}

/// A named relation (edge kind) on an object, e.g. `owner` or `viewer`.
#[derive(Debug, PartialEq, Eq)]
pub struct Relation(pub String);

/// Either a terminal principal identifier or an indirection to the set of
/// users holding some relation on some object.
#[derive(Debug, PartialEq, Eq)]
pub enum User {
    /// A specific user, identified by an opaque string.
    UserId(String),
    /// The set of users who hold the given relation on the given object.
    Userset(Object, Relation),
}

/// The atomic unit of authorization data: *(object, relation, user)*.
#[derive(Debug, PartialEq, Eq)]
pub struct RelationTuple {
    pub object: Object,
    pub relation: Relation,
    pub user: User,
}

/// Mathematical view of an [`Object`]: both fields as character sequences.
pub struct SpecObject {
    pub namespace: Seq<char>,
    pub id: Seq<char>,
}

/// Mathematical view of a [`User`].
pub enum SpecUser {
    UserId(Seq<char>),
    Userset(SpecObject, Seq<char>),
}

/// Mathematical view of a [`RelationTuple`]; also used for the triples of the
/// evaluator's visited set.
pub struct SpecTuple {
    pub object: SpecObject,
    pub relation: Seq<char>,
    pub user: SpecUser,
}

impl View for Object {
    type V = SpecObject;

    open spec fn view(&self) -> SpecObject {
        SpecObject { namespace: self.namespace@, id: self.id@ }
    }
}

impl View for Relation {
    type V = Seq<char>;

    open spec fn view(&self) -> Seq<char> {
        self.0@
    }
}

impl View for User {
    type V = SpecUser;

    open spec fn view(&self) -> SpecUser {
        match self {
            User::UserId(s) => SpecUser::UserId(s@),
            User::Userset(o, r) => SpecUser::Userset(o@, r@),
        }
    }
}

impl View for RelationTuple {
    type V = SpecTuple;

    open spec fn view(&self) -> SpecTuple {
        SpecTuple { object: self.object@, relation: self.relation@, user: self.user@ }
    }
}

impl Clone for Object {
    fn clone(&self) -> (r: Self)
        ensures
            r@ == self@,
    {
        Object { namespace: self.namespace.clone(), id: self.id.clone() }
    }
}

impl Clone for Relation {
    fn clone(&self) -> (r: Self)
        ensures
            r@ == self@,
    {
        Relation(self.0.clone())
    }
}

impl Clone for User {
    fn clone(&self) -> (r: Self)
        ensures
            r@ == self@,
    {
        match self {
            User::UserId(s) => User::UserId(s.clone()),
            User::Userset(o, r) => User::Userset(o.clone(), r.clone()),
        }
    }
}

impl Clone for RelationTuple {
    fn clone(&self) -> (r: Self)
        ensures
            r@ == self@,
    {
        RelationTuple {
            object: self.object.clone(),
            relation: self.relation.clone(),
            user: self.user.clone(),
        }
    }
}

/// A tree of userset computations: the policy language interpreted by the
/// evaluator.
#[derive(Debug, PartialEq, Eq)]
pub enum UsersetExpression {
    /// The set of users directly granted this relation, plus anyone implied
    /// by stored userset tuples.
    This,
    /// The set of users holding another relation on the *same* object.
    ComputedUserset { relation: Relation },
    /// For every stored tuple *(O, tupleset, Userset(O', _))*, the users who
    /// hold the computed relation on O'. The relation component of the stored
    /// userset is ignored.
    TupleToUserset { tupleset_relation: Relation, computed_userset_relation: Relation },
    /// Any sub-expression holds.
    Union(Vec<UsersetExpression>),
    /// All sub-expressions hold; an empty intersection holds.
    Intersection(Vec<UsersetExpression>),
    /// The base holds and the exclusion does not.
    Exclusion { base: Box<UsersetExpression>, exclude: Box<UsersetExpression> },
}

/// Mathematical view of a [`UsersetExpression`].
pub enum SpecExpr {
    This,
    ComputedUserset { relation: Seq<char> },
    TupleToUserset { tupleset_relation: Seq<char>, computed_userset_relation: Seq<char> },
    Union(Seq<SpecExpr>),
    Intersection(Seq<SpecExpr>),
    Exclusion { base: Box<SpecExpr>, exclude: Box<SpecExpr> },
}

/// View of an expression tree.
pub open spec fn expr_view(e: UsersetExpression) -> SpecExpr
    decreases e,
{
    match e {
        UsersetExpression::This => SpecExpr::This,
        UsersetExpression::ComputedUserset { relation } => SpecExpr::ComputedUserset {
            relation: relation@,
        },
        UsersetExpression::TupleToUserset { tupleset_relation, computed_userset_relation } => (
        SpecExpr::TupleToUserset {
            tupleset_relation: tupleset_relation@,
            computed_userset_relation: computed_userset_relation@,
        }),
        UsersetExpression::Union(es) => SpecExpr::Union(exprs_view(es@)),
        UsersetExpression::Intersection(es) => SpecExpr::Intersection(exprs_view(es@)),
        UsersetExpression::Exclusion { base, exclude } => SpecExpr::Exclusion {
            base: Box::new(expr_view(*base)),
            exclude: Box::new(expr_view(*exclude)),
        },
    }
}

/// View of a sequence of expression trees, element by element.
pub open spec fn exprs_view(es: Seq<UsersetExpression>) -> Seq<SpecExpr>
    decreases es,
{
    if es.len() == 0 {
        Seq::empty()
    } else {
        seq![expr_view(es[0])] + exprs_view(es.drop_first())
    }
}

impl View for UsersetExpression {
    type V = SpecExpr;

    open spec fn view(&self) -> SpecExpr {
        expr_view(*self)
    }
}

/// Basic shape of [`exprs_view`]: it maps the sequence element-wise.
pub proof fn lemma_exprs_view(es: Seq<UsersetExpression>)
    ensures
        exprs_view(es).len() == es.len(),
        forall|i: int| 0 <= i < es.len() ==> exprs_view(es)[i] == expr_view(es[i]),
    decreases es,
{
    if es.len() > 0 {
        lemma_exprs_view(es.drop_first());
    }
}

/// Configuration of one relation within a namespace. A missing rewrite is
/// semantically equivalent to [`UsersetExpression::This`].
#[derive(Debug, PartialEq, Eq)]
pub struct RelationConfig {
    pub name: Relation,
    pub userset_rewrite: Option<UsersetExpression>,
}

/// Mathematical view of a [`RelationConfig`].
pub struct SpecRelationConfig {
    pub name: Seq<char>,
    pub userset_rewrite: Option<SpecExpr>,
}

impl View for RelationConfig {
    type V = SpecRelationConfig;

    open spec fn view(&self) -> SpecRelationConfig {
        SpecRelationConfig {
            name: self.name@,
            userset_rewrite: match self.userset_rewrite {
                Some(e) => Some(expr_view(e)),
                None => None,
            },
        }
    }
}

/// Schema and policy rules for one namespace: a name and its relations.
/// Relations are looked up by name; the first entry with a given name wins.
#[derive(Debug, PartialEq, Eq)]
pub struct NamespaceConfig {
    pub name: String,
    pub relations: Vec<RelationConfig>,
}

/// Mathematical view of a [`NamespaceConfig`].
pub struct SpecNamespaceConfig {
    pub name: Seq<char>,
    pub relations: Seq<SpecRelationConfig>,
}

impl View for NamespaceConfig {
    type V = SpecNamespaceConfig;

    open spec fn view(&self) -> SpecNamespaceConfig {
        SpecNamespaceConfig {
            name: self.name@,
            relations: Seq::new(self.relations@.len(), |i: int| self.relations@[i]@),
        }
    }
}

/// The result of an `expand` query: the tree of usersets contributing to a
/// relation on an object, one level of tuple fan-out deep.
#[derive(Debug, PartialEq, Eq)]
pub enum ExpandedUserset {
    /// A specific user who has the permission.
    User(String),
    /// A reference to another userset contributing to the permission.
    Userset(Object, Relation),
    /// The union of the expanded children.
    Union(Vec<ExpandedUserset>),
    /// The intersection of the expanded children.
    Intersection(Vec<ExpandedUserset>),
    /// The base minus the excluded userset.
    Exclusion { base: Box<ExpandedUserset>, exclude: Box<ExpandedUserset> },
}

/// Mathematical view of an [`ExpandedUserset`].
pub enum SpecExpanded {
    User(Seq<char>),
    Userset(SpecObject, Seq<char>),
    Union(Seq<SpecExpanded>),
    Intersection(Seq<SpecExpanded>),
    Exclusion { base: Box<SpecExpanded>, exclude: Box<SpecExpanded> },
}

/// View of an expand-result tree.
pub open spec fn expanded_view(e: ExpandedUserset) -> SpecExpanded
    decreases e,
{
    match e {
        ExpandedUserset::User(s) => SpecExpanded::User(s@),
        ExpandedUserset::Userset(o, r) => SpecExpanded::Userset(o@, r@),
        ExpandedUserset::Union(es) => SpecExpanded::Union(expandeds_view(es@)),
        ExpandedUserset::Intersection(es) => SpecExpanded::Intersection(expandeds_view(es@)),
        ExpandedUserset::Exclusion { base, exclude } => SpecExpanded::Exclusion {
            base: Box::new(expanded_view(*base)),
            exclude: Box::new(expanded_view(*exclude)),
        },
    }
}

/// View of a sequence of expand-result trees, element by element.
pub open spec fn expandeds_view(es: Seq<ExpandedUserset>) -> Seq<SpecExpanded>
    decreases es,
{
    if es.len() == 0 {
        Seq::empty()
    } else {
        seq![expanded_view(es[0])] + expandeds_view(es.drop_first())
    }
}

impl View for ExpandedUserset {
    type V = SpecExpanded;

    open spec fn view(&self) -> SpecExpanded {
        expanded_view(*self)
    }
}

/// Basic shape of [`expandeds_view`]: it maps the sequence element-wise.
pub proof fn lemma_expandeds_view(es: Seq<ExpandedUserset>)
    ensures
        expandeds_view(es).len() == es.len(),
        forall|i: int| 0 <= i < es.len() ==> expandeds_view(es)[i] == expanded_view(es[i]),
    decreases es,
{
    if es.len() > 0 {
        lemma_expandeds_view(es.drop_first());
    }
}

/// Field-wise equality of objects, reflected to the view level.
pub fn obj_eq(a: &Object, b: &Object) -> (r: bool)
    ensures
        r == (a@ == b@),
{
    let r = a.namespace == b.namespace && a.id == b.id;
    proof {
        if a@.namespace == b@.namespace && a@.id == b@.id {
            assert(a@ == b@);
        }
    }
    r
}

/// Equality of relation names, reflected to the view level.
pub fn rel_eq(a: &Relation, b: &Relation) -> (r: bool)
    ensures
        r == (a@ == b@),
{
    a.0 == b.0
}

/// Equality of users, reflected to the view level.
pub fn user_eq(a: &User, b: &User) -> (r: bool)
    ensures
        r == (a@ == b@),
{
    match (a, b) {
        (User::UserId(x), User::UserId(y)) => {
            let r = *x == *y;
            proof {
                if x@ == y@ {
                    assert(a@ == b@);
                }
            }
            r
        },
        (User::Userset(oa, ra), User::Userset(ob, rb)) => {
            let r = obj_eq(oa, ob) && rel_eq(ra, rb);
            proof {
                if oa@ == ob@ && ra@ == rb@ {
                    assert(a@ == b@);
                }
            }
            r
        },
        _ => {
            proof {
                assert(a@ != b@);
            }
            false
        },
    }
}

/// Equality of whole relation tuples, reflected to the view level.
pub fn tuple_eq(a: &RelationTuple, b: &RelationTuple) -> (r: bool)
    ensures
        r == (a@ == b@),
{
    let r = obj_eq(&a.object, &b.object) && rel_eq(&a.relation, &b.relation)
        && user_eq(&a.user, &b.user);
    proof {
        if a@.object == b@.object && a@.relation == b@.relation && a@.user == b@.user {
            assert(a@ == b@);
        }
    }
    r
}

} // verus!
