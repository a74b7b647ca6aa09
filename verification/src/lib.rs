//! A relationship-based authorization engine in the style of Google's
//! Zanzibar: relation tuples are stored in a pluggable tuple store, policies
//! are userset-rewrite expression trees attached to relations of namespaces,
//! and the evaluator answers `check` (boolean membership) and `expand`
//! (structural userset tree) queries over them.

use vstd::prelude::*;

pub mod error;
pub mod eval;
pub mod laws;
pub mod model;
pub mod parser;
pub mod store;

use crate::error::{ZanzibarError, res_view};
use crate::eval::{TripleSet, check_outcome, configs_view, exp_res_view, expand_outcome, find_ns};
use crate::model::{NamespaceConfig, Object, Relation, RelationTuple, SpecNamespaceConfig,
    SpecTuple, User};
use crate::store::{InMemoryTupleStore, TupleStore};

verus! {

/// Mathematical view of a [`ZanzibarService`]: the installed configurations
/// and the stored tuples.
pub struct ServiceView {
    pub configs: Seq<SpecNamespaceConfig>,
    pub tuples: Seq<SpecTuple>,
}

/// Installing one configuration: it replaces the first configuration of the
/// same name, or is appended if the name is new.
pub open spec fn install(
    cfgs: Seq<SpecNamespaceConfig>,
    c: SpecNamespaceConfig,
) -> Seq<SpecNamespaceConfig> {
    match find_ns(cfgs, c.name) {
        Some(i) => cfgs.update(i, c),
        None => cfgs.push(c),
    }
}

/// Installing a sequence of configurations in order.
pub open spec fn install_all(
    cfgs: Seq<SpecNamespaceConfig>,
    news: Seq<SpecNamespaceConfig>,
) -> Seq<SpecNamespaceConfig>
    decreases news.len(),
{
    if news.len() == 0 {
        cfgs
    } else {
        install_all(install(cfgs, news[0]), news.drop_first())
    }
}

/// Installing the configurations one more at the end installs the sequence
/// and then the last one.
pub proof fn lemma_install_all_push(
    cfgs: Seq<SpecNamespaceConfig>,
    xs: Seq<SpecNamespaceConfig>,
    x: SpecNamespaceConfig,
)
    ensures
        install_all(cfgs, xs.push(x)) == install(install_all(cfgs, xs), x),
    decreases xs.len(),
{
    if xs.len() == 0 {
        assert(xs.push(x)[0] == x);
        assert(xs.push(x).drop_first() =~= Seq::<SpecNamespaceConfig>::empty());
        assert(install_all(cfgs, xs.push(x)) == install_all(
            install(cfgs, x),
            Seq::<SpecNamespaceConfig>::empty(),
        ));
        assert(install_all(install(cfgs, x), Seq::<SpecNamespaceConfig>::empty()) == install(
            cfgs,
            x,
        ));
        assert(install_all(cfgs, xs) == cfgs);
    } else {
        assert(xs.push(x)[0] == xs[0]);
        assert(xs.push(x).drop_first() =~= xs.drop_first().push(x));
        lemma_install_all_push(install(cfgs, xs[0]), xs.drop_first(), x);
    }
}

/// The main service: holds the namespace configurations and an in-memory
/// tuple store, and coordinates parsing, writes and queries.
pub struct ZanzibarService {
    configs: Vec<NamespaceConfig>,
    store: InMemoryTupleStore,
}

impl View for ZanzibarService {
    type V = ServiceView;

    closed spec fn view(&self) -> ServiceView {
        ServiceView { configs: configs_view(self.configs@), tuples: self.store.tuples() }
    }
}

impl Default for ZanzibarService {
    /// A service with no configurations and an empty in-memory store.
    fn default() -> (r: Self)
        ensures
            r.wf(),
            r@.configs == Seq::<SpecNamespaceConfig>::empty(),
            r@.tuples == Seq::<SpecTuple>::empty(),
    {
        ZanzibarService::new()
    }
}

impl ZanzibarService {
    /// Internal well-formedness: the store holds no duplicate tuples.
    pub closed spec fn wf(&self) -> bool {
        self.store.inv()
    }

    /// Creates a new service with no configurations and an empty in-memory
    /// store.
    pub fn new() -> (r: Self)
        ensures
            r.wf(),
            r@.configs == Seq::<SpecNamespaceConfig>::empty(),
            r@.tuples == Seq::<SpecTuple>::empty(),
    {
        let r = ZanzibarService { configs: Vec::new(), store: InMemoryTupleStore::new() };
        proof {
            assert(r@.configs =~= Seq::<SpecNamespaceConfig>::empty());
        }
        r
    }

    /// Adds or updates one namespace configuration: the last writer wins per
    /// name; other configurations and the stored tuples are untouched.
    pub fn add_config(&mut self, config: NamespaceConfig)
        requires
            old(self).wf(),
        ensures
            final(self).wf(),
            final(self)@.configs == install(old(self)@.configs, config@),
            final(self)@.tuples == old(self)@.tuples,
    {
        let ghost oldv = self@.configs;
        let ghost cval = config@;
        match crate::eval::find_namespace(&self.configs, &config.name) {
            Some(i) => {
                self.configs.remove(i);
                self.configs.insert(i, config);
                proof {
                    assert(self@.configs =~= oldv.update(i as int, cval));
                }
            },
            None => {
                self.configs.push(config);
                proof {
                    assert(self@.configs =~= oldv.push(cval));
                }
            },
        }
    }

    /// Parses DSL text and installs each resulting configuration in order,
    /// last writer winning per name. On a parse error nothing changes and a
    /// [`ZanzibarError::ParseError`] is returned: exactly when the text is
    /// outside the grammar.
    pub fn add_dsl(&mut self, dsl: &str) -> (r: Result<(), ZanzibarError>)
        requires
            old(self).wf(),
        ensures
            final(self).wf(),
            final(self)@.tuples == old(self)@.tuples,
            match r {
                Ok(_) => exists|cfgs: Seq<SpecNamespaceConfig>|
                    crate::parser::spec_parse_dsl(dsl@) == Some(cfgs) && final(self)@.configs
                        == install_all(old(self)@.configs, cfgs),
                Err(e) => crate::parser::spec_parse_dsl(dsl@) == None::<Seq<SpecNamespaceConfig>>
                    && e is ParseError && final(self)@.configs == old(self)@.configs,
            },
    {
        let ghost old_configs = self@.configs;
        match crate::parser::parse_dsl(dsl) {
            Err(e) => Err(e),
            Ok(mut cfgs) => {
                let ghost cfgv = eval::configs_view(cfgs@);
                proof {
                    assert(cfgv.take(0) =~= Seq::<SpecNamespaceConfig>::empty());
                }
                while cfgs.len() > 0
                    invariant
                        self.wf(),
                        cfgs@.len() <= cfgv.len(),
                        forall|k: int|
                            0 <= k < cfgs@.len() ==> cfgs@[k]@ == cfgv[cfgv.len() - cfgs@.len()
                                + k],
                        self@.tuples == old(self)@.tuples,
                        self@.configs == install_all(
                            old_configs,
                            cfgv.take(cfgv.len() - cfgs@.len()),
                        ),
                    decreases cfgs@.len(),
                {
                    let ghost gi = cfgv.len() - cfgs@.len();
                    let ghost before = cfgs@;
                    let cfg = cfgs.remove(0);
                    proof {
                        assert(cfg == before[0]);
                        assert(cfg@ == cfgv[gi]);
                        assert forall|k: int| 0 <= k < cfgs@.len() implies cfgs@[k]@ == cfgv[gi + 1
                            + k] by {
                            assert(cfgs@[k] == before[k + 1]);
                        }
                    }
                    self.add_config(cfg);
                    proof {
                        lemma_install_all_push(old_configs, cfgv.take(gi), cfgv[gi]);
                        assert(cfgv.take(gi + 1) =~= cfgv.take(gi).push(cfgv[gi]));
                    }
                }
                proof {
                    assert(cfgv.take(cfgv.len() as int) =~= cfgv);
                    assert(crate::parser::spec_parse_dsl(dsl@) == Some(cfgv) && self@.configs
                        == install_all(old(self)@.configs, cfgv));
                }
                Ok(())
            },
        }
    }

    /// Writes a relation tuple to the store. Fails with a
    /// [`ZanzibarError::StorageError`] exactly when the tuple is already
    /// present, leaving the dataset unchanged in that case.
    pub fn write_tuple(&mut self, tuple: RelationTuple) -> (r: Result<(), ZanzibarError>)
        requires
            old(self).wf(),
        ensures
            final(self).wf(),
            final(self)@.configs == old(self)@.configs,
            match r {
                Ok(_) => !old(self)@.tuples.contains(tuple@) && final(self)@.tuples == old(
                    self,
                )@.tuples.push(tuple@),
                Err(e) => old(self)@.tuples.contains(tuple@) && final(self)@.tuples == old(
                    self,
                )@.tuples && e is StorageError,
            },
    {
        match self.store.write_tuple(tuple) {
            Ok(_) => Ok(()),
            Err(m) => Err(ZanzibarError::StorageError(m)),
        }
    }

    /// Deletes a relation tuple from the store. Fails with a
    /// [`ZanzibarError::StorageError`] exactly when the tuple is absent,
    /// leaving the dataset unchanged in that case.
    pub fn delete_tuple(&mut self, tuple: &RelationTuple) -> (r: Result<(), ZanzibarError>)
        requires
            old(self).wf(),
        ensures
            final(self).wf(),
            final(self)@.configs == old(self)@.configs,
            match r {
                Ok(_) => exists|i: int|
                    0 <= i < old(self)@.tuples.len() && old(self)@.tuples[i] == tuple@
                        && final(self)@.tuples == old(self)@.tuples.remove(i),
                Err(e) => !old(self)@.tuples.contains(tuple@) && final(self)@.tuples == old(
                    self,
                )@.tuples && e is StorageError,
            },
    {
        match self.store.delete_tuple(tuple) {
            Ok(_) => {
                proof {
                    let i = choose|i: int|
                        0 <= i < old(self).store.tuples().len() && old(self).store.tuples()[i]
                            == tuple@ && self.store.tuples() == old(self).store.tuples().remove(i);
                    assert(0 <= i < old(self)@.tuples.len() && old(self)@.tuples[i] == tuple@
                        && self@.tuples == old(self)@.tuples.remove(i));
                }
                Ok(())
            },
            Err(m) => Err(ZanzibarError::StorageError(m)),
        }
    }

    /// Checks whether the user has the relation on the object under the
    /// installed configurations and stored tuples: the result is the outcome
    /// of the check semantics from a fresh visited set.
    pub fn check(&self, object: &Object, relation: &Relation, user: &User) -> (r: Result<
        bool,
        ZanzibarError,
    >)
        requires
            self.wf(),
        ensures
            check_outcome(self@.tuples, self@.configs, object@, relation@, user@, res_view(r)),
    {
        let mut visited = TripleSet::new();
        crate::eval::check(object, relation, user, &self.configs, &self.store, &mut visited)
    }

    /// Expands the userset tree for the relation on the object under the
    /// installed configurations and stored tuples: the result is the outcome
    /// of the expand semantics.
    pub fn expand(&self, object: &Object, relation: &Relation) -> (r: Result<
        model::ExpandedUserset,
        ZanzibarError,
    >)
        requires
            self.wf(),
        ensures
            expand_outcome(self@.tuples, self@.configs, object@, relation@, exp_res_view(r)),
    {
        crate::eval::expand(object, relation, &self.configs, &self.store)
    }
}

} // verus!
