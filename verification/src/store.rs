//! Storage abstraction for relation tuples and the in-memory reference store.

use vstd::prelude::*;
use crate::model::{Object, Relation, RelationTuple, SpecObject, SpecTuple, SpecUser, User, obj_eq,
    rel_eq, tuple_eq, user_eq};

verus! {

/// View of a sequence of relation tuples, element by element.
pub open spec fn tuples_view(ts: Seq<RelationTuple>) -> Seq<SpecTuple> {
    Seq::new(ts.len(), |i: int| ts[i]@)
}

/// View of an optional relation filter.
pub open spec fn opt_rel_view(r: Option<&Relation>) -> Option<Seq<char>> {
    match r {
        Some(x) => Some(x@),
        None => None,
    }
}

/// View of an optional user filter.
pub open spec fn opt_user_view(u: Option<&User>) -> Option<SpecUser> {
    match u {
        Some(x) => Some(x@),
        None => None,
    }
}

/// Does a tuple match a read filter? The object must match; the relation and
/// user must match when the filter specifies them.
pub open spec fn tuple_matches(
    t: SpecTuple,
    o: SpecObject,
    r: Option<Seq<char>>,
    u: Option<SpecUser>,
) -> bool {
    &&& t.object == o
    &&& match r {
        Some(x) => t.relation == x,
        None => true,
    }
    &&& match u {
        Some(x) => t.user == x,
        None => true,
    }
}

/// The subsequence of `ts` matching a read filter, in stored order.
pub open spec fn filter_tuples(
    ts: Seq<SpecTuple>,
    o: SpecObject,
    r: Option<Seq<char>>,
    u: Option<SpecUser>,
) -> Seq<SpecTuple>
    decreases ts.len(),
{
    if ts.len() == 0 {
        Seq::empty()
    } else {
        filter_tuples(ts.drop_last(), o, r, u) + if tuple_matches(ts.last(), o, r, u) {
            seq![ts.last()]
        } else {
            Seq::empty()
        }
    }
}

/// Every element of a filtered sequence matches the filter and occurs in the
/// original sequence; every matching element of the original occurs in the
/// filtered sequence.
pub proof fn lemma_filter_tuples(
    ts: Seq<SpecTuple>,
    o: SpecObject,
    r: Option<Seq<char>>,
    u: Option<SpecUser>,
)
    ensures
        forall|i: int|
            0 <= i < filter_tuples(ts, o, r, u).len() ==> tuple_matches(
                #[trigger] filter_tuples(ts, o, r, u)[i],
                o,
                r,
                u,
            ) && ts.contains(filter_tuples(ts, o, r, u)[i]),
        forall|i: int|
            0 <= i < ts.len() && tuple_matches(#[trigger] ts[i], o, r, u) ==> filter_tuples(
                ts,
                o,
                r,
                u,
            ).contains(ts[i]),
    decreases ts.len(),
{
    if ts.len() > 0 {
        lemma_filter_tuples(ts.drop_last(), o, r, u);
        let fs = filter_tuples(ts, o, r, u);
        let fsp = filter_tuples(ts.drop_last(), o, r, u);
        assert forall|i: int| 0 <= i < fs.len() implies tuple_matches(#[trigger] fs[i], o, r, u)
            && ts.contains(fs[i]) by {
            if i < fsp.len() {
                assert(fs[i] == fsp[i]);
                let j = choose|j: int| 0 <= j < ts.drop_last().len() && ts.drop_last()[j] == fsp[i];
                assert(ts[j] == fsp[i]);
            } else {
                assert(fs[i] == ts.last());
                assert(ts[ts.len() - 1] == ts.last());
            }
        }
        assert forall|i: int| 0 <= i < ts.len() && tuple_matches(#[trigger] ts[i], o, r, u)
            implies fs.contains(ts[i]) by {
            if i < ts.len() - 1 {
                assert(ts.drop_last()[i] == ts[i]);
                let j = choose|j: int| 0 <= j < fsp.len() && fsp[j] == ts[i];
                assert(fs[j] == ts[i]);
            } else {
                assert(fs[fs.len() - 1] == ts.last());
            }
        }
    }
}

/// Abstraction over the storage and retrieval of relation tuples. A store is
/// a duplicate-free collection; reads filter on the object and optionally on
/// the relation and the user.
pub trait TupleStore: Sized {
    /// The stored tuples, in the store's iteration order.
    spec fn tuples(&self) -> Seq<SpecTuple>;

    /// Internal well-formedness; duplicate-freedom at least.
    spec fn inv(&self) -> bool;

    /// Reads the tuples matching the filter, in stored order.
    fn read_tuples(
        &self,
        object: &Object,
        relation: Option<&Relation>,
        user: Option<&User>,
    ) -> (r: Vec<RelationTuple>)
        requires
            self.inv(),
        ensures
            tuples_view(r@) == filter_tuples(
                self.tuples(),
                object@,
                opt_rel_view(relation),
                opt_user_view(user),
            ),
    ;

    /// Writes one tuple; fails exactly when the tuple is already present, in
    /// which case the store is unchanged.
    fn write_tuple(&mut self, tuple: RelationTuple) -> (r: Result<(), String>)
        requires
            old(self).inv(),
        ensures
            final(self).inv(),
            match r {
                Ok(_) => !old(self).tuples().contains(tuple@) && final(self).tuples() == old(
                    self,
                ).tuples().push(tuple@),
                Err(_) => old(self).tuples().contains(tuple@) && final(self).tuples() == old(
                    self,
                ).tuples(),
            },
    ;

    /// Deletes one tuple; fails exactly when the tuple is absent, in which
    /// case the store is unchanged.
    fn delete_tuple(&mut self, tuple: &RelationTuple) -> (r: Result<(), String>)
        requires
            old(self).inv(),
        ensures
            final(self).inv(),
            match r {
                Ok(_) => exists|i: int|
                    0 <= i < old(self).tuples().len() && old(self).tuples()[i] == tuple@
                        && final(self).tuples() == old(self).tuples().remove(i),
                Err(_) => !old(self).tuples().contains(tuple@) && final(self).tuples() == old(
                    self,
                ).tuples(),
            },
    ;
}

/// A simple in-memory implementation of [`TupleStore`] backed by a
/// duplicate-free vector.
pub struct InMemoryTupleStore {
    entries: Vec<RelationTuple>,
}

impl InMemoryTupleStore {
    /// An empty store.
    pub fn new() -> (r: Self)
        ensures
            r.inv(),
            r.tuples() == Seq::<SpecTuple>::empty(),
    {
        let r = InMemoryTupleStore { entries: Vec::new() };
        proof {
            assert(r.tuples() =~= Seq::<SpecTuple>::empty());
        }
        r
    }

    /// Is the tuple present in the store?
    fn contains(&self, tuple: &RelationTuple) -> (r: bool)
        ensures
            r == self.tuples().contains(tuple@),
    {
        let mut i: usize = 0;
        while i < self.entries.len()
            invariant
                i <= self.entries@.len(),
                forall|j: int| 0 <= j < i ==> self.entries@[j]@ != tuple@,
            decreases self.entries@.len() - i,
        {
            if tuple_eq(&self.entries[i], tuple) {
                assert(self.tuples()[i as int] == tuple@);
                return true;
            }
            i += 1;
        }
        proof {
            assert forall|j: int| 0 <= j < self.tuples().len() implies #[trigger] self.tuples()[j]
                != tuple@ by {
                assert(self.tuples()[j] == self.entries@[j]@);
            }
        }
        false
    }
}

impl Default for InMemoryTupleStore {
    /// An empty store.
    fn default() -> (r: Self)
        ensures
            r.inv(),
            r.tuples() == Seq::<SpecTuple>::empty(),
    {
        InMemoryTupleStore::new()
    }
}

impl TupleStore for InMemoryTupleStore {
    closed spec fn tuples(&self) -> Seq<SpecTuple> {
        tuples_view(self.entries@)
    }

    closed spec fn inv(&self) -> bool {
        forall|i: int, j: int|
            0 <= i < j < self.entries@.len() ==> self.entries@[i]@ != self.entries@[j]@
    }

    fn read_tuples(
        &self,
        object: &Object,
        relation: Option<&Relation>,
        user: Option<&User>,
    ) -> (r: Vec<RelationTuple>)
    {
        let ghost ro = opt_rel_view(relation);
        let ghost uo = opt_user_view(user);
        let mut out: Vec<RelationTuple> = Vec::new();
        let mut i: usize = 0;
        while i < self.entries.len()
            invariant
                i <= self.entries@.len(),
                tuples_view(out@) == filter_tuples(self.tuples().take(i as int), object@, ro, uo),
                ro == opt_rel_view(relation),
                uo == opt_user_view(user),
            decreases self.entries@.len() - i,
        {
            let t = &self.entries[i];
            let m = obj_eq(&t.object, object) && (match relation {
                Some(x) => rel_eq(&t.relation, x),
                None => true,
            }) && (match user {
                Some(x) => user_eq(&t.user, x),
                None => true,
            });
            proof {
                assert(m == tuple_matches(t@, object@, ro, uo));
                assert(self.tuples().take(i + 1).drop_last() =~= self.tuples().take(i as int));
                assert(self.tuples().take(i + 1).last() == t@);
            }
            let ghost old_out = out@;
            if m {
                out.push(t.clone());
                proof {
                    assert(tuples_view(out@) =~= tuples_view(old_out).push(t@));
                }
            }
            i += 1;
        }
        proof {
            assert(self.tuples().take(self.entries@.len() as int) =~= self.tuples());
        }
        out
    }

    fn write_tuple(&mut self, tuple: RelationTuple) -> (r: Result<(), String>)
    {
        if self.contains(&tuple) {
            Err("Tuple already exists".to_owned())
        } else {
            let ghost old_entries = self.entries@;
            proof {
                assert forall|j: int| 0 <= j < tuples_view(old_entries).len()
                    implies #[trigger] tuples_view(old_entries)[j] != tuple@ by {
                    assert(tuples_view(old_entries)[j] == old_entries[j]@);
                }
            }
            self.entries.push(tuple);
            proof {
                assert(self.entries@ == old_entries.push(self.entries@.last()));
                assert(self.tuples() =~= tuples_view(old_entries).push(self.entries@.last()@));
                assert forall|a: int, b: int|
                    0 <= a < b < self.entries@.len() implies self.entries@[a]@
                    != self.entries@[b]@ by {
                    if b == self.entries@.len() - 1 {
                        assert(tuples_view(old_entries)[a] == old_entries[a]@);
                    }
                }
            }
            Ok(())
        }
    }

    fn delete_tuple(&mut self, tuple: &RelationTuple) -> (r: Result<(), String>)
    {
        let mut i: usize = 0;
        while i < self.entries.len()
            invariant
                *self == *old(self),
                old(self).inv(),
                i <= self.entries@.len(),
                forall|j: int| 0 <= j < i ==> self.entries@[j]@ != tuple@,
            decreases self.entries@.len() - i,
        {
            if tuple_eq(&self.entries[i], tuple) {
                let ghost old_entries = self.entries@;
                let ghost gi = i as int;
                self.entries.remove(i);
                proof {
                    assert(tuples_view(old_entries)[gi] == tuple@);
                    old_entries.remove_ensures(gi);
                    assert(self.entries@ == old_entries.remove(gi));
                    assert(self.tuples() =~= tuples_view(old_entries).remove(gi)) by {
                        tuples_view(old_entries).remove_ensures(gi);
                    }
                    assert(old_entries == old(self).entries@);
                    assert(old(self).tuples() == tuples_view(old_entries));
                    assert(0 <= gi < old(self).tuples().len() && old(self).tuples()[gi] == tuple@
                        && self.tuples() == old(self).tuples().remove(gi));
                    let ghost removed = old_entries.remove(gi);
                    assert forall|a: int, b: int|
                        0 <= a < b < self.entries@.len() implies self.entries@[a]@
                        != self.entries@[b]@ by {
                        if a < gi {
                            assert(removed[a] == old_entries[a]);
                        } else {
                            assert(removed[a] == old_entries[a + 1]);
                        }
                        if b < gi {
                            assert(removed[b] == old_entries[b]);
                        } else {
                            assert(removed[b] == old_entries[b + 1]);
                        }
                    }
                }
                return Ok(());
            }
            i += 1;
        }
        proof {
            assert forall|j: int| 0 <= j < self.tuples().len() implies #[trigger] self.tuples()[j]
                != tuple@ by {
                assert(self.tuples()[j] == self.entries@[j]@);
            }
        }
        Err("Tuple not found".to_owned())
    }
}

} // verus!
