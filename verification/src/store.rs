//! Entity store reducer: an insertion-ordered collection of entities, keyed
//! by a unique id, updated by decoded mutation events. Created upserts (never
//! duplicating an id), Updated replaces in place and silently ignores an
//! absent id, Deleted removes and is a no-op on an absent id.

use vstd::prelude::*;
use itertools::Itertools;

verus! {

/// One stored entity: a unique id plus its displayed fields.
#[derive(Clone, Debug, PartialEq)]
pub struct Entity {
    pub id: String,
    pub name: String,
    pub author: String,
    pub points: u64,
}

/// Mathematical model of an entity.
pub struct EntityModel {
    pub id: Seq<char>,
    pub name: Seq<char>,
    pub author: Seq<char>,
    pub points: u64,
}

impl View for Entity {
    type V = EntityModel;

    open spec fn view(&self) -> EntityModel {
        EntityModel { id: self.id@, name: self.name@, author: self.author@, points: self.points }
    }
}

/// A decoded mutation event, tagged by its mutation type.
#[derive(Clone, Debug, PartialEq)]
pub enum MutationEvent {
    Created { id: String, name: String, author: String, points: u64 },
    Updated { id: String, name: String, author: String, points: u64 },
    Deleted { id: String },
}

/// Mathematical model of a mutation event.
pub enum MutationEventModel {
    Created { id: Seq<char>, name: Seq<char>, author: Seq<char>, points: u64 },
    Updated { id: Seq<char>, name: Seq<char>, author: Seq<char>, points: u64 },
    Deleted { id: Seq<char> },
}

impl View for MutationEvent {
    type V = MutationEventModel;

    open spec fn view(&self) -> MutationEventModel {
        match self {
            MutationEvent::Created { id, name, author, points } => MutationEventModel::Created {
                id: id@,
                name: name@,
                author: author@,
                points: *points,
            },
            MutationEvent::Updated { id, name, author, points } => MutationEventModel::Updated {
                id: id@,
                name: name@,
                author: author@,
                points: *points,
            },
            MutationEvent::Deleted { id } => MutationEventModel::Deleted { id: id@ },
        }
    }
}

/// No two entities in the sequence share an id.
pub open spec fn unique_ids(s: Seq<EntityModel>) -> bool {
    forall|i: int, j: int| 0 <= i < j < s.len() ==> s[i].id != s[j].id
}

/// Some entity in the sequence has the given id.
pub open spec fn contains_id(s: Seq<EntityModel>, id: Seq<char>) -> bool {
    exists|i: int| 0 <= i < s.len() && s[i].id == id
}

/// The index of the entity with the given id (unique when `unique_ids` holds).
pub open spec fn idx_of(s: Seq<EntityModel>, id: Seq<char>) -> int {
    choose|i: int| 0 <= i < s.len() && s[i].id == id
}

/// Replace the entity that shares the event's id, or append when absent.
pub open spec fn upsert(s: Seq<EntityModel>, e: EntityModel) -> Seq<EntityModel> {
    if contains_id(s, e.id) {
        s.map_values(|x: EntityModel| if x.id == e.id { e } else { x })
    } else {
        s.push(e)
    }
}

/// Replace the entity that shares the event's id; leave the sequence
/// unchanged when the id is absent.
pub open spec fn update_existing(s: Seq<EntityModel>, e: EntityModel) -> Seq<EntityModel> {
    s.map_values(|x: EntityModel| if x.id == e.id { e } else { x })
}

/// Remove the entity with the given id; a no-op when the id is absent.
pub open spec fn remove_id(s: Seq<EntityModel>, id: Seq<char>) -> Seq<EntityModel> {
    if contains_id(s, id) {
        s.remove(idx_of(s, id))
    } else {
        s
    }
}

/// What one mutation event does to the store's contents.
pub open spec fn apply_spec(s: Seq<EntityModel>, ev: MutationEventModel) -> Seq<EntityModel> {
    match ev {
        MutationEventModel::Created { id, name, author, points } => upsert(
            s,
            EntityModel { id, name, author, points },
        ),
        MutationEventModel::Updated { id, name, author, points } => update_existing(
            s,
            EntityModel { id, name, author, points },
        ),
        MutationEventModel::Deleted { id } => remove_id(s, id),
    }
}

/// The store after a whole sequence of mutation events, oldest first.
pub open spec fn apply_all(s: Seq<EntityModel>, evs: Seq<MutationEventModel>) -> Seq<EntityModel>
    decreases evs.len(),
{
    if evs.len() == 0 {
        s
    } else {
        apply_all(apply_spec(s, evs[0]), evs.drop_first())
    }
}


/// A sequence of events applied one more time at the end.
pub proof fn lemma_apply_all_snoc(
    s: Seq<EntityModel>,
    evs: Seq<MutationEventModel>,
    ev: MutationEventModel,
)
    ensures
        apply_all(s, evs.push(ev)) == apply_spec(apply_all(s, evs), ev),
    decreases evs.len(),
{
    reveal_with_fuel(apply_all, 3);
    if evs.len() == 0 {
        assert(evs.push(ev).drop_first() =~= Seq::<MutationEventModel>::empty());
    } else {
        assert(evs.push(ev)[0] == evs[0]);
        assert(evs.push(ev).drop_first() =~= evs.drop_first().push(ev));
        lemma_apply_all_snoc(apply_spec(s, evs[0]), evs.drop_first(), ev);
    }
}

/// The Created events that an initial bulk fetch stands for, in order.
pub open spec fn created_events(items: Seq<EntityModel>) -> Seq<MutationEventModel> {
    items.map_values(
        |e: EntityModel| MutationEventModel::Created {
            id: e.id,
            name: e.name,
            author: e.author,
            points: e.points,
        },
    )
}

/// One mutation event preserves id uniqueness.
pub proof fn lemma_apply_preserves_unique(s: Seq<EntityModel>, ev: MutationEventModel)
    requires
        unique_ids(s),
    ensures
        unique_ids(apply_spec(s, ev)),
{
    match ev {
        MutationEventModel::Created { id, name, author, points } => {
            let e = EntityModel { id, name, author, points };
            if contains_id(s, id) {
                let r = s.map_values(|x: EntityModel| if x.id == e.id { e } else { x });
                assert forall|i: int, j: int| 0 <= i < j < r.len() implies r[i].id != r[j].id by {
                    assert(r[i].id == s[i].id);
                    assert(r[j].id == s[j].id);
                }
            }
        },
        MutationEventModel::Updated { id, name, author, points } => {
            let e = EntityModel { id, name, author, points };
            let r = s.map_values(|x: EntityModel| if x.id == e.id { e } else { x });
            assert forall|i: int, j: int| 0 <= i < j < r.len() implies r[i].id != r[j].id by {
                assert(r[i].id == s[i].id);
                assert(r[j].id == s[j].id);
            }
        },
        MutationEventModel::Deleted { id } => {
            if contains_id(s, id) {
                let k = idx_of(s, id);
                let r = s.remove(k);
                assert forall|i: int, j: int| 0 <= i < j < r.len() implies r[i].id != r[j].id by {
                    assert(r[i] == if i < k {
                        s[i]
                    } else {
                        s[i + 1]
                    });
                    assert(r[j] == if j < k {
                        s[j]
                    } else {
                        s[j + 1]
                    });
                }
            }
        },
    }
}

/// For every sequence of mutation events, a store whose ids are unique never
/// comes to hold two entities with the same id.
pub proof fn lemma_no_duplicate_ids(s: Seq<EntityModel>, evs: Seq<MutationEventModel>)
    requires
        unique_ids(s),
    ensures
        unique_ids(apply_all(s, evs)),
    decreases evs.len(),
{
    if evs.len() > 0 {
        lemma_apply_preserves_unique(s, evs[0]);
        lemma_no_duplicate_ids(apply_spec(s, evs[0]), evs.drop_first());
    }
}

/// An Updated event for an absent id leaves the store unchanged.
pub proof fn lemma_update_absent_is_noop(
    s: Seq<EntityModel>,
    id: Seq<char>,
    name: Seq<char>,
    author: Seq<char>,
    points: u64,
)
    requires
        !contains_id(s, id),
    ensures
        apply_spec(s, MutationEventModel::Updated { id, name, author, points }) == s,
{
    let e = EntityModel { id, name, author, points };
    let r = s.map_values(|x: EntityModel| if x.id == e.id { e } else { x });
    assert forall|i: int| 0 <= i < s.len() implies r[i] == s[i] by {
        assert(s[i].id != id);
    }
    assert(r =~= s);
}

/// A second Deleted event for the same id is a no-op.
pub proof fn lemma_delete_idempotent(s: Seq<EntityModel>, id: Seq<char>)
    requires
        unique_ids(s),
    ensures
        apply_spec(apply_spec(s, MutationEventModel::Deleted { id }), MutationEventModel::Deleted { id })
            == apply_spec(s, MutationEventModel::Deleted { id }),
{
    if contains_id(s, id) {
        let k = idx_of(s, id);
        assert(0 <= k < s.len() && s[k].id == id);
        let r = s.remove(k);
        assert forall|i: int| 0 <= i < r.len() implies r[i].id != id by {
            assert(r[i] == if i < k {
                s[i]
            } else {
                s[i + 1]
            });
        }
        assert(!contains_id(r, id));
    }
}

/// Compare two entities by points, highest first.
fn cmp_points_desc(a: &Entity, b: &Entity) -> (r: core::cmp::Ordering)
    ensures
        (r == core::cmp::Ordering::Less) == (b.points < a.points),
        (r == core::cmp::Ordering::Equal) == (a.points == b.points),
        (r == core::cmp::Ordering::Greater) == (a.points < b.points),
{
    if b.points < a.points {
        core::cmp::Ordering::Less
    } else if b.points == a.points {
        core::cmp::Ordering::Equal
    } else {
        core::cmp::Ordering::Greater
    }
}

/// Relies on itertools::Itertools::sorted_by: collects the items into a
/// vector and sorts it with the given comparator, returning an iterator
/// over the sorted vector. The comparator is the library's own
/// points-descending order, so the result holds the same entities, sorted
/// by points, highest first.
#[verifier::external_body]
fn sorted_by_points_desc_raw(v: &Vec<Entity>) -> (r: Vec<Entity>)
    ensures
        r@.map_values(|e: Entity| e@).to_multiset() == v@.map_values(
            |e: Entity| e@,
        ).to_multiset(),
        forall|i: int, j: int| 0 <= i <= j < r@.len() ==> r@[i].points >= r@[j].points,
{
    v.iter().cloned().sorted_by(|a, b| cmp_points_desc(a, b)).collect()
}

/// The insertion-ordered entity collection, with unique ids.
pub struct EntityStore {
    entities: Vec<Entity>,
}

impl View for EntityStore {
    type V = Seq<EntityModel>;

    closed spec fn view(&self) -> Seq<EntityModel> {
        self.entities@.map_values(|e: Entity| e@)
    }
}

impl EntityStore {
    /// Is the store's one invariant intact: no two entities share an id.
    pub open spec fn wf(&self) -> bool {
        unique_ids(self@)
    }

    /// An empty store.
    pub fn new() -> (r: EntityStore)
        ensures
            r@ == Seq::<EntityModel>::empty(),
            r.wf(),
    {
        let r = EntityStore { entities: Vec::new() };
        proof {
            assert(r@ =~= Seq::<EntityModel>::empty());
        }
        r
    }

    /// How many entities the store holds.
    pub fn len(&self) -> (n: usize)
        ensures
            n == self@.len(),
    {
        self.entities.len()
    }

    /// The entity at the given insertion-order position.
    pub fn get(&self, i: usize) -> (e: &Entity)
        requires
            i < self@.len(),
        ensures
            e@ == self@[i as int],
    {
        &self.entities[i]
    }

    /// The position of the entity with the given id, if present.
    fn position_of(&self, id: &String) -> (r: Option<usize>)
        ensures
            match r {
                Some(i) => 0 <= i < self@.len() && self@[i as int].id == id@,
                None => !contains_id(self@, id@),
            },
    {
        let n = self.entities.len();
        let mut k: usize = 0;
        while k < n
            invariant
                n == self@.len(),
                k <= n,
                forall|j: int| 0 <= j < k ==> self@[j].id != id@,
            decreases n - k,
        {
            if self.entities[k].id == *id {
                return Some(k);
            }
            k = k + 1;
        }
        None
    }

    /// Replace the entity at position `i` with `e`.
    fn replace_at(&mut self, i: usize, e: Entity)
        requires
            i < old(self)@.len(),
        ensures
            final(self)@ == old(self)@.update(i as int, e@),
    {
        self.entities.remove(i);
        self.entities.insert(i, e);
        proof {
            assert(final(self)@ =~= old(self)@.update(i as int, e@));
        }
    }

    /// Load an initial bulk fetch: each entity is applied as a Created
    /// event, in order, so an id already present — or repeated within the
    /// batch — upserts rather than duplicates.
    pub fn load_bulk(&mut self, items: &Vec<Entity>)
        requires
            old(self).wf(),
        ensures
            final(self)@ == apply_all(
                old(self)@,
                created_events(items@.map_values(|e: Entity| e@)),
            ),
            final(self).wf(),
    {
        let ghost views = items@.map_values(|e: Entity| e@);
        let n = items.len();
        let mut i: usize = 0;
        proof {
            assert(created_events(views.take(0)) =~= Seq::<MutationEventModel>::empty());
        }
        while i < n
            invariant
                n == items@.len(),
                i <= n,
                views == items@.map_values(|e: Entity| e@),
                self@ == apply_all(old(self)@, created_events(views.take(i as int))),
                self.wf(),
            decreases n - i,
        {
            let it = &items[i];
            let ev = MutationEvent::Created {
                id: it.id.clone(),
                name: it.name.clone(),
                author: it.author.clone(),
                points: it.points,
            };
            proof {
                assert(ev@ == created_events(views)[i as int]);
            }
            let ghost pre = self@;
            self.apply(&ev);
            proof {
                lemma_apply_all_snoc(old(self)@, created_events(views.take(i as int)), ev@);
                assert(created_events(views.take(i as int)).push(ev@) =~= created_events(
                    views.take(i as int + 1),
                ));
            }
            i = i + 1;
        }
        proof {
            assert(views.take(n as int) =~= views);
            assert(items@.map_values(|e: Entity| e@) =~= views);
        }
    }

    /// The entities sorted by points, highest first: a presentation view;
    /// the store itself keeps insertion order.
    pub fn sorted_by_points_desc(&self) -> (r: Vec<Entity>)
        ensures
            r@.map_values(|e: Entity| e@).to_multiset() == self@.to_multiset(),
            forall|i: int, j: int| 0 <= i <= j < r@.len() ==> r@[i].points >= r@[j].points,
    {
        sorted_by_points_desc_raw(&self.entities)
    }

    /// Apply one decoded mutation event to the store.
    pub fn apply(&mut self, ev: &MutationEvent)
        requires
            old(self).wf(),
        ensures
            final(self)@ == apply_spec(old(self)@, ev@),
            final(self).wf(),
    {
        proof {
            lemma_apply_preserves_unique(old(self)@, ev@);
        }
        match ev {
            MutationEvent::Created { id, name, author, points } => {
                let e = Entity {
                    id: id.clone(),
                    name: name.clone(),
                    author: author.clone(),
                    points: *points,
                };
                match self.position_of(id) {
                    Some(i) => {
                        self.replace_at(i, e);
                        proof {
                            let em = EntityModel {
                                id: id@,
                                name: name@,
                                author: author@,
                                points: *points,
                            };
                            let s = old(self)@;
                            let m = s.map_values(
                                |x: EntityModel| if x.id == em.id { em } else { x },
                            );
                            assert forall|j: int| 0 <= j < s.len() implies m[j] == s.update(
                                i as int,
                                em,
                            )[j] by {
                                if j != i {
                                    assert(s[j].id != s[i as int].id);
                                }
                            }
                            assert(final(self)@ =~= m);
                        }
                    },
                    None => {
                        self.entities.push(e);
                        proof {
                            assert(final(self)@ =~= old(self)@.push(e@));
                        }
                    },
                }
            },
            MutationEvent::Updated { id, name, author, points } => {
                match self.position_of(id) {
                    Some(i) => {
                        let e = Entity {
                            id: id.clone(),
                            name: name.clone(),
                            author: author.clone(),
                            points: *points,
                        };
                        self.replace_at(i, e);
                        proof {
                            let em = EntityModel {
                                id: id@,
                                name: name@,
                                author: author@,
                                points: *points,
                            };
                            let s = old(self)@;
                            let m = s.map_values(
                                |x: EntityModel| if x.id == em.id { em } else { x },
                            );
                            assert forall|j: int| 0 <= j < s.len() implies m[j] == s.update(
                                i as int,
                                em,
                            )[j] by {
                                if j != i {
                                    assert(s[j].id != s[i as int].id);
                                }
                            }
                            assert(final(self)@ =~= m);
                        }
                    },
                    None => {
                        proof {
                            lemma_update_absent_is_noop(old(self)@, id@, name@, author@, *points);
                        }
                    },
                }
            },
            MutationEvent::Deleted { id } => {
                match self.position_of(id) {
                    Some(i) => {
                        self.entities.remove(i);
                        proof {
                            let s = old(self)@;
                            assert(contains_id(s, id@));
                            let k = idx_of(s, id@);
                            assert(0 <= k < s.len() && s[k].id == id@);
                            assert(k == i as int);
                            assert(final(self)@ =~= s.remove(i as int));
                        }
                    },
                    None => {},
                }
            },
        }
    }
}

} // verus!
