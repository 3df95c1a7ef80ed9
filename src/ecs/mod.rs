use vstd::prelude::*;
pub mod animation;


verus! {

/// Identifies one component type. The registry stores values of one type
/// `C` (most often an enum with a variant per component type) and tells the
/// component types apart by the kind the caller gives with each value: every
/// container holds the components of exactly one kind, and no two containers
/// share a kind.
pub type ComponentKind = u64;

/// A value that can be attached to an entity. Its hooks get the whole
/// registry, so that they may read or replace components of any entity; the
/// registry must stay well formed and keep every container and entity it had.
pub trait Component: Sized {
    /// What one run of `update` does: on entity `entity_id` with elapsed time
    /// `dt`, it turns the component `pre` into `post` and the registry `ecs`
    /// into `ecs_after`. By default it changes nothing; a type whose `update`
    /// does something states here what.
    open spec fn hook(pre: Self, ecs: ECS<Self>, entity_id: usize, dt: u64, post: Self, ecs_after: ECS<Self>) -> bool {
        post == pre && ecs_after == ecs
    }

    /// A hook for the owner of the registry to run once when the component
    /// goes live; does nothing by default.
    fn start(&mut self, ecs: &mut ECS<Self>, entity_id: usize)
        requires
            old(ecs).wf(),
        ensures
            final(ecs).extends(old(ecs)),
    {
    }

    /// Called once per tick with the elapsed time `dt` in microseconds; does
    /// what `hook` says.
    fn update(&mut self, ecs: &mut ECS<Self>, entity_id: usize, dt: u64)
        requires
            old(ecs).wf(),
        ensures
            final(ecs).extends(old(ecs)),
            Self::hook(*old(self), *old(ecs), entity_id, dt, *final(self), *final(ecs)),
    ;
}

/// `after` is `before` with slot `e` of container `c` set to `v`, and with
/// nothing else changed but the visit record.
pub open spec fn slot_written<C>(after: ECS<C>, before: ECS<C>, c: int, e: int, v: Option<C>) -> bool {
    &&& after.count() == before.count()
    &&& after.kinds() == before.kinds()
    &&& forall|i: int| 0 <= i < before.kinds().len() ==> #[trigger] after.store(i)
        == if i == c { before.store(c).update(e, v) } else { before.store(i) }
}

/// One visit of slot `e` of container `c`, going through the registries
/// `a` (reached), `b` (the component `x` taken out of its slot and the visit
/// recorded), `h` (the hook ran on `b` and left the component `y`) and `d`
/// (`y` put back in its slot).
pub open spec fn visit_ok<C: Component>(
    a: ECS<C>,
    b: ECS<C>,
    h: ECS<C>,
    d: ECS<C>,
    x: C,
    y: C,
    c: int,
    e: int,
    dt: u64,
) -> bool {
    &&& a.wf()
    &&& 0 <= c < a.kinds().len()
    &&& 0 <= e < a.count()
    &&& a.store(c)[e] == Some(x)
    &&& slot_written(b, a, c, e, None)
    &&& b.visits() == a.visits().push((c, e))
    &&& C::hook(x, b, e as usize, dt, y, h)
    &&& slot_written(d, h, c, e, Some(y))
    &&& d.visits() == h.visits()
}

/// The registries `states` and components `vals` witness how the pass from
/// `start` to `cur` went: the `i`-th visit went from `states[3 * i]` to
/// `states[3 * i + 3]`, taking out `vals[2 * i]` and putting back
/// `vals[2 * i + 1]`; each slot of `start`'s range that the pass skipped
/// before that visit was empty in `states[3 * i]`, the registry as the pass
/// reached it.
pub open spec fn pass_chain<C: Component>(
    start: ECS<C>,
    cur: ECS<C>,
    dt: u64,
    states: Seq<ECS<C>>,
    vals: Seq<C>,
) -> bool {
    let m = cur.pass(&start).len() as int;
    &&& states.len() == 3 * m + 1
    &&& vals.len() == 2 * m
    &&& states[0] == start
    &&& states[3 * m] == cur
    &&& forall|i: int| 0 <= i < m ==> visit_ok(
        states[3 * i],
        states[3 * i + 1],
        states[3 * i + 2],
        states[3 * i + 3],
        vals[2 * i],
        vals[2 * i + 1],
        (#[trigger] cur.pass(&start)[i]).0,
        cur.pass(&start)[i].1,
        dt,
    )
    &&& forall|i: int, c: int, x: int|
        0 <= i < m && 0 <= c < start.kinds().len() && 0 <= x < start.count()
            && (i == 0 || visit_before(cur.pass(&start)[i - 1], (c, x)))
            && visit_before((c, x), cur.pass(&start)[i])
            ==> (#[trigger] states[3 * i].store(c)[x]).is_none()
}

/// Every slot of `start`'s range that the pass over `start` reached after its
/// last visit and before slot `e` of container `s` was empty when reached.
pub open spec fn tail_empty<C>(start: ECS<C>, cur: ECS<C>, s: int, e: int) -> bool {
    let p = cur.pass(&start);
    forall|c: int, x: int|
        0 <= c < start.kinds().len() && 0 <= x < start.count()
            && (p.len() == 0 || visit_before(p[p.len() - 1], (c, x)))
            && visit_before((c, x), (s, e))
            ==> (#[trigger] cur.store(c)[x]).is_none()
}

/// `a` comes before `b` in the order of a pass: by container, then by entity.
pub open spec fn visit_before(a: (int, int), b: (int, int)) -> bool {
    a.0 < b.0 || (a.0 == b.0 && a.1 < b.1)
}

/// The registry of all components, indexed by kind and entity id.
///
/// Container `i` has kind `kinds[i]` and slots `component_vecs[i]`: one slot
/// per entity, `Some` where the entity owns a component of that kind.
pub struct ECS<C> {
    entities_count: usize,
    /// Every slot whose hook `update_all` has run, as (container, entity), in
    /// the order of the runs.
    visits: Ghost<Seq<(int, int)>>,
    kinds: Vec<ComponentKind>,
    component_vecs: Vec<Vec<Option<C>>>,
}

impl<C> ECS<C> {
    /// Number of entities created so far; ids `0 .. count()` are live.
    pub closed spec fn count(&self) -> nat {
        self.entities_count as nat
    }

    /// The kinds of the containers, in registration order.
    pub closed spec fn kinds(&self) -> Seq<ComponentKind> {
        self.kinds@
    }

    /// The slots of the `i`-th registered container.
    pub closed spec fn store(&self, i: int) -> Seq<Option<C>> {
        self.component_vecs@[i]@
    }

    /// The slots whose `update` hook has run, as (container, entity), in
    /// the order of the runs.
    pub closed spec fn visits(&self) -> Seq<(int, int)> {
        self.visits@
    }

    /// Every container has one slot per entity, and kinds are unique.
    pub closed spec fn wf(&self) -> bool {
        &&& self.kinds@.len() == self.component_vecs@.len()
        &&& forall|i: int| 0 <= i < self.component_vecs@.len()
            ==> #[trigger] self.component_vecs@[i]@.len() == self.entities_count
        &&& self.kinds().no_duplicates()
    }

    /// The component of kind `k` attached to entity `e`, if any.
    pub open spec fn component(&self, k: ComponentKind, e: int) -> Option<C> {
        if self.kinds().contains(k) && 0 <= e < self.count() {
            self.store(self.kinds().index_of(k))[e]
        } else {
            None
        }
    }

    /// `self` is what `old` becomes after attaching `c` as the kind-`k`
    /// component of entity `e`.
    pub open spec fn attached(&self, old: &Self, k: ComponentKind, e: int, c: C) -> bool {
        &&& self.wf()
        &&& self.count() == old.count()
        &&& self.visits() == old.visits()
        &&& self.kinds() == if old.kinds().contains(k) { old.kinds() } else { old.kinds().push(k) }
        &&& forall|i: int| 0 <= i < old.kinds().len() ==> #[trigger] self.store(i)
            == if old.kinds()[i] == k { old.store(i).update(e, Some(c)) } else { old.store(i) }
        &&& !old.kinds().contains(k) ==> self.store(old.kinds().len() as int)
            == Seq::new(old.count(), |j: int| None::<C>).update(e, Some(c))
    }

    /// `self` is what `old` becomes after one more entity: every container
    /// gets an empty slot for it.
    pub open spec fn entity_added(&self, old: &Self) -> bool {
        &&& self.wf()
        &&& self.count() == old.count() + 1
        &&& self.visits() == old.visits()
        &&& self.kinds() == old.kinds()
        &&& forall|i: int| 0 <= i < old.kinds().len()
            ==> #[trigger] self.store(i) == old.store(i).push(None)
    }

    /// `self` holds every container of `old` and at least its entities, and
    /// every component of `old` has its slot still occupied.
    pub open spec fn grows(&self, old: &Self) -> bool {
        &&& self.wf()
        &&& old.count() <= self.count()
        &&& old.kinds().len() <= self.kinds().len()
        &&& forall|i: int| 0 <= i < old.kinds().len() ==> #[trigger] self.kinds()[i] == old.kinds()[i]
        &&& forall|i: int, e: int|
            #![trigger self.store(i)[e]]
            #![trigger old.store(i)[e]]
            0 <= i < old.kinds().len() && 0 <= e < old.count() && old.store(i)[e].is_some()
                ==> self.store(i)[e].is_some()
    }

    /// What a hook may do to the registry: let it grow, run no pass.
    pub open spec fn extends(&self, old: &Self) -> bool {
        &&& self.grows(old)
        &&& self.visits() == old.visits()
    }

    /// The slots that the last pass visited, given the registry before it.
    pub open spec fn pass(&self, old: &Self) -> Seq<(int, int)> {
        self.visits().subrange(old.visits().len() as int, self.visits().len() as int)
    }

    /// `self` is what one `update_all` pass makes of `old`: it visited, in
    /// ascending order of (container, entity), slots that are occupied and
    /// among them every slot that was occupied in `old`.
    pub open spec fn pass_ran(&self, old: &Self) -> bool {
        &&& self.grows(old)
        &&& old.visits().len() <= self.visits().len()
        &&& forall|i: int| 0 <= i < old.visits().len() ==> #[trigger] self.visits()[i] == old.visits()[i]
        &&& forall|i: int, j: int| 0 <= i < j < self.pass(old).len()
            ==> visit_before(#[trigger] self.pass(old)[i], #[trigger] self.pass(old)[j])
        &&& forall|i: int| 0 <= i < self.pass(old).len() ==> {
            let (c, e) = #[trigger] self.pass(old)[i];
            &&& 0 <= c < old.kinds().len()
            &&& 0 <= e < self.count()
            &&& self.store(c)[e].is_some()
        }
        &&& forall|c: int, e: int|
            0 <= c < old.kinds().len() && 0 <= e < old.count() && (#[trigger] old.store(c)[e]).is_some()
                ==> self.pass(old).contains((c, e))
    }

    pub fn new() -> (r: Self)
        ensures
            r.wf(),
            r.count() == 0,
            r.kinds() == Seq::<ComponentKind>::empty(),
    {
        let r = ECS {
            entities_count: 0,
            visits: Ghost(Seq::empty()),
            kinds: Vec::new(),
            component_vecs: Vec::new(),
        };
        assert(r.kinds() =~= Seq::<ComponentKind>::empty());
        r
    }

    /// Allocates the next entity id and gives every container an empty slot
    /// for it.
    pub fn new_entity(&mut self) -> (id: usize)
        requires
            old(self).wf(),
            old(self).count() < usize::MAX,
        ensures
            id == old(self).count(),
            final(self).entity_added(old(self)),
    {
        let entity_id = self.entities_count;
        let n = self.component_vecs.len();
        let mut i: usize = 0;
        while i < n
            invariant
                n == self.component_vecs@.len(),
                n == old(self).component_vecs@.len(),
                i <= n,
                self.entities_count == entity_id,
                self.kinds == old(self).kinds,
                self.visits == old(self).visits,
                forall|j: int| 0 <= j < i ==> #[trigger] self.component_vecs@[j]@
                    == old(self).component_vecs@[j]@.push(None),
                forall|j: int| i <= j < n ==> #[trigger] self.component_vecs@[j]
                    == old(self).component_vecs@[j],
            decreases n - i,
        {
            self.component_vecs[i].push(None);
            i = i + 1;
        }
        self.entities_count = entity_id + 1;
        entity_id
    }


    /// Attaches `component` as the kind-`kind` component of `entity`,
    /// replacing any earlier one. The first component of a kind registers a
    /// new container, empty but for this slot.
    pub fn add_component_to_entity(&mut self, kind: ComponentKind, entity: usize, component: C)
        requires
            old(self).wf(),
            entity < old(self).count(),
        ensures
            final(self).attached(old(self), kind, entity as int, component),
    {
        match self.find_vec(kind) {
            Some(i) => {
                self.component_vecs[i].set(entity, Some(component));
                proof {
                    assert forall|j: int| 0 <= j < old(self).kinds().len() implies
                        #[trigger] self.store(j) == if old(self).kinds()[j] == kind {
                            old(self).store(j).update(entity as int, Some(component))
                        } else {
                            old(self).store(j)
                        } by {
                        if j != i {
                            assert(old(self).kinds()[j] != kind) by {
                                assert(old(self).kinds().no_duplicates());
                            }
                        }
                    }
                }
            },
            None => {
                let mut slots: Vec<Option<C>> = Vec::new();
                let mut n: usize = 0;
                while n < self.entities_count
                    invariant
                        n <= self.entities_count,
                        slots@ =~= Seq::new(n as nat, |j: int| None::<C>),
                    decreases self.entities_count - n,
                {
                    slots.push(None);
                    n = n + 1;
                }
                slots.set(entity, Some(component));
                self.kinds.push(kind);
                self.component_vecs.push(slots);
                proof {
                    assert forall|j: int| 0 <= j < old(self).kinds().len() implies
                        #[trigger] self.store(j) == old(self).store(j) by {
                        assert(self.component_vecs@[j] == old(self).component_vecs@[j]);
                    }
                    assert(self.store(old(self).kinds().len() as int) =~= Seq::new(
                        old(self).count(),
                        |j: int| None::<C>,
                    ).update(entity as int, Some(component)));
                    assert(self.kinds().no_duplicates());
                }
            },
        }
    }

    /// Replaces the kind-`kind` component of `entity`; the same operation as
    /// attaching, under the name that update logic uses.
    pub fn set_component(&mut self, kind: ComponentKind, entity: usize, component: C)
        requires
            old(self).wf(),
            entity < old(self).count(),
        ensures
            final(self).attached(old(self), kind, entity as int, component),
    {
        self.add_component_to_entity(kind, entity, component)
    }

    /// The slots of the container of kind `kind`, if that kind is registered.
    pub fn borrow_component_vec(&self, kind: ComponentKind) -> (r: Option<&Vec<Option<C>>>)
        requires
            self.wf(),
        ensures
            r.is_some() == self.kinds().contains(kind),
            r.is_some() ==> r.unwrap()@ == self.store(self.kinds().index_of(kind)),
    {
        match self.find_vec(kind) {
            Some(i) => Some(&self.component_vecs[i]),
            None => None,
        }
    }

    /// The kind-`kind` component of `entity`; absent for an unregistered
    /// kind, an entity without one, or an id out of range.
    pub fn get_component(&self, kind: ComponentKind, entity: usize) -> (r: Option<&C>)
        requires
            self.wf(),
        ensures
            r.is_some() == self.component(kind, entity as int).is_some(),
            r.is_some() ==> *r.unwrap() == self.component(kind, entity as int).unwrap(),
    {
        if entity >= self.entities_count {
            return None;
        }
        match self.find_vec(kind) {
            Some(i) => match &self.component_vecs[i][entity] {
                Some(c) => Some(c),
                None => None,
            },
            None => None,
        }
    }

    /// Mutable access to the kind-`kind` component of `entity`, under the same
    /// rules of absence as `get_component`; what is written through it is
    /// what the registry holds afterwards.
    pub fn borrow_component(&mut self, kind: ComponentKind, entity: usize) -> (r: Option<&mut C>)
        requires
            old(self).wf(),
        ensures
            r.is_some() == old(self).component(kind, entity as int).is_some(),
            r.is_none() ==> *final(self) == *old(self),
            r.is_some() ==> *r.unwrap() == old(self).component(kind, entity as int).unwrap(),
            r.is_some() ==> final(self).attached(old(self), kind, entity as int, *final(r.unwrap())),
    {
        if entity >= self.entities_count {
            return None;
        }
        match self.find_vec(kind) {
            Some(i) => {
                if self.component_vecs[i][entity].is_none() {
                    return None;
                }
                let slots = &mut self.component_vecs[i];
                match &mut slots[entity] {
                    Some(c) => Some(c),
                    None => None,
                }
            },
            None => None,
        }
    }

    /// Position of the container of kind `k`, if one is registered.
    fn find_vec(&self, k: ComponentKind) -> (r: Option<usize>)
        requires
            self.wf(),
        ensures
            r.is_some() == self.kinds().contains(k),
            r.is_some() ==> r.unwrap() == self.kinds().index_of(k),
    {
        let mut i: usize = 0;
        while i < self.kinds.len()
            invariant
                self.wf(),
                i <= self.kinds@.len(),
                forall|j: int| 0 <= j < i ==> self.kinds()[j] != k,
            decreases self.kinds@.len() - i,
        {
            if self.kinds[i] == k {
                proof {
                    assert(self.kinds()[i as int] == k);
                    self.lemma_index_of(k, i as int);
                }
                return Some(i);
            }
            i = i + 1;
        }
        proof {
            if self.kinds().contains(k) {
                let j = choose|j: int| 0 <= j < self.kinds().len() && self.kinds()[j] == k;
                assert(self.kinds()[j] == k);
            }
        }
        None
    }

    proof fn lemma_index_of(&self, k: ComponentKind, i: int)
        requires
            self.wf(),
            0 <= i < self.kinds().len(),
            self.kinds()[i] == k,
        ensures
            self.kinds().contains(k),
            self.kinds().index_of(k) == i,
    {
        let s = self.kinds();
        assert(s.contains(k));
        let j = s.index_of(k);
        assert(s[j] == k);
        assert(j == i);
    }
}

/// Every container holds exactly one slot per entity: in a well-formed
/// registry, which `new` creates and every operation keeps.
pub proof fn lemma_container_lengths<C>(ecs: &ECS<C>)
    requires
        ecs.wf(),
    ensures
        forall|i: int| 0 <= i < ecs.kinds().len() ==> #[trigger] ecs.store(i).len() == ecs.count(),
{
}

/// No two containers of a well-formed registry share a kind.
pub proof fn lemma_kinds_unique<C>(ecs: &ECS<C>)
    requires
        ecs.wf(),
    ensures
        ecs.kinds().no_duplicates(),
{
}

/// A new entity changes no component of the entities before it. With
/// `lemma_attach_then_fetch`, this gives that an entity holds a component of
/// a kind only after one was attached to it under that kind: a new registry
/// has no kinds, a new entity starts empty, and each attach changes one slot.
pub proof fn lemma_new_entity_keeps<C>(before: &ECS<C>, after: &ECS<C>, k: ComponentKind, e: int)
    requires
        before.wf(),
        after.entity_added(before),
        0 <= e < before.count(),
    ensures
        after.component(k, e) == before.component(k, e),
{
}

/// A new entity owns no component of any kind.
pub proof fn lemma_new_entity_is_empty<C>(before: &ECS<C>, after: &ECS<C>, k: ComponentKind)
    requires
        before.wf(),
        after.entity_added(before),
    ensures
        after.component(k, before.count() as int) == None::<C>,
{
}

/// After attaching `v` as the kind-`k` component of `e`, fetching it gives
/// back `v`, and nothing else changes.
pub proof fn lemma_attach_then_fetch<C>(
    before: &ECS<C>,
    after: &ECS<C>,
    k: ComponentKind,
    e: int,
    v: C,
)
    requires
        before.wf(),
        0 <= e < before.count(),
        after.attached(before, k, e, v),
    ensures
        after.component(k, e) == Some(v),
        forall|k2: ComponentKind, e2: int| (k2, e2) != (k, e)
            ==> #[trigger] after.component(k2, e2) == before.component(k2, e2),
{
    if before.kinds().contains(k) {
        let i = before.kinds().index_of(k);
        assert(after.kinds()[i] == k);
    } else {
        let n = before.kinds().len() as int;
        assert(after.kinds()[n] == k);
        assert(after.kinds().index_of(k) == n) by {
            let j = after.kinds().index_of(k);
            assert(after.kinds()[j] == k);
        }
    }
    assert forall|k2: ComponentKind, e2: int| (k2, e2) != (k, e)
        implies #[trigger] after.component(k2, e2) == before.component(k2, e2) by {
        if before.kinds().contains(k2) {
            let i = before.kinds().index_of(k2);
            assert(after.kinds()[i] == k2);
            assert(after.kinds().contains(k2));
        } else if k2 != k {
            if after.kinds().contains(k2) {
                let j = after.kinds().index_of(k2);
                assert(after.kinds()[j] == k2);
            }
        }
    }
}

/// Attaching `v1` and then `v2` under the same kind and entity leaves `v2`
/// there and no trace of `v1`: the registry is as if `v2` alone had been
/// attached.
pub proof fn lemma_overwrite<C>(
    s0: &ECS<C>,
    s1: &ECS<C>,
    s2: &ECS<C>,
    k: ComponentKind,
    e: int,
    v1: C,
    v2: C,
)
    requires
        s0.wf(),
        0 <= e < s0.count(),
        s1.attached(s0, k, e, v1),
        s2.attached(s1, k, e, v2),
    ensures
        s2.component(k, e) == Some(v2),
        forall|k2: ComponentKind, e2: int| (k2, e2) != (k, e)
            ==> #[trigger] s2.component(k2, e2) == s0.component(k2, e2),
{
    lemma_attach_then_fetch(s0, s1, k, e, v1);
    lemma_attach_then_fetch(s1, s2, k, e, v2);
    assert forall|k2: ComponentKind, e2: int| (k2, e2) != (k, e)
        implies #[trigger] s2.component(k2, e2) == s0.component(k2, e2) by {
        assert(s2.component(k2, e2) == s1.component(k2, e2));
        assert(s1.component(k2, e2) == s0.component(k2, e2));
    }
}

/// Fetching a kind that was never registered, or an entity id at or beyond
/// the entity count, gives nothing.
pub proof fn lemma_absent<C>(ecs: &ECS<C>, k: ComponentKind, e: int)
    requires
        ecs.wf(),
        !ecs.kinds().contains(k) || e < 0 || e >= ecs.count(),
    ensures
        ecs.component(k, e) == None::<C>,
{
}

/// In one `update_all` pass, two entities `e1 < e2` that both hold a
/// component of kind `k` have their hooks run in that order, `e1` first.
pub proof fn lemma_update_order<C>(
    before: &ECS<C>,
    after: &ECS<C>,
    k: ComponentKind,
    e1: int,
    e2: int,
)
    requires
        before.wf(),
        after.pass_ran(before),
        e1 < e2,
        before.component(k, e1).is_some(),
        before.component(k, e2).is_some(),
    ensures
        exists|i: int, j: int|
            0 <= i < j < after.pass(before).len()
                && #[trigger] after.pass(before)[i] == (before.kinds().index_of(k), e1)
                && #[trigger] after.pass(before)[j] == (before.kinds().index_of(k), e2),
{
    let c = before.kinds().index_of(k);
    let p = after.pass(before);
    assert(before.kinds()[c] == k);
    assert(before.store(c)[e1].is_some());
    assert(before.store(c)[e2].is_some());
    assert(p.contains((c, e1)));
    assert(p.contains((c, e2)));
    let i = choose|i: int| 0 <= i < p.len() && p[i] == (c, e1);
    let j = choose|j: int| 0 <= j < p.len() && p[j] == (c, e2);
    if j < i {
        assert(visit_before(p[j], p[i]));
    }
    assert(i < j);
}

/// `a` and `b` hold the same entities, containers and components.
pub open spec fn same_content<C>(a: ECS<C>, b: ECS<C>) -> bool {
    &&& a.count() == b.count()
    &&& a.kinds() == b.kinds()
    &&& forall|i: int| 0 <= i < a.kinds().len() ==> #[trigger] a.store(i) == b.store(i)
}

/// A pass whose hooks all change nothing leaves every entity, container and
/// component as it was.
pub proof fn lemma_noop_pass<C: Component>(
    start: ECS<C>,
    end: ECS<C>,
    dt: u64,
    states: Seq<ECS<C>>,
    vals: Seq<C>,
)
    requires
        start.wf(),
        pass_chain(start, end, dt, states, vals),
        forall|pre: C, ecs: ECS<C>, e: usize, t: u64, post: C, after: ECS<C>|
            #[trigger] C::hook(pre, ecs, e, t, post, after) ==> post == pre && after == ecs,
    ensures
        same_content(start, end),
{
    lemma_noop_prefix(start, end, dt, states, vals, end.pass(&start).len() as int);
}

proof fn lemma_noop_prefix<C: Component>(
    start: ECS<C>,
    end: ECS<C>,
    dt: u64,
    states: Seq<ECS<C>>,
    vals: Seq<C>,
    k: int,
)
    requires
        pass_chain(start, end, dt, states, vals),
        0 <= k <= end.pass(&start).len(),
        forall|pre: C, ecs: ECS<C>, e: usize, t: u64, post: C, after: ECS<C>|
            #[trigger] C::hook(pre, ecs, e, t, post, after) ==> post == pre && after == ecs,
    ensures
        same_content(start, states[3 * k]),
    decreases k,
{
    if k > 0 {
        let j = k - 1;
        lemma_noop_prefix(start, end, dt, states, vals, j);
        let p = end.pass(&start);
        let a = states[3 * j];
        let b = states[3 * j + 1];
        let h = states[3 * j + 2];
        let d = states[3 * j + 3];
        let (c, e) = p[j];
        assert(visit_ok(a, b, h, d, vals[2 * j], vals[2 * j + 1], c, e, dt));
        assert(h == b);
        assert forall|i: int| 0 <= i < start.kinds().len() implies #[trigger] d.store(i) == start.store(i) by {
            if i == c {
                assert(d.store(c) =~= a.store(c));
            }
        }
    }
}

impl<C: Component> ECS<C> {
    /// One tick: visits the containers in registration order and, within
    /// each, the occupied slots in ascending entity order, running each
    /// component's `update` hook. What a hook changes is seen by the hooks
    /// that run after it. While its hook runs, a component is out of its slot;
    /// what the hook leaves of it goes back there. The pass covers the
    /// containers and the entity range each had when the pass reached it.
    ///
    /// The contract records each visit as a step of `pass_chain`: the hook ran
    /// on the component found in the slot, with that entity id and `dt`, on
    /// the registry as the earlier visits left it; and every slot of the
    /// starting range that was skipped was empty when the pass reached it.
    pub fn update_all(&mut self, dt: u64)
        requires
            old(self).wf(),
        ensures
            final(self).pass_ran(old(self)),
            exists|states: Seq<ECS<C>>, vals: Seq<C>| pass_chain(*old(self), *final(self), dt, states, vals),
            tail_empty(*old(self), *final(self), old(self).kinds().len() as int, 0),
    {
        let ghost start = *self;
        let ghost mut states: Seq<ECS<C>> = seq![start];
        let ghost mut vals: Seq<C> = Seq::empty();
        assert(self.pass(&start) =~= Seq::<(int, int)>::empty());
        let n = self.component_vecs.len();
        let mut s: usize = 0;
        while s < n
            invariant
                n == start.kinds().len(),
                s <= n,
                self.pass_so_far(&start, s as int, 0),
                pass_chain(start, *self, dt, states, vals),
                tail_empty(start, *self, s as int, 0),
            decreases n - s,
        {
            let len = self.component_vecs[s].len();
            let mut e: usize = 0;
            while e < len
                invariant
                    n == start.kinds().len(),
                    s < n,
                    e <= len,
                    start.count() <= len <= self.count(),
                    self.pass_so_far(&start, s as int, e as int),
                    pass_chain(start, *self, dt, states, vals),
                    tail_empty(start, *self, s as int, e as int),
                decreases len - e,
            {
                let ghost before = *self;
                if self.component_vecs[s][e].is_some() {
                    let mut taken: Option<C> = None;
                    std::mem::swap(&mut self.component_vecs[s][e], &mut taken);
                    match taken {
                        Some(mut c) => {
                            self.visits = Ghost(self.visits@.push((s as int, e as int)));
                            let ghost visited = *self;
                            let ghost x = c;
                            c.update(self, e, dt);
                            let ghost hooked = *self;
                            let ghost y = c;
                            self.component_vecs[s].set(e, Some(c));
                            proof {
                                lemma_visit_step(&*self, &hooked, &visited, &before, &start, s as int, e as int);
                                lemma_chain_step(
                                    start, before, visited, hooked, *self, x, y, s as int, e as int, dt, states, vals,
                                );
                                states = states.push(visited).push(hooked).push(*self);
                                vals = vals.push(x).push(y);
                            }
                        },
                        None => {},
                    }
                } else {
                    proof {
                        lemma_skip_step(&*self, &start, s as int, e as int);
                    }
                }
                e = e + 1;
            }
            proof {
                lemma_next_container(&*self, &start, s as int, e as int);
            }
            s = s + 1;
        }
        proof {
            lemma_pass_done(&*self, &start, n as int);
        }
    }
}

impl<C> ECS<C> {
    /// The state of a pass over `start` that has reached slot `e` of
    /// container `s`.
    pub closed spec fn pass_so_far(&self, start: &Self, s: int, e: int) -> bool {
        &&& self.grows(start)
        &&& start.visits().len() <= self.visits().len()
        &&& forall|i: int| 0 <= i < start.visits().len() ==> #[trigger] self.visits()[i] == start.visits()[i]
        &&& forall|i: int, j: int| 0 <= i < j < self.pass(start).len()
            ==> visit_before(#[trigger] self.pass(start)[i], #[trigger] self.pass(start)[j])
        &&& forall|i: int| 0 <= i < self.pass(start).len() ==> {
            let (c, x) = #[trigger] self.pass(start)[i];
            &&& 0 <= c < start.kinds().len()
            &&& 0 <= x < self.count()
            &&& self.store(c)[x].is_some()
            &&& visit_before((c, x), (s, e))
        }
        &&& forall|c: int, x: int|
            0 <= c < start.kinds().len() && 0 <= x < start.count() && visit_before((c, x), (s, e))
                && (#[trigger] start.store(c)[x]).is_some()
                ==> self.pass(start).contains((c, x))
    }
}

proof fn lemma_visit_step<C>(
    after: &ECS<C>,
    hooked: &ECS<C>,
    visited: &ECS<C>,
    before: &ECS<C>,
    start: &ECS<C>,
    s: int,
    e: int,
)
    requires
        before.pass_so_far(start, s, e),
        0 <= s < start.kinds().len(),
        0 <= e < before.count(),
        before.store(s)[e].is_some(),
        visited.entities_count == before.entities_count,
        visited.kinds == before.kinds,
        visited.component_vecs@.len() == before.component_vecs@.len(),
        visited.component_vecs@[s]@ == before.component_vecs@[s]@.update(e, None),
        forall|i: int| 0 <= i < before.component_vecs@.len() && i != s
            ==> #[trigger] visited.component_vecs@[i] == before.component_vecs@[i],
        visited.visits@ == before.visits@.push((s, e)),
        hooked.extends(visited),
        after.entities_count == hooked.entities_count,
        after.kinds == hooked.kinds,
        after.visits == hooked.visits,
        after.component_vecs@.len() == hooked.component_vecs@.len(),
        after.component_vecs@[s]@ == hooked.component_vecs@[s]@.update(e, after.component_vecs@[s]@[e]),
        after.component_vecs@[s]@[e].is_some(),
        forall|i: int| 0 <= i < hooked.component_vecs@.len() && i != s
            ==> #[trigger] after.component_vecs@[i] == hooked.component_vecs@[i],
    ensures
        after.pass_so_far(start, s, e + 1),
{
    assert(visited.wf());
    assert(after.wf());
    assert(before.pass(start).push((s, e)) =~= after.pass(start));
    assert forall|i: int, x: int|
        #![trigger after.store(i)[x]]
        #![trigger start.store(i)[x]]
        0 <= i < start.kinds().len() && 0 <= x < start.count() && start.store(i)[x].is_some()
            implies after.store(i)[x].is_some() by {
        assert(before.store(i)[x].is_some());
        if i != s || x != e {
            assert(visited.store(i)[x].is_some());
            assert(hooked.store(i)[x].is_some());
        }
    }
    let p = after.pass(start);
    assert forall|k: int| 0 <= k < p.len() implies {
        let (c, x) = #[trigger] p[k];
        &&& 0 <= c < start.kinds().len()
        &&& 0 <= x < after.count()
        &&& after.store(c)[x].is_some()
        &&& visit_before((c, x), (s, e + 1))
    } by {
        if k < p.len() - 1 {
            let (c, x) = before.pass(start)[k];
            assert(before.store(c)[x].is_some());
            assert(visited.store(c)[x].is_some());
            assert(hooked.store(c)[x].is_some());
        }
    }
    assert forall|c: int, x: int|
        0 <= c < start.kinds().len() && 0 <= x < start.count() && visit_before((c, x), (s, e + 1))
            && (#[trigger] start.store(c)[x]).is_some() implies p.contains((c, x)) by {
        if c == s && x == e {
            assert(p[p.len() - 1] == (c, x));
        } else {
            assert(before.pass(start).contains((c, x)));
            let k = choose|k: int| 0 <= k < before.pass(start).len() && before.pass(start)[k] == (c, x);
            assert(p[k] == (c, x));
        }
    }
}

proof fn lemma_chain_step<C: Component>(
    start: ECS<C>,
    before: ECS<C>,
    visited: ECS<C>,
    hooked: ECS<C>,
    after: ECS<C>,
    x: C,
    y: C,
    s: int,
    e: int,
    dt: u64,
    states: Seq<ECS<C>>,
    vals: Seq<C>,
)
    requires
        pass_chain(start, before, dt, states, vals),
        tail_empty(start, before, s, e),
        start.visits().len() <= before.visits().len(),
        before.wf(),
        0 <= s < before.kinds().len(),
        0 <= e < before.count(),
        visit_ok(before, visited, hooked, after, x, y, s, e, dt),
        hooked.visits() == visited.visits(),
    ensures
        pass_chain(start, after, dt, states.push(visited).push(hooked).push(after), vals.push(x).push(y)),
        tail_empty(start, after, s, e + 1),
{
    let p = before.pass(&start);
    let q = after.pass(&start);
    assert(q =~= p.push((s, e)));
    let m = p.len() as int;
    let st = states.push(visited).push(hooked).push(after);
    let vs = vals.push(x).push(y);
    assert forall|i: int| 0 <= i < m + 1 implies visit_ok(
        st[3 * i],
        st[3 * i + 1],
        st[3 * i + 2],
        st[3 * i + 3],
        vs[2 * i],
        vs[2 * i + 1],
        (#[trigger] q[i]).0,
        q[i].1,
        dt,
    ) by {
        if i < m {
            assert(q[i] == p[i]);
            assert(st[3 * i] == states[3 * i]);
            assert(st[3 * i + 1] == states[3 * i + 1]);
            assert(st[3 * i + 2] == states[3 * i + 2]);
            assert(st[3 * i + 3] == states[3 * i + 3]);
            assert(vs[2 * i] == vals[2 * i]);
            assert(vs[2 * i + 1] == vals[2 * i + 1]);
        } else {
            assert(q[i] == (s, e));
            assert(st[3 * i] == before);
        }
    }
    assert forall|i: int, c: int, x: int|
        0 <= i < m + 1 && 0 <= c < start.kinds().len() && 0 <= x < start.count()
            && (i == 0 || visit_before(q[i - 1], (c, x)))
            && visit_before((c, x), q[i])
            implies (#[trigger] st[3 * i].store(c)[x]).is_none() by {
        if i < m {
            assert(q[i] == p[i]);
            if i > 0 {
                assert(q[i - 1] == p[i - 1]);
            }
            assert(st[3 * i] == states[3 * i]);
        } else {
            assert(q[i] == (s, e));
            assert(st[3 * i] == before);
            if i > 0 {
                assert(q[i - 1] == p[p.len() - 1]);
            }
        }
    }
}

proof fn lemma_skip_step<C>(ecs: &ECS<C>, start: &ECS<C>, s: int, e: int)
    requires
        ecs.pass_so_far(start, s, e),
        0 <= s < start.kinds().len(),
        0 <= e < ecs.count(),
        ecs.store(s)[e].is_none(),
    ensures
        ecs.pass_so_far(start, s, e + 1),
{
}

proof fn lemma_next_container<C>(ecs: &ECS<C>, start: &ECS<C>, s: int, e: int)
    requires
        ecs.pass_so_far(start, s, e),
        start.count() <= e,
    ensures
        ecs.pass_so_far(start, s + 1, 0),
{
}

proof fn lemma_pass_done<C>(ecs: &ECS<C>, start: &ECS<C>, n: int)
    requires
        ecs.pass_so_far(start, n, 0),
        n == start.kinds().len(),
    ensures
        ecs.pass_ran(start),
{
}

} // verus!
