use std::collections::HashMap;
use vstd::prelude::*;
use vstd::std_specs::iter::IteratorSpec;

verus! {

broadcast use vstd::std_specs::hash::group_hash_axioms;

/// The number by which the entity manager knows an entity.
#[derive(Clone, Copy, Hash, Debug, PartialEq, Eq, Structural)]
pub struct EntityId {
    id: usize,
}

impl View for EntityId {
    type V = usize;

    closed spec fn view(&self) -> usize {
        self.id
    }
}

/// Two entity ids with the same number are the same id.
pub proof fn lemma_entity_id_view_injective(a: EntityId, b: EntityId)
    ensures
        a@ == b@ <==> a == b,
{
}

impl EntityId {
    /// The id 0, which no managed entity receives.
    pub fn empty() -> (e: Self)
        ensures
            e@ == 0,
            forall|other: EntityId| #[trigger] other@ == 0 ==> other == e,
    {
        Self { id: 0 }
    }

    pub fn new(id: usize) -> (e: Self)
        ensures
            e@ == id,
            forall|other: EntityId| #[trigger] other@ == id ==> other == e,
    {
        Self { id }
    }
}

/// The callbacks that an entity asks the entity manager for, as a set of bits.
#[derive(Clone, Copy, PartialEq, Eq, Structural, Debug)]
pub struct RequestedCallbacks {
    bits: u32,
}

impl View for RequestedCallbacks {
    type V = u32;

    closed spec fn view(&self) -> u32 {
        self.bits
    }
}

/// Two callback sets with the same bits are the same set.
pub proof fn lemma_callbacks_view_injective(a: RequestedCallbacks, b: RequestedCallbacks)
    ensures
        a@ == b@ <==> a == b,
{
}

impl RequestedCallbacks {
    /// Called on update, usually 60 times per second.
    pub fn update() -> (c: Self)
        ensures
            c@ == 1,
    {
        Self { bits: 1 }
    }

    /// Called on any event: raw mouse input, resizing and the like.
    pub fn event() -> (c: Self)
        ensures
            c@ == 2,
    {
        Self { bits: 2 }
    }

    /// Called whenever the entity's id changes.
    pub fn set_id() -> (c: Self)
        ensures
            c@ == 4,
    {
        Self { bits: 4 }
    }

    /// Called after updating, for rendering.
    pub fn render() -> (c: Self)
        ensures
            c@ == 8,
    {
        Self { bits: 8 }
    }

    /// The set with exactly the given bits.
    pub fn from_bits_retain(bits: u32) -> (c: Self)
        ensures
            c@ == bits,
    {
        Self { bits }
    }

    pub fn bits(&self) -> (b: u32)
        ensures
            b == self@,
    {
        self.bits
    }

    /// Whether every callback of `other` is in this set.
    pub fn contains(&self, other: RequestedCallbacks) -> (b: bool)
        ensures
            b == (self@ & other@ == other@),
    {
        self.bits & other.bits == other.bits
    }

    /// The callbacks of both sets.
    pub fn union(self, other: RequestedCallbacks) -> (c: Self)
        ensures
            c@ == self@ | other@,
    {
        Self { bits: self.bits | other.bits }
    }
}

/// The id that the entity manager hands out first: 0 stays free for `EntityId::empty`.
pub const FIRST_ENTITY_ID: usize = 1;

/// Which callbacks each managed entity asked for, by entity id.
pub struct EntityManagerInner {
    entities: HashMap<usize, RequestedCallbacks>,
}

impl View for EntityManagerInner {
    type V = Map<usize, RequestedCallbacks>;

    closed spec fn view(&self) -> Map<usize, RequestedCallbacks> {
        self.entities@
    }
}

impl EntityManagerInner {
    /// No entities.
    pub fn new() -> (m: Self)
        ensures
            m@ == Map::<usize, RequestedCallbacks>::empty(),
    {
        Self { entities: HashMap::new() }
    }

    /// Registers a new entity, which asked for `callbacks`, under the id `*last_id`, and
    /// advances `*last_id`. Ids handed out this way are fresh: while every registered id
    /// lies below `*last_id`, the new one is not yet registered, and that stays so.
    pub fn entity_create(&mut self, last_id: &mut usize, callbacks: RequestedCallbacks) -> (id:
        EntityId)
        requires
            *old(last_id) < usize::MAX,
        ensures
            id@ == *old(last_id),
            *final(last_id) == *old(last_id) + 1,
            final(self)@ == old(self)@.insert(id@, callbacks),
            (forall|k: usize| old(self)@.contains_key(k) ==> k < *old(last_id)) ==> {
                &&& !old(self)@.contains_key(id@)
                &&& forall|k: usize| final(self)@.contains_key(k) ==> k < *final(last_id)
            },
    {
        let id = EntityId::new(*last_id);
        self.entities.insert(id.id, callbacks);
        *last_id = *last_id + 1;
        id
    }

    /// Removes a registered entity.
    pub fn entity_destroy(&mut self, entity: EntityId)
        requires
            old(self)@.contains_key(entity@),
        ensures
            final(self)@ == old(self)@.remove(entity@),
    {
        self.entities.remove(&entity.id);
    }

    /// Whether an entity is registered under `entity`.
    pub fn contains(&self, entity: EntityId) -> (b: bool)
        ensures
            b == self@.contains_key(entity@),
    {
        self.entities.contains_key(&entity.id)
    }

    /// The registered entities that asked for every callback in `wanted`, each once, in
    /// no particular order.
    pub fn entities_with(&self, wanted: RequestedCallbacks) -> (ids: Vec<EntityId>)
        ensures
            ids@.no_duplicates(),
            forall|e: EntityId|
                #[trigger] ids@.contains(e) <==> self@.contains_key(e@) && (self@[e@]@ & wanted@)
                    == wanted@,
    {
        let ghost listed = vstd::std_specs::hash::spec_keys_iter(&self.entities).remaining();
        let mut ids: Vec<EntityId> = Vec::new();
        for key in it: self.entities.keys()
            invariant
                it.seq() == listed,
                listed == vstd::std_specs::hash::spec_keys_iter(&self.entities).remaining(),
                listed.no_duplicates(),
                listed.unref().to_set() == self@.dom(),
                ids@.no_duplicates(),
                forall|e: EntityId|
                    #[trigger] ids@.contains(e) <==> listed.take(it.index()).unref().contains(e@)
                        && (self@[e@]@ & wanted@) == wanted@,
        {
            let id = *key;
            let ghost i = it.index();
            assert(listed.unref()[i] == id);
            assert(listed.unref().to_set().contains(id));
            let callbacks = *self.entities.get(&id).unwrap();
            assert(listed.take(i + 1).unref() =~= listed.take(i).unref().push(id));
            assert(!listed.take(i).unref().contains(id)) by {
                if listed.take(i).unref().contains(id) {
                    let j = choose|j: int| 0 <= j < i && listed.take(i).unref()[j] == id;
                    assert(listed[j] == listed[i]);
                }
            }
            if callbacks.contains(wanted) {
                let ghost before = ids@;
                ids.push(EntityId::new(id));
                let ghost added = ids@.last();
                assert(!before.contains(added));
                assert(ids@ == before.push(added));
                assert forall|a: int, b: int| 0 <= a < ids@.len() && 0 <= b < ids@.len() && a != b
                    implies ids@[a] != ids@[b] by {
                    if a < before.len() && b < before.len() {
                        assert(before[a] != before[b]);
                    } else if a < before.len() {
                        assert(before.contains(before[a]));
                    } else {
                        assert(before.contains(before[b]));
                    }
                }
                assert forall|e: EntityId| #[trigger] ids@.contains(e) <==> listed.take(i + 1).unref().contains(e@)
                    && (self@[e@]@ & wanted@) == wanted@ by {
                    broadcast use vstd::seq_lib::group_seq_properties;

                    if e@ == id {
                        assert(e == ids@.last());
                    }
                }
            } else {
                assert forall|e: EntityId| #[trigger] ids@.contains(e) <==> listed.take(i + 1).unref().contains(e@)
                    && (self@[e@]@ & wanted@) == wanted@ by {
                    broadcast use vstd::seq_lib::group_seq_properties;

                }
            }
        }
        assert(listed.take(listed.len() as int) =~= listed);
        ids
    }
}

/// Law: `k` successive calls of `entity_create` on one manager and one counter, with
/// nothing else between them, hand out the ids `n`, `n + 1`, ..., `n + k - 1`, where `n`
/// is the counter before the first call. Here `states[j]` is the manager's view and
/// `counters[j]` the counter before call `j` (and after the last call for `j == k`),
/// `cbs[j]` what call `j` registers and `ids[j]` what it returns, each call as
/// `entity_create` describes it. The ids are then distinct, each is registered with its
/// callbacks afterwards, the counter ends at `n + k`, and the manager gains exactly those
/// ids. Where every id registered at first lies below `n`, every call's id is fresh.
pub proof fn lemma_successive_creates(
    states: Seq<Map<usize, RequestedCallbacks>>,
    counters: Seq<usize>,
    cbs: Seq<RequestedCallbacks>,
    ids: Seq<EntityId>,
)
    requires
        states.len() == cbs.len() + 1,
        counters.len() == cbs.len() + 1,
        ids.len() == cbs.len(),
        forall|j: int|
            0 <= j < cbs.len() ==> {
                &&& #[trigger] ids[j]@ == counters[j]
                &&& counters[j + 1] == counters[j] + 1
                &&& states[j + 1] == states[j].insert(ids[j]@, cbs[j])
            },
    ensures
        forall|j: int| 0 <= j < cbs.len() ==> #[trigger] ids[j]@ == counters[0] + j,
        counters[cbs.len() as int] == counters[0] + cbs.len(),
        forall|i: int, j: int| 0 <= i < j < cbs.len() ==> ids[i] != ids[j],
        forall|j: int|
            0 <= j < cbs.len() ==> #[trigger] states[cbs.len() as int].contains_key(ids[j]@)
                && states[cbs.len() as int][ids[j]@] == cbs[j],
        forall|key: usize| #[trigger]
            states[cbs.len() as int].contains_key(key) <==> states[0].contains_key(key) || (
            counters[0] <= key < counters[0] + cbs.len()),
        (forall|key: usize| #[trigger] states[0].contains_key(key) ==> key < counters[0]) ==> (
        forall|j: int| 0 <= j < cbs.len() ==> !states[j].contains_key(#[trigger] ids[j]@)),
    decreases cbs.len(),
{
    let k = cbs.len() as int;
    if k > 0 {
        let s = states.drop_last();
        let c = counters.drop_last();
        let b = cbs.drop_last();
        let e = ids.drop_last();
        assert forall|j: int| 0 <= j < b.len() implies {
            &&& #[trigger] e[j]@ == c[j]
            &&& c[j + 1] == c[j] + 1
            &&& s[j + 1] == s[j].insert(e[j]@, b[j])
        } by {
            assert(ids[j]@ == counters[j]);
        }
        lemma_successive_creates(s, c, b, e);
        assert(ids[k - 1]@ == counters[k - 1]);
        assert(states[k] == states[k - 1].insert(ids[k - 1]@, cbs[k - 1]));
        assert(s[k - 1] == states[k - 1]);
        assert forall|j: int| 0 <= j < k implies #[trigger] ids[j]@ == counters[0] + j by {
            if j < k - 1 {
                assert(e[j]@ == c[0] + j);
            }
        }
        assert forall|i: int, j: int| 0 <= i < j < k implies ids[i] != ids[j] by {
            if j < k - 1 {
                assert(e[i] != e[j]);
            } else {
                assert(e[i]@ == c[0] + i);
            }
        }
        assert forall|j: int| 0 <= j < k implies #[trigger] states[k].contains_key(ids[j]@)
            && states[k][ids[j]@] == cbs[j] by {
            if j < k - 1 {
                assert(e[j]@ == c[0] + j);
                assert(s[k - 1].contains_key(e[j]@) && s[k - 1][e[j]@] == b[j]);
            }
        }
        if forall|key: usize| #[trigger] states[0].contains_key(key) ==> key < counters[0] {
            assert forall|j: int| 0 <= j < k implies !states[j].contains_key(#[trigger] ids[j]@) by {
                if j < k - 1 {
                    assert(!s[j].contains_key(e[j]@));
                } else {
                    assert(s[0] == states[0]);
                    if states[k - 1].contains_key(ids[k - 1]@) {
                        let key = ids[k - 1]@;
                        assert(s[k - 1].contains_key(key));
                    }
                }
            }
        }
    }
}

impl Default for EntityManagerInner {
    fn default() -> (m: Self)
        ensures
            m@ == Map::<usize, RequestedCallbacks>::empty(),
    {
        EntityManagerInner::new()
    }
}

} // verus!
