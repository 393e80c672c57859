use std::collections::hash_map::Entry;
use std::collections::HashMap;
use vstd::prelude::*;
use vstd::std_specs::iter::IteratorSpec;
use crate::dod::{convert_chunk_to_dod, zeroed_storage, DODStorage, StorageView, LANE_BYTES};

verus! {

/// Smallest number of entities for which an archetype is simulated through
/// struct-of-arrays storage.
pub const SIMULATION_MIN_ENTITIES: usize = 1000;

/// What the simulation step reads of an archetype: its identifier, how many
/// entities it holds, and whether its entities have a position and a
/// velocity.
#[derive(Clone, Copy, PartialEq, Eq, Structural, Debug)]
pub struct ArchetypeInfo {
    pub id: usize,
    pub len: usize,
    pub has_position: bool,
    pub has_velocity: bool,
}

/// An archetype is large enough to keep its storage.
pub open spec fn is_live(a: ArchetypeInfo) -> bool {
    a.len >= SIMULATION_MIN_ENTITIES
}

/// An archetype is simulated: it is large enough and its entities move.
pub open spec fn qualifies(a: ArchetypeInfo) -> bool {
    is_live(a) && a.has_position && a.has_velocity
}

/// The identifiers of the simulated archetypes, in the order given.
pub open spec fn selected_ids(infos: Seq<ArchetypeInfo>) -> Seq<usize>
    decreases infos.len(),
{
    if infos.len() == 0 {
        Seq::empty()
    } else if qualifies(infos.last()) {
        selected_ids(infos.drop_last()).push(infos.last().id)
    } else {
        selected_ids(infos.drop_last())
    }
}

/// The identifiers of the archetypes that are large enough to keep storage.
pub open spec fn live_ids(infos: Seq<ArchetypeInfo>) -> Set<usize> {
    Set::new(|id: usize| exists|i: int| 0 <= i < infos.len() && #[trigger] infos[i].id == id && is_live(infos[i]))
}

/// The storage map after making sure, archetype by archetype in the order
/// given, that every simulated archetype has storage: storage already there
/// is kept, missing storage is created zeroed for the archetype's entities.
pub open spec fn prepared(m: Map<usize, StorageView>, infos: Seq<ArchetypeInfo>) -> Map<
    usize,
    StorageView,
>
    decreases infos.len(),
{
    if infos.len() == 0 {
        m
    } else {
        let before = prepared(m, infos.drop_last());
        let a = infos.last();
        if qualifies(a) && !before.dom().contains(a.id) {
            before.insert(a.id, zeroed_storage(a.len as nat))
        } else {
            before
        }
    }
}

/// Some archetype of `infos` with identifier `id` holds at least
/// `SIMULATION_MIN_ENTITIES` entities, and its entities have both a position
/// and a velocity.
pub open spec fn has_moving_archetype(infos: Seq<ArchetypeInfo>, id: usize) -> bool {
    exists|i: int|
        0 <= i < infos.len() && #[trigger] infos[i].id == id && infos[i].has_position
            && infos[i].has_velocity && infos[i].len >= SIMULATION_MIN_ENTITIES
}

/// Every simulated archetype is small enough for its storage to be
/// addressable.
pub open spec fn storage_fits(infos: Seq<ArchetypeInfo>) -> bool {
    forall|i: int| 0 <= i < infos.len() && qualifies(#[trigger] infos[i]) ==> infos[i].len * LANE_BYTES <= usize::MAX
}

/// Struct-of-arrays storage kept from frame to frame, one per archetype.
pub struct DODStore {
    map: HashMap<usize, DODStorage>,
}

/// The storage values of a map of storages.
pub open spec fn storage_views(m: Map<usize, DODStorage>) -> Map<usize, StorageView> {
    Map::new(|k: usize| m.contains_key(k), |k: usize| m[k]@)
}

impl View for DODStore {
    type V = Map<usize, StorageView>;

    closed spec fn view(&self) -> Map<usize, StorageView> {
        storage_views(self.map@)
    }
}

impl DODStore {
    /// A store without storage.
    pub fn new() -> (s: Self)
        ensures
            s@ == Map::<usize, StorageView>::empty(),
    {
        broadcast use vstd::std_specs::hash::group_hash_axioms;

        let s = DODStore { map: HashMap::new() };
        assert(s@ =~= Map::<usize, StorageView>::empty());
        s
    }

    /// Whether archetype `id` has storage.
    pub fn contains(&self, id: usize) -> (b: bool)
        ensures
            b == self@.dom().contains(id),
    {
        broadcast use vstd::std_specs::hash::group_hash_axioms;

        self.map.contains_key(&id)
    }

    /// Makes sure that every simulated archetype of `infos` has storage, in
    /// the order given, and returns the identifiers of the simulated
    /// archetypes in that order: the archetypes a movement step is to run on.
    pub fn prepare(&mut self, infos: &Vec<ArchetypeInfo>) -> (ids: Vec<usize>)
        requires
            storage_fits(infos@),
        ensures
            final(self)@ == prepared(old(self)@, infos@),
            ids@ == selected_ids(infos@),
            forall|j: int|
                0 <= j < ids@.len() ==> has_moving_archetype(infos@, #[trigger] ids@[j]),
            forall|i: int|
                0 <= i < infos@.len() && #[trigger] infos@[i].has_position && infos@[i].has_velocity
                    && infos@[i].len >= SIMULATION_MIN_ENTITIES ==> ids@.contains(infos@[i].id)
                    && final(self)@.dom().contains(infos@[i].id),
            forall|k: usize|
                #[trigger] final(self)@.dom().contains(k) && !old(self)@.dom().contains(k)
                    ==> exists|i: int|
                    0 <= i < infos@.len() && #[trigger] infos@[i].id == k && infos@[i].has_position
                        && infos@[i].has_velocity && infos@[i].len >= SIMULATION_MIN_ENTITIES
                        && final(self)@[k] == zeroed_storage(infos@[i].len as nat),
            forall|k: usize|
                #[trigger] old(self)@.dom().contains(k) ==> final(self)@.dom().contains(k)
                    && final(self)@[k] == old(self)@[k],
    {
        broadcast use vstd::std_specs::hash::group_hash_axioms;

        let mut selected: Vec<usize> = Vec::new();
        let mut i: usize = 0;
        while i < infos.len()
            invariant
                i <= infos.len(),
                storage_fits(infos@),
                self@ == prepared(old(self)@, infos@.take(i as int)),
                selected@ == selected_ids(infos@.take(i as int)),
            decreases infos.len() - i,
        {
            proof {
                assert(infos@.take(i + 1).drop_last() =~= infos@.take(i as int));
                assert(infos@.take(i + 1).last() == infos@[i as int]);
            }
            let a = infos[i];
            if a.len >= SIMULATION_MIN_ENTITIES && a.has_position && a.has_velocity {
                selected.push(a.id);
                if !self.contains(a.id) {
                    assert(qualifies(infos@[i as int]));
                    let storage = convert_chunk_to_dod(a.len);
                    let ghost before = self@;
                    self.map.insert(a.id, storage);
                    assert(self@ =~= before.insert(a.id, storage@));
                }
            }
            i += 1;
        }
        assert(infos@.take(infos.len() as int) =~= infos@);
        proof {
            lemma_only_moving_archetypes_get_storage(old(self)@, infos@);
            assert forall|j: int| 0 <= j < selected@.len() implies has_moving_archetype(
                infos@,
                #[trigger] selected@[j],
            ) by {
                assert(selected@[j] == selected_ids(infos@)[j]);
            }
        }
        selected
    }

    pub fn retain_live(&mut self, infos: &Vec<ArchetypeInfo>)
        ensures
            final(self)@ == old(self)@.restrict(live_ids(infos@)),
    {
        broadcast use vstd::std_specs::hash::group_hash_axioms;

        let keys = self.ids();
        let ghost start = self@;
        let mut i: usize = 0;
        while i < keys.len()
            invariant
                i <= keys.len(),
                keys@.no_duplicates(),
                forall|k: usize| keys@.contains(k) <==> start.dom().contains(k),
                self@ == start.restrict(
                    Set::new(|k: usize| live_ids(infos@).contains(k) || !keys@.take(i as int).contains(k)),
                ),
            decreases keys.len() - i,
        {
            let k = keys[i];
            let ghost before = self@;
            let ghost tk = keys@.take(i as int);
            let ghost tk1 = keys@.take(i + 1);
            proof {
                assert(tk1 =~= tk.push(k));
                assert(!tk.contains(k)) by {
                    if tk.contains(k) {
                        let j = choose|j: int| 0 <= j < tk.len() && tk[j] == k;
                        assert(keys@[j] == keys@[i as int]);
                    }
                }
            }
            if !live_in(infos, k) {
                self.map.remove(&k);
                proof {
                    assert(self@ =~= before.remove(k));
                }
            }
            proof {
                let s_new = Set::new(|x: usize| live_ids(infos@).contains(x) || !tk1.contains(x));
                assert forall|x: usize| x != k implies (tk1.contains(x) <==> tk.contains(x)) by {
                    if tk1.contains(x) {
                        let j = choose|j: int| 0 <= j < tk1.len() && tk1[j] == x;
                        assert(tk[j] == x);
                    }
                    if tk.contains(x) {
                        let j = choose|j: int| 0 <= j < tk.len() && tk[j] == x;
                        assert(tk1[j] == x);
                    }
                }
                assert(tk1.contains(k)) by {
                    assert(tk1[i as int] == k);
                }
                assert(self@ =~= start.restrict(s_new));
            }
            i += 1;
        }
        proof {
            let s_end = Set::new(|k: usize| live_ids(infos@).contains(k) || !keys@.take(keys.len() as int).contains(k));
            assert(keys@.take(keys.len() as int) =~= keys@);
            assert(start.restrict(s_end) =~= start.restrict(live_ids(infos@)));
        }
    }

    /// The storage of archetype `id`, to be changed in place, if it has one.
    pub fn storage_mut(&mut self, id: usize) -> (r: Option<&mut DODStorage>)
        ensures
            r is Some <==> old(self)@.dom().contains(id),
            r matches Some(s) ==> s@ == old(self)@[id],
            r matches Some(s) ==> final(self)@ == old(self)@.insert(id, final(s)@),
            r is None ==> final(self)@ == old(self)@,
    {
        broadcast use vstd::std_specs::hash::group_hash_axioms;

        match self.map.entry(id) {
            Entry::Occupied(o) => Some(o.into_mut()),
            Entry::Vacant(_) => None,
        }
    }

    /// The identifiers of the archetypes that have storage, each once, in
    /// the order in which the map hands them out.
    pub fn ids(&self) -> (r: Vec<usize>)
        ensures
            r@.no_duplicates(),
            forall|k: usize| r@.contains(k) <==> self@.dom().contains(k),
    {
        broadcast use vstd::std_specs::hash::group_hash_axioms;

        let mut r: Vec<usize> = Vec::new();
        for k in it: self.map.keys()
            invariant
                r@.len() == it.index(),
                forall|j: int| 0 <= j < it.index() ==> r@[j] == *it.seq()[j],
        {
            r.push(*k);
        }
        proof {
            let ks = IteratorSpec::remaining(&vstd::std_specs::hash::spec_keys_iter(&self.map));
            assert(r@ =~= ks.unref());
            assert(ks.unref().to_set() == self.map@.dom());
            assert forall|k: usize| r@.contains(k) <==> self@.dom().contains(k) by {
                assert(r@.to_set().contains(k) <==> r@.contains(k));
            }
        }
        r
    }
}

/// Whether some archetype with identifier `id` is large enough to keep its
/// storage.
pub fn live_in(infos: &Vec<ArchetypeInfo>, id: usize) -> (b: bool)
    ensures
        b == live_ids(infos@).contains(id),
{
    let mut i: usize = 0;
    while i < infos.len()
        invariant
            i <= infos.len(),
            forall|j: int| 0 <= j < i ==> !(#[trigger] infos@[j].id == id && is_live(infos@[j])),
        decreases infos.len() - i,
    {
        if infos[i].id == id && infos[i].len >= SIMULATION_MIN_ENTITIES {
            assert(infos@[i as int].id == id && is_live(infos@[i as int]));
            return true;
        }
        i += 1;
    }
    false
}

/// An identifier is selected exactly when some archetype with that
/// identifier is simulated.
pub proof fn lemma_selected_ids_are_simulated(infos: Seq<ArchetypeInfo>)
    ensures
        forall|k: usize|
            selected_ids(infos).contains(k) <==> exists|i: int|
                0 <= i < infos.len() && #[trigger] infos[i].id == k && qualifies(infos[i]),
    decreases infos.len(),
{
    if infos.len() > 0 {
        let prefix = infos.drop_last();
        lemma_selected_ids_are_simulated(prefix);
        let last = infos.last();
        assert forall|k: usize|
            selected_ids(infos).contains(k) <==> exists|i: int|
                0 <= i < infos.len() && #[trigger] infos[i].id == k && qualifies(infos[i]) by {
            if selected_ids(infos).contains(k) {
                if selected_ids(prefix).contains(k) {
                    let i = choose|i: int| 0 <= i < prefix.len() && #[trigger] prefix[i].id == k && qualifies(prefix[i]);
                    assert(infos[i] == prefix[i]);
                } else {
                    let j = choose|j: int| 0 <= j < selected_ids(infos).len() && selected_ids(infos)[j] == k;
                    if qualifies(last) {
                        assert(selected_ids(infos) == selected_ids(prefix).push(last.id));
                        if j < selected_ids(prefix).len() {
                            assert(selected_ids(prefix).contains(k));
                        }
                        assert(infos[infos.len() - 1].id == k);
                    }
                }
            }
            if exists|i: int| 0 <= i < infos.len() && #[trigger] infos[i].id == k && qualifies(infos[i]) {
                let i = choose|i: int| 0 <= i < infos.len() && #[trigger] infos[i].id == k && qualifies(infos[i]);
                if i < prefix.len() {
                    assert(prefix[i] == infos[i]);
                    assert(selected_ids(prefix).contains(k));
                    let j = choose|j: int| 0 <= j < selected_ids(prefix).len() && selected_ids(prefix)[j] == k;
                    if qualifies(last) {
                        assert(selected_ids(infos)[j] == k);
                    }
                } else {
                    assert(selected_ids(infos) == selected_ids(prefix).push(last.id));
                    assert(selected_ids(infos)[selected_ids(prefix).len() as int] == k);
                }
            }
        }
    }
}

/// What preparing the storage of a frame does: every simulated archetype has
/// storage afterwards, storage that was there already is kept as it was,
/// and storage that is new belongs to a simulated archetype and is zeroed
/// for that archetype's entities.
pub proof fn lemma_prepared_storage(m: Map<usize, StorageView>, infos: Seq<ArchetypeInfo>)
    ensures
        forall|i: int|
            0 <= i < infos.len() && qualifies(#[trigger] infos[i]) ==> prepared(m, infos).dom().contains(
                infos[i].id,
            ),
        forall|k: usize|
            #[trigger] m.dom().contains(k) ==> prepared(m, infos).dom().contains(k)
                && prepared(m, infos)[k] == m[k],
        forall|k: usize|
            #[trigger] prepared(m, infos).dom().contains(k) && !m.dom().contains(k) ==> exists|i: int|
                0 <= i < infos.len() && qualifies(#[trigger] infos[i]) && infos[i].id == k
                    && prepared(m, infos)[k] == zeroed_storage(infos[i].len as nat),
    decreases infos.len(),
{
    if infos.len() > 0 {
        let prefix = infos.drop_last();
        lemma_prepared_storage(m, prefix);
        let before = prepared(m, prefix);
        let after = prepared(m, infos);
        let last_i = infos.len() - 1;
        assert forall|i: int|
            0 <= i < infos.len() && qualifies(#[trigger] infos[i]) implies after.dom().contains(
                infos[i].id,
            ) by {
            if i < prefix.len() {
                assert(prefix[i] == infos[i]);
                assert(before.dom().contains(prefix[i].id));
            }
        }
        assert forall|k: usize|
            #[trigger] after.dom().contains(k) && !m.dom().contains(k) implies exists|i: int|
                0 <= i < infos.len() && qualifies(#[trigger] infos[i]) && infos[i].id == k
                    && after[k] == zeroed_storage(infos[i].len as nat) by {
            if before.dom().contains(k) {
                let i = choose|i: int|
                    0 <= i < prefix.len() && qualifies(#[trigger] prefix[i]) && prefix[i].id == k
                        && before[k] == zeroed_storage(prefix[i].len as nat);
                assert(infos[i] == prefix[i]);
                assert(after[k] == before[k]);
            } else {
                assert(qualifies(infos[last_i]) && infos[last_i].id == k);
            }
        }
    }
}

/// Storage kept from frame to frame: after storage has been prepared for a
/// frame and the storage of archetypes that are no longer large enough has
/// been dropped, every archetype that the frame simulates still has storage.
pub proof fn lemma_simulated_storage_survives(m: Map<usize, StorageView>, infos: Seq<ArchetypeInfo>)
    ensures
        forall|j: int|
            0 <= j < selected_ids(infos).len() ==> prepared(m, infos).restrict(
                live_ids(infos),
            ).dom().contains(#[trigger] selected_ids(infos)[j]),
{
    lemma_selected_ids_are_simulated(infos);
    lemma_prepared_storage(m, infos);
    assert forall|j: int| 0 <= j < selected_ids(infos).len() implies prepared(m, infos).restrict(
        live_ids(infos),
    ).dom().contains(#[trigger] selected_ids(infos)[j]) by {
        let k = selected_ids(infos)[j];
        assert(selected_ids(infos).contains(k));
        let i = choose|i: int| 0 <= i < infos.len() && #[trigger] infos[i].id == k && qualifies(infos[i]);
        assert(live_ids(infos).contains(k));
    }
}

/// The bookkeeping of one simulation frame: makes sure every simulated
/// archetype has storage, drops the storage of archetypes that are no longer
/// large enough, and returns the identifiers of the simulated archetypes in
/// the order given, each of which has storage afterwards.
pub fn update_simulated_entities(store: &mut DODStore, infos: &Vec<ArchetypeInfo>) -> (ids: Vec<
    usize,
>)
    requires
        storage_fits(infos@),
    ensures
        final(store)@ == prepared(old(store)@, infos@).restrict(live_ids(infos@)),
        ids@ == selected_ids(infos@),
        forall|j: int| 0 <= j < ids@.len() ==> final(store)@.dom().contains(#[trigger] ids@[j]),
        forall|j: int|
            0 <= j < ids@.len() ==> has_moving_archetype(infos@, #[trigger] ids@[j]),
        forall|k: usize|
            #[trigger] final(store)@.dom().contains(k) && !old(store)@.dom().contains(k) ==> exists|
                i: int,
            |
                0 <= i < infos@.len() && #[trigger] infos@[i].id == k && infos@[i].has_position
                    && infos@[i].has_velocity && infos@[i].len >= SIMULATION_MIN_ENTITIES,
{
    let ids = store.prepare(infos);
    store.retain_live(infos);
    proof {
        lemma_simulated_storage_survives(old(store)@, infos@);
        lemma_only_moving_archetypes_get_storage(old(store)@, infos@);
        assert forall|j: int| 0 <= j < ids@.len() implies has_moving_archetype(
            infos@,
            #[trigger] ids@[j],
        ) by {
            assert(ids@[j] == selected_ids(infos@)[j]);
        }
    }
    ids
}

/// The identifiers of the archetypes that a frame simulates.
pub open spec fn simulated_ids(infos: Seq<ArchetypeInfo>) -> Set<usize> {
    Set::new(|id: usize| exists|i: int| 0 <= i < infos.len() && #[trigger] infos[i].id == id && qualifies(infos[i]))
}

/// After a frame the store holds storage for exactly the archetypes that the
/// frame simulates (an archetype of 999 entities has none, one of 1000 with
/// positions and velocities has one), provided that every archetype which
/// had storage and is still large enough is simulated in this frame, as it is
/// when archetypes keep their components.
pub proof fn lemma_frame_keys(m: Map<usize, StorageView>, infos: Seq<ArchetypeInfo>)
    requires
        forall|k: usize|
            #[trigger] m.dom().contains(k) && live_ids(infos).contains(k) ==> simulated_ids(
                infos,
            ).contains(k),
    ensures
        prepared(m, infos).restrict(live_ids(infos)).dom() == simulated_ids(infos),
{
    lemma_prepared_storage(m, infos);
    let after = prepared(m, infos).restrict(live_ids(infos));
    assert forall|k: usize| #[trigger] after.dom().contains(k) <==> simulated_ids(infos).contains(k) by {
        if simulated_ids(infos).contains(k) {
            let i = choose|i: int| 0 <= i < infos.len() && #[trigger] infos[i].id == k && qualifies(infos[i]);
            assert(prepared(m, infos).dom().contains(infos[i].id));
            assert(live_ids(infos).contains(k));
        }
        if after.dom().contains(k) && !m.dom().contains(k) {
            let i = choose|i: int|
                0 <= i < infos.len() && qualifies(#[trigger] infos[i]) && infos[i].id == k
                    && prepared(m, infos)[k] == zeroed_storage(infos[i].len as nat);
            assert(simulated_ids(infos).contains(k));
        }
    }
    assert(after.dom() =~= simulated_ids(infos));
}

/// Only archetypes whose entities move are simulated: every identifier
/// selected for a frame, and every archetype that receives new storage, is
/// that of an archetype of at least `SIMULATION_MIN_ENTITIES` entities that
/// have both a position and a velocity, and new storage is zeroed for that
/// archetype's entities. Conversely every such archetype is selected and has
/// storage, and storage that was there already is kept as it was.
pub proof fn lemma_only_moving_archetypes_get_storage(m: Map<usize, StorageView>, infos: Seq<ArchetypeInfo>)
    ensures
        forall|j: int|
            0 <= j < selected_ids(infos).len() ==> has_moving_archetype(
                infos,
                #[trigger] selected_ids(infos)[j],
            ),
        forall|i: int|
            0 <= i < infos.len() && #[trigger] infos[i].has_position && infos[i].has_velocity
                && infos[i].len >= SIMULATION_MIN_ENTITIES ==> selected_ids(infos).contains(
                infos[i].id,
            ) && prepared(m, infos).dom().contains(infos[i].id),
        forall|k: usize|
            #[trigger] prepared(m, infos).dom().contains(k) && !m.dom().contains(k) ==> exists|i: int|
                0 <= i < infos.len() && #[trigger] infos[i].id == k && infos[i].has_position
                    && infos[i].has_velocity && infos[i].len >= SIMULATION_MIN_ENTITIES
                    && prepared(m, infos)[k] == zeroed_storage(infos[i].len as nat),
        forall|k: usize|
            #[trigger] m.dom().contains(k) ==> prepared(m, infos).dom().contains(k)
                && prepared(m, infos)[k] == m[k],
{
    lemma_selected_ids_are_simulated(infos);
    lemma_prepared_storage(m, infos);
    assert forall|j: int| 0 <= j < selected_ids(infos).len() implies has_moving_archetype(
        infos,
        #[trigger] selected_ids(infos)[j],
    ) by {
        let k = selected_ids(infos)[j];
        assert(selected_ids(infos).contains(k));
        let i = choose|i: int| 0 <= i < infos.len() && #[trigger] infos[i].id == k && qualifies(infos[i]);
        assert(infos[i].has_position && infos[i].has_velocity && infos[i].len >= SIMULATION_MIN_ENTITIES);
    }
    assert forall|i: int|
        0 <= i < infos.len() && #[trigger] infos[i].has_position && infos[i].has_velocity
            && infos[i].len >= SIMULATION_MIN_ENTITIES implies selected_ids(infos).contains(
        infos[i].id,
    ) && prepared(m, infos).dom().contains(infos[i].id) by {
        assert(qualifies(infos[i]));
    }
}

} // verus!
