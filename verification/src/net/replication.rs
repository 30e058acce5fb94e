//! Network identity of replicated entities and the server-side replication
//! bookkeeping.

use vstd::prelude::*;
use std::collections::HashMap;

verus! {

broadcast use vstd::std_specs::hash::group_hash_axioms;

/// Server-assigned identity of a replicated entity; clients reference
/// entities exclusively by it.
#[derive(Debug, Clone, Copy, PartialEq, Eq, Structural, Hash)]
pub struct NetworkId(pub u64);

/// What one client has been sent: for each entity it knows, by the value of
/// its network id, the last bytes sent for each component tag.
#[derive(Debug)]
pub struct ClientShadow {
    /// Entity → (component tag, last-sent bytes) pairs.
    pub entities: HashMap<u64, Vec<(String, Vec<u8>)>>,
}

/// Server-side replication bookkeeping: the next network id to hand out and
/// the shadow state of each registered client.
pub struct ReplicationServerSystem {
    next_network_id: u64,
    shadows: HashMap<u64, ClientShadow>,
}

impl ReplicationServerSystem {
    /// The network id that the next allocation hands out.
    pub closed spec fn next_id(&self) -> u64 {
        self.next_network_id
    }

    /// The registered clients.
    pub closed spec fn clients(&self) -> Set<u64> {
        self.shadows@.dom()
    }

    /// What client `c` has been sent: per entity, its tag → bytes map.
    pub closed spec fn shadow_of(&self, c: u64) -> Map<u64, Map<Seq<char>, Seq<u8>>> {
        shadow_view(self.shadows@[c].entities@)
    }

    /// No shadow lists a component tag twice for one entity.
    pub closed spec fn wf(&self) -> bool {
        forall|c: u64| #[trigger] self.shadows@.contains_key(c) ==> shadow_ok(self.shadows@[c].entities@)
    }

    /// A system with no clients that hands out network ids from 1.
    pub fn new() -> (r: Self)
        ensures
            r.wf(),
            r.next_id() == 1,
            r.clients() == Set::<u64>::empty(),
    {
        ReplicationServerSystem { next_network_id: 1, shadows: HashMap::new() }
    }

    /// Hands out the next network id; ids count up from 1.
    pub fn allocate_network_id(&mut self) -> (r: NetworkId)
        requires
            old(self).next_id() < u64::MAX,
        ensures
            r == NetworkId(old(self).next_id()),
            final(self).next_id() == old(self).next_id() + 1,
            final(self).clients() == old(self).clients(),
            forall|c: u64| #[trigger] final(self).shadow_of(c) == old(self).shadow_of(c),
            final(self).wf() == old(self).wf(),
    {
        let id = NetworkId(self.next_network_id);
        self.next_network_id = self.next_network_id + 1;
        id
    }

    /// Registers a client so that its shadow state is tracked; a client
    /// registered before keeps its shadow state.
    pub fn add_client(&mut self, client_id: u64)
        ensures
            final(self).clients() == old(self).clients().insert(client_id),
            final(self).next_id() == old(self).next_id(),
            forall|c: u64| old(self).clients().contains(c) ==> #[trigger] final(self).shadow_of(c) == old(self).shadow_of(c),
            !old(self).clients().contains(client_id) ==> final(self).shadow_of(client_id) == Map::<
                u64,
                Map<Seq<char>, Seq<u8>>,
            >::empty(),
            old(self).wf() ==> final(self).wf(),
    {
        if !self.shadows.contains_key(&client_id) {
            let sh = ClientShadow { entities: HashMap::new() };
            self.shadows.insert(client_id, sh);
            proof {
                assert(shadow_view(sh.entities@) =~= Map::<u64, Map<Seq<char>, Seq<u8>>>::empty());
            }
        }
        proof {
            assert(self.shadows@.dom() =~= old(self).shadows@.dom().insert(client_id));
        }
    }

    /// Removes a client and its shadow state.
    pub fn remove_client(&mut self, client_id: u64)
        ensures
            final(self).clients() == old(self).clients().remove(client_id),
            final(self).next_id() == old(self).next_id(),
            forall|c: u64| c != client_id ==> #[trigger] final(self).shadow_of(c) == old(self).shadow_of(c),
            old(self).wf() ==> final(self).wf(),
    {
        self.shadows.remove(&client_id);
        proof {
            assert(self.shadows@.dom() =~= old(self).shadows@.dom().remove(client_id));
        }
    }
}

/// A component list as tag and byte sequences.
pub open spec fn comp_seq(l: Seq<(String, Vec<u8>)>) -> Seq<(Seq<char>, Seq<u8>)> {
    l.map_values(|p: (String, Vec<u8>)| (p.0@, p.1@))
}

/// `m` with each pair of `l` stored in turn: a tag listed twice keeps its
/// later bytes.
pub open spec fn store_all(m: Map<Seq<char>, Seq<u8>>, l: Seq<(Seq<char>, Seq<u8>)>) -> Map<Seq<char>, Seq<u8>>
    decreases l.len(),
{
    if l.len() == 0 {
        m
    } else {
        store_all(m.insert(l[0].0, l[0].1), l.drop_first())
    }
}

/// The pairs of `l` whose bytes differ from what `m` held for their tag,
/// where `m` takes in each pair of `l` as it goes.
pub open spec fn changed_pairs(m: Map<Seq<char>, Seq<u8>>, l: Seq<(Seq<char>, Seq<u8>)>) -> Seq<(Seq<char>, Seq<u8>)>
    decreases l.len(),
{
    if l.len() == 0 {
        Seq::empty()
    } else {
        let p = l[0];
        let rest = changed_pairs(m.insert(p.0, p.1), l.drop_first());
        if m.contains_key(p.0) && m[p.0] == p.1 {
            rest
        } else {
            seq![p] + rest
        }
    }
}

/// No tag occurs twice in `l`.
pub open spec fn tags_unique(l: Seq<(String, Vec<u8>)>) -> bool {
    forall|i: int, j: int| 0 <= i < j < l.len() ==> #[trigger] l[i].0@ != #[trigger] l[j].0@
}

/// Whether tag `k` occurs in `l`.
pub open spec fn has_tag(l: Seq<(String, Vec<u8>)>, k: Seq<char>) -> bool {
    exists|i: int| 0 <= i < l.len() && #[trigger] l[i].0@ == k
}

/// The tag → bytes map of a list whose tags are unique.
pub open spec fn tag_map(l: Seq<(String, Vec<u8>)>) -> Map<Seq<char>, Seq<u8>> {
    Map::new(|k: Seq<char>| has_tag(l, k), |k: Seq<char>| l[choose|i: int| 0 <= i < l.len() && #[trigger] l[i].0@ == k].1@)
}

/// The value `tag_map` gives a tag found at `i`.
proof fn lemma_tag_map_at(l: Seq<(String, Vec<u8>)>, i: int)
    requires
        tags_unique(l),
        0 <= i < l.len(),
    ensures
        tag_map(l).contains_key(l[i].0@),
        tag_map(l)[l[i].0@] == l[i].1@,
{
    let k = l[i].0@;
    assert(has_tag(l, k));
    let j = choose|j: int| 0 <= j < l.len() && #[trigger] l[j].0@ == k;
    if j != i {
        if j < i {
            assert(l[j].0@ != l[i].0@);
        } else {
            assert(l[i].0@ != l[j].0@);
        }
    }
}

/// The bytes stored for `tag`, if any.
fn lookup_tag(l: &Vec<(String, Vec<u8>)>, tag: &String) -> (r: Option<usize>)
    requires
        tags_unique(l@),
    ensures
        match r {
            Some(i) => i < l@.len() && l@[i as int].0@ == tag@ && tag_map(l@).contains_key(tag@) && tag_map(l@)[tag@]
                == l@[i as int].1@,
            None => !tag_map(l@).contains_key(tag@),
        },
{
    let mut i: usize = 0;
    while i < l.len()
        invariant
            i <= l@.len(),
            tags_unique(l@),
            forall|j: int| 0 <= j < i ==> #[trigger] l@[j].0@ != tag@,
        decreases l@.len() - i,
    {
        if l[i].0 == *tag {
            proof {
                lemma_tag_map_at(l@, i as int);
            }
            return Some(i);
        }
        i = i + 1;
    }
    None
}

/// Stores `bytes` under `tag`: replaces the bytes of a tag already present,
/// else appends the pair.
fn upsert_tag(l: &mut Vec<(String, Vec<u8>)>, tag: &String, bytes: &Vec<u8>)
    requires
        tags_unique(old(l)@),
    ensures
        tags_unique(final(l)@),
        tag_map(final(l)@) == tag_map(old(l)@).insert(tag@, bytes@),
{
    let ghost l0 = l@;
    let found = lookup_tag(l, tag);
    let t = tag.clone();
    let b = bytes.clone();
    match found {
        Some(i) => {
            l.set(i, (t, b));
            proof {
                let l1 = l@;
                assert(l1 == l0.update(i as int, (t, b)));
                assert forall|x: int, y: int| 0 <= x < y < l1.len() implies #[trigger] l1[x].0@ != #[trigger] l1[y].0@ by {
                    assert(l0[x].0@ != l0[y].0@);
                }
                assert forall|k: Seq<char>| #[trigger] tag_map(l1).contains_key(k) == tag_map(l0).insert(tag@, bytes@).contains_key(k) by {
                    if has_tag(l1, k) {
                        let j = choose|j: int| 0 <= j < l1.len() && #[trigger] l1[j].0@ == k;
                        if j != i {
                            assert(l0[j].0@ == k);
                        }
                    }
                    if has_tag(l0, k) {
                        let j = choose|j: int| 0 <= j < l0.len() && #[trigger] l0[j].0@ == k;
                        assert(l1[j].0@ == k);
                    }
                }
                assert forall|k: Seq<char>| #[trigger] tag_map(l1).contains_key(k) implies tag_map(l1)[k] == tag_map(l0).insert(tag@, bytes@)[k] by {
                    let j = choose|j: int| 0 <= j < l1.len() && #[trigger] l1[j].0@ == k;
                    lemma_tag_map_at(l1, j);
                    if j != i {
                        assert(l1[j] == l0[j]);
                        lemma_tag_map_at(l0, j);
                    }
                }
                assert(tag_map(l1) =~= tag_map(l0).insert(tag@, bytes@));
            }
        },
        None => {
            l.push((t, b));
            proof {
                let l1 = l@;
                assert(l1 == l0.push((t, b)));
                assert(!has_tag(l0, tag@));
                assert forall|x: int, y: int| 0 <= x < y < l1.len() implies #[trigger] l1[x].0@ != #[trigger] l1[y].0@ by {
                    if y == l0.len() {
                        assert(l1[x] == l0[x]);
                    } else {
                        assert(l0[x].0@ != l0[y].0@);
                    }
                }
                assert forall|k: Seq<char>| #[trigger] tag_map(l1).contains_key(k) == tag_map(l0).insert(tag@, bytes@).contains_key(k) by {
                    if has_tag(l1, k) {
                        let j = choose|j: int| 0 <= j < l1.len() && #[trigger] l1[j].0@ == k;
                        if j < l0.len() {
                            assert(l0[j].0@ == k);
                        }
                    }
                    if has_tag(l0, k) {
                        let j = choose|j: int| 0 <= j < l0.len() && #[trigger] l0[j].0@ == k;
                        assert(l1[j].0@ == k);
                    }
                    if k == tag@ {
                        assert(l1[l0.len() as int].0@ == k);
                    }
                }
                assert forall|k: Seq<char>| #[trigger] tag_map(l1).contains_key(k) implies tag_map(l1)[k] == tag_map(l0).insert(tag@, bytes@)[k] by {
                    let j = choose|j: int| 0 <= j < l1.len() && #[trigger] l1[j].0@ == k;
                    lemma_tag_map_at(l1, j);
                    if j < l0.len() {
                        assert(l1[j] == l0[j]);
                        lemma_tag_map_at(l0, j);
                    }
                }
                assert(tag_map(l1) =~= tag_map(l0).insert(tag@, bytes@));
            }
        },
    }
}

/// Whether two byte strings are equal.
fn bytes_equal(a: &Vec<u8>, b: &Vec<u8>) -> (r: bool)
    ensures
        r == (a@ == b@),
{
    if a.len() != b.len() {
        return false;
    }
    let mut i: usize = 0;
    while i < a.len()
        invariant
            i <= a@.len(),
            a@.len() == b@.len(),
            forall|j: int| 0 <= j < i ==> a@[j] == b@[j],
        decreases a@.len() - i,
    {
        if a[i] != b[i] {
            return false;
        }
        i = i + 1;
    }
    assert(a@ =~= b@);
    true
}

/// Compares the components `comps` of an entity with what its shadow list
/// holds, pair by pair: a pair whose tag is missing or whose bytes differ is
/// listed as changed and stored in the shadow.
fn diff_components(shadow: &mut Vec<(String, Vec<u8>)>, comps: &Vec<(String, Vec<u8>)>) -> (changed: Vec<
    (String, Vec<u8>),
>)
    requires
        tags_unique(old(shadow)@),
    ensures
        tags_unique(final(shadow)@),
        tag_map(final(shadow)@) == store_all(tag_map(old(shadow)@), comp_seq(comps@)),
        comp_seq(changed@) == changed_pairs(tag_map(old(shadow)@), comp_seq(comps@)),
{
    let ghost m0 = tag_map(shadow@);
    let ghost s = comp_seq(comps@);
    let mut changed: Vec<(String, Vec<u8>)> = Vec::new();
    let mut i: usize = 0;
    proof {
        assert(s.skip(0) =~= s);
        assert(comp_seq(changed@) + changed_pairs(m0, s) =~= changed_pairs(m0, s));
    }
    while i < comps.len()
        invariant
            i <= comps@.len(),
            s == comp_seq(comps@),
            tags_unique(shadow@),
            store_all(tag_map(shadow@), s.skip(i as int)) == store_all(m0, s),
            comp_seq(changed@) + changed_pairs(tag_map(shadow@), s.skip(i as int)) == changed_pairs(m0, s),
        decreases comps@.len() - i,
    {
        let ghost m = tag_map(shadow@);
        let ghost c = changed@;
        let (tag, bytes) = &comps[i];
        proof {
            assert(s.skip(i as int)[0] == (tag@, bytes@));
            assert(s.skip(i as int).drop_first() =~= s.skip(i + 1));
        }
        let is_changed = match lookup_tag(shadow, tag) {
            Some(j) => !bytes_equal(&shadow[j].1, bytes),
            None => true,
        };
        proof {
            assert(is_changed == !(m.contains_key(tag@) && m[tag@] == bytes@));
        }
        if is_changed {
            changed.push((tag.clone(), bytes.clone()));
            upsert_tag(shadow, tag, bytes);
            proof {
                assert(comp_seq(changed@) =~= comp_seq(c).push((tag@, bytes@)));
                assert(comp_seq(changed@) + changed_pairs(tag_map(shadow@), s.skip(i + 1)) =~= comp_seq(c) + (seq![(tag@, bytes@)]
                    + changed_pairs(m.insert(tag@, bytes@), s.skip(i + 1))));
            }
        } else {
            proof {
                assert(m.insert(tag@, bytes@) =~= m);
            }
        }
        i = i + 1;
    }
    proof {
        assert(s.skip(comps@.len() as int) =~= Seq::<(Seq<char>, Seq<u8>)>::empty());
        assert(comp_seq(changed@) + Seq::<(Seq<char>, Seq<u8>)>::empty() =~= comp_seq(changed@));
    }
    changed
}

/// A copy of a byte string.
fn copy_bytes(b: &Vec<u8>) -> (r: Vec<u8>)
    ensures
        r@ == b@,
{
    let mut r: Vec<u8> = Vec::new();
    let mut i: usize = 0;
    while i < b.len()
        invariant
            i <= b@.len(),
            r@ == b@.take(i as int),
        decreases b@.len() - i,
    {
        r.push(b[i]);
        i = i + 1;
        assert(r@ =~= b@.take(i as int));
    }
    assert(b@.take(b@.len() as int) =~= b@);
    r
}

/// A copy of a component list.
fn copy_comps(l: &Vec<(String, Vec<u8>)>) -> (r: Vec<(String, Vec<u8>)>)
    ensures
        comp_seq(r@) == comp_seq(l@),
{
    let mut r: Vec<(String, Vec<u8>)> = Vec::new();
    let mut i: usize = 0;
    while i < l.len()
        invariant
            i <= l@.len(),
            comp_seq(r@) == comp_seq(l@).take(i as int),
        decreases l@.len() - i,
    {
        let (t, b) = &l[i];
        let ghost r0 = r@;
        let tc = t.clone();
        let bc = copy_bytes(b);
        r.push((tc, bc));
        proof {
            assert(r@ == r0.push((tc, bc)));
            assert(comp_seq(r@) =~= comp_seq(r0).push((tc@, bc@)));
            assert(comp_seq(l@)[i as int] == (t@, b@));
            assert(comp_seq(l@).take(i + 1) =~= comp_seq(l@).take(i as int).push((t@, b@)));
        }
        i = i + 1;
    }
    assert(comp_seq(l@).take(l@.len() as int) =~= comp_seq(l@));
    r
}

/// The keys of a map, each once.
fn keys_of<V>(m: &HashMap<u64, V>) -> (r: Vec<u64>)
    ensures
        r@.to_set() == m@.dom(),
        r@.no_duplicates(),
{
    let mut r: Vec<u64> = Vec::new();
    for k in it: m.keys()
        invariant
            it.seq().unref().to_set() == m@.dom(),
            it.seq().unref().no_duplicates(),
            r@ == it.seq().take(it.index() as int).unref(),
            it.index() == it.seq().len() ==> it.seq().take(it.index() as int) == it.seq(),
    {
        r.push(*k);
        proof {
            assert(it.seq().take(it.index() + 1) =~= it.seq().take(it.index() as int).push(k));
            assert(r@ =~= it.seq().take(it.index() + 1).unref());
        }
    }
    r
}

/// Update message: the components of a known entity that changed since
/// the client last heard of them.
#[derive(Debug, Clone)]
pub struct EntityUpdate {
    /// The entity's network identifier.
    pub network_id: NetworkId,
    /// Server tick at which the update was produced.
    pub tick: u64,
    /// Only the components that changed since the client's last update.
    pub changed_components: Vec<(String, Vec<u8>)>,
}

/// Spawn message: all components of an entity the client did not know.
#[derive(Debug, Clone)]
pub struct SpawnEntity {
    /// The entity's network identifier.
    pub network_id: NetworkId,
    /// All replicated components.
    pub components: Vec<(String, Vec<u8>)>,
}

/// Despawn message: the entity is gone or out of the client's interest.
#[derive(Debug, Clone, Copy, PartialEq, Eq, Structural)]
pub struct DespawnEntity {
    /// The entity's network identifier.
    pub network_id: NetworkId,
}

/// What one replication tick sends one client.
#[derive(Debug, Clone)]
pub struct ReplicationMessages {
    /// New entities the client should spawn.
    pub spawns: Vec<SpawnEntity>,
    /// Component updates of entities the client already knows.
    pub updates: Vec<EntityUpdate>,
    /// Entities the client should remove.
    pub despawns: Vec<DespawnEntity>,
}

impl Default for ReplicationMessages {
    fn default() -> (r: Self)
        ensures
            r.spawns@.len() == 0,
            r.updates@.len() == 0,
            r.despawns@.len() == 0,
    {
        ReplicationMessages { spawns: Vec::new(), updates: Vec::new(), despawns: Vec::new() }
    }
}

/// What a shadow knows: per entity, its tag → bytes map.
pub open spec fn shadow_view(e: Map<u64, Vec<(String, Vec<u8>)>>) -> Map<u64, Map<Seq<char>, Seq<u8>>> {
    Map::new(|id: u64| e.contains_key(id), |id: u64| tag_map(e[id]@))
}

/// No entity of a shadow lists a tag twice.
pub open spec fn shadow_ok(e: Map<u64, Vec<(String, Vec<u8>)>>) -> bool {
    forall|id: u64| #[trigger] e.contains_key(id) ==> tags_unique(e[id]@)
}

/// The current entities as component sequences.
pub open spec fn cur_view(c: Map<u64, Vec<(String, Vec<u8>)>>) -> Map<u64, Seq<(Seq<char>, Seq<u8>)>> {
    Map::new(|id: u64| c.contains_key(id), |id: u64| comp_seq(c[id]@))
}

/// The network ids of despawn messages.
pub open spec fn despawn_ids(d: Seq<DespawnEntity>) -> Seq<u64> {
    d.map_values(|x: DespawnEntity| x.network_id.0)
}

/// The network ids of spawn messages.
pub open spec fn spawn_ids(d: Seq<SpawnEntity>) -> Seq<u64> {
    d.map_values(|x: SpawnEntity| x.network_id.0)
}

/// The network ids of update messages.
pub open spec fn update_ids(d: Seq<EntityUpdate>) -> Seq<u64> {
    d.map_values(|x: EntityUpdate| x.network_id.0)
}

/// Whether entity `id` has components whose bytes changed since the
/// shadow `s0` last recorded them, given the current entities `c`.
pub open spec fn has_changes(
    s0: Map<u64, Map<Seq<char>, Seq<u8>>>,
    c: Map<u64, Seq<(Seq<char>, Seq<u8>)>>,
    id: u64,
) -> bool {
    c.contains_key(id) && s0.contains_key(id) && changed_pairs(s0[id], c[id]).len() > 0
}

/// `m` is what one replication tick sends a client whose shadow was `s0`,
/// when the replicated entities are `c`: one despawn for each known entity
/// that is gone, one spawn with all components for each new entity, and
/// one update for each known entity whose components changed, listing the
/// changed ones; each entity at most once per kind. The order of the
/// messages is not fixed.
pub open spec fn messages_for(
    s0: Map<u64, Map<Seq<char>, Seq<u8>>>,
    c: Map<u64, Seq<(Seq<char>, Seq<u8>)>>,
    tick: u64,
    m: ReplicationMessages,
) -> bool {
    &&& despawn_ids(m.despawns@).no_duplicates()
    &&& despawn_ids(m.despawns@).to_set() == s0.dom().difference(c.dom())
    &&& spawn_ids(m.spawns@).no_duplicates()
    &&& spawn_ids(m.spawns@).to_set() == c.dom().difference(s0.dom())
    &&& forall|k: int|
        0 <= k < m.spawns@.len() ==> comp_seq(#[trigger] m.spawns@[k].components@) == c[m.spawns@[k].network_id.0]
    &&& update_ids(m.updates@).no_duplicates()
    &&& update_ids(m.updates@).to_set() == Set::new(|id: u64| has_changes(s0, c, id))
    &&& forall|k: int|
        0 <= k < m.updates@.len() ==> (#[trigger] m.updates@[k]).tick == tick && comp_seq(
            m.updates@[k].changed_components@,
        ) == changed_pairs(s0[m.updates@[k].network_id.0], c[m.updates@[k].network_id.0])
}

/// What a client's shadow holds after a replication tick: each current
/// entity, with its shadow components updated by the current ones.
pub open spec fn next_shadow(
    s0: Map<u64, Map<Seq<char>, Seq<u8>>>,
    c: Map<u64, Seq<(Seq<char>, Seq<u8>)>>,
) -> Map<u64, Map<Seq<char>, Seq<u8>>> {
    Map::new(
        |id: u64| c.contains_key(id),
        |id: u64|
            store_all(
                if s0.contains_key(id) {
                    s0[id]
                } else {
                    Map::empty()
                },
                c[id],
            ),
    )
}

/// Removes from a shadow the entities that are no longer current and lists
/// their despawns.
fn despawn_phase(
    entities: &mut HashMap<u64, Vec<(String, Vec<u8>)>>,
    cur: &HashMap<u64, Vec<(String, Vec<u8>)>>,
) -> (despawns: Vec<DespawnEntity>)
    requires
        shadow_ok(old(entities)@),
    ensures
        shadow_ok(final(entities)@),
        final(entities)@ == old(entities)@.restrict(old(entities)@.dom().intersect(cur@.dom())),
        despawn_ids(despawns@).no_duplicates(),
        despawn_ids(despawns@).to_set() == old(entities)@.dom().difference(cur@.dom()),
{
    let ghost e0 = entities@;
    let sids = keys_of(entities);
    let mut despawns: Vec<DespawnEntity> = Vec::new();
    let mut i: usize = 0;
    while i < sids.len()
        invariant
            i <= sids@.len(),
            sids@.to_set() == e0.dom(),
            sids@.no_duplicates(),
            shadow_ok(e0),
            forall|id: u64|
                #[trigger] entities@.contains_key(id) <==> (e0.contains_key(id) && (cur@.contains_key(id)
                    || !sids@.take(i as int).contains(id))),
            forall|id: u64| #[trigger] entities@.contains_key(id) ==> entities@[id] == e0[id],
            despawn_ids(despawns@).no_duplicates(),
            forall|id: u64|
                #[trigger] despawn_ids(despawns@).contains(id) <==> (sids@.take(i as int).contains(id)
                    && !cur@.contains_key(id)),
        decreases sids@.len() - i,
    {
        let id = sids[i];
        let ghost d0 = despawn_ids(despawns@);
        proof {
            assert(sids@.take(i + 1) =~= sids@.take(i as int).push(id));
            assert(!sids@.take(i as int).contains(id)) by {
                if sids@.take(i as int).contains(id) {
                    let j = choose|j: int| 0 <= j < i && #[trigger] sids@.take(i as int)[j] == id;
                    assert(sids@[j] == sids@[i as int]);
                }
            }
            assert(e0.contains_key(id)) by {
                assert(sids@.contains(id));
            }
        }
        proof {
            assert forall|x: u64| #[trigger] sids@.take(i + 1).contains(x) == (sids@.take(i as int).contains(x) || x == id) by {
                if sids@.take(i + 1).contains(x) {
                    let j = choose|j: int| 0 <= j < i + 1 && #[trigger] sids@.take(i + 1)[j] == x;
                    if j < i {
                        assert(sids@.take(i as int)[j] == x);
                    }
                }
                if sids@.take(i as int).contains(x) {
                    let j = choose|j: int| 0 <= j < i && #[trigger] sids@.take(i as int)[j] == x;
                    assert(sids@.take(i + 1)[j] == x);
                }
                if x == id {
                    assert(sids@.take(i + 1)[i as int] == x);
                }
            }
        }
        if !cur.contains_key(&id) {
            despawns.push(DespawnEntity { network_id: NetworkId(id) });
            entities.remove(&id);
            proof {
                assert(despawn_ids(despawns@) =~= d0.push(id));
                assert(!d0.contains(id));
                assert forall|x: u64| #[trigger] despawn_ids(despawns@).contains(x) == (d0.contains(x) || x == id) by {
                    if despawn_ids(despawns@).contains(x) {
                        let j = choose|j: int| 0 <= j < despawn_ids(despawns@).len() && #[trigger] despawn_ids(despawns@)[j] == x;
                        if j < d0.len() {
                            assert(d0[j] == x);
                        }
                    }
                    if d0.contains(x) {
                        let j = choose|j: int| 0 <= j < d0.len() && #[trigger] d0[j] == x;
                        assert(despawn_ids(despawns@)[j] == x);
                    }
                    if x == id {
                        assert(despawn_ids(despawns@)[d0.len() as int] == x);
                    }
                }
            }
        }
        i = i + 1;
    }
    proof {
        assert(sids@.take(sids@.len() as int) =~= sids@);
        assert(entities@ =~= e0.restrict(e0.dom().intersect(cur@.dom())));
        assert(despawn_ids(despawns@).to_set() =~= e0.dom().difference(cur@.dom()));
    }
    despawns
}

proof fn lemma_take_next_contains(s: Seq<u64>, i: int)
    requires
        0 <= i < s.len(),
    ensures
        forall|x: u64| #[trigger] s.take(i + 1).contains(x) == (s.take(i).contains(x) || x == s[i]),
{
    assert(s.take(i + 1) =~= s.take(i).push(s[i]));
    assert forall|x: u64| #[trigger] s.take(i + 1).contains(x) == (s.take(i).contains(x) || x == s[i]) by {
        if s.take(i + 1).contains(x) {
            let j = choose|j: int| 0 <= j < i + 1 && #[trigger] s.take(i + 1)[j] == x;
            if j < i {
                assert(s.take(i)[j] == x);
            }
        }
        if s.take(i).contains(x) {
            let j = choose|j: int| 0 <= j < i && #[trigger] s.take(i)[j] == x;
            assert(s.take(i + 1)[j] == x);
        }
        if x == s[i] {
            assert(s.take(i + 1)[i] == x);
        }
    }
}

proof fn lemma_push_contains(s: Seq<u64>, v: u64)
    ensures
        forall|x: u64| #[trigger] s.push(v).contains(x) == (s.contains(x) || x == v),
{
    assert forall|x: u64| #[trigger] s.push(v).contains(x) == (s.contains(x) || x == v) by {
        if s.push(v).contains(x) {
            let j = choose|j: int| 0 <= j < s.len() + 1 && #[trigger] s.push(v)[j] == x;
            if j < s.len() {
                assert(s[j] == x);
            }
        }
        if s.contains(x) {
            let j = choose|j: int| 0 <= j < s.len() && #[trigger] s[j] == x;
            assert(s.push(v)[j] == x);
        }
        if x == v {
            assert(s.push(v)[s.len() as int] == x);
        }
    }
}

proof fn lemma_push_no_dup(s: Seq<u64>, v: u64)
    requires
        s.no_duplicates(),
        !s.contains(v),
    ensures
        s.push(v).no_duplicates(),
{
    let t = s.push(v);
    assert forall|a: int, b: int| 0 <= a < t.len() && 0 <= b < t.len() && a != b implies t[a] != t[b] by {
        if a == s.len() {
            assert(t[b] == s[b]);
        } else if b == s.len() {
            assert(t[a] == s[a]);
        } else {
            assert(t[a] == s[a] && t[b] == s[b]);
        }
    }
}

proof fn lemma_tag_map_empty()
    ensures
        tag_map(Seq::<(String, Vec<u8>)>::empty()) == Map::<Seq<char>, Seq<u8>>::empty(),
{
    assert(tag_map(Seq::<(String, Vec<u8>)>::empty()) =~= Map::<Seq<char>, Seq<u8>>::empty());
}

/// Spawns the current entities the shadow does not hold and updates those
/// it holds, in the order of `cur_ids`.
fn update_phase(
    entities: &mut HashMap<u64, Vec<(String, Vec<u8>)>>,
    cur: &HashMap<u64, Vec<(String, Vec<u8>)>>,
    cur_ids: &Vec<u64>,
    tick: u64,
    Ghost(s0): Ghost<Map<u64, Map<Seq<char>, Seq<u8>>>>,
) -> (r: (Vec<SpawnEntity>, Vec<EntityUpdate>))
    requires
        shadow_ok(old(entities)@),
        cur_ids@.to_set() == cur@.dom(),
        cur_ids@.no_duplicates(),
        old(entities)@.dom() == s0.dom().intersect(cur@.dom()),
        forall|id: u64| #[trigger] old(entities)@.contains_key(id) ==> tag_map(old(entities)@[id]@) == s0[id],
    ensures
        shadow_ok(final(entities)@),
        shadow_view(final(entities)@) == next_shadow(s0, cur_view(cur@)),
        spawn_ids(r.0@).no_duplicates(),
        spawn_ids(r.0@).to_set() == cur_view(cur@).dom().difference(s0.dom()),
        forall|k: int|
            0 <= k < r.0@.len() ==> comp_seq(#[trigger] r.0@[k].components@) == cur_view(cur@)[r.0@[k].network_id.0],
        update_ids(r.1@).no_duplicates(),
        update_ids(r.1@).to_set() == Set::new(|id: u64| has_changes(s0, cur_view(cur@), id)),
        forall|k: int|
            0 <= k < r.1@.len() ==> (#[trigger] r.1@[k]).tick == tick && comp_seq(r.1@[k].changed_components@)
                == changed_pairs(s0[r.1@[k].network_id.0], cur_view(cur@)[r.1@[k].network_id.0]),
{
    let ghost c = cur_view(cur@);
    let ghost ns = next_shadow(s0, c);
    let mut spawns: Vec<SpawnEntity> = Vec::new();
    let mut updates: Vec<EntityUpdate> = Vec::new();
    let mut j: usize = 0;
    while j < cur_ids.len()
        invariant
            j <= cur_ids@.len(),
            c == cur_view(cur@),
            ns == next_shadow(s0, c),
            cur_ids@.to_set() == cur@.dom(),
            cur_ids@.no_duplicates(),
            shadow_ok(entities@),
            forall|id: u64|
                #[trigger] entities@.contains_key(id) <==> (cur@.contains_key(id) && (s0.contains_key(id)
                    || cur_ids@.take(j as int).contains(id))),
            forall|id: u64|
                #[trigger] entities@.contains_key(id) && cur_ids@.take(j as int).contains(id) ==> tag_map(
                    entities@[id]@,
                ) == ns[id],
            forall|id: u64|
                #[trigger] entities@.contains_key(id) && !cur_ids@.take(j as int).contains(id) ==> tag_map(
                    entities@[id]@,
                ) == s0[id],
            spawn_ids(spawns@).no_duplicates(),
            forall|id: u64|
                #[trigger] spawn_ids(spawns@).contains(id) <==> (cur_ids@.take(j as int).contains(id)
                    && !s0.contains_key(id)),
            forall|k: int|
                0 <= k < spawns@.len() ==> comp_seq(#[trigger] spawns@[k].components@) == c[spawns@[k].network_id.0],
            update_ids(updates@).no_duplicates(),
            forall|id: u64|
                #[trigger] update_ids(updates@).contains(id) <==> (cur_ids@.take(j as int).contains(id)
                    && has_changes(s0, c, id)),
            forall|k: int|
                0 <= k < updates@.len() ==> (#[trigger] updates@[k]).tick == tick && comp_seq(
                    updates@[k].changed_components@,
                ) == changed_pairs(s0[updates@[k].network_id.0], c[updates@[k].network_id.0]),
        decreases cur_ids@.len() - j,
    {
        let id = cur_ids[j];
        let ghost e_before = entities@;
        let ghost sp0 = spawns@;
        let ghost up0 = updates@;
        proof {
            lemma_take_next_contains(cur_ids@, j as int);
            assert(!cur_ids@.take(j as int).contains(id)) by {
                if cur_ids@.take(j as int).contains(id) {
                    let k = choose|k: int| 0 <= k < j && #[trigger] cur_ids@.take(j as int)[k] == id;
                    assert(cur_ids@[k] == cur_ids@[j as int]);
                }
            }
            assert(cur@.contains_key(id)) by {
                assert(cur_ids@.contains(id));
            }
        }
        let comps = cur.get(&id).unwrap();
        if entities.contains_key(&id) {
            let mut list = entities.remove(&id).unwrap();
            proof {
                assert(s0.contains_key(id));
                assert(tag_map(list@) == s0[id]);
            }
            let changed = diff_components(&mut list, comps);
            entities.insert(id, list);
            if changed.len() > 0 {
                updates.push(EntityUpdate { network_id: NetworkId(id), tick, changed_components: changed });
                proof {
                    assert(update_ids(updates@) =~= update_ids(up0).push(id));
                    lemma_push_contains(update_ids(up0), id);
                    lemma_push_no_dup(update_ids(up0), id);
                    assert(has_changes(s0, c, id));
                }
            } else {
                proof {
                    assert(!has_changes(s0, c, id));
                }
            }
            proof {
                assert(tag_map(entities@[id]@) == ns[id]);
                assert forall|x: u64| #[trigger] entities@.contains_key(x) && x != id implies entities@[x] == e_before[x] by {
                }
            }
        } else {
            proof {
                assert(!s0.contains_key(id));
            }
            let comp_copy = copy_comps(comps);
            spawns.push(SpawnEntity { network_id: NetworkId(id), components: comp_copy });
            let mut list: Vec<(String, Vec<u8>)> = Vec::new();
            proof {
                lemma_tag_map_empty();
            }
            let _ = diff_components(&mut list, comps);
            entities.insert(id, list);
            proof {
                assert(spawn_ids(spawns@) =~= spawn_ids(sp0).push(id));
                lemma_push_contains(spawn_ids(sp0), id);
                lemma_push_no_dup(spawn_ids(sp0), id);
                assert(tag_map(entities@[id]@) == ns[id]);
            }
        }
        j = j + 1;
    }
    proof {
        assert(cur_ids@.take(cur_ids@.len() as int) =~= cur_ids@);
        assert forall|id: u64| #[trigger] cur_ids@.contains(id) == cur@.contains_key(id) by {
            assert(cur_ids@.to_set().contains(id) == cur_ids@.contains(id));
        }
        assert(shadow_view(entities@) =~= ns);
        assert(spawn_ids(spawns@).to_set() =~= c.dom().difference(s0.dom()));
        assert(update_ids(updates@).to_set() =~= Set::new(|id: u64| has_changes(s0, c, id)));
    }
    (spawns, updates)
}

/// One replication tick for one client: despawns, spawns and updates
/// against the current entities `cur`, whose ids `cur_ids` lists once each.
fn replicate_client(
    shadow: &mut ClientShadow,
    cur: &HashMap<u64, Vec<(String, Vec<u8>)>>,
    cur_ids: &Vec<u64>,
    tick: u64,
) -> (r: ReplicationMessages)
    requires
        shadow_ok(old(shadow).entities@),
        cur_ids@.to_set() == cur@.dom(),
        cur_ids@.no_duplicates(),
    ensures
        shadow_ok(final(shadow).entities@),
        shadow_view(final(shadow).entities@) == next_shadow(shadow_view(old(shadow).entities@), cur_view(cur@)),
        messages_for(shadow_view(old(shadow).entities@), cur_view(cur@), tick, r),
{
    let ghost s0 = shadow_view(shadow.entities@);
    let ghost e0 = shadow.entities@;
    let despawns = despawn_phase(&mut shadow.entities, cur);
    proof {
        assert(shadow.entities@.dom() =~= s0.dom().intersect(cur@.dom()));
        assert forall|id: u64| #[trigger] shadow.entities@.contains_key(id) implies tag_map(shadow.entities@[id]@)
            == s0[id] by {
            assert(shadow.entities@[id] == e0[id]);
        }
    }
    let (spawns, updates) = update_phase(&mut shadow.entities, cur, cur_ids, tick, Ghost(s0));
    proof {
        assert(s0.dom() =~= e0.dom());
        assert(cur_view(cur@).dom() =~= cur@.dom());
    }
    ReplicationMessages { spawns, updates, despawns }
}

/// The current entities, by id, from a list in which a later entry for an
/// id replaces an earlier one.
pub open spec fn current_map(e: Seq<(u64, Vec<(String, Vec<u8>)>)>) -> Map<u64, Seq<(Seq<char>, Seq<u8>)>>
    decreases e.len(),
{
    if e.len() == 0 {
        Map::empty()
    } else {
        current_map(e.drop_last()).insert(e.last().0, comp_seq(e.last().1@))
    }
}

impl ReplicationServerSystem {
    /// Runs one replication tick over the replicated entities `entities`,
    /// each a network id with its serialized components (a later entry for
    /// an id replaces an earlier one), and returns what each registered
    /// client must be sent: see [`messages_for`]. Each client's shadow then
    /// holds the current entities (see [`next_shadow`]).
    pub fn replicate(&mut self, entities: &Vec<(u64, Vec<(String, Vec<u8>)>)>, tick: u64) -> (r: HashMap<
        u64,
        ReplicationMessages,
    >)
        requires
            old(self).wf(),
        ensures
            final(self).wf(),
            final(self).next_id() == old(self).next_id(),
            final(self).clients() == old(self).clients(),
            r@.dom() == old(self).clients(),
            forall|c: u64|
                #[trigger] old(self).clients().contains(c) ==> messages_for(
                    old(self).shadow_of(c),
                    current_map(entities@),
                    tick,
                    r@[c],
                ) && final(self).shadow_of(c) == next_shadow(old(self).shadow_of(c), current_map(entities@)),
    {
        let mut cur: HashMap<u64, Vec<(String, Vec<u8>)>> = HashMap::new();
        let mut i: usize = 0;
        while i < entities.len()
            invariant
                i <= entities@.len(),
                cur_view(cur@) == current_map(entities@.take(i as int)),
            decreases entities@.len() - i,
        {
            let (id, comps) = &entities[i];
            let copy = copy_comps(comps);
            let ghost before = cur@;
            cur.insert(*id, copy);
            proof {
                assert(entities@.take(i + 1).drop_last() =~= entities@.take(i as int));
                assert(entities@.take(i + 1).last() == entities@[i as int]);
                assert(cur_view(cur@) =~= cur_view(before).insert(*id, comp_seq(comps@)));
            }
            i = i + 1;
        }
        proof {
            assert(entities@.take(entities@.len() as int) =~= entities@);
        }
        let ghost c = current_map(entities@);
        let ghost old_self_shadows = self.shadows@;
        let cur_ids = keys_of(&cur);
        let client_ids = keys_of(&self.shadows);
        let mut result: HashMap<u64, ReplicationMessages> = HashMap::new();
        let mut k: usize = 0;
        while k < client_ids.len()
            invariant
                k <= client_ids@.len(),
                client_ids@.to_set() == old_self_shadows.dom(),
                client_ids@.no_duplicates(),
                cur_ids@.to_set() == cur@.dom(),
                cur_ids@.no_duplicates(),
                cur_view(cur@) == c,
                self.shadows@.dom() == old_self_shadows.dom(),
                self.next_network_id == old(self).next_network_id,
                old_self_shadows == old(self).shadows@,
                forall|cl: u64| #[trigger] old_self_shadows.contains_key(cl) ==> shadow_ok(old_self_shadows[cl].entities@),
                forall|cl: u64| #[trigger] self.shadows@.contains_key(cl) ==> shadow_ok(self.shadows@[cl].entities@),
                forall|cl: u64| #[trigger] result@.contains_key(cl) <==> client_ids@.take(k as int).contains(cl),
                forall|cl: u64|
                    #[trigger] self.shadows@.contains_key(cl) && !client_ids@.take(k as int).contains(cl) ==> self.shadows@[cl]
                        == old_self_shadows[cl],
                forall|cl: u64|
                    #[trigger] client_ids@.take(k as int).contains(cl) ==> messages_for(
                        shadow_view(old_self_shadows[cl].entities@),
                        c,
                        tick,
                        result@[cl],
                    ) && shadow_view(self.shadows@[cl].entities@) == next_shadow(
                        shadow_view(old_self_shadows[cl].entities@),
                        c,
                    ),
            decreases client_ids@.len() - k,
        {
            let cid = client_ids[k];
            proof {
                lemma_take_next_contains(client_ids@, k as int);
                assert(!client_ids@.take(k as int).contains(cid)) by {
                    if client_ids@.take(k as int).contains(cid) {
                        let x = choose|x: int| 0 <= x < k && #[trigger] client_ids@.take(k as int)[x] == cid;
                        assert(client_ids@[x] == client_ids@[k as int]);
                    }
                }
                assert(old_self_shadows.contains_key(cid)) by {
                    assert(client_ids@.contains(cid));
                }
            }
            let mut sh = self.shadows.remove(&cid).unwrap();
            let msgs = replicate_client(&mut sh, &cur, &cur_ids, tick);
            self.shadows.insert(cid, sh);
            result.insert(cid, msgs);
            k = k + 1;
        }
        proof {
            assert(client_ids@.take(client_ids@.len() as int) =~= client_ids@);
            assert forall|cl: u64| #[trigger] client_ids@.contains(cl) == old_self_shadows.contains_key(cl) by {
                assert(client_ids@.to_set().contains(cl) == client_ids@.contains(cl));
            }
            assert(result@.dom() =~= old(self).clients());
        }
        result
    }
}

/// A client's view after spawning the entities of `s`, in order: each
/// spawned entity holds exactly the components of its spawn message (a later
/// spawn of the same id replaces an earlier one).
pub open spec fn apply_spawns(v: Map<u64, Map<Seq<char>, Seq<u8>>>, s: Seq<SpawnEntity>) -> Map<
    u64,
    Map<Seq<char>, Seq<u8>>,
>
    decreases s.len(),
{
    if s.len() == 0 {
        v
    } else {
        apply_spawns(v, s.drop_last()).insert(
            s.last().network_id.0,
            store_all(Map::empty(), comp_seq(s.last().components@)),
        )
    }
}

/// A client's view after the updates `u`, in order: the changed components
/// of a known entity are stored over its old ones; an update of an unknown
/// entity is ignored.
pub open spec fn apply_updates(v: Map<u64, Map<Seq<char>, Seq<u8>>>, u: Seq<EntityUpdate>) -> Map<
    u64,
    Map<Seq<char>, Seq<u8>>,
>
    decreases u.len(),
{
    if u.len() == 0 {
        v
    } else {
        let w = apply_updates(v, u.drop_last());
        let id = u.last().network_id.0;
        if w.contains_key(id) {
            w.insert(id, store_all(w[id], comp_seq(u.last().changed_components@)))
        } else {
            w
        }
    }
}

/// A client's view after the despawns `d`: those entities are gone.
pub open spec fn apply_despawns(v: Map<u64, Map<Seq<char>, Seq<u8>>>, d: Seq<DespawnEntity>) -> Map<
    u64,
    Map<Seq<char>, Seq<u8>>,
>
    decreases d.len(),
{
    if d.len() == 0 {
        v
    } else {
        apply_despawns(v, d.drop_last()).remove(d.last().network_id.0)
    }
}

/// A client's view after applying one batch of messages: spawns, then
/// updates, then despawns.
pub open spec fn applied(v: Map<u64, Map<Seq<char>, Seq<u8>>>, m: ReplicationMessages) -> Map<
    u64,
    Map<Seq<char>, Seq<u8>>,
> {
    apply_despawns(apply_updates(apply_spawns(v, m.spawns@), m.updates@), m.despawns@)
}

/// Client-side replication system: applies [`ReplicationMessages`] from the
/// server. For each network id it knows, it holds the replicated components
/// of the local entity (tag and serialized bytes).
pub struct ReplicationClientSystem {
    net_to_local: HashMap<u64, Vec<(String, Vec<u8>)>>,
}

impl ReplicationClientSystem {
    /// What the client holds: per known network id, its tag → bytes map.
    pub closed spec fn known(&self) -> Map<u64, Map<Seq<char>, Seq<u8>>> {
        shadow_view(self.net_to_local@)
    }

    /// No local entity lists a component tag twice.
    pub closed spec fn wf(&self) -> bool {
        shadow_ok(self.net_to_local@)
    }

    /// A client that knows no entity.
    pub fn new() -> (r: Self)
        ensures
            r.wf(),
            r.known() == Map::<u64, Map<Seq<char>, Seq<u8>>>::empty(),
    {
        let r = ReplicationClientSystem { net_to_local: HashMap::new() };
        proof {
            assert(r.known() =~= Map::<u64, Map<Seq<char>, Seq<u8>>>::empty());
        }
        r
    }

    /// Applies a batch of replication messages: spawns, then updates, then
    /// despawns (see [`applied`]).
    pub fn apply(&mut self, msgs: &ReplicationMessages)
        requires
            old(self).wf(),
        ensures
            final(self).wf(),
            final(self).known() == applied(old(self).known(), *msgs),
    {
        let ghost v0 = self.known();
        let mut i: usize = 0;
        while i < msgs.spawns.len()
            invariant
                i <= msgs.spawns@.len(),
                self.wf(),
                self.known() == apply_spawns(v0, msgs.spawns@.take(i as int)),
            decreases msgs.spawns@.len() - i,
        {
            let spawn = &msgs.spawns[i];
            let mut comps: Vec<(String, Vec<u8>)> = Vec::new();
            proof {
                lemma_tag_map_empty();
            }
            let _ = diff_components(&mut comps, &spawn.components);
            let ghost before = self.net_to_local@;
            self.net_to_local.insert(spawn.network_id.0, comps);
            proof {
                assert(msgs.spawns@.take(i + 1).drop_last() =~= msgs.spawns@.take(i as int));
                assert(msgs.spawns@.take(i + 1).last() == msgs.spawns@[i as int]);
                assert(shadow_view(self.net_to_local@) =~= shadow_view(before).insert(
                    spawn.network_id.0,
                    tag_map(comps@),
                ));
            }
            i = i + 1;
        }
        proof {
            assert(msgs.spawns@.take(msgs.spawns@.len() as int) =~= msgs.spawns@);
        }
        let ghost v1 = self.known();
        let mut j: usize = 0;
        while j < msgs.updates.len()
            invariant
                j <= msgs.updates@.len(),
                self.wf(),
                self.known() == apply_updates(v1, msgs.updates@.take(j as int)),
            decreases msgs.updates@.len() - j,
        {
            let update = &msgs.updates[j];
            let id = update.network_id.0;
            proof {
                assert(msgs.updates@.take(j + 1).drop_last() =~= msgs.updates@.take(j as int));
                assert(msgs.updates@.take(j + 1).last() == msgs.updates@[j as int]);
            }
            if self.net_to_local.contains_key(&id) {
                let ghost before = self.net_to_local@;
                let mut comps = self.net_to_local.remove(&id).unwrap();
                let _ = diff_components(&mut comps, &update.changed_components);
                self.net_to_local.insert(id, comps);
                proof {
                    assert(shadow_view(self.net_to_local@) =~= shadow_view(before).insert(id, tag_map(comps@)));
                }
            }
            j = j + 1;
        }
        proof {
            assert(msgs.updates@.take(msgs.updates@.len() as int) =~= msgs.updates@);
        }
        let ghost v2 = self.known();
        let mut k: usize = 0;
        while k < msgs.despawns.len()
            invariant
                k <= msgs.despawns@.len(),
                self.wf(),
                self.known() == apply_despawns(v2, msgs.despawns@.take(k as int)),
            decreases msgs.despawns@.len() - k,
        {
            let id = msgs.despawns[k].network_id.0;
            let ghost before = self.net_to_local@;
            self.net_to_local.remove(&id);
            proof {
                assert(msgs.despawns@.take(k + 1).drop_last() =~= msgs.despawns@.take(k as int));
                assert(msgs.despawns@.take(k + 1).last() == msgs.despawns@[k as int]);
                assert(shadow_view(self.net_to_local@) =~= shadow_view(before).remove(id));
            }
            k = k + 1;
        }
        proof {
            assert(msgs.despawns@.take(msgs.despawns@.len() as int) =~= msgs.despawns@);
        }
    }

    /// The replicated components of the local entity for `network_id`, if
    /// the client knows it.
    pub fn local_entity(&self, network_id: NetworkId) -> (r: Option<&Vec<(String, Vec<u8>)>>)
        requires
            self.wf(),
        ensures
            r is Some <==> self.known().contains_key(network_id.0),
            r matches Some(l) ==> tags_unique(l@) && tag_map(l@) == self.known()[network_id.0],
    {
        self.net_to_local.get(&network_id.0)
    }
}

/// Storing only the pairs that changed stores the same as storing them all.
proof fn lemma_store_changed(m: Map<Seq<char>, Seq<u8>>, l: Seq<(Seq<char>, Seq<u8>)>)
    ensures
        store_all(m, changed_pairs(m, l)) == store_all(m, l),
    decreases l.len(),
{
    if l.len() > 0 {
        let p = l[0];
        let m1 = m.insert(p.0, p.1);
        lemma_store_changed(m1, l.drop_first());
        if m.contains_key(p.0) && m[p.0] == p.1 {
            assert(m1 =~= m);
        } else {
            let rest = changed_pairs(m1, l.drop_first());
            assert((seq![p] + rest)[0] == p);
            assert((seq![p] + rest).drop_first() =~= rest);
        }
    }
}

/// The entities a client holds after spawns with distinct ids.
proof fn lemma_apply_spawns(v: Map<u64, Map<Seq<char>, Seq<u8>>>, s: Seq<SpawnEntity>)
    requires
        spawn_ids(s).no_duplicates(),
    ensures
        forall|id: u64|
            #[trigger] apply_spawns(v, s).contains_key(id) <==> (v.contains_key(id) || spawn_ids(s).contains(id)),
        forall|k: int|
            0 <= k < s.len() ==> apply_spawns(v, s)[#[trigger] s[k].network_id.0] == store_all(
                Map::empty(),
                comp_seq(s[k].components@),
            ),
        forall|id: u64|
            v.contains_key(id) && !spawn_ids(s).contains(id) ==> #[trigger] apply_spawns(v, s)[id] == v[id],
    decreases s.len(),
{
    if s.len() > 0 {
        let p = s.drop_last();
        assert(spawn_ids(p) =~= spawn_ids(s).drop_last());
        let last = s.last().network_id.0;
        assert(spawn_ids(s)[s.len() - 1] == last);
        assert(!spawn_ids(p).contains(last)) by {
            if spawn_ids(p).contains(last) {
                let j = choose|j: int| 0 <= j < spawn_ids(p).len() && spawn_ids(p)[j] == last;
                assert(spawn_ids(s)[j] == spawn_ids(s)[s.len() - 1]);
            }
        }
        lemma_apply_spawns(v, p);
        assert forall|id: u64| spawn_ids(s).contains(id) <==> (spawn_ids(p).contains(id) || id == last) by {
            if spawn_ids(s).contains(id) {
                let j = choose|j: int| 0 <= j < spawn_ids(s).len() && spawn_ids(s)[j] == id;
                if j < s.len() - 1 {
                    assert(spawn_ids(p)[j] == id);
                }
            }
            if spawn_ids(p).contains(id) {
                let j = choose|j: int| 0 <= j < spawn_ids(p).len() && spawn_ids(p)[j] == id;
                assert(spawn_ids(s)[j] == id);
            }
        }
        let q = apply_spawns(v, p);
        let val = store_all(Map::empty(), comp_seq(s.last().components@));
        assert(apply_spawns(v, s) == q.insert(last, val));
        assert forall|id: u64|
            #[trigger] apply_spawns(v, s).contains_key(id) <==> (v.contains_key(id) || spawn_ids(s).contains(id)) by {
            assert(q.contains_key(id) <==> (v.contains_key(id) || spawn_ids(p).contains(id)));
        }
        assert forall|id: u64| v.contains_key(id) && !spawn_ids(s).contains(id) implies #[trigger] apply_spawns(v, s)[id]
            == v[id] by {
            assert(!spawn_ids(p).contains(id));
            assert(q[id] == v[id]);
        }
        assert forall|k: int| 0 <= k < s.len() implies apply_spawns(v, s)[#[trigger] s[k].network_id.0] == store_all(
            Map::empty(),
            comp_seq(s[k].components@),
        ) by {
            if k < s.len() - 1 {
                assert(p[k] == s[k]);
                assert(spawn_ids(s)[k] == s[k].network_id.0);
                assert(s[k].network_id.0 != last);
            }
        }
    }
}

/// The entities a client holds after updates with distinct ids.
proof fn lemma_apply_updates(v: Map<u64, Map<Seq<char>, Seq<u8>>>, u: Seq<EntityUpdate>)
    requires
        update_ids(u).no_duplicates(),
    ensures
        apply_updates(v, u).dom() == v.dom(),
        forall|k: int|
            0 <= k < u.len() && v.contains_key(u[k].network_id.0) ==> apply_updates(v, u)[#[trigger] u[k].network_id.0]
                == store_all(v[u[k].network_id.0], comp_seq(u[k].changed_components@)),
        forall|id: u64|
            v.contains_key(id) && !update_ids(u).contains(id) ==> #[trigger] apply_updates(v, u)[id] == v[id],
    decreases u.len(),
{
    if u.len() > 0 {
        let p = u.drop_last();
        assert(update_ids(p) =~= update_ids(u).drop_last());
        let last = u.last().network_id.0;
        assert(update_ids(u)[u.len() - 1] == last);
        assert(!update_ids(p).contains(last)) by {
            if update_ids(p).contains(last) {
                let j = choose|j: int| 0 <= j < update_ids(p).len() && update_ids(p)[j] == last;
                assert(update_ids(u)[j] == update_ids(u)[u.len() - 1]);
            }
        }
        lemma_apply_updates(v, p);
        let w = apply_updates(v, p);
        assert(apply_updates(v, u).dom() =~= v.dom());
        assert forall|id: u64| v.contains_key(id) && !update_ids(u).contains(id) implies #[trigger] apply_updates(v, u)[id]
            == v[id] by {
            assert(id != last);
            if update_ids(p).contains(id) {
                let j = choose|j: int| 0 <= j < update_ids(p).len() && update_ids(p)[j] == id;
                assert(update_ids(u)[j] == id);
            }
        }
        assert forall|k: int| 0 <= k < u.len() && v.contains_key(u[k].network_id.0) implies apply_updates(
            v,
            u,
        )[#[trigger] u[k].network_id.0] == store_all(v[u[k].network_id.0], comp_seq(u[k].changed_components@)) by {
            if k < u.len() - 1 {
                assert(p[k] == u[k]);
                assert(update_ids(u)[k] == u[k].network_id.0);
                assert(u[k].network_id.0 != last);
            } else {
                assert(update_ids(u).contains(last) && !update_ids(p).contains(last));
                assert(w[last] == v[last]);
            }
        }
    }
}

/// The entities a client holds after despawns.
proof fn lemma_apply_despawns(v: Map<u64, Map<Seq<char>, Seq<u8>>>, d: Seq<DespawnEntity>)
    ensures
        forall|id: u64|
            #[trigger] apply_despawns(v, d).contains_key(id) <==> (v.contains_key(id) && !despawn_ids(d).contains(id)),
        forall|id: u64| #[trigger] apply_despawns(v, d).contains_key(id) ==> apply_despawns(v, d)[id] == v[id],
    decreases d.len(),
{
    if d.len() > 0 {
        let p = d.drop_last();
        assert(despawn_ids(p) =~= despawn_ids(d).drop_last());
        let last = d.last().network_id.0;
        assert(despawn_ids(d)[d.len() - 1] == last);
        lemma_apply_despawns(v, p);
        let q = apply_despawns(v, p);
        assert(apply_despawns(v, d) == q.remove(last));
        assert forall|id: u64| despawn_ids(d).contains(id) <==> (despawn_ids(p).contains(id) || id == last) by {
            if despawn_ids(d).contains(id) {
                let j = choose|j: int| 0 <= j < despawn_ids(d).len() && despawn_ids(d)[j] == id;
                if j < d.len() - 1 {
                    assert(despawn_ids(p)[j] == id);
                }
            }
            if despawn_ids(p).contains(id) {
                let j = choose|j: int| 0 <= j < despawn_ids(p).len() && despawn_ids(p)[j] == id;
                assert(despawn_ids(d)[j] == id);
            }
        }
        assert forall|id: u64|
            #[trigger] apply_despawns(v, d).contains_key(id) <==> (v.contains_key(id) && !despawn_ids(d).contains(id)) by {
            assert(q.contains_key(id) <==> (v.contains_key(id) && !despawn_ids(p).contains(id)));
        }
        assert forall|id: u64| #[trigger] apply_despawns(v, d).contains_key(id) implies apply_despawns(v, d)[id] == v[id] by {
            assert(q.contains_key(id));
        }
    }
}

/// A client that holds what the server last sent it and applies the
/// messages of the next replication tick ends up holding exactly what the
/// server's shadow of it holds after that tick: every current entity, with
/// its current components stored over what it held, and no other entity.
pub proof fn lemma_client_catches_up(
    s0: Map<u64, Map<Seq<char>, Seq<u8>>>,
    c: Map<u64, Seq<(Seq<char>, Seq<u8>)>>,
    tick: u64,
    m: ReplicationMessages,
)
    requires
        messages_for(s0, c, tick, m),
    ensures
        applied(s0, m) == next_shadow(s0, c),
{
    let v1 = apply_spawns(s0, m.spawns@);
    let v2 = apply_updates(v1, m.updates@);
    let v3 = apply_despawns(v2, m.despawns@);
    let target = next_shadow(s0, c);
    lemma_apply_spawns(s0, m.spawns@);
    lemma_apply_updates(v1, m.updates@);
    lemma_apply_despawns(v2, m.despawns@);
    let sp = spawn_ids(m.spawns@);
    let up = update_ids(m.updates@);
    let de = despawn_ids(m.despawns@);
    assert forall|id: u64| sp.contains(id) <==> (c.contains_key(id) && !s0.contains_key(id)) by {
        assert(sp.to_set().contains(id) == sp.contains(id));
    }
    assert forall|id: u64| up.contains(id) <==> has_changes(s0, c, id) by {
        assert(up.to_set().contains(id) == up.contains(id));
    }
    assert forall|id: u64| de.contains(id) <==> (s0.contains_key(id) && !c.contains_key(id)) by {
        assert(de.to_set().contains(id) == de.contains(id));
    }
    assert forall|id: u64| #[trigger] v3.contains_key(id) == target.contains_key(id) by {}
    assert forall|id: u64| #[trigger] v3.contains_key(id) implies v3[id] == target[id] by {
        if s0.contains_key(id) {
            assert(v1[id] == s0[id]);
            if has_changes(s0, c, id) {
                assert(up.contains(id));
                let k = choose|k: int| 0 <= k < up.len() && up[k] == id;
                assert(m.updates@[k].network_id.0 == id);
                lemma_store_changed(s0[id], c[id]);
            } else {
                assert(changed_pairs(s0[id], c[id]) =~= Seq::<(Seq<char>, Seq<u8>)>::empty());
                lemma_store_changed(s0[id], c[id]);
            }
        } else {
            assert(sp.contains(id));
            let k = choose|k: int| 0 <= k < sp.len() && sp[k] == id;
            assert(m.spawns@[k].network_id.0 == id);
            assert(!up.contains(id));
        }
    }
    assert(v3 =~= target);
}

/// No tag occurs twice in the component sequence `l`.
pub open spec fn seq_tags_unique(l: Seq<(Seq<char>, Seq<u8>)>) -> bool {
    forall|i: int, j: int| 0 <= i < j < l.len() ==> #[trigger] l[i].0 != #[trigger] l[j].0
}

/// Storing pairs whose tags differ from `t` leaves what `m` holds for `t`.
proof fn lemma_store_all_other(m: Map<Seq<char>, Seq<u8>>, l: Seq<(Seq<char>, Seq<u8>)>, t: Seq<char>)
    requires
        forall|i: int| 0 <= i < l.len() ==> #[trigger] l[i].0 != t,
    ensures
        store_all(m, l).contains_key(t) == m.contains_key(t),
        m.contains_key(t) ==> store_all(m, l)[t] == m[t],
    decreases l.len(),
{
    if l.len() > 0 {
        assert forall|i: int| 0 <= i < l.drop_first().len() implies #[trigger] l.drop_first()[i].0 != t by {
            assert(l.drop_first()[i] == l[i + 1]);
        }
        lemma_store_all_other(m.insert(l[0].0, l[0].1), l.drop_first(), t);
    }
}

/// With each tag listed once, comparing a list with the map it was stored
/// into finds no change, and storing it again changes nothing.
proof fn lemma_store_all_settles(m: Map<Seq<char>, Seq<u8>>, l: Seq<(Seq<char>, Seq<u8>)>)
    requires
        seq_tags_unique(l),
    ensures
        changed_pairs(store_all(m, l), l).len() == 0,
        store_all(store_all(m, l), l) == store_all(m, l),
    decreases l.len(),
{
    if l.len() > 0 {
        let (t, b) = l[0];
        let rest = l.drop_first();
        let m1 = m.insert(t, b);
        let big = store_all(m, l);
        assert(big == store_all(m1, rest));
        assert forall|i: int| 0 <= i < rest.len() implies #[trigger] rest[i].0 != t by {
            assert(rest[i] == l[i + 1]);
            assert(l[0].0 != l[i + 1].0);
        }
        assert(seq_tags_unique(rest)) by {
            assert forall|i: int, j: int| 0 <= i < j < rest.len() implies #[trigger] rest[i].0 != #[trigger] rest[j].0 by {
                assert(rest[i] == l[i + 1] && rest[j] == l[j + 1]);
            }
        }
        lemma_store_all_other(m1, rest, t);
        assert(big.contains_key(t) && big[t] == b);
        assert(big.insert(t, b) =~= big);
        lemma_store_all_settles(m1, rest);
        assert(store_all(big, l) == store_all(big.insert(t, b), rest));
        assert(changed_pairs(big, l) == changed_pairs(big.insert(t, b), rest));
    }
}

/// Replicating twice over the same entities, each listing every component
/// tag once, sends nothing the second time and leaves the shadow as it was.
pub proof fn lemma_second_tick_sends_nothing(
    s0: Map<u64, Map<Seq<char>, Seq<u8>>>,
    c: Map<u64, Seq<(Seq<char>, Seq<u8>)>>,
    tick: u64,
    m: ReplicationMessages,
)
    requires
        forall|id: u64| #[trigger] c.contains_key(id) ==> seq_tags_unique(c[id]),
        messages_for(next_shadow(s0, c), c, tick, m),
    ensures
        m.spawns@.len() == 0,
        m.updates@.len() == 0,
        m.despawns@.len() == 0,
        next_shadow(next_shadow(s0, c), c) == next_shadow(s0, c),
{
    let s1 = next_shadow(s0, c);
    assert(s1.dom() =~= c.dom());
    assert forall|id: u64| c.contains_key(id) implies changed_pairs(s1[id], c[id]).len() == 0 && store_all(
        s1[id],
        c[id],
    ) == s1[id] by {
        let base = if s0.contains_key(id) {
            s0[id]
        } else {
            Map::empty()
        };
        lemma_store_all_settles(base, c[id]);
    }
    if m.despawns@.len() > 0 {
        assert(despawn_ids(m.despawns@).to_set().contains(despawn_ids(m.despawns@)[0]));
    }
    if m.spawns@.len() > 0 {
        assert(spawn_ids(m.spawns@).to_set().contains(spawn_ids(m.spawns@)[0]));
    }
    if m.updates@.len() > 0 {
        let id = update_ids(m.updates@)[0];
        assert(update_ids(m.updates@).to_set().contains(id));
        assert(has_changes(s1, c, id));
    }
    assert(next_shadow(s1, c) =~= s1);
}

} // verus!
