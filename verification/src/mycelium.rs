use vstd::prelude::*;
use std::collections::{HashMap, HashSet};
use vstd::std_specs::iter::IteratorSpec;
use crate::types::{TreeId, TreeInfo, TreeInfoView, RouteUpdate, RouteView, NodeStatus, FreedomLevel};
use crate::routing::{RoutingTable, spec_update_from_neighbor, spec_route_views};
use crate::crypto::CryptoModule;
use crate::ids::new_random_id;

verus! {

broadcast use vstd::std_specs::hash::group_hash_axioms;

/// Every route of the table has at least one hop.
pub open spec fn spec_paths_nonempty(table: Map<TreeId, RouteView>) -> bool {
    forall|t: TreeId| #[trigger] table.contains_key(t) ==> table[t].path.len() >= 1
}

/// Exchanges with neighbours keep every route non-empty.
pub proof fn lemma_update_keeps_paths_nonempty(
    table: Map<TreeId, RouteView>,
    local_id: TreeId,
    neighbor: TreeInfoView,
    routes: Seq<RouteView>,
)
    requires
        spec_paths_nonempty(table),
    ensures
        spec_paths_nonempty(spec_update_from_neighbor(table, local_id, neighbor, routes)),
{
    let after = spec_update_from_neighbor(table, local_id, neighbor, routes);
    crate::routing::lemma_update_next_hop_is_neighbor(table, local_id, neighbor, routes);
    crate::routing::lemma_update_targets(table, local_id, neighbor, routes);
    assert forall|t: TreeId| #[trigger] after.contains_key(t) implies after[t].path.len() >= 1 by {
        if !crate::routing::spec_changed(table, after, t) {
            assert(table.contains_key(t));
        }
    }
}

/// `list` holds the routes of `table` in the order of `keys`: each target
/// once, so that the list is a permutation of the table's values.
pub open spec fn spec_lists_routes_by(
    list: Seq<RouteView>,
    table: Map<TreeId, RouteView>,
    keys: Seq<TreeId>,
) -> bool {
    &&& keys.len() == list.len()
    &&& keys.no_duplicates()
    &&& keys.to_set() == table.dom()
    &&& forall|j: int| 0 <= j < list.len() ==> #[trigger] list[j] == table[keys[j]]
}

/// `list` holds the routes of `table`, one per target, in some order.
pub open spec fn spec_lists_routes(list: Seq<RouteView>, table: Map<TreeId, RouteView>) -> bool {
    exists|keys: Seq<TreeId>| #[trigger] spec_lists_routes_by(list, table, keys)
}

proof fn lemma_listed_routes(
    table: Map<TreeId, RouteView>,
    entries: Map<TreeId, RouteUpdate>,
    s0: Seq<(&TreeId, &RouteUpdate)>,
    out: Seq<RouteUpdate>,
)
    requires
        table == entries.map_values(|r: RouteUpdate| r@),
        out.len() == s0.len(),
        s0.no_duplicates(),
        forall|j: int| 0 <= j < s0.len() ==> #[trigger] entries.contains_key(*s0[j].0)
            && entries[*s0[j].0] == *s0[j].1,
        forall|k: TreeId| #[trigger] entries.contains_key(k) ==> s0.contains((&k, &entries[k])),
        forall|j: int| 0 <= j < out.len() ==> #[trigger] out[j]@ == s0[j].1@,
    ensures
        spec_lists_routes(spec_route_views(out), table),
{
    assert(table.dom() =~= entries.dom());
    let views = spec_route_views(out);
    let keys = Seq::new(s0.len(), |j: int| *s0[j].0);
    assert forall|i: int, j: int| 0 <= i < keys.len() && 0 <= j < keys.len() && i != j implies keys[i]
        != keys[j] by {
        if keys[i] == keys[j] {
            assert(entries.contains_key(*s0[i].0));
            assert(entries.contains_key(*s0[j].0));
            assert(*s0[i].1 == *s0[j].1);
            assert(s0[i] == s0[j]);
        }
    }
    assert forall|k: TreeId| #[trigger] keys.to_set().contains(k) <==> table.dom().contains(k) by {
        if keys.to_set().contains(k) {
            let j = choose|j: int| 0 <= j < keys.len() && keys[j] == k;
            assert(entries.contains_key(*s0[j].0));
        }
        if table.dom().contains(k) {
            assert(s0.contains((&k, &entries[k])));
            let j = choose|j: int| 0 <= j < s0.len() && s0[j] == (&k, &entries[k]);
            assert(keys[j] == k);
            assert(keys.contains(k));
        }
    }
    assert(keys.to_set() =~= table.dom());
    assert forall|j: int| 0 <= j < views.len() implies #[trigger] views[j] == table[keys[j]] by {
        assert(entries.contains_key(*s0[j].0));
    }
    assert(spec_lists_routes_by(views, table, keys));
}

/// One layer of an onion, innermost first: the public key it is sealed
/// for, and the hop that the sealed bytes are then addressed to (none for
/// the outermost layer, which goes to the first hop as it is).
#[derive(Debug)]
pub struct OnionSeal {
    pub key: [u8; 32],
    pub wrap_for: Option<TreeId>,
}

/// How a payload travels to a target: the first hop its needles go to, and
/// the layers to seal, innermost first.
#[derive(Debug)]
pub struct OnionPlan {
    pub first_hop: TreeId,
    pub seals: Vec<OnionSeal>,
}

/// Walking the path to `target` from the target back to the first hop,
/// every known node met before the first unknown one has a 32-byte key.
pub open spec fn spec_path_keys_fit(
    table: Map<TreeId, RouteView>,
    known: Map<TreeId, TreeInfo>,
    target: TreeId,
) -> bool {
    table.contains_key(target) ==> forall|i: int|
        0 <= i < table[target].path.len() && known.contains_key(#[trigger] table[target].path[i])
            && known[table[target].path[i]].public_key@.len() != 32 ==> exists|j: int|
            i < j < table[target].path.len() && !known.contains_key(table[target].path[j])
}

/// Text of the error when no route to the target is known.
pub open spec fn spec_no_route_error() -> Seq<char> {
    "Маршрут не найден"@
}

/// Text of the error when a node of the route is unknown.
pub open spec fn spec_unknown_hop_error() -> Seq<char> {
    "Неизвестный узел в маршруте"@
}

/// Copies a 32-byte key.
fn key_array(bytes: &Vec<u8>) -> (key: [u8; 32])
    requires
        bytes@.len() == 32,
    ensures
        key@ == bytes@,
{
    let mut key = [0u8; 32];
    let mut i: usize = 0;
    while i < 32
        invariant
            i <= 32,
            bytes@.len() == 32,
            forall|j: int| 0 <= j < i ==> key@[j] == bytes@[j],
        decreases 32 - i,
    {
        key[i] = bytes[i];
        i = i + 1;
    }
    assert(key@ =~= bytes@);
    key
}

/// The P2P core of a node (Mycelium): its own metadata, its neighbours,
/// the routing table, what it knows of other nodes, and its keys.
pub struct Mycelium {
    pub local_info: TreeInfo,
    /// Neighbours one hop away.
    pub neighbors: HashSet<TreeId>,
    pub routing_table: RoutingTable,
    /// Metadata of every node met.
    pub known_nodes: HashMap<TreeId, TreeInfo>,
    pub crypto: CryptoModule,
}

impl Mycelium {
    /// A fresh node with random keys, no internet, and empty tables.
    pub fn new(id: TreeId, status: NodeStatus) -> (m: Self)
        ensures
            m.crypto.wf(),
            m.local_info@ == (TreeInfoView {
                id: id,
                status: status,
                public_key: m.crypto.spec_public_key(),
                freedom: FreedomLevel::Isolated,
                is_virtual_uplink: false,
            }),
            m.neighbors@ == Set::<TreeId>::empty(),
            m.routing_table@ == Map::<TreeId, RouteView>::empty(),
            m.known_nodes@ == Map::<TreeId, TreeInfo>::empty(),
    {
        let crypto = CryptoModule::new();
        let public_key = crypto.public_key_bytes();
        Mycelium {
            local_info: TreeInfo {
                id,
                status,
                public_key: vstd::slice::slice_to_vec(public_key.as_slice()),
                freedom: FreedomLevel::Isolated,
                is_virtual_uplink: false,
            },
            neighbors: HashSet::new(),
            routing_table: RoutingTable::new(),
            known_nodes: HashMap::new(),
            crypto,
        }
    }

    /// The routes to advertise to neighbours: each route of the table once,
    /// in the order the table is walked.
    pub fn get_local_routes(&self) -> (r: Vec<RouteUpdate>)
        ensures
            spec_lists_routes(spec_route_views(r@), self.routing_table@),
    {
        let entries = &self.routing_table.entries;
        let ghost s0 = vstd::std_specs::hash::spec_hash_map_iter(entries).remaining();
        let mut out: Vec<RouteUpdate> = Vec::new();
        for item in it: entries.iter()
            invariant
                it.seq() == s0,
                s0.no_duplicates(),
                forall|j: int| 0 <= j < s0.len() ==> #[trigger] entries@.contains_key(*s0[j].0)
                    && entries@[*s0[j].0] == *s0[j].1,
                forall|k: TreeId| #[trigger] entries@.contains_key(k) ==> s0.contains(
                    (&k, &entries@[k]),
                ),
                out@.len() == it.index(),
                forall|j: int| 0 <= j < it.index() ==> #[trigger] out@[j]@ == s0[j].1@,
        {
            let (_, route) = item;
            out.push(route.clone());
        }
        proof {
            lemma_listed_routes(self.routing_table@, entries@, s0, out@);
        }
        out
    }

    /// Takes in what a neighbour scan reported of one neighbour: updates the
    /// routing table with its routes and remembers its metadata.
    pub fn absorb_discovery(&mut self, info: TreeInfo, routes: &[RouteUpdate])
        ensures
            final(self).routing_table@ == spec_update_from_neighbor(
                old(self).routing_table@,
                old(self).local_info.id,
                info@,
                spec_route_views(routes@),
            ),
            final(self).known_nodes@.dom() == old(self).known_nodes@.dom().insert(info.id),
            final(self).known_nodes@[info.id]@ == info@,
            forall|t: TreeId| #[trigger] old(self).known_nodes@.contains_key(t) && t != info.id
                ==> final(self).known_nodes@[t] == old(self).known_nodes@[t],
            final(self).local_info == old(self).local_info,
            final(self).neighbors == old(self).neighbors,
            final(self).crypto == old(self).crypto,
    {
        let local_id = self.local_info.id;
        self.routing_table.update_from_neighbor(local_id, info.clone(), routes);
        let id = info.id;
        let ghost iv = info@;
        self.known_nodes.insert(id, info);
        assert(self.known_nodes@.dom() =~= old(self).known_nodes@.dom().insert(id));
    }

    /// Drops the old identity (Bark) for `new_id`: new keys from `secret`,
    /// and no neighbour, route or known node; returns the new metadata that
    /// the transports must announce.
    pub fn rotate_bark_to(&mut self, new_id: TreeId, secret: [u8; 32]) -> (info: TreeInfo)
        ensures
            final(self).local_info.id == new_id,
            final(self).crypto.secret_key() == secret@,
            final(self).crypto.wf(),
            final(self).local_info.status == old(self).local_info.status,
            final(self).local_info.freedom == old(self).local_info.freedom,
            final(self).local_info.is_virtual_uplink == old(self).local_info.is_virtual_uplink,
            final(self).local_info.public_key@ == final(self).crypto.spec_public_key(),
            final(self).neighbors@ == Set::<TreeId>::empty(),
            final(self).routing_table@ == Map::<TreeId, RouteView>::empty(),
            final(self).known_nodes@ == Map::<TreeId, TreeInfo>::empty(),
            info@ == final(self).local_info@,
    {
        self.local_info.id = new_id;
        let new_pub_key = self.crypto.set_secret(secret);
        self.local_info.public_key = vstd::slice::slice_to_vec(new_pub_key.as_slice());
        self.neighbors.clear();
        self.routing_table = RoutingTable::new();
        self.known_nodes.clear();
        self.local_info.clone()
    }

    /// Drops the old identity (Bark): a new random identifier and new random
    /// keys, and no neighbour, route or known node; returns the new metadata
    /// that the transports must announce.
    pub fn rotate_bark(&mut self) -> (info: TreeInfo)
        ensures
            final(self).crypto.wf(),
            final(self).local_info.status == old(self).local_info.status,
            final(self).local_info.freedom == old(self).local_info.freedom,
            final(self).local_info.is_virtual_uplink == old(self).local_info.is_virtual_uplink,
            final(self).local_info.public_key@ == final(self).crypto.spec_public_key(),
            final(self).neighbors@ == Set::<TreeId>::empty(),
            final(self).routing_table@ == Map::<TreeId, RouteView>::empty(),
            final(self).known_nodes@ == Map::<TreeId, TreeInfo>::empty(),
            info@ == final(self).local_info@,
    {
        let new_id = new_random_id();
        let secret = crate::crypto::random_secret();
        self.rotate_bark_to(new_id, secret)
    }

    /// Whether, from the target back to the first hop, every known node of
    /// the route met before the first unknown one has a 32-byte key.
    pub fn path_keys_fit(&self, target: &TreeId) -> (r: bool)
        ensures
            r == spec_path_keys_fit(self.routing_table@, self.known_nodes@, *target),
    {
        match self.routing_table.get_path(target) {
            None => true,
            Some(path) => {
                let ghost known = self.known_nodes@;
                let mut i: usize = path.len();
                while i > 0
                    invariant
                        i <= path@.len(),
                        known == self.known_nodes@,
                        path@ == self.routing_table@[*target].path,
                        self.routing_table@.contains_key(*target),
                        forall|j: int| i <= j < path@.len() ==> known.contains_key(#[trigger] path@[j])
                            && known[path@[j]].public_key@.len() == 32,
                    decreases i,
                {
                    let idx = i - 1;
                    match self.known_nodes.get(&path[idx]) {
                        Some(node) => {
                            if node.public_key.len() != 32 {
                                proof {
                                    assert(known.contains_key(path@[idx as int]));
                                    if exists|j: int| idx < j < path@.len() && !known.contains_key(path@[j]) {
                                        let j = choose|j: int| idx < j < path@.len() && !known.contains_key(path@[j]);
                                        assert(known.contains_key(path@[j]));
                                    }
                                }
                                return false;
                            }
                        },
                        None => {
                            proof {
                                assert forall|k: int|
                                    0 <= k < path@.len() && known.contains_key(#[trigger] path@[k])
                                        && known[path@[k]].public_key@.len() != 32 implies exists|j: int|
                                        k < j < path@.len() && !known.contains_key(path@[j]) by {
                                    assert(k < idx);
                                    assert(!known.contains_key(path@[idx as int]));
                                }
                            }
                            return true;
                        },
                    }
                    i = idx;
                }
                true
            },
        }
    }

    /// Plans the onion for a payload to `target`: the route's first hop, and
    /// one layer per hop from the target back to the first hop, each sealed
    /// for that hop's key and, except the outermost, addressed to that hop.
    pub fn plan_onion_route(&self, target: &TreeId) -> (r: Result<OnionPlan, String>)
        requires
            self.routing_table@.contains_key(*target) ==> self.routing_table@[*target].path.len()
                >= 1,
            spec_path_keys_fit(self.routing_table@, self.known_nodes@, *target),
        ensures
            !self.routing_table@.contains_key(*target) ==> (r matches Err(e) && e@
                == spec_no_route_error()),
            self.routing_table@.contains_key(*target) ==> ({
                let path = self.routing_table@[*target].path;
                let all_known = forall|i: int|
                    0 <= i < path.len() ==> self.known_nodes@.contains_key(#[trigger] path[i]);
                &&& all_known ==> (r matches Ok(plan) && plan.first_hop == path[0]
                    && plan.seals@.len() == path.len() && forall|k: int|
                    0 <= k < path.len() ==> {
                        let i = path.len() - 1 - k;
                        &&& (#[trigger] plan.seals@[k]).key@ == self.known_nodes@[path[i]].public_key@
                        &&& plan.seals@[k].wrap_for == (if i > 0 {
                            Some(path[i])
                        } else {
                            None
                        })
                    })
                &&& !all_known ==> (r matches Err(e) && e@ == spec_unknown_hop_error())
            }),
    {
        let path = match self.routing_table.get_path(target) {
            Some(p) => p,
            None => {
                return Err("Маршрут не найден".to_string());
            },
        };
        let ghost table = self.routing_table@;
        let ghost known = self.known_nodes@;
        assert(path@.len() >= 1);
        let mut seals: Vec<OnionSeal> = Vec::new();
        let mut i: usize = path.len();
        while i > 0
            invariant
                i <= path@.len(),
                path@.len() >= 1,
                table == self.routing_table@,
                known == self.known_nodes@,
                table.contains_key(*target),
                path@ == table[*target].path,
                spec_path_keys_fit(table, known, *target),
                seals@.len() == path@.len() - i,
                forall|j: int| i <= j < path@.len() ==> known.contains_key(#[trigger] path@[j]),
                forall|k: int|
                    0 <= k < seals@.len() ==> {
                        let j = path@.len() - 1 - k;
                        &&& (#[trigger] seals@[k]).key@ == known[path@[j]].public_key@
                        &&& seals@[k].wrap_for == (if j > 0 {
                            Some(path@[j])
                        } else {
                            None
                        })
                    },
            decreases i,
        {
            let idx = i - 1;
            let node_id = path[idx];
            match self.known_nodes.get(&node_id) {
                Some(node) => {
                    proof {
                        if node.public_key@.len() != 32 {
                            assert(known.contains_key(path@[idx as int]));
                            let j = choose|j: int| idx < j < path@.len() && !known.contains_key(path@[j]);
                            assert(known.contains_key(path@[j]));
                        }
                    }
                    let key = key_array(&node.public_key);
                    let wrap_for = if idx > 0 {
                        Some(node_id)
                    } else {
                        None
                    };
                    seals.push(OnionSeal { key, wrap_for });
                    i = idx;
                },
                None => {
                    return Err("Неизвестный узел в маршруте".to_string());
                },
            }
        }
        Ok(OnionPlan { first_hop: path[0], seals })
    }
}

} // verus!
