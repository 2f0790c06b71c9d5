use vstd::prelude::*;
use std::collections::HashMap;
use crate::types::{TreeId, TreeInfo, TreeInfoView, RouteUpdate, RouteView, FreedomLevel};
use crate::ids::new_random_id;
use vstd::std_specs::iter::IteratorSpec;

verus! {

broadcast use vstd::std_specs::hash::group_hash_axioms;

/// A candidate route is preferred to the current one when its target is
/// freer, or equally free and reached in fewer hops.
pub open spec fn spec_is_better(candidate: RouteView, current: RouteView) -> bool {
    candidate.target.freedom.spec_rank() > current.target.freedom.spec_rank() || (
    candidate.target.freedom.spec_rank() == current.target.freedom.spec_rank()
        && candidate.path.len() < current.path.len())
}

/// A route advertised by a neighbour is taken into account unless it leads
/// back to the local node or passes through it (loop protection).
pub open spec fn spec_admissible(local_id: TreeId, route: RouteView) -> bool {
    route.target.id != local_id && !route.path.contains(local_id)
}

/// The route through `neighbor_id` built from an advertised route.
pub open spec fn spec_relayed(neighbor_id: TreeId, route: RouteView) -> RouteView {
    RouteView { target: route.target, path: seq![neighbor_id] + route.path }
}

/// The table after one advertised route of `neighbor_id` is considered.
pub open spec fn spec_absorb_route(
    table: Map<TreeId, RouteView>,
    local_id: TreeId,
    neighbor_id: TreeId,
    route: RouteView,
) -> Map<TreeId, RouteView> {
    if !spec_admissible(local_id, route) {
        table
    } else {
        let candidate = spec_relayed(neighbor_id, route);
        let target = route.target.id;
        if table.contains_key(target) && !spec_is_better(candidate, table[target]) {
            table
        } else {
            table.insert(target, candidate)
        }
    }
}

/// The table after the advertised routes are considered in order.
pub open spec fn spec_absorb_routes(
    table: Map<TreeId, RouteView>,
    local_id: TreeId,
    neighbor_id: TreeId,
    routes: Seq<RouteView>,
) -> Map<TreeId, RouteView>
    decreases routes.len(),
{
    if routes.len() == 0 {
        table
    } else {
        spec_absorb_route(
            spec_absorb_routes(table, local_id, neighbor_id, routes.drop_last()),
            local_id,
            neighbor_id,
            routes.last(),
        )
    }
}

/// The direct route to a neighbour: one hop, the neighbour itself.
pub open spec fn spec_direct_route(neighbor: TreeInfoView) -> RouteView {
    RouteView { target: neighbor, path: seq![neighbor.id] }
}

/// The table after an exchange with a neighbour: the neighbour becomes
/// reachable directly, then each of its routes is absorbed.
pub open spec fn spec_update_from_neighbor(
    table: Map<TreeId, RouteView>,
    local_id: TreeId,
    neighbor: TreeInfoView,
    routes: Seq<RouteView>,
) -> Map<TreeId, RouteView> {
    spec_absorb_routes(
        table.insert(neighbor.id, spec_direct_route(neighbor)),
        local_id,
        neighbor.id,
        routes,
    )
}

/// Views of a sequence of routes.
pub open spec fn spec_route_views(routes: Seq<RouteUpdate>) -> Seq<RouteView> {
    routes.map_values(|r: RouteUpdate| r@)
}

/// Whether `id` occurs in `path`.
pub fn path_contains(path: &Vec<TreeId>, id: TreeId) -> (r: bool)
    ensures
        r == path@.contains(id),
{
    let mut i: usize = 0;
    while i < path.len()
        invariant
            i <= path.len(),
            forall|j: int| 0 <= j < i ==> path@[j] != id,
        decreases path.len() - i,
    {
        if path[i] == id {
            return true;
        }
        i = i + 1;
    }
    false
}

/// Points that a target's freedom level earns when an exit node is chosen.
pub open spec fn spec_freedom_score(freedom: FreedomLevel) -> int {
    match freedom {
        FreedomLevel::Full => 34,
        FreedomLevel::Normal => 30,
        FreedomLevel::WhitelistOnly => 15,
        FreedomLevel::Isolated => 0,
    }
}

/// Points that an exit loses when its own internet is tunnelled (a virtual
/// uplink): as much as ten more hops, so that traffic does not hairpin back
/// into the mesh while a node with a physical uplink is about as good.
pub const VIRTUAL_UPLINK_PENALTY: i32 = 10;

/// Exit score of a route: the freedom points minus one per hop, minus the
/// virtual-uplink penalty when the target's internet is tunnelled.
pub open spec fn spec_exit_score(route: RouteView) -> int {
    spec_freedom_score(route.target.freedom) - route.path.len() - (if route.target.is_virtual_uplink {
        VIRTUAL_UPLINK_PENALTY as int
    } else {
        0
    })
}

/// The score below which no route is ever chosen as exit.
pub open spec fn spec_score_floor() -> int {
    -1000
}

/// `t` is one of the best exits of `table`: its score reaches the floor and
/// no other route scores higher.
pub open spec fn spec_is_best_exit(table: Map<TreeId, RouteView>, t: TreeId) -> bool {
    &&& table.contains_key(t)
    &&& spec_exit_score(table[t]) >= spec_score_floor()
    &&& forall|u: TreeId| #[trigger] table.contains_key(u) ==> spec_exit_score(table[u])
        <= spec_exit_score(table[t])
}

/// Every path in the table has a length that fits an `i32` hop count.
pub open spec fn spec_hop_counts_fit(table: Map<TreeId, RouteView>) -> bool {
    forall|t: TreeId| #[trigger] table.contains_key(t) ==> table[t].path.len() <= i32::MAX
}

fn freedom_score(freedom: FreedomLevel) -> (s: i32)
    ensures
        s == spec_freedom_score(freedom),
{
    match freedom {
        FreedomLevel::Full => 34,
        FreedomLevel::Normal => 30,
        FreedomLevel::WhitelistOnly => 15,
        FreedomLevel::Isolated => 0,
    }
}

/// Load balancing among equally good exits: the candidate at
/// `random % candidates.len()`, or `None` when there is no candidate.
pub fn pick_exit_node(candidates: &Vec<TreeId>, random: usize) -> (r: Option<TreeId>)
    ensures
        candidates@.len() == 0 ==> r is None,
        candidates@.len() > 0 ==> r == Some(candidates@[(random as int) % (candidates@.len() as int)]),
{
    if candidates.len() == 0 {
        None
    } else {
        let idx = random % candidates.len();
        Some(candidates[idx])
    }
}

/// Routing table: the best known route to each target.
#[derive(Debug)]
pub struct RoutingTable {
    pub entries: HashMap<TreeId, RouteUpdate>,
}

impl View for RoutingTable {
    type V = Map<TreeId, RouteView>;

    open spec fn view(&self) -> Map<TreeId, RouteView> {
        self.entries@.map_values(|r: RouteUpdate| r@)
    }
}

impl Clone for RoutingTable {
    fn clone(&self) -> (r: Self)
        ensures
            r@ == self@,
    {
        RoutingTable { entries: self.entries.clone() }
    }
}

impl RoutingTable {
    /// An empty table.
    pub fn new() -> (t: Self)
        ensures
            t@ == Map::<TreeId, RouteView>::empty(),
    {
        let t = RoutingTable { entries: HashMap::new() };
        assert(t@ =~= Map::<TreeId, RouteView>::empty());
        t
    }

    /// Sets the route to `target` (view-level insert).
    fn put(&mut self, target: TreeId, route: RouteUpdate)
        ensures
            final(self)@ == old(self)@.insert(target, route@),
    {
        self.entries.insert(target, route);
        assert(final(self)@ =~= old(self)@.insert(target, route@));
    }

    /// Updates the table with what a neighbour told about itself and the
    /// routes it knows. The neighbour becomes a direct route; each of its
    /// routes that neither targets nor passes through `local_id` is taken,
    /// prefixed by the neighbour, when the target was unknown or the new
    /// route is better (freer, or as free and shorter).
    pub fn update_from_neighbor(
        &mut self,
        local_id: TreeId,
        neighbor_info: TreeInfo,
        neighbor_routes: &[RouteUpdate],
    )
        ensures
            final(self)@ == spec_update_from_neighbor(
                old(self)@,
                local_id,
                neighbor_info@,
                spec_route_views(neighbor_routes@),
            ),
    {
        let neighbor_id = neighbor_info.id;
        let ghost neighbor_view = neighbor_info@;
        let mut direct_path: Vec<TreeId> = Vec::new();
        direct_path.push(neighbor_id);
        self.put(neighbor_id, RouteUpdate { target_info: neighbor_info, path: direct_path });
        assert(seq![neighbor_id] =~= seq![neighbor_view.id]);
        let ghost start = self@;
        let ghost views = spec_route_views(neighbor_routes@);
        let mut i: usize = 0;
        while i < neighbor_routes.len()
            invariant
                i <= neighbor_routes@.len(),
                views == spec_route_views(neighbor_routes@),
                views.len() == neighbor_routes@.len(),
                self@ == spec_absorb_routes(start, local_id, neighbor_id, views.take(i as int)),
            decreases neighbor_routes@.len() - i,
        {
            let route = &neighbor_routes[i];
            assert(views.take(i + 1).drop_last() =~= views.take(i as int));
            assert(views.take(i + 1).last() == route@);
            let target_id = route.target_info.id;
            if target_id == local_id {
            } else if path_contains(&route.path, local_id) {
            } else {
                let mut new_path: Vec<TreeId> = Vec::new();
                new_path.push(neighbor_id);
                let mut k: usize = 0;
                while k < route.path.len()
                    invariant
                        k <= route.path@.len(),
                        new_path@ =~= seq![neighbor_id] + route.path@.take(k as int),
                    decreases route.path@.len() - k,
                {
                    new_path.push(route.path[k]);
                    k = k + 1;
                    assert(new_path@ =~= seq![neighbor_id] + route.path@.take(k as int));
                }
                assert(route.path@.take(k as int) =~= route.path@);
                let take = match self.entries.get(&target_id) {
                    Some(current) => {
                        let new_freedom = route.target_info.freedom.rank();
                        let current_freedom = current.target_info.freedom.rank();
                        new_freedom > current_freedom || (new_freedom == current_freedom
                            && new_path.len() < current.path.len())
                    },
                    None => true,
                };
                if take {
                    self.put(
                        target_id,
                        RouteUpdate { target_info: route.target_info.clone(), path: new_path },
                    );
                }
            }
            i = i + 1;
        }
        assert(views.take(neighbor_routes@.len() as int) =~= views);
    }

    /// All exits with the highest score (freedom points minus one per hop,
    /// minus the penalty for a virtual uplink),
    /// each once, in the order the table is walked; empty when every score is
    /// below the floor.
    pub fn best_exit_nodes(&self) -> (r: Vec<TreeId>)
        requires
            spec_hop_counts_fit(self@),
        ensures
            r@.no_duplicates(),
            forall|t: TreeId| #[trigger] r@.contains(t) <==> spec_is_best_exit(self@, t),
    {
        let ghost s0 = vstd::std_specs::hash::spec_hash_map_iter(&self.entries).remaining();
        let ghost table = self@;
        let mut best_nodes: Vec<TreeId> = Vec::new();
        let mut best_score: i64 = -1000;
        for item in it: self.entries.iter()
            invariant
                it.seq() == s0,
                table == self@,
                spec_hop_counts_fit(table),
                s0.no_duplicates(),
                s0.len() == self.entries@.dom().len(),
                forall|j: int| 0 <= j < s0.len() ==> #[trigger] self.entries@.contains_key(*s0[j].0)
                    && self.entries@[*s0[j].0] == *s0[j].1,
                best_score >= -1000,
                forall|j: int| 0 <= j < it.index() ==> spec_exit_score(#[trigger] s0[j].1@) <= best_score,
                best_score == -1000 || exists|j: int| 0 <= j < it.index() && spec_exit_score(#[trigger] s0[j].1@)
                    == best_score,
                best_nodes@.no_duplicates(),
                forall|t: TreeId| #[trigger] best_nodes@.contains(t) <==> exists|j: int|
                    0 <= j < it.index() && *s0[j].0 == t && spec_exit_score(#[trigger] s0[j].1@)
                        == best_score,
        {
            let (id, route) = item;
            let ghost idx = it.index();
            assert(item == s0[idx]);
            let f = freedom_score(route.target_info.freedom);
            proof {
                assert(self.entries@.contains_key(*s0[idx].0));
                assert(table.contains_key(*id));
                assert(table[*id] == route@);
            }
            let hops = route.path.len() as i64;
            let penalty: i64 = if route.target_info.is_virtual_uplink {
                VIRTUAL_UPLINK_PENALTY as i64
            } else {
                0
            };
            let score = f as i64 - hops - penalty;
            assert(score == spec_exit_score(s0[idx].1@));
            let ghost before = best_nodes@;
            if score > best_score {
                best_score = score;
                best_nodes = Vec::new();
                best_nodes.push(*id);
                proof {
                    assert(best_nodes@ == seq![*id]);
                    assert forall|t: TreeId| #[trigger] best_nodes@.contains(t) <==> exists|j: int|
                        0 <= j < idx + 1 && *s0[j].0 == t && spec_exit_score(#[trigger] s0[j].1@)
                            == best_score by {
                        if best_nodes@.contains(t) {
                            assert(best_nodes@[0] == t);
                            assert(*s0[idx].0 == t);
                        }
                        if exists|j: int| 0 <= j < idx + 1 && *s0[j].0 == t && spec_exit_score(#[trigger] s0[j].1@)
                            == best_score {
                            let j = choose|j: int| 0 <= j < idx + 1 && *s0[j].0 == t && spec_exit_score(#[trigger] s0[j].1@)
                                == best_score;
                            assert(j == idx);
                            assert(best_nodes@[0] == t);
                        }
                    }
                }
            } else if score == best_score {
                proof {
                    assert forall|j: int| 0 <= j < idx implies *s0[j].0 != *id by {
                        if *s0[j].0 == *id {
                            assert(self.entries@[*s0[j].0] == *s0[j].1);
                            assert(s0[j] == s0[idx]);
                        }
                    }
                    assert(!before.contains(*id));
                }
                best_nodes.push(*id);
                proof {
                    assert(best_nodes@ == before.push(*id));
                    assert forall|t: TreeId| #[trigger] best_nodes@.contains(t) <==> (before.contains(t) || t == *id) by {
                        if best_nodes@.contains(t) {
                            let k = choose|k: int| 0 <= k < best_nodes@.len() && best_nodes@[k] == t;
                            if k < before.len() {
                                assert(before[k] == t);
                            }
                        }
                        if before.contains(t) {
                            let k = choose|k: int| 0 <= k < before.len() && before[k] == t;
                            assert(best_nodes@[k] == t);
                        }
                        if t == *id {
                            assert(best_nodes@[before.len() as int] == t);
                        }
                    }
                    assert forall|a: int, b: int| 0 <= a < best_nodes@.len() && 0 <= b < best_nodes@.len() && a != b
                        implies best_nodes@[a] != best_nodes@[b] by {
                        if a == before.len() {
                            assert(before.contains(best_nodes@[b]));
                        } else if b == before.len() {
                            assert(before.contains(best_nodes@[a]));
                        }
                    }
                    assert forall|t: TreeId| #[trigger] best_nodes@.contains(t) <==> exists|j: int|
                        0 <= j < idx + 1 && *s0[j].0 == t && spec_exit_score(#[trigger] s0[j].1@)
                            == best_score by {
                        if best_nodes@.contains(t) && t == *id {
                            assert(*s0[idx].0 == t);
                        }
                        if exists|j: int| 0 <= j < idx + 1 && *s0[j].0 == t && spec_exit_score(#[trigger] s0[j].1@)
                            == best_score {
                            let j = choose|j: int| 0 <= j < idx + 1 && *s0[j].0 == t && spec_exit_score(#[trigger] s0[j].1@)
                                == best_score;
                            if j < idx {
                                assert(before.contains(t));
                            }
                        }
                    }
                }
            } else {
                proof {
                    assert forall|t: TreeId| #[trigger] best_nodes@.contains(t) <==> exists|j: int|
                        0 <= j < idx + 1 && *s0[j].0 == t && spec_exit_score(#[trigger] s0[j].1@)
                            == best_score by {
                        if exists|j: int| 0 <= j < idx + 1 && *s0[j].0 == t && spec_exit_score(#[trigger] s0[j].1@)
                            == best_score {
                            let j = choose|j: int| 0 <= j < idx + 1 && *s0[j].0 == t && spec_exit_score(#[trigger] s0[j].1@)
                                == best_score;
                            assert(j < idx);
                        }
                    }
                }
            }
        }
        proof {
            assert forall|t: TreeId| #[trigger] best_nodes@.contains(t) <==> spec_is_best_exit(table, t) by {
                if best_nodes@.contains(t) {
                    let j = choose|j: int| 0 <= j < s0.len() && *s0[j].0 == t && spec_exit_score(#[trigger] s0[j].1@)
                        == best_score;
                    assert(self.entries@.contains_key(*s0[j].0));
                    assert forall|u: TreeId| #[trigger] table.contains_key(u) implies spec_exit_score(table[u])
                        <= spec_exit_score(table[t]) by {
                        assert(s0.contains((&u, &self.entries@[u])));
                        let k = choose|k: int| 0 <= k < s0.len() && s0[k] == (&u, &self.entries@[u]);
                        assert(spec_exit_score(s0[k].1@) <= best_score);
                    }
                }
                if spec_is_best_exit(table, t) {
                    assert(s0.contains((&t, &self.entries@[t])));
                    let k = choose|k: int| 0 <= k < s0.len() && s0[k] == (&t, &self.entries@[t]);
                    assert(spec_exit_score(s0[k].1@) <= best_score);
                    if best_score > -1000 {
                        let j = choose|j: int| 0 <= j < s0.len() && spec_exit_score(#[trigger] s0[j].1@)
                            == best_score;
                        assert(self.entries@.contains_key(*s0[j].0));
                        assert(table.contains_key(*s0[j].0));
                        assert(spec_exit_score(table[*s0[j].0]) <= spec_exit_score(table[t]));
                    }
                    assert(spec_exit_score(s0[k].1@) == best_score);
                }
            }
        }
        best_nodes
    }

    /// Chooses an exit node among the best ones, at random for load
    /// balancing; `None` when no route reaches the score floor.
    pub fn select_exit_node(&self) -> (r: Option<TreeId>)
        requires
            spec_hop_counts_fit(self@),
        ensures
            r is Some <==> exists|t: TreeId| spec_is_best_exit(self@, t),
            r matches Some(t) ==> spec_is_best_exit(self@, t),
    {
        let best = self.best_exit_nodes();
        if best.len() == 0 {
            assert forall|t: TreeId| !spec_is_best_exit(self@, t) by {
                if spec_is_best_exit(self@, t) {
                    assert(best@.contains(t));
                }
            }
            None
        } else {
            #[verifier::truncate]
            let random = new_random_id() as usize;
            let r = pick_exit_node(&best, random);
            assert(best@.contains(best@[(random as int) % (best@.len() as int)]));
            r
        }
    }

    /// First hop towards `target_id`, if a route is known.
    pub fn get_next_hop(&self, target_id: &TreeId) -> (r: Option<TreeId>)
        ensures
            r == (if self@.contains_key(*target_id) && self@[*target_id].path.len() > 0 {
                Some(self@[*target_id].path[0])
            } else {
                None
            }),
    {
        match self.entries.get(target_id) {
            Some(route) => {
                if route.path.len() > 0 {
                    Some(route.path[0])
                } else {
                    None
                }
            },
            None => None,
        }
    }

    /// The known path to `target_id`.
    pub fn get_path(&self, target_id: &TreeId) -> (r: Option<Vec<TreeId>>)
        ensures
            r is Some <==> self@.contains_key(*target_id),
            r matches Some(p) ==> p@ == self@[*target_id].path,
    {
        match self.entries.get(target_id) {
            Some(route) => Some(route.path.clone()),
            None => None,
        }
    }

    /// The known metadata of `target_id`.
    pub fn get_info(&self, target_id: &TreeId) -> (r: Option<TreeInfo>)
        ensures
            r is Some <==> self@.contains_key(*target_id),
            r matches Some(info) ==> info@ == self@[*target_id].target,
    {
        match self.entries.get(target_id) {
            Some(route) => Some(route.target_info.clone()),
            None => None,
        }
    }
}


/// Every entry of `table` is stored under the identifier of its target.
pub open spec fn spec_keyed_by_target(table: Map<TreeId, RouteView>) -> bool {
    forall|t: TreeId| #[trigger] table.contains_key(t) ==> table[t].target.id == t
}

/// The entry for `t` was added or replaced between `before` and `after`.
pub open spec fn spec_changed(
    before: Map<TreeId, RouteView>,
    after: Map<TreeId, RouteView>,
    t: TreeId,
) -> bool {
    after.contains_key(t) && (!before.contains_key(t) || after[t] != before[t])
}

proof fn lemma_absorb_routes(
    m: Map<TreeId, RouteView>,
    local_id: TreeId,
    neighbor_id: TreeId,
    routes: Seq<RouteView>,
)
    ensures
        ({
            let r = spec_absorb_routes(m, local_id, neighbor_id, routes);
            &&& forall|t: TreeId| #[trigger] m.contains_key(t) ==> r.contains_key(t)
            &&& forall|t: TreeId| #[trigger] m.contains_key(t) ==> (r[t] == m[t] || spec_is_better(r[t], m[t]))
            &&& forall|t: TreeId| #[trigger] spec_changed(m, r, t) ==> exists|i: int|
                0 <= i < routes.len() && spec_admissible(local_id, #[trigger] routes[i])
                    && routes[i].target.id == t && r[t] == spec_relayed(neighbor_id, routes[i])
            &&& forall|i: int| 0 <= i < routes.len() && spec_admissible(local_id, #[trigger] routes[i])
                ==> r.contains_key(routes[i].target.id) && !spec_is_better(
                    spec_relayed(neighbor_id, routes[i]),
                    r[routes[i].target.id],
                )
            &&& forall|t: TreeId| #[trigger] r.contains_key(t) ==> m.contains_key(t) || exists|i: int|
                0 <= i < routes.len() && spec_admissible(local_id, #[trigger] routes[i])
                    && routes[i].target.id == t
        }),
    decreases routes.len(),
{
    if routes.len() > 0 {
        let prefix = routes.drop_last();
        lemma_absorb_routes(m, local_id, neighbor_id, prefix);
        let p = spec_absorb_routes(m, local_id, neighbor_id, prefix);
        let last = routes.last();
        let r = spec_absorb_routes(m, local_id, neighbor_id, routes);
        assert(r == spec_absorb_route(p, local_id, neighbor_id, last));
        let n = routes.len() - 1;
        assert(routes[n] == last);
        assert forall|i: int| 0 <= i < prefix.len() implies prefix[i] == #[trigger] routes[i] by {}
        assert forall|t: TreeId| #[trigger] spec_changed(m, r, t) implies exists|i: int|
            0 <= i < routes.len() && spec_admissible(local_id, #[trigger] routes[i])
                && routes[i].target.id == t && r[t] == spec_relayed(neighbor_id, routes[i]) by {
            if spec_admissible(local_id, last) && t == last.target.id && r[t] == spec_relayed(
                neighbor_id,
                last,
            ) {
                assert(routes[n] == last);
            } else {
                assert(r[t] == p[t]);
                assert(spec_changed(m, p, t));
                let i = choose|i: int|
                    0 <= i < prefix.len() && spec_admissible(local_id, #[trigger] prefix[i])
                        && prefix[i].target.id == t && p[t] == spec_relayed(neighbor_id, prefix[i]);
                assert(routes[i] == prefix[i]);
            }
        }
        assert forall|i: int| 0 <= i < routes.len() && spec_admissible(local_id, #[trigger] routes[i])
            implies r.contains_key(routes[i].target.id) && !spec_is_better(
                spec_relayed(neighbor_id, routes[i]),
                r[routes[i].target.id],
            ) by {
            if i < n {
                assert(prefix[i] == routes[i]);
            }
        }
        assert forall|t: TreeId| #[trigger] r.contains_key(t) implies m.contains_key(t) || exists|i: int|
            0 <= i < routes.len() && spec_admissible(local_id, #[trigger] routes[i])
                && routes[i].target.id == t by {
            if !p.contains_key(t) {
                assert(routes[n] == last);
            } else if !m.contains_key(t) {
                let i = choose|i: int|
                    0 <= i < prefix.len() && spec_admissible(local_id, #[trigger] prefix[i])
                        && prefix[i].target.id == t;
                assert(routes[i] == prefix[i]);
            }
        }
    }
}

/// Every route that an exchange adds or replaces leads through the
/// neighbour: its first hop is the neighbour.
pub proof fn lemma_update_next_hop_is_neighbor(
    table: Map<TreeId, RouteView>,
    local_id: TreeId,
    neighbor: TreeInfoView,
    routes: Seq<RouteView>,
)
    ensures
        ({
            let after = spec_update_from_neighbor(table, local_id, neighbor, routes);
            forall|t: TreeId| #[trigger] spec_changed(table, after, t) ==> after[t].path.len() >= 1
                && after[t].path[0] == neighbor.id
        }),
{
    let m = table.insert(neighbor.id, spec_direct_route(neighbor));
    lemma_absorb_routes(m, local_id, neighbor.id, routes);
    let after = spec_update_from_neighbor(table, local_id, neighbor, routes);
    assert forall|t: TreeId| #[trigger] spec_changed(table, after, t) implies after[t].path.len() >= 1
        && after[t].path[0] == neighbor.id by {
        if spec_changed(m, after, t) {
            let i = choose|i: int|
                0 <= i < routes.len() && spec_admissible(local_id, #[trigger] routes[i])
                    && routes[i].target.id == t && after[t] == spec_relayed(neighbor.id, routes[i]);
            assert((seq![neighbor.id] + routes[i].path)[0] == neighbor.id);
        } else {
            assert(m.contains_key(t));
            if t != neighbor.id {
                assert(m[t] == table[t]);
            }
        }
    }
}

/// No known target is lost, and the route to every known target other
/// than the neighbour itself stays the same or becomes better.
pub proof fn lemma_update_never_worsens(
    table: Map<TreeId, RouteView>,
    local_id: TreeId,
    neighbor: TreeInfoView,
    routes: Seq<RouteView>,
)
    ensures
        ({
            let after = spec_update_from_neighbor(table, local_id, neighbor, routes);
            &&& forall|t: TreeId| #[trigger] table.contains_key(t) ==> after.contains_key(t)
            &&& after.contains_key(neighbor.id)
            &&& forall|t: TreeId| #[trigger] table.contains_key(t) && t != neighbor.id ==> (after[t]
                == table[t] || spec_is_better(after[t], table[t]))
        }),
{
    let m = table.insert(neighbor.id, spec_direct_route(neighbor));
    lemma_absorb_routes(m, local_id, neighbor.id, routes);
    let after = spec_update_from_neighbor(table, local_id, neighbor, routes);
    assert(m.contains_key(neighbor.id));
    assert forall|t: TreeId| #[trigger] table.contains_key(t) implies after.contains_key(t) by {
        assert(m.contains_key(t));
    }
    assert forall|t: TreeId| #[trigger] table.contains_key(t) && t != neighbor.id implies (after[t]
        == table[t] || spec_is_better(after[t], table[t])) by {
        assert(m.contains_key(t));
        assert(m[t] == table[t]);
    }
}

/// Loop protection: a route that an exchange adds or replaces is either the
/// direct route to the neighbour, or targets another node than the local one
/// and does not pass through the local node after the neighbour.
pub proof fn lemma_update_loop_free(
    table: Map<TreeId, RouteView>,
    local_id: TreeId,
    neighbor: TreeInfoView,
    routes: Seq<RouteView>,
)
    ensures
        ({
            let after = spec_update_from_neighbor(table, local_id, neighbor, routes);
            forall|t: TreeId| #[trigger] spec_changed(table, after, t) ==> after[t]
                == spec_direct_route(neighbor) || (t != local_id && after[t].target.id == t
                && !after[t].path.drop_first().contains(local_id))
        }),
{
    let m = table.insert(neighbor.id, spec_direct_route(neighbor));
    lemma_absorb_routes(m, local_id, neighbor.id, routes);
    let after = spec_update_from_neighbor(table, local_id, neighbor, routes);
    assert forall|t: TreeId| #[trigger] spec_changed(table, after, t) implies after[t]
        == spec_direct_route(neighbor) || (t != local_id && after[t].target.id == t
        && !after[t].path.drop_first().contains(local_id)) by {
        if spec_changed(m, after, t) {
            let i = choose|i: int|
                0 <= i < routes.len() && spec_admissible(local_id, #[trigger] routes[i])
                    && routes[i].target.id == t && after[t] == spec_relayed(neighbor.id, routes[i]);
            assert((seq![neighbor.id] + routes[i].path).drop_first() =~= routes[i].path);
        } else {
            if t != neighbor.id {
                assert(m[t] == table[t]);
            }
        }
    }
}

/// Freedom-aware choice: no route that the neighbour advertised and that
/// was admissible is better than the route the table keeps for its target.
pub proof fn lemma_update_keeps_best(
    table: Map<TreeId, RouteView>,
    local_id: TreeId,
    neighbor: TreeInfoView,
    routes: Seq<RouteView>,
)
    ensures
        ({
            let after = spec_update_from_neighbor(table, local_id, neighbor, routes);
            forall|i: int| 0 <= i < routes.len() && spec_admissible(local_id, #[trigger] routes[i])
                ==> after.contains_key(routes[i].target.id) && !spec_is_better(
                    spec_relayed(neighbor.id, routes[i]),
                    after[routes[i].target.id],
                )
        }),
{
    let m = table.insert(neighbor.id, spec_direct_route(neighbor));
    lemma_absorb_routes(m, local_id, neighbor.id, routes);
}

/// The targets after an exchange are the old ones, the neighbour, and the
/// targets of the admissible advertised routes.
pub proof fn lemma_update_targets(
    table: Map<TreeId, RouteView>,
    local_id: TreeId,
    neighbor: TreeInfoView,
    routes: Seq<RouteView>,
)
    ensures
        ({
            let after = spec_update_from_neighbor(table, local_id, neighbor, routes);
            forall|t: TreeId| #[trigger] after.contains_key(t) <==> (table.contains_key(t) || t
                == neighbor.id || exists|i: int| 0 <= i < routes.len() && spec_admissible(
                local_id,
                #[trigger] routes[i],
            ) && routes[i].target.id == t)
        }),
{
    let m = table.insert(neighbor.id, spec_direct_route(neighbor));
    lemma_absorb_routes(m, local_id, neighbor.id, routes);
    let after = spec_update_from_neighbor(table, local_id, neighbor, routes);
    assert forall|t: TreeId|
        table.contains_key(t) || t == neighbor.id || exists|i: int|
            0 <= i < routes.len() && spec_admissible(local_id, #[trigger] routes[i])
                && routes[i].target.id == t implies #[trigger] after.contains_key(t) by {
        if table.contains_key(t) || t == neighbor.id {
            assert(m.contains_key(t));
        } else {
            let i = choose|i: int| 0 <= i < routes.len() && spec_admissible(
                local_id,
                #[trigger] routes[i],
            ) && routes[i].target.id == t;
        }
    }
}

/// Every entry stays stored under the identifier of its target.
pub proof fn lemma_update_keyed_by_target(
    table: Map<TreeId, RouteView>,
    local_id: TreeId,
    neighbor: TreeInfoView,
    routes: Seq<RouteView>,
)
    requires
        spec_keyed_by_target(table),
    ensures
        spec_keyed_by_target(spec_update_from_neighbor(table, local_id, neighbor, routes)),
{
    let m = table.insert(neighbor.id, spec_direct_route(neighbor));
    lemma_absorb_routes(m, local_id, neighbor.id, routes);
    let after = spec_update_from_neighbor(table, local_id, neighbor, routes);
    assert forall|t: TreeId| #[trigger] after.contains_key(t) implies after[t].target.id == t by {
        if spec_changed(m, after, t) {
            let i = choose|i: int|
                0 <= i < routes.len() && spec_admissible(local_id, #[trigger] routes[i])
                    && routes[i].target.id == t && after[t] == spec_relayed(neighbor.id, routes[i]);
        }
    }
}

/// The neighbour's routes that an exchange considers for target `g`, in
/// order: the admissible ones that lead to `g`, relayed by the neighbour.
pub open spec fn spec_candidates_for(
    local_id: TreeId,
    neighbor_id: TreeId,
    routes: Seq<RouteView>,
    g: TreeId,
) -> Seq<RouteView>
    decreases routes.len(),
{
    if routes.len() == 0 {
        seq![]
    } else {
        let rest = spec_candidates_for(local_id, neighbor_id, routes.drop_last(), g);
        let r = routes.last();
        if spec_admissible(local_id, r) && r.target.id == g {
            rest.push(spec_relayed(neighbor_id, r))
        } else {
            rest
        }
    }
}

/// `options[p]` is the winner among `options`: none of them is better, and
/// it is better than each one before it (on a tie the earliest wins).
pub open spec fn spec_wins_at(options: Seq<RouteView>, p: int) -> bool {
    &&& 0 <= p < options.len()
    &&& forall|q: int| 0 <= q < options.len() ==> !spec_is_better(#[trigger] options[q], options[p])
    &&& forall|q: int| 0 <= q < p ==> spec_is_better(options[p], #[trigger] options[q])
}

/// The candidates for `g` when `routes` are absorbed into `m`.
pub open spec fn spec_absorb_options(
    m: Map<TreeId, RouteView>,
    local_id: TreeId,
    neighbor_id: TreeId,
    routes: Seq<RouteView>,
    g: TreeId,
) -> Seq<RouteView> {
    (if m.contains_key(g) {
        seq![m[g]]
    } else {
        Seq::<RouteView>::empty()
    }) + spec_candidates_for(local_id, neighbor_id, routes, g)
}

proof fn lemma_absorb_winner(
    m: Map<TreeId, RouteView>,
    local_id: TreeId,
    neighbor_id: TreeId,
    routes: Seq<RouteView>,
    g: TreeId,
)
    ensures
        spec_absorb_routes(m, local_id, neighbor_id, routes).contains_key(g) <==> spec_absorb_options(
            m,
            local_id,
            neighbor_id,
            routes,
            g,
        ).len() > 0,
        spec_absorb_routes(m, local_id, neighbor_id, routes).contains_key(g) ==> exists|p: int|
            #[trigger] spec_wins_at(spec_absorb_options(m, local_id, neighbor_id, routes, g), p)
                && spec_absorb_options(m, local_id, neighbor_id, routes, g)[p] == spec_absorb_routes(
                m,
                local_id,
                neighbor_id,
                routes,
            )[g],
    decreases routes.len(),
{
    let base = if m.contains_key(g) {
        seq![m[g]]
    } else {
        Seq::<RouteView>::empty()
    };
    let r = spec_absorb_routes(m, local_id, neighbor_id, routes);
    let options = spec_absorb_options(m, local_id, neighbor_id, routes, g);
    if routes.len() == 0 {
        assert(options =~= base);
        assert(r == m);
        if m.contains_key(g) {
            assert(options[0] == m[g]);
            assert(spec_wins_at(options, 0));
        }
    } else {
        let prefix = routes.drop_last();
        lemma_absorb_winner(m, local_id, neighbor_id, prefix, g);
        let pm = spec_absorb_routes(m, local_id, neighbor_id, prefix);
        let po = spec_absorb_options(m, local_id, neighbor_id, prefix, g);
        let last = routes.last();
        assert(r == spec_absorb_route(pm, local_id, neighbor_id, last));
        if spec_admissible(local_id, last) && last.target.id == g {
            let c = spec_relayed(neighbor_id, last);
            assert(options =~= po.push(c));
            if pm.contains_key(g) && !spec_is_better(c, pm[g]) {
                let p = choose|p: int| #[trigger] spec_wins_at(po, p) && po[p] == pm[g];
                assert(r == pm);
                assert(options[p] == po[p]);
                assert(options[p] == r[g]);
                assert(spec_wins_at(options, p)) by {
                    assert forall|q: int| 0 <= q < options.len() implies !spec_is_better(
                        #[trigger] options[q],
                        options[p],
                    ) by {
                        if q < po.len() {
                            assert(options[q] == po[q]);
                        }
                    }
                    assert forall|q: int| 0 <= q < p implies spec_is_better(
                        options[p],
                        #[trigger] options[q],
                    ) by {
                        assert(options[q] == po[q]);
                    }
                }
            } else {
                let n = options.len() - 1;
                assert(options[n] == c);
                assert(r[g] == c);
                if pm.contains_key(g) {
                    let p = choose|p: int| #[trigger] spec_wins_at(po, p) && po[p] == pm[g];
                    assert forall|q: int| 0 <= q < options.len() implies !spec_is_better(
                        #[trigger] options[q],
                        options[n],
                    ) by {
                        if q < po.len() {
                            assert(options[q] == po[q]);
                            assert(!spec_is_better(po[q], po[p]));
                        }
                    }
                    assert forall|q: int| 0 <= q < n implies spec_is_better(
                        options[n],
                        #[trigger] options[q],
                    ) by {
                        assert(options[q] == po[q]);
                        assert(!spec_is_better(po[q], po[p]));
                    }
                } else {
                    assert(po.len() == 0);
                    assert forall|q: int| 0 <= q < options.len() implies !spec_is_better(
                        #[trigger] options[q],
                        options[n],
                    ) by {}
                }
                assert(spec_wins_at(options, n));
                assert(r.contains_key(g));
            }
        } else {
            assert(options =~= po);
            assert(r.contains_key(g) == pm.contains_key(g));
            if pm.contains_key(g) {
                assert(r[g] == pm[g]);
                let p = choose|p: int| #[trigger] spec_wins_at(po, p) && po[p] == pm[g];
                assert(spec_wins_at(options, p));
            }
        }
    }
}


/// The candidates for target `g` in an exchange with `neighbor`: the route
/// the table had for `g` (the direct route when `g` is the neighbour), then
/// the neighbour's admissible routes to `g`, relayed, in order.
pub open spec fn spec_update_options(
    table: Map<TreeId, RouteView>,
    local_id: TreeId,
    neighbor: TreeInfoView,
    routes: Seq<RouteView>,
    g: TreeId,
) -> Seq<RouteView> {
    (if g == neighbor.id {
        seq![spec_direct_route(neighbor)]
    } else if table.contains_key(g) {
        seq![table[g]]
    } else {
        Seq::<RouteView>::empty()
    }) + spec_candidates_for(local_id, neighbor.id, routes, g)
}

/// Which route an exchange keeps for a target `g`: the table knows `g`
/// afterwards exactly when there is a candidate, and it then keeps one of
/// the candidates that no candidate is better than and that is better than
/// every candidate before it: freer first, then fewer hops, and on a full
/// tie the earliest.
pub proof fn lemma_update_winner(
    table: Map<TreeId, RouteView>,
    local_id: TreeId,
    neighbor: TreeInfoView,
    routes: Seq<RouteView>,
    g: TreeId,
)
    ensures
        spec_update_from_neighbor(table, local_id, neighbor, routes).contains_key(g)
            <==> spec_update_options(table, local_id, neighbor, routes, g).len() > 0,
        spec_update_from_neighbor(table, local_id, neighbor, routes).contains_key(g) ==> exists|
            p: int,
        |
            #[trigger] spec_wins_at(spec_update_options(table, local_id, neighbor, routes, g), p)
                && spec_update_options(table, local_id, neighbor, routes, g)[p]
                == spec_update_from_neighbor(table, local_id, neighbor, routes)[g],
{
    let m = table.insert(neighbor.id, spec_direct_route(neighbor));
    lemma_absorb_winner(m, local_id, neighbor.id, routes, g);
    assert(spec_update_options(table, local_id, neighbor, routes, g) =~= spec_absorb_options(
        m,
        local_id,
        neighbor.id,
        routes,
        g,
    ));
}

/// Anti-hairpinning: an exit whose internet is tunnelled is never chosen
/// over a known exit with a physical uplink that is as free and as near.
pub proof fn lemma_virtual_uplink_penalized(table: Map<TreeId, RouteView>, a: TreeId, b: TreeId)
    requires
        table.contains_key(a),
        table.contains_key(b),
        table[a].target.is_virtual_uplink,
        !table[b].target.is_virtual_uplink,
        table[a].target.freedom == table[b].target.freedom,
        table[a].path.len() >= table[b].path.len(),
    ensures
        spec_exit_score(table[a]) < spec_exit_score(table[b]),
        !spec_is_best_exit(table, a),
{
}

/// Freedom first, then distance: after an exchange, for every admissible
/// route the neighbour advertised, the route kept for its target is at
/// least as free, and when it is exactly as free it has at most one hop
/// more than the advertised route (the hop to the neighbour), at every
/// freedom level.
pub proof fn lemma_update_freer_then_shorter(
    table: Map<TreeId, RouteView>,
    local_id: TreeId,
    neighbor: TreeInfoView,
    routes: Seq<RouteView>,
)
    ensures
        ({
            let after = spec_update_from_neighbor(table, local_id, neighbor, routes);
            forall|i: int| 0 <= i < routes.len() && spec_admissible(local_id, #[trigger] routes[i])
                ==> {
                let kept = after[routes[i].target.id];
                &&& after.contains_key(routes[i].target.id)
                &&& kept.target.freedom.spec_rank() >= routes[i].target.freedom.spec_rank()
                &&& kept.target.freedom.spec_rank() == routes[i].target.freedom.spec_rank()
                    ==> kept.path.len() <= 1 + routes[i].path.len()
            }
        }),
{
    lemma_update_keeps_best(table, local_id, neighbor, routes);
    let after = spec_update_from_neighbor(table, local_id, neighbor, routes);
    assert forall|i: int| 0 <= i < routes.len() && spec_admissible(local_id, #[trigger] routes[i])
        implies {
        let kept = after[routes[i].target.id];
        &&& after.contains_key(routes[i].target.id)
        &&& kept.target.freedom.spec_rank() >= routes[i].target.freedom.spec_rank()
        &&& kept.target.freedom.spec_rank() == routes[i].target.freedom.spec_rank()
            ==> kept.path.len() <= 1 + routes[i].path.len()
    } by {
        let c = spec_relayed(neighbor.id, routes[i]);
        assert(c.path.len() == 1 + routes[i].path.len());
        assert(!spec_is_better(c, after[routes[i].target.id]));
    }
}

/// Freer exits score strictly higher: of two routes with as many hops and
/// the same kind of uplink, the one to the freer target scores more.
pub proof fn lemma_exit_score_increases_with_freedom(a: RouteView, b: RouteView)
    requires
        a.path.len() == b.path.len(),
        a.target.is_virtual_uplink == b.target.is_virtual_uplink,
        a.target.freedom.spec_rank() > b.target.freedom.spec_rank(),
    ensures
        spec_exit_score(a) > spec_exit_score(b),
{
}

/// What freedom and distance are worth against each other in the exit
/// score (same kind of uplink): each hop costs one point; full access is
/// worth four hops over ordinary internet, ordinary internet fifteen hops
/// over white lists only, white lists fifteen hops over no internet; and a
/// tunnelled uplink costs `VIRTUAL_UPLINK_PENALTY` hops. An exit without
/// internet and with a physical uplink, one hop away, scores -1.
pub proof fn lemma_exit_score_trade_offs(a: RouteView, b: RouteView)
    requires
        a.target.is_virtual_uplink == b.target.is_virtual_uplink,
    ensures
        a.target.freedom == b.target.freedom ==> spec_exit_score(a) - spec_exit_score(b)
            == b.path.len() - a.path.len(),
        a.target.freedom == FreedomLevel::Full && b.target.freedom == FreedomLevel::Normal
            && a.path.len() == b.path.len() + 4 ==> spec_exit_score(a) == spec_exit_score(b),
        a.target.freedom == FreedomLevel::Normal && b.target.freedom == FreedomLevel::WhitelistOnly
            && a.path.len() == b.path.len() + 15 ==> spec_exit_score(a) == spec_exit_score(b),
        a.target.freedom == FreedomLevel::WhitelistOnly && b.target.freedom
            == FreedomLevel::Isolated && a.path.len() == b.path.len() + 15 ==> spec_exit_score(a)
            == spec_exit_score(b),
        a.target.freedom == FreedomLevel::Isolated && !a.target.is_virtual_uplink
            && a.path.len() == 1 ==> spec_exit_score(a) == -1,
        ({
            let tunnelled = RouteView {
                target: TreeInfoView { is_virtual_uplink: true, ..a.target },
                path: a.path,
            };
            !a.target.is_virtual_uplink ==> spec_exit_score(a) - spec_exit_score(tunnelled)
                == VIRTUAL_UPLINK_PENALTY
        }),
{
}

} // verus!
