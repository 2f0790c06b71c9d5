use vstd::prelude::*;
use std::collections::{HashMap, HashSet};
use vstd::std_specs::iter::IteratorSpec;
use crate::types::{TreeId, FreedomLevel, RouteView};
use crate::routing::RoutingTable;

verus! {

broadcast use vstd::std_specs::hash::group_hash_axioms;

/// How many needle identities are remembered before the memory is reset.
pub const SEEN_NEEDLES_LIMIT: usize = 10000;

/// The identities `(cone id, sequence number)` of the needles already
/// handled, so that a needle that comes again by another root is dropped.
pub struct SeenNeedles {
    by_cone: HashMap<u128, HashSet<u32>>,
    count: usize,
    seen: Ghost<Set<(u128, u32)>>,
}

impl SeenNeedles {
    #[verifier::type_invariant]
    spec fn inv(self) -> bool {
        &&& self.seen@.finite()
        &&& self.seen@.len() == self.count
        &&& self.count <= SEEN_NEEDLES_LIMIT
        &&& forall|c: u128, s: u32| #[trigger] self.seen@.contains((c, s)) <==> (
        self.by_cone@.contains_key(c) && self.by_cone@[c]@.contains(s))
    }

    /// The identities remembered.
    pub closed spec fn view(&self) -> Set<(u128, u32)> {
        self.seen@
    }

    /// Nothing seen yet.
    pub fn new() -> (r: Self)
        ensures
            r.view() == Set::<(u128, u32)>::empty(),
    {
        SeenNeedles { by_cone: HashMap::new(), count: 0, seen: Ghost(Set::empty()) }
    }

    /// Records the needle `(cone_id, sequence_number)`. Returns whether it
    /// is new; a new identity is remembered, and once more than
    /// `SEEN_NEEDLES_LIMIT` are remembered the memory starts afresh.
    pub fn first_sighting(&mut self, cone_id: u128, sequence_number: u32) -> (fresh: bool)
        ensures
            fresh == !old(self).view().contains((cone_id, sequence_number)),
            !fresh ==> final(self).view() == old(self).view(),
            fresh ==> final(self).view() == (if old(self).view().len() + 1 > SEEN_NEEDLES_LIMIT {
                Set::<(u128, u32)>::empty()
            } else {
                old(self).view().insert((cone_id, sequence_number))
            }),
    {
        proof {
            use_type_invariant(&*self);
        }
        let known = match self.by_cone.get(&cone_id) {
            Some(set) => set.contains(&sequence_number),
            None => false,
        };
        if known {
            return false;
        }
        let ghost old_seen = self.seen@;
        let mut taken = SeenNeedles::new();
        std::mem::swap(&mut taken, self);
        proof {
            use_type_invariant(&taken);
        }
        let SeenNeedles { by_cone: mut by_cone, count: old_count, seen: _ } = taken;
        proof {
            assert(!old_seen.contains((cone_id, sequence_number)));
        }
        let mut set = match by_cone.remove(&cone_id) {
            Some(set) => set,
            None => HashSet::new(),
        };
        set.insert(sequence_number);
        by_cone.insert(cone_id, set);
        let count = old_count + 1;
        let ghost seen = old_seen.insert((cone_id, sequence_number));
        proof {
            assert forall|c: u128, s: u32| #[trigger] seen.contains((c, s)) <==> (by_cone@.contains_key(c)
                && by_cone@[c]@.contains(s)) by {
                if c != cone_id {
                    assert(old_seen.contains((c, s)) == seen.contains((c, s)));
                }
            }
        }
        if count > SEEN_NEEDLES_LIMIT {
            *self = SeenNeedles { by_cone: HashMap::new(), count: 0, seen: Ghost(Set::empty()) };
        } else {
            *self = SeenNeedles { by_cone, count, seen: Ghost(seen) };
        }
        true
    }
}

/// What a node does with a needle it received.
#[derive(Debug, Clone, Copy, PartialEq, Eq, Structural)]
pub enum NeedleDisposition {
    /// Addressed to everyone (the broadcast id): pass it on to all
    /// neighbours and reassemble it.
    Gossip,
    /// Addressed to this node: reassemble and open it.
    Deliver,
    /// Addressed to another node: drop it.
    Ignore,
}

/// Decides what to do with a needle for `target_tree` at node `local_id`.
pub fn classify_needle(target_tree: TreeId, local_id: TreeId) -> (d: NeedleDisposition)
    ensures
        target_tree == 0 ==> d == NeedleDisposition::Gossip,
        target_tree != 0 && target_tree == local_id ==> d == NeedleDisposition::Deliver,
        target_tree != 0 && target_tree != local_id ==> d == NeedleDisposition::Ignore,
{
    if target_tree == 0 {
        NeedleDisposition::Gossip
    } else if target_tree == local_id {
        NeedleDisposition::Deliver
    } else {
        NeedleDisposition::Ignore
    }
}

/// What a node does with an onion layer that it peeled and that names the
/// next hop.
#[derive(Debug, Clone, Copy, PartialEq, Eq, Structural)]
pub enum LayerAction {
    /// Send the inner bytes to this first hop of the route to the next hop.
    Forward(TreeId),
    /// No route: keep the inner bytes in the store-and-forward buffer.
    Store,
}

/// Decides where a peeled layer for `next_hop` goes: along the known route
/// to it, or into the transit buffer when no route is known.
pub fn layer_action(table: &RoutingTable, next_hop: TreeId) -> (a: LayerAction)
    requires
        table@.contains_key(next_hop) ==> table@[next_hop].path.len() >= 1,
    ensures
        table@.contains_key(next_hop) ==> a == LayerAction::Forward(table@[next_hop].path[0]),
        !table@.contains_key(next_hop) ==> a == LayerAction::Store,
{
    match table.get_path(&next_hop) {
        Some(path) => LayerAction::Forward(path[0]),
        None => LayerAction::Store,
    }
}

/// The side of the SOCKS5 tunnel a stream belongs to.
#[derive(Debug, Clone, Copy, PartialEq, Eq, Structural)]
pub enum StreamSide {
    /// A stream opened by a local SOCKS5 client.
    Local,
    /// A stream this node opened as exit node.
    Exit,
}

/// Where proxied data for a stream goes: a local stream first, else an
/// exit stream, else nowhere.
pub fn data_destination(in_local: bool, in_exit: bool) -> (d: Option<StreamSide>)
    ensures
        in_local ==> d == Some(StreamSide::Local),
        !in_local && in_exit ==> d == Some(StreamSide::Exit),
        !in_local && !in_exit ==> d is None,
{
    if in_local {
        Some(StreamSide::Local)
    } else if in_exit {
        Some(StreamSide::Exit)
    } else {
        None
    }
}

/// The address probed to see whether the node is freer than `level`:
/// a white-listed site, then an ordinary site, then a usually blocked one;
/// nothing beyond full access.
pub fn freedom_probe(level: FreedomLevel) -> (url: Option<&'static str>)
    ensures
        match level {
            FreedomLevel::Isolated => url matches Some(u) && u@ == "https://ya.ru"@,
            FreedomLevel::WhitelistOnly => url matches Some(u) && u@ == "https://coworking.tyuiu.ru"@,
            FreedomLevel::Normal => url matches Some(u) && u@ == "https://discord.com"@,
            FreedomLevel::Full => url is None,
        },
{
    match level {
        FreedomLevel::Isolated => Some("https://ya.ru"),
        FreedomLevel::WhitelistOnly => Some("https://coworking.tyuiu.ru"),
        FreedomLevel::Normal => Some("https://discord.com"),
        FreedomLevel::Full => None,
    }
}

/// The level reached once the probe for `level` succeeded: the next one.
pub fn freedom_promoted(level: FreedomLevel) -> (next: FreedomLevel)
    requires
        level != FreedomLevel::Full,
    ensures
        next.spec_rank() == level.spec_rank() + 1,
{
    match level {
        FreedomLevel::Isolated => FreedomLevel::WhitelistOnly,
        FreedomLevel::WhitelistOnly => FreedomLevel::Normal,
        _ => FreedomLevel::Full,
    }
}

/// The level the probes give: one step per probe that succeeded in a row.
pub open spec fn spec_freedom_from_probes(whitelist: bool, normal: bool, full: bool) -> FreedomLevel {
    if !whitelist {
        FreedomLevel::Isolated
    } else if !normal {
        FreedomLevel::WhitelistOnly
    } else if !full {
        FreedomLevel::Normal
    } else {
        FreedomLevel::Full
    }
}

/// The freedom level from the outcome of the three probes (later probes
/// count only after the earlier ones succeeded).
pub fn freedom_from_probes(whitelist: bool, normal: bool, full: bool) -> (level: FreedomLevel)
    ensures
        level == spec_freedom_from_probes(whitelist, normal, full),
{
    let mut level = FreedomLevel::Isolated;
    if whitelist {
        level = freedom_promoted(level);
        if normal {
            level = freedom_promoted(level);
            if full {
                level = freedom_promoted(level);
            }
        }
    }
    level
}

/// Whether the node's internet is virtual (tunnelled): the device has no
/// physical uplink, or local SOCKS5 streams are open, so its own traffic
/// already goes out through the mesh.
pub fn uplink_is_virtual(has_real_uplink: bool, open_local_streams: usize) -> (r: bool)
    ensures
        r == (!has_real_uplink || open_local_streams > 0),
{
    !has_real_uplink || open_local_streams > 0
}

/// How many open exit streams an exit node serves before it slows down.
pub const EXIT_THROTTLE_STREAMS: usize = 3;

/// The pause, in milliseconds, before relaying a chunk of a busy exit node.
pub const EXIT_THROTTLE_MILLIS: u64 = 10;

/// The pause before an exit node relays a chunk read from the internet:
/// `EXIT_THROTTLE_MILLIS` while more than `EXIT_THROTTLE_STREAMS` exit
/// streams are open, none otherwise.
pub fn exit_throttle_millis(active_streams: usize) -> (pause: u64)
    ensures
        pause == (if active_streams > EXIT_THROTTLE_STREAMS {
            EXIT_THROTTLE_MILLIS
        } else {
            0
        }),
{
    if active_streams > EXIT_THROTTLE_STREAMS {
        EXIT_THROTTLE_MILLIS
    } else {
        0
    }
}

/// A row of the route dashboard: target, next hop (0 when the path is
/// empty), hop count, and the target's freedom.
pub open spec fn spec_route_row(target: TreeId, route: RouteView) -> (TreeId, TreeId, u32, FreedomLevel) {
    (
        target,
        if route.path.len() > 0 {
            route.path[0]
        } else {
            0
        },
        route.path.len() as u32,
        route.target.freedom,
    )
}

/// The dashboard rows of the routing table, one per target, in the order
/// the table is walked.
pub fn route_rows(table: &RoutingTable) -> (rows: Vec<(TreeId, TreeId, u32, FreedomLevel)>)
    ensures
        rows@.len() == table@.len(),
        rows@.to_set() == table@.dom().map(|t: TreeId| spec_route_row(t, table@[t])),
{
    let entries = &table.entries;
    let ghost s0 = vstd::std_specs::hash::spec_hash_map_iter(entries).remaining();
    let mut rows: Vec<(TreeId, TreeId, u32, FreedomLevel)> = Vec::new();
    for item in it: entries.iter()
        invariant
            it.seq() == s0,
            s0.len() == entries@.dom().len(),
            forall|j: int| 0 <= j < s0.len() ==> #[trigger] entries@.contains_key(*s0[j].0)
                && entries@[*s0[j].0] == *s0[j].1,
            forall|k: TreeId| #[trigger] entries@.contains_key(k) ==> s0.contains(
                (&k, &entries@[k]),
            ),
            rows@.len() == it.index(),
            forall|j: int| 0 <= j < it.index() ==> #[trigger] rows@[j] == spec_route_row(*s0[j].0, s0[j].1@),
    {
        let (target, route) = item;
        let next_hop = if route.path.len() > 0 {
            route.path[0]
        } else {
            0
        };
        #[verifier::truncate]
        let hops = route.path.len() as u32;
        rows.push((*target, next_hop, hops, route.target_info.freedom));
    }
    proof {
        let m = table@;
        assert(m.dom() =~= entries@.dom());
        let f = |t: TreeId| spec_route_row(t, m[t]);
        assert forall|r: (TreeId, TreeId, u32, FreedomLevel)| rows@.to_set().contains(r) <==> #[trigger] m.dom().map(f).contains(r) by {
            if rows@.to_set().contains(r) {
                let j = choose|j: int| 0 <= j < rows@.len() && rows@[j] == r;
                let t = *s0[j].0;
                assert(entries@.contains_key(t));
                assert(m[t] == entries@[t]@);
                assert(f(t) == r);
                assert(m.dom().contains(t));
            }
            if m.dom().map(f).contains(r) {
                let t = choose|t: TreeId| m.dom().contains(t) && f(t) == r;
                assert(s0.contains((&t, &entries@[t])));
                let j = choose|j: int| 0 <= j < s0.len() && s0[j] == (&t, &entries@[t]);
                assert(rows@[j] == r);
                assert(rows@.contains(r));
            }
        }
        assert(rows@.to_set() =~= m.dom().map(f));
    }
    rows
}

} // verus!
