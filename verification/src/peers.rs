use vstd::prelude::*;
use std::collections::HashMap;
use vstd::std_specs::iter::IteratorSpec;
use crate::types::{TreeId, TreeInfo, TreeInfoView, RouteUpdate, RouteView, NodeStatus, FreedomLevel};
use crate::routing::spec_route_views;

verus! {

broadcast use vstd::std_specs::hash::group_hash_axioms;

/// The first UDP port of the local simulation range.
pub const DISCOVERY_FIRST_PORT: u16 = 40000;

/// The last UDP port of the local simulation range.
pub const DISCOVERY_LAST_PORT: u16 = 40020;

/// What a transport knows of a neighbour: the link it is reached by (a
/// handle that the transport gives each socket address, stream or MAC), its
/// metadata, and the routes it advertised.
#[derive(Debug)]
pub struct PeerEntry {
    pub link: u64,
    pub info: TreeInfo,
    pub routes: Vec<RouteUpdate>,
}

/// Mathematical value of a [`PeerEntry`].
pub struct PeerView {
    pub link: u64,
    pub info: TreeInfoView,
    pub routes: Seq<RouteView>,
}

impl View for PeerEntry {
    type V = PeerView;

    open spec fn view(&self) -> PeerView {
        PeerView { link: self.link, info: self.info@, routes: spec_route_views(self.routes@) }
    }
}

/// Clones a list of routes.
pub fn clone_routes(routes: &Vec<RouteUpdate>) -> (r: Vec<RouteUpdate>)
    ensures
        spec_route_views(r@) == spec_route_views(routes@),
{
    let mut out: Vec<RouteUpdate> = Vec::new();
    let mut i: usize = 0;
    while i < routes.len()
        invariant
            i <= routes@.len(),
            spec_route_views(out@) =~= spec_route_views(routes@).take(i as int),
        decreases routes@.len() - i,
    {
        let ghost before = spec_route_views(out@);
        out.push(routes[i].clone());
        assert(spec_route_views(out@) =~= before.push(routes@[i as int]@));
        i = i + 1;
    }
    assert(spec_route_views(routes@).take(i as int) =~= spec_route_views(routes@));
    out
}

/// The neighbours a transport has met, by identifier.
#[derive(Debug)]
pub struct PeerTable {
    pub peers: HashMap<TreeId, PeerEntry>,
}

impl View for PeerTable {
    type V = Map<TreeId, PeerView>;

    open spec fn view(&self) -> Map<TreeId, PeerView> {
        self.peers@.map_values(|p: PeerEntry| p@)
    }
}

impl PeerTable {
    /// A table with no neighbour.
    pub fn new() -> (t: Self)
        ensures
            t@ == Map::<TreeId, PeerView>::empty(),
    {
        let t = PeerTable { peers: HashMap::new() };
        assert(t@ =~= Map::<TreeId, PeerView>::empty());
        t
    }

    /// Remembers (or refreshes) a neighbour met over `link`.
    pub fn record_peer(&mut self, link: u64, info: TreeInfo, routes: Vec<RouteUpdate>)
        ensures
            final(self)@ == old(self)@.insert(
                info.id,
                PeerView { link: link, info: info@, routes: spec_route_views(routes@) },
            ),
    {
        let id = info.id;
        let entry = PeerEntry { link, info, routes };
        self.peers.insert(id, entry);
        assert(final(self)@ =~= old(self)@.insert(id, entry@));
    }

    /// A discovery request arrived over `link`. A request from another node
    /// is recorded and must be answered (`true`); one carrying the local
    /// identifier is an echo of our own broadcast and is ignored (`false`).
    pub fn on_discover_request(
        &mut self,
        local_id: TreeId,
        link: u64,
        info: TreeInfo,
        routes: Vec<RouteUpdate>,
    ) -> (answer: bool)
        ensures
            answer == (info.id != local_id),
            answer ==> final(self)@ == old(self)@.insert(
                info.id,
                PeerView { link: link, info: info@, routes: spec_route_views(routes@) },
            ),
            !answer ==> final(self)@ == old(self)@,
    {
        if info.id != local_id {
            self.record_peer(link, info, routes);
            true
        } else {
            false
        }
    }

    /// The links to send to: every neighbour's for the broadcast identifier
    /// (0), the addressed neighbour's otherwise, or `None` when it is
    /// unknown.
    pub fn send_links(&self, to: TreeId) -> (r: Option<Vec<u64>>)
        ensures
            to == 0 ==> (r matches Some(links) && links@.len() == self@.len() && (forall|t: TreeId|
                #[trigger] self@.contains_key(t) ==> links@.contains(self@[t].link)) && (forall|
                l: u64,
            | #[trigger] links@.contains(l) ==> exists|t: TreeId|
                self@.contains_key(t) && self@[t].link == l)),
            to != 0 ==> (r is Some <==> self@.contains_key(to)),
            to != 0 && self@.contains_key(to) ==> (r matches Some(links) && links@ == seq![
                self@[to].link,
            ]),
    {
        if to == 0 {
            let ghost s0 = vstd::std_specs::hash::spec_hash_map_iter(&self.peers).remaining();
            let mut links: Vec<u64> = Vec::new();
            for item in it: self.peers.iter()
                invariant
                    it.seq() == s0,
                    s0.len() == self.peers@.dom().len(),
                    forall|j: int| 0 <= j < s0.len() ==> #[trigger] self.peers@.contains_key(*s0[j].0)
                        && self.peers@[*s0[j].0] == *s0[j].1,
                    forall|k: TreeId| #[trigger] self.peers@.contains_key(k) ==> s0.contains(
                        (&k, &self.peers@[k]),
                    ),
                    links@.len() == it.index(),
                    forall|j: int| 0 <= j < it.index() ==> links@[j] == s0[j].1.link,
            {
                let (_, entry) = item;
                links.push(entry.link);
            }
            proof {
                assert(self@.dom() =~= self.peers@.dom());
                assert forall|t: TreeId| #[trigger] self@.contains_key(t) implies links@.contains(
                    self@[t].link,
                ) by {
                    assert(s0.contains((&t, &self.peers@[t])));
                    let j = choose|j: int| 0 <= j < s0.len() && s0[j] == (&t, &self.peers@[t]);
                    assert(links@[j] == self@[t].link);
                }
                assert forall|l: u64| #[trigger] links@.contains(l) implies exists|t: TreeId|
                    self@.contains_key(t) && self@[t].link == l by {
                    let j = choose|j: int| 0 <= j < links@.len() && links@[j] == l;
                    assert(self.peers@.contains_key(*s0[j].0));
                }
            }
            Some(links)
        } else {
            match self.peers.get(&to) {
                Some(entry) => {
                    let mut links: Vec<u64> = Vec::new();
                    links.push(entry.link);
                    assert(links@ =~= seq![self@[to].link]);
                    Some(links)
                },
                None => None,
            }
        }
    }

    /// The neighbour a packet that came over `link` is from: one whose link
    /// it is, or 0 when none is.
    pub fn sender_of(&self, link: u64) -> (id: TreeId)
        ensures
            id == 0 ==> forall|t: TreeId| #[trigger] self@.contains_key(t) && t != 0 ==> self@[t].link
                != link,
            id != 0 ==> self@.contains_key(id) && self@[id].link == link,
    {
        let ghost s0 = vstd::std_specs::hash::spec_hash_map_iter(&self.peers).remaining();
        let mut sender: TreeId = 0;
        for item in it: self.peers.iter()
            invariant
                it.seq() == s0,
                forall|j: int| 0 <= j < s0.len() ==> #[trigger] self.peers@.contains_key(*s0[j].0)
                    && self.peers@[*s0[j].0] == *s0[j].1,
                forall|k: TreeId| #[trigger] self.peers@.contains_key(k) ==> s0.contains(
                    (&k, &self.peers@[k]),
                ),
                sender == 0,
                forall|j: int| 0 <= j < it.index() && *s0[j].0 != 0 ==> s0[j].1.link != link,
        {
            let (id, entry) = item;
            let ghost idx = it.index();
            assert(item == s0[idx]);
            if entry.link == link && *id != 0 {
                proof {
                    assert(self.peers@.contains_key(*s0[idx].0));
                }
                return *id;
            }
        }
        proof {
            assert forall|t: TreeId| #[trigger] self@.contains_key(t) && t != 0 implies self@[t].link
                != link by {
                assert(self.peers@.contains_key(t));
                assert(s0.contains((&t, &self.peers@[t])));
                let j = choose|j: int| 0 <= j < s0.len() && s0[j] == (&t, &self.peers@[t]);
            }
        }
        0
    }

    /// What a neighbour scan reports: each neighbour's metadata with the
    /// routes it advertised, in the order the table is walked.
    pub fn neighbors(&self) -> (r: Vec<(TreeInfo, Vec<RouteUpdate>)>)
        ensures
            r@.len() == self@.len(),
            forall|t: TreeId| #[trigger] self@.contains_key(t) ==> exists|j: int|
                0 <= j < r@.len() && r@[j].0@ == self@[t].info && spec_route_views(r@[j].1@)
                    == self@[t].routes,
            forall|j: int|
                #![trigger r@[j]]
                0 <= j < r@.len() ==> exists|t: TreeId|
                    #![trigger self@[t]]
                    self@.contains_key(t) && r@[j].0@ == self@[t].info && spec_route_views(r@[j].1@)
                        == self@[t].routes,
    {
        let ghost s0 = vstd::std_specs::hash::spec_hash_map_iter(&self.peers).remaining();
        let mut out: Vec<(TreeInfo, Vec<RouteUpdate>)> = Vec::new();
        for item in it: self.peers.iter()
            invariant
                it.seq() == s0,
                s0.len() == self.peers@.dom().len(),
                forall|j: int| 0 <= j < s0.len() ==> #[trigger] self.peers@.contains_key(*s0[j].0)
                    && self.peers@[*s0[j].0] == *s0[j].1,
                forall|k: TreeId| #[trigger] self.peers@.contains_key(k) ==> s0.contains(
                    (&k, &self.peers@[k]),
                ),
                out@.len() == it.index(),
                forall|j: int| 0 <= j < it.index() ==> #[trigger] out@[j].0@ == s0[j].1.info@
                    && spec_route_views(out@[j].1@) == spec_route_views(s0[j].1.routes@),
        {
            let (_, entry) = item;
            out.push((entry.info.clone(), clone_routes(&entry.routes)));
        }
        proof {
            assert(self@.dom() =~= self.peers@.dom());
            assert forall|t: TreeId| #[trigger] self@.contains_key(t) implies exists|j: int|
                0 <= j < out@.len() && out@[j].0@ == self@[t].info && spec_route_views(out@[j].1@)
                    == self@[t].routes by {
                assert(s0.contains((&t, &self.peers@[t])));
                let j = choose|j: int| 0 <= j < s0.len() && s0[j] == (&t, &self.peers@[t]);
                assert(out@[j].0@ == s0[j].1.info@);
            }
            assert forall|j: int|
                #![trigger out@[j]]
                0 <= j < out@.len() implies exists|t: TreeId|
                    #![trigger self@[t]]
                    self@.contains_key(t) && out@[j].0@ == self@[t].info && spec_route_views(
                        out@[j].1@,
                    ) == self@[t].routes by {
                assert(out@[j].0@ == s0[j].1.info@);
                let t = *s0[j].0;
                assert(self.peers@.contains_key(t));
                assert(self@.contains_key(t));
                assert(self@[t] == self.peers@[t]@);
            }
        }
        out
    }
}

/// Metadata assumed for a neighbour found by a Bluetooth scan, before any
/// exchange: an ordinary Tree without key and without internet.
pub fn scanned_neighbor_info(id: TreeId) -> (info: TreeInfo)
    ensures
        info@ == (TreeInfoView {
            id: id,
            status: NodeStatus::Tree,
            public_key: Seq::empty(),
            freedom: FreedomLevel::Isolated,
            is_virtual_uplink: false,
        }),
{
    let info = TreeInfo {
        id,
        status: NodeStatus::Tree,
        public_key: Vec::new(),
        freedom: FreedomLevel::Isolated,
        is_virtual_uplink: false,
    };
    assert(info.public_key@ =~= Seq::<u8>::empty());
    info
}

/// The ports a discovery broadcast goes to: the simulation range
/// `40000 ..= 40020`, in order, without the local port.
pub fn discovery_ports(local_port: u16) -> (ports: Vec<u16>)
    ensures
        ports@ == Seq::new(21, |i: int| (40000 + i) as u16).filter(|p: u16| p != local_port),
{
    let ghost all = Seq::new(21, |i: int| (40000 + i) as u16);
    let mut ports: Vec<u16> = Vec::new();
    let mut p: u16 = DISCOVERY_FIRST_PORT;
    while p <= DISCOVERY_LAST_PORT
        invariant
            40000 <= p <= 40021,
            all == Seq::new(21, |i: int| (40000 + i) as u16),
            ports@ == all.take(p - 40000).filter(|q: u16| q != local_port),
        decreases 40021 - p,
    {
        let ghost k = p - 40000;
        assert(all.take(k + 1).drop_last() =~= all.take(k));
        assert(all.take(k + 1).last() == p);
        reveal_with_fuel(Seq::filter, 1);
        if p != local_port {
            ports.push(p);
        }
        p = p + 1;
    }
    assert(all.take(21) =~= all);
    ports
}

} // verus!
