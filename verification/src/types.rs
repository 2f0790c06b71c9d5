use vstd::prelude::*;

verus! {

/// Identifier of a device in the mesh (a Tree or a Clearing): the 128-bit
/// value of its UUID.
pub type TreeId = u128;

/// The identifier that addresses every neighbour at once (the nil UUID).
pub open spec fn spec_broadcast_id() -> TreeId {
    0
}

/// Role of a node in the network.
#[derive(Clone, Copy, Debug, PartialEq, Eq, Structural)]
pub enum NodeStatus {
    /// Ordinary user without internet that relays traffic.
    Tree,
    /// Static exit node.
    Clearing,
    /// Mobile exit node.
    Ranger,
}

/// How freely a node reaches the global internet, from worst to best.
#[derive(Clone, Copy, Debug, PartialEq, Eq, Structural, PartialOrd, Ord, Hash)]
pub enum FreedomLevel {
    /// Only the local mesh, no internet.
    Isolated,
    /// Only state white-listed resources.
    WhitelistOnly,
    /// Ordinary internet outside the white lists.
    Normal,
    /// Uncensored access.
    Full,
}

impl FreedomLevel {
    /// Position of the level in the order `Isolated < WhitelistOnly < Normal < Full`.
    pub open spec fn spec_rank(self) -> u8 {
        match self {
            FreedomLevel::Isolated => 0,
            FreedomLevel::WhitelistOnly => 1,
            FreedomLevel::Normal => 2,
            FreedomLevel::Full => 3,
        }
    }

    /// The rank of the level; the derived order of the enum compares ranks.
    pub fn rank(&self) -> (r: u8)
        ensures
            r == self.spec_rank(),
    {
        match self {
            FreedomLevel::Isolated => 0,
            FreedomLevel::WhitelistOnly => 1,
            FreedomLevel::Normal => 2,
            FreedomLevel::Full => 3,
        }
    }
}


/// Metadata of a Tree that its neighbours see.
#[derive(Debug)]
pub struct TreeInfo {
    pub id: TreeId,
    pub status: NodeStatus,
    /// Public key for end-to-end encryption.
    pub public_key: Vec<u8>,
    /// How freely the node reaches the global network.
    pub freedom: FreedomLevel,
    /// The node's internet is itself tunnelled (no physical uplink, or it
    /// already proxies through the mesh): routing through it as an exit
    /// would loop back into the mesh (hairpinning).
    pub is_virtual_uplink: bool,
}

/// Mathematical value of a [`TreeInfo`].
pub struct TreeInfoView {
    pub id: TreeId,
    pub status: NodeStatus,
    pub public_key: Seq<u8>,
    pub freedom: FreedomLevel,
    pub is_virtual_uplink: bool,
}

impl View for TreeInfo {
    type V = TreeInfoView;

    open spec fn view(&self) -> TreeInfoView {
        TreeInfoView {
            id: self.id,
            status: self.status,
            public_key: self.public_key@,
            freedom: self.freedom,
            is_virtual_uplink: self.is_virtual_uplink,
        }
    }
}

impl Clone for TreeInfo {
    fn clone(&self) -> (r: Self)
        ensures
            r@ == self@,
    {
        TreeInfo {
            id: self.id,
            status: self.status,
            public_key: self.public_key.clone(),
            freedom: self.freedom,
            is_virtual_uplink: self.is_virtual_uplink,
        }
    }
}

/// A route to a target: its metadata and the hops to reach it,
/// `[next hop, ..., target]`.
#[derive(Debug)]
pub struct RouteUpdate {
    pub target_info: TreeInfo,
    pub path: Vec<TreeId>,
}

/// Mathematical value of a [`RouteUpdate`].
pub struct RouteView {
    pub target: TreeInfoView,
    pub path: Seq<TreeId>,
}

impl View for RouteUpdate {
    type V = RouteView;

    open spec fn view(&self) -> RouteView {
        RouteView { target: self.target_info@, path: self.path@ }
    }
}

impl Clone for RouteUpdate {
    fn clone(&self) -> (r: Self)
        ensures
            r@ == self@,
    {
        RouteUpdate { target_info: self.target_info.clone(), path: self.path.clone() }
    }
}


/// A fragment of a large payload (a Cone), as the multiplexer cuts it.
#[derive(Debug)]
pub struct Needle {
    /// Identifier of the whole payload.
    pub cone_id: u128,
    /// Position of this fragment.
    pub sequence_number: u32,
    /// Number of fragments of the payload.
    pub total_needles: u32,
    /// Bytes of this fragment.
    pub payload: Vec<u8>,
    /// The node the payload is for.
    pub target_tree: TreeId,
}

/// Mathematical value of a [`Needle`].
pub struct NeedleView {
    pub cone_id: u128,
    pub sequence_number: u32,
    pub total_needles: u32,
    pub payload: Seq<u8>,
    pub target_tree: TreeId,
}

impl View for Needle {
    type V = NeedleView;

    open spec fn view(&self) -> NeedleView {
        NeedleView {
            cone_id: self.cone_id,
            sequence_number: self.sequence_number,
            total_needles: self.total_needles,
            payload: self.payload@,
            target_tree: self.target_tree,
        }
    }
}

impl Clone for Needle {
    fn clone(&self) -> (r: Self)
        ensures
            r@ == self@,
    {
        Needle {
            cone_id: self.cone_id,
            sequence_number: self.sequence_number,
            total_needles: self.total_needles,
            payload: self.payload.clone(),
            target_tree: self.target_tree,
        }
    }
}


/// What the SOCKS5 tunnel carries between a client node and an exit node.
#[derive(Debug)]
pub enum MeshProxyPayload {
    /// Ask the exit node to open a TCP connection to `host:port`.
    Connect { stream_id: u32, host: String, port: u16 },
    /// Bytes of an open stream, in either direction.
    Data { stream_id: u32, data: Vec<u8> },
    /// The stream is closed.
    Close { stream_id: u32 },
}

/// Messages of a proxied stream on an exit node: open, data, close.
#[derive(Debug)]
pub enum MeshPayload {
    /// Open a TCP connection to `host:port`.
    Connect { stream_id: u32, host: String, port: u16 },
    /// Bytes of an open stream.
    Data { stream_id: u32, data: Vec<u8> },
    /// The stream is closed.
    Close { stream_id: u32 },
}

/// A layer of an onion.
#[derive(Debug)]
pub enum Onion {
    /// The innermost layer: who sent it and the payload.
    Core { sender: TreeId, payload: Vec<u8> },
    /// A transit layer: who to pass the sealed inner layer on to.
    Layer { next_hop: TreeId, encrypted_data: Vec<u8> },
}

} // verus!
