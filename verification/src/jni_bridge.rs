use vstd::prelude::*;
use std::sync::mpsc::Sender;
use jni::{AttachGuard, JavaVM};
use crate::types::TreeId;

verus! {

#[verifier::external_type_specification]
#[verifier::external_body]
#[verifier::reject_recursive_types(T)]
pub struct ExSender<T>(Sender<T>);

#[verifier::external_type_specification]
#[verifier::external_body]
pub struct ExJavaVM(JavaVM);

#[verifier::external_type_specification]
#[verifier::external_body]
pub struct ExAttachGuard<'local>(AttachGuard<'local>);

#[verifier::external_type_specification]
#[verifier::external_body]
pub struct ExJniError(jni::errors::Error);

/// What the Android side reports to the core.
#[derive(Debug, Clone)]
pub enum JniEvent {
    /// A Bluetooth scan found a device: its MAC and the 16 bytes of its id.
    BleDeviceDiscovered(String, Vec<u8>),
    /// Bytes arrived over Bluetooth GATT from a MAC.
    BleMessageReceived(String, Vec<u8>),
    /// A Wi-Fi Direct group is up.
    WifiDirectConnected { ip: String, is_group_owner: bool },
    /// The Wi-Fi Direct group is gone.
    WifiDirectDisconnected,
}

/// State shared between the Android entry points and the core: where
/// events go, the node id Android keeps, and the Java VM.
pub struct JniBridge {
    pub event_tx: Option<Sender<JniEvent>>,
    pub node_id: Option<TreeId>,
    pub jvm: Option<JavaVM>,
}

/// Calls `Sender::send` (std) and drops its result: when the receiving side
/// is gone the event is lost, as the caller wants; nothing is stated.
#[verifier::external_body]
fn channel_send(tx: &Sender<JniEvent>, event: JniEvent) {
    let _ = tx.send(event);
}

/// Calls `JavaVM::attach_current_thread` (jni). Whether it succeeds depends
/// on the VM: nothing is stated.
#[verifier::external_body]
fn attach_current_thread(vm: &JavaVM) -> (r: Result<AttachGuard<'_>, jni::errors::Error>) {
    vm.attach_current_thread()
}

/// Calls the static Java method `MyceliumCore.hasPhysicalInternet()Z` with
/// `JNIEnv::call_static_method` (jni) and converts the returned value to a
/// `bool` with `JValueGen::z`. The answer comes from Android: nothing is
/// stated.
#[verifier::external_body]
fn call_has_physical_internet(env: &mut AttachGuard<'_>) -> (r: Result<bool, jni::errors::Error>) {
    match env.call_static_method("com/taiga/mesh/MyceliumCore", "hasPhysicalInternet", "()Z", &[]) {
        Ok(value) => value.z(),
        Err(e) => Err(e),
    }
}

/// The big-endian value of the first `n` bytes.
pub open spec fn spec_be_value(bytes: Seq<u8>, n: nat) -> int
    decreases n,
{
    if n == 0 {
        0
    } else {
        spec_be_value(bytes, (n - 1) as nat) * 256 + bytes[n - 1]
    }
}

/// The identifier whose UUID has the given 16 bytes (big endian), as
/// `Uuid::from_slice` reads it; `None` for another length.
pub open spec fn spec_tree_id_from_bytes(bytes: Seq<u8>) -> Option<TreeId> {
    if bytes.len() != 16 {
        None
    } else {
        Some(spec_be_value(bytes, 16) as u128)
    }
}

proof fn lemma_be_value_bound(bytes: Seq<u8>, n: nat)
    requires
        n <= bytes.len(),
    ensures
        0 <= spec_be_value(bytes, n) < vstd::arithmetic::power2::pow2(8 * n),
    decreases n,
{
    vstd::arithmetic::power2::lemma2_to64();
    if n > 0 {
        lemma_be_value_bound(bytes, (n - 1) as nat);
        let prev = spec_be_value(bytes, (n - 1) as nat);
        let p = vstd::arithmetic::power2::pow2((8 * (n - 1)) as nat);
        vstd::arithmetic::power2::lemma_pow2_adds((8 * (n - 1)) as nat, 8);
        assert((8 * (n - 1)) as nat + 8 == 8 * n);
        let b = bytes[n - 1] as int;
        assert(prev * 256 + b < p * 256) by (nonlinear_arith)
            requires
                0 <= prev < p,
                0 <= b < 256,
        ;
        assert(prev * 256 + b >= 0) by (nonlinear_arith)
            requires
                0 <= prev,
                0 <= b,
        ;
    }
}

proof fn lemma_pow2_128()
    ensures
        vstd::arithmetic::power2::pow2(128) == u128::MAX + 1,
{
    vstd::arithmetic::power2::lemma2_to64_rest();
    vstd::arithmetic::power2::lemma_pow2_adds(64, 64);
}

proof fn lemma_pow2_le_128(e: nat)
    requires
        e <= 128,
    ensures
        vstd::arithmetic::power2::pow2(e) <= vstd::arithmetic::power2::pow2(128),
{
    if e < 128 {
        vstd::arithmetic::power2::lemma_pow2_strictly_increases(e, 128);
    }
}

/// Reads a node identifier from the 16 bytes of its UUID.
pub fn tree_id_from_bytes(bytes: &[u8]) -> (id: Option<TreeId>)
    ensures
        id == spec_tree_id_from_bytes(bytes@),
{
    if bytes.len() != 16 {
        return None;
    }
    let mut value: u128 = 0;
    let mut i: usize = 0;
    while i < 16
        invariant
            i <= 16,
            bytes@.len() == 16,
            value as int == spec_be_value(bytes@, i as nat),
        decreases 16 - i,
    {
        proof {
            lemma_be_value_bound(bytes@, (i + 1) as nat);
            lemma_pow2_le_128((8 * (i + 1)) as nat);
            lemma_pow2_128();
        }
        value = value * 256 + bytes[i] as u128;
        i = i + 1;
    }
    Some(value)
}

/// The event for a Bluetooth device found by a scan: only a device that
/// announces a 16-byte identifier is reported.
pub fn ble_discovery_event(mac: String, id_bytes: Vec<u8>) -> (e: Option<JniEvent>)
    ensures
        id_bytes@.len() == 16 ==> (e matches Some(JniEvent::BleDeviceDiscovered(m, b)) && m == mac
            && b@ == id_bytes@),
        id_bytes@.len() != 16 ==> e is None,
{
    if id_bytes.len() == 16 {
        Some(JniEvent::BleDeviceDiscovered(mac, id_bytes))
    } else {
        None
    }
}

impl JniBridge {
    /// Nothing registered yet.
    pub fn new() -> (b: Self)
        ensures
            b.event_tx is None,
            b.node_id is None,
            b.jvm is None,
    {
        JniBridge { event_tx: None, node_id: None, jvm: None }
    }

    /// Keeps the node identifier that Android stores, when the bytes are
    /// a UUID.
    pub fn init_node_id(&mut self, id_bytes: &[u8])
        ensures
            spec_tree_id_from_bytes(id_bytes@) is Some ==> final(self).node_id
                == spec_tree_id_from_bytes(id_bytes@),
            spec_tree_id_from_bytes(id_bytes@) is None ==> final(self).node_id == old(self).node_id,
            final(self).event_tx == old(self).event_tx,
            final(self).jvm == old(self).jvm,
    {
        match tree_id_from_bytes(id_bytes) {
            Some(id) => {
                self.node_id = Some(id);
            },
            None => {},
        }
    }
}

/// Registers where the Android events go.
pub fn set_jni_sender(bridge: &mut JniBridge, tx: Sender<JniEvent>)
    ensures
        final(bridge).event_tx == Some(tx),
        final(bridge).node_id == old(bridge).node_id,
        final(bridge).jvm == old(bridge).jvm,
{
    bridge.event_tx = Some(tx);
}

/// Passes an event to the core, if a receiver is registered (otherwise the
/// event is dropped).
pub fn send_event(bridge: &JniBridge, event: JniEvent) {
    match &bridge.event_tx {
        Some(tx) => channel_send(tx, event),
        None => {},
    }
}

/// The node identifier Android keeps, if it gave one.
pub fn get_android_node_id(bridge: &JniBridge) -> (id: Option<TreeId>)
    ensures
        id == bridge.node_id,
{
    bridge.node_id
}

/// The answer to "is there a real uplink" from what the Java call gave:
/// `true` only when the call succeeded and returned `true`.
pub fn internet_from_reply(reply: Result<bool, jni::errors::Error>) -> (r: bool)
    ensures
        r == (reply matches Ok(true)),
{
    match reply {
        Ok(answer) => answer,
        Err(_) => false,
    }
}

/// Asks Android whether the device has a real (non-mesh) uplink. Without a
/// Java VM, or when any step of the call fails, the answer is `false`.
pub fn has_physical_internet(bridge: &JniBridge) -> (r: bool)
    ensures
        bridge.jvm is None ==> !r,
{
    match &bridge.jvm {
        None => false,
        Some(vm) => match attach_current_thread(vm) {
            Ok(mut env) => internet_from_reply(call_has_physical_internet(&mut env)),
            Err(e) => internet_from_reply(Err(e)),
        },
    }
}

} // verus!
