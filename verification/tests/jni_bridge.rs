use taiga::jni_bridge::{
    ble_discovery_event, get_android_node_id, has_physical_internet, send_event, set_jni_sender,
    internet_from_reply, tree_id_from_bytes, JniBridge, JniEvent,
};

#[test]
fn events_reach_the_registered_receiver() {
    let mut bridge = JniBridge::new();
    send_event(&bridge, JniEvent::WifiDirectDisconnected);
    let (tx, rx) = std::sync::mpsc::channel();
    set_jni_sender(&mut bridge, tx);
    send_event(&bridge, JniEvent::WifiDirectConnected { ip: "192.168.49.1".to_string(), is_group_owner: true });
    match rx.try_recv().unwrap() {
        JniEvent::WifiDirectConnected { ip, is_group_owner } => {
            assert_eq!(ip, "192.168.49.1");
            assert!(is_group_owner);
        }
        other => panic!("unexpected {:?}", other),
    }
    assert!(rx.try_recv().is_err());
}

#[test]
fn no_vm_means_no_internet() {
    let bridge = JniBridge::new();
    assert!(!has_physical_internet(&bridge));
}

#[test]
fn node_id_from_uuid_bytes() {
    let mut bridge = JniBridge::new();
    bridge.init_node_id(&[1, 2, 3]);
    assert_eq!(get_android_node_id(&bridge), None);
    let bytes = uuid::Uuid::from_u128(0x0123456789abcdef0011223344556677).as_bytes().to_vec();
    bridge.init_node_id(&bytes);
    assert_eq!(get_android_node_id(&bridge), Some(0x0123456789abcdef0011223344556677));
    assert_eq!(tree_id_from_bytes(&bytes), Some(uuid::Uuid::from_slice(&bytes).unwrap().as_u128()));
}

#[test]
fn ble_discovery_needs_a_uuid() {
    assert!(ble_discovery_event("AA:BB".to_string(), vec![0; 15]).is_none());
    match ble_discovery_event("AA:BB".to_string(), vec![1; 16]) {
        Some(JniEvent::BleDeviceDiscovered(mac, bytes)) => {
            assert_eq!(mac, "AA:BB");
            assert_eq!(bytes, vec![1; 16]);
        }
        other => panic!("unexpected {:?}", other),
    }
}

#[test]
fn only_a_true_reply_means_internet() {
    assert!(internet_from_reply(Ok(true)));
    assert!(!internet_from_reply(Ok(false)));
    assert!(!internet_from_reply(Err(jni::errors::Error::NullPtr("env"))));
}
