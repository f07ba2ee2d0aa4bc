use bridgething::peers::{resolve_targets, Address, GatewayType, PeerOwners};

fn addr(last: u8) -> Address {
    Address::new([0xFE, 0xFE, 0x00, 0x00, 0x00, last])
}

#[test]
fn a_broadcast_targets_the_network_transport_when_a_network_peer_is_registered() {
    let mut owners = PeerOwners::new();
    owners.register(addr(0x01), GatewayType::Network);

    let targets = resolve_targets(&owners, None);

    assert!(
        targets.contains(&GatewayType::Network),
        "a broadcast must reach the network gateway, or a cli pusher never learns its run ended"
    );
}

#[test]
fn a_bluetooth_peer_does_not_displace_the_network_peer_from_a_broadcast() {
    let mut owners = PeerOwners::new();
    owners.register(addr(0x01), GatewayType::Network);
    owners.register(addr(0x02), GatewayType::Iap2Ea);

    let targets = resolve_targets(&owners, None);

    assert!(targets.contains(&GatewayType::Network), "network still targeted");
    assert!(targets.contains(&GatewayType::Iap2Ea), "phone still targeted");
    assert_eq!(targets.len(), 2, "exactly the two live transports");
}

#[test]
fn a_broadcast_drops_the_network_transport_once_its_only_peer_goes_away() {
    let mut owners = PeerOwners::new();
    owners.register(addr(0x01), GatewayType::Network);
    owners.unregister(addr(0x01), GatewayType::Network);

    assert!(
        !resolve_targets(&owners, None).contains(&GatewayType::Network),
        "a closed connection must stop being a target"
    );
}

#[test]
fn the_first_transport_to_register_an_address_keeps_it() {
    let mut owners = PeerOwners::new();
    owners.register(addr(0x07), GatewayType::Rfcomm);
    owners.register(addr(0x07), GatewayType::Network);
    assert_eq!(owners.owner(&addr(0x07)), Some(GatewayType::Rfcomm));
    assert_eq!(owners.unregister(addr(0x07), GatewayType::Network), None);
    assert_eq!(owners.owner(&addr(0x07)), Some(GatewayType::Rfcomm));
    assert_eq!(owners.unregister(addr(0x07), GatewayType::Rfcomm), Some(true));
    assert_eq!(owners.owner(&addr(0x07)), None);
}

#[test]
fn an_addressed_message_goes_to_its_owner_only() {
    let mut owners = PeerOwners::new();
    owners.register(addr(0x01), GatewayType::Network);
    owners.register(addr(0x02), GatewayType::Rfcomm);
    assert_eq!(resolve_targets(&owners, Some(addr(0x02))), vec![GatewayType::Rfcomm]);
    assert_eq!(resolve_targets(&owners, Some(addr(0x03))), Vec::<GatewayType>::new());
    assert_eq!(
        resolve_targets(&owners, None),
        vec![GatewayType::Rfcomm, GatewayType::Network]
    );
}

#[test]
fn an_address_spells_its_octets_most_significant_first() {
    assert_eq!(Address::new([0xFE, 0xFE, 0x00, 0x00, 0x00, 0x01]).raw, 0xFEFE_0000_0001);
}

#[test]
fn owners_list_every_address_once_and_drop_only_for_their_own_transport() {
    let mut owners = PeerOwners::new();
    owners.register(addr(0x01), GatewayType::Rfcomm);
    owners.register(addr(0x02), GatewayType::Network);
    owners.register(addr(0x01), GatewayType::Iap2Ea);

    let mut listed: Vec<u64> = owners.addresses().iter().map(|a| a.raw).collect();
    listed.sort();
    assert_eq!(listed, vec![addr(0x01).raw, addr(0x02).raw]);
    assert_eq!(owners.owner(&addr(0x01)), Some(GatewayType::Rfcomm), "the first transport keeps the address");

    assert_eq!(owners.unregister(addr(0x01), GatewayType::Iap2Ea), None);
    assert_eq!(owners.unregister(addr(0x01), GatewayType::Rfcomm), Some(false));
    assert!(owners.has_kind(GatewayType::Network));
    assert!(!owners.has_kind(GatewayType::Rfcomm));
    assert_eq!(owners.unregister(addr(0x02), GatewayType::Network), Some(true));
    assert!(owners.addresses().is_empty());
}
