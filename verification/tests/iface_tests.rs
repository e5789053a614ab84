use maestro::iface::Interfaces;
use maestro::net::{Address, BindAddress};
use maestro::route::Route;

#[test]
fn iface_register_get() {
    let mut ifaces: Interfaces<u32> = Interfaces::new();
    assert_eq!(ifaces.get_iface(b"lo"), None);
    ifaces.register_iface(b"lo".to_vec(), 1).unwrap();
    ifaces.register_iface(b"eth0".to_vec(), 2).unwrap();
    assert_eq!(ifaces.get_iface(b"lo"), Some(&1));
    assert_eq!(ifaces.get_iface(b"eth0"), Some(&2));
    // Registering again replaces the interface
    ifaces.register_iface(b"lo".to_vec(), 3).unwrap();
    assert_eq!(ifaces.get_iface(b"lo"), Some(&3));
    ifaces.unregister_iface(b"lo");
    assert_eq!(ifaces.get_iface(b"lo"), None);
    assert_eq!(ifaces.get_iface(b"eth0"), Some(&2));
    // Unregistering an unknown interface does nothing
    ifaces.unregister_iface(b"wlan0");
    assert_eq!(ifaces.get_iface(b"eth0"), Some(&2));
}

#[test]
fn iface_for_address() {
    let mut ifaces: Interfaces<&str> = Interfaces::new();
    ifaces.register_iface(b"lo".to_vec(), "loopback").unwrap();
    ifaces.register_iface(b"eth0".to_vec(), "ethernet").unwrap();
    let routes = vec![
        Route {
            dst: None,
            iface: b"eth0".to_vec(),
            gateway: Address::IPv4([192, 168, 1, 1]),
            metric: 10,
        },
        Route {
            dst: Some(BindAddress { addr: Address::IPv4([127, 0, 0, 0]), subnet_mask: 8 }),
            iface: b"lo".to_vec(),
            gateway: Address::IPv4([127, 0, 0, 1]),
            metric: 0,
        },
    ];
    assert_eq!(ifaces.get_iface_for(&routes, &Address::IPv4([127, 0, 0, 1])), Some(&"loopback"));
    assert_eq!(ifaces.get_iface_for(&routes, &Address::IPv4([8, 8, 8, 8])), Some(&"ethernet"));
    assert_eq!(ifaces.get_iface_for(&vec![], &Address::IPv4([8, 8, 8, 8])), None);
    ifaces.unregister_iface(b"eth0");
    assert_eq!(ifaces.get_iface_for(&routes, &Address::IPv4([8, 8, 8, 8])), None);
}
