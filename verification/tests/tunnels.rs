use eternal_monitor::link::LinkId;
use eternal_monitor::tunnels::{drops_since, TunnelRegistry};

#[test]
fn only_the_current_generation_of_a_tunnel_is_heard() {
    let ipad = LinkId::Usb { device_id: 7 };
    let mut links = TunnelRegistry::new();
    assert!(links.is_empty());
    assert!(!links.accepts(ipad, 1));
    links.connected(ipad, 1);
    assert!(links.accepts(ipad, 1));
    links.connected(ipad, 2);
    assert!(!links.accepts(ipad, 1));
    assert!(links.accepts(ipad, 2));
    assert!(!links.closed(ipad, 1));
    assert!(links.accepts(ipad, 2));
    assert!(links.closed(ipad, 2));
    assert!(links.is_empty());
    assert!(!links.closed(ipad, 2));
}

#[test]
fn tunnels_of_different_devices_are_independent() {
    let a = LinkId::Usb { device_id: 1 };
    let b = LinkId::Usb { device_id: 2 };
    let mut links = TunnelRegistry::default();
    links.connected(a, 10);
    links.connected(b, 11);
    assert!(links.closed(a, 10));
    assert!(!links.is_empty());
    assert!(links.accepts(b, 11));
    assert!(!links.accepts(a, 10));
}

#[test]
fn drops_are_reported_once() {
    assert_eq!(drops_since(5, 0), (5, 5));
    assert_eq!(drops_since(7, 5), (2, 7));
    assert_eq!(drops_since(3, 5), (0, 3));
}
