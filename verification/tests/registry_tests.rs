use mediatracker::registry::DiscoveryEvent;
use mediatracker::sync::{build_announcement, SyncService, SYNC_PORT};

fn resolved(fullname: &str, hostname: &str, ip: &str, port: u16) -> DiscoveryEvent {
    DiscoveryEvent::Resolved {
        fullname: fullname.to_string(),
        hostname: hostname.to_string(),
        ip: ip.to_string(),
        port,
    }
}

#[test]
fn peer_registry_reflects_discovery_events() {
    let mut svc = SyncService::new();
    svc.handle_discovery_event(
        &resolved("MediaTracker_n._mediatracker._tcp.local.", "n", "192.168.1.5", 14567),
        1000,
    );
    let peers = svc.get_known_peers();
    assert_eq!(peers.len(), 1);
    assert_eq!(peers[0].name, "n");
    assert_eq!(peers[0].ip, "192.168.1.5");
    assert_eq!(peers[0].port, 14567);
    assert_eq!(peers[0].last_seen, 1000);

    svc.handle_discovery_event(
        &DiscoveryEvent::Removed {
            fullname: "MediaTracker_n._mediatracker._tcp.local.".to_string(),
        },
        1001,
    );
    assert!(svc.get_known_peers().is_empty());
}

#[test]
fn resolution_without_address_is_ignored() {
    let mut svc = SyncService::new();
    svc.handle_discovery_event(&resolved("full", "host", "", 14567), 5);
    assert!(svc.get_known_peers().is_empty());
}

#[test]
fn second_resolution_refreshes_entry() {
    let mut svc = SyncService::new();
    svc.handle_discovery_event(&resolved("full", "host", "10.0.0.2", 14567), 50);
    svc.handle_discovery_event(&resolved("full", "host", "10.0.0.3", 14567), 60);
    let peers = svc.get_known_peers();
    assert_eq!(peers.len(), 1);
    assert_eq!(peers[0].ip, "10.0.0.3");
    assert_eq!(peers[0].last_seen, 60);
}

#[test]
fn other_events_change_nothing() {
    let mut svc = SyncService::new();
    svc.handle_discovery_event(&resolved("full", "host", "10.0.0.2", 14567), 50);
    svc.handle_discovery_event(&DiscoveryEvent::Other, 51);
    assert_eq!(svc.get_known_peers().len(), 1);
}

#[test]
fn removal_of_unknown_peer_changes_nothing() {
    let mut svc = SyncService::new();
    svc.handle_discovery_event(&resolved("a", "ha", "10.0.0.2", 14567), 1);
    svc.handle_discovery_event(&DiscoveryEvent::Removed { fullname: "b".to_string() }, 2);
    assert_eq!(svc.get_known_peers().len(), 1);
}

#[test]
fn snapshot_lists_every_peer_once() {
    let mut svc = SyncService::new();
    svc.handle_discovery_event(&resolved("a", "ha", "10.0.0.2", 14567), 1);
    svc.handle_discovery_event(&resolved("b", "hb", "10.0.0.3", 14567), 2);
    svc.handle_discovery_event(&resolved("a", "ha", "10.0.0.2", 14567), 3);
    let peers = svc.get_known_peers();
    assert_eq!(peers.len(), 2);
    assert!(peers.iter().any(|p| p.name == "ha" && p.last_seen == 3));
    assert!(peers.iter().any(|p| p.name == "hb" && p.last_seen == 2));
}

#[test]
fn server_start_is_guarded_and_idempotent() {
    let mut svc = SyncService::new();
    assert!(!svc.running);
    assert_eq!(svc.port, SYNC_PORT);
    assert_eq!(svc.port, 14567);
    assert!(svc.should_start());
    svc.mark_running();
    assert!(svc.running);
    assert!(!svc.should_start());
    svc.mark_stopped();
    assert!(svc.should_start());
}

#[test]
fn announcement_names_follow_hostname() {
    let a = build_announcement("myhost", "192.168.1.7".to_string(), 14567);
    assert_eq!(a.service_type, "_mediatracker._tcp.local.");
    assert_eq!(a.instance_name, "MediaTracker_myhost");
    assert_eq!(a.host_domain, "myhost.local.");
    assert_eq!(a.ip, "192.168.1.7");
    assert_eq!(a.port, 14567);
    assert_eq!(a.txt_version, "1");
}
