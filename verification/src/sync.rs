//! The sync service: the server's two-state lifecycle (stopped or running,
//! with an idempotent start), the peer registry it owns, and the service
//! announcement this node publishes on the local-network discovery channel.
//!
//! Binding the port, serving requests and talking to the discovery daemon
//! happen outside this crate; the functions here decide and describe, and
//! their results are handed to that code.

use vstd::prelude::*;

use crate::registry::{apply_discovery_event, info_registered, DiscoveryEvent, PeerInfo,
    PeerRegistry};
use vstd::string::StringExecFns;

verus! {

/// The well-known port every node's sync transport listens on.
pub const SYNC_PORT: u16 = 14567;

/// What this node publishes on the discovery channel: the well-known service
/// type, an instance name derived from the hostname, the host's domain name,
/// its address and port, and the protocol version for the TXT record.
#[derive(Debug, PartialEq)]
pub struct ServiceAnnouncement {
    pub service_type: String,
    pub instance_name: String,
    pub host_domain: String,
    pub ip: String,
    pub port: u16,
    pub txt_version: String,
}

/// Builds the announcement for a node with the given hostname and address.
pub fn build_announcement(hostname: &str, ip: String, port: u16) -> (r: ServiceAnnouncement)
    ensures
        r.service_type@ == "_mediatracker._tcp.local."@,
        r.instance_name@ == "MediaTracker_"@ + hostname@,
        r.host_domain@ == hostname@ + ".local."@,
        r.ip == ip,
        r.port == port,
        r.txt_version@ == "1"@,
{
    let instance = String::from_str("MediaTracker_").concat(hostname);
    let domain = String::from_str(hostname).concat(".local.");
    ServiceAnnouncement {
        service_type: String::from_str("_mediatracker._tcp.local."),
        instance_name: instance,
        host_domain: domain,
        ip,
        port,
        txt_version: String::from_str("1"),
    }
}

/// The synchronization service of one node: its listening port, the peers it
/// has discovered, and whether its server is running.
///
/// The server has exactly two states, stopped and running; a start while
/// running is a no-op, and there is no stop operation — once running, the
/// service lives for the rest of the process.
pub struct SyncService {
    pub port: u16,
    pub peers: PeerRegistry,
    pub running: bool,
}

impl SyncService {
    /// A fresh service: stopped, no peers, listening port fixed at
    /// `SYNC_PORT`.
    pub fn new() -> (s: SyncService)
        ensures
            s.port == SYNC_PORT,
            s.peers@ == Map::<Seq<char>, crate::registry::PeerInfoV>::empty(),
            !s.running,
    {
        SyncService { port: SYNC_PORT, peers: PeerRegistry::new(), running: false }
    }

    /// The idempotent start guard: reports whether a start call should
    /// proceed, which it should exactly when the server is not yet running.
    pub fn should_start(&self) -> (proceed: bool)
        ensures
            proceed == !self.running,
    {
        !self.running
    }

    /// Records that the server came up (the listener bound its port).
    pub fn mark_running(&mut self)
        ensures
            final(self).running,
            final(self).port == old(self).port,
            final(self).peers == old(self).peers,
    {
        self.running = true;
    }

    /// Records that the server went down (the listener ended).
    pub fn mark_stopped(&mut self)
        ensures
            !final(self).running,
            final(self).port == old(self).port,
            final(self).peers == old(self).peers,
    {
        self.running = false;
    }

    /// Feeds one discovery event into this node's peer registry, stamping a
    /// resolved peer with `now` (epoch seconds).
    pub fn handle_discovery_event(&mut self, event: &DiscoveryEvent, now: u64)
        ensures
            final(self).port == old(self).port,
            final(self).running == old(self).running,
            match *event {
                DiscoveryEvent::Resolved { ref fullname, ref hostname, ref ip, port } => {
                    if ip@.len() > 0 {
                        final(self).peers@ == old(self).peers@.insert(
                            fullname@,
                            crate::registry::PeerInfoV {
                                name: hostname@,
                                ip: ip@,
                                port,
                                last_seen: now,
                            },
                        )
                    } else {
                        final(self).peers@ == old(self).peers@
                    }
                },
                DiscoveryEvent::Removed { ref fullname } => final(self).peers@ == old(
                    self,
                ).peers@.remove(fullname@),
                DiscoveryEvent::Other => final(self).peers@ == old(self).peers@,
            },
    {
        apply_discovery_event(&mut self.peers, event, now);
    }

    /// A copy of every known peer, in no promised order: exactly one entry
    /// per registered discovery name.
    pub fn get_known_peers(&self) -> (r: Vec<PeerInfo>)
        ensures
            r.deep_view().len() == self.peers@.dom().len(),
            forall|i: int|
                0 <= i < r.deep_view().len() ==> info_registered(
                    self.peers@,
                    #[trigger] r.deep_view()[i],
                ),
            forall|k: Seq<char>|
                self.peers@.contains_key(k) ==> exists|i: int|
                    0 <= i < r.deep_view().len() && #[trigger] r.deep_view()[i] == self.peers@[k],
    {
        self.peers.snapshot()
    }
}

} // verus!
