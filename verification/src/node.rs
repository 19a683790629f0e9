//! What a node works out from its configuration before it starts.
use vstd::prelude::*;

use crate::addr::Ipv4Addr;
use crate::iroh::Iroh;
use crate::key::PublicKey;
use crate::laws::{confined, in_step, managers_start_confined, nodes_start_in_step, whitelists_agree};
use crate::route::RouteTable;
use crate::vpn_core::VpnCore;

verus! {

/// How many messages the channels between the parts of a node hold.
pub const INTERMOD_CHANNEL_CAPACITY: usize = 8192;

/// What the outer layers take of the maximum transmission unit: 20 octets of IPv4 header, 8 of UDP
/// header, 50 of QUIC, and 22 to be safe.
pub const TUNNEL_OVERHEAD: u16 = 100;

/// The largest packet that fits into the tunnel.
pub fn application_mtu(mtu: u16) -> (r: u16)
    requires
        mtu >= TUNNEL_OVERHEAD,
    ensures
        r == mtu - 20 - 8 - 50 - 22,
{
    mtu - TUNNEL_OVERHEAD
}

/// The log filter for a log level: errors of anyone, and this program from the level on.
pub fn filter_settings(app_level: &str) -> (s: String)
    ensures
        s@ == "error,mesh_network="@ + app_level@,
{
    "error,mesh_network=".to_owned().concat(app_level)
}

/// The routing core and the connection manager of a node with the given key and address. Both go by
/// the same whitelist.
pub fn assemble(own: PublicKey, node_ipv4: Ipv4Addr, peers: RouteTable, mtu: u16) -> (r: (
    VpnCore,
    Iroh,
))
    requires
        mtu >= TUNNEL_OVERHEAD,
    ensures
        r.0.wf(),
        r.0@.ipv4_addr == node_ipv4,
        r.0@.route_table == peers@,
        r.0@.max_packet_size == mtu - TUNNEL_OVERHEAD,
        forall|k: PublicKey| #[trigger]
            r.0@.peers.contains_key(k) ==> !r.0@.peers[k].is_connected
                && r.0@.peers[k].packet_queue.len() == 0,
        r.1.wf(),
        r.1@.id == own,
        !r.1@.started,
        forall|k: PublicKey| #[trigger]
            r.1@.table.contains_key(k) <==> crate::route::has_node(peers@, k),
        forall|k: PublicKey| #[trigger]
            r.1@.table.contains_key(k) ==> r.1@.table[k] is Disconnected,
        whitelists_agree(r.0@, r.1@),
        in_step(r.0@, r.1@),
        confined(r.1@),
{
    let keys = peers.public_keys();
    let manager = Iroh::new(own, &keys);
    let core = VpnCore::new(node_ipv4, peers, application_mtu(mtu) as usize);
    proof {
        assert forall|k: PublicKey| #[trigger] core@.whitelisted(k) <==> manager@.peers.contains(
            k,
        ) by {
            assert(keys@.contains(k) <==> core@.whitelisted(k));
        }
        assert forall|k: PublicKey| #[trigger]
            manager@.table.contains_key(k) implies manager@.peers.contains(k) by {
            assert(keys@.contains(k));
        }
        nodes_start_in_step(core@, manager@);
        managers_start_confined(manager@);
    }
    (core, manager)
}

} // verus!
