//! Configurations for a whole mesh at once.
use bytes::Bytes;
use vstd::prelude::*;

use crate::addr::{
    address_of, octets_are_the_bytes_of_the_address, text_determines_address, Ipv4Addr,
};
use crate::config::{
    peer_of, peers_of, unique_addresses_keep_their_keys, whitelist_is_what_is_listed, ConfigToml, Peer,
    DEFAULT_MTU,
};
use crate::document::{
    all_from, blank, ended, is_name, is_peer, is_plain, is_value, lemma_all, lemma_decimal_is_plain,
    lemma_plain, lemma_same, quoted, read, read_on, same_from, says, setting, settings_are_read,
    text_is_read_by_lines, Document,
};
use crate::key::{PublicKey, SecretKey};
use crate::laws::{sent_packets_are_received, within_mesh};
use crate::octets::octets_of;
use crate::text::decimal;
use crate::text::decimal_text;
use crate::text::{decimal_texts_differ, number_of};
use crate::vpn_core::{Action, CoreView, Event, SendPacketError};

verus! {

/// What the configurations of a mesh say of one node.
pub struct NodeSetup {
    /// The number of the node; the first is 1.
    pub index: usize,
    /// Its public key, in z-base-32.
    pub pub_key: String,
    pub ip: String,
    pub secret_path: String,
    pub tun_name: String,
}

impl NodeSetup {
    /// Whether this is the setup of the node with the given number and secret key.
    pub open spec fn describes(self, index: usize, secret: SecretKey) -> bool {
        &&& self.index == index
        &&& Some(self.pub_key@) == crate::key::z32_text(crate::key::public_bytes(secret.bytes))
        &&& crate::key::z32_key(self.pub_key@) == Ok::<[u8; 32], Seq<char>>(
            crate::key::public_bytes(secret.bytes),
        )
        &&& self.ip@ == "10.67.1."@ + decimal(index as nat)
        &&& self.secret_path@ == "tmp/secret"@ + decimal(index as nat) + ".key"@
        &&& self.tun_name@ == "tun"@ + decimal(index as nat)
    }

    /// The part of the configuration that is about the node itself.
    pub open spec fn own_part(self) -> Seq<char> {
        "# Path to the secret key\nsecret_key_path = \""@ + self.secret_path@
            + "\"\n\n# Node IPv4 address\nnode_ipv4 = \""@ + self.ip@
            + "\"\n\n# Port for incoming connections (0 means random available port)\nlisten_port = 0\n\ntun_name = \""@
            + self.tun_name@
            + "\"\n\nlog_level = \"debug\"\n\n# ==========================================\n# Adjacent nodes (Whitelist)\n# ==========================================\n"@
    }

    /// The entry of the node in the whitelist of another one.
    pub open spec fn peer_part(self) -> Seq<char> {
        "[[peers]]\npub_key = \""@ + self.pub_key@ + "\"\nipv4 = \""@ + self.ip@ + "\"\n\n"@
    }

    /// The setup of a node.
    pub fn new(index: usize, secret: &SecretKey) -> (node: NodeSetup)
        ensures
            node.describes(index, *secret),
    {
        match secret.public().to_z32() {
            Some(text) => Self::with_key(index, text),
            None => Self::with_key(index, String::new()),
        }
    }

    /// The setup of the node with the given public key, in z-base-32.
    pub fn with_key(index: usize, pub_key: String) -> (node: NodeSetup)
        ensures
            node.index == index,
            node.pub_key == pub_key,
            node.ip@ == "10.67.1."@ + decimal(index as nat),
            node.secret_path@ == "tmp/secret"@ + decimal(index as nat) + ".key"@,
            node.tun_name@ == "tun"@ + decimal(index as nat),
    {
        let number = decimal_text(index as u64);
        let ip = "10.67.1.".to_owned().concat(number.as_str());
        let secret_path = "tmp/secret".to_owned().concat(number.as_str()).concat(".key");
        let tun_name = "tun".to_owned().concat(number.as_str());
        NodeSetup { index, pub_key, ip, secret_path, tun_name }
    }
}

/// The nodes other than the one with the given number, in their order.
pub open spec fn others(nodes: Seq<NodeSetup>, own: usize) -> Seq<NodeSetup> {
    nodes.filter(|n: NodeSetup| n.index != own)
}

/// The whitelist entries of some nodes, one after the other.
pub open spec fn peers_part(nodes: Seq<NodeSetup>) -> Seq<char>
    decreases nodes.len(),
{
    if nodes.len() == 0 {
        Seq::empty()
    } else {
        peers_part(nodes.drop_last()) + nodes.last().peer_part()
    }
}

/// The configuration of one node of a mesh: its own part, and every other node as a peer.
pub open spec fn config_text(nodes: Seq<NodeSetup>, at: int) -> Seq<char> {
    nodes[at].own_part() + peers_part(others(nodes, nodes[at].index))
}

/// Draws the keys of a mesh of `n` nodes and sets the nodes up, numbered from 1.
pub fn gen_nodes(n: usize) -> (r: (Vec<NodeSetup>, Vec<SecretKey>))
    ensures
        r.0@.len() == n,
        is_mesh(r.0@, r.1@),
{
    let mut nodes: Vec<NodeSetup> = Vec::new();
    let mut secrets: Vec<SecretKey> = Vec::new();
    let mut i: usize = 0;
    while i < n
        invariant
            i <= n,
            nodes@.len() == i,
            secrets@.len() == i,
            forall|k: int|
                0 <= k < i ==> (#[trigger] nodes@[k]).describes((k + 1) as usize, secrets@[k]),
        decreases n - i,
    {
        i = i + 1;
        let secret = SecretKey::generate();
        nodes.push(NodeSetup::new(i, &secret));
        secrets.push(secret);
    }
    (nodes, secrets)
}

/// The name of the configuration file of a node.
pub fn config_name(index: usize) -> (s: String)
    ensures
        s@ == "node_"@ + decimal(index as nat) + ".toml"@,
{
    "node_".to_owned().concat(decimal_text(index as u64).as_str()).concat(".toml")
}

/// Writes the configuration of one node of a mesh.
pub fn node_config(nodes: &Vec<NodeSetup>, at: usize) -> (s: String)
    requires
        at < nodes@.len(),
    ensures
        s@ == config_text(nodes@, at as int),
{
    let node = &nodes[at];
    let mut s = "# Path to the secret key\nsecret_key_path = \"".to_owned();
    s.append(node.secret_path.as_str());
    s.append("\"\n\n# Node IPv4 address\nnode_ipv4 = \"");
    s.append(node.ip.as_str());
    s.append("\"\n\n# Port for incoming connections (0 means random available port)\nlisten_port = 0\n\ntun_name = \"");
    s.append(node.tun_name.as_str());
    s.append("\"\n\nlog_level = \"debug\"\n\n# ==========================================\n# Adjacent nodes (Whitelist)\n# ==========================================\n");
    let ghost own = node.own_part();
    let ghost index = node.index;
    assert(s@ =~= own + peers_part(others(nodes@.take(0), index))) by {
        reveal(Seq::filter);
    }
    let mut i: usize = 0;
    while i < nodes.len()
        invariant
            at < nodes@.len(),
            *node == nodes@[at as int],
            index == node.index,
            i <= nodes@.len(),
            s@ == own + peers_part(others(nodes@.take(i as int), index)),
        decreases nodes@.len() - i,
    {
        let other = &nodes[i];
        proof {
            lemma_others_step(nodes@, i as int, index);
        }
        if other.index != node.index {
            let ghost before = s@;
            s.append("[[peers]]\npub_key = \"");
            s.append(other.pub_key.as_str());
            s.append("\"\nipv4 = \"");
            s.append(other.ip.as_str());
            s.append("\"\n\n");
            assert(s@ =~= before + other.peer_part());
            assert(s@ =~= own + peers_part(others(nodes@.take(i + 1), index)));
        }
        i = i + 1;
    }
    assert(nodes@.take(nodes@.len() as int) =~= nodes@);
    s
}

/// One node more is one peer more, unless it is the node itself.
proof fn lemma_others_step(nodes: Seq<NodeSetup>, i: int, own: usize)
    requires
        0 <= i < nodes.len(),
    ensures
        others(nodes.take(i + 1), own) == (if nodes[i].index != own {
            others(nodes.take(i), own).push(nodes[i])
        } else {
            others(nodes.take(i), own)
        }),
        nodes[i].index != own ==> peers_part(others(nodes.take(i + 1), own)) == peers_part(
            others(nodes.take(i), own),
        ) + nodes[i].peer_part(),
{
    reveal(Seq::filter);
    assert(nodes.take(i + 1).drop_last() =~= nodes.take(i));
    if nodes[i].index != own {
        let list = others(nodes.take(i), own);
        assert(list.push(nodes[i]).drop_last() =~= list);
    }
}

/// Whether these are the nodes of a mesh with the given secret keys, numbered from 1.
pub open spec fn is_mesh(nodes: Seq<NodeSetup>, secrets: Seq<SecretKey>) -> bool {
    &&& nodes.len() == secrets.len()
    &&& nodes.len() <= usize::MAX
    &&& forall|i: int|
        0 <= i < nodes.len() ==> (#[trigger] nodes[i]).describes((i + 1) as usize, secrets[i])
}

/// Leaving one node out of the first `n` leaves the others, in their order.
proof fn lemma_others(nodes: Seq<NodeSetup>, secrets: Seq<SecretKey>, at: int, n: int)
    requires
        is_mesh(nodes, secrets),
        0 <= at < nodes.len(),
        0 <= n <= nodes.len(),
    ensures
        others(nodes.take(n), nodes[at].index) == (if n <= at {
            nodes.take(n)
        } else {
            nodes.take(n).remove(at)
        }),
    decreases n,
{
    reveal(Seq::filter);
    if n > 0 {
        lemma_others(nodes, secrets, at, n - 1);
        lemma_others_step(nodes, n - 1, nodes[at].index);
        assert(nodes[n - 1].index == n);
        assert(nodes[at].index == at + 1);
        if n <= at {
            assert(nodes.take(n) =~= nodes.take(n - 1).push(nodes[n - 1]));
        } else if n == at + 1 {
            assert(nodes.take(n).remove(at) =~= nodes.take(n - 1));
        } else {
            assert(nodes.take(n).remove(at) =~= nodes.take(n - 1).remove(at).push(nodes[n - 1]));
        }
    }
}

/// The mesh is full: the configuration of a node lists every other node once and the node itself
/// never, so that the configurations of `n` nodes list `n * (n - 1)` peers.
pub proof fn mesh_is_full(nodes: Seq<NodeSetup>, secrets: Seq<SecretKey>, at: int)
    requires
        is_mesh(nodes, secrets),
        0 <= at < nodes.len(),
    ensures
        others(nodes, nodes[at].index) == nodes.remove(at),
        others(nodes, nodes[at].index).len() == nodes.len() - 1,
{
    lemma_others(nodes, secrets, at, nodes.len() as int);
    assert(nodes.take(nodes.len() as int) =~= nodes);
}

/// The address that a generated configuration gives to a node.
pub open spec fn address(node: NodeSetup) -> Ipv4Addr {
    Ipv4Addr::of(10, 67, 1, node.index as u8)
}

/// A generated address is read as such, and lies in the mesh.
proof fn lemma_address(node: NodeSetup, secret: SecretKey)
    requires
        node.describes(node.index, secret),
        node.index <= 255,
    ensures
        address_of(node.ip@) == Some(address(node)),
        address(node).in_mesh(),
        address(node).octet(3) == node.index,
{
    let ip = address(node);
    reveal_strlit("10.67.1.");
    reveal_with_fuel(decimal, 3);
    assert(ip.octet(0) == 10 && ip.octet(1) == 67 && ip.octet(2) == 1 && ip.octet(3)
        == node.index);
    assert(ip.text() =~= node.ip@);
    text_determines_address(ip);
}

/// Whether an entry of a configuration that was read is the entry of the node.
pub open spec fn is_entry_of(peer: Peer, node: NodeSetup) -> bool {
    peer.ipv4@ == node.ip@ && peer.pub_key@ == node.pub_key@
}

/// What generated entries are read as.
proof fn lemma_entries(list: Seq<Peer>, nodes: Seq<NodeSetup>)
    requires
        list.len() == nodes.len(),
        forall|i: int| 0 <= i < list.len() ==> is_entry_of(#[trigger] list[i], nodes[i]),
        forall|i: int|
            0 <= i < nodes.len() ==> (#[trigger] nodes[i]).index <= 255 && exists|
                secret: SecretKey,
            |
                nodes[i].describes(nodes[i].index, secret),
    ensures
        peers_of(list) is Ok,
        forall|i: int|
            0 <= i < list.len() ==> peer_of(#[trigger] list[i]) is Ok && peer_of(list[i])->Ok_0.0
                == address(nodes[i]) && crate::key::z32_key(nodes[i].pub_key@) == Ok::<
                [u8; 32],
                Seq<char>,
            >(peer_of(list[i])->Ok_0.1.bytes),
    decreases list.len(),
{
    assert forall|i: int| 0 <= i < list.len() implies peer_of(#[trigger] list[i]) is Ok && peer_of(
        list[i],
    )->Ok_0.0 == address(nodes[i]) && crate::key::z32_key(nodes[i].pub_key@) == Ok::<
        [u8; 32],
        Seq<char>,
    >(peer_of(list[i])->Ok_0.1.bytes) by {
        assert(is_entry_of(list[i], nodes[i]));
        let secret = choose|secret: SecretKey| nodes[i].describes(nodes[i].index, secret);
        lemma_address(nodes[i], secret);
    }
    if list.len() > 0 {
        assert forall|i: int| 0 <= i < list.drop_last().len() implies is_entry_of(
            #[trigger] list.drop_last()[i],
            nodes.drop_last()[i],
        ) by {
            assert(is_entry_of(list[i], nodes[i]));
        }
        assert forall|i: int| 0 <= i < nodes.drop_last().len() implies (
        #[trigger] nodes.drop_last()[i]).index <= 255 && exists|secret: SecretKey|
            nodes.drop_last()[i].describes(nodes.drop_last()[i].index, secret) by {
            assert(nodes[i].index <= 255);
        }
        lemma_entries(list.drop_last(), nodes.drop_last());
        assert(peer_of(list[list.len() - 1]) is Ok);
    }
}

/// Whether this is what the configuration of a node says, field by field. The configuration of a
/// mesh's only node names no list of peers, and so says less than a configuration has to.
pub open spec fn reads_as(toml: ConfigToml, nodes: Seq<NodeSetup>, at: int) -> bool {
    &&& toml.secret_key_path@ == nodes[at].secret_path@
    &&& toml.node_ipv4@ == nodes[at].ip@
    &&& toml.tun_name matches Some(name) && name@ == nodes[at].tun_name@
    &&& toml.listen_port == Some(0u16)
    &&& toml.mtu is None
    &&& toml.log_level matches Some(level) && level@ == "debug"@
    &&& toml.log_path is None
    &&& toml.peers@.len() == others(nodes, nodes[at].index).len()
    &&& forall|i: int|
        0 <= i < toml.peers@.len() ==> is_entry_of(
            #[trigger] toml.peers@[i],
            others(nodes, nodes[at].index)[i],
        )
}

/// The configurations of a mesh of 2 to 255 nodes are accepted: a node that reads what was
/// written for it gets its address in the mesh and whitelists every other node, with the key that
/// belongs to the secret key of that node, under its address.
#[verifier::spinoff_prover]
#[verifier::rlimit(50)]
pub proof fn generated_configurations_are_accepted(
    nodes: Seq<NodeSetup>,
    secrets: Seq<SecretKey>,
    at: int,
    toml: ConfigToml,
)
    requires
        is_mesh(nodes, secrets),
        2 <= nodes.len() <= 255,
        0 <= at < nodes.len(),
        reads_as(toml, nodes, at),
    ensures
        toml.checked() matches Ok(view) && {
            &&& view.node_ipv4 == address(nodes[at])
            &&& view.node_ipv4.in_mesh()
            &&& view.tun_name == nodes[at].tun_name@
            &&& view.listen_port == 0
            &&& view.mtu == DEFAULT_MTU
            &&& view.log_level == "debug"@
            &&& forall|j: int|
                0 <= j < nodes.len() && j != at ==> view.peers.contains_key(
                    address(#[trigger] nodes[j]),
                ) && view.peers[address(nodes[j])].bytes == crate::key::public_bytes(
                    secrets[j].bytes,
                )
        },
{
    let list = toml.peers@;
    let peers = others(nodes, nodes[at].index);
    mesh_is_full(nodes, secrets, at);
    assert forall|i: int| 0 <= i < peers.len() implies (#[trigger] peers[i]).index == (if i < at {
        i + 1
    } else {
        i + 2
    }) && peers[i].index <= 255 && exists|secret: SecretKey|
        peers[i].describes(peers[i].index, secret) by {
        let j = if i < at {
            i
        } else {
            i + 1
        };
        assert(peers[i] == nodes[j]);
        assert(nodes[j].describes((j + 1) as usize, secrets[j]));
    }
    lemma_entries(list, peers);
    assert(nodes[at].describes((at + 1) as usize, secrets[at]));
    lemma_address(nodes[at], secrets[at]);
    let view = toml.checked()->Ok_0;
    assert forall|j: int| 0 <= j < nodes.len() && j != at implies view.peers.contains_key(
        address(#[trigger] nodes[j]),
    ) && view.peers[address(nodes[j])].bytes == crate::key::public_bytes(secrets[j].bytes) by {
        let i = if j < at {
            j
        } else {
            j - 1
        };
        assert(peers[i] == nodes[j]);
        assert(nodes[j].describes((j + 1) as usize, secrets[j]));
        assert forall|a: int, b: int| 0 <= a < b < list.len() implies peer_of(
            #[trigger] list[a],
        )->Ok_0.0 != peer_of(#[trigger] list[b])->Ok_0.0 by {
            assert(peers[a].index < peers[b].index);
            let sa = choose|s: SecretKey| peers[a].describes(peers[a].index, s);
            let sb = choose|s: SecretKey| peers[b].describes(peers[b].index, s);
            lemma_address(peers[a], sa);
            lemma_address(peers[b], sb);
        }
        unique_addresses_keep_their_keys(list, i);
        assert(is_entry_of(list[i], peers[i]));
    }
}

/// Whether the core is that of a node with the given configuration.
pub open spec fn runs(core: CoreView, toml: ConfigToml) -> bool {
    &&& core.wf()
    &&& toml.checked() matches Ok(view) && {
        &&& core.ipv4_addr == view.node_ipv4
        &&& core.route_table == view.peers
        &&& core.max_packet_size == view.mtu - crate::node::TUNNEL_OVERHEAD
    }
}

/// A node with a generated configuration, and every node that it whitelists, have addresses in the
/// mesh, so that its traffic is isolated to the mesh.
pub proof fn generated_nodes_are_isolated(
    nodes: Seq<NodeSetup>,
    secrets: Seq<SecretKey>,
    at: int,
    toml: ConfigToml,
    core: CoreView,
)
    requires
        is_mesh(nodes, secrets),
        2 <= nodes.len() <= 255,
        0 <= at < nodes.len(),
        reads_as(toml, nodes, at),
        runs(core, toml),
    ensures
        within_mesh(core),
{
    let list = toml.peers@;
    let peers = others(nodes, nodes[at].index);
    generated_configurations_are_accepted(nodes, secrets, at, toml);
    mesh_is_full(nodes, secrets, at);
    whitelist_is_what_is_listed(list);
    assert forall|ip: Ipv4Addr| #[trigger] core.route_table.contains_key(ip) implies ip.in_mesh() by {
        let i = choose|i: int|
            0 <= i < list.len() && peer_of(#[trigger] list[i]) == Ok::<
                (Ipv4Addr, PublicKey),
                crate::config::Fault,
            >((ip, core.route_table[ip]));
        let j = if i < at {
            i
        } else {
            i + 1
        };
        assert(is_entry_of(list[i], peers[i]));
        assert(peers[i] == nodes[j]);
        assert(nodes[j].describes((j + 1) as usize, secrets[j]));
        lemma_address(nodes[j], secrets[j]);
    }
}

/// The nodes of a generated mesh reach each other: what one of them sends to the address of another
/// is for the key of that other, which hands it to its host.
pub proof fn generated_nodes_reach_each_other(
    nodes: Seq<NodeSetup>,
    secrets: Seq<SecretKey>,
    from: int,
    from_toml: ConfigToml,
    sender: CoreView,
    to: int,
    to_toml: ConfigToml,
    receiver: CoreView,
    packet: Bytes,
)
    requires
        is_mesh(nodes, secrets),
        nodes.len() <= 255,
        0 <= from < nodes.len(),
        0 <= to < nodes.len(),
        from != to,
        reads_as(from_toml, nodes, from),
        reads_as(to_toml, nodes, to),
        runs(sender, from_toml),
        runs(receiver, to_toml),
        sender.verify_send_packet(octets_of(packet)) == Ok::<Ipv4Addr, SendPacketError>(
            address(nodes[to]),
        ),
    ensures
        sender.bound_for(
            packet,
            PublicKey { bytes: crate::key::public_bytes(secrets[to].bytes) },
        ),
        receiver.process(
            Event::PacketFromIroh(
                packet,
                PublicKey { bytes: crate::key::public_bytes(secrets[from].bytes) },
            ),
        ) == (receiver, seq![Action::WriteToTun(packet)]),
{
    generated_configurations_are_accepted(nodes, secrets, from, from_toml);
    generated_configurations_are_accepted(nodes, secrets, to, to_toml);
    let receiver_key = sender.route_table[address(nodes[to])];
    assert(receiver_key == (PublicKey {
        bytes: crate::key::public_bytes(secrets[to].bytes),
    }));
    let sender_key = receiver.route_table[address(nodes[from])];
    assert(sender_key == (PublicKey {
        bytes: crate::key::public_bytes(secrets[from].bytes),
    }));
    sent_packets_are_received(sender, sender_key, receiver, packet);
}

/// A character that may stand in a name.
spec fn in_name(c: char) -> bool {
    'a' <= c <= 'z' || '0' <= c <= '9' || c == '_'
}

/// A character that may stand in a comment.
spec fn in_line(c: char) -> bool {
    c != '\n'
}

/// A character that may stand between quotes.
spec fn in_quotes(c: char) -> bool {
    ' ' <= c <= '~' && c != '"' && c != '\\'
}

/// The names of the settings are names, and differ.
proof fn lemma_names()
    ensures
        is_name("secret_key_path"@),
        is_name("node_ipv4"@),
        is_name("listen_port"@),
        is_name("tun_name"@),
        is_name("log_level"@),
        is_name("pub_key"@),
        is_name("ipv4"@),
        "secret_key_path"@.len() == 15,
        "node_ipv4"@.len() == 9,
        "node_ipv4"@[0] == 'n',
        "listen_port"@.len() == 11,
        "tun_name"@.len() == 8,
        "log_level"@.len() == 9,
        "log_level"@[0] == 'l',
        "mtu"@.len() == 3,
        "log_path"@.len() == 8,
        "log_path"@[0] == 'l',
        "tun_name"@[0] == 't',
        "pub_key"@.len() == 7,
        "ipv4"@.len() == 4,
{
    reveal_strlit("secret_key_path");
    reveal_strlit("node_ipv4");
    reveal_strlit("listen_port");
    reveal_strlit("tun_name");
    reveal_strlit("log_level");
    reveal_strlit("pub_key");
    reveal_strlit("ipv4");
    reveal_strlit("mtu");
    reveal_strlit("log_path");
    reveal_with_fuel(all_from, 16);
    let sort = |c: char| in_name(c);
    lemma_all("secret_key_path"@, sort, 0);
    lemma_all("node_ipv4"@, sort, 0);
    lemma_all("listen_port"@, sort, 0);
    lemma_all("tun_name"@, sort, 0);
    lemma_all("log_level"@, sort, 0);
    lemma_all("pub_key"@, sort, 0);
    lemma_all("ipv4"@, sort, 0);
}

/// The entry of a peer, line by line.
proof fn lemma_peer_lines(node: NodeSetup)
    ensures
        node.peer_part() == ended("[[peers]]"@) + ended(setting("pub_key"@, quoted(node.pub_key@)))
            + ended(setting("ipv4"@, quoted(node.ip@))) + ended(Seq::empty()),
{
    reveal_strlit("[[peers]]");
    reveal_strlit("pub_key");
    reveal_strlit("ipv4");
    reveal_strlit("[[peers]]\npub_key = \"");
    reveal_strlit("\"\nipv4 = \"");
    reveal_strlit("\"\n\n");
    reveal_with_fuel(same_from, 24);
    lemma_same(
        "[[peers]]\npub_key = \""@,
        "[[peers]]"@ + seq!['\n'] + "pub_key"@ + seq![' ', '=', ' ', '"'],
    );
    lemma_same("\"\nipv4 = \""@, seq!['"', '\n'] + "ipv4"@ + seq![' ', '=', ' ', '"']);
    lemma_same("\"\n\n"@, seq!['"', '\n', '\n']);
    assert(node.peer_part() =~= ended("[[peers]]"@) + ended(
        setting("pub_key"@, quoted(node.pub_key@)),
    ) + ended(setting("ipv4"@, quoted(node.ip@))) + ended(Seq::empty()));
}

/// The line that sets the whitelist apart.
spec fn rule() -> Seq<char> {
    "# =========================================="@
}

/// The own part up to the path of the secret key.
proof fn lemma_path_head()
    ensures
        "# Path to the secret key\nsecret_key_path = \""@ == ended("# Path to the secret key"@)
            + "secret_key_path"@ + seq![' ', '=', ' ', '"'],
{
    reveal_strlit("# Path to the secret key");
    reveal_strlit("secret_key_path");
    reveal_strlit("# Path to the secret key\nsecret_key_path = \"");
    reveal_with_fuel(same_from, 50);
    lemma_same(
        "# Path to the secret key\nsecret_key_path = \""@,
        ended("# Path to the secret key"@) + "secret_key_path"@ + seq![' ', '=', ' ', '"'],
    );
}

/// The own part from the path of the secret key to the address.
proof fn lemma_address_head()
    ensures
        "\"\n\n# Node IPv4 address\nnode_ipv4 = \""@ == seq!['"', '\n', '\n'] + ended(
            "# Node IPv4 address"@,
        ) + "node_ipv4"@ + seq![' ', '=', ' ', '"'],
{
    reveal_strlit("# Node IPv4 address");
    reveal_strlit("node_ipv4");
    reveal_strlit("\"\n\n# Node IPv4 address\nnode_ipv4 = \"");
    reveal_with_fuel(same_from, 40);
    lemma_same(
        "\"\n\n# Node IPv4 address\nnode_ipv4 = \""@,
        seq!['"', '\n', '\n'] + ended("# Node IPv4 address"@) + "node_ipv4"@ + seq![
            ' ',
            '=',
            ' ',
            '"',
        ],
    );
}

/// The own part from the address to the name of the device.
#[verifier::spinoff_prover]
#[verifier::rlimit(50)]
proof fn lemma_port_and_name_head()
    ensures
        "\"\n\n# Port for incoming connections (0 means random available port)\nlisten_port = 0\n\ntun_name = \""@
            == seq!['"', '\n', '\n'] + ended(
            "# Port for incoming connections (0 means random available port)"@,
        ) + "listen_port"@ + seq![' ', '=', ' ', '0', '\n', '\n'] + "tun_name"@ + seq![
            ' ',
            '=',
            ' ',
            '"',
        ],
{
    reveal_strlit("# Port for incoming connections (0 means random available port)");
    reveal_strlit("listen_port");
    reveal_strlit("tun_name");
    reveal_strlit("\"\n\n# Port for incoming connections (0 means random available port)\nlisten_port = 0\n\ntun_name = \"");
    let whole = "\"\n\n# Port for incoming connections (0 means random available port)\nlisten_port = 0\n\ntun_name = \""@;
    let parts = seq!['"', '\n', '\n'] + ended(
            "# Port for incoming connections (0 means random available port)"@,
        ) + "listen_port"@ + seq![' ', '=', ' ', '0', '\n', '\n'] + "tun_name"@ + seq![
            ' ',
            '=',
            ' ',
            '"',
        ];
    reveal_with_fuel(same_from, 56);
    assert(same_from(whole, parts, 55));
    lemma_same(whole, parts);
}

/// The own part from the name of the device on.
#[verifier::spinoff_prover]
#[verifier::rlimit(50)]
proof fn lemma_level_and_rule()
    ensures
        "\"\n\nlog_level = \"debug\"\n\n# ==========================================\n# Adjacent nodes (Whitelist)\n# ==========================================\n"@
            == seq!['"', '\n', '\n'] + "log_level"@ + seq![' ', '=', ' ', '"'] + "debug"@ + seq![
            '"',
            '\n',
            '\n',
        ] + ended(rule()) + ended("# Adjacent nodes (Whitelist)"@) + ended(rule()),
{
    reveal_strlit("log_level");
    reveal_strlit("debug");
    reveal_strlit("# ==========================================");
    reveal_strlit("# Adjacent nodes (Whitelist)");
    reveal_strlit("\"\n\nlog_level = \"debug\"\n\n# ==========================================\n# Adjacent nodes (Whitelist)\n# ==========================================\n");
    let whole = "\"\n\nlog_level = \"debug\"\n\n# ==========================================\n# Adjacent nodes (Whitelist)\n# ==========================================\n"@;
    let parts = seq!['"', '\n', '\n'] + "log_level"@ + seq![' ', '=', ' ', '"'] + "debug"@ + seq![
            '"',
            '\n',
            '\n',
        ] + ended(rule()) + ended("# Adjacent nodes (Whitelist)"@) + ended(rule());
    reveal_with_fuel(same_from, 56);
    assert(same_from(whole, parts, 100));
    assert(same_from(whole, parts, 50));
    lemma_same(whole, parts);
}

/// The comments are comments.
proof fn lemma_comments()
    ensures
        is_comment("# Path to the secret key"@),
        is_comment("# Node IPv4 address"@),
        is_comment("# Port for incoming connections (0 means random available port)"@),
        is_comment(rule()),
        is_comment("# Adjacent nodes (Whitelist)"@),
{
    reveal_strlit("# Path to the secret key");
    reveal_strlit("# Node IPv4 address");
    reveal_strlit("# Port for incoming connections (0 means random available port)");
    reveal_strlit("# ==========================================");
    reveal_strlit("# Adjacent nodes (Whitelist)");
    reveal_with_fuel(all_from, 70);
    let sort = |c: char| in_line(c);
    lemma_all("# Path to the secret key"@, sort, 0);
    lemma_all("# Node IPv4 address"@, sort, 0);
    lemma_all("# Port for incoming connections (0 means random available port)"@, sort, 0);
    lemma_all(rule(), sort, 0);
    lemma_all("# Adjacent nodes (Whitelist)"@, sort, 0);
}

/// A line that is passed over.
spec fn is_comment(line: Seq<char>) -> bool {
    line.len() > 0 && line[0] == '#' && forall|i: int|
        0 <= i < line.len() ==> #[trigger] line[i] != '\n'
}

/// A text setting, from its name to the empty line behind it.
proof fn lemma_text_setting(name: Seq<char>, inner: Seq<char>, rest: Seq<char>)
    ensures
        name + (seq![' ', '=', ' ', '"'] + (inner + (seq!['"', '\n', '\n'] + rest))) == ended(
            setting(name, quoted(inner)),
        ) + (ended(Seq::empty()) + rest),
{
    assert(name + (seq![' ', '=', ' ', '"'] + (inner + (seq!['"', '\n', '\n'] + rest))) =~= ended(
        setting(name, quoted(inner)),
    ) + (ended(Seq::empty()) + rest));
}

/// A setting of zero, from its name to the empty line behind it.
proof fn lemma_zero_setting(name: Seq<char>, rest: Seq<char>)
    ensures
        name + (seq![' ', '=', ' ', '0', '\n', '\n'] + rest) == ended(setting(name, seq!['0'])) + (
        ended(Seq::empty()) + rest),
{
    assert(name + (seq![' ', '=', ' ', '0', '\n', '\n'] + rest) =~= ended(
        setting(name, seq!['0']),
    ) + (ended(Seq::empty()) + rest));
}

/// Where the texts are put together does not matter.
proof fn lemma_regroup(a: Seq<char>, b: Seq<char>, c: Seq<char>, d: Seq<char>)
    ensures
        a + b + c == a + (b + c),
        a + b + c + d == a + (b + (c + d)),
{
    assert(a + b + c =~= a + (b + c));
    assert(a + b + c + d =~= a + (b + (c + d)));
}

/// The lines from the rule on.
spec fn from_rule(tail: Seq<char>) -> Seq<char> {
    ended(rule()) + (ended("# Adjacent nodes (Whitelist)"@) + (ended(rule()) + tail))
}

/// The lines from the log level on.
spec fn from_level(tail: Seq<char>) -> Seq<char> {
    ended(setting("log_level"@, quoted("debug"@))) + (ended(Seq::empty()) + from_rule(tail))
}

/// The lines from the port on.
spec fn from_port(node: NodeSetup, tail: Seq<char>) -> Seq<char> {
    ended("# Port for incoming connections (0 means random available port)"@) + (ended(
        setting("listen_port"@, seq!['0']),
    ) + (ended(Seq::empty()) + (ended(setting("tun_name"@, quoted(node.tun_name@))) + (ended(
        Seq::empty(),
    ) + from_level(tail)))))
}

/// The lines from the address on.
spec fn from_address(node: NodeSetup, tail: Seq<char>) -> Seq<char> {
    ended("# Node IPv4 address"@) + (ended(setting("node_ipv4"@, quoted(node.ip@))) + (ended(
        Seq::empty(),
    ) + from_port(node, tail)))
}

/// The own part, line by line, before what follows it.
#[verifier::spinoff_prover]
#[verifier::rlimit(50)]
proof fn lemma_own_lines(node: NodeSetup, tail: Seq<char>)
    ensures
        node.own_part() + tail == ended("# Path to the secret key"@) + (ended(
            setting("secret_key_path"@, quoted(node.secret_path@)),
        ) + (ended(Seq::empty()) + from_address(node, tail))),
{
    let a = "# Path to the secret key\nsecret_key_path = \""@;
    let b = "\"\n\n# Node IPv4 address\nnode_ipv4 = \""@;
    let c = "\"\n\n# Port for incoming connections (0 means random available port)\nlisten_port = 0\n\ntun_name = \""@;
    let d = "\"\n\nlog_level = \"debug\"\n\n# ==========================================\n# Adjacent nodes (Whitelist)\n# ==========================================\n"@;
    let q = seq!['"', '\n', '\n'];
    let e = seq![' ', '=', ' ', '"'];
    let zero = seq![' ', '=', ' ', '0', '\n', '\n'];
    let port = ended("# Port for incoming connections (0 means random available port)"@);
    let adjacent = ended("# Adjacent nodes (Whitelist)"@);
    let line = ended(rule());
    lemma_path_head();
    lemma_address_head();
    lemma_port_and_name_head();
    lemma_level_and_rule();
    // the log level
    let x1 = line + (adjacent + (line + tail));
    lemma_text_setting("log_level"@, "debug"@, x1);
    lemma_regroup(q + "log_level"@ + e + "debug"@ + q, line, adjacent, line);
    lemma_regroup(q + "log_level"@ + e + "debug"@ + q, line + (adjacent + line), tail, tail);
    lemma_regroup(line, adjacent, line, tail);
    lemma_regroup(line, adjacent + line, tail, tail);
    lemma_regroup(adjacent, line, tail, tail);
    lemma_regroup(q + "log_level"@ + e, "debug"@, q, x1);
    lemma_regroup(q, "log_level"@, e, "debug"@ + (q + x1));
    assert(d + tail == q + from_level(tail));
    // the port and the name of the device
    let x2 = node.tun_name@ + (d + tail);
    let y2 = "tun_name"@ + (e + x2);
    lemma_text_setting("tun_name"@, node.tun_name@, from_level(tail));
    lemma_zero_setting("listen_port"@, y2);
    lemma_regroup(q + port + "listen_port"@ + zero, "tun_name"@, e, x2);
    lemma_regroup(q + port, "listen_port"@, zero, y2);
    lemma_regroup(q, port, "listen_port"@ + (zero + y2), tail);
    assert(c + x2 == q + from_port(node, tail));
    // the address
    let x3 = node.ip@ + (c + x2);
    let address = ended("# Node IPv4 address"@);
    lemma_text_setting("node_ipv4"@, node.ip@, from_port(node, tail));
    lemma_regroup(q + address, "node_ipv4"@, e, x3);
    lemma_regroup(q, address, "node_ipv4"@ + (e + x3), tail);
    assert(b + x3 == q + from_address(node, tail));
    // the path of the secret key
    let x4 = node.secret_path@ + (b + x3);
    let path = ended("# Path to the secret key"@);
    lemma_text_setting("secret_key_path"@, node.secret_path@, from_address(node, tail));
    lemma_regroup(path, "secret_key_path"@, e, x4);
    lemma_regroup(a, node.secret_path@, b, node.ip@ + (c + x2));
    lemma_regroup(a + node.secret_path@ + b, node.ip@, c, x2);
    lemma_regroup(a + node.secret_path@ + b + node.ip@ + c, node.tun_name@, d, tail);
    assert(node.own_part() + tail == a + x4);
}

/// The settings of a peer in the whitelist: its key and its address.
pub open spec fn entry(node: NodeSetup) -> Map<Seq<char>, Seq<char>> {
    Map::empty().insert("pub_key"@, quoted(node.pub_key@)).insert("ipv4"@, quoted(node.ip@))
}

/// The settings of a node: the path of its secret key, its address, the port 0, the name of its device
/// and the log level `debug`.
pub open spec fn own_settings(node: NodeSetup) -> Map<Seq<char>, Seq<char>> {
    Map::empty().insert("secret_key_path"@, quoted(node.secret_path@)).insert(
        "node_ipv4"@,
        quoted(node.ip@),
    ).insert("listen_port"@, seq!['0']).insert("tun_name"@, quoted(node.tun_name@)).insert(
        "log_level"@,
        quoted("debug"@),
    )
}

/// The entry of a peer is read as such.
proof fn lemma_read_peer(doc: Document, node: NodeSetup, rest: Seq<char>)
    requires
        is_plain(node.pub_key@),
        is_plain(node.ip@),
    ensures
        read_on(doc, node.peer_part() + rest) == read_on(
            Document { peers: doc.peers.push(entry(node)), ..doc },
            rest,
        ),
{
    let none = Seq::<char>::empty();
    let key = setting("pub_key"@, quoted(node.pub_key@));
    let ip = setting("ipv4"@, quoted(node.ip@));
    let head = ended("[[peers]]"@);
    lemma_peer_lines(node);
    lemma_names();
    lemma_regroup(head + ended(key), ended(ip), ended(none), rest);
    lemma_regroup(head, ended(key), ended(ip) + (ended(none) + rest), rest);
    let one = Document { peers: doc.peers.push(Map::empty()), ..doc };
    let two = one.set("pub_key"@, quoted(node.pub_key@));
    let three = two.set("ipv4"@, quoted(node.ip@));
    reveal_strlit("[[peers]]");
    reveal_with_fuel(all_from, 12);
    lemma_all("[[peers]]"@, |c: char| in_line(c), 0);
    text_is_read_by_lines(doc, "[[peers]]"@, ended(key) + (ended(ip) + (ended(none) + rest)));
    assert(one.peers.last() == Map::<Seq<char>, Seq<char>>::empty());
    assert(is_value(quoted(node.pub_key@)));
    settings_are_read(one, "pub_key"@, quoted(node.pub_key@));
    text_is_read_by_lines(one, key, ended(ip) + (ended(none) + rest));
    assert(is_value(quoted(node.ip@)));
    assert(!two.has("ipv4"@));
    settings_are_read(two, "ipv4"@, quoted(node.ip@));
    text_is_read_by_lines(two, ip, ended(none) + rest);
    text_is_read_by_lines(three, none, rest);
    assert(three.peers =~= doc.peers.push(entry(node)));
}

/// The entries of some peers are read as such, in their order.
proof fn lemma_read_peers(doc: Document, nodes: Seq<NodeSetup>, rest: Seq<char>)
    requires
        forall|i: int|
            0 <= i < nodes.len() ==> is_plain((#[trigger] nodes[i]).pub_key@) && is_plain(
                nodes[i].ip@,
            ),
    ensures
        read_on(doc, peers_part(nodes) + rest) == read_on(
            Document {
                peers: doc.peers + nodes.map_values(|node: NodeSetup| entry(node)),
                ..doc
            },
            rest,
        ),
    decreases nodes.len(),
{
    let all = nodes.map_values(|node: NodeSetup| entry(node));
    if nodes.len() == 0 {
        assert(peers_part(nodes) + rest =~= rest);
        assert(doc.peers + all =~= doc.peers);
    } else {
        let some = nodes.drop_last();
        let last = nodes.last();
        let before = some.map_values(|node: NodeSetup| entry(node));
        assert(is_plain(nodes[nodes.len() - 1].pub_key@));
        lemma_regroup(peers_part(some), last.peer_part(), rest, rest);
        lemma_read_peers(doc, some, last.peer_part() + rest);
        lemma_read_peer(Document { peers: doc.peers + before, ..doc }, last, rest);
        assert((doc.peers + before).push(entry(last)) =~= doc.peers + all);
    }
}

/// A comment or an empty line says nothing.
proof fn lemma_read_nothing(doc: Document, line: Seq<char>, rest: Seq<char>)
    requires
        line.len() == 0 || is_comment(line),
    ensures
        read_on(doc, ended(line) + rest) == read_on(doc, rest),
{
    text_is_read_by_lines(doc, line, rest);
}

/// A setting of the node that was not made yet is made.
proof fn lemma_read_setting(
    settings: Map<Seq<char>, Seq<char>>,
    name: Seq<char>,
    value: Seq<char>,
    rest: Seq<char>,
)
    requires
        is_name(name),
        is_value(value),
        !settings.contains_key(name),
    ensures
        read_on(
            Document { settings, peers: Seq::empty() },
            ended(setting(name, value)) + (ended(Seq::empty()) + rest),
        ) == read_on(
            Document { settings: settings.insert(name, value), peers: Seq::empty() },
            rest,
        ),
{
    let doc = Document { settings, peers: Seq::empty() };
    settings_are_read(doc, name, value);
    text_is_read_by_lines(doc, setting(name, value), ended(Seq::empty()) + rest);
    lemma_read_nothing(doc.set(name, value), Seq::empty(), rest);
}

/// The own part is read as the settings of the node.
proof fn lemma_read_own(node: NodeSetup, tail: Seq<char>)
    requires
        is_plain(node.secret_path@),
        is_plain(node.ip@),
        is_plain(node.tun_name@),
    ensures
        read(node.own_part() + tail) == read_on(
            Document { settings: own_settings(node), peers: Seq::empty() },
            tail,
        ),
{
    let m0 = Map::<Seq<char>, Seq<char>>::empty();
    let m1 = m0.insert("secret_key_path"@, quoted(node.secret_path@));
    let m2 = m1.insert("node_ipv4"@, quoted(node.ip@));
    let m3 = m2.insert("listen_port"@, seq!['0']);
    let m4 = m3.insert("tun_name"@, quoted(node.tun_name@));
    let m5 = m4.insert("log_level"@, quoted("debug"@));
    let none = Seq::<Map<Seq<char>, Seq<char>>>::empty();
    lemma_names();
    lemma_comments();
    lemma_own_lines(node, tail);
    reveal_strlit("debug");
    reveal_with_fuel(all_from, 8);
    lemma_all("debug"@, |c: char| in_quotes(c), 0);
    assert(is_value(quoted(node.secret_path@)));
    assert(is_value(quoted(node.ip@)));
    assert(is_value(quoted(node.tun_name@)));
    assert(is_value(quoted("debug"@)));
    assert(is_value(seq!['0']));
    let path = ended(setting("secret_key_path"@, quoted(node.secret_path@))) + (ended(
        Seq::empty(),
    ) + from_address(node, tail));
    lemma_read_nothing(blank(), "# Path to the secret key"@, path);
    lemma_read_setting(m0, "secret_key_path"@, quoted(node.secret_path@), from_address(node, tail));
    let address = ended(setting("node_ipv4"@, quoted(node.ip@))) + (ended(Seq::empty())
        + from_port(node, tail));
    lemma_read_nothing(Document { settings: m1, peers: none }, "# Node IPv4 address"@, address);
    lemma_read_setting(m1, "node_ipv4"@, quoted(node.ip@), from_port(node, tail));
    let name = ended(setting("tun_name"@, quoted(node.tun_name@))) + (ended(Seq::empty())
        + from_level(tail));
    let port = ended(setting("listen_port"@, seq!['0'])) + (ended(Seq::empty()) + name);
    lemma_read_nothing(
        Document { settings: m2, peers: none },
        "# Port for incoming connections (0 means random available port)"@,
        port,
    );
    lemma_read_setting(m2, "listen_port"@, seq!['0'], name);
    lemma_read_setting(m3, "tun_name"@, quoted(node.tun_name@), from_level(tail));
    lemma_read_setting(m4, "log_level"@, quoted("debug"@), from_rule(tail));
    let doc = Document { settings: m5, peers: none };
    let adjacent = ended("# Adjacent nodes (Whitelist)"@) + (ended(rule()) + tail);
    lemma_read_nothing(doc, rule(), adjacent);
    lemma_read_nothing(doc, "# Adjacent nodes (Whitelist)"@, ended(rule()) + tail);
    lemma_read_nothing(doc, rule(), tail);
}

/// What is written of a node by its number is plain.
proof fn lemma_numbered_texts_are_plain(node: NodeSetup, secret: SecretKey)
    requires
        node.describes(node.index, secret),
    ensures
        is_plain(node.ip@),
        is_plain(node.secret_path@),
        is_plain(node.tun_name@),
{
    let n = decimal(node.index as nat);
    let sort = |c: char| in_quotes(c);
    lemma_decimal_is_plain(node.index as nat);
    reveal_strlit("10.67.1.");
    reveal_strlit("tmp/secret");
    reveal_strlit(".key");
    reveal_strlit("tun");
    reveal_with_fuel(all_from, 12);
    lemma_all("10.67.1."@, sort, 0);
    lemma_all("tmp/secret"@, sort, 0);
    lemma_all(".key"@, sort, 0);
    lemma_all("tun"@, sort, 0);
    lemma_plain("10.67.1."@, n);
    lemma_plain("tmp/secret"@, n);
    lemma_plain("tmp/secret"@ + n, ".key"@);
    lemma_plain("tun"@, n);
}

/// The written configuration of a node says what it is to say: it is read as the settings of the node
/// and, after them, an entry for every other node, with its key and its address, in their order, and
/// nothing more. The keys are to be plain texts, as z-base-32 texts are.
pub proof fn written_configuration_is_read(nodes: Seq<NodeSetup>, secrets: Seq<SecretKey>, at: int)
    requires
        is_mesh(nodes, secrets),
        0 <= at < nodes.len(),
        forall|j: int| 0 <= j < nodes.len() ==> is_plain((#[trigger] nodes[j]).pub_key@),
    ensures
        read(config_text(nodes, at)) matches Some(doc) && {
            &&& doc.settings == own_settings(nodes[at])
            &&& doc.peers.len() == nodes.len() - 1
            &&& forall|j: int|
                0 <= j < nodes.len() && j != at ==> doc.peers[if j < at {
                    j
                } else {
                    j - 1
                }] == entry(#[trigger] nodes[j])
        },
{
    let peers = others(nodes, nodes[at].index);
    let text = peers_part(peers);
    let all = peers.map_values(|node: NodeSetup| entry(node));
    let own = Document { settings: own_settings(nodes[at]), peers: Seq::empty() };
    mesh_is_full(nodes, secrets, at);
    assert forall|i: int| 0 <= i < peers.len() implies is_plain((#[trigger] peers[i]).pub_key@)
        && is_plain(peers[i].ip@) by {
        let j = if i < at {
            i
        } else {
            i + 1
        };
        assert(peers[i] == nodes[j]);
        assert(nodes[j].describes((j + 1) as usize, secrets[j]));
        lemma_numbered_texts_are_plain(nodes[j], secrets[j]);
    }
    assert(nodes[at].describes((at + 1) as usize, secrets[at]));
    lemma_numbered_texts_are_plain(nodes[at], secrets[at]);
    lemma_read_own(nodes[at], text);
    assert(text + Seq::<char>::empty() =~= text);
    lemma_read_peers(own, peers, Seq::empty());
    let doc = Document { peers: own.peers + all, ..own };
    assert(own.peers + all =~= all);
    assert(read(config_text(nodes, at)) == Some(doc));
    assert forall|j: int| 0 <= j < nodes.len() && j != at implies doc.peers[if j < at {
        j
    } else {
        j - 1
    }] == entry(#[trigger] nodes[j]) by {
        let i = if j < at {
            j
        } else {
            j - 1
        };
        assert(peers[i] == nodes[j]);
    }
}

/// A node that reads the text that was written for it gets what was written, field by field.
pub proof fn written_configuration_reads_back(
    nodes: Seq<NodeSetup>,
    secrets: Seq<SecretKey>,
    at: int,
    toml: ConfigToml,
)
    requires
        is_mesh(nodes, secrets),
        0 <= at < nodes.len(),
        forall|j: int| 0 <= j < nodes.len() ==> is_plain((#[trigger] nodes[j]).pub_key@),
        says(config_text(nodes, at), toml),
    ensures
        reads_as(toml, nodes, at),
        nodes.len() >= 2,
{
    let node = nodes[at];
    let peers = others(nodes, node.index);
    let doc = read(config_text(nodes, at))->Some_0;
    written_configuration_is_read(nodes, secrets, at);
    mesh_is_full(nodes, secrets, at);
    lemma_names();
    lemma_quotes(toml.secret_key_path@, node.secret_path@);
    lemma_quotes(toml.node_ipv4@, node.ip@);
    if let Some(name) = toml.tun_name {
        lemma_quotes(name@, node.tun_name@);
    }
    if let Some(level) = toml.log_level {
        lemma_quotes(level@, "debug"@);
    }
    assert(doc.settings["listen_port"@] == seq!['0']);
    assert(seq!['0'].drop_last() =~= Seq::<char>::empty());
    assert(number_of(seq!['0'].drop_last()) == 0);
    assert(number_of(seq!['0']) == 0);
    assert forall|i: int| 0 <= i < toml.peers@.len() implies is_entry_of(
        #[trigger] toml.peers@[i],
        peers[i],
    ) by {
        let j = if i < at {
            i
        } else {
            i + 1
        };
        assert(peers[i] == nodes[j]);
        assert(is_peer(doc.peers[i], toml.peers@[i]));
        assert(doc.peers[i] == entry(nodes[j]));
        lemma_quotes(toml.peers@[i].pub_key@, nodes[j].pub_key@);
        lemma_quotes(toml.peers@[i].ipv4@, nodes[j].ip@);
    }
}

/// Different texts differ between quotes.
proof fn lemma_quotes(a: Seq<char>, b: Seq<char>)
    ensures
        quoted(a) == quoted(b) ==> a == b,
{
    if quoted(a) == quoted(b) {
        assert(quoted(a).len() == a.len() + 2 && quoted(b).len() == b.len() + 2);
        assert forall|i: int| 0 <= i < a.len() implies a[i] == b[i] by {
            assert(quoted(a)[i + 1] == a[i]);
            assert(quoted(b)[i + 1] == b[i]);
        }
        assert(a =~= b);
    }
}

/// Whether the text has an entry for the node: the head of a peer, and then its key and its address,
/// each in a line of its own.
pub open spec fn lists(text: Seq<char>, node: NodeSetup) -> bool {
    exists|before: Seq<char>, after: Seq<char>|
        text == #[trigger] (before + (ended("[[peers]]"@) + ended(
            setting("pub_key"@, quoted(node.pub_key@)),
        ) + ended(setting("ipv4"@, quoted(node.ip@)))) + after)
}

/// The written configuration of a node lists every other node.
pub proof fn written_configuration_lists_every_other_node(
    nodes: Seq<NodeSetup>,
    secrets: Seq<SecretKey>,
    at: int,
    j: int,
)
    requires
        is_mesh(nodes, secrets),
        0 <= at < nodes.len(),
        0 <= j < nodes.len(),
        j != at,
    ensures
        lists(config_text(nodes, at), nodes[j]),
{
    let peers = others(nodes, nodes[at].index);
    let i = if j < at {
        j
    } else {
        j - 1
    };
    mesh_is_full(nodes, secrets, at);
    assert(peers[i] == nodes[j]);
    let (before, after) = lemma_listed(peers, i);
    let own = nodes[at].own_part();
    let lines = ended("[[peers]]"@) + ended(setting("pub_key"@, quoted(nodes[j].pub_key@))) + ended(
        setting("ipv4"@, quoted(nodes[j].ip@)),
    );
    assert(config_text(nodes, at) =~= (own + before) + lines + after);
}

/// Where the entry of a peer stands among the entries.
proof fn lemma_listed(nodes: Seq<NodeSetup>, i: int) -> (around: (Seq<char>, Seq<char>))
    requires
        0 <= i < nodes.len(),
    ensures
        peers_part(nodes) == around.0 + (ended("[[peers]]"@) + ended(
            setting("pub_key"@, quoted(nodes[i].pub_key@)),
        ) + ended(setting("ipv4"@, quoted(nodes[i].ip@)))) + around.1,
    decreases nodes.len(),
{
    let some = nodes.drop_last();
    let lines = ended("[[peers]]"@) + ended(setting("pub_key"@, quoted(nodes[i].pub_key@))) + ended(
        setting("ipv4"@, quoted(nodes[i].ip@)),
    );
    if i == nodes.len() - 1 {
        lemma_peer_lines(nodes[i]);
        lemma_regroup(peers_part(some), lines, ended(Seq::empty()), Seq::empty());
        (peers_part(some), ended(Seq::empty()))
    } else {
        let (before, after) = lemma_listed(some, i);
        let last = nodes.last().peer_part();
        lemma_regroup(before + lines, after, last, last);
        (before, after + last)
    }
}

/// The nodes of a mesh are numbered from 1, and each has by its number an address, a key file and a
/// device of its own, so that no two nodes of a mesh share one. Each is listed under the public key
/// that belongs to its secret key.
pub proof fn nodes_are_set_up_by_number(
    nodes: Seq<NodeSetup>,
    secrets: Seq<SecretKey>,
    i: int,
    j: int,
)
    requires
        is_mesh(nodes, secrets),
        0 <= i < nodes.len(),
        0 <= j < nodes.len(),
    ensures
        nodes.len() == secrets.len(),
        nodes[i].index == i + 1,
        nodes[i].ip@ == "10.67.1."@ + decimal((i + 1) as nat),
        nodes[i].secret_path@ == "tmp/secret"@ + decimal((i + 1) as nat) + ".key"@,
        nodes[i].tun_name@ == "tun"@ + decimal((i + 1) as nat),
        crate::key::z32_key(nodes[i].pub_key@) == Ok::<[u8; 32], Seq<char>>(
            crate::key::public_bytes(secrets[i].bytes),
        ),
        i != j ==> nodes[i].ip@ != nodes[j].ip@ && nodes[i].secret_path@ != nodes[j].secret_path@
            && nodes[i].tun_name@ != nodes[j].tun_name@,
{
    let a = decimal((i + 1) as nat);
    let b = decimal((j + 1) as nat);
    assert(nodes[i].describes((i + 1) as usize, secrets[i]));
    assert(nodes[j].describes((j + 1) as usize, secrets[j]));
    if i != j {
        if a == b {
            decimal_texts_differ((i + 1) as nat, (j + 1) as nat);
        }
        lemma_same_head("10.67.1."@, a, b);
        lemma_same_head("tun"@, a, b);
        lemma_regroup("tmp/secret"@, a, ".key"@, a);
        lemma_regroup("tmp/secret"@, b, ".key"@, b);
        lemma_same_head("tmp/secret"@, a + ".key"@, b + ".key"@);
        if a + ".key"@ == b + ".key"@ {
            assert((a + ".key"@).len() == a.len() + ".key"@.len());
            assert((b + ".key"@).len() == b.len() + ".key"@.len());
            assert((a + ".key"@).take(a.len() as int) =~= a);
            assert((b + ".key"@).take(b.len() as int) =~= b);
        }
    }
}

/// Texts with the same head that are equal have the same end.
proof fn lemma_same_head(head: Seq<char>, a: Seq<char>, b: Seq<char>)
    ensures
        head + a == head + b ==> a == b,
{
    if head + a == head + b {
        assert((head + a).skip(head.len() as int) =~= a);
        assert((head + b).skip(head.len() as int) =~= b);
    }
}

/// The written configurations of a mesh of at most 255 nodes work: a node that reads the text that was
/// written for it accepts it, gets its address, and whitelists every other node under its address
/// with the key that belongs to the secret key of that node, and nobody else.
#[verifier::spinoff_prover]
#[verifier::rlimit(50)]
pub proof fn written_configuration_is_accepted(
    nodes: Seq<NodeSetup>,
    secrets: Seq<SecretKey>,
    at: int,
    toml: ConfigToml,
)
    requires
        is_mesh(nodes, secrets),
        nodes.len() <= 255,
        0 <= at < nodes.len(),
        forall|j: int| 0 <= j < nodes.len() ==> is_plain((#[trigger] nodes[j]).pub_key@),
        says(config_text(nodes, at), toml),
    ensures
        toml.secret_key_path@ == nodes[at].secret_path@,
        toml.checked() matches Ok(view) && {
            &&& view.node_ipv4.bits == 0x0A43_0100 + at + 1
            &&& view.tun_name == nodes[at].tun_name@
            &&& view.listen_port == 0
            &&& view.mtu == 1500
            &&& view.log_level == "debug"@
            &&& forall|ip: Ipv4Addr| #[trigger]
                view.peers.contains_key(ip) <==> 0x0A43_0101 <= ip.bits <= 0x0A43_0100
                    + nodes.len() && ip.bits != 0x0A43_0101 + at
            &&& forall|ip: Ipv4Addr| #[trigger]
                view.peers.contains_key(ip) ==> view.peers[ip].bytes == crate::key::public_bytes(
                    secrets[ip.bits - 0x0A43_0101].bytes,
                )
        },
{
    let list = toml.peers@;
    let peers = others(nodes, nodes[at].index);
    written_configuration_reads_back(nodes, secrets, at, toml);
    generated_configurations_are_accepted(nodes, secrets, at, toml);
    mesh_is_full(nodes, secrets, at);
    whitelist_is_what_is_listed(list);
    let view = toml.checked()->Ok_0;
    assert forall|j: int| 0 <= j < nodes.len() implies address(#[trigger] nodes[j]).bits
        == 0x0A43_0101 + j by {
        assert(nodes[j].describes((j + 1) as usize, secrets[j]));
        octets_are_the_bytes_of_the_address(address(nodes[j]), 10, 67, 1, (j + 1) as u8);
    }
    assert(nodes[at].index == at + 1) by {
        assert(nodes[at].describes((at + 1) as usize, secrets[at]));
    }
    assert forall|ip: Ipv4Addr| #[trigger] view.peers.contains_key(ip) implies exists|j: int|
        0 <= j < nodes.len() && j != at && ip == address(#[trigger] nodes[j]) by {
        let i = choose|i: int|
            0 <= i < list.len() && peer_of(#[trigger] list[i]) == Ok::<
                (Ipv4Addr, PublicKey),
                crate::config::Fault,
            >((ip, view.peers[ip]));
        let j = if i < at {
            i
        } else {
            i + 1
        };
        assert(is_entry_of(list[i], peers[i]));
        assert(peers[i] == nodes[j]);
        assert(nodes[j].describes((j + 1) as usize, secrets[j]));
        lemma_address(nodes[j], secrets[j]);
    }
    assert forall|ip: Ipv4Addr| #[trigger] view.peers.contains_key(ip) <==> 0x0A43_0101 <= ip.bits
        <= 0x0A43_0100 + nodes.len() && ip.bits != 0x0A43_0101 + at by {
        let j = ip.bits - 0x0A43_0101;
        if 0 <= j < nodes.len() && j != at {
            assert(address(nodes[j]).bits == ip.bits);
            assert(address(nodes[j]) == ip);
        }
    }
    assert forall|ip: Ipv4Addr| #[trigger] view.peers.contains_key(ip) implies view.peers[ip].bytes
        == crate::key::public_bytes(secrets[ip.bits - 0x0A43_0101].bytes) by {
        let j = ip.bits - 0x0A43_0101;
        assert(address(nodes[j]) == ip);
    }
}

} // verus!
