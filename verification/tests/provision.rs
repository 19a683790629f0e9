use bytes::Bytes;
use mesh_network::addr::Ipv4Addr;
use mesh_network::config::{Config, ConfigFile, ConfigToml, Peer};
use mesh_network::key::SecretKey;
use mesh_network::node::assemble;
use mesh_network::provision::{config_name, gen_nodes, node_config, NodeSetup};
use mesh_network::vpn_core::{Action, VpnCore};

fn read_back(content: &str) -> ConfigToml {
    let table: toml::Table = content.parse().unwrap();
    let text = |key: &str| table[key].as_str().unwrap().to_string();
    let peers = table["peers"]
        .as_array()
        .unwrap()
        .iter()
        .map(|p| Peer {
            pub_key: p["pub_key"].as_str().unwrap().to_string(),
            ipv4: p["ipv4"].as_str().unwrap().to_string(),
        })
        .collect();
    ConfigToml {
        secret_key_path: text("secret_key_path"),
        node_ipv4: text("node_ipv4"),
        tun_name: Some(text("tun_name")),
        listen_port: Some(table["listen_port"].as_integer().unwrap() as u16),
        mtu: None,
        log_level: Some(text("log_level")),
        log_path: None,
        peers,
    }
}

#[test]
fn node_is_set_up_by_its_number() {
    let node = NodeSetup::new(12, &SecretKey { bytes: [0; 32] });
    assert_eq!(node.index, 12);
    assert_eq!(node.pub_key, "8pinxxgqs41n4aididenw5apqp1urfmzdztr8jt4abrkdn435ewo");
    assert_eq!(node.ip, "10.67.1.12");
    assert_eq!(node.secret_path, "tmp/secret12.key");
    assert_eq!(node.tun_name, "tun12");
    assert_eq!(config_name(12), "node_12.toml");
}

#[test]
fn configuration_is_written_out() {
    let nodes = vec![
        NodeSetup::with_key(1, "first".to_string()),
        NodeSetup::with_key(2, "second".to_string()),
        NodeSetup::with_key(3, "third".to_string()),
    ];
    let expected = r#"# Path to the secret key
secret_key_path = "tmp/secret2.key"

# Node IPv4 address
node_ipv4 = "10.67.1.2"

# Port for incoming connections (0 means random available port)
listen_port = 0

tun_name = "tun2"

log_level = "debug"

# ==========================================
# Adjacent nodes (Whitelist)
# ==========================================
[[peers]]
pub_key = "first"
ipv4 = "10.67.1.1"

[[peers]]
pub_key = "third"
ipv4 = "10.67.1.3"

"#;
    assert_eq!(node_config(&nodes, 1), expected);
}

#[test]
fn mesh_of_five_lists_twenty_peers() {
    let (nodes, secrets) = gen_nodes(5);
    assert_eq!(nodes.len(), 5);
    assert_eq!(secrets.len(), 5);
    let mut listed = 0;
    for at in 0..nodes.len() {
        let toml = read_back(&node_config(&nodes, at));
        listed += toml.peers.len();
        assert!(toml.peers.iter().all(|p| p.ipv4 != nodes[at].ip));
    }
    assert_eq!(listed, 5 * 4);
}

#[test]
fn generated_configurations_are_taken() {
    let (nodes, secrets) = gen_nodes(4);
    for at in 0..nodes.len() {
        let toml = read_back(&node_config(&nodes, at));
        assert_eq!(toml.secret_key_path, format!("tmp/secret{}.key", at + 1));
        let config = Config::from_file(ConfigFile::Parsed { toml, secret_key: Ok(secrets[at]) })
            .ok()
            .unwrap();
        assert_eq!(config.node_ipv4, Ipv4Addr::new(10, 67, 1, at as u8 + 1));
        assert_eq!(config.tun_name, format!("tun{}", at + 1));
        assert_eq!(config.listen_port, 0);
        assert_eq!(config.log_level, "debug");
        assert!(config.node_ipv4.is_in_mesh());
        assert!(config.peers.pairs().iter().all(|(ip, _)| ip.is_in_mesh()));
        for other in 0..nodes.len() {
            let ip = Ipv4Addr::new(10, 67, 1, other as u8 + 1);
            let expected = if other == at { None } else { Some(secrets[other].public()) };
            assert_eq!(config.peers.get(&ip), expected);
        }
    }
}

#[test]
fn only_node_of_a_mesh_lists_no_peers() {
    let (nodes, _) = gen_nodes(1);
    let table: toml::Table = node_config(&nodes, 0).parse().unwrap();
    assert!(!table.contains_key("peers"));
    assert_eq!(table["node_ipv4"].as_str(), Some("10.67.1.1"));
}

#[test]
fn mesh_of_none_is_empty() {
    let (nodes, secrets) = gen_nodes(0);
    assert!(nodes.is_empty());
    assert!(secrets.is_empty());
}

#[test]
fn generated_nodes_reach_one_another() {
    let (nodes, secrets) = gen_nodes(3);
    let mut cores: Vec<VpnCore> = vec![];
    for at in 0..nodes.len() {
        let toml = read_back(&node_config(&nodes, at));
        let config = Config::from_file(ConfigFile::Parsed { toml, secret_key: Ok(secrets[at]) })
            .ok()
            .unwrap();
        let own = config.secret_key.public();
        cores.push(assemble(own, config.node_ipv4, config.peers, config.mtu).0);
    }
    for from in 0..nodes.len() {
        for to in 0..nodes.len() {
            if from == to {
                continue;
            }
            let (sender, receiver) = (secrets[from].public(), secrets[to].public());
            let packet = Bytes::from(vec![
                0x45, 0, 0, 20, 0, 0, 0, 0, 64, 1, 0, 0, 10, 67, 1, from as u8 + 1, 10, 67, 1,
                to as u8 + 1,
            ]);
            cores[from].on_peer_connected(&receiver);
            assert_eq!(
                cores[from].send_packet(packet.clone()),
                vec![Action::SendPacketTo(packet.clone(), receiver)]
            );
            assert_eq!(
                cores[to].recv_packet(packet.clone(), &sender),
                vec![Action::WriteToTun(packet)]
            );
        }
    }
}
