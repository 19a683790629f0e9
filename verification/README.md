# mesh_network

A user-space IPv4 mesh VPN over QUIC. Each node has a public key, an address in 10.67.0.0/16 and a
whitelist of peers; packets of the host go through a tun device into datagrams of an encrypted
connection with the peer that owns the destination address.

The library is sans-IO: it decides, and the program around it performs. Every decision has a contract
that Verus proves, and what holds over many steps is stated in proof functions.

| Module | What it holds |
|---|---|
| `addr`, `text` | IPv4 addresses and their text; decimal and hexadecimal |
| `key`, `key_map` | node keys, their order and z-base-32 text; sorted maps keyed by them |
| `octets`, `io` | the outside types that packets and errors come in |
| `packet::ipv4` | the header of a packet |
| `route` | which node has which address |
| `vpn_core` | the routing core: forward, drop or queue |
| `coord`, `channel` | the coordinator between core, manager and tun device |
| `iroh` | the connection manager and its tasks |
| `tun` | the life of the tun device and its two workers |
| `custom_transport` | a congestion controller that never holds anything back |
| `config`, `node` | the configuration of a node, and what follows from it |
| `provision` | configurations for a whole mesh |
| `laws` | what holds of the core, of the manager, and of both together |

`app/` is the program: files, sockets, tasks and the log. `tests/` runs the library with the outside
crates linked.

## Configuration

```toml
# Made and saved here if there is no such file.
secret_key_path = "/path/to/your/secret.key"
# Within 10.67.0.0/16.
node_ipv4 = "10.67.1.5"
# tun_name = "iroh_vpn"
# listen_port = 6767
# mtu = 1500
# log_level = "info"        # trace, debug, info, warn, error, off
# log_path = "/path/to/your/log/directory"

[[peers]]
pub_key = "8pinxxgqs41n4aididenw5apqp1urfmzdztr8jt4abrkdn435ewo"
ipv4 = "10.67.2.10"
```

Run the program with the path of the configuration. Under the name `gen_configs`, and with a number of
nodes, it writes that many secret keys and configurations into `tmp/`. A mesh made so has at least two
nodes, since a configuration without a list of peers is refused, and at most 255, since its addresses
are 10.67.1.1, 10.67.1.2 and so on.
