//! The configuration of a node: defaults, checks, the whitelist and the secret key.
use std::io::{Error, ErrorKind};
use vstd::prelude::*;

use crate::addr::{AddrParseError, Ipv4Addr, NETMASK};
use crate::io::displayed_as;
use crate::key::{PublicKey, SecretKey};
use crate::route::RouteTable;

verus! {

/// The port to listen on where the configuration names none.
pub const DEFAULT_LISTEN_PORT: u16 = 6767;

/// The maximum transmission unit where the configuration names none.
pub const DEFAULT_MTU: u16 = 1500;

/// The configuration of a node, checked and complete.
pub struct Config {
    pub secret_key: SecretKey,
    pub node_ipv4: Ipv4Addr,
    pub netmask: Ipv4Addr,
    pub tun_name: String,
    pub listen_port: u16,
    pub mtu: u16,
    pub log_level: String,
    pub log_path: Option<String>,
    pub peers: RouteTable,
}

/// The configuration as it is written down.
pub struct ConfigToml {
    pub secret_key_path: String,
    pub node_ipv4: String,
    pub tun_name: Option<String>,
    pub listen_port: Option<u16>,
    pub mtu: Option<u16>,
    pub log_level: Option<String>,
    pub log_path: Option<String>,
    pub peers: Vec<Peer>,
}

/// A whitelisted peer as it is written down.
pub struct Peer {
    pub pub_key: String,
    pub ipv4: String,
}

/// Why there is no configuration.
#[derive(Debug)]
pub enum ConfigError {
    OpenFileError(Error),
    /// The file is not of the expected format; the text says where.
    FormatParsingError(String),
    SecretKeyError(SecretKeyError),
    Ipv4ParseError(AddrParseError),
    /// A public key could not be read; the text says why.
    PublicKeyParseError(String),
    Ipv4NotInSubnet,
    IncorrectLogLevel,
}

/// Why there is no secret key.
#[derive(Debug)]
pub enum SecretKeyError {
    GetKeyError(Error),
    IncorrectKey,
}

/// What came of reading the configuration file.
pub enum ConfigFile {
    Unreadable(Error),
    /// The file is not of the expected format; the text says where.
    Malformed(String),
    /// The file was read, and then its secret key.
    Parsed { toml: ConfigToml, secret_key: Result<SecretKey, SecretKeyError> },
}

/// What to do about the secret key.
pub enum KeyStep {
    Done(Result<SecretKey, SecretKeyError>),
    /// There is no key file yet: save this new key.
    Save(SecretKey),
}

/// What is wrong with a configuration that was read.
pub enum Fault {
    Ipv4Parse,
    PublicKeyParse(Seq<char>),
    Ipv4NotInSubnet,
    IncorrectLogLevel,
}

/// A configuration as the contracts see it, but for the secret key.
pub struct ConfigView {
    pub node_ipv4: Ipv4Addr,
    pub netmask: Ipv4Addr,
    pub tun_name: Seq<char>,
    pub listen_port: u16,
    pub mtu: u16,
    pub log_level: Seq<char>,
    pub log_path: Option<Seq<char>>,
    pub peers: Map<Ipv4Addr, PublicKey>,
}

/// The characters of a text that may be missing.
pub open spec fn text_of(text: Option<String>) -> Option<Seq<char>> {
    match text {
        Some(s) => Some(s@),
        None => None,
    }
}

impl View for Config {
    type V = ConfigView;

    open spec fn view(&self) -> ConfigView {
        ConfigView {
            node_ipv4: self.node_ipv4,
            netmask: self.netmask,
            tun_name: self.tun_name@,
            listen_port: self.listen_port,
            mtu: self.mtu,
            log_level: self.log_level@,
            log_path: text_of(self.log_path),
            peers: self.peers@,
        }
    }
}

/// The log levels there are.
pub open spec fn is_log_level(level: Seq<char>) -> bool {
    ||| level == "trace"@
    ||| level == "debug"@
    ||| level == "info"@
    ||| level == "warn"@
    ||| level == "error"@
    ||| level == "off"@
}

/// The address and the key of a peer, or what is wrong with its entry.
pub open spec fn peer_of(peer: Peer) -> Result<(Ipv4Addr, PublicKey), Fault> {
    match crate::addr::address_of(peer.ipv4@) {
        None => Err(Fault::Ipv4Parse),
        Some(ip) => match crate::key::z32_key(peer.pub_key@) {
            Err(text) => Err(Fault::PublicKeyParse(text)),
            Ok(bytes) => Ok((ip, PublicKey { bytes })),
        },
    }
}

/// The whitelist, or the first thing that is wrong with it. Of several entries for one address the
/// last counts.
pub open spec fn peers_of(list: Seq<Peer>) -> Result<Map<Ipv4Addr, PublicKey>, Fault>
    decreases list.len(),
{
    if list.len() == 0 {
        Ok(Map::empty())
    } else {
        match peers_of(list.drop_last()) {
            Err(fault) => Err(fault),
            Ok(peers) => match peer_of(list.last()) {
                Err(fault) => Err(fault),
                Ok((ip, key)) => Ok(peers.insert(ip, key)),
            },
        }
    }
}

impl ConfigToml {
    /// The configuration that is written down, or the first thing that is wrong with it.
    pub open spec fn checked(self) -> Result<ConfigView, Fault> {
        match peers_of(self.peers@) {
            Err(fault) => Err(fault),
            Ok(peers) => match crate::addr::address_of(self.node_ipv4@) {
                None => Err(Fault::Ipv4Parse),
                Some(node_ipv4) => if !node_ipv4.in_mesh() {
                    Err(Fault::Ipv4NotInSubnet)
                } else if self.log_level matches Some(level) && !is_log_level(level@) {
                    Err(Fault::IncorrectLogLevel)
                } else {
                    Ok(
                        ConfigView {
                            node_ipv4,
                            netmask: Ipv4Addr { bits: NETMASK },
                            tun_name: match self.tun_name {
                                Some(name) => name@,
                                None => "iroh_vpn"@,
                            },
                            listen_port: match self.listen_port {
                                Some(port) => port,
                                None => DEFAULT_LISTEN_PORT,
                            },
                            mtu: match self.mtu {
                                Some(mtu) => mtu,
                                None => DEFAULT_MTU,
                            },
                            log_level: match self.log_level {
                                Some(level) => level@,
                                None => "info"@,
                            },
                            log_path: text_of(self.log_path),
                            peers,
                        },
                    )
                },
            },
        }
    }
}

impl ConfigError {
    /// The fault that the error reports, if it is one of what was read.
    pub open spec fn fault(self) -> Option<Fault> {
        match self {
            ConfigError::Ipv4ParseError(_) => Some(Fault::Ipv4Parse),
            ConfigError::PublicKeyParseError(text) => Some(Fault::PublicKeyParse(text@)),
            ConfigError::Ipv4NotInSubnet => Some(Fault::Ipv4NotInSubnet),
            ConfigError::IncorrectLogLevel => Some(Fault::IncorrectLogLevel),
            _ => None,
        }
    }

    /// What went wrong, for a reader.
    pub fn message(&self) -> (s: String)
        ensures
            match *self {
                ConfigError::OpenFileError(e) => exists|text: String| #[trigger]
                    displayed_as(e, text) && s@ == "Open file error: "@ + text@,
                ConfigError::FormatParsingError(e) => s@ == "Incorrect config format: "@ + e@,
                ConfigError::SecretKeyError(SecretKeyError::IncorrectKey) => s@
                    == "Secret key error: "@ + "given key isn't correct"@,
                ConfigError::SecretKeyError(SecretKeyError::GetKeyError(e)) => exists|
                    text: String,
                | #[trigger]
                    displayed_as(e, text) && s@ == "Secret key error: "@ + ("can't get the key: "@
                        + text@),
                ConfigError::Ipv4ParseError(_) => s@ == "Ipv4 parse error: "@
                    + "invalid IPv4 address syntax"@,
                ConfigError::PublicKeyParseError(e) => s@ == "Public key parse error: "@ + e@,
                ConfigError::Ipv4NotInSubnet => s@ == "Node Ipv4 not in correct subnet"@,
                ConfigError::IncorrectLogLevel => s@ == "Incorrect log level"@,
            },
    {
        match self {
            ConfigError::OpenFileError(e) => {
                let text = e.to_string();
                assert(displayed_as(*e, text));
                "Open file error: ".to_owned().concat(text.as_str())
            },
            ConfigError::FormatParsingError(e) => {
                "Incorrect config format: ".to_owned().concat(e.as_str())
            },
            ConfigError::SecretKeyError(e) => {
                "Secret key error: ".to_owned().concat(e.message().as_str())
            },
            ConfigError::Ipv4ParseError(e) => {
                "Ipv4 parse error: ".to_owned().concat(e.message().as_str())
            },
            ConfigError::PublicKeyParseError(e) => {
                "Public key parse error: ".to_owned().concat(e.as_str())
            },
            ConfigError::Ipv4NotInSubnet => "Node Ipv4 not in correct subnet".to_owned(),
            ConfigError::IncorrectLogLevel => "Incorrect log level".to_owned(),
        }
    }
}

impl SecretKeyError {
    /// What went wrong, for a reader.
    pub fn message(&self) -> (s: String)
        ensures
            match *self {
                SecretKeyError::GetKeyError(e) => exists|text: String| #[trigger]
                    displayed_as(e, text) && s@ == "can't get the key: "@ + text@,
                SecretKeyError::IncorrectKey => s@ == "given key isn't correct"@,
            },
    {
        match self {
            SecretKeyError::GetKeyError(e) => {
                let text = e.to_string();
                assert(displayed_as(*e, text));
                "can't get the key: ".to_owned().concat(text.as_str())
            },
            SecretKeyError::IncorrectKey => "given key isn't correct".to_owned(),
        }
    }
}

/// Whether this is what to do once the key file was read.
pub open spec fn is_key_step(read: Result<Vec<u8>, Error>, step: KeyStep) -> bool {
    match read {
        Ok(data) => if data@.len() == 32 {
            &&& step matches KeyStep::Done(Ok(key)) && key.bytes@ == data@
            &&& forall|saved: SecretKey|
                saved.bytes@ == data@ ==> step == KeyStep::Done(Ok(saved))
        } else {
            step == KeyStep::Done(Err(SecretKeyError::IncorrectKey))
        },
        Err(e) => if crate::io::error_kind(e) is NotFound {
            step is Save
        } else {
            step == KeyStep::Done(Err(SecretKeyError::GetKeyError(e)))
        },
    }
}

impl Config {
    /// Checks a configuration file that was read, and fills in the defaults.
    pub fn from_file(file: ConfigFile) -> (r: Result<Config, ConfigError>)
        ensures
            match file {
                ConfigFile::Unreadable(e) => r == Err::<Config, ConfigError>(
                    ConfigError::OpenFileError(e),
                ),
                ConfigFile::Malformed(text) => r == Err::<Config, ConfigError>(
                    ConfigError::FormatParsingError(text),
                ),
                ConfigFile::Parsed { secret_key: Err(e), .. } => r == Err::<Config, ConfigError>(
                    ConfigError::SecretKeyError(e),
                ),
                ConfigFile::Parsed { toml, secret_key: Ok(key) } => match toml.checked() {
                    Ok(view) => r matches Ok(config) && config@ == view && config.secret_key == key,
                    Err(fault) => r matches Err(e) && e.fault() == Some(fault),
                },
            },
    {
        let (config_toml, secret_key) = match file {
            ConfigFile::Unreadable(e) => {
                return Err(ConfigError::OpenFileError(e));
            },
            ConfigFile::Malformed(text) => {
                return Err(ConfigError::FormatParsingError(text));
            },
            ConfigFile::Parsed { secret_key: Err(e), .. } => {
                return Err(ConfigError::SecretKeyError(e));
            },
            ConfigFile::Parsed { toml, secret_key: Ok(key) } => (toml, key),
        };
        let peers = match Self::get_peers(&config_toml) {
            Ok(peers) => peers,
            Err(e) => {
                return Err(e);
            },
        };
        let node_ipv4 = match Ipv4Addr::from_str(config_toml.node_ipv4.as_str()) {
            Ok(ip) => ip,
            Err(e) => {
                return Err(ConfigError::Ipv4ParseError(e));
            },
        };
        if !node_ipv4.is_in_mesh() {
            return Err(ConfigError::Ipv4NotInSubnet);
        }
        let listen_port = match config_toml.listen_port {
            Some(port) => port,
            None => DEFAULT_LISTEN_PORT,
        };
        let mtu = match config_toml.mtu {
            Some(mtu) => mtu,
            None => DEFAULT_MTU,
        };
        let log_level = match config_toml.log_level {
            Some(level) => {
                if !Self::is_known_level(&level) {
                    return Err(ConfigError::IncorrectLogLevel);
                }
                level
            },
            None => "info".to_owned(),
        };
        let tun_name = match config_toml.tun_name {
            Some(name) => name,
            None => "iroh_vpn".to_owned(),
        };
        Ok(
            Config {
                secret_key,
                node_ipv4,
                netmask: Ipv4Addr { bits: NETMASK },
                tun_name,
                listen_port,
                mtu,
                log_level,
                log_path: config_toml.log_path,
                peers,
            },
        )
    }

    fn is_known_level(level: &String) -> (r: bool)
        ensures
            r == is_log_level(level@),
    {
        *level == "trace".to_owned() || *level == "debug".to_owned() || *level == "info".to_owned()
            || *level == "warn".to_owned() || *level == "error".to_owned() || *level
            == "off".to_owned()
    }

    /// Reads the whitelist.
    pub fn get_peers(cfg: &ConfigToml) -> (r: Result<RouteTable, ConfigError>)
        ensures
            match peers_of(cfg.peers@) {
                Ok(peers) => r matches Ok(table) && table@ == peers,
                Err(fault) => r matches Err(e) && e.fault() == Some(fault),
            },
    {
        let ghost all = cfg.peers@;
        let mut peers = RouteTable::new();
        let mut i: usize = 0;
        while i < cfg.peers.len()
            invariant
                all == cfg.peers@,
                i <= all.len(),
                peers_of(all.take(i as int)) == Ok::<Map<Ipv4Addr, PublicKey>, Fault>(peers@),
            decreases all.len() - i,
        {
            let peer = &cfg.peers[i];
            proof {
                assert(all.take(i + 1).drop_last() =~= all.take(i as int));
                assert(all.take(i + 1).last() == *peer);
            }
            let ipv4 = match Ipv4Addr::from_str(peer.ipv4.as_str()) {
                Ok(ip) => ip,
                Err(e) => {
                    proof {
                        lemma_first_fault(all, i + 1);
                    }
                    return Err(ConfigError::Ipv4ParseError(e));
                },
            };
            match Self::enter_peer(&mut peers, ipv4, PublicKey::from_z32(peer.pub_key.as_str())) {
                Ok(_) => {},
                Err(e) => {
                    proof {
                        lemma_first_fault(all, i + 1);
                    }
                    return Err(e);
                },
            }
            i = i + 1;
        }
        assert(all.take(all.len() as int) =~= all);
        Ok(peers)
    }

    /// Enters a peer into the whitelist, once its key was read or could not be.
    pub fn enter_peer(
        peers: &mut RouteTable,
        ipv4: Ipv4Addr,
        pub_key: Result<PublicKey, String>,
    ) -> (r: Result<(), ConfigError>)
        ensures
            match pub_key {
                Ok(key) => r is Ok && final(peers)@ == old(peers)@.insert(ipv4, key),
                Err(e) => r == Err::<(), ConfigError>(ConfigError::PublicKeyParseError(e))
                    && final(peers)@ == old(peers)@,
            },
    {
        match pub_key {
            Ok(key) => {
                peers.insert(ipv4, key);
                Ok(())
            },
            Err(e) => Err(ConfigError::PublicKeyParseError(e)),
        }
    }

    /// Whether a new key is to be made once the key file could not be read, for a reason of the
    /// given kind: only if there is no such file.
    pub fn may_generate(kind: ErrorKind, error: Error) -> (r: Result<(), SecretKeyError>)
        ensures
            r == (if kind is NotFound {
                Ok(())
            } else {
                Err(SecretKeyError::GetKeyError(error))
            }),
    {
        match kind {
            ErrorKind::NotFound => Ok(()),
            _ => Err(SecretKeyError::GetKeyError(error)),
        }
    }

    /// What to do once the key file was read: use the key in it, which has 32 bytes, or save a new
    /// key if there is no such file. A key that was saved is read back as it was.
    pub fn get_secret_key(read: Result<Vec<u8>, Error>) -> (step: KeyStep)
        ensures
            is_key_step(read, step),
    {
        let data = match read {
            Ok(data) => data,
            Err(e) => {
                return match Self::may_generate(e.kind(), e) {
                    Ok(_) => KeyStep::Save(SecretKey::generate()),
                    Err(e) => KeyStep::Done(Err(e)),
                };
            },
        };
        if data.len() != 32 {
            return KeyStep::Done(Err(SecretKeyError::IncorrectKey));
        }
        let mut bytes: [u8; 32] = [0; 32];
        let mut i: usize = 0;
        while i < 32
            invariant
                i <= 32,
                data@.len() == 32,
                forall|k: int| 0 <= k < i ==> bytes@[k] == data@[k],
            decreases 32 - i,
        {
            bytes[i] = data[i];
            i = i + 1;
        }
        assert(bytes@ =~= data@);
        assert forall|saved: SecretKey| saved.bytes@ == data@ implies saved == (SecretKey {
            bytes,
        }) by {
            assert(saved.bytes =~= bytes);
        }
        KeyStep::Done(Ok(SecretKey { bytes }))
    }

    /// The outcome once a new key was saved, or could not be.
    pub fn gen_secret_key(key: SecretKey, saved: Result<(), Error>) -> (r: Result<
        SecretKey,
        SecretKeyError,
    >)
        ensures
            r == (match saved {
                Ok(_) => Ok(key),
                Err(e) => Err(SecretKeyError::GetKeyError(e)),
            }),
    {
        match saved {
            Ok(_) => Ok(key),
            Err(e) => Err(SecretKeyError::GetKeyError(e)),
        }
    }
}

/// A fault in the first entries is the fault of the whole whitelist.
proof fn lemma_first_fault(list: Seq<Peer>, n: int)
    requires
        0 <= n <= list.len(),
        peers_of(list.take(n)) is Err,
    ensures
        peers_of(list) == peers_of(list.take(n)),
    decreases list.len() - n,
{
    if n == list.len() {
        assert(list.take(n) =~= list);
    } else {
        assert(list.take(n + 1).drop_last() =~= list.take(n));
        lemma_first_fault(list, n + 1);
    }
}

/// A configuration that is accepted puts its node into the mesh, under the mask of the mesh, with a
/// log level there is.
pub proof fn accepted_nodes_are_in_the_mesh(toml: ConfigToml)
    ensures
        toml.checked() matches Ok(view) ==> {
            &&& view.node_ipv4.in_mesh()
            &&& view.node_ipv4.text() == toml.node_ipv4@
            &&& view.netmask.octet(0) == 255 && view.netmask.octet(1) == 255
            &&& view.netmask.octet(2) == 0 && view.netmask.octet(3) == 0
            &&& is_log_level(view.log_level)
        },
{
}

/// The whitelist holds what is listed: each address that is listed, with the key of one of its
/// entries, and no other address.
pub proof fn whitelist_is_what_is_listed(list: Seq<Peer>)
    ensures
        peers_of(list) matches Ok(peers) ==> {
            &&& forall|i: int|
                0 <= i < list.len() ==> peer_of(#[trigger] list[i]) is Ok && peers.contains_key(
                    peer_of(list[i])->Ok_0.0,
                )
            &&& forall|ip: Ipv4Addr| #[trigger]
                peers.contains_key(ip) ==> exists|i: int|
                    0 <= i < list.len() && peer_of(#[trigger] list[i]) == Ok::<
                        (Ipv4Addr, PublicKey),
                        Fault,
                    >((ip, peers[ip]))
        },
    decreases list.len(),
{
    if list.len() > 0 && peers_of(list) is Ok {
        let some = list.drop_last();
        whitelist_is_what_is_listed(some);
        let peers = peers_of(list)->Ok_0;
        let before = peers_of(some)->Ok_0;
        assert forall|i: int| 0 <= i < list.len() implies peer_of(#[trigger] list[i]) is Ok
            && peers.contains_key(peer_of(list[i])->Ok_0.0) by {
            if i < list.len() - 1 {
                assert(some[i] == list[i]);
            }
        }
        assert forall|ip: Ipv4Addr| #[trigger] peers.contains_key(ip) implies exists|i: int|
            0 <= i < list.len() && peer_of(#[trigger] list[i]) == Ok::<
                (Ipv4Addr, PublicKey),
                Fault,
            >((ip, peers[ip])) by {
            let last = peer_of(list.last())->Ok_0;
            if last.0 == ip {
                assert(peer_of(list[list.len() - 1]) == Ok::<(Ipv4Addr, PublicKey), Fault>(
                    (ip, peers[ip]),
                ));
            } else {
                assert(before.contains_key(ip));
                let i = choose|i: int|
                    0 <= i < some.len() && peer_of(#[trigger] some[i]) == Ok::<
                        (Ipv4Addr, PublicKey),
                        Fault,
                    >((ip, before[ip]));
                assert(list[i] == some[i]);
            }
        }
    }
}

/// Where no address is listed twice, each listed node is whitelisted under its address.
pub proof fn unique_addresses_keep_their_keys(list: Seq<Peer>, i: int)
    requires
        0 <= i < list.len(),
        peers_of(list) is Ok,
        forall|j: int, k: int|
            0 <= j < k < list.len() ==> peer_of(#[trigger] list[j])->Ok_0.0 != peer_of(
                #[trigger] list[k],
            )->Ok_0.0,
    ensures
        peer_of(list[i]) is Ok,
        peers_of(list)->Ok_0.contains_key(peer_of(list[i])->Ok_0.0),
        peers_of(list)->Ok_0[peer_of(list[i])->Ok_0.0] == peer_of(list[i])->Ok_0.1,
{
    whitelist_is_what_is_listed(list);
    let peers = peers_of(list)->Ok_0;
    let ip = peer_of(list[i])->Ok_0.0;
    assert(peers.contains_key(ip));
    let j = choose|j: int|
        0 <= j < list.len() && peer_of(#[trigger] list[j]) == Ok::<(Ipv4Addr, PublicKey), Fault>(
            (ip, peers[ip]),
        );
    assert(j == i);
}

/// The entry that is listed last for an address is the one that counts.
pub proof fn last_entry_counts(list: Seq<Peer>, i: int)
    requires
        0 <= i < list.len(),
        peers_of(list) is Ok,
        forall|j: int|
            i < j < list.len() ==> peer_of(#[trigger] list[j])->Ok_0.0 != peer_of(list[i])->Ok_0.0,
    ensures
        peers_of(list)->Ok_0[peer_of(list[i])->Ok_0.0] == peer_of(list[i])->Ok_0.1,
    decreases list.len(),
{
    if i < list.len() - 1 {
        let some = list.drop_last();
        assert forall|j: int| i < j < some.len() implies peer_of(#[trigger] some[j])->Ok_0.0
            != peer_of(some[i])->Ok_0.0 by {
            assert(some[j] == list[j]);
        }
        last_entry_counts(some, i);
        assert(peer_of(list[list.len() - 1])->Ok_0.0 != peer_of(list[i])->Ok_0.0);
    }
}

/// A setting that is written down is kept as it is written, whatever it is, and one that is not
/// written down gets its default: port 6767, size 1500, device `iroh_vpn`, log level `info` and no
/// log file.
pub proof fn written_settings_are_kept(toml: ConfigToml)
    ensures
        toml.checked() matches Ok(view) ==> {
            &&& toml.listen_port matches Some(port) ==> view.listen_port == port
            &&& toml.listen_port is None ==> view.listen_port == 6767
            &&& toml.mtu matches Some(mtu) ==> view.mtu == mtu
            &&& toml.mtu is None ==> view.mtu == 1500
            &&& toml.tun_name matches Some(name) ==> view.tun_name == name@
            &&& toml.tun_name is None ==> view.tun_name == "iroh_vpn"@
            &&& toml.log_level matches Some(level) ==> view.log_level == level@
            &&& toml.log_level is None ==> view.log_level == "info"@
            &&& toml.log_path matches Some(path) ==> view.log_path == Some(path@)
            &&& toml.log_path is None ==> view.log_path is None
            &&& view.netmask.bits == 0xFFFF_0000
        },
{
}

/// The log levels are these six.
pub open spec fn one_of_the_levels(level: Seq<char>) -> bool {
    level == "trace"@ || level == "debug"@ || level == "info"@ || level == "warn"@ || level
        == "error"@ || level == "off"@
}

/// A configuration is accepted exactly if every entry of its whitelist can be read, its own address is
/// one from 10.67.0.0 to 10.67.255.255, and its log level, if it names one, is one of the six. The
/// settings of port, size, device and log file have no say in it. An accepted configuration has the
/// address that it names, and the whitelist that it lists.
pub proof fn acceptance_is_by_addresses_keys_and_level(toml: ConfigToml)
    ensures
        toml.checked() is Ok <==> {
            &&& forall|i: int|
                0 <= i < toml.peers@.len() ==> peer_of(#[trigger] toml.peers@[i]) is Ok
            &&& crate::addr::address_of(toml.node_ipv4@) matches Some(ip) && 0x0A43_0000 <= ip.bits
                <= 0x0A43_FFFF
            &&& toml.log_level matches Some(level) ==> one_of_the_levels(level@)
        },
        toml.checked() matches Ok(view) ==> {
            &&& crate::addr::address_of(toml.node_ipv4@) == Some(view.node_ipv4)
            &&& peers_of(toml.peers@) == Ok::<Map<Ipv4Addr, PublicKey>, Fault>(view.peers)
        },
{
    whitelist_is_read_if_every_entry_is(toml.peers@);
    if let Some(ip) = crate::addr::address_of(toml.node_ipv4@) {
        crate::addr::mesh_is_a_range_of_addresses(ip);
    }
}

/// Of several things that are wrong, the one reported is: first, what is wrong with the whitelist;
/// then that the node's address cannot be read; then that it is not in the mesh; and last that there
/// is no such log level.
pub proof fn first_fault_is_reported(toml: ConfigToml)
    ensures
        ({
            let list = peers_of(toml.peers@);
            let ip = crate::addr::address_of(toml.node_ipv4@);
            &&& list matches Err(fault) ==> toml.checked() == Err::<ConfigView, Fault>(fault)
            &&& list is Ok && ip is None ==> toml.checked() == Err::<ConfigView, Fault>(
                Fault::Ipv4Parse,
            )
            &&& list is Ok && ip is Some && !(0x0A43_0000 <= ip->Some_0.bits <= 0x0A43_FFFF)
                ==> toml.checked() == Err::<ConfigView, Fault>(Fault::Ipv4NotInSubnet)
            &&& list is Ok && ip is Some && 0x0A43_0000 <= ip->Some_0.bits <= 0x0A43_FFFF && (
            toml.log_level matches Some(level) && !one_of_the_levels(level@)) ==> toml.checked()
                == Err::<ConfigView, Fault>(Fault::IncorrectLogLevel)
        }),
{
    if let Some(ip) = crate::addr::address_of(toml.node_ipv4@) {
        crate::addr::mesh_is_a_range_of_addresses(ip);
    }
}

/// Each error reports one fault and each fault has its error; the errors of files report none.
pub proof fn errors_name_their_faults(error: ConfigError, text: Seq<char>)
    ensures
        error.fault() == Some(Fault::Ipv4Parse) <==> error is Ipv4ParseError,
        error.fault() == Some(Fault::PublicKeyParse(text)) <==> (
        error matches ConfigError::PublicKeyParseError(e) && e@ == text),
        error.fault() == Some(Fault::Ipv4NotInSubnet) <==> error is Ipv4NotInSubnet,
        error.fault() == Some(Fault::IncorrectLogLevel) <==> error is IncorrectLogLevel,
        error.fault() is None <==> error is OpenFileError || error is FormatParsingError || error
            is SecretKeyError,
{
}

/// An entry of the whitelist is read exactly if its address and its key can be, and gives that key
/// under that address; an address that cannot be read is reported before a key that cannot.
pub proof fn entries_are_an_address_and_a_key(peer: Peer)
    ensures
        ({
            let ip = crate::addr::address_of(peer.ipv4@);
            let key = crate::key::z32_key(peer.pub_key@);
            &&& ip is None ==> peer_of(peer) == Err::<(Ipv4Addr, PublicKey), Fault>(
                Fault::Ipv4Parse,
            )
            &&& ip is Some ==> (key matches Err(text) ==> peer_of(peer) == Err::<
                (Ipv4Addr, PublicKey),
                Fault,
            >(Fault::PublicKeyParse(text)))
            &&& ip is Some ==> (key matches Ok(bytes) ==> peer_of(peer) == Ok::<
                (Ipv4Addr, PublicKey),
                Fault,
            >((ip->Some_0, PublicKey { bytes })))
        }),
{
}

/// The whitelist is read exactly if every entry of it is.
pub proof fn whitelist_is_read_if_every_entry_is(list: Seq<Peer>)
    ensures
        peers_of(list) is Ok <==> forall|i: int|
            0 <= i < list.len() ==> peer_of(#[trigger] list[i]) is Ok,
    decreases list.len(),
{
    if list.len() > 0 {
        let some = list.drop_last();
        whitelist_is_read_if_every_entry_is(some);
        assert(list[list.len() - 1] == list.last());
        if forall|i: int| 0 <= i < list.len() ==> peer_of(#[trigger] list[i]) is Ok {
            assert forall|i: int| 0 <= i < some.len() implies peer_of(#[trigger] some[i]) is Ok by {
                assert(some[i] == list[i]);
            }
        }
        if peers_of(list) is Ok {
            assert forall|i: int| 0 <= i < list.len() implies peer_of(#[trigger] list[i]) is Ok by {
                if i < some.len() {
                    assert(peer_of(some[i]) is Ok);
                }
            }
        }
    }
}

/// The first entry that cannot be read is the one that is reported.
pub proof fn first_bad_entry_is_reported(list: Seq<Peer>, i: int)
    requires
        0 <= i < list.len(),
        peer_of(list[i]) is Err,
        forall|j: int| 0 <= j < i ==> peer_of(#[trigger] list[j]) is Ok,
    ensures
        peers_of(list) == Err::<Map<Ipv4Addr, PublicKey>, Fault>(peer_of(list[i])->Err_0),
{
    let good = list.take(i);
    assert forall|j: int| 0 <= j < good.len() implies peer_of(#[trigger] good[j]) is Ok by {
        assert(good[j] == list[j]);
    }
    whitelist_is_read_if_every_entry_is(good);
    assert(list.take(i + 1).drop_last() =~= good);
    assert(list.take(i + 1).last() == list[i]);
    lemma_first_fault(list, i + 1);
}

/// A configuration is seen as its fields are.
pub proof fn configuration_is_its_fields(config: Config)
    ensures
        config@.node_ipv4 == config.node_ipv4,
        config@.netmask == config.netmask,
        config@.tun_name == config.tun_name@,
        config@.listen_port == config.listen_port,
        config@.mtu == config.mtu,
        config@.log_level == config.log_level@,
        config@.log_path is Some <==> config.log_path is Some,
        config.log_path matches Some(path) ==> config@.log_path == Some(path@),
        config@.peers == config.peers@,
{
}

/// A key file of 32 bytes is the secret key, byte for byte; one of any other length is refused; where
/// there is no file a new key is to be saved; and any other failure is passed on. A key that was
/// saved is the key that is read.
pub proof fn key_file_is_the_key(data: Vec<u8>, error: Error, saved: SecretKey, step: KeyStep)
    ensures
        is_key_step(Ok(data), step) && data@.len() == 32 ==> (step matches KeyStep::Done(Ok(key))
            && forall|i: int| 0 <= i < 32 ==> key.bytes@[i] == #[trigger] data@[i]),
        is_key_step(Ok(data), step) && data@ == saved.bytes@ ==> step == KeyStep::Done(Ok(saved)),
        is_key_step(Ok(data), step) && data@.len() != 32 ==> step == KeyStep::Done(
            Err(SecretKeyError::IncorrectKey),
        ),
        is_key_step(Err(error), step) && crate::io::error_kind(error) is NotFound ==> step is Save,
        is_key_step(Err(error), step) && !(crate::io::error_kind(error) is NotFound) ==> step
            == KeyStep::Done(Err(SecretKeyError::GetKeyError(error))),
{
    assert(saved.bytes@.len() == 32);
}

} // verus!
