use std::io::{Error, ErrorKind};

use mesh_network::addr::Ipv4Addr;
use mesh_network::config::{
    Config, ConfigError, ConfigFile, ConfigToml, KeyStep, Peer, SecretKeyError, DEFAULT_LISTEN_PORT,
    DEFAULT_MTU,
};
use mesh_network::key::{PublicKey, SecretKey};
use mesh_network::route::RouteTable;

const KEY_A: &str = "8pinxxgqs41n4aididenw5apqp1urfmzdztr8jt4abrkdn435ewo";
const KEY_B: &str = "47pjoycnsrfmxikm95jh13y88e8qnhzu5kungjpxyepgt7a8krpy";

fn text(table: &toml::Table, key: &str) -> Option<String> {
    table.get(key).and_then(|v| v.as_str()).map(|s| s.to_string())
}

fn number(table: &toml::Table, key: &str) -> Option<u16> {
    table.get(key).and_then(|v| v.as_integer()).map(|n| n as u16)
}

fn parsed(content: &str) -> ConfigToml {
    let table: toml::Table = content.parse().unwrap();
    let peers = table["peers"]
        .as_array()
        .unwrap()
        .iter()
        .map(|p| {
            let p = p.as_table().unwrap();
            Peer { pub_key: text(p, "pub_key").unwrap(), ipv4: text(p, "ipv4").unwrap() }
        })
        .collect();
    ConfigToml {
        secret_key_path: text(&table, "secret_key_path").unwrap(),
        node_ipv4: text(&table, "node_ipv4").unwrap(),
        tun_name: text(&table, "tun_name"),
        listen_port: number(&table, "listen_port"),
        mtu: number(&table, "mtu"),
        log_level: text(&table, "log_level"),
        log_path: text(&table, "log_path"),
        peers,
    }
}

fn secret() -> SecretKey {
    SecretKey { bytes: [7; 32] }
}

fn config_of(content: &str) -> Result<Config, ConfigError> {
    Config::from_file(ConfigFile::Parsed { toml: parsed(content), secret_key: Ok(secret()) })
}

fn entry(pub_key: &str, ipv4: &str) -> Peer {
    Peer { pub_key: pub_key.to_string(), ipv4: ipv4.to_string() }
}

fn listing(peers: Vec<Peer>) -> ConfigToml {
    ConfigToml {
        secret_key_path: "secret.key".to_string(),
        node_ipv4: "10.67.1.1".to_string(),
        tun_name: None,
        listen_port: None,
        mtu: None,
        log_level: None,
        log_path: None,
        peers,
    }
}

#[test]
fn test_valid_full_config() {
    let peer_pub_key = SecretKey::generate().public().to_z32().unwrap();

    let toml_content = format!(
        r#"
            secret_key_path = "{}"
            node_ipv4 = "10.67.1.5"
            listen_port = 8080
            mtu = 1400
            log_level = "debug"
            log_path = "/var/log/vpn.log"

            [[peers]]
            pub_key = "{}"
            ipv4 = "10.67.2.10"
        "#,
        "tmp_secret.key", peer_pub_key
    );

    let secret_key = match Config::get_secret_key(Err(Error::from(ErrorKind::NotFound))) {
        KeyStep::Save(key) => {
            let saved_key_bytes = key.bytes.to_vec();
            assert_eq!(saved_key_bytes.len(), 32);
            Config::gen_secret_key(key, Ok(()))
        }
        KeyStep::Done(_) => panic!("no key was generated"),
    };
    let config =
        Config::from_file(ConfigFile::Parsed { toml: parsed(&toml_content), secret_key })
            .ok()
            .expect("Failed to parse valid config");

    assert_eq!(config.node_ipv4, Ipv4Addr::new(10, 67, 1, 5));
    assert_eq!(config.listen_port, 8080);
    assert_eq!(config.mtu, 1400);
    assert_eq!(config.log_level, "debug");
    assert_eq!(config.log_path, Some("/var/log/vpn.log".to_string()));

    let peer_ip = Ipv4Addr::new(10, 67, 2, 10);
    assert!(config.peers.contains_key(&peer_ip));
    assert_eq!(config.peers.get(&peer_ip).unwrap().to_z32().unwrap(), peer_pub_key);
}

#[test]
fn test_valid_minimal_config_and_existing_raw_secret_key() {
    let existing_sk = SecretKey::generate();
    let toml_content = format!(
        r#"
            secret_key_path = "{}"
            node_ipv4 = "10.67.255.254"
            peers = []
        "#,
        "tmp_secret.key"
    );

    let secret_key = match Config::get_secret_key(Ok(existing_sk.bytes.to_vec())) {
        KeyStep::Done(key) => key,
        KeyStep::Save(_) => panic!("the key was there"),
    };
    let config = Config::from_file(ConfigFile::Parsed { toml: parsed(&toml_content), secret_key })
        .ok()
        .unwrap();

    assert_eq!(config.listen_port, DEFAULT_LISTEN_PORT);
    assert_eq!(config.mtu, DEFAULT_MTU);
    assert_eq!(config.log_level, "info");
    assert_eq!(config.log_path, None);

    assert_eq!(config.secret_key.bytes, existing_sk.bytes);
}

#[test]
fn test_invalid_secret_key_length() {
    let toml_content = format!(
        r#"
            secret_key_path = "{}"
            node_ipv4 = "10.67.1.1"
            peers = []
        "#,
        "broken.key"
    );

    let secret_key = match Config::get_secret_key(Ok(b"1234567890".to_vec())) {
        KeyStep::Done(key) => key,
        KeyStep::Save(_) => panic!("there was a key file"),
    };
    let result = Config::from_file(ConfigFile::Parsed { toml: parsed(&toml_content), secret_key });

    assert!(matches!(
        result,
        Err(ConfigError::SecretKeyError(SecretKeyError::IncorrectKey))
    ));
}

#[test]
fn test_invalid_peer_pub_key_z32() {
    let toml_content = r#"
            secret_key_path = "/tmp/dummy.key"
            node_ipv4 = "10.67.1.1"
            [[peers]]
            pub_key = "this_is_obviously_not_a_valid_z32_iroh_key"
            ipv4 = "10.67.2.10"
        "#;
    assert!(matches!(config_of(toml_content), Err(ConfigError::PublicKeyParseError(_))));
}

#[test]
fn test_ipv4_not_in_subnet() {
    let toml_content = r#"
            secret_key_path = "/tmp/dummy.key"
            node_ipv4 = "192.168.1.1"
            peers = []
        "#;
    let result = config_of(toml_content);
    assert!(matches!(result, Err(ConfigError::Ipv4NotInSubnet)));
}

#[test]
fn defaults_are_filled_in() {
    let config = Config::from_file(ConfigFile::Parsed {
        toml: listing(vec![]),
        secret_key: Ok(secret()),
    })
    .ok()
    .unwrap();
    assert_eq!(config.tun_name, "iroh_vpn");
    assert_eq!(config.listen_port, 6767);
    assert_eq!(config.mtu, 1500);
    assert_eq!(config.netmask, Ipv4Addr::new(255, 255, 0, 0));
    assert_eq!(config.secret_key.bytes, [7; 32]);
    assert!(config.peers.pairs().is_empty());
}

#[test]
fn named_settings_are_kept() {
    let mut toml = listing(vec![]);
    toml.tun_name = Some("my_custom_name".to_string());
    toml.log_level = Some("off".to_string());
    toml.listen_port = Some(0);
    let config = Config::from_file(ConfigFile::Parsed { toml, secret_key: Ok(secret()) })
        .ok()
        .unwrap();
    assert_eq!(config.tun_name, "my_custom_name");
    assert_eq!(config.log_level, "off");
    assert_eq!(config.listen_port, 0);
}

#[test]
fn every_log_level_is_known() {
    for level in ["trace", "debug", "info", "warn", "error", "off"] {
        let mut toml = listing(vec![]);
        toml.log_level = Some(level.to_string());
        let result = Config::from_file(ConfigFile::Parsed { toml, secret_key: Ok(secret()) });
        assert_eq!(result.ok().unwrap().log_level, level);
    }
    for level in ["", "Info", "verbose", "info "] {
        let mut toml = listing(vec![]);
        toml.log_level = Some(level.to_string());
        let result = Config::from_file(ConfigFile::Parsed { toml, secret_key: Ok(secret()) });
        assert!(matches!(result, Err(ConfigError::IncorrectLogLevel)));
    }
}

#[test]
fn whitelist_holds_the_listed_nodes() {
    let cfg = listing(vec![entry(KEY_A, "10.67.1.2"), entry(KEY_B, "10.67.1.3")]);
    let peers = Config::get_peers(&cfg).ok().unwrap();
    assert_eq!(peers.get(&Ipv4Addr::new(10, 67, 1, 2)).unwrap().to_z32().unwrap(), KEY_A);
    assert_eq!(peers.get(&Ipv4Addr::new(10, 67, 1, 3)).unwrap().to_z32().unwrap(), KEY_B);
    assert_eq!(peers.get(&Ipv4Addr::new(10, 67, 1, 4)), None);
    assert_eq!(peers.pairs().len(), 2);
}

#[test]
fn last_of_two_entries_counts() {
    let cfg = listing(vec![entry(KEY_A, "10.67.1.2"), entry(KEY_B, "10.67.1.2")]);
    let peers = Config::get_peers(&cfg).ok().unwrap();
    assert_eq!(peers.get(&Ipv4Addr::new(10, 67, 1, 2)).unwrap().to_z32().unwrap(), KEY_B);
    assert_eq!(peers.pairs().len(), 1);
}

#[test]
fn first_fault_of_the_whitelist_is_reported() {
    let cfg = listing(vec![entry("nonsense", "10.67.1"), entry("nonsense", "10.67.1.2")]);
    assert!(matches!(Config::get_peers(&cfg), Err(ConfigError::Ipv4ParseError(_))));
    let cfg = listing(vec![entry("nonsense", "10.67.1.2"), entry(KEY_A, "10.67.1")]);
    assert!(matches!(Config::get_peers(&cfg), Err(ConfigError::PublicKeyParseError(_))));
}

#[test]
fn whitelist_is_checked_before_the_address() {
    let mut toml = listing(vec![entry("nonsense", "10.67.1.2")]);
    toml.node_ipv4 = "192.168.1.1".to_string();
    toml.log_level = Some("loud".to_string());
    let result = Config::from_file(ConfigFile::Parsed { toml, secret_key: Ok(secret()) });
    assert!(matches!(result, Err(ConfigError::PublicKeyParseError(_))));

    let mut toml = listing(vec![]);
    toml.node_ipv4 = "ten".to_string();
    toml.log_level = Some("loud".to_string());
    let result = Config::from_file(ConfigFile::Parsed { toml, secret_key: Ok(secret()) });
    assert!(matches!(result, Err(ConfigError::Ipv4ParseError(_))));
}

#[test]
fn peers_may_be_outside_the_mesh_but_not_the_node() {
    let cfg = listing(vec![entry(KEY_A, "192.168.1.1")]);
    assert!(Config::get_peers(&cfg).is_ok());
}

#[test]
fn peer_is_entered_under_its_address() {
    let mut table = RouteTable::new();
    let ip = Ipv4Addr::new(10, 67, 1, 2);
    let key = PublicKey { bytes: [1; 32] };
    assert!(Config::enter_peer(&mut table, ip, Ok(key)).is_ok());
    assert_eq!(table.get(&ip), Some(key));

    let other = Ipv4Addr::new(10, 67, 1, 3);
    match Config::enter_peer(&mut table, other, Err("bad key".to_string())) {
        Err(ConfigError::PublicKeyParseError(text)) => assert_eq!(text, "bad key"),
        _ => panic!("expected an error"),
    }
    assert!(!table.contains_key(&other));
}

#[test]
fn unreadable_file_is_reported() {
    let result = Config::from_file(ConfigFile::Unreadable(Error::from(ErrorKind::NotFound)));
    match result {
        Err(ConfigError::OpenFileError(e)) => assert_eq!(e.kind(), ErrorKind::NotFound),
        _ => panic!("expected an error"),
    }
}

#[test]
fn malformed_file_is_reported() {
    let result = Config::from_file(ConfigFile::Malformed("line 3".to_string()));
    match result {
        Err(e) => assert_eq!(e.message(), "Incorrect config format: line 3"),
        _ => panic!("expected an error"),
    }
}

#[test]
fn only_a_missing_key_file_gives_a_new_key() {
    let step = Config::get_secret_key(Err(Error::from(ErrorKind::PermissionDenied)));
    match step {
        KeyStep::Done(Err(SecretKeyError::GetKeyError(e))) => {
            assert_eq!(e.kind(), ErrorKind::PermissionDenied)
        }
        _ => panic!("expected an error"),
    }
    assert!(Config::may_generate(ErrorKind::NotFound, Error::from(ErrorKind::NotFound)).is_ok());
    assert!(Config::may_generate(ErrorKind::TimedOut, Error::from(ErrorKind::TimedOut)).is_err());
}

#[test]
fn saved_key_is_read_back() {
    let key = match Config::get_secret_key(Err(Error::from(ErrorKind::NotFound))) {
        KeyStep::Save(key) => key,
        KeyStep::Done(_) => panic!("no key was generated"),
    };
    match Config::get_secret_key(Ok(key.bytes.to_vec())) {
        KeyStep::Done(Ok(read)) => assert_eq!(read.bytes, key.bytes),
        _ => panic!("the key was not read"),
    }
}

#[test]
fn key_files_have_exactly_32_bytes() {
    for n in [0usize, 31, 33, 64] {
        match Config::get_secret_key(Ok(vec![1; n])) {
            KeyStep::Done(Err(SecretKeyError::IncorrectKey)) => {}
            _ => panic!("a key of {} bytes was taken", n),
        }
    }
}

#[test]
fn key_that_cannot_be_saved_is_an_error() {
    let r = Config::gen_secret_key(secret(), Err(Error::from(ErrorKind::StorageFull)));
    match r {
        Err(SecretKeyError::GetKeyError(e)) => assert_eq!(e.kind(), ErrorKind::StorageFull),
        _ => panic!("expected an error"),
    }
}

#[test]
fn config_errors_are_worded() {
    assert_eq!(
        ConfigError::SecretKeyError(SecretKeyError::IncorrectKey).message(),
        "Secret key error: given key isn't correct"
    );
    assert_eq!(ConfigError::Ipv4NotInSubnet.message(), "Node Ipv4 not in correct subnet");
    assert_eq!(ConfigError::IncorrectLogLevel.message(), "Incorrect log level");
    let e = Error::from(ErrorKind::NotFound);
    let wording = e.to_string();
    assert_eq!(
        ConfigError::OpenFileError(Error::from(ErrorKind::NotFound)).message(),
        format!("Open file error: {}", wording)
    );
    assert_eq!(
        ConfigError::SecretKeyError(SecretKeyError::GetKeyError(e)).message(),
        format!("Secret key error: can't get the key: {}", wording)
    );
    match config_of(
        "secret_key_path = \"k\"\nnode_ipv4 = \"10.67.1.256\"\npeers = []\n",
    ) {
        Err(e) => assert_eq!(e.message(), "Ipv4 parse error: invalid IPv4 address syntax"),
        Ok(_) => panic!("expected an error"),
    }
    match Config::get_peers(&listing(vec![entry("!", "10.67.1.2")])) {
        Err(e) => assert_eq!(
            e.message(),
            "Public key parse error: failed to decode base32 string"
        ),
        Ok(_) => panic!("expected an error"),
    }
}
