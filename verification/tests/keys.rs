use mesh_network::key::{KeyOrder, PublicKey, SecretKey};
use mesh_network::key_map::KeyMap;
use mesh_network::text::{decimal_text, hex_text};

fn key_with(first: u8, last: u8) -> PublicKey {
    let mut bytes = [0u8; 32];
    bytes[0] = first;
    bytes[31] = last;
    PublicKey { bytes }
}

const SECRET: [u8; 32] = [
    157, 97, 177, 157, 239, 253, 90, 96, 186, 132, 74, 244, 146, 236, 44, 196, 68, 73, 197, 105, 123,
    50, 105, 25, 112, 59, 172, 3, 28, 174, 127, 96,
];

#[test]
fn public_key_follows_from_the_secret_key() {
    let key = SecretKey { bytes: SECRET }.public();
    assert_eq!(
        key.to_text(),
        "d75a980182b10ab7d54bfed3c964073a0ee172f3daa62325af021a68f707511a"
    );
    assert_eq!(
        key.to_z32().unwrap(),
        "47pjoycnsrfmxikm95jh13y88e8qnhzu5kungjpxyepgt7a8krpy"
    );
    let zero = SecretKey { bytes: [0; 32] }.public();
    assert_eq!(
        zero.to_text(),
        "3b6a27bcceb6a42d62a3a8d02a6f0d73653215771de243a63ac048a18b59da29"
    );
}

#[test]
fn keys_are_read_from_z32() {
    let key = PublicKey::from_z32("8pinxxgqs41n4aididenw5apqp1urfmzdztr8jt4abrkdn435ewo").unwrap();
    assert_eq!(key, SecretKey { bytes: [0; 32] }.public());
}

#[test]
fn z32_texts_read_back() {
    for _ in 0..8 {
        let key = SecretKey::generate().public();
        let text = key.to_z32().unwrap();
        assert_eq!(text.len(), 52);
        assert_eq!(PublicKey::from_z32(&text), Ok(key));
    }
}

#[test]
fn bad_z32_texts_are_refused() {
    assert_eq!(
        PublicKey::from_z32("not z32!"),
        Err("failed to decode base32 string".to_string())
    );
    assert!(PublicKey::from_z32("").is_err());
    assert!(PublicKey::from_z32("yyyyyyyy").is_err());
    let hex = SecretKey { bytes: [0; 32] }.public().to_text();
    assert!(PublicKey::from_z32(&hex).is_err());
}

#[test]
fn bytes_off_the_curve_have_no_z32_text() {
    let mut bytes = [0u8; 32];
    bytes[0] = 2;
    assert_eq!(PublicKey { bytes }.to_z32(), None);
}

#[test]
fn generated_keys_differ() {
    assert_ne!(SecretKey::generate().bytes, SecretKey::generate().bytes);
}

#[test]
fn keys_are_ordered_by_the_first_difference() {
    assert_eq!(key_with(1, 9).order(&key_with(2, 0)), KeyOrder::Less);
    assert_eq!(key_with(2, 0).order(&key_with(1, 9)), KeyOrder::Greater);
    assert_eq!(key_with(1, 1).order(&key_with(1, 2)), KeyOrder::Less);
    assert_eq!(key_with(1, 2).order(&key_with(1, 1)), KeyOrder::Greater);
    assert_eq!(key_with(3, 3).order(&key_with(3, 3)), KeyOrder::Equal);
}

#[test]
fn order_is_total_and_transitive_here() {
    let keys = [key_with(0, 1), key_with(0, 200), key_with(7, 0), key_with(255, 255)];
    for i in 0..keys.len() {
        for j in 0..keys.len() {
            let expected = if i < j {
                KeyOrder::Less
            } else if i == j {
                KeyOrder::Equal
            } else {
                KeyOrder::Greater
            };
            assert_eq!(keys[i].order(&keys[j]), expected);
        }
    }
}

#[test]
fn key_map_finds_what_was_put_in() {
    let mut map: KeyMap<u32> = KeyMap::new();
    map.insert(key_with(5, 0), 50);
    map.insert(key_with(1, 0), 10);
    map.insert(key_with(9, 0), 90);
    map.insert(key_with(5, 0), 55);
    assert_eq!(map.len(), 3);
    assert_eq!(map.get(&key_with(5, 0)), Some(&55));
    assert_eq!(map.get(&key_with(1, 0)), Some(&10));
    assert_eq!(map.get(&key_with(2, 0)), None);
    assert!(map.contains_key(&key_with(9, 0)));
    assert!(!map.contains_key(&key_with(9, 1)));
    if let Some(v) = map.get_mut(&key_with(1, 0)) {
        *v = 11;
    }
    assert_eq!(map.get(&key_with(1, 0)), Some(&11));
    assert_eq!(map.get_mut(&key_with(3, 0)), None);
}

#[test]
fn key_map_walks_in_ascending_order() {
    let mut map: KeyMap<()> = KeyMap::new();
    for first in [9u8, 3, 7, 1] {
        map.insert(key_with(first, 0), ());
    }
    let walk: Vec<u8> = (0..map.len()).map(|i| map.key_at(i).bytes[0]).collect();
    assert_eq!(walk, vec![1, 3, 7, 9]);
}

#[test]
fn numbers_are_written_in_decimal_and_hexadecimal() {
    assert_eq!(decimal_text(0), "0");
    assert_eq!(decimal_text(10), "10");
    assert_eq!(decimal_text(u64::MAX), "18446744073709551615");
    assert_eq!(hex_text(&[]), "");
    assert_eq!(hex_text(&[0x00, 0x0f, 0xa5, 0xff]), "000fa5ff");
}
