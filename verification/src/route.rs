//! The table that says which node has which address.
use std::collections::HashMap;
use vstd::prelude::*;

use crate::addr::Ipv4Addr;
use crate::key::PublicKey;

verus! {

broadcast use vstd::std_specs::hash::group_hash_axioms;

/// Which node has which address: from each address to the key of its node.
pub struct RouteTable {
    keys: HashMap<u32, PublicKey>,
}

impl View for RouteTable {
    type V = Map<Ipv4Addr, PublicKey>;

    closed spec fn view(&self) -> Map<Ipv4Addr, PublicKey> {
        Map::new(
            |ip: Ipv4Addr| self.keys@.contains_key(ip.bits),
            |ip: Ipv4Addr| self.keys@[ip.bits],
        )
    }
}

/// Whether some address belongs to the node with the given key.
pub open spec fn has_node(table: Map<Ipv4Addr, PublicKey>, key: PublicKey) -> bool {
    exists|ip: Ipv4Addr| #[trigger] table.contains_key(ip) && table[ip] == key
}

impl RouteTable {
    /// An empty table.
    pub fn new() -> (t: RouteTable)
        ensures
            t@ == Map::<Ipv4Addr, PublicKey>::empty(),
    {
        let t = RouteTable { keys: HashMap::new() };
        assert(t@ =~= Map::<Ipv4Addr, PublicKey>::empty());
        t
    }

    /// Gives an address to a node, in place of the node that had it.
    pub fn insert(&mut self, ip: Ipv4Addr, key: PublicKey)
        ensures
            final(self)@ == old(self)@.insert(ip, key),
    {
        self.keys.insert(ip.bits, key);
        assert(self@ =~= old(self)@.insert(ip, key));
    }

    /// The key of the node that has an address.
    pub fn get(&self, ip: &Ipv4Addr) -> (r: Option<PublicKey>)
        ensures
            r == (if self@.contains_key(*ip) {
                Some(self@[*ip])
            } else {
                None
            }),
    {
        match self.keys.get(&ip.bits) {
            Some(key) => Some(*key),
            None => None,
        }
    }

    /// Whether some node has the address.
    pub fn contains_key(&self, ip: &Ipv4Addr) -> (r: bool)
        ensures
            r == self@.contains_key(*ip),
    {
        self.keys.contains_key(&ip.bits)
    }

    /// The entries of the table, each once, in no particular order.
    pub fn pairs(&self) -> (list: Vec<(Ipv4Addr, PublicKey)>)
        ensures
            list@.no_duplicates(),
            forall|i: int|
                0 <= i < list@.len() ==> self@.contains_key((#[trigger] list@[i]).0)
                    && self@[list@[i].0] == list@[i].1,
            forall|ip: Ipv4Addr| #[trigger]
                self@.contains_key(ip) ==> list@.contains((ip, self@[ip])),
    {
        let ghost walk = vstd::std_specs::iter::IteratorSpec::remaining(&self.keys.iter());
        let mut list: Vec<(Ipv4Addr, PublicKey)> = Vec::new();
        for entry in it: self.keys.iter()
            invariant
                it.seq() == walk,
                list@.len() == it.index(),
                forall|i: int|
                    0 <= i < it.index() ==> #[trigger] list@[i] == (
                        Ipv4Addr { bits: *walk[i].0 },
                        *walk[i].1,
                    ),
        {
            list.push((Ipv4Addr { bits: *entry.0 }, *entry.1));
        }
        assert forall|ip: Ipv4Addr| #[trigger] self@.contains_key(ip) implies list@.contains(
            (ip, self@[ip]),
        ) by {
            let i = choose|i: int|
                0 <= i < walk.len() && walk[i] == (&ip.bits, &self.keys@[ip.bits]);
            assert(list@[i] == (ip, self@[ip]));
        }
        list
    }

    /// The keys of the nodes that have an address, in no particular order; a node with several
    /// addresses is named as often.
    pub fn public_keys(&self) -> (list: Vec<PublicKey>)
        ensures
            forall|key: PublicKey| #[trigger] list@.contains(key) <==> has_node(self@, key),
    {
        let pairs = self.pairs();
        let mut list: Vec<PublicKey> = Vec::new();
        let mut i: usize = 0;
        while i < pairs.len()
            invariant
                i <= pairs@.len(),
                list@.len() == i,
                forall|k: int| 0 <= k < i ==> #[trigger] list@[k] == pairs@[k].1,
            decreases pairs@.len() - i,
        {
            list.push(pairs[i].1);
            i = i + 1;
        }
        proof {
            assert forall|key: PublicKey| #[trigger] list@.contains(key) <==> has_node(
                self@,
                key,
            ) by {
                if list@.contains(key) {
                    let k = choose|k: int| 0 <= k < list@.len() && list@[k] == key;
                    assert(self@.contains_key(pairs@[k].0));
                }
                if has_node(self@, key) {
                    let ip = choose|ip: Ipv4Addr| #[trigger]
                        self@.contains_key(ip) && self@[ip] == key;
                    let k = choose|k: int| 0 <= k < pairs@.len() && pairs@[k] == (ip, self@[ip]);
                    assert(list@[k] == key);
                }
            }
        }
        list
    }
}

} // verus!
