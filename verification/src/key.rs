//! Node keys: their order, their texts, and how a public key follows from a secret one.
use vstd::prelude::*;

verus! {

/// The public key that names a node.
#[derive(Clone, Copy, Debug, PartialEq, Eq, Hash)]
pub struct PublicKey {
    pub bytes: [u8; 32],
}

/// How two keys stand to each other.
#[derive(Clone, Copy, Debug, PartialEq, Eq, Structural)]
pub enum KeyOrder {
    Less,
    Equal,
    Greater,
}

impl PublicKey {
    /// The order of keys: that of the first byte in which they differ.
    pub open spec fn lt(self, other: PublicKey) -> bool {
        exists|i: int|
            #![trigger self.bytes@[i]]
            0 <= i < 32 && self.bytes@[i] < other.bytes@[i] && self.bytes@.take(i)
                == other.bytes@.take(i)
    }

    /// The hexadecimal text of the key.
    pub open spec fn text(self) -> Seq<char> {
        crate::text::hex(self.bytes@)
    }

    /// Writes the key in hexadecimal.
    pub fn to_text(&self) -> (s: String)
        ensures
            s@ == self.text(),
    {
        crate::text::hex_text(self.bytes.as_slice())
    }

    /// Finds out how two keys stand to each other.
    pub fn order(&self, other: &PublicKey) -> (o: KeyOrder)
        ensures
            o == KeyOrder::Less <==> self.lt(*other),
            o == KeyOrder::Equal <==> *self == *other,
            o == KeyOrder::Greater <==> other.lt(*self),
    {
        let mut i: usize = 0;
        while i < 32
            invariant
                i <= 32,
                self.bytes@.take(i as int) == other.bytes@.take(i as int),
            decreases 32 - i,
        {
            if self.bytes[i] < other.bytes[i] {
                proof {
                    assert(self.lt(*other));
                    lemma_order_is_strict(*self, *other);
                }
                return KeyOrder::Less;
            }
            if other.bytes[i] < self.bytes[i] {
                proof {
                    assert(other.lt(*self));
                    lemma_order_is_strict(*other, *self);
                }
                return KeyOrder::Greater;
            }
            i = i + 1;
            assert(self.bytes@.take(i as int) =~= other.bytes@.take(i as int));
        }
        proof {
            assert(self.bytes@ =~= self.bytes@.take(32));
            assert(other.bytes@ =~= other.bytes@.take(32));
            assert(self.bytes =~= other.bytes);
            lemma_order_is_irreflexive(*self);
        }
        KeyOrder::Equal
    }
}

/// The secret key of a node.
#[derive(Clone, Copy)]
pub struct SecretKey {
    pub bytes: [u8; 32],
}

/// The bytes of the public key that a z-base-32 text stands for, or the text of the error.
pub uninterp spec fn z32_key(text: Seq<char>) -> Result<[u8; 32], Seq<char>>;

/// The z-base-32 text of the public key with the given bytes; `None` where no public key has them.
pub uninterp spec fn z32_text(bytes: [u8; 32]) -> Option<Seq<char>>;

/// The bytes of the public key that belongs to the secret key with the given bytes.
pub uninterp spec fn public_bytes(secret: [u8; 32]) -> [u8; 32];

/// Calls `iroh::PublicKey::from_z32`. Taken on trust: the key, or the text of the error, depends on
/// the given text alone.
#[verifier::external_body]
fn key_from_z32(text: &str) -> (r: Result<[u8; 32], String>)
    ensures
        match r {
            Ok(bytes) => z32_key(text@) == Ok::<[u8; 32], Seq<char>>(bytes),
            Err(error) => z32_key(text@) == Err::<[u8; 32], Seq<char>>(error@),
        },
{
    match ::iroh::PublicKey::from_z32(text) {
        Ok(key) => Ok(*key.as_bytes()),
        Err(error) => Err(error.to_string()),
    }
}

/// Calls `iroh::PublicKey::to_z32`, on the key made by `iroh::PublicKey::from_bytes`. Taken on
/// trust: the text depends on the bytes alone, there is one exactly if the bytes are those of a
/// public key, and `iroh::PublicKey::from_z32` reads the same bytes back from it.
#[verifier::external_body]
fn key_to_z32(bytes: &[u8; 32]) -> (r: Option<String>)
    ensures
        match r {
            Some(text) => z32_text(*bytes) == Some(text@) && z32_key(text@) == Ok::<
                [u8; 32],
                Seq<char>,
            >(*bytes),
            None => z32_text(*bytes) is None,
        },
{
    match ::iroh::PublicKey::from_bytes(bytes) {
        Ok(key) => Some(key.to_z32()),
        Err(_) => None,
    }
}

/// Calls `iroh::SecretKey::public`. Taken on trust: the public key depends on the secret key alone,
/// and its bytes are those of a public key.
#[verifier::external_body]
fn public_of(secret: &[u8; 32]) -> (bytes: [u8; 32])
    ensures
        bytes == public_bytes(*secret),
        z32_text(bytes) is Some,
{
    *::iroh::SecretKey::from_bytes(secret).public().as_bytes()
}

/// Calls `iroh::SecretKey::generate`. Nothing is claimed of the bytes: they are random.
#[verifier::external_body]
fn random_secret() -> (bytes: [u8; 32]) {
    ::iroh::SecretKey::generate().to_bytes()
}

impl PublicKey {
    /// Reads a key from its z-base-32 text; the error is a text.
    pub fn from_z32(text: &str) -> (r: Result<PublicKey, String>)
        ensures
            match r {
                Ok(key) => z32_key(text@) == Ok::<[u8; 32], Seq<char>>(key.bytes),
                Err(error) => z32_key(text@) == Err::<[u8; 32], Seq<char>>(error@),
            },
    {
        match key_from_z32(text) {
            Ok(bytes) => Ok(PublicKey { bytes }),
            Err(error) => Err(error),
        }
    }

    /// Writes the key in z-base-32; `None` where the bytes are not those of a public key.
    pub fn to_z32(&self) -> (r: Option<String>)
        ensures
            match r {
                Some(text) => z32_text(self.bytes) == Some(text@) && z32_key(text@) == Ok::<
                    [u8; 32],
                    Seq<char>,
                >(self.bytes),
                None => z32_text(self.bytes) is None,
            },
    {
        key_to_z32(&self.bytes)
    }
}

impl SecretKey {
    /// A new secret key, drawn at random.
    pub fn generate() -> (key: SecretKey) {
        SecretKey { bytes: random_secret() }
    }

    /// The public key that belongs to the secret key.
    pub fn public(&self) -> (key: PublicKey)
        ensures
            key.bytes == public_bytes(self.bytes),
            z32_text(key.bytes) is Some,
    {
        PublicKey { bytes: public_of(&self.bytes) }
    }
}

/// No key stands before itself.
proof fn lemma_order_is_irreflexive(a: PublicKey)
    ensures
        !a.lt(a),
{
}

/// Of two keys at most one stands before the other.
proof fn lemma_order_is_strict(a: PublicKey, b: PublicKey)
    requires
        a.lt(b),
    ensures
        !b.lt(a),
        a != b,
{
    if b.lt(a) {
        key_order_is_transitive(a, b, a);
    }
}

/// Of two different keys one stands before the other, and only one.
pub proof fn key_order_is_total(a: PublicKey, b: PublicKey)
    ensures
        a == b || a.lt(b) || b.lt(a),
        !(a.lt(b) && b.lt(a)),
        !a.lt(a),
{
    if a.lt(b) && b.lt(a) {
        key_order_is_transitive(a, b, a);
    }
    assert(a.bytes@.take(0) =~= b.bytes@.take(0));
    lemma_first_difference(a, b, 0);
}

/// Keys that agree in their first bytes are equal or ordered.
proof fn lemma_first_difference(a: PublicKey, b: PublicKey, i: int)
    requires
        0 <= i <= 32,
        a.bytes@.take(i) == b.bytes@.take(i),
    ensures
        a == b || a.lt(b) || b.lt(a),
    decreases 32 - i,
{
    if i == 32 {
        assert(a.bytes@ =~= a.bytes@.take(32));
        assert(b.bytes@ =~= b.bytes@.take(32));
        assert(a.bytes =~= b.bytes);
    } else if a.bytes@[i] == b.bytes@[i] {
        assert(a.bytes@.take(i + 1) =~= b.bytes@.take(i + 1));
        lemma_first_difference(a, b, i + 1);
    } else if a.bytes@[i] < b.bytes@[i] {
        assert(a.lt(b));
    } else {
        assert(b.lt(a));
    }
}

/// The order of keys is transitive.
pub proof fn key_order_is_transitive(a: PublicKey, b: PublicKey, c: PublicKey)
    requires
        a.lt(b),
        b.lt(c),
    ensures
        a.lt(c),
{
    let i = choose|i: int|
        #![trigger a.bytes@[i]]
        0 <= i < 32 && a.bytes@[i] < b.bytes@[i] && a.bytes@.take(i) == b.bytes@.take(i);
    let j = choose|j: int|
        #![trigger b.bytes@[j]]
        0 <= j < 32 && b.bytes@[j] < c.bytes@[j] && b.bytes@.take(j) == c.bytes@.take(j);
    let k = if i < j { i } else { j };
    assert forall|x: int| 0 <= x < k implies a.bytes@[x] == c.bytes@[x] by {
        assert(a.bytes@.take(i)[x] == b.bytes@.take(i)[x]);
        assert(b.bytes@.take(j)[x] == c.bytes@.take(j)[x]);
    }
    assert(a.bytes@.take(k) =~= c.bytes@.take(k));
    if i < j {
        assert(b.bytes@.take(j)[i] == c.bytes@.take(j)[i]);
    } else if j < i {
        assert(a.bytes@.take(i)[j] == b.bytes@.take(i)[j]);
    }
    assert(a.bytes@[k] < c.bytes@[k]);
}

/// The number that some bytes stand for, the first byte counting most.
pub open spec fn number_of(bytes: Seq<u8>) -> nat
    decreases bytes.len(),
{
    if bytes.len() == 0 {
        0
    } else {
        256 * number_of(bytes.drop_last()) + bytes.last() as nat
    }
}

/// Of two rows of bytes as long, the one that is smaller where they first differ is the smaller
/// number.
proof fn lemma_first_difference_decides(a: Seq<u8>, b: Seq<u8>, i: int)
    requires
        a.len() == b.len(),
        0 <= i < a.len(),
        a[i] < b[i],
        a.take(i) == b.take(i),
    ensures
        number_of(a) < number_of(b),
    decreases a.len(),
{
    let x = a.drop_last();
    let y = b.drop_last();
    if i == a.len() - 1 {
        assert(x =~= a.take(i));
        assert(y =~= b.take(i));
    } else {
        assert(x.take(i) =~= a.take(i));
        assert(y.take(i) =~= b.take(i));
        lemma_first_difference_decides(x, y, i);
    }
}

/// Keys are ordered as the numbers that their bytes stand for.
pub proof fn key_order_is_numeric(a: PublicKey, b: PublicKey)
    ensures
        a.lt(b) <==> number_of(a.bytes@) < number_of(b.bytes@),
        a == b <==> number_of(a.bytes@) == number_of(b.bytes@),
{
    key_order_is_total(a, b);
    if a.lt(b) {
        let i = choose|i: int|
            #![trigger a.bytes@[i]]
            0 <= i < 32 && a.bytes@[i] < b.bytes@[i] && a.bytes@.take(i) == b.bytes@.take(i);
        lemma_first_difference_decides(a.bytes@, b.bytes@, i);
    }
    if b.lt(a) {
        let i = choose|i: int|
            #![trigger b.bytes@[i]]
            0 <= i < 32 && b.bytes@[i] < a.bytes@[i] && b.bytes@.take(i) == a.bytes@.take(i);
        lemma_first_difference_decides(b.bytes@, a.bytes@, i);
    }
}

/// A key is written as the 64 hexadecimal digits of its bytes.
pub proof fn key_text_stands_for_the_key(key: PublicKey)
    ensures
        key.text().len() == 64,
        forall|i: int|
            #![trigger key.bytes@[i]]
            0 <= i < 32 ==> {
                &&& 0 <= crate::text::hex_value(key.text()[2 * i]) < 16
                &&& 0 <= crate::text::hex_value(key.text()[2 * i + 1]) < 16
                &&& 16 * crate::text::hex_value(key.text()[2 * i]) + crate::text::hex_value(
                    key.text()[2 * i + 1],
                ) == key.bytes@[i]
            },
{
    crate::text::hex_text_stands_for_its_bytes(key.bytes@);
}

} // verus!
