//! IPv4 addresses, their text, and the subnet of the mesh.
use vstd::prelude::*;

use crate::text::decimal_text;

verus! {

/// An IPv4 address, held as the number whose big-endian bytes are its octets.
#[derive(Clone, Copy, Debug, PartialEq, Eq, Hash, Structural)]
pub struct Ipv4Addr {
    pub bits: u32,
}

/// The text given is not an IPv4 address.
#[derive(Clone, Copy, Debug, PartialEq, Eq, Structural)]
pub struct AddrParseError;

/// The network address of the mesh, 10.67.0.0.
pub const SUBNET: u32 = 0x0A43_0000;

/// The network mask of the mesh, 255.255.0.0.
pub const NETMASK: u32 = 0xFFFF_0000;

/// Whether `text` holds, from `start` up to `next`, the whole decimal text of `v`: what follows is
/// the end or no digit.
pub open spec fn octet_at(text: Seq<char>, start: int, next: int, v: u8) -> bool {
    &&& 0 <= start < next <= text.len()
    &&& text.subrange(start, next) == crate::text::decimal(v as nat)
    &&& next == text.len() || !is_digit(text[next])
}

/// A decimal digit.
pub open spec fn is_digit(c: char) -> bool {
    '0' <= c <= '9'
}

impl Ipv4Addr {
    /// The address with the four octets `a.b.c.d`.
    pub open spec fn of(a: u8, b: u8, c: u8, d: u8) -> Ipv4Addr {
        Ipv4Addr { bits: (a * 0x100_0000 + b * 0x1_0000 + c * 0x100 + d) as u32 }
    }

    /// The octet at position `i`, the leftmost being 0.
    pub open spec fn octet(self, i: int) -> u8 {
        if i == 0 {
            (self.bits / 0x100_0000) as u8
        } else if i == 1 {
            (self.bits / 0x1_0000 % 0x100) as u8
        } else if i == 2 {
            (self.bits / 0x100 % 0x100) as u8
        } else {
            (self.bits % 0x100) as u8
        }
    }

    /// The dotted-decimal text of the address.
    pub open spec fn text(self) -> Seq<char> {
        crate::text::decimal(self.octet(0) as nat) + seq!['.'] + crate::text::decimal(
            self.octet(1) as nat,
        ) + seq!['.'] + crate::text::decimal(self.octet(2) as nat) + seq!['.']
            + crate::text::decimal(self.octet(3) as nat)
    }

    /// Whether the address is one of 10.67.0.0/16.
    pub open spec fn in_mesh(self) -> bool {
        self.octet(0) == 10 && self.octet(1) == 67
    }

    /// Puts four octets together.
    pub fn new(a: u8, b: u8, c: u8, d: u8) -> (ip: Ipv4Addr)
        ensures
            ip == Ipv4Addr::of(a, b, c, d),
            ip.octet(0) == a,
            ip.octet(1) == b,
            ip.octet(2) == c,
            ip.octet(3) == d,
    {
        proof {
            lemma_put_together(a, b, c, d);
        }
        Ipv4Addr {
            bits: a as u32 * 0x100_0000 + b as u32 * 0x1_0000 + c as u32 * 0x100 + d as u32,
        }
    }

    /// Takes the address apart.
    pub fn octets(&self) -> (octets: [u8; 4])
        ensures
            forall|i: int| 0 <= i < 4 ==> #[trigger] octets@[i] == self.octet(i),
    {
        [
            (self.bits / 0x100_0000) as u8,
            (self.bits / 0x1_0000 % 0x100) as u8,
            (self.bits / 0x100 % 0x100) as u8,
            (self.bits % 0x100) as u8,
        ]
    }

    /// Whether the part of the address under the network mask is that of the mesh.
    pub fn is_in_mesh(&self) -> (r: bool)
        ensures
            r == self.in_mesh(),
    {
        let bits = self.bits;
        assert(((bits & 0xFFFF_0000u32) == 0x0A43_0000u32) == (bits / 0x100_0000u32 == 10u32
            && bits / 0x1_0000u32 % 0x100u32 == 67u32)) by (bit_vector);
        self.bits & NETMASK == SUBNET
    }

    /// Reads a dotted-decimal address: four decimal octets, no leading zeros, nothing else.
    pub fn from_str(text: &str) -> (r: Result<Ipv4Addr, AddrParseError>)
        ensures
            r == (match address_of(text@) {
                Some(ip) => Ok(ip),
                None => Err(AddrParseError),
            }),
    {
        let len = text.unicode_len();
        let (a, n0) = match read_part(text, len, 0) {
            Some(part) => part,
            None => {
                proof {
                    assert forall|ip: Ipv4Addr| #[trigger] ip.text() == text@ implies false by {
                        let e = lemma_text_is_dotted(ip);
                    }
                }
                return Err(AddrParseError);
            },
        };
        let (b, n1) = match read_part(text, len, n0 + 1) {
            Some(part) => part,
            None => {
                proof {
                    assert forall|ip: Ipv4Addr| #[trigger] ip.text() == text@ implies false by {
                        let e = lemma_text_is_dotted(ip);
                        lemma_octet_unique(text@, 0, e.0, ip.octet(0), n0 as int, a);
                    }
                }
                return Err(AddrParseError);
            },
        };
        let (c, n2) = match read_part(text, len, n1 + 1) {
            Some(part) => part,
            None => {
                proof {
                    assert forall|ip: Ipv4Addr| #[trigger] ip.text() == text@ implies false by {
                        let e = lemma_text_is_dotted(ip);
                        lemma_octet_unique(text@, 0, e.0, ip.octet(0), n0 as int, a);
                        lemma_octet_unique(text@, n0 + 1, e.1, ip.octet(1), n1 as int, b);
                    }
                }
                return Err(AddrParseError);
            },
        };
        proof {
            assert forall|ip: Ipv4Addr| #[trigger] ip.text() == text@ implies octet_at(
                text@,
                n2 + 1,
                len as int,
                ip.octet(3),
            ) by {
                let e = lemma_text_is_dotted(ip);
                lemma_octet_unique(text@, 0, e.0, ip.octet(0), n0 as int, a);
                lemma_octet_unique(text@, n0 + 1, e.1, ip.octet(1), n1 as int, b);
                lemma_octet_unique(text@, n1 + 1, e.2, ip.octet(2), n2 as int, c);
            }
        }
        let (d, n3) = match read_octet(text, len, n2 + 1) {
            Some(part) => part,
            None => {
                return Err(AddrParseError);
            },
        };
        if n3 != len {
            proof {
                assert forall|ip: Ipv4Addr| #[trigger] ip.text() == text@ implies false by {
                    lemma_octet_unique(text@, n2 + 1, len as int, ip.octet(3), n3 as int, d);
                }
            }
            return Err(AddrParseError);
        }
        let ip = Ipv4Addr::new(a, b, c, d);
        proof {
            lemma_dotted_is_text(text@, ip, n0 as int, n1 as int, n2 as int);
            text_determines_address(ip);
        }
        Ok(ip)
    }

    /// Writes the address in dotted decimal.
    pub fn to_text(&self) -> (s: String)
        ensures
            s@ == self.text(),
    {
        proof {
            reveal_strlit(".");
        }
        assert("."@ =~= seq!['.']);
        let o = self.octets();
        let mut s = decimal_text(o[0] as u64);
        s.append(".");
        s.append(decimal_text(o[1] as u64).as_str());
        s.append(".");
        s.append(decimal_text(o[2] as u64).as_str());
        s.append(".");
        s.append(decimal_text(o[3] as u64).as_str());
        s
    }
}

/// The address that a text stands for, if it stands for one.
pub open spec fn address_of(text: Seq<char>) -> Option<Ipv4Addr> {
    if exists|ip: Ipv4Addr| #[trigger] ip.text() == text {
        Some(choose|ip: Ipv4Addr| #[trigger] ip.text() == text)
    } else {
        None
    }
}

/// Whether `text` is four octets with a dot between each two, the octets ending at the given places.
spec fn dotted(text: Seq<char>, ip: Ipv4Addr, n0: int, n1: int, n2: int) -> bool {
    &&& octet_at(text, 0, n0, ip.octet(0))
    &&& n0 < text.len() && text[n0] == '.'
    &&& octet_at(text, n0 + 1, n1, ip.octet(1))
    &&& n1 < text.len() && text[n1] == '.'
    &&& octet_at(text, n1 + 1, n2, ip.octet(2))
    &&& n2 < text.len() && text[n2] == '.'
    &&& octet_at(text, n2 + 1, text.len() as int, ip.octet(3))
}

/// The octets of an address stand in its text one after the other.
proof fn lemma_text_is_dotted(ip: Ipv4Addr) -> (ends: (int, int, int))
    ensures
        dotted(ip.text(), ip, ends.0, ends.1, ends.2),
{
    let d0 = crate::text::decimal(ip.octet(0) as nat);
    let d1 = crate::text::decimal(ip.octet(1) as nat);
    let d2 = crate::text::decimal(ip.octet(2) as nat);
    let d3 = crate::text::decimal(ip.octet(3) as nat);
    lemma_octet_text(ip.octet(0));
    lemma_octet_text(ip.octet(1));
    lemma_octet_text(ip.octet(2));
    lemma_octet_text(ip.octet(3));
    let n0 = d0.len() as int;
    let n1 = n0 + 1 + d1.len();
    let n2 = n1 + 1 + d2.len();
    let t = ip.text();
    assert(t.subrange(0, n0) =~= d0);
    assert(t.subrange(n0 + 1, n1) =~= d1);
    assert(t.subrange(n1 + 1, n2) =~= d2);
    assert(t.subrange(n2 + 1, t.len() as int) =~= d3);
    (n0, n1, n2)
}

/// A text of four octets and dots is the text of its address.
proof fn lemma_dotted_is_text(text: Seq<char>, ip: Ipv4Addr, n0: int, n1: int, n2: int)
    requires
        dotted(text, ip, n0, n1, n2),
    ensures
        text == ip.text(),
{
    let t = text;
    assert(t =~= t.subrange(0, n0) + seq!['.'] + t.subrange(n0 + 1, n1) + seq!['.'] + t.subrange(
        n1 + 1,
        n2,
    ) + seq!['.'] + t.subrange(n2 + 1, t.len() as int));
}

/// Two addresses with the same octets are the same.
proof fn lemma_octets_determine(a: Ipv4Addr, b: Ipv4Addr)
    requires
        forall|i: int| 0 <= i < 4 ==> #[trigger] a.octet(i) == b.octet(i),
    ensures
        a == b,
{
    assert(a.octet(0) == b.octet(0));
    assert(a.octet(1) == b.octet(1));
    assert(a.octet(2) == b.octet(2));
    assert(a.octet(3) == b.octet(3));
}

/// No two addresses have the same text, so reading a text back gives the address it was written
/// from.
pub proof fn text_determines_address(ip: Ipv4Addr)
    ensures
        address_of(ip.text()) == Some(ip),
        forall|other: Ipv4Addr| #[trigger] other.text() == ip.text() ==> other == ip,
{
    let t = ip.text();
    let e = lemma_text_is_dotted(ip);
    assert forall|other: Ipv4Addr| #[trigger] other.text() == t implies other == ip by {
        let f = lemma_text_is_dotted(other);
        lemma_octet_unique(t, 0, e.0, ip.octet(0), f.0, other.octet(0));
        lemma_octet_unique(t, e.0 + 1, e.1, ip.octet(1), f.1, other.octet(1));
        lemma_octet_unique(t, e.1 + 1, e.2, ip.octet(2), f.2, other.octet(2));
        lemma_octet_unique(t, e.2 + 1, t.len() as int, ip.octet(3), t.len() as int, other.octet(3));
        assert(forall|i: int| 0 <= i < 4 ==> #[trigger] ip.octet(i) == other.octet(i));
        lemma_octets_determine(ip, other);
    }
}

/// The decimal text of an octet, written out.
proof fn lemma_octet_text(v: u8)
    ensures
        crate::text::decimal(v as nat) == (if v < 10 {
            seq![crate::text::digit_char(v as nat)]
        } else if v < 100 {
            seq![crate::text::digit_char(v as nat / 10), crate::text::digit_char(v as nat % 10)]
        } else {
            seq![
                crate::text::digit_char(v as nat / 100),
                crate::text::digit_char(v as nat / 10 % 10),
                crate::text::digit_char(v as nat % 10),
            ]
        }),
        forall|i: int|
            0 <= i < crate::text::decimal(v as nat).len() ==> is_digit(
                #[trigger] crate::text::decimal(v as nat)[i],
            ),
{
    reveal_with_fuel(crate::text::decimal, 3);
    let d = crate::text::decimal(v as nat);
    assert(d.len() <= 3);
    assert(is_digit(d[0]));
    assert(d.len() > 1 ==> is_digit(d[1]));
    assert(d.len() > 2 ==> is_digit(d[2]));
}

/// At one position at most one octet can be read.
proof fn lemma_octet_unique(text: Seq<char>, start: int, n1: int, v1: u8, n2: int, v2: u8)
    requires
        octet_at(text, start, n1, v1),
        octet_at(text, start, n2, v2),
    ensures
        n1 == n2,
        v1 == v2,
{
    lemma_octet_text(v1);
    lemma_octet_text(v2);
    let d1 = crate::text::decimal(v1 as nat);
    let d2 = crate::text::decimal(v2 as nat);
    assert(forall|i: int| 0 <= i < n1 - start ==> #[trigger] d1[i] == text[start + i]);
    assert(forall|i: int| 0 <= i < n2 - start ==> #[trigger] d2[i] == text[start + i]);
    if n1 < n2 {
        assert(is_digit(d2[n1 - start]));
    }
    if n2 < n1 {
        assert(is_digit(d1[n2 - start]));
    }
    assert(d1 =~= d2);
    assert(d1[0] == d2[0] && d1[d1.len() - 1] == d2[d1.len() - 1]);
    if d1.len() == 3 {
        assert(d1[1] == d2[1]);
    }
}

/// The value of a decimal digit, or `None` for another character.
fn digit_value(c: char) -> (d: Option<u32>)
    ensures
        d is Some <==> is_digit(c),
        d matches Some(v) ==> v < 10 && c == crate::text::digit_char(v as nat),
{
    if '0' <= c && c <= '9' {
        Some(c as u32 - 48)
    } else {
        None
    }
}

/// Reads one octet: one to three digits, no leading zero, at most 255.
fn read_octet(text: &str, len: usize, start: usize) -> (r: Option<(u8, usize)>)
    requires
        len == text@.len(),
        start <= len,
    ensures
        r matches Some((v, next)) ==> octet_at(text@, start as int, next as int, v),
        r is None ==> forall|next: int, v: u8| !octet_at(text@, start as int, next, v),
{
    let mut value: u32 = 0;
    let mut i: usize = start;
    let mut more = true;
    while more && i < len && i - start < 4
        invariant
            len == text@.len(),
            start <= i <= len,
            i - start <= 4,
            i - start == 0 ==> value == 0,
            i - start >= 1 ==> text@[start as int] == crate::text::digit_char(
                (if i - start == 1 {
                    value
                } else if i - start == 2 {
                    value / 10
                } else if i - start == 3 {
                    value / 100
                } else {
                    value / 1000
                }) as nat,
            ),
            i - start == 2 ==> text@[start + 1] == crate::text::digit_char((value % 10) as nat),
            i - start == 3 ==> text@[start + 1] == crate::text::digit_char(
                (value / 10 % 10) as nat,
            ) && text@[start + 2] == crate::text::digit_char((value % 10) as nat),
            i - start == 1 ==> value < 10,
            i - start == 2 ==> value < 100,
            i - start == 3 ==> value < 1000,
            i - start == 4 ==> value < 10000,
            forall|k: int| start <= k < i ==> is_digit(#[trigger] text@[k]),
            !more ==> i < len && !is_digit(text@[i as int]),
        decreases len - i + (if more { 1int } else { 0int }),
    {
        match digit_value(text.get_char(i)) {
            Some(d) => {
                value = value * 10 + d;
                i = i + 1;
            },
            None => {
                more = false;
            },
        }
    }
    let n: usize = i - start;
    let leading_zero: bool = n > 1 && text.get_char(start) == '0';
    proof {
        assert forall|next: int, v: u8| octet_at(text@, start as int, next, v) implies n >= 1 && n <= 3
            && next == i && v == value && !leading_zero by {
            lemma_octet_text(v);
            let d = crate::text::decimal(v as nat);
            assert(forall|j: int| 0 <= j < next - start ==> #[trigger] d[j] == text@[start + j]);
            if next < i {
                assert(is_digit(text@[next]));
            }
            if i < next {
                assert(d.len() <= 3);
                assert(d[i - start] == text@[i as int]);
            }
            assert(d[0] == text@[start as int]);
            if n > 1 {
                assert(d[1] == text@[start + 1]);
            }
            if n > 2 {
                assert(d[2] == text@[start + 2]);
            }
        }
    }
    if n == 0 || n > 3 || leading_zero || value > 255 {
        return None;
    }
    proof {
        lemma_octet_text(value as u8);
        assert(text@.subrange(start as int, i as int) =~= crate::text::decimal(value as nat));
    }
    Some((value as u8, i))
}

/// Reads one octet and the dot behind it; the place is that of the dot.
fn read_part(text: &str, len: usize, start: usize) -> (r: Option<(u8, usize)>)
    requires
        len == text@.len(),
        start <= len,
    ensures
        r matches Some((v, dot)) ==> octet_at(text@, start as int, dot as int, v) && dot < len
            && text@[dot as int] == '.',
        r is None ==> forall|dot: int, v: u8|
            !(#[trigger] octet_at(text@, start as int, dot, v) && dot < len && text@[dot] == '.'),
{
    match read_octet(text, len, start) {
        Some((v, next)) => {
            if next < len && text.get_char(next) == '.' {
                Some((v, next))
            } else {
                proof {
                    assert forall|dot: int, w: u8| #[trigger]
                        octet_at(text@, start as int, dot, w) implies dot == next by {
                        lemma_octet_unique(text@, start as int, dot, w, next as int, v);
                    }
                }
                None
            }
        },
        None => None,
    }
}

impl AddrParseError {
    /// What went wrong, for a reader.
    pub fn message(&self) -> (s: String)
        ensures
            s@ == "invalid IPv4 address syntax"@,
    {
        "invalid IPv4 address syntax".to_owned()
    }
}

/// Octets that are put together come apart again.
proof fn lemma_put_together(a: u8, b: u8, c: u8, d: u8)
    ensures
        Ipv4Addr::of(a, b, c, d).bits == a * 0x100_0000 + b * 0x1_0000 + c * 0x100 + d,
        Ipv4Addr::of(a, b, c, d).octet(0) == a,
        Ipv4Addr::of(a, b, c, d).octet(1) == b,
        Ipv4Addr::of(a, b, c, d).octet(2) == c,
        Ipv4Addr::of(a, b, c, d).octet(3) == d,
{
    let x = Ipv4Addr::of(a, b, c, d).bits;
    let (w0, w1, w2, w3) = (a as u32, b as u32, c as u32, d as u32);
    assert(x == w0 * 0x100_0000 + w1 * 0x1_0000 + w2 * 0x100 + w3);
    assert(x / 0x100_0000u32 == w0 && x / 0x1_0000u32 % 0x100u32 == w1 && x / 0x100u32 % 0x100u32
        == w2 && x % 0x100u32 == w3) by (bit_vector)
        requires
            w0 < 256,
            w1 < 256,
            w2 < 256,
            w3 < 256,
            x == w0 * 0x100_0000u32 + w1 * 0x1_0000u32 + w2 * 0x100u32 + w3,
    ;
}

/// The octets of an address are the digits of its number to the base 256, the leftmost counting most.
pub proof fn octets_are_the_bytes_of_the_address(ip: Ipv4Addr, a: u8, b: u8, c: u8, d: u8)
    ensures
        ip.bits == ip.octet(0) * 0x100_0000 + ip.octet(1) * 0x1_0000 + ip.octet(2) * 0x100
            + ip.octet(3),
        Ipv4Addr::of(a, b, c, d).bits == a * 0x100_0000 + b * 0x1_0000 + c * 0x100 + d,
        Ipv4Addr::of(a, b, c, d).octet(0) == a,
        Ipv4Addr::of(a, b, c, d).octet(1) == b,
        Ipv4Addr::of(a, b, c, d).octet(2) == c,
        Ipv4Addr::of(a, b, c, d).octet(3) == d,
{
    lemma_put_together(a, b, c, d);
    let x = ip.bits;
    assert(x / 0x100_0000u32 < 256 && x == x / 0x100_0000u32 * 0x100_0000u32 + x / 0x1_0000u32
        % 0x100u32 * 0x1_0000u32 + x / 0x100u32 % 0x100u32 * 0x100u32 + x % 0x100u32)
        by (bit_vector);
}

/// The mesh is the addresses from 10.67.0.0 to 10.67.255.255.
pub proof fn mesh_is_a_range_of_addresses(ip: Ipv4Addr)
    ensures
        ip.in_mesh() <==> 0x0A43_0000 <= ip.bits <= 0x0A43_FFFF,
{
}

/// Whether the text is a decimal number up to 255, without a leading zero.
pub open spec fn is_octet_text(text: Seq<char>) -> bool {
    crate::text::is_number(text) && crate::text::number_of(text) <= 255
}

/// Four texts with a dot between each two.
pub open spec fn with_dots(a: Seq<char>, b: Seq<char>, c: Seq<char>, d: Seq<char>) -> Seq<char> {
    a + seq!['.'] + b + seq!['.'] + c + seq!['.'] + d
}

/// Four decimal numbers up to 255, without leading zeros and with a dot between each two, are an
/// address: the one with these octets.
pub proof fn dotted_decimals_are_addresses(a: Seq<char>, b: Seq<char>, c: Seq<char>, d: Seq<char>)
    requires
        is_octet_text(a),
        is_octet_text(b),
        is_octet_text(c),
        is_octet_text(d),
    ensures
        address_of(with_dots(a, b, c, d)) matches Some(ip) && ip.bits == crate::text::number_of(a)
            * 0x100_0000 + crate::text::number_of(b) * 0x1_0000 + crate::text::number_of(c) * 0x100
            + crate::text::number_of(d),
{
    crate::text::digits_are_the_text_of_their_number(a);
    crate::text::digits_are_the_text_of_their_number(b);
    crate::text::digits_are_the_text_of_their_number(c);
    crate::text::digits_are_the_text_of_their_number(d);
    let (x, y, z, w) = (
        crate::text::number_of(a) as u8,
        crate::text::number_of(b) as u8,
        crate::text::number_of(c) as u8,
        crate::text::number_of(d) as u8,
    );
    let ip = Ipv4Addr::of(x, y, z, w);
    lemma_put_together(x, y, z, w);
    assert(ip.text() =~= with_dots(a, b, c, d));
    text_determines_address(ip);
}

/// Nothing else is an address: a text that is read as one is four decimal numbers up to 255, without
/// leading zeros and with a dot between each two.
pub proof fn addresses_are_dotted_decimals(text: Seq<char>)
    requires
        address_of(text) is Some,
    ensures
        exists|a: Seq<char>, b: Seq<char>, c: Seq<char>, d: Seq<char>|
            #![trigger with_dots(a, b, c, d)]
            is_octet_text(a) && is_octet_text(b) && is_octet_text(c) && is_octet_text(d) && text
                == with_dots(a, b, c, d),
{
    let ip = choose|ip: Ipv4Addr| #[trigger] ip.text() == text;
    crate::text::decimal_text_stands_for_its_number(ip.octet(0) as nat);
    crate::text::decimal_text_stands_for_its_number(ip.octet(1) as nat);
    crate::text::decimal_text_stands_for_its_number(ip.octet(2) as nat);
    crate::text::decimal_text_stands_for_its_number(ip.octet(3) as nat);
    assert(text == with_dots(
        crate::text::decimal(ip.octet(0) as nat),
        crate::text::decimal(ip.octet(1) as nat),
        crate::text::decimal(ip.octet(2) as nat),
        crate::text::decimal(ip.octet(3) as nat),
    ));
}

/// The text of an address is four decimal numbers, its octets, with a dot between each two.
pub proof fn address_text_is_its_octets(ip: Ipv4Addr)
    ensures
        exists|a: Seq<char>, b: Seq<char>, c: Seq<char>, d: Seq<char>|
            #![trigger with_dots(a, b, c, d)]
            is_octet_text(a) && is_octet_text(b) && is_octet_text(c) && is_octet_text(d)
                && ip.text() == with_dots(a, b, c, d) && ip.bits == crate::text::number_of(a)
                * 0x100_0000 + crate::text::number_of(b) * 0x1_0000 + crate::text::number_of(c)
                * 0x100 + crate::text::number_of(d),
{
    let a = crate::text::decimal(ip.octet(0) as nat);
    let b = crate::text::decimal(ip.octet(1) as nat);
    let c = crate::text::decimal(ip.octet(2) as nat);
    let d = crate::text::decimal(ip.octet(3) as nat);
    crate::text::decimal_text_stands_for_its_number(ip.octet(0) as nat);
    crate::text::decimal_text_stands_for_its_number(ip.octet(1) as nat);
    crate::text::decimal_text_stands_for_its_number(ip.octet(2) as nat);
    crate::text::decimal_text_stands_for_its_number(ip.octet(3) as nat);
    assert(ip.text() == with_dots(a, b, c, d));
    octets_are_the_bytes_of_the_address(ip, 0, 0, 0, 0);
}

} // verus!
