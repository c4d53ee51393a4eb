//! The address of a node: four octets, a netmask and a port, with its text
//! form `a.b.c.d[/len][:port]`.

use crate::text::{decimal, is_digit, lemma_decimal, parse_u16, push_decimal, unsigned_of_text};
use vstd::prelude::*;
use vstd::string::*;
use vstd::utf8::is_ascii_chars;

verus! {

/// An IPv4 endpoint.  Two addresses name the same node when octets and port
/// agree; the netmask takes no part in that.
#[derive(Clone, Copy, Debug)]
pub struct IpAddress {
    pub address: [u8; 4],
    pub netmask: [u8; 4],
    pub port: u16,
}

/// An address as a value: its octets, its netmask, its port.
pub struct AddressView {
    pub address: Seq<u8>,
    pub netmask: Seq<u8>,
    pub port: u16,
}

impl AddressView {
    /// Four octets, and four octets of netmask.
    pub open spec fn wf(self) -> bool {
        self.address.len() == 4 && self.netmask.len() == 4
    }

    /// Whether both addresses name the same node: same octets, same port.
    pub open spec fn same_node(self, b: AddressView) -> bool {
        self.address == b.address && self.port == b.port
    }

    /// The canonical text of this address: `a.b.c.d:port`.
    pub open spec fn text(self) -> Seq<char> {
        address_text(self.address, None, Some(self.port))
    }
}

impl View for IpAddress {
    type V = AddressView;

    open spec fn view(&self) -> AddressView {
        AddressView { address: self.address@, netmask: self.netmask@, port: self.port }
    }
}

/// The four octets of a 32-bit number, most significant first.
pub open spec fn be_octets(v: u32) -> Seq<u8> {
    seq![
        (v / 0x100_0000) as u8,
        ((v / 0x1_0000) % 256) as u8,
        ((v / 0x100) % 256) as u8,
        (v % 256) as u8,
    ]
}

/// The 32-bit number that four octets spell, most significant first.
pub open spec fn be_value(a: Seq<u8>) -> u32 {
    (a[0] as nat * 0x100_0000 + a[1] as nat * 0x1_0000 + a[2] as nat * 0x100 + a[3] as nat) as u32
}

/// `2^n`.
pub open spec fn pow2(n: nat) -> nat
    decreases n,
{
    if n == 0 {
        1
    } else {
        2 * pow2((n - 1) as nat)
    }
}

/// The netmask of a prefix length: the first `len` bits set, the rest clear.
pub open spec fn prefix_mask(len: nat) -> u32 {
    (0x1_0000_0000 - pow2((32 - len) as nat)) as u32
}

/// The prefix length that stands when the text gives none.
pub open spec fn prefix_or_host(len: Option<nat>) -> nat {
    match len {
        Some(l) => l,
        None => 32,
    }
}

/// `a.b.c.d`
pub open spec fn host_text(a: Seq<u8>) -> Seq<char> {
    decimal(a[0] as nat) + seq!['.'] + decimal(a[1] as nat) + seq!['.'] + decimal(a[2] as nat)
        + seq!['.'] + decimal(a[3] as nat)
}

/// `a.b.c.d` or `a.b.c.d/len`
pub open spec fn network_text(a: Seq<u8>, len: Option<nat>) -> Seq<char> {
    match len {
        Some(l) => host_text(a) + seq!['/'] + decimal(l),
        None => host_text(a),
    }
}

/// The text of an address in canonical form: decimal fields without sign or
/// leading zeros, the prefix length and the port each present or not.
pub open spec fn address_text(a: Seq<u8>, len: Option<nat>, port: Option<u16>) -> Seq<char> {
    match port {
        Some(p) => network_text(a, len) + seq![':'] + decimal(p as nat),
        None => network_text(a, len),
    }
}

/// Where `c` first stands in `s`; `s.len()` where it does not occur.
pub open spec fn index_of(s: Seq<char>, c: char) -> int
    decreases s.len(),
{
    if s.len() == 0 {
        0
    } else if s[0] == c {
        0
    } else {
        1 + index_of(s.drop_first(), c)
    }
}

/// What the network part of an address means, as the pair of the address and
/// its netmask, each a 32-bit number; `None` where the text is refused.
pub uninterp spec fn inet_of_text(s: Seq<char>) -> Option<(u32, u32)>;

/// What an address text means, as address, netmask and port; `None` where it
/// is refused.
///
/// The text is split at its first `:`.  What stands before is the network
/// part.  What stands behind, if there is a `:`, is the port, an unsigned
/// decimal number of sixteen bits.  A text that gives a prefix length names a
/// network, and its port is 0 whatever the text says.
pub open spec fn address_of_text(s: Seq<char>) -> Option<(u32, u32, u16)> {
    let k = index_of(s, ':');
    let network = s.subrange(0, k);
    let port: Option<nat> = if k < s.len() {
        unsigned_of_text(s.subrange(k + 1, s.len() as int))
    } else {
        Some(0nat)
    };
    let masked = index_of(network, '/') < network.len();
    if !is_ascii_chars(s) {
        None
    } else {
        match (inet_of_text(network), port) {
            (Some((address, netmask)), Some(p)) => if p <= 0xffff {
                Some((address, netmask, if masked { 0u16 } else { p as u16 }))
            } else {
                None
            },
            _ => None,
        }
    }
}

/// The place before which `c` does not stand and at which it does, if
/// there is one, is where `c` first stands.
pub proof fn lemma_index_of(s: Seq<char>, c: char, k: int)
    requires
        0 <= k <= s.len(),
        forall|j: int| 0 <= j < k ==> s[j] != c,
        k < s.len() ==> s[k] == c,
    ensures
        index_of(s, c) == k,
    decreases s.len(),
{
    if s.len() > 0 && k > 0 {
        let t = s.drop_first();
        assert forall|j: int| 0 <= j < k - 1 implies t[j] != c by {
            assert(t[j] == s[j + 1]);
        }
        lemma_index_of(t, c, k - 1);
    }
}

/// Whether `c` may stand in the text of a network.
pub open spec fn is_network_char(c: char) -> bool {
    is_digit(c) || c == '.' || c == '/'
}

/// The shape of a canonical network text: it is made of digits, dots and at
/// most the one slash that introduces a prefix length.
pub proof fn lemma_network_text(a: Seq<u8>, len: Option<nat>)
    requires
        a.len() == 4,
    ensures
        forall|i: int|
            0 <= i < network_text(a, len).len() ==> is_network_char(
                #[trigger] network_text(a, len)[i],
            ),
        (index_of(network_text(a, len), '/') < network_text(a, len).len()) <==> len is Some,
{
    let d0 = decimal(a[0] as nat);
    let d1 = decimal(a[1] as nat);
    let d2 = decimal(a[2] as nat);
    let d3 = decimal(a[3] as nat);
    lemma_decimal(a[0] as nat);
    lemma_decimal(a[1] as nat);
    lemma_decimal(a[2] as nat);
    lemma_decimal(a[3] as nat);
    let h = host_text(a);
    assert forall|i: int| 0 <= i < h.len() implies (is_digit(#[trigger] h[i]) || h[i] == '.') by {
        let n0 = d0.len() as int;
        let n1 = d1.len() as int;
        let n2 = d2.len() as int;
        if i < n0 {
            assert(h[i] == d0[i]);
        } else if i == n0 {
        } else if i < n0 + 1 + n1 {
            assert(h[i] == d1[i - n0 - 1]);
        } else if i == n0 + 1 + n1 {
        } else if i < n0 + 1 + n1 + 1 + n2 {
            assert(h[i] == d2[i - n0 - 1 - n1 - 1]);
        } else if i == n0 + 1 + n1 + 1 + n2 {
        } else {
            assert(h[i] == d3[i - n0 - 1 - n1 - 1 - n2 - 1]);
        }
    }
    let t = network_text(a, len);
    match len {
        Some(l) => {
            lemma_decimal(l);
            let dl = decimal(l);
            assert forall|i: int| 0 <= i < t.len() implies is_network_char(#[trigger] t[i]) by {
                if i < h.len() {
                    assert(t[i] == h[i]);
                } else if i == h.len() {
                } else {
                    assert(t[i] == dl[i - h.len() - 1]);
                }
            }
            assert forall|j: int| 0 <= j < h.len() implies t[j] != '/' by {
                assert(t[j] == h[j]);
            }
            assert(t[h.len() as int] == '/');
            lemma_index_of(t, '/', h.len() as int);
        },
        None => {
            assert forall|i: int| 0 <= i < t.len() implies is_network_char(#[trigger] t[i]) by {
                assert(is_digit(h[i]) || h[i] == '.');
            }
            assert forall|j: int| 0 <= j < t.len() implies t[j] != '/' by {
                assert(is_digit(h[j]) || h[j] == '.');
            }
            lemma_index_of(t, '/', t.len() as int);
        },
    }
}

/// How a canonical address text splits at its first colon.
pub proof fn lemma_address_text(a: Seq<u8>, len: Option<nat>, port: Option<u16>)
    requires
        a.len() == 4,
    ensures
        is_ascii_chars(address_text(a, len, port)),
        address_text(a, len, port).subrange(0, index_of(address_text(a, len, port), ':'))
            == network_text(a, len),
        match port {
            Some(p) => {
                &&& index_of(address_text(a, len, port), ':') < address_text(a, len, port).len()
                &&& address_text(a, len, port).subrange(
                    index_of(address_text(a, len, port), ':') + 1,
                    address_text(a, len, port).len() as int,
                ) == decimal(p as nat)
            },
            None => index_of(address_text(a, len, port), ':') == address_text(a, len, port).len(),
        },
{
    let t = network_text(a, len);
    let s = address_text(a, len, port);
    lemma_network_text(a, len);
    match port {
        Some(p) => {
            lemma_decimal(p as nat);
            let dp = decimal(p as nat);
            assert forall|j: int| 0 <= j < t.len() implies s[j] != ':' by {
                assert(s[j] == t[j]);
                assert(is_network_char(t[j]));
            }
            assert(s[t.len() as int] == ':');
            lemma_index_of(s, ':', t.len() as int);
            assert(s.subrange(0, t.len() as int) =~= t);
            assert(s.subrange(t.len() as int + 1, s.len() as int) =~= dp);
            assert forall|i: int| 0 <= i < s.len() implies '\0' <= #[trigger] s[i] <= '\u{7f}' by {
                if i < t.len() {
                    assert(s[i] == t[i]);
                    assert(is_network_char(t[i]));
                } else if i == t.len() {
                } else {
                    assert(s[i] == dp[i - t.len() - 1]);
                    assert(is_digit(dp[i - t.len() - 1]));
                }
            }
        },
        None => {
            assert forall|j: int| 0 <= j < s.len() implies s[j] != ':' by {
                assert(is_network_char(t[j]));
            }
            lemma_index_of(s, ':', s.len() as int);
            assert(s.subrange(0, s.len() as int) =~= t);
            assert forall|i: int| 0 <= i < s.len() implies '\0' <= #[trigger] s[i] <= '\u{7f}' by {
                assert(is_network_char(t[i]));
            }
        },
    }
}

/// Reads the network part of an address with `cidr::Ipv4Inet`'s `FromStr`,
/// and gives the address (`Ipv4Inet::address`) and the netmask
/// (`Ipv4Inet::mask`) as 32-bit numbers, or `None` where the text is refused.
///
/// Believed of that parser: the result depends on the text alone; and a
/// canonical text `a.b.c.d`, alone or followed by `/len` with `len <= 32`,
/// is read as those four octets with the netmask of that length, a single
/// host where no length is given.
#[verifier::external_body]
fn inet_from_text(s: &str) -> (r: Option<(u32, u32)>)
    ensures
        r == inet_of_text(s@),
        forall|a: Seq<u8>, len: Option<nat>|
            a.len() == 4 && prefix_or_host(len) <= 32 && s@ == #[trigger] network_text(a, len)
                ==> r == Some((be_value(a), prefix_mask(prefix_or_host(len)))),
{
    match s.parse::<cidr::Ipv4Inet>() {
        Ok(net) => Some((u32::from(net.address()), u32::from(net.mask()))),
        Err(_) => None,
    }
}

/// The first place where the byte `c` stands in `bytes`; its length where
/// it does not occur.
fn find_byte(bytes: &[u8], c: u8) -> (k: usize)
    ensures
        k <= bytes@.len(),
        forall|j: int| 0 <= j < k ==> bytes@[j] != c,
        k < bytes@.len() ==> bytes@[k as int] == c,
{
    let n: usize = bytes.len();
    let mut i: usize = 0;
    while i < n
        invariant
            i <= n == bytes@.len(),
            forall|j: int| 0 <= j < i ==> bytes@[j] != c,
        decreases n - i,
    {
        if bytes[i] == c {
            return i;
        }
        i = i + 1;
    }
    i
}

/// The four octets of `v`, most significant first.
fn octets_of(v: u32) -> (r: [u8; 4])
    ensures
        r@ == be_octets(v),
{
    let r: [u8; 4] = [
        (v / 0x100_0000) as u8,
        ((v / 0x1_0000) % 256) as u8,
        ((v / 0x100) % 256) as u8,
        (v % 256) as u8,
    ];
    assert(r@ =~= be_octets(v));
    r
}

/// Four octets are the octets of the number that they spell.
pub proof fn lemma_be_octets_of_value(a: Seq<u8>)
    requires
        a.len() == 4,
    ensures
        be_octets(be_value(a)) == a,
{
    let a0 = a[0] as int;
    let a1 = a[1] as int;
    let a2 = a[2] as int;
    let a3 = a[3] as int;
    let v = a0 * 0x100_0000 + a1 * 0x1_0000 + a2 * 0x100 + a3;
    assert(be_value(a) == v);
    let w1 = a0 * 0x1_0000 + a1 * 0x100 + a2;
    let w2 = a0 * 0x100 + a1;
    assert(v == 256 * w1 + a3);
    assert(v / 0x100 == w1 && v % 256 == a3);
    assert(v == 0x1_0000 * w2 + (a2 * 0x100 + a3));
    assert(v / 0x1_0000 == w2);
    assert(w1 == 256 * w2 + a2);
    assert(w1 % 256 == a2);
    assert(w2 == 256 * a0 + a1);
    assert(w2 % 256 == a1);
    assert(v == 0x100_0000 * a0 + (a1 * 0x1_0000 + a2 * 0x100 + a3));
    assert(v / 0x100_0000 == a0);
    assert(be_octets(be_value(a)) =~= a);
}

/// The address that the triple of address, netmask and port names.
pub open spec fn address_of_parts(parts: (u32, u32, u16)) -> AddressView {
    AddressView { address: be_octets(parts.0), netmask: be_octets(parts.1), port: parts.2 }
}

impl IpAddress {
    /// Whether this address is the one that the triple names.
    pub open spec fn denotes(&self, parts: (u32, u32, u16)) -> bool {
        &&& self.address@ == be_octets(parts.0)
        &&& self.netmask@ == be_octets(parts.1)
        &&& self.port == parts.2
    }

    /// Whether both addresses name the same node: same octets, same port.
    pub open spec fn same_node(&self, b: IpAddress) -> bool {
        self@.same_node(b@)
    }

    /// The canonical text of this address: `a.b.c.d:port`.
    pub open spec fn text(&self) -> Seq<char> {
        self@.text()
    }

    /// Reads an address from text of the form `a.b.c.d[/len][:port]`.
    ///
    /// The netmask is that of a single host where no prefix length is given.
    /// The port is 0 where none is given, and also where a prefix length is.
    /// On a canonical text the result is the address written there, so that
    /// writing it again gives the text back.
    pub fn parse(val: &str) -> (r: Option<IpAddress>)
        ensures
            match address_of_text(val@) {
                Some(parts) => r matches Some(x) && x.denotes(parts),
                None => r is None,
            },
            forall|a: Seq<u8>, len: Option<nat>, port: Option<u16>|
                a.len() == 4 && prefix_or_host(len) <= 32 && val@ == #[trigger] address_text(
                    a,
                    len,
                    port,
                ) ==> {
                    &&& r matches Some(x)
                    &&& x.address@ == a
                    &&& x.netmask@ == be_octets(prefix_mask(prefix_or_host(len)))
                    &&& x.port == match (len, port) {
                        (None, Some(p)) => p,
                        _ => 0u16,
                    }
                },
            forall|a: Seq<u8>, port: u16|
                a.len() == 4 && val@ == #[trigger] address_text(a, None, Some(port)) ==> {
                    &&& r matches Some(x)
                    &&& x.text() == val@
                },
    {
        broadcast use is_ascii_spec_bytes;

        if !val.is_ascii() {
            proof {
                assert forall|a: Seq<u8>, len: Option<nat>, port: Option<u16>|
                    a.len() == 4 implies val@ != #[trigger] address_text(a, len, port) by {
                    lemma_address_text(a, len, port);
                }
            }
            return None;
        }
        let bytes = val.as_bytes();
        let n: usize = bytes.len();
        let k: usize = find_byte(bytes, 58u8);
        proof {
            assert forall|j: int| 0 <= j < k implies val@[j] != ':' by {
                assert(bytes@[j] == val@[j] as u8);
            }
            if k < n {
                assert(bytes@[k as int] == val@[k as int] as u8);
            }
            lemma_index_of(val@, ':', k as int);
        }
        let network = val.substring_ascii(0, k);
        let net = inet_from_text(network);
        let network_bytes = network.as_bytes();
        let slash: usize = find_byte(network_bytes, 47u8);
        proof {
            assert forall|j: int| 0 <= j < slash implies network@[j] != '/' by {
                assert(network_bytes@[j] == network@[j] as u8);
            }
            if slash < k {
                assert(network_bytes@[slash as int] == network@[slash as int] as u8);
            }
            lemma_index_of(network@, '/', slash as int);
        }
        let masked: bool = slash < k;
        let port: Option<u16> = if k < n {
            parse_u16(val.substring_ascii(k + 1, n))
        } else {
            Some(0)
        };
        proof {
            assert forall|a: Seq<u8>, len: Option<nat>, p: Option<u16>|
                a.len() == 4 && prefix_or_host(len) <= 32 && val@ == #[trigger] address_text(
                    a,
                    len,
                    p,
                ) implies {
                &&& net == Some((be_value(a), prefix_mask(prefix_or_host(len))))
                &&& masked == (len is Some)
                &&& port == Some(
                    match p {
                        Some(q) => q,
                        None => 0u16,
                    },
                )
            } by {
                lemma_address_text(a, len, p);
                lemma_network_text(a, len);
                assert(network@ == network_text(a, len));
                if p is Some {
                    lemma_decimal(p->0 as nat);
                }
            }
            assert forall|a: Seq<u8>| a.len() == 4 implies #[trigger] be_octets(be_value(a))
                == a by {
                lemma_be_octets_of_value(a);
            }
        }
        match (net, port) {
            (Some((address, netmask)), Some(p)) => {
                let r = IpAddress {
                    address: octets_of(address),
                    netmask: octets_of(netmask),
                    port: if masked {
                        0
                    } else {
                        p
                    },
                };
                Some(r)
            },
            _ => None,
        }
    }

    /// The address that a canonical text names.
    pub fn from(val: &str) -> (r: IpAddress)
        requires
            exists|a: Seq<u8>, len: Option<nat>, port: Option<u16>|
                a.len() == 4 && prefix_or_host(len) <= 32 && val@ == #[trigger] address_text(
                    a,
                    len,
                    port,
                ),
        ensures
            address_of_text(val@) matches Some(parts) && r.denotes(parts),
            forall|a: Seq<u8>, len: Option<nat>, port: Option<u16>|
                a.len() == 4 && prefix_or_host(len) <= 32 && val@ == #[trigger] address_text(
                    a,
                    len,
                    port,
                ) ==> {
                    &&& r.address@ == a
                    &&& r.netmask@ == be_octets(prefix_mask(prefix_or_host(len)))
                    &&& r.port == match (len, port) {
                        (None, Some(p)) => p,
                        _ => 0u16,
                    }
                },
    {
        match Self::parse(val) {
            Some(r) => r,
            None => IpAddress { address: [0, 0, 0, 0], netmask: [0, 0, 0, 0], port: 0 },
        }
    }

    /// Writes the address as `a.b.c.d:port`.
    pub fn to_text(&self) -> (r: String)
        ensures
            r@ == self.text(),
    {
        let mut out = String::new();
        proof {
            reveal_strlit(".");
            reveal_strlit(":");
        }
        push_decimal(&mut out, self.address[0] as u16);
        out.append(".");
        push_decimal(&mut out, self.address[1] as u16);
        out.append(".");
        push_decimal(&mut out, self.address[2] as u16);
        out.append(".");
        push_decimal(&mut out, self.address[3] as u16);
        out.append(":");
        push_decimal(&mut out, self.port);
        proof {
            assert("."@ =~= seq!['.']);
            assert(":"@ =~= seq![':']);
            assert(out@ =~= self.text());
        }
        out
    }

    /// Whether both addresses name the same node: same octets, same port.
    pub fn equals(&self, b: &IpAddress) -> (r: bool)
        ensures
            r == self.same_node(*b),
    {
        let same = self.address[0] == b.address[0] && self.address[1] == b.address[1]
            && self.address[2] == b.address[2] && self.address[3] == b.address[3];
        proof {
            if same {
                assert(self.address@ =~= b.address@);
            }
        }
        same && self.port == b.port
    }
}

} // verus!
