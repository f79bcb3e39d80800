//! Addresses and networks. An address is a number of 32 or 128 bits; a network is an
//! address together with the number of leading bits that it fixes.

use crate::num::{self, dec, push_hex};
use crate::text::{cat2, cat3, cat7};
use vstd::prelude::*;

verus! {

/// An IPv4 or IPv6 address, most significant octet first.
#[derive(Clone, Copy, PartialEq, Eq, Structural, Debug)]
pub enum IpAddr {
    V4(u32),
    V6(u128),
}

/// A network in CIDR form. The address is kept as it was written.
#[derive(Clone, Copy, PartialEq, Eq, Structural, Debug)]
pub struct IpNet {
    pub addr: IpAddr,
    pub prefix: u8,
}

/// A text that names no network.
#[derive(Debug)]
pub struct NetError {
    pub message: String,
}

// ---------------------------------------------------------------------------
// Addresses
// ---------------------------------------------------------------------------

/// The text of an IPv6 address, compressed as RFC 5952 asks.
pub uninterp spec fn ipv6_text(bits: u128) -> Seq<char>;

/// The address that a text names: whether it is an IPv4 one, and its number.
pub uninterp spec fn addr_of_text(s: Seq<char>) -> Option<(bool, u128)>;

/// The network that a text names in CIDR notation: family, number of the address, prefix length.
pub uninterp spec fn net_of_text(s: Seq<char>) -> Option<(bool, u128, u8)>;

/// Writes an IPv6 address with the `Display` of the address inside an `ipnet::Ipv6Net`. The
/// contract names the text and says nothing else of it.
#[verifier::external_body]
fn display_v6(bits: u128) -> (r: String)
    ensures
        r@ == ipv6_text(bits),
{
    ipnet::Ipv6Net::new_assert(bits.into(), 128).addr().to_string()
}

/// Reads an address with `str::parse` into the address type that `ipnet::IpNet::new` takes. The
/// contract names the outcome, bounds an IPv4 number by 32 bits, and says that a text with a
/// slash is no address.
#[verifier::external_body]
fn read_addr(s: &str) -> (r: Option<(bool, u128)>)
    ensures
        r == addr_of_text(s@),
        r matches Some(p) ==> (p.0 ==> p.1 <= u32::MAX),
        s@.contains('/') ==> r is None,
{
    match ipnet::IpNet::new(s.parse().ok()?, 0).ok()? {
        ipnet::IpNet::V4(n) => Some((true, u32::from(n.addr()) as u128)),
        ipnet::IpNet::V6(n) => Some((false, u128::from(n.addr()))),
    }
}

/// Whether an outcome is the network that a text was written from, where it was written from one.
pub open spec fn reads_back(s: Seq<char>, r: Option<(bool, u128, u8)>) -> bool {
    forall|n: IpNet|
        n.wf() && s == #[trigger] n.spec_text() ==> r == Some((n.addr is V4, n.addr.spec_key().1, n.prefix))
}

/// Reads a network with `str::parse::<ipnet::IpNet>`. The contract names the outcome, bounds an
/// IPv4 number by 32 bits and the prefix length by the width of the family, and says that the
/// text of a network is read as that network.
#[verifier::external_body]
fn read_net(s: &str) -> (r: Option<(bool, u128, u8)>)
    ensures
        r == net_of_text(s@),
        r matches Some(p) ==> (if p.0 {
            p.1 <= u32::MAX && p.2 <= 32
        } else {
            p.2 <= 128
        }),
        reads_back(s@, r),
{
    match s.parse::<ipnet::IpNet>().ok()? {
        ipnet::IpNet::V4(n) => Some((true, u32::from(n.addr()) as u128, n.prefix_len())),
        ipnet::IpNet::V6(n) => Some((false, u128::from(n.addr()), n.prefix_len())),
    }
}

/// The address behind a family flag and a number.
pub open spec fn addr_from_parts(is_v4: bool, bits: u128) -> IpAddr {
    if is_v4 {
        IpAddr::V4(bits as u32)
    } else {
        IpAddr::V6(bits)
    }
}

/// The address that `s` names.
pub open spec fn parsed_ip(s: Seq<char>) -> Option<IpAddr> {
    match addr_of_text(s) {
        Some(p) => Some(addr_from_parts(p.0, p.1)),
        None => None,
    }
}

/// Reads an address.
pub fn parse_ip(s: &str) -> (r: Option<IpAddr>)
    ensures
        r == parsed_ip(s@),
{
    match read_addr(s) {
        Some((is_v4, bits)) => if is_v4 {
            Some(IpAddr::V4(bits as u32))
        } else {
            Some(IpAddr::V6(bits))
        },
        None => None,
    }
}

/// The dotted form of an IPv4 address.
pub open spec fn ipv4_text(bits: u32) -> Seq<char> {
    num::dec_text((bits / 0x1000000) as nat) + seq!['.'] + num::dec_text((bits / 0x10000 % 256) as nat)
        + seq!['.'] + num::dec_text((bits / 0x100 % 256) as nat) + seq!['.'] + num::dec_text(
        (bits % 256) as nat,
    )
}

/// The text of an address.
pub open spec fn ip_text(ip: IpAddr) -> Seq<char> {
    match ip {
        IpAddr::V4(x) => ipv4_text(x),
        IpAddr::V6(x) => ipv6_text(x),
    }
}

impl IpAddr {
    /// The IPv4 address with the octets `a.b.c.d`.
    pub fn v4(a: u8, b: u8, c: u8, d: u8) -> (r: IpAddr)
        ensures
            r == IpAddr::V4((a * 0x1000000 + b * 0x10000 + c * 0x100 + d) as u32),
    {
        IpAddr::V4(
            a as u32 * 0x1000000 + b as u32 * 0x10000 + c as u32 * 0x100 + d as u32,
        )
    }

    pub fn to_text(&self) -> (r: String)
        ensures
            r@ == ip_text(*self),
    {
        match *self {
            IpAddr::V4(x) => {
                proof {
                    reveal_strlit(".");
                    assert("."@ =~= seq!['.']);
                }
                cat7(
                    dec((x / 0x1000000) as u64).as_str(),
                    ".",
                    dec((x / 0x10000 % 256) as u64).as_str(),
                    ".",
                    dec((x / 0x100 % 256) as u64).as_str(),
                    ".",
                    dec((x % 256) as u64).as_str(),
                )
            },
            IpAddr::V6(x) => display_v6(x),
        }
    }

    /// A number that tells the address from every other one.
    pub open spec fn spec_key(self) -> (u64, u128) {
        match self {
            IpAddr::V4(x) => (4, x as u128),
            IpAddr::V6(x) => (6, x),
        }
    }

    pub fn key(&self) -> (r: (u64, u128))
        ensures
            r == self.spec_key(),
    {
        match *self {
            IpAddr::V4(x) => (4, x as u128),
            IpAddr::V6(x) => (6, x),
        }
    }

    /// The address behind a key.
    pub open spec fn from_key(k: (u64, u128)) -> IpAddr {
        if k.0 == 4 {
            IpAddr::V4(k.1 as u32)
        } else {
            IpAddr::V6(k.1)
        }
    }

    pub fn of_key(k: (u64, u128)) -> (r: IpAddr)
        ensures
            r == IpAddr::from_key(k),
    {
        if k.0 == 4 {
            IpAddr::V4(k.1 as u32)
        } else {
            IpAddr::V6(k.1)
        }
    }
}

/// Two addresses with one key are one address, and the key gives it back.
pub proof fn lemma_key_injective(a: IpAddr, b: IpAddr)
    ensures
        a.spec_key() == b.spec_key() ==> a == b,
        IpAddr::from_key(a.spec_key()) == a,
{
}

// ---------------------------------------------------------------------------
// Subnets
// ---------------------------------------------------------------------------

/// The /24 of an IPv4 address, marked by the top bit, or the /64 of an IPv6 address.
pub open spec fn subnet_number(ip: IpAddr) -> nat {
    match ip {
        IpAddr::V4(x) => (0x8000_0000_0000_0000_0000_0000_0000_0000 + x / 256) as nat,
        IpAddr::V6(x) => (x / 0x1_0000_0000_0000_0000) as nat,
    }
}

pub fn subnet_key(ip: IpAddr) -> (r: u128)
    ensures
        r == subnet_number(ip),
{
    match ip {
        IpAddr::V4(x) => 0x8000_0000_0000_0000_0000_0000_0000_0000u128 + (x / 256) as u128,
        IpAddr::V6(x) => x / 0x1_0000_0000_0000_0000u128,
    }
}

/// Two addresses share a subnet number exactly when they are of one family and agree in their
/// first three octets (IPv4) or their first four segments (IPv6).
pub proof fn lemma_subnet_number(a: IpAddr, b: IpAddr)
    ensures
        subnet_number(a) == subnet_number(b) <==> match (a, b) {
            (IpAddr::V4(x), IpAddr::V4(y)) => x / 256 == y / 256,
            (IpAddr::V6(x), IpAddr::V6(y)) => x / 0x1_0000_0000_0000_0000 == y
                / 0x1_0000_0000_0000_0000,
            _ => false,
        },
{
}

/// The subnet of an address as text: the family digit, then the subnet in hexadecimal.
pub open spec fn marker_text(ip: IpAddr) -> Seq<char> {
    match ip {
        IpAddr::V4(x) => seq!['4'] + num::hex_text((x / 256) as nat, 6),
        IpAddr::V6(x) => seq!['6'] + num::hex_text((x / 0x1_0000_0000_0000_0000) as nat, 16),
    }
}

pub fn subnet_marker(ip: IpAddr) -> (r: String)
    ensures
        r@ == marker_text(ip),
{
    let mut out = String::new();
    match ip {
        IpAddr::V4(x) => {
            out.push('4');
            push_hex(&mut out, (x / 256) as u64, 6);
        },
        IpAddr::V6(x) => {
            out.push('6');
            push_hex(&mut out, (x / 0x1_0000_0000_0000_0000u128) as u64, 16);
        },
    }
    assert(out@ =~= marker_text(ip));
    out
}

proof fn lemma_pow16()
    ensures
        vstd::arithmetic::power::pow(16, 6) == 0x100_0000,
        vstd::arithmetic::power::pow(16, 16) == 0x1_0000_0000_0000_0000,
{
    reveal_with_fuel(vstd::arithmetic::power::pow, 17);
    reveal(vstd::arithmetic::power::pow);
    assert(vstd::arithmetic::power::pow(16, 6) == 0x100_0000);
    assert(vstd::arithmetic::power::pow(16, 16) == 0x1_0000_0000_0000_0000);
}

/// The marker holds no dot, and two addresses have one marker exactly when they share a subnet.
pub proof fn lemma_marker(a: IpAddr, b: IpAddr)
    ensures
        !marker_text(a).contains('.'),
        marker_text(a) == marker_text(b) <==> subnet_number(a) == subnet_number(b),
{
    lemma_marker_chars(a);
    if marker_text(a) == marker_text(b) {
        assert(marker_text(a)[0] == marker_text(b)[0]);
        lemma_pow16();
        match (a, b) {
            (IpAddr::V4(x), IpAddr::V4(y)) => {
                assert(marker_text(a).skip(1) =~= num::hex_text((x / 256) as nat, 6));
                assert(marker_text(b).skip(1) =~= num::hex_text((y / 256) as nat, 6));
                crate::num::lemma_hex_injective((x / 256) as nat, (y / 256) as nat, 6);
            },
            (IpAddr::V6(x), IpAddr::V6(y)) => {
                let p = (x / 0x1_0000_0000_0000_0000) as nat;
                let q = (y / 0x1_0000_0000_0000_0000) as nat;
                assert(marker_text(a).skip(1) =~= num::hex_text(p, 16));
                assert(marker_text(b).skip(1) =~= num::hex_text(q, 16));
                crate::num::lemma_hex_injective(p, q, 16);
            },
            _ => {},
        }
    }
}

proof fn lemma_hex_no_dot(n: nat, width: nat)
    ensures
        forall|i: int| 0 <= i < num::hex_text(n, width).len() ==> #[trigger] num::hex_text(n, width)[i] != '.',
    decreases width,
{
    if width > 0 {
        let w = (width - 1) as nat;
        lemma_hex_no_dot(n / 16, w);
        assert forall|i: int| 0 <= i < num::hex_text(n, width).len() implies #[trigger] num::hex_text(
            n,
            width,
        )[i] != '.' by {
            if i < num::hex_text(n / 16, w).len() {
                assert(num::hex_text(n, width)[i] == num::hex_text(n / 16, w)[i]);
            } else {
                assert(num::hex_text(n, width)[i] == crate::num::hex_char(n % 16));
            }
        }
    }
}

pub proof fn lemma_marker_chars(a: IpAddr)
    ensures
        !marker_text(a).contains('.'),
{
    match a {
        IpAddr::V4(x) => lemma_hex_no_dot((x / 256) as nat, 6),
        IpAddr::V6(x) => lemma_hex_no_dot((x / 0x1_0000_0000_0000_0000) as nat, 16),
    }
}

// ---------------------------------------------------------------------------
// Networks
// ---------------------------------------------------------------------------

/// Two addresses of one family agree in their first `prefix` bits.
pub open spec fn agree_in(a: IpAddr, b: IpAddr, prefix: nat) -> bool {
    match (a, b) {
        (IpAddr::V4(x), IpAddr::V4(y)) => prefix <= 32 && x as nat / vstd::arithmetic::power2::pow2((32 - prefix) as nat)
            == y as nat / vstd::arithmetic::power2::pow2((32 - prefix) as nat),
        (IpAddr::V6(x), IpAddr::V6(y)) => prefix <= 128 && x as nat / vstd::arithmetic::power2::pow2((128 - prefix) as nat)
            == y as nat / vstd::arithmetic::power2::pow2((128 - prefix) as nat),
        _ => false,
    }
}

impl IpNet {
    /// The prefix length fits the family.
    pub open spec fn wf(self) -> bool {
        match self.addr {
            IpAddr::V4(_) => self.prefix <= 32,
            IpAddr::V6(_) => self.prefix <= 128,
        }
    }

    pub open spec fn covers(self, ip: IpAddr) -> bool {
        agree_in(self.addr, ip, self.prefix as nat)
    }

    pub fn prefix_len(&self) -> (r: u8)
        ensures
            r == self.prefix,
    {
        self.prefix
    }

    /// Whether the network holds an address.
    pub fn contains(&self, ip: &IpAddr) -> (r: bool)
        ensures
            r == self.covers(*ip),
    {
        match (self.addr, *ip) {
            (IpAddr::V4(x), IpAddr::V4(y)) => {
                if self.prefix > 32 {
                    return false;
                }
                let s: u32 = 32 - self.prefix as u32;
                if s == 32 {
                    proof {
                        lemma_below_width(x as nat);
                        lemma_below_width(y as nat);
                    }
                    return true;
                }
                proof {
                    vstd::bits::lemma_u32_shr_is_div(x, s);
                    vstd::bits::lemma_u32_shr_is_div(y, s);
                }
                x >> s == y >> s
            },
            (IpAddr::V6(x), IpAddr::V6(y)) => {
                if self.prefix > 128 {
                    return false;
                }
                let s: u128 = 128 - self.prefix as u128;
                if s == 128 {
                    proof {
                        lemma_below_width(x as nat);
                        lemma_below_width(y as nat);
                    }
                    return true;
                }
                proof {
                    vstd::bits::lemma_u128_shr_is_div(x, s);
                    vstd::bits::lemma_u128_shr_is_div(y, s);
                }
                x >> s == y >> s
            },
            _ => false,
        }
    }

    /// The text of a network: its address, a slash and the prefix length.
    pub open spec fn spec_text(self) -> Seq<char> {
        ip_text(self.addr) + "/"@ + num::dec_text(self.prefix as nat)
    }

    pub fn to_text(&self) -> (r: String)
        ensures
            r@ == self.spec_text(),
    {
        cat3(self.addr.to_text().as_str(), "/", dec(self.prefix as u64).as_str())
    }
}

proof fn lemma_below_width(x: nat)
    ensures
        x <= u32::MAX ==> x / vstd::arithmetic::power2::pow2(32) == 0,
        x <= u128::MAX ==> x / vstd::arithmetic::power2::pow2(128) == 0,
{
    vstd::arithmetic::power2::lemma2_to64();
    vstd::arithmetic::power2::lemma_pow2_adds(64, 64);
    if x <= u32::MAX {
        vstd::arithmetic::div_mod::lemma_basic_div(x as int, vstd::arithmetic::power2::pow2(32) as int);
    }
    if x <= u128::MAX {
        vstd::arithmetic::div_mod::lemma_basic_div(x as int, vstd::arithmetic::power2::pow2(128) as int);
    }
}

/// Whether one of the networks holds the address.
pub open spec fn any_covers(nets: Seq<IpNet>, ip: IpAddr) -> bool {
    exists|i: int| 0 <= i < nets.len() && (#[trigger] nets[i]).covers(ip)
}

pub fn any_contains(nets: &Vec<IpNet>, ip: IpAddr) -> (r: bool)
    ensures
        r == any_covers(nets@, ip),
{
    let mut i: usize = 0;
    while i < nets.len()
        invariant
            i <= nets@.len(),
            forall|j: int| 0 <= j < i ==> !(#[trigger] nets@[j]).covers(ip),
        decreases nets@.len() - i,
    {
        if nets[i].contains(&ip) {
            return true;
        }
        i += 1;
    }
    false
}

/// The network made of what was read from a text.
pub open spec fn chosen_net(
    bare: Option<(bool, u128)>,
    cidr: Option<(bool, u128, u8)>,
) -> Option<IpNet> {
    match bare {
        Some((true, bits)) => Some(IpNet { addr: IpAddr::V4(bits as u32), prefix: 32 }),
        Some((false, bits)) => Some(IpNet { addr: IpAddr::V6(bits), prefix: 128 }),
        None => match cidr {
            Some(p) => Some(IpNet { addr: addr_from_parts(p.0, p.1), prefix: p.2 }),
            None => None,
        },
    }
}

/// The network that `s` names: a bare address stands for the network of that address alone,
/// anything else is read in CIDR notation.
pub open spec fn parsed_net(s: Seq<char>) -> Option<IpNet> {
    chosen_net(addr_of_text(s), net_of_text(s))
}

/// Picks the network: the bare address goes first, the CIDR reading second.
pub fn choose_net(
    bare: Option<(bool, u128)>,
    cidr: Option<(bool, u128, u8)>,
) -> (r: Option<IpNet>)
    ensures
        r == chosen_net(bare, cidr),
{
    match bare {
        Some((is_v4, bits)) => if is_v4 {
            Some(IpNet { addr: IpAddr::V4(bits as u32), prefix: 32 })
        } else {
            Some(IpNet { addr: IpAddr::V6(bits), prefix: 128 })
        },
        None => match cidr {
            Some((is_v4, bits, prefix)) => if is_v4 {
                Some(IpNet { addr: IpAddr::V4(bits as u32), prefix })
            } else {
                Some(IpNet { addr: IpAddr::V6(bits), prefix })
            },
            None => None,
        },
    }
}

/// Reads a network or a bare address.
pub fn parse_net(s: &str) -> (r: Result<IpNet, NetError>)
    ensures
        match r {
            Ok(net) => parsed_net(s@) == Some(net) && net.wf(),
            Err(e) => parsed_net(s@) is None && e.message@ == s@
                + ": invalid IP address syntax"@,
        },
        forall|n: IpNet| n.wf() && s@ == #[trigger] n.spec_text() ==> parsed_net(s@) == Some(n),
{
    proof {
        assert forall|n: IpNet| n.wf() && s@ == #[trigger] n.spec_text() implies s@.contains('/') by {
            reveal_strlit("/");
            assert(s@[ip_text(n.addr).len() as int] == '/');
        }
    }
    match choose_net(read_addr(s), read_net(s)) {
        Some(net) => Ok(net),
        None => Err(NetError { message: cat2(s, ": invalid IP address syntax") }),
    }
}

// ---------------------------------------------------------------------------
// Laws
// ---------------------------------------------------------------------------

/// A network of full length holds its own address alone, one of length zero every address of its
/// family, and none an address of the other family.
pub proof fn lemma_cover_ends(n: IpNet, ip: IpAddr)
    ensures
        n.prefix == 32 && n.addr is V4 ==> (n.covers(ip) <==> ip == n.addr),
        n.prefix == 128 && n.addr is V6 ==> (n.covers(ip) <==> ip == n.addr),
        n.prefix == 0 ==> (n.covers(ip) <==> (n.addr is V4 <==> ip is V4)),
        n.covers(ip) ==> (n.addr is V4 <==> ip is V4),
        n.wf() ==> n.covers(n.addr),
{
    vstd::arithmetic::power2::lemma2_to64();
    let one = vstd::arithmetic::power2::pow2(0);
    assert(one == 1);
    assert forall|x: nat| #[trigger] (x / one) == x by {}
    if n.prefix == 32 {
        assert((32 - n.prefix) as nat == 0);
    }
    if n.prefix == 128 {
        assert((128 - n.prefix) as nat == 0);
    }
    match ip {
        IpAddr::V4(x) => lemma_below_width(x as nat),
        IpAddr::V6(x) => lemma_below_width(x as nat),
    }
    match n.addr {
        IpAddr::V4(x) => lemma_below_width(x as nat),
        IpAddr::V6(x) => lemma_below_width(x as nat),
    }
}

proof fn lemma_shorter(x: nat, y: nat, a: nat, b: nat)
    requires
        a <= b,
        x / vstd::arithmetic::power2::pow2(a) == y / vstd::arithmetic::power2::pow2(a),
    ensures
        x / vstd::arithmetic::power2::pow2(b) == y / vstd::arithmetic::power2::pow2(b),
{
    let c = (b - a) as nat;
    vstd::arithmetic::power2::lemma_pow2_adds(a, c);
    vstd::arithmetic::power2::lemma_pow2_pos(a);
    vstd::arithmetic::power2::lemma_pow2_pos(c);
    vstd::arithmetic::div_mod::lemma_div_denominator(
        x as int,
        vstd::arithmetic::power2::pow2(a) as int,
        vstd::arithmetic::power2::pow2(c) as int,
    );
    vstd::arithmetic::div_mod::lemma_div_denominator(
        y as int,
        vstd::arithmetic::power2::pow2(a) as int,
        vstd::arithmetic::power2::pow2(c) as int,
    );
}

/// A shorter prefix holds everything that a longer one of the same address holds.
pub proof fn lemma_cover_widens(a: IpAddr, ip: IpAddr, long: u8, short: u8)
    requires
        short <= long,
        (IpNet { addr: a, prefix: long }).covers(ip),
    ensures
        (IpNet { addr: a, prefix: short }).covers(ip),
{
    match (a, ip) {
        (IpAddr::V4(x), IpAddr::V4(y)) => {
            lemma_shorter(x as nat, y as nat, (32 - long) as nat, (32 - short) as nat);
        },
        (IpAddr::V6(x), IpAddr::V6(y)) => {
            lemma_shorter(x as nat, y as nat, (128 - long) as nat, (128 - short) as nat);
        },
        _ => {},
    }
}

/// Networks of three, two and one octets hold the addresses that begin with these.
pub proof fn lemma_cover_octets(x: u32, y: u32)
    ensures
        (IpNet { addr: IpAddr::V4(x), prefix: 24 }).covers(IpAddr::V4(y)) <==> x / 0x100 == y / 0x100,
        (IpNet { addr: IpAddr::V4(x), prefix: 16 }).covers(IpAddr::V4(y)) <==> x / 0x1_0000 == y / 0x1_0000,
        (IpNet { addr: IpAddr::V4(x), prefix: 8 }).covers(IpAddr::V4(y)) <==> x / 0x100_0000 == y / 0x100_0000,
        (IpNet { addr: IpAddr::V4(x), prefix: 31 }).covers(IpAddr::V4(y)) <==> x / 2 == y / 2,
{
    vstd::arithmetic::power2::lemma2_to64();
}

/// A list holds what one of its parts holds.
pub proof fn lemma_any_covers(a: Seq<IpNet>, b: Seq<IpNet>, n: IpNet, ip: IpAddr)
    ensures
        any_covers(a + b, ip) <==> any_covers(a, ip) || any_covers(b, ip),
        any_covers(seq![n], ip) <==> n.covers(ip),
        !any_covers(seq![], ip),
{
    let c = a + b;
    if any_covers(a, ip) {
        let i = choose|i: int| 0 <= i < a.len() && (#[trigger] a[i]).covers(ip);
        assert(c[i].covers(ip));
    }
    if any_covers(b, ip) {
        let i = choose|i: int| 0 <= i < b.len() && (#[trigger] b[i]).covers(ip);
        assert(c[a.len() + i].covers(ip));
    }
    if any_covers(c, ip) {
        let i = choose|i: int| 0 <= i < c.len() && (#[trigger] c[i]).covers(ip);
        if i < a.len() {
            assert(a[i].covers(ip));
        } else {
            assert(b[i - a.len()].covers(ip));
        }
    }
    if n.covers(ip) {
        assert(seq![n][0].covers(ip));
    }
}

/// A bare address names the network that holds it alone.
pub proof fn lemma_bare_address(s: Seq<char>, ip: IpAddr)
    requires
        addr_of_text(s) matches Some(p) && (p.0 ==> p.1 <= u32::MAX),
    ensures
        parsed_net(s) is Some,
        parsed_net(s)->0.covers(ip) <==> parsed_ip(s) == Some(ip),
{
    lemma_cover_ends(parsed_net(s)->0, ip);
}

proof fn lemma_octets(a: u8, b: u8, c: u8, d: u8)
    ensures
        ({
            let x = (a * 0x1000000 + b * 0x10000 + c * 0x100 + d) as u32;
            x / 0x1000000 == a && x / 0x10000 % 256 == b && x / 0x100 % 256 == c && x % 256 == d
        }),
{
}

proof fn lemma_dotted(p: Seq<char>, q: Seq<char>, r: Seq<char>, s: Seq<char>)
    requires
        !p.contains('.'),
        !q.contains('.'),
        !r.contains('.'),
        !s.contains('.'),
    ensures
        crate::text::pieces(p + seq!['.'] + q + seq!['.'] + r + seq!['.'] + s, '.') == seq![p, q, r, s],
{
    let third = r + seq!['.'] + s;
    let second = q + seq!['.'] + third;
    crate::text::lemma_pieces(s, '.', seq![]);
    crate::text::lemma_pieces(r, '.', s);
    crate::text::lemma_pieces(q, '.', third);
    crate::text::lemma_pieces(p, '.', second);
    assert(p + seq!['.'] + q + seq!['.'] + r + seq!['.'] + s =~= p + seq!['.'] + second);
    assert(seq![p] + (seq![q] + (seq![r] + seq![s])) =~= seq![p, q, r, s]);
}

/// The text of an IPv4 address holds its four octets in order, with dots between them.
pub proof fn lemma_four_octets(a: u8, b: u8, c: u8, d: u8)
    ensures
        crate::text::pieces(ipv4_text((a * 0x1000000 + b * 0x10000 + c * 0x100 + d) as u32), '.') == seq![
            num::dec_text(a as nat),
            num::dec_text(b as nat),
            num::dec_text(c as nat),
            num::dec_text(d as nat),
        ],
{
    let x = (a * 0x1000000 + b * 0x10000 + c * 0x100 + d) as u32;
    lemma_octets(a, b, c, d);
    let p = num::dec_text(a as nat);
    let q = num::dec_text(b as nat);
    let r = num::dec_text(c as nat);
    let s = num::dec_text(d as nat);
    num::lemma_dec_without(a as nat, '.');
    num::lemma_dec_without(b as nat, '.');
    num::lemma_dec_without(c as nat, '.');
    num::lemma_dec_without(d as nat, '.');
    lemma_dotted(p, q, r, s);
}

/// A network in CIDR notation keeps its address and the length of its prefix, and what is neither an
/// address nor such a network names none.
pub proof fn lemma_cidr(s: Seq<char>)
    requires
        addr_of_text(s) is None,
    ensures
        net_of_text(s) is None ==> parsed_net(s) is None,
        net_of_text(s) matches Some(p) ==> (parsed_net(s) matches Some(n) && n.prefix == p.2 && (n.addr is V4 <==> p.0)
            && (p.0 && p.1 <= u32::MAX || !p.0 ==> n.addr.spec_key().1 == p.1)),
{
}

} // verus!
