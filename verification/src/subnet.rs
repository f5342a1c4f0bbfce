//! The virtual-network subnet manager's rules.
//!
//! Subnets are allocated from a bounded pool inside 10.0.0.0/8 and
//! bound to loopback aliases or dummy interfaces. Everything decided
//! here — CIDR parsing, validation against the protected ranges, the
//! availability check, slot selection, and the registry — works on
//! plain values; running the platform's interface commands and asking
//! the host for its addresses belong to the surrounding program, which
//! hands the answers in.

use vstd::prelude::*;
use vstd::assert_seqs_equal;
use crate::fs::dec_digits;
use crate::xdr::seq_assoc;

verus! {

/// An IPv4 network: an address and a prefix length.
#[derive(Debug, Clone, Copy, PartialEq, Eq, Structural)]
pub struct Ipv4Cidr {
    pub addr: u32,
    pub prefix: u8,
}

/// The pool every managed subnet must lie in: 10.0.0.0/8.
pub const ALLOWED_ADDR: u32 = 0x0A000000;

pub const ALLOWED_PREFIX: u8 = 8;

/// The loopback range no subnet may overlap: 127.0.0.0/8.
pub const LOOPBACK_ADDR: u32 = 0x7F000000;

pub const LOOPBACK_PREFIX: u8 = 8;

/// The link-local range no subnet may overlap: 169.254.0.0/16.
pub const LINKLOCAL_ADDR: u32 = 0xA9FE0000;

pub const LINKLOCAL_PREFIX: u8 = 16;

/// How many interface slots the allocator probes: aliases or dummy
/// interfaces numbered 0 through 254.
pub const SLOT_LIMIT: usize = 255;

#[derive(Debug, Clone, Copy, PartialEq, Eq, Structural)]
pub enum SubnetError {
    InvalidNetwork,
    AlreadyInUse,
    Exhausted,
    ConfigFailed,
    NotFound,
}

#[derive(Debug, Clone)]
pub struct Subnet {
    pub cidr: String,
    pub interface: String,
    pub network: Ipv4Cidr,
}

#[derive(Debug, Clone)]
pub struct CreateSubnetRequest {
    pub cidr: String,
}

// ---------------------------------------------------------------------------
// Containment and overlap
// ---------------------------------------------------------------------------

pub open spec fn pow2n(n: nat) -> int
    decreases n,
{
    if n == 0 {
        1
    } else {
        2 * pow2n((n - 1) as nat)
    }
}

/// Whether the address lies in the network: both fall in the same
/// aligned block of `2^(32 - prefix)` addresses.
pub open spec fn net_contains(n: Ipv4Cidr, ip: u32) -> bool
    recommends
        n.prefix <= 32,
{
    ip as int / pow2n((32 - n.prefix) as nat) == n.addr as int / pow2n((32 - n.prefix) as nat)
}

/// Two aligned blocks intersect exactly when one contains the other's
/// address, so this is a full-range intersection test.
pub open spec fn nets_overlap(a: Ipv4Cidr, b: Ipv4Cidr) -> bool
    recommends
        a.prefix <= 32,
        b.prefix <= 32,
{
    net_contains(a, b.addr) || net_contains(b, a.addr)
}

/// A network may be managed only if it lies inside 10.0.0.0/8 and
/// touches neither 127.0.0.0/8 nor 169.254.0.0/16.
pub open spec fn spec_validate(n: Ipv4Cidr) -> bool {
    &&& n.prefix <= 32
    &&& n.prefix >= ALLOWED_PREFIX
    &&& net_contains((Ipv4Cidr { addr: ALLOWED_ADDR, prefix: ALLOWED_PREFIX }), n.addr)
    &&& !nets_overlap((Ipv4Cidr { addr: LOOPBACK_ADDR, prefix: LOOPBACK_PREFIX }), n)
    &&& !nets_overlap((Ipv4Cidr { addr: LINKLOCAL_ADDR, prefix: LINKLOCAL_PREFIX }), n)
}

/// `2^(32 - prefix)`, the size of the network's address block.
fn block_size(prefix: u8) -> (r: u64)
    requires
        prefix <= 32,
    ensures
        r as int == pow2n((32 - prefix) as nat),
        r >= 1,
{
    let n: u8 = 32 - prefix;
    let mut r: u64 = 1;
    let mut i: u8 = 0;
    while i < n
        invariant
            i <= n <= 32,
            r as int == pow2n(i as nat),
            r >= 1,
        decreases n - i,
    {
        proof {
            lemma_pow2n_bound(i as nat);
        }
        r = r * 2;
        i = i + 1;
    }
    r
}

proof fn lemma_pow2n_le(a: nat, b: nat)
    requires
        a <= b,
    ensures
        pow2n(a) <= pow2n(b),
    decreases b,
{
    if a < b {
        lemma_pow2n_le(a, (b - 1) as nat);
        lemma_pow2n_pos((b - 1) as nat);
    }
}

proof fn lemma_pow2n_pos(n: nat)
    ensures
        pow2n(n) >= 1,
    decreases n,
{
    if n > 0 {
        lemma_pow2n_pos((n - 1) as nat);
    }
}

proof fn lemma_pow2n_32()
    ensures
        pow2n(32) == 0x100000000,
{
    assert(pow2n(0) == 0x1);
    assert(pow2n(1) == 0x2);
    assert(pow2n(2) == 0x4);
    assert(pow2n(3) == 0x8);
    assert(pow2n(4) == 0x10);
    assert(pow2n(5) == 0x20);
    assert(pow2n(6) == 0x40);
    assert(pow2n(7) == 0x80);
    assert(pow2n(8) == 0x100);
    assert(pow2n(9) == 0x200);
    assert(pow2n(10) == 0x400);
    assert(pow2n(11) == 0x800);
    assert(pow2n(12) == 0x1000);
    assert(pow2n(13) == 0x2000);
    assert(pow2n(14) == 0x4000);
    assert(pow2n(15) == 0x8000);
    assert(pow2n(16) == 0x10000);
    assert(pow2n(17) == 0x20000);
    assert(pow2n(18) == 0x40000);
    assert(pow2n(19) == 0x80000);
    assert(pow2n(20) == 0x100000);
    assert(pow2n(21) == 0x200000);
    assert(pow2n(22) == 0x400000);
    assert(pow2n(23) == 0x800000);
    assert(pow2n(24) == 0x1000000);
    assert(pow2n(25) == 0x2000000);
    assert(pow2n(26) == 0x4000000);
    assert(pow2n(27) == 0x8000000);
    assert(pow2n(28) == 0x10000000);
    assert(pow2n(29) == 0x20000000);
    assert(pow2n(30) == 0x40000000);
    assert(pow2n(31) == 0x80000000);
    assert(pow2n(32) == 0x100000000);
}

proof fn lemma_pow2n_bound(n: nat)
    requires
        n <= 32,
    ensures
        pow2n(n) <= 0x100000000,
{
    lemma_pow2n_le(n, 32);
    lemma_pow2n_32();
}

/// Whether the address lies in the network.
pub fn contains_ip(n: &Ipv4Cidr, ip: u32) -> (r: bool)
    requires
        n.prefix <= 32,
    ensures
        r == net_contains(*n, ip),
{
    let b = block_size(n.prefix);
    (ip as u64) / b == (n.addr as u64) / b
}

/// Checks a network against the pool and the protected ranges.
pub fn validate_network(network: &Ipv4Cidr) -> (r: Result<(), SubnetError>)
    ensures
        r is Ok <==> spec_validate(*network),
        r is Err ==> r matches Err(SubnetError::InvalidNetwork),
{
    if network.prefix > 32 || network.prefix < ALLOWED_PREFIX {
        return Err(SubnetError::InvalidNetwork);
    }
    let allowed = Ipv4Cidr { addr: ALLOWED_ADDR, prefix: ALLOWED_PREFIX };
    let loopback = Ipv4Cidr { addr: LOOPBACK_ADDR, prefix: LOOPBACK_PREFIX };
    let linklocal = Ipv4Cidr { addr: LINKLOCAL_ADDR, prefix: LINKLOCAL_PREFIX };
    if !contains_ip(&allowed, network.addr) {
        return Err(SubnetError::InvalidNetwork);
    }
    if contains_ip(&loopback, network.addr) || contains_ip(network, loopback.addr) {
        return Err(SubnetError::InvalidNetwork);
    }
    if contains_ip(&linklocal, network.addr) || contains_ip(network, linklocal.addr) {
        return Err(SubnetError::InvalidNetwork);
    }
    Ok(())
}

// ---------------------------------------------------------------------------
// Availability and slot allocation
// ---------------------------------------------------------------------------

/// Whether no already-configured host address lies inside the
/// candidate network; the caller supplies the host's IPv4 addresses.
pub fn is_subnet_available(network: &Ipv4Cidr, host_addrs: &Vec<u32>) -> (r: Result<
    bool,
    SubnetError,
>)
    ensures
        r is Ok <==> spec_validate(*network),
        r matches Ok(b) ==> b == (forall|i: int|
            0 <= i < host_addrs@.len() ==> !net_contains(*network, #[trigger] host_addrs@[i])),
        r is Err ==> r matches Err(SubnetError::InvalidNetwork),
{
    match validate_network(network) {
        Err(e) => {
            return Err(e);
        },
        Ok(()) => {},
    }
    let mut i: usize = 0;
    while i < host_addrs.len()
        invariant
            spec_validate(*network),
            i <= host_addrs@.len(),
            forall|j: int| 0 <= j < i ==> !net_contains(*network, #[trigger] host_addrs@[j]),
        decreases host_addrs@.len() - i,
    {
        if contains_ip(network, host_addrs[i]) {
            return Ok(false);
        }
        i = i + 1;
    }
    Ok(true)
}

/// The smallest free interface slot, given which of the 255 probed
/// slots are in use; exhausting the pool is how allocation fails.
pub fn find_free_slot(slot_in_use: &Vec<bool>) -> (r: Option<u8>)
    requires
        slot_in_use@.len() == SLOT_LIMIT,
    ensures
        match r {
            Some(n) => (n as int) < SLOT_LIMIT && !slot_in_use@[n as int] && forall|j: int|
                0 <= j < n as int ==> slot_in_use@[j],
            None => forall|j: int| 0 <= j < SLOT_LIMIT ==> slot_in_use@[j],
        },
{
    let mut i: usize = 0;
    while i < SLOT_LIMIT
        invariant
            slot_in_use@.len() == SLOT_LIMIT,
            i <= SLOT_LIMIT,
            forall|j: int| 0 <= j < i ==> slot_in_use@[j],
        decreases SLOT_LIMIT - i,
    {
        if !slot_in_use[i] {
            return Some(i as u8);
        }
        i = i + 1;
    }
    None
}


// ---------------------------------------------------------------------------
// CIDR text
// ---------------------------------------------------------------------------

pub open spec fn is_digit_char(c: char) -> bool {
    48 <= c as int <= 57
}

pub open spec fn digit_value(c: char) -> int {
    c as int - 48
}

/// The number a digit string denotes, most significant digit first.
pub open spec fn dec_value(s: Seq<char>) -> int
    decreases s.len(),
{
    if s.len() == 0 {
        0
    } else {
        dec_value(s.drop_last()) * 10 + digit_value(s.last())
    }
}

/// A canonical decimal numeral: at least one digit, digits only, and
/// no leading zero.
pub open spec fn is_dec(s: Seq<char>) -> bool {
    &&& s.len() >= 1
    &&& forall|i: int| 0 <= i < s.len() ==> is_digit_char(#[trigger] s[i])
    &&& (s.len() > 1 ==> s[0] != '0')
}

pub open spec fn parse_dec(s: Seq<char>) -> Option<int> {
    if is_dec(s) {
        Some(dec_value(s))
    } else {
        None
    }
}

pub open spec fn pow10n(n: nat) -> int
    decreases n,
{
    if n == 0 {
        1
    } else {
        10 * pow10n((n - 1) as nat)
    }
}

proof fn lemma_dec_lower(s: Seq<char>)
    requires
        s.len() >= 1,
        forall|i: int| 0 <= i < s.len() ==> is_digit_char(#[trigger] s[i]),
        s[0] != '0',
    ensures
        dec_value(s) >= pow10n((s.len() - 1) as nat),
    decreases s.len(),
{
    if s.len() == 1 {
        assert(s.drop_last().len() == 0);
        assert(dec_value(s.drop_last()) == 0);
        assert(s.last() == s[0]);
        assert(digit_value(s[0]) >= 1);
    } else {
        assert(forall|i: int|
            0 <= i < s.drop_last().len() ==> is_digit_char(#[trigger] s.drop_last()[i]));
        assert(s.drop_last()[0] == s[0]);
        lemma_dec_lower(s.drop_last());
        assert(digit_value(s.last()) >= 0);
    }
}

proof fn lemma_dec_upper(s: Seq<char>)
    requires
        forall|i: int| 0 <= i < s.len() ==> is_digit_char(#[trigger] s[i]),
    ensures
        dec_value(s) < pow10n(s.len()),
        dec_value(s) >= 0,
    decreases s.len(),
{
    if s.len() > 0 {
        assert(forall|i: int|
            0 <= i < s.drop_last().len() ==> is_digit_char(#[trigger] s.drop_last()[i]));
        lemma_dec_upper(s.drop_last());
        assert(digit_value(s.last()) <= 9);
    }
}

/// The first position of `c` at or after `from`, or -1.
pub open spec fn find_from(s: Seq<char>, c: char, from: int) -> int
    recommends
        0 <= from,
    decreases s.len() - from,
{
    if from >= s.len() {
        -1
    } else if s[from] == c {
        from
    } else {
        find_from(s, c, from + 1)
    }
}

proof fn lemma_find_advance(s: Seq<char>, c: char, from: int, k: int)
    requires
        0 <= from <= k <= s.len(),
        forall|j: int| from <= j < k ==> s[j] != c,
    ensures
        find_from(s, c, from) == find_from(s, c, k),
    decreases k - from,
{
    if from < k {
        lemma_find_advance(s, c, from + 1, k);
    }
}

fn find_char_from(s: &str, c: char, from: usize) -> (r: Option<usize>)
    requires
        from <= s@.len(),
    ensures
        match r {
            Some(i) => from <= i < s@.len() && find_from(s@, c, from as int) == i as int && s@[
                i as int] == c,
            None => find_from(s@, c, from as int) == -1,
        },
{
    let n = s.unicode_len();
    let mut i: usize = from;
    while i < n
        invariant
            from <= i <= n,
            n == s@.len(),
            forall|j: int| from <= j < i ==> s@[j] != c,
        decreases n - i,
    {
        if s.get_char(i) == c {
            proof {
                lemma_find_advance(s@, c, from as int, i as int);
            }
            return Some(i);
        }
        i = i + 1;
    }
    proof {
        lemma_find_advance(s@, c, from as int, n as int);
    }
    None
}

/// Parses the canonical decimal numeral in `s[from..to]`, refusing
/// values above `max`.
fn parse_dec_part(s: &str, from: usize, to: usize, max: u32) -> (r: Option<u32>)
    requires
        from <= to <= s@.len(),
        max <= 999,
    ensures
        match r {
            Some(v) => v <= max && parse_dec(s@.subrange(from as int, to as int)) == Some(
                v as int,
            ),
            None => parse_dec(s@.subrange(from as int, to as int)) is None || (parse_dec(
                s@.subrange(from as int, to as int),
            ) matches Some(v2) && v2 > max),
        },
{
    let ghost sub = s@.subrange(from as int, to as int);
    let len = to - from;
    if len == 0 {
        return None;
    }
    if len > 3 {
        proof {
            if is_dec(sub) {
                lemma_dec_lower(sub);
                lemma_pow10n_le(3, (sub.len() - 1) as nat);
                assert(pow10n(0) == 1);
                assert(pow10n(1) == 10);
                assert(pow10n(2) == 100);
                assert(pow10n(3) == 1000);
            }
        }
        return None;
    }
    if len > 1 && s.get_char(from) == '0' {
        proof {
            assert(sub[0] == '0');
        }
        return None;
    }
    let mut acc: u32 = 0;
    let mut i: usize = 0;
    while i < len
        invariant
            from <= to <= s@.len(),
            len == to - from,
            len <= 3,
            i <= len,
            sub == s@.subrange(from as int, to as int),
            forall|j: int| 0 <= j < i ==> is_digit_char(#[trigger] sub[j]),
            acc as int == dec_value(sub.take(i as int)),
            acc <= 999,
        decreases len - i,
    {
        let c = s.get_char(from + i);
        proof {
            assert(sub[i as int] == c);
        }
        let cu = c as u32;
        if !(48 <= cu && cu <= 57) {
            proof {
                assert(!is_digit_char(sub[i as int]));
            }
            return None;
        }
        let d: u32 = cu - 48;
        proof {
            assert(forall|j: int| 0 <= j < i + 1 ==> is_digit_char(#[trigger] sub[j]));
            assert(sub.take(i as int + 1).drop_last() =~= sub.take(i as int));
            assert(sub.take(i as int + 1).last() == sub[i as int]);
            assert(forall|j: int|
                0 <= j < sub.take(i as int).len() ==> is_digit_char(
                    #[trigger] sub.take(i as int)[j],
                ));
            lemma_dec_upper(sub.take(i as int));
            assert(pow10n(0) == 1);
            assert(pow10n(1) == 10);
            assert(pow10n(2) == 100);
        }
        acc = acc * 10 + d;
        i = i + 1;
    }
    proof {
        assert(sub.take(len as int) =~= sub);
    }
    if acc <= max {
        Some(acc)
    } else {
        None
    }
}

proof fn lemma_pow10n_le(a: nat, b: nat)
    requires
        a <= b,
    ensures
        pow10n(a) <= pow10n(b),
    decreases b,
{
    if a < b {
        lemma_pow10n_le(a, (b - 1) as nat);
        lemma_pow10n_pos((b - 1) as nat);
    }
}

proof fn lemma_pow10n_pos(n: nat)
    ensures
        pow10n(n) >= 1,
    decreases n,
{
    if n > 0 {
        lemma_pow10n_pos((n - 1) as nat);
    }
}

proof fn lemma_pow10n_small(n: nat)
    requires
        n <= 3,
    ensures
        pow10n(n) <= 1000,
{
    assert(pow10n(0) == 1);
    assert(pow10n(1) == 10);
    assert(pow10n(2) == 100);
    assert(pow10n(3) == 1000);
}

/// What a CIDR string denotes: four canonical decimal quad parts of at
/// most 255 joined by dots, a slash, and a prefix length of at most 32.
pub open spec fn spec_parse_cidr(s: Seq<char>) -> Option<Ipv4Cidr> {
    let i1 = find_from(s, '.', 0);
    let i2 = find_from(s, '.', i1 + 1);
    let i3 = find_from(s, '.', i2 + 1);
    let i4 = find_from(s, '/', i3 + 1);
    if i1 < 0 || i2 < 0 || i3 < 0 || i4 < 0 {
        None
    } else {
        let a = parse_dec(s.subrange(0, i1));
        let b = parse_dec(s.subrange(i1 + 1, i2));
        let c = parse_dec(s.subrange(i2 + 1, i3));
        let d = parse_dec(s.subrange(i3 + 1, i4));
        let p = parse_dec(s.subrange(i4 + 1, s.len() as int));
        match (a, b, c, d, p) {
            (Some(a), Some(b), Some(c), Some(d), Some(p)) => {
                if a <= 255 && b <= 255 && c <= 255 && d <= 255 && p <= 32 {
                    Some(
                        (Ipv4Cidr {
                            addr: (a * 0x1000000 + b * 0x10000 + c * 0x100 + d) as u32,
                            prefix: p as u8,
                        }),
                    )
                } else {
                    None
                }
            },
            _ => None,
        }
    }
}

/// Parses a CIDR string; the result is exactly what the string
/// denotes, or nothing if it denotes no network.
pub fn parse_cidr(s: &str) -> (r: Option<Ipv4Cidr>)
    ensures
        r == spec_parse_cidr(s@),
{
    let n = s.unicode_len();
    let i1 = match find_char_from(s, '.', 0) {
        None => {
            return None;
        },
        Some(i) => i,
    };
    let i2 = match find_char_from(s, '.', i1 + 1) {
        None => {
            return None;
        },
        Some(i) => i,
    };
    let i3 = match find_char_from(s, '.', i2 + 1) {
        None => {
            return None;
        },
        Some(i) => i,
    };
    let i4 = match find_char_from(s, '/', i3 + 1) {
        None => {
            return None;
        },
        Some(i) => i,
    };
    let a = match parse_dec_part(s, 0, i1, 255) {
        None => {
            return None;
        },
        Some(v) => v,
    };
    let b = match parse_dec_part(s, i1 + 1, i2, 255) {
        None => {
            return None;
        },
        Some(v) => v,
    };
    let c = match parse_dec_part(s, i2 + 1, i3, 255) {
        None => {
            return None;
        },
        Some(v) => v,
    };
    let d = match parse_dec_part(s, i3 + 1, i4, 255) {
        None => {
            return None;
        },
        Some(v) => v,
    };
    let p = match parse_dec_part(s, i4 + 1, n, 32) {
        None => {
            return None;
        },
        Some(v) => v,
    };
    Some(Ipv4Cidr { addr: a * 0x1000000 + b * 0x10000 + c * 0x100 + d, prefix: p as u8 })
}


// ---------------------------------------------------------------------------
// Interface names
// ---------------------------------------------------------------------------

/// The name of the `N`-th dummy interface: `dummyN`.
pub open spec fn iface_dummy(n: int) -> Seq<char> {
    seq!['d', 'u', 'm', 'm', 'y'] + dec_digits(n)
}

/// The name of the `N`-th loopback alias: `lo0:N`.
pub open spec fn iface_alias(n: int) -> Seq<char> {
    seq!['l', 'o', '0', ':'] + dec_digits(n)
}

fn dummy_name(n: u8) -> (r: String)
    ensures
        r@ == iface_dummy(n as int),
{
    let mut s = String::from_str("dummy");
    proof {
        reveal_strlit("dummy");
        assert_seqs_equal!(s@ == seq!['d', 'u', 'm', 'm', 'y']);
    }
    let num = crate::fs::u32_to_decimal(n as u32);
    s.append(num.as_str());
    s
}

fn alias_name(n: u8) -> (r: String)
    ensures
        r@ == iface_alias(n as int),
{
    let mut s = String::from_str("lo0:");
    proof {
        reveal_strlit("lo0:");
        assert_seqs_equal!(s@ == seq!['l', 'o', '0', ':']);
    }
    let num = crate::fs::u32_to_decimal(n as u32);
    s.append(num.as_str());
    s
}

// ---------------------------------------------------------------------------
// Allocation
// ---------------------------------------------------------------------------

/// What must hold for `configure_subnet` to succeed on these inputs:
/// the string denotes a network, the network is managed and free, and
/// a slot is open.
pub open spec fn spec_configure_viable(
    cidr: Seq<char>,
    host_addrs: Seq<u32>,
    slot_in_use: Seq<bool>,
) -> bool {
    match spec_parse_cidr(cidr) {
        None => false,
        Some(n) => {
            &&& spec_validate(n)
            &&& forall|i: int| 0 <= i < host_addrs.len() ==> !net_contains(
                n,
                #[trigger] host_addrs[i],
            )
            &&& exists|j: int| 0 <= j < SLOT_LIMIT && !(#[trigger] slot_in_use[j])
        },
    }
}

/// The network and slot a creation request receives, or the exact
/// reason it is refused. The caller supplies the host's addresses and
/// which interface slots are occupied; installing the interface is the
/// surrounding program's work.
pub fn plan_subnet(cidr: &String, host_addrs: &Vec<u32>, slot_in_use: &Vec<bool>) -> (r: Result<
    (Ipv4Cidr, u8),
    SubnetError,
>)
    requires
        slot_in_use@.len() == SLOT_LIMIT,
    ensures
        r is Ok <==> spec_configure_viable(cidr@, host_addrs@, slot_in_use@),
        r matches Ok((n, slot)) ==> {
            &&& spec_parse_cidr(cidr@) == Some(n)
            &&& spec_validate(n)
            &&& (slot as int) < SLOT_LIMIT
            &&& !slot_in_use@[slot as int]
            &&& forall|j: int| 0 <= j < slot as int ==> slot_in_use@[j]
        },
        r matches Err(e) ==> match spec_parse_cidr(cidr@) {
            None => e matches SubnetError::InvalidNetwork,
            Some(n) => {
                if !spec_validate(n) {
                    e matches SubnetError::InvalidNetwork
                } else if exists|i: int|
                    0 <= i < host_addrs@.len() && net_contains(n, #[trigger] host_addrs@[i]) {
                    e matches SubnetError::AlreadyInUse
                } else {
                    e matches SubnetError::Exhausted && forall|j: int|
                        0 <= j < SLOT_LIMIT ==> slot_in_use@[j]
                }
            },
        },
{
    let network = match parse_cidr(cidr.as_str()) {
        None => {
            return Err(SubnetError::InvalidNetwork);
        },
        Some(n) => n,
    };
    let available = match is_subnet_available(&network, host_addrs) {
        Err(e) => {
            return Err(e);
        },
        Ok(b) => b,
    };
    if !available {
        return Err(SubnetError::AlreadyInUse);
    }
    match find_free_slot(slot_in_use) {
        None => Err(SubnetError::Exhausted),
        Some(slot) => Ok((network, slot)),
    }
}

/// Plans a creation request and names the dummy interface that will
/// carry it, as the Linux-family platform binds subnets.
pub fn configure_subnet(cidr: String, host_addrs: &Vec<u32>, slot_in_use: &Vec<bool>) -> (r:
    Result<Subnet, SubnetError>)
    requires
        slot_in_use@.len() == SLOT_LIMIT,
    ensures
        r is Ok <==> spec_configure_viable(cidr@, host_addrs@, slot_in_use@),
        r matches Ok(s) ==> {
            &&& s.cidr@ == cidr@
            &&& spec_parse_cidr(cidr@) == Some(s.network)
            &&& spec_validate(s.network)
            &&& exists|n: int|
                0 <= n < SLOT_LIMIT && s.interface@ == #[trigger] iface_dummy(n)
                    && !slot_in_use@[n] && (forall|j: int| 0 <= j < n ==> slot_in_use@[j])
        },
        r matches Err(e) ==> match spec_parse_cidr(cidr@) {
            None => e matches SubnetError::InvalidNetwork,
            Some(n) => {
                if !spec_validate(n) {
                    e matches SubnetError::InvalidNetwork
                } else if exists|i: int|
                    0 <= i < host_addrs@.len() && net_contains(n, #[trigger] host_addrs@[i]) {
                    e matches SubnetError::AlreadyInUse
                } else {
                    e matches SubnetError::Exhausted && forall|j: int|
                        0 <= j < SLOT_LIMIT ==> slot_in_use@[j]
                }
            },
        },
{
    match plan_subnet(&cidr, host_addrs, slot_in_use) {
        Err(e) => Err(e),
        Ok((network, slot)) => {
            let interface = dummy_name(slot);
            proof {
                assert((slot as int) < SLOT_LIMIT && interface@ == iface_dummy(slot as int)
                    && !slot_in_use@[slot as int] && (forall|j: int|
                    0 <= j < slot as int ==> slot_in_use@[j]));
            }
            Ok(Subnet { cidr, interface, network })
        },
    }
}

/// Plans a creation request and names the loopback alias that will
/// carry it, as the BSD-family platform binds subnets.
pub fn configure_subnet_bsd(cidr: String, host_addrs: &Vec<u32>, slot_in_use: &Vec<bool>) -> (r:
    Result<Subnet, SubnetError>)
    requires
        slot_in_use@.len() == SLOT_LIMIT,
    ensures
        r is Ok <==> spec_configure_viable(cidr@, host_addrs@, slot_in_use@),
        r matches Ok(s) ==> {
            &&& s.cidr@ == cidr@
            &&& spec_parse_cidr(cidr@) == Some(s.network)
            &&& spec_validate(s.network)
            &&& exists|n: int|
                0 <= n < SLOT_LIMIT && s.interface@ == #[trigger] iface_alias(n)
                    && !slot_in_use@[n] && (forall|j: int| 0 <= j < n ==> slot_in_use@[j])
        },
        r matches Err(e) ==> match spec_parse_cidr(cidr@) {
            None => e matches SubnetError::InvalidNetwork,
            Some(n) => {
                if !spec_validate(n) {
                    e matches SubnetError::InvalidNetwork
                } else if exists|i: int|
                    0 <= i < host_addrs@.len() && net_contains(n, #[trigger] host_addrs@[i]) {
                    e matches SubnetError::AlreadyInUse
                } else {
                    e matches SubnetError::Exhausted && forall|j: int|
                        0 <= j < SLOT_LIMIT ==> slot_in_use@[j]
                }
            },
        },
{
    match plan_subnet(&cidr, host_addrs, slot_in_use) {
        Err(e) => Err(e),
        Ok((network, slot)) => {
            let interface = alias_name(slot);
            proof {
                assert((slot as int) < SLOT_LIMIT && interface@ == iface_alias(slot as int)
                    && !slot_in_use@[slot as int] && (forall|j: int|
                    0 <= j < slot as int ==> slot_in_use@[j]));
            }
            Ok(Subnet { cidr, interface, network })
        },
    }
}

/// The validation gate re-applied before a registered subnet is torn
/// down — a defense against a corrupted table; on approval the
/// surrounding program runs the platform's removal commands.
pub fn remove_subnet(subnet: &Subnet) -> (r: Result<(), SubnetError>)
    ensures
        r is Ok <==> spec_validate(subnet.network),
        r is Err ==> r matches Err(SubnetError::InvalidNetwork),
{
    validate_network(&subnet.network)
}

// ---------------------------------------------------------------------------
// The registry
// ---------------------------------------------------------------------------

/// The live subnets, keyed by their CIDR strings.
pub struct SubnetRegistry {
    pub entries: Vec<Subnet>,
}

impl SubnetRegistry {
    /// Every registered subnet passed validation — it lies inside
    /// 10.0.0.0/8 and overlaps no protected range — and no CIDR
    /// appears twice.
    pub open spec fn wf(&self) -> bool {
        &&& forall|i: int|
            0 <= i < self.entries@.len() ==> spec_validate((#[trigger] self.entries@[i]).network)
        &&& forall|i: int, j: int|
            0 <= i < j < self.entries@.len() ==> (#[trigger] self.entries@[i]).cidr@ != (
            #[trigger] self.entries@[j]).cidr@
    }

    pub fn new() -> (r: SubnetRegistry)
        ensures
            r.wf(),
            r.entries@.len() == 0,
    {
        SubnetRegistry { entries: Vec::new() }
    }

    fn find(&self, cidr: &String) -> (r: Option<usize>)
        ensures
            match r {
                Some(i) => i < self.entries@.len() && self.entries@[i as int].cidr@ == cidr@,
                None => forall|i: int|
                    0 <= i < self.entries@.len() ==> (#[trigger] self.entries@[i]).cidr@ != cidr@,
            },
    {
        let mut i: usize = 0;
        while i < self.entries.len()
            invariant
                i <= self.entries@.len(),
                forall|j: int| 0 <= j < i ==> (#[trigger] self.entries@[j]).cidr@ != cidr@,
            decreases self.entries@.len() - i,
        {
            if self.entries[i].cidr.eq(cidr) {
                return Some(i);
            }
            i = i + 1;
        }
        None
    }

    pub fn contains(&self, cidr: &String) -> (r: bool)
        ensures
            r == exists|i: int|
                0 <= i < self.entries@.len() && (#[trigger] self.entries@[i]).cidr@ == cidr@,
    {
        self.find(cidr).is_some()
    }

    /// Registers a subnet; refuses one that fails validation or whose
    /// CIDR is already registered.
    pub fn insert(&mut self, s: Subnet) -> (r: Result<(), SubnetError>)
        requires
            old(self).wf(),
        ensures
            final(self).wf(),
            r is Ok <==> spec_validate(s.network) && !(exists|i: int|
                0 <= i < old(self).entries@.len() && (#[trigger] old(self).entries@[i]).cidr@
                    == s.cidr@),
            r is Ok ==> final(self).entries@.len() == old(self).entries@.len() + 1 && final(self).entries@.last() == s && final(self).entries@.drop_last() == old(self).entries@,
            r is Err ==> *final(self) == *old(self) && (r matches Err(
                SubnetError::InvalidNetwork,
            ) ==> !spec_validate(s.network)) && (r matches Err(SubnetError::AlreadyInUse)
                ==> exists|i: int|
                0 <= i < old(self).entries@.len() && (#[trigger] old(self).entries@[i]).cidr@
                    == s.cidr@),
    {
        match validate_network(&s.network) {
            Err(_) => {
                return Err(SubnetError::InvalidNetwork);
            },
            Ok(()) => {},
        }
        if self.contains(&s.cidr) {
            return Err(SubnetError::AlreadyInUse);
        }
        self.entries.push(s);
        proof {
            assert(final(self).entries@.drop_last() =~= old(self).entries@);
            assert(forall|i: int|
                0 <= i < old(self).entries@.len() ==> (#[trigger] self.entries@[i]) == old(self).entries@[i]);
        }
        Ok(())
    }

    /// Unregisters and returns the subnet with this CIDR, so the
    /// caller can tear its interface down.
    pub fn remove(&mut self, cidr: &String) -> (r: Result<Subnet, SubnetError>)
        requires
            old(self).wf(),
        ensures
            final(self).wf(),
            r is Ok <==> exists|i: int|
                0 <= i < old(self).entries@.len() && (#[trigger] old(self).entries@[i]).cidr@
                    == cidr@,
            r matches Ok(s) ==> s.cidr@ == cidr@ && spec_validate(s.network) && final(self).entries@.len() + 1 == old(self).entries@.len() && !(exists|i: int|
                0 <= i < final(self).entries@.len() && (#[trigger] final(self).entries@[i]).cidr@
                    == cidr@),
            r is Err ==> *final(self) == *old(self) && r matches Err(SubnetError::NotFound),
    {
        let i = match self.find(cidr) {
            None => {
                return Err(SubnetError::NotFound);
            },
            Some(i) => i,
        };
        let s = self.entries.remove(i);
        proof {
            assert(forall|j: int|
                0 <= j < self.entries@.len() ==> (#[trigger] self.entries@[j]) == (if j < i {
                    old(self).entries@[j]
                } else {
                    old(self).entries@[j + 1]
                }));
        }
        Ok(s)
    }

    /// How many subnets are registered.
    pub fn len(&self) -> (r: usize)
        ensures
            r == self.entries@.len(),
    {
        self.entries.len()
    }
}

/// Every subnet the registry holds lies inside 10.0.0.0/8 and
/// overlaps neither 127.0.0.0/8 nor 169.254.0.0/16.
pub proof fn lemma_registry_confined(reg: &SubnetRegistry, i: int)
    requires
        reg.wf(),
        0 <= i < reg.entries@.len(),
    ensures
        spec_validate(reg.entries@[i].network),
        net_contains(
            (Ipv4Cidr { addr: ALLOWED_ADDR, prefix: ALLOWED_PREFIX }),
            reg.entries@[i].network.addr,
        ),
        !nets_overlap(
            (Ipv4Cidr { addr: LOOPBACK_ADDR, prefix: LOOPBACK_PREFIX }),
            reg.entries@[i].network,
        ),
        !nets_overlap(
            (Ipv4Cidr { addr: LINKLOCAL_ADDR, prefix: LINKLOCAL_PREFIX }),
            reg.entries@[i].network,
        ),
{
}

// ---------------------------------------------------------------------------
// Free /24 blocks for point-to-point devices
// ---------------------------------------------------------------------------

/// The `10.i.0.0/24` block, as the device allocator probes them.
pub open spec fn probe_block(i: int) -> Ipv4Cidr {
    Ipv4Cidr { addr: (0x0A000000 + i * 0x10000) as u32, prefix: 24 }
}

pub open spec fn block_free(i: int, host_addrs: Seq<u32>) -> bool {
    forall|k: int| 0 <= k < host_addrs.len() ==> !net_contains(
        probe_block(i),
        #[trigger] host_addrs[k],
    )
}

/// The first block `10.i.0.0/24` with `i` in 0..=255 that no host
/// address occupies: its first host address, netmask, and broadcast
/// address, or nothing when every block is taken.
pub fn find_available_subnet(host_addrs: &Vec<u32>) -> (r: Option<(u32, u32, u32)>)
    ensures
        match r {
            Some((ip, mask, bcast)) => exists|i: int|
                {
                    &&& 0 <= i <= 255
                    &&& ip == 0x0A000001 + i * 0x10000
                    &&& mask == 0xFFFFFF00u32
                    &&& bcast == 0x0A0000FF + i * 0x10000
                    &&& #[trigger] block_free(i, host_addrs@)
                    &&& forall|j: int| 0 <= j < i ==> !block_free(j, host_addrs@)
                },
            None => forall|i: int| 0 <= i <= 255 ==> !block_free(i, host_addrs@),
        },
{
    let mut i: u32 = 0;
    while i <= 255
        invariant
            i <= 256,
            forall|j: int| 0 <= j < i ==> !block_free(j, host_addrs@),
        decreases 256 - i,
    {
        let net = Ipv4Cidr { addr: 0x0A000000 + i * 0x10000, prefix: 24 };
        let mut in_use = false;
        let mut k: usize = 0;
        while k < host_addrs.len()
            invariant
                i <= 255,
                net == probe_block(i as int),
                k <= host_addrs@.len(),
                in_use ==> exists|m: int|
                    0 <= m < host_addrs@.len() && net_contains(
                        probe_block(i as int),
                        #[trigger] host_addrs@[m],
                    ),
                !in_use ==> forall|m: int|
                    0 <= m < k ==> !net_contains(probe_block(i as int), #[trigger] host_addrs@[m]),
            decreases host_addrs@.len() - k,
        {
            if contains_ip(&net, host_addrs[k]) {
                in_use = true;
                k = host_addrs.len();
            } else {
                k = k + 1;
            }
        }
        if !in_use {
            proof {
                assert(block_free(i as int, host_addrs@));
            }
            return Some((0x0A000001 + i * 0x10000, 0xFFFFFF00u32, 0x0A0000FF + i * 0x10000));
        }
        i = i + 1;
    }
    None
}


// ---------------------------------------------------------------------------
// Detection: reading the host's interface listing
// ---------------------------------------------------------------------------

pub open spec fn is_space_char(c: char) -> bool {
    c == ' ' || c == '\t'
}

/// The first non-blank position at or after `from`.
pub open spec fn skip_spaces(s: Seq<char>, from: int) -> int
    recommends
        0 <= from <= s.len(),
    decreases s.len() - from,
{
    if from >= s.len() {
        s.len() as int
    } else if is_space_char(s[from]) {
        skip_spaces(s, from + 1)
    } else {
        from
    }
}

/// The first blank position at or after `from`.
pub open spec fn token_end(s: Seq<char>, from: int) -> int
    recommends
        0 <= from <= s.len(),
    decreases s.len() - from,
{
    if from >= s.len() {
        s.len() as int
    } else if !is_space_char(s[from]) {
        token_end(s, from + 1)
    } else {
        from
    }
}

/// The bounds of the line's second blank-separated token.
pub open spec fn token1_range(s: Seq<char>) -> (int, int) {
    let a0 = skip_spaces(s, 0);
    let e0 = token_end(s, a0);
    let a1 = skip_spaces(s, e0);
    let e1 = token_end(s, a1);
    (a1, e1)
}

pub open spec fn dummy_chars() -> Seq<char> {
    seq!['d', 'u', 'm', 'm', 'y']
}

pub open spec fn inet_chars() -> Seq<char> {
    seq!['i', 'n', 'e', 't', ' ']
}

/// Whether the line names a dummy interface anywhere.
pub open spec fn line_has_dummy(s: Seq<char>) -> bool {
    exists|i: int| 0 <= i && i + 5 <= s.len() && #[trigger] s.subrange(i, i + 5) == dummy_chars()
}

/// Whether the line, ignoring leading blanks, is an address line.
pub open spec fn line_is_inet(s: Seq<char>) -> bool {
    let t = skip_spaces(s, 0);
    t + 5 <= s.len() && s.subrange(t, t + 5) == inet_chars()
}

/// An interface token with a trailing colon dropped, as the listing
/// writes interface names.
pub open spec fn trim_colon(t: Seq<char>) -> Seq<char> {
    if t.len() > 0 && t.last() == ':' {
        t.drop_last()
    } else {
        t
    }
}

/// The subnets an interface listing shows: for each address line under
/// a dummy interface, the CIDR token, the interface's name, and the
/// network it denotes — kept only when the network lies in the pool.
pub open spec fn spec_detect(lines: Seq<Seq<char>>, cur: Option<Seq<char>>) -> Seq<
    (Seq<char>, Seq<char>, Ipv4Cidr),
>
    decreases lines.len(),
{
    if lines.len() == 0 {
        Seq::<(Seq<char>, Seq<char>, Ipv4Cidr)>::empty()
    } else {
        let l = lines[0];
        let rest = lines.drop_first();
        if line_has_dummy(l) {
            let t = token1_range(l);
            if t.0 < l.len() {
                spec_detect(rest, Some(trim_colon(l.subrange(t.0, t.1))))
            } else {
                spec_detect(rest, cur)
            }
        } else if line_is_inet(l) {
            match cur {
                None => spec_detect(rest, cur),
                Some(name) => {
                    let t = token1_range(l);
                    if t.0 < l.len() {
                        let tok = l.subrange(t.0, t.1);
                        match spec_parse_cidr(tok) {
                            Some(n) => {
                                if net_contains(
                                    (Ipv4Cidr { addr: ALLOWED_ADDR, prefix: ALLOWED_PREFIX }),
                                    n.addr,
                                ) {
                                    seq![(tok, name, n)] + spec_detect(rest, cur)
                                } else {
                                    spec_detect(rest, cur)
                                }
                            },
                            None => spec_detect(rest, cur),
                        }
                    } else {
                        spec_detect(rest, cur)
                    }
                },
            }
        } else {
            spec_detect(rest, cur)
        }
    }
}

spec fn opt_str_view(o: Option<String>) -> Option<Seq<char>> {
    match o {
        Some(s) => Some(s@),
        None => None,
    }
}

pub open spec fn subnets_view(v: Seq<Subnet>) -> Seq<(Seq<char>, Seq<char>, Ipv4Cidr)> {
    Seq::new(v.len(), |k: int| (v[k].cidr@, v[k].interface@, v[k].network))
}

proof fn lemma_skip_spaces_advance(s: Seq<char>, from: int, k: int)
    requires
        0 <= from <= k <= s.len(),
        forall|j: int| from <= j < k ==> is_space_char(s[j]),
    ensures
        skip_spaces(s, from) == skip_spaces(s, k),
    decreases k - from,
{
    if from < k {
        lemma_skip_spaces_advance(s, from + 1, k);
    }
}

proof fn lemma_token_end_advance(s: Seq<char>, from: int, k: int)
    requires
        0 <= from <= k <= s.len(),
        forall|j: int| from <= j < k ==> !is_space_char(s[j]),
    ensures
        token_end(s, from) == token_end(s, k),
    decreases k - from,
{
    if from < k {
        lemma_token_end_advance(s, from + 1, k);
    }
}

fn skip_spaces_exec(s: &str, from: usize, n: usize) -> (r: usize)
    requires
        n == s@.len(),
        from <= n,
    ensures
        r as int == skip_spaces(s@, from as int),
        from <= r <= n,
{
    let mut i: usize = from;
    while i < n
        invariant
            from <= i <= n,
            n == s@.len(),
            forall|j: int| from <= j < i ==> is_space_char(s@[j]),
        decreases n - i,
    {
        let c = s.get_char(i);
        if !(c == ' ' || c == '\t') {
            proof {
                lemma_skip_spaces_advance(s@, from as int, i as int);
            }
            return i;
        }
        i = i + 1;
    }
    proof {
        lemma_skip_spaces_advance(s@, from as int, n as int);
    }
    n
}

fn token_end_exec(s: &str, from: usize, n: usize) -> (r: usize)
    requires
        n == s@.len(),
        from <= n,
    ensures
        r as int == token_end(s@, from as int),
        from <= r <= n,
{
    let mut i: usize = from;
    while i < n
        invariant
            from <= i <= n,
            n == s@.len(),
            forall|j: int| from <= j < i ==> !is_space_char(s@[j]),
        decreases n - i,
    {
        let c = s.get_char(i);
        if c == ' ' || c == '\t' {
            proof {
                lemma_token_end_advance(s@, from as int, i as int);
            }
            return i;
        }
        i = i + 1;
    }
    proof {
        lemma_token_end_advance(s@, from as int, n as int);
    }
    n
}

/// The line's second blank-separated token, if it has one.
fn second_token(s: &str) -> (r: Option<String>)
    ensures
        ({
            let t = token1_range(s@);
            match r {
                Some(tok) => t.0 < s@.len() && tok@ == s@.subrange(t.0, t.1),
                None => t.0 >= s@.len(),
            }
        }),
{
    let n = s.unicode_len();
    let a0 = skip_spaces_exec(s, 0, n);
    let e0 = token_end_exec(s, a0, n);
    let a1 = skip_spaces_exec(s, e0, n);
    let e1 = token_end_exec(s, a1, n);
    if a1 < n {
        Some(s.substring_char(a1, e1).to_owned())
    } else {
        None
    }
}

fn has_dummy_exec(s: &str) -> (r: bool)
    ensures
        r == line_has_dummy(s@),
{
    let n = s.unicode_len();
    if n < 5 {
        proof {
            assert(!line_has_dummy(s@)) by {
                if line_has_dummy(s@) {
                    let i = choose|i: int|
                        0 <= i && i + 5 <= s@.len() && #[trigger] s@.subrange(i, i + 5) == dummy_chars();
                }
            }
        }
        return false;
    }
    let mut i: usize = 0;
    while i <= n - 5
        invariant
            5 <= n == s@.len(),
            i <= n - 4,
            forall|j: int| 0 <= j < i ==> #[trigger] s@.subrange(j, j + 5) != dummy_chars(),
        decreases n - i,
    {
        if s.get_char(i) == 'd' && s.get_char(i + 1) == 'u' && s.get_char(i + 2) == 'm'
            && s.get_char(i + 3) == 'm' && s.get_char(i + 4) == 'y' {
            proof {
                assert(s@.subrange(i as int, i as int + 5) =~= dummy_chars());
            }
            return true;
        }
        proof {
            assert(s@.subrange(i as int, i as int + 5) != dummy_chars()) by {
                assert(s@.subrange(i as int, i as int + 5)[0] == s@[i as int]);
                assert(s@.subrange(i as int, i as int + 5)[1] == s@[i as int + 1]);
                assert(s@.subrange(i as int, i as int + 5)[2] == s@[i as int + 2]);
                assert(s@.subrange(i as int, i as int + 5)[3] == s@[i as int + 3]);
                assert(s@.subrange(i as int, i as int + 5)[4] == s@[i as int + 4]);
            }
        }
        i = i + 1;
    }
    proof {
        assert(!line_has_dummy(s@)) by {
            if line_has_dummy(s@) {
                let j = choose|j: int|
                    0 <= j && j + 5 <= s@.len() && #[trigger] s@.subrange(j, j + 5) == dummy_chars();
                assert(j < i);
            }
        }
    }
    false
}

fn is_inet_exec(s: &str) -> (r: bool)
    ensures
        r == line_is_inet(s@),
{
    let n = s.unicode_len();
    let t = skip_spaces_exec(s, 0, n);
    if n - t < 5 {
        return false;
    }
    let r = s.get_char(t) == 'i' && s.get_char(t + 1) == 'n' && s.get_char(t + 2) == 'e'
        && s.get_char(t + 3) == 't' && s.get_char(t + 4) == ' ';
    proof {
        if r {
            assert(s@.subrange(t as int, t as int + 5) =~= inet_chars());
        } else {
            assert(s@.subrange(t as int, t as int + 5) != inet_chars()) by {
                assert(s@.subrange(t as int, t as int + 5)[0] == s@[t as int]);
                assert(s@.subrange(t as int, t as int + 5)[1] == s@[t as int + 1]);
                assert(s@.subrange(t as int, t as int + 5)[2] == s@[t as int + 2]);
                assert(s@.subrange(t as int, t as int + 5)[3] == s@[t as int + 3]);
                assert(s@.subrange(t as int, t as int + 5)[4] == s@[t as int + 4]);
            }
        }
    }
    r
}

fn trim_colon_exec(t: &String) -> (r: String)
    ensures
        r@ == trim_colon(t@),
{
    let st = t.as_str();
    let n = st.unicode_len();
    if n > 0 && st.get_char(n - 1) == ':' {
        let r = st.substring_char(0, n - 1).to_owned();
        proof {
            assert(r@ =~= t@.drop_last());
        }
        r
    } else {
        t.clone()
    }
}

/// Scans the lines of the host's interface listing: under each dummy
/// interface, every address line whose CIDR lies in the pool yields a
/// subnet record carrying that CIDR, the interface's name, and the
/// network.
pub fn detect_existing_subnets(lines: &Vec<String>) -> (r: Vec<Subnet>)
    ensures
        subnets_view(r@) == spec_detect(lines.deep_view(), None),
{
    let ghost big = lines.deep_view();
    let mut acc: Vec<Subnet> = Vec::new();
    let mut cur: Option<String> = None;
    let mut i: usize = 0;
    proof {
        assert(big.skip(0) =~= big);
        assert(subnets_view(acc@) =~= Seq::<(Seq<char>, Seq<char>, Ipv4Cidr)>::empty());
        assert(subnets_view(acc@) + spec_detect(big, None) =~= spec_detect(big, None));
    }
    while i < lines.len()
        invariant
            big == lines.deep_view(),
            big.len() == lines@.len(),
            i <= lines@.len(),
            spec_detect(big, None) == subnets_view(acc@) + spec_detect(
                big.skip(i as int),
                opt_str_view(cur),
            ),
        decreases lines@.len() - i,
    {
        let ghost pre = spec_detect(big.skip(i as int), opt_str_view(cur));
        let ghost l = big[i as int];
        proof {
            assert(big.skip(i as int)[0] == l);
            assert(big.skip(i as int).drop_first() =~= big.skip(i as int + 1));
            assert(l == lines@[i as int]@);
        }
        let line = &lines[i];
        if has_dummy_exec(line.as_str()) {
            match second_token(line.as_str()) {
                Some(tok) => {
                    cur = Some(trim_colon_exec(&tok));
                },
                None => {},
            }
        } else if is_inet_exec(line.as_str()) {
            let keep: Option<(String, Ipv4Cidr)> = match &cur {
                None => None,
                Some(_) => match second_token(line.as_str()) {
                    None => None,
                    Some(tok) => {
                        let allowed = Ipv4Cidr { addr: ALLOWED_ADDR, prefix: ALLOWED_PREFIX };
                        match parse_cidr(tok.as_str()) {
                            None => None,
                            Some(n) => {
                                if contains_ip(&allowed, n.addr) {
                                    Some((tok, n))
                                } else {
                                    None
                                }
                            },
                        }
                    },
                },
            };
            match keep {
                None => {},
                Some((tok, n)) => {
                    let name = match &cur {
                        Some(nm) => nm.clone(),
                        None => String::new(),
                    };
                    let ghost acc0 = acc@;
                    let ghost x = (tok@, name@, n);
                    acc.push(Subnet { cidr: tok, interface: name, network: n });
                    proof {
                        assert_seqs_equal!(subnets_view(acc@) == subnets_view(acc0) + seq![x]);
                        seq_assoc(
                            subnets_view(acc0),
                            seq![x],
                            spec_detect(big.skip(i as int + 1), opt_str_view(cur)),
                        );
                    }
                },
            }
        }
        i = i + 1;
    }
    proof {
        assert(big.skip(lines@.len() as int).len() == 0);
        assert(subnets_view(acc@) + Seq::<(Seq<char>, Seq<char>, Ipv4Cidr)>::empty()
            =~= subnets_view(acc@));
    }
    acc
}


// ---------------------------------------------------------------------------
// Detection on the BSD family: loopback aliases with hex netmasks
// ---------------------------------------------------------------------------

/// Whether `w` occurs in `s` as a contiguous run.
pub open spec fn contains_seq(s: Seq<char>, w: Seq<char>) -> bool {
    exists|i: int| 0 <= i && i + w.len() <= s.len() && #[trigger] s.subrange(i, i + w.len()) == w
}

fn contains_chars(s: &str, w: &str) -> (r: bool)
    requires
        w@.len() >= 1,
    ensures
        r == contains_seq(s@, w@),
{
    let n = s.unicode_len();
    let m = w.unicode_len();
    if m > n {
        proof {
            if contains_seq(s@, w@) {
                let i = choose|i: int|
                    0 <= i && i + w@.len() <= s@.len() && #[trigger] s@.subrange(i, i + w@.len())
                        == w@;
            }
        }
        return false;
    }
    let mut i: usize = 0;
    while i <= n - m
        invariant
            1 <= m <= n,
            n == s@.len(),
            m == w@.len(),
            i <= n - m + 1,
            forall|p: int| 0 <= p < i ==> #[trigger] s@.subrange(p, p + w@.len()) != w@,
        decreases n - i,
    {
        let mut j: usize = 0;
        let mut matched = true;
        while j < m
            invariant
                1 <= m <= n,
                n == s@.len(),
                m == w@.len(),
                i + m <= n,
                j <= m,
                matched ==> forall|k: int| 0 <= k < j ==> s@[i + k] == w@[k],
                !matched ==> s@.subrange(i as int, i as int + w@.len()) != w@,
            decreases m - j,
        {
            if s.get_char(i + j) != w.get_char(j) {
                proof {
                    assert(s@.subrange(i as int, i as int + w@.len())[j as int] == s@[i + j]);
                }
                matched = false;
                j = m;
            } else {
                j = j + 1;
            }
        }
        if matched {
            proof {
                assert(s@.subrange(i as int, i as int + w@.len()) =~= w@);
            }
            return true;
        }
        i = i + 1;
    }
    proof {
        if contains_seq(s@, w@) {
            let p = choose|p: int|
                0 <= p && p + w@.len() <= s@.len() && #[trigger] s@.subrange(p, p + w@.len())
                    == w@;
            assert(p < i);
        }
    }
    false
}

pub open spec fn localhost_chars() -> Seq<char> {
    seq!['1', '2', '7', '.', '0', '.', '0', '.', '1']
}

pub open spec fn lo0_chars() -> Seq<char> {
    seq!['l', 'o', '0']
}

/// The bounds of the line's fourth blank-separated token.
pub open spec fn token3_range(s: Seq<char>) -> (int, int) {
    let a0 = skip_spaces(s, 0);
    let e0 = token_end(s, a0);
    let a1 = skip_spaces(s, e0);
    let e1 = token_end(s, a1);
    let a2 = skip_spaces(s, e1);
    let e2 = token_end(s, a2);
    let a3 = skip_spaces(s, e2);
    let e3 = token_end(s, a3);
    (a3, e3)
}

fn fourth_token(s: &str) -> (r: Option<String>)
    ensures
        ({
            let t = token3_range(s@);
            match r {
                Some(tok) => t.0 < s@.len() && tok@ == s@.subrange(t.0, t.1),
                None => t.0 >= s@.len(),
            }
        }),
{
    let n = s.unicode_len();
    let a0 = skip_spaces_exec(s, 0, n);
    let e0 = token_end_exec(s, a0, n);
    let a1 = skip_spaces_exec(s, e0, n);
    let e1 = token_end_exec(s, a1, n);
    let a2 = skip_spaces_exec(s, e1, n);
    let e2 = token_end_exec(s, a2, n);
    let a3 = skip_spaces_exec(s, e2, n);
    let e3 = token_end_exec(s, a3, n);
    if a3 < n {
        Some(s.substring_char(a3, e3).to_owned())
    } else {
        None
    }
}

pub open spec fn is_hex_digit(c: char) -> bool {
    (48 <= c as int <= 57) || (97 <= c as int <= 102) || (65 <= c as int <= 70)
}

pub open spec fn hex_digit_value(c: char) -> int {
    if 48 <= c as int <= 57 {
        c as int - 48
    } else if 97 <= c as int <= 102 {
        c as int - 87
    } else {
        c as int - 55
    }
}

pub open spec fn hex_value(s: Seq<char>) -> int
    decreases s.len(),
{
    if s.len() == 0 {
        0
    } else {
        hex_value(s.drop_last()) * 16 + hex_digit_value(s.last())
    }
}

pub open spec fn pow16n(n: nat) -> int
    decreases n,
{
    if n == 0 {
        1
    } else {
        16 * pow16n((n - 1) as nat)
    }
}

proof fn lemma_hex_upper(s: Seq<char>)
    requires
        forall|i: int| 0 <= i < s.len() ==> is_hex_digit(#[trigger] s[i]),
    ensures
        hex_value(s) < pow16n(s.len()),
        hex_value(s) >= 0,
    decreases s.len(),
{
    if s.len() > 0 {
        assert(forall|i: int|
            0 <= i < s.drop_last().len() ==> is_hex_digit(#[trigger] s.drop_last()[i]));
        lemma_hex_upper(s.drop_last());
        assert(hex_digit_value(s.last()) <= 15);
    }
}

pub open spec fn all_hex(s: Seq<char>) -> bool {
    forall|i: int| 0 <= i < s.len() ==> is_hex_digit(#[trigger] s[i])
}

/// The value of a hexadecimal netmask token, with an optional `0x`
/// prefix and at most eight digits.
pub open spec fn parse_hex(s: Seq<char>) -> Option<int> {
    let body = if s.len() >= 2 && s[0] == '0' && s[1] == 'x' {
        s.skip(2)
    } else {
        s
    };
    if 1 <= body.len() <= 8 && all_hex(body) {
        Some(hex_value(body))
    } else {
        None
    }
}

fn parse_hex_token(t: &String) -> (r: Option<u32>)
    ensures
        match r {
            Some(v) => parse_hex(t@) == Some(v as int),
            None => parse_hex(t@) is None,
        },
{
    let st = t.as_str();
    let n = st.unicode_len();
    let start: usize = if n >= 2 && st.get_char(0) == '0' && st.get_char(1) == 'x' {
        2
    } else {
        0
    };
    let ghost body = if t@.len() >= 2 && t@[0] == '0' && t@[1] == 'x' {
        t@.skip(2)
    } else {
        t@
    };
    proof {
        assert(body =~= t@.subrange(start as int, t@.len() as int));
    }
    let len = n - start;
    if len == 0 || len > 8 {
        return None;
    }
    let mut acc: u32 = 0;
    let mut i: usize = 0;
    while i < len
        invariant
            start + len == n,
            n == t@.len(),
            st@ == t@,
            len <= 8,
            i <= len,
            body == t@.subrange(start as int, t@.len() as int),
            body == (if t@.len() >= 2 && t@[0] == '0' && t@[1] == 'x' {
                t@.skip(2)
            } else {
                t@
            }),
            body.len() == len,
            forall|j: int| 0 <= j < i ==> is_hex_digit(#[trigger] body[j]),
            acc as int == hex_value(body.take(i as int)),
        decreases len - i,
    {
        let c = st.get_char(start + i);
        proof {
            assert(body[i as int] == t@[start + i]);
        }
        let cu = c as u32;
        let d: u32 = if 48 <= cu && cu <= 57 {
            cu - 48
        } else if 97 <= cu && cu <= 102 {
            cu - 87
        } else if 65 <= cu && cu <= 70 {
            cu - 55
        } else {
            proof {
                assert(!all_hex(body)) by {
                    assert(!is_hex_digit(body[i as int]));
                }
            }
            return None;
        };
        proof {
            assert(is_hex_digit(body[i as int]));
            assert(d as int == hex_digit_value(body[i as int]));
            assert(body.take(i as int + 1).drop_last() =~= body.take(i as int));
            assert(body.take(i as int + 1).last() == body[i as int]);
            assert(forall|j: int|
                0 <= j < body.take(i as int).len() ==> is_hex_digit(
                    #[trigger] body.take(i as int)[j],
                ));
            lemma_hex_upper(body.take(i as int));
            assert(pow16n(0) == 1);
            assert(pow16n(1) == 0x10);
            assert(pow16n(2) == 0x100);
            assert(pow16n(3) == 0x1000);
            assert(pow16n(4) == 0x10000);
            assert(pow16n(5) == 0x100000);
            assert(pow16n(6) == 0x1000000);
            assert(pow16n(7) == 0x10000000);
        }
        acc = acc * 16 + d;
        i = i + 1;
    }
    proof {
        assert(body.take(len as int) =~= body);
        assert(all_hex(body));
    }
    Some(acc)
}

/// How many leading one bits the value carries, examining at most `k`.
pub open spec fn leading_ones_rec(m: u32, k: nat) -> int
    decreases k,
{
    if k == 0 {
        0
    } else if m / 0x80000000 == 1 {
        1 + leading_ones_rec(((m % 0x80000000) * 2) as u32, (k - 1) as nat)
    } else {
        0
    }
}

/// The netmask's prefix length: its count of leading one bits.
pub fn leading_ones(m: u32) -> (r: u32)
    ensures
        r as int == leading_ones_rec(m, 32),
        r <= 32,
{
    let mut mm = m;
    let mut k: u32 = 0;
    while k < 32 && mm >= 0x80000000
        invariant
            k <= 32,
            leading_ones_rec(m, 32) == k + leading_ones_rec(mm, (32 - k) as nat),
        decreases 32 - k,
    {
        mm = (mm % 0x80000000) * 2;
        k = k + 1;
    }
    proof {
        if k < 32 {
            assert(mm / 0x80000000 == 0);
            assert(leading_ones_rec(mm, (32 - k) as nat) == 0);
        } else {
            assert(leading_ones_rec(mm, 0) == 0);
        }
    }
    k
}

fn make_cidr_string(ip_tok: &String, prefix: u32) -> (r: String)
    ensures
        r@ == ip_tok@ + seq!['/'] + dec_digits(prefix as int),
{
    let mut s = ip_tok.clone();
    s.append("/");
    proof {
        reveal_strlit("/");
        assert_seqs_equal!(s@ == ip_tok@ + seq!['/']);
    }
    let num = crate::fs::u32_to_decimal(prefix);
    s.append(num.as_str());
    s
}

/// The subnets a loopback listing shows: for each non-localhost
/// address line, the address and hex netmask tokens yield a CIDR; it
/// is kept, bound to the loopback interface, when it denotes a network
/// in the pool.
pub open spec fn spec_detect_bsd(lines: Seq<Seq<char>>) -> Seq<(Seq<char>, Seq<char>, Ipv4Cidr)>
    decreases lines.len(),
{
    if lines.len() == 0 {
        Seq::<(Seq<char>, Seq<char>, Ipv4Cidr)>::empty()
    } else {
        let l = lines[0];
        let rest = spec_detect_bsd(lines.drop_first());
        if line_is_inet(l) && !contains_seq(l, localhost_chars()) {
            let t1 = token1_range(l);
            let t3 = token3_range(l);
            if t1.0 < l.len() && t3.0 < l.len() {
                let ip_tok = l.subrange(t1.0, t1.1);
                match parse_hex(l.subrange(t3.0, t3.1)) {
                    None => rest,
                    Some(mv) => {
                        let prefix = leading_ones_rec(mv as u32, 32);
                        let cidr = ip_tok + seq!['/'] + dec_digits(prefix);
                        match spec_parse_cidr(cidr) {
                            None => rest,
                            Some(n) => {
                                if net_contains(
                                    (Ipv4Cidr { addr: ALLOWED_ADDR, prefix: ALLOWED_PREFIX }),
                                    n.addr,
                                ) {
                                    seq![(cidr, lo0_chars(), n)] + rest
                                } else {
                                    rest
                                }
                            },
                        }
                    },
                }
            } else {
                rest
            }
        } else {
            rest
        }
    }
}

/// Scans the lines of the loopback interface's listing, as the BSD
/// family reports aliases: each non-localhost address line with a
/// hexadecimal netmask yields a subnet record when its network lies in
/// the pool.
pub fn detect_existing_subnets_bsd(lines: &Vec<String>) -> (r: Vec<Subnet>)
    ensures
        subnets_view(r@) == spec_detect_bsd(lines.deep_view()),
{
    let ghost big = lines.deep_view();
    let mut acc: Vec<Subnet> = Vec::new();
    let mut i: usize = 0;
    proof {
        assert(big.skip(0) =~= big);
        assert(subnets_view(acc@) =~= Seq::<(Seq<char>, Seq<char>, Ipv4Cidr)>::empty());
        assert(subnets_view(acc@) + spec_detect_bsd(big) =~= spec_detect_bsd(big));
    }
    while i < lines.len()
        invariant
            big == lines.deep_view(),
            big.len() == lines@.len(),
            i <= lines@.len(),
            spec_detect_bsd(big) == subnets_view(acc@) + spec_detect_bsd(big.skip(i as int)),
        decreases lines@.len() - i,
    {
        let ghost l = big[i as int];
        proof {
            assert(big.skip(i as int)[0] == l);
            assert(big.skip(i as int).drop_first() =~= big.skip(i as int + 1));
            assert(l == lines@[i as int]@);
        }
        let line = &lines[i];
        proof {
            reveal_strlit("127.0.0.1");
            assert("127.0.0.1"@ =~= localhost_chars());
        }
        let keep: Option<(String, Ipv4Cidr)> = if is_inet_exec(line.as_str()) && !contains_chars(
            line.as_str(),
            "127.0.0.1",
        ) {
            match (second_token(line.as_str()), fourth_token(line.as_str())) {
                (Some(ip_tok), Some(mask_tok)) => match parse_hex_token(&mask_tok) {
                    None => None,
                    Some(mv) => {
                        let prefix = leading_ones(mv);
                        let cidr = make_cidr_string(&ip_tok, prefix);
                        let allowed = Ipv4Cidr { addr: ALLOWED_ADDR, prefix: ALLOWED_PREFIX };
                        match parse_cidr(cidr.as_str()) {
                            None => None,
                            Some(n) => {
                                if contains_ip(&allowed, n.addr) {
                                    Some((cidr, n))
                                } else {
                                    None
                                }
                            },
                        }
                    },
                },
                _ => None,
            }
        } else {
            None
        };
        match keep {
            None => {},
            Some((cidr, n)) => {
                let name = String::from_str("lo0");
                proof {
                    reveal_strlit("lo0");
                    assert(name@ =~= lo0_chars());
                }
                let ghost acc0 = acc@;
                let ghost x = (cidr@, name@, n);
                acc.push(Subnet { cidr, interface: name, network: n });
                proof {
                    assert_seqs_equal!(subnets_view(acc@) == subnets_view(acc0) + seq![x]);
                    seq_assoc(
                        subnets_view(acc0),
                        seq![x],
                        spec_detect_bsd(big.skip(i as int + 1)),
                    );
                }
            },
        }
        i = i + 1;
    }
    proof {
        assert(big.skip(lines@.len() as int).len() == 0);
        assert(subnets_view(acc@) + Seq::<(Seq<char>, Seq<char>, Ipv4Cidr)>::empty()
            =~= subnets_view(acc@));
    }
    acc
}

} // verus!
