//! IPv4 addresses and the textual forms of IP addresses.

use vstd::arithmetic::power2::{lemma2_to64, lemma_pow2_strictly_increases, pow2};
use vstd::arithmetic::div_mod::lemma_fundamental_div_mod_converse;
use vstd::prelude::*;
use vstd::string::*;

use crate::text::{
    all_digits, chars_of, decimal, decimal_of, decimal_round_trip, digits_number, digits_value,
    is_char, pieces, pieces_stand_between_separators, split_on, split_where, texts,
    written_number_holds_no_separator,
};

verus! {

/// An IPv4 address.
#[derive(Clone, Copy, Debug, PartialEq, Eq, Hash, Structural)]
pub struct Ipv4Addr {
    a: u8,
    b: u8,
    c: u8,
    d: u8,
}

impl Ipv4Addr {
    /// The address with the given octets.
    pub closed spec fn spec_new(a: u8, b: u8, c: u8, d: u8) -> Ipv4Addr {
        Ipv4Addr { a, b, c, d }
    }

    /// The four octets, in the order they are written.
    pub closed spec fn spec_octets(self) -> Seq<u8> {
        seq![self.a, self.b, self.c, self.d]
    }

    /// The address as a number, most significant octet first.
    pub open spec fn spec_bits(self) -> u32 {
        (self.spec_octets()[0] * 0x100_0000 + self.spec_octets()[1] * 0x1_0000
            + self.spec_octets()[2] * 0x100 + self.spec_octets()[3]) as u32
    }

    /// An address has four octets and is spelled by them.
    pub proof fn octets_spell_address(self)
        ensures
            self.spec_octets().len() == 4,
            Ipv4Addr::spec_new(
                self.spec_octets()[0],
                self.spec_octets()[1],
                self.spec_octets()[2],
                self.spec_octets()[3],
            ) == self,
    {
    }

    /// Different addresses are different numbers.
    pub proof fn bits_identify_address(self, other: Ipv4Addr)
        requires
            self.spec_bits() == other.spec_bits(),
        ensures
            self == other,
    {
        self.octets_of_bits();
        other.octets_of_bits();
    }

    proof fn octets_of_bits(self)
        ensures
            self.a == self.spec_bits() as int / 0x100_0000,
            self.b == self.spec_bits() as int / 0x1_0000 % 0x100,
            self.c == self.spec_bits() as int / 0x100 % 0x100,
            self.d == self.spec_bits() as int % 0x100,
    {
        let n = self.spec_bits() as int;
        let (a, b, c, d) = (self.a as int, self.b as int, self.c as int, self.d as int);
        assert(n == a * 0x100_0000 + b * 0x1_0000 + c * 0x100 + d);
        lemma_fundamental_div_mod_converse(n, 0x100_0000, a, b * 0x1_0000 + c * 0x100 + d);
        lemma_fundamental_div_mod_converse(n, 0x1_0000, a * 0x100 + b, c * 0x100 + d);
        lemma_fundamental_div_mod_converse(a * 0x100 + b, 0x100, a, b);
        lemma_fundamental_div_mod_converse(n, 0x100, a * 0x1_0000 + b * 0x100 + c, d);
        lemma_fundamental_div_mod_converse(
            a * 0x1_0000 + b * 0x100 + c,
            0x100,
            a * 0x100 + b,
            c,
        );
    }

    /// The address with the given octets.
    pub fn new(a: u8, b: u8, c: u8, d: u8) -> (r: Self)
        ensures
            r == Ipv4Addr::spec_new(a, b, c, d),
            r.spec_octets() == seq![a, b, c, d],
    {
        Ipv4Addr { a, b, c, d }
    }

    /// The four octets.
    pub fn octets(self) -> (r: [u8; 4])
        ensures
            r@ == self.spec_octets(),
    {
        let r = [self.a, self.b, self.c, self.d];
        assert(r@ =~= self.spec_octets());
        r
    }

    /// The address as a number.
    pub fn to_bits(self) -> (r: u32)
        ensures
            r == self.spec_bits(),
    {
        self.a as u32 * 0x100_0000 + self.b as u32 * 0x1_0000 + self.c as u32 * 0x100
            + self.d as u32
    }

    /// The address of a number.
    pub open spec fn of_bits(bits: u32) -> Ipv4Addr {
        Ipv4Addr::spec_new(
            (bits as int / 0x100_0000) as u8,
            (bits as int / 0x1_0000 % 0x100) as u8,
            (bits as int / 0x100 % 0x100) as u8,
            (bits as int % 0x100) as u8,
        )
    }

    /// An address is that of its number.
    pub proof fn is_of_bits(self)
        ensures
            Ipv4Addr::of_bits(self.spec_bits()) == self,
    {
        self.octets_of_bits();
    }

    /// The address of a number.
    pub fn from_bits(bits: u32) -> (r: Self)
        ensures
            r.spec_bits() == bits,
    {
        Ipv4Addr {
            a: (bits / 0x100_0000) as u8,
            b: (bits / 0x1_0000 % 0x100) as u8,
            c: (bits / 0x100 % 0x100) as u8,
            d: (bits % 0x100) as u8,
        }
    }

    /// `0.0.0.0`.
    pub fn is_unspecified(self) -> (r: bool)
        ensures
            r == (self.spec_bits() == 0),
    {
        self.a == 0 && self.b == 0 && self.c == 0 && self.d == 0
    }

    /// `255.255.255.255`.
    pub fn is_broadcast(self) -> (r: bool)
        ensures
            r == (self.spec_bits() == 0xffff_ffff),
    {
        self.a == 255 && self.b == 255 && self.c == 255 && self.d == 255
    }

    /// `224.0.0.0/4`.
    pub fn is_multicast(self) -> (r: bool)
        ensures
            r == (0xe000_0000 <= self.spec_bits() <= 0xefff_ffff),
    {
        224 <= self.a && self.a <= 239
    }

    /// Whether the address is in `10.0.0.0/8`, `172.16.0.0/12` or `192.168.0.0/16`.
    pub open spec fn spec_is_private(self) -> bool {
        ||| 0x0a00_0000 <= self.spec_bits() <= 0x0aff_ffff
        ||| 0xac10_0000 <= self.spec_bits() <= 0xac1f_ffff
        ||| 0xc0a8_0000 <= self.spec_bits() <= 0xc0a8_ffff
    }

    /// `10.0.0.0/8`, `172.16.0.0/12` or `192.168.0.0/16`.
    pub fn is_private(self) -> (r: bool)
        ensures
            r == self.spec_is_private(),
    {
        self.a == 10 || (self.a == 172 && 16 <= self.b && self.b <= 31) || (self.a == 192 && self.b
            == 168)
    }

    /// Whether the leading `prefix` bits are those of `base`.
    pub open spec fn shares_prefix(self, base: Ipv4Addr, prefix: nat) -> bool {
        let block = pow2((32 - prefix) as nat) as int;
        self.spec_bits() as int / block == base.spec_bits() as int / block
    }

    /// The private addresses are those of three blocks.
    pub proof fn private_blocks(ip: Ipv4Addr)
        ensures
            ip.spec_is_private() <==> {
                ||| ip.shares_prefix(Ipv4Addr::spec_new(10, 0, 0, 0), 8)
                ||| ip.shares_prefix(Ipv4Addr::spec_new(172, 16, 0, 0), 12)
                ||| ip.shares_prefix(Ipv4Addr::spec_new(192, 168, 0, 0), 16)
            },
    {
        vstd::arithmetic::power2::lemma2_to64();
        assert(Ipv4Addr::spec_new(10, 0, 0, 0).spec_bits() == 0x0a00_0000);
        assert(Ipv4Addr::spec_new(172, 16, 0, 0).spec_bits() == 0xac10_0000);
        assert(Ipv4Addr::spec_new(192, 168, 0, 0).spec_bits() == 0xc0a8_0000);
        assert(pow2(24) == 0x100_0000 && pow2(20) == 0x10_0000 && pow2(16) == 0x1_0000);
        let n = ip.spec_bits() as int;
        assert(n / (pow2(24) as int) == n / 0x100_0000);
        assert(n / (pow2(20) as int) == n / 0x10_0000);
        assert(n / (pow2(16) as int) == n / 0x1_0000);
        assert(0x0a00_0000int / (pow2(24) as int) == 0x0a00_0000int / 0x100_0000);
        assert(0xac10_0000int / (pow2(20) as int) == 0xac10_0000int / 0x10_0000);
        assert(0xc0a8_0000int / (pow2(16) as int) == 0xc0a8_0000int / 0x1_0000);
    }

    /// Whether the leading `prefix` bits are those of `base`.
    pub fn in_block(self, base: Ipv4Addr, prefix: u8) -> (r: bool)
        requires
            prefix <= 32,
        ensures
            r == self.shares_prefix(base, prefix as nat),
    {
        let shift: u64 = 32 - prefix as u64;
        let x: u64 = self.to_bits() as u64;
        let y: u64 = base.to_bits() as u64;
        proof {
            vstd::bits::lemma_u64_shr_is_div(x, shift);
            vstd::bits::lemma_u64_shr_is_div(y, shift);
        }
        (x >> shift) == (y >> shift)
    }

    /// Dotted decimal notation.
    pub open spec fn spec_text(self) -> Seq<char> {
        let o = self.spec_octets();
        decimal(o[0] as nat).push('.') + decimal(o[1] as nat).push('.') + decimal(
            o[2] as nat,
        ).push('.') + decimal(o[3] as nat)
    }

    /// Dotted decimal notation.
    pub fn to_text(self) -> (r: String)
        ensures
            r@ == self.spec_text(),
    {
        let mut r = decimal_of(self.a as u64);
        r.push('.');
        r.append(decimal_of(self.b as u64).as_str());
        r.push('.');
        r.append(decimal_of(self.c as u64).as_str());
        r.push('.');
        r.append(decimal_of(self.d as u64).as_str());
        assert(r@ =~= self.spec_text());
        r
    }

    /// The address that a text spells in dotted decimal notation.
    pub open spec fn spec_parse(s: Seq<char>) -> Option<Ipv4Addr> {
        let parts = split_on(s, '.');
        if parts.len() == 4 && octet(parts[0]) is Some && octet(parts[1]) is Some && octet(
            parts[2],
        ) is Some && octet(parts[3]) is Some {
            Some(
                Ipv4Addr::spec_new(
                    octet(parts[0])->0,
                    octet(parts[1])->0,
                    octet(parts[2])->0,
                    octet(parts[3])->0,
                ),
            )
        } else {
            None
        }
    }

    /// Reads dotted decimal notation: four octets without leading zeros.
    pub fn parse(s: &str) -> (r: Option<Ipv4Addr>)
        ensures
            r == Ipv4Addr::spec_parse(s@),
    {
        Ipv4Addr::parse_chars(chars_of(s).as_slice())
    }

    pub(crate) fn parse_chars(s: &[char]) -> (r: Option<Ipv4Addr>)
        ensures
            r == Ipv4Addr::spec_parse(s@),
    {
        let parts = pieces(s, '.');
        assert(texts(parts@).len() == parts@.len());
        if parts.len() != 4 {
            return None;
        }
        assert(texts(parts@)[0] == parts@[0]@);
        assert(texts(parts@)[1] == parts@[1]@);
        assert(texts(parts@)[2] == parts@[2]@);
        assert(texts(parts@)[3] == parts@[3]@);
        let first = octet_of(parts[0].as_slice());
        let second = octet_of(parts[1].as_slice());
        let third = octet_of(parts[2].as_slice());
        let fourth = octet_of(parts[3].as_slice());
        match (first, second, third, fourth) {
            (Some(a), Some(b), Some(c), Some(d)) => Some(Ipv4Addr { a, b, c, d }),
            _ => None,
        }
    }
}

/// An IPv4 address and a port.
#[derive(Clone, Copy, Debug, PartialEq, Eq, Structural)]
pub struct SocketAddrV4 {
    pub ip: Ipv4Addr,
    pub port: u16,
}

/// The octet that a text spells: one to three digits without a leading zero.
pub open spec fn octet(s: Seq<char>) -> Option<u8> {
    if 1 <= s.len() <= 3 && all_digits(s) && (s.len() == 1 || s[0] != '0') && digits_value(s)
        <= 255 {
        Some(digits_value(s) as u8)
    } else {
        None
    }
}

fn octet_of(s: &[char]) -> (r: Option<u8>)
    ensures
        r == octet(s@),
{
    if s.len() < 1 || s.len() > 3 {
        return None;
    }
    if s.len() > 1 && s[0] == '0' {
        return None;
    }
    match digits_number(s, 255) {
        Some(n) => Some(n as u8),
        None => None,
    }
}

/// The network mask of a prefix length.
pub open spec fn mask_bits(prefix: nat) -> u32 {
    (0x1_0000_0000 - pow2((32 - prefix) as nat)) as u32
}

/// The network mask of a prefix length.
pub fn mask_of(prefix: u8) -> (r: Ipv4Addr)
    requires
        prefix <= 32,
    ensures
        r.spec_bits() == mask_bits(prefix as nat),
{
    let shift: u64 = 32 - prefix as u64;
    proof {
        lemma2_to64();
        if shift < 32 {
            lemma_pow2_strictly_increases(shift as nat, 32);
        }
        vstd::bits::lemma_u64_shl_is_mul(1, shift);
    }
    let block: u64 = 1u64 << shift;
    Ipv4Addr::from_bits((0x1_0000_0000 - block) as u32)
}

/// Number of one bits.
pub open spec fn ones(n: nat) -> nat
    decreases n,
{
    if n == 0 {
        0
    } else {
        n % 2 + ones(n / 2)
    }
}

/// Number of one bits of an address.
pub fn mask_prefix(mask: Ipv4Addr) -> (r: u32)
    ensures
        r == ones(mask.spec_bits() as nat),
{
    let mut rest: u32 = mask.to_bits();
    let mut count: u32 = 0;
    let mut steps: u32 = 0;
    proof {
        lemma2_to64();
    }
    while rest > 0
        invariant
            count + ones(rest as nat) == ones(mask.spec_bits() as nat),
            count <= steps <= 32,
            rest < pow2((32 - steps) as nat),
        decreases rest,
    {
        proof {
            if steps == 32 {
                lemma2_to64();
            } else {
                vstd::arithmetic::power2::lemma_pow2_unfold((32 - steps) as nat);
            }
        }
        count = count + rest % 2;
        rest = rest / 2;
        steps = steps + 1;
    }
    count
}

/// One to four hexadecimal digits.
pub open spec fn is_hextet(s: Seq<char>) -> bool {
    1 <= s.len() <= 4 && forall|i: int| 0 <= i < s.len() ==> is_hex(#[trigger] s[i])
}

/// A hexadecimal digit.
pub open spec fn is_hex(c: char) -> bool {
    ('0' <= c <= '9') || ('a' <= c <= 'f') || ('A' <= c <= 'F')
}

fn hextet(s: &[char]) -> (r: bool)
    ensures
        r == is_hextet(s@),
{
    if s.len() < 1 || s.len() > 4 {
        return false;
    }
    let mut i: usize = 0;
    while i < s.len()
        invariant
            0 <= i <= s@.len(),
            forall|j: int| 0 <= j < i ==> is_hex(#[trigger] s@[j]),
        decreases s@.len() - i,
    {
        let c = s[i];
        if !(('0' <= c && c <= '9') || ('a' <= c && c <= 'f') || ('A' <= c && c <= 'F')) {
            assert(!is_hex(s@[i as int]));
            return false;
        }
        i += 1;
    }
    true
}

/// The number of 16-bit groups that a colon-separated text spells: hextets, the
/// last of which may be an IPv4 address in place of two groups where `tail` says
/// so. The empty text spells no group; `None` when a piece is neither.
pub open spec fn group_count(s: Seq<char>, tail: bool) -> Option<nat> {
    if s.len() == 0 {
        Some(0)
    } else {
        let parts = split_on(s, ':');
        if forall|i: int| 0 <= i < parts.len() ==> is_hextet(#[trigger] parts[i]) {
            Some(parts.len())
        } else if tail && Ipv4Addr::spec_parse(parts.last()) is Some && forall|i: int|
            0 <= i < parts.len() - 1 ==> is_hextet(#[trigger] parts[i]) {
            Some(parts.len() + 1)
        } else {
            None
        }
    }
}

fn groups(s: &[char], tail: bool) -> (r: Option<u128>)
    ensures
        r matches Some(n) ==> n <= usize::MAX + 1,
        match r {
            Some(n) => group_count(s@, tail) == Some(n as nat),
            None => group_count(s@, tail) == None::<nat>,
        },
{
    if s.len() == 0 {
        return Some(0);
    }
    let parts = pieces(s, ':');
    let ghost all = split_on(s@, ':');
    assert(all.len() == parts@.len());
    proof {
        lemma_split_len(s@, is_char(':'));
    }
    let last: usize = parts.len() - 1;
    let mut i: usize = 0;
    while i < last
        invariant
            0 <= i <= last,
            last == parts@.len() - 1,
            all == texts(parts@),
            all == split_on(s@, ':'),
            s@.len() > 0,
            forall|j: int| 0 <= j < i ==> is_hextet(#[trigger] all[j]),
        decreases last - i,
    {
        assert(all[i as int] == parts@[i as int]@);
        if !hextet(parts[i].as_slice()) {
            return None;
        }
        i += 1;
    }
    assert(all.last() == parts@[last as int]@);
    if hextet(parts[last].as_slice()) {
        return Some(parts.len() as u128);
    }
    assert(!is_hextet(all[last as int]));
    if tail && Ipv4Addr::parse_chars(parts[last].as_slice()).is_some() {
        return Some(parts.len() as u128 + 1);
    }
    None
}

/// There are at most as many pieces as characters plus one.
proof fn lemma_split_len(s: Seq<char>, sep: spec_fn(char) -> bool)
    ensures
        1 <= split_where(s, sep).len() <= s.len() + 1,
    decreases s.len(),
{
    if s.len() > 0 {
        lemma_split_len(s.drop_last(), sep);
    }
}

/// Whether `::` at position `k` stands for one or more zero groups of an address.
pub open spec fn compressed_at(s: Seq<char>, k: int) -> bool {
    &&& 0 <= k && k + 2 <= s.len()
    &&& s[k] == ':' && s[k + 1] == ':'
    &&& group_count(s.take(k), false) matches Some(left) && group_count(s.skip(k + 2), true)
        matches Some(right) && left + right <= 7
}

/// Whether a text spells an IPv6 address.
pub open spec fn is_ipv6(s: Seq<char>) -> bool {
    ||| group_count(s, true) == Some(8nat)
    ||| exists|k: int| compressed_at(s, k)
}

/// Whether a text spells an IPv6 address.
pub fn parses_as_ipv6(s: &str) -> (r: bool)
    ensures
        r == is_ipv6(s@),
{
    let chars = chars_of(s);
    let total: usize = chars.len();
    if let Some(n) = groups(chars.as_slice(), true) {
        if n == 8 {
            return true;
        }
    }
    let mut k: usize = 0;
    while total >= 2 && k <= total - 2
        invariant
            total == chars@.len(),
            chars@ == s@,
            k <= total,
            forall|j: int| 0 <= j < k ==> !compressed_at(s@, j),
        decreases total - k,
    {
        if chars[k] == ':' && chars[k + 1] == ':' {
            assert(s@.take(k as int) =~= s@.subrange(0, k as int));
            assert(s@.skip(k + 2) =~= s@.subrange(k + 2, total as int));
            let left = groups(&chars.as_slice()[0..k], false);
            let right = groups(&chars.as_slice()[k + 2..total], true);
            if let (Some(x), Some(y)) = (left, right) {
                if x + y <= 7 {
                    assert(compressed_at(s@, k as int));
                    return true;
                }
            }
        }
        assert(!compressed_at(s@, k as int));
        k += 1;
    }
    assert forall|j: int| !compressed_at(s@, j) by {
        if 0 <= j < k {
            assert(!compressed_at(s@, j));
        }
    }
    false
}

proof fn lemma_split_append(s: Seq<char>, t: Seq<char>, sep: spec_fn(char) -> bool)
    requires
        forall|i: int| 0 <= i < t.len() ==> !sep(#[trigger] t[i]),
    ensures
        split_where(s + t, sep) == split_where(s, sep).drop_last().push(
            split_where(s, sep).last() + t,
        ),
    decreases t.len(),
{
    lemma_split_len(s, sep);
    if t.len() == 0 {
        assert(s + t =~= s);
        assert(split_where(s, sep).last() + t =~= split_where(s, sep).last());
        assert(split_where(s, sep).drop_last().push(split_where(s, sep).last()) =~= split_where(
            s,
            sep,
        ));
    } else {
        lemma_split_append(s, t.drop_last(), sep);
        assert((s + t).drop_last() =~= s + t.drop_last());
        assert((s + t).last() == t.last());
        let before = split_where(s + t.drop_last(), sep);
        assert(before.drop_last() =~= split_where(s, sep).drop_last());
        assert(before.last().push(t.last()) =~= split_where(s, sep).last() + t);
    }
}

/// Dotted decimal notation is read back as the address it was written for.
pub proof fn address_text_round_trip(addr: Ipv4Addr)
    ensures
        Ipv4Addr::spec_parse(addr.spec_text()) == Some(addr),
{
    let sep = is_char('.');
    let a = decimal(addr.a as nat);
    let b = decimal(addr.b as nat);
    let c = decimal(addr.c as nat);
    let d = decimal(addr.d as nat);
    lemma_octet_text(addr.a);
    lemma_octet_text(addr.b);
    lemma_octet_text(addr.c);
    lemma_octet_text(addr.d);
    let e = Seq::<char>::empty();
    lemma_split_append(e, a, sep);
    assert(e + a =~= a);
    assert(split_where(a, sep) =~= seq![a]);
    let s1 = a.push('.');
    assert(s1.drop_last() =~= a);
    assert(split_where(s1, sep) =~= seq![a, e]);
    lemma_split_append(s1, b, sep);
    let s2 = (s1 + b).push('.');
    assert(s2.drop_last() =~= s1 + b);
    assert(e + b =~= b);
    assert(split_where(s2, sep) =~= seq![a, b, e]);
    lemma_split_append(s2, c, sep);
    let s3 = (s2 + c).push('.');
    assert(s3.drop_last() =~= s2 + c);
    assert(e + c =~= c);
    assert(split_where(s3, sep) =~= seq![a, b, c, e]);
    lemma_split_append(s3, d, sep);
    assert(e + d =~= d);
    assert(s3 + d =~= addr.spec_text());
    assert(split_where(s3 + d, sep) =~= seq![a, b, c, d]);
}

proof fn lemma_octet_text(n: u8)
    ensures
        octet(decimal(n as nat)) == Some(n),
        forall|i: int| 0 <= i < decimal(n as nat).len() ==> #[trigger] decimal(n as nat)[i] != '.',
{
    decimal_round_trip(n as nat);
    reveal_with_fuel(decimal, 4);
}

/// The private addresses are those that begin with 10, with 172 and 16 to 31, or with
/// 192 and 168.
pub proof fn private_addresses_by_octets(addr: Ipv4Addr)
    ensures
        addr.spec_is_private() <==> {
            let o = addr.spec_octets();
            o[0] == 10 || o[0] == 172 && 16 <= o[1] <= 31 || o[0] == 192 && o[1] == 168
        },
{
}

/// The octets of an address come in the order in which it is made of them, and its number
/// has the first one on top.
pub proof fn octets_are_in_order(a: u8, b: u8, c: u8, d: u8)
    ensures
        Ipv4Addr::spec_new(a, b, c, d).spec_octets() == seq![a, b, c, d],
        Ipv4Addr::spec_new(a, b, c, d).spec_bits() == a * 0x100_0000 + b * 0x1_0000 + c * 0x100
            + d,
{
}

/// An address is in a block exactly where it lies among the consecutive addresses that
/// share the leading bits of the base.
pub proof fn block_is_an_interval(addr: Ipv4Addr, base: Ipv4Addr, prefix: nat)
    requires
        prefix <= 32,
    ensures
        addr.shares_prefix(base, prefix) <==> {
            let size = pow2((32 - prefix) as nat) as int;
            let first = base.spec_bits() - base.spec_bits() as int % size;
            first <= addr.spec_bits() < first + size
        },
{
    let size = pow2((32 - prefix) as nat) as int;
    vstd::arithmetic::power2::lemma_pow2_pos((32 - prefix) as nat);
    let x = addr.spec_bits() as int;
    let y = base.spec_bits() as int;
    vstd::arithmetic::div_mod::lemma_fundamental_div_mod(x, size);
    vstd::arithmetic::div_mod::lemma_fundamental_div_mod(y, size);
    vstd::arithmetic::div_mod::lemma_mod_bound(x, size);
    vstd::arithmetic::div_mod::lemma_mod_bound(y, size);
    let q = x / size;
    let p = y / size;
    let first = y - y % size;
    assert(first == size * p);
    if q == p {
        assert(size * q == size * p);
    } else if q < p {
        assert(size * q + size <= size * p) by (nonlinear_arith)
            requires
                q + 1 <= p,
                size > 0,
        ;
    } else {
        assert(size * p + size <= size * q) by (nonlinear_arith)
            requires
                p + 1 <= q,
                size > 0,
        ;
    }
}

/// A block of one address holds its base alone, and the block without a prefix holds
/// every address.
pub proof fn smallest_and_largest_block(addr: Ipv4Addr, base: Ipv4Addr)
    ensures
        addr.shares_prefix(base, 32) <==> addr == base,
        addr.shares_prefix(base, 0),
{
    lemma2_to64();
    vstd::arithmetic::power2::lemma2_to64_rest();
    assert(pow2(0) == 1);
    assert(pow2(32) == 0x1_0000_0000);
    let x = addr.spec_bits() as int;
    let y = base.spec_bits() as int;
    assert(x / 1 == x && y / 1 == y);
    if x == y {
        addr.bits_identify_address(base);
    }
    assert(x / 0x1_0000_0000 == 0 && y / 0x1_0000_0000 == 0);
}

/// Dotted decimal notation holds digits and dots alone.
pub proof fn address_text_holds_no_separator(addr: Ipv4Addr, c: char)
    requires
        !('0' <= c <= '9'),
        c != '.',
    ensures
        !addr.spec_text().contains(c),
{
    let o = addr.spec_octets();
    written_number_holds_no_separator(o[0] as nat, c);
    written_number_holds_no_separator(o[1] as nat, c);
    written_number_holds_no_separator(o[2] as nat, c);
    written_number_holds_no_separator(o[3] as nat, c);
    let (p, q, r, t) = (
        decimal(o[0] as nat),
        decimal(o[1] as nat),
        decimal(o[2] as nat),
        decimal(o[3] as nat),
    );
    let s = addr.spec_text();
    if s.contains(c) {
        let i = choose|i: int| 0 <= i < s.len() && s[i] == c;
        let (x, y, z) = (p.len() + 1, p.len() + q.len() + 2, p.len() + q.len() + r.len() + 3);
        if i < x {
            assert(s[i] == p.push('.')[i]);
            assert(p.contains(c));
        } else if i < y {
            assert(s[i] == q.push('.')[i - x]);
            assert(i - x < q.len() ==> q[i - x] == c);
            assert(q.contains(c));
        } else if i < z {
            assert(s[i] == r.push('.')[i - y]);
            assert(i - y < r.len() ==> r[i - y] == c);
            assert(r.contains(c));
        } else {
            assert(s[i] == t[i - z]);
            assert(t.contains(c));
        }
    }
}

proof fn lemma_ones_of_top(k: nat, n: nat)
    requires
        n <= 32,
        k <= n,
    ensures
        pow2(k) <= pow2(n),
        ones((pow2(n) - pow2(k)) as nat) == n - k,
    decreases n,
{
    lemma2_to64();
    if k == n {
        assert(ones(0) == 0);
    } else {
        lemma_pow2_strictly_increases(k, n);
        vstd::arithmetic::power2::lemma_pow2_unfold(n);
        if k == 0 {
            lemma_ones_of_all(n);
        } else {
            vstd::arithmetic::power2::lemma_pow2_unfold(k);
            lemma_ones_of_top((k - 1) as nat, (n - 1) as nat);
            let x = (pow2(n) - pow2(k)) as nat;
            let y = (pow2((n - 1) as nat) - pow2((k - 1) as nat)) as nat;
            assert(x == 2 * y);
        }
    }
}

proof fn lemma_ones_of_all(n: nat)
    ensures
        pow2(n) >= 1,
        ones((pow2(n) - 1) as nat) == n,
    decreases n,
{
    lemma2_to64();
    vstd::arithmetic::power2::lemma_pow2_pos(n);
    if n > 0 {
        vstd::arithmetic::power2::lemma_pow2_unfold(n);
        lemma_ones_of_all((n - 1) as nat);
        let x = (pow2(n) - 1) as nat;
        let y = (pow2((n - 1) as nat) - 1) as nat;
        assert(x == 2 * y + 1);
    }
}

/// The mask of a prefix length covers all but the last addresses of a block: it is 2^32 less
/// the size of the block, and it has as many ones as the prefix is long.
pub proof fn masks_have_their_prefix_of_ones(prefix: nat)
    requires
        prefix <= 32,
    ensures
        prefix > 0 ==> mask_bits(prefix) == 0x1_0000_0000 - pow2((32 - prefix) as nat),
        prefix == 0 ==> mask_bits(prefix) == 0,
        ones(mask_bits(prefix) as nat) == prefix,
{
    lemma2_to64();
    vstd::arithmetic::power2::lemma2_to64_rest();
    assert(pow2(32) == 0x1_0000_0000);
    vstd::arithmetic::power2::lemma_pow2_pos((32 - prefix) as nat);
    if prefix > 0 {
        lemma_pow2_strictly_increases((32 - prefix) as nat, 32);
    } else {
        assert((0x1_0000_0000 - pow2(32)) as u32 == 0);
        assert(ones(0) == 0);
    }
    lemma_ones_of_top((32 - prefix) as nat, 32);
}

/// The address of a number has that number.
pub proof fn numbers_are_those_of_their_address(bits: u32)
    ensures
        Ipv4Addr::of_bits(bits).spec_bits() == bits,
{
}

proof fn lemma_pieces_hold_every_character(s: Seq<char>, sep: spec_fn(char) -> bool, c: char)
    requires
        s.contains(c),
        !sep(c),
    ensures
        exists|k: int|
            0 <= k < split_where(s, sep).len() && (#[trigger] split_where(s, sep)[k]).contains(c),
        split_where(s, sep).len() >= 1,
    decreases s.len(),
{
    let before = split_where(s.drop_last(), sep);
    let all = split_where(s, sep);
    crate::text::lemma_split_where_nonempty(s.drop_last(), sep);
    if s.last() == c {
        let k = all.len() - 1;
        let piece = all[k];
        assert(piece == before.last().push(c));
        assert(piece[piece.len() - 1] == c);
        assert(all[k].contains(c));
    } else {
        let i = choose|i: int| 0 <= i < s.len() && s[i] == c;
        assert(s.drop_last()[i] == c);
        lemma_pieces_hold_every_character(s.drop_last(), sep, c);
        let k = choose|k: int| 0 <= k < before.len() && (#[trigger] before[k]).contains(c);
        if sep(s.last()) || k < before.len() - 1 {
            assert(all[k] == before[k]);
        } else {
            let j = choose|j: int| 0 <= j < before[k].len() && before[k][j] == c;
            assert(all[k] == before[k].push(s.last()));
            assert(all[k][j] == c);
            assert(all[k].contains(c));
        }
    }
}

/// A text with a dash in it is no address.
pub proof fn range_is_no_address(lo: Seq<char>, hi: Seq<char>)
    ensures
        Ipv4Addr::spec_parse(lo.push('-') + hi) is None,
{
    let s = lo.push('-') + hi;
    let sep = is_char('.');
    assert(s[lo.len() as int] == '-');
    lemma_pieces_hold_every_character(s, sep, '-');
    let parts = split_on(s, '.');
    let k = choose|k: int| 0 <= k < parts.len() && (#[trigger] parts[k]).contains('-');
    let i = choose|i: int| 0 <= i < parts[k].len() && parts[k][i] == '-';
    if octet(parts[k]) is Some {
        assert(crate::text::is_digit(parts[k][i]));
    }
    assert(octet(parts[k]) is None);
    if parts.len() == 4 {
        assert(k == 0 || k == 1 || k == 2 || k == 3);
    }
}

/// Dotted decimal notation begins with the first octet and ends with the last.
pub proof fn addresses_are_written_octet_by_octet(addr: Ipv4Addr)
    ensures
        split_on(addr.spec_text(), '.') == seq![
            decimal(addr.spec_octets()[0] as nat),
            decimal(addr.spec_octets()[1] as nat),
            decimal(addr.spec_octets()[2] as nat),
            decimal(addr.spec_octets()[3] as nat),
        ],
{
    let o = addr.spec_octets();
    let (a, b, c, d) = (
        decimal(o[0] as nat),
        decimal(o[1] as nat),
        decimal(o[2] as nat),
        decimal(o[3] as nat),
    );
    written_number_holds_no_separator(o[0] as nat, '.');
    written_number_holds_no_separator(o[1] as nat, '.');
    written_number_holds_no_separator(o[2] as nat, '.');
    written_number_holds_no_separator(o[3] as nat, '.');
    let cd = c.push('.') + d;
    let bcd = b.push('.') + cd;
    pieces_stand_between_separators(d, '.', d);
    pieces_stand_between_separators(c, '.', d);
    pieces_stand_between_separators(b, '.', cd);
    pieces_stand_between_separators(a, '.', bcd);
    assert(addr.spec_text() =~= a.push('.') + bcd);
    assert(split_on(addr.spec_text(), '.') =~= seq![a, b, c, d]);
}

} // verus!
