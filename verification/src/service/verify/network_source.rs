//! Sources that are let through: addresses and networks.
use crate::error::KirinoError;
use crate::service::verify::address::{parse_v4, parse_v6, split, IpAddr};
use crate::text::chars_of;
use vstd::prelude::*;

verus! {

/// The decimal number that digits stand for; none where there is no digit or something else.
pub open spec fn digits_value(s: Seq<char>) -> Option<nat> {
    if s.len() == 0 {
        None
    } else {
        crate::service::verify::address::number_of(s, 10)
    }
}

/// The length of a prefix: a decimal number that fits 32 bits, with or without a plus sign.
pub open spec fn prefix_of(s: Seq<char>) -> Option<nat> {
    let digits = if s.len() > 0 && s[0] == '+' {
        s.skip(1)
    } else {
        s
    };
    match digits_value(digits) {
        Some(n) => if n <= u32::MAX {
            Some(n)
        } else {
            None
        },
        None => None,
    }
}

/// Whether the first bits of two addresses agree.
pub open spec fn agree(a: nat, b: nat, bits: nat, prefix: nat) -> bool {
    prefix <= bits && a / vstd::arithmetic::power2::pow2((bits - prefix) as nat) == b
        / vstd::arithmetic::power2::pow2((bits - prefix) as nat)
}

/// Whether an address lies in a network: the network is written as an address, a slash and a
/// length, or as a single address. What is written otherwise holds nothing.
pub open spec fn lies_in(ip: IpAddr, network: Seq<char>) -> bool {
    let parts = crate::service::verify::address::split_on(network, '/');
    if parts.len() != 2 {
        match ip {
            IpAddr::V4(v) => crate::service::verify::address::v4_of(network) == Some(v as nat),
            IpAddr::V6(v) => crate::service::verify::address::v6_of(network) == Some(v as nat),
        }
    } else {
        match prefix_of(parts[1]) {
            None => false,
            Some(prefix) => match ip {
                IpAddr::V4(v) => match crate::service::verify::address::v4_of(parts[0]) {
                    Some(n) => agree(v as nat, n, 32, prefix),
                    None => false,
                },
                IpAddr::V6(v) => match crate::service::verify::address::v6_of(parts[0]) {
                    Some(n) => agree(v as nat, n, 128, prefix),
                    None => false,
                },
            },
        }
    }
}

proof fn lemma_number_grows(s: Seq<char>, n: int)
    requires
        0 <= n <= s.len(),
        crate::service::verify::address::number_of(s, 10) is Some,
    ensures
        crate::service::verify::address::number_of(s.take(n), 10) is Some,
        crate::service::verify::address::number_of(s.take(n), 10)->Some_0 <= crate::service::verify::address::number_of(
            s,
            10,
        )->Some_0,
    decreases s.len() - n,
{
    if n < s.len() {
        let t = s.drop_last();
        assert(t.take(n) =~= s.take(n));
        lemma_number_grows(t, n);
        let a = crate::service::verify::address::number_of(t, 10)->Some_0;
        assert(a * 10 >= a);
    } else {
        assert(s.take(n) =~= s);
    }
}

/// The decimal number that characters stand for, where it fits 32 bits.
fn read_prefix(s: &Vec<char>) -> (r: Option<u32>)
    ensures
        match r {
            Some(n) => prefix_of(s@) == Some(n as nat),
            None => prefix_of(s@) is None,
        },
{
    let mut i: usize = 0;
    if s.len() > 0 && s[0] == '+' {
        i = 1;
    }
    let ghost from: int = i as int;
    let ghost digits = s@.skip(from);
    assert(s@.skip(0) =~= s@);
    if i >= s.len() {
        return None;
    }
    let mut n: u64 = 0;
    assert(digits.take(0) =~= Seq::<char>::empty());
    while i < s.len()
        invariant
            0 <= from <= i <= s@.len(),
            from < s@.len(),
            digits == s@.skip(from),
            digits == (if s@.len() > 0 && s@[0] == '+' {
                s@.skip(1)
            } else {
                s@
            }),
            digits.len() > 0,
            n <= u32::MAX,
            crate::service::verify::address::number_of(digits.take(i - from), 10) == Some(n as nat),
        decreases s.len() - i,
    {
        let c = s[i];
        let ghost now = digits.take(i + 1 - from);
        assert(now.drop_last() =~= digits.take(i - from));
        assert(now.last() == c);
        if !('0' <= c && c <= '9') {
            proof {
                assert(crate::service::verify::address::number_of(now, 10) is None);
                if crate::service::verify::address::number_of(digits, 10) is Some {
                    lemma_number_grows(digits, i + 1 - from);
                }
            }
            return None;
        }
        let d: u64 = (c as u32 - '0' as u32) as u64;
        n = n * 10 + d;
        assert(crate::service::verify::address::number_of(now, 10) == Some(n as nat));
        if n > u32::MAX as u64 {
            proof {
                if crate::service::verify::address::number_of(digits, 10) is Some {
                    lemma_number_grows(digits, i + 1 - from);
                }
            }
            return None;
        }
        i = i + 1;
    }
    assert(digits.take(digits.len() as int) =~= digits);
    Some(n as u32)
}

/// The text of characters.
fn text_of(chars: &Vec<char>) -> (r: String)
    ensures
        r@ == chars@,
{
    let mut r = String::new();
    let mut i: usize = 0;
    while i < chars.len()
        invariant
            i <= chars@.len(),
            r@ == chars@.take(i as int),
        decreases chars.len() - i,
    {
        r.push(chars[i]);
        assert(r@ =~= chars@.take(i + 1));
        i = i + 1;
    }
    assert(chars@.take(chars@.len() as int) =~= chars@);
    r
}

/// Whether the first bits of two addresses of 32 bits agree.
fn agree_v4(ip: u32, network: u32, prefix: u32) -> (r: bool)
    ensures
        r == agree(ip as nat, network as nat, 32, prefix as nat),
{
    if prefix > 32 {
        return false;
    }
    if prefix == 0 {
        proof {
            vstd::arithmetic::power2::lemma2_to64();
            assert(ip as nat / 0x1_0000_0000 == 0 && network as nat / 0x1_0000_0000 == 0);
        }
        return true;
    }
    let k: u32 = 32 - prefix;
    proof {
        vstd::bits::lemma_u32_shr_is_div(ip, k);
        vstd::bits::lemma_u32_shr_is_div(network, k);
    }
    (ip >> k) == (network >> k)
}

/// Whether the first bits of two addresses of 128 bits agree.
fn agree_v6(ip: u128, network: u128, prefix: u32) -> (r: bool)
    ensures
        r == agree(ip as nat, network as nat, 128, prefix as nat),
{
    if prefix > 128 {
        return false;
    }
    if prefix == 0 {
        proof {
            lemma_all_of_128(ip);
            lemma_all_of_128(network);
        }
        return true;
    }
    let k: u32 = 128 - prefix;
    proof {
        lemma_shift_is_division(ip, k);
        lemma_shift_is_division(network, k);
    }
    (ip >> k) == (network >> k)
}

proof fn lemma_all_of_128(x: u128)
    ensures
        x as nat / vstd::arithmetic::power2::pow2(128) == 0,
{
    vstd::arithmetic::power2::lemma2_to64();
    vstd::arithmetic::power2::lemma_pow2_adds(64, 64);
    assert(vstd::arithmetic::power2::pow2(128) == 0x1_0000_0000_0000_0000 * 0x1_0000_0000_0000_0000);
    vstd::arithmetic::div_mod::lemma_basic_div(x as int, vstd::arithmetic::power2::pow2(128) as int);
}

proof fn lemma_shift_is_division(x: u128, k: u32)
    requires
        k < 128,
    ensures
        (x >> k) as nat == x as nat / vstd::arithmetic::power2::pow2(k as nat),
    decreases k,
{
    if k == 0 {
        assert(x >> 0u32 == x) by (bit_vector);
        vstd::arithmetic::power2::lemma2_to64();
        assert(x as nat / 1 == x as nat);
    } else {
        let j: u32 = (k - 1) as u32;
        lemma_shift_is_division(x, j);
        assert(x >> k == (x >> j) / 2) by (bit_vector)
            requires
                k < 128,
                j == k - 1,
        ;
        vstd::arithmetic::power2::lemma_pow2_adds(j as nat, 1);
        vstd::arithmetic::power2::lemma2_to64();
        vstd::arithmetic::power2::lemma_pow2_pos(j as nat);
        vstd::arithmetic::div_mod::lemma_div_denominator(
            x as int,
            vstd::arithmetic::power2::pow2(j as nat) as int,
            2,
        );
    }
}

/// Whether an address lies in a network.
fn ip_in_cidr(ip: IpAddr, network: &str) -> (r: bool)
    ensures
        r == lies_in(ip, network@),
{
    let parts = split(&chars_of(network), '/');
    let ghost shown = crate::service::verify::address::split_on(network@, '/');
    assert(shown.len() == parts@.len());
    if parts.len() != 2 {
        return match ip {
            IpAddr::V4(v) => match parse_v4(network) {
                Some(a) => a == v,
                None => false,
            },
            IpAddr::V6(v) => match parse_v6(network) {
                Some(a) => a == v,
                None => false,
            },
        };
    }
    assert(shown[0] == parts@[0]@ && shown[1] == parts@[1]@);
    let prefix: u32 = match read_prefix(&parts[1]) {
        Some(n) => n,
        None => {
            return false;
        },
    };
    let address = text_of(&parts[0]);
    match ip {
        IpAddr::V4(v) => match parse_v4(address.as_str()) {
            Some(n) => agree_v4(v, n, prefix),
            None => false,
        },
        IpAddr::V6(v) => match parse_v6(address.as_str()) {
            Some(n) => agree_v6(v, n, prefix),
            None => false,
        },
    }
}

/// Sources that are let through.
pub struct NetworkSourceVerifier {
    allowed_networks: Vec<String>,
}

impl NetworkSourceVerifier {
    /// The networks as they were given.
    pub closed spec fn networks(&self) -> Seq<Seq<char>> {
        crate::rbac::traits::texts_of(self.allowed_networks@)
    }

    /// A verifier for some networks, which are taken as they are.
    #[must_use]
    pub fn new(allowed_networks: Vec<String>) -> (r: Self)
        ensures
            r.networks() == crate::rbac::traits::texts_of(allowed_networks@),
    {
        NetworkSourceVerifier { allowed_networks }
    }

    /// Whether a source lies in one of the networks.
    pub fn is_allowed(&self, source_ip: IpAddr) -> (r: Result<bool, KirinoError>)
        ensures
            r is Ok,
            r->Ok_0 == exists|i: int| 0 <= i < self.networks().len() && lies_in(source_ip, #[trigger] self.networks()[i]),
    {
        let mut i: usize = 0;
        while i < self.allowed_networks.len()
            invariant
                i <= self.allowed_networks@.len(),
                forall|j: int| 0 <= j < i ==> !lies_in(source_ip, #[trigger] self.networks()[j]),
            decreases self.allowed_networks.len() - i,
        {
            if ip_in_cidr(source_ip, self.allowed_networks[i].as_str()) {
                assert(lies_in(source_ip, self.networks()[i as int]));
                return Ok(true);
            }
            i = i + 1;
        }
        Ok(false)
    }

    /// The networks as they were given.
    #[must_use]
    pub fn allowed_networks(&self) -> (r: &Vec<String>)
        ensures
            crate::rbac::traits::texts_of(r@) == self.networks(),
    {
        &self.allowed_networks
    }
}

/// With no network nothing is let through.
pub proof fn law_no_network_admits_nothing(networks: Seq<Seq<char>>, ip: IpAddr)
    requires
        networks.len() == 0,
    ensures
        !(exists|i: int| 0 <= i < networks.len() && lies_in(ip, #[trigger] networks[i])),
{
}

/// A network with a prefix of length zero holds every address of its kind, and one with the full
/// length only its own.
pub proof fn law_prefix_lengths(a: nat, b: nat, bits: nat)
    requires
        a < vstd::arithmetic::power2::pow2(bits),
        b < vstd::arithmetic::power2::pow2(bits),
    ensures
        agree(a, b, bits, 0),
        agree(a, b, bits, bits) <==> a == b,
{
    vstd::arithmetic::power2::lemma2_to64();
    vstd::arithmetic::div_mod::lemma_basic_div(a as int, vstd::arithmetic::power2::pow2(bits) as int);
    vstd::arithmetic::div_mod::lemma_basic_div(b as int, vstd::arithmetic::power2::pow2(bits) as int);
    assert(a / 1 == a && b / 1 == b);
}

/// A shorter prefix holds all that a longer one holds.
pub proof fn law_shorter_prefix_holds_more(a: nat, b: nat, bits: nat, long: nat, short: nat)
    requires
        agree(a, b, bits, long),
        short <= long,
    ensures
        agree(a, b, bits, short),
{
    let p = vstd::arithmetic::power2::pow2((bits - long) as nat);
    let q = vstd::arithmetic::power2::pow2((long - short) as nat);
    vstd::arithmetic::power2::lemma_pow2_adds((bits - long) as nat, (long - short) as nat);
    vstd::arithmetic::power2::lemma_pow2_pos((bits - long) as nat);
    vstd::arithmetic::power2::lemma_pow2_pos((long - short) as nat);
    vstd::arithmetic::div_mod::lemma_div_denominator(a as int, p as int, q as int);
    vstd::arithmetic::div_mod::lemma_div_denominator(b as int, p as int, q as int);
}

/// A network that is written as an address and a length holds exactly the addresses of its kind whose
/// first bits, as many as the length says, are those of its address: each of them is let through, and if
/// there is no other network, nothing else is.
pub proof fn law_network_holds_what_begins_alike(
    list: Vec<String>,
    verifier: NetworkSourceVerifier,
    address: &str,
    four: Option<u32>,
    eight: Option<u128>,
    prefix: u32,
    ip: IpAddr,
    r: Result<bool, KirinoError>,
    k: int,
)
    requires
        call_ensures(NetworkSourceVerifier::new, (list,), verifier),
        call_ensures(NetworkSourceVerifier::is_allowed, (&verifier, ip), r),
        call_ensures(parse_v4, (address,), four),
        call_ensures(parse_v6, (address,), eight),
        crate::service::verify::address::is_free_of(address@, '/'),
        0 <= k < list@.len(),
        list@[k]@ == address@ + "/"@ + crate::text::decimal_text(prefix as nat),
    ensures
        r is Ok,
        ({
            let alike = match ip {
                IpAddr::V4(v) => four is Some && prefix <= 32 && v as nat / vstd::arithmetic::power2::pow2(
                    (32 - prefix) as nat,
                ) == four->Some_0 as nat / vstd::arithmetic::power2::pow2((32 - prefix) as nat),
                IpAddr::V6(v) => eight is Some && prefix <= 128 && v as nat / vstd::arithmetic::power2::pow2(
                    (128 - prefix) as nat,
                ) == eight->Some_0 as nat / vstd::arithmetic::power2::pow2((128 - prefix) as nat),
            };
            &&& alike ==> r->Ok_0
            &&& list@.len() == 1 && r->Ok_0 ==> alike
        }),
{
    reveal_strlit("/");
    assert("/"@ =~= seq!['/']);
    let digits = crate::text::decimal_text(prefix as nat);
    let parts = seq![address@, digits];
    let text = list@[k]@;
    crate::service::verify::address::lemma_numeral_digits(prefix as nat);
    crate::service::verify::address::lemma_number_of_numeral(prefix as nat);
    assert(parts.skip(1) =~= seq![digits]);
    assert(crate::service::verify::address::joined(parts.skip(1), '/') == digits);
    assert(crate::service::verify::address::joined(parts, '/') =~= text);
    assert forall|i: int| 0 <= i < parts.len() implies crate::service::verify::address::is_free_of(
        #[trigger] parts[i],
        '/',
    ) by {}
    crate::service::verify::address::lemma_split_joined(parts, '/');
    assert(verifier.networks()[k] == text);
    assert(prefix_of(digits) == Some(prefix as nat));
    assert(lies_in(ip, verifier.networks()[k]) ==> r->Ok_0);
    assert(list@.len() == 1 ==> r->Ok_0 == lies_in(ip, verifier.networks()[0]));
}

/// A network that is written without a length is that address alone.
pub proof fn law_single_address_holds_itself(
    list: Vec<String>,
    verifier: NetworkSourceVerifier,
    address: &str,
    four: Option<u32>,
    eight: Option<u128>,
    ip: IpAddr,
    r: Result<bool, KirinoError>,
)
    requires
        call_ensures(NetworkSourceVerifier::new, (list,), verifier),
        call_ensures(NetworkSourceVerifier::is_allowed, (&verifier, ip), r),
        call_ensures(parse_v4, (address,), four),
        call_ensures(parse_v6, (address,), eight),
        crate::service::verify::address::is_free_of(address@, '/'),
        list@.len() == 1,
        list@[0]@ == address@,
    ensures
        r is Ok,
        ip matches IpAddr::V4(v) ==> (r->Ok_0 <==> four == Some(v)),
        ip matches IpAddr::V6(v) ==> (r->Ok_0 <==> eight == Some(v)),
{
    let parts = seq![address@];
    assert(crate::service::verify::address::joined(parts, '/') == address@);
    crate::service::verify::address::lemma_split_joined(parts, '/');
    assert(verifier.networks()[0] == address@);
    assert(r->Ok_0 == lies_in(ip, verifier.networks()[0]));
}

/// With no network nothing is let through.
pub proof fn law_nothing_is_let_through_by_none(
    list: Vec<String>,
    verifier: NetworkSourceVerifier,
    ip: IpAddr,
    r: Result<bool, KirinoError>,
)
    requires
        call_ensures(NetworkSourceVerifier::new, (list,), verifier),
        call_ensures(NetworkSourceVerifier::is_allowed, (&verifier, ip), r),
        list@.len() == 0,
    ensures
        r is Ok && !r->Ok_0,
{
}

/// The networks are given back as they were given.
pub proof fn law_networks_are_kept(list: Vec<String>, made: NetworkSourceVerifier, kept: &Vec<String>, i: int)
    requires
        call_ensures(NetworkSourceVerifier::new, (list,), made),
        call_ensures(NetworkSourceVerifier::allowed_networks, (&made,), kept),
        0 <= i < list@.len(),
    ensures
        kept@.len() == list@.len(),
        kept@[i]@ == list@[i]@,
{
    assert(crate::rbac::traits::texts_of(kept@).len() == crate::rbac::traits::texts_of(list@).len());
    assert(crate::rbac::traits::texts_of(kept@)[i] == crate::rbac::traits::texts_of(list@)[i]);
}

} // verus!
