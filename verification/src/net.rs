//! IPv4 addresses: dotted-quad text and byte order.
use vstd::arithmetic::div_mod::lemma_fundamental_div_mod_converse;
use vstd::prelude::*;

use crate::bytes::{le_bytes16, le_bytes32};
use crate::text::{
    all_digits, chars_of, dec, digits_value, is_digit, law_decimal_notation_is_unique,
    law_port_text_read_back, lemma_dec_read_back, lemma_dec_shape, push_dec, u16_text,
};

verus! {

/// The text is not a dotted-quad IPv4 address.
#[derive(Clone, Copy, PartialEq, Eq, Debug, Structural)]
pub struct AddrParseError;

impl AddrParseError {
    /// The message of the error.
    pub fn message(self) -> (r: &'static str)
        ensures
            r@ == "invalid IPv4 address syntax"@,
    {
        "invalid IPv4 address syntax"
    }
}

/// Octet `k` of `ip`, counted from the most significant one.
pub open spec fn octet(ip: u32, k: int) -> nat {
    if k == 0 {
        (ip / 0x100_0000) as nat
    } else if k == 1 {
        (ip / 0x1_0000 % 0x100) as nat
    } else if k == 2 {
        (ip / 0x100 % 0x100) as nat
    } else {
        (ip % 0x100) as nat
    }
}

/// `ip` in dotted-quad notation.
pub open spec fn dotted(ip: u32) -> Seq<char> {
    dec(octet(ip, 0)) + seq!['.'] + dec(octet(ip, 1)) + seq!['.'] + dec(octet(ip, 2)) + seq!['.']
        + dec(octet(ip, 3))
}

/// `ip` in dotted-quad notation, then `:` and the port.
pub open spec fn socket_text(ip: u32, port: u16) -> Seq<char> {
    dotted(ip) + seq![':'] + dec(port as nat)
}

/// Appends `ip:port` to `out`.
pub fn push_socket(out: &mut String, ip: u32, port: u16)
    ensures
        final(out)@ == old(out)@ + socket_text(ip, port),
{
    push_dec(out, (ip / 0x100_0000) as u64);
    out.push('.');
    push_dec(out, (ip / 0x1_0000 % 0x100) as u64);
    out.push('.');
    push_dec(out, (ip / 0x100 % 0x100) as u64);
    out.push('.');
    push_dec(out, (ip % 0x100) as u64);
    out.push(':');
    push_dec(out, port as u64);
    assert(out@ =~= old(out)@ + socket_text(ip, port));
}

/// Whether the digits of `s` from `p` on end at `q` and are the decimal
/// notation of `n`.
pub open spec fn number_ends(s: Seq<char>, p: int, n: nat, q: int) -> bool {
    &&& 0 <= p <= q <= s.len()
    &&& s.subrange(p, q) == dec(n)
    &&& q == s.len() || !is_digit(s[q])
}

/// Where a run of digits starts, at most one number ends it.
proof fn lemma_number_unique(s: Seq<char>, p: int, n1: nat, q1: int, n2: nat, q2: int)
    requires
        number_ends(s, p, n1, q1),
        number_ends(s, p, n2, q2),
    ensures
        n1 == n2,
        q1 == q2,
{
    lemma_dec_read_back(n1);
    lemma_dec_read_back(n2);
    if q1 < q2 {
        assert(is_digit(s.subrange(p, q2)[q1 - p]));
    } else if q2 < q1 {
        assert(is_digit(s.subrange(p, q1)[q2 - p]));
    }
}

/// Reads an octet that starts at `p`: its value and where it ends.
fn read_octet(cs: &Vec<char>, p: usize) -> (r: Option<(u32, usize)>)
    requires
        p <= cs@.len(),
    ensures
        match r {
            Some((v, q)) => v < 0x100 && number_ends(cs@, p as int, v as nat, q as int),
            None => forall|n: nat, q: int|
                #![trigger number_ends(cs@, p as int, n, q)]
                n < 0x100 ==> !number_ends(cs@, p as int, n, q),
        },
{
    let ghost s = cs@;
    let mut q: usize = p;
    let mut v: u32 = 0;
    while q < cs.len() && '0' <= cs[q] && cs[q] <= '9'
        invariant
            p <= q <= cs@.len(),
            q - p <= 3,
            s == cs@,
            all_digits(s.subrange(p as int, q as int)),
            v == digits_value(s.subrange(p as int, q as int)),
            q - p == 0 ==> v == 0,
            q - p == 1 ==> v < 10,
            q - p == 2 ==> v < 100,
            q - p == 3 ==> v < 1000,
        ensures
            q == s.len() || !is_digit(s[q as int]),
        decreases cs@.len() - q,
    {
        let ghost run = s.subrange(p as int, q as int);
        let ghost longer = s.subrange(p as int, q + 1);
        assert(longer.drop_last() =~= run);
        assert(longer.last() == s[q as int]);
        assert(all_digits(longer)) by {
            assert forall|i: int| 0 <= i < longer.len() implies is_digit(#[trigger] longer[i]) by {
                if i < run.len() {
                    assert(longer[i] == run[i]);
                }
            }
        }
        if q - p == 3 {
            assert forall|n: nat, e: int|
                #![trigger number_ends(s, p as int, n, e)]
                n < 0x100 implies !number_ends(s, p as int, n, e) by {
                if number_ends(s, p as int, n, e) {
                    lemma_dec_shape(n);
                    if e <= q {
                        assert(is_digit(longer[e - p]));
                    }
                }
            }
            return None;
        }
        v = 10 * v + (cs[q] as u32 - 0x30);
        q += 1;
    }
    let ghost run = s.subrange(p as int, q as int);
    if q == p || v >= 0x100 || (q - p > 1 && cs[p] == '0') {
        assert forall|n: nat, e: int|
            #![trigger number_ends(s, p as int, n, e)]
            n < 0x100 implies !number_ends(s, p as int, n, e) by {
            if number_ends(s, p as int, n, e) {
                lemma_dec_read_back(n);
                lemma_dec_shape(n);
                if e < q {
                    assert(is_digit(run[e - p]));
                } else if q < e {
                    assert(is_digit(s.subrange(p as int, e)[q - p]));
                }
                assert(e == q);
                assert(run == dec(n));
            }
        }
        return None;
    }
    proof {
        assert(run[0] == s[p as int]);
        law_decimal_notation_is_unique(run);
    }
    Some((v, q))
}

/// Where octet `k` of the dotted-quad notation of `ip` starts.
spec fn octet_start(ip: u32, k: int) -> int
    decreases k,
{
    if k <= 0 {
        0
    } else {
        octet_start(ip, k - 1) + dec(octet(ip, k - 1)).len() + 1
    }
}

/// Where octet `k` of the dotted-quad notation of `ip` ends.
spec fn octet_end(ip: u32, k: int) -> int {
    octet_start(ip, k) + dec(octet(ip, k)).len()
}

proof fn lemma_dotted_layout(s: Seq<char>, ip: u32, k: int)
    requires
        s == dotted(ip),
        0 <= k < 4,
    ensures
        number_ends(s, octet_start(ip, k), octet(ip, k), octet_end(ip, k)),
        k < 3 ==> octet_end(ip, k) < s.len() && s[octet_end(ip, k)] == '.',
        k == 3 ==> octet_end(ip, k) == s.len(),
        octet(ip, k) < 0x100,
{
    reveal_with_fuel(octet_start, 5);
    let e0 = octet_end(ip, 0);
    let e1 = octet_end(ip, 1);
    let e2 = octet_end(ip, 2);
    let e3 = octet_end(ip, 3);
    assert(s.subrange(0, e0) =~= dec(octet(ip, 0)));
    assert(s.subrange(e0 + 1, e1) =~= dec(octet(ip, 1)));
    assert(s.subrange(e1 + 1, e2) =~= dec(octet(ip, 2)));
    assert(s.subrange(e2 + 1, e3) =~= dec(octet(ip, 3)));
}

/// What an octet read at its place tells of every address that the whole text
/// might denote.
spec fn pins(s: Seq<char>, k: int, n: nat, q: int) -> bool {
    forall|ip: u32| s == #[trigger] dotted(ip) ==> octet(ip, k) == n && octet_end(ip, k) == q
}

proof fn lemma_pins(s: Seq<char>, k: int, p: int, n: nat, q: int)
    requires
        0 <= k < 4,
        number_ends(s, p, n, q),
        forall|ip: u32| s == #[trigger] dotted(ip) ==> octet_start(ip, k) == p,
    ensures
        pins(s, k, n, q),
{
    assert forall|ip: u32| s == #[trigger] dotted(ip) implies octet(ip, k) == n && octet_end(
        ip,
        k,
    ) == q by {
        lemma_dotted_layout(s, ip, k);
        lemma_number_unique(s, p, n, q, octet(ip, k), octet_end(ip, k));
    }
}

proof fn lemma_next_start(s: Seq<char>, k: int, n: nat, q: int)
    requires
        0 <= k < 3,
        pins(s, k, n, q),
    ensures
        forall|ip: u32| s == #[trigger] dotted(ip) ==> octet_start(ip, k + 1) == q + 1,
{
    reveal_with_fuel(octet_start, 2);
}

/// Reads octet `k`, which starts at `p`, together with what follows it: a dot
/// after the first three, the end of the text after the last.
fn read_part(cs: &Vec<char>, k: usize, p: usize) -> (r: Option<(u32, usize)>)
    requires
        k < 4,
        p <= cs@.len(),
        forall|ip: u32| cs@ == #[trigger] dotted(ip) ==> octet_start(ip, k as int) == p,
    ensures
        match r {
            Some((v, q)) => {
                &&& v < 0x100
                &&& number_ends(cs@, p as int, v as nat, q as int)
                &&& pins(cs@, k as int, v as nat, q as int)
                &&& k < 3 ==> q < cs@.len() && cs@[q as int] == '.'
                &&& k == 3 ==> q == cs@.len()
            },
            None => forall|ip: u32| cs@ != #[trigger] dotted(ip),
        },
{
    let ghost s = cs@;
    let (v, q): (u32, usize) = match read_octet(cs, p) {
        Some(x) => x,
        None => {
            assert forall|ip: u32| s != #[trigger] dotted(ip) by {
                if s == dotted(ip) {
                    lemma_dotted_layout(s, ip, k as int);
                }
            }
            return None;
        },
    };
    proof {
        lemma_pins(s, k as int, p as int, v as nat, q as int);
    }
    let follows: bool = if k < 3 {
        q < cs.len() && cs[q] == '.'
    } else {
        q == cs.len()
    };
    if follows {
        Some((v, q))
    } else {
        assert forall|ip: u32| s != #[trigger] dotted(ip) by {
            if s == dotted(ip) {
                lemma_dotted_layout(s, ip, k as int);
            }
        }
        None
    }
}

/// A text made of four numbers, each but the last followed by a dot.
proof fn lemma_quad(w: Seq<char>, a: (nat, int), b: (nat, int), c: (nat, int), d: nat)
    requires
        number_ends(w, 0, a.0, a.1),
        number_ends(w, a.1 + 1, b.0, b.1),
        number_ends(w, b.1 + 1, c.0, c.1),
        number_ends(w, c.1 + 1, d, w.len() as int),
        w[a.1] == '.',
        w[b.1] == '.',
        w[c.1] == '.',
    ensures
        w == dec(a.0) + seq!['.'] + dec(b.0) + seq!['.'] + dec(c.0) + seq!['.'] + dec(d),
{
    assert(w =~= w.subrange(0, a.1) + seq!['.'] + w.subrange(a.1 + 1, b.1) + seq!['.']
        + w.subrange(b.1 + 1, c.1) + seq!['.'] + w.subrange(c.1 + 1, w.len() as int));
}

/// Parses a dotted-quad IPv4 address. Exactly the texts are accepted that are
/// the dotted-quad notation of some address: four decimal octets without
/// leading zeros.
pub fn aton(s: &str) -> (r: Result<u32, AddrParseError>)
    ensures
        match r {
            Ok(ip) => s@ == dotted(ip),
            Err(_) => forall|ip: u32| s@ != #[trigger] dotted(ip),
        },
{
    let cs = chars_of(s);
    let (a, p): (u32, usize) = match read_part(&cs, 0, 0) {
        Some(x) => x,
        None => {
            return Err(AddrParseError);
        },
    };
    assert(p < cs.len());
    proof {
        lemma_next_start(s@, 0, a as nat, p as int);
    }
    let (b, q): (u32, usize) = match read_part(&cs, 1, p + 1) {
        Some(x) => x,
        None => {
            return Err(AddrParseError);
        },
    };
    assert(q < cs.len());
    proof {
        lemma_next_start(s@, 1, b as nat, q as int);
    }
    let (c, t): (u32, usize) = match read_part(&cs, 2, q + 1) {
        Some(x) => x,
        None => {
            return Err(AddrParseError);
        },
    };
    assert(t < cs.len());
    proof {
        lemma_next_start(s@, 2, c as nat, t as int);
    }
    let (d, e): (u32, usize) = match read_part(&cs, 3, t + 1) {
        Some(x) => x,
        None => {
            return Err(AddrParseError);
        },
    };
    let ip: u32 = 0x100_0000 * a + 0x1_0000 * b + 0x100 * c + d;
    proof {
        lemma_quad(s@, (a as nat, p as int), (b as nat, q as int), (c as nat, t as int), d as nat);
        lemma_octets_of_sum(ip, a as nat, b as nat, c as nat, d as nat);
    }
    Ok(ip)
}

proof fn lemma_same_octet(a: u32, b: u32, k: int)
    requires
        dotted(a) == dotted(b),
        0 <= k < 4,
    ensures
        octet(a, k) == octet(b, k),
        octet_start(a, k) == octet_start(b, k),
    decreases k,
{
    let s = dotted(a);
    if k > 0 {
        lemma_same_octet(a, b, k - 1);
    }
    lemma_dotted_layout(s, a, k);
    lemma_dotted_layout(s, b, k);
    lemma_number_unique(
        s,
        octet_start(a, k),
        octet(a, k),
        octet_end(a, k),
        octet(b, k),
        octet_end(b, k),
    );
}

/// Different addresses have different notations.
pub proof fn law_dotted_injective(a: u32, b: u32)
    requires
        dotted(a) == dotted(b),
    ensures
        a == b,
{
    lemma_same_octet(a, b, 0);
    lemma_same_octet(a, b, 1);
    lemma_same_octet(a, b, 2);
    lemma_same_octet(a, b, 3);
    lemma_octets(a);
    lemma_octets(b);
}

/// The octets of an address are the digits of its number to the base 256.
pub proof fn law_octets_make_the_address(ip: u32, k: int)
    ensures
        ip == 0x100_0000 * octet(ip, 0) + 0x1_0000 * octet(ip, 1) + 0x100 * octet(ip, 2) + octet(
            ip,
            3,
        ),
        0 <= k < 4 ==> octet(ip, k) < 0x100,
{
    lemma_octets(ip);
}

/// An address is shown by its four octets, the most significant one first.
pub proof fn law_address_by_octets(a: u8, b: u8, c: u8, d: u8)
    ensures
        dotted((0x100_0000 * a + 0x1_0000 * b + 0x100 * c + d) as u32) == dec(a as nat)
            + seq!['.'] + dec(b as nat) + seq!['.'] + dec(c as nat) + seq!['.'] + dec(d as nat),
{
    let ip = (0x100_0000 * a + 0x1_0000 * b + 0x100 * c + d) as u32;
    lemma_octets_of_sum(ip, a as nat, b as nat, c as nat, d as nat);
}

/// The notation of a socket address is that of the IP address, a colon and
/// the port, which can be read from it.
pub proof fn law_socket_shows_address_and_port(ip: u32, port: u16)
    ensures
        ({
            let n = dotted(ip).len() as int;
            let s = socket_text(ip, port);
            &&& s.len() > n
            &&& s.take(n) == dotted(ip)
            &&& s[n] == ':'
            &&& u16_text(s.skip(n + 1)) == Some(port)
        }),
{
    let n = dotted(ip).len() as int;
    let s = socket_text(ip, port);
    law_port_text_read_back(port);
    assert(s.take(n) =~= dotted(ip));
    assert(s.skip(n + 1) =~= dec(port as nat));
}

/// An address is the sum of its weighted octets.
proof fn lemma_octets(ip: u32)
    ensures
        ip == 0x100_0000 * octet(ip, 0) + 0x1_0000 * octet(ip, 1) + 0x100 * octet(ip, 2) + octet(
            ip,
            3,
        ),
        octet(ip, 0) < 0x100,
        octet(ip, 1) < 0x100,
        octet(ip, 2) < 0x100,
        octet(ip, 3) < 0x100,
{
}

/// The octets of a sum of weighted octets.
proof fn lemma_octets_of_sum(ip: u32, a: nat, b: nat, c: nat, d: nat)
    requires
        a < 0x100,
        b < 0x100,
        c < 0x100,
        d < 0x100,
        ip == 0x100_0000 * a + 0x1_0000 * b + 0x100 * c + d,
    ensures
        octet(ip, 0) == a,
        octet(ip, 1) == b,
        octet(ip, 2) == c,
        octet(ip, 3) == d,
{
    let x = ip as int;
    let abc = 0x1_0000 * a + 0x100 * b + c;
    let ab = 0x100 * a + b;
    lemma_fundamental_div_mod_converse(x, 0x100, abc as int, d as int);
    lemma_fundamental_div_mod_converse(x, 0x1_0000, ab as int, (0x100 * c + d) as int);
    lemma_fundamental_div_mod_converse(x, 0x100_0000, a as int, (0x1_0000 * b + 0x100 * c + d) as int);
    lemma_fundamental_div_mod_converse(abc as int, 0x100, ab as int, c as int);
    lemma_fundamental_div_mod_converse(ab as int, 0x100, a as int, b as int);
}

/// `x` with its two bytes in reverse order.
pub open spec fn swapped16(x: u16) -> u16 {
    (0x100 * (x % 0x100) + x / 0x100) as u16
}

/// `x` with its four bytes in reverse order.
pub open spec fn swapped32(x: u32) -> u32 {
    (0x100_0000 * (x % 0x100) + 0x1_0000 * (x / 0x100 % 0x100) + 0x100 * (x / 0x1_0000 % 0x100) + x
        / 0x100_0000) as u32
}

/// Turns a host-order `u16` of a little-endian machine into network order,
/// and back.
pub fn swap16(x: u16) -> (r: u16)
    ensures
        r == swapped16(x),
{
    0x100 * (x % 0x100) + x / 0x100
}

/// Turns a host-order `u32` of a little-endian machine into network order,
/// and back.
pub fn swap32(x: u32) -> (r: u32)
    ensures
        r == swapped32(x),
{
    0x100_0000 * (x % 0x100) + 0x1_0000 * (x / 0x100 % 0x100) + 0x100 * (x / 0x1_0000 % 0x100) + x
        / 0x100_0000
}

proof fn lemma_swapped_octets(x: u32)
    ensures
        octet(swapped32(x), 0) == octet(x, 3),
        octet(swapped32(x), 1) == octet(x, 2),
        octet(swapped32(x), 2) == octet(x, 1),
        octet(swapped32(x), 3) == octet(x, 0),
{
    lemma_octets(x);
    lemma_octets_of_sum(swapped32(x), octet(x, 3), octet(x, 2), octet(x, 1), octet(x, 0));
}

/// Swapping the bytes twice gives the number back.
pub proof fn law_swap_twice(x: u32, y: u16)
    ensures
        swapped32(swapped32(x)) == x,
        swapped16(swapped16(y)) == y,
{
    lemma_swapped_octets(x);
    lemma_swapped_octets(swapped32(x));
    lemma_octets(x);
    lemma_octets(swapped32(swapped32(x)));
    assert(swapped16(swapped16(y)) == y);
}

/// The little-endian bytes of a swapped number are the number's big-endian
/// bytes: most significant byte first.
pub proof fn law_swapped_is_network_order(x: u32, y: u16)
    ensures
        forall|k: int| 0 <= k < 4 ==> #[trigger] le_bytes32(swapped32(x))[k] == octet(x, k),
        le_bytes16(swapped16(y)) == seq![(y / 0x100) as u8, (y % 0x100) as u8],
{
    lemma_swapped_octets(x);
    let z = swapped32(x);
    assert(le_bytes32(z)[0] == octet(z, 3));
    assert(le_bytes32(z)[1] == octet(z, 2));
    assert(le_bytes32(z)[2] == octet(z, 1));
    assert(le_bytes32(z)[3] == octet(z, 0));
    assert(le_bytes16(swapped16(y)) =~= seq![(y / 0x100) as u8, (y % 0x100) as u8]);
}

} // verus!
