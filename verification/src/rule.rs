//! Redirect rules.
use vstd::prelude::*;
use vstd::string::*;

use crate::bytes::{le_bytes16, le_bytes32};
use crate::net::{
    aton, dotted, law_dotted_injective, law_swap_twice, law_swapped_is_network_order, octet,
    push_socket, socket_text, swap16, swap32, swapped16, swapped32,
};

verus! {

/// One redirect rule. The kernel sees it as twelve bytes, its fields in order
/// and little-endian; addresses and ports are kept in network order.
#[derive(Clone, Copy, PartialEq, Eq, Debug, Structural)]
pub struct Rule {
    pub requested_ip: u32,
    pub actual_ip: u32,
    pub requested_port: u16,
    pub actual_port: u16,
}

/// The rule that redirects one socket address to another.
pub open spec fn redirect(
    requested_ip: u32,
    requested_port: u16,
    actual_ip: u32,
    actual_port: u16,
) -> Rule {
    Rule {
        requested_ip: swapped32(requested_ip),
        actual_ip: swapped32(actual_ip),
        requested_port: swapped16(requested_port),
        actual_port: swapped16(actual_port),
    }
}

/// The bytes of a rule as the kernel sees them.
pub open spec fn rule_bytes(rule: Rule) -> Seq<u8> {
    le_bytes32(rule.requested_ip) + le_bytes32(rule.actual_ip) + le_bytes16(rule.requested_port)
        + le_bytes16(rule.actual_port)
}

/// A rule as text: the requested address, an arrow and the actual one.
pub open spec fn rule_text(rule: Rule) -> Seq<char> {
    socket_text(swapped32(rule.requested_ip), swapped16(rule.requested_port)) + " <-> "@
        + socket_text(swapped32(rule.actual_ip), swapped16(rule.actual_port))
}

impl Rule {
    /// The rule that redirects `requested_ip:requested_port` to
    /// `actual_ip:actual_port`.
    pub fn new(requested_ip: u32, requested_port: u16, actual_ip: u32, actual_port: u16) -> (r:
        Self)
        ensures
            r == redirect(requested_ip, requested_port, actual_ip, actual_port),
    {
        Rule {
            requested_ip: swap32(requested_ip),
            actual_ip: swap32(actual_ip),
            requested_port: swap16(requested_port),
            actual_port: swap16(actual_port),
        }
    }

    /// The twelve bytes that are written to the rule map.
    pub fn to_bytes(&self) -> (r: [u8; 12])
        ensures
            r@ == rule_bytes(*self),
    {
        let a: u32 = self.requested_ip;
        let b: u32 = self.actual_ip;
        let c: u16 = self.requested_port;
        let d: u16 = self.actual_port;
        let out: [u8; 12] = [
            (a % 0x100) as u8,
            (a / 0x100 % 0x100) as u8,
            (a / 0x1_0000 % 0x100) as u8,
            (a / 0x100_0000) as u8,
            (b % 0x100) as u8,
            (b / 0x100 % 0x100) as u8,
            (b / 0x1_0000 % 0x100) as u8,
            (b / 0x100_0000) as u8,
            (c % 0x100) as u8,
            (c / 0x100) as u8,
            (d % 0x100) as u8,
            (d / 0x100) as u8,
        ];
        assert(out@ =~= rule_bytes(*self));
        out
    }

    /// The rule as text, such as `127.0.8.6:53 <-> 1.1.1.1:53`.
    pub fn text(&self) -> (r: String)
        ensures
            r@ == rule_text(*self),
    {
        let mut out = String::new();
        push_socket(&mut out, swap32(self.requested_ip), swap16(self.requested_port));
        out.append(" <-> ");
        push_socket(&mut out, swap32(self.actual_ip), swap16(self.actual_port));
        assert(out@ =~= rule_text(*self));
        out
    }
}

/// Which of the two addresses of a rule is not an IPv4 address.
#[derive(Clone, Copy, PartialEq, Eq, Debug, Structural)]
pub enum BadAddr {
    Bind,
    Target,
}

/// Whether `rules` is the rule list for a redirect between two socket
/// addresses: one rule, with index 0.
pub open spec fn is_rule_list(
    bind_ip: Seq<char>,
    bind_port: u16,
    target_ip: Seq<char>,
    target_port: u16,
    rules: Seq<(u32, Rule)>,
) -> bool {
    exists|b: u32, t: u32|
        bind_ip == #[trigger] dotted(b) && target_ip == #[trigger] dotted(t) && rules == seq![
            (0u32, redirect(b, bind_port, t, target_port)),
        ]
}

/// The rule list for a redirect from `bind_ip:bind_port` to
/// `target_ip:target_port`: one rule, with index 0.
pub fn rules_for(bind_ip: &str, bind_port: u16, target_ip: &str, target_port: u16) -> (r: Result<
    Vec<(u32, Rule)>,
    BadAddr,
>)
    ensures
        match r {
            Ok(rules) => is_rule_list(bind_ip@, bind_port, target_ip@, target_port, rules@),
            Err(BadAddr::Bind) => forall|b: u32| bind_ip@ != #[trigger] dotted(b),
            Err(BadAddr::Target) => {
                &&& exists|b: u32| bind_ip@ == #[trigger] dotted(b)
                &&& forall|t: u32| target_ip@ != #[trigger] dotted(t)
            },
        },
{
    let b: u32 = match aton(bind_ip) {
        Ok(b) => b,
        Err(_) => {
            return Err(BadAddr::Bind);
        },
    };
    let t: u32 = match aton(target_ip) {
        Ok(t) => t,
        Err(_) => {
            return Err(BadAddr::Target);
        },
    };
    let mut rules: Vec<(u32, Rule)> = Vec::new();
    rules.push((0, Rule::new(b, bind_port, t, target_port)));
    assert(rules@ =~= seq![(0u32, redirect(b, bind_port, t, target_port))]);
    Ok(rules)
}

/// Two addresses in dotted-quad notation and two ports have one rule list.
pub proof fn law_one_rule_list(
    bind: u32,
    bind_port: u16,
    target: u32,
    target_port: u16,
    rules: Seq<(u32, Rule)>,
)
    ensures
        is_rule_list(dotted(bind), bind_port, dotted(target), target_port, rules) <==> rules
            == seq![(0u32, redirect(bind, bind_port, target, target_port))],
{
    if is_rule_list(dotted(bind), bind_port, dotted(target), target_port, rules) {
        let (b, t) = choose|b: u32, t: u32|
            dotted(bind) == #[trigger] dotted(b) && dotted(target) == #[trigger] dotted(t) && rules
                == seq![(0u32, redirect(b, bind_port, t, target_port))];
        law_dotted_injective(bind, b);
        law_dotted_injective(target, t);
    }
}

/// There is a rule list only for two texts that are addresses in dotted-quad
/// notation, whatever the ports are.
pub proof fn law_rule_list_needs_addresses(
    bind_ip: Seq<char>,
    bind_port: u16,
    target_ip: Seq<char>,
    target_port: u16,
    rules: Seq<(u32, Rule)>,
)
    requires
        is_rule_list(bind_ip, bind_port, target_ip, target_port, rules),
    ensures
        exists|b: u32| bind_ip == #[trigger] dotted(b),
        exists|t: u32| target_ip == #[trigger] dotted(t),
        rules.len() == 1,
        rules[0].0 == 0,
{
}

/// A rule shows the addresses that it was made from.
pub proof fn law_rule_shows_its_addresses(a: u32, p: u16, b: u32, q: u16)
    ensures
        rule_text(redirect(a, p, b, q)) == socket_text(a, p) + " <-> "@ + socket_text(b, q),
{
    law_swap_twice(a, p);
    law_swap_twice(b, q);
}

/// The fields of a rule hold the addresses and ports in network order: their
/// bytes in memory, on a little-endian machine, are most significant first.
pub proof fn law_rule_fields_are_in_network_order(a: u32, p: u16, b: u32, q: u16)
    ensures
        ({
            let r = redirect(a, p, b, q);
            &&& forall|k: int|
                0 <= k < 4 ==> #[trigger] le_bytes32(r.requested_ip)[k] == octet(a, k)
            &&& forall|k: int| 0 <= k < 4 ==> #[trigger] le_bytes32(r.actual_ip)[k] == octet(b, k)
            &&& le_bytes16(r.requested_port)[0] == p / 0x100
            &&& le_bytes16(r.requested_port)[1] == p % 0x100
            &&& le_bytes16(r.actual_port)[0] == q / 0x100
            &&& le_bytes16(r.actual_port)[1] == q % 0x100
        }),
{
    law_swapped_is_network_order(a, p);
    law_swapped_is_network_order(b, q);
}

/// A rule has twelve bytes. They hold both addresses and then both ports,
/// each most significant byte first.
pub proof fn law_rule_bytes_are_in_network_order(a: u32, p: u16, b: u32, q: u16)
    ensures
        rule_bytes(redirect(a, p, b, q)).len() == 12,
        forall|k: int|
            0 <= k < 4 ==> #[trigger] rule_bytes(redirect(a, p, b, q))[k] == octet(a, k),
        forall|k: int|
            4 <= k < 8 ==> #[trigger] rule_bytes(redirect(a, p, b, q))[k] == octet(b, k - 4),
        rule_bytes(redirect(a, p, b, q))[8] == p / 0x100,
        rule_bytes(redirect(a, p, b, q))[9] == p % 0x100,
        rule_bytes(redirect(a, p, b, q))[10] == q / 0x100,
        rule_bytes(redirect(a, p, b, q))[11] == q % 0x100,
{
    law_swapped_is_network_order(a, p);
    law_swapped_is_network_order(b, q);
    let r = rule_bytes(redirect(a, p, b, q));
    assert forall|k: int| 0 <= k < 4 implies #[trigger] r[k] == octet(a, k) by {
        assert(r[k] == le_bytes32(swapped32(a))[k]);
    }
    assert forall|k: int| 4 <= k < 8 implies #[trigger] r[k] == octet(b, k - 4) by {
        assert(r[k] == le_bytes32(swapped32(b))[k - 4]);
    }
    assert(r[8] == le_bytes16(swapped16(p))[0]);
    assert(r[9] == le_bytes16(swapped16(p))[1]);
    assert(r[10] == le_bytes16(swapped16(q))[0]);
    assert(r[11] == le_bytes16(swapped16(q))[1]);
}

} // verus!
