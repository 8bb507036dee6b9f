//! Settings from the kernel command line.
use vstd::prelude::*;
use vstd::string::*;

use crate::text::{
    chars_of, dec, law_port_text_read_back, law_split_join, lemma_split_concat, lemma_split_whole,
    opt_text, parse_u16, split, split_at_char, string_of, text_of, u16_text, utf8_lossy, views,
};

verus! {

/// Port of a name server.
pub const NAMESERVER_PORT: u16 = 53;

/// The key of the upstream DNS server.
pub open spec fn gateway_key() -> Seq<char> {
    "dnslink.gateway"@
}

/// The key of the upstream port.
pub open spec fn port_key() -> Seq<char> {
    "dnslink.port"@
}

/// What follows `prefix` in the first of the tokens that starts with it.
pub open spec fn first_with_prefix(tokens: Seq<Seq<char>>, prefix: Seq<char>) -> Option<Seq<char>>
    decreases tokens.len(),
{
    if tokens.len() == 0 {
        None
    } else if prefix.is_prefix_of(tokens[0]) {
        Some(tokens[0].skip(prefix.len() as int))
    } else {
        first_with_prefix(tokens.drop_first(), prefix)
    }
}

/// The command line in the text of `/proc/cmdline`, which ends it with a
/// newline.
pub open spec fn line_of(text: Seq<char>) -> Seq<char> {
    if text.len() > 0 && text.last() == '\n' {
        text.drop_last()
    } else {
        text
    }
}

/// The value of `key` in a command line: what follows `key=` in the first of
/// the space-separated tokens that starts with it. A newline at the end of
/// the line belongs to no token.
pub open spec fn value_of(line: Seq<char>, key: Seq<char>) -> Option<Seq<char>> {
    first_with_prefix(split(line_of(line), ' '), key.push('='))
}

fn starts_with(token: &Vec<char>, prefix: &Vec<char>) -> (r: bool)
    ensures
        r == prefix@.is_prefix_of(token@),
{
    if prefix.len() > token.len() {
        return false;
    }
    let mut i: usize = 0;
    while i < prefix.len()
        invariant
            i <= prefix@.len() <= token@.len(),
            forall|k: int| 0 <= k < i ==> prefix@[k] == token@[k],
        decreases prefix@.len() - i,
    {
        if prefix[i] != token[i] {
            assert(token@.subrange(0, prefix@.len() as int)[i as int] == token@[i as int]);
            return false;
        }
        i += 1;
    }
    assert(prefix@ =~= token@.subrange(0, prefix@.len() as int));
    true
}

/// Takes the newline off the end of a command line.
fn without_newline(text: &str) -> (r: String)
    ensures
        r@ == line_of(text@),
{
    let chars = chars_of(text);
    let n: usize = chars.len();
    if n > 0 && chars[n - 1] == '\n' {
        let kept = &chars.as_slice()[0..n - 1];
        assert(kept@ =~= text@.drop_last());
        string_of(kept)
    } else {
        text.to_owned()
    }
}

/// Looks up `key` in the text of a command line.
pub fn text_value(line: &str, key: &str) -> (r: Option<String>)
    ensures
        opt_text(r) == value_of(line@, key@),
{
    let mut prefix = chars_of(key);
    prefix.push('=');
    let tokens = split_at_char(without_newline(line).as_str(), ' ');
    let ghost all = views(tokens@);
    let mut i: usize = 0;
    assert(all.skip(0) =~= all);
    while i < tokens.len()
        invariant
            i <= tokens@.len(),
            all == views(tokens@),
            all == split(line_of(line@), ' '),
            prefix@ == key@.push('='),
            value_of(line@, key@) == first_with_prefix(all.skip(i as int), prefix@),
        decreases tokens@.len() - i,
    {
        let token: &Vec<char> = &tokens[i];
        assert(all.skip(i as int)[0] == token@);
        assert(all.skip(i as int).drop_first() =~= all.skip(i + 1));
        if starts_with(token, &prefix) {
            let rest = &token.as_slice()[prefix.len()..token.len()];
            assert(rest@ =~= token@.skip(prefix@.len() as int));
            return Some(string_of(rest));
        }
        i += 1;
    }
    None
}

/// Looks up `key` in the bytes of `/proc/cmdline`.
pub fn cmdline_value(data: &[u8], key: &str) -> (r: Option<String>)
    ensures
        opt_text(r) == value_of(text_of(data@), key@),
{
    let line = utf8_lossy(data);
    text_value(line.as_str(), key)
}

/// The upstream DNS server that the bytes of `/proc/cmdline` name.
pub fn gateway_from_cmdline(data: &[u8]) -> (r: Option<String>)
    ensures
        opt_text(r) == value_of(text_of(data@), gateway_key()),
{
    cmdline_value(data, "dnslink.gateway")
}

/// The port that a value of the port key stands for: the name server port
/// where the value is not a port number.
pub open spec fn port_of(value: Seq<char>) -> u16 {
    match u16_text(value) {
        Some(p) => p,
        None => NAMESERVER_PORT,
    }
}

/// The port that a command line sets.
pub open spec fn port_in(line: Seq<char>) -> Option<u16> {
    match value_of(line, port_key()) {
        Some(v) => Some(port_of(v)),
        None => None,
    }
}

/// The upstream port that the text of a command line sets.
pub fn text_port(line: &str) -> (r: Option<u16>)
    ensures
        r == port_in(line@),
{
    match text_value(line, "dnslink.port") {
        Some(v) => match parse_u16(v.as_str()) {
            Some(p) => Some(p),
            None => Some(NAMESERVER_PORT),
        },
        None => None,
    }
}

/// The upstream port that the bytes of `/proc/cmdline` set.
pub fn port_from_cmdline(data: &[u8]) -> (r: Option<u16>)
    ensures
        r == port_in(text_of(data@)),
{
    let line = utf8_lossy(data);
    text_port(line.as_str())
}

/// The upstream that DNS queries are redirected to.
pub struct Upstream {
    /// Its address, as text.
    pub ip: String,
    pub port: u16,
    /// Whether the address comes from the kernel command line.
    pub from_cmdline: bool,
}

/// The upstream address that a command line leads to.
pub open spec fn upstream_ip(line: Seq<char>, ip: Seq<char>) -> Seq<char> {
    match value_of(line, gateway_key()) {
        Some(gateway) => gateway,
        None => ip,
    }
}

/// The upstream port that a command line leads to: the one it sets, else the
/// name server port where it sets the address, else the given one.
pub open spec fn upstream_port(line: Seq<char>, port: u16) -> u16 {
    match port_in(line) {
        Some(p) => p,
        None => if value_of(line, gateway_key()) is Some {
            NAMESERVER_PORT
        } else {
            port
        },
    }
}

/// Applies the text of a kernel command line to the upstream given by `ip`
/// and `port`. Address and port are overridden independently of each other;
/// an overridden address comes with the name server port unless the port is
/// overridden too.
pub fn text_upstream(line: &str, ip: String, port: u16) -> (r: Upstream)
    ensures
        r.ip@ == upstream_ip(line@, ip@),
        r.port == upstream_port(line@, port),
        r.from_cmdline == (value_of(line@, gateway_key()) is Some),
{
    let set = text_port(line);
    match text_value(line, "dnslink.gateway") {
        Some(gateway) => Upstream {
            ip: gateway,
            port: set.unwrap_or(NAMESERVER_PORT),
            from_cmdline: true,
        },
        None => Upstream { ip, port: set.unwrap_or(port), from_cmdline: false },
    }
}

/// Applies the bytes of `/proc/cmdline`, where they could be read, to the
/// upstream given by `ip` and `port`.
pub fn upstream(cmdline: Option<&[u8]>, ip: String, port: u16) -> (r: Upstream)
    ensures
        match cmdline {
            Some(data) => {
                let line = text_of(data@);
                &&& r.ip@ == upstream_ip(line, ip@)
                &&& r.port == upstream_port(line, port)
                &&& r.from_cmdline == (value_of(line, gateway_key()) is Some)
            },
            None => r.ip@ == ip@ && r.port == port && !r.from_cmdline,
        },
{
    match cmdline {
        Some(data) => {
            let line = utf8_lossy(data);
            text_upstream(line.as_str(), ip, port)
        },
        None => Upstream { ip, port, from_cmdline: false },
    }
}

proof fn lemma_first_in_concat(a: Seq<Seq<char>>, b: Seq<Seq<char>>, prefix: Seq<char>)
    ensures
        first_with_prefix(a + b, prefix) == (match first_with_prefix(a, prefix) {
            Some(v) => Some(v),
            None => first_with_prefix(b, prefix),
        }),
    decreases a.len(),
{
    if a.len() == 0 {
        assert(a + b =~= b);
    } else {
        lemma_first_in_concat(a.drop_first(), b, prefix);
        assert((a + b).drop_first() =~= a.drop_first() + b);
        assert((a + b)[0] == a[0]);
    }
}

/// A newline at the end of a text does not bring a token with the prefix.
proof fn lemma_newline_brings_nothing(line: Seq<char>, prefix: Seq<char>)
    requires
        prefix.len() > 0,
        prefix.last() == '=',
        first_with_prefix(split(line_of(line), ' '), prefix) is None,
    ensures
        first_with_prefix(split(line, ' '), prefix) is None,
{
    if line.len() > 0 && line.last() == '\n' {
        let parts = split(line.drop_last(), ' ');
        law_split_join(line.drop_last(), ' ');
        let front = parts.drop_last();
        let last = parts.last();
        let longer = last.push('\n');
        assert(parts =~= front + seq![last]);
        assert(split(line, ' ') =~= front + seq![longer]);
        lemma_first_in_concat(front, seq![last], prefix);
        lemma_first_in_concat(front, seq![longer], prefix);
        reveal_with_fuel(first_with_prefix, 2);
        if prefix.is_prefix_of(longer) {
            let n = prefix.len() as int;
            assert(prefix[n - 1] == longer[n - 1]);
            assert(n <= last.len());
            assert(prefix =~= last.subrange(0, n)) by {
                assert(prefix =~= longer.subrange(0, n));
            }
        }
    }
}

/// A setting is found wherever it stands in the command line, unless an
/// earlier token sets the same key: the first one counts. In last place the
/// newline that ends the line is no part of its value.
pub proof fn law_setting_is_found(
    before: Seq<char>,
    key: Seq<char>,
    value: Seq<char>,
    after: Seq<char>,
)
    requires
        value_of(before, key) is None,
        !key.contains(' '),
        !value.contains(' '),
    ensures
        value_of((key.push('=') + value).push('\n'), key) == Some(value),
        value_of((before.push(' ') + (key.push('=') + value)).push('\n'), key) == Some(value),
        value_of((key.push('=') + value).push(' ') + after, key) == Some(value),
        value_of((before.push(' ') + (key.push('=') + value)).push(' ') + after, key) == Some(
            value,
        ),
        value.len() == 0 || value.last() != '\n' ==> {
            &&& value_of(key.push('=') + value, key) == Some(value)
            &&& value_of(before.push(' ') + (key.push('=') + value), key) == Some(value)
        },
{
    let prefix = key.push('=');
    let token = prefix + value;
    let second = before.push(' ') + token;
    assert forall|i: int| 0 <= i < token.len() implies token[i] != ' ' by {
        if i < key.len() {
            assert(key.contains(key[i]));
        } else if i > key.len() {
            assert(value.contains(value[i - prefix.len()]));
        }
    }
    lemma_split_whole(token, ' ');
    assert(token.subrange(0, prefix.len() as int) =~= prefix);
    assert(token.skip(prefix.len() as int) =~= value);
    reveal_with_fuel(first_with_prefix, 2);
    lemma_newline_brings_nothing(before, prefix);
    lemma_split_concat(before, token, ' ');
    lemma_first_in_concat(split(before, ' '), split(token, ' '), prefix);
    assert(line_of(token.push('\n')) =~= token);
    assert(line_of(second.push('\n')) =~= second);
    lemma_found_in_front(token, prefix, value, after);
    lemma_found_in_front(second, prefix, value, after);
}

/// What is found in `front` is found where more follows.
proof fn lemma_found_in_front(
    front: Seq<char>,
    prefix: Seq<char>,
    value: Seq<char>,
    after: Seq<char>,
)
    requires
        first_with_prefix(split(front, ' '), prefix) == Some(value),
    ensures
        first_with_prefix(split(line_of(front.push(' ') + after), ' '), prefix) == Some(value),
{
    let rest = line_of(after);
    assert(line_of(front.push(' ') + after) =~= front.push(' ') + rest);
    lemma_split_concat(front, rest, ' ');
    lemma_first_in_concat(split(front, ' '), split(rest, ' '), prefix);
}

/// The newline that ends a command line changes no setting.
pub proof fn law_final_newline_changes_nothing(line: Seq<char>, key: Seq<char>)
    requires
        line.len() == 0 || line.last() != '\n',
    ensures
        value_of(line.push('\n'), key) == value_of(line, key),
{
    assert(line.push('\n').drop_last() =~= line);
}

/// Only one newline is taken off, and only at the end.
pub proof fn law_line_without_newline(text: Seq<char>)
    ensures
        line_of(text.push('\n')) == text,
        text.len() == 0 || text.last() != '\n' ==> line_of(text) == text,
{
    assert(text.push('\n').drop_last() =~= text);
}

/// Whether a line sets a key is seen from its tokens: it does exactly if some
/// token starts with the key and an equals sign, and the value is the rest of
/// the first such token.
pub proof fn law_value_is_of_the_first_token(line: Seq<char>, key: Seq<char>, value: Seq<char>)
    ensures
        ({
            let tokens = split(line_of(line), ' ');
            &&& value_of(line, key) == Some(value) <==> exists|i: int|
                0 <= i < tokens.len() && #[trigger] tokens[i] == key + seq!['='] + value && forall|
                    j: int,
                |
                    0 <= j < i ==> !(key + seq!['=']).is_prefix_of(#[trigger] tokens[j])
            &&& value_of(line, key) is None <==> forall|j: int|
                0 <= j < tokens.len() ==> !(key + seq!['=']).is_prefix_of(#[trigger] tokens[j])
        }),
{
    let tokens = split(line_of(line), ' ');
    let prefix = key + seq!['='];
    assert(prefix =~= key.push('='));
    lemma_first_with_prefix(tokens, prefix);
    if let Some(v) = value_of(line, key) {
        let i = choose|i: int|
            0 <= i < tokens.len() && #[trigger] tokens[i] == prefix + v && forall|j: int|
                0 <= j < i ==> !prefix.is_prefix_of(#[trigger] tokens[j]);
        assert((prefix + v).subrange(0, prefix.len() as int) =~= prefix);
        assert(prefix.is_prefix_of(tokens[i]));
        assert((prefix + v).skip(prefix.len() as int) =~= v);
        if exists|k: int|
            0 <= k < tokens.len() && #[trigger] tokens[k] == prefix + value && forall|j: int|
                0 <= j < k ==> !prefix.is_prefix_of(#[trigger] tokens[j]) {
            let k = choose|k: int|
                0 <= k < tokens.len() && #[trigger] tokens[k] == prefix + value && forall|j: int|
                    0 <= j < k ==> !prefix.is_prefix_of(#[trigger] tokens[j]);
            assert((prefix + value).subrange(0, prefix.len() as int) =~= prefix);
            assert(prefix.is_prefix_of(tokens[k]));
            assert(k == i);
            assert((prefix + value).skip(prefix.len() as int) =~= value);
        }
    } else {
        assert forall|k: int| 0 <= k < tokens.len() implies #[trigger] tokens[k] != prefix
            + value by {
            assert((prefix + value).subrange(0, prefix.len() as int) =~= prefix);
            assert(!prefix.is_prefix_of(tokens[k]));
        }
    }
}

proof fn lemma_first_with_prefix(tokens: Seq<Seq<char>>, prefix: Seq<char>)
    ensures
        first_with_prefix(tokens, prefix) matches Some(v) ==> exists|i: int|
            0 <= i < tokens.len() && #[trigger] tokens[i] == prefix + v && forall|j: int|
                0 <= j < i ==> !prefix.is_prefix_of(#[trigger] tokens[j]),
        first_with_prefix(tokens, prefix) is None <==> forall|j: int|
            0 <= j < tokens.len() ==> !prefix.is_prefix_of(#[trigger] tokens[j]),
    decreases tokens.len(),
{
    if tokens.len() > 0 {
        let rest = tokens.drop_first();
        if prefix.is_prefix_of(tokens[0]) {
            let v = tokens[0].skip(prefix.len() as int);
            assert(tokens[0] =~= prefix + v);
        } else {
            lemma_first_with_prefix(rest, prefix);
            if let Some(v) = first_with_prefix(rest, prefix) {
                let i = choose|i: int|
                    0 <= i < rest.len() && #[trigger] rest[i] == prefix + v && forall|j: int|
                        0 <= j < i ==> !prefix.is_prefix_of(#[trigger] rest[j]);
                assert(tokens[i + 1] == prefix + v);
                assert forall|j: int| 0 <= j < i + 1 implies !prefix.is_prefix_of(
                    #[trigger] tokens[j],
                ) by {
                    if j > 0 {
                        assert(tokens[j] == rest[j - 1]);
                    }
                }
            } else {
                assert forall|j: int| 0 <= j < tokens.len() implies !prefix.is_prefix_of(
                    #[trigger] tokens[j],
                ) by {
                    if j > 0 {
                        assert(tokens[j] == rest[j - 1]);
                    }
                }
            }
        }
    }
}

/// A gateway on the command line is the upstream, with a port or without one.
pub proof fn law_gateway_overrides(line: Seq<char>, gateway: Seq<char>, ip: Seq<char>)
    requires
        value_of(line, "dnslink.gateway"@) == Some(gateway),
    ensures
        upstream_ip(line, ip) == gateway,
{
}

/// A port setting that denotes no port means port 53; without a port setting
/// no port is set.
pub proof fn law_unusable_port(line: Seq<char>, port: u16)
    ensures
        value_of(line, "dnslink.port"@) matches Some(v) ==> {
            &&& u16_text(v) is None ==> port_in(line) == Some(53u16) && upstream_port(line, port)
                == 53
            &&& u16_text(v) is Some ==> port_in(line) == u16_text(v) && Some(
                upstream_port(line, port),
            ) == u16_text(v)
        },
        value_of(line, "dnslink.port"@) is None ==> port_in(line) is None,
        value_of(line, "dnslink.port"@) is None && value_of(line, "dnslink.gateway"@) is Some
            ==> upstream_port(line, port) == 53,
{
}

/// Without settings on the command line the upstream stays as it was.
pub proof fn law_no_setting_no_change(line: Seq<char>, ip: Seq<char>, port: u16)
    requires
        value_of(line, gateway_key()) is None,
        value_of(line, port_key()) is None,
    ensures
        upstream_ip(line, ip) == ip,
        upstream_port(line, port) == port,
{
}

/// A gateway without a port leads to the name server port, whatever port was
/// set before.
pub proof fn law_gateway_alone_means_name_server_port(line: Seq<char>, ip: Seq<char>, port: u16)
    requires
        value_of(line, gateway_key()) is Some,
        value_of(line, port_key()) is None,
    ensures
        value_of(line, gateway_key()) == Some(upstream_ip(line, ip)),
        upstream_port(line, port) == NAMESERVER_PORT,
{
}

/// A port on the command line overrides the upstream port, with a gateway or
/// without one.
pub proof fn law_port_overrides(line: Seq<char>, set: u16, port: u16)
    requires
        value_of(line, port_key()) == Some(dec(set as nat)),
    ensures
        upstream_port(line, port) == set,
{
    law_port_text_read_back(set);
}

} // verus!
