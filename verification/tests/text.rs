use dnslink::net::{aton, push_socket, swap16, swap32, AddrParseError};
use dnslink::path::{join, path_eq};
use dnslink::rule::{rules_for, BadAddr, Rule};
use dnslink::text::{chars_of, parse_u16, push_dec, split_at_char, str_eq, string_of};
use std::path::Path;

#[test]
fn ports_are_parsed() {
    for (s, want) in [
        ("53", Some(53)),
        ("0", Some(0)),
        ("+53", Some(53)),
        ("0053", Some(53)),
        ("65535", Some(65535)),
        ("65536", None),
        ("", None),
        ("+", None),
        ("-1", None),
        ("++1", None),
        ("5 3", None),
        ("53\n", None),
        ("99999999999999999999", None),
        ("\u{0665}", None),
    ] {
        assert_eq!(parse_u16(s), want, "{:?}", s);
        assert_eq!(s.parse::<u16>().ok(), want, "{:?}", s);
    }
}

#[test]
fn every_port_is_read_back() {
    for p in (0..=u16::MAX).step_by(7) {
        let mut s = String::new();
        push_dec(&mut s, p as u64);
        assert_eq!(s, format!("{}", p));
        assert_eq!(parse_u16(&s), Some(p));
    }
    let mut s = String::from("n=");
    push_dec(&mut s, u64::MAX);
    assert_eq!(s, "n=18446744073709551615");
}

#[test]
fn strings_are_compared_by_content() {
    assert!(str_eq("", ""));
    assert!(str_eq("caf\u{e9}", "caf\u{e9}"));
    assert!(!str_eq("cafe", "caf\u{e9}"));
    assert!(!str_eq("a", "ab"));
    assert_eq!(chars_of("a\u{e9}b"), vec!['a', '\u{e9}', 'b']);
    assert_eq!(string_of(&['x', '\u{fffd}']), "x\u{fffd}");
}

#[test]
fn splitting_keeps_empty_parts() {
    let parts: Vec<String> = split_at_char(" a  b ", ' ').iter().map(|p| string_of(p)).collect();
    assert_eq!(parts, ["", "a", "", "b", ""]);
    assert_eq!(parts.join(" "), " a  b ");
    assert_eq!(split_at_char("", ' ').len(), 1);
}

#[test]
fn addresses_are_parsed() {
    assert_eq!(aton("127.0.8.6"), Ok(0x7f00_0806));
    assert_eq!(aton("1.1.1.1"), Ok(0x0101_0101));
    assert_eq!(aton("0.0.0.0"), Ok(0));
    assert_eq!(aton("255.255.255.255"), Ok(u32::MAX));
    assert_eq!(aton("192.168.254.1"), Ok(0xc0a8_fe01));
}

#[test]
fn other_texts_are_no_addresses() {
    for s in [
        "", "1", "1.1.1", "1.1.1.", "1.1.1.1.", "1.1.1.1.1", ".1.1.1.1", "1..1.1", "256.1.1.1",
        "1.1.1.256", "01.1.1.1", "1.1.1.00", "1.1.1.0001", "1.1.1.1 ", " 1.1.1.1", "1.1.1.1\n",
        "a.b.c.d", "1.1.1.+1", "1.1.1.-1", "0x1.1.1.1", "1,1,1,1", "::1", "1000.1.1.1",
    ] {
        assert_eq!(aton(s), Err(AddrParseError), "{:?}", s);
    }
}

#[test]
fn addresses_are_read_back() {
    for ip in [0u32, 1, 9, 10, 99, 100, 255, 256, 0x7f00_0806, 0xffff_ffff, 0x0a64_0963] {
        let mut s = String::new();
        push_socket(&mut s, ip, 53);
        assert_eq!(aton(s.strip_suffix(":53").unwrap()), Ok(ip));
    }
}

#[test]
fn byte_order_is_reversed() {
    assert_eq!(swap32(0x0102_0304), 0x0403_0201);
    assert_eq!(swap16(0x0035), 0x3500);
    assert_eq!(swap32(swap32(0xdead_beef)), 0xdead_beef);
    assert_eq!(swap16(swap16(0xbeef)), 0xbeef);
    assert_eq!(swap32(0x7f00_0806).to_le_bytes(), 0x7f00_0806u32.to_be_bytes());
}

#[test]
fn rule_has_twelve_bytes_in_network_order() {
    let r = Rule::new(0x7f00_0806, 53, 0x0101_0102, 0x1234);
    assert_eq!(r.to_bytes(), [127, 0, 8, 6, 1, 1, 1, 2, 0, 53, 0x12, 0x34]);
    assert_eq!(r.requested_port, 0x3500);
}

#[test]
fn rule_is_shown() {
    let rules = rules_for("127.0.8.6", 53, "1.1.1.1", 5353).unwrap();
    assert_eq!(rules.len(), 1);
    assert_eq!(rules[0].0, 0);
    assert_eq!(rules[0].1.text(), "127.0.8.6:53 <-> 1.1.1.1:5353");
}

#[test]
fn bad_addresses_are_told_apart() {
    assert_eq!(rules_for("localhost", 53, "1.1.1.1", 53), Err(BadAddr::Bind));
    assert_eq!(rules_for("127.0.8.6", 53, "1.1.1.1\n", 53), Err(BadAddr::Target));
    assert_eq!(rules_for("x", 53, "y", 53), Err(BadAddr::Bind));
}

#[test]
fn paths_are_joined_like_std() {
    for base in ["", "/", "/mnt", "/mnt/", "mnt", "/a//", "."] {
        for name in ["cgroup", "bpf", "a/b", "/abs", "", "./x"] {
            let want = Path::new(base).join(name);
            assert_eq!(join(base, name), want.to_str().unwrap(), "{} {}", base, name);
        }
    }
    assert_eq!(join("/mnt", "bpf"), "/mnt/bpf");
}

#[test]
fn paths_are_compared_like_std() {
    let paths = [
        "", "/", "//", ".", "./", "./a", "a", "a/", "a/.", "a//b", "a/b", "a/./b", "./a/b", "/a",
        "/./a", "/a/", "..", "a/..", "/mnt/bpf", "/mnt//bpf/", "/mnt/bpf/.", "mnt/bpf", "/.", "a.b",
    ];
    for a in paths {
        for b in paths {
            assert_eq!(path_eq(a, b), Path::new(a) == Path::new(b), "{:?} {:?}", a, b);
        }
    }
}
