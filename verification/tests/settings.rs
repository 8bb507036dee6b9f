use dnslink::cli::{Mode, Options};
use dnslink::rule::rules_for;
use dnslink::cmdline::{
    cmdline_value, gateway_from_cmdline, port_from_cmdline, text_upstream, text_value, upstream,
};

fn args(list: &[&str]) -> Vec<String> {
    list.iter().map(|s| s.to_string()).collect()
}

#[test]
fn lone_program_name_means_init() {
    let o = Options::parse(&args(&["/sbin/vminitd"])).unwrap();
    assert_eq!(o.mode, Mode::Init);
    assert_eq!(o.real_init, "/sbin/vminitd.real");
    assert_eq!((o.bind_ip.as_str(), o.bind_port), ("127.0.8.6", 53));
    assert_eq!((o.target_ip.as_str(), o.target_port), ("1.1.1.1", 53));
    assert!(o.cgroup.is_none() && o.mount_base.is_none() && o.obj_path.is_none() && !o.watch);
    assert_eq!(o.base(), "/mnt");
    assert_eq!(o.bpffs_target(), "/mnt/bpf");
}

#[test]
fn all_options_are_read() {
    let o = Options::parse(&args(&[
        "dnslink", "attach", "--cgroup", "/c", "--watch", "--mount-base", "/m", "--real", "/r",
        "--obj", "/o", "--bind-ip", "1.2.3.4", "--bind-port", "1", "--target-ip", "5.6.7.8",
        "--target-port", "2",
    ]))
    .unwrap();
    assert_eq!(o.mode, Mode::Attach);
    assert_eq!(o.cgroup.as_deref(), Some("/c"));
    assert_eq!(o.mount_base.as_deref(), Some("/m"));
    assert_eq!(o.real_init, "/r");
    assert_eq!(o.obj_path.as_deref(), Some("/o"));
    assert!(o.watch);
    assert_eq!((o.bind_ip.as_str(), o.bind_port), ("1.2.3.4", 1));
    assert_eq!((o.target_ip.as_str(), o.target_port), ("5.6.7.8", 2));
    assert_eq!(o.bpffs_target(), "/sys/fs/bpf");
}

#[test]
fn malformed_arguments_ask_for_usage() {
    for list in [
        &["dnslink", "run"][..],
        &["dnslink", "--cgroup", "/c"],
        &["dnslink", "init", "--cgroup"],
        &["dnslink", "init", "--nothing"],
        &["dnslink", "init", "--nothing", "x"],
        &["dnslink", "init", "--bind-port", "x"],
        &["dnslink", "init", "--target-port", "65536"],
        &["dnslink", "init", "--watch", "extra"],
    ] {
        assert!(Options::parse(&args(list)).is_none(), "{:?}", list);
    }
}

#[test]
fn last_option_wins() {
    let o = Options::parse(&args(&["dnslink", "init", "--real", "/a", "--real", "/b"])).unwrap();
    assert_eq!(o.real_init, "/b");
    let o = Options::parse(&args(&["dnslink", "init", "--watch", "--watch"])).unwrap();
    assert!(o.watch);
}

#[test]
fn option_values_may_look_like_options() {
    let o = Options::parse(&args(&["dnslink", "init", "--real", "--watch"])).unwrap();
    assert_eq!(o.real_init, "--watch");
    assert!(!o.watch);
}

#[test]
fn mount_base_moves_the_bpf_file_system() {
    let o = Options::parse(&args(&["dnslink", "init", "--mount-base", "/run/x/"])).unwrap();
    assert_eq!(o.base(), "/run/x/");
    assert_eq!(o.bpffs_target(), "/run/x/bpf");
}

#[test]
fn first_matching_token_counts() {
    let line = "quiet dnslink.gateway=10.0.0.1 dnslink.gateway=10.0.0.2 dnslink.port=5353 init=/x";
    assert_eq!(text_value(line, "dnslink.gateway").as_deref(), Some("10.0.0.1"));
    assert_eq!(gateway_from_cmdline(line.as_bytes()).as_deref(), Some("10.0.0.1"));
    assert_eq!(port_from_cmdline(line.as_bytes()), Some(5353));
    assert_eq!(cmdline_value(line.as_bytes(), "init").as_deref(), Some("/x"));
    assert_eq!(text_value(line, "nit"), None);
    assert_eq!(text_value(line, "quiet"), None);
}

#[test]
fn only_spaces_separate_tokens() {
    let line = "a=1\tdnslink.port=1 dnslink.gateway=1.2.3.4";
    assert_eq!(text_value(line, "dnslink.port"), None);
    assert_eq!(text_value(line, "dnslink.gateway").as_deref(), Some("1.2.3.4"));
    assert_eq!(text_value("k=", "k").as_deref(), Some(""));
    assert_eq!(text_value("k=a=b", "k").as_deref(), Some("a=b"));
}

#[test]
fn final_newline_belongs_to_no_setting() {
    let line = b"console=hvc0 dnslink.gateway=192.168.254.1\n";
    assert_eq!(gateway_from_cmdline(line).as_deref(), Some("192.168.254.1"));
    let line = b"dnslink.gateway=192.168.254.1 dnslink.port=5353\n";
    assert_eq!(port_from_cmdline(line), Some(5353));
    assert_eq!(gateway_from_cmdline(line).as_deref(), Some("192.168.254.1"));
    assert_eq!(text_value("k=\n", "k").as_deref(), Some(""));
    assert_eq!(text_value("k=v\n\n", "k").as_deref(), Some("v\n"));
    assert_eq!(text_value("k=v\n x", "k").as_deref(), Some("v\n"));
    assert_eq!(text_value("k=v", "k"), text_value("k=v\n", "k"));
    assert_eq!(text_value("\n", "k"), None);
    assert_eq!(text_value("", "k"), None);
}

#[test]
fn invalid_bytes_are_replaced() {
    assert_eq!(cmdline_value(b"\xffx k=\xc3\xa9\xfe", "k").as_deref(), Some("\u{e9}\u{fffd}"));
    assert_eq!(cmdline_value(b"\xffx k=v", "\u{fffd}x k"), None);
}

#[test]
fn unusable_port_is_the_name_server_port() {
    assert_eq!(port_from_cmdline(b"dnslink.port=x"), Some(53));
    assert_eq!(port_from_cmdline(b"dnslink.port=70000"), Some(53));
    assert_eq!(port_from_cmdline(b"dnslink.port= 5353\n"), Some(53));
    assert_eq!(port_from_cmdline(b"other"), None);
}

#[test]
fn gateway_overrides_the_upstream() {
    let up = upstream(Some(b"a dnslink.gateway=192.168.254.1 b"), "1.1.1.1".to_string(), 99);
    assert_eq!((up.ip.as_str(), up.port, up.from_cmdline), ("192.168.254.1", 53, true));
    let up = text_upstream("dnslink.port=5353 dnslink.gateway=10.1.1.1", "1.1.1.1".to_string(), 53);
    assert_eq!((up.ip.as_str(), up.port, up.from_cmdline), ("10.1.1.1", 5353, true));
}

#[test]
fn port_alone_overrides_the_port() {
    let up = upstream(Some(b"dnslink.port=5353 x"), "1.1.1.1".to_string(), 53);
    assert_eq!((up.ip.as_str(), up.port, up.from_cmdline), ("1.1.1.1", 5353, false));
}

#[test]
fn nothing_set_changes_nothing() {
    let up = upstream(Some(b"quiet"), "9.9.9.9".to_string(), 54);
    assert_eq!((up.ip.as_str(), up.port, up.from_cmdline), ("9.9.9.9", 54, false));
    let up = upstream(None, "9.9.9.9".to_string(), 54);
    assert_eq!((up.ip.as_str(), up.port, up.from_cmdline), ("9.9.9.9", 54, false));
}

#[test]
fn kernel_command_line_counts_at_boot_only() {
    let line = b"dnslink.gateway=192.168.254.1 x";
    let o = Options::parse(&args(&["dnslink", "init"])).unwrap();
    let up = o.upstream(Some(line));
    assert_eq!((up.ip.as_str(), up.port, up.from_cmdline), ("192.168.254.1", 53, true));
    let o = Options::parse(&args(&["dnslink", "attach", "--target-port", "54"])).unwrap();
    let up = o.upstream(Some(line));
    assert_eq!((up.ip.as_str(), up.port, up.from_cmdline), ("1.1.1.1", 54, false));
}

fn rule_shown(list: &[&str], line: &[u8]) -> String {
    let o = Options::parse(&args(list)).unwrap();
    let up = o.upstream(Some(line));
    rules_for(&o.bind_ip, o.bind_port, &up.ip, up.port).unwrap()[0].1.text()
}

#[test]
fn boot_arguments_lead_to_the_rule() {
    let boot = &["/sbin/vminitd"][..];
    assert_eq!(rule_shown(boot, b"quiet"), "127.0.8.6:53 <-> 1.1.1.1:53");
    assert_eq!(
        rule_shown(boot, b"quiet dnslink.gateway=192.168.254.1\n"),
        "127.0.8.6:53 <-> 192.168.254.1:53"
    );
    assert_eq!(
        rule_shown(boot, b"dnslink.gateway=192.168.254.1 dnslink.port=5353 quiet"),
        "127.0.8.6:53 <-> 192.168.254.1:5353"
    );
    assert_eq!(rule_shown(boot, b"dnslink.port=5353\n"), "127.0.8.6:53 <-> 1.1.1.1:5353");
}

#[test]
fn options_may_be_read_in_turn() {
    let first = ["dnslink", "init", "--real", "/a", "--watch"];
    let o = Options::parse(&args(&first)).unwrap();
    let whole = Options::parse(&args(&[&first[..], &["--obj", "/o"][..]].concat())).unwrap();
    assert_eq!((whole.real_init, whole.watch), (o.real_init, o.watch));
    assert_eq!(whole.obj_path.as_deref(), Some("/o"));
}
