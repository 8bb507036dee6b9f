//! Command-line arguments and what follows from them.
use vstd::prelude::*;

use crate::cmdline::{
    gateway_key, port_key, upstream, upstream_ip, upstream_port, value_of, Upstream,
    NAMESERVER_PORT,
};
use crate::net::{dotted, socket_text};
use crate::path::{join, joined_path};
use crate::rule::{
    is_rule_list, law_one_rule_list, law_rule_shows_its_addresses, redirect, rule_text, Rule,
};
use crate::text::{
    dec, law_port_text_read_back, opt_text, parse_u16, str_eq, text_of, texts, u16_text,
};

pub mod laws;

verus! {

/// What the program is run as.
#[derive(Clone, Copy, PartialEq, Eq, Debug, Structural)]
pub enum Mode {
    /// Attach the hooks to a cgroup directory.
    Attach,
    /// Boot wrapper: attach the hooks to the root cgroup, then become the
    /// real init.
    Init,
}

/// The arguments of the program.
pub struct Options {
    pub mode: Mode,
    pub cgroup: Option<String>,
    pub mount_base: Option<String>,
    pub real_init: String,
    pub obj_path: Option<String>,
    pub watch: bool,
    pub bind_ip: String,
    pub bind_port: u16,
    pub target_ip: String,
    pub target_port: u16,
}

/// The arguments of the program, as text.
pub struct Settings {
    pub mode: Mode,
    pub cgroup: Option<Seq<char>>,
    pub mount_base: Option<Seq<char>>,
    pub real_init: Seq<char>,
    pub obj_path: Option<Seq<char>>,
    pub watch: bool,
    pub bind_ip: Seq<char>,
    pub bind_port: u16,
    pub target_ip: Seq<char>,
    pub target_port: u16,
}

impl View for Options {
    type V = Settings;

    open spec fn view(&self) -> Settings {
        Settings {
            mode: self.mode,
            cgroup: opt_text(self.cgroup),
            mount_base: opt_text(self.mount_base),
            real_init: self.real_init@,
            obj_path: opt_text(self.obj_path),
            watch: self.watch,
            bind_ip: self.bind_ip@,
            bind_port: self.bind_port,
            target_ip: self.target_ip@,
            target_port: self.target_port,
        }
    }
}

/// The settings without any option: redirect `127.0.8.6:53` to `1.1.1.1:53`.
pub open spec fn default_settings(mode: Mode) -> Settings {
    Settings {
        mode,
        cgroup: None,
        mount_base: None,
        real_init: "/sbin/vminitd.real"@,
        obj_path: None,
        watch: false,
        bind_ip: "127.0.8.6"@,
        bind_port: NAMESERVER_PORT,
        target_ip: "1.1.1.1"@,
        target_port: NAMESERVER_PORT,
    }
}

/// The mode that the arguments ask for. A lone program name, which is how
/// the kernel starts the first process, means `init`.
pub open spec fn mode_of(args: Seq<Seq<char>>) -> Option<Mode> {
    if args.len() == 1 {
        Some(Mode::Init)
    } else if args[1] == "attach"@ {
        Some(Mode::Attach)
    } else if args[1] == "init"@ {
        Some(Mode::Init)
    } else {
        None
    }
}

/// The settings after the option `name` with its value; `None` where there is
/// no such option or the value does not suit it.
pub open spec fn with_value(o: Settings, name: Seq<char>, value: Seq<char>) -> Option<Settings> {
    if name == "--cgroup"@ {
        Some(Settings { cgroup: Some(value), ..o })
    } else if name == "--mount-base"@ {
        Some(Settings { mount_base: Some(value), ..o })
    } else if name == "--real"@ {
        Some(Settings { real_init: value, ..o })
    } else if name == "--obj"@ {
        Some(Settings { obj_path: Some(value), ..o })
    } else if name == "--bind-ip"@ {
        Some(Settings { bind_ip: value, ..o })
    } else if name == "--bind-port"@ {
        match u16_text(value) {
            Some(p) => Some(Settings { bind_port: p, ..o }),
            None => None,
        }
    } else if name == "--target-ip"@ {
        Some(Settings { target_ip: value, ..o })
    } else if name == "--target-port"@ {
        match u16_text(value) {
            Some(p) => Some(Settings { target_port: p, ..o }),
            None => None,
        }
    } else {
        None
    }
}

/// The settings after the given options, from `o` on; `None` where they are
/// not well formed. `--watch` stands alone, every other option is followed by
/// its value.
pub open spec fn with_options(o: Settings, args: Seq<Seq<char>>) -> Option<Settings>
    decreases args.len(),
{
    if args.len() == 0 {
        Some(o)
    } else if args[0] == "--watch"@ {
        with_options(Settings { watch: true, ..o }, args.skip(1))
    } else if args.len() == 1 {
        None
    } else {
        match with_value(o, args[0], args[1]) {
            Some(next) => with_options(next, args.skip(2)),
            None => None,
        }
    }
}

/// The settings that the arguments ask for.
pub open spec fn settings_of(args: Seq<Seq<char>>) -> Option<Settings> {
    match mode_of(args) {
        Some(mode) => if args.len() == 1 {
            Some(default_settings(mode))
        } else {
            with_options(default_settings(mode), args.skip(2))
        },
        None => None,
    }
}

impl Options {
    /// The options of a mode before any argument is read.
    pub fn new(mode: Mode) -> (r: Self)
        ensures
            r@ == default_settings(mode),
    {
        Options {
            mode,
            cgroup: None,
            mount_base: None,
            real_init: "/sbin/vminitd.real".to_owned(),
            obj_path: None,
            watch: false,
            bind_ip: "127.0.8.6".to_owned(),
            bind_port: NAMESERVER_PORT,
            target_ip: "1.1.1.1".to_owned(),
            target_port: NAMESERVER_PORT,
        }
    }

    /// Applies one option that has a value.
    fn set(&mut self, name: &str, value: &str) -> (r: bool)
        ensures
            match with_value(old(self)@, name@, value@) {
                Some(next) => r && final(self)@ == next,
                None => !r,
            },
    {
        if str_eq(name, "--cgroup") {
            self.cgroup = Some(value.to_owned());
        } else if str_eq(name, "--mount-base") {
            self.mount_base = Some(value.to_owned());
        } else if str_eq(name, "--real") {
            self.real_init = value.to_owned();
        } else if str_eq(name, "--obj") {
            self.obj_path = Some(value.to_owned());
        } else if str_eq(name, "--bind-ip") {
            self.bind_ip = value.to_owned();
        } else if str_eq(name, "--bind-port") {
            match parse_u16(value) {
                Some(p) => {
                    self.bind_port = p;
                },
                None => {
                    return false;
                },
            }
        } else if str_eq(name, "--target-ip") {
            self.target_ip = value.to_owned();
        } else if str_eq(name, "--target-port") {
            match parse_u16(value) {
                Some(p) => {
                    self.target_port = p;
                },
                None => {
                    return false;
                },
            }
        } else {
            return false;
        }
        true
    }

    /// Parses the arguments, program name first. `None` asks for the usage
    /// text.
    pub fn parse(args: &Vec<String>) -> (r: Option<Self>)
        requires
            args@.len() > 0,
        ensures
            match r {
                Some(o) => settings_of(texts(args@)) == Some(o@),
                None => settings_of(texts(args@)) is None,
            },
    {
        let ghost all = texts(args@);
        if args.len() == 1 {
            return Some(Options::new(Mode::Init));
        }
        let mode = if str_eq(args[1].as_str(), "attach") {
            Mode::Attach
        } else if str_eq(args[1].as_str(), "init") {
            Mode::Init
        } else {
            return None;
        };
        let mut o = Options::new(mode);
        let mut i: usize = 2;
        while i < args.len()
            invariant
                2 <= i <= args@.len(),
                all == texts(args@),
                settings_of(all) == with_options(o@, all.skip(i as int)),
            decreases args@.len() - i,
        {
            let ghost rest = all.skip(i as int);
            assert(rest[0] == args@[i as int]@);
            if str_eq(args[i].as_str(), "--watch") {
                o.watch = true;
                assert(rest.skip(1) =~= all.skip(i + 1));
                i += 1;
            } else if i + 1 < args.len() {
                assert(rest[1] == args@[i + 1]@);
                if !o.set(args[i].as_str(), args[i + 1].as_str()) {
                    return None;
                }
                assert(rest.skip(2) =~= all.skip(i + 2));
                i += 2;
            } else {
                return None;
            }
        }
        Some(o)
    }

    /// The upstream that queries are redirected to. At boot the kernel command
    /// line, where it can be read, overrides the options.
    pub fn upstream(&self, cmdline: Option<&[u8]>) -> (r: Upstream)
        ensures
            match (self@.mode, cmdline) {
                (Mode::Init, Some(data)) => {
                    let line = text_of(data@);
                    &&& r.ip@ == upstream_ip(line, self@.target_ip)
                    &&& r.port == upstream_port(line, self@.target_port)
                    &&& r.from_cmdline == (value_of(line, gateway_key()) is Some)
                },
                _ => {
                    &&& r.ip@ == self@.target_ip
                    &&& r.port == self@.target_port
                    &&& !r.from_cmdline
                },
            },
    {
        let given = match self.mode {
            Mode::Init => cmdline,
            Mode::Attach => None,
        };
        upstream(given, self.target_ip.clone(), self.target_port)
    }

    /// The directory below which the boot-time mounts hang.
    pub fn base(&self) -> (r: String)
        ensures
            r@ == base_of(self@),
    {
        match &self.mount_base {
            Some(b) => b.clone(),
            None => "/mnt".to_owned(),
        }
    }

    /// Where the BPF file system is mounted.
    pub fn bpffs_target(&self) -> (r: String)
        ensures
            r@ == bpffs_of(self@),
    {
        match self.mode {
            Mode::Init => join(self.base().as_str(), "bpf"),
            Mode::Attach => "/sys/fs/bpf".to_owned(),
        }
    }
}

/// The directory below which the boot-time mounts hang.
pub open spec fn base_of(o: Settings) -> Seq<char> {
    match o.mount_base {
        Some(b) => b,
        None => "/mnt"@,
    }
}

/// Where the BPF file system is mounted.
pub open spec fn bpffs_of(o: Settings) -> Seq<char> {
    match o.mode {
        Mode::Init => joined_path(base_of(o), "bpf"@),
        Mode::Attach => "/sys/fs/bpf"@,
    }
}

/// The default addresses in dotted-quad notation.
proof fn lemma_default_addresses()
    ensures
        "127.0.8.6"@ == dotted(0x7f00_0806),
        "1.1.1.1"@ == dotted(0x0101_0101),
{
    reveal_strlit("127.0.8.6");
    reveal_strlit("1.1.1.1");
    reveal_with_fuel(dec, 3);
    assert(dec(127) =~= seq!['1', '2', '7']);
    assert("127.0.8.6"@ =~= dotted(0x7f00_0806));
    assert("1.1.1.1"@ =~= dotted(0x0101_0101));
}

proof fn lemma_default_rule_text()
    ensures
        socket_text(0x7f00_0806, 53) + " <-> "@ + socket_text(0x0101_0101, 53)
            == "127.0.8.6:53 <-> 1.1.1.1:53"@,
{
    lemma_default_addresses();
    let colon_port = seq![':', '5', '3'];
    assert(dec(53) =~= seq!['5', '3']) by {
        reveal_with_fuel(dec, 2);
    }
    assert(socket_text(0x7f00_0806, 53) =~= "127.0.8.6"@ + colon_port);
    assert(socket_text(0x0101_0101, 53) =~= "1.1.1.1"@ + colon_port);
    assert("127.0.8.6"@ + colon_port + " <-> "@ + ("1.1.1.1"@ + colon_port)
        =~= "127.0.8.6:53 <-> 1.1.1.1:53"@) by {
        reveal_strlit("127.0.8.6:53 <-> 1.1.1.1:53");
        reveal_strlit("127.0.8.6");
        reveal_strlit("1.1.1.1");
        reveal_strlit(" <-> ");
    }
}

/// At boot without arguments, queries to `127.0.8.6:53` are redirected to the
/// gateway that the kernel command line names, at the port that it names:
/// `1.1.1.1` where it names no gateway, and 53 where it names no port. There
/// is exactly one rule.
pub proof fn law_boot_rule(
    name: Seq<char>,
    line: Seq<char>,
    gateway: Option<u32>,
    port: Option<u16>,
    rules: Seq<(u32, Rule)>,
)
    requires
        value_of(line, gateway_key()) == (match gateway {
            Some(ip) => Some(dotted(ip)),
            None => None,
        }),
        value_of(line, port_key()) == (match port {
            Some(p) => Some(dec(p as nat)),
            None => None,
        }),
    ensures
        settings_of(seq![name]) matches Some(o) && {
            let target: u32 = match gateway {
                Some(ip) => ip,
                None => 0x0101_0101,
            };
            let target_port: u16 = match port {
                Some(p) => p,
                None => 53,
            };
            is_rule_list(
                o.bind_ip,
                o.bind_port,
                upstream_ip(line, o.target_ip),
                upstream_port(line, o.target_port),
                rules,
            ) <==> rules == seq![(0u32, redirect(0x7f00_0806, 53, target, target_port))]
        },
{
    lemma_default_addresses();
    let target: u32 = match gateway {
        Some(ip) => ip,
        None => 0x0101_0101,
    };
    let target_port: u16 = match port {
        Some(p) => p,
        None => 53,
    };
    if let Some(p) = port {
        law_port_text_read_back(p);
    }
    law_one_rule_list(0x7f00_0806, 53, target, target_port, rules);
}

/// The settings without any option lead to exactly one rule, which redirects
/// `127.0.8.6:53` to `1.1.1.1:53`.
pub proof fn law_default_rule(mode: Mode, rules: Seq<(u32, Rule)>)
    ensures
        ({
            let o = default_settings(mode);
            is_rule_list(o.bind_ip, o.bind_port, o.target_ip, o.target_port, rules) <==> rules
                == seq![(0u32, redirect(0x7f00_0806, 53, 0x0101_0101, 53))]
        }),
        rule_text(redirect(0x7f00_0806, 53, 0x0101_0101, 53)) == "127.0.8.6:53 <-> 1.1.1.1:53"@,
{
    lemma_default_addresses();
    law_one_rule_list(0x7f00_0806, 53, 0x0101_0101, 53, rules);
    law_rule_shows_its_addresses(0x7f00_0806, 53, 0x0101_0101, 53);
    lemma_default_rule_text();
}

/// Later options override earlier ones of the same name: of two in a row that
/// are both well formed, the first might as well not be there.
pub proof fn law_last_option_wins(
    o: Settings,
    name: Seq<char>,
    first: Seq<char>,
    second: Seq<char>,
    rest: Seq<Seq<char>>,
)
    requires
        with_value(o, name, first) is Some,
        name != "--watch"@,
    ensures
        with_options(o, seq![name, first, name, second] + rest) == with_options(
            o,
            seq![name, second] + rest,
        ),
{
    let twice = seq![name, first, name, second] + rest;
    let once = seq![name, second] + rest;
    assert(twice.skip(2) =~= once);
    assert(once.skip(2) =~= rest);
    let mid = with_value(o, name, first)->0;
    assert(with_value(mid, name, second) == with_value(o, name, second));
    assert(twice[0] == name && twice[1] == first && once[0] == name && once[1] == second);
    assert(with_options(o, twice) == with_options(mid, once));
}

/// Options that are read one after the other are read like the whole.
pub proof fn law_options_in_turn(o: Settings, first: Seq<Seq<char>>, rest: Seq<Seq<char>>)
    requires
        with_options(o, first) is Some,
    ensures
        with_options(o, first + rest) == with_options(with_options(o, first)->0, rest),
    decreases first.len(),
{
    if first.len() == 0 {
        assert(first + rest =~= rest);
    } else if first[0] == "--watch"@ {
        assert((first + rest).skip(1) =~= first.skip(1) + rest);
        law_options_in_turn(Settings { watch: true, ..o }, first.skip(1), rest);
    } else {
        assert((first + rest).skip(2) =~= first.skip(2) + rest);
        law_options_in_turn(with_value(o, first[0], first[1])->0, first.skip(2), rest);
    }
}

} // verus!
