//! What every option does to the settings, and what it leaves alone.
use vstd::prelude::*;

use crate::cli::{
    base_of, bpffs_of, default_settings, law_options_in_turn, settings_of, with_options,
    with_value, Mode, Settings,
};
use crate::path::{
    components, is_rooted, joined_path, law_join_adds_a_component, law_join_text,
};
use crate::text::u16_text;

verus! {

/// The names of the options are told apart.
proof fn lemma_option_names()
    ensures
        "--cgroup"@.len() == 8,
        "--mount-base"@.len() == 12,
        "--real"@.len() == 6,
        "--obj"@.len() == 5,
        "--bind-ip"@.len() == 9,
        "--bind-port"@.len() == 11,
        "--target-ip"@.len() == 11,
        "--target-port"@.len() == 13,
        "--watch"@.len() == 7,
        "--bind-port"@[2] == 'b',
        "--target-ip"@[2] == 't',
{
    reveal_strlit("--cgroup");
    reveal_strlit("--mount-base");
    reveal_strlit("--real");
    reveal_strlit("--obj");
    reveal_strlit("--bind-ip");
    reveal_strlit("--bind-port");
    reveal_strlit("--target-ip");
    reveal_strlit("--target-port");
    reveal_strlit("--watch");
}

/// An option with a value changes its own setting to that value and leaves
/// every other setting as it was.
pub proof fn law_option_changes_its_own_setting(o: Settings, name: Seq<char>, value: Seq<char>)
    requires
        with_value(o, name, value) is Some,
    ensures
        ({
            let p = with_value(o, name, value)->0;
            &&& p.mode == o.mode
            &&& p.watch == o.watch
            &&& p.cgroup == (if name == "--cgroup"@ {
                Some(value)
            } else {
                o.cgroup
            })
            &&& p.mount_base == (if name == "--mount-base"@ {
                Some(value)
            } else {
                o.mount_base
            })
            &&& p.real_init == (if name == "--real"@ {
                value
            } else {
                o.real_init
            })
            &&& p.obj_path == (if name == "--obj"@ {
                Some(value)
            } else {
                o.obj_path
            })
            &&& p.bind_ip == (if name == "--bind-ip"@ {
                value
            } else {
                o.bind_ip
            })
            &&& p.target_ip == (if name == "--target-ip"@ {
                value
            } else {
                o.target_ip
            })
            &&& Some(p.bind_port) == (if name == "--bind-port"@ {
                u16_text(value)
            } else {
                Some(o.bind_port)
            })
            &&& Some(p.target_port) == (if name == "--target-port"@ {
                u16_text(value)
            } else {
                Some(o.target_port)
            })
        }),
{
    lemma_option_names();
}

/// There are eight options with a value. One is refused exactly if it is none
/// of them, or takes a port and the value is none.
pub proof fn law_option_is_refused_exactly_if(o: Settings, name: Seq<char>, value: Seq<char>)
    ensures
        with_value(o, name, value) is Some <==> {
            ||| name == "--cgroup"@
            ||| name == "--mount-base"@
            ||| name == "--real"@
            ||| name == "--obj"@
            ||| name == "--bind-ip"@
            ||| name == "--target-ip"@
            ||| (name == "--bind-port"@ || name == "--target-port"@) && u16_text(value) is Some
        },
{
    lemma_option_names();
}

/// An option is read together with the argument behind it, whatever that is;
/// the flag stands alone and sets nothing but itself; nothing else can stand
/// alone.
pub proof fn law_options_are_read_in_pairs(
    o: Settings,
    name: Seq<char>,
    value: Seq<char>,
    rest: Seq<Seq<char>>,
)
    ensures
        with_options(o, Seq::empty()) == Some(o),
        with_options(o, seq!["--watch"@] + rest) == with_options(
            Settings { watch: true, ..o },
            rest,
        ),
        name != "--watch"@ ==> with_options(o, seq![name]) is None,
        name != "--watch"@ ==> with_options(o, seq![name, value] + rest) == (match with_value(
            o,
            name,
            value,
        ) {
            Some(p) => with_options(p, rest),
            None => None,
        }),
{
    assert((seq!["--watch"@] + rest).skip(1) =~= rest);
    assert((seq![name, value] + rest).skip(2) =~= rest);
}

/// Arguments in which the name of an option does not occur leave its setting
/// as it was; without the flag the watch is not turned on, and no argument
/// changes the mode.
pub proof fn law_setting_stays_without_its_option(o: Settings, args: Seq<Seq<char>>)
    requires
        with_options(o, args) is Some,
    ensures
        ({
            let p = with_options(o, args)->0;
            &&& p.mode == o.mode
            &&& !args.contains("--watch"@) ==> p.watch == o.watch
            &&& !args.contains("--cgroup"@) ==> p.cgroup == o.cgroup
            &&& !args.contains("--mount-base"@) ==> p.mount_base == o.mount_base
            &&& !args.contains("--real"@) ==> p.real_init == o.real_init
            &&& !args.contains("--obj"@) ==> p.obj_path == o.obj_path
            &&& !args.contains("--bind-ip"@) ==> p.bind_ip == o.bind_ip
            &&& !args.contains("--bind-port"@) ==> p.bind_port == o.bind_port
            &&& !args.contains("--target-ip"@) ==> p.target_ip == o.target_ip
            &&& !args.contains("--target-port"@) ==> p.target_port == o.target_port
        }),
    decreases args.len(),
{
    if args.len() > 0 {
        assert(args.contains(args[0]));
        if args[0] == "--watch"@ {
            let rest = args.skip(1);
            assert forall|x: Seq<char>| rest.contains(x) implies args.contains(x) by {
                let i = choose|i: int| 0 <= i < rest.len() && rest[i] == x;
                assert(args[i + 1] == x);
            }
            law_setting_stays_without_its_option(Settings { watch: true, ..o }, rest);
        } else {
            let rest = args.skip(2);
            assert forall|x: Seq<char>| rest.contains(x) implies args.contains(x) by {
                let i = choose|i: int| 0 <= i < rest.len() && rest[i] == x;
                assert(args[i + 2] == x);
            }
            law_option_changes_its_own_setting(o, args[0], args[1]);
            law_setting_stays_without_its_option(with_value(o, args[0], args[1])->0, rest);
        }
    }
}

/// The last value of an option counts: where its name does not occur in what
/// follows, the setting is that value, whatever came before.
pub proof fn law_last_value_counts(
    o: Settings,
    before: Seq<Seq<char>>,
    name: Seq<char>,
    value: Seq<char>,
    after: Seq<Seq<char>>,
)
    requires
        with_options(o, before) is Some,
        name != "--watch"@,
        with_options(o, before + (seq![name, value] + after)) is Some,
        !after.contains(name),
    ensures
        ({
            let p = with_options(o, before + (seq![name, value] + after))->0;
            &&& name == "--cgroup"@ ==> p.cgroup == Some(value)
            &&& name == "--mount-base"@ ==> p.mount_base == Some(value)
            &&& name == "--real"@ ==> p.real_init == value
            &&& name == "--obj"@ ==> p.obj_path == Some(value)
            &&& name == "--bind-ip"@ ==> p.bind_ip == value
            &&& name == "--bind-port"@ ==> Some(p.bind_port) == u16_text(value)
            &&& name == "--target-ip"@ ==> p.target_ip == value
            &&& name == "--target-port"@ ==> Some(p.target_port) == u16_text(value)
        }),
{
    let mid = with_options(o, before)->0;
    law_options_in_turn(o, before, seq![name, value] + after);
    law_options_are_read_in_pairs(mid, name, value, after);
    law_option_changes_its_own_setting(mid, name, value);
    law_setting_stays_without_its_option(with_value(mid, name, value)->0, after);
}

/// The flag turns the watch on, and nothing turns it off again.
pub proof fn law_watch_stays_on(o: Settings, args: Seq<Seq<char>>)
    requires
        with_options(o, args) is Some,
        o.watch,
    ensures
        with_options(o, args)->0.watch,
    decreases args.len(),
{
    if args.len() > 0 {
        if args[0] == "--watch"@ {
            law_watch_stays_on(Settings { watch: true, ..o }, args.skip(1));
        } else {
            law_option_changes_its_own_setting(o, args[0], args[1]);
            law_watch_stays_on(with_value(o, args[0], args[1])->0, args.skip(2));
        }
    }
}

/// What the program is called does not matter. Alone it means `init`;
/// otherwise the word behind it is the mode, `attach` or `init` and nothing
/// else, and the rest are options on top of the defaults.
pub proof fn law_mode_comes_first(
    program: Seq<char>,
    word: Seq<char>,
    rest: Seq<Seq<char>>,
)
    ensures
        settings_of(seq![program]) == Some(default_settings(Mode::Init)),
        settings_of(seq![program, "init"@] + rest) == with_options(
            default_settings(Mode::Init),
            rest,
        ),
        settings_of(seq![program, "attach"@] + rest) == with_options(
            default_settings(Mode::Attach),
            rest,
        ),
        word != "attach"@ && word != "init"@ ==> settings_of(seq![program, word] + rest) is None,
        settings_of(seq![program, word] + rest) matches Some(o) ==> (o.mode == Mode::Attach
            <==> word == "attach"@),
{
    reveal_strlit("attach");
    reveal_strlit("init");
    assert("attach"@.len() != "init"@.len());
    assert((seq![program, word] + rest).skip(2) =~= rest);
    assert((seq![program, "init"@] + rest).skip(2) =~= rest);
    assert((seq![program, "attach"@] + rest).skip(2) =~= rest);
    if settings_of(seq![program, word] + rest) is Some {
        if word == "attach"@ {
            law_setting_stays_without_its_option(default_settings(Mode::Attach), rest);
        } else {
            law_setting_stays_without_its_option(default_settings(Mode::Init), rest);
        }
    }
}

/// The defaults: nothing is set but the real init and the two addresses, both
/// at port 53.
pub proof fn law_defaults(mode: Mode)
    ensures
        ({
            let o = default_settings(mode);
            &&& o.mode == mode
            &&& o.cgroup is None
            &&& o.mount_base is None
            &&& o.obj_path is None
            &&& !o.watch
            &&& o.real_init == "/sbin/vminitd.real"@
            &&& o.bind_ip == "127.0.8.6"@
            &&& o.bind_port == 53
            &&& o.target_ip == "1.1.1.1"@
            &&& o.target_port == 53
        }),
{
}

/// At boot the BPF file system hangs right below the mount base, which is
/// `/mnt` unless it is set; otherwise it is at its usual place, whatever the
/// mount base is.
pub proof fn law_file_system_hangs_below_the_base(o: Settings)
    ensures
        o.mount_base matches Some(b) ==> base_of(o) == b,
        o.mount_base is None ==> base_of(o) == "/mnt"@,
        o.mode == Mode::Attach ==> bpffs_of(o) == "/sys/fs/bpf"@,
        o.mode == Mode::Init ==> bpffs_of(o) == joined_path(base_of(o), "bpf"@),
        o.mode == Mode::Init && base_of(o).len() == 0 ==> bpffs_of(o) == "bpf"@,
        o.mode == Mode::Init && base_of(o).len() > 0 ==> {
            &&& components(bpffs_of(o)) == components(base_of(o)).push("bpf"@)
            &&& is_rooted(bpffs_of(o)) == is_rooted(base_of(o))
        },
{
    reveal_strlit("bpf");
    law_join_text(base_of(o), "bpf"@);
    if o.mode == Mode::Init && base_of(o).len() == 0 {
        assert(bpffs_of(o) =~= "bpf"@);
    }
    if o.mode == Mode::Init && base_of(o).len() > 0 {
        assert(!"bpf"@.contains('/'));
        law_join_adds_a_component(base_of(o), "bpf"@);
    }
}

} // verus!
