use dnslink::bpffs::{
    ensure_bpffs, ensure_pin_path, is_fs_mounted_at, mkdir_error, mount_call, pin_path, Mount,
    Outcome, PrepAction, PrepError, PrepEvent, PrepNote,
};
use dnslink::hits::{hit_count, hits_line, watch_hits};
use dnslink::init::{
    exec_call, exec_error, exec_real, procfs_mount, run, Ctx, RunAction, RunEvent, RunNote,
};
use dnslink::loader::{
    cfg_pin_path, hit_pin_path, link_pin_path, Action, Event, Hook, LoadError, Loader, Note,
    PinProbe,
};
use dnslink::sys::{cstr, execve, mount, NulError};

fn strings(list: &[&str]) -> Vec<String> {
    list.iter().map(|s| s.to_string()).collect()
}

#[test]
fn hooks_have_names_labels_and_keys() {
    let rows: Vec<(&str, &str, u32)> =
        Hook::all().iter().map(|h| (h.name(), h.label(), h.key())).collect();
    assert_eq!(
        rows,
        [
            ("redirect_dns_query_connect", "connect4", 0),
            ("redirect_dns_query_sendmsg", "sendmsg4", 1),
            ("rewrite_dns_answer_recvmsg", "recvmsg4", 2),
        ]
    );
    for h in Hook::all() {
        assert_eq!(Hook::named(h.name()), Some(h));
    }
    assert_eq!(Hook::named("connect4"), None);
}

#[test]
fn pins_lie_below_the_pin_directory() {
    let dir = pin_path("/mnt/bpf");
    assert_eq!(dir, "/mnt/bpf/dns_sockaddr");
    assert_eq!(link_pin_path(&dir, Hook::Connect), "/mnt/bpf/dns_sockaddr/redirect_dns_query_connect");
    assert_eq!(cfg_pin_path(&dir), "/mnt/bpf/dns_sockaddr/cfg_map");
    assert_eq!(hit_pin_path(&dir), "/mnt/bpf/dns_sockaddr/hit_cnt");
}

fn probed(l: &mut Loader, probes: [PinProbe; 3]) -> Vec<Note> {
    let mut notes = Vec::new();
    for (h, p) in Hook::all().iter().zip(probes) {
        assert_eq!(l.pending(), Action::ProbePin(*h));
        notes.extend(l.step(Event::Pin(p)));
    }
    assert_eq!(l.pending(), Action::LoadObject);
    notes
}

#[test]
fn fresh_load_attaches_all_hooks() {
    let mut l = Loader::new(true, 2, Vec::new());
    let notes = probed(&mut l, [PinProbe::Absent; 3]);
    assert_eq!(
        notes,
        [Note::NoPin(Hook::Connect), Note::NoPin(Hook::Sendmsg), Note::NoPin(Hook::Recvmsg)]
    );
    assert!(l.step(Event::Done).is_empty());
    assert_eq!(l.pending(), Action::TakeCfgMap);
    assert!(l.step(Event::Done).is_empty());
    assert_eq!(l.pending(), Action::WriteRule(0));
    assert_eq!(l.step(Event::Done), [Note::RuleWritten(0)]);
    assert_eq!(l.pending(), Action::WriteRule(1));
    assert_eq!(l.step(Event::Done), [Note::RuleWritten(1)]);
    assert_eq!(l.pending(), Action::ListPrograms);
    l.list(&strings(&[
        "rewrite_dns_answer_recvmsg",
        "other",
        "redirect_dns_query_connect",
        "redirect_dns_query_sendmsg",
    ]));
    for h in [Hook::Recvmsg, Hook::Connect, Hook::Sendmsg] {
        assert_eq!(l.pending(), Action::LoadProgram(h));
        assert_eq!(l.step(Event::Tag(7)), [Note::ProgramTag(h, 7)]);
        assert_eq!(l.pending(), Action::RemovePin(h));
        assert!(l.step(Event::Failed).is_empty());
        assert_eq!(l.pending(), Action::AttachProgram(h));
        assert!(l.step(Event::FdLink).is_empty());
        assert_eq!(l.pending(), Action::PinLink(h));
        assert_eq!(l.step(Event::Done), [Note::LinkPinned(h)]);
    }
    assert_eq!(l.pending(), Action::TakeHitMap);
    assert!(l.step(Event::Done).is_empty());
    assert_eq!(l.pending(), Action::Finish);
    assert_eq!(
        l.hooks(),
        [
            "rewrite_dns_answer_recvmsg",
            "redirect_dns_query_connect",
            "redirect_dns_query_sendmsg",
        ]
    );
}

#[test]
fn pinned_links_are_kept_or_replaced_by_tag() {
    let table = vec![(1, 0xa), (2, 0xb), (1, 0xc)];
    let mut l = Loader::new(true, 0, table);
    let notes = probed(&mut l, [PinProbe::Link(1), PinProbe::Link(2), PinProbe::Link(3)]);
    assert_eq!(
        notes,
        [
            Note::PinTag(Hook::Connect, 0xa),
            Note::PinTag(Hook::Sendmsg, 0xb),
            Note::PinWithoutProgram(Hook::Recvmsg, 3),
        ]
    );
    l.step(Event::Done);
    l.step(Event::Done);
    assert_eq!(l.pending(), Action::ListPrograms);
    l.list(&strings(&[
        "redirect_dns_query_connect",
        "redirect_dns_query_sendmsg",
        "rewrite_dns_answer_recvmsg",
    ]));
    assert_eq!(
        l.step(Event::Tag(0xa)),
        [Note::ProgramTag(Hook::Connect, 0xa), Note::TagMatch(Hook::Connect)]
    );
    assert_eq!(l.pending(), Action::LoadProgram(Hook::Sendmsg));
    assert_eq!(
        l.step(Event::Tag(0xf)),
        [Note::ProgramTag(Hook::Sendmsg, 0xf), Note::RelinkChanged(Hook::Sendmsg, 0xb, 0xf)]
    );
    assert_eq!(l.pending(), Action::RemovePin(Hook::Sendmsg));
    l.step(Event::Done);
    assert_eq!(l.step(Event::DurableLink), [Note::LinkDurable(Hook::Sendmsg)]);
    assert_eq!(
        l.step(Event::Tag(0xe)),
        [Note::ProgramTag(Hook::Recvmsg, 0xe), Note::RelinkStale(Hook::Recvmsg, 0xe)]
    );
    l.step(Event::Done);
    l.step(Event::FdLink);
    assert_eq!(l.step(Event::Failed), [Note::LinkNotPinned(Hook::Recvmsg)]);
    assert_eq!(l.pending(), Action::TakeHitMap);
    assert_eq!(l.hooks().len(), 3);
}

#[test]
fn second_load_of_the_same_object_attaches_nothing() {
    // Another order than that of the hooks.
    let listed = [(Hook::Recvmsg, 0x70), (Hook::Connect, 0x50), (Hook::Sendmsg, 0x60)];
    let names = listed.map(|(h, _)| h.name());
    let mut l = Loader::new(false, 1, vec![(5, 0x50), (6, 0x60), (7, 0x70)]);
    probed(&mut l, [PinProbe::Link(5), PinProbe::Link(6), PinProbe::Link(7)]);
    for _ in 0..3 {
        l.step(Event::Done);
    }
    l.list(&strings(&names));
    for (h, tag) in listed {
        assert_eq!(l.pending(), Action::LoadProgram(h));
        l.step(Event::Tag(tag));
    }
    assert_eq!(l.pending(), Action::TakeHitMap);
    l.step(Event::Done);
    assert_eq!(l.pending(), Action::Finish);
    assert_eq!(l.hooks(), names);
}

#[test]
fn quiet_load_tells_only_of_failed_pins() {
    let mut l = Loader::new(false, 1, vec![(9, 1)]);
    assert!(probed(&mut l, [PinProbe::NoInfo, PinProbe::Link(9), PinProbe::Absent]).is_empty());
    for _ in 0..3 {
        assert!(l.step(Event::Done).is_empty());
    }
    l.list(&strings(&["redirect_dns_query_connect"]));
    assert!(l.step(Event::Tag(1)).is_empty());
    assert!(l.step(Event::Done).is_empty());
    assert!(l.step(Event::FdLink).is_empty());
    assert_eq!(l.step(Event::Failed), [Note::LinkNotPinned(Hook::Connect)]);
    assert_eq!(l.pending(), Action::TakeHitMap);
}

fn loader_at_list() -> Loader {
    let mut l = Loader::new(false, 0, Vec::new());
    probed(&mut l, [PinProbe::Absent; 3]);
    l.step(Event::Done);
    l.step(Event::Done);
    l
}

#[test]
fn each_load_error_has_its_cause() {
    let mut l = Loader::new(false, 1, Vec::new());
    probed(&mut l, [PinProbe::Absent; 3]);
    l.step(Event::Failed);
    assert_eq!(l.pending(), Action::Fail(LoadError::Reported));

    let mut l = Loader::new(false, 1, Vec::new());
    probed(&mut l, [PinProbe::Absent; 3]);
    l.step(Event::Done);
    l.step(Event::Missing);
    assert_eq!(l.pending(), Action::Fail(LoadError::NoCfgMap));

    let mut l = loader_at_list();
    l.list(&strings(&["other"]));
    assert_eq!(l.pending(), Action::Fail(LoadError::NoHooks));

    let mut l = loader_at_list();
    l.list(&strings(&["redirect_dns_query_connect"]));
    l.step(Event::Tag(1));
    l.step(Event::Done);
    l.step(Event::DurableLink);
    l.step(Event::Missing);
    assert_eq!(l.pending(), Action::Fail(LoadError::NoHitMap));

    assert_eq!(LoadError::NoCfgMap.message(), Some("no cfg_map in object"));
    assert_eq!(
        LoadError::NoHooks.message(),
        Some("load_and_attach: no hook programs found in object")
    );
    assert_eq!(LoadError::NoHitMap.message(), Some("no hit_cnt in object"));
    assert_eq!(LoadError::Reported.message(), None);
}

#[test]
fn failed_rule_or_attachment_ends_the_load() {
    let mut l = Loader::new(false, 2, Vec::new());
    probed(&mut l, [PinProbe::Absent; 3]);
    l.step(Event::Done);
    l.step(Event::Done);
    l.step(Event::Done);
    l.step(Event::Failed);
    assert_eq!(l.pending(), Action::Fail(LoadError::Reported));

    let mut l = loader_at_list();
    l.list(&strings(&["redirect_dns_query_connect"]));
    l.step(Event::Tag(1));
    l.step(Event::Done);
    l.step(Event::Failed);
    assert_eq!(l.pending(), Action::Fail(LoadError::Reported));
}

#[test]
fn only_fitting_events_are_awaited() {
    let l = Loader::new(false, 0, Vec::new());
    assert!(l.awaits(Event::Pin(PinProbe::Absent)));
    assert!(!l.awaits(Event::Done));
    let l = loader_at_list();
    assert!(!l.awaits(Event::Done));
    assert!(!l.awaits(Event::Failed));
}

#[test]
fn steps_await_their_own_events() {
    assert!(PrepAction::Probe.awaits(PrepEvent::Unknown));
    assert!(PrepAction::Mount.awaits(PrepEvent::Io(Outcome::Busy)));
    assert!(!PrepAction::Probe.awaits(PrepEvent::Io(Outcome::Done)));
    assert!(!PrepAction::Ready.awaits(PrepEvent::Io(Outcome::Done)));
    assert!(RunAction::Attach.awaits(RunEvent::AttachFailed));
    assert!(!RunAction::Attach.awaits(RunEvent::Io(Outcome::Done)));
    assert!(!RunAction::ExecReal.awaits(RunEvent::Attached(1)));
}

#[test]
fn mounts_are_found_by_type_and_path() {
    let mounts = vec![
        Mount { mount_point: "/proc".to_string(), fs_type: "proc".to_string() },
        Mount { mount_point: "/mnt/bpf".to_string(), fs_type: "bpf".to_string() },
    ];
    assert!(is_fs_mounted_at("bpf", "/mnt/bpf", &mounts));
    assert!(is_fs_mounted_at("bpf", "/mnt//bpf/", &mounts));
    assert!(!is_fs_mounted_at("bpf", "/mnt", &mounts));
    assert!(!is_fs_mounted_at("proc", "/mnt/bpf", &mounts));
    assert!(!is_fs_mounted_at("bpf", "/mnt/bpf", &Vec::new()));
}

#[test]
fn file_system_is_prepared_step_by_step() {
    let io = PrepEvent::Io;
    assert_eq!(
        ensure_bpffs(true, PrepAction::Probe, PrepEvent::Mounted(true)),
        (PrepAction::CreatePinDir, Some(PrepNote::AlreadyMounted))
    );
    assert_eq!(
        ensure_bpffs(true, PrepAction::Probe, PrepEvent::Mounted(false)),
        (PrepAction::CreateTarget, Some(PrepNote::NotMounted))
    );
    assert_eq!(
        ensure_bpffs(false, PrepAction::Probe, PrepEvent::Mounted(false)),
        (PrepAction::CreateTarget, None)
    );
    assert_eq!(
        ensure_bpffs(false, PrepAction::Probe, PrepEvent::Unknown),
        (PrepAction::CreateTarget, Some(PrepNote::StateUnknown))
    );
    assert_eq!(
        ensure_bpffs(false, PrepAction::CreateTarget, io(Outcome::Done)),
        (PrepAction::Mount, None)
    );
    assert_eq!(
        ensure_bpffs(false, PrepAction::CreateTarget, io(Outcome::Exists)),
        (PrepAction::Abort(PrepError::Target), None)
    );
    for (outcome, note) in [
        (Outcome::Done, PrepNote::MountDone),
        (Outcome::Exists, PrepNote::Sharing),
        (Outcome::Busy, PrepNote::Sharing),
        (Outcome::Failed, PrepNote::MountFailed),
    ] {
        assert_eq!(
            ensure_bpffs(false, PrepAction::Mount, io(outcome)),
            (PrepAction::CreatePinDir, Some(note))
        );
    }
    assert_eq!(
        ensure_bpffs(true, PrepAction::CreatePinDir, io(Outcome::Exists)),
        (PrepAction::Ready, Some(PrepNote::PinDirExists))
    );
}

#[test]
fn pin_directory_may_exist() {
    assert_eq!(ensure_pin_path(true, Outcome::Done), (PrepAction::Ready, None));
    assert_eq!(ensure_pin_path(false, Outcome::Exists), (PrepAction::Ready, None));
    assert_eq!(
        ensure_pin_path(false, Outcome::Busy),
        (PrepAction::Abort(PrepError::PinDir), None)
    );
    assert_eq!(
        ensure_pin_path(true, Outcome::Failed),
        (PrepAction::Abort(PrepError::PinDir), None)
    );
}

#[test]
fn boot_attaches_hooks_and_starts_the_real_init() {
    let io = RunEvent::Io;
    assert_eq!(run(RunAction::CreateMountPoint, io(Outcome::Done)), (RunAction::Mount, None));
    assert_eq!(
        run(RunAction::Mount, io(Outcome::Done)),
        (RunAction::Open, Some(RunNote::MountDone))
    );
    assert_eq!(run(RunAction::Mount, io(Outcome::Busy)), (RunAction::Open, Some(RunNote::Sharing)));
    assert_eq!(
        run(RunAction::Mount, io(Outcome::Exists)),
        (RunAction::Open, Some(RunNote::Sharing))
    );
    assert_eq!(run(RunAction::Open, io(Outcome::Done)), (RunAction::Attach, None));
    assert_eq!(
        run(RunAction::Attach, RunEvent::Attached(3)),
        (RunAction::ExecReal, Some(RunNote::Attached(3)))
    );
}

#[test]
fn boot_goes_on_without_hooks() {
    let io = RunEvent::Io;
    for (pending, event, note) in [
        (RunAction::CreateMountPoint, io(Outcome::Failed), RunNote::CreateFailed),
        (RunAction::CreateMountPoint, io(Outcome::Exists), RunNote::CreateFailed),
        (RunAction::Mount, io(Outcome::Failed), RunNote::MountFailed),
        (RunAction::Open, io(Outcome::Failed), RunNote::OpenFailed),
        (RunAction::Open, io(Outcome::Busy), RunNote::OpenFailed),
        (RunAction::Attach, RunEvent::AttachFailed, RunNote::AttachFailed),
    ] {
        assert_eq!(run(pending, event), (RunAction::ExecReal, Some(note)));
    }
}

#[test]
fn arguments_are_replayed() {
    let e = exec_real("/sbin/vminitd.real", &strings(&["init", "--x"]));
    assert_eq!(e.path, "/sbin/vminitd.real");
    assert_eq!(e.argv, ["/sbin/vminitd.real", "init", "--x"]);
    assert!(e.envp.is_empty());
    assert_eq!(exec_real("/i", &Vec::new()).argv, ["/i"]);
    let call = exec_call("/sbin/vminitd.real", &strings(&["init"])).unwrap();
    assert_eq!(call.path, b"/sbin/vminitd.real\0");
    assert_eq!(call.argv, [b"/sbin/vminitd.real\0".to_vec(), b"init\0".to_vec()]);
    assert!(call.envp.is_empty());
    assert!(exec_call("/i\0", &Vec::new()).is_err());
    assert!(exec_call("/i", &strings(&["a", "b\0"])).is_err());
    assert_eq!(exec_error("/i", "no such file"), "exec /i: no such file");
}

#[test]
fn cgroup_mount_hangs_below_the_base() {
    let ctx = Ctx { real_init: "/i".to_string(), mount_base: "/mnt".to_string() };
    assert_eq!(ctx.cgroup_mount(), "/mnt/cgroup");
}

#[test]
fn c_strings_end_with_nul() {
    assert_eq!(cstr("ab"), Ok(vec![b'a', b'b', 0]));
    assert_eq!(cstr("\u{e9}"), Ok(vec![0xc3, 0xa9, 0]));
    assert_eq!(cstr(""), Ok(vec![0]));
    assert_eq!(cstr("a\0b"), Err(NulError));
    assert_eq!(NulError.message(), "string contains a NUL byte");
}

#[test]
fn mount_arguments() {
    let m = mount("none", "/mnt/cgroup", "cgroup2", 5).unwrap();
    assert_eq!(m.source, b"none\0");
    assert_eq!(m.target, b"/mnt/cgroup\0");
    assert_eq!(m.fstype, b"cgroup2\0");
    assert_eq!(m.flags, 5);
    assert!(mount("a\0", "b", "c", 0).is_err());
    assert!(mount("a", "b\0", "c", 0).is_err());
    assert!(mount("a", "b", "c\0", 0).is_err());
}

#[test]
fn each_mount_has_its_arguments() {
    let ctx = Ctx { real_init: "/i".to_string(), mount_base: "/mnt".to_string() };
    let m = ctx.mount_call().unwrap();
    assert_eq!((m.source, m.target), (b"none\0".to_vec(), b"/mnt/cgroup\0".to_vec()));
    assert_eq!((m.fstype, m.flags), (b"cgroup2\0".to_vec(), 0));
    let m = mount_call("/mnt/bpf").unwrap();
    assert_eq!((m.source, m.target), (b"bpffs\0".to_vec(), b"/mnt/bpf\0".to_vec()));
    assert_eq!((m.fstype, m.flags), (b"bpf\0".to_vec(), 0));
    let m = procfs_mount().unwrap();
    assert_eq!((m.source, m.target), (b"proc\0".to_vec(), b"/proc\0".to_vec()));
    assert_eq!((m.fstype, m.flags), (b"proc\0".to_vec(), 0));
    assert!(mount_call("/a\0").is_err());
    assert!(Ctx { real_init: String::new(), mount_base: "\0".to_string() }.mount_call().is_err());
}

#[test]
fn failed_directory_is_named() {
    assert_eq!(
        mkdir_error(&pin_path("/mnt/bpf"), "Permission denied (os error 13)"),
        "mkdir /mnt/bpf/dns_sockaddr: Permission denied (os error 13)"
    );
}

#[test]
fn execve_arguments() {
    let e = execve("/i", &strings(&["/i", "x"]), &Vec::new()).unwrap();
    assert_eq!(e.path, b"/i\0");
    assert_eq!(e.argv, [b"/i\0".to_vec(), b"x\0".to_vec()]);
    assert!(e.envp.is_empty());
    assert!(execve("/\0", &Vec::new(), &Vec::new()).is_err());
    assert!(execve("/", &strings(&["a", "\0"]), &Vec::new()).is_err());
    assert!(execve("/", &Vec::new(), &strings(&["\0"])).is_err());
}

#[test]
fn counters_are_summed() {
    assert_eq!(hit_count(&Some(vec![1, 2, 3])), 6);
    assert_eq!(hit_count(&Some(Vec::new())), 0);
    assert_eq!(hit_count(&None), 0);
    assert_eq!(hit_count(&Some(vec![u64::MAX])), -1);
    assert_eq!(hit_count(&Some(vec![1 << 63])), i64::MIN);
    assert_eq!(hit_count(&Some(vec![u64::MAX, 1, 7])), 7);
    assert_eq!(hit_count(&Some(vec![u64::MAX, u64::MAX, 0])), -2);
}

#[test]
fn line_is_printed_on_change_only() {
    let line = hits_line(1, 0, -2);
    assert_eq!(line, " connect4=1 sendmsg4=0 recvmsg4=-2");
    assert_eq!(watch_hits("", 1, 0, -2).as_deref(), Some(line.as_str()));
    assert_eq!(watch_hits(&line, 1, 0, -2), None);
    assert!(watch_hits(&line, 1, 1, -2).is_some());
    assert_eq!(hits_line(i64::MIN, i64::MAX, 10), format!(" connect4={} sendmsg4={} recvmsg4=10", i64::MIN, i64::MAX));
}
