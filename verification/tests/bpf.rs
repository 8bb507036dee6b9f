use dnslink::bpf::{
    bpf_map_create, bpf_map_lookup, bpf_map_update, bpf_prog_attach, bpf_prog_load, check, err_str,
    VerifierLog, BPF_CGROUP_INET4_CONNECT, BPF_PROG_TYPE_CGROUP_SOCK_ADDR, LOG_BUF_LEN,
};
use dnslink::bytes::{put_u32, put_u64, read_u16, read_u32, read_u64};

#[test]
fn check_splits_on_sign() {
    assert_eq!(check(7), Ok(7));
    assert_eq!(check(0), Ok(0));
    assert_eq!(check(-17), Err(17));
    assert_eq!(check(i64::MAX), Ok(i64::MAX));
}

#[test]
fn err_str_names_the_number() {
    let text = err_str(17);
    assert!(!text.is_empty());
    assert!(text.contains("17"));
    assert_ne!(err_str(17), err_str(2));
    for err in [1, 2, 17, 133, 99_999, 0, -5, i32::MAX, i32::MIN] {
        let text = err_str(err);
        assert!(text.ends_with(&format!(" (os error {})", err)), "{}", text);
    }
}

#[test]
fn integers_are_little_endian() {
    let b = [0x78u8, 0x56, 0x34, 0x12, 0xef, 0xcd, 0xab, 0x89, 0xff];
    assert_eq!(read_u16(&b, 0), 0x5678);
    assert_eq!(read_u32(&b, 1), 0xef12_3456);
    assert_eq!(read_u64(&b, 0), 0x89ab_cdef_1234_5678);
    assert_eq!(read_u64(&b, 1), u64::from_le_bytes([0x56, 0x34, 0x12, 0xef, 0xcd, 0xab, 0x89, 0xff]));
}

#[test]
fn written_integers_are_read_back() {
    let mut a = vec![0xaau8; 16];
    put_u32(&mut a, 1, 0xdead_beef);
    assert_eq!(a[0], 0xaa);
    assert_eq!(&a[1..5], &0xdead_beefu32.to_le_bytes()[..]);
    assert_eq!(a[5], 0xaa);
    assert_eq!(read_u32(&a, 1), 0xdead_beef);
    put_u64(&mut a, 8, 0x0123_4567_89ab_cdef);
    assert_eq!(&a[8..16], &0x0123_4567_89ab_cdefu64.to_le_bytes()[..]);
    assert_eq!(read_u64(&a, 8), 0x0123_4567_89ab_cdef);
    assert_eq!(read_u32(&a, 1), 0xdead_beef);
}

#[test]
fn map_create_request() {
    let call = bpf_map_create(2, 4, 12, 1, 0x80);
    assert_eq!(call.cmd, 0);
    assert_eq!(call.size, 80);
    assert_eq!(call.attr.len(), 96);
    assert_eq!(read_u32(&call.attr, 0), 2);
    assert_eq!(read_u32(&call.attr, 4), 4);
    assert_eq!(read_u32(&call.attr, 8), 12);
    assert_eq!(read_u32(&call.attr, 12), 1);
    assert_eq!(read_u32(&call.attr, 16), 0x80);
    assert!(call.attr[20..].iter().all(|b| *b == 0));
}

#[test]
fn map_element_requests() {
    let up = bpf_map_update(0x1_0000_0007, 0x1111, 0x2222);
    assert_eq!((up.cmd, up.size, up.attr.len()), (2, 32, 64));
    assert_eq!(read_u32(&up.attr, 0), 7);
    assert_eq!(read_u32(&up.attr, 4), 0);
    assert_eq!(read_u64(&up.attr, 8), 0x1111);
    assert_eq!(read_u64(&up.attr, 16), 0x2222);
    let look = bpf_map_lookup(-1, 3, 4);
    assert_eq!((look.cmd, look.size), (1, 32));
    assert_eq!(read_u32(&look.attr, 0), 0xffff_ffff);
    assert_eq!(read_u64(&look.attr, 8), 3);
    assert_eq!(read_u64(&look.attr, 16), 4);
    assert!(look.attr[24..].iter().all(|b| *b == 0));
}

#[test]
fn prog_load_request() {
    let call = bpf_prog_load(
        BPF_PROG_TYPE_CGROUP_SOCK_ADDR,
        83,
        0x1000,
        0x2000,
        0x3000,
        BPF_CGROUP_INET4_CONNECT,
    );
    assert_eq!((call.cmd, call.size, call.attr.len()), (5, 128, 256));
    assert_eq!(read_u32(&call.attr, 0), 18);
    assert_eq!(read_u32(&call.attr, 4), 10);
    assert_eq!(read_u64(&call.attr, 8), 0x1000);
    assert_eq!(read_u64(&call.attr, 16), 0x2000);
    assert_eq!(read_u32(&call.attr, 24), 1);
    assert_eq!(read_u32(&call.attr, 28), 1 << 20);
    assert_eq!(read_u64(&call.attr, 32), 0x3000);
    assert!(call.attr[40..68].iter().all(|b| *b == 0));
    assert_eq!(read_u32(&call.attr, 68), 10);
    assert!(call.attr[72..].iter().all(|b| *b == 0));
}

#[test]
fn prog_attach_request() {
    let call = bpf_prog_attach(5, 6, 14);
    assert_eq!((call.cmd, call.size, call.attr.len()), (8, 20, 32));
    assert_eq!(read_u32(&call.attr, 0), 5);
    assert_eq!(read_u32(&call.attr, 4), 6);
    assert_eq!(read_u32(&call.attr, 8), 14);
    assert!(call.attr[12..].iter().all(|b| *b == 0));
}

#[test]
fn verifier_log_ends_at_the_first_nul() {
    let mut log = VerifierLog::new();
    assert_eq!(log.buf.len(), LOG_BUF_LEN);
    assert!(log.last_log().is_empty());
    log.buf[0..5].copy_from_slice(b"error");
    log.record();
    assert_eq!(log.last_log(), b"error");
    log.buf[2] = 0;
    log.record();
    assert_eq!(log.last_log(), b"er");
}

#[test]
fn verifier_log_without_nul_is_the_whole_buffer() {
    let mut log = VerifierLog::new();
    log.buf[0..3].copy_from_slice(b"abc");
    log.record();
    for b in log.buf.iter_mut() {
        *b = b'x';
    }
    log.record();
    assert_eq!(log.last_log().len(), LOG_BUF_LEN);
    assert!(log.last_log().iter().all(|b| *b == b'x'));
}

#[test]
fn cleared_verifier_log_forgets_the_earlier_load() {
    let mut log = VerifierLog::new();
    log.buf[0..11].copy_from_slice(b"first error");
    log.record();
    assert_eq!(log.last_log(), b"first error");
    log.clear();
    assert!(log.last_log().is_empty());
    log.record();
    assert!(log.last_log().is_empty());
    log.clear();
    log.buf[0..4].copy_from_slice(b"two\0");
    log.record();
    assert_eq!(log.last_log(), b"two");
}
