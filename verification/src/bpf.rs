//! Requests to the `bpf(2)` system call: what is handed to the kernel, and
//! what its answer means.
use vstd::prelude::*;

use crate::bytes::{
    le32, le64, le_bytes32, le_bytes64, lemma_le32, lemma_le64, put_u32, put_u64,
};
use crate::elf::{lemma_until_nul, until_nul};
use crate::text::dec_int;

pub mod attr;

verus! {

/// System call number of `bpf` on aarch64 Linux.
pub const SYS_BPF: u64 = 280;

pub const BPF_MAP_CREATE: u32 = 0;

pub const BPF_MAP_LOOKUP_ELEM: u32 = 1;

pub const BPF_MAP_UPDATE_ELEM: u32 = 2;

pub const BPF_PROG_LOAD: u32 = 5;

pub const BPF_PROG_ATTACH: u32 = 8;

pub const BPF_PROG_TYPE_CGROUP_SOCK_ADDR: u32 = 18;

pub const BPF_CGROUP_INET4_CONNECT: u32 = 10;

pub const BPF_CGROUP_UDP4_SENDMSG: u32 = 14;

pub const BPF_CGROUP_UDP4_RECVMSG: u32 = 19;

/// Size of the verifier log buffer.
pub const LOG_BUF_LEN: usize = 0x10_0000;

/// One call of `bpf(cmd, attr, size)`.
pub struct BpfCall {
    pub cmd: u32,
    /// The bytes that the second argument points to.
    pub attr: Vec<u8>,
    /// How many of them the kernel is told of.
    pub size: u32,
}

/// `n` zero bytes.
pub open spec fn zeros(n: nat) -> Seq<u8> {
    Seq::new(n, |i: int| 0u8)
}

/// The attribute of a map creation.
pub open spec fn map_create_attr(mtype: u32, key: u32, val: u32, max: u32, flags: u32) -> Seq<u8> {
    le_bytes32(mtype) + le_bytes32(key) + le_bytes32(val) + le_bytes32(max) + le_bytes32(flags)
        + zeros(76)
}

/// The attribute of an access to one map element.
pub open spec fn map_elem_attr(fd: u32, key: u64, value: u64) -> Seq<u8> {
    le_bytes32(fd) + zeros(4) + le_bytes64(key) + le_bytes64(value) + zeros(40)
}

/// The attribute of a program load.
pub open spec fn prog_load_attr(
    prog_type: u32,
    insn_cnt: u32,
    insns: u64,
    license: u64,
    log: u64,
    expected_attach: u32,
) -> Seq<u8> {
    le_bytes32(prog_type) + le_bytes32(insn_cnt) + le_bytes64(insns) + le_bytes64(license)
        + le_bytes32(1) + le_bytes32(LOG_BUF_LEN as u32) + le_bytes64(log) + zeros(28)
        + le_bytes32(expected_attach) + zeros(184)
}

/// The attribute of a program attachment.
pub open spec fn prog_attach_attr(target_fd: u32, prog_fd: u32, attach_type: u32) -> Seq<u8> {
    le_bytes32(target_fd) + le_bytes32(prog_fd) + le_bytes32(attach_type) + zeros(20)
}

/// What a raw return value of the system call means: the value itself, or the
/// error number that a negative one stands for.
pub fn check(ret: i64) -> (r: Result<i64, i32>)
    requires
        ret != i64::MIN,
    ensures
        r == (if ret < 0 {
            Err::<i64, i32>((-ret) as i32)
        } else {
            Ok::<i64, i32>(ret)
        }),
{
    if ret < 0 {
        Err(-ret as i32)
    } else {
        Ok(ret)
    }
}

/// What the text of an error number ends with, such as ` (os error 17)`.
pub open spec fn os_error_suffix(err: i32) -> Seq<char> {
    " (os error "@ + dec_int(err as int) + ")"@
}

/// Calls `std::io::Error::from_raw_os_error` and formats the error. The text
/// ends with the number in the form ` (os error 17)`. What stands before that
/// is the operating system's own description of the number, which depends on
/// the system and its locale: nothing is claimed of it.
#[verifier::external_body]
fn os_error_text(err: i32) -> (r: String)
    ensures
        os_error_suffix(err).is_suffix_of(r@),
{
    format!("{}", std::io::Error::from_raw_os_error(err))
}

/// Readable text for a raw error number, such as
/// `File exists (os error 17)`: a description in the operating system's
/// wording, of which no clause says what it is, and then the number.
pub fn err_str(err: i32) -> (r: String)
    ensures
        os_error_suffix(err).is_suffix_of(r@),
{
    os_error_text(err)
}

/// The request that creates a map.
pub fn bpf_map_create(mtype: u32, key: u32, val: u32, max: u32, flags: u32) -> (r: BpfCall)
    ensures
        r.cmd == BPF_MAP_CREATE,
        r.attr@ == map_create_attr(mtype, key, val, max, flags),
        r.size == 80,
{
    let mut a: Vec<u8> = vec![0u8; 96];
    put_u32(a.as_mut_slice(), attr::MAP_TYPE, mtype);
    put_u32(a.as_mut_slice(), attr::MAP_KEY_SIZE, key);
    put_u32(a.as_mut_slice(), attr::MAP_VALUE_SIZE, val);
    put_u32(a.as_mut_slice(), attr::MAP_MAX_ENTRIES, max);
    put_u32(a.as_mut_slice(), attr::MAP_FLAGS, flags);
    assert(a@ =~= map_create_attr(mtype, key, val, max, flags));
    BpfCall { cmd: BPF_MAP_CREATE, attr: a, size: 80 }
}

fn map_elem(cmd: u32, map_fd: i64, key_addr: u64, value_addr: u64) -> (r: BpfCall)
    ensures
        r.cmd == cmd,
        r.attr@ == map_elem_attr(map_fd as u32, key_addr, value_addr),
        r.size == 32,
{
    let mut a: Vec<u8> = vec![0u8; 64];
    put_u32(a.as_mut_slice(), attr::MAP_FD, map_fd as u32);
    put_u64(a.as_mut_slice(), attr::KEY, key_addr);
    put_u64(a.as_mut_slice(), attr::VALUE, value_addr);
    assert(a@ =~= map_elem_attr(map_fd as u32, key_addr, value_addr));
    BpfCall { cmd, attr: a, size: 32 }
}

/// The request that writes one map element; key and value are given by their
/// addresses.
pub fn bpf_map_update(map_fd: i64, key_addr: u64, value_addr: u64) -> (r: BpfCall)
    ensures
        r.cmd == BPF_MAP_UPDATE_ELEM,
        r.attr@ == map_elem_attr(map_fd as u32, key_addr, value_addr),
        r.size == 32,
{
    map_elem(BPF_MAP_UPDATE_ELEM, map_fd, key_addr, value_addr)
}

/// The request that reads one map element into the bytes at `value_addr`.
pub fn bpf_map_lookup(map_fd: i64, key_addr: u64, value_addr: u64) -> (r: BpfCall)
    ensures
        r.cmd == BPF_MAP_LOOKUP_ELEM,
        r.attr@ == map_elem_attr(map_fd as u32, key_addr, value_addr),
        r.size == 32,
{
    map_elem(BPF_MAP_LOOKUP_ELEM, map_fd, key_addr, value_addr)
}

/// The request that loads a program of `insns_len` bytes, eight to an
/// instruction. Instructions, license and log buffer are given by their
/// addresses; the log buffer has [`LOG_BUF_LEN`] bytes.
pub fn bpf_prog_load(
    prog_type: u32,
    insns_len: usize,
    insns_addr: u64,
    license_addr: u64,
    log_addr: u64,
    expected_attach: u32,
) -> (r: BpfCall)
    ensures
        r.cmd == BPF_PROG_LOAD,
        r.attr@ == prog_load_attr(
            prog_type,
            (insns_len / 8) as u32,
            insns_addr,
            license_addr,
            log_addr,
            expected_attach,
        ),
        r.size == 128,
{
    let mut a: Vec<u8> = vec![0u8; 256];
    let insn_cnt: u32 = (insns_len / 8) as u32;
    put_u32(a.as_mut_slice(), attr::PROG_TYPE, prog_type);
    put_u32(a.as_mut_slice(), attr::INSN_CNT, insn_cnt);
    put_u64(a.as_mut_slice(), attr::INSNS, insns_addr);
    put_u64(a.as_mut_slice(), attr::LICENSE, license_addr);
    put_u32(a.as_mut_slice(), attr::LOG_LEVEL, 1);
    put_u32(a.as_mut_slice(), attr::LOG_SIZE, LOG_BUF_LEN as u32);
    put_u64(a.as_mut_slice(), attr::LOG_BUF, log_addr);
    put_u32(a.as_mut_slice(), attr::EXPECTED_ATTACH_TYPE, expected_attach);
    assert(a@ =~= prog_load_attr(
        prog_type,
        insn_cnt,
        insns_addr,
        license_addr,
        log_addr,
        expected_attach,
    ));
    BpfCall { cmd: BPF_PROG_LOAD, attr: a, size: 128 }
}

/// The request that attaches a program to a cgroup directory.
pub fn bpf_prog_attach(target_fd: i64, prog_fd: i64, attach_type: u32) -> (r: BpfCall)
    ensures
        r.cmd == BPF_PROG_ATTACH,
        r.attr@ == prog_attach_attr(target_fd as u32, prog_fd as u32, attach_type),
        r.size == 20,
{
    let mut a: Vec<u8> = vec![0u8; 32];
    put_u32(a.as_mut_slice(), attr::TARGET_FD, target_fd as u32);
    put_u32(a.as_mut_slice(), attr::ATTACH_BPF_FD, prog_fd as u32);
    put_u32(a.as_mut_slice(), attr::ATTACH_TYPE, attach_type);
    assert(a@ =~= prog_attach_attr(target_fd as u32, prog_fd as u32, attach_type));
    BpfCall { cmd: BPF_PROG_ATTACH, attr: a, size: 20 }
}

/// The verifier log of the most recent program load. It is cleared before the
/// load and recorded after it.
pub struct VerifierLog {
    /// The buffer that the kernel writes to.
    pub buf: Vec<u8>,
    /// How many bytes of it were recorded.
    pub len: u32,
}

impl VerifierLog {
    /// The buffer has its full size and the recorded length lies within it.
    pub open spec fn wf(&self) -> bool {
        &&& self.buf@.len() == LOG_BUF_LEN
        &&& self.len <= LOG_BUF_LEN
    }

    /// The recorded log.
    pub open spec fn text(&self) -> Seq<u8> {
        self.buf@.take(self.len as int)
    }

    /// An empty log.
    pub fn new() -> (r: Self)
        ensures
            r.wf(),
            r.buf@ == zeros(LOG_BUF_LEN as nat),
            r.len == 0,
    {
        let buf: Vec<u8> = vec![0u8; LOG_BUF_LEN];
        assert(buf@ =~= zeros(LOG_BUF_LEN as nat));
        VerifierLog { buf, len: 0 }
    }

    /// Forgets the log of an earlier load, so that a load for which the kernel
    /// writes nothing leaves an empty log.
    pub fn clear(&mut self)
        requires
            old(self).wf(),
        ensures
            final(self).wf(),
            final(self).buf@ == old(self).buf@.update(0, 0),
            final(self).buf@[0] == 0,
            final(self).len == 0,
    {
        self.buf[0] = 0;
        self.len = 0;
    }

    /// Records, after a load, how much the kernel wrote: it fills the buffer
    /// from the start and ends with a NUL.
    pub fn record(&mut self)
        requires
            old(self).wf(),
        ensures
            final(self).wf(),
            final(self).buf@ == old(self).buf@,
            final(self).text() == until_nul(old(self).buf@),
    {
        let mut i: usize = 0;
        while i < self.buf.len() && self.buf[i] != 0
            invariant
                i <= self.buf@.len(),
                self.wf(),
                self.buf@ == old(self).buf@,
                forall|k: int| 0 <= k < i ==> self.buf@[k] != 0,
            ensures
                i == self.buf@.len() || self.buf@[i as int] == 0,
            decreases self.buf@.len() - i,
        {
            i += 1;
        }
        proof {
            lemma_until_nul(self.buf@, i as int);
        }
        self.len = i as u32;
    }

    /// The recorded log.
    pub fn last_log(&self) -> (r: &[u8])
        requires
            self.wf(),
        ensures
            r@ == self.text(),
    {
        &self.buf.as_slice()[0..self.len as usize]
    }
}

/// The buffer after the kernel wrote `written` to its start.
pub open spec fn overwritten(buf: Seq<u8>, written: Seq<u8>) -> Seq<u8> {
    written + buf.skip(written.len() as int)
}

/// The recorded log is that of the most recent load: whatever an earlier load
/// left in the buffer, after a clear and a write by the kernel, which ends
/// with a NUL unless nothing is written, it holds what was written and no
/// more.
pub proof fn law_log_is_of_the_last_load(before: Seq<u8>, written: Seq<u8>)
    requires
        0 < before.len(),
        written.len() <= before.len(),
        written.len() == 0 || written.last() == 0,
    ensures
        until_nul(overwritten(before.update(0, 0), written)) == until_nul(written),
{
    let buf = overwritten(before.update(0, 0), written);
    if written.len() == 0 {
        law_unwritten_log_is_empty(before);
        assert(buf =~= before.update(0, 0));
    } else {
        let k = lemma_first_nul(written);
        assert forall|i: int| 0 <= i < k implies buf[i] != 0 by {
            assert(buf[i] == written[i]);
        }
        assert(buf[k] == written[k]);
        lemma_until_nul(buf, k);
        lemma_until_nul(written, k);
        assert(buf.take(k) =~= written.take(k));
    }
}

/// A load for which the kernel writes nothing to the cleared buffer leaves an
/// empty log.
pub proof fn law_unwritten_log_is_empty(before: Seq<u8>)
    requires
        0 < before.len(),
    ensures
        until_nul(before.update(0, 0)) == Seq::<u8>::empty(),
{
}

/// Where the first NUL of a sequence that ends with one is.
proof fn lemma_first_nul(s: Seq<u8>) -> (k: int)
    requires
        s.len() > 0,
        s.last() == 0,
    ensures
        0 <= k < s.len(),
        s[k] == 0,
        forall|i: int| 0 <= i < k ==> s[i] != 0,
    decreases s.len(),
{
    if s[0] == 0 {
        0
    } else {
        let rest = s.drop_first();
        assert(rest.last() == s.last());
        let k = lemma_first_nul(rest);
        assert forall|i: int| 0 <= i < k + 1 implies s[i] != 0 by {
            if i > 0 {
                assert(rest[i - 1] == s[i]);
            }
        }
        k + 1
    }
}

/// The attributes are zero wherever no argument stands, so that the kernel
/// takes what is not given as its default.
pub proof fn law_attributes_are_zero_elsewhere(
    a: u32,
    b: u32,
    c: u32,
    d: u32,
    e: u32,
    x: u64,
    y: u64,
    z: u64,
    i: int,
)
    ensures
        map_create_attr(a, b, c, d, e).len() == 96,
        20 <= i < 96 ==> map_create_attr(a, b, c, d, e)[i] == 0,
        map_elem_attr(a, x, y).len() == 64,
        4 <= i < 8 || 24 <= i < 64 ==> map_elem_attr(a, x, y)[i] == 0,
        prog_load_attr(a, b, x, y, z, c).len() == 256,
        40 <= i < 68 || 72 <= i < 256 ==> prog_load_attr(a, b, x, y, z, c)[i] == 0,
        prog_attach_attr(a, b, c).len() == 32,
        12 <= i < 32 ==> prog_attach_attr(a, b, c)[i] == 0,
{
}

/// The kernel finds each argument of a map creation at the place of its
/// field, and is told of no more bytes than there are.
pub proof fn law_map_create_fields(mtype: u32, key: u32, val: u32, max: u32, flags: u32)
    ensures
        ({
            let a = map_create_attr(mtype, key, val, max, flags);
            &&& le32(a, attr::MAP_TYPE as int) == mtype
            &&& le32(a, attr::MAP_KEY_SIZE as int) == key
            &&& le32(a, attr::MAP_VALUE_SIZE as int) == val
            &&& le32(a, attr::MAP_MAX_ENTRIES as int) == max
            &&& le32(a, attr::MAP_FLAGS as int) == flags
            &&& 80 <= a.len()
        }),
{
    let a = map_create_attr(mtype, key, val, max, flags);
    assert(a.subrange(0, 4) =~= le_bytes32(mtype));
    assert(a.subrange(4, 8) =~= le_bytes32(key));
    assert(a.subrange(8, 12) =~= le_bytes32(val));
    assert(a.subrange(12, 16) =~= le_bytes32(max));
    assert(a.subrange(16, 20) =~= le_bytes32(flags));
    lemma_le32(a, 0, mtype);
    lemma_le32(a, 4, key);
    lemma_le32(a, 8, val);
    lemma_le32(a, 12, max);
    lemma_le32(a, 16, flags);
}

/// The kernel finds map, key and value of an element access at the places of
/// their fields, and is told of no more bytes than there are.
pub proof fn law_map_elem_fields(fd: u32, key: u64, value: u64)
    ensures
        ({
            let a = map_elem_attr(fd, key, value);
            &&& le32(a, attr::MAP_FD as int) == fd
            &&& le64(a, attr::KEY as int) == key
            &&& le64(a, attr::VALUE as int) == value
            &&& 32 <= a.len()
        }),
{
    let a = map_elem_attr(fd, key, value);
    assert(a.subrange(0, 4) =~= le_bytes32(fd));
    assert(a.subrange(8, 16) =~= le_bytes64(key));
    assert(a.subrange(16, 24) =~= le_bytes64(value));
    lemma_le32(a, 0, fd);
    lemma_le64(a, 8, key);
    lemma_le64(a, 16, value);
}

/// The kernel finds each argument of a program load at the place of its
/// field, and is told of no more bytes than there are.
pub proof fn law_prog_load_fields(
    prog_type: u32,
    insn_cnt: u32,
    insns: u64,
    license: u64,
    log: u64,
    expected_attach: u32,
)
    ensures
        ({
            let a = prog_load_attr(prog_type, insn_cnt, insns, license, log, expected_attach);
            &&& le32(a, attr::PROG_TYPE as int) == prog_type
            &&& le32(a, attr::INSN_CNT as int) == insn_cnt
            &&& le64(a, attr::INSNS as int) == insns
            &&& le64(a, attr::LICENSE as int) == license
            &&& le32(a, attr::LOG_LEVEL as int) == 1
            &&& le32(a, attr::LOG_SIZE as int) == LOG_BUF_LEN
            &&& le64(a, attr::LOG_BUF as int) == log
            &&& le32(a, attr::EXPECTED_ATTACH_TYPE as int) == expected_attach
            &&& 128 <= a.len()
        }),
{
    let a = prog_load_attr(prog_type, insn_cnt, insns, license, log, expected_attach);
    assert(a.subrange(0, 4) =~= le_bytes32(prog_type));
    assert(a.subrange(4, 8) =~= le_bytes32(insn_cnt));
    assert(a.subrange(8, 16) =~= le_bytes64(insns));
    assert(a.subrange(16, 24) =~= le_bytes64(license));
    assert(a.subrange(24, 28) =~= le_bytes32(1));
    assert(a.subrange(28, 32) =~= le_bytes32(LOG_BUF_LEN as u32));
    assert(a.subrange(32, 40) =~= le_bytes64(log));
    assert(a.subrange(68, 72) =~= le_bytes32(expected_attach));
    lemma_le32(a, 0, prog_type);
    lemma_le32(a, 4, insn_cnt);
    lemma_le64(a, 8, insns);
    lemma_le64(a, 16, license);
    lemma_le32(a, 24, 1);
    lemma_le32(a, 28, LOG_BUF_LEN as u32);
    lemma_le64(a, 32, log);
    lemma_le32(a, 68, expected_attach);
}

/// The kernel finds each argument of an attachment at the place of its field,
/// and is told of no more bytes than there are.
pub proof fn law_prog_attach_fields(target_fd: u32, prog_fd: u32, attach_type: u32)
    ensures
        ({
            let a = prog_attach_attr(target_fd, prog_fd, attach_type);
            &&& le32(a, attr::TARGET_FD as int) == target_fd
            &&& le32(a, attr::ATTACH_BPF_FD as int) == prog_fd
            &&& le32(a, attr::ATTACH_TYPE as int) == attach_type
            &&& 20 <= a.len()
        }),
{
    let a = prog_attach_attr(target_fd, prog_fd, attach_type);
    assert(a.subrange(0, 4) =~= le_bytes32(target_fd));
    assert(a.subrange(4, 8) =~= le_bytes32(prog_fd));
    assert(a.subrange(8, 12) =~= le_bytes32(attach_type));
    lemma_le32(a, 0, target_fd);
    lemma_le32(a, 4, prog_fd);
    lemma_le32(a, 8, attach_type);
}

} // verus!
