//! Minimal ELF64 parsing for clang-built eBPF objects: section headers,
//! section names, symbol table with its string table, `SHT_REL` relocations.
use vstd::prelude::*;

use crate::bytes::{le16, le32, le64, read_u16, read_u32, read_u64};
use crate::text::{str_eq, text_of, utf8_lossy};

pub mod laws;

verus! {

/// `e_machine` of an eBPF object.
pub const EM_BPF: u16 = 247;

/// `sh_type` of a symbol table.
pub const SHT_SYMTAB: u32 = 2;

/// A section header.
pub struct Shdr {
    /// Index into the section-name string table.
    pub name: usize,
    pub ty: u32,
    pub _flags: u64,
    pub _addr: u64,
    pub off: usize,
    pub size: usize,
    /// Index of the associated section (the string table of a symbol table).
    pub link: usize,
    /// Further index, such as the section that relocations apply to.
    pub info: usize,
    pub addralign: u64,
    pub entsize: usize,
}

/// A symbol.
pub struct Sym {
    /// Index into the linked string table.
    pub name: usize,
    pub info: u8,
    pub shndx: i32,
    pub value: u64,
    pub size: u64,
}

/// An eBPF object file and where its section headers lie.
pub struct Elf<'a> {
    pub data: &'a [u8],
    pub shoff: usize,
    pub shentsize: usize,
    pub shnum: usize,
    pub shstrndx: usize,
}

/// The bytes of `s` up to its first NUL, or all of them where it has none.
pub open spec fn until_nul(s: Seq<u8>) -> Seq<u8>
    decreases s.len(),
{
    if s.len() == 0 || s[0] == 0 {
        Seq::empty()
    } else {
        seq![s[0]] + until_nul(s.drop_first())
    }
}

/// `until_nul` is the prefix that ends at the first NUL or at the end.
pub proof fn lemma_until_nul(s: Seq<u8>, k: int)
    requires
        0 <= k <= s.len(),
        forall|i: int| 0 <= i < k ==> s[i] != 0,
        k == s.len() || s[k] == 0,
    ensures
        until_nul(s) == s.take(k),
    decreases k,
{
    if k > 0 {
        lemma_until_nul(s.drop_first(), k - 1);
        assert(seq![s[0]] + s.drop_first().take(k - 1) =~= s.take(k));
    } else {
        assert(s.take(0) =~= Seq::<u8>::empty());
    }
}

/// A name or log read up to the first NUL is a prefix of what was read and
/// holds no NUL itself.
pub proof fn law_until_nul(s: Seq<u8>)
    ensures
        !until_nul(s).contains(0),
        until_nul(s).is_prefix_of(s),
    decreases s.len(),
{
    if s.len() > 0 && s[0] != 0 {
        let rest = until_nul(s.drop_first());
        law_until_nul(s.drop_first());
        assert forall|i: int| 0 <= i < until_nul(s).len() implies until_nul(s)[i] != 0 by {
            if i > 0 {
                assert(rest.contains(rest[i - 1]));
            }
        }
        assert(until_nul(s) =~= s.subrange(0, until_nul(s).len() as int)) by {
            assert forall|i: int| 0 <= i < until_nul(s).len() implies until_nul(s)[i] == s[i] by {
                if i > 0 {
                    assert(rest[i - 1] == s.drop_first().subrange(0, rest.len() as int)[i - 1]);
                }
            }
        }
    } else {
        assert(until_nul(s) =~= s.subrange(0, 0));
    }
}

/// The larger of two integers.
pub open spec fn max(a: int, b: int) -> int {
    if a < b {
        b
    } else {
        a
    }
}

/// Of `n` table entries of which the `k`-th starts at `off + k * stride`, how
/// many are read: those before the first whose `need` bytes do not end within
/// the `len` bytes of the file.
pub open spec fn fitting(off: int, stride: int, n: int, need: int, len: int) -> int {
    if n <= 0 || off + need > len {
        0
    } else if (len - need - off) / stride + 1 < n {
        (len - need - off) / stride + 1
    } else {
        n
    }
}

/// Whether a walk over such a table computes no offset beyond `usize`. The
/// last offset that it computes is that of the first entry that does not fit,
/// or of the last entry.
pub open spec fn walkable(off: int, stride: int, n: int, need: int, len: int) -> bool {
    let m = fitting(off, stride, n, need, len);
    n > 0 ==> off + (if m < n {
        m
    } else {
        n - 1
    }) * stride + need <= usize::MAX
}

/// Entry `k` lies in the file exactly if it is among the fitting ones.
pub proof fn lemma_fitting(off: int, stride: int, n: int, need: int, len: int, k: int)
    requires
        stride > 0,
        0 <= k < n,
    ensures
        off + k * stride + need <= len <==> k < fitting(off, stride, n, need, len),
        0 <= fitting(off, stride, n, need, len) <= n,
{
    let room = len - need - off;
    assert(room >= 0 ==> (k * stride <= room <==> k <= room / stride)) by (nonlinear_arith)
        requires
            stride > 0,
    ;
    assert(room >= 0 ==> room / stride >= 0) by (nonlinear_arith)
        requires
            stride > 0,
    ;
    assert(k * stride >= 0) by (nonlinear_arith)
        requires
            stride > 0,
            k >= 0,
    ;
}

proof fn lemma_walkable(off: int, stride: int, n: int, need: int, len: int, k: int)
    requires
        stride > 0,
        0 <= k < n,
        k <= fitting(off, stride, n, need, len),
        walkable(off, stride, n, need, len),
        off >= 0,
        need >= 0,
    ensures
        0 <= k * stride,
        off + k * stride + need <= usize::MAX,
{
    lemma_fitting(off, stride, n, need, len, k);
    let m = fitting(off, stride, n, need, len);
    let last = if m < n {
        m
    } else {
        n - 1
    };
    assert(0 <= k * stride <= last * stride) by (nonlinear_arith)
        requires
            0 <= k <= last,
            stride > 0,
    ;
}

impl<'a> Elf<'a> {
    /// Where the section header `i` starts.
    pub open spec fn header_at(&self, i: int) -> int {
        self.shoff + i * self.shentsize
    }

    /// Whether the section header `i` lies within the file and has the size
    /// of an ELF64 header.
    pub open spec fn header_in_file(&self, i: int) -> bool {
        &&& self.shentsize >= 64
        &&& self.header_at(i) + self.shentsize <= self.data@.len()
    }

    /// The section header `i`.
    pub open spec fn header(&self, i: int) -> Shdr {
        let at = self.header_at(i);
        Shdr {
            name: le32(self.data@, at) as usize,
            ty: le32(self.data@, at + 4) as u32,
            _flags: le64(self.data@, at + 8) as u64,
            _addr: le64(self.data@, at + 16) as u64,
            off: le64(self.data@, at + 24) as usize,
            size: le64(self.data@, at + 32) as usize,
            link: le32(self.data@, at + 40) as usize,
            info: le32(self.data@, at + 44) as usize,
            addralign: le64(self.data@, at + 48) as u64,
            entsize: le64(self.data@, at + 56) as usize,
        }
    }

    /// Where the name of section `i` starts.
    pub open spec fn name_at(&self, i: int) -> int {
        self.header(self.shstrndx as int).off + self.header(i).name
    }

    /// Whether everything that the name of section `i` is looked up through
    /// lies within the file.
    pub open spec fn name_readable(&self, i: int) -> bool {
        i < self.shnum ==> {
            &&& self.header_in_file(i)
            &&& self.shstrndx < self.shnum ==> {
                &&& self.header_in_file(self.shstrndx as int)
                &&& self.name_at(i) <= usize::MAX
            }
        }
    }

    /// The bytes of the name of section `i`: from its place in the string
    /// table to the next NUL.
    pub open spec fn raw_name(&self, i: int) -> Option<Seq<u8>> {
        if i < self.shnum && self.shstrndx < self.shnum && self.name_at(i) < self.data@.len() {
            Some(until_nul(self.data@.skip(self.name_at(i))))
        } else {
            None
        }
    }

    /// The name of section `i`; empty where it has none.
    pub open spec fn name_text(&self, i: int) -> Seq<char> {
        match self.raw_name(i) {
            Some(b) => text_of(b),
            None => Seq::empty(),
        }
    }

    /// Whether the string at `off` of the string table `idx` can be read:
    /// the header lies in the file, and so does the string, up to its NUL or
    /// to the end of the table.
    pub open spec fn str_readable(&self, idx: int, off: int) -> bool {
        idx < self.shnum ==> {
            let sh = self.header(idx);
            &&& self.header_in_file(idx)
            &&& off < sh.size ==> {
                &&& sh.off + sh.size <= usize::MAX
                &&& sh.off + sh.size <= self.data@.len() || exists|p: int|
                    sh.off + off <= p < self.data@.len() && self.data@[p] == 0
            }
        }
    }

    /// The string at `off` of the string table `idx`.
    pub open spec fn str_at(&self, idx: int, off: int) -> Option<Seq<u8>> {
        let sh = self.header(idx);
        if idx < self.shnum && off < sh.size {
            let end = if sh.off + sh.size <= self.data@.len() {
                sh.off + sh.size
            } else {
                self.data@.len() as int
            };
            Some(until_nul(self.data@.subrange(sh.off + off, end)))
        } else {
            None
        }
    }

    /// Whether section `t` is the first symbol table.
    pub open spec fn is_symtab(&self, t: int) -> bool {
        &&& 0 <= t < self.shnum
        &&& self.header(t).ty == SHT_SYMTAB
        &&& forall|u: int| 0 <= u < t ==> (#[trigger] self.header(u)).ty != SHT_SYMTAB
    }

    /// The distance between two entries of the symbol table `t`.
    pub open spec fn sym_stride(&self, t: int) -> int {
        max(self.header(t).entsize as int, 24)
    }

    /// How many entries the header of the symbol table `t` announces.
    pub open spec fn sym_slots(&self, t: int) -> int {
        self.header(t).size as int / self.sym_stride(t)
    }

    /// How many symbols the symbol table `t` holds within the file.
    pub open spec fn sym_count(&self, t: int) -> int {
        fitting(
            self.header(t).off as int,
            self.sym_stride(t),
            self.sym_slots(t),
            24,
            self.data@.len() as int,
        )
    }

    /// Where symbol `k` of the symbol table `t` starts.
    pub open spec fn sym_at(&self, t: int, k: int) -> int {
        self.header(t).off + k * self.sym_stride(t)
    }

    /// Symbol `k` of the symbol table `t`.
    pub open spec fn sym(&self, t: int, k: int) -> Sym {
        let at = self.sym_at(t, k);
        let shndx = le16(self.data@, at + 6);
        Sym {
            name: le32(self.data@, at) as usize,
            info: self.data@[at + 4],
            shndx: (if shndx < 0x8000 {
                shndx
            } else {
                shndx - 0x1_0000
            }) as i32,
            value: le64(self.data@, at + 8) as u64,
            size: le64(self.data@, at + 16) as u64,
        }
    }

    /// The name of symbol `k` of the symbol table `t`; empty where it has
    /// none.
    pub open spec fn sym_text(&self, t: int, k: int) -> Seq<char> {
        match self.str_at(self.header(t).link as int, self.sym(t, k).name as int) {
            Some(b) => text_of(b),
            None => Seq::empty(),
        }
    }

    /// Whether the symbol table can be read: the section headers up to it lie
    /// within the file, and so do the names of its symbols.
    pub open spec fn symtab_readable(&self) -> bool {
        &&& forall|t: int|
            0 <= t < self.shnum && (forall|u: int|
                0 <= u < t ==> (#[trigger] self.header(u)).ty != SHT_SYMTAB)
                ==> #[trigger] self.header_in_file(t)
        &&& forall|t: int| #[trigger]
            self.is_symtab(t) ==> {
                &&& walkable(
                    self.header(t).off as int,
                    self.sym_stride(t),
                    self.sym_slots(t),
                    24,
                    self.data@.len() as int,
                )
                &&& forall|k: int|
                    0 <= k < self.sym_count(t) ==> self.str_readable(
                        self.header(t).link as int,
                        (#[trigger] self.sym(t, k)).name as int,
                    )
            }
    }

    /// The distance between two relocations of section `i`.
    pub open spec fn rel_stride(&self, i: int) -> int {
        max(self.header(i).entsize as int, 16)
    }

    /// How many relocations the header of section `i` announces.
    pub open spec fn rel_slots(&self, i: int) -> int {
        self.header(i).size as int / self.rel_stride(i)
    }

    /// How many relocations section `i` holds within the file.
    pub open spec fn rel_count(&self, i: int) -> int {
        fitting(
            self.header(i).off as int,
            self.rel_stride(i),
            self.rel_slots(i),
            16,
            self.data@.len() as int,
        )
    }

    /// Relocation `k` of section `i`: offset and info.
    pub open spec fn rel(&self, i: int, k: int) -> (u64, u64) {
        let at = self.header(i).off + k * self.rel_stride(i);
        (le64(self.data@, at) as u64, le64(self.data@, at + 8) as u64)
    }

    /// Whether `data` starts with the header of an eBPF object that has
    /// section headers of full size.
    pub open spec fn accepts(data: Seq<u8>) -> bool {
        &&& data.len() >= 64
        &&& data[0] == 0x7f && data[1] == 0x45 && data[2] == 0x4c && data[3] == 0x46
        &&& le16(data, 18) == EM_BPF
        &&& le16(data, 60) != 0
        &&& le16(data, 58) >= 64
    }

    /// Reads the file header.
    pub fn new(data: &'a [u8]) -> (r: Option<Self>)
        ensures
            r is Some <==> Self::accepts(data@),
            r matches Some(e) ==> {
                &&& e.data@ == data@
                &&& e.shoff == le64(data@, 40) as usize
                &&& e.shentsize == le16(data@, 58)
                &&& e.shnum == le16(data@, 60)
                &&& e.shstrndx == le16(data@, 62)
            },
    {
        if data.len() < 64 {
            return None;
        }
        if data[0] != 0x7f || data[1] != 0x45 || data[2] != 0x4c || data[3] != 0x46 {
            return None;
        }
        let e_machine: u16 = read_u16(data, 18);
        if e_machine != EM_BPF {
            return None;
        }
        let shoff: usize = read_u64(data, 40) as usize;
        let shentsize: usize = read_u16(data, 58) as usize;
        let shnum: usize = read_u16(data, 60) as usize;
        let shstrndx: usize = read_u16(data, 62) as usize;
        if shnum == 0 || shentsize < 64 {
            return None;
        }
        Some(Self { data, shoff, shentsize, shnum, shstrndx })
    }

    /// The section header `i`, if there is one.
    pub fn shdr(&self, i: usize) -> (r: Option<Shdr>)
        requires
            i < self.shnum ==> self.header_in_file(i as int),
        ensures
            r == (if i < self.shnum {
                Some(self.header(i as int))
            } else {
                None
            }),
    {
        if i >= self.shnum {
            return None;
        }
        assert(self.header_at(i as int) + self.shentsize <= self.data.len());
        assert(i * self.shentsize >= 0) by (nonlinear_arith);
        let off: usize = self.shoff + i * self.shentsize;
        let s = self.data;
        Some(
            Shdr {
                name: read_u32(s, off) as usize,
                ty: read_u32(s, off + 4),
                _flags: read_u64(s, off + 8),
                _addr: read_u64(s, off + 16),
                off: read_u64(s, off + 24) as usize,
                size: read_u64(s, off + 32) as usize,
                link: read_u32(s, off + 40) as usize,
                info: read_u32(s, off + 44) as usize,
                addralign: read_u64(s, off + 48),
                entsize: read_u64(s, off + 56) as usize,
            },
        )
    }

    /// The bytes of the name of section `i`.
    pub fn section_name_raw(&self, i: usize) -> (r: Option<&'a [u8]>)
        requires
            self.name_readable(i as int),
        ensures
            match r {
                Some(b) => self.raw_name(i as int) == Some(b@),
                None => self.raw_name(i as int) is None,
            },
    {
        let sh = match self.shdr(i) {
            Some(sh) => sh,
            None => {
                return None;
            },
        };
        let tab = match self.shdr(self.shstrndx) {
            Some(tab) => tab,
            None => {
                return None;
            },
        };
        let start: usize = tab.off + sh.name;
        if start >= self.data.len() {
            return None;
        }
        let mut end: usize = start;
        while end < self.data.len() && self.data[end] != 0
            invariant
                start <= end <= self.data@.len(),
                forall|p: int| start <= p < end ==> self.data@[p] != 0,
            ensures
                end == self.data@.len() || self.data@[end as int] == 0,
            decreases self.data@.len() - end,
        {
            end += 1;
        }
        proof {
            let rest = self.data@.skip(start as int);
            assert forall|p: int| 0 <= p < end - start implies rest[p] != 0 by {
                assert(rest[p] == self.data@[start + p]);
            }
            lemma_until_nul(rest, end - start);
            assert(rest.take(end - start) =~= self.data@.subrange(start as int, end as int));
        }
        Some(&self.data[start..end])
    }

    /// The name of section `i`; empty where it has none.
    pub fn section_name(&self, i: usize) -> (r: String)
        requires
            self.name_readable(i as int),
        ensures
            r@ == self.name_text(i as int),
    {
        match self.section_name_raw(i) {
            Some(b) => utf8_lossy(b),
            None => String::new(),
        }
    }

    /// The string at `off` of the string table `strtab_idx`.
    pub fn str_raw(&self, strtab_idx: usize, off: usize) -> (r: Option<&'a [u8]>)
        requires
            self.str_readable(strtab_idx as int, off as int),
        ensures
            match r {
                Some(b) => self.str_at(strtab_idx as int, off as int) == Some(b@),
                None => self.str_at(strtab_idx as int, off as int) is None,
            },
    {
        let sh = match self.shdr(strtab_idx) {
            Some(sh) => sh,
            None => {
                return None;
            },
        };
        if off >= sh.size {
            return None;
        }
        let start: usize = sh.off + off;
        let max: usize = sh.off + sh.size;
        let ghost stop = if max <= self.data@.len() {
            max as int
        } else {
            choose|p: int| start <= p < self.data@.len() && self.data@[p] == 0
        };
        let mut end: usize = start;
        while end < max && self.data[end] != 0
            invariant
                start <= end <= stop <= self.data@.len(),
                stop == max || (stop < self.data@.len() && stop < max && self.data@[stop] == 0),
                forall|p: int| start <= p < end ==> self.data@[p] != 0,
            ensures
                end == max || self.data@[end as int] == 0,
            decreases max - end,
        {
            end += 1;
        }
        proof {
            let last = if max <= self.data@.len() {
                max as int
            } else {
                self.data@.len() as int
            };
            let rest = self.data@.subrange(start as int, last);
            assert forall|p: int| 0 <= p < end - start implies rest[p] != 0 by {
                assert(rest[p] == self.data@[start + p]);
            }
            lemma_until_nul(rest, end - start);
            assert(rest.take(end - start) =~= self.data@.subrange(start as int, end as int));
        }
        Some(&self.data[start..end])
    }

    /// The symbols of the first symbol table, each with its name.
    pub fn symtab(&self) -> (r: Vec<(String, Sym)>)
        requires
            self.symtab_readable(),
        ensures
            forall|t: int| #[trigger]
                self.is_symtab(t) ==> {
                    &&& r@.len() == self.sym_count(t)
                    &&& forall|k: int|
                        0 <= k < r@.len() ==> {
                            &&& (#[trigger] r@[k]).0@ == self.sym_text(t, k)
                            &&& r@[k].1 == self.sym(t, k)
                        }
                },
            (forall|t: int| !#[trigger] self.is_symtab(t)) ==> r@.len() == 0,
    {
        let mut out: Vec<(String, Sym)> = Vec::new();
        let mut tab: usize = 0;
        while tab < self.shnum
            invariant
                tab <= self.shnum,
                self.symtab_readable(),
                forall|u: int| 0 <= u < tab ==> (#[trigger] self.header(u)).ty != SHT_SYMTAB,
                out@.len() == 0,
            decreases self.shnum - tab,
        {
            assert(self.header_in_file(tab as int));
            if let Some(sh) = self.shdr(tab) {
                if sh.ty == SHT_SYMTAB {
                    assert(self.is_symtab(tab as int));
                    assert forall|t: int| #[trigger] self.is_symtab(t) implies t == tab by {
                        if t < tab {
                            assert(self.header(t).ty != SHT_SYMTAB);
                        } else if t > tab {
                            assert(self.header(tab as int).ty != SHT_SYMTAB);
                        }
                    }
                    return self.symbols(tab, sh);
                }
            }
            tab += 1;
        }
        assert forall|t: int| !#[trigger] self.is_symtab(t) by {
            if 0 <= t < self.shnum {
                assert(self.header(t).ty != SHT_SYMTAB);
            }
        }
        out
    }

    /// The symbols of the symbol table `tab`, whose header is `sh`.
    fn symbols(&self, tab: usize, sh: Shdr) -> (r: Vec<(String, Sym)>)
        requires
            self.symtab_readable(),
            self.is_symtab(tab as int),
            sh == self.header(tab as int),
        ensures
            r@.len() == self.sym_count(tab as int),
            forall|k: int|
                0 <= k < r@.len() ==> {
                    &&& (#[trigger] r@[k]).0@ == self.sym_text(tab as int, k)
                    &&& r@[k].1 == self.sym(tab as int, k)
                },
    {
        let ghost t = tab as int;
        let mut out: Vec<(String, Sym)> = Vec::new();
        let strtab: usize = sh.link;
        let stride: usize = if sh.entsize < 24 {
            24
        } else {
            sh.entsize
        };
        let n: usize = sh.size / stride;
        let ghost len = self.data@.len() as int;
        assert(stride == self.sym_stride(t));
        assert(n == self.sym_slots(t));
        let ghost count = fitting(sh.off as int, stride as int, n as int, 24, len);
        assert(count == self.sym_count(t));
        let mut k: usize = 0;
        while k < n
            invariant
                k <= n,
                k <= count,
                self.symtab_readable(),
                self.is_symtab(t),
                sh == self.header(t),
                stride == self.sym_stride(t),
                n == self.sym_slots(t),
                strtab == sh.link,
                stride >= 24,
                len == self.data@.len(),
                count == self.sym_count(t),
                count == fitting(sh.off as int, stride as int, n as int, 24, len),
                out@.len() == k,
                forall|j: int|
                    0 <= j < k ==> {
                        &&& (#[trigger] out@[j]).0@ == self.sym_text(t, j)
                        &&& out@[j].1 == self.sym(t, j)
                    },
            ensures
                k == count,
            decreases n - k,
        {
            proof {
                lemma_walkable(sh.off as int, stride as int, n as int, 24, len, k as int);
                lemma_fitting(sh.off as int, stride as int, n as int, 24, len, k as int);
            }
            let off: usize = sh.off + k * stride;
            assert(off == self.sym_at(t, k as int));
            if off + 24 > self.data.len() {
                break;
            }
            let d = self.data;
            let name_off: usize = read_u32(d, off) as usize;
            let info: u8 = d[off + 4];
            let half: u16 = read_u16(d, off + 6);
            let shndx: i32 = if half < 0x8000 {
                half as i32
            } else {
                half as i32 - 0x1_0000
            };
            let value: u64 = read_u64(d, off + 8);
            let size: u64 = read_u64(d, off + 16);
            let sym = Sym { name: name_off, info, shndx, value, size };
            assert(sym == self.sym(t, k as int));
            let nm = match self.str_raw(strtab, name_off) {
                Some(b) => utf8_lossy(b),
                None => String::new(),
            };
            assert(nm@ == self.sym_text(t, k as int));
            out.push((nm, sym));
            k += 1;
        }
        out
    }

    /// Whether section `i` is the first one named `name`.
    pub open spec fn is_first_named(&self, name: Seq<char>, i: int) -> bool {
        &&& 0 <= i < self.shnum
        &&& self.name_text(i) == name
        &&& self.none_named_before(name, i)
    }

    /// Whether no section before `i` is named `name`.
    pub open spec fn none_named_before(&self, name: Seq<char>, i: int) -> bool {
        forall|j: int| 0 <= j < i ==> #[trigger] self.name_text(j) != name
    }

    /// Whether every section name can be read that a search for `name` looks
    /// at: up to the first section of that name, or all of them.
    pub open spec fn search_readable(&self, name: Seq<char>) -> bool {
        forall|i: int|
            0 <= i < self.shnum && self.none_named_before(name, i)
                ==> #[trigger] self.name_readable(i)
    }

    /// The index of the first section with the given name.
    pub fn find(&self, name: &str) -> (r: Option<usize>)
        requires
            self.search_readable(name@),
        ensures
            match r {
                Some(i) => self.is_first_named(name@, i as int),
                None => self.none_named_before(name@, self.shnum as int),
            },
    {
        let mut i: usize = 0;
        while i < self.shnum
            invariant
                i <= self.shnum,
                self.none_named_before(name@, i as int),
                self.search_readable(name@),
            decreases self.shnum - i,
        {
            assert(self.name_readable(i as int));
            let text = self.section_name(i);
            if str_eq(text.as_str(), name) {
                return Some(i);
            }
            i += 1;
        }
        None
    }

    /// Tests whether the section header `i` can be read.
    pub fn header_fits(&self, i: usize) -> (r: bool)
        ensures
            r == self.header_in_file(i as int),
    {
        if self.shentsize < 64 {
            return false;
        }
        assert(self.data@.len() <= usize::MAX) by {
            assert(self.data@.len() == self.data.len());
        }
        match i.checked_mul(self.shentsize) {
            Some(rel) => match self.shoff.checked_add(rel) {
                Some(at) => at <= self.data.len() && self.shentsize <= self.data.len() - at,
                None => false,
            },
            None => false,
        }
    }

    /// Tests whether the name of section `i` can be read.
    pub fn name_fits(&self, i: usize) -> (r: bool)
        ensures
            r == self.name_readable(i as int),
    {
        if i >= self.shnum {
            return true;
        }
        if !self.header_fits(i) {
            return false;
        }
        if self.shstrndx >= self.shnum {
            return true;
        }
        if !self.header_fits(self.shstrndx) {
            return false;
        }
        match (self.shdr(self.shstrndx), self.shdr(i)) {
            (Some(tab), Some(sh)) => tab.off.checked_add(sh.name).is_some(),
            _ => true,
        }
    }

    /// Searches an object of unknown make for a section: `Ok` with the result
    /// of [`Elf::find`], or `Err` with the index of the first section that
    /// the search cannot name because a header lies outside the file.
    pub fn try_find(&self, name: &str) -> (r: Result<Option<usize>, usize>)
        ensures
            match r {
                Ok(found) => {
                    &&& self.search_readable(name@)
                    &&& match found {
                        Some(i) => self.is_first_named(name@, i as int),
                        None => self.none_named_before(name@, self.shnum as int),
                    }
                },
                Err(i) => {
                    &&& i < self.shnum
                    &&& !self.name_readable(i as int)
                    &&& forall|j: int| 0 <= j < i ==> #[trigger] self.name_readable(j)
                    &&& self.none_named_before(name@, i as int)
                },
            },
    {
        let mut i: usize = 0;
        while i < self.shnum
            invariant
                i <= self.shnum,
                self.none_named_before(name@, i as int),
                forall|j: int| 0 <= j < i ==> #[trigger] self.name_readable(j),
            ensures
                self.search_readable(name@),
            decreases self.shnum - i,
        {
            if !self.name_fits(i) {
                return Err(i);
            }
            let text = self.section_name(i);
            if str_eq(text.as_str(), name) {
                assert forall|k: int|
                    0 <= k < self.shnum && self.none_named_before(
                        name@,
                        k,
                    ) implies #[trigger] self.name_readable(k) by {
                    if k > i {
                        assert(self.name_text(i as int) != name@);
                    }
                }
                break;
            }
            i += 1;
        }
        Ok(self.find(name))
    }

    /// The relocations of section `rel_sec`: offset and info of each.
    pub fn relocs(&self, rel_sec: usize) -> (r: Vec<(u64, u64)>)
        requires
            rel_sec < self.shnum ==> {
                &&& self.header_in_file(rel_sec as int)
                &&& walkable(
                    self.header(rel_sec as int).off as int,
                    self.rel_stride(rel_sec as int),
                    self.rel_slots(rel_sec as int),
                    16,
                    self.data@.len() as int,
                )
            },
        ensures
            rel_sec >= self.shnum ==> r@.len() == 0,
            rel_sec < self.shnum ==> r@ == Seq::new(
                self.rel_count(rel_sec as int) as nat,
                |k: int| self.rel(rel_sec as int, k),
            ),
    {
        let ghost i = rel_sec as int;
        let mut out: Vec<(u64, u64)> = Vec::new();
        let sh = match self.shdr(rel_sec) {
            Some(sh) => sh,
            None => {
                return out;
            },
        };
        let stride: usize = if sh.entsize < 16 {
            16
        } else {
            sh.entsize
        };
        let n: usize = sh.size / stride;
        let ghost len = self.data@.len() as int;
        assert(stride == self.rel_stride(i));
        let ghost count = self.rel_count(i);
        let mut k: usize = 0;
        while k < n
            invariant
                k <= n,
                k <= count,
                sh == self.header(i),
                stride == self.rel_stride(i),
                stride >= 16,
                len == self.data@.len(),
                count == self.rel_count(i),
                count == fitting(sh.off as int, stride as int, n as int, 16, len),
                walkable(sh.off as int, stride as int, n as int, 16, len),
                out@.len() == k,
                forall|j: int| 0 <= j < k ==> #[trigger] out@[j] == self.rel(i, j),
            ensures
                k == count,
            decreases n - k,
        {
            proof {
                lemma_walkable(sh.off as int, stride as int, n as int, 16, len, k as int);
                lemma_fitting(sh.off as int, stride as int, n as int, 16, len, k as int);
            }
            let off: usize = sh.off + k * stride;
            if off + 16 > self.data.len() {
                break;
            }
            let r_off: u64 = read_u64(self.data, off);
            let r_info: u64 = read_u64(self.data, off + 8);
            out.push((r_off, r_info));
            k += 1;
        }
        assert(out@ =~= Seq::new(count as nat, |k: int| self.rel(i, k)));
        out
    }
}

} // verus!
