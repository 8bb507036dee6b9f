//! What reading an eBPF object gives back of what was written into it.
use vstd::prelude::*;
use vstd::utf8::*;

use crate::bytes::{
    le32, le64, le_bytes16, le_bytes32, le_bytes64, lemma_le16, lemma_le32, lemma_le64,
};
use crate::elf::{fitting, lemma_fitting, lemma_until_nul, until_nul, walkable, Elf, Shdr};
use crate::text::{law_encoded_text_reads_back, text_of};

verus! {

/// A file is accepted exactly if it has a whole ELF header that starts with
/// the magic number and tells of an eBPF object with section headers of at
/// least 64 bytes.
pub proof fn law_accepted_exactly_if(data: Seq<u8>, machine: u16, entsize: u16, shnum: u16)
    requires
        data.len() >= 64 ==> {
            &&& data.subrange(18, 20) == le_bytes16(machine)
            &&& data.subrange(58, 60) == le_bytes16(entsize)
            &&& data.subrange(60, 62) == le_bytes16(shnum)
        },
    ensures
        Elf::accepts(data) <==> {
            &&& data.len() >= 64
            &&& data.take(4) == seq![0x7fu8, 0x45, 0x4c, 0x46]
            &&& machine == 247
            &&& shnum > 0
            &&& entsize >= 64
        },
{
    if data.len() >= 64 {
        lemma_le16(data, 18, machine);
        lemma_le16(data, 58, entsize);
        lemma_le16(data, 60, shnum);
        let head = data.take(4);
        assert(head[0] == data[0] && head[1] == data[1] && head[2] == data[2] && head[3]
            == data[3]);
        if Elf::accepts(data) {
            assert(head =~= seq![0x7fu8, 0x45, 0x4c, 0x46]);
        }
    }
}

/// Section header `i` lies in the file exactly if the table of headers, up to
/// and with it, ends within the file.
pub proof fn law_header_in_file(e: &Elf, i: int)
    requires
        i >= 0,
    ensures
        e.header_in_file(i) <==> e.shentsize >= 64 && e.shoff + (i + 1) * e.shentsize
            <= e.data@.len(),
{
    assert((i + 1) * e.shentsize == i * e.shentsize + e.shentsize) by (nonlinear_arith);
}

/// A section header that was written into the table is read back field by
/// field.
pub proof fn law_header_reads_back(
    e: &Elf,
    i: int,
    name: u32,
    ty: u32,
    flags: u64,
    addr: u64,
    off: u64,
    size: u64,
    link: u32,
    info: u32,
    addralign: u64,
    entsize: u64,
)
    requires
        0 <= e.shoff + i * e.shentsize,
        e.shoff + i * e.shentsize + 64 <= e.data@.len(),
        e.data@.subrange(e.shoff + i * e.shentsize, e.shoff + i * e.shentsize + 64) == le_bytes32(
            name,
        ) + le_bytes32(ty) + le_bytes64(flags) + le_bytes64(addr) + le_bytes64(off) + le_bytes64(
            size,
        ) + le_bytes32(link) + le_bytes32(info) + le_bytes64(addralign) + le_bytes64(entsize),
    ensures
        e.header(i) == (Shdr {
            name: name as usize,
            ty,
            _flags: flags,
            _addr: addr,
            off: off as usize,
            size: size as usize,
            link: link as usize,
            info: info as usize,
            addralign,
            entsize: entsize as usize,
        }),
{
    let at = e.shoff + i * e.shentsize;
    let d = e.data@;
    let b = d.subrange(at, at + 64);
    let front = le_bytes32(name) + le_bytes32(ty) + le_bytes64(flags) + le_bytes64(addr)
        + le_bytes64(off);
    let back = le_bytes64(size) + le_bytes32(link) + le_bytes32(info) + le_bytes64(addralign)
        + le_bytes64(entsize);
    assert(b =~= front + back);
    lemma_part(d, at, b, 0, front);
    lemma_part(d, at, b, 32, back);
    lemma_header_front(d, at, name, ty, flags, addr, off);
    lemma_header_back(d, at + 32, size, link, info, addralign, entsize);
}

proof fn lemma_header_front(
    d: Seq<u8>,
    at: int,
    name: u32,
    ty: u32,
    flags: u64,
    addr: u64,
    off: u64,
)
    requires
        0 <= at,
        at + 32 <= d.len(),
        d.subrange(at, at + 32) == le_bytes32(name) + le_bytes32(ty) + le_bytes64(flags)
            + le_bytes64(addr) + le_bytes64(off),
    ensures
        le32(d, at) == name,
        le32(d, at + 4) == ty,
        le64(d, at + 8) == flags,
        le64(d, at + 16) == addr,
        le64(d, at + 24) == off,
{
    let b = d.subrange(at, at + 32);
    lemma_part(d, at, b, 0, le_bytes32(name));
    lemma_part(d, at, b, 4, le_bytes32(ty));
    lemma_part(d, at, b, 8, le_bytes64(flags));
    lemma_part(d, at, b, 16, le_bytes64(addr));
    lemma_part(d, at, b, 24, le_bytes64(off));
    lemma_le32(d, at, name);
    lemma_le32(d, at + 4, ty);
    lemma_le64(d, at + 8, flags);
    lemma_le64(d, at + 16, addr);
    lemma_le64(d, at + 24, off);
}

proof fn lemma_header_back(
    d: Seq<u8>,
    at: int,
    size: u64,
    link: u32,
    info: u32,
    addralign: u64,
    entsize: u64,
)
    requires
        0 <= at,
        at + 32 <= d.len(),
        d.subrange(at, at + 32) == le_bytes64(size) + le_bytes32(link) + le_bytes32(info)
            + le_bytes64(addralign) + le_bytes64(entsize),
    ensures
        le64(d, at) == size,
        le32(d, at + 8) == link,
        le32(d, at + 12) == info,
        le64(d, at + 16) == addralign,
        le64(d, at + 24) == entsize,
{
    let b = d.subrange(at, at + 32);
    lemma_part(d, at, b, 0, le_bytes64(size));
    lemma_part(d, at, b, 8, le_bytes32(link));
    lemma_part(d, at, b, 12, le_bytes32(info));
    lemma_part(d, at, b, 16, le_bytes64(addralign));
    lemma_part(d, at, b, 24, le_bytes64(entsize));
    lemma_le64(d, at, size);
    lemma_le32(d, at + 8, link);
    lemma_le32(d, at + 12, info);
    lemma_le64(d, at + 16, addralign);
    lemma_le64(d, at + 24, entsize);
}

/// A part of a record in a file lies at the place of the record plus its own.
proof fn lemma_part(d: Seq<u8>, at: int, record: Seq<u8>, k: int, part: Seq<u8>)
    requires
        0 <= at,
        0 <= k,
        at + record.len() <= d.len(),
        k + part.len() <= record.len(),
        record == d.subrange(at, at + record.len()),
        forall|i: int| 0 <= i < part.len() ==> record[k + i] == #[trigger] part[i],
    ensures
        d.subrange(at + k, at + k + part.len()) == part,
{
    assert forall|i: int| 0 <= i < part.len() implies d.subrange(at + k, at + k + part.len())[i]
        == part[i] by {
        assert(record[k + i] == d[at + k + i]);
        assert(record[k + i] == part[i]);
    }
    assert(d.subrange(at + k, at + k + part.len()) =~= part);
}

/// The text before the first NUL is the longest that holds none: it ends at a
/// NUL or where the bytes end.
pub proof fn law_until_nul_is_longest(s: Seq<u8>)
    ensures
        until_nul(s).len() <= s.len(),
        until_nul(s).len() < s.len() ==> s[until_nul(s).len() as int] == 0,
    decreases s.len(),
{
    if s.len() > 0 && s[0] != 0 {
        law_until_nul_is_longest(s.drop_first());
    }
}

/// What was written before a NUL, or at the very end, is read up to there.
pub proof fn law_text_before_nul_reads_back(w: Seq<u8>, rest: Seq<u8>)
    requires
        !w.contains(0),
    ensures
        until_nul(w) == w,
        until_nul(w.push(0) + rest) == w,
{
    assert forall|i: int| 0 <= i < w.len() implies w[i] != 0 by {
        assert(w.contains(w[i]));
    }
    lemma_until_nul(w, w.len() as int);
    assert(w.take(w.len() as int) =~= w);
    let s = w.push(0) + rest;
    assert forall|i: int| 0 <= i < w.len() implies s[i] != 0 by {
        assert(s[i] == w[i]);
    }
    lemma_until_nul(s, w.len() as int);
    assert(s.take(w.len() as int) =~= w);
}

/// The name of a section is what stands in the file where the header of the
/// name table and the section's own header point to, up to a NUL.
pub proof fn law_section_name_reads_back(e: &Elf, i: int, w: Seq<u8>)
    requires
        0 <= i < e.shnum,
        e.shstrndx < e.shnum,
        !w.contains(0),
        ({
            let p = e.header(e.shstrndx as int).off + e.header(i).name;
            &&& p < e.data@.len()
            &&& p + w.len() <= e.data@.len()
            &&& e.data@.subrange(p, p + w.len()) == w
            &&& p + w.len() == e.data@.len() || e.data@[p + w.len()] == 0
        }),
    ensures
        e.raw_name(i) == Some(w),
        e.name_text(i) == text_of(w),
        forall|s: Seq<char>| w == #[trigger] encode_utf8(s) ==> e.name_text(i) == s,
{
    let p = e.header(e.shstrndx as int).off + e.header(i).name;
    let rest = e.data@.skip(p);
    assert forall|k: int| 0 <= k < w.len() implies rest[k] != 0 by {
        assert(w[k] == e.data@.subrange(p, p + w.len())[k]);
        assert(w.contains(w[k]));
    }
    lemma_until_nul(rest, w.len() as int);
    assert(rest.take(w.len() as int) =~= w);
    assert forall|s: Seq<char>| w == #[trigger] encode_utf8(s) implies e.name_text(i) == s by {
        law_encoded_text_reads_back(s);
    }
}

/// A section has no name exactly if it does not exist, there is no name table
/// or the name would start beyond the file; its name is then empty.
pub proof fn law_section_without_name(e: &Elf, i: int)
    requires
        i >= 0,
    ensures
        e.raw_name(i) is None <==> i >= e.shnum || e.shstrndx >= e.shnum || e.header(
            e.shstrndx as int,
        ).off + e.header(i).name >= e.data@.len(),
        e.raw_name(i) is None ==> e.name_text(i).len() == 0,
{
}

/// A string of a string table is what stands in the file at its offset in the
/// table, up to a NUL or to the end of the table.
pub proof fn law_string_reads_back(e: &Elf, idx: int, off: int, w: Seq<u8>)
    requires
        0 <= idx < e.shnum,
        0 <= off,
        off + w.len() <= e.header(idx).size,
        off < e.header(idx).size,
        e.header(idx).off + off + w.len() <= e.data@.len(),
        e.data@.subrange(e.header(idx).off + off, e.header(idx).off + off + w.len()) == w,
        !w.contains(0),
        off + w.len() == e.header(idx).size || (e.header(idx).off + off + w.len() < e.data@.len()
            && e.data@[e.header(idx).off + off + w.len()] == 0),
    ensures
        e.str_at(idx, off) == Some(w),
{
    let sh = e.header(idx);
    let p = sh.off + off;
    let end = if sh.off + sh.size <= e.data@.len() {
        sh.off + sh.size
    } else {
        e.data@.len() as int
    };
    let rest = e.data@.subrange(p, end);
    assert forall|k: int| 0 <= k < w.len() implies rest[k] != 0 by {
        assert(w[k] == e.data@.subrange(p, p + w.len())[k]);
        assert(w.contains(w[k]));
    }
    lemma_until_nul(rest, w.len() as int);
    assert(rest.take(w.len() as int) =~= w);
}

/// A string table holds no string exactly beyond its size, and there is none
/// in a section that does not exist.
pub proof fn law_string_outside(e: &Elf, idx: int, off: int)
    ensures
        e.str_at(idx, off) is None <==> idx >= e.shnum || off >= e.header(idx).size,
{
}

/// The symbol table is the first section of type 2: there is at most one, and
/// one exactly if any section has that type.
pub proof fn law_first_symbol_table(e: &Elf, t: int, u: int)
    ensures
        e.is_symtab(t) && e.is_symtab(u) ==> t == u,
        e.is_symtab(t) ==> 0 <= t < e.shnum && e.header(t).ty == 2,
        e.is_symtab(t) && 0 <= u < e.shnum && e.header(u).ty == 2 ==> t <= u,
        0 <= u < e.shnum && e.header(u).ty == 2 ==> exists|v: int| e.is_symtab(v) && v <= u,
    decreases u,
{
    if e.is_symtab(t) && 0 <= u < t {
        assert(e.header(u).ty != 2);
    }
    if e.is_symtab(u) && 0 <= t < u {
        assert(e.header(t).ty != 2);
    }
    if 0 <= u < e.shnum && e.header(u).ty == 2 {
        if !e.is_symtab(u) {
            let w = choose|w: int| 0 <= w < u && (#[trigger] e.header(w)).ty == 2;
            law_first_symbol_table(e, w, w);
            let v = choose|v: int| e.is_symtab(v) && v <= w;
            assert(e.is_symtab(v) && v <= u);
        }
    }
}

/// A symbol is counted exactly if its slot lies within the size of the symbol
/// table and its 24 bytes lie within the file.
pub proof fn law_symbols_counted(e: &Elf, t: int, stride: int, k: int)
    requires
        stride >= 24 && stride >= e.header(t).entsize,
        stride == 24 || stride == e.header(t).entsize,
        k >= 0,
    ensures
        k < e.sym_count(t) <==> (k + 1) * stride <= e.header(t).size && e.header(t).off + k * stride
            + 24 <= e.data@.len(),
        e.sym_count(t) >= 0,
{
    lemma_slots(e.header(t).size as int, stride, k);
    let n = e.header(t).size as int / stride;
    if k < n {
        lemma_fitting(e.header(t).off as int, stride, n, 24, e.data@.len() as int, k);
    } else {
        lemma_fitting_bounds(e.header(t).off as int, stride, n, 24, e.data@.len() as int);
    }
}

proof fn lemma_slots(size: int, stride: int, k: int)
    requires
        size >= 0,
        stride > 0,
        k >= 0,
    ensures
        (k + 1) * stride <= size <==> k < size / stride,
        size / stride >= 0,
{
    assert((k + 1) * stride <= size <==> k + 1 <= size / stride) by (nonlinear_arith)
        requires
            stride > 0,
            size >= 0,
    ;
    assert(size / stride >= 0) by (nonlinear_arith)
        requires
            stride > 0,
            size >= 0,
    ;
}

proof fn lemma_fitting_bounds(off: int, stride: int, n: int, need: int, len: int)
    requires
        stride > 0,
        n >= 0,
    ensures
        0 <= fitting(off, stride, n, need, len) <= n,
{
    if n > 0 {
        lemma_fitting(off, stride, n, need, len, 0);
    }
}

/// A symbol whose 24 bytes were written into its slot is read back in full:
/// name offset, info, section (a signed number), value and size.
pub proof fn law_symbol_reads_back(
    e: &Elf,
    t: int,
    stride: int,
    k: int,
    name: u32,
    info: u8,
    other: u8,
    shndx: u16,
    value: u64,
    size: u64,
)
    requires
        stride >= 24 && stride >= e.header(t).entsize,
        stride == 24 || stride == e.header(t).entsize,
        k >= 0,
        e.header(t).off + k * stride + 24 <= e.data@.len(),
        e.data@.subrange(e.header(t).off + k * stride, e.header(t).off + k * stride + 24)
            == le_bytes32(name) + seq![info, other] + le_bytes16(shndx) + le_bytes64(value)
            + le_bytes64(size),
    ensures
        e.sym(t, k).name == name,
        e.sym(t, k).info == info,
        e.sym(t, k).shndx == (if shndx < 0x8000 {
            shndx as int
        } else {
            shndx - 0x1_0000
        }),
        e.sym(t, k).value == value,
        e.sym(t, k).size == size,
{
    assert(k * stride >= 0) by (nonlinear_arith)
        requires
            k >= 0,
            stride >= 24,
    ;
    let d = e.data@;
    let at = e.header(t).off + k * stride;
    assert(at == e.sym_at(t, k));
    let b = d.subrange(at, at + 24);
    lemma_part(d, at, b, 0, le_bytes32(name));
    lemma_part(d, at, b, 6, le_bytes16(shndx));
    lemma_part(d, at, b, 8, le_bytes64(value));
    lemma_part(d, at, b, 16, le_bytes64(size));
    assert(b[4] == d[at + 4]);
    lemma_le32(d, at, name);
    lemma_le16(d, at + 6, shndx);
    lemma_le64(d, at + 8, value);
    lemma_le64(d, at + 16, size);
}

/// The name of a symbol is the string at its name offset in the string table
/// that the symbol table is linked to; empty where there is none.
pub proof fn law_symbol_name(e: &Elf, t: int, k: int, w: Seq<u8>)
    ensures
        e.str_at(e.header(t).link as int, e.sym(t, k).name as int) == Some(w) ==> e.sym_text(t, k)
            == text_of(w),
        e.str_at(e.header(t).link as int, e.sym(t, k).name as int) is None ==> e.sym_text(
            t,
            k,
        ).len() == 0,
{
}

/// A relocation is counted exactly if its slot lies within the size of the
/// section and its 16 bytes lie within the file.
pub proof fn law_relocs_counted(e: &Elf, i: int, stride: int, k: int)
    requires
        stride >= 16 && stride >= e.header(i).entsize,
        stride == 16 || stride == e.header(i).entsize,
        k >= 0,
    ensures
        k < e.rel_count(i) <==> (k + 1) * stride <= e.header(i).size && e.header(i).off + k * stride
            + 16 <= e.data@.len(),
        e.rel_count(i) >= 0,
{
    lemma_slots(e.header(i).size as int, stride, k);
    let n = e.header(i).size as int / stride;
    if k < n {
        lemma_fitting(e.header(i).off as int, stride, n, 16, e.data@.len() as int, k);
    } else {
        lemma_fitting_bounds(e.header(i).off as int, stride, n, 16, e.data@.len() as int);
    }
}

/// A relocation whose 16 bytes were written into its slot is read back:
/// offset first, then info.
pub proof fn law_reloc_reads_back(e: &Elf, i: int, stride: int, k: int, off: u64, info: u64)
    requires
        stride >= 16 && stride >= e.header(i).entsize,
        stride == 16 || stride == e.header(i).entsize,
        k >= 0,
        e.header(i).off + k * stride + 16 <= e.data@.len(),
        e.data@.subrange(e.header(i).off + k * stride, e.header(i).off + k * stride + 16)
            == le_bytes64(off) + le_bytes64(info),
    ensures
        e.rel(i, k) == (off, info),
{
    assert(k * stride >= 0) by (nonlinear_arith)
        requires
            k >= 0,
            stride >= 16,
    ;
    let d = e.data@;
    let at = e.header(i).off + k * stride;
    let b = d.subrange(at, at + 16);
    lemma_part(d, at, b, 0, le_bytes64(off));
    lemma_part(d, at, b, 8, le_bytes64(info));
    lemma_le64(d, at, off);
    lemma_le64(d, at + 8, info);
}

/// Pairs that were written into a relocation section one `entsize` apart are
/// read back as those pairs, in order and all of them.
pub proof fn law_reloc_section_reads_back(e: &Elf, i: int, pairs: Seq<(u64, u64)>)
    requires
        e.header(i).entsize >= 16,
        e.header(i).size == pairs.len() * e.header(i).entsize,
        e.header(i).off + e.header(i).size <= e.data@.len(),
        forall|k: int|
            0 <= k < pairs.len() ==> {
                let at = e.header(i).off + k * e.header(i).entsize;
                e.data@.subrange(at, at + 16) == le_bytes64((#[trigger] pairs[k]).0) + le_bytes64(
                    pairs[k].1,
                )
            },
    ensures
        Seq::new(e.rel_count(i) as nat, |k: int| e.rel(i, k)) == pairs,
{
    let stride = e.header(i).entsize as int;
    let n = pairs.len() as int;
    let size = e.header(i).size as int;
    law_relocs_counted(e, i, stride, n);
    assert(!(n + 1 <= n) && (n + 1) * stride > n * stride) by (nonlinear_arith)
        requires
            stride >= 16,
    ;
    assert forall|k: int| 0 <= k < n implies k < e.rel_count(i) && #[trigger] e.rel(i, k)
        == pairs[k] by {
        assert((k + 1) * stride <= n * stride && k * stride + 16 <= (k + 1) * stride && k * stride
            >= 0) by (nonlinear_arith)
            requires
                0 <= k < n,
                stride >= 16,
        ;
        law_relocs_counted(e, i, stride, k);
        law_reloc_reads_back(e, i, stride, k, pairs[k].0, pairs[k].1);
    }
    if n > 0 {
        assert(e.rel(i, n - 1) == pairs[n - 1]);
    }
    assert(e.rel_count(i) == n);
    assert(Seq::new(e.rel_count(i) as nat, |k: int| e.rel(i, k)) =~= pairs);
}

/// The name of a section can be looked up exactly if the headers on the way
/// lie in the file and its place is a number of the machine.
pub proof fn law_name_is_readable_exactly_if(e: &Elf, i: int)
    ensures
        i >= e.shnum ==> e.name_readable(i),
        i < e.shnum && e.shstrndx >= e.shnum ==> (e.name_readable(i) <==> e.header_in_file(i)),
        i < e.shnum && e.shstrndx < e.shnum ==> (e.name_readable(i) <==> e.header_in_file(i)
            && e.header_in_file(e.shstrndx as int) && e.header(e.shstrndx as int).off + e.header(
            i,
        ).name <= usize::MAX),
{
}

/// A file that holds all its section headers and all its sections can be read
/// throughout: its symbols and every relocation section.
pub proof fn law_whole_file_is_readable(e: &Elf, i: int)
    requires
        e.data@.len() <= usize::MAX,
        forall|t: int| 0 <= t < e.shnum ==> #[trigger] e.header_in_file(t),
        forall|t: int|
            0 <= t < e.shnum ==> (#[trigger] e.header(t)).off + e.header(t).size <= e.data@.len(),
    ensures
        e.symtab_readable(),
        0 <= i < e.shnum ==> walkable(
            e.header(i).off as int,
            e.rel_stride(i),
            e.rel_slots(i),
            16,
            e.data@.len() as int,
        ),
{
    assert forall|t: int| #[trigger] e.is_symtab(t) implies {
        &&& walkable(
            e.header(t).off as int,
            e.sym_stride(t),
            e.sym_slots(t),
            24,
            e.data@.len() as int,
        )
        &&& forall|k: int|
            0 <= k < e.sym_count(t) ==> e.str_readable(
                e.header(t).link as int,
                (#[trigger] e.sym(t, k)).name as int,
            )
    } by {
        lemma_walkable_in_file(
            e.header(t).off as int,
            e.header(t).size as int,
            e.sym_stride(t),
            24,
            e.data@.len() as int,
        );
        assert forall|k: int| 0 <= k < e.sym_count(t) implies e.str_readable(
            e.header(t).link as int,
            (#[trigger] e.sym(t, k)).name as int,
        ) by {
            let idx = e.header(t).link as int;
            if idx < e.shnum {
                assert(e.header_in_file(idx));
                assert(e.header(idx).off + e.header(idx).size <= e.data@.len());
            }
        }
    }
    if 0 <= i < e.shnum {
        lemma_walkable_in_file(
            e.header(i).off as int,
            e.header(i).size as int,
            e.rel_stride(i),
            16,
            e.data@.len() as int,
        );
    }
}

proof fn lemma_walkable_in_file(off: int, size: int, stride: int, need: int, len: int)
    requires
        off >= 0,
        size >= 0,
        stride >= need > 0,
        off + size <= len <= usize::MAX,
    ensures
        walkable(off, stride, size / stride, need, len),
{
    let n = size / stride;
    lemma_slots(size, stride, 0);
    if n > 0 {
        let last = n - 1;
        lemma_slots(size, stride, last);
        assert(last * stride + need <= (last + 1) * stride) by (nonlinear_arith)
            requires
                stride >= need,
        ;
        lemma_fitting(off, stride, n, need, len, last);
    }
}

/// The search for a name gives the lowest index of a section of that name: at
/// most one, and one exactly if any section has the name.
pub proof fn law_first_of_a_name(e: &Elf, name: Seq<char>, i: int, j: int)
    ensures
        e.is_first_named(name, i) ==> 0 <= i < e.shnum && e.name_text(i) == name,
        e.is_first_named(name, i) && 0 <= j < e.shnum && e.name_text(j) == name ==> i <= j,
        e.none_named_before(name, i) && 0 <= j < i ==> e.name_text(j) != name,
        e.none_named_before(name, e.shnum as int) <==> !exists|k: int|
            0 <= k < e.shnum && e.name_text(k) == name,
        0 <= j < e.shnum && e.name_text(j) == name ==> exists|k: int|
            k <= j && e.is_first_named(name, k),
    decreases j,
{
    if 0 <= j < e.shnum && e.name_text(j) == name && !e.is_first_named(name, j) {
        let k = choose|k: int| 0 <= k < j && e.name_text(k) == name;
        law_first_of_a_name(e, name, k, k);
        let m = choose|m: int| m <= k && e.is_first_named(name, m);
        assert(m <= j && e.is_first_named(name, m));
    }
}

} // verus!
