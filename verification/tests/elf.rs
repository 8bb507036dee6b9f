use dnslink::elf::Elf;

fn put(file: &mut Vec<u8>, at: usize, bytes: &[u8]) {
    file[at..at + bytes.len()].copy_from_slice(bytes);
}

struct Section {
    name: u32,
    ty: u32,
    off: u64,
    size: u64,
    link: u32,
    info: u32,
    entsize: u64,
}

const SHOFF: usize = 0x400;

fn header(file: &mut Vec<u8>, i: usize, s: &Section) {
    let at = SHOFF + 64 * i;
    put(file, at, &s.name.to_le_bytes());
    put(file, at + 4, &s.ty.to_le_bytes());
    put(file, at + 8, &0x11u64.to_le_bytes());
    put(file, at + 16, &0x22u64.to_le_bytes());
    put(file, at + 24, &s.off.to_le_bytes());
    put(file, at + 32, &s.size.to_le_bytes());
    put(file, at + 40, &s.link.to_le_bytes());
    put(file, at + 44, &s.info.to_le_bytes());
    put(file, at + 48, &8u64.to_le_bytes());
    put(file, at + 56, &s.entsize.to_le_bytes());
}

/// Sections: null, section names, symbol names, symbols, code, relocations.
fn object() -> Vec<u8> {
    let mut f = vec![0u8; SHOFF + 64 * 6];
    put(&mut f, 0, b"\x7fELF");
    put(&mut f, 18, &247u16.to_le_bytes());
    put(&mut f, 40, &(SHOFF as u64).to_le_bytes());
    put(&mut f, 58, &64u16.to_le_bytes());
    put(&mut f, 60, &6u16.to_le_bytes());
    put(&mut f, 62, &1u16.to_le_bytes());
    put(&mut f, 0x40, b"\0.shstrtab\0.strtab\0.symtab\0cgroup/connect4\0.relx\0");
    put(&mut f, 0x100, b"\0cfg_map\0hook\xff\0");
    // Symbols.
    put(&mut f, 0x200 + 24, &1u32.to_le_bytes());
    f[0x200 + 24 + 4] = 0x12;
    put(&mut f, 0x200 + 24 + 6, &4u16.to_le_bytes());
    put(&mut f, 0x200 + 24 + 8, &0x1234u64.to_le_bytes());
    put(&mut f, 0x200 + 24 + 16, &0x56u64.to_le_bytes());
    put(&mut f, 0x200 + 48, &9u32.to_le_bytes());
    put(&mut f, 0x200 + 48 + 6, &0xfff1u16.to_le_bytes());
    // Relocations.
    put(&mut f, 0x300, &0x10u64.to_le_bytes());
    put(&mut f, 0x308, &0x1_0000_0001u64.to_le_bytes());
    put(&mut f, 0x310, &0x20u64.to_le_bytes());
    put(&mut f, 0x318, &0x2_0000_0001u64.to_le_bytes());
    let sections = [
        Section { name: 0, ty: 0, off: 0, size: 0, link: 0, info: 0, entsize: 0 },
        Section { name: 1, ty: 3, off: 0x40, size: 0x40, link: 0, info: 0, entsize: 0 },
        Section { name: 11, ty: 3, off: 0x100, size: 15, link: 0, info: 0, entsize: 0 },
        Section { name: 19, ty: 2, off: 0x200, size: 72, link: 2, info: 1, entsize: 24 },
        Section { name: 27, ty: 1, off: 0x380, size: 16, link: 0, info: 0, entsize: 0 },
        Section { name: 43, ty: 9, off: 0x300, size: 40, link: 3, info: 4, entsize: 0 },
    ];
    for (i, s) in sections.iter().enumerate() {
        header(&mut f, i, s);
    }
    f
}

#[test]
fn header_is_parsed() {
    let f = object();
    let e = Elf::new(&f).unwrap();
    assert_eq!((e.shoff, e.shentsize, e.shnum, e.shstrndx), (SHOFF, 64, 6, 1));
    assert_eq!(e.data.len(), f.len());
}

#[test]
fn other_files_are_rejected() {
    let f = object();
    assert!(Elf::new(&f[..63]).is_none());
    assert!(Elf::new(&[]).is_none());
    let mut g = f.clone();
    g[3] = b'G';
    assert!(Elf::new(&g).is_none());
    let mut g = f.clone();
    g[18] = 62;
    assert!(Elf::new(&g).is_none());
    let mut g = f.clone();
    g[60] = 0;
    assert!(Elf::new(&g).is_none());
    let mut g = f.clone();
    g[58] = 63;
    assert!(Elf::new(&g).is_none());
}

#[test]
fn section_headers_are_read() {
    let f = object();
    let e = Elf::new(&f).unwrap();
    let s = e.shdr(3).unwrap();
    assert_eq!((s.name, s.ty, s._flags, s._addr), (19, 2, 0x11, 0x22));
    assert_eq!((s.off, s.size, s.link, s.info), (0x200, 72, 2, 1));
    assert_eq!((s.addralign, s.entsize), (8, 24));
    assert!(e.shdr(6).is_none());
}

#[test]
fn section_names_are_read() {
    let f = object();
    let e = Elf::new(&f).unwrap();
    let names: Vec<String> = (0..7).map(|i| e.section_name(i)).collect();
    assert_eq!(names, ["", ".shstrtab", ".strtab", ".symtab", "cgroup/connect4", ".relx", ""]);
    assert_eq!(e.section_name_raw(4), Some(&b"cgroup/connect4"[..]));
    assert!(e.section_name_raw(6).is_none());
}

#[test]
fn name_without_nul_runs_to_the_end_of_the_file() {
    let mut f = object();
    let n = f.len();
    f.extend_from_slice(b"tail");
    put(&mut f, SHOFF + 64, &((n - 0x40) as u32).to_le_bytes());
    let e = Elf::new(&f).unwrap();
    assert_eq!(e.section_name(1), "tail");
    put(&mut f, SHOFF + 64, &((n + 4 - 0x40) as u32).to_le_bytes());
    let e = Elf::new(&f).unwrap();
    assert_eq!(e.section_name(1), "");
    assert!(e.section_name_raw(1).is_none());
}

#[test]
fn sections_are_found_by_name() {
    let f = object();
    let e = Elf::new(&f).unwrap();
    assert_eq!(e.find("cgroup/connect4"), Some(4));
    assert_eq!(e.find(""), Some(0));
    assert_eq!(e.find("cgroup/connect"), None);
    assert_eq!(e.try_find(".relx"), Ok(Some(5)));
    assert_eq!(e.try_find("nothing"), Ok(None));
}

#[test]
fn search_stops_where_a_header_lies_outside() {
    let mut f = object();
    put(&mut f, 60, &9u16.to_le_bytes());
    let e = Elf::new(&f).unwrap();
    assert_eq!(e.try_find(".relx"), Ok(Some(5)));
    assert_eq!(e.find(".relx"), Some(5));
    assert_eq!(e.try_find("nothing"), Err(6));
    assert!(e.header_fits(5) && !e.header_fits(6) && !e.header_fits(usize::MAX));
    assert!(e.name_fits(5) && !e.name_fits(6) && e.name_fits(9));
    put(&mut f, 40, &u64::MAX.to_le_bytes());
    let e = Elf::new(&f).unwrap();
    assert_eq!(e.try_find(".relx"), Err(0));
}

#[test]
fn first_of_two_equal_names_is_found() {
    let mut f = object();
    put(&mut f, SHOFF + 64 * 5, &27u32.to_le_bytes());
    let e = Elf::new(&f).unwrap();
    assert_eq!(e.section_name(5), "cgroup/connect4");
    assert_eq!(e.find("cgroup/connect4"), Some(4));
}

#[test]
fn strings_end_at_nul_or_at_the_table() {
    let mut f = object();
    let e = Elf::new(&f).unwrap();
    assert_eq!(e.str_raw(2, 1), Some(&b"cfg_map"[..]));
    assert_eq!(e.str_raw(2, 9), Some(&b"hook\xff"[..]));
    assert_eq!(e.str_raw(2, 0), Some(&b""[..]));
    assert!(e.str_raw(2, 15).is_none());
    assert!(e.str_raw(6, 0).is_none());
    put(&mut f, SHOFF + 64 * 2 + 32, &4u64.to_le_bytes());
    let e = Elf::new(&f).unwrap();
    assert_eq!(e.str_raw(2, 1), Some(&b"cfg"[..]));
}

#[test]
fn symbols_are_read() {
    let f = object();
    let e = Elf::new(&f).unwrap();
    let syms = e.symtab();
    assert_eq!(syms.len(), 3);
    assert_eq!(syms[0].0, "");
    assert_eq!(syms[1].0, "cfg_map");
    let s = &syms[1].1;
    assert_eq!((s.name, s.info, s.shndx, s.value, s.size), (1, 0x12, 4, 0x1234, 0x56));
    assert_eq!(syms[2].0, "hook\u{fffd}");
    assert_eq!(syms[2].1.shndx, -15);
}

#[test]
fn object_without_symbol_table_has_no_symbols() {
    let mut f = object();
    put(&mut f, SHOFF + 64 * 3 + 4, &1u32.to_le_bytes());
    let e = Elf::new(&f).unwrap();
    assert!(e.symtab().is_empty());
}

#[test]
fn symbol_table_is_cut_at_the_end_of_the_file() {
    let mut f = object();
    let n = f.len();
    put(&mut f, SHOFF + 64 * 3 + 24, &((n - 30) as u64).to_le_bytes());
    let e = Elf::new(&f).unwrap();
    assert_eq!(e.symtab().len(), 1);
    put(&mut f, SHOFF + 64 * 3 + 24, &((n - 23) as u64).to_le_bytes());
    let e = Elf::new(&f).unwrap();
    assert!(e.symtab().is_empty());
}

#[test]
fn wide_entries_keep_their_distance() {
    let mut f = object();
    put(&mut f, SHOFF + 64 * 3 + 56, &48u64.to_le_bytes());
    let e = Elf::new(&f).unwrap();
    let syms = e.symtab();
    assert_eq!(syms.len(), 1);
    assert_eq!(syms[0].0, "");
}

#[test]
fn relocations_are_read() {
    let f = object();
    let e = Elf::new(&f).unwrap();
    assert_eq!(e.relocs(5), vec![(0x10, 0x1_0000_0001), (0x20, 0x2_0000_0001)]);
    assert!(e.relocs(6).is_empty());
    assert!(e.relocs(0).is_empty());
}

#[test]
fn relocations_are_cut_at_the_end_of_the_file() {
    let mut f = object();
    let n = f.len();
    put(&mut f, SHOFF + 64 * 5 + 24, &((n - 20) as u64).to_le_bytes());
    let e = Elf::new(&f).unwrap();
    assert_eq!(e.relocs(5).len(), 1);
}
