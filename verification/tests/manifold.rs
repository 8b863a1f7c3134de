use fold::arena::Handle;
use fold::elf::{ElfHeader, ElfItem, ProgramHeader, SectionHeader};
use fold::error::FoldError;
use fold::file::Mapping;
use fold::filters::{ObjectFilter, ObjectMask};
use fold::object::{DynamicSymbolSection, Object, SectionT};
use std::sync::Arc;

// ———————————————————————————— Building ELF files ————————————————————————————— //
#[allow(dead_code)]
struct Seg {
    p_type: u32,
    flags: u32,
    offset: u64,
    vaddr: u64,
    filesz: u64,
    memsz: u64,
    align: u64,
}

#[allow(dead_code)]
struct Sec {
    sh_type: u32,
    link: u32,
    entsize: u64,
    addr: u64,
    data: Vec<u8>,
}

#[allow(dead_code)]
fn sec(sh_type: u32, link: u32, entsize: u64, data: Vec<u8>) -> Sec {
    Sec { sh_type, link, entsize, addr: 0, data }
}

#[allow(dead_code)]
fn null_section() -> Sec {
    sec(0, 0, 0, Vec::new())
}

#[allow(dead_code)]
fn header(entry: u64, phnum: u16, shoff: u64, shnum: u16, shstrndx: u16) -> Vec<u8> {
    let mut h = vec![0x7f, b'E', b'L', b'F', 2, 1, 1, 3, 0, 0, 0, 0, 0, 0, 0, 0];
    h.extend_from_slice(&3u16.to_le_bytes());
    h.extend_from_slice(&62u16.to_le_bytes());
    h.extend_from_slice(&1u32.to_le_bytes());
    h.extend_from_slice(&entry.to_le_bytes());
    h.extend_from_slice(&64u64.to_le_bytes());
    h.extend_from_slice(&shoff.to_le_bytes());
    h.extend_from_slice(&0u32.to_le_bytes());
    h.extend_from_slice(&64u16.to_le_bytes());
    h.extend_from_slice(&56u16.to_le_bytes());
    h.extend_from_slice(&phnum.to_le_bytes());
    h.extend_from_slice(&64u16.to_le_bytes());
    h.extend_from_slice(&shnum.to_le_bytes());
    h.extend_from_slice(&shstrndx.to_le_bytes());
    assert_eq!(h.len(), 64);
    h
}

/// The file: header, program headers, the content of the sections in order, section headers.
#[allow(dead_code)]
fn image(entry: u64, segs: &[Seg], secs: &[Sec]) -> Vec<u8> {
    let data_start = 64 + 56 * segs.len() as u64;
    let data_len: u64 = secs.iter().map(|s| s.data.len() as u64).sum();
    let shoff = data_start + data_len;
    let mut out = header(entry, segs.len() as u16, shoff, secs.len() as u16, 0);
    for s in segs {
        out.extend_from_slice(&s.p_type.to_le_bytes());
        out.extend_from_slice(&s.flags.to_le_bytes());
        out.extend_from_slice(&s.offset.to_le_bytes());
        out.extend_from_slice(&s.vaddr.to_le_bytes());
        out.extend_from_slice(&s.vaddr.to_le_bytes());
        out.extend_from_slice(&s.filesz.to_le_bytes());
        out.extend_from_slice(&s.memsz.to_le_bytes());
        out.extend_from_slice(&s.align.to_le_bytes());
    }
    for s in secs {
        out.extend_from_slice(&s.data);
    }
    let mut offset = data_start;
    for s in secs {
        out.extend_from_slice(&0u32.to_le_bytes());
        out.extend_from_slice(&s.sh_type.to_le_bytes());
        out.extend_from_slice(&0u64.to_le_bytes());
        out.extend_from_slice(&s.addr.to_le_bytes());
        out.extend_from_slice(&offset.to_le_bytes());
        out.extend_from_slice(&(s.data.len() as u64).to_le_bytes());
        out.extend_from_slice(&s.link.to_le_bytes());
        out.extend_from_slice(&0u32.to_le_bytes());
        out.extend_from_slice(&1u64.to_le_bytes());
        out.extend_from_slice(&s.entsize.to_le_bytes());
        offset += s.data.len() as u64;
    }
    out
}

#[allow(dead_code)]
fn sym(name: u32, info: u8, shndx: u16, value: u64, size: u64) -> Vec<u8> {
    let mut out = Vec::new();
    out.extend_from_slice(&name.to_le_bytes());
    out.push(info);
    out.push(0);
    out.extend_from_slice(&shndx.to_le_bytes());
    out.extend_from_slice(&value.to_le_bytes());
    out.extend_from_slice(&size.to_le_bytes());
    out
}

#[allow(dead_code)]
fn rela(offset: u64, symbol: u32, typ: u32, addend: i64) -> Vec<u8> {
    let mut out = Vec::new();
    out.extend_from_slice(&offset.to_le_bytes());
    out.extend_from_slice(&(((symbol as u64) << 32) | typ as u64).to_le_bytes());
    out.extend_from_slice(&addend.to_le_bytes());
    out
}

#[allow(dead_code)]
fn dynent(tag: u64, val: u64) -> Vec<u8> {
    let mut out = Vec::new();
    out.extend_from_slice(&tag.to_le_bytes());
    out.extend_from_slice(&val.to_le_bytes());
    out
}

/// A string table of `names` behind a leading NUL, and where each name starts.
#[allow(dead_code)]
fn strings(names: &[&str]) -> (Vec<u8>, Vec<u32>) {
    let mut table = vec![0u8];
    let mut at = Vec::new();
    for n in names {
        at.push(table.len() as u32);
        table.extend_from_slice(n.as_bytes());
        table.push(0);
    }
    (table, at)
}

#[allow(dead_code)]
fn concat(parts: &[Vec<u8>]) -> Vec<u8> {
    parts.iter().flat_map(|p| p.iter().copied()).collect()
}

#[allow(dead_code)]
const LOCAL: u8 = 0 << 4;
#[allow(dead_code)]
const GLOBAL: u8 = 1 << 4;
#[allow(dead_code)]
const WEAK: u8 = 2 << 4;

/// An object whose dynamic symbol table (section 1, names in section 2) holds `dynsyms` and
/// whose symbol table (section 4, names in section 5) holds `syms`; section 3 holds code at
/// address 0x1000. Symbols are given as name, info, section index and value.
#[allow(dead_code)]
fn object_with_symbols(dynsyms: &[(&str, u8, u16, u64)], syms: &[(&str, u8, u16, u64)]) -> Vec<u8> {
    let table = |list: &[(&str, u8, u16, u64)]| -> (Vec<u8>, Vec<u8>) {
        let names: Vec<&str> = list.iter().map(|s| s.0).collect();
        let (strtab, at) = strings(&names);
        let mut entries = sym(0, 0, 0, 0, 0);
        for (i, s) in list.iter().enumerate() {
            entries.extend(sym(at[i], s.1, s.2, s.3, 8));
        }
        (entries, strtab)
    };
    let (dynsym, dynstr) = table(dynsyms);
    let (symtab, strtab) = table(syms);
    let mut text = sec(1, 0, 0, vec![0x90; 16]);
    text.addr = 0x1000;
    image(
        0x1000,
        &[],
        &[
            null_section(),
            sec(11, 2, 24, dynsym),
            sec(3, 0, 0, dynstr),
            text,
            sec(2, 5, 24, symtab),
            sec(3, 0, 0, strtab),
        ],
    )
}

#[allow(dead_code)]
fn empty_env() -> fold::env::Env {
    fold::env::Env { args: Vec::new(), envp: Vec::new(), auxv: Vec::new(), raw_argv: 0, raw_envp: 0 }
}

#[allow(dead_code)]
fn empty_manifold() -> fold::manifold::Manifold {
    fold::manifold::Manifold::new(empty_env(), fold::share_map::ShareMap::new())
}

#[allow(dead_code)]
fn add(manifold: &mut fold::manifold::Manifold, name: &str, file: Vec<u8>) -> fold::arena::Handle<fold::object::Object> {
    manifold.add_elf_file(fold::file::Mapping::new(file), name.as_bytes().to_vec()).unwrap()
}

// ————————————————————————————————— Objects ————————————————————————————————— //
#[test]
fn a_file_without_the_magic_number_is_refused() {
    let mut file = image(0, &[], &[]);
    file[1] = b'X';
    let mut manifold = empty_manifold();
    let r = manifold.add_elf_file(Mapping::new(file.clone()), b"bad".to_vec());
    assert_eq!(r, Err(FoldError::InvalidMagic));
    assert_eq!(manifold.objects.len(), 0);
    assert!(matches!(Object::new(Arc::new(Mapping::new(file)), Vec::new()), Err(FoldError::InvalidMagic)));
}

#[test]
fn a_file_of_another_version_is_refused() {
    let mut file = image(0, &[], &[]);
    file[6] = 2;
    let mut manifold = empty_manifold();
    assert_eq!(
        manifold.add_elf_file(Mapping::new(file), b"bad".to_vec()),
        Err(FoldError::InvalidVersion)
    );
    assert_eq!(manifold.objects.len(), 0);
}

#[test]
fn the_magic_number_is_checked_before_the_version() {
    let mut file = image(0, &[], &[]);
    file[0] = 0;
    file[6] = 9;
    let mut manifold = empty_manifold();
    assert_eq!(
        manifold.add_elf_file(Mapping::new(file), b"bad".to_vec()),
        Err(FoldError::InvalidMagic)
    );
}

#[test]
fn a_file_too_short_for_a_header_is_refused() {
    let file = image(0, &[], &[]);
    let mut manifold = empty_manifold();
    assert_eq!(
        manifold.add_elf_file(Mapping::new(file[..63].to_vec()), b"short".to_vec()),
        Err(FoldError::OutOfBounds)
    );
    assert_eq!(
        manifold.add_elf_file(Mapping::new(Vec::new()), b"empty".to_vec()),
        Err(FoldError::OutOfBounds)
    );
}

#[test]
fn the_header_alone_is_an_object() {
    let file = image(0x401000, &[], &[]);
    let mut manifold = empty_manifold();
    let h = manifold.add_elf_file(Mapping::new(file.clone()), b"prog".to_vec()).unwrap();
    assert_eq!(h.idx(), 0);
    let obj = manifold.object(h);
    assert_eq!(obj.path, b"prog".to_vec());
    assert_eq!(obj.raw(), &file[..]);
    assert_eq!(obj.os_abi, 3);
    assert_eq!(obj.elf_type, 3);
    assert_eq!(obj.e_machine, 62);
    assert_eq!(obj.e_phoff, 64);
    assert_eq!(obj.e_phnum, 0);
    assert_eq!(obj.e_shnum, 0);
    assert_eq!(obj.e_phentsize, 56);
    assert_eq!(obj.e_shentsize, 64);
    assert_eq!(obj.header().e_entry, 0x401000);
    assert!(obj.segments.is_empty());
    assert!(obj.sections.is_empty());
    assert!(obj.dependencies.is_empty());
    assert_eq!(obj.raw_slice(1, 3), b"ELF");
}

#[test]
fn segments_and_sections_follow_the_tables() {
    let segs = [
        Seg { p_type: 1, flags: 5, offset: 0, vaddr: 0x1000, filesz: 64, memsz: 128, align: 0x1000 },
        Seg { p_type: 7, flags: 4, offset: 8, vaddr: 0x3000, filesz: 4, memsz: 16, align: 8 },
    ];
    let secs = [null_section(), sec(3, 0, 0, b"\0abc\0".to_vec()), sec(1, 1, 0, vec![1, 2, 3])];
    let file = image(0, &segs, &secs);
    let mut manifold = empty_manifold();
    let h = add(&mut manifold, "a", file.clone());
    let obj = manifold.object(h);
    assert_eq!(obj.segments.len(), 2);
    assert_eq!(obj.sections.len(), 3);
    assert_eq!(manifold.segments.len(), 2);
    assert_eq!(manifold.sections.len(), 3);

    let load = manifold.segment(obj.segments[0]);
    assert_eq!(load.tag, 1);
    assert_eq!(load.flags, 5);
    assert_eq!(load.offset, 0);
    assert_eq!(load.vaddr, 0x1000);
    assert_eq!(load.paddr, 0x1000);
    assert_eq!(load.file_size, 64);
    assert_eq!(load.mem_size, 128);
    assert_eq!(load.align, 0x1000);
    assert_eq!(load.mapping.bytes(), &file[0..64]);
    assert!(load.loaded_mapping.is_none());
    assert_eq!(load.obj.idx(), h.idx());

    let tls = manifold.segment(obj.segments[1]);
    assert_eq!(tls.tag, 7);
    assert_eq!(tls.mapping.bytes(), &file[8..12]);

    let names = manifold.section(obj.sections[1]);
    assert_eq!(names.tag, 3);
    assert_eq!(names.offset, 64 + 2 * 56);
    assert_eq!(names.size, 5);
    assert_eq!(names.obj.idx(), h.idx());
    assert_eq!(names.mapping.bytes(), &file[..]);
    let data = manifold.section(obj.sections[2]);
    assert_eq!(data.tag, 1);
    assert_eq!(data.link, 1);
    assert_eq!(data.offset, names.offset + 5);
    assert_eq!(data.size, 3);
    assert_eq!(data.alig, 1);
}

#[test]
fn every_item_belongs_to_an_object_of_the_manifold() {
    let secs = [null_section(), sec(3, 0, 0, b"\0".to_vec())];
    let segs = [Seg { p_type: 1, flags: 4, offset: 0, vaddr: 0, filesz: 8, memsz: 8, align: 1 }];
    let mut manifold = empty_manifold();
    let a = add(&mut manifold, "a", image(0, &segs, &secs));
    let b = add(&mut manifold, "b", image(0, &segs, &secs));
    let c = add(&mut manifold, "c", image(0, &[], &secs));
    assert_eq!((a.idx(), b.idx(), c.idx()), (0, 1, 2));
    assert_eq!(manifold.segments.len(), 2);
    assert_eq!(manifold.sections.len(), 6);
    let mut it = manifold.sections.enumerate();
    while let Some((_, s)) = it.next() {
        assert!(manifold.objects.get(s.obj).is_some());
    }
    let mut it = manifold.segments.enumerate();
    while let Some((_, s)) = it.next() {
        assert!(manifold.objects.get(s.obj).is_some());
    }
    let mut it = manifold.objects.enumerate();
    while let Some((h, obj)) = it.next() {
        for s in &obj.sections {
            assert_eq!(manifold.section(*s).obj.idx(), h.idx());
        }
        for s in &obj.segments {
            assert_eq!(manifold.segment(*s).obj.idx(), h.idx());
        }
    }
    // The sections of the second object come after those of the first.
    assert_eq!(manifold.object(b).sections[0].idx(), 2);
    assert_eq!(manifold.object(c).sections[1].idx(), 5);
    assert_eq!(manifold.object(b).segments[0].idx(), 1);
}

#[test]
fn a_refused_file_leaves_the_manifold_as_it_was() {
    let mut manifold = empty_manifold();
    add(&mut manifold, "a", image(0, &[], &[null_section()]));
    // A segment that reaches beyond the end of the file.
    let segs = [Seg { p_type: 1, flags: 4, offset: 0, vaddr: 0, filesz: 1 << 20, memsz: 1 << 20, align: 1 }];
    let r = manifold.add_elf_file(Mapping::new(image(0, &segs, &[])), b"b".to_vec());
    assert_eq!(r, Err(FoldError::OutOfBounds));
    assert_eq!(manifold.objects.len(), 1);
    assert_eq!(manifold.sections.len(), 1);
    assert_eq!(manifold.segments.len(), 0);
}

#[test]
fn a_table_that_the_file_does_not_hold_is_refused() {
    let mut file = image(0, &[], &[null_section(), null_section()]);
    file.truncate(file.len() - 1);
    let mut manifold = empty_manifold();
    assert_eq!(
        manifold.add_elf_file(Mapping::new(file), b"cut".to_vec()),
        Err(FoldError::OutOfBounds)
    );
    let mut file = image(0, &[], &[]);
    // Two program headers announced, none there.
    file[56] = 2;
    assert_eq!(
        manifold.add_elf_file(Mapping::new(file), b"cut".to_vec()),
        Err(FoldError::OutOfBounds)
    );
}

#[test]
fn entries_of_another_size_are_refused() {
    let segs = [Seg { p_type: 1, flags: 4, offset: 0, vaddr: 0, filesz: 8, memsz: 8, align: 1 }];
    let mut file = image(0, &segs, &[]);
    file[54] = 57;
    let mut manifold = empty_manifold();
    assert_eq!(
        manifold.add_elf_file(Mapping::new(file), b"x".to_vec()),
        Err(FoldError::InvalidEntrySize { wanted: 56, found: 57 })
    );
    let mut file = image(0, &[], &[null_section()]);
    file[58] = 40;
    assert_eq!(
        manifold.add_elf_file(Mapping::new(file), b"x".to_vec()),
        Err(FoldError::InvalidEntrySize { wanted: 64, found: 40 })
    );
}

#[test]
fn header_tables_are_walked() {
    let segs = [
        Seg { p_type: 6, flags: 4, offset: 0, vaddr: 0, filesz: 8, memsz: 8, align: 1 },
        Seg { p_type: 1, flags: 5, offset: 0, vaddr: 0x2000, filesz: 8, memsz: 8, align: 1 },
        Seg { p_type: 1, flags: 6, offset: 0, vaddr: 0x3000, filesz: 8, memsz: 8, align: 1 },
    ];
    let secs = [null_section(), sec(3, 0, 0, b"\0".to_vec()), sec(11, 1, 24, Vec::new())];
    let mut manifold = empty_manifold();
    let h = add(&mut manifold, "a", image(0, &segs, &secs));
    let obj = manifold.object(h);
    let all: Vec<ProgramHeader> = obj.program_headers().collect();
    assert_eq!(all.len(), 3);
    assert_eq!(all[1].p_vaddr, 0x2000);
    assert_eq!(all[2].p_flags, 6);
    let mut it = obj.program_headers();
    assert_eq!(it.find_segment(1).map(|p| p.p_vaddr), Some(0x2000));
    assert_eq!(it.find_segment(1).map(|p| p.p_vaddr), Some(0x3000));
    assert_eq!(it.find_segment(1), None);
    assert_eq!(obj.program_headers().find_tag(6).map(|p| p.p_type), Some(6));
    assert_eq!(obj.program_headers().find_tag(7), None);
    let mut it = obj.section_headers();
    assert_eq!(it.find_section(11).map(|s| s.sh_link), Some(1));
    assert_eq!(it.next(), None);
    let sections: Vec<SectionHeader> = obj.section_headers().collect();
    assert_eq!(sections.len(), 3);
    assert_eq!(sections[1].sh_type, 3);
    // A copy of an iterator walks on its own.
    let mut first = obj.section_headers();
    first.next();
    let mut copy = first.clone();
    assert_eq!(copy.next().map(|s| s.sh_type), Some(3));
    assert_eq!(first.next().map(|s| s.sh_type), Some(3));
    assert_eq!(ElfHeader::size(), 64);
}

// ————————————————————————————————— Symbols ————————————————————————————————— //
#[test]
fn a_global_definition_beats_an_earlier_weak_one() {
    let mut manifold = empty_manifold();
    let o1 = add(&mut manifold, "o1", object_with_symbols(&[("foo", WEAK, 3, 0x11)], &[]));
    let o2 = add(&mut manifold, "o2", object_with_symbols(&[("foo", GLOBAL, 3, 0x22)], &[]));
    let (section, sym) = manifold.find_symbol(b"foo", o1).unwrap();
    assert_eq!(sym.st_value, 0x22);
    assert_eq!(section.obj.idx(), o2.idx());
    let (section, sym) = manifold.find_symbol(b"foo", o2).unwrap();
    assert_eq!(sym.st_value, 0x22);
    assert_eq!(section.obj.idx(), o2.idx());
}

#[test]
fn the_first_global_definition_wins() {
    let mut manifold = empty_manifold();
    let o1 = add(&mut manifold, "o1", object_with_symbols(&[("foo", GLOBAL, 3, 0x11)], &[]));
    add(&mut manifold, "o2", object_with_symbols(&[("foo", GLOBAL, 3, 0x22)], &[]));
    let (section, sym) = manifold.find_symbol(b"foo", o1).unwrap();
    assert_eq!(sym.st_value, 0x11);
    assert_eq!(section.obj.idx(), o1.idx());
}

#[test]
fn the_first_weak_definition_is_kept_where_no_global_one_is() {
    let mut manifold = empty_manifold();
    let o1 = add(&mut manifold, "o1", object_with_symbols(&[("bar", GLOBAL, 3, 1)], &[]));
    let o2 = add(&mut manifold, "o2", object_with_symbols(&[("foo", WEAK, 3, 0x22)], &[]));
    add(&mut manifold, "o3", object_with_symbols(&[("foo", WEAK, 3, 0x33)], &[]));
    let (section, sym) = manifold.find_symbol(b"foo", o1).unwrap();
    assert_eq!(sym.st_value, 0x22);
    assert_eq!(section.obj.idx(), o2.idx());
}

#[test]
fn a_local_symbol_of_the_looking_object_comes_first() {
    let mut manifold = empty_manifold();
    let o1 = add(
        &mut manifold,
        "o1",
        object_with_symbols(&[("foo", GLOBAL, 3, 0x11)], &[("foo", LOCAL, 3, 0x99)]),
    );
    let o2 = add(&mut manifold, "o2", object_with_symbols(&[("foo", GLOBAL, 3, 0x22)], &[]));
    let (_, sym) = manifold.find_symbol(b"foo", o1).unwrap();
    assert_eq!(sym.st_value, 0x99);
    // The other object does not see it.
    let (section, sym) = manifold.find_symbol(b"foo", o2).unwrap();
    assert_eq!(sym.st_value, 0x11);
    assert_eq!(section.obj.idx(), o1.idx());
}

#[test]
fn undefined_symbols_are_never_found() {
    let mut manifold = empty_manifold();
    let o1 = add(&mut manifold, "o1", object_with_symbols(&[("foo", GLOBAL, 0, 0)], &[("foo", LOCAL, 0, 0)]));
    assert!(matches!(
        manifold.find_symbol(b"foo", o1),
        Err(FoldError::SymbolNotFound(name)) if name == b"foo".to_vec()
    ));
    let o2 = add(&mut manifold, "o2", object_with_symbols(&[("foo", WEAK, 3, 0x5)], &[]));
    let (section, sym) = manifold.find_symbol(b"foo", o1).unwrap();
    assert_eq!(sym.st_value, 5);
    assert_eq!(sym.st_shndx, 3);
    assert_eq!(section.obj.idx(), o2.idx());
}

#[test]
fn a_name_that_nobody_defines_is_not_found() {
    let mut manifold = empty_manifold();
    let o1 = add(&mut manifold, "o1", object_with_symbols(&[("foo", GLOBAL, 3, 1)], &[]));
    assert!(matches!(
        manifold.find_symbol(b"fo", o1),
        Err(FoldError::SymbolNotFound(name)) if name == b"fo".to_vec()
    ));
    assert!(matches!(manifold.find_symbol(b"foobar", o1), Err(FoldError::SymbolNotFound(_))));
    let empty = add(&mut manifold, "empty", image(0, &[], &[]));
    assert!(manifold.find_symbol(b"foo", empty).is_ok());
}

#[test]
fn the_section_found_is_the_one_that_holds_the_symbol() {
    let mut manifold = empty_manifold();
    let o1 = add(&mut manifold, "o1", object_with_symbols(&[("foo", GLOBAL, 3, 0x1004)], &[]));
    let (section, _) = manifold.find_symbol(b"foo", o1).unwrap();
    assert_eq!(section.tag, 1);
    assert_eq!(section.addr, 0x1000);
    assert_eq!(section.size, 16);
}

#[test]
fn within_an_object_a_defined_strong_entry_beats_an_earlier_weak_one() {
    let mut manifold = empty_manifold();
    let o = add(
        &mut manifold,
        "o",
        object_with_symbols(&[("foo", WEAK, 3, 1), ("foo", GLOBAL, 0, 2), ("foo", GLOBAL, 3, 3)], &[]),
    );
    let obj = manifold.object(o);
    let (_, sym) = obj.find_dynamic_symbol(b"foo", &manifold).unwrap();
    assert_eq!(sym.st_value, 3);
    assert!(matches!(obj.find_symbol(b"foo", &manifold), Err(FoldError::SymbolNotFound(_))));
}

#[test]
fn a_symbol_outside_every_section_is_an_error() {
    let mut manifold = empty_manifold();
    let o = add(&mut manifold, "o", object_with_symbols(&[("abs", GLOBAL, 0xfff1, 7)], &[]));
    let obj = manifold.object(o);
    assert!(matches!(obj.find_dynamic_symbol(b"abs", &manifold), Err(FoldError::OutOfBounds)));
    assert!(matches!(obj.find_bound(b"abs", &manifold, 11, GLOBAL >> 4), Err(FoldError::OutOfBounds)));
    assert!(matches!(manifold.find_symbol(b"abs", o), Err(FoldError::OutOfBounds)));
}

#[test]
fn a_weak_definition_behind_an_undefined_entry_of_its_name_is_found() {
    let mut manifold = empty_manifold();
    let o = add(
        &mut manifold,
        "o",
        object_with_symbols(&[("foo", GLOBAL, 0, 0), ("foo", WEAK, 3, 0x44)], &[]),
    );
    let (section, sym) = manifold.find_symbol(b"foo", o).unwrap();
    assert_eq!(sym.st_value, 0x44);
    assert_eq!(sym.st_shndx, 3);
    assert_eq!(section.obj.idx(), o.idx());
    let (_, sym) = manifold.object(o).find_dynamic_symbol(b"foo", &manifold).unwrap();
    assert_eq!(sym.st_value, 0x44);
}

#[test]
fn a_local_definition_behind_a_global_entry_of_its_name_comes_first() {
    let mut manifold = empty_manifold();
    let o1 = add(
        &mut manifold,
        "o1",
        object_with_symbols(
            &[("foo", GLOBAL, 3, 0x11)],
            &[("foo", GLOBAL, 3, 0x77), ("foo", LOCAL, 0, 0x88), ("foo", LOCAL, 3, 0x99)],
        ),
    );
    let o2 = add(&mut manifold, "o2", object_with_symbols(&[("foo", GLOBAL, 3, 0x22)], &[]));
    let (section, sym) = manifold.find_symbol(b"foo", o1).unwrap();
    assert_eq!(sym.st_value, 0x99);
    assert_eq!(section.obj.idx(), o1.idx());
    let (section, sym) = manifold.find_symbol(b"foo", o2).unwrap();
    assert_eq!(sym.st_value, 0x11);
    assert_eq!(section.obj.idx(), o1.idx());
}

#[test]
fn a_global_definition_behind_a_local_entry_of_its_name_is_found() {
    let mut manifold = empty_manifold();
    let o1 = add(&mut manifold, "o1", object_with_symbols(&[("bar", GLOBAL, 3, 1)], &[]));
    let o2 = add(
        &mut manifold,
        "o2",
        object_with_symbols(&[("foo", LOCAL, 3, 0x11), ("foo", WEAK, 3, 0x22), ("foo", GLOBAL, 3, 0x33)], &[]),
    );
    let (section, sym) = manifold.find_symbol(b"foo", o1).unwrap();
    assert_eq!(sym.st_value, 0x33);
    assert_eq!(section.obj.idx(), o2.idx());
    assert_eq!(manifold.scan(b"foo", WEAK >> 4).unwrap().map(|f| f.1.st_value), Some(0x22));
    assert_eq!(manifold.scan(b"foo", GLOBAL >> 4).unwrap().map(|f| f.1.st_value), Some(0x33));
    assert_eq!(manifold.scan(b"bar", WEAK >> 4).unwrap().map(|f| f.1.st_value), None);
    let obj = manifold.object(o2);
    assert_eq!(obj.find_bound(b"foo", &manifold, 11, LOCAL >> 4).unwrap().map(|f| f.1.st_value), Some(0x11));
    assert_eq!(obj.find_bound(b"foo", &manifold, 2, LOCAL >> 4).unwrap().map(|f| f.1.st_value), None);
}

// ————————————————————————————————— Sections ———————————————————————————————— //
#[test]
fn sections_are_taken_for_what_their_tag_says() {
    let mut manifold = empty_manifold();
    let o = add(&mut manifold, "o", object_with_symbols(&[("foo", GLOBAL, 3, 1)], &[("bar", LOCAL, 3, 2)]));
    let obj = manifold.object(o);
    let dynsym = manifold.section(obj.sections[1]);
    let dynstr = manifold.section(obj.sections[2]);
    let symtab = manifold.section(obj.sections[4]);
    assert!(dynsym.as_dynamic_symbol_table().is_ok());
    assert!(matches!(
        dynsym.as_string_table(),
        Err(FoldError::InvalidSectionCast { expected: 3, actual: 11 })
    ));
    assert!(matches!(
        dynsym.as_symbol_table(),
        Err(FoldError::InvalidSectionCast { expected: 2, actual: 11 })
    ));
    assert!(matches!(
        dynstr.as_dynamic_symbol_table(),
        Err(FoldError::InvalidSectionCast { expected: 11, actual: 3 })
    ));
    assert!(symtab.as_symbol_table().is_ok());
    let strings = dynstr.as_string_table().unwrap();
    assert_eq!(strings.get_symbol(1), Ok(&b"foo"[..]));
    assert_eq!(strings.get_symbol(2), Ok(&b"oo"[..]));
    assert_eq!(strings.get_symbol(0), Ok(&b""[..]));
    assert_eq!(strings.section().tag, 3);
}

#[test]
fn symbol_tables_give_entries_and_names() {
    let mut manifold = empty_manifold();
    let o = add(
        &mut manifold,
        "o",
        object_with_symbols(&[("foo", GLOBAL, 3, 0x10), ("quux", WEAK, 3, 0x20)], &[]),
    );
    let obj = manifold.object(o);
    let table = manifold.section(obj.sections[1]).as_dynamic_symbol_table().unwrap();
    assert_eq!(table.get_entry(0).unwrap().st_value, 0);
    assert_eq!(table.get_entry(1).unwrap().st_value, 0x10);
    assert_eq!(table.get_entry(2).unwrap().st_info, WEAK);
    assert_eq!(table.get_entry(3), Err(FoldError::OutOfBounds));
    assert_eq!(table.get_symbol_name(1, &manifold), Ok(&b"foo"[..]));
    assert_eq!(table.get_symbol_name(2, &manifold), Ok(&b"quux"[..]));
    assert_eq!(table.get_symbol_name(0, &manifold), Ok(&b""[..]));
    assert_eq!(table.get_symbol_name(9, &manifold), Err(FoldError::OutOfBounds));
    let (name, entry) = table.get_symbol_and_entry(2, &manifold).unwrap();
    assert_eq!(name, b"quux");
    assert_eq!(entry.st_value, 0x20);
    assert_eq!(table.entry_iter().collect().len(), 3);
    let linked = table.section().get_linked_section(&manifold).unwrap();
    assert_eq!(linked.tag, 3);
}

#[test]
fn a_link_to_no_section_is_an_error() {
    let secs = [null_section(), sec(11, 7, 24, sym(1, GLOBAL, 1, 0, 0)), sec(11, 0, 24, sym(0, 0, 0, 0, 0))];
    let mut manifold = empty_manifold();
    let o = add(&mut manifold, "o", image(0, &[], &secs));
    let obj = manifold.object(o);
    let far = manifold.section(obj.sections[1]);
    assert!(matches!(far.get_linked_section(&manifold), Err(FoldError::OutOfBounds)));
    let table = far.as_dynamic_symbol_table().unwrap();
    assert_eq!(table.get_symbol_name(0, &manifold), Err(FoldError::OutOfBounds));
    // Linked to a section that is no string table.
    let wrong = manifold.section(obj.sections[2]).as_dynamic_symbol_table().unwrap();
    assert_eq!(
        wrong.get_symbol_name(0, &manifold),
        Err(FoldError::InvalidSectionCast { expected: 3, actual: 0 })
    );
}

#[test]
fn a_string_without_an_end_is_an_error() {
    let secs = [null_section(), sec(3, 0, 0, b"\0abc".to_vec())];
    let mut file = image(0, &[], &secs);
    // Cut the section headers off and announce none, so that the string table ends the file.
    let mut manifold = empty_manifold();
    let o = add(&mut manifold, "o", file.clone());
    let obj = manifold.object(o);
    let strings = manifold.section(obj.sections[1]).as_string_table().unwrap();
    // The bytes of the section headers follow, so a NUL is found further on.
    assert!(strings.get_symbol(1).is_ok());
    assert_eq!(strings.get_symbol(usize::MAX), Err(FoldError::OutOfBounds));
    assert_eq!(strings.get_symbol(file.len()), Err(FoldError::OutOfBounds));
    file.clear();
    assert_eq!(fold::elf::cstr_at(b"abc", 0), Err(FoldError::InvalidString));
    assert_eq!(fold::elf::cstr_at(b"abc", 3), Err(FoldError::InvalidString));
    assert_eq!(fold::elf::cstr_at(b"abc", 4), Err(FoldError::OutOfBounds));
    assert_eq!(fold::elf::cstr_at(b"ab\0c\0", 0), Ok(&b"ab"[..]));
    assert_eq!(fold::elf::cstr_at(b"ab\0c\0", 3), Ok(&b"c"[..]));
    assert_eq!(fold::elf::cstr_at(b"ab\0c\0", 2), Ok(&b""[..]));
}

#[test]
fn section_names_come_from_the_name_table() {
    // Section 1 is the string table that the header names as the table of section names.
    let secs = [null_section(), sec(3, 0, 0, b"\0.text\0".to_vec())];
    let mut file = image(0, &[], &secs);
    file[62] = 1;
    // Name of section 1: offset 1 in the table.
    let shoff = u64::from_le_bytes(file[40..48].try_into().unwrap()) as usize;
    file[shoff + 64] = 1;
    let mut manifold = empty_manifold();
    let o = add(&mut manifold, "o", file);
    let obj = manifold.object(o);
    assert_eq!(obj.e_shstrndx, 1);
    assert_eq!(manifold.section(obj.sections[1]).get_display_name(&manifold), Ok(&b".text"[..]));
    assert_eq!(manifold.section(obj.sections[0]).get_display_name(&manifold), Ok(&b""[..]));
    let h: Handle<Object> = Handle::new(0);
    assert_eq!(h.idx(), o.idx());
}

#[test]
fn views_of_a_section_know_their_section() {
    let mut manifold = empty_manifold();
    let o = add(&mut manifold, "o", object_with_symbols(&[("foo", GLOBAL, 3, 1)], &[]));
    let obj = manifold.object(o);
    let section = manifold.section(obj.sections[1]);
    assert_eq!(SectionT::section(section).tag, 11);
    let table: DynamicSymbolSection = section.as_dynamic_symbol_table().unwrap();
    assert_eq!(table.get_linked_section(&manifold).unwrap().tag, 3);
    assert_eq!(section.linked(&manifold).unwrap().tag, 3);
    assert_eq!(section.get_linked_section(&manifold).unwrap().offset, section.linked(&manifold).unwrap().offset);
    // The object names its section 0, which is no string table, as the table of names.
    assert_eq!(
        table.get_display_name(&manifold),
        Err(FoldError::InvalidSectionCast { expected: 3, actual: 0 })
    );
    assert_eq!(section.display_name(&manifold), section.get_display_name(&manifold));
}

#[test]
fn the_symbols_of_a_table_come_with_their_names() {
    let mut manifold = empty_manifold();
    let o = add(
        &mut manifold,
        "o",
        object_with_symbols(&[("foo", GLOBAL, 3, 0x10), ("quux", WEAK, 0, 0x20)], &[]),
    );
    let obj = manifold.object(o);
    let table = manifold.section(obj.sections[1]).as_dynamic_symbol_table().unwrap();
    let all = table.symbol_iter(&manifold);
    assert_eq!(all.len(), 3);
    assert_eq!(all[0].as_ref().map(|(s, n)| (s.st_value, *n)), Ok((0, &b""[..])));
    assert_eq!(all[1].as_ref().map(|(s, n)| (s.st_value, *n)), Ok((0x10, &b"foo"[..])));
    assert_eq!(all[2].as_ref().map(|(s, n)| (s.st_info, *n)), Ok((WEAK, &b"quux"[..])));
    // A table that is linked to no string table: every name is an error.
    let secs = [null_section(), sec(11, 0, 24, sym(0, 0, 0, 0, 0))];
    let bad = add(&mut manifold, "bad", image(0, &[], &secs));
    let table = manifold.section(manifold.object(bad).sections[1]).as_dynamic_symbol_table().unwrap();
    assert_eq!(
        table.symbol_iter(&manifold),
        vec![Err(FoldError::InvalidSectionCast { expected: 3, actual: 0 })]
    );
}

#[test]
fn the_path_of_an_object_is_shown_as_text() {
    let mut manifold = empty_manifold();
    let a = manifold.add_elf_file(Mapping::new(image(0, &[], &[])), "/lib/libç.so".as_bytes().to_vec()).unwrap();
    assert_eq!(manifold.object(a).display_path(), "/lib/libç.so");
    let b = manifold.add_elf_file(Mapping::new(image(0, &[], &[])), vec![b'/', 0xff, 0xfe]).unwrap();
    assert_eq!(manifold.object(b).display_path(), "<path is not utf-8>");
    let c = manifold.add_elf_file(Mapping::new(image(0, &[], &[])), Vec::new()).unwrap();
    assert_eq!(manifold.object(c).display_path(), "");
    assert_eq!(fold::object::shown(Some("/bin/true")), "/bin/true");
    assert_eq!(fold::object::shown(None), "<path is not utf-8>");
}

#[test]
fn an_object_is_matched_against_a_condition() {
    let mut manifold = empty_manifold();
    let o = add(&mut manifold, "o", image(0, &[], &[]));
    let obj = manifold.object(o);
    assert!(obj.matches(ObjectFilter::any()));
    assert!(obj.matches(ObjectFilter { mask: ObjectMask::Strict, os_abi: 3, elf_type: 3 }));
    assert!(!obj.matches(ObjectFilter { mask: ObjectMask::Strict, os_abi: 3, elf_type: 2 }));
    assert!(obj.matches(ObjectFilter { mask: ObjectMask::OsAbi, os_abi: 3, elf_type: 2 }));
    assert!(!obj.matches(ObjectFilter { mask: ObjectMask::ElfType, os_abi: 3, elf_type: 2 }));
}

#[test]
fn a_link_to_a_section_that_the_manifold_lacks_is_an_error() {
    let mut manifold = empty_manifold();
    let o = add(&mut manifold, "o", object_with_symbols(&[("foo", GLOBAL, 3, 1)], &[]));
    manifold.objects.index_mut(o).sections[2] = Handle::new(99);
    let obj = manifold.object(o);
    let table = manifold.section(obj.sections[1]);
    assert!(matches!(table.linked(&manifold), Err(FoldError::MissingLinkedSection)));
    let view = table.as_dynamic_symbol_table().unwrap();
    assert_eq!(view.get_symbol_name(1, &manifold), Err(FoldError::MissingLinkedSection));
}

#[test]
fn all_the_symbols_of_an_object_are_listed() {
    let mut manifold = empty_manifold();
    let o = add(
        &mut manifold,
        "o",
        object_with_symbols(&[("dyn", GLOBAL, 3, 1)], &[("one", LOCAL, 3, 0x10), ("two", GLOBAL, 3, 0x20)]),
    );
    let all = manifold.object(o).symbols(&manifold);
    let got: Vec<(u64, Vec<u8>)> = all.iter().map(|r| r.as_ref().map(|(s, n)| (s.st_value, n.to_vec())).unwrap()).collect();
    assert_eq!(got, vec![(0, b"".to_vec()), (0x10, b"one".to_vec()), (0x20, b"two".to_vec())]);
    let empty = add(&mut manifold, "empty", image(0, &[], &[]));
    assert!(manifold.object(empty).symbols(&manifold).is_empty());
}
