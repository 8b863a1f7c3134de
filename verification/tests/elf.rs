use fold::elf;
use goblin::elf::reloc;
use fold::elf::{Dyn, ElfHeader, ElfItem, ElfItemIterator, ProgramHeader, Rel, Rela, SectionHeader, Sym};
use fold::error::FoldError;
use fold::sysv::relocation::split_info;

/// Bytes that differ from one position to the next.
fn pattern(len: usize) -> Vec<u8> {
    (0..len).map(|i| (i as u8).wrapping_mul(37).wrapping_add(11)).collect()
}

#[test]
fn constants_are_those_of_the_format() {
    assert_eq!(elf::SIZEOF_EHDR, goblin::elf64::header::SIZEOF_EHDR);
    assert_eq!(elf::EI_VERSION, goblin::elf::header::EI_VERSION);
    assert_eq!(elf::EI_OSABI, goblin::elf::header::EI_OSABI);
    assert_eq!(elf::PT_LOAD, goblin::elf::program_header::PT_LOAD);
    assert_eq!(elf::PT_DYNAMIC, goblin::elf::program_header::PT_DYNAMIC);
    assert_eq!(elf::PT_TLS, goblin::elf::program_header::PT_TLS);
    assert_eq!(elf::PF_R, goblin::elf::program_header::PF_R);
    assert_eq!(elf::PF_W, goblin::elf::program_header::PF_W);
    assert_eq!(elf::PF_X, goblin::elf::program_header::PF_X);
    assert_eq!(elf::SHT_SYMTAB, goblin::elf::section_header::SHT_SYMTAB);
    assert_eq!(elf::SHT_STRTAB, goblin::elf::section_header::SHT_STRTAB);
    assert_eq!(elf::SHT_RELA, goblin::elf::section_header::SHT_RELA);
    assert_eq!(elf::SHT_DYNAMIC, goblin::elf::section_header::SHT_DYNAMIC);
    assert_eq!(elf::SHT_DYNSYM, goblin::elf::section_header::SHT_DYNSYM);
    assert_eq!(elf::SHT_INIT_ARRAY, goblin::elf::section_header::SHT_INIT_ARRAY);
    assert_eq!(elf::SHT_FINI_ARRAY, goblin::elf::section_header::SHT_FINI_ARRAY);
    assert_eq!(elf::SHT_RELR, 19);
    assert_eq!(elf::SHN_UNDEF as u32, goblin::elf::section_header::SHN_UNDEF);
    assert_eq!(elf::STB_LOCAL, goblin::elf::sym::STB_LOCAL);
    assert_eq!(elf::STB_GLOBAL, goblin::elf::sym::STB_GLOBAL);
    assert_eq!(elf::STB_WEAK, goblin::elf::sym::STB_WEAK);
    assert_eq!(elf::DT_NEEDED, goblin::elf::dynamic::DT_NEEDED);
}

#[test]
fn relocation_types_are_those_of_the_format() {
    assert_eq!(elf::R_X86_64_NONE, reloc::R_X86_64_NONE);
    assert_eq!(elf::R_X86_64_64, reloc::R_X86_64_64);
    assert_eq!(elf::R_X86_64_COPY, reloc::R_X86_64_COPY);
    assert_eq!(elf::R_X86_64_GLOB_DAT, reloc::R_X86_64_GLOB_DAT);
    assert_eq!(elf::R_X86_64_JUMP_SLOT, reloc::R_X86_64_JUMP_SLOT);
    assert_eq!(elf::R_X86_64_RELATIVE, reloc::R_X86_64_RELATIVE);
    assert_eq!(elf::R_X86_64_32, reloc::R_X86_64_32);
    assert_eq!(elf::R_X86_64_32S, reloc::R_X86_64_32S);
    assert_eq!(elf::R_X86_64_16, reloc::R_X86_64_16);
    assert_eq!(elf::R_X86_64_8, reloc::R_X86_64_8);
    assert_eq!(elf::R_X86_64_DTPMOD64, reloc::R_X86_64_DTPMOD64);
    assert_eq!(elf::R_X86_64_DTPOFF64, reloc::R_X86_64_DTPOFF64);
    assert_eq!(elf::R_X86_64_TPOFF64, reloc::R_X86_64_TPOFF64);
    assert_eq!(elf::R_X86_64_TLSGD, reloc::R_X86_64_TLSGD);
    assert_eq!(elf::R_X86_64_TLSLD, reloc::R_X86_64_TLSLD);
    assert_eq!(elf::R_X86_64_DTPOFF32, reloc::R_X86_64_DTPOFF32);
    assert_eq!(elf::R_X86_64_GOTTPOFF, reloc::R_X86_64_GOTTPOFF);
    assert_eq!(elf::R_X86_64_TPOFF32, reloc::R_X86_64_TPOFF32);
    assert_eq!(elf::R_X86_64_IRELATIVE, reloc::R_X86_64_IRELATIVE);
}

#[test]
fn the_header_is_read_as_the_format_lays_it_out() {
    let bytes = pattern(70);
    let mine = ElfHeader::parse_at(&bytes, 3);
    let mut theirs = goblin::elf64::header::Header::default();
    plain::copy_from_bytes(&mut theirs, &bytes[3..67]).unwrap();
    assert_eq!(mine.e_ident, theirs.e_ident);
    assert_eq!(mine.e_type, theirs.e_type);
    assert_eq!(mine.e_machine, theirs.e_machine);
    assert_eq!(mine.e_version, theirs.e_version);
    assert_eq!(mine.e_entry, theirs.e_entry);
    assert_eq!(mine.e_phoff, theirs.e_phoff);
    assert_eq!(mine.e_shoff, theirs.e_shoff);
    assert_eq!(mine.e_flags, theirs.e_flags);
    assert_eq!(mine.e_ehsize, theirs.e_ehsize);
    assert_eq!(mine.e_phentsize, theirs.e_phentsize);
    assert_eq!(mine.e_phnum, theirs.e_phnum);
    assert_eq!(mine.e_shentsize, theirs.e_shentsize);
    assert_eq!(mine.e_shnum, theirs.e_shnum);
    assert_eq!(mine.e_shstrndx, theirs.e_shstrndx);
    assert_eq!(ElfHeader::size(), core::mem::size_of::<goblin::elf64::header::Header>());
}

#[test]
fn program_headers_are_read_as_the_format_lays_them_out() {
    let bytes = pattern(60);
    let mine = ProgramHeader::parse_at(&bytes, 1);
    let mut theirs = goblin::elf64::program_header::ProgramHeader::default();
    plain::copy_from_bytes(&mut theirs, &bytes[1..57]).unwrap();
    assert_eq!(mine.p_type, theirs.p_type);
    assert_eq!(mine.p_flags, theirs.p_flags);
    assert_eq!(mine.p_offset, theirs.p_offset);
    assert_eq!(mine.p_vaddr, theirs.p_vaddr);
    assert_eq!(mine.p_paddr, theirs.p_paddr);
    assert_eq!(mine.p_filesz, theirs.p_filesz);
    assert_eq!(mine.p_memsz, theirs.p_memsz);
    assert_eq!(mine.p_align, theirs.p_align);
    assert_eq!(ProgramHeader::size(), goblin::elf64::program_header::SIZEOF_PHDR);
}

#[test]
fn section_headers_are_read_as_the_format_lays_them_out() {
    let bytes = pattern(64);
    let mine = SectionHeader::parse_at(&bytes, 0);
    let mut theirs = goblin::elf64::section_header::SectionHeader::default();
    plain::copy_from_bytes(&mut theirs, &bytes).unwrap();
    assert_eq!(mine.sh_name, theirs.sh_name);
    assert_eq!(mine.sh_type, theirs.sh_type);
    assert_eq!(mine.sh_flags, theirs.sh_flags);
    assert_eq!(mine.sh_addr, theirs.sh_addr);
    assert_eq!(mine.sh_offset, theirs.sh_offset);
    assert_eq!(mine.sh_size, theirs.sh_size);
    assert_eq!(mine.sh_link, theirs.sh_link);
    assert_eq!(mine.sh_info, theirs.sh_info);
    assert_eq!(mine.sh_addralign, theirs.sh_addralign);
    assert_eq!(mine.sh_entsize, theirs.sh_entsize);
    assert_eq!(SectionHeader::size(), goblin::elf64::section_header::SIZEOF_SHDR);
}

#[test]
fn symbols_are_read_as_the_format_lays_them_out() {
    let bytes = pattern(30);
    let mine = Sym::parse_at(&bytes, 5);
    let mut theirs = goblin::elf64::sym::Sym::default();
    plain::copy_from_bytes(&mut theirs, &bytes[5..29]).unwrap();
    assert_eq!(mine.st_name, theirs.st_name);
    assert_eq!(mine.st_info, theirs.st_info);
    assert_eq!(mine.st_other, theirs.st_other);
    assert_eq!(mine.st_shndx, theirs.st_shndx);
    assert_eq!(mine.st_value, theirs.st_value);
    assert_eq!(mine.st_size, theirs.st_size);
    assert_eq!(Sym::size(), goblin::elf64::sym::SIZEOF_SYM);
    assert_eq!(elf::sym_bindings(&mine), goblin::elf::sym::st_bind(theirs.st_info));
}

#[test]
fn relocations_are_read_as_the_format_lays_them_out() {
    let mut bytes = pattern(24);
    bytes[23] = 0xff;
    let mine = Rela::parse_at(&bytes, 0);
    let mut theirs = goblin::elf64::reloc::Rela::default();
    plain::copy_from_bytes(&mut theirs, &bytes).unwrap();
    assert_eq!(mine.r_offset, theirs.r_offset);
    assert_eq!(mine.r_info, theirs.r_info);
    assert_eq!(mine.r_addend, theirs.r_addend);
    assert!(mine.r_addend < 0);
    assert_eq!(Rela::size(), goblin::elf64::reloc::SIZEOF_RELA);
    let rel = Rel::parse_at(&bytes, 8);
    assert_eq!(rel.r_offset, theirs.r_info);
    assert_eq!(Rel::size(), goblin::elf64::reloc::SIZEOF_REL);
}

#[test]
fn dynamic_entries_are_read_as_the_format_lays_them_out() {
    let bytes = pattern(16);
    let mine = Dyn::parse_at(&bytes, 0);
    let mut theirs = goblin::elf64::dynamic::Dyn::default();
    plain::copy_from_bytes(&mut theirs, &bytes).unwrap();
    assert_eq!(mine.d_tag, theirs.d_tag);
    assert_eq!(mine.d_val, theirs.d_val);
    assert_eq!(Dyn::size(), goblin::elf64::dynamic::SIZEOF_DYN);
    assert_eq!(<u64 as ElfItem>::parse_at(&bytes, 8), theirs.d_val);
    assert_eq!(<u64 as ElfItem>::size(), 8);
}

#[test]
fn info_is_split_into_type_and_symbol() {
    assert_eq!(split_info(0x0000_0005_0000_0007), (7, 5));
    assert_eq!(split_info(0xffff_fffe_0000_0025), (0x25, 0xffff_fffe));
    assert_eq!(split_info(0), (0, 0));
    assert_eq!(split_info(u64::MAX), (u32::MAX, u32::MAX));
    let info = goblin::elf64::reloc::r_info(9, 8);
    assert_eq!(split_info(info), (8, 9));
}

#[test]
fn bindings_are_the_high_bits_of_the_info() {
    let mut s = Sym { st_name: 0, st_info: 0x12, st_other: 0, st_shndx: 0, st_value: 0, st_size: 0 };
    assert_eq!(elf::sym_bindings(&s), 1);
    s.st_info = 0x2f;
    assert_eq!(elf::sym_bindings(&s), 2);
    s.st_info = 0x0f;
    assert_eq!(elf::sym_bindings(&s), 0);
    s.st_info = 0xff;
    assert_eq!(elf::sym_bindings(&s), 15);
}

#[test]
fn the_header_is_validated() {
    let mut bytes = vec![0u8; 64];
    bytes[..4].copy_from_slice(&[0x7f, b'E', b'L', b'F']);
    bytes[6] = 1;
    assert_eq!(ElfHeader::parse_at(&bytes, 0).validate(), Ok(()));
    bytes[6] = 0;
    assert_eq!(ElfHeader::parse_at(&bytes, 0).validate(), Err(FoldError::InvalidVersion));
    bytes[6] = 1;
    for i in 0..4 {
        let mut bad = bytes.clone();
        bad[i] ^= 1;
        assert_eq!(ElfHeader::parse_at(&bad, 0).validate(), Err(FoldError::InvalidMagic));
    }
}

#[test]
fn a_table_is_walked_record_by_record() {
    let mut raw = vec![0xeeu8; 4];
    for i in 0..3u64 {
        raw.extend_from_slice(&(i + 10).to_le_bytes());
        raw.extend_from_slice(&(i * 2).to_le_bytes());
    }
    let mut it: ElfItemIterator<Dyn> = ElfItemIterator::new(&raw, 4, 3, 16);
    assert_eq!(it.next(), Some(Dyn { d_tag: 10, d_val: 0 }));
    assert_eq!(it.next(), Some(Dyn { d_tag: 11, d_val: 2 }));
    assert_eq!(it.next(), Some(Dyn { d_tag: 12, d_val: 4 }));
    assert_eq!(it.next(), None);
    assert_eq!(it.next(), None);
    let it: ElfItemIterator<Dyn> = ElfItemIterator::with_len(&raw, 4, 32);
    assert_eq!(it.collect(), vec![Dyn { d_tag: 10, d_val: 0 }, Dyn { d_tag: 11, d_val: 2 }]);
    let it: ElfItemIterator<Dyn> = ElfItemIterator::new(&raw, 4, 3, 16);
    assert_eq!(it.find_tag(11), Some(Dyn { d_tag: 11, d_val: 2 }));
    assert_eq!(it.find_tag(13), None);
}

#[test]
fn a_walk_ends_where_the_bytes_end() {
    let raw = vec![1u8; 40];
    // Three records announced, two and a half there.
    let it: ElfItemIterator<Dyn> = ElfItemIterator::new(&raw, 0, 3, 16);
    assert_eq!(it.collect().len(), 2);
    let it: ElfItemIterator<Dyn> = ElfItemIterator::new(&raw, 100, 3, 16);
    assert_eq!(it.collect().len(), 0);
    let it: ElfItemIterator<Dyn> = ElfItemIterator::new(&raw, usize::MAX, 3, 16);
    assert_eq!(it.collect().len(), 0);
    let it: ElfItemIterator<Dyn> = ElfItemIterator::with_len(&raw, 8, usize::MAX);
    assert_eq!(it.collect().len(), 2);
    let it: ElfItemIterator<u64> = ElfItemIterator::with_len(&raw, 0, 0);
    assert_eq!(it.collect().len(), 0);
    // A record that starts before the end of the table is read in full.
    let it: ElfItemIterator<u64> = ElfItemIterator::with_len(&raw, 0, 9);
    assert_eq!(it.collect().len(), 2);
}

#[test]
fn a_section_header_describes_a_table() {
    let mut raw = vec![0u8; 8];
    raw.extend_from_slice(&7u64.to_le_bytes());
    raw.extend_from_slice(&9u64.to_le_bytes());
    let sh = SectionHeader {
        sh_name: 0,
        sh_type: 14,
        sh_flags: 0,
        sh_addr: 0,
        sh_offset: 8,
        sh_size: 16,
        sh_link: 0,
        sh_info: 0,
        sh_addralign: 8,
        sh_entsize: 8,
    };
    let it: ElfItemIterator<u64> = ElfItemIterator::from_section_header(&raw, &sh);
    assert_eq!(it.collect(), vec![7, 9]);
}

#[test]
fn sums_saturate() {
    assert_eq!(elf::saturating_sum(1, 2), 3);
    assert_eq!(elf::saturating_sum(usize::MAX, 1), usize::MAX);
    assert_eq!(elf::saturating_sum(usize::MAX - 1, 1), usize::MAX);
    assert_eq!(elf::saturating_sum(usize::MAX / 2 + 1, usize::MAX / 2 + 1), usize::MAX);
}
