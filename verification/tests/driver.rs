use fold::arena::Handle;
use fold::cli::{find_target, parse, usage, Config};
use fold::driver::{
    call_hook, directory, drive_phase, next_step, run_phases, settle, Cursor, CursorPosition,
    Fold, Phase, RunError, Stage, Step,
};
use fold::env::{Auxv, AuxvType, Env, EnvString};
use fold::error::FoldError;
use fold::exit::Exit;
use fold::file::Mapping;
use fold::filters::{section, segment, Filter, ItemFilter, ObjectFilter, ObjectMask};
use fold::manifold::Manifold;
use fold::module::{Module, ModuleError};
use fold::object::{Object, Section, Segment};
use fold::sysv::collector::{remap_key, search_paths_key};
use fold::sysv::SysvModule;

// ———————————————————————————— Building ELF files ————————————————————————————— //
#[allow(dead_code)]
struct Seg {
    p_type: u32,
    flags: u32,
    offset: u64,
    vaddr: u64,
    filesz: u64,
    memsz: u64,
    align: u64,
}

#[allow(dead_code)]
struct Sec {
    sh_type: u32,
    link: u32,
    entsize: u64,
    addr: u64,
    data: Vec<u8>,
}

#[allow(dead_code)]
fn sec(sh_type: u32, link: u32, entsize: u64, data: Vec<u8>) -> Sec {
    Sec { sh_type, link, entsize, addr: 0, data }
}

#[allow(dead_code)]
fn null_section() -> Sec {
    sec(0, 0, 0, Vec::new())
}

#[allow(dead_code)]
fn header(entry: u64, phnum: u16, shoff: u64, shnum: u16, shstrndx: u16) -> Vec<u8> {
    let mut h = vec![0x7f, b'E', b'L', b'F', 2, 1, 1, 3, 0, 0, 0, 0, 0, 0, 0, 0];
    h.extend_from_slice(&3u16.to_le_bytes());
    h.extend_from_slice(&62u16.to_le_bytes());
    h.extend_from_slice(&1u32.to_le_bytes());
    h.extend_from_slice(&entry.to_le_bytes());
    h.extend_from_slice(&64u64.to_le_bytes());
    h.extend_from_slice(&shoff.to_le_bytes());
    h.extend_from_slice(&0u32.to_le_bytes());
    h.extend_from_slice(&64u16.to_le_bytes());
    h.extend_from_slice(&56u16.to_le_bytes());
    h.extend_from_slice(&phnum.to_le_bytes());
    h.extend_from_slice(&64u16.to_le_bytes());
    h.extend_from_slice(&shnum.to_le_bytes());
    h.extend_from_slice(&shstrndx.to_le_bytes());
    assert_eq!(h.len(), 64);
    h
}

/// The file: header, program headers, the content of the sections in order, section headers.
#[allow(dead_code)]
fn image(entry: u64, segs: &[Seg], secs: &[Sec]) -> Vec<u8> {
    let data_start = 64 + 56 * segs.len() as u64;
    let data_len: u64 = secs.iter().map(|s| s.data.len() as u64).sum();
    let shoff = data_start + data_len;
    let mut out = header(entry, segs.len() as u16, shoff, secs.len() as u16, 0);
    for s in segs {
        out.extend_from_slice(&s.p_type.to_le_bytes());
        out.extend_from_slice(&s.flags.to_le_bytes());
        out.extend_from_slice(&s.offset.to_le_bytes());
        out.extend_from_slice(&s.vaddr.to_le_bytes());
        out.extend_from_slice(&s.vaddr.to_le_bytes());
        out.extend_from_slice(&s.filesz.to_le_bytes());
        out.extend_from_slice(&s.memsz.to_le_bytes());
        out.extend_from_slice(&s.align.to_le_bytes());
    }
    for s in secs {
        out.extend_from_slice(&s.data);
    }
    let mut offset = data_start;
    for s in secs {
        out.extend_from_slice(&0u32.to_le_bytes());
        out.extend_from_slice(&s.sh_type.to_le_bytes());
        out.extend_from_slice(&0u64.to_le_bytes());
        out.extend_from_slice(&s.addr.to_le_bytes());
        out.extend_from_slice(&offset.to_le_bytes());
        out.extend_from_slice(&(s.data.len() as u64).to_le_bytes());
        out.extend_from_slice(&s.link.to_le_bytes());
        out.extend_from_slice(&0u32.to_le_bytes());
        out.extend_from_slice(&1u64.to_le_bytes());
        out.extend_from_slice(&s.entsize.to_le_bytes());
        offset += s.data.len() as u64;
    }
    out
}

#[allow(dead_code)]
fn sym(name: u32, info: u8, shndx: u16, value: u64, size: u64) -> Vec<u8> {
    let mut out = Vec::new();
    out.extend_from_slice(&name.to_le_bytes());
    out.push(info);
    out.push(0);
    out.extend_from_slice(&shndx.to_le_bytes());
    out.extend_from_slice(&value.to_le_bytes());
    out.extend_from_slice(&size.to_le_bytes());
    out
}

#[allow(dead_code)]
fn rela(offset: u64, symbol: u32, typ: u32, addend: i64) -> Vec<u8> {
    let mut out = Vec::new();
    out.extend_from_slice(&offset.to_le_bytes());
    out.extend_from_slice(&(((symbol as u64) << 32) | typ as u64).to_le_bytes());
    out.extend_from_slice(&addend.to_le_bytes());
    out
}

#[allow(dead_code)]
fn dynent(tag: u64, val: u64) -> Vec<u8> {
    let mut out = Vec::new();
    out.extend_from_slice(&tag.to_le_bytes());
    out.extend_from_slice(&val.to_le_bytes());
    out
}

/// A string table of `names` behind a leading NUL, and where each name starts.
#[allow(dead_code)]
fn strings(names: &[&str]) -> (Vec<u8>, Vec<u32>) {
    let mut table = vec![0u8];
    let mut at = Vec::new();
    for n in names {
        at.push(table.len() as u32);
        table.extend_from_slice(n.as_bytes());
        table.push(0);
    }
    (table, at)
}

#[allow(dead_code)]
fn concat(parts: &[Vec<u8>]) -> Vec<u8> {
    parts.iter().flat_map(|p| p.iter().copied()).collect()
}

#[allow(dead_code)]
const LOCAL: u8 = 0 << 4;
#[allow(dead_code)]
const GLOBAL: u8 = 1 << 4;
#[allow(dead_code)]
const WEAK: u8 = 2 << 4;

/// An object whose dynamic symbol table (section 1, names in section 2) holds `dynsyms` and
/// whose symbol table (section 4, names in section 5) holds `syms`; section 3 holds code at
/// address 0x1000. Symbols are given as name, info, section index and value.
#[allow(dead_code)]
fn object_with_symbols(dynsyms: &[(&str, u8, u16, u64)], syms: &[(&str, u8, u16, u64)]) -> Vec<u8> {
    let table = |list: &[(&str, u8, u16, u64)]| -> (Vec<u8>, Vec<u8>) {
        let names: Vec<&str> = list.iter().map(|s| s.0).collect();
        let (strtab, at) = strings(&names);
        let mut entries = sym(0, 0, 0, 0, 0);
        for (i, s) in list.iter().enumerate() {
            entries.extend(sym(at[i], s.1, s.2, s.3, 8));
        }
        (entries, strtab)
    };
    let (dynsym, dynstr) = table(dynsyms);
    let (symtab, strtab) = table(syms);
    let mut text = sec(1, 0, 0, vec![0x90; 16]);
    text.addr = 0x1000;
    image(
        0x1000,
        &[],
        &[
            null_section(),
            sec(11, 2, 24, dynsym),
            sec(3, 0, 0, dynstr),
            text,
            sec(2, 5, 24, symtab),
            sec(3, 0, 0, strtab),
        ],
    )
}

#[allow(dead_code)]
fn empty_env() -> fold::env::Env {
    fold::env::Env { args: Vec::new(), envp: Vec::new(), auxv: Vec::new(), raw_argv: 0, raw_envp: 0 }
}

#[allow(dead_code)]
fn empty_manifold() -> fold::manifold::Manifold {
    fold::manifold::Manifold::new(empty_env(), fold::share_map::ShareMap::new())
}

#[allow(dead_code)]
fn add(manifold: &mut fold::manifold::Manifold, name: &str, file: Vec<u8>) -> fold::arena::Handle<fold::object::Object> {
    manifold.add_elf_file(fold::file::Mapping::new(file), name.as_bytes().to_vec()).unwrap()
}

// ————————————————————————————————— Modules ————————————————————————————————— //
/// Writes down what it is called with.
struct Recorder {
    calls: Vec<String>,
    fail_on: Option<&'static str>,
}

impl Recorder {
    fn new() -> Self {
        Recorder { calls: Vec::new(), fail_on: None }
    }

    fn note(&mut self, call: String) -> Result<(), ModuleError> {
        let fail = self.fail_on.map(|f| f == call).unwrap_or(false);
        self.calls.push(call);
        if fail {
            Err(ModuleError::Other("no".to_string()))
        } else {
            Ok(())
        }
    }
}

impl Module for Recorder {
    fn name(&self) -> &'static str {
        "recorder"
    }

    fn process_object(&mut self, obj: Handle<Object>, _m: &mut Manifold) -> Result<(), ModuleError> {
        self.note(format!("object {}", obj.idx()))
    }

    fn process_segment(&mut self, s: Handle<Segment>, _m: &mut Manifold) -> Result<(), ModuleError> {
        self.note(format!("segment {}", s.idx()))
    }

    fn process_section(&mut self, s: Handle<Section>, _m: &mut Manifold) -> Result<(), ModuleError> {
        self.note(format!("section {}", s.idx()))
    }

    fn process_manifold(&mut self, _m: &mut Manifold) -> Result<(), ModuleError> {
        self.note("manifold".to_string())
    }
}

/// Adds one object when it sees the first object, and writes down the objects it sees.
struct Grower {
    seen: Vec<usize>,
    sections: Vec<usize>,
}

impl Module for Grower {
    fn name(&self) -> &'static str {
        "grower"
    }

    fn process_object(&mut self, obj: Handle<Object>, m: &mut Manifold) -> Result<(), ModuleError> {
        self.seen.push(obj.idx());
        if obj.idx() < 2 {
            add(m, "more", image(0, &[], &[null_section()]));
        }
        Ok(())
    }

    fn process_section(&mut self, s: Handle<Section>, _m: &mut Manifold) -> Result<(), ModuleError> {
        self.sections.push(s.idx());
        Ok(())
    }
}

/// Implements nothing but its name.
struct Idle;

impl Module for Idle {
    fn name(&self) -> &'static str {
        "idle"
    }
}

fn two_objects() -> Manifold {
    let segs = [
        Seg { p_type: 1, flags: 5, offset: 0, vaddr: 0, filesz: 8, memsz: 8, align: 1 },
        Seg { p_type: 2, flags: 6, offset: 0, vaddr: 0, filesz: 8, memsz: 8, align: 1 },
        Seg { p_type: 1, flags: 6, offset: 0, vaddr: 0, filesz: 8, memsz: 8, align: 1 },
    ];
    let secs = [null_section(), sec(3, 0, 0, b"\0".to_vec()), sec(4, 0, 24, Vec::new())];
    let mut manifold = empty_manifold();
    add(&mut manifold, "first", image(0, &segs, &secs));
    add(&mut manifold, "second", image(0, &segs[..1], &secs[..2]));
    manifold
}

fn phase<M>(module: M, filter: Filter) -> Phase<M> {
    Phase { name: "test".to_string(), module, filter }
}

fn calls(filter: Filter) -> Vec<String> {
    let mut manifold = two_objects();
    let mut p = phase(Recorder::new(), filter);
    drive_phase(&mut p, &mut manifold).unwrap();
    p.module.calls
}

// ————————————————————————————————— Phases —————————————————————————————————— //
#[test]
fn the_manifold_hook_is_called_once() {
    assert_eq!(calls(Filter::manifold()), vec!["manifold"]);
    assert_eq!(calls(Filter::manifold().or(Filter::manifold())), vec!["manifold"]);
}

#[test]
fn objects_are_visited_in_load_order() {
    assert_eq!(calls(Filter::any_object()), vec!["object 0", "object 1"]);
}

#[test]
fn the_manifold_comes_first_then_each_object_with_its_segments_then_its_sections() {
    let all = Filter::manifold().or(Filter::any_section()).or(Filter::any_object()).or(Filter::any_segment());
    assert_eq!(
        calls(all),
        vec![
            "manifold", "object 0", "segment 0", "segment 1", "segment 2", "section 0",
            "section 1", "section 2", "object 1", "segment 3", "section 3", "section 4",
        ]
    );
}

#[test]
fn a_filter_by_type_selects_by_tag() {
    assert_eq!(calls(Filter::segment_type(1)), vec!["segment 0", "segment 2", "segment 3"]);
    assert_eq!(calls(Filter::segment_type(2)), vec!["segment 1"]);
    assert_eq!(calls(Filter::segment_type(7)), Vec::<String>::new());
    assert_eq!(calls(Filter::section_type(3)), vec!["section 1", "section 4"]);
    assert_eq!(calls(Filter::section_type(4)), vec!["section 2"]);
    assert_eq!(
        calls(Filter::section_type(4).or(Filter::segment_type(2))),
        vec!["segment 1", "section 2"]
    );
    assert_eq!(
        calls(Filter::section_type(4).or(Filter::section_type(0))),
        vec!["section 0", "section 2", "section 3"]
    );
}

#[test]
fn a_filter_on_objects_goes_by_the_header() {
    let by_type = |elf_type: u16| ObjectFilter { mask: ObjectMask::ElfType, os_abi: 0, elf_type };
    assert_eq!(calls(Filter::object(by_type(3))), vec!["object 0", "object 1"]);
    assert_eq!(calls(Filter::object(by_type(2))), Vec::<String>::new());
    let by_abi = |os_abi: u8| ObjectFilter { mask: ObjectMask::OsAbi, os_abi, elf_type: 9 };
    assert_eq!(calls(Filter::object(by_abi(3))), vec!["object 0", "object 1"]);
    assert_eq!(calls(Filter::object(by_abi(0))), Vec::<String>::new());
    let strict = |os_abi: u8, elf_type: u16| ObjectFilter { mask: ObjectMask::Strict, os_abi, elf_type };
    assert_eq!(calls(Filter::object(strict(3, 3))).len(), 2);
    assert_eq!(calls(Filter::object(strict(3, 2))).len(), 0);
    assert_eq!(calls(Filter::object(strict(0, 3))).len(), 0);
    assert_eq!(
        calls(Filter::segment(Some(segment(2)), by_type(2))),
        Vec::<String>::new()
    );
    assert_eq!(calls(Filter::segment(Some(segment(2)), by_type(3))), vec!["segment 1"]);
    assert_eq!(calls(Filter::section(None, by_abi(3))).len(), 5);
    assert_eq!(calls(Filter::section(Some(section(3)), by_abi(1))).len(), 0);
}

#[test]
fn an_empty_filter_matches_nothing() {
    assert_eq!(calls(Filter { items: Vec::new() }), Vec::<String>::new());
}

#[test]
fn filters_answer_the_questions_of_the_driver() {
    let manifold = two_objects();
    let obj = manifold.object(Handle::new(0));
    let seg = manifold.segment(Handle::new(1));
    let sec = manifold.section(Handle::new(1));
    let f = Filter::segment_type(2);
    assert!(!f.matches_manifold());
    assert!(!f.matches_object(obj));
    assert!(f.is_segment_filter());
    assert!(f.matches_segment(seg, obj));
    assert!(!f.matches_segment(manifold.segment(Handle::new(0)), obj));
    assert!(!f.is_section_filter());
    assert!(!f.matches_section(sec, obj));
    let g = f.or(Filter::any_section()).or(Filter::manifold());
    assert!(g.matches_manifold());
    assert!(g.is_section_filter());
    assert!(g.matches_section(sec, obj));
    assert!(g.matches_segment(seg, obj));
    assert!(!g.matches_object(obj));
    assert_eq!(g.items.len(), 3);
    assert!(Filter::any_object().matches_object(obj));
    assert_eq!(ItemFilter::Manifold.object_filter(), None);
    assert_eq!(ItemFilter::Object(ObjectFilter::any()).object_filter(), Some(ObjectFilter::any()));
    assert_eq!(
        ItemFilter::Segment(None, ObjectFilter::any()).object_filter().map(|f| f.mask),
        Some(ObjectMask::Any)
    );
    assert_eq!(segment(7).tag, 7);
    assert_eq!(section(11).tag, 11);
    assert!(ObjectFilter::any().matches(obj));
}

#[test]
fn objects_added_in_a_phase_are_visited_in_that_phase() {
    let mut manifold = empty_manifold();
    add(&mut manifold, "first", image(0, &[], &[null_section()]));
    let mut p = phase(Grower { seen: Vec::new(), sections: Vec::new() }, Filter::any_object().or(Filter::any_section()));
    drive_phase(&mut p, &mut manifold).unwrap();
    assert_eq!(p.module.seen, vec![0, 1, 2]);
    assert_eq!(p.module.sections, vec![0, 1, 2]);
    assert_eq!(manifold.objects.len(), 3);
}

#[test]
fn the_first_failure_ends_the_phase() {
    let mut manifold = two_objects();
    let mut recorder = Recorder::new();
    recorder.fail_on = Some("segment 1");
    let mut p = phase(recorder, Filter::any_segment().or(Filter::any_object()));
    let error = drive_phase(&mut p, &mut manifold).unwrap_err();
    assert_eq!(p.module.calls, vec!["object 0", "segment 0", "segment 1"]);
    assert_eq!(error.module, "recorder");
    assert_eq!(error.phase, "test");
    assert_eq!(error.step, Step::Segment(Handle::new(1)));
    assert_eq!(error.path, Some(b"first".to_vec()));
    assert_eq!(error.error, ModuleError::Other("no".to_string()));
}

#[test]
fn hooks_that_a_module_leaves_out_do_nothing() {
    let mut manifold = two_objects();
    let all = Filter::manifold().or(Filter::any_section()).or(Filter::any_object()).or(Filter::any_segment());
    let mut p = phase(Idle, all);
    assert!(drive_phase(&mut p, &mut manifold).is_ok());
    assert_eq!(manifold.objects.len(), 2);
    assert_eq!(p.module.name(), "idle");
}

#[test]
fn a_step_goes_to_the_hook_of_its_kind() {
    let mut manifold = two_objects();
    let mut recorder = Recorder::new();
    assert_eq!(call_hook(&mut recorder, Step::Manifold, &mut manifold), Ok(()));
    assert_eq!(call_hook(&mut recorder, Step::Object(Handle::new(1)), &mut manifold), Ok(()));
    assert_eq!(call_hook(&mut recorder, Step::Segment(Handle::new(3)), &mut manifold), Ok(()));
    recorder.fail_on = Some("section 4");
    assert_eq!(
        call_hook(&mut recorder, Step::Section(Handle::new(4)), &mut manifold),
        Err(ModuleError::Other("no".to_string()))
    );
    assert_eq!(recorder.calls, vec!["manifold", "object 1", "segment 3", "section 4"]);
    let mut grower = Grower { seen: Vec::new(), sections: Vec::new() };
    assert_eq!(call_hook(&mut grower, Step::Object(Handle::new(0)), &mut manifold), Ok(()));
    assert_eq!(manifold.objects.len(), 3);
    assert_eq!(call_hook(&mut grower, Step::Segment(Handle::new(0)), &mut manifold), Ok(()));
    assert_eq!(manifold.objects.len(), 3);
    assert_eq!(grower.seen, vec![0]);
}

#[test]
fn a_failure_is_reported_with_its_place() {
    let manifold = two_objects();
    let name = "late".to_string();
    let failure = || Err(ModuleError::Other("no".to_string()));
    assert!(settle(&name, &Idle, Step::Manifold, &manifold, Ok(())).is_ok());
    assert!(settle(&name, &Idle, Step::Object(Handle::new(0)), &manifold, Ok(())).is_ok());
    let report = settle(&name, &Idle, Step::Manifold, &manifold, failure()).unwrap_err();
    assert_eq!(report.phase, "late");
    assert_eq!(report.module, "idle");
    assert_eq!(report.step, Step::Manifold);
    assert_eq!(report.path, None);
    assert_eq!(report.error, ModuleError::Other("no".to_string()));
    let report = settle(&name, &Recorder::new(), Step::Object(Handle::new(1)), &manifold, failure()).unwrap_err();
    assert_eq!(report.module, "recorder");
    assert_eq!(report.step, Step::Object(Handle::new(1)));
    assert_eq!(report.path, Some(b"second".to_vec()));
    let report = settle(&name, &Idle, Step::Segment(Handle::new(2)), &manifold, failure()).unwrap_err();
    assert_eq!(report.path, Some(b"first".to_vec()));
    let report = settle(&name, &Idle, Step::Segment(Handle::new(3)), &manifold, failure()).unwrap_err();
    assert_eq!(report.path, Some(b"second".to_vec()));
    let report = settle(&name, &Idle, Step::Section(Handle::new(4)), &manifold, failure()).unwrap_err();
    assert_eq!(report.path, Some(b"second".to_vec()));
    let report = settle(&name, &Idle, Step::Section(Handle::new(9)), &manifold, failure()).unwrap_err();
    assert_eq!(report.step, Step::Section(Handle::new(9)));
    assert_eq!(report.path, None);
    let report = settle(&name, &Idle, Step::Object(Handle::new(7)), &manifold, failure()).unwrap_err();
    assert_eq!(report.path, None);
}

#[test]
fn a_phase_with_nothing_to_visit_changes_nothing() {
    let mut manifold = two_objects();
    let mut p = phase(Recorder::new(), Filter { items: Vec::new() });
    assert!(drive_phase(&mut p, &mut manifold).is_ok());
    assert!(p.module.calls.is_empty());
    assert_eq!(manifold.objects.len(), 2);
    let mut none: Vec<Phase<Recorder>> = Vec::new();
    assert!(run_phases(&mut none, &mut manifold).is_ok());
    assert_eq!(manifold.objects.len(), 2);
}

#[test]
fn a_phase_that_fails_leaves_the_later_phases_alone() {
    let mut manifold = two_objects();
    let mut phases = vec![
        phase(Recorder::new(), Filter::manifold()),
        phase(Recorder::new(), Filter::any_object()),
        phase(Recorder::new(), Filter::any_object()),
    ];
    phases[1].name = "middle".to_string();
    phases[1].module.fail_on = Some("object 0");
    let error = run_phases(&mut phases, &mut manifold).unwrap_err();
    assert_eq!(error.phase, "middle");
    assert_eq!(error.step, Step::Object(Handle::new(0)));
    assert_eq!(error.path, Some(b"first".to_vec()));
    assert_eq!(phases.len(), 3);
    assert_eq!(phases[0].module.calls, vec!["manifold"]);
    assert_eq!(phases[1].module.calls, vec!["object 0"]);
    assert!(phases[2].module.calls.is_empty());
}

#[test]
fn phases_run_in_the_order_of_the_list() {
    let mut manifold = two_objects();
    let mut phases = vec![
        phase(Recorder::new(), Filter::any_object()),
        phase(Recorder::new(), Filter::manifold()),
    ];
    phases[0].module.fail_on = Some("object 1");
    let error = run_phases(&mut phases, &mut manifold).unwrap_err();
    assert_eq!(error.step, Step::Object(Handle::new(1)));
    assert_eq!(phases[0].module.calls, vec!["object 0", "object 1"]);
    assert!(phases[1].module.calls.is_empty());
    phases[0].module.fail_on = None;
    phases[0].module.calls.clear();
    run_phases(&mut phases, &mut manifold).unwrap();
    assert_eq!(phases[0].module.calls, vec!["object 0", "object 1"]);
    assert_eq!(phases[1].module.calls, vec!["manifold"]);
}

#[test]
fn the_cursor_walks_step_by_step() {
    let manifold = two_objects();
    let filter = Filter::segment_type(2).or(Filter::section_type(3));
    let mut cursor = Cursor::start();
    assert_eq!(cursor, Cursor { stage: Stage::Manifold, object: 0, item: 0 });
    assert_eq!(next_step(&filter, &manifold, &mut cursor), Some(Step::Segment(Handle::new(1))));
    assert_eq!(cursor, Cursor { stage: Stage::Segments, object: 0, item: 2 });
    assert_eq!(next_step(&filter, &manifold, &mut cursor), Some(Step::Section(Handle::new(1))));
    assert_eq!(cursor, Cursor { stage: Stage::Sections, object: 0, item: 2 });
    assert_eq!(next_step(&filter, &manifold, &mut cursor), Some(Step::Section(Handle::new(4))));
    assert_eq!(next_step(&filter, &manifold, &mut cursor), None);
    assert!(cursor.is_done());
    assert_eq!(next_step(&filter, &manifold, &mut cursor), None);
}

// ————————————————————————————————— Chains —————————————————————————————————— //
fn env(args: &[&str]) -> Env {
    let mut e = empty_env();
    e.args = args.iter().enumerate().map(|(i, a)| EnvString { addr: 0x100 * (i + 1), bytes: a.as_bytes().to_vec() }).collect();
    e
}

fn chain(names: &[&str]) -> Fold<u32> {
    let mut fold: Fold<u32> = Fold::new(env(&["./prog"]), "fold").unwrap();
    for (i, n) in names.iter().enumerate() {
        fold = fold.register(n, i as u32, Filter::manifold());
    }
    fold
}

fn order(fold: &Fold<u32>) -> Vec<(String, u32)> {
    fold.phases.iter().map(|p| (p.name.clone(), p.module)).collect()
}

fn named(list: &[(&str, u32)]) -> Vec<(String, u32)> {
    list.iter().map(|(n, m)| (n.to_string(), *m)).collect()
}

#[test]
fn register_appends() {
    let fold = chain(&["a", "b", "c"]);
    assert_eq!(order(&fold), named(&[("a", 0), ("b", 1), ("c", 2)]));
    assert_eq!(fold.find("b"), Some(1));
    assert_eq!(fold.find("d"), None);
    assert_eq!(fold.find(""), None);
    assert_eq!(fold.config.target, b"./prog".to_vec());
}

#[test]
fn a_selected_phase_is_deleted_or_replaced() {
    let fold = chain(&["a", "b", "c"]).select("b").delete();
    assert_eq!(order(&fold), named(&[("a", 0), ("c", 2)]));
    let fold = chain(&["a", "b", "c"]).select("b").replace("x", 9, Filter::any_object());
    assert_eq!(order(&fold), named(&[("a", 0), ("x", 9), ("c", 2)]));
    assert!(fold.phases[1].filter.matches_object(two_objects().object(Handle::new(0))));
    let fold = chain(&["a", "b", "a"]).select("a").delete();
    assert_eq!(order(&fold), named(&[("b", 1), ("a", 2)]));
}

#[test]
fn phases_are_inserted_around_a_selected_phase() {
    let fold = chain(&["a", "b", "c"]).select("b").before().register("x", 7, Filter::manifold());
    assert_eq!(order(&fold), named(&[("a", 0), ("x", 7), ("b", 1), ("c", 2)]));
    let fold = chain(&["a", "b", "c"]).select("b").after().register("x", 7, Filter::manifold());
    assert_eq!(order(&fold), named(&[("a", 0), ("b", 1), ("x", 7), ("c", 2)]));
    let fold = chain(&["a", "b", "c"]).select("c").after().register("x", 7, Filter::manifold());
    assert_eq!(order(&fold), named(&[("a", 0), ("b", 1), ("c", 2), ("x", 7)]));
    let fold = chain(&["a", "b"]).select("a").before().as_handle().after().register("x", 7, Filter::manifold());
    assert_eq!(order(&fold), named(&[("a", 0), ("x", 7), ("b", 1)]));
}

#[test]
fn a_selected_phase_is_handed_to_a_function() {
    let fold = chain(&["a", "b", "c"]).apply("b", |h| h.delete());
    assert_eq!(order(&fold), named(&[("a", 0), ("c", 2)]));
    let at = chain(&["a", "b", "c"]).apply("c", |h| h.phase);
    assert_eq!(at, 2);
}

#[test]
fn phases_are_inserted_at_the_ends() {
    let fold = chain(&["a", "b"]).front().register("x", 7, Filter::manifold());
    assert_eq!(order(&fold), named(&[("x", 7), ("a", 0), ("b", 1)]));
    let fold = chain(&["a", "b"]).back().register("x", 7, Filter::manifold());
    assert_eq!(order(&fold), named(&[("a", 0), ("b", 1), ("x", 7)]));
    let fold = chain(&[]).front().register("x", 7, Filter::manifold());
    assert_eq!(order(&fold), named(&[("x", 7)]));
    let handle = chain(&["a"]).back();
    assert_eq!(handle.position, CursorPosition::After);
    assert_eq!(handle.hdx.phase, 0);
}

#[test]
fn a_phase_that_is_not_there_cannot_be_selected() {
    let fold = chain(&["a"]);
    let fold = match fold.try_select("b") {
        Ok(_) => panic!("found"),
        Err(fold) => fold,
    };
    let handle = fold.try_select("a").ok().unwrap();
    assert_eq!(handle.phase, 0);
}

#[test]
fn the_initial_shared_memory_can_be_filled() {
    let mut fold = chain(&[]);
    fold.share_map().insert(fold::share_map::ShareMapKey::<usize>::new("n"), 3);
    assert_eq!(fold.initial_share_map.get(fold::share_map::ShareMapKey::<usize>::new("n")), Some(&3));
}

#[test]
fn the_default_chain_has_the_phases_of_a_system_v_linker() {
    let fold = Fold::default_chain(env(&["/bin/dir/prog", "arg"]), "fold").unwrap();
    let names: Vec<&str> = fold.phases.iter().map(|p| p.name.as_str()).collect();
    assert_eq!(
        names,
        vec![
            "collect", "load", "musl-locator", "tls-collector", "tls-allocator", "tls-relocator",
            "relocation", "protect", "start"
        ]
    );
    let modules: Vec<&str> = fold.phases.iter().map(|p| p.module.name()).collect();
    assert_eq!(
        modules,
        vec![
            "sysv-remapping-collector", "sysv-loader", "musl-locator", "tls-collector",
            "tls-allocator", "tls-relocation", "sysv-reloc-lib", "sysv-protect", "sysv-start"
        ]
    );
    assert!(matches!(fold.phases[0].module, SysvModule::RemappingCollector(_)));
    assert_eq!(fold.phases[0].filter.items, vec![ItemFilter::Section(Some(section(6)), ObjectFilter::any())]);
    assert_eq!(fold.phases[1].filter.items, vec![ItemFilter::Segment(Some(segment(1)), ObjectFilter::any())]);
    assert_eq!(fold.phases[2].filter.items, vec![ItemFilter::Manifold]);
    assert_eq!(fold.phases[5].filter.items, vec![ItemFilter::Section(Some(section(4)), ObjectFilter::any())]);
    assert_eq!(fold.phases[8].filter.items, vec![ItemFilter::Object(ObjectFilter::any())]);
    let paths = fold.initial_share_map.get(search_paths_key()).unwrap();
    let want: Vec<Vec<u8>> = ["/bin/dir", "musl/lib", "/lib", "/lib64", "/usr/lib/"].iter().map(|p| p.as_bytes().to_vec()).collect();
    assert_eq!(paths, &want);
    let map = fold.initial_share_map.get(remap_key()).unwrap();
    assert_eq!(map.len(), 10);
    assert_eq!(map[0].prefix, b"libc.so".to_vec());
    assert_eq!(map[0].target, Some(b"libc.so".to_vec()));
    let dropped: Vec<&[u8]> = map[1..].iter().map(|e| e.prefix.as_slice()).collect();
    assert_eq!(
        dropped,
        vec![
            &b"ld-linux-x86-64.so"[..], b"libcrypt.so", b"libdl.so", b"libm.so", b"libpthread.so",
            b"libresolv.so", b"librt.so", b"libutil.so", b"libxnet.so"
        ]
    );
    assert!(map[1..].iter().all(|e| e.target.is_none()));
    assert_eq!(fold.config.target, b"/bin/dir/prog".to_vec());
}

#[test]
fn the_default_chain_needs_a_program() {
    assert!(Fold::default_chain(env(&[]), "fold").is_none());
    assert!(Fold::default_chain(env(&["/lib/fold"]), "fold").is_none());
    let fold = Fold::default_chain(env(&["/lib/fold", "prog"]), "fold").unwrap();
    assert_eq!(fold.config.target, b"prog".to_vec());
    assert_eq!(fold.initial_share_map.get(search_paths_key()).unwrap()[0], b".".to_vec());
}

#[test]
fn the_directory_of_a_path_ends_before_the_last_slash() {
    assert_eq!(directory(b"/a/b/c"), b"/a/b".to_vec());
    assert_eq!(directory(b"a/b"), b"a".to_vec());
    assert_eq!(directory(b"prog"), b".".to_vec());
    assert_eq!(directory(b"/prog"), b"".to_vec());
    assert_eq!(directory(b"a/"), b"a".to_vec());
    assert_eq!(directory(b""), b".".to_vec());
}

#[test]
fn a_run_starts_with_the_program_as_the_first_object() {
    let mut fold: Fold<Recorder> = Fold::new(env(&["prog"]), "fold").unwrap();
    fold = fold.register("see", Recorder::new(), Filter::any_object().or(Filter::manifold()));
    fold.share_map().insert(fold::share_map::ShareMapKey::<usize>::new("seed"), 5);
    let manifold = fold.run(Mapping::new(image(0x40, &[], &[null_section()]))).ok().unwrap();
    assert_eq!(manifold.objects.len(), 1);
    assert_eq!(manifold.object(Handle::new(0)).path, b"prog".to_vec());
    assert_eq!(manifold.shared.get(fold::driver::initial_elf_key()).map(|h| h.idx()), Some(0));
    assert_eq!(manifold.shared.get(fold::share_map::ShareMapKey::<usize>::new("seed")), Some(&5));
    assert_eq!(manifold.env.args[0].bytes, b"prog".to_vec());
}

#[test]
fn a_run_on_a_file_that_is_no_object_runs_no_phase() {
    let mut fold: Fold<Recorder> = Fold::new(env(&["prog"]), "fold").unwrap();
    fold = fold.register("see", Recorder::new(), Filter::manifold());
    assert!(matches!(
        fold.run(Mapping::new(b"#!/bin/sh".to_vec())),
        Err(RunError::Target(FoldError::OutOfBounds))
    ));
    let mut fold: Fold<Recorder> = Fold::new(env(&["prog"]), "fold").unwrap();
    let mut recorder = Recorder::new();
    recorder.fail_on = Some("manifold");
    fold = fold.register("see", recorder, Filter::manifold());
    assert!(matches!(fold.run(Mapping::new(image(0, &[], &[]))), Err(RunError::Phase(_))));
}

// ————————————————————————————— Command line ———————————————————————————————— //
#[test]
fn the_program_is_the_first_argument_that_is_not_the_loader() {
    let e = env(&["./hello", "x"]);
    assert_eq!(find_target(&e.args, b"fold"), Some(0));
    let e = env(&["/lib/fold", "./hello", "x"]);
    assert_eq!(find_target(&e.args, b"fold"), Some(1));
    let e = env(&["fold"]);
    assert_eq!(find_target(&e.args, b"fold"), None);
    let e = env(&[]);
    assert_eq!(find_target(&e.args, b"fold"), None);
    // Shorter than the name of the loader.
    let e = env(&["ld"]);
    assert_eq!(find_target(&e.args, b"fold"), Some(0));
    // Only the end of the argument counts.
    let e = env(&["scaffold", "target"]);
    assert_eq!(find_target(&e.args, b"fold"), Some(1));
    let e = env(&["folder"]);
    assert_eq!(find_target(&e.args, b"fold"), Some(0));
}

#[test]
fn parsing_gives_the_target_and_keeps_the_context() {
    let mut e = env(&["/lib/fold", "prog", "arg"]);
    e.envp = vec![EnvString { addr: 9, bytes: b"NAME=test".to_vec() }];
    let config: Config = parse(e, b"fold").unwrap();
    assert_eq!(config.target, b"prog".to_vec());
    assert_eq!(config.env.args.len(), 3);
    assert_eq!(config.env.envp[0].bytes, b"NAME=test".to_vec());
    assert!(parse(env(&["fold"]), b"fold").is_none());
    assert!(usage().contains("Usage: spidl <target> [args]"));
}

#[test]
fn exit_codes() {
    assert_eq!(Exit::Success.code(), 0);
    assert_eq!(Exit::Error.code(), 1);
    assert_eq!(Exit::error(), Exit::Error);
}

#[test]
fn the_auxiliary_vector_ends_at_the_first_null_entry() {
    let raw = [
        Auxv { typ: AuxvType(3), value: 0x400040 },
        Auxv { typ: AuxvType(5), value: 9 },
        Auxv { typ: AuxvType(0), value: 0 },
        Auxv { typ: AuxvType(9), value: 0x401000 },
    ];
    let e = Env::from_parts(Vec::new(), Vec::new(), &raw, 0x7ffc_0000, 0x7ffc_0010);
    assert_eq!(e.auxv, raw[..2].to_vec());
    assert_eq!(e.raw_argv, 0x7ffc_0000);
    assert_eq!(e.raw_envp, 0x7ffc_0010);
    let e = Env::from_parts(Vec::new(), Vec::new(), &raw[..2], 0, 0);
    assert_eq!(e.auxv.len(), 2);
    let e = Env::from_parts(Vec::new(), Vec::new(), &raw[2..], 0, 0);
    assert!(e.auxv.is_empty());
    assert_eq!(AuxvType(3).name(), "PHDR");
    assert_eq!(AuxvType(5).name(), "PHNUM");
    assert_eq!(AuxvType(7).name(), "BASE");
    assert_eq!(AuxvType(9).name(), "ENTRY");
    assert_eq!(AuxvType(0).name(), "NULL");
    assert_eq!(AuxvType(4).name(), "<unknown>");
    assert_eq!(fold::env::AT_ENTRY, 9);
}

#[test]
fn search_paths_are_added_in_order() {
    let fold = chain(&[]).search_path(b"./musl/lib/").search_path(b"/lib");
    assert_eq!(
        fold.initial_share_map.get(search_paths_key()),
        Some(&vec![b"./musl/lib/".to_vec(), b"/lib".to_vec()])
    );
    let fold = Fold::default_chain(env(&["./prog"]), "fold").unwrap().search_path(b"/opt/lib");
    let paths = fold.initial_share_map.get(search_paths_key()).unwrap();
    assert_eq!(paths.len(), 6);
    assert_eq!(paths[0], b".".to_vec());
    assert_eq!(paths[5], b"/opt/lib".to_vec());
    let mut manifold = empty_manifold();
    manifold.add_search_paths(vec![b"/a".to_vec(), b"/b".to_vec()]);
    manifold.add_search_paths(vec![b"/c".to_vec()]);
    manifold.add_search_paths(Vec::new());
    assert_eq!(
        manifold.shared.get(search_paths_key()),
        Some(&vec![b"/a".to_vec(), b"/b".to_vec(), b"/c".to_vec()])
    );
}
