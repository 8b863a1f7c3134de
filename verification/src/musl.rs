//! What the linker must know of the musl C library.

use crate::arena::Handle;
use crate::bytes::{ends_with, is_suffix, u32_at, u64_at};
use crate::elf::{word32, word64};
use crate::manifold::{lemma_wf_ignores_shared, resolve, Manifold};
use crate::module::{Module, ModuleError};
use crate::object::{Lookup, Object, Segment};
use crate::share_map::ShareMapKey;
use crate::sysv::loader::{address_sum, wrapping_sum};
use crate::sysv::relocation::RelocAction;
use crate::sysv::tls::allocation::TlsLayout;
use vstd::prelude::*;

verus! {

/// Size in the library's memory of its `__libc` variable.
pub const LIBC_SIZE: usize = 104;

/// The locale of the C library.
#[derive(Debug, Clone, Copy, PartialEq, Eq)]
pub struct Locale {
    pub cat: [usize; 6],
}

/// The `__libc` variable of the C library: what the library knows of the process.
#[derive(Debug, Clone, Copy, PartialEq, Eq)]
pub struct Libc {
    pub can_do_threads: u8,
    pub threaded: u8,
    pub secure: u8,
    pub need_locks: i8,
    pub trheads_minus_1: u32,
    pub auxv: usize,
    pub tls_head: usize,
    pub tls_size: usize,
    pub tls_align: usize,
    pub tls_cnt: usize,
    pub page_size: usize,
    pub global_locale: Locale,
}

/// Offset in `__libc` of `tls_head`.
pub const LIBC_TLS_HEAD: usize = 16;

/// Offset in `__libc` of `tls_size`.
pub const LIBC_TLS_SIZE: usize = 24;

/// Offset in `__libc` of `tls_align`.
pub const LIBC_TLS_ALIGN: usize = 32;

/// Offset in `__libc` of `tls_cnt`.
pub const LIBC_TLS_CNT: usize = 40;

/// Offset in `__libc` of `global_locale`.
pub const LIBC_GLOBAL_LOCALE: usize = 56;

/// The address of the global locale of a C library whose `__libc` lies at `libc`.
pub fn locale_addr(libc: usize) -> (a: usize)
    ensures
        a == crate::sysv::loader::wrapping_sum(libc as int, LIBC_GLOBAL_LOCALE as int),
{
    crate::sysv::loader::address_sum(libc, LIBC_GLOBAL_LOCALE)
}

impl Libc {
    /// The variable that the 104 bytes of `raw` from `at` on hold.
    pub open spec fn decode_at(raw: Seq<u8>, at: int) -> Libc {
        Libc {
            can_do_threads: raw[at],
            threaded: raw[at + 1],
            secure: raw[at + 2],
            need_locks: (if raw[at + 3] >= 128 {
                raw[at + 3] - 256
            } else {
                raw[at + 3] as int
            }) as i8,
            trheads_minus_1: word32(raw, at + 4),
            auxv: word64(raw, at + 8) as usize,
            tls_head: word64(raw, at + 16) as usize,
            tls_size: word64(raw, at + 24) as usize,
            tls_align: word64(raw, at + 32) as usize,
            tls_cnt: word64(raw, at + 40) as usize,
            page_size: word64(raw, at + 48) as usize,
            global_locale: Locale {
                cat: [
                    word64(raw, at + 56) as usize,
                    word64(raw, at + 64) as usize,
                    word64(raw, at + 72) as usize,
                    word64(raw, at + 80) as usize,
                    word64(raw, at + 88) as usize,
                    word64(raw, at + 96) as usize,
                ],
            },
        }
    }

    /// Reads the variable at `at` in `raw`, where its 104 bytes are there.
    pub fn parse_at(raw: &[u8], at: usize) -> (r: Option<Libc>)
        ensures
            r == if at + 104 <= raw@.len() {
                Some(Libc::decode_at(raw@, at as int))
            } else {
                None
            },
    {
        if raw.len() < LIBC_SIZE || at > raw.len() - LIBC_SIZE {
            return None;
        }
        let b = raw[at + 3];
        let need_locks: i8 = if b >= 128 {
            ((b - 128) as i8) + i8::MIN
        } else {
            b as i8
        };
        Some(
            Libc {
                can_do_threads: raw[at],
                threaded: raw[at + 1],
                secure: raw[at + 2],
                need_locks,
                trheads_minus_1: u32_at(raw, at + 4),
                auxv: u64_at(raw, at + 8) as usize,
                tls_head: u64_at(raw, at + 16) as usize,
                tls_size: u64_at(raw, at + 24) as usize,
                tls_align: u64_at(raw, at + 32) as usize,
                tls_cnt: u64_at(raw, at + 40) as usize,
                page_size: u64_at(raw, at + 48) as usize,
                global_locale: Locale {
                    cat: [
                        u64_at(raw, at + 56) as usize,
                        u64_at(raw, at + 64) as usize,
                        u64_at(raw, at + 72) as usize,
                        u64_at(raw, at + 80) as usize,
                        u64_at(raw, at + 88) as usize,
                        u64_at(raw, at + 96) as usize,
                    ],
                },
            },
        )
    }
}

/// The head of the list of robust locks of a thread.
#[derive(Debug, Clone, Copy, PartialEq, Eq)]
pub struct RobustList {
    pub head: usize,
    pub off: u64,
    pub pending: usize,
}

/// Size in memory of a thread control block.
pub const TCB_SIZE: usize = 200;

/// Offset in a thread control block of the head of its list of robust locks.
pub const TCB_ROBUST_LIST: usize = 136;

/// The thread control block of the C library: what the library knows of a thread. The FS
/// register points to it. Addresses are held as numbers.
#[derive(Debug, Clone, Copy, PartialEq, Eq)]
pub struct ThreadControlBlock {
    pub tcb: usize,
    pub dtv: usize,
    pub prev: usize,
    pub next: usize,
    pub sysinfo: usize,
    pub stack_guard: u64,
    pub tid: u32,
    pub errno: u32,
    pub detach_state: u32,
    pub cancel: u32,
    pub cancel_disable: u8,
    pub cancel_async: u8,
    pub flags: u8,
    pub map_base: usize,
    pub map_size: usize,
    pub stack: usize,
    pub stack_size: usize,
    pub guard_size: usize,
    pub result: usize,
    pub cancel_buf: usize,
    pub tsd: usize,
    pub robust_list: RobustList,
    pub h_errno: u32,
    pub timer_id: u32,
    pub locale: usize,
    pub kill_lock: u32,
    pub dlerror_buf: usize,
    pub stdio_locks: usize,
}

/// The value that guards the stack. It is the same in every run.
pub const STACK_GUARD: u64 = 0xDEADBEEF;

/// The state of a thread that can be joined.
pub const DT_JOINABLE: u32 = 2;

impl ThreadControlBlock {
    /// The control block of the initial thread, for a block at `tcb`, a dynamic thread vector
    /// at `dtv`, the thread id `tid` and the locale at `locale`.
    ///
    /// The block points to itself, and so do its neighbours in the list of threads, which
    /// holds this thread alone. The head of the list of robust locks points to itself. The
    /// thread can be joined. Everything else is 0.
    pub open spec fn spec_initial(tcb: usize, dtv: usize, tid: u32, locale: usize) -> ThreadControlBlock {
        ThreadControlBlock {
            tcb,
            dtv,
            prev: tcb,
            next: tcb,
            sysinfo: 0,
            stack_guard: STACK_GUARD,
            tid,
            errno: 0,
            detach_state: DT_JOINABLE,
            cancel: 0,
            cancel_disable: 0,
            cancel_async: 0,
            flags: 0,
            map_base: 0,
            map_size: 0,
            stack: 0,
            stack_size: 0,
            guard_size: 0,
            result: 0,
            cancel_buf: 0,
            tsd: 0,
            robust_list: RobustList { head: wrapping_sum(tcb as int, 136), off: 0, pending: 0 },
            h_errno: 0,
            timer_id: 0,
            locale,
            kill_lock: 0,
            dlerror_buf: 0,
            stdio_locks: 0,
        }
    }

    /// Builds the control block of the initial thread.
    pub fn initial(tcb: usize, dtv: usize, tid: u32, locale: usize) -> (t: ThreadControlBlock)
        ensures
            t == Self::spec_initial(tcb, dtv, tid, locale),
    {
        ThreadControlBlock {
            tcb,
            dtv,
            prev: tcb,
            next: tcb,
            sysinfo: 0,
            stack_guard: STACK_GUARD,
            tid,
            errno: 0,
            detach_state: DT_JOINABLE,
            cancel: 0,
            cancel_disable: 0,
            cancel_async: 0,
            flags: 0,
            map_base: 0,
            map_size: 0,
            stack: 0,
            stack_size: 0,
            guard_size: 0,
            result: 0,
            cancel_buf: 0,
            tsd: 0,
            robust_list: RobustList { head: address_sum(tcb, TCB_ROBUST_LIST), off: 0, pending: 0 },
            h_errno: 0,
            timer_id: 0,
            locale,
            kill_lock: 0,
            dlerror_buf: 0,
            stdio_locks: 0,
        }
    }

    /// Word `k` of the control block as it lies in memory, of 25 words: the fields in order,
    /// each at the offset that its alignment gives it, shorter fields side by side, the first
    /// in the low bytes.
    pub open spec fn spec_word(self, k: int) -> u64 {
        if k == 0 {
            self.tcb as u64
        } else if k == 1 {
            self.dtv as u64
        } else if k == 2 {
            self.prev as u64
        } else if k == 3 {
            self.next as u64
        } else if k == 4 {
            self.sysinfo as u64
        } else if k == 5 {
            self.stack_guard
        } else if k == 6 {
            (self.tid + 0x1_0000_0000 * self.errno) as u64
        } else if k == 7 {
            (self.detach_state + 0x1_0000_0000 * self.cancel) as u64
        } else if k == 8 {
            (self.cancel_disable + 0x100 * self.cancel_async + 0x1_0000 * self.flags) as u64
        } else if k == 9 {
            self.map_base as u64
        } else if k == 10 {
            self.map_size as u64
        } else if k == 11 {
            self.stack as u64
        } else if k == 12 {
            self.stack_size as u64
        } else if k == 13 {
            self.guard_size as u64
        } else if k == 14 {
            self.result as u64
        } else if k == 15 {
            self.cancel_buf as u64
        } else if k == 16 {
            self.tsd as u64
        } else if k == 17 {
            self.robust_list.head as u64
        } else if k == 18 {
            self.robust_list.off
        } else if k == 19 {
            self.robust_list.pending as u64
        } else if k == 20 {
            (self.h_errno + 0x1_0000_0000 * self.timer_id) as u64
        } else if k == 21 {
            self.locale as u64
        } else if k == 22 {
            self.kill_lock as u64
        } else if k == 23 {
            self.dlerror_buf as u64
        } else if k == 24 {
            self.stdio_locks as u64
        } else {
            0
        }
    }

    /// Word `k` of the control block as it lies in memory.
    pub fn word(&self, k: usize) -> (w: u64)
        ensures
            w == self.spec_word(k as int),
    {
        if k == 0 {
            self.tcb as u64
        } else if k == 1 {
            self.dtv as u64
        } else if k == 2 {
            self.prev as u64
        } else if k == 3 {
            self.next as u64
        } else if k == 4 {
            self.sysinfo as u64
        } else if k == 5 {
            self.stack_guard
        } else if k == 6 {
            self.tid as u64 + 0x1_0000_0000 * (self.errno as u64)
        } else if k == 7 {
            self.detach_state as u64 + 0x1_0000_0000 * (self.cancel as u64)
        } else if k == 8 {
            self.cancel_disable as u64 + 0x100 * (self.cancel_async as u64) + 0x1_0000 * (
            self.flags as u64)
        } else if k == 9 {
            self.map_base as u64
        } else if k == 10 {
            self.map_size as u64
        } else if k == 11 {
            self.stack as u64
        } else if k == 12 {
            self.stack_size as u64
        } else if k == 13 {
            self.guard_size as u64
        } else if k == 14 {
            self.result as u64
        } else if k == 15 {
            self.cancel_buf as u64
        } else if k == 16 {
            self.tsd as u64
        } else if k == 17 {
            self.robust_list.head as u64
        } else if k == 18 {
            self.robust_list.off
        } else if k == 19 {
            self.robust_list.pending as u64
        } else if k == 20 {
            self.h_errno as u64 + 0x1_0000_0000 * (self.timer_id as u64)
        } else if k == 21 {
            self.locale as u64
        } else if k == 22 {
            self.kill_lock as u64
        } else if k == 23 {
            self.dlerror_buf as u64
        } else if k == 24 {
            self.stdio_locks as u64
        } else {
            0
        }
    }
}

/// A module of thread-local storage as the C library knows it.
#[derive(Debug, Clone, Copy, PartialEq, Eq)]
pub struct MuslTlsModule {
    /// The segment whose content in the file is the initial image of the module.
    pub image: Handle<Segment>,
    /// Size of the initial image.
    pub len: usize,
    /// Size of the module in memory.
    pub size: usize,
    /// Alignment of the module.
    pub align: usize,
    /// Distance from the start of the module's data to the thread pointer.
    pub offset: usize,
}

/// Why a variable of the C library cannot be had.
#[derive(Debug, Clone, Copy, PartialEq, Eq, Structural)]
pub enum MuslLocatorError {
    /// No loaded segment of the library holds the variable.
    MutObjectNotFound,
    /// The bytes at the variable's place do not make up a value of its type.
    Conversion,
}

/// Where a variable of the C library lies: a range of virtual addresses of the library's
/// object.
#[derive(Debug, Clone, Copy, PartialEq, Eq)]
pub struct MuslObjectIdx {
    /// Virtual address of the variable's first byte.
    pub start: usize,
    /// Virtual address after the variable's last byte.
    pub end: usize,
    /// The object of the C library.
    pub musl_obj: Handle<Object>,
}

/// The key of the place of `__libc`.
pub open spec fn spec_musl_libc_key() -> ShareMapKey<MuslObjectIdx> {
    ShareMapKey::named("musl-libc")
}

/// The key of the place of `__libc`.
pub fn musl_libc_key() -> (k: ShareMapKey<MuslObjectIdx>)
    ensures
        k == spec_musl_libc_key(),
{
    ShareMapKey::new("musl-libc")
}

/// The key of the place of `__sysinfo`.
pub open spec fn spec_musl_sysinfo_key() -> ShareMapKey<MuslObjectIdx> {
    ShareMapKey::named("musl-sysinfo")
}

/// The key of the place of `__sysinfo`.
pub fn musl_sysinfo_key() -> (k: ShareMapKey<MuslObjectIdx>)
    ensures
        k == spec_musl_sysinfo_key(),
{
    ShareMapKey::new("musl-sysinfo")
}

/// Whether the segment `s` holds the range from `start` to `end`.
pub open spec fn holds_range(s: &Segment, start: usize, end: usize) -> bool {
    s.offset <= start && end <= s.offset + s.mem_size
}

/// The position at or after `from` of the first segment of `segments` that holds the range
/// from `start` to `end`, or the length of `segments`.
pub open spec fn holder_from(manifold: &Manifold, segments: Seq<Handle<Segment>>, start: usize, end: usize, from: int) -> int
    decreases segments.len() - from,
{
    if from < 0 || from >= segments.len() {
        segments.len() as int
    } else if holds_range(&manifold.segments@[segments[from].index() as int], start, end) {
        from
    } else {
        holder_from(manifold, segments, start, end, from + 1)
    }
}

impl MuslObjectIdx {
    /// The address of the variable in memory: the address of the loaded image of the first
    /// segment of the library that holds the variable's range, plus the distance of the range
    /// from the start of the segment. Fails where no segment holds the range, and where the
    /// segment that does is not loaded.
    pub open spec fn spec_address(&self, manifold: &Manifold) -> Result<usize, MuslLocatorError> {
        let obj = manifold.objects@[self.musl_obj.index() as int];
        let at = holder_from(manifold, obj.segments@, self.start, self.end, 0);
        if at >= obj.segments@.len() {
            Err(MuslLocatorError::MutObjectNotFound)
        } else {
            let s = manifold.segments@[obj.segments@[at].index() as int];
            match s.loaded_mapping {
                None => Err(MuslLocatorError::MutObjectNotFound),
                Some(m) => Ok(wrapping_sum(m.spec_addr() as int, self.start - s.offset)),
            }
        }
    }

    /// The address of the variable in memory.
    pub fn address(&self, manifold: &Manifold) -> (r: Result<usize, MuslLocatorError>)
        requires
            manifold.wf(),
            manifold.objects.contains(self.musl_obj),
        ensures
            r == self.spec_address(manifold),
    {
        let obj = manifold.objects.index(self.musl_obj);
        assert(manifold.object_consistent(self.musl_obj.index() as int));
        let mut k: usize = 0;
        while k < obj.segments.len()
            invariant
                k <= obj.segments@.len(),
                manifold.object_consistent(self.musl_obj.index() as int),
                *obj == manifold.objects@[self.musl_obj.index() as int],
                holder_from(manifold, obj.segments@, self.start, self.end, 0) == holder_from(
                    manifold,
                    obj.segments@,
                    self.start,
                    self.end,
                    k as int,
                ),
            decreases obj.segments@.len() - k,
        {
            let h = obj.segments[k];
            assert(manifold.segments.contains(h));
            let s = manifold.segments.index(h);
            // A segment whose end lies beyond every address holds every range that starts in
            // it.
            let holds = s.offset <= self.start && (s.mem_size > usize::MAX - s.offset || self.end
                <= s.offset + s.mem_size);
            if holds {
                return match &s.loaded_mapping {
                    None => Err(MuslLocatorError::MutObjectNotFound),
                    Some(m) => Ok(address_sum(m.addr(), self.start - s.offset)),
                };
            }
            k = k + 1;
        }
        Err(MuslLocatorError::MutObjectNotFound)
    }

    /// The value of `__libc` as the library's file holds it, where this place is that of
    /// `__libc`. Fails where the file does not hold 104 bytes at the place.
    pub fn get(&self, manifold: &Manifold) -> (r: Result<Libc, MuslLocatorError>)
        requires
            manifold.objects.contains(self.musl_obj),
        ensures
            r == if self.end - self.start == 104 && self.end
                <= manifold.objects@[self.musl_obj.index() as int].mapping@.len() {
                Ok::<Libc, MuslLocatorError>(
                    Libc::decode_at(
                        manifold.objects@[self.musl_obj.index() as int].mapping@,
                        self.start as int,
                    ),
                )
            } else {
                Err(MuslLocatorError::Conversion)
            },
    {
        let raw = manifold.objects.index(self.musl_obj).raw();
        if self.end < self.start || self.end - self.start != LIBC_SIZE || self.end > raw.len() {
            return Err(MuslLocatorError::Conversion);
        }
        match Libc::parse_at(raw, self.start) {
            Some(libc) => Ok(libc),
            None => Err(MuslLocatorError::Conversion),
        }
    }
}

/// What must be written to the `__libc` variable at `libc` so that the library finds the
/// thread-local storage that the linker set up: that threads can be made, the head of the list
/// of modules, the size and the alignment of the block, and that there is one module.
pub fn tls_fields(libc: usize, layout: &TlsLayout, tls_head: usize) -> (writes: Vec<RelocAction>)
    ensures
        writes@ == seq![
            RelocAction::Write { addr: libc, value: 1, width: 1 },
            RelocAction::Write { addr: wrapping_sum(libc as int, 40), value: 1, width: 8 },
            RelocAction::Write {
                addr: wrapping_sum(libc as int, 24),
                value: layout.size as u64,
                width: 8,
            },
            RelocAction::Write {
                addr: wrapping_sum(libc as int, 32),
                value: layout.align as u64,
                width: 8,
            },
            RelocAction::Write {
                addr: wrapping_sum(libc as int, 16),
                value: tls_head as u64,
                width: 8,
            },
        ],
{
    let mut writes: Vec<RelocAction> = Vec::new();
    writes.push(RelocAction::Write { addr: libc, value: 1, width: 1 });
    writes.push(
        RelocAction::Write { addr: address_sum(libc, LIBC_TLS_CNT), value: 1, width: 8 },
    );
    writes.push(
        RelocAction::Write {
            addr: address_sum(libc, LIBC_TLS_SIZE),
            value: layout.size as u64,
            width: 8,
        },
    );
    writes.push(
        RelocAction::Write {
            addr: address_sum(libc, LIBC_TLS_ALIGN),
            value: layout.align as u64,
            width: 8,
        },
    );
    writes.push(
        RelocAction::Write {
            addr: address_sum(libc, LIBC_TLS_HEAD),
            value: tls_head as u64,
            width: 8,
        },
    );
    writes
}

/// The position at or after `from` of the first object of `manifold` whose path ends with
/// `libc.so`, or the number of objects.
pub open spec fn libc_from(manifold: &Manifold, from: int) -> int
    decreases manifold.objects@.len() - from,
{
    if from < 0 || from >= manifold.objects@.len() {
        manifold.objects@.len() as int
    } else if is_suffix(libc_name(), manifold.objects@[from].path@) {
        from
    } else {
        libc_from(manifold, from + 1)
    }
}

/// The bytes of `libc.so`.
pub open spec fn libc_name() -> Seq<u8> {
    seq![0x6Cu8, 0x69u8, 0x62u8, 0x63u8, 0x2Eu8, 0x73u8, 0x6Fu8]
}

/// The bytes of `__libc`.
pub open spec fn libc_symbol() -> Seq<u8> {
    seq![0x5Fu8, 0x5Fu8, 0x6Cu8, 0x69u8, 0x62u8, 0x63u8]
}

/// The bytes of `__sysinfo`.
pub open spec fn sysinfo_symbol() -> Seq<u8> {
    seq![0x5Fu8, 0x5Fu8, 0x73u8, 0x79u8, 0x73u8, 0x69u8, 0x6Eu8, 0x66u8, 0x6Fu8]
}

/// Where the symbol `name` lies as the object `obj` sees it, if it is defined: from its value
/// to its value plus its size.
pub open spec fn spec_place(manifold: &Manifold, obj: Handle<Object>, name: Seq<u8>) -> Option<MuslObjectIdx> {
    match resolve(manifold, name, obj) {
        Lookup::Found(_, sym) => Some(
            MuslObjectIdx {
                start: sym.st_value as usize,
                end: ((sym.st_value + sym.st_size) % 0x1_0000_0000_0000_0000) as usize,
                musl_obj: obj,
            },
        ),
        _ => None,
    }
}

/// Whether `after` is `before` with the variables of the C library located: nothing but the
/// shared memory of the manifold has changed; without a C library it has not changed either;
/// else the places of `__libc` and `__sysinfo`, as the first object whose path ends with
/// `libc.so` sees them, are stored under their keys, and a variable that is not defined leaves
/// what its key held.
pub open spec fn located(before: &Manifold, after: &Manifold) -> bool {
    &&& after.objects == before.objects
    &&& after.sections == before.sections
    &&& after.segments == before.segments
    &&& after.env == before.env
    &&& libc_from(before, 0) >= before.objects@.len() ==> after.shared == before.shared
    &&& libc_from(before, 0) < before.objects@.len() ==> {
        let obj = Handle::<Object>::at(libc_from(before, 0) as nat);
        let libc = spec_place(before, obj, libc_symbol());
        let sysinfo = spec_place(before, obj, sysinfo_symbol());
        &&& libc.is_some() ==> after.shared.spec_get(spec_musl_libc_key()) == libc
        &&& libc.is_none() ==> after.shared.lookup(spec_musl_libc_key().name())
            == before.shared.lookup(spec_musl_libc_key().name())
        &&& sysinfo.is_some() ==> after.shared.spec_get(spec_musl_sysinfo_key()) == sysinfo
        &&& sysinfo.is_none() ==> after.shared.lookup(spec_musl_sysinfo_key().name())
            == before.shared.lookup(spec_musl_sysinfo_key().name())
    }
}

/// Locator of the variables of the musl C library.
#[derive(Debug)]
pub struct MuslLocator {}

impl MuslLocator {
    pub fn new() -> Self {
        Self {  }
    }

    /// The first object whose path ends with `libc.so`.
    pub fn find_libc(manifold: &Manifold) -> (r: Option<Handle<Object>>)
        ensures
            match r {
                Some(h) => h.index() == libc_from(manifold, 0) && manifold.objects.contains(h)
                    && h == Handle::<Object>::at(libc_from(manifold, 0) as nat),
                None => libc_from(manifold, 0) >= manifold.objects@.len(),
            },
    {
        let name: [u8; 7] = [0x6C, 0x69, 0x62, 0x63, 0x2E, 0x73, 0x6F];
        assert(name@ =~= libc_name());
        let mut it = manifold.objects.enumerate();
        loop
            invariant
                it.arena() == &manifold.objects,
                it.position() <= manifold.objects@.len(),
                name@ == libc_name(),
                libc_from(manifold, 0) == libc_from(manifold, it.position() as int),
            decreases manifold.objects@.len() - it.position(),
        {
            match it.next() {
                None => {
                    return None;
                },
                Some((h, obj)) => {
                    if ends_with(obj.path.as_slice(), name.as_slice()) {
                        return Some(h);
                    }
                },
            }
        }
    }

    /// Where the symbol `name` lies as the object `obj` sees it, if it is defined.
    pub fn place(manifold: &Manifold, obj: Handle<Object>, name: &[u8]) -> (r: Option<MuslObjectIdx>)
        requires
            manifold.wf(),
            manifold.objects.contains(obj),
        ensures
            r == spec_place(manifold, obj, name@),
    {
        match manifold.find_symbol(name, obj) {
            Ok((_, sym)) => Some(
                MuslObjectIdx {
                    start: sym.st_value as usize,
                    end: crate::sysv::relocation::sum64(sym.st_value, sym.st_size) as usize,
                    musl_obj: obj,
                },
            ),
            Err(_) => None,
        }
    }

    /// Looks for the C library among the objects and records where its variables `__libc` and
    /// `__sysinfo` lie, under [`musl_libc_key`] and [`musl_sysinfo_key`] in the shared memory
    /// of the manifold. A variable that the library does not define is not recorded; without
    /// a C library nothing is.
    pub fn locate(&mut self, manifold: &mut Manifold)
        requires
            old(manifold).wf(),
        ensures
            final(manifold).wf(),
            located(old(manifold), final(manifold)),
    {
        let obj = match Self::find_libc(manifold) {
            None => {
                return ;
            },
            Some(h) => h,
        };
        proof {
            reveal_strlit("musl-libc");
            reveal_strlit("musl-sysinfo");
            crate::share_map::lemma_names_differ::<MuslObjectIdx, MuslObjectIdx>(
                "musl-libc",
                "musl-sysinfo",
            );
        }
        let libc_name: [u8; 6] = [0x5F, 0x5F, 0x6C, 0x69, 0x62, 0x63];
        let sysinfo_name: [u8; 9] = [0x5F, 0x5F, 0x73, 0x79, 0x73, 0x69, 0x6E, 0x66, 0x6F];
        assert(libc_name@ =~= libc_symbol());
        assert(sysinfo_name@ =~= sysinfo_symbol());
        let libc = Self::place(manifold, obj, libc_name.as_slice());
        let sysinfo = Self::place(manifold, obj, sysinfo_name.as_slice());
        let ghost before = *manifold;
        match libc {
            Some(place) => {
                manifold.shared.insert(musl_libc_key(), place);
            },
            None => {},
        }
        match sysinfo {
            Some(place) => {
                manifold.shared.insert(musl_sysinfo_key(), place);
            },
            None => {},
        }
        proof {
            lemma_wf_ignores_shared(before, *manifold);
        }
    }
}

impl Module for MuslLocator {
    fn name(&self) -> (n: &'static str)
        ensures
            n == "musl-locator",
    {
        "musl-locator"
    }

    fn process_manifold(&mut self, manifold: &mut Manifold) -> (r: Result<(), ModuleError>)
        ensures
            r.is_ok(),
            located(old(manifold), final(manifold)),
    {
        self.locate(manifold);
        Ok(())
    }
}

} // verus!
