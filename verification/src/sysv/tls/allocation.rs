//! Lays out and fills the block of thread-local storage of the initial thread.
//!
//! The block is one region of memory: the dynamic thread vector, padding, the data of the
//! modules, and the thread control block, in this order. The allocator computes the size of
//! the region, and, once the caller has mapped it, the bytes that it holds.

use crate::error::TlsError;
use crate::manifold::Manifold;
use crate::musl::{MuslTlsModule, ThreadControlBlock};
use crate::sysv::loader::wrapping_sum;
use crate::sysv::tls::collection::{next_multiple, round_up, TlsModule};
use vstd::prelude::*;

verus! {

/// Size of a word of the dynamic thread vector.
pub const WORD: usize = 8;

/// Size of the thread control block.
pub const TCB_SIZE: usize = crate::musl::TCB_SIZE;

/// Alignment of the thread control block.
pub const TCB_ALIGN: usize = 8;

/// The sizes of the parts of the block of thread-local storage.
#[derive(Debug, Clone, Copy, PartialEq, Eq, Structural)]
pub struct TlsLayout {
    /// Number of modules.
    pub count: usize,
    /// Size of the dynamic thread vector: one word for the number of modules and one for each
    /// module.
    pub dtv_size: usize,
    /// Size of the padding that aligns the thread control block.
    pub pad: usize,
    /// Size of the data of the modules: the largest offset of a module.
    pub modules_size: usize,
    /// Size of the whole block.
    pub size: usize,
    /// Alignment of the thread control block: the largest alignment of a module, and at least
    /// that of the control block itself.
    pub align: usize,
}

impl TlsLayout {
    /// Offset in the block of the data of the modules.
    pub open spec fn data_start(self) -> int {
        self.dtv_size + self.pad
    }

    /// Offset in the block of the thread control block.
    pub open spec fn tcb_start(self) -> int {
        self.dtv_size + self.pad + self.modules_size
    }

    /// Whether the parts make up the block: a vector of one word more than there are modules,
    /// a thread control block behind the data, and nothing else.
    pub open spec fn wf(self) -> bool {
        &&& self.dtv_size == (self.count + 1) * 8
        &&& self.size == self.dtv_size + self.pad + self.modules_size + 200
    }
}

/// The largest alignment among the segments of `modules` from number `from` on, and at least
/// `floor`.
pub open spec fn max_align_from(manifold: &Manifold, modules: Seq<TlsModule>, from: int, floor: usize) -> usize
    decreases modules.len() - from,
{
    if from < 0 || from >= modules.len() {
        floor
    } else {
        let align = manifold.segments@[modules[from].segment.index() as int].align;
        max_align_from(
            manifold,
            modules,
            from + 1,
            if align > floor {
                align
            } else {
                floor
            },
        )
    }
}

/// The largest offset among `modules` from number `from` on, and at least `floor`.
pub open spec fn max_offset_from(modules: Seq<TlsModule>, from: int, floor: usize) -> usize
    decreases modules.len() - from,
{
    if from < 0 || from >= modules.len() {
        floor
    } else {
        max_offset_from(
            modules,
            from + 1,
            if modules[from].tls_offset > floor {
                modules[from].tls_offset
            } else {
                floor
            },
        )
    }
}

/// Why `modules` cannot be laid out, if they cannot. In this order: a module whose id is 0 or
/// larger than the number of modules, or whose segment the manifold does not hold
/// (`InvalidModuleId` with the id of the first such module); a module whose data does not fit
/// before the thread control block at its offset (`TooLarge`); a block whose size exceeds the
/// largest machine word (`TooLarge`).
pub open spec fn layout_defect(manifold: &Manifold, modules: Seq<TlsModule>) -> Option<TlsError> {
    let bad = bad_module_from(manifold, modules, 0);
    if bad < modules.len() {
        Some(TlsError::InvalidModuleId(modules[bad].id))
    } else if exists|j: int|
        0 <= j < modules.len() && manifold.segments@[(#[trigger] modules[j]).segment.index() as int].mem_size
            > modules[j].tls_offset {
        Some(TlsError::TooLarge)
    } else if spec_layout(manifold, modules).size_exact() > usize::MAX {
        Some(TlsError::TooLarge)
    } else {
        None
    }
}

/// The position at or after `from` of the first module of `modules` whose id is 0 or larger
/// than the number of modules, or whose segment the manifold does not hold.
pub open spec fn bad_module_from(manifold: &Manifold, modules: Seq<TlsModule>, from: int) -> int
    decreases modules.len() - from,
{
    if from < 0 || from >= modules.len() {
        modules.len() as int
    } else if modules[from].id == 0 || modules[from].id > modules.len()
        || !manifold.segments.contains(modules[from].segment) {
        from
    } else {
        bad_module_from(manifold, modules, from + 1)
    }
}

/// The sizes of a block before they are checked against the largest machine word.
pub struct ExactLayout {
    pub count: int,
    pub modules_size: int,
    pub align: int,
}

impl ExactLayout {
    pub open spec fn dtv_size(self) -> int {
        (self.count + 1) * 8
    }

    pub open spec fn pad(self) -> int {
        round_up(self.dtv_size() + self.modules_size, self.align) - (self.dtv_size()
            + self.modules_size)
    }

    pub open spec fn size_exact(self) -> int {
        self.dtv_size() + self.modules_size + self.pad() + 200
    }
}

/// The sizes of the block for `modules`.
pub open spec fn spec_layout(manifold: &Manifold, modules: Seq<TlsModule>) -> ExactLayout {
    ExactLayout {
        count: modules.len() as int,
        modules_size: max_offset_from(modules, 0, 0) as int,
        align: max_align_from(manifold, modules, 0, TCB_ALIGN) as int,
    }
}

/// Whether `layout` holds the sizes of `exact`.
pub open spec fn layout_is(layout: TlsLayout, exact: ExactLayout) -> bool {
    &&& layout.count == exact.count
    &&& layout.dtv_size == exact.dtv_size()
    &&& layout.pad == exact.pad()
    &&& layout.modules_size == exact.modules_size
    &&& layout.size == exact.size_exact()
    &&& layout.align == exact.align
}

/// Allocator of the block of thread-local storage.
#[derive(Debug)]
pub struct TlsAllocator {}

/// What the block needs to be filled: where it lies, and what the thread control block says
/// of the thread.
#[derive(Debug, Clone, Copy, PartialEq, Eq, Structural)]
pub struct TlsPlace {
    /// Address of the block.
    pub addr: usize,
    /// Id of the thread, as the operating system gives it.
    pub tid: u32,
    /// Address of the global locale of the C library.
    pub locale: usize,
}

/// Byte `i` of the 64-bit word `value`, least significant byte first.
pub open spec fn le_byte(value: u64, i: int) -> u8 {
    if i == 0 {
        (value % 0x100) as u8
    } else if i == 1 {
        (value / 0x100 % 0x100) as u8
    } else if i == 2 {
        (value / 0x1_0000 % 0x100) as u8
    } else if i == 3 {
        (value / 0x100_0000 % 0x100) as u8
    } else if i == 4 {
        (value / 0x1_0000_0000 % 0x100) as u8
    } else if i == 5 {
        (value / 0x100_0000_0000 % 0x100) as u8
    } else if i == 6 {
        (value / 0x1_0000_0000_0000 % 0x100) as u8
    } else {
        (value / 0x100_0000_0000_0000 % 0x100) as u8
    }
}

/// Byte `i` of the 64-bit word `value`, least significant byte first.
pub fn byte_of(value: u64, i: usize) -> (b: u8)
    requires
        i < 8,
    ensures
        b == le_byte(value, i as int),
{
    if i == 0 {
        (value % 0x100) as u8
    } else if i == 1 {
        (value / 0x100 % 0x100) as u8
    } else if i == 2 {
        (value / 0x1_0000 % 0x100) as u8
    } else if i == 3 {
        (value / 0x100_0000 % 0x100) as u8
    } else if i == 4 {
        (value / 0x1_0000_0000 % 0x100) as u8
    } else if i == 5 {
        (value / 0x100_0000_0000 % 0x100) as u8
    } else if i == 6 {
        (value / 0x1_0000_0000_0000 % 0x100) as u8
    } else {
        (value / 0x100_0000_0000_0000 % 0x100) as u8
    }
}

/// The position at or after `from` of the first module of `modules` of id `id`, or the length
/// of `modules`.
pub open spec fn module_of_id_from(modules: Seq<TlsModule>, id: usize, from: int) -> int
    decreases modules.len() - from,
{
    if from < 0 || from >= modules.len() {
        modules.len() as int
    } else if modules[from].id == id {
        from
    } else {
        module_of_id_from(modules, id, from + 1)
    }
}

/// Address of the data of a module of offset `tls_offset`: as far before the thread control
/// block as the offset says.
pub open spec fn data_addr(layout: TlsLayout, addr: usize, tls_offset: usize) -> usize {
    wrapping_sum(addr as int, layout.tcb_start() - tls_offset)
}

/// Word `k` of the dynamic thread vector: the number of modules for `k == 0`; else the address
/// of the data of the first module of id `k`, and 0 where there is none.
pub open spec fn dtv_word(layout: TlsLayout, modules: Seq<TlsModule>, addr: usize, k: int) -> u64 {
    if k == 0 {
        layout.count as u64
    } else {
        let j = module_of_id_from(modules, k as usize, 0);
        if j < modules.len() {
            data_addr(layout, addr, modules[j].tls_offset) as u64
        } else {
            0
        }
    }
}

/// Whether byte `q` of the data of the modules belongs to module `m`.
pub open spec fn covers(manifold: &Manifold, layout: TlsLayout, m: TlsModule, q: int) -> bool {
    let start = layout.modules_size - m.tls_offset;
    start <= q < start + manifold.segments@[m.segment.index() as int].mem_size
}

/// The position at or after `from` of the first module of `modules` that byte `q` of the data
/// belongs to, or the length of `modules`.
pub open spec fn owner_from(manifold: &Manifold, layout: TlsLayout, modules: Seq<TlsModule>, q: int, from: int) -> int
    decreases modules.len() - from,
{
    if from < 0 || from >= modules.len() {
        modules.len() as int
    } else if covers(manifold, layout, modules[from], q) {
        from
    } else {
        owner_from(manifold, layout, modules, q, from + 1)
    }
}

/// Byte `q` of the data of the modules: the byte of the initial image of the first module that
/// it belongs to, where the image in the file reaches that far, and 0 else.
pub open spec fn data_byte(manifold: &Manifold, layout: TlsLayout, modules: Seq<TlsModule>, q: int) -> u8 {
    let j = owner_from(manifold, layout, modules, q, 0);
    if j < modules.len() {
        let m = modules[j];
        let file = manifold.segments@[m.segment.index() as int].mapping@;
        let at = q - (layout.modules_size - m.tls_offset);
        if 0 <= at < file.len() {
            file[at]
        } else {
            0
        }
    } else {
        0
    }
}

/// The thread control block of a block of layout `layout` at `place`: that of the initial
/// thread, behind the data of the modules, with the dynamic thread vector at the start of the
/// block.
pub open spec fn spec_tcb(layout: TlsLayout, place: TlsPlace) -> ThreadControlBlock {
    ThreadControlBlock::spec_initial(
        wrapping_sum(place.addr as int, layout.tcb_start()),
        place.addr,
        place.tid,
        place.locale,
    )
}

/// Word `k` of the thread control block.
pub open spec fn tcb_word(layout: TlsLayout, place: TlsPlace, k: int) -> u64 {
    spec_tcb(layout, place).spec_word(k)
}

/// Byte `p` of the block.
pub open spec fn block_byte(
    manifold: &Manifold,
    layout: TlsLayout,
    modules: Seq<TlsModule>,
    place: TlsPlace,
    p: int,
) -> u8 {
    if p < layout.dtv_size {
        le_byte(dtv_word(layout, modules, place.addr, p / 8), p % 8)
    } else if p < layout.data_start() {
        0
    } else if p < layout.tcb_start() {
        data_byte(manifold, layout, modules, p - layout.data_start())
    } else {
        le_byte(tcb_word(layout, place, (p - layout.tcb_start()) / 8), (p - layout.tcb_start()) % 8)
    }
}

/// The bytes of the block.
pub open spec fn spec_block(
    manifold: &Manifold,
    layout: TlsLayout,
    modules: Seq<TlsModule>,
    place: TlsPlace,
) -> Seq<u8> {
    Seq::new(layout.size as nat, |p: int| block_byte(manifold, layout, modules, place, p))
}

impl TlsAllocator {
    pub fn new() -> Self {
        Self {  }
    }

    /// Name of the module.
    pub fn name(&self) -> (n: &'static str)
        ensures
            n == "tls-allocator",
    {
        "tls-allocator"
    }

    /// Checks the modules and computes the sizes of the block for them.
    fn measure(modules: &[TlsModule], manifold: &Manifold) -> (r: Result<(usize, usize), TlsError>)
        ensures
            match r {
                Err(e) => layout_defect(manifold, modules@) == Some(e),
                Ok((size, align)) => {
                    &&& bad_module_from(manifold, modules@, 0) >= modules@.len()
                    &&& forall|j: int|
                        0 <= j < modules@.len() ==> manifold.segments@[(
                        #[trigger] modules@[j]).segment.index() as int].mem_size
                            <= modules@[j].tls_offset
                    &&& size == max_offset_from(modules@, 0, 0)
                    &&& align == max_align_from(manifold, modules@, 0, TCB_ALIGN)
                },
            },
    {
        let mut k: usize = 0;
        while k < modules.len()
            invariant
                k <= modules@.len(),
                bad_module_from(manifold, modules@, 0) == bad_module_from(
                    manifold,
                    modules@,
                    k as int,
                ),
            decreases modules@.len() - k,
        {
            let m = &modules[k];
            if m.id == 0 || m.id > modules.len() || manifold.segments.get(m.segment).is_none() {
                return Err(TlsError::InvalidModuleId(m.id));
            }
            k = k + 1;
        }
        let mut size: usize = 0;
        let mut align: usize = TCB_ALIGN;
        let mut k: usize = 0;
        while k < modules.len()
            invariant
                k <= modules@.len(),
                bad_module_from(manifold, modules@, 0) >= modules@.len(),
                forall|j: int|
                    0 <= j < k ==> manifold.segments@[(
                    #[trigger] modules@[j]).segment.index() as int].mem_size
                        <= modules@[j].tls_offset,
                max_offset_from(modules@, 0, 0) == max_offset_from(modules@, k as int, size),
                max_align_from(manifold, modules@, 0, TCB_ALIGN) == max_align_from(
                    manifold,
                    modules@,
                    k as int,
                    align,
                ),
            decreases modules@.len() - k,
        {
            let m = &modules[k];
            proof {
                lemma_no_bad_module(manifold, modules@, 0, k as int);
            }
            let segment = manifold.segments.index(m.segment);
            if segment.mem_size > m.tls_offset {
                return Err(TlsError::TooLarge);
            }
            if m.tls_offset > size {
                size = m.tls_offset;
            }
            if segment.align > align {
                align = segment.align;
            }
            k = k + 1;
        }
        Ok((size, align))
    }

    /// Computes the sizes of the block for `modules`.
    ///
    /// Fails as [`layout_defect`] says.
    pub fn layout(modules: &[TlsModule], manifold: &Manifold) -> (r: Result<TlsLayout, TlsError>)
        ensures
            match layout_defect(manifold, modules@) {
                Some(e) => r == Err::<TlsLayout, TlsError>(e),
                None => r matches Ok(layout) && layout_is(layout, spec_layout(manifold, modules@))
                    && layout.wf(),
            },
    {
        let (modules_size, align) = match Self::measure(modules, manifold) {
            Err(e) => {
                return Err(e);
            },
            Ok(pair) => pair,
        };
        let count = modules.len();
        let ghost exact = spec_layout(manifold, modules@);
        // (count + 1) words
        if count >= usize::MAX / 8 {
            proof {
                assert(exact.size_exact() > usize::MAX) by {
                    assert(exact.pad() >= 0) by {
                        lemma_round_up_bounds(exact.dtv_size() + exact.modules_size, exact.align);
                    }
                }
            }
            return Err(TlsError::TooLarge);
        }
        let dtv_size = (count + 1) * WORD;
        proof {
            lemma_round_up_bounds(exact.dtv_size() + exact.modules_size, exact.align);
        }
        if dtv_size > usize::MAX - modules_size {
            return Err(TlsError::TooLarge);
        }
        let used = dtv_size + modules_size;
        let rounded = match next_multiple(used, align) {
            None => {
                return Err(TlsError::TooLarge);
            },
            Some(r) => r,
        };
        let pad = rounded - used;
        if rounded > usize::MAX - TCB_SIZE {
            return Err(TlsError::TooLarge);
        }
        Ok(TlsLayout { count, dtv_size, pad, modules_size, size: rounded + TCB_SIZE, align })
    }

    /// Word `k` of the dynamic thread vector.
    fn dtv_slot(layout: &TlsLayout, modules: &[TlsModule], addr: usize, k: usize) -> (w: u64)
        requires
            layout.wf(),
        ensures
            w == dtv_word(*layout, modules@, addr, k as int),
    {
        if k == 0 {
            return layout.count as u64;
        }
        let mut j: usize = 0;
        while j < modules.len()
            invariant
                j <= modules@.len(),
                k != 0,
                layout.wf(),
                module_of_id_from(modules@, k, 0) == module_of_id_from(modules@, k, j as int),
            decreases modules@.len() - j,
        {
            if modules[j].id == k {
                return Self::data_address(layout, addr, modules[j].tls_offset) as u64;
            }
            j = j + 1;
        }
        0
    }

    /// Address of the data of a module of offset `tls_offset`.
    fn data_address(layout: &TlsLayout, addr: usize, tls_offset: usize) -> (a: usize)
        requires
            layout.wf(),
        ensures
            a == data_addr(*layout, addr, tls_offset),
    {
        let tcb = layout.dtv_size + layout.pad + layout.modules_size;
        let up = crate::sysv::loader::address_sum(addr, tcb);
        let down = if up >= tls_offset {
            up - tls_offset
        } else {
            usize::MAX - (tls_offset - up) + 1
        };
        proof {
            let m = usize::MAX + 1;
            let sum = addr as int + tcb as int;
            crate::sysv::loader::lemma_mod_near(sum, m);
            crate::sysv::loader::lemma_mod_near(sum - tls_offset, m);
        }
        down
    }

    /// Byte `q` of the data of the modules.
    fn data_at(manifold: &Manifold, layout: &TlsLayout, modules: &[TlsModule], q: usize) -> (b: u8)
        requires
            bad_module_from(manifold, modules@, 0) >= modules@.len(),
            forall|j: int| 0 <= j < modules@.len() ==> (#[trigger] modules@[j]).tls_offset
                <= layout.modules_size,
        ensures
            b == data_byte(manifold, *layout, modules@, q as int),
    {
        let mut j: usize = 0;
        while j < modules.len()
            invariant
                j <= modules@.len(),
                bad_module_from(manifold, modules@, 0) >= modules@.len(),
                forall|i: int| 0 <= i < modules@.len() ==> (#[trigger] modules@[i]).tls_offset
                    <= layout.modules_size,
                owner_from(manifold, *layout, modules@, q as int, 0) == owner_from(
                    manifold,
                    *layout,
                    modules@,
                    q as int,
                    j as int,
                ),
            decreases modules@.len() - j,
        {
            let m = &modules[j];
            proof {
                lemma_no_bad_module(manifold, modules@, 0, j as int);
            }
            let segment = manifold.segments.index(m.segment);
            let start = layout.modules_size - m.tls_offset;
            if start <= q && q - start < segment.mem_size {
                let at = q - start;
                let file = segment.mapping.bytes();
                return if at < file.len() {
                    file[at]
                } else {
                    0
                };
            }
            j = j + 1;
        }
        0
    }

    /// The address of the thread control block of a block of layout `layout` at `addr`: the
    /// thread pointer of the initial thread.
    pub fn tcb_addr(layout: &TlsLayout, addr: usize) -> (a: usize)
        requires
            layout.wf(),
        ensures
            a == wrapping_sum(addr as int, layout.tcb_start()),
    {
        let start = layout.dtv_size + layout.pad + layout.modules_size;
        crate::sysv::loader::address_sum(addr, start)
    }

    /// The thread control block of a block of layout `layout` at `place`.
    pub fn tcb(layout: &TlsLayout, place: &TlsPlace) -> (t: ThreadControlBlock)
        requires
            layout.wf(),
        ensures
            t == spec_tcb(*layout, *place),
    {
        ThreadControlBlock::initial(
            Self::tcb_addr(layout, place.addr),
            place.addr,
            place.tid,
            place.locale,
        )
    }

    /// The modules as the C library walks them, in the order of `modules`: each with the
    /// segment that holds its initial image, the sizes of the image and of the module, its
    /// alignment and its offset. `modules` must be modules that can be laid out.
    pub fn describe(modules: &[TlsModule], manifold: &Manifold) -> (list: Vec<MuslTlsModule>)
        requires
            bad_module_from(manifold, modules@, 0) >= modules@.len(),
        ensures
            list@.len() == modules@.len(),
            forall|j: int|
                0 <= j < modules@.len() ==> #[trigger] list@[j] == (MuslTlsModule {
                    image: modules@[j].segment,
                    len: manifold.segments@[modules@[j].segment.index() as int].file_size,
                    size: manifold.segments@[modules@[j].segment.index() as int].mem_size,
                    align: manifold.segments@[modules@[j].segment.index() as int].align,
                    offset: modules@[j].tls_offset,
                }),
    {
        let mut list: Vec<MuslTlsModule> = Vec::new();
        let mut k: usize = 0;
        while k < modules.len()
            invariant
                k <= modules@.len(),
                bad_module_from(manifold, modules@, 0) >= modules@.len(),
                list@.len() == k,
                forall|j: int|
                    0 <= j < k ==> #[trigger] list@[j] == (MuslTlsModule {
                        image: modules@[j].segment,
                        len: manifold.segments@[modules@[j].segment.index() as int].file_size,
                        size: manifold.segments@[modules@[j].segment.index() as int].mem_size,
                        align: manifold.segments@[modules@[j].segment.index() as int].align,
                        offset: modules@[j].tls_offset,
                    }),
            decreases modules@.len() - k,
        {
            let m = &modules[k];
            proof {
                lemma_no_bad_module(manifold, modules@, 0, k as int);
            }
            let segment = manifold.segments.index(m.segment);
            list.push(
                MuslTlsModule {
                    image: m.segment,
                    len: segment.file_size,
                    size: segment.mem_size,
                    align: segment.align,
                    offset: m.tls_offset,
                },
            );
            k = k + 1;
        }
        list
    }

    /// The bytes that the block of layout `layout` holds once it is mapped at `place.addr`:
    /// the dynamic thread vector, zeros, the data of the modules, and the thread control
    /// block. `layout` must be the layout of `modules`.
    pub fn build(
        layout: &TlsLayout,
        modules: &[TlsModule],
        manifold: &Manifold,
        place: &TlsPlace,
    ) -> (block: Vec<u8>)
        requires
            layout_defect(manifold, modules@).is_none(),
            layout_is(*layout, spec_layout(manifold, modules@)),
        ensures
            block@ == spec_block(manifold, *layout, modules@, *place),
            block@.len() == layout.size,
    {
        proof {
            lemma_offsets_bounded(modules@, 0, 0);
            lemma_round_up_bounds(
                spec_layout(manifold, modules@).dtv_size() + layout.modules_size,
                layout.align as int,
            );
        }
        let data_start = layout.dtv_size + layout.pad;
        let tcb_start = data_start + layout.modules_size;
        let tcb = Self::tcb(layout, place);
        let mut block: Vec<u8> = Vec::new();
        let mut p: usize = 0;
        while p < layout.size
            invariant
                p <= layout.size,
                layout.wf(),
                data_start == layout.data_start(),
                tcb_start == layout.tcb_start(),
                tcb == spec_tcb(*layout, *place),
                bad_module_from(manifold, modules@, 0) >= modules@.len(),
                forall|j: int| 0 <= j < modules@.len() ==> (#[trigger] modules@[j]).tls_offset
                    <= layout.modules_size,
                block@.len() == p,
                forall|i: int|
                    0 <= i < p ==> block@[i] == block_byte(manifold, *layout, modules@, *place, i),
            decreases layout.size - p,
        {
            let b = if p < layout.dtv_size {
                byte_of(Self::dtv_slot(layout, modules, place.addr, p / 8), p % 8)
            } else if p < data_start {
                0
            } else if p < tcb_start {
                Self::data_at(manifold, layout, modules, p - data_start)
            } else {
                byte_of(tcb.word((p - tcb_start) / 8), (p - tcb_start) % 8)
            };
            block.push(b);
            p = p + 1;
        }
        assert(block@ =~= spec_block(manifold, *layout, modules@, *place));
        block
    }
}

/// Rounding up gives a number that is not smaller.
pub proof fn lemma_round_up_bounds(x: int, align: int)
    requires
        x >= 0,
    ensures
        round_up(x, align) >= x,
        align > 0 ==> round_up(x, align) < x + align,
{
    if align > 0 {
        assert(0 <= x % align < align) by (nonlinear_arith)
            requires
                align > 0,
                x >= 0,
        ;
    }
}

/// Where no module is bad from `from` on, module `j` is not bad.
pub proof fn lemma_no_bad_module(manifold: &Manifold, modules: Seq<TlsModule>, from: int, j: int)
    requires
        0 <= from <= j < modules.len(),
        bad_module_from(manifold, modules, from) >= modules.len(),
    ensures
        modules[j].id != 0,
        modules[j].id <= modules.len(),
        manifold.segments.contains(modules[j].segment),
    decreases j - from,
{
    if from < j {
        lemma_no_bad_module(manifold, modules, from + 1, j);
    }
}

/// No module has a larger offset than the largest offset.
pub proof fn lemma_offsets_bounded(modules: Seq<TlsModule>, from: int, floor: usize)
    requires
        0 <= from,
    ensures
        max_offset_from(modules, from, floor) >= floor,
        forall|j: int|
            from <= j < modules.len() ==> (#[trigger] modules[j]).tls_offset <= max_offset_from(
                modules,
                from,
                floor,
            ),
    decreases modules.len() - from,
{
    if from < modules.len() {
        let next = if modules[from].tls_offset > floor {
            modules[from].tls_offset
        } else {
            floor
        };
        lemma_offsets_bounded(modules, from + 1, next);
    }
}

/// The position of the first module of an id is a module of that id.
pub proof fn lemma_module_of_id(modules: Seq<TlsModule>, id: usize, from: int, j: int)
    requires
        0 <= from <= j < modules.len(),
        modules[j].id == id,
    ensures
        from <= module_of_id_from(modules, id, from) <= j,
        modules[module_of_id_from(modules, id, from)].id == id,
    decreases j - from,
{
    if modules[from].id != id {
        lemma_module_of_id(modules, id, from + 1, j);
    }
}

/// The dynamic thread vector of a block for `N` modules has `N + 1` words. Word 0 holds `N`.
/// The word of a module's id holds the address of the module's data, which lies inside the
/// block; it is not 0 where the block does not lie at address 0. This holds of every module
/// where no two modules share an id and the block lies inside the address space.
pub proof fn lemma_dtv_slots(
    manifold: &Manifold,
    layout: TlsLayout,
    modules: Seq<TlsModule>,
    addr: usize,
    j: int,
)
    requires
        layout_defect(manifold, modules).is_none(),
        layout_is(layout, spec_layout(manifold, modules)),
        0 <= j < modules.len(),
        forall|a: int, b: int|
            0 <= a < b < modules.len() ==> (#[trigger] modules[a]).id != (#[trigger] modules[b]).id,
        addr > 0,
        addr + layout.size <= usize::MAX,
    ensures
        layout.dtv_size == (modules.len() + 1) * 8,
        dtv_word(layout, modules, addr, 0) == modules.len(),
        1 <= modules[j].id <= modules.len(),
        ({
            let w = dtv_word(layout, modules, addr, modules[j].id as int);
            &&& w == addr + layout.tcb_start() - modules[j].tls_offset
            &&& addr <= w < addr + layout.size
            &&& w != 0
        }),
{
    lemma_no_bad_module(manifold, modules, 0, j);
    lemma_offsets_bounded(modules, 0, 0);
    lemma_round_up_bounds(
        spec_layout(manifold, modules).dtv_size() + layout.modules_size,
        layout.align as int,
    );
    let id = modules[j].id;
    lemma_module_of_id(modules, id, 0, j);
    let first = module_of_id_from(modules, id, 0);
    assert(first == j);
    crate::sysv::loader::lemma_mod_near(
        addr + layout.tcb_start() - modules[j].tls_offset,
        usize::MAX + 1,
    );
}

/// Whether `k` is one of `ids`.
pub open spec fn has_number(ids: Seq<int>, k: int) -> bool {
    exists|j: int| 0 <= j < ids.len() && #[trigger] ids[j] == k
}

/// As many different numbers as there are numbers from 1 to `n`, all of them from 1 to `n`, are
/// all the numbers from 1 to `n`.
pub proof fn lemma_numbers_cover(ids: Seq<int>, n: int)
    requires
        ids.len() == n,
        forall|i: int| 0 <= i < n ==> 1 <= #[trigger] ids[i] <= n,
        forall|a: int, b: int| 0 <= a < b < n ==> #[trigger] ids[a] != #[trigger] ids[b],
    ensures
        forall|k: int| 1 <= k <= n ==> #[trigger] has_number(ids, k),
    decreases n,
{
    if n > 0 {
        if exists|p: int| 0 <= p < n && #[trigger] ids[p] == n {
            let p = choose|p: int| 0 <= p < n && #[trigger] ids[p] == n;
            let rest = ids.remove(p);
            assert forall|i: int| 0 <= i < n - 1 implies 1 <= #[trigger] rest[i] <= n - 1 by {
                let at = if i < p {
                    i
                } else {
                    i + 1
                };
                assert(rest[i] == ids[at]);
                if at < p {
                    assert(ids[at] != ids[p]);
                } else {
                    assert(ids[p] != ids[at]);
                }
            }
            assert forall|a: int, b: int| 0 <= a < b < n - 1 implies #[trigger] rest[a]
                != #[trigger] rest[b] by {
                let at_a = if a < p {
                    a
                } else {
                    a + 1
                };
                let at_b = if b < p {
                    b
                } else {
                    b + 1
                };
                assert(rest[a] == ids[at_a] && rest[b] == ids[at_b]);
                assert(ids[at_a] != ids[at_b]);
            }
            lemma_numbers_cover(rest, n - 1);
            assert forall|k: int| 1 <= k <= n implies #[trigger] has_number(ids, k) by {
                if k == n {
                    assert(ids[p] == k);
                } else {
                    assert(has_number(rest, k));
                    let j = choose|j: int| 0 <= j < n - 1 && #[trigger] rest[j] == k;
                    let at = if j < p {
                        j
                    } else {
                        j + 1
                    };
                    assert(ids[at] == k);
                }
            }
        } else {
            // No number is `n`: the first `n - 1` numbers are all the numbers below `n`, and
            // the last one is one of them once more.
            let head = ids.subrange(0, n - 1);
            assert forall|i: int| 0 <= i < n - 1 implies 1 <= #[trigger] head[i] <= n - 1 by {
                assert(head[i] == ids[i]);
            }
            assert forall|a: int, b: int| 0 <= a < b < n - 1 implies #[trigger] head[a]
                != #[trigger] head[b] by {
                assert(head[a] == ids[a] && head[b] == ids[b]);
                assert(ids[a] != ids[b]);
            }
            lemma_numbers_cover(head, n - 1);
            let last = ids[n - 1];
            assert(1 <= last <= n - 1);
            assert(has_number(head, last));
            let j = choose|j: int| 0 <= j < n - 1 && #[trigger] head[j] == last;
            assert(ids[j] != ids[n - 1]);
            assert(head[j] == ids[j]);
            assert(false);
        }
    }
}

/// After allocation for `N` modules whose ids are all different, every word of the dynamic
/// thread vector from word 1 to word `N` holds an address inside the block, and no word is 0,
/// for a block that lies inside the address space and not at address 0.
pub proof fn lemma_dtv_is_filled(
    manifold: &Manifold,
    layout: TlsLayout,
    modules: Seq<TlsModule>,
    addr: usize,
    k: int,
)
    requires
        layout_defect(manifold, modules).is_none(),
        layout_is(layout, spec_layout(manifold, modules)),
        forall|a: int, b: int|
            0 <= a < b < modules.len() ==> (#[trigger] modules[a]).id != (#[trigger] modules[b]).id,
        addr > 0,
        addr + layout.size <= usize::MAX,
        1 <= k <= modules.len(),
    ensures
        dtv_word(layout, modules, addr, k) != 0,
        addr <= dtv_word(layout, modules, addr, k) < addr + layout.size,
{
    let n = modules.len() as int;
    let ids = Seq::new(modules.len(), |i: int| modules[i].id as int);
    assert forall|i: int| 0 <= i < n implies 1 <= #[trigger] ids[i] <= n by {
        lemma_no_bad_module(manifold, modules, 0, i);
    }
    assert forall|a: int, b: int| 0 <= a < b < n implies #[trigger] ids[a] != #[trigger] ids[b] by {
        assert(modules[a].id != modules[b].id);
    }
    lemma_numbers_cover(ids, n);
    assert(has_number(ids, k));
    let j = choose|j: int| 0 <= j < n && #[trigger] ids[j] == k;
    assert(modules[j].id == k);
    lemma_dtv_slots(manifold, layout, modules, addr, j);
}

/// The eight bytes of a word, least significant byte first, write the word.
pub proof fn lemma_bytes_write_word(value: u64, bytes: Seq<u8>)
    requires
        bytes.len() == 8,
        forall|i: int| 0 <= i < 8 ==> #[trigger] bytes[i] == le_byte(value, i),
    ensures
        crate::bytes::le_value(bytes) == value,
{
    crate::bytes::lemma_le_value_8(bytes);
    let v = value as int;
    let q1 = v / 0x100;
    let q2 = q1 / 0x100;
    let q3 = q2 / 0x100;
    let q4 = q3 / 0x100;
    let q5 = q4 / 0x100;
    let q6 = q5 / 0x100;
    let q7 = q6 / 0x100;
    vstd::arithmetic::div_mod::lemma_div_denominator(v, 0x100, 0x100);
    vstd::arithmetic::div_mod::lemma_div_denominator(v, 0x1_0000, 0x100);
    vstd::arithmetic::div_mod::lemma_div_denominator(v, 0x100_0000, 0x100);
    vstd::arithmetic::div_mod::lemma_div_denominator(v, 0x1_0000_0000, 0x100);
    vstd::arithmetic::div_mod::lemma_div_denominator(v, 0x100_0000_0000, 0x100);
    vstd::arithmetic::div_mod::lemma_div_denominator(v, 0x1_0000_0000_0000, 0x100);
    assert(q2 == v / 0x1_0000);
    assert(q3 == v / 0x100_0000);
    assert(q4 == v / 0x1_0000_0000);
    assert(q5 == v / 0x100_0000_0000);
    assert(q6 == v / 0x1_0000_0000_0000);
    assert(q7 == v / 0x100_0000_0000_0000);
    assert(q7 < 0x100);
    assert(bytes[0] == le_byte(value, 0) && bytes[1] == le_byte(value, 1) && bytes[2] == le_byte(
        value,
        2,
    ) && bytes[3] == le_byte(value, 3));
    assert(bytes[4] == le_byte(value, 4) && bytes[5] == le_byte(value, 5) && bytes[6] == le_byte(
        value,
        6,
    ) && bytes[7] == le_byte(value, 7));
    assert(v == bytes[0] + 0x100 * q1);
    assert(q1 == bytes[1] + 0x100 * q2);
    assert(q2 == bytes[2] + 0x100 * q3);
    assert(q3 == bytes[3] + 0x100 * q4);
    assert(q4 == bytes[4] + 0x100 * q5);
    assert(q5 == bytes[5] + 0x100 * q6);
    assert(q6 == bytes[6] + 0x100 * q7);
    assert(q7 == bytes[7]);
}

/// The block holds the dynamic thread vector in its first words: word `k` of the block, read
/// as a little-endian number, is word `k` of the vector, for every `k` up to the number of
/// modules.
pub proof fn lemma_block_holds_dtv(
    manifold: &Manifold,
    layout: TlsLayout,
    modules: Seq<TlsModule>,
    place: TlsPlace,
    k: int,
)
    requires
        layout.wf(),
        layout.count == modules.len(),
        0 <= k <= modules.len(),
    ensures
        spec_block(manifold, layout, modules, place).len() == layout.size,
        crate::elf::word64(spec_block(manifold, layout, modules, place), 8 * k) == dtv_word(
            layout,
            modules,
            place.addr,
            k,
        ),
{
    let block = spec_block(manifold, layout, modules, place);
    let word = dtv_word(layout, modules, place.addr, k);
    let bytes = block.subrange(8 * k, 8 * k + 8);
    assert forall|i: int| 0 <= i < 8 implies #[trigger] bytes[i] == le_byte(word, i) by {
        let p = 8 * k + i;
        assert(bytes[i] == block[p]);
        assert(p < layout.dtv_size);
        assert(p / 8 == k && p % 8 == i);
    }
    lemma_bytes_write_word(word, bytes);
}

} // verus!
