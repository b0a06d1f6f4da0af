//! The host side of the GPU back end: what each compute kernel is handed, in
//! which binding slot, and how its outputs are read back. The device work
//! itself (creating buffers, encoding, committing, waiting) is done by the
//! caller, which performs a `KernelCall` and hands back the bytes of its
//! output buffers.
use vstd::prelude::*;
use vstd::slice::slice_to_vec;

verus! {

/// The number of registers of the Ashmaize VM.
pub const NB_REGS: usize = 32;

/// The program scratch space that the hashing kernel gets per salt, in
/// bytes (256 instructions of 20 bytes).
pub const PROGRAM_BUFFER_SIZE: u64 = 5120;

/// The number of 32-bit profiling counters that the hashing kernel writes
/// per salt.
pub const COUNTERS_PER_HASH: usize = 7;

/// Where a buffer's memory lives.
#[derive(Clone, Copy, Debug, PartialEq, Eq, Structural)]
pub enum StorageMode {
    /// Memory shared by CPU and GPU (unified memory).
    Shared,
    /// Memory mirrored between CPU and GPU.
    Managed,
}

/// The compute kernels of the shader library.
#[derive(Clone, Copy, Debug, PartialEq, Eq, Structural)]
pub enum Kernel {
    AshmaizeHash,
    Blake2b,
    Hprime,
    PostInstructions,
    VmInit,
    ExecuteProgram,
    ExecuteOneInstruction,
    VmFinalize,
}

/// What is bound to one slot of a kernel.
#[derive(Clone, Debug, PartialEq, Eq)]
pub enum BufferSpec {
    /// These bytes, copied from the host.
    Bytes(Vec<u8>),
    /// The data of the ROM that the call is made with.
    RomData,
    /// A 32-bit value.
    Word(u32),
    /// An output buffer of this many bytes.
    Output(u64),
}

/// The contents of a `BufferSpec`.
pub enum BufferView {
    Bytes(Seq<u8>),
    RomData,
    Word(u32),
    Output(u64),
}

impl View for BufferSpec {
    type V = BufferView;

    open spec fn view(&self) -> BufferView {
        match self {
            BufferSpec::Bytes(b) => BufferView::Bytes(b@),
            BufferSpec::RomData => BufferView::RomData,
            BufferSpec::Word(w) => BufferView::Word(*w),
            BufferSpec::Output(n) => BufferView::Output(*n),
        }
    }
}

/// How many threads run a kernel.
#[derive(Clone, Copy, Debug, PartialEq, Eq, Structural)]
pub enum Dispatch {
    /// `grid_width` threads, in threadgroups of `threadgroup_width`.
    Threads { grid_width: u64, threadgroup_width: u64 },
    /// A single thread in a single threadgroup.
    SingleThread,
}

/// One run of a kernel: the kernel, where its buffers live, what goes in
/// each binding slot (slot `i` is `buffers[i]`), and how it is dispatched.
#[derive(Clone, Debug, PartialEq, Eq)]
pub struct KernelCall {
    pub kernel: Kernel,
    pub storage_mode: StorageMode,
    pub buffers: Vec<BufferSpec>,
    pub dispatch: Dispatch,
}

impl KernelCall {
    /// The contents of the binding slots.
    pub open spec fn slots(&self) -> Seq<BufferView> {
        views_of(self.buffers@)
    }
}

/// The contents of a sequence of buffers.
pub open spec fn views_of(buffers: Seq<BufferSpec>) -> Seq<BufferView> {
    buffers.map_values(|b: BufferSpec| b@)
}

/// The sizes of the outputs among `slots`, in order.
pub open spec fn output_sizes_of(slots: Seq<BufferView>) -> Seq<u64>
    decreases slots.len(),
{
    if slots.len() == 0 {
        Seq::empty()
    } else {
        let rest = output_sizes_of(slots.drop_last());
        match slots.last() {
            BufferView::Output(n) => rest.push(n),
            _ => rest,
        }
    }
}

/// What the host knows of the device: whether its memory is unified, and the
/// largest threadgroup that the hashing pipeline accepts.
pub struct MetalAshmaize {
    has_unified_memory: bool,
    max_threads_per_threadgroup: u64,
}

/// The buffer storage for a device.
pub open spec fn storage_mode_for(has_unified_memory: bool) -> StorageMode {
    if has_unified_memory {
        StorageMode::Shared
    } else {
        StorageMode::Managed
    }
}

/// The salts, one after the other.
pub open spec fn concat_all(salts: Seq<Seq<u8>>) -> Seq<u8>
    decreases salts.len(),
{
    if salts.len() == 0 {
        Seq::empty()
    } else {
        concat_all(salts.drop_last()) + salts.last()
    }
}

/// Whether every salt has the length of the first.
pub open spec fn same_lengths(salts: Seq<Seq<u8>>) -> bool {
    forall|i: int| 0 <= i < salts.len() ==> (#[trigger] salts[i]).len() == salts[0].len()
}

/// The views of a batch of salts.
pub open spec fn salt_views(salts: Seq<&[u8]>) -> Seq<Seq<u8>> {
    salts.map_values(|s: &[u8]| s@)
}

/// The slots of the hashing kernel for a batch of `num_salts` salts of
/// `salt_len` bytes each.
pub open spec fn hash_slots(
    rom_digest: Seq<u8>,
    salts: Seq<u8>,
    salt_len: int,
    num_salts: int,
    rom_original_len: int,
    nb_loops: u32,
    nb_instrs: u32,
) -> Seq<BufferView> {
    seq![
        BufferView::RomData,
        BufferView::Bytes(rom_digest),
        BufferView::Bytes(salts),
        BufferView::Word(salt_len as u32),
        BufferView::Word(rom_original_len as u32),
        BufferView::Word(nb_instrs),
        BufferView::Word(nb_loops),
        BufferView::Output((num_salts * 64) as u64),
        BufferView::Output((num_salts * 5120) as u64),
        BufferView::Output((num_salts * 28) as u64),
    ]
}

/// What `MetalAshmaize::hash` asks for.
#[derive(Clone, Debug, PartialEq, Eq)]
pub enum HashJob {
    /// Nothing to run: these are the hashes.
    Done(Vec<[u8; 64]>),
    /// Run this call; `HashDispatch::collect` then reads the hashes back.
    Dispatch(HashDispatch),
}

/// A batch of salts to hash on the device.
#[derive(Clone, Debug, PartialEq, Eq)]
pub struct HashDispatch {
    /// The number of salts.
    pub num_salts: usize,
    /// The run of the hashing kernel.
    pub call: KernelCall,
}

/// Why a batch cannot be hashed on the device.
#[derive(Clone, Copy, Debug, PartialEq, Eq, Structural)]
pub enum HashError {
    /// The salts do not all have the same length.
    UnequalSaltLengths,
}

/// Concatenates the salts.
fn concat_salts(salts: &[&[u8]]) -> (all: Vec<u8>)
    ensures
        all@ == concat_all(salt_views(salts@)),
{
    let ghost views = salt_views(salts@);
    let mut all: Vec<u8> = Vec::new();
    let mut i: usize = 0;
    while i < salts.len()
        invariant
            i <= salts@.len(),
            views == salt_views(salts@),
            all@ == concat_all(views.take(i as int)),
        decreases salts.len() - i,
    {
        let s: &[u8] = salts[i];
        let mut j: usize = 0;
        let ghost before = all@;
        while j < s.len()
            invariant
                j <= s@.len(),
                all@ == before + s@.take(j as int),
            decreases s.len() - j,
        {
            all.push(s[j]);
            assert(s@.take(j + 1) =~= s@.take(j as int).push(s@[j as int]));
            j = j + 1;
        }
        assert(s@.take(s@.len() as int) =~= s@);
        assert(views.take(i + 1).drop_last() =~= views.take(i as int));
        assert(views.take(i + 1).last() == s@);
        i = i + 1;
    }
    assert(views.take(salts@.len() as int) =~= views);
    all
}

/// Whether all salts have the length of the first.
fn salts_have_same_length(salts: &[&[u8]]) -> (same: bool)
    requires
        salts@.len() > 0,
    ensures
        same == same_lengths(salt_views(salts@)),
{
    let salt_len = salts[0].len();
    let mut i: usize = 1;
    while i < salts.len()
        invariant
            1 <= i <= salts@.len(),
            salt_len == salts@[0]@.len(),
            forall|j: int| 0 <= j < i ==> (#[trigger] salts@[j])@.len() == salt_len,
        decreases salts.len() - i,
    {
        if salts[i].len() != salt_len {
            assert(salt_views(salts@)[i as int].len() != salt_views(salts@)[0].len());
            return false;
        }
        i = i + 1;
    }
    assert forall|j: int| 0 <= j < salts@.len() implies (#[trigger] salt_views(salts@)[j]).len()
        == salt_views(salts@)[0].len() by {
        assert(salts@[j]@.len() == salt_len);
    }
    true
}

impl MetalAshmaize {
    /// Whether the device's memory is unified.
    pub closed spec fn unified(&self) -> bool {
        self.has_unified_memory
    }

    /// The largest threadgroup that the hashing pipeline accepts.
    pub closed spec fn max_threadgroup(&self) -> u64 {
        self.max_threads_per_threadgroup
    }

    /// Describes a device from what it reports.
    pub fn from_device(has_unified_memory: bool, max_threads_per_threadgroup: u64) -> (m: Self)
        ensures
            m.unified() == has_unified_memory,
            m.max_threadgroup() == max_threads_per_threadgroup,
    {
        MetalAshmaize { has_unified_memory, max_threads_per_threadgroup }
    }

    /// The storage mode for buffers of this device: shared on unified memory
    /// (Apple Silicon), managed on a discrete GPU.
    pub fn storage_mode(&self) -> (mode: StorageMode)
        ensures
            mode == storage_mode_for(self.unified()),
    {
        if self.has_unified_memory {
            StorageMode::Shared
        } else {
            StorageMode::Managed
        }
    }

    /// Prepares the hashing of a batch of salts against a ROM, one hash per
    /// salt, `nb_loops` loops of `nb_instrs` instructions each. An empty
    /// batch gives no hashes and needs no device; salts of different lengths
    /// are refused, since the kernel reads them at a fixed stride.
    pub fn hash(
        &self,
        salts: &[&[u8]],
        rom_digest: &[u8; 64],
        rom_original_len: usize,
        nb_loops: u32,
        nb_instrs: u32,
    ) -> (job: Result<HashJob, HashError>)
        requires
            salts@.len() * 64 <= usize::MAX,
            salts@.len() * 5120 <= u64::MAX,
        ensures
            salts@.len() == 0 ==> (job matches Ok(HashJob::Done(hashes)) && hashes@.len() == 0),
            salts@.len() > 0 && !same_lengths(salt_views(salts@)) ==> job == Err::<
                HashJob,
                HashError,
            >(HashError::UnequalSaltLengths),
            salts@.len() > 0 && same_lengths(salt_views(salts@)) ==> (job matches Ok(
                HashJob::Dispatch(d),
            ) && d.num_salts == salts@.len() && d.call.kernel == Kernel::AshmaizeHash
                && d.call.storage_mode == storage_mode_for(self.unified()) && d.call.slots()
                == hash_slots(
                rom_digest@,
                concat_all(salt_views(salts@)),
                salts@[0]@.len() as int,
                salts@.len() as int,
                rom_original_len as int,
                nb_loops,
                nb_instrs,
            ) && d.call.dispatch == (Dispatch::Threads {
                grid_width: salts@.len() as u64,
                threadgroup_width: if self.max_threadgroup() < salts@.len() {
                    self.max_threadgroup()
                } else {
                    salts@.len() as u64
                },
            })),
        job matches Ok(HashJob::Dispatch(d)) ==> (d.call.slots()[3] matches BufferView::Word(w) && (
        salts@[0]@.len() <= u32::MAX ==> w == salts@[0]@.len())),
        job matches Ok(HashJob::Dispatch(d)) ==> (d.call.slots()[4] matches BufferView::Word(w) && (
        rom_original_len <= u32::MAX ==> w == rom_original_len)),
    {
        if salts.len() == 0 {
            return Ok(HashJob::Done(Vec::new()));
        }
        let num_salts = salts.len();
        let salt_len = salts[0].len();
        if !salts_have_same_length(salts) {
            return Err(HashError::UnequalSaltLengths);
        }
        let concatenated = concat_salts(salts);
        let digest = slice_to_vec(rom_digest.as_slice());
        assert(COUNTERS_PER_HASH == 7);
        assert(PROGRAM_BUFFER_SIZE == 5120);
        let mut buffers: Vec<BufferSpec> = Vec::new();
        buffers.push(BufferSpec::RomData);
        buffers.push(BufferSpec::Bytes(digest));
        buffers.push(BufferSpec::Bytes(concatenated));
        buffers.push(BufferSpec::Word(salt_len as u32));
        buffers.push(BufferSpec::Word(rom_original_len as u32));
        buffers.push(BufferSpec::Word(nb_instrs));
        buffers.push(BufferSpec::Word(nb_loops));
        buffers.push(BufferSpec::Output((num_salts * 64) as u64));
        buffers.push(BufferSpec::Output(PROGRAM_BUFFER_SIZE * num_salts as u64));
        assert(num_salts * 28 <= num_salts * 64) by (nonlinear_arith);
        let counters_len: usize = num_salts * (COUNTERS_PER_HASH * 4);
        buffers.push(BufferSpec::Output(counters_len as u64));
        let threadgroup_width: u64 = if self.max_threads_per_threadgroup < num_salts as u64 {
            self.max_threads_per_threadgroup
        } else {
            num_salts as u64
        };
        let call = KernelCall {
            kernel: Kernel::AshmaizeHash,
            storage_mode: self.storage_mode(),
            buffers,
            dispatch: Dispatch::Threads { grid_width: num_salts as u64, threadgroup_width },
        };
        assert(call.slots() =~= hash_slots(
            rom_digest@,
            concat_all(salt_views(salts@)),
            salt_len as int,
            num_salts as int,
            rom_original_len as int,
            nb_loops,
            nb_instrs,
        ));
        Ok(HashJob::Dispatch(HashDispatch { num_salts, call }))
    }
}


/// The little-endian 32-bit value of the four bytes of `b` at `off`.
pub open spec fn le_u32_at(b: Seq<u8>, off: int) -> u32 {
    (b[off] as int + b[off + 1] as int * 0x100 + b[off + 2] as int * 0x1_0000 + b[off + 3] as int
        * 0x100_0000) as u32
}

/// The little-endian 64-bit value of the eight bytes of `b` at `off`.
pub open spec fn le_u64_at(b: Seq<u8>, off: int) -> u64 {
    (b[off] as int + b[off + 1] as int * 0x100 + b[off + 2] as int * 0x1_0000 + b[off + 3] as int
        * 0x100_0000 + b[off + 4] as int * 0x1_0000_0000 + b[off + 5] as int * 0x100_0000_0000
        + b[off + 6] as int * 0x1_0000_0000_0000 + b[off + 7] as int * 0x100_0000_0000_0000) as u64
}

/// Reads the little-endian 32-bit value at `off` (the device writes its
/// integers little-endian).
pub fn read_le_u32(b: &[u8], off: usize) -> (v: u32)
    requires
        off + 4 <= b@.len(),
    ensures
        v == le_u32_at(b@, off as int),
{
    (b[off] as u32) + (b[off + 1] as u32) * 0x100 + (b[off + 2] as u32) * 0x1_0000 + (b[off
        + 3] as u32) * 0x100_0000
}

/// Reads the little-endian 64-bit value at `off`.
pub fn read_le_u64(b: &[u8], off: usize) -> (v: u64)
    requires
        off + 8 <= b@.len(),
    ensures
        v == le_u64_at(b@, off as int),
{
    (b[off] as u64) + (b[off + 1] as u64) * 0x100 + (b[off + 2] as u64) * 0x1_0000 + (b[off
        + 3] as u64) * 0x100_0000 + (b[off + 4] as u64) * 0x1_0000_0000 + (b[off + 5] as u64)
        * 0x100_0000_0000 + (b[off + 6] as u64) * 0x1_0000_0000_0000 + (b[off + 7] as u64)
        * 0x100_0000_0000_0000
}

/// The 64 bytes of `b` at `off`.
pub fn read_digest(b: &[u8], off: usize) -> (d: [u8; 64])
    requires
        off + 64 <= b@.len(),
    ensures
        d@ == b@.subrange(off as int, off + 64),
{
    let mut d = [0u8; 64];
    let mut j: usize = 0;
    while j < 64
        invariant
            j <= 64,
            off + 64 <= b@.len(),
            b@.len() == b.len(),
            d@.len() == 64,
            forall|t: int| 0 <= t < j ==> d@[t] == b@[off + t],
        decreases 64 - j,
    {
        d[j] = b[off + j];
        j = j + 1;
    }
    assert(d@ =~= b@.subrange(off as int, off + 64));
    d
}

/// The VM registers that the device wrote into `b`, one little-endian
/// 64-bit value each.
pub fn read_regs(b: &[u8]) -> (regs: [u64; 32])
    requires
        b@.len() == 256,
    ensures
        forall|i: int| 0 <= i < 32 ==> #[trigger] regs@[i] == le_u64_at(b@, 8 * i),
{
    let mut regs = [0u64; 32];
    let mut i: usize = 0;
    while i < 32
        invariant
            i <= 32,
            b@.len() == 256,
            regs@.len() == 32,
            forall|t: int| 0 <= t < i ==> #[trigger] regs@[t] == le_u64_at(b@, 8 * t),
        decreases 32 - i,
    {
        regs[i] = read_le_u64(b, 8 * i);
        i = i + 1;
    }
    regs
}

impl HashDispatch {
    /// Reads the hashes back from the kernel's hash output (its first
    /// output): one 64-byte hash per salt, in the order of the salts.
    pub fn collect(&self, output: &[u8]) -> (hashes: Vec<[u8; 64]>)
        requires
            output@.len() == self.num_salts * 64,
        ensures
            hashes@.len() == self.num_salts,
            forall|i: int|
                0 <= i < self.num_salts ==> #[trigger] hashes@[i]@ == split_hashes(
                    output@,
                    self.num_salts as nat,
                )[i],
    {
        let n = self.num_salts;
        let out_len = output.len();
        let mut hashes: Vec<[u8; 64]> = Vec::new();
        let mut i: usize = 0;
        while i < n
            invariant
                i <= n,
                output@.len() == n * 64,
                out_len == output@.len(),
                hashes@.len() == i,
                forall|t: int|
                    0 <= t < i ==> #[trigger] hashes@[t]@ == output@.subrange(64 * t, 64 * t + 64),
            decreases n - i,
        {
            assert(64 * i + 64 <= n * 64) by (nonlinear_arith)
                requires
                    i < n,
            ;
            let h = read_digest(output, 64 * i);
            hashes.push(h);
            i = i + 1;
        }
        hashes
    }

    /// Averages the kernel's profiling counters (its third output, seven
    /// counters per salt) over the salts of the batch.
    pub fn counter_averages(&self, counters: &[u32]) -> (avg: CounterAverages)
        requires
            self.num_salts > 0,
            counters@.len() == self.num_salts * 7,
            forall|k: int| 0 <= k < 7 ==> counter_total(counters@, k, self.num_salts as nat) <= u64::MAX,
        ensures
            avg.blake2b_calls == counter_total(counters@, 0, self.num_salts as nat) / self.num_salts as int,
            avg.mem_accesses == counter_total(counters@, 1, self.num_salts as nat) / self.num_salts as int,
            avg.special1_hits == counter_total(counters@, 2, self.num_salts as nat) / self.num_salts as int,
            avg.special1_misses == counter_total(counters@, 3, self.num_salts as nat) / self.num_salts as int,
            avg.special2_hits == counter_total(counters@, 4, self.num_salts as nat) / self.num_salts as int,
            avg.special2_misses == counter_total(counters@, 5, self.num_salts as nat) / self.num_salts as int,
            avg.instructions == counter_total(counters@, 6, self.num_salts as nat) / self.num_salts as int,
    {
        let n = self.num_salts;
        let total_len = counters.len();
        let mut sums = [0u64; 7];
        let mut i: usize = 0;
        while i < n
            invariant
                i <= n,
                counters@.len() == n * 7,
                total_len == counters@.len(),
                sums@.len() == 7,
                forall|k: int| 0 <= k < 7 ==> counter_total(counters@, k, n as nat) <= u64::MAX,
                forall|k: int| 0 <= k < 7 ==> #[trigger] sums@[k] == counter_total(counters@, k, i as nat),
            decreases n - i,
        {
            let mut k: usize = 0;
            while k < 7
                invariant
                    k <= 7,
                    i < n,
                    counters@.len() == n * 7,
                    total_len == counters@.len(),
                    sums@.len() == 7,
                    forall|t: int| 0 <= t < 7 ==> counter_total(counters@, t, n as nat) <= u64::MAX,
                    forall|t: int| 0 <= t < k ==> #[trigger] sums@[t] == counter_total(counters@, t, (i + 1) as nat),
                    forall|t: int| k <= t < 7 ==> #[trigger] sums@[t] == counter_total(counters@, t, i as nat),
                decreases 7 - k,
            {
                assert(i * 7 + k < n * 7) by (nonlinear_arith)
                    requires
                        i < n,
                        k < 7,
                ;
                proof {
                    lemma_counter_total_monotone(counters@, k as int, (i + 1) as nat, n as nat);
                }
                let v = counters[i * 7 + k];
                sums[k] = sums[k] + v as u64;
                k = k + 1;
            }
            i = i + 1;
        }
        let d = n as u64;
        CounterAverages {
            blake2b_calls: sums[0] / d,
            mem_accesses: sums[1] / d,
            special1_hits: sums[2] / d,
            special1_misses: sums[3] / d,
            special2_hits: sums[4] / d,
            special2_misses: sums[5] / d,
            instructions: sums[6] / d,
        }
    }
}

/// The total of counter `k` over the first `n` salts, seven counters per
/// salt.
pub open spec fn counter_total(counters: Seq<u32>, k: int, n: nat) -> int
    decreases n,
{
    if n == 0 {
        0
    } else {
        counter_total(counters, k, (n - 1) as nat) + counters[(n - 1) * 7 + k] as int
    }
}

proof fn lemma_counter_total_monotone(counters: Seq<u32>, k: int, i: nat, n: nat)
    requires
        i <= n,
    ensures
        counter_total(counters, k, i) <= counter_total(counters, k, n),
    decreases n,
{
    if i < n {
        lemma_counter_total_monotone(counters, k, i, (n - 1) as nat);
    }
}

/// The profiling counters of a batch, averaged per hash.
#[derive(Clone, Copy, Debug, PartialEq, Eq, Structural)]
pub struct CounterAverages {
    pub blake2b_calls: u64,
    pub mem_accesses: u64,
    pub special1_hits: u64,
    pub special1_misses: u64,
    pub special2_hits: u64,
    pub special2_misses: u64,
    pub instructions: u64,
}


/// The result of running one instruction on the device.
#[derive(Debug, PartialEq, Eq)]
pub struct TestExecOneResult {
    pub final_regs: [u64; 32],
    pub final_ip: u32,
    pub final_memory_counter: u32,
    pub final_prog_digest_hash: [u8; 64],
    pub final_mem_digest_hash: [u8; 64],
}

/// A kernel call on a single thread.
fn single_thread_call(kernel: Kernel, storage_mode: StorageMode, buffers: Vec<BufferSpec>) -> (call: KernelCall)
    ensures
        call.kernel == kernel,
        call.storage_mode == storage_mode,
        call.buffers@ == buffers@,
        call.dispatch == Dispatch::SingleThread,
{
    KernelCall { kernel, storage_mode, buffers, dispatch: Dispatch::SingleThread }
}

/// The slots of the kernels that read a ROM digest and a salt, followed by
/// `rest`.
pub open spec fn digest_salt_slots(rom_digest: Seq<u8>, salt: Seq<u8>, rest: Seq<BufferView>) -> Seq<BufferView> {
    seq![
        BufferView::Bytes(rom_digest),
        BufferView::Bytes(salt),
        BufferView::Word(salt.len() as u32),
    ] + rest
}

/// The slots of the kernels that read the ROM, its digest, a salt, the
/// ROM's size and the number of instructions, followed by `rest`.
pub open spec fn rom_slots(
    rom_digest: Seq<u8>,
    salt: Seq<u8>,
    rom_size: int,
    nb_instrs: u32,
    rest: Seq<BufferView>,
) -> Seq<BufferView> {
    seq![
        BufferView::RomData,
        BufferView::Bytes(rom_digest),
        BufferView::Bytes(salt),
        BufferView::Word(salt.len() as u32),
        BufferView::Word(rom_size as u32),
        BufferView::Word(nb_instrs),
    ] + rest
}

/// Pushes the slots for a ROM digest and a salt.
fn push_digest_salt(buffers: &mut Vec<BufferSpec>, rom_digest: &[u8; 64], salt: &[u8])
    ensures
        views_of(final(buffers)@) == views_of(old(buffers)@)
            + seq![
            BufferView::Bytes(rom_digest@),
            BufferView::Bytes(salt@),
            BufferView::Word(salt@.len() as u32),
        ],
{
    buffers.push(BufferSpec::Bytes(slice_to_vec(rom_digest.as_slice())));
    buffers.push(BufferSpec::Bytes(slice_to_vec(salt)));
    buffers.push(BufferSpec::Word(salt.len() as u32));
    assert(views_of(final(buffers)@) =~= views_of(old(buffers)@)
        + seq![
        BufferView::Bytes(rom_digest@),
        BufferView::Bytes(salt@),
        BufferView::Word(salt@.len() as u32),
    ]);
}

impl MetalAshmaize {
    /// The run of the Blake2b-512 kernel on `input`.
    pub fn blake2b_call(&self, input: &[u8]) -> (call: KernelCall)
        ensures
            call.kernel == Kernel::Blake2b,
            call.storage_mode == storage_mode_for(self.unified()),
            call.dispatch == Dispatch::SingleThread,
            call.slots() == seq![
                BufferView::Bytes(input@),
                BufferView::Output(64),
                BufferView::Word(input@.len() as u32),
            ],
            input@.len() <= u32::MAX ==> (call.slots()[2] matches BufferView::Word(w) && w
                == input@.len()),
    {
        let mut buffers: Vec<BufferSpec> = Vec::new();
        buffers.push(BufferSpec::Bytes(slice_to_vec(input)));
        buffers.push(BufferSpec::Output(64));
        buffers.push(BufferSpec::Word(input.len() as u32));
        let call = single_thread_call(Kernel::Blake2b, self.storage_mode(), buffers);
        assert(call.slots() =~= seq![
            BufferView::Bytes(input@),
            BufferView::Output(64),
            BufferView::Word(input@.len() as u32),
        ]);
        call
    }

    /// The run of the H' (variable-length Blake2b) kernel, writing
    /// `output_len` bytes from the first `input_len` bytes of `input`.
    pub fn hprime_call(&self, input: &[u8], output_len: u32, input_len: u32) -> (call: KernelCall)
        ensures
            call.kernel == Kernel::Hprime,
            call.storage_mode == StorageMode::Managed,
            call.dispatch == Dispatch::SingleThread,
            call.slots() == seq![
                BufferView::Bytes(input@),
                BufferView::Output(output_len as u64),
                BufferView::Word(output_len),
                BufferView::Word(input_len),
            ],
    {
        let mut buffers: Vec<BufferSpec> = Vec::new();
        buffers.push(BufferSpec::Bytes(slice_to_vec(input)));
        buffers.push(BufferSpec::Output(output_len as u64));
        buffers.push(BufferSpec::Word(output_len));
        buffers.push(BufferSpec::Word(input_len));
        let call = single_thread_call(Kernel::Hprime, StorageMode::Managed, buffers);
        assert(call.slots() =~= seq![
            BufferView::Bytes(input@),
            BufferView::Output(output_len as u64),
            BufferView::Word(output_len),
            BufferView::Word(input_len),
        ]);
        call
    }

    /// The run of the VM initialisation kernel: outputs the registers, the
    /// program seed, the instruction pointer, the memory counter and the
    /// loop counter.
    pub fn vm_init_call(&self, rom_digest: &[u8; 64], salt: &[u8]) -> (call: KernelCall)
        ensures
            call.kernel == Kernel::VmInit,
            call.storage_mode == StorageMode::Managed,
            call.dispatch == Dispatch::SingleThread,
            call.slots() == digest_salt_slots(rom_digest@, salt@, seq![
                BufferView::Output(256),
                BufferView::Output(64),
                BufferView::Output(4),
                BufferView::Output(4),
                BufferView::Output(4),
            ]),
            salt@.len() <= u32::MAX ==> (call.slots()[2] matches BufferView::Word(w) && w
                == salt@.len()),
    {
        let mut buffers: Vec<BufferSpec> = Vec::new();
        assert(views_of(buffers@) =~= Seq::<BufferView>::empty());
        push_digest_salt(&mut buffers, rom_digest, salt);
        buffers.push(BufferSpec::Output(256));
        buffers.push(BufferSpec::Output(64));
        buffers.push(BufferSpec::Output(4));
        buffers.push(BufferSpec::Output(4));
        buffers.push(BufferSpec::Output(4));
        let call = single_thread_call(Kernel::VmInit, StorageMode::Managed, buffers);
        assert(call.slots() =~= digest_salt_slots(rom_digest@, salt@, seq![
            BufferView::Output(256),
            BufferView::Output(64),
            BufferView::Output(4),
            BufferView::Output(4),
            BufferView::Output(4),
        ]));
        call
    }

    /// The run of the post-instructions kernel: outputs the registers, the
    /// program seed and the loop counter.
    pub fn post_instructions_call(&self, rom_digest: &[u8; 64], salt: &[u8]) -> (call: KernelCall)
        ensures
            call.kernel == Kernel::PostInstructions,
            call.storage_mode == StorageMode::Managed,
            call.dispatch == Dispatch::SingleThread,
            call.slots() == digest_salt_slots(rom_digest@, salt@, seq![
                BufferView::Output(256),
                BufferView::Output(64),
                BufferView::Output(4),
            ]),
            salt@.len() <= u32::MAX ==> (call.slots()[2] matches BufferView::Word(w) && w
                == salt@.len()),
    {
        let mut buffers: Vec<BufferSpec> = Vec::new();
        assert(views_of(buffers@) =~= Seq::<BufferView>::empty());
        push_digest_salt(&mut buffers, rom_digest, salt);
        buffers.push(BufferSpec::Output(256));
        buffers.push(BufferSpec::Output(64));
        buffers.push(BufferSpec::Output(4));
        let call = single_thread_call(Kernel::PostInstructions, StorageMode::Managed, buffers);
        assert(call.slots() =~= digest_salt_slots(rom_digest@, salt@, seq![
            BufferView::Output(256),
            BufferView::Output(64),
            BufferView::Output(4),
        ]));
        call
    }

    /// The run of the finalisation kernel: outputs the final hash.
    pub fn vm_finalize_call(&self, rom_digest: &[u8; 64], salt: &[u8]) -> (call: KernelCall)
        ensures
            call.kernel == Kernel::VmFinalize,
            call.storage_mode == StorageMode::Managed,
            call.dispatch == Dispatch::SingleThread,
            call.slots() == digest_salt_slots(rom_digest@, salt@, seq![BufferView::Output(64)]),
            salt@.len() <= u32::MAX ==> (call.slots()[2] matches BufferView::Word(w) && w
                == salt@.len()),
    {
        let mut buffers: Vec<BufferSpec> = Vec::new();
        assert(views_of(buffers@) =~= Seq::<BufferView>::empty());
        push_digest_salt(&mut buffers, rom_digest, salt);
        buffers.push(BufferSpec::Output(64));
        let call = single_thread_call(Kernel::VmFinalize, StorageMode::Managed, buffers);
        assert(call.slots() =~= digest_salt_slots(rom_digest@, salt@, seq![BufferView::Output(64)]));
        call
    }

    /// The run of the program execution kernel over a ROM whose original
    /// size is `rom_original_len`: outputs the registers.
    pub fn execute_program_call(
        &self,
        rom_original_len: usize,
        rom_digest: &[u8; 64],
        salt: &[u8],
        nb_instrs: u32,
    ) -> (call: KernelCall)
        ensures
            call.kernel == Kernel::ExecuteProgram,
            call.storage_mode == StorageMode::Managed,
            call.dispatch == Dispatch::SingleThread,
            call.slots() == rom_slots(
                rom_digest@,
                salt@,
                rom_original_len as int,
                nb_instrs,
                seq![BufferView::Output(256)],
            ),
            rom_original_len <= u32::MAX ==> (call.slots()[4] matches BufferView::Word(w) && w
                == rom_original_len),
            salt@.len() <= u32::MAX ==> (call.slots()[3] matches BufferView::Word(w) && w
                == salt@.len()),
    {
        let mut buffers: Vec<BufferSpec> = Vec::new();
        buffers.push(BufferSpec::RomData);
        buffers.push(BufferSpec::Bytes(slice_to_vec(rom_digest.as_slice())));
        buffers.push(BufferSpec::Bytes(slice_to_vec(salt)));
        buffers.push(BufferSpec::Word(salt.len() as u32));
        buffers.push(BufferSpec::Word(rom_original_len as u32));
        buffers.push(BufferSpec::Word(nb_instrs));
        buffers.push(BufferSpec::Output(256));
        let call = single_thread_call(Kernel::ExecuteProgram, StorageMode::Managed, buffers);
        assert(call.slots() =~= rom_slots(
            rom_digest@,
            salt@,
            rom_original_len as int,
            nb_instrs,
            seq![BufferView::Output(256)],
        ));
        call
    }

    /// The run of the single-instruction kernel on the instruction
    /// `prog_chunk`, over a full ROM of `rom_data_len` bytes: outputs the
    /// registers, the two counters, and the program and memory digests.
    pub fn execute_one_instruction_call(
        &self,
        rom_data_len: usize,
        rom_digest: &[u8; 64],
        salt: &[u8],
        nb_instrs: u32,
        prog_chunk: &[u8; 20],
    ) -> (call: KernelCall)
        ensures
            call.kernel == Kernel::ExecuteOneInstruction,
            call.storage_mode == StorageMode::Managed,
            call.dispatch == Dispatch::SingleThread,
            call.slots() == rom_slots(
                rom_digest@,
                salt@,
                rom_data_len as int,
                nb_instrs,
                seq![
                    BufferView::Bytes(prog_chunk@),
                    BufferView::Output(256),
                    BufferView::Output(8),
                    BufferView::Output(64),
                    BufferView::Output(64),
                ],
            ),
            rom_data_len <= u32::MAX ==> (call.slots()[4] matches BufferView::Word(w) && w
                == rom_data_len),
            salt@.len() <= u32::MAX ==> (call.slots()[3] matches BufferView::Word(w) && w
                == salt@.len()),
    {
        let mut buffers: Vec<BufferSpec> = Vec::new();
        buffers.push(BufferSpec::RomData);
        buffers.push(BufferSpec::Bytes(slice_to_vec(rom_digest.as_slice())));
        buffers.push(BufferSpec::Bytes(slice_to_vec(salt)));
        buffers.push(BufferSpec::Word(salt.len() as u32));
        buffers.push(BufferSpec::Word(rom_data_len as u32));
        buffers.push(BufferSpec::Word(nb_instrs));
        buffers.push(BufferSpec::Bytes(slice_to_vec(prog_chunk.as_slice())));
        buffers.push(BufferSpec::Output(256));
        buffers.push(BufferSpec::Output(8));
        buffers.push(BufferSpec::Output(64));
        buffers.push(BufferSpec::Output(64));
        let call = single_thread_call(Kernel::ExecuteOneInstruction, StorageMode::Managed, buffers);
        assert(call.slots() =~= rom_slots(
            rom_digest@,
            salt@,
            rom_data_len as int,
            nb_instrs,
            seq![
                BufferView::Bytes(prog_chunk@),
                BufferView::Output(256),
                BufferView::Output(8),
                BufferView::Output(64),
                BufferView::Output(64),
            ],
        ));
        call
    }
}

/// Reads back the VM initialisation kernel's outputs, in slot order:
/// registers, program seed, instruction pointer, memory counter, loop
/// counter. Returns them as (registers, instruction pointer, program seed,
/// memory counter, loop counter).
pub fn read_vm_init(outputs: &[Vec<u8>]) -> (r: ([u64; 32], u32, [u8; 64], u32, u32))
    requires
        outputs@.len() == 5,
        outputs@[0]@.len() == 256,
        outputs@[1]@.len() == 64,
        outputs@[2]@.len() == 4,
        outputs@[3]@.len() == 4,
        outputs@[4]@.len() == 4,
    ensures
        forall|i: int| 0 <= i < 32 ==> #[trigger] r.0@[i] == le_u64_at(outputs@[0]@, 8 * i),
        r.1 == le_u32_at(outputs@[2]@, 0),
        r.2@ == outputs@[1]@,
        r.3 == le_u32_at(outputs@[3]@, 0),
        r.4 == le_u32_at(outputs@[4]@, 0),
{
    let regs = read_regs(outputs[0].as_slice());
    let seed = read_digest(outputs[1].as_slice(), 0);
    assert(outputs@[1]@.subrange(0, 64) =~= outputs@[1]@);
    let ip = read_le_u32(outputs[2].as_slice(), 0);
    let memory_counter = read_le_u32(outputs[3].as_slice(), 0);
    let loop_counter = read_le_u32(outputs[4].as_slice(), 0);
    (regs, ip, seed, memory_counter, loop_counter)
}

/// Reads back the post-instructions kernel's outputs: registers, program
/// seed, loop counter.
pub fn read_post_instructions(outputs: &[Vec<u8>]) -> (r: ([u64; 32], [u8; 64], u32))
    requires
        outputs@.len() == 3,
        outputs@[0]@.len() == 256,
        outputs@[1]@.len() == 64,
        outputs@[2]@.len() == 4,
    ensures
        forall|i: int| 0 <= i < 32 ==> #[trigger] r.0@[i] == le_u64_at(outputs@[0]@, 8 * i),
        r.1@ == outputs@[1]@,
        r.2 == le_u32_at(outputs@[2]@, 0),
{
    let regs = read_regs(outputs[0].as_slice());
    let seed = read_digest(outputs[1].as_slice(), 0);
    assert(outputs@[1]@.subrange(0, 64) =~= outputs@[1]@);
    let loop_counter = read_le_u32(outputs[2].as_slice(), 0);
    (regs, seed, loop_counter)
}

/// Reads back a single 64-byte output (Blake2b digest, final hash).
pub fn read_hash(outputs: &[Vec<u8>]) -> (h: [u8; 64])
    requires
        outputs@.len() == 1,
        outputs@[0]@.len() == 64,
    ensures
        h@ == outputs@[0]@,
{
    let h = read_digest(outputs[0].as_slice(), 0);
    assert(outputs@[0]@.subrange(0, 64) =~= outputs@[0]@);
    h
}

/// Reads back the registers that the program execution kernel wrote.
pub fn read_registers(outputs: &[Vec<u8>]) -> (regs: [u64; 32])
    requires
        outputs@.len() == 1,
        outputs@[0]@.len() == 256,
    ensures
        forall|i: int| 0 <= i < 32 ==> #[trigger] regs@[i] == le_u64_at(outputs@[0]@, 8 * i),
{
    read_regs(outputs[0].as_slice())
}

/// Reads back the H' kernel's output bytes.
pub fn read_hprime(outputs: &[Vec<u8>], output_len: u32) -> (out: Vec<u8>)
    requires
        outputs@.len() == 1,
        outputs@[0]@.len() == output_len,
    ensures
        out@ == outputs@[0]@,
{
    slice_to_vec(outputs[0].as_slice())
}

/// Reads back the single-instruction kernel's outputs: registers, the
/// instruction pointer and memory counter (two little-endian words), and
/// the program and memory digests.
pub fn read_execute_one_instruction(outputs: &[Vec<u8>]) -> (r: TestExecOneResult)
    requires
        outputs@.len() == 4,
        outputs@[0]@.len() == 256,
        outputs@[1]@.len() == 8,
        outputs@[2]@.len() == 64,
        outputs@[3]@.len() == 64,
    ensures
        forall|i: int| 0 <= i < 32 ==> #[trigger] r.final_regs@[i] == le_u64_at(outputs@[0]@, 8 * i),
        r.final_ip == le_u32_at(outputs@[1]@, 0),
        r.final_memory_counter == le_u32_at(outputs@[1]@, 4),
        r.final_prog_digest_hash@ == outputs@[2]@,
        r.final_mem_digest_hash@ == outputs@[3]@,
{
    let final_regs = read_regs(outputs[0].as_slice());
    let final_ip = read_le_u32(outputs[1].as_slice(), 0);
    let final_memory_counter = read_le_u32(outputs[1].as_slice(), 4);
    let final_prog_digest_hash = read_digest(outputs[2].as_slice(), 0);
    let final_mem_digest_hash = read_digest(outputs[3].as_slice(), 0);
    assert(outputs@[2]@.subrange(0, 64) =~= outputs@[2]@);
    assert(outputs@[3]@.subrange(0, 64) =~= outputs@[3]@);
    TestExecOneResult {
        final_regs,
        final_ip,
        final_memory_counter,
        final_prog_digest_hash,
        final_mem_digest_hash,
    }
}


/// The hashes read back from a hash output of `n` hashes: the 64-byte
/// pieces of the buffer, in order.
pub open spec fn split_hashes(output: Seq<u8>, n: nat) -> Seq<Seq<u8>> {
    Seq::new(n, |i: int| output.subrange(64 * i, 64 * i + 64))
}

proof fn lemma_concat_split(output: Seq<u8>, n: nat)
    requires
        output.len() == n * 64,
    ensures
        concat_all(split_hashes(output, n)) == output,
    decreases n,
{
    if n == 0 {
        assert(concat_all(split_hashes(output, n)) =~= output);
    } else {
        let m = (n - 1) as nat;
        let mi: int = (m * 64) as int;
        let prefix = output.subrange(0, mi);
        assert(m * 64 + 64 == n * 64) by (nonlinear_arith)
            requires
                m == n - 1,
        ;
        lemma_concat_split(prefix, m);
        assert(split_hashes(output, n).drop_last() =~= split_hashes(prefix, m)) by {
            assert forall|i: int| 0 <= i < m implies #[trigger] split_hashes(output, n)[i]
                == split_hashes(prefix, m)[i] by {
                assert(64 * i + 64 <= m * 64) by (nonlinear_arith)
                    requires
                        i < m,
                ;
                assert(output.subrange(64 * i, 64 * i + 64) =~= prefix.subrange(64 * i, 64 * i + 64));
            }
        }
        assert(split_hashes(output, n).last() == output.subrange(mi, mi + 64));
        assert(output =~= prefix + output.subrange(mi, mi + 64));
    }
}

/// Reading a hash output back loses and repeats nothing: there are as many
/// hashes as salts, and laid end to end they are the output buffer.
pub proof fn law_collect_covers_output(output: Seq<u8>, n: nat)
    requires
        output.len() == n * 64,
    ensures
        split_hashes(output, n).len() == n,
        forall|i: int| 0 <= i < n ==> (#[trigger] split_hashes(output, n)[i]).len() == 64,
        concat_all(split_hashes(output, n)) == output,
{
    assert forall|i: int| 0 <= i < n implies (#[trigger] split_hashes(output, n)[i]).len() == 64 by {
        assert(64 * i + 64 <= n * 64) by (nonlinear_arith)
            requires
                i < n,
        ;
    }
    lemma_concat_split(output, n);
}

/// Salts of one length laid end to end sit at a fixed stride: salt `i` is
/// the `i`-th piece of that length, which is how the kernel finds it.
pub proof fn law_salts_at_fixed_stride(salts: Seq<Seq<u8>>, salt_len: nat)
    requires
        forall|i: int| 0 <= i < salts.len() ==> (#[trigger] salts[i]).len() == salt_len,
    ensures
        concat_all(salts).len() == salts.len() * salt_len,
        forall|i: int|
            0 <= i < salts.len() ==> concat_all(salts).subrange(
                i * salt_len,
                i * salt_len + salt_len,
            ) == #[trigger] salts[i],
    decreases salts.len(),
{
    if salts.len() == 0 {
    } else {
        let init = salts.drop_last();
        let n = salts.len();
        law_salts_at_fixed_stride(init, salt_len);
        assert((n - 1) * salt_len + salt_len == n * salt_len) by (nonlinear_arith);
        let all = concat_all(salts);
        assert(all == concat_all(init) + salts.last());
        assert forall|i: int| 0 <= i < salts.len() implies all.subrange(
            i * salt_len,
            i * salt_len + salt_len,
        ) == #[trigger] salts[i] by {
            if i < n - 1 {
                assert(i * salt_len + salt_len <= (n - 1) * salt_len) by (nonlinear_arith)
                    requires
                        i < n - 1,
                        0 <= i,
                ;
                assert(init[i] == salts[i]);
                assert(all.subrange(i * salt_len, i * salt_len + salt_len) =~= concat_all(
                    init,
                ).subrange(i * salt_len, i * salt_len + salt_len));
            } else {
                assert(all.subrange(i * salt_len, i * salt_len + salt_len) =~= salts.last());
            }
        }
    }
}

/// The outputs of the hashing kernel, in slot order: the hashes, the
/// program scratch space and the profiling counters.
pub proof fn law_hash_outputs(
    rom_digest: Seq<u8>,
    salts: Seq<u8>,
    salt_len: int,
    num_salts: int,
    rom_original_len: int,
    nb_loops: u32,
    nb_instrs: u32,
)
    ensures
        output_sizes_of(
            hash_slots(rom_digest, salts, salt_len, num_salts, rom_original_len, nb_loops, nb_instrs),
        ) == seq![(num_salts * 64) as u64, (num_salts * 5120) as u64, (num_salts * 28) as u64],
{
    let sl = hash_slots(rom_digest, salts, salt_len, num_salts, rom_original_len, nb_loops, nb_instrs);
    reveal_with_fuel(output_sizes_of, 11);
    assert(output_sizes_of(sl) =~= seq![(num_salts * 64) as u64, (num_salts * 5120) as u64, (num_salts * 28) as u64]);
}


impl Kernel {
    /// The name of the kernel's function in the shader library.
    pub fn function_name(&self) -> (name: &'static str)
        ensures
            name@ == match self {
                Kernel::AshmaizeHash => "ashmaize_hash"@,
                Kernel::Blake2b => "test_blake2b"@,
                Kernel::Hprime => "test_hprime"@,
                Kernel::PostInstructions => "test_post_instructions"@,
                Kernel::VmInit => "test_vm_init"@,
                Kernel::ExecuteProgram => "test_execute_program"@,
                Kernel::ExecuteOneInstruction => "test_execute_one_instruction"@,
                Kernel::VmFinalize => "test_vm_finalize"@,
            },
    {
        match self {
            Kernel::AshmaizeHash => "ashmaize_hash",
            Kernel::Blake2b => "test_blake2b",
            Kernel::Hprime => "test_hprime",
            Kernel::PostInstructions => "test_post_instructions",
            Kernel::VmInit => "test_vm_init",
            Kernel::ExecuteProgram => "test_execute_program",
            Kernel::ExecuteOneInstruction => "test_execute_one_instruction",
            Kernel::VmFinalize => "test_vm_finalize",
        }
    }
}

/// The kernels that a device must provide, in the order they are loaded.
pub fn all_kernels() -> (kernels: Vec<Kernel>)
    ensures
        kernels@ == seq![
            Kernel::AshmaizeHash,
            Kernel::Blake2b,
            Kernel::Hprime,
            Kernel::PostInstructions,
            Kernel::VmInit,
            Kernel::ExecuteProgram,
            Kernel::ExecuteOneInstruction,
            Kernel::VmFinalize,
        ],
{
    let mut kernels: Vec<Kernel> = Vec::new();
    kernels.push(Kernel::AshmaizeHash);
    kernels.push(Kernel::Blake2b);
    kernels.push(Kernel::Hprime);
    kernels.push(Kernel::PostInstructions);
    kernels.push(Kernel::VmInit);
    kernels.push(Kernel::ExecuteProgram);
    kernels.push(Kernel::ExecuteOneInstruction);
    kernels.push(Kernel::VmFinalize);
    assert(kernels@ =~= seq![
        Kernel::AshmaizeHash,
        Kernel::Blake2b,
        Kernel::Hprime,
        Kernel::PostInstructions,
        Kernel::VmInit,
        Kernel::ExecuteProgram,
        Kernel::ExecuteOneInstruction,
        Kernel::VmFinalize,
    ]);
    kernels
}

proof fn lemma_output_sizes_append(a: Seq<BufferView>, b: Seq<BufferView>)
    ensures
        output_sizes_of(a + b) == output_sizes_of(a) + output_sizes_of(b),
    decreases b.len(),
{
    if b.len() == 0 {
        assert(a + b =~= a);
        assert(output_sizes_of(a) + output_sizes_of(b) =~= output_sizes_of(a));
    } else {
        lemma_output_sizes_append(a, b.drop_last());
        assert((a + b).drop_last() =~= a + b.drop_last());
        assert((a + b).last() == b.last());
        match b.last() {
            BufferView::Output(n) => {
                assert(output_sizes_of(a) + output_sizes_of(b.drop_last()).push(n) =~= (
                output_sizes_of(a) + output_sizes_of(b.drop_last())).push(n));
            },
            _ => {},
        }
    }
}

/// The inputs that the digest-and-salt kernels read first add no outputs:
/// the outputs of such a call are those of the slots that follow.
pub proof fn law_digest_salt_outputs(rom_digest: Seq<u8>, salt: Seq<u8>, rest: Seq<BufferView>)
    ensures
        output_sizes_of(digest_salt_slots(rom_digest, salt, rest)) == output_sizes_of(rest),
{
    let head = seq![
        BufferView::Bytes(rom_digest),
        BufferView::Bytes(salt),
        BufferView::Word(salt.len() as u32),
    ];
    lemma_output_sizes_append(head, rest);
    reveal_with_fuel(output_sizes_of, 4);
    assert(output_sizes_of(head) =~= Seq::<u64>::empty());
    assert(Seq::<u64>::empty() + output_sizes_of(rest) =~= output_sizes_of(rest));
}

/// Likewise for the kernels that read the ROM.
pub proof fn law_rom_outputs(
    rom_digest: Seq<u8>,
    salt: Seq<u8>,
    rom_size: int,
    nb_instrs: u32,
    rest: Seq<BufferView>,
)
    ensures
        output_sizes_of(rom_slots(rom_digest, salt, rom_size, nb_instrs, rest)) == output_sizes_of(
            rest,
        ),
{
    let head = seq![
        BufferView::RomData,
        BufferView::Bytes(rom_digest),
        BufferView::Bytes(salt),
        BufferView::Word(salt.len() as u32),
        BufferView::Word(rom_size as u32),
        BufferView::Word(nb_instrs),
    ];
    lemma_output_sizes_append(head, rest);
    reveal_with_fuel(output_sizes_of, 7);
    assert(output_sizes_of(head) =~= Seq::<u64>::empty());
    assert(Seq::<u64>::empty() + output_sizes_of(rest) =~= output_sizes_of(rest));
}


/// Reads a buffer of little-endian 32-bit words (such as the profiling
/// counters) back as words.
pub fn read_le_u32s(b: &[u8]) -> (words: Vec<u32>)
    requires
        b@.len() % 4 == 0,
    ensures
        words@.len() * 4 == b@.len(),
        forall|i: int| 0 <= i < words@.len() ==> #[trigger] words@[i] == le_u32_at(b@, 4 * i),
{
    let n = b.len() / 4;
    let mut words: Vec<u32> = Vec::new();
    let mut i: usize = 0;
    while i < n
        invariant
            i <= n,
            n * 4 == b@.len(),
            b@.len() == b.len(),
            words@.len() == i,
            forall|t: int| 0 <= t < i ==> #[trigger] words@[t] == le_u32_at(b@, 4 * t),
        decreases n - i,
    {
        words.push(read_le_u32(b, 4 * i));
        i = i + 1;
    }
    words
}


/// The hashing call binds each value in full: the ROM in slot 0, the digest
/// in 1, the salts in 2, the salt length in 3 and the ROM's original length
/// in 4 (each as the plain number, whenever it fits in 32 bits), the
/// instruction and loop counts in 5 and 6, and outputs of 64, 5120 and 28
/// bytes per salt in 7, 8 and 9.
pub proof fn law_hash_slots_bind_values(
    rom_digest: Seq<u8>,
    salts: Seq<u8>,
    salt_len: int,
    num_salts: int,
    rom_original_len: int,
    nb_loops: u32,
    nb_instrs: u32,
)
    requires
        0 <= salt_len <= u32::MAX,
        0 <= rom_original_len <= u32::MAX,
        0 <= num_salts,
        num_salts * 5120 <= u64::MAX,
    ensures
        ({
            let sl = hash_slots(rom_digest, salts, salt_len, num_salts, rom_original_len, nb_loops, nb_instrs);
            &&& sl.len() == 10
            &&& sl[0] == BufferView::RomData
            &&& sl[1] == BufferView::Bytes(rom_digest)
            &&& sl[2] == BufferView::Bytes(salts)
            &&& sl[3] matches BufferView::Word(w) && w == salt_len
            &&& sl[4] matches BufferView::Word(w) && w == rom_original_len
            &&& sl[5] == BufferView::Word(nb_instrs)
            &&& sl[6] == BufferView::Word(nb_loops)
            &&& sl[7] matches BufferView::Output(n) && n == num_salts * 64
            &&& sl[8] matches BufferView::Output(n) && n == num_salts * 5120
            &&& sl[9] matches BufferView::Output(n) && n == num_salts * 28
        }),
{
    assert(num_salts * 28 <= num_salts * 64 <= num_salts * 5120) by (nonlinear_arith)
        requires
            0 <= num_salts,
    ;
}

/// A digest-and-salt kernel call binds the digest in slot 0, the whole salt
/// in slot 1 and the salt's length (the plain number, whenever it fits in 32
/// bits, so it agrees with the bytes of slot 1) in slot 2; the kernel's own
/// slots follow unchanged.
pub proof fn law_digest_salt_slots_bind_values(rom_digest: Seq<u8>, salt: Seq<u8>, rest: Seq<BufferView>)
    requires
        salt.len() <= u32::MAX,
    ensures
        ({
            let sl = digest_salt_slots(rom_digest, salt, rest);
            &&& sl.len() == 3 + rest.len()
            &&& sl[0] == BufferView::Bytes(rom_digest)
            &&& sl[1] == BufferView::Bytes(salt)
            &&& sl[2] matches BufferView::Word(w) && w == salt.len()
            &&& sl.subrange(3, sl.len() as int) == rest
        }),
{
    let sl = digest_salt_slots(rom_digest, salt, rest);
    assert(sl.subrange(3, sl.len() as int) =~= rest);
}

/// A ROM kernel call binds the ROM in slot 0, the digest in 1, the whole
/// salt in 2, the salt's length in 3 and the ROM size in 4 (each the plain
/// number, whenever it fits in 32 bits), and the instruction count in 5; the
/// kernel's own slots follow unchanged.
pub proof fn law_rom_slots_bind_values(
    rom_digest: Seq<u8>,
    salt: Seq<u8>,
    rom_size: int,
    nb_instrs: u32,
    rest: Seq<BufferView>,
)
    requires
        salt.len() <= u32::MAX,
        0 <= rom_size <= u32::MAX,
    ensures
        ({
            let sl = rom_slots(rom_digest, salt, rom_size, nb_instrs, rest);
            &&& sl.len() == 6 + rest.len()
            &&& sl[0] == BufferView::RomData
            &&& sl[1] == BufferView::Bytes(rom_digest)
            &&& sl[2] == BufferView::Bytes(salt)
            &&& sl[3] matches BufferView::Word(w) && w == salt.len()
            &&& sl[4] matches BufferView::Word(w) && w == rom_size
            &&& sl[5] == BufferView::Word(nb_instrs)
            &&& sl.subrange(6, sl.len() as int) == rest
        }),
{
    let sl = rom_slots(rom_digest, salt, rom_size, nb_instrs, rest);
    assert(sl.subrange(6, sl.len() as int) =~= rest);
}

proof fn lemma_u64_bytes(x: u64)
    ensures
        x as int == (x & 0xff) as int + ((x >> 8u64) & 0xff) as int * 0x100 + ((x >> 16u64) & 0xff) as int
            * 0x1_0000 + ((x >> 24u64) & 0xff) as int * 0x100_0000 + ((x >> 32u64) & 0xff) as int
            * 0x1_0000_0000 + ((x >> 40u64) & 0xff) as int * 0x100_0000_0000 + ((x >> 48u64) & 0xff) as int
            * 0x1_0000_0000_0000 + ((x >> 56u64) & 0xff) as int * 0x100_0000_0000_0000,
{
    assert(x as int == (x & 0xff) as int + ((x >> 8u64) & 0xff) as int * 0x100 + ((x >> 16u64) & 0xff) as int
        * 0x1_0000 + ((x >> 24u64) & 0xff) as int * 0x100_0000 + ((x >> 32u64) & 0xff) as int
        * 0x1_0000_0000 + ((x >> 40u64) & 0xff) as int * 0x100_0000_0000 + ((x >> 48u64) & 0xff) as int
        * 0x1_0000_0000_0000 + ((x >> 56u64) & 0xff) as int * 0x100_0000_0000_0000) by (bit_vector);
}

proof fn lemma_u32_bytes(x: u32)
    ensures
        x as int == (x & 0xff) as int + ((x >> 8u32) & 0xff) as int * 0x100 + ((x >> 16u32) & 0xff) as int
            * 0x1_0000 + ((x >> 24u32) & 0xff) as int * 0x100_0000,
{
    assert(x as int == (x & 0xff) as int + ((x >> 8u32) & 0xff) as int * 0x100 + ((x >> 16u32) & 0xff) as int
        * 0x1_0000 + ((x >> 24u32) & 0xff) as int * 0x100_0000) by (bit_vector);
}

/// Reading a register back undoes the device's little-endian write: where
/// the eight bytes at `off` are those of `x` (byte `j` is bits `8j..8j+7`),
/// the value read is `x`.
pub proof fn law_le_u64_reads_device_word(b: Seq<u8>, off: int, x: u64)
    requires
        0 <= off,
        off + 8 <= b.len(),
        forall|j: int| 0 <= j < 8 ==> #[trigger] b[off + j] as int == (x >> ((8 * j) as u64)) & 0xff,
    ensures
        le_u64_at(b, off) == x,
{
    let z: int = 0;
    assert(b[off + z] as int == (x >> ((8 * z) as u64)) & 0xff);
    assert(((8 * z) as u64) == 0u64);
    assert(b[off + 1] as int == (x >> 8u64) & 0xff);
    assert(b[off + 2] as int == (x >> 16u64) & 0xff);
    assert(b[off + 3] as int == (x >> 24u64) & 0xff);
    assert(b[off + 4] as int == (x >> 32u64) & 0xff);
    assert(b[off + 5] as int == (x >> 40u64) & 0xff);
    assert(b[off + 6] as int == (x >> 48u64) & 0xff);
    assert(b[off + 7] as int == (x >> 56u64) & 0xff);
    assert(x >> 0u64 == x) by (bit_vector);
    lemma_u64_bytes(x);
}

/// Likewise for the device's 32-bit words (counters, instruction pointer).
pub proof fn law_le_u32_reads_device_word(b: Seq<u8>, off: int, x: u32)
    requires
        0 <= off,
        off + 4 <= b.len(),
        forall|j: int| 0 <= j < 4 ==> #[trigger] b[off + j] as int == (x >> ((8 * j) as u32)) & 0xff,
    ensures
        le_u32_at(b, off) == x,
{
    let z: int = 0;
    assert(b[off + z] as int == (x >> ((8 * z) as u32)) & 0xff);
    assert(((8 * z) as u32) == 0u32);
    assert(b[off + 1] as int == (x >> 8u32) & 0xff);
    assert(b[off + 2] as int == (x >> 16u32) & 0xff);
    assert(b[off + 3] as int == (x >> 24u32) & 0xff);
    assert(x >> 0u32 == x) by (bit_vector);
    lemma_u32_bytes(x);
}


/// Buffers live in shared memory exactly on devices with unified memory,
/// and in managed memory otherwise.
pub proof fn law_storage_mode_follows_memory(unified: bool)
    ensures
        (storage_mode_for(unified) == StorageMode::Shared) <==> unified,
        (storage_mode_for(unified) == StorageMode::Managed) <==> !unified,
{
}

/// A batch passes the length check exactly when any two of its salts have
/// the same length.
pub proof fn law_same_lengths_pairwise(salts: Seq<Seq<u8>>)
    ensures
        same_lengths(salts) <==> forall|i: int, j: int|
            0 <= i < salts.len() && 0 <= j < salts.len() ==> #[trigger] salts[i].len()
                == #[trigger] salts[j].len(),
{
    if same_lengths(salts) {
        assert forall|i: int, j: int|
            0 <= i < salts.len() && 0 <= j < salts.len() implies #[trigger] salts[i].len()
            == #[trigger] salts[j].len() by {
            assert(salts[i].len() == salts[0].len());
            assert(salts[j].len() == salts[0].len());
        }
    }
    if forall|i: int, j: int|
        0 <= i < salts.len() && 0 <= j < salts.len() ==> #[trigger] salts[i].len()
            == #[trigger] salts[j].len() {
        assert forall|i: int| 0 <= i < salts.len() implies (#[trigger] salts[i]).len()
            == salts[0].len() by {
            assert(salts[i].len() == salts[0].len());
        }
    }
}

proof fn lemma_counter_total_past(counters: Seq<u32>, k: int, m: nat, p: int, v: u32)
    requires
        0 <= k < 7,
        m * 7 <= p < counters.len(),
    ensures
        counter_total(counters.update(p, v), k, m) == counter_total(counters, k, m),
    decreases m,
{
    if m > 0 {
        let mm = (m - 1) as nat;
        assert(mm * 7 + k < p) by (nonlinear_arith)
            requires
                m * 7 <= p,
                mm == m - 1,
                k < 7,
        ;
        assert(mm * 7 <= p) by (nonlinear_arith)
            requires
                m * 7 <= p,
                mm == m - 1,
        ;
        lemma_counter_total_past(counters, k, mm, p, v);
    }
}

/// Each counter of each salt is counted once, in its own total only:
/// changing counter `k` of salt `i` to `v` changes total `k` by the
/// difference and leaves the other six totals as they were.
pub proof fn law_counter_total_update(counters: Seq<u32>, n: nat, i: int, k: int, k2: int, v: u32)
    requires
        counters.len() == n * 7,
        0 <= i < n,
        0 <= k < 7,
        0 <= k2 < 7,
    ensures
        counter_total(counters.update(i * 7 + k, v), k2, n) == counter_total(counters, k2, n) + (
        if k2 == k {
            v - counters[i * 7 + k]
        } else {
            0
        }),
{
    lemma_counter_total_update_prefix(counters, n, n, i, k, k2, v);
}

proof fn lemma_counter_total_update_prefix(counters: Seq<u32>, m: nat, n: nat, i: int, k: int, k2: int, v: u32)
    requires
        counters.len() == n * 7,
        m <= n,
        0 <= i < m,
        0 <= k < 7,
        0 <= k2 < 7,
    ensures
        counter_total(counters.update(i * 7 + k, v), k2, m) == counter_total(counters, k2, m) + (
        if k2 == k {
            v - counters[i * 7 + k]
        } else {
            0
        }),
    decreases m,
{
    let c2 = counters.update(i * 7 + k, v);
    let mm = (m - 1) as nat;
    assert(mm * 7 + k2 < n * 7) by (nonlinear_arith)
        requires
            mm < n,
            k2 < 7,
    ;
    assert(i * 7 + k < n * 7) by (nonlinear_arith)
        requires
            i < n,
            k < 7,
    ;
    if i == mm {
        assert(mm * 7 <= i * 7 + k);
        lemma_counter_total_past(counters, k2, mm, i * 7 + k, v);
        assert(c2[mm * 7 + k2] == if k2 == k { v } else { counters[mm * 7 + k2] });
    } else {
        lemma_counter_total_update_prefix(counters, mm, n, i, k, k2, v);
        assert(i * 7 + k < mm * 7) by (nonlinear_arith)
            requires
                i < mm,
                k < 7,
        ;
        assert(c2[mm * 7 + k2] == counters[mm * 7 + k2]);
    }
}

} // verus!
