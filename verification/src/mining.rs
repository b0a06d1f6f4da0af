use vstd::prelude::*;
use crate::hex;
use vstd::string::StringSliceAdditionalSpecFns;

verus! {

/// The big-endian value of the first four bytes of `hash`.
pub open spec fn prefix_value(hash: Seq<u8>) -> u32
    recommends
        hash.len() >= 4,
{
    (hash[0] as int * 16777216 + hash[1] as int * 65536 + hash[2] as int * 256
        + hash[3] as int) as u32
}

/// A hash meets a difficulty mask when it has at least four bytes and its
/// big-endian 32-bit prefix has no bit set outside the mask.
pub open spec fn meets_difficulty(hash: Seq<u8>, difficulty_mask: u32) -> bool {
    hash.len() >= 4 && (prefix_value(hash) & !difficulty_mask) == 0
}

/// Checks whether `hash` satisfies the difficulty `difficulty_mask`.
pub fn hash_structure_good(hash: &[u8], difficulty_mask: u32) -> (good: bool)
    ensures
        good == meets_difficulty(hash@, difficulty_mask),
{
    if hash.len() < 4 {
        return false;
    }
    let hash_prefix: u32 = (hash[0] as u32) * 16777216 + (hash[1] as u32) * 65536
        + (hash[2] as u32) * 256 + (hash[3] as u32);
    (hash_prefix & !difficulty_mask) == 0
}


/// One mebibyte.
pub const MB: usize = 1048576;

/// One gibibyte.
pub const GB: usize = 1073741824;

/// The nonce at which the GPU worker starts, far above the nonces that the
/// CPU workers reach.
pub const GPU_NONCE_START: u64 = 4503599627370496;

/// The number of preimages that the GPU worker hashes per batch.
pub const GPU_BATCH_SIZE: usize = 10000;

/// The value of the shared winning nonce while no solution has been found.
pub const NO_SOLUTION: u64 = 0xffff_ffff_ffff_ffff;

/// Appends `bytes` to `out`.
pub fn append_bytes(out: &mut Vec<u8>, bytes: &[u8])
    ensures
        final(out)@ == old(out)@ + bytes@,
{
    let mut i: usize = 0;
    while i < bytes.len()
        invariant
            i <= bytes@.len(),
            out@ == old(out)@ + bytes@.take(i as int),
        decreases bytes.len() - i,
    {
        out.push(bytes[i]);
        assert(bytes@.take(i + 1) =~= bytes@.take(i as int).push(bytes@[i as int]));
        i = i + 1;
    }
    assert(bytes@.take(bytes@.len() as int) =~= bytes@);
}

/// The suffix that follows the nonce in every preimage: the six challenge
/// fields, one after the other.
pub open spec fn suffix_bytes(
    address: Seq<u8>,
    challenge_id: Seq<u8>,
    difficulty: Seq<u8>,
    no_pre_mine: Seq<u8>,
    latest_submission: Seq<u8>,
    no_pre_mine_hour: Seq<u8>,
) -> Seq<u8> {
    address + challenge_id + difficulty + no_pre_mine + latest_submission + no_pre_mine_hour
}

/// Builds the preimage suffix from the challenge fields.
pub fn challenge_suffix(
    address: &str,
    challenge_id: &str,
    difficulty: &str,
    no_pre_mine: &str,
    latest_submission: &str,
    no_pre_mine_hour: &str,
) -> (suffix: Vec<u8>)
    ensures
        suffix@ == suffix_bytes(
            address.spec_bytes(),
            challenge_id.spec_bytes(),
            difficulty.spec_bytes(),
            no_pre_mine.spec_bytes(),
            latest_submission.spec_bytes(),
            no_pre_mine_hour.spec_bytes(),
        ),
{
    let mut suffix: Vec<u8> = Vec::new();
    append_bytes(&mut suffix, address.as_bytes());
    append_bytes(&mut suffix, challenge_id.as_bytes());
    append_bytes(&mut suffix, difficulty.as_bytes());
    append_bytes(&mut suffix, no_pre_mine.as_bytes());
    append_bytes(&mut suffix, latest_submission.as_bytes());
    append_bytes(&mut suffix, no_pre_mine_hour.as_bytes());
    assert(suffix@ =~= suffix_bytes(
        address.spec_bytes(),
        challenge_id.spec_bytes(),
        difficulty.spec_bytes(),
        no_pre_mine.spec_bytes(),
        latest_submission.spec_bytes(),
        no_pre_mine_hour.spec_bytes(),
    ));
    suffix
}

/// The preimage hashed for `nonce`: its sixteen hexadecimal digits followed
/// by the suffix.
pub open spec fn preimage_bytes(nonce: u64, suffix: Seq<u8>) -> Seq<u8> {
    hex::hex16(nonce) + suffix
}

/// Builds the preimage hashed for `nonce`.
pub fn nonce_preimage(nonce: u64, suffix: &[u8]) -> (preimage: Vec<u8>)
    ensures
        preimage@ == preimage_bytes(nonce, suffix@),
{
    let mut preimage = hex::format_hex16(nonce);
    append_bytes(&mut preimage, suffix);
    preimage
}

/// Builds the preimages of the nonces `start .. start + count`, in order.
pub fn batch_preimages(start: u64, count: usize, suffix: &[u8]) -> (preimages: Vec<Vec<u8>>)
    requires
        start + count <= u64::MAX,
    ensures
        preimages@.len() == count,
        forall|i: int|
            0 <= i < count ==> #[trigger] preimages@[i]@ == preimage_bytes(
                (start + i) as u64,
                suffix@,
            ),
{
    let mut preimages: Vec<Vec<u8>> = Vec::new();
    let mut i: usize = 0;
    while i < count
        invariant
            i <= count,
            start + count <= u64::MAX,
            preimages@.len() == i,
            forall|j: int|
                0 <= j < i ==> #[trigger] preimages@[j]@ == preimage_bytes(
                    (start + j) as u64,
                    suffix@,
                ),
        decreases count - i,
    {
        let p = nonce_preimage(start + i as u64, suffix);
        preimages.push(p);
        i = i + 1;
    }
    preimages
}

/// Parses the difficulty argument, a hexadecimal mask; `None` where
/// `u32::from_str_radix(difficulty, 16)` fails.
pub fn parse_difficulty_mask(difficulty: &str) -> (mask: Option<u32>)
    ensures
        mask == hex::parse_hex_u32_spec(difficulty.spec_bytes()),
{
    hex::parse_hex_u32(difficulty.as_bytes())
}

/// The index of the first hash of a batch that meets the difficulty, if any.
pub fn first_good_index(hashes: &[[u8; 64]], difficulty_mask: u32) -> (found: Option<usize>)
    ensures
        found matches Some(i) ==> i < hashes@.len() && meets_difficulty(
            hashes@[i as int]@,
            difficulty_mask,
        ) && forall|j: int|
            0 <= j < i ==> !meets_difficulty(#[trigger] hashes@[j]@, difficulty_mask),
        found is None ==> forall|j: int|
            0 <= j < hashes@.len() ==> !meets_difficulty(#[trigger] hashes@[j]@, difficulty_mask),
{
    let mut i: usize = 0;
    while i < hashes.len()
        invariant
            i <= hashes@.len(),
            forall|j: int| 0 <= j < i ==> !meets_difficulty(#[trigger] hashes@[j]@, difficulty_mask),
        decreases hashes.len() - i,
    {
        if hash_structure_good(hashes[i].as_slice(), difficulty_mask) {
            return Some(i);
        }
        i = i + 1;
    }
    None
}

/// The nonce that a search ended with, read from the shared winning nonce:
/// `None` while it still holds the sentinel.
pub fn solution_nonce(winning_nonce: u64) -> (solution: Option<u64>)
    ensures
        solution is None <==> winning_nonce == NO_SOLUTION,
        solution matches Some(n) ==> n == winning_nonce,
{
    if winning_nonce == NO_SOLUTION {
        None
    } else {
        Some(winning_nonce)
    }
}

/// The `round`-th nonce that CPU worker `thread_id` of `stride` tries.
pub open spec fn cpu_nonce(thread_id: int, stride: int, round: int) -> int {
    thread_id + round * stride
}

/// The nonce that a CPU worker tries after `local_nonce`.
pub fn next_cpu_nonce(local_nonce: u64, stride: u64) -> (next: u64)
    requires
        local_nonce + stride <= u64::MAX,
    ensures
        next == local_nonce + stride,
{
    local_nonce + stride
}

/// Distinct CPU workers never try the same nonce.
pub proof fn law_cpu_workers_disjoint(t1: int, t2: int, stride: int, r1: int, r2: int)
    requires
        0 <= t1 < stride,
        0 <= t2 < stride,
        0 <= r1,
        0 <= r2,
        t1 != t2,
    ensures
        cpu_nonce(t1, stride, r1) != cpu_nonce(t2, stride, r2),
{
    if cpu_nonce(t1, stride, r1) == cpu_nonce(t2, stride, r2) {
        assert(t1 - t2 == (r2 - r1) * stride) by (nonlinear_arith)
            requires
                t1 + r1 * stride == t2 + r2 * stride,
        ;
        if r2 > r1 {
            assert((r2 - r1) * stride >= stride) by (nonlinear_arith)
                requires
                    r2 - r1 >= 1,
                    stride > 0,
            ;
        } else if r2 < r1 {
            assert((r1 - r2) * stride >= stride) by (nonlinear_arith)
                requires
                    r1 - r2 >= 1,
                    stride > 0,
            ;
            assert((r2 - r1) * stride == -((r1 - r2) * stride)) by (nonlinear_arith);
        }
    }
}

/// Following a worker's nonces by `next_cpu_nonce` visits exactly the nonces
/// of its schedule.
pub proof fn law_next_cpu_nonce_follows_schedule(thread_id: int, stride: int, round: int)
    requires
        0 <= round,
    ensures
        cpu_nonce(thread_id, stride, round) + stride == cpu_nonce(thread_id, stride, round + 1),
{
    assert(round * stride + stride == (round + 1) * stride) by (nonlinear_arith);
}

/// A hash that meets a mask meets every mask that allows at least the same
/// bits.
pub proof fn law_difficulty_monotone(hash: Seq<u8>, mask: u32, wider: u32)
    requires
        meets_difficulty(hash, mask),
        (mask & !wider) == 0,
    ensures
        meets_difficulty(hash, wider),
{
    let p = prefix_value(hash);
    assert((p & !mask) == 0 && (mask & !wider) == 0 ==> (p & !wider) == 0) by (bit_vector);
}

/// With every bit allowed, every hash of at least four bytes meets the
/// difficulty; a shorter one meets none.
pub proof fn law_difficulty_bounds(hash: Seq<u8>, mask: u32)
    ensures
        hash.len() >= 4 ==> meets_difficulty(hash, 0xffff_ffffu32),
        hash.len() < 4 ==> !meets_difficulty(hash, mask),
{
    let p = prefix_value(hash);
    assert(p & !0xffff_ffffu32 == 0) by (bit_vector);
}


/// The sixteen hexadecimal digits at the head of a preimage read back as its
/// nonce, and the rest is the suffix.
pub proof fn law_preimage_encodes_nonce(nonce: u64, suffix: Seq<u8>)
    ensures
        preimage_bytes(nonce, suffix).len() == 16 + suffix.len(),
        hex::hex_value(preimage_bytes(nonce, suffix).take(16)) == nonce,
        preimage_bytes(nonce, suffix).skip(16) == suffix,
{
    hex::law_hex16_round_trip(nonce);
    assert(preimage_bytes(nonce, suffix).take(16) =~= hex::hex16(nonce));
    assert(preimage_bytes(nonce, suffix).skip(16) =~= suffix);
}

/// Distinct nonces give distinct preimages.
pub proof fn law_preimage_injective(a: u64, b: u64, suffix: Seq<u8>)
    requires
        a != b,
    ensures
        preimage_bytes(a, suffix) != preimage_bytes(b, suffix),
{
    law_preimage_encodes_nonce(a, suffix);
    law_preimage_encodes_nonce(b, suffix);
}

/// How the ROM is generated.
#[derive(Clone, Copy, Debug, PartialEq, Eq)]
pub enum RomGenerationType {
    /// Every byte drawn from the key.
    FullRandom,
    /// A smaller pre-ROM of `pre_size` bytes, mixed `mixing_numbers` times.
    TwoStep { pre_size: usize, mixing_numbers: usize },
}

/// The arguments with which a ROM is generated.
#[derive(Clone, Debug, PartialEq, Eq)]
pub struct RomParams {
    /// The key the ROM is derived from.
    pub key: Vec<u8>,
    /// The generation scheme.
    pub generation: RomGenerationType,
    /// The ROM's size in bytes.
    pub size: usize,
}

/// The ROM of a challenge: keyed by the bytes of its `no_pre_mine` field,
/// generated in two steps from a 16 MiB pre-ROM mixed four times, 1 GiB in
/// size.
pub fn init_rom(no_pre_mine_hex: &str) -> (params: RomParams)
    ensures
        params.key@ == no_pre_mine_hex.spec_bytes(),
        params.generation == (RomGenerationType::TwoStep { pre_size: 16777216, mixing_numbers: 4 }),
        params.size == GB,
{
    let mut key: Vec<u8> = Vec::new();
    append_bytes(&mut key, no_pre_mine_hex.as_bytes());
    assert(key@ =~= no_pre_mine_hex.spec_bytes());
    RomParams {
        key,
        generation: RomGenerationType::TwoStep { pre_size: 16 * MB, mixing_numbers: 4 },
        size: 1 * GB,
    }
}


/// What a worker does after hashing: stop with a solution, or go on from
/// the next nonce.
#[derive(Clone, Copy, Debug, PartialEq, Eq, Structural)]
pub enum SearchStep {
    /// This nonce solves the challenge.
    Found(u64),
    /// No solution yet; go on from this nonce.
    Continue(u64),
}

/// A CPU worker's decision after hashing the preimage of `local_nonce`.
pub fn cpu_step(local_nonce: u64, stride: u64, hash: &[u8], difficulty_mask: u32) -> (step: SearchStep)
    requires
        !meets_difficulty(hash@, difficulty_mask) ==> local_nonce + stride <= u64::MAX,
    ensures
        meets_difficulty(hash@, difficulty_mask) ==> step == SearchStep::Found(local_nonce),
        !meets_difficulty(hash@, difficulty_mask) ==> step == SearchStep::Continue(
            (local_nonce + stride) as u64,
        ),
{
    if hash_structure_good(hash, difficulty_mask) {
        SearchStep::Found(local_nonce)
    } else {
        SearchStep::Continue(next_cpu_nonce(local_nonce, stride))
    }
}

/// The GPU worker's decision after hashing the batch of nonces that starts
/// at `current_nonce`: the first nonce of the batch whose hash meets the
/// difficulty, or the start of the next batch.
pub fn gpu_batch_step(current_nonce: u64, hashes: &[[u8; 64]], difficulty_mask: u32) -> (step: SearchStep)
    requires
        hashes@.len() <= GPU_BATCH_SIZE,
        current_nonce + GPU_BATCH_SIZE <= u64::MAX,
    ensures
        step matches SearchStep::Found(n) ==> exists|i: int|
            0 <= i < hashes@.len() && n == current_nonce + i && meets_difficulty(
                #[trigger] hashes@[i]@,
                difficulty_mask,
            ) && forall|j: int|
                0 <= j < i ==> !meets_difficulty(#[trigger] hashes@[j]@, difficulty_mask),
        step matches SearchStep::Continue(n) ==> n == current_nonce + GPU_BATCH_SIZE && forall|
            j: int,
        | 0 <= j < hashes@.len() ==> !meets_difficulty(#[trigger] hashes@[j]@, difficulty_mask),
{
    match first_good_index(hashes, difficulty_mask) {
        Some(i) => SearchStep::Found(current_nonce + i as u64),
        None => SearchStep::Continue(current_nonce + GPU_BATCH_SIZE as u64),
    }
}


/// The GPU worker's nonces lie above every nonce that a CPU worker tries
/// before reaching `GPU_NONCE_START`, so the two never hash the same one.
pub proof fn law_gpu_nonces_above_cpu(thread_id: int, stride: int, round: int, k: int)
    requires
        0 <= k,
        cpu_nonce(thread_id, stride, round) < GPU_NONCE_START,
    ensures
        cpu_nonce(thread_id, stride, round) != GPU_NONCE_START + k,
{
}


proof fn lemma_prefix_bytes(p: u32, b0: u8, b1: u8, b2: u8, b3: u8, m: u32)
    requires
        p == b0 as int * 16777216 + b1 as int * 65536 + b2 as int * 256 + b3 as int,
    ensures
        ((p & !m) == 0) <==> ((b0 & !((m >> 24u32) as u8)) == 0 && (b1 & !((m >> 16u32) as u8))
            == 0 && (b2 & !((m >> 8u32) as u8)) == 0 && (b3 & !(m as u8)) == 0),
{
    assert(((p & !m) == 0) <==> ((b0 & !((m >> 24u32) as u8)) == 0 && (b1 & !((m >> 16u32) as u8))
        == 0 && (b2 & !((m >> 8u32) as u8)) == 0 && (b3 & !(m as u8)) == 0)) by (bit_vector)
        requires
            p == b0 as int * 16777216 + b1 as int * 65536 + b2 as int * 256 + b3 as int,
    ;
}

/// The difficulty is checked byte by byte against the mask, most significant
/// byte first: a hash of at least four bytes meets it exactly when each of
/// its first four bytes has no bit set outside the matching byte of the mask
/// (byte 0 against mask bits 24..31, byte 1 against bits 16..23, byte 2
/// against bits 8..15, byte 3 against bits 0..7). Every bit of each of those
/// four bytes counts, and no other byte does.
pub proof fn law_difficulty_by_bytes(hash: Seq<u8>, mask: u32)
    ensures
        meets_difficulty(hash, mask) <==> (hash.len() >= 4 && (hash[0] & !((mask >> 24u32) as u8))
            == 0 && (hash[1] & !((mask >> 16u32) as u8)) == 0 && (hash[2] & !((mask >> 8u32) as u8))
            == 0 && (hash[3] & !(mask as u8)) == 0),
{
    if hash.len() >= 4 {
        let (b0, b1, b2, b3) = (hash[0], hash[1], hash[2], hash[3]);
        lemma_prefix_bytes(prefix_value(hash), b0, b1, b2, b3, mask);
    }
}

/// The suffix is the six fields laid end to end, nothing cut or added: its
/// length is the sum of theirs, and each field sits whole at the offset
/// where the fields before it end.
pub proof fn law_suffix_fields_in_order(
    address: Seq<u8>,
    challenge_id: Seq<u8>,
    difficulty: Seq<u8>,
    no_pre_mine: Seq<u8>,
    latest_submission: Seq<u8>,
    no_pre_mine_hour: Seq<u8>,
)
    ensures
        ({
            let s = suffix_bytes(
                address,
                challenge_id,
                difficulty,
                no_pre_mine,
                latest_submission,
                no_pre_mine_hour,
            );
            let o1 = address.len() as int;
            let o2 = o1 + challenge_id.len();
            let o3 = o2 + difficulty.len();
            let o4 = o3 + no_pre_mine.len();
            let o5 = o4 + latest_submission.len();
            let o6 = o5 + no_pre_mine_hour.len();
            &&& s.len() == o6
            &&& s.subrange(0, o1) == address
            &&& s.subrange(o1, o2) == challenge_id
            &&& s.subrange(o2, o3) == difficulty
            &&& s.subrange(o3, o4) == no_pre_mine
            &&& s.subrange(o4, o5) == latest_submission
            &&& s.subrange(o5, o6) == no_pre_mine_hour
        }),
{
    let s = suffix_bytes(address, challenge_id, difficulty, no_pre_mine, latest_submission, no_pre_mine_hour);
    let o1 = address.len() as int;
    let o2 = o1 + challenge_id.len();
    let o3 = o2 + difficulty.len();
    let o4 = o3 + no_pre_mine.len();
    let o5 = o4 + latest_submission.len();
    let o6 = o5 + no_pre_mine_hour.len();
    let full = address + challenge_id + difficulty + no_pre_mine + latest_submission + no_pre_mine_hour;
    assert(s.len() == full.len());
    assert forall|i: int| 0 <= i < s.len() implies s[i] == full[i] by {}
    assert(s =~= full);
    assert(s.subrange(0, o1) =~= address);
    assert(s.subrange(o1, o2) =~= challenge_id);
    assert(s.subrange(o2, o3) =~= difficulty);
    assert(s.subrange(o3, o4) =~= no_pre_mine);
    assert(s.subrange(o4, o5) =~= latest_submission);
    assert(s.subrange(o5, o6) =~= no_pre_mine_hour);
}

} // verus!
