use ashmaize::metal::{
    all_kernels, read_le_u32s, read_execute_one_instruction, read_hash, read_hprime, read_post_instructions,
    read_registers, read_vm_init, BufferSpec, Dispatch, HashError, HashJob, Kernel, MetalAshmaize,
    StorageMode,
};

fn device() -> MetalAshmaize {
    MetalAshmaize::from_device(true, 2)
}

#[test]
fn storage_mode_follows_memory() {
    assert_eq!(MetalAshmaize::from_device(true, 1024).storage_mode(), StorageMode::Shared);
    assert_eq!(MetalAshmaize::from_device(false, 1024).storage_mode(), StorageMode::Managed);
}

#[test]
fn empty_batch_needs_no_device() {
    let job = device().hash(&[], &[0u8; 64], 1024, 8, 256).unwrap();
    assert_eq!(job, HashJob::Done(Vec::new()));
}

#[test]
fn unequal_salts_are_refused() {
    let salts: Vec<&[u8]> = vec![b"test_salt_1", b"a_slightly_longer_salt_3"];
    assert_eq!(device().hash(&salts, &[0u8; 64], 1024, 8, 256), Err(HashError::UnequalSaltLengths));
}

#[test]
fn hash_batch_layout() {
    let salts: Vec<&[u8]> = vec![b"ab", b"cd", b"ef"];
    let digest = [7u8; 64];
    let job = device().hash(&salts, &digest, 10_240, 8, 256).unwrap();
    let d = match job {
        HashJob::Dispatch(d) => d,
        HashJob::Done(_) => panic!("expected a dispatch"),
    };
    assert_eq!(d.num_salts, 3);
    assert_eq!(d.call.kernel, Kernel::AshmaizeHash);
    assert_eq!(d.call.storage_mode, StorageMode::Shared);
    assert_eq!(d.call.dispatch, Dispatch::Threads { grid_width: 3, threadgroup_width: 2 });
    assert_eq!(
        d.call.buffers,
        vec![
            BufferSpec::RomData,
            BufferSpec::Bytes(digest.to_vec()),
            BufferSpec::Bytes(b"abcdef".to_vec()),
            BufferSpec::Word(2),
            BufferSpec::Word(10_240),
            BufferSpec::Word(256),
            BufferSpec::Word(8),
            BufferSpec::Output(192),
            BufferSpec::Output(15360),
            BufferSpec::Output(84),
        ]
    );
}

#[test]
fn threadgroup_is_capped_by_batch() {
    let salts: Vec<&[u8]> = vec![b"x"];
    let job = MetalAshmaize::from_device(false, 1024).hash(&salts, &[0u8; 64], 1, 1, 1).unwrap();
    match job {
        HashJob::Dispatch(d) => {
            assert_eq!(d.call.dispatch, Dispatch::Threads { grid_width: 1, threadgroup_width: 1 });
            assert_eq!(d.call.storage_mode, StorageMode::Managed);
        }
        HashJob::Done(_) => panic!("expected a dispatch"),
    }
}

#[test]
fn collect_splits_hashes_in_order() {
    let salts: Vec<&[u8]> = vec![b"a", b"b"];
    let job = device().hash(&salts, &[0u8; 64], 1, 1, 1).unwrap();
    let d = match job {
        HashJob::Dispatch(d) => d,
        HashJob::Done(_) => panic!("expected a dispatch"),
    };
    let output: Vec<u8> = (0..128u32).map(|i| i as u8).collect();
    let hashes = d.collect(&output);
    assert_eq!(hashes.len(), 2);
    assert_eq!(hashes[0].to_vec(), output[..64].to_vec());
    assert_eq!(hashes[1].to_vec(), output[64..].to_vec());
    let joined: Vec<u8> = hashes.iter().flat_map(|h| h.iter().copied()).collect();
    assert_eq!(joined, output);
}

#[test]
fn counter_averages_per_field() {
    let salts: Vec<&[u8]> = vec![b"a", b"b"];
    let d = match device().hash(&salts, &[0u8; 64], 1, 1, 1).unwrap() {
        HashJob::Dispatch(d) => d,
        HashJob::Done(_) => panic!("expected a dispatch"),
    };
    let counters = [10u32, 20, 30, 40, 50, 60, 70, 11, 21, 31, 41, 51, 61, u32::MAX];
    let avg = d.counter_averages(&counters);
    assert_eq!(avg.blake2b_calls, 10);
    assert_eq!(avg.mem_accesses, 20);
    assert_eq!(avg.special1_hits, 30);
    assert_eq!(avg.special1_misses, 40);
    assert_eq!(avg.special2_hits, 50);
    assert_eq!(avg.special2_misses, 60);
    assert_eq!(avg.instructions, (70u64 + u32::MAX as u64) / 2);
}

#[test]
fn probe_kernel_layouts() {
    let m = device();
    let c = m.blake2b_call(b"abc");
    assert_eq!(c.kernel, Kernel::Blake2b);
    assert_eq!(c.storage_mode, StorageMode::Shared);
    assert_eq!(c.dispatch, Dispatch::SingleThread);
    assert_eq!(c.buffers, vec![BufferSpec::Bytes(b"abc".to_vec()), BufferSpec::Output(64), BufferSpec::Word(3)]);

    let c = m.hprime_call(b"hprime test case 1", 60, 18);
    assert_eq!(c.storage_mode, StorageMode::Managed);
    assert_eq!(
        c.buffers,
        vec![BufferSpec::Bytes(b"hprime test case 1".to_vec()), BufferSpec::Output(60), BufferSpec::Word(60), BufferSpec::Word(18)]
    );

    let digest = [3u8; 64];
    let c = m.vm_init_call(&digest, b"salt");
    assert_eq!(c.kernel, Kernel::VmInit);
    assert_eq!(
        c.buffers,
        vec![
            BufferSpec::Bytes(digest.to_vec()),
            BufferSpec::Bytes(b"salt".to_vec()),
            BufferSpec::Word(4),
            BufferSpec::Output(256),
            BufferSpec::Output(64),
            BufferSpec::Output(4),
            BufferSpec::Output(4),
            BufferSpec::Output(4),
        ]
    );

    let c = m.post_instructions_call(&digest, b"s");
    assert_eq!(c.buffers.len(), 6);
    assert_eq!(c.buffers[3..], [BufferSpec::Output(256), BufferSpec::Output(64), BufferSpec::Output(4)]);

    let c = m.vm_finalize_call(&digest, b"s");
    assert_eq!(c.kernel, Kernel::VmFinalize);
    assert_eq!(c.buffers[3..], [BufferSpec::Output(64)]);

    let c = m.execute_program_call(10_240, &digest, b"s", 256);
    assert_eq!(
        c.buffers,
        vec![
            BufferSpec::RomData,
            BufferSpec::Bytes(digest.to_vec()),
            BufferSpec::Bytes(b"s".to_vec()),
            BufferSpec::Word(1),
            BufferSpec::Word(10_240),
            BufferSpec::Word(256),
            BufferSpec::Output(256),
        ]
    );

    let chunk = [9u8; 20];
    let c = m.execute_one_instruction_call(1024, &digest, b"s", 256, &chunk);
    assert_eq!(c.kernel, Kernel::ExecuteOneInstruction);
    assert_eq!(c.buffers.len(), 11);
    assert_eq!(c.buffers[4], BufferSpec::Word(1024));
    assert_eq!(c.buffers[6], BufferSpec::Bytes(chunk.to_vec()));
    assert_eq!(
        c.buffers[7..],
        [BufferSpec::Output(256), BufferSpec::Output(8), BufferSpec::Output(64), BufferSpec::Output(64)]
    );
}

fn le_regs() -> Vec<u8> {
    let mut out = Vec::new();
    for i in 0..32u64 {
        out.extend_from_slice(&(i * 0x0101_0101_0101 + (i << 56)).to_le_bytes());
    }
    out
}

#[test]
fn registers_are_little_endian() {
    let regs = read_registers(&[le_regs()]);
    for i in 0..32u64 {
        assert_eq!(regs[i as usize], i * 0x0101_0101_0101 + (i << 56));
    }
}

#[test]
fn vm_init_outputs_in_original_order() {
    let seed: Vec<u8> = (0..64u8).collect();
    let outputs = vec![le_regs(), seed.clone(), 7u32.to_le_bytes().to_vec(), 9u32.to_le_bytes().to_vec(), 0x0102_0304u32.to_le_bytes().to_vec()];
    let (regs, ip, prog_seed, mem, loops) = read_vm_init(&outputs);
    assert_eq!(regs[1], 0x0101_0101_0101 + (1 << 56));
    assert_eq!(ip, 7);
    assert_eq!(prog_seed.to_vec(), seed);
    assert_eq!(mem, 9);
    assert_eq!(loops, 0x0102_0304);

    let (regs, prog_seed, loops) = read_post_instructions(&[le_regs(), seed.clone(), 5u32.to_le_bytes().to_vec()]);
    assert_eq!(regs[31], 31 * 0x0101_0101_0101 + (31 << 56));
    assert_eq!(prog_seed.to_vec(), seed);
    assert_eq!(loops, 5);
}

#[test]
fn execute_one_instruction_result() {
    let a: Vec<u8> = vec![1u8; 64];
    let b: Vec<u8> = vec![2u8; 64];
    let mut counters = 12u32.to_le_bytes().to_vec();
    counters.extend_from_slice(&148u32.to_le_bytes());
    let r = read_execute_one_instruction(&[le_regs(), counters, a.clone(), b.clone()]);
    assert_eq!(r.final_ip, 12);
    assert_eq!(r.final_memory_counter, 148);
    assert_eq!(r.final_prog_digest_hash.to_vec(), a);
    assert_eq!(r.final_mem_digest_hash.to_vec(), b);
    assert_eq!(r.final_regs[2], 2 * 0x0101_0101_0101 + (2 << 56));
}

#[test]
fn single_outputs() {
    let h: Vec<u8> = (100..164u8).collect();
    assert_eq!(read_hash(&[h.clone()]).to_vec(), h);
    assert_eq!(read_hprime(&[vec![1, 2, 3]], 3), vec![1, 2, 3]);
}

#[test]
fn kernel_function_names() {
    let names: Vec<&str> = all_kernels().iter().map(|k| k.function_name()).collect();
    assert_eq!(
        names,
        vec![
            "ashmaize_hash",
            "test_blake2b",
            "test_hprime",
            "test_post_instructions",
            "test_vm_init",
            "test_execute_program",
            "test_execute_one_instruction",
            "test_vm_finalize",
        ]
    );
}

#[test]
fn words_are_little_endian() {
    let bytes = [1u8, 0, 0, 0, 0x04, 0x03, 0x02, 0x01];
    assert_eq!(read_le_u32s(&bytes), vec![1, 0x0102_0304]);
    assert!(read_le_u32s(&[]).is_empty());
}
