use std::collections::HashMap;

use addmul_precompile::events::LookupId;
use addmul_precompile::memory::{word_from_u32, MemoryReadCols, MemoryReadRecord, MemoryRecord};
use addmul_precompile::record::ExecutionRecord;
use addmul_precompile::runtime::SyscallContext;
use addmul_precompile::utils::{next_power_of_two, pad_rows_fixed};

#[test]
fn next_power_of_two_without_shape() {
    assert_eq!(next_power_of_two(0, None), 16);
    assert_eq!(next_power_of_two(1, None), 16);
    assert_eq!(next_power_of_two(16, None), 16);
    assert_eq!(next_power_of_two(17, None), 32);
    assert_eq!(next_power_of_two(33, None), 64);
    assert_eq!(next_power_of_two(1000, None), 1024);
}

#[test]
fn next_power_of_two_with_shape() {
    assert_eq!(next_power_of_two(0, Some(0)), 1);
    assert_eq!(next_power_of_two(5, Some(4)), 16);
    assert_eq!(next_power_of_two(1024, Some(10)), 1024);
}

#[test]
fn pad_rows_keeps_rows_and_appends_dummies() {
    let mut rows = vec![5u32, 6, 7];
    pad_rows_fixed(&mut rows, 0, None);
    assert_eq!(rows.len(), 16);
    assert_eq!(&rows[0..3], &[5, 6, 7]);
    assert!(rows[3..].iter().all(|r| *r == 0));
}

#[test]
fn word_bytes_are_little_endian() {
    assert_eq!(word_from_u32(0x1234_5678).0, [0x78, 0x56, 0x34, 0x12]);
    assert_eq!(word_from_u32(u32::MAX).0, [255, 255, 255, 255]);
}

#[test]
fn read_columns_split_a_large_gap() {
    let mut cols = MemoryReadCols::zero();
    let mut lookups = Vec::new();
    // gap of 0x12_3456 + 1 cycles within a shard
    let record = MemoryReadRecord { value: 9, shard: 4, timestamp: 0x12_3457, prev_shard: 4, prev_timestamp: 0 };
    cols.populate(record, &mut lookups);
    assert_eq!(cols.access.diff_16bit_limb, 0x3456);
    assert_eq!(cols.access.diff_8bit_limb, 0x12);
    assert_eq!(cols.access.compare_clk, 1);
    assert_eq!(lookups.len(), 2);
}

#[test]
fn mr_and_mw_track_first_and_last_state() {
    let mut memory = HashMap::new();
    memory.insert(40, MemoryRecord { shard: 1, timestamp: 2, value: 11 });
    let mut rt = SyscallContext::new(1, 9, LookupId(0), memory);
    let (read, value) = rt.mr(40);
    assert_eq!(value, 11);
    assert_eq!((read.prev_shard, read.prev_timestamp, read.timestamp), (1, 2, 9));
    rt.clk += 1;
    let write = rt.mw(40, 12);
    assert_eq!((write.prev_value, write.prev_timestamp, write.timestamp), (11, 9, 10));
    assert_eq!(rt.word_unsafe(40), 12);
    assert_eq!(rt.word_unsafe(44), 0);
    let locals = rt.postprocess();
    assert_eq!(locals.len(), 1);
    assert_eq!(locals[0].initial_mem_access, MemoryRecord { shard: 1, timestamp: 2, value: 11 });
    assert_eq!(locals[0].final_mem_access, MemoryRecord { shard: 1, timestamp: 10, value: 12 });
    assert!(rt.local_memory_access.is_empty());
}

#[test]
fn fixed_log2_rows_reads_shape() {
    let mut record = ExecutionRecord::new();
    let name = "AddmulMod".to_string();
    assert_eq!(record.fixed_log2_rows(&name), None);
    record.shape = Some(vec![("AddmulMod".to_string(), 5), ("AddmulMod".to_string(), 7)]);
    assert_eq!(record.fixed_log2_rows(&name), Some(5));
}

