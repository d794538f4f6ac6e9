use addmul_precompile::addmul::AddmulChip;
use addmul_precompile::events::{AddMulEvent, InnerProductEvent, LookupId, PrecompileEvent, SyscallCode, SyscallEvent};
use addmul_precompile::interaction::Interaction;
use addmul_precompile::inner_product::{inner_product_trace_values, InnerProductChip, NUM_COLS};
use addmul_precompile::memory::{MemoryReadRecord, MemoryWriteRecord};
use addmul_precompile::record::ExecutionRecord;

const BABY_BEAR_ORDER: u32 = 2013265921;

fn read(value: u32) -> MemoryReadRecord {
    MemoryReadRecord { value, shard: 1, timestamp: 10, prev_shard: 1, prev_timestamp: 4 }
}

/// An event whose length words hold `len_word` and whose word reads hold `a` and `b`,
/// followed by zeros.
fn event(a: Vec<u32>, b: Vec<u32>, len_word: u32, written: u32) -> InnerProductEvent {
    let a_memory_records = (0..351).map(|i| read(*a.get(i).unwrap_or(&0))).collect();
    let b_memory_records = (0..351).map(|i| read(*b.get(i).unwrap_or(&0))).collect();
    InnerProductEvent {
        lookup_id: LookupId(3),
        shard: 1,
        clk: 10,
        a_ptr: 0x400,
        b_ptr: 0x800,
        a,
        b,
        a_len_memory: read(len_word),
        b_len_memory: read(len_word),
        a_memory_records,
        b_memory_records,
        result_memory_records: MemoryWriteRecord {
            value: written,
            shard: 1,
            timestamp: 11,
            prev_value: len_word,
            prev_shard: 1,
            prev_timestamp: 10,
        },
        local_mem_access: Vec::new(),
    }
}

fn record_of(events: Vec<InnerProductEvent>) -> ExecutionRecord {
    let mut record = ExecutionRecord::new();
    for e in events {
        let syscall = SyscallEvent {
            shard: 1,
            clk: e.clk,
            lookup_id: e.lookup_id,
            syscall_code: SyscallCode::INNER_PRODUCT,
            arg1: e.a_ptr,
            arg2: e.b_ptr,
        };
        record.add_precompile_event(SyscallCode::INNER_PRODUCT, syscall, PrecompileEvent::InnerProduct(e));
    }
    record
}

#[test]
fn inner_product_chip_name_and_width() {
    let chip = InnerProductChip::new();
    assert_eq!(chip.name(), "InnerProduct");
    assert_eq!(chip.width(), 6356);
}

#[test]
fn trace_has_fixed_height_and_inner_product() {
    let chip = InnerProductChip::new();
    // index 0 is not part of the product: 1*4 + 2*5 + 3*6 = 32
    let input = record_of(vec![event(vec![0, 1, 2, 3], vec![0, 4, 5, 6], 4, 32)]);
    let mut output = ExecutionRecord::new();
    let rows = chip.generate_trace(&input, &mut output, BABY_BEAR_ORDER);
    assert_eq!(rows.len(), 1024);
    assert_eq!(rows[0].running_sum, 32);
    assert_eq!(rows[0].len, 4);
    assert_eq!(rows[0].is_real, 1);
    assert_eq!(rows[0].a_memory[2].access.value.0, [2, 0, 0, 0]);
    assert_eq!(rows[1].is_real, 0);
    assert_eq!(rows[1].running_sum, 0);
    // lengths, 351 pairs of reads and the write: two range checks each
    assert_eq!(output.byte_lookups.len(), 2 * (2 + 2 * 351 + 1));
    for row in rows.iter() {
        assert!(chip.eval(row, BABY_BEAR_ORDER).constraints_hold);
    }
}

#[test]
fn eval_rejects_wrong_sum_or_write() {
    let chip = InnerProductChip::new();
    let input = record_of(vec![event(vec![0, 1, 2, 3], vec![0, 4, 5, 6], 4, 32)]);
    let mut output = ExecutionRecord::new();
    let rows = chip.generate_trace(&input, &mut output, BABY_BEAR_ORDER);
    let mut row = rows[0];
    row.running_sum = 31;
    assert!(!chip.eval(&row, BABY_BEAR_ORDER).constraints_hold);

    let wrong_write = record_of(vec![event(vec![0, 1, 2, 3], vec![0, 4, 5, 6], 4, 33)]);
    let rows = chip.generate_trace(&wrong_write, &mut output, BABY_BEAR_ORDER);
    assert!(!chip.eval(&rows[0], BABY_BEAR_ORDER).constraints_hold);
}

#[test]
fn len_cell_counts_every_element_of_a() {
    let chip = InnerProductChip::new();
    // The length word holds 3, but `a` has four elements, so the `len` cell is 4.
    let input = record_of(vec![event(vec![3, 1, 2, 3], vec![3, 4, 5, 6], 3, 32)]);
    let mut output = ExecutionRecord::new();
    let rows = chip.generate_trace(&input, &mut output, BABY_BEAR_ORDER);
    assert_eq!(rows[0].len, 4);
    assert_eq!(rows[0].running_sum, 32);
    assert!(!chip.eval(&rows[0], BABY_BEAR_ORDER).constraints_hold);
}

#[test]
fn inner_product_included_follows_events() {
    let chip = InnerProductChip::new();
    assert!(!chip.included(&ExecutionRecord::new()));
    let input = record_of(vec![event(vec![0, 1], vec![0, 1], 2, 1)]);
    assert!(chip.included(&input));
}

#[test]
fn trace_values_row_major() {
    let chip = InnerProductChip::new();
    let input = record_of(vec![event(vec![0, 7], vec![0, 9], 2, 63)]);
    let mut output = ExecutionRecord::new();
    let rows = chip.generate_trace(&input, &mut output, BABY_BEAR_ORDER);
    let cells = rows[0].to_cells();
    assert_eq!(cells.len(), NUM_COLS);
    assert_eq!(&cells[0..4], &[1, 10, 0x400, 0x800]);
    assert_eq!(cells[NUM_COLS - 2], 63);
    assert_eq!(cells[NUM_COLS - 1], 1);
    let values = inner_product_trace_values(&rows);
    assert_eq!(values.len(), 1024 * NUM_COLS);
    assert_eq!(values[NUM_COLS - 2], 63);
    assert_eq!(values[2 * NUM_COLS - 1], 0);
}

#[test]
fn inner_product_can_generate_trace_checks_panicking_inputs() {
    let chip = InnerProductChip::new();
    let good = record_of(vec![event(vec![0, 1, 2, 3], vec![0, 4, 5, 6], 4, 32)]);
    assert!(chip.can_generate_trace(&good, BABY_BEAR_ORDER));
    // b shorter than a
    let short_b = record_of(vec![event(vec![0, 1, 2, 3], vec![0, 4], 4, 32)]);
    assert!(!chip.can_generate_trace(&short_b, BABY_BEAR_ORDER));
    // fewer than 351 reads
    let mut few_reads = event(vec![0, 1], vec![0, 1], 2, 1);
    few_reads.a_memory_records.truncate(350);
    assert!(!chip.can_generate_trace(&record_of(vec![few_reads]), BABY_BEAR_ORDER));
    // the inner product overflows a word
    let big = record_of(vec![event(vec![0, 0x1_0000, 1], vec![0, 0x1_0000, 1], 3, 0)]);
    assert!(!chip.can_generate_trace(&big, BABY_BEAR_ORDER));
    // more events than the fixed height of 1024 rows
    let crowded = record_of((0..1025).map(|_| event(vec![0, 1], vec![0, 1], 2, 1)).collect());
    assert!(!chip.can_generate_trace(&crowded, BABY_BEAR_ORDER));
}

#[test]
fn inner_product_eval_sends_reads_write_and_receive() {
    let chip = InnerProductChip::new();
    let input = record_of(vec![event(vec![0, 1, 2, 3], vec![0, 4, 5, 6], 4, 32)]);
    let mut output = ExecutionRecord::new();
    let rows = chip.generate_trace(&input, &mut output, BABY_BEAR_ORDER);
    let ev = chip.eval(&rows[0], BABY_BEAR_ORDER);
    assert!(ev.constraints_hold);
    assert_eq!(ev.interactions.len(), 1 + 2 + 2 * 351 + 1);
    match ev.interactions[0] {
        Interaction::SyscallReceive { shard, clk, nonce, syscall_code, arg1, arg2, multiplicity } => {
            assert_eq!((shard, clk, nonce, arg1, arg2, multiplicity), (1, 10, None, 0x400, 0x800, 1));
            assert_eq!(syscall_code, SyscallCode::INNER_PRODUCT);
        }
        _ => panic!("expected a syscall receipt"),
    }
    let addrs: Vec<(u32, u32)> = ev.interactions[1..]
        .iter()
        .map(|i| match i {
            Interaction::MemoryAccess { clk, addr, .. } => (*clk, *addr),
            _ => panic!("expected a memory access"),
        })
        .collect();
    assert_eq!(addrs[0], (10, 0x400));
    assert_eq!(addrs[1], (10, 0x800));
    // a[2] and b[2]
    assert_eq!(addrs[2 + 4], (10, 0x400 + 4 + 8));
    assert_eq!(addrs[2 + 5], (10, 0x800 + 4 + 8));
    // the result is written over the length of a, one cycle later
    assert_eq!(*addrs.last().unwrap(), (11, 0x400));
    match ev.interactions.last().unwrap() {
        Interaction::MemoryAccess { access, prev_value, .. } => {
            assert_eq!(access.value.0, [32, 0, 0, 0]);
            assert_eq!(prev_value.0, [4, 0, 0, 0]);
        }
        _ => panic!("expected a memory access"),
    }
}

#[test]
fn inner_product_accepts_empty_b_when_a_has_no_terms() {
    let chip = InnerProductChip::new();
    let input = record_of(vec![event(vec![0], vec![], 1, 0)]);
    assert!(chip.can_generate_trace(&input, BABY_BEAR_ORDER));
    let mut output = ExecutionRecord::new();
    let rows = chip.generate_trace(&input, &mut output, BABY_BEAR_ORDER);
    assert_eq!(rows[0].running_sum, 0);
    assert_eq!(rows[0].len, 1);
}

#[test]
fn each_chip_checks_only_its_own_code() {
    let mut record = ExecutionRecord::new();
    let syscall = SyscallEvent {
        shard: 1,
        clk: 10,
        lookup_id: LookupId(0),
        syscall_code: SyscallCode::INNER_PRODUCT,
        arg1: 0,
        arg2: 0,
    };
    record.add_precompile_event(SyscallCode::INNER_PRODUCT, syscall, PrecompileEvent::ADDMul(AddMulEvent::default()));
    assert!(!InnerProductChip::new().can_generate_trace(&record, BABY_BEAR_ORDER));
    assert!(AddmulChip::new().can_generate_trace(&record, BABY_BEAR_ORDER));
}

#[test]
fn inner_product_eval_checks_access_columns() {
    let chip = InnerProductChip::new();
    let input = record_of(vec![event(vec![0, 1, 2, 3], vec![0, 4, 5, 6], 4, 32)]);
    let mut output = ExecutionRecord::new();
    let rows = chip.generate_trace(&input, &mut output, BABY_BEAR_ORDER);
    // the reads at clk 10 after an access at 4: 10 - 4 - 1 = 5
    assert_eq!(rows[0].a_memory[7].access.diff_16bit_limb, 5);
    let mut row = rows[0];
    row.a_memory[7].access.diff_16bit_limb = 4;
    assert!(!chip.eval(&row, BABY_BEAR_ORDER).constraints_hold);
    let mut row = rows[0];
    row.b_len_memory.access.compare_clk = 3;
    assert!(!chip.eval(&row, BABY_BEAR_ORDER).constraints_hold);
    // the write at clk 11 after the access at 10: 11 - 10 - 1 = 0
    let mut row = rows[0];
    assert_eq!(row.result_memory.access.diff_16bit_limb, 0);
    row.result_memory.access.diff_16bit_limb = 1;
    assert!(!chip.eval(&row, BABY_BEAR_ORDER).constraints_hold);
    // a padding row is not checked
    let mut pad = rows[1];
    pad.a_memory[0].access.compare_clk = 3;
    assert!(chip.eval(&pad, BABY_BEAR_ORDER).constraints_hold);
}

#[test]
fn long_vectors_with_vanishing_tail_satisfy_the_constraints() {
    let chip = InnerProductChip::new();
    // 400 elements; the products past index 350 are zero, so the row's sum is the product
    let mut a = vec![0u32; 400];
    let mut b = vec![0u32; 400];
    a[1] = 2;
    b[1] = 3;
    a[350] = 5;
    b[350] = 7;
    a[360] = 9;
    let input = record_of(vec![event(a, b, 400, 41)]);
    assert!(chip.can_generate_trace(&input, BABY_BEAR_ORDER));
    let mut output = ExecutionRecord::new();
    let rows = chip.generate_trace(&input, &mut output, BABY_BEAR_ORDER);
    assert_eq!(rows[0].running_sum, 41);
    assert_eq!(rows[0].len, 400);
    assert!(chip.eval(&rows[0], BABY_BEAR_ORDER).constraints_hold);
}
