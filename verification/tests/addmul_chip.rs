use addmul_precompile::addmul::{AddmulChip, AddmulCols};
use addmul_precompile::events::{AddMulEvent, LookupId, PrecompileEvent, SyscallCode, SyscallEvent};
use addmul_precompile::interaction::Interaction;
use addmul_precompile::memory::{word_from_u32, MemoryReadCols, MemoryReadRecord, MemoryWriteCols, MemoryWriteRecord};
use addmul_precompile::record::ExecutionRecord;

const BABY_BEAR_ORDER: u32 = 2013265921;

fn read(value: u32, timestamp: u32, prev_timestamp: u32) -> MemoryReadRecord {
    MemoryReadRecord { value, shard: 1, timestamp, prev_shard: 1, prev_timestamp }
}

fn event(p: u32, q: u32, r: u32, s: u32) -> AddMulEvent {
    AddMulEvent {
        lookup_id: LookupId(0),
        shard: 1,
        clk: 10,
        p,
        q,
        r,
        s,
        p_ptr: 0x100,
        q_ptr: 0x104,
        r_ptr: 12,
        s_ptr: 13,
        p_memory_records: MemoryWriteRecord {
            value: p * q + r * s,
            shard: 1,
            timestamp: 11,
            prev_value: p,
            prev_shard: 1,
            prev_timestamp: 2,
        },
        q_memory_records: read(q, 10, 2),
        r_memory_records: read(r, 10, 2),
        s_memory_records: read(s, 10, 2),
        local_mem_access: Vec::new(),
    }
}

fn record_of(events: Vec<AddMulEvent>) -> ExecutionRecord {
    let mut record = ExecutionRecord::new();
    for e in events {
        let syscall = SyscallEvent {
            shard: 1,
            clk: e.clk,
            lookup_id: e.lookup_id,
            syscall_code: SyscallCode::ADD_MUL,
            arg1: e.p_ptr,
            arg2: e.q_ptr,
        };
        record.add_precompile_event(SyscallCode::ADD_MUL, syscall, PrecompileEvent::ADDMul(e));
    }
    record
}

fn zero_row() -> AddmulCols<u32> {
    AddmulCols {
        shard: 0,
        clk: 0,
        nonce: 0,
        p: 0,
        q: 0,
        r: 0,
        s: 0,
        p_ptr: 0,
        q_ptr: 0,
        r_ptr: 0,
        s_ptr: 0,
        p_memory: MemoryWriteCols::zero(),
        q_memory: MemoryReadCols::zero(),
        r_memory: MemoryReadCols::zero(),
        s_memory: MemoryReadCols::zero(),
        result: 0,
        is_real: 0,
    }
}

#[test]
fn chip_name_and_width() {
    let chip = AddmulChip::new();
    assert_eq!(chip.name(), "AddmulMod");
    assert_eq!(chip.width(), 53);
}

#[test]
fn empty_record_gives_sixteen_padding_rows() {
    let chip = AddmulChip::new();
    let input = ExecutionRecord::new();
    let mut output = ExecutionRecord::new();
    let rows = chip.generate_trace(&input, &mut output, BABY_BEAR_ORDER);
    assert_eq!(rows.len(), 16);
    for (i, row) in rows.iter().enumerate() {
        assert_eq!(row.is_real, 0);
        assert_eq!(row.result, 0);
        assert_eq!(row.nonce, i as u32);
    }
    assert!(output.byte_lookups.is_empty());
}

#[test]
fn seventeen_events_pad_to_thirty_two() {
    let chip = AddmulChip::new();
    let input = record_of((0..17).map(|i| event(i, 2, 3, 4)).collect());
    let mut output = ExecutionRecord::new();
    let rows = chip.generate_trace(&input, &mut output, BABY_BEAR_ORDER);
    assert_eq!(rows.len(), 32);
    assert_eq!(rows[16].p, 16);
    assert_eq!(rows[16].result, 16 * 2 + 12);
    assert_eq!(rows[17].is_real, 0);
    assert_eq!(output.byte_lookups.len(), 17 * 8);
}

#[test]
fn fixed_shape_fixes_height() {
    let chip = AddmulChip::new();
    let mut input = record_of(vec![event(1, 2, 4, 5)]);
    input.shape = Some(vec![("InnerProduct".to_string(), 10), ("AddmulMod".to_string(), 3)]);
    let mut output = ExecutionRecord::new();
    let rows = chip.generate_trace(&input, &mut output, BABY_BEAR_ORDER);
    assert_eq!(rows.len(), 8);
    assert_eq!(rows[0].result, 22);
}

#[test]
fn included_follows_shape_or_events() {
    let chip = AddmulChip::new();
    let empty = ExecutionRecord::new();
    assert!(!chip.included(&empty));
    let with_event = record_of(vec![event(1, 1, 1, 1)]);
    assert!(chip.included(&with_event));
    let mut shaped = ExecutionRecord::new();
    shaped.shape = Some(vec![("AddmulMod".to_string(), 4)]);
    assert!(chip.included(&shaped));
    let mut other_shape = record_of(vec![event(1, 1, 1, 1)]);
    other_shape.shape = Some(vec![("InnerProduct".to_string(), 4)]);
    assert!(!chip.included(&other_shape));
}

#[test]
fn eval_rejects_wrong_result() {
    let chip = AddmulChip::new();
    let input = record_of(vec![event(1, 2, 4, 5)]);
    let mut output = ExecutionRecord::new();
    let mut rows = chip.generate_trace(&input, &mut output, BABY_BEAR_ORDER);
    assert!(chip.eval(&rows[0], &rows[1], true, true, BABY_BEAR_ORDER).constraints_hold);
    rows[0].result = 23;
    assert!(!chip.eval(&rows[0], &rows[1], true, true, BABY_BEAR_ORDER).constraints_hold);
    // a padding row does not constrain its result
    let mut pad = rows[1];
    pad.result = 99;
    assert!(chip.eval(&pad, &rows[2], false, true, BABY_BEAR_ORDER).constraints_hold);
}

#[test]
fn eval_result_is_taken_in_the_field() {
    let chip = AddmulChip::new();
    let mut row = zero_row();
    // one shard after the zero access columns, so their limbs hold the gap less one
    row.shard = 1;
    row.is_real = 1;
    row.p = BABY_BEAR_ORDER - 1;
    row.q = 2;
    // (-1) * 2 = -2 = order - 2
    row.result = BABY_BEAR_ORDER - 2;
    row.p_memory.prev_value = word_from_u32(row.p);
    row.p_memory.access.value = word_from_u32(row.result);
    row.q_memory.access.value = word_from_u32(row.q);
    assert!(chip.eval(&row, &row, false, false, BABY_BEAR_ORDER).constraints_hold);
    row.result = 0;
    row.p_memory.access.value = word_from_u32(0);
    assert!(!chip.eval(&row, &row, false, false, BABY_BEAR_ORDER).constraints_hold);
}

#[test]
fn eval_ties_real_row_to_its_memory_words() {
    let chip = AddmulChip::new();
    let input = record_of(vec![event(1, 2, 4, 5)]);
    let mut output = ExecutionRecord::new();
    let rows = chip.generate_trace(&input, &mut output, BABY_BEAR_ORDER);
    assert!(chip.eval(&rows[0], &rows[1], true, true, BABY_BEAR_ORDER).constraints_hold);
    // the word written over p is not the result
    let mut row = rows[0];
    row.p_memory.access.value = word_from_u32(0);
    assert!(!chip.eval(&row, &rows[1], true, true, BABY_BEAR_ORDER).constraints_hold);
    // the word replaced and the words read are left to the memory argument
    let mut row = rows[0];
    row.p_memory.prev_value = word_from_u32(7);
    row.q_memory.access.value = word_from_u32(3);
    row.r_memory.access.value = word_from_u32(3);
    row.s_memory.access.value = word_from_u32(3);
    assert!(chip.eval(&row, &rows[1], true, true, BABY_BEAR_ORDER).constraints_hold);
}

#[test]
fn eval_checks_access_columns_of_real_rows() {
    let chip = AddmulChip::new();
    let input = record_of(vec![event(1, 2, 4, 5)]);
    let mut output = ExecutionRecord::new();
    let rows = chip.generate_trace(&input, &mut output, BABY_BEAR_ORDER);
    // compare_clk is not boolean
    let mut row = rows[0];
    row.q_memory.access.compare_clk = 2;
    assert!(!chip.eval(&row, &rows[1], true, true, BABY_BEAR_ORDER).constraints_hold);
    // the limbs do not add up to the gap: 10 - 2 - 1 = 7
    let mut row = rows[0];
    assert_eq!(row.r_memory.access.diff_16bit_limb, 7);
    row.r_memory.access.diff_16bit_limb = 6;
    assert!(!chip.eval(&row, &rows[1], true, true, BABY_BEAR_ORDER).constraints_hold);
    // comparing clocks across shards
    let mut row = rows[0];
    row.s_memory.access.prev_shard = 0;
    assert!(!chip.eval(&row, &rows[1], true, true, BABY_BEAR_ORDER).constraints_hold);
    // the write is checked at clk + 1: 11 - 2 - 1 = 8
    let mut row = rows[0];
    assert_eq!(row.p_memory.access.diff_16bit_limb, 8);
    row.p_memory.access.diff_16bit_limb = 7;
    assert!(!chip.eval(&row, &rows[1], true, true, BABY_BEAR_ORDER).constraints_hold);
    // a padding row is not checked
    let mut pad = rows[1];
    pad.q_memory.access.compare_clk = 2;
    pad.q_memory.access.diff_8bit_limb = 5;
    assert!(chip.eval(&pad, &rows[2], false, true, BABY_BEAR_ORDER).constraints_hold);
}

#[test]
fn eval_sends_memory_accesses_and_syscall_receive() {
    let chip = AddmulChip::new();
    let input = record_of(vec![event(1, 2, 4, 5)]);
    let mut output = ExecutionRecord::new();
    let rows = chip.generate_trace(&input, &mut output, BABY_BEAR_ORDER);
    let ev = chip.eval(&rows[0], &rows[1], true, true, BABY_BEAR_ORDER);
    assert_eq!(ev.interactions.len(), 5);
    let expected = [(11, 0x100), (10, 0x104), (10, 12), (10, 13)];
    for (k, (clk_expected, addr_expected)) in expected.iter().enumerate() {
        match ev.interactions[k] {
            Interaction::MemoryAccess { shard, clk, addr, multiplicity, .. } => {
                assert_eq!((shard, clk, addr, multiplicity), (1, *clk_expected, *addr_expected, 1));
            }
            _ => panic!("expected a memory access"),
        }
    }
    match ev.interactions[0] {
        Interaction::MemoryAccess { prev_value, access, .. } => {
            assert_eq!(prev_value.0, [1, 0, 0, 0]);
            assert_eq!(access.value.0, [22, 0, 0, 0]);
        }
        _ => panic!("expected a memory access"),
    }
    match ev.interactions[4] {
        Interaction::SyscallReceive { shard, clk, nonce, syscall_code, arg1, arg2, multiplicity } => {
            assert_eq!((shard, clk, nonce, arg1, arg2, multiplicity), (1, 10, Some(0), 0x100, 0x104, 1));
            assert_eq!(syscall_code, SyscallCode::ADD_MUL);
        }
        _ => panic!("expected a syscall receipt"),
    }
    // a padding row sends with multiplicity zero
    let pad = chip.eval(&rows[1], &rows[2], false, true, BABY_BEAR_ORDER);
    match pad.interactions[4] {
        Interaction::SyscallReceive { multiplicity, nonce, .. } => {
            assert_eq!(multiplicity, 0);
            assert_eq!(nonce, Some(1));
        }
        _ => panic!("expected a syscall receipt"),
    }
}

#[test]
fn clock_of_the_write_wraps_in_the_field() {
    let chip = AddmulChip::new();
    let mut row = zero_row();
    row.clk = BABY_BEAR_ORDER - 1;
    let ev = chip.eval(&row, &row, false, false, BABY_BEAR_ORDER);
    match ev.interactions[0] {
        Interaction::MemoryAccess { clk, .. } => assert_eq!(clk, 0),
        _ => panic!("expected a memory access"),
    }
}

#[test]
fn eval_checks_nonces_and_is_real() {
    let chip = AddmulChip::new();
    let mut local = zero_row();
    let mut next = zero_row();
    next.nonce = 1;
    assert!(chip.eval(&local, &next, true, true, BABY_BEAR_ORDER).constraints_hold);
    next.nonce = 2;
    assert!(!chip.eval(&local, &next, true, true, BABY_BEAR_ORDER).constraints_hold);
    // the last row has no transition
    assert!(chip.eval(&local, &next, false, false, BABY_BEAR_ORDER).constraints_hold);
    local.nonce = 3;
    assert!(!chip.eval(&local, &next, true, false, BABY_BEAR_ORDER).constraints_hold);
    local.nonce = 0;
    local.is_real = 2;
    assert!(!chip.eval(&local, &next, false, false, BABY_BEAR_ORDER).constraints_hold);
}

#[test]
fn memory_columns_of_an_event() {
    let chip = AddmulChip::new();
    let mut e = event(0x0102_0304, 1, 0, 0);
    e.p_memory_records.value = 0x0102_0304;
    e.p_memory_records.prev_value = 0xaabb_ccdd;
    e.q_memory_records.prev_shard = 0;
    e.q_memory_records.prev_timestamp = 0x0003_0001;
    let input = record_of(vec![e]);
    let mut output = ExecutionRecord::new();
    let rows = chip.generate_trace(&input, &mut output, BABY_BEAR_ORDER);
    let row = rows[0];
    assert_eq!(row.p_memory.prev_value.0, [0xdd, 0xcc, 0xbb, 0xaa]);
    assert_eq!(row.p_memory.access.value.0, [0x04, 0x03, 0x02, 0x01]);
    assert_eq!(row.p_memory.access.compare_clk, 1);
    // same shard: 11 - 2 - 1 = 8
    assert_eq!(row.p_memory.access.diff_16bit_limb, 8);
    assert_eq!(row.p_memory.access.diff_8bit_limb, 0);
    // across shards: 1 - 0 - 1 = 0
    assert_eq!(row.q_memory.access.compare_clk, 0);
    assert_eq!(row.q_memory.access.prev_clk, 0x0003_0001);
    assert_eq!(row.q_memory.access.diff_16bit_limb, 0);
}

#[test]
fn can_generate_trace_checks_panicking_inputs() {
    let chip = AddmulChip::new();
    let good = record_of(vec![event(1, 2, 4, 5)]);
    assert!(chip.can_generate_trace(&good, BABY_BEAR_ORDER));
    // a field of order 1 has a single element
    assert!(!chip.can_generate_trace(&good, 1));
    // the cells of the row must be canonical: the pointer 0x100 is not below 11
    assert!(!chip.can_generate_trace(&good, 11));
    assert!(chip.can_generate_trace(&good, 0x1_0001));
    // p * q + r * s overflows a word
    let mut overflow = event(0x1_0000, 0x1_0000, 0, 0);
    overflow.p_memory_records.value = 0;
    assert!(!chip.can_generate_trace(&record_of(vec![overflow]), BABY_BEAR_ORDER));
    // p * q + r * s is not canonical
    assert!(!chip.can_generate_trace(&record_of(vec![event(BABY_BEAR_ORDER - 1, 1, 1, 1)]), BABY_BEAR_ORDER));
    // an access not after the access before it
    let mut unordered = event(1, 2, 4, 5);
    unordered.q_memory_records.prev_timestamp = 10;
    assert!(!chip.can_generate_trace(&record_of(vec![unordered]), BABY_BEAR_ORDER));
    // a shape without the chip
    let mut shaped = record_of(vec![event(1, 2, 4, 5)]);
    shaped.shape = Some(vec![("InnerProduct".to_string(), 10)]);
    assert!(!chip.can_generate_trace(&shaped, BABY_BEAR_ORDER));
    // more events than the fixed height
    let mut crowded = record_of(vec![event(1, 2, 4, 5), event(1, 2, 4, 5), event(1, 2, 4, 5)]);
    crowded.shape = Some(vec![("AddmulMod".to_string(), 1)]);
    assert!(!chip.can_generate_trace(&crowded, BABY_BEAR_ORDER));
    // an event recorded under the wrong code
    let mut mislabeled = ExecutionRecord::new();
    let e = event(1, 2, 4, 5);
    let syscall = SyscallEvent {
        shard: 1,
        clk: 10,
        lookup_id: LookupId(0),
        syscall_code: SyscallCode::INNER_PRODUCT,
        arg1: 0,
        arg2: 0,
    };
    mislabeled.add_precompile_event(SyscallCode::INNER_PRODUCT, syscall, PrecompileEvent::ADDMul(e));
    // an event under another chip's code is not this chip's concern
    assert!(chip.can_generate_trace(&mislabeled, BABY_BEAR_ORDER));
    let rows = chip.generate_trace(&mislabeled, &mut ExecutionRecord::new(), BABY_BEAR_ORDER);
    assert!(rows.iter().all(|r| r.is_real == 0));
}

#[test]
fn default_event_and_chips() {
    let e = AddMulEvent::default();
    assert_eq!((e.p, e.q, e.r, e.s, e.clk, e.shard), (0, 0, 0, 0, 0, 0));
    assert_eq!(e.lookup_id, LookupId(0));
    assert!(e.local_mem_access.is_empty());
    assert_eq!(AddmulChip::default().width(), 53);
    assert_eq!(addmul_precompile::inner_product::InnerProductChip::default().width(), 6356);
}
