use std::collections::HashMap;

use addmul_precompile::addmul::{AddmulChip, NUM_COLS};
use addmul_precompile::events::{LookupId, PrecompileEvent, SyscallCode};
use addmul_precompile::memory::{ByteLookupEvent, MemoryRecord};
use addmul_precompile::record::ExecutionRecord;
use addmul_precompile::runtime::SyscallContext;
use addmul_precompile::syscall::{AddMulSyscall, HI_REGISTER, LO_REGISTER};

const BABY_BEAR_ORDER: u32 = 2013265921;

fn word(shard: u32, timestamp: u32, value: u32) -> MemoryRecord {
    MemoryRecord { shard, timestamp, value }
}

/// Memory with p = 1 at 0x100, q = 2 at 0x104, r = 4 in x12 and s = 5 in x13, as the
/// native add-mul program sets them up.
fn sample_context() -> SyscallContext {
    let mut memory = HashMap::new();
    memory.insert(0x100, word(1, 3, 1));
    memory.insert(0x104, word(1, 4, 2));
    memory.insert(LO_REGISTER, word(1, 5, 4));
    memory.insert(HI_REGISTER, word(1, 6, 5));
    SyscallContext::new(1, 20, LookupId(7), memory)
}

#[test]
fn execute_writes_product_sum_over_p() {
    let mut rt = sample_context();
    let ret = AddMulSyscall.execute(&mut rt, SyscallCode::ADD_MUL, 0x100, 0x104);
    assert_eq!(ret, None);
    assert_eq!(rt.memory[&0x100].value, 22);
    assert_eq!(rt.memory[&0x100].timestamp, 21);
    assert_eq!(rt.memory[&0x104].value, 2);
    assert_eq!(rt.memory[&LO_REGISTER].value, 4);
    assert_eq!(rt.memory[&HI_REGISTER].value, 5);
    assert_eq!(rt.clk, 21);
    assert!(rt.local_memory_access.is_empty());
}

#[test]
fn execute_records_event() {
    let mut rt = sample_context();
    AddMulSyscall.execute(&mut rt, SyscallCode::ADD_MUL, 0x100, 0x104);
    assert_eq!(rt.record.precompile_events.len(), 1);
    let (code, syscall_event, event) = &rt.record.precompile_events[0];
    assert_eq!(*code, SyscallCode::ADD_MUL);
    assert_eq!(syscall_event.clk, 20);
    assert_eq!(syscall_event.shard, 1);
    assert_eq!(syscall_event.arg1, 0x100);
    assert_eq!(syscall_event.arg2, 0x104);
    assert_eq!(syscall_event.lookup_id, LookupId(7));
    match event {
        PrecompileEvent::ADDMul(e) => {
            assert_eq!((e.p, e.q, e.r, e.s), (1, 2, 4, 5));
            assert_eq!((e.p_ptr, e.q_ptr, e.r_ptr, e.s_ptr), (0x100, 0x104, 12, 13));
            assert_eq!(e.clk, 20);
            assert_eq!(e.lookup_id, LookupId(7));
            assert_eq!(e.p_memory_records.value, 22);
            assert_eq!(e.p_memory_records.prev_value, 1);
            assert_eq!(e.p_memory_records.timestamp, 21);
            assert_eq!(e.p_memory_records.prev_timestamp, 3);
            assert_eq!(e.q_memory_records.value, 2);
            assert_eq!(e.q_memory_records.timestamp, 20);
            assert_eq!(e.q_memory_records.prev_timestamp, 4);
            assert_eq!(e.r_memory_records.prev_timestamp, 5);
            assert_eq!(e.s_memory_records.prev_timestamp, 6);
            assert_eq!(e.local_mem_access.len(), 4);
            assert_eq!(e.local_mem_access[0].addr, 0x104);
            assert_eq!(e.local_mem_access[3].addr, 0x100);
            assert_eq!(e.local_mem_access[3].initial_mem_access, word(1, 3, 1));
            assert_eq!(e.local_mem_access[3].final_mem_access, word(1, 21, 22));
        }
        PrecompileEvent::InnerProduct(_) => panic!("wrong event kind"),
    }
}

#[test]
fn execute_on_untouched_memory_reads_zero() {
    let mut rt = SyscallContext::new(2, 8, LookupId(0), HashMap::new());
    AddMulSyscall.execute(&mut rt, SyscallCode::ADD_MUL, 0x200, 0x204);
    assert_eq!(rt.memory[&0x200].value, 0);
    match &rt.record.precompile_events[0].2 {
        PrecompileEvent::ADDMul(e) => {
            assert_eq!(e.q_memory_records.prev_shard, 0);
            assert_eq!(e.q_memory_records.prev_timestamp, 0);
            assert_eq!(e.p_memory_records.shard, 2);
        }
        _ => panic!("wrong event kind"),
    }
}

#[test]
fn execute_with_q_aliasing_p() {
    let mut memory = HashMap::new();
    memory.insert(0x100, word(1, 1, 3));
    memory.insert(LO_REGISTER, word(1, 1, 2));
    memory.insert(HI_REGISTER, word(1, 1, 10));
    let mut rt = SyscallContext::new(1, 5, LookupId(1), memory);
    AddMulSyscall.execute(&mut rt, SyscallCode::ADD_MUL, 0x100, 0x100);
    // 3 * 3 + 2 * 10
    assert_eq!(rt.memory[&0x100].value, 29);
    match &rt.record.precompile_events[0].2 {
        PrecompileEvent::ADDMul(e) => {
            assert_eq!(e.local_mem_access.len(), 3);
            assert_eq!(e.local_mem_access[0].initial_mem_access, word(1, 1, 3));
            assert_eq!(e.local_mem_access[0].final_mem_access, word(1, 6, 29));
            assert_eq!(e.p_memory_records.prev_timestamp, 5);
        }
        _ => panic!("wrong event kind"),
    }
}

#[test]
fn syscall_then_trace_satisfies_constraints() {
    let mut rt = sample_context();
    AddMulSyscall.execute(&mut rt, SyscallCode::ADD_MUL, 0x100, 0x104);
    rt.clk += 1;
    let mut memory_addr = 0x300;
    // a second call on fresh words
    rt.memory.insert(memory_addr, word(1, 2, 6));
    rt.memory.insert(memory_addr + 4, word(1, 2, 7));
    AddMulSyscall.execute(&mut rt, SyscallCode::ADD_MUL, memory_addr, memory_addr + 4);
    memory_addr += 8;
    assert_eq!(memory_addr, 0x308);
    // 6 * 7 + 4 * 5
    assert_eq!(rt.memory[&0x300].value, 62);

    let chip = AddmulChip::new();
    let mut output = ExecutionRecord::new();
    let rows = chip.generate_trace(&rt.record, &mut output, BABY_BEAR_ORDER);
    assert_eq!(rows.len(), 16);
    assert_eq!(rows[0].result, 22);
    assert_eq!(rows[1].result, 62);
    assert_eq!(rows[0].is_real, 1);
    assert_eq!(rows[2].is_real, 0);
    for (i, row) in rows.iter().enumerate() {
        assert_eq!(row.nonce, i as u32);
        let next = &rows[(i + 1) % rows.len()];
        assert!(chip.eval(row, next, i == 0, i + 1 < rows.len(), BABY_BEAR_ORDER).constraints_hold);
    }
    // two events, four accesses each, two range checks per access
    assert_eq!(output.byte_lookups.len(), 16);
    assert_eq!(output.byte_lookups[0], ByteLookupEvent::U16Range { shard: 1, value: 21 - 3 - 1 });
    assert_eq!(output.byte_lookups[1], ByteLookupEvent::U8Range { shard: 1, value: 0 });
}

#[test]
fn trace_cells_follow_column_order() {
    let mut rt = sample_context();
    AddMulSyscall.execute(&mut rt, SyscallCode::ADD_MUL, 0x100, 0x104);
    let chip = AddmulChip::new();
    let mut output = ExecutionRecord::new();
    let rows = chip.generate_trace(&rt.record, &mut output, BABY_BEAR_ORDER);
    let cells = rows[0].to_cells();
    assert_eq!(cells.len(), NUM_COLS);
    assert_eq!(chip.width(), 53);
    assert_eq!(&cells[0..11], &[1, 20, 0, 1, 2, 4, 5, 0x100, 0x104, 12, 13]);
    // prev value of p, then the value written
    assert_eq!(&cells[11..15], &[1, 0, 0, 0]);
    assert_eq!(&cells[15..19], &[22, 0, 0, 0]);
    assert_eq!(cells[51], 22);
    assert_eq!(cells[52], 1);
    let values = addmul_precompile::addmul::addmul_trace_values(&rows);
    assert_eq!(values.len(), 16 * NUM_COLS);
    assert_eq!(values[NUM_COLS + 2], 1);
}
