//! The events the precompile syscalls record for trace generation.

use vstd::prelude::*;
use crate::memory::{MemoryLocalEvent, MemoryReadRecord, MemoryWriteRecord};

verus! {

/// Identifies a syscall's interactions across chips.
#[derive(Clone, Copy, Debug, PartialEq, Eq, Structural)]
pub struct LookupId(pub u64);

/// The precompiles this crate knows.
#[allow(non_camel_case_types)]
#[derive(Clone, Copy, Debug, PartialEq, Eq, Structural)]
pub enum SyscallCode {
    ADD_MUL,
    INNER_PRODUCT,
}

/// The record of one syscall invocation.
#[derive(Clone, Copy, Debug, PartialEq, Eq, Structural)]
pub struct SyscallEvent {
    pub shard: u32,
    pub clk: u32,
    pub lookup_id: LookupId,
    pub syscall_code: SyscallCode,
    pub arg1: u32,
    pub arg2: u32,
}

/// AddMul event: the inputs `p`, `q`, `r`, `s` of `p * q + r * s`, where they
/// were read, and the accesses to memory that the syscall made.
#[derive(Debug, Clone)]
pub struct AddMulEvent {
    /// Lookup identifier
    pub lookup_id: LookupId,
    /// Shard number
    pub shard: u32,
    /// Clock cycle
    pub clk: u32,
    pub p: u32,
    pub q: u32,
    pub r: u32,
    pub s: u32,
    pub p_ptr: u32,
    pub q_ptr: u32,
    pub r_ptr: u32,
    pub s_ptr: u32,
    /// The write of the result over `p`.
    pub p_memory_records: MemoryWriteRecord,
    pub q_memory_records: MemoryReadRecord,
    pub r_memory_records: MemoryReadRecord,
    pub s_memory_records: MemoryReadRecord,
    /// The addresses the syscall touched, with their first and last state.
    pub local_mem_access: Vec<MemoryLocalEvent>,
}

impl Default for AddMulEvent {
    /// The event with every number zero and no local accesses.
    fn default() -> (e: Self)
        ensures
            e.lookup_id == LookupId(0),
            e.shard == 0 && e.clk == 0,
            e.p == 0 && e.q == 0 && e.r == 0 && e.s == 0,
            e.p_ptr == 0 && e.q_ptr == 0 && e.r_ptr == 0 && e.s_ptr == 0,
            e.p_memory_records == (MemoryWriteRecord {
                value: 0,
                shard: 0,
                timestamp: 0,
                prev_value: 0,
                prev_shard: 0,
                prev_timestamp: 0,
            }),
            e.q_memory_records == zero_read_record(),
            e.r_memory_records == zero_read_record(),
            e.s_memory_records == zero_read_record(),
            e.local_mem_access@.len() == 0,
    {
        let read = MemoryReadRecord { value: 0, shard: 0, timestamp: 0, prev_shard: 0, prev_timestamp: 0 };
        AddMulEvent {
            lookup_id: LookupId(0),
            shard: 0,
            clk: 0,
            p: 0,
            q: 0,
            r: 0,
            s: 0,
            p_ptr: 0,
            q_ptr: 0,
            r_ptr: 0,
            s_ptr: 0,
            p_memory_records: MemoryWriteRecord {
                value: 0,
                shard: 0,
                timestamp: 0,
                prev_value: 0,
                prev_shard: 0,
                prev_timestamp: 0,
            },
            q_memory_records: read,
            r_memory_records: read,
            s_memory_records: read,
            local_mem_access: Vec::new(),
        }
    }
}

pub open spec fn zero_read_record() -> MemoryReadRecord {
    MemoryReadRecord { value: 0, shard: 0, timestamp: 0, prev_shard: 0, prev_timestamp: 0 }
}

/// Inner-product event: two vectors read from memory and the write of their inner product.
#[derive(Debug, Clone)]
pub struct InnerProductEvent {
    pub lookup_id: LookupId,
    pub shard: u32,
    pub clk: u32,
    pub a_ptr: u32,
    pub b_ptr: u32,
    pub a: Vec<u32>,
    pub b: Vec<u32>,
    pub a_len_memory: MemoryReadRecord,
    pub b_len_memory: MemoryReadRecord,
    pub a_memory_records: Vec<MemoryReadRecord>,
    pub b_memory_records: Vec<MemoryReadRecord>,
    pub result_memory_records: MemoryWriteRecord,
    pub local_mem_access: Vec<MemoryLocalEvent>,
}

/// The event of one precompile call.
#[derive(Debug, Clone)]
pub enum PrecompileEvent {
    ADDMul(AddMulEvent),
    InnerProduct(InnerProductEvent),
}

/// The event kind that belongs to a syscall code.
pub open spec fn code_matches(code: SyscallCode, event: PrecompileEvent) -> bool {
    match event {
        PrecompileEvent::ADDMul(_) => code == SyscallCode::ADD_MUL,
        PrecompileEvent::InnerProduct(_) => code == SyscallCode::INNER_PRODUCT,
    }
}

} // verus!
