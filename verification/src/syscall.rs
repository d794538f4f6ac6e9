//! The AddMul syscall: `*p = *p * *q + r * s`, where `p` and `q` are the syscall's two
//! arguments and `r` and `s` are taken from the registers x12 and x13.

use vstd::prelude::*;
use crate::events::{AddMulEvent, PrecompileEvent, SyscallCode, SyscallEvent};
use crate::memory::{word_value, is_after, MemoryLocalEvent, MemoryReadRecord, MemoryRecord, MemoryWriteRecord};
use crate::addmul::{addmul_event_consistent, addmul_row, lemma_addmul_row_holds_its_accesses};
use crate::runtime::{read_record, record_at, track_local, write_record, SyscallContext};

verus! {

/// The register (and address) that holds `r`.
pub const LO_REGISTER: u32 = 12;

/// The register (and address) that holds `s`.
pub const HI_REGISTER: u32 = 13;

/// The AddMul syscall.
pub struct AddMulSyscall;

/// What one AddMul syscall does to memory: its three reads, its write, the memory after
/// it, and the local events it leaves.
pub struct AddMulEffect {
    pub p: u32,
    pub q_read: MemoryReadRecord,
    pub r_read: MemoryReadRecord,
    pub s_read: MemoryReadRecord,
    pub p_write: MemoryWriteRecord,
    pub memory: Map<u32, MemoryRecord>,
    pub locals: Seq<MemoryLocalEvent>,
}

/// The effect of the AddMul syscall with arguments `arg1`, `arg2` on memory `m0` at
/// `(shard, clk)`: it reads `q` at `arg2`, `r` at x12 and `s` at x13 at `clk`, and writes
/// `p * q + r * s` over `p` at `arg1` at `clk + 1`.
pub open spec fn addmul_effect(
    m0: Map<u32, MemoryRecord>,
    l0: Seq<MemoryLocalEvent>,
    shard: u32,
    clk: u32,
    arg1: u32,
    arg2: u32,
) -> AddMulEffect {
    let p = record_at(m0, arg1).value;
    let q_read = read_record(m0, arg2, shard, clk);
    let m1 = m0.insert(arg2, q_read.current());
    let l1 = track_local(l0, arg2, record_at(m0, arg2), q_read.current());
    let r_read = read_record(m1, LO_REGISTER, shard, clk);
    let m2 = m1.insert(LO_REGISTER, r_read.current());
    let l2 = track_local(l1, LO_REGISTER, record_at(m1, LO_REGISTER), r_read.current());
    let s_read = read_record(m2, HI_REGISTER, shard, clk);
    let m3 = m2.insert(HI_REGISTER, s_read.current());
    let l3 = track_local(l2, HI_REGISTER, record_at(m2, HI_REGISTER), s_read.current());
    let ret = (p * q_read.value + r_read.value * s_read.value) as u32;
    let p_write = write_record(m3, arg1, ret, shard, (clk + 1) as u32);
    let m4 = m3.insert(arg1, p_write.current());
    let l4 = track_local(l3, arg1, record_at(m3, arg1), p_write.current());
    AddMulEffect { p, q_read, r_read, s_read, p_write, memory: m4, locals: l4 }
}

/// The product-sum the syscall computes, from the values in memory before it.
pub open spec fn addmul_value(m0: Map<u32, MemoryRecord>, arg1: u32, arg2: u32) -> int {
    record_at(m0, arg1).value * record_at(m0, arg2).value + record_at(m0, LO_REGISTER).value
        * record_at(m0, HI_REGISTER).value
}

/// `e` is the event of the syscall with effect `eff`, arguments `arg1`, `arg2`, at
/// `(shard, clk)` with lookup id `lookup_id`.
pub open spec fn is_addmul_event(
    e: AddMulEvent,
    eff: AddMulEffect,
    shard: u32,
    clk: u32,
    lookup_id: crate::events::LookupId,
    arg1: u32,
    arg2: u32,
) -> bool {
    &&& e.lookup_id == lookup_id
    &&& e.shard == shard
    &&& e.clk == clk
    &&& e.p == eff.p
    &&& e.q == eff.q_read.value
    &&& e.r == eff.r_read.value
    &&& e.s == eff.s_read.value
    &&& e.p_ptr == arg1
    &&& e.q_ptr == arg2
    &&& e.r_ptr == LO_REGISTER
    &&& e.s_ptr == HI_REGISTER
    &&& e.p_memory_records == eff.p_write
    &&& e.q_memory_records == eff.q_read
    &&& e.r_memory_records == eff.r_read
    &&& e.s_memory_records == eff.s_read
    &&& e.local_mem_access@ == eff.locals
}

impl AddMulSyscall {
    /// Computes `p * q + r * s`, where `p` is the word at `arg1`, `q` the word at `arg2`, and
    /// `r`, `s` the registers x12 and x13, and writes the result over `p` one cycle later.
    /// Records an AddMul event of the call under `syscall_code`. Returns no value.
    pub fn execute(&self, rt: &mut SyscallContext, syscall_code: SyscallCode, arg1: u32, arg2: u32) -> (ret: Option<u32>)
        requires
            old(rt).wf(),
            old(rt).clk < u32::MAX,
            addmul_value(old(rt).memory@, arg1, arg2) <= u32::MAX,
        ensures
            ret is None,
            final(rt).wf(),
            ({
                let eff = addmul_effect(
                    old(rt).memory@,
                    old(rt).local_memory_access@,
                    old(rt).current_shard,
                    old(rt).clk,
                    arg1,
                    arg2,
                );
                let events = final(rt).record.precompile_events@;
                &&& final(rt).memory@ == eff.memory
                &&& events.len() == old(rt).record.precompile_events@.len() + 1
                &&& events.drop_last() == old(rt).record.precompile_events@
                &&& events.last().0 == syscall_code
                &&& events.last().1 == (SyscallEvent {
                    shard: old(rt).current_shard,
                    clk: old(rt).clk,
                    lookup_id: old(rt).syscall_lookup_id,
                    syscall_code,
                    arg1,
                    arg2,
                })
                &&& events.last().2 matches PrecompileEvent::ADDMul(e) && is_addmul_event(
                    e,
                    eff,
                    old(rt).current_shard,
                    old(rt).clk,
                    old(rt).syscall_lookup_id,
                    arg1,
                    arg2,
                )
            }),
            // The result is written over the first input.
            record_at(final(rt).memory@, arg1).value == addmul_value(old(rt).memory@, arg1, arg2),
            // No other word changes value.
            forall|a: u32| a != arg1 ==> #[trigger] record_at(final(rt).memory@, a).value == record_at(old(rt).memory@, a).value,
            final(rt).clk == old(rt).clk + 1,
            final(rt).local_memory_access@.len() == 0,
            final(rt).current_shard == old(rt).current_shard,
            final(rt).syscall_lookup_id == old(rt).syscall_lookup_id,
            final(rt).record.byte_lookups@ == old(rt).record.byte_lookups@,
            final(rt).record.shape == old(rt).record.shape,
    {
        let clk = rt.clk;
        let ghost m0 = rt.memory@;
        // The value of `p` is read without a record: the write below records it.
        let p = rt.word_unsafe(arg1);
        let (q_memory_records, q) = rt.mr(arg2);
        let (r_memory_records, r) = rt.mr(LO_REGISTER);
        let (s_memory_records, s) = rt.mr(HI_REGISTER);
        rt.clk = rt.clk + 1;
        assert(record_at(m0, arg2).value == q);
        assert(record_at(m0, LO_REGISTER).value == r);
        assert(record_at(m0, HI_REGISTER).value == s);
        assert(p * q <= u32::MAX) by (nonlinear_arith)
            requires p * q + r * s <= u32::MAX, r * s >= 0;
        assert(r * s <= u32::MAX) by (nonlinear_arith)
            requires p * q + r * s <= u32::MAX, p * q >= 0;
        let ret = p * q + r * s;
        let p_memory_records = rt.mw(arg1, ret);
        let lookup_id = rt.syscall_lookup_id;
        let shard = rt.current_shard();
        let local_mem_access = rt.postprocess();
        let event = PrecompileEvent::ADDMul(
            AddMulEvent {
                lookup_id,
                shard,
                clk,
                p,
                q,
                r,
                s,
                p_ptr: arg1,
                q_ptr: arg2,
                r_ptr: LO_REGISTER,
                s_ptr: HI_REGISTER,
                p_memory_records,
                q_memory_records,
                r_memory_records,
                s_memory_records,
                local_mem_access,
            },
        );
        let syscall_event = rt.syscall_event(clk, syscall_code, arg1, arg2, lookup_id);
        rt.record.add_precompile_event(syscall_code, syscall_event, event);
        proof {
            let events = rt.record.precompile_events@;
            assert(events.drop_last() =~= old(rt).record.precompile_events@);
        }
        None
    }
}

/// Every word of `m` was last accessed before `(shard, clk)`, and so was a word never accessed.
pub open spec fn memory_before(m: Map<u32, MemoryRecord>, shard: u32, clk: u32) -> bool {
    &&& (0 < shard || 0 < clk)
    &&& forall|a: u32|
        #[trigger] m.contains_key(a) ==> is_after(MemoryRecord { shard, timestamp: clk, value: 0 }, m[a])
}

/// The accesses of an AddMul syscall are ordered in time, so that trace generation can take
/// its event, when memory was last accessed before the syscall and `q` is not read from x12
/// or x13 (which are read at the same cycle).
pub proof fn lemma_syscall_records_ordered(
    m0: Map<u32, MemoryRecord>,
    l0: Seq<MemoryLocalEvent>,
    shard: u32,
    clk: u32,
    arg1: u32,
    arg2: u32,
)
    requires
        memory_before(m0, shard, clk),
        clk < u32::MAX,
        arg2 != LO_REGISTER,
        arg2 != HI_REGISTER,
    ensures
        ({
            let eff = addmul_effect(m0, l0, shard, clk, arg1, arg2);
            &&& eff.q_read.is_ordered()
            &&& eff.r_read.is_ordered()
            &&& eff.s_read.is_ordered()
            &&& eff.p_write.is_ordered()
        }),
{
    let now = MemoryRecord { shard, timestamp: clk, value: 0 };
    assert(is_after(now, record_at(m0, arg2)));
    assert(is_after(now, record_at(m0, LO_REGISTER)));
    assert(is_after(now, record_at(m0, HI_REGISTER)));
    assert(is_after(now, record_at(m0, arg1)));
}

/// The records of an AddMul syscall's event agree with it, so that trace generation
/// builds from it a row that holds, as its result, the value the syscall wrote over `p`,
/// and that satisfies the result constraint.
pub proof fn lemma_syscall_event_row(
    e: AddMulEvent,
    m0: Map<u32, MemoryRecord>,
    l0: Seq<MemoryLocalEvent>,
    shard: u32,
    clk: u32,
    lookup_id: crate::events::LookupId,
    arg1: u32,
    arg2: u32,
    nonce: int,
    order: int,
)
    requires
        is_addmul_event(e, addmul_effect(m0, l0, shard, clk, arg1, arg2), shard, clk, lookup_id, arg1, arg2),
        addmul_value(m0, arg1, arg2) <= u32::MAX,
        clk < u32::MAX,
        order > 0,
    ensures
        addmul_event_consistent(e),
        addmul_row(e, nonce).result == addmul_effect(m0, l0, shard, clk, arg1, arg2).p_write.value,
        addmul_row(e, nonce).result == addmul_value(m0, arg1, arg2),
        crate::field::vanishes(
            addmul_row(e, nonce).is_real * (addmul_row(e, nonce).result - (addmul_row(e, nonce).p
                * addmul_row(e, nonce).q + addmul_row(e, nonce).r * addmul_row(e, nonce).s)),
            order,
        ),
{
    let row = addmul_row(e, nonce);
    assert(row.result - (row.p * row.q + row.r * row.s) == 0);
    assert(row.is_real * (row.result - (row.p * row.q + row.r * row.s)) == 0);
}

/// The event of an AddMul syscall holds what memory held before the call: `p` is the word
/// at `arg1`, `q` the word at `arg2`, `r` and `s` the registers x12 and x13, each read record
/// holds the value read at its address, and the write over `p` replaces `p` by
/// `p * q + r * s`. So the row of that event holds, in `r_memory` and `s_memory`, the words
/// of x12 and x13.
pub proof fn lemma_syscall_event_reads_memory(
    e: AddMulEvent,
    m0: Map<u32, MemoryRecord>,
    l0: Seq<MemoryLocalEvent>,
    shard: u32,
    clk: u32,
    lookup_id: crate::events::LookupId,
    arg1: u32,
    arg2: u32,
    nonce: int,
)
    requires
        is_addmul_event(e, addmul_effect(m0, l0, shard, clk, arg1, arg2), shard, clk, lookup_id, arg1, arg2),
        addmul_value(m0, arg1, arg2) <= u32::MAX,
    ensures
        e.p_ptr == arg1 && e.q_ptr == arg2 && e.r_ptr == LO_REGISTER && e.s_ptr == HI_REGISTER,
        e.p == record_at(m0, arg1).value,
        e.q == record_at(m0, arg2).value,
        e.r == record_at(m0, LO_REGISTER).value,
        e.s == record_at(m0, HI_REGISTER).value,
        e.q_memory_records.value == e.q,
        e.r_memory_records.value == e.r,
        e.s_memory_records.value == e.s,
        e.p_memory_records.prev_value == e.p,
        e.p_memory_records.value == e.p * e.q + e.r * e.s,
        word_value(addmul_row(e, nonce).q_memory.access.value) == record_at(m0, arg2).value,
        word_value(addmul_row(e, nonce).r_memory.access.value) == record_at(m0, LO_REGISTER).value,
        word_value(addmul_row(e, nonce).s_memory.access.value) == record_at(m0, HI_REGISTER).value,
        word_value(addmul_row(e, nonce).p_memory.prev_value) == record_at(m0, arg1).value,
{
    let eff = addmul_effect(m0, l0, shard, clk, arg1, arg2);
    let m1 = m0.insert(arg2, eff.q_read.current());
    let m2 = m1.insert(LO_REGISTER, eff.r_read.current());
    let m3 = m2.insert(HI_REGISTER, eff.s_read.current());
    assert(record_at(m1, LO_REGISTER).value == record_at(m0, LO_REGISTER).value);
    assert(record_at(m2, HI_REGISTER).value == record_at(m0, HI_REGISTER).value);
    assert(record_at(m3, arg1).value == record_at(m0, arg1).value);
    lemma_addmul_row_holds_its_accesses(e, nonce);
}

/// After an AddMul syscall the word at `arg1` holds `p * q + r * s`, computed from the
/// words in memory before the call, last written in the call's shard one cycle after its
/// clock; every other word keeps its value.
pub proof fn lemma_addmul_effect_on_memory(
    m0: Map<u32, MemoryRecord>,
    l0: Seq<MemoryLocalEvent>,
    shard: u32,
    clk: u32,
    arg1: u32,
    arg2: u32,
    addr: u32,
)
    requires
        addmul_value(m0, arg1, arg2) <= u32::MAX,
        clk < u32::MAX,
    ensures
        record_at(addmul_effect(m0, l0, shard, clk, arg1, arg2).memory, arg1).value == addmul_value(m0, arg1, arg2),
        record_at(addmul_effect(m0, l0, shard, clk, arg1, arg2).memory, arg1).shard == shard,
        record_at(addmul_effect(m0, l0, shard, clk, arg1, arg2).memory, arg1).timestamp == clk + 1,
        addr != arg1 ==> record_at(addmul_effect(m0, l0, shard, clk, arg1, arg2).memory, addr).value
            == record_at(m0, addr).value,
{
    let eff = addmul_effect(m0, l0, shard, clk, arg1, arg2);
    let m1 = m0.insert(arg2, eff.q_read.current());
    let m2 = m1.insert(LO_REGISTER, eff.r_read.current());
    let m3 = m2.insert(HI_REGISTER, eff.s_read.current());
    assert(record_at(m1, LO_REGISTER).value == record_at(m0, LO_REGISTER).value);
    assert(record_at(m2, HI_REGISTER).value == record_at(m0, HI_REGISTER).value);
    assert(record_at(m3, arg1).value == record_at(m0, arg1).value);
    assert(record_at(m3, addr).value == record_at(m0, addr).value);
}

} // verus!
