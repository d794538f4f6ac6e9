//! The part of the executor that a precompile syscall sees: memory, the clock, and the record.

use vstd::prelude::*;
use std::collections::HashMap;
use crate::events::{LookupId, SyscallCode, SyscallEvent};
use crate::memory::{MemoryLocalEvent, MemoryReadRecord, MemoryRecord, MemoryWriteRecord};
use crate::record::ExecutionRecord;

verus! {

broadcast use vstd::std_specs::hash::group_hash_axioms;

/// The executor's state during one syscall.
pub struct SyscallContext {
    /// The shard being executed.
    pub current_shard: u32,
    /// The clock cycle of the syscall.
    pub clk: u32,
    /// The lookup id of the syscall.
    pub syscall_lookup_id: LookupId,
    /// Memory, registers included (register `i` is address `i`): the state of each word
    /// accessed so far. A word never accessed holds zero.
    pub memory: HashMap<u32, MemoryRecord>,
    /// The addresses this syscall touched, in order of first access.
    pub local_memory_access: Vec<MemoryLocalEvent>,
    /// What the execution recorded.
    pub record: ExecutionRecord,
}

/// The state of `addr` in `m`: a word never accessed holds zero, at time zero.
pub open spec fn record_at(m: Map<u32, MemoryRecord>, addr: u32) -> MemoryRecord {
    if m.contains_key(addr) {
        m[addr]
    } else {
        MemoryRecord { shard: 0, timestamp: 0, value: 0 }
    }
}

/// The record of a read of `addr` at `(shard, timestamp)`.
pub open spec fn read_record(m: Map<u32, MemoryRecord>, addr: u32, shard: u32, timestamp: u32) -> MemoryReadRecord {
    let prev = record_at(m, addr);
    MemoryReadRecord {
        value: prev.value,
        shard,
        timestamp,
        prev_shard: prev.shard,
        prev_timestamp: prev.timestamp,
    }
}

/// The record of a write of `value` to `addr` at `(shard, timestamp)`.
pub open spec fn write_record(
    m: Map<u32, MemoryRecord>,
    addr: u32,
    value: u32,
    shard: u32,
    timestamp: u32,
) -> MemoryWriteRecord {
    let prev = record_at(m, addr);
    MemoryWriteRecord {
        value,
        shard,
        timestamp,
        prev_value: prev.value,
        prev_shard: prev.shard,
        prev_timestamp: prev.timestamp,
    }
}

/// No two local events are for the same address.
pub open spec fn locals_distinct(ls: Seq<MemoryLocalEvent>) -> bool {
    forall|i: int, j: int| 0 <= i < ls.len() && 0 <= j < ls.len() && i != j ==> #[trigger] ls[i].addr != #[trigger] ls[j].addr
}

/// The local events after an access that moved `addr` from `prev` to `cur`: the event of
/// `addr` keeps its first state and takes `cur` as its last; an address not yet touched
/// gets a new event at the end.
pub open spec fn track_local(
    ls: Seq<MemoryLocalEvent>,
    addr: u32,
    prev: MemoryRecord,
    cur: MemoryRecord,
) -> Seq<MemoryLocalEvent> {
    if exists|i: int| 0 <= i < ls.len() && (#[trigger] ls[i]).addr == addr {
        let i = choose|i: int| 0 <= i < ls.len() && (#[trigger] ls[i]).addr == addr;
        ls.update(
            i,
            MemoryLocalEvent { addr, initial_mem_access: ls[i].initial_mem_access, final_mem_access: cur },
        )
    } else {
        ls.push(MemoryLocalEvent { addr, initial_mem_access: prev, final_mem_access: cur })
    }
}

proof fn lemma_track_local_distinct(ls: Seq<MemoryLocalEvent>, addr: u32, prev: MemoryRecord, cur: MemoryRecord)
    requires
        locals_distinct(ls),
    ensures
        locals_distinct(track_local(ls, addr, prev, cur)),
{
    let r = track_local(ls, addr, prev, cur);
    if exists|i: int| 0 <= i < ls.len() && (#[trigger] ls[i]).addr == addr {
        let i = choose|i: int| 0 <= i < ls.len() && (#[trigger] ls[i]).addr == addr;
        assert forall|a: int, b: int| 0 <= a < r.len() && 0 <= b < r.len() && a != b implies #[trigger] r[a].addr != #[trigger] r[b].addr by {
            assert(ls[a].addr != ls[b].addr);
        }
    } else {
        assert forall|a: int, b: int| 0 <= a < r.len() && 0 <= b < r.len() && a != b implies #[trigger] r[a].addr != #[trigger] r[b].addr by {
            if a < ls.len() && b < ls.len() {
                assert(ls[a].addr != ls[b].addr);
            } else if a < ls.len() {
                assert(r[a] == ls[a]);
            } else {
                assert(r[b] == ls[b]);
            }
        }
    }
}

impl SyscallContext {
    /// The context is sound: no address has two local events.
    pub open spec fn wf(&self) -> bool {
        locals_distinct(self.local_memory_access@)
    }

    /// A context at `(shard, clk)` over `memory`, with nothing touched or recorded yet.
    pub fn new(current_shard: u32, clk: u32, syscall_lookup_id: LookupId, memory: HashMap<u32, MemoryRecord>) -> (rt: Self)
        ensures
            rt.current_shard == current_shard,
            rt.clk == clk,
            rt.syscall_lookup_id == syscall_lookup_id,
            rt.memory@ == memory@,
            rt.local_memory_access@.len() == 0,
            rt.record.precompile_events@.len() == 0,
            rt.record.byte_lookups@.len() == 0,
            rt.record.shape is None,
            rt.wf(),
    {
        SyscallContext {
            current_shard,
            clk,
            syscall_lookup_id,
            memory,
            local_memory_access: Vec::new(),
            record: ExecutionRecord::new(),
        }
    }

    /// The shard being executed.
    pub fn current_shard(&self) -> (shard: u32)
        ensures
            shard == self.current_shard,
    {
        self.current_shard
    }

    /// The state of `addr`.
    fn entry(&self, addr: u32) -> (r: MemoryRecord)
        ensures
            r == record_at(self.memory@, addr),
    {
        match self.memory.get(&addr) {
            Some(r) => *r,
            None => MemoryRecord { shard: 0, timestamp: 0, value: 0 },
        }
    }

    /// The value of `addr`, read without a record.
    pub fn word_unsafe(&self, addr: u32) -> (v: u32)
        ensures
            v == record_at(self.memory@, addr).value,
    {
        self.entry(addr).value
    }

    /// Notes that `addr` moved from `prev` to `cur` during this syscall.
    fn touch(&mut self, addr: u32, prev: MemoryRecord, cur: MemoryRecord)
        requires
            old(self).wf(),
        ensures
            final(self).wf(),
            final(self).local_memory_access@ == track_local(old(self).local_memory_access@, addr, prev, cur),
            final(self).memory == old(self).memory,
            final(self).clk == old(self).clk,
            final(self).current_shard == old(self).current_shard,
            final(self).syscall_lookup_id == old(self).syscall_lookup_id,
            final(self).record == old(self).record,
    {
        proof {
            lemma_track_local_distinct(self.local_memory_access@, addr, prev, cur);
        }
        let n = self.local_memory_access.len();
        let mut i: usize = 0;
        while i < n
            invariant
                *self == *old(self),
                locals_distinct(self.local_memory_access@),
                n == self.local_memory_access@.len(),
                i <= n,
                forall|j: int| 0 <= j < i ==> (#[trigger] self.local_memory_access@[j]).addr != addr,
            decreases n - i,
        {
            if self.local_memory_access[i].addr == addr {
                let ghost ls = self.local_memory_access@;
                let initial = self.local_memory_access[i].initial_mem_access;
                proof {
                    let k = choose|k: int| 0 <= k < ls.len() && (#[trigger] ls[k]).addr == addr;
                    assert(ls[k].addr == ls[i as int].addr);
                    assert(k == i);
                }
                self.local_memory_access.set(
                    i,
                    MemoryLocalEvent { addr, initial_mem_access: initial, final_mem_access: cur },
                );
                assert(self.local_memory_access@ =~= track_local(ls, addr, prev, cur));
                return;
            }
            i = i + 1;
        }
        self.local_memory_access.push(MemoryLocalEvent { addr, initial_mem_access: prev, final_mem_access: cur });
        assert(self.local_memory_access@ =~= track_local(old(self).local_memory_access@, addr, prev, cur));
    }

    /// Reads `addr` at the current clock: returns the record of the read and the value read.
    pub fn mr(&mut self, addr: u32) -> (out: (MemoryReadRecord, u32))
        requires
            old(self).wf(),
        ensures
            final(self).wf(),
            out.0 == read_record(old(self).memory@, addr, old(self).current_shard, old(self).clk),
            out.1 == out.0.value,
            final(self).memory@ == old(self).memory@.insert(addr, out.0.current()),
            final(self).local_memory_access@ == track_local(
                old(self).local_memory_access@,
                addr,
                record_at(old(self).memory@, addr),
                out.0.current(),
            ),
            final(self).clk == old(self).clk,
            final(self).current_shard == old(self).current_shard,
            final(self).syscall_lookup_id == old(self).syscall_lookup_id,
            final(self).record == old(self).record,
    {
        let prev = self.entry(addr);
        let cur = MemoryRecord { shard: self.current_shard, timestamp: self.clk, value: prev.value };
        self.memory.insert(addr, cur);
        self.touch(addr, prev, cur);
        let record = MemoryReadRecord {
            value: prev.value,
            shard: self.current_shard,
            timestamp: self.clk,
            prev_shard: prev.shard,
            prev_timestamp: prev.timestamp,
        };
        (record, record.value)
    }

    /// Writes `value` to `addr` at the current clock, and returns the record of the write.
    pub fn mw(&mut self, addr: u32, value: u32) -> (record: MemoryWriteRecord)
        requires
            old(self).wf(),
        ensures
            final(self).wf(),
            record == write_record(old(self).memory@, addr, value, old(self).current_shard, old(self).clk),
            final(self).memory@ == old(self).memory@.insert(addr, record.current()),
            final(self).local_memory_access@ == track_local(
                old(self).local_memory_access@,
                addr,
                record_at(old(self).memory@, addr),
                record.current(),
            ),
            final(self).clk == old(self).clk,
            final(self).current_shard == old(self).current_shard,
            final(self).syscall_lookup_id == old(self).syscall_lookup_id,
            final(self).record == old(self).record,
    {
        let prev = self.entry(addr);
        let cur = MemoryRecord { shard: self.current_shard, timestamp: self.clk, value };
        self.memory.insert(addr, cur);
        self.touch(addr, prev, cur);
        MemoryWriteRecord {
            value,
            shard: self.current_shard,
            timestamp: self.clk,
            prev_value: prev.value,
            prev_shard: prev.shard,
            prev_timestamp: prev.timestamp,
        }
    }

    /// Hands over the local events of this syscall, leaving none behind.
    pub fn postprocess(&mut self) -> (events: Vec<MemoryLocalEvent>)
        ensures
            events@ == old(self).local_memory_access@,
            final(self).local_memory_access@.len() == 0,
            final(self).wf(),
            final(self).memory == old(self).memory,
            final(self).clk == old(self).clk,
            final(self).current_shard == old(self).current_shard,
            final(self).syscall_lookup_id == old(self).syscall_lookup_id,
            final(self).record == old(self).record,
    {
        let mut events = Vec::new();
        std::mem::swap(&mut events, &mut self.local_memory_access);
        events
    }

    /// The record of this syscall.
    pub fn syscall_event(&self, clk: u32, syscall_code: SyscallCode, arg1: u32, arg2: u32, lookup_id: LookupId) -> (e: SyscallEvent)
        ensures
            e == (SyscallEvent { shard: self.current_shard, clk, lookup_id, syscall_code, arg1, arg2 }),
    {
        SyscallEvent { shard: self.current_shard, clk, lookup_id, syscall_code, arg1, arg2 }
    }
}

} // verus!
