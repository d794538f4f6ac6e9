//! The AddMul chip: one trace row per AddMul event, and the constraints on those rows.

use vstd::prelude::*;
use crate::events::{AddMulEvent, PrecompileEvent, SyscallCode};
use crate::memory::{access_constraints, eval_access, lemma_access_cols_meet_constraints, time_gap_minus_one};
use crate::field::{all_canonical, cells_canonical, is_prime, lemma_boolean_in_prime_field, vanishes, vanishes_difference};
use crate::interaction::{add_in_field, field_add, is_read_of, is_write_of, Interaction, RowEvaluation};
use crate::memory::{
    read_cells, write_cells, word_to_u64, word_value, Word, lemma_word_value_of,
    access_cols_of, access_lookups_of, word_spec, zero_access_spec, zero_word, ByteLookupEvent,
    MemoryReadCols, MemoryWriteCols, holds_access_at, lemma_read_cols_hold, lemma_write_cols_hold,
    read_holds, write_holds,
};
use crate::record::{addmul_events, has_code, shape_lookup, ExecutionRecord};
use crate::utils::{can_pad, can_pad_rows, is_padded_height, lemma_padded_height_unique, next_power_of_two, pad_rows_fixed};

verus! {

/// The number of cells in a row of the AddMul trace.
pub const NUM_COLS: usize = 53;

/// The AddMul chip.
pub struct AddmulChip;

/// The cells of one row of the AddMul trace.
#[derive(Debug, Clone, Copy)]
pub struct AddmulCols<T> {
    /// The shard number of the syscall.
    pub shard: T,
    /// The clock cycle of the syscall.
    pub clk: T,
    /// The nonce of the operation.
    pub nonce: T,
    pub p: T,
    pub q: T,
    pub r: T,
    pub s: T,
    pub p_ptr: T,
    pub q_ptr: T,
    pub r_ptr: T,
    pub s_ptr: T,
    pub p_memory: MemoryWriteCols<T>,
    pub q_memory: MemoryReadCols<T>,
    pub r_memory: MemoryReadCols<T>,
    pub s_memory: MemoryReadCols<T>,
    /// The result, which is written over `p`.
    pub result: T,
    /// Whether the row holds a computation rather than padding.
    pub is_real: T,
}

/// The row of `e`, with nonce `nonce`.
pub open spec fn addmul_row(e: AddMulEvent, nonce: int) -> AddmulCols<u32> {
    AddmulCols {
        shard: e.shard,
        clk: e.clk,
        nonce: nonce as u32,
        p: e.p,
        q: e.q,
        r: e.r,
        s: e.s,
        p_ptr: e.p_ptr,
        q_ptr: e.q_ptr,
        r_ptr: e.r_ptr,
        s_ptr: e.s_ptr,
        p_memory: MemoryWriteCols {
            prev_value: word_spec(e.p_memory_records.prev_value),
            access: access_cols_of(e.p_memory_records.current(), e.p_memory_records.previous()),
        },
        q_memory: MemoryReadCols {
            access: access_cols_of(e.q_memory_records.current(), e.q_memory_records.previous()),
        },
        r_memory: MemoryReadCols {
            access: access_cols_of(e.r_memory_records.current(), e.r_memory_records.previous()),
        },
        s_memory: MemoryReadCols {
            access: access_cols_of(e.s_memory_records.current(), e.s_memory_records.previous()),
        },
        result: (e.p * e.q + e.r * e.s) as u32,
        is_real: 1,
    }
}

/// A padding row: every cell zero but the nonce.
pub open spec fn addmul_padding_row(nonce: int) -> AddmulCols<u32> {
    AddmulCols {
        shard: 0,
        clk: 0,
        nonce: nonce as u32,
        p: 0,
        q: 0,
        r: 0,
        s: 0,
        p_ptr: 0,
        q_ptr: 0,
        r_ptr: 0,
        s_ptr: 0,
        p_memory: MemoryWriteCols { prev_value: zero_word(), access: zero_access_spec() },
        q_memory: MemoryReadCols { access: zero_access_spec() },
        r_memory: MemoryReadCols { access: zero_access_spec() },
        s_memory: MemoryReadCols { access: zero_access_spec() },
        result: 0,
        is_real: 0,
    }
}

/// The trace of `events`, padded to `height` rows.
pub open spec fn addmul_trace(events: Seq<AddMulEvent>, height: nat) -> Seq<AddmulCols<u32>> {
    Seq::new(
        height,
        |i: int|
            if i < events.len() {
                addmul_row(events[i], i)
            } else {
                addmul_padding_row(i)
            },
    )
}

/// The range checks the row of `e` asks for: those of `p`, `q`, `r` and `s`, in that order.
pub open spec fn addmul_event_lookups(e: AddMulEvent) -> Seq<ByteLookupEvent> {
    access_lookups_of(e.p_memory_records.current(), e.p_memory_records.previous())
        + access_lookups_of(e.q_memory_records.current(), e.q_memory_records.previous())
        + access_lookups_of(e.r_memory_records.current(), e.r_memory_records.previous())
        + access_lookups_of(e.s_memory_records.current(), e.s_memory_records.previous())
}

/// The range checks of the rows of `events`, in order.
pub open spec fn addmul_lookups(events: Seq<AddMulEvent>) -> Seq<ByteLookupEvent>
    decreases events.len(),
{
    if events.len() == 0 {
        seq![]
    } else {
        addmul_lookups(events.drop_last()) + addmul_event_lookups(events.last())
    }
}

/// The event can be turned into a row without a panic: its accesses are ordered in time and
/// its result fits in a word.
pub open spec fn addmul_event_buildable(e: AddMulEvent) -> bool {
    &&& e.p_memory_records.is_ordered()
    &&& e.q_memory_records.is_ordered()
    &&& e.r_memory_records.is_ordered()
    &&& e.s_memory_records.is_ordered()
    &&& e.p * e.q + e.r * e.s <= u32::MAX
}

/// The event can be turned into a row, and every cell of its row is canonical for the field
/// of order `order`.
pub open spec fn addmul_event_ok(e: AddMulEvent, order: int) -> bool {
    &&& addmul_event_buildable(e)
    &&& cells_canonical(addmul_row(e, 0).cells(), order)
}

/// When the AddMul trace of `input` can be built for a field of order `order` without a
/// panic: the order is that of a field; each event recorded under the chip's code is of the
/// chip's kind; a fixed shape names the chip; each event can be turned into a row; the rows
/// can be padded; and every nonce of the padded trace is canonical.
pub open spec fn addmul_trace_requires(input: ExecutionRecord, order: int) -> bool {
    let events = addmul_events(input.precompile_events@);
    let fixed = fixed_power_of(input, addmul_name());
    &&& input.wf_for(SyscallCode::ADD_MUL)
    &&& order > 1
    &&& input.shape matches Some(shape) ==> shape_lookup(shape@, addmul_name()) is Some
    &&& forall|i: int| 0 <= i < events.len() ==> addmul_event_ok(#[trigger] events[i], order)
    &&& can_pad(events.len(), fixed)
    &&& forall|h: nat| is_padded_height(events.len(), fixed, h) ==> h <= order
}

/// Whether an event can be turned into a row for a field of order `order`.
pub fn addmul_event_can_be_row(e: &AddMulEvent, order: u32) -> (b: bool)
    ensures
        b == addmul_event_ok(*e, order as int),
{
    let (p, q, r, s) = (e.p as u128, e.q as u128, e.r as u128, e.s as u128);
    assert(p * q <= 0xffff_ffff * 0xffff_ffff) by (nonlinear_arith)
        requires p <= 0xffff_ffff, q <= 0xffff_ffff;
    assert(r * s <= 0xffff_ffff * 0xffff_ffff) by (nonlinear_arith)
        requires r <= 0xffff_ffff, s <= 0xffff_ffff;
    let value = p * q + r * s;
    if !(e.p_memory_records.ordered() && e.q_memory_records.ordered() && e.r_memory_records.ordered()
        && e.s_memory_records.ordered() && value <= 0xffff_ffff) {
        return false;
    }
    let mut scratch: Vec<ByteLookupEvent> = Vec::new();
    let row = AddmulChip::event_row(e, &mut scratch);
    let cells = row.to_cells();
    all_canonical(&cells, order)
}

/// The polynomial constraints of the AddMul chip on a row and the row after it: `is_real`
/// is boolean; the nonce is zero on the first row and grows by one from row to row; and on
/// a real row the result is `p * q + r * s` and the word written over `p` is the result;
/// and the columns of the write of `p` at `clk + 1` and of the reads of `q`, `r`, `s` at
/// `clk` meet the access checks, on a real row.
pub open spec fn addmul_constraints(
    local: AddmulCols<u32>,
    next: AddmulCols<u32>,
    is_first_row: bool,
    is_transition: bool,
    order: int,
) -> bool {
    &&& addmul_row_constraints(local, order)
    &&& is_first_row ==> vanishes(local.nonce as int, order)
    &&& is_transition ==> vanishes(local.nonce + 1 - next.nonce, order)
}

/// The AddMul constraints that concern one row alone.
pub open spec fn addmul_row_constraints(local: AddmulCols<u32>, order: int) -> bool {
    &&& vanishes(local.is_real * (local.is_real - 1), order)
    &&& vanishes(local.is_real * (local.result - (local.p * local.q + local.r * local.s)), order)
    &&& vanishes(local.is_real * (word_value(local.p_memory.access.value) - local.result), order)
    &&& access_constraints(local.p_memory.access, local.shard as int, local.clk + 1, local.is_real as int, order)
    &&& access_constraints(local.q_memory.access, local.shard as int, local.clk as int, local.is_real as int, order)
    &&& access_constraints(local.r_memory.access, local.shard as int, local.clk as int, local.is_real as int, order)
    &&& access_constraints(local.s_memory.access, local.shard as int, local.clk as int, local.is_real as int, order)
}

/// The interactions of an AddMul row, each with multiplicity `is_real`: the write over `p`
/// at `clk + 1`, the reads of `q`, `r` and `s` at `clk`, and the receipt of the syscall
/// with its nonce and its two arguments.
pub open spec fn addmul_interactions(local: AddmulCols<u32>, order: int) -> Seq<Interaction> {
    seq![
        Interaction::MemoryAccess {
            shard: local.shard,
            clk: field_add(local.clk as int, 1, order),
            addr: local.p_ptr,
            prev_value: local.p_memory.prev_value,
            access: local.p_memory.access,
            multiplicity: local.is_real,
        },
        Interaction::MemoryAccess {
            shard: local.shard,
            clk: local.clk,
            addr: local.q_ptr,
            prev_value: local.q_memory.access.value,
            access: local.q_memory.access,
            multiplicity: local.is_real,
        },
        Interaction::MemoryAccess {
            shard: local.shard,
            clk: local.clk,
            addr: local.r_ptr,
            prev_value: local.r_memory.access.value,
            access: local.r_memory.access,
            multiplicity: local.is_real,
        },
        Interaction::MemoryAccess {
            shard: local.shard,
            clk: local.clk,
            addr: local.s_ptr,
            prev_value: local.s_memory.access.value,
            access: local.s_memory.access,
            multiplicity: local.is_real,
        },
        Interaction::SyscallReceive {
            shard: local.shard,
            clk: local.clk,
            nonce: Some(local.nonce),
            syscall_code: SyscallCode::ADD_MUL,
            arg1: local.p_ptr,
            arg2: local.q_ptr,
            multiplicity: local.is_real,
        },
    ]
}

/// Every row of `trace` meets the AddMul constraints with the row after it, where the rows
/// wrap around at the end as the prover reads them.
pub open spec fn addmul_trace_accepted(trace: Seq<AddmulCols<u32>>, order: int) -> bool {
    forall|i: int|
        0 <= i < trace.len() ==> addmul_constraints(
            #[trigger] trace[i],
            trace[(i + 1) % (trace.len() as int)],
            i == 0,
            i + 1 < trace.len(),
            order,
        )
}

/// The event's records agree with it: the word written is `p * q + r * s`, written in the
/// event's shard one cycle after its clock, and the reads were made in its shard at its clock.
pub open spec fn addmul_event_consistent(e: AddMulEvent) -> bool {
    &&& e.p_memory_records.value == e.p * e.q + e.r * e.s
    &&& e.p_memory_records.shard == e.shard
    &&& e.p_memory_records.timestamp == e.clk + 1
    &&& e.q_memory_records.shard == e.shard && e.q_memory_records.timestamp == e.clk
    &&& e.r_memory_records.shard == e.shard && e.r_memory_records.timestamp == e.clk
    &&& e.s_memory_records.shard == e.shard && e.s_memory_records.timestamp == e.clk
}

/// The gap, less one, since the access before each of the event's accesses fits in 24 bits.
pub open spec fn addmul_event_gaps_fit(e: AddMulEvent) -> bool {
    &&& time_gap_minus_one(e.p_memory_records.current(), e.p_memory_records.previous()) < 0x100_0000
    &&& time_gap_minus_one(e.q_memory_records.current(), e.q_memory_records.previous()) < 0x100_0000
    &&& time_gap_minus_one(e.r_memory_records.current(), e.r_memory_records.previous()) < 0x100_0000
    &&& time_gap_minus_one(e.s_memory_records.current(), e.s_memory_records.previous()) < 0x100_0000
}

/// Whether `is_real * (word - cell)` vanishes in the field of order `order`.
fn real_word_is(is_real: u32, w: &Word<u32>, cell: u32, order: u32) -> (b: bool)
    requires
        order > 0,
    ensures
        b == vanishes(is_real * (word_value(*w) - cell), order as int),
{
    let x = is_real as u128;
    let v = word_to_u64(w) as u128;
    let c = cell as u128;
    assert(x * v <= 0xffff_ffff * 72340172804390655) by (nonlinear_arith)
        requires x <= 0xffff_ffff, v <= 72340172804390655;
    assert(x * c <= 0xffff_ffff * 0xffff_ffff) by (nonlinear_arith)
        requires x <= 0xffff_ffff, c <= 0xffff_ffff;
    assert(x * v - x * c == is_real * (word_value(*w) - cell)) by (nonlinear_arith)
        requires x == is_real, v == word_value(*w), c == cell;
    vanishes_difference(x * v, x * c, order)
}

/// The log2 height a record's shape fixes for the chip `name`.
pub open spec fn fixed_power_of(record: ExecutionRecord, name: Seq<char>) -> Option<usize> {
    match record.shape {
        Some(shape) => shape_lookup(shape@, name),
        None => None,
    }
}

pub open spec fn addmul_name() -> Seq<char> {
    seq!['A', 'd', 'd', 'm', 'u', 'l', 'M', 'o', 'd']
}

impl Default for AddmulChip {
    fn default() -> (chip: Self) {
        AddmulChip
    }
}

impl AddmulChip {
    pub fn new() -> (chip: Self) {
        AddmulChip
    }

    /// The name of the chip, "AddmulMod".
    pub fn name(&self) -> (name: String)
        ensures
            name@ == addmul_name(),
    {
        let s = "AddmulMod";
        proof {
            reveal_strlit("AddmulMod");
        }
        let name = s.to_owned();
        assert(name@ =~= addmul_name());
        name
    }

    /// The number of cells in a row.
    pub fn width(&self) -> (w: usize)
        ensures
            w == NUM_COLS,
    {
        NUM_COLS
    }

    /// Whether the chip has a place in the trace of `shard`: where the shard has a fixed
    /// shape, whether the shape names the chip; else whether the shard holds AddMul events.
    pub fn included(&self, shard: &ExecutionRecord) -> (b: bool)
        ensures
            b == match shard.shape {
                Some(shape) => shape_lookup(shape@, addmul_name()) is Some,
                None => has_code(shard.precompile_events@, SyscallCode::ADD_MUL),
            },
    {
        match &shard.shape {
            Some(shape) => {
                let name = self.name();
                ExecutionRecord::shape_includes(shape, &name)
            },
            None => shard.has_precompile_events(SyscallCode::ADD_MUL),
        }
    }

    /// The row of one event, with nonce zero; appends the range checks its memory columns need.
    fn event_row(event: &AddMulEvent, lookups: &mut Vec<ByteLookupEvent>) -> (row: AddmulCols<u32>)
        requires
            event.p_memory_records.is_ordered(),
            event.q_memory_records.is_ordered(),
            event.r_memory_records.is_ordered(),
            event.s_memory_records.is_ordered(),
            event.p * event.q + event.r * event.s <= u32::MAX,
        ensures
            row == addmul_row(*event, 0),
            final(lookups)@ == old(lookups)@ + addmul_event_lookups(*event),
    {
        let mut p_memory = MemoryWriteCols::zero();
        let mut q_memory = MemoryReadCols::zero();
        let mut r_memory = MemoryReadCols::zero();
        let mut s_memory = MemoryReadCols::zero();
        p_memory.populate(event.p_memory_records, lookups);
        q_memory.populate(event.q_memory_records, lookups);
        r_memory.populate(event.r_memory_records, lookups);
        s_memory.populate(event.s_memory_records, lookups);
        proof {
            assert(lookups@ =~= old(lookups)@ + addmul_event_lookups(*event));
        }
        AddmulCols {
            shard: event.shard,
            clk: event.clk,
            nonce: 0,
            p: event.p,
            q: event.q,
            r: event.r,
            s: event.s,
            p_ptr: event.p_ptr,
            q_ptr: event.q_ptr,
            r_ptr: event.r_ptr,
            s_ptr: event.s_ptr,
            p_memory,
            q_memory,
            r_memory,
            s_memory,
            result: event.p * event.q + event.r * event.s,
            is_real: 1,
        }
    }

    /// Evaluates the chip on `local` and the row after it, `next`, in the field of order
    /// `order`: whether they meet the AddMul constraints, and the interactions `local` sends.
    pub fn eval(
        &self,
        local: &AddmulCols<u32>,
        next: &AddmulCols<u32>,
        is_first_row: bool,
        is_transition: bool,
        order: u32,
    ) -> (ev: RowEvaluation)
        requires
            order > 0,
        ensures
            ev.constraints_hold == addmul_constraints(*local, *next, is_first_row, is_transition, order as int),
            ev.interactions@ == addmul_interactions(*local, order as int),
    {
        let is_real = local.is_real as u128;
        assert(is_real * is_real - is_real == local.is_real * (local.is_real - 1)) by (nonlinear_arith)
            requires is_real == local.is_real;
        assert(is_real * is_real <= 0xffff_ffff * 0xffff_ffff) by (nonlinear_arith)
            requires is_real <= 0xffff_ffff;
        let is_bool = vanishes_difference(is_real * is_real, is_real, order);
        let first_ok = !is_first_row || vanishes_difference(local.nonce as u128, 0, order);
        let step_ok = !is_transition || vanishes_difference(
            local.nonce as u128 + 1,
            next.nonce as u128,
            order,
        );
        let p = local.p as u128;
        let q = local.q as u128;
        let r = local.r as u128;
        let s = local.s as u128;
        assert(p * q <= 0xffff_ffff * 0xffff_ffff) by (nonlinear_arith)
            requires p <= 0xffff_ffff, q <= 0xffff_ffff;
        assert(r * s <= 0xffff_ffff * 0xffff_ffff) by (nonlinear_arith)
            requires r <= 0xffff_ffff, s <= 0xffff_ffff;
        let sum = p * q + r * s;
        assert(is_real * sum <= 0xffff_ffff * (2 * 0xffff_ffff * 0xffff_ffff)) by (nonlinear_arith)
            requires is_real <= 0xffff_ffff, sum <= 2 * 0xffff_ffff * 0xffff_ffff;
        assert(is_real * (local.result as u128) <= 0xffff_ffff * 0xffff_ffff) by (nonlinear_arith)
            requires is_real <= 0xffff_ffff, local.result <= 0xffff_ffff;
        let lhs = is_real * (local.result as u128);
        let rhs = is_real * sum;
        assert(lhs - rhs == local.is_real * (local.result - (local.p * local.q + local.r * local.s)))
            by (nonlinear_arith)
            requires
                lhs == is_real * local.result,
                rhs == is_real * sum,
                sum == p * q + r * s,
                is_real == local.is_real,
                p == local.p, q == local.q, r == local.r, s == local.s,
        ;
        let result_ok = vanishes_difference(lhs, rhs, order);
        let written_ok = real_word_is(local.is_real, &local.p_memory.access.value, local.result, order);
        let p_access_ok = eval_access(&local.p_memory.access, local.shard, local.clk as u64 + 1, local.is_real, order);
        let q_access_ok = eval_access(&local.q_memory.access, local.shard, local.clk as u64, local.is_real, order);
        let r_access_ok = eval_access(&local.r_memory.access, local.shard, local.clk as u64, local.is_real, order);
        let s_access_ok = eval_access(&local.s_memory.access, local.shard, local.clk as u64, local.is_real, order);
        let constraints_hold = is_bool && first_ok && step_ok && result_ok && written_ok && p_access_ok
            && q_access_ok && r_access_ok && s_access_ok;
        let interactions = vec![
            Interaction::MemoryAccess {
                shard: local.shard,
                clk: add_in_field(local.clk, 1, order),
                addr: local.p_ptr,
                prev_value: local.p_memory.prev_value,
                access: local.p_memory.access,
                multiplicity: local.is_real,
            },
            Interaction::MemoryAccess {
                shard: local.shard,
                clk: local.clk,
                addr: local.q_ptr,
                prev_value: local.q_memory.access.value,
                access: local.q_memory.access,
                multiplicity: local.is_real,
            },
            Interaction::MemoryAccess {
                shard: local.shard,
                clk: local.clk,
                addr: local.r_ptr,
                prev_value: local.r_memory.access.value,
                access: local.r_memory.access,
                multiplicity: local.is_real,
            },
            Interaction::MemoryAccess {
                shard: local.shard,
                clk: local.clk,
                addr: local.s_ptr,
                prev_value: local.s_memory.access.value,
                access: local.s_memory.access,
                multiplicity: local.is_real,
            },
            Interaction::SyscallReceive {
                shard: local.shard,
                clk: local.clk,
                nonce: Some(local.nonce),
                syscall_code: SyscallCode::ADD_MUL,
                arg1: local.p_ptr,
                arg2: local.q_ptr,
                multiplicity: local.is_real,
            },
        ];
        assert(interactions@ =~= addmul_interactions(*local, order as int));
        RowEvaluation { constraints_hold, interactions }
    }

    /// Whether `generate_trace` can build the trace of `input` for a field of order `order`
    /// without a panic.
    pub fn can_generate_trace(&self, input: &ExecutionRecord, order: u32) -> (b: bool)
        ensures
            b == addmul_trace_requires(*input, order as int),
    {
        let ghost all = input.precompile_events@;
        let ghost events = addmul_events(all);
        if !input.is_wf_for(SyscallCode::ADD_MUL) || order <= 1 {
            return false;
        }
        let name = self.name();
        let fixed = match &input.shape {
            Some(shape) => {
                if !ExecutionRecord::shape_includes(shape, &name) {
                    return false;
                }
                input.fixed_log2_rows(&name)
            },
            None => None,
        };
        let n = input.precompile_events.len();
        let mut count: usize = 0;
        let mut i: usize = 0;
        assert(all.take(0) =~= Seq::<(SyscallCode, crate::events::SyscallEvent, PrecompileEvent)>::empty());
        while i < n
            invariant
                input.wf_for(SyscallCode::ADD_MUL),
                all == input.precompile_events@,
                events == addmul_events(all),
                n == all.len(),
                i <= n,
                count == addmul_events(all.take(i as int)).len(),
                count <= i,
                forall|j: int|
                    0 <= j < count ==> addmul_event_ok(#[trigger] addmul_events(all.take(i as int))[j], order as int),
            decreases n - i,
        {
            proof {
                lemma_addmul_events_step(all, i as int);
                lemma_addmul_events_prefix(all, i as int);
                lemma_addmul_events_prefix(all, (i + 1) as int);
            }
            let entry = &input.precompile_events[i];
            if entry.0 == SyscallCode::ADD_MUL {
                match &entry.2 {
                    PrecompileEvent::ADDMul(event) => {
                        let ghost k = addmul_events(all.take(i as int)).len();
                        assert(addmul_events(all.take(i + 1))[k as int] == *event);
                        assert(events[k as int] == *event);
                        if !addmul_event_can_be_row(event, order) {
                            return false;
                        }
                        proof {
                            let prev = addmul_events(all.take(i as int));
                            let cur = addmul_events(all.take(i + 1));
                            assert forall|j: int| 0 <= j < count + 1 implies addmul_event_ok(#[trigger] cur[j], order as int) by {
                                if j < count {
                                    assert(cur[j] == prev[j]);
                                }
                            }
                        }
                        count = count + 1;
                    },
                    PrecompileEvent::InnerProduct(_) => {
                        assert(false);
                    },
                }
            }
            i = i + 1;
        }
        assert(all.take(n as int) =~= all);
        if !can_pad_rows(count, fixed) {
            return false;
        }
        let h = next_power_of_two(count, fixed);
        proof {
            assert forall|h2: nat| is_padded_height(count as nat, fixed, h2) implies h2 == h by {
                lemma_padded_height_unique(count as nat, fixed, h2, h as nat);
            }
        }
        h <= order as usize
    }

    /// Sets the nonce of each row to its index.
    fn number_rows(rows: &mut Vec<AddmulCols<u32>>)
        requires
            old(rows)@.len() <= u32::MAX + 1,
        ensures
            final(rows)@.len() == old(rows)@.len(),
            forall|j: int|
                0 <= j < old(rows)@.len() ==> #[trigger] final(rows)@[j] == with_nonce(old(rows)@[j], j),
    {
        let h = rows.len();
        let mut k: usize = 0;
        while k < h
            invariant
                h == rows@.len(),
                h == old(rows)@.len(),
                h <= u32::MAX + 1,
                k <= h,
                forall|j: int| 0 <= j < k ==> #[trigger] rows@[j] == with_nonce(old(rows)@[j], j),
                forall|j: int| k <= j < h ==> #[trigger] rows@[j] == old(rows)@[j],
            decreases h - k,
        {
            let mut row = rows[k];
            row.nonce = k as u32;
            rows.set(k, row);
            k = k + 1;
        }
    }

    /// A padding row with nonce zero.
    fn padding_row() -> (row: AddmulCols<u32>)
        ensures
            row == addmul_padding_row(0),
    {
        AddmulCols {
            shard: 0,
            clk: 0,
            nonce: 0,
            p: 0,
            q: 0,
            r: 0,
            s: 0,
            p_ptr: 0,
            q_ptr: 0,
            r_ptr: 0,
            s_ptr: 0,
            p_memory: MemoryWriteCols::zero(),
            q_memory: MemoryReadCols::zero(),
            r_memory: MemoryReadCols::zero(),
            s_memory: MemoryReadCols::zero(),
            result: 0,
            is_real: 0,
        }
    }

    /// The trace of the AddMul events of `input`: one row per event, in order, then padding
    /// rows up to the padded height, with the row index as nonce. The range checks the memory
    /// columns need are appended to `output`. `order` is the order of the field of the cells.
    pub fn generate_trace(
        &self,
        input: &ExecutionRecord,
        output: &mut ExecutionRecord,
        order: u32,
    ) -> (rows: Vec<AddmulCols<u32>>)
        requires
            addmul_trace_requires(*input, order as int),
        ensures
            is_padded_height(
                addmul_events(input.precompile_events@).len(),
                fixed_power_of(*input, addmul_name()),
                rows@.len(),
            ),
            rows@ == addmul_trace(addmul_events(input.precompile_events@), rows@.len()),
            final(output).byte_lookups@ == old(output).byte_lookups@ + addmul_lookups(
                addmul_events(input.precompile_events@),
            ),
            final(output).precompile_events@ == old(output).precompile_events@,
            final(output).shape == old(output).shape,
    {
        let ghost all = input.precompile_events@;
        let ghost events = addmul_events(all);
        let name = self.name();
        let fixed = input.fixed_log2_rows(&name);
        let mut rows: Vec<AddmulCols<u32>> = Vec::new();
        let n = input.precompile_events.len();
        let mut i: usize = 0;
        assert(all.take(0) =~= Seq::<(SyscallCode, crate::events::SyscallEvent, PrecompileEvent)>::empty());
        while i < n
            invariant
                input.wf_for(SyscallCode::ADD_MUL),
                all == input.precompile_events@,
                events == addmul_events(all),
                n == all.len(),
                i <= n,
                rows@ =~= Seq::new(
                    addmul_events(all.take(i as int)).len(),
                    |j: int| addmul_row(addmul_events(all.take(i as int))[j], 0),
                ),
                output.byte_lookups@ == old(output).byte_lookups@ + addmul_lookups(
                    addmul_events(all.take(i as int)),
                ),
                output.precompile_events@ == old(output).precompile_events@,
                output.shape == old(output).shape,
                forall|j: int|
                    0 <= j < events.len() ==> addmul_event_ok(#[trigger] events[j], order as int),
            decreases n - i,
        {
            proof {
                lemma_addmul_events_step(all, i as int);
                lemma_addmul_events_prefix(all, (i + 1) as int);
            }
            let entry = &input.precompile_events[i];
            if entry.0 == SyscallCode::ADD_MUL {
                match &entry.2 {
                    PrecompileEvent::ADDMul(event) => {
                        let ghost k = addmul_events(all.take(i as int)).len();
                        assert(addmul_events(all.take(i + 1))[k as int] == *event);
                        assert(events[k as int] == *event);
                        let mut records = ExecutionRecord::new();
                        let mut new_byte_lookup_events: Vec<ByteLookupEvent> = Vec::new();
                        let row = Self::event_row(event, &mut new_byte_lookup_events);
                        rows.push(row);
                        records.add_byte_lookup_events(new_byte_lookup_events);
                        output.append(&mut records);
                        proof {
                            let prev = addmul_events(all.take(i as int));
                            let cur = addmul_events(all.take(i + 1));
                            assert(cur.drop_last() =~= prev);
                            assert(addmul_event_lookups(*event) =~= Seq::empty() + addmul_event_lookups(*event));
                            assert(output.byte_lookups@ =~= old(output).byte_lookups@ + addmul_lookups(cur));
                        }
                    },
                    PrecompileEvent::InnerProduct(_) => {
                        assert(false);
                    },
                }
            }
            i = i + 1;
        }
        assert(all.take(n as int) =~= all);
        let ghost count = events.len();
        assert(rows@.len() == count);
        let ghost unpadded = rows@;
        pad_rows_fixed(&mut rows, Self::padding_row(), fixed);
        assert forall|j: int| 0 <= j < count implies #[trigger] rows@[j] == addmul_row(events[j], 0) by {
            assert(rows@.subrange(0, count as int)[j] == unpadded[j]);
        }
        let ghost padded = rows@;
        Self::number_rows(&mut rows);
        let h = rows.len();
        assert forall|j: int| 0 <= j < h implies #[trigger] rows@[j] == addmul_trace(events, h as nat)[j] by {
            if j < count {
                lemma_with_nonce_row(events[j], j);
            } else {
                lemma_with_nonce_padding(j);
            }
        }
        assert(rows@ =~= addmul_trace(events, h as nat));
        rows
    }
}

/// The row of an event whose records agree with it meets the AddMul constraints on one row.
pub proof fn lemma_addmul_event_row_constraints(e: AddMulEvent, nonce: int, order: int)
    requires
        order > 0,
        addmul_event_buildable(e),
        addmul_event_consistent(e),
        addmul_event_gaps_fit(e),
    ensures
        addmul_row_constraints(addmul_row(e, nonce), order),
{
    let local = addmul_row(e, nonce);
    assert(local.is_real * (local.is_real - 1) == 0);
    assert(local.result - (local.p * local.q + local.r * local.s) == 0);
    lemma_word_value_of(e.p_memory_records.value);
    assert(word_value(local.p_memory.access.value) - local.result == 0);
    assert(forall|y: int| #[trigger] (local.is_real * y) == y);
    lemma_access_cols_meet_constraints(e.p_memory_records.current(), e.p_memory_records.previous(), order);
    lemma_access_cols_meet_constraints(e.q_memory_records.current(), e.q_memory_records.previous(), order);
    lemma_access_cols_meet_constraints(e.r_memory_records.current(), e.r_memory_records.previous(), order);
    lemma_access_cols_meet_constraints(e.s_memory_records.current(), e.s_memory_records.previous(), order);
}

/// A padding row meets the AddMul constraints on one row.
pub proof fn lemma_addmul_padding_row_constraints(nonce: int, order: int)
    requires
        order > 0,
    ensures
        addmul_row_constraints(addmul_padding_row(nonce), order),
{
}

/// The trace that `generate_trace` builds is accepted by the AddMul constraints, when the
/// trace is no taller than the field's order and each event can be turned into a row, has
/// records that agree with it, and has gaps since earlier accesses that fit in 24 bits.
/// (A gap of 2^24 cycles or more cannot be split into the two limbs.)
pub proof fn lemma_addmul_trace_satisfies_constraints(events: Seq<AddMulEvent>, height: nat, order: int)
    requires
        0 < order <= u32::MAX,
        events.len() <= height <= order,
        forall|i: int| 0 <= i < events.len() ==> addmul_event_buildable(#[trigger] events[i]),
        forall|i: int| 0 <= i < events.len() ==> addmul_event_consistent(#[trigger] events[i]),
        forall|i: int| 0 <= i < events.len() ==> addmul_event_gaps_fit(#[trigger] events[i]),
    ensures
        addmul_trace_accepted(addmul_trace(events, height), order),
{
    let trace = addmul_trace(events, height);
    assert forall|i: int| 0 <= i < height implies addmul_constraints(
        #[trigger] trace[i],
        trace[(i + 1) % (height as int)],
        i == 0,
        i + 1 < height,
        order,
    ) by {
        assert(trace[i].nonce == i);
        if i + 1 < height {
            assert((i + 1) % (height as int) == i + 1) by {
                vstd::arithmetic::div_mod::lemma_small_mod((i + 1) as nat, height);
            }
            assert(trace[i + 1].nonce == i + 1);
        }
        if i < events.len() {
            assert(addmul_event_buildable(events[i]));
            lemma_addmul_event_row_constraints(events[i], i, order);
        } else {
            lemma_addmul_padding_row_constraints(i, order);
        }
    }
}

/// A value that vanishes and is strictly between `-order` and `order` is zero.
proof fn lemma_vanishes_small(x: int, order: int)
    requires
        order > 0,
        -order < x < order,
        vanishes(x, order),
    ensures
        x == 0,
{
    vstd::arithmetic::div_mod::lemma_fundamental_div_mod(x, order);
    let q = x / order;
    assert(x == order * q);
    if q >= 1 {
        assert(order * q >= order) by (nonlinear_arith)
            requires q >= 1, order > 0;
    } else if q <= -1 {
        assert(order * q <= -order) by (nonlinear_arith)
            requires q <= -1, order > 0;
    } else {
        assert(order * q == 0) by (nonlinear_arith)
            requires q == 0;
    }
}

/// In a trace the AddMul constraints accept, with canonical cells and no taller than the
/// field's order, the nonce of each row is its index.
pub proof fn lemma_addmul_accepted_nonces(trace: Seq<AddmulCols<u32>>, order: int)
    requires
        addmul_trace_accepted(trace, order),
        0 < trace.len() <= order,
        forall|i: int| 0 <= i < trace.len() ==> (#[trigger] trace[i]).nonce < order,
    ensures
        forall|i: int| 0 <= i < trace.len() ==> (#[trigger] trace[i]).nonce == i,
{
    assert forall|i: int| 0 <= i < trace.len() implies (#[trigger] trace[i]).nonce == i by {
        lemma_addmul_nonce_at(trace, order, i);
    }
}

proof fn lemma_addmul_nonce_at(trace: Seq<AddmulCols<u32>>, order: int, i: int)
    requires
        addmul_trace_accepted(trace, order),
        0 < trace.len() <= order,
        forall|j: int| 0 <= j < trace.len() ==> (#[trigger] trace[j]).nonce < order,
        0 <= i < trace.len(),
    ensures
        trace[i].nonce == i,
    decreases i,
{
    let n = trace.len() as int;
    if i == 0 {
        assert(addmul_constraints(trace[0], trace[1int % n], true, 1 < n, order));
        lemma_vanishes_small(trace[0].nonce as int, order);
    } else {
        lemma_addmul_nonce_at(trace, order, i - 1);
        assert(i % n == i) by {
            vstd::arithmetic::div_mod::lemma_small_mod(i as nat, n as nat);
        }
        assert(addmul_constraints(trace[i - 1], trace[i], i - 1 == 0, true, order));
        lemma_vanishes_small(trace[i - 1].nonce + 1 - trace[i].nonce, order);
    }
}

/// In a trace the AddMul constraints accept over a prime field, with canonical cells,
/// `is_real` is 0 or 1 on every row.
pub proof fn lemma_addmul_accepted_is_real_boolean(trace: Seq<AddmulCols<u32>>, order: int)
    requires
        addmul_trace_accepted(trace, order),
        is_prime(order),
        forall|i: int| 0 <= i < trace.len() ==> (#[trigger] trace[i]).is_real < order,
    ensures
        forall|i: int| 0 <= i < trace.len() ==> (#[trigger] trace[i]).is_real == 0 || trace[i].is_real == 1,
{
    assert forall|i: int| 0 <= i < trace.len() implies (#[trigger] trace[i]).is_real == 0 || trace[i].is_real == 1 by {
        let n = trace.len() as int;
        assert(addmul_constraints(trace[i], trace[(i + 1) % n], i == 0, i + 1 < n, order));
        lemma_boolean_in_prime_field(trace[i].is_real as int, order);
    }
}

/// On a real row the AddMul constraints accept, the word written over `p` is the result,
/// and the result is `p * q + r * s`, in the field of order `order`.
pub proof fn lemma_addmul_accepted_real_row(
    local: AddmulCols<u32>,
    next: AddmulCols<u32>,
    is_first_row: bool,
    is_transition: bool,
    order: int,
)
    requires
        addmul_constraints(local, next, is_first_row, is_transition, order),
        local.is_real == 1,
    ensures
        vanishes(word_value(local.p_memory.access.value) - local.result, order),
        vanishes(local.result - (local.p * local.q + local.r * local.s), order),
{
    let x = local.is_real as int;
    assert(forall|y: int| #[trigger] (x * y) == y);
}

/// `row` with nonce `nonce`.
pub open spec fn with_nonce(row: AddmulCols<u32>, nonce: int) -> AddmulCols<u32> {
    AddmulCols { nonce: nonce as u32, ..row }
}

proof fn lemma_with_nonce_row(e: AddMulEvent, j: int)
    ensures
        with_nonce(addmul_row(e, 0), j) == addmul_row(e, j),
{
}

proof fn lemma_with_nonce_padding(j: int)
    ensures
        with_nonce(addmul_padding_row(0), j) == addmul_padding_row(j),
{
}

/// Extending the prefix by one entry adds at most that entry's AddMul event.
proof fn lemma_addmul_events_step(s: Seq<(SyscallCode, crate::events::SyscallEvent, PrecompileEvent)>, i: int)
    requires
        0 <= i < s.len(),
    ensures
        s.take(i + 1).drop_last() == s.take(i),
        s.take(i + 1).last() == s[i],
{
    assert(s.take(i + 1).drop_last() =~= s.take(i));
}

/// The AddMul events of a prefix are a prefix of the AddMul events.
proof fn lemma_addmul_events_prefix(s: Seq<(SyscallCode, crate::events::SyscallEvent, PrecompileEvent)>, i: int)
    requires
        0 <= i <= s.len(),
    ensures
        addmul_events(s.take(i)).len() <= addmul_events(s).len(),
        forall|j: int|
            0 <= j < addmul_events(s.take(i)).len() ==> #[trigger] addmul_events(s.take(i))[j]
                == addmul_events(s)[j],
    decreases s.len(),
{
    if i == s.len() {
        assert(s.take(i) =~= s);
    } else {
        assert(s.drop_last().take(i) =~= s.take(i));
        lemma_addmul_events_prefix(s.drop_last(), i);
    }
}

impl AddmulCols<u32> {
    /// The cells of the row, in column order.
    pub open spec fn cells(self) -> Seq<u32> {
        seq![
            self.shard,
            self.clk,
            self.nonce,
            self.p,
            self.q,
            self.r,
            self.s,
            self.p_ptr,
            self.q_ptr,
            self.r_ptr,
            self.s_ptr,
        ] + write_cells(self.p_memory) + read_cells(self.q_memory) + read_cells(self.r_memory)
            + read_cells(self.s_memory) + seq![self.result, self.is_real]
    }

    /// The cells of the row, in column order.
    pub fn to_cells(&self) -> (cells: Vec<u32>)
        ensures
            cells@ == self.cells(),
            cells@.len() == NUM_COLS,
    {
        let mut out: Vec<u32> = Vec::new();
        out.push(self.shard);
        out.push(self.clk);
        out.push(self.nonce);
        out.push(self.p);
        out.push(self.q);
        out.push(self.r);
        out.push(self.s);
        out.push(self.p_ptr);
        out.push(self.q_ptr);
        out.push(self.r_ptr);
        out.push(self.s_ptr);
        self.p_memory.push_cells(&mut out);
        self.q_memory.push_cells(&mut out);
        self.r_memory.push_cells(&mut out);
        self.s_memory.push_cells(&mut out);
        out.push(self.result);
        out.push(self.is_real);
        assert(out@ =~= self.cells());
        out
    }
}

/// The cells of `rows`, row after row.
pub open spec fn addmul_trace_cells(rows: Seq<AddmulCols<u32>>) -> Seq<u32>
    decreases rows.len(),
{
    if rows.len() == 0 {
        seq![]
    } else {
        addmul_trace_cells(rows.drop_last()) + rows.last().cells()
    }
}

/// Cell `j` of row `i` stands at `i * NUM_COLS + j` of the cells of the trace.
pub proof fn lemma_addmul_trace_cells_index(rows: Seq<AddmulCols<u32>>, i: int, j: int)
    requires
        0 <= i < rows.len(),
        0 <= j < NUM_COLS,
    ensures
        addmul_trace_cells(rows).len() == rows.len() * NUM_COLS,
        addmul_trace_cells(rows)[i * NUM_COLS + j] == rows[i].cells()[j],
    decreases rows.len(),
{
    let n = rows.len();
    let c = NUM_COLS as int;
    lemma_addmul_trace_cells_len(rows.drop_last());
    assert(rows.last().cells().len() == c);
    assert((n - 1) * c + c == n * c) by (nonlinear_arith);
    if i < n - 1 {
        lemma_addmul_trace_cells_index(rows.drop_last(), i, j);
        assert(i * c + j < (n - 1) * c) by (nonlinear_arith)
            requires i < n - 1, j < c, 0 <= j, c > 0;
    }
}

proof fn lemma_addmul_trace_cells_len(rows: Seq<AddmulCols<u32>>)
    ensures
        addmul_trace_cells(rows).len() == rows.len() * NUM_COLS,
    decreases rows.len(),
{
    if rows.len() > 0 {
        lemma_addmul_trace_cells_len(rows.drop_last());
        assert(rows.last().cells().len() == NUM_COLS);
        assert((rows.len() - 1) * NUM_COLS + NUM_COLS == rows.len() * NUM_COLS) by (nonlinear_arith);
    }
}

/// The cells of the trace, row after row, as the prover's row-major matrix holds them.
pub fn addmul_trace_values(rows: &Vec<AddmulCols<u32>>) -> (values: Vec<u32>)
    ensures
        values@ == addmul_trace_cells(rows@),
{
    let mut values: Vec<u32> = Vec::new();
    let mut i: usize = 0;
    assert(rows@.take(0) =~= Seq::<AddmulCols<u32>>::empty());
    while i < rows.len()
        invariant
            i <= rows@.len(),
            values@ == addmul_trace_cells(rows@.take(i as int)),
        decreases rows@.len() - i,
    {
        let mut cells = rows[i].to_cells();
        values.append(&mut cells);
        assert(rows@.take(i + 1).drop_last() =~= rows@.take(i as int));
        i = i + 1;
    }
    assert(rows@.take(rows@.len() as int) =~= rows@);
    values
}

/// The row of an event holds the event's operands and pointers, and in each group of memory
/// columns the access to that operand: at `p_memory` the write over `p`, at `q_memory`,
/// `r_memory` and `s_memory` the reads of `q`, `r` and `s`, each with the word it saw and
/// the time of the access before it. It is a real row of the event's shard and clock, with
/// the given nonce and, when it fits in a word, `p * q + r * s` as its result.
pub proof fn lemma_addmul_row_holds_its_accesses(e: AddMulEvent, nonce: int)
    ensures
        addmul_row(e, nonce).shard == e.shard && addmul_row(e, nonce).clk == e.clk,
        0 <= nonce <= u32::MAX ==> addmul_row(e, nonce).nonce == nonce,
        addmul_row(e, nonce).is_real == 1,
        e.p * e.q + e.r * e.s <= u32::MAX ==> addmul_row(e, nonce).result == e.p * e.q + e.r * e.s,
        addmul_row(e, nonce).p == e.p && addmul_row(e, nonce).q == e.q,
        addmul_row(e, nonce).r == e.r && addmul_row(e, nonce).s == e.s,
        addmul_row(e, nonce).p_ptr == e.p_ptr && addmul_row(e, nonce).q_ptr == e.q_ptr,
        addmul_row(e, nonce).r_ptr == e.r_ptr && addmul_row(e, nonce).s_ptr == e.s_ptr,
        write_holds(addmul_row(e, nonce).p_memory, e.p_memory_records),
        read_holds(addmul_row(e, nonce).q_memory, e.q_memory_records),
        read_holds(addmul_row(e, nonce).r_memory, e.r_memory_records),
        read_holds(addmul_row(e, nonce).s_memory, e.s_memory_records),
{
    lemma_write_cols_hold(e.p_memory_records);
    lemma_read_cols_hold(e.q_memory_records);
    lemma_read_cols_hold(e.r_memory_records);
    lemma_read_cols_hold(e.s_memory_records);
}

/// Each memory access a row sends carries the columns of the access made at that address:
/// the write over `p` at `p_ptr`, one cycle after `clk`, carries `p_memory`; the reads at
/// `q_ptr`, `r_ptr`, `s_ptr` carry `q_memory`, `r_memory`, `s_memory` and leave the word as
/// it was; and the receipt names the syscall with `p_ptr` and `q_ptr` as its arguments.
pub proof fn lemma_addmul_interactions_carry_their_accesses(local: AddmulCols<u32>, order: int)
    ensures
        addmul_interactions(local, order).len() == 5,
        is_write_of(
            addmul_interactions(local, order)[0],
            local.shard,
            field_add(local.clk as int, 1, order),
            local.p_ptr,
            local.p_memory,
            local.is_real,
        ),
        is_read_of(addmul_interactions(local, order)[1], local.shard, local.clk, local.q_ptr, local.q_memory, local.is_real),
        is_read_of(addmul_interactions(local, order)[2], local.shard, local.clk, local.r_ptr, local.r_memory, local.is_real),
        is_read_of(addmul_interactions(local, order)[3], local.shard, local.clk, local.s_ptr, local.s_memory, local.is_real),
        addmul_interactions(local, order)[4] matches Interaction::SyscallReceive {
            shard,
            clk,
            nonce,
            syscall_code,
            arg1,
            arg2,
            multiplicity,
        } && shard == local.shard && clk == local.clk && nonce == Some(local.nonce)
            && syscall_code == SyscallCode::ADD_MUL && arg1 == local.p_ptr && arg2 == local.q_ptr
            && multiplicity == local.is_real,
{
}

/// On the row of an event, each memory access sent tells the memory bus what the event's
/// access at that address saw: the word written over `p_ptr` holds the value written and
/// replaces the value before it; the words read at `q_ptr`, `r_ptr`, `s_ptr` hold the
/// values read there.
pub proof fn lemma_addmul_event_interactions(e: AddMulEvent, nonce: int, order: int)
    ensures
        addmul_interactions(addmul_row(e, nonce), order)[0] matches Interaction::MemoryAccess {
            addr,
            prev_value,
            access,
            ..
        } && addr == e.p_ptr && word_value(access.value) == e.p_memory_records.value
            && word_value(prev_value) == e.p_memory_records.prev_value,
        addmul_interactions(addmul_row(e, nonce), order)[1] matches Interaction::MemoryAccess {
            addr,
            prev_value,
            access,
            ..
        } && addr == e.q_ptr && word_value(access.value) == e.q_memory_records.value
            && word_value(prev_value) == e.q_memory_records.value,
        addmul_interactions(addmul_row(e, nonce), order)[2] matches Interaction::MemoryAccess {
            addr,
            prev_value,
            access,
            ..
        } && addr == e.r_ptr && word_value(access.value) == e.r_memory_records.value
            && word_value(prev_value) == e.r_memory_records.value,
        addmul_interactions(addmul_row(e, nonce), order)[3] matches Interaction::MemoryAccess {
            addr,
            prev_value,
            access,
            ..
        } && addr == e.s_ptr && word_value(access.value) == e.s_memory_records.value
            && word_value(prev_value) == e.s_memory_records.value,
{
    lemma_addmul_row_holds_its_accesses(e, nonce);
    lemma_addmul_interactions_carry_their_accesses(addmul_row(e, nonce), order);
}

/// The cells of a row follow its column layout: the shard, clock, nonce, the operands `p`,
/// `q`, `r`, `s` and their pointers; then the write of `p` (the word it replaced, then its
/// access) and the reads of `q`, `r` and `s`, nine cells each; then the result and `is_real`.
pub proof fn lemma_addmul_cells_layout(row: AddmulCols<u32>)
    ensures
        row.cells().len() == NUM_COLS,
        row.cells()[0] == row.shard && row.cells()[1] == row.clk && row.cells()[2] == row.nonce,
        row.cells()[3] == row.p && row.cells()[4] == row.q && row.cells()[5] == row.r && row.cells()[6] == row.s,
        row.cells()[7] == row.p_ptr && row.cells()[8] == row.q_ptr,
        row.cells()[9] == row.r_ptr && row.cells()[10] == row.s_ptr,
        row.cells()[11] == row.p_memory.prev_value.0[0] && row.cells()[12] == row.p_memory.prev_value.0[1],
        row.cells()[13] == row.p_memory.prev_value.0[2] && row.cells()[14] == row.p_memory.prev_value.0[3],
        holds_access_at(row.cells(), 15, row.p_memory.access),
        holds_access_at(row.cells(), 24, row.q_memory.access),
        holds_access_at(row.cells(), 33, row.r_memory.access),
        holds_access_at(row.cells(), 42, row.s_memory.access),
        row.cells()[51] == row.result && row.cells()[52] == row.is_real,
{
}

} // verus!
