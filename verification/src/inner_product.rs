//! The inner-product chip: one trace row per inner-product event, and the constraints on
//! those rows.

use vstd::prelude::*;
use crate::events::{InnerProductEvent, PrecompileEvent, SyscallCode};
use crate::memory::{access_constraints, eval_access, lemma_access_cols_meet_constraints, time_gap_minus_one};
use crate::field::{all_canonical, cells_canonical, lemma_vanishes_scaled_residue, vanishes, vanishes_difference};
use crate::interaction::{add_in_field, field_add, is_read_of, is_write_of, Interaction, RowEvaluation};
use crate::memory::{holds_access_at, lemma_read_cols_hold, lemma_write_cols_hold, read_holds, write_holds};
use crate::memory::{
    read_cells, write_cells,
    access_cols_of, access_lookups_of, word_value, zero_access_spec, zero_word, ByteLookupEvent,
    MemoryReadCols, MemoryReadRecord, MemoryWriteCols, MemoryWriteRecord, Word,
};
use crate::record::{has_code, inner_product_events, shape_lookup, ExecutionRecord};
use crate::utils::{is_padded_height, pad_rows_fixed};

verus! {

/// The longest vector a row has room for: a row reads the words at indices `0..=MAX_VECTOR_LEN`.
pub const MAX_VECTOR_LEN: usize = 350;

/// The number of words of each vector a row reads.
pub const VECTOR_SLOTS: usize = MAX_VECTOR_LEN + 1;

/// The number of cells in a row of the inner-product trace.
pub const NUM_COLS: usize = 6356;

/// The log2 of the fixed height of the inner-product trace.
pub const FIXED_LOG2_ROWS: usize = 10;

/// The inner-product chip.
pub struct InnerProductChip;

/// A set of columns for the inner product operation.
#[derive(Debug, Clone, Copy)]
pub struct InnerProductCols<T> {
    /// The shard number of the syscall.
    pub shard: T,
    /// The clock cycle of the syscall.
    pub clk: T,
    /// The pointer to the first input.
    pub a_ptr: T,
    /// The pointer to the second input.
    pub b_ptr: T,
    /// Memory read records for vector lengths
    pub a_len_memory: MemoryReadCols<T>,
    pub b_len_memory: MemoryReadCols<T>,
    /// The length of the first vector.
    pub len: T,
    /// The reads of the words of each vector.
    pub a_memory: [MemoryReadCols<T>; 351],
    pub b_memory: [MemoryReadCols<T>; 351],
    /// Memory column for writing result
    pub result_memory: MemoryWriteCols<T>,
    /// The inner product.
    pub running_sum: T,
    /// Is this row a real computation vs padding
    pub is_real: T,
}

pub open spec fn read_cols_of(r: MemoryReadRecord) -> MemoryReadCols<u32> {
    MemoryReadCols { access: access_cols_of(r.current(), r.previous()) }
}

pub open spec fn write_cols_of(w: MemoryWriteRecord) -> MemoryWriteCols<u32> {
    MemoryWriteCols {
        prev_value: crate::memory::word_spec(w.prev_value),
        access: access_cols_of(w.current(), w.previous()),
    }
}

pub open spec fn read_lookups(r: MemoryReadRecord) -> Seq<ByteLookupEvent> {
    access_lookups_of(r.current(), r.previous())
}

pub open spec fn write_lookups(w: MemoryWriteRecord) -> Seq<ByteLookupEvent> {
    access_lookups_of(w.current(), w.previous())
}

/// `a[1] * b[1] + ... + a[n-1] * b[n-1]`: index 0 is not part of the product.
pub open spec fn dot_from_one(a: Seq<u32>, b: Seq<u32>, n: int) -> int
    decreases n,
{
    if n <= 1 {
        0
    } else {
        dot_from_one(a, b, n - 1) + a[n - 1] * b[n - 1]
    }
}

proof fn lemma_dot_monotone(a: Seq<u32>, b: Seq<u32>, i: int, n: int)
    requires
        i <= n,
    ensures
        0 <= dot_from_one(a, b, i) <= dot_from_one(a, b, n),
    decreases n - i,
{
    if i < n {
        lemma_dot_monotone(a, b, i, n - 1);
        if n > 1 {
            assert(a[n - 1] * b[n - 1] >= 0) by (nonlinear_arith)
                requires a[n - 1] >= 0, b[n - 1] >= 0;
        }
    } else {
        lemma_dot_nonneg(a, b, n);
    }
}

proof fn lemma_dot_nonneg(a: Seq<u32>, b: Seq<u32>, n: int)
    ensures
        0 <= dot_from_one(a, b, n),
    decreases n,
{
    if n > 1 {
        lemma_dot_nonneg(a, b, n - 1);
        assert(a[n - 1] * b[n - 1] >= 0) by (nonlinear_arith)
            requires a[n - 1] >= 0, b[n - 1] >= 0;
    }
}

/// The range checks of the reads of the first `k` words of both vectors, word by word.
pub open spec fn vector_lookups(e: InnerProductEvent, k: int) -> Seq<ByteLookupEvent>
    decreases k,
{
    if k <= 0 {
        seq![]
    } else {
        vector_lookups(e, k - 1) + read_lookups(e.a_memory_records@[k - 1]) + read_lookups(
            e.b_memory_records@[k - 1],
        )
    }
}

/// The range checks the row of `e` asks for: the length reads, the vector reads, the write.
pub open spec fn inner_product_event_lookups(e: InnerProductEvent) -> Seq<ByteLookupEvent> {
    read_lookups(e.a_len_memory) + read_lookups(e.b_len_memory) + vector_lookups(e, 351)
        + write_lookups(e.result_memory_records)
}

/// The range checks of the rows of `events`, in order.
pub open spec fn inner_product_lookups(events: Seq<InnerProductEvent>) -> Seq<ByteLookupEvent>
    decreases events.len(),
{
    if events.len() == 0 {
        seq![]
    } else {
        inner_product_lookups(events.drop_last()) + inner_product_event_lookups(events.last())
    }
}

/// `row` is the row of `e`.
pub open spec fn is_inner_product_row(row: InnerProductCols<u32>, e: InnerProductEvent) -> bool {
    &&& row.shard == e.shard
    &&& row.clk == e.clk
    &&& row.a_ptr == e.a_ptr
    &&& row.b_ptr == e.b_ptr
    &&& row.a_len_memory == read_cols_of(e.a_len_memory)
    &&& row.b_len_memory == read_cols_of(e.b_len_memory)
    &&& row.len == e.a@.len() as u32
    &&& forall|i: int| 0 <= i < 351 ==> #[trigger] row.a_memory@[i] == read_cols_of(e.a_memory_records@[i])
    &&& forall|i: int| 0 <= i < 351 ==> #[trigger] row.b_memory@[i] == read_cols_of(e.b_memory_records@[i])
    &&& row.result_memory == write_cols_of(e.result_memory_records)
    &&& row.running_sum == dot_from_one(e.a@, e.b@, e.a@.len() as int) as u32
    &&& row.is_real == 1
}

/// `row` is a padding row: every cell zero.
pub open spec fn is_inner_product_padding(row: InnerProductCols<u32>) -> bool {
    let zero_read = MemoryReadCols { access: zero_access_spec() };
    &&& row.shard == 0
    &&& row.clk == 0
    &&& row.a_ptr == 0
    &&& row.b_ptr == 0
    &&& row.a_len_memory == zero_read
    &&& row.b_len_memory == zero_read
    &&& row.len == 0
    &&& forall|i: int| 0 <= i < 351 ==> #[trigger] row.a_memory@[i] == zero_read
    &&& forall|i: int| 0 <= i < 351 ==> #[trigger] row.b_memory@[i] == zero_read
    &&& row.result_memory == (MemoryWriteCols { prev_value: zero_word(), access: zero_access_spec() })
    &&& row.running_sum == 0
    &&& row.is_real == 0
}

/// The event can be turned into a row, and every cell of its row is canonical for the
/// field of order `order`.
pub open spec fn inner_product_event_ok(e: InnerProductEvent, order: int) -> bool {
    &&& inner_product_event_buildable(e)
    &&& forall|row: InnerProductCols<u32>|
        #[trigger] is_inner_product_row(row, e) ==> cells_canonical(row.cells(), order)
}

/// Two rows of one event have the same cells.
proof fn lemma_inner_product_row_unique(r1: InnerProductCols<u32>, r2: InnerProductCols<u32>, e: InnerProductEvent)
    requires
        is_inner_product_row(r1, e),
        is_inner_product_row(r2, e),
    ensures
        r1.cells() == r2.cells(),
{
    assert(r1.a_memory@ =~= r2.a_memory@);
    assert(r1.b_memory@ =~= r2.b_memory@);
}

/// When the inner-product trace of `input` can be built for a field of order `order`
/// without a panic: the order is that of a field; each event recorded under the chip's code
/// is of the chip's kind; each event can be turned into a row; and the rows fit in the fixed
/// height.
pub open spec fn inner_product_trace_requires(input: ExecutionRecord, order: int) -> bool {
    let events = inner_product_events(input.precompile_events@);
    &&& input.wf_for(SyscallCode::INNER_PRODUCT)
    &&& order > 1
    &&& forall|i: int| 0 <= i < events.len() ==> inner_product_event_ok(#[trigger] events[i], order)
    &&& events.len() <= 1024
}

/// Whether the inner product of `a` and `b` (from index 1) is defined and fits in a word.
fn inner_product_fits(a: &Vec<u32>, b: &Vec<u32>) -> (fits: Option<u32>)
    ensures
        fits matches Some(v) ==> (a@.len() <= 1 || a@.len() <= b@.len()) && v == dot_from_one(
            a@,
            b@,
            a@.len() as int,
        ),
        fits is None ==> !((a@.len() <= 1 || a@.len() <= b@.len()) && dot_from_one(a@, b@, a@.len() as int)
            <= u32::MAX),
{
    let n = a.len();
    if n > 1 && n > b.len() {
        return None;
    }
    let mut sum: u64 = 0;
    let mut k: usize = 1;
    while k < n
        invariant
            n == a@.len(),
            n <= 1 || n <= b@.len(),
            1 <= k,
            k <= n || k == 1,
            sum == dot_from_one(a@, b@, k as int),
            sum <= u32::MAX,
        decreases n - k,
    {
        let x = a[k] as u64;
        let y = b[k] as u64;
        assert(x * y <= 0xffff_ffff * 0xffff_ffff) by (nonlinear_arith)
            requires x <= 0xffff_ffff, y <= 0xffff_ffff;
        let next = sum + x * y;
        if next > 0xffff_ffff {
            proof {
                lemma_dot_monotone(a@, b@, (k + 1) as int, n as int);
            }
            return None;
        }
        sum = next;
        k = k + 1;
    }
    if n == 0 {
        assert(dot_from_one(a@, b@, 0) == 0);
        assert(dot_from_one(a@, b@, 1) == 0);
    }
    Some(sum as u32)
}

/// Whether the first 351 reads of `records` exist and are ordered in time.
fn reads_ordered(records: &Vec<MemoryReadRecord>) -> (b: bool)
    ensures
        b == (records@.len() >= 351 && (forall|i: int| 0 <= i < 351 ==> (#[trigger] records@[i]).is_ordered())),
{
    if records.len() < VECTOR_SLOTS {
        return false;
    }
    let mut i: usize = 0;
    while i < VECTOR_SLOTS
        invariant
            records@.len() >= 351,
            i <= 351,
            forall|j: int| 0 <= j < i ==> (#[trigger] records@[j]).is_ordered(),
        decreases 351 - i,
    {
        if !records[i].ordered() {
            return false;
        }
        i = i + 1;
    }
    true
}

/// Whether an event can be turned into a row for a field of order `order`.
pub fn inner_product_event_can_be_row(e: &InnerProductEvent, order: u32) -> (b: bool)
    ensures
        b == inner_product_event_ok(*e, order as int),
{
    if inner_product_fits(&e.a, &e.b).is_none() {
        return false;
    }
    if !(e.a_len_memory.ordered() && e.b_len_memory.ordered() && e.result_memory_records.ordered()
        && reads_ordered(&e.a_memory_records) && reads_ordered(&e.b_memory_records)) {
        return false;
    }
    let mut scratch: Vec<ByteLookupEvent> = Vec::new();
    let row = InnerProductChip::event_row(e, &mut scratch);
    let cells = row.to_cells();
    let b = all_canonical(&cells, order);
    proof {
        assert forall|r2: InnerProductCols<u32>| #[trigger] is_inner_product_row(r2, *e) implies r2.cells()
            == row.cells() by {
            lemma_inner_product_row_unique(r2, row, *e);
        }
    }
    b
}

pub open spec fn inner_product_name() -> Seq<char> {
    seq!['I', 'n', 'n', 'e', 'r', 'P', 'r', 'o', 'd', 'u', 'c', 't']
}

/// The event can be turned into a row without a panic: the row's reads exist and are
/// ordered in time, `b` is as long as `a` where `a` has a term of the product, and the
/// inner product fits in a word.
pub open spec fn inner_product_event_buildable(e: InnerProductEvent) -> bool {
    &&& e.a_len_memory.is_ordered()
    &&& e.b_len_memory.is_ordered()
    &&& e.result_memory_records.is_ordered()
    &&& e.a_memory_records@.len() >= 351
    &&& e.b_memory_records@.len() >= 351
    &&& forall|i: int| 0 <= i < 351 ==> (#[trigger] e.a_memory_records@[i]).is_ordered()
    &&& forall|i: int| 0 <= i < 351 ==> (#[trigger] e.b_memory_records@[i]).is_ordered()
    &&& e.a@.len() <= 1 || e.a@.len() <= e.b@.len()
    &&& dot_from_one(e.a@, e.b@, e.a@.len() as int) <= u32::MAX
}

/// `a[1] * b[1] + ... + a[n-1] * b[n-1]` where `n` is the length of `a`.
fn inner_product_sum(a: &Vec<u32>, b: &Vec<u32>) -> (sum: u32)
    requires
        a@.len() <= 1 || a@.len() <= b@.len(),
        dot_from_one(a@, b@, a@.len() as int) <= u32::MAX,
    ensures
        sum == dot_from_one(a@, b@, a@.len() as int),
{
    let n = a.len();
    let mut sum: u32 = 0;
    let mut k: usize = 1;
    while k < n
        invariant
            n == a@.len(),
            n <= 1 || n <= b@.len(),
            1 <= k,
            k <= n || k == 1,
            sum == dot_from_one(a@, b@, k as int),
            dot_from_one(a@, b@, n as int) <= u32::MAX,
        decreases n - k,
    {
        proof {
            lemma_dot_monotone(a@, b@, (k + 1) as int, n as int);
            lemma_dot_nonneg(a@, b@, k as int);
        }
        let x = a[k];
        let y = b[k];
        assert(x * y <= u32::MAX) by (nonlinear_arith)
            requires sum + x * y <= u32::MAX, sum >= 0;
        sum = sum + x * y;
        k = k + 1;
    }
    assert(k == n || n == 0);
    if n == 0 {
        assert(dot_from_one(a@, b@, 0) == 0);
        assert(dot_from_one(a@, b@, 1) == 0);
        assert(sum == 0);
    } else {
        assert(sum == dot_from_one(a@, b@, n as int));
    }
    sum
}

/// The read columns of the first 351 words of both vectors; appends their range checks.
fn populate_vectors(event: &InnerProductEvent, lookups: &mut Vec<ByteLookupEvent>)
    -> (out: ([MemoryReadCols<u32>; 351], [MemoryReadCols<u32>; 351]))
    requires
        event.a_memory_records@.len() >= 351,
        event.b_memory_records@.len() >= 351,
        forall|i: int| 0 <= i < 351 ==> (#[trigger] event.a_memory_records@[i]).is_ordered(),
        forall|i: int| 0 <= i < 351 ==> (#[trigger] event.b_memory_records@[i]).is_ordered(),
    ensures
        forall|j: int| 0 <= j < 351 ==> #[trigger] out.0@[j] == read_cols_of(event.a_memory_records@[j]),
        forall|j: int| 0 <= j < 351 ==> #[trigger] out.1@[j] == read_cols_of(event.b_memory_records@[j]),
        final(lookups)@ == old(lookups)@ + vector_lookups(*event, 351),
{
    let zero = MemoryReadCols::zero();
    let mut a_memory = [zero; 351];
    let mut b_memory = [zero; 351];
    let mut i: usize = 0;
    assert(old(lookups)@ =~= old(lookups)@ + vector_lookups(*event, 0));
    while i < VECTOR_SLOTS
        invariant
            event.a_memory_records@.len() >= 351,
            event.b_memory_records@.len() >= 351,
            forall|i: int| 0 <= i < 351 ==> (#[trigger] event.a_memory_records@[i]).is_ordered(),
            forall|i: int| 0 <= i < 351 ==> (#[trigger] event.b_memory_records@[i]).is_ordered(),
            i <= 351,
            forall|j: int| 0 <= j < i ==> #[trigger] a_memory@[j] == read_cols_of(event.a_memory_records@[j]),
            forall|j: int| 0 <= j < i ==> #[trigger] b_memory@[j] == read_cols_of(event.b_memory_records@[j]),
            lookups@ == old(lookups)@ + vector_lookups(*event, i as int),
        decreases 351 - i,
    {
        let mut a_cols = MemoryReadCols::zero();
        a_cols.populate(event.a_memory_records[i], lookups);
        let mut b_cols = MemoryReadCols::zero();
        b_cols.populate(event.b_memory_records[i], lookups);
        a_memory[i] = a_cols;
        b_memory[i] = b_cols;
        proof {
            assert(lookups@ =~= old(lookups)@ + vector_lookups(*event, i + 1));
        }
        i = i + 1;
    }
    (a_memory, b_memory)
}

impl InnerProductChip {
    /// The row of one event; appends the range checks its memory columns need.
    fn event_row(event: &InnerProductEvent, lookups: &mut Vec<ByteLookupEvent>) -> (row: InnerProductCols<u32>)
        requires
            inner_product_event_buildable(*event),
        ensures
            is_inner_product_row(row, *event),
            final(lookups)@ == old(lookups)@ + inner_product_event_lookups(*event),
    {
        let mut a_len_memory = MemoryReadCols::zero();
        let mut b_len_memory = MemoryReadCols::zero();
        a_len_memory.populate(event.a_len_memory, lookups);
        b_len_memory.populate(event.b_len_memory, lookups);
        let len = event.a.len() as u32;
        let (a_memory, b_memory) = populate_vectors(event, lookups);
        let running_sum = inner_product_sum(&event.a, &event.b);
        let mut result_memory = MemoryWriteCols::zero();
        result_memory.populate(event.result_memory_records, lookups);
        proof {
            assert(lookups@ =~= old(lookups)@ + inner_product_event_lookups(*event));
        }
        InnerProductCols {
            shard: event.shard,
            clk: event.clk,
            a_ptr: event.a_ptr,
            b_ptr: event.b_ptr,
            a_len_memory,
            b_len_memory,
            len,
            a_memory,
            b_memory,
            result_memory,
            running_sum,
            is_real: 1,
        }
    }
}

/// `a[1] * b[1] + ... + a[n-1] * b[n-1]` over the words a row read, as the constraints see them.
pub open spec fn products_sum(row: InnerProductCols<u32>, n: int) -> int
    decreases n,
{
    if n <= 1 {
        0
    } else {
        products_sum(row, n - 1) + word_value(row.a_memory@[n - 1].access.value) * word_value(
            row.b_memory@[n - 1].access.value,
        )
    }
}

/// The polynomial constraints of the inner-product chip on a row: `is_real` is boolean;
/// on a real row both length words hold the same value, the `len` cell holds it too, the
/// running sum is the inner product of the words read at indices `1..=MAX_VECTOR_LEN`, and
/// the word written is the running sum; and the columns of the reads at `clk` and of the
/// write at `clk + 1` meet the access checks, on a real row.
pub open spec fn inner_product_constraints(local: InnerProductCols<u32>, order: int) -> bool {
    let a_len = word_value(local.a_len_memory.access.value);
    let b_len = word_value(local.b_len_memory.access.value);
    let shard = local.shard as int;
    let clk = local.clk as int;
    let check = local.is_real as int;
    &&& vanishes(local.is_real * (local.is_real - 1), order)
    &&& vanishes(local.is_real * (a_len - b_len), order)
    &&& vanishes(local.is_real * (a_len - local.len), order)
    &&& vanishes(local.is_real * (products_sum(local, 351) - local.running_sum), order)
    &&& vanishes(local.is_real * (word_value(local.result_memory.access.value) - local.running_sum), order)
    &&& access_constraints(local.a_len_memory.access, shard, clk, check, order)
    &&& access_constraints(local.b_len_memory.access, shard, clk, check, order)
    &&& forall|i: int| 0 <= i < 351 ==> access_constraints(#[trigger] local.a_memory@[i].access, shard, clk, check, order)
    &&& forall|i: int| 0 <= i < 351 ==> access_constraints(#[trigger] local.b_memory@[i].access, shard, clk, check, order)
    &&& access_constraints(local.result_memory.access, shard, clk + 1, check, order)
}

/// Whether the reads of the words of both vectors meet the access checks.
fn vector_accesses_ok(local: &InnerProductCols<u32>, order: u32) -> (b: bool)
    requires
        order > 0,
    ensures
        b == ((forall|i: int| 0 <= i < 351 ==> access_constraints(#[trigger] local.a_memory@[i].access, local.shard as int, local.clk as int, local.is_real as int, order as int))
            && (forall|i: int| 0 <= i < 351 ==> access_constraints(#[trigger] local.b_memory@[i].access, local.shard as int, local.clk as int, local.is_real as int, order as int))),
{
    let mut i: usize = 0;
    while i < VECTOR_SLOTS
        invariant
            order > 0,
            i <= 351,
            forall|j: int| 0 <= j < i ==> access_constraints(#[trigger] local.a_memory@[j].access, local.shard as int, local.clk as int, local.is_real as int, order as int),
            forall|j: int| 0 <= j < i ==> access_constraints(#[trigger] local.b_memory@[j].access, local.shard as int, local.clk as int, local.is_real as int, order as int),
        decreases 351 - i,
    {
        if !eval_access(&local.a_memory[i].access, local.shard, local.clk as u64, local.is_real, order) {
            return false;
        }
        if !eval_access(&local.b_memory[i].access, local.shard, local.clk as u64, local.is_real, order) {
            return false;
        }
        i = i + 1;
    }
    true
}

/// A read of the word at `addr` at `(shard, clk)` with multiplicity `multiplicity`.
pub open spec fn read_interaction(shard: u32, clk: u32, addr: u32, read: MemoryReadCols<u32>, multiplicity: u32) -> Interaction {
    Interaction::MemoryAccess {
        shard,
        clk,
        addr,
        prev_value: read.access.value,
        access: read.access,
        multiplicity,
    }
}

/// The reads of the words at indices `0..k` of both vectors, word by word: index `i` of `a`
/// at `a_ptr + 4 + 4 * i`, then index `i` of `b` at `b_ptr + 4 + 4 * i`.
pub open spec fn vector_interactions(local: InnerProductCols<u32>, k: int, order: int) -> Seq<Interaction>
    decreases k,
{
    if k <= 0 {
        seq![]
    } else {
        let i = k - 1;
        vector_interactions(local, i, order) + seq![
            read_interaction(
                local.shard,
                local.clk,
                field_add(local.a_ptr as int, 4 + 4 * i, order),
                local.a_memory@[i],
                local.is_real,
            ),
            read_interaction(
                local.shard,
                local.clk,
                field_add(local.b_ptr as int, 4 + 4 * i, order),
                local.b_memory@[i],
                local.is_real,
            ),
        ]
    }
}

/// The interactions of an inner-product row, each with multiplicity `is_real`: the receipt
/// of the syscall with its two arguments; the reads at `clk` of both lengths, at `a_ptr` and
/// `b_ptr`, and of the words of both vectors; and the write of the result over the length of
/// `a`, at `a_ptr`, at `clk + 1`.
pub open spec fn inner_product_interactions(local: InnerProductCols<u32>, order: int) -> Seq<Interaction> {
    seq![
        Interaction::SyscallReceive {
            shard: local.shard,
            clk: local.clk,
            nonce: None,
            syscall_code: SyscallCode::INNER_PRODUCT,
            arg1: local.a_ptr,
            arg2: local.b_ptr,
            multiplicity: local.is_real,
        },
        read_interaction(local.shard, local.clk, local.a_ptr, local.a_len_memory, local.is_real),
        read_interaction(local.shard, local.clk, local.b_ptr, local.b_len_memory, local.is_real),
    ] + vector_interactions(local, 351, order) + seq![
        Interaction::MemoryAccess {
            shard: local.shard,
            clk: field_add(local.clk as int, 1, order),
            addr: local.a_ptr,
            prev_value: local.result_memory.prev_value,
            access: local.result_memory.access,
            multiplicity: local.is_real,
        },
    ]
}

/// The interactions of the vector reads of `local`.
fn vector_reads(local: &InnerProductCols<u32>, order: u32) -> (out: Vec<Interaction>)
    requires
        order > 0,
    ensures
        out@ == vector_interactions(*local, 351, order as int),
{
    let mut out: Vec<Interaction> = Vec::new();
    let mut i: usize = 0;
    while i < VECTOR_SLOTS
        invariant
            order > 0,
            i <= 351,
            out@ == vector_interactions(*local, i as int, order as int),
        decreases 351 - i,
    {
        let offset = 4 + 4 * (i as u32);
        out.push(Interaction::MemoryAccess {
            shard: local.shard,
            clk: local.clk,
            addr: add_in_field(local.a_ptr, offset, order),
            prev_value: local.a_memory[i].access.value,
            access: local.a_memory[i].access,
            multiplicity: local.is_real,
        });
        out.push(Interaction::MemoryAccess {
            shard: local.shard,
            clk: local.clk,
            addr: add_in_field(local.b_ptr, offset, order),
            prev_value: local.b_memory[i].access.value,
            access: local.b_memory[i].access,
            multiplicity: local.is_real,
        });
        proof {
            assert(out@ =~= vector_interactions(*local, i + 1, order as int));
        }
        i = i + 1;
    }
    out
}

/// The trace of `events`: their rows in order, then padding rows.
pub open spec fn is_inner_product_trace(rows: Seq<InnerProductCols<u32>>, events: Seq<InnerProductEvent>) -> bool {
    &&& forall|i: int| 0 <= i < events.len() ==> is_inner_product_row(#[trigger] rows[i], events[i])
    &&& forall|i: int| events.len() <= i < rows.len() ==> is_inner_product_padding(#[trigger] rows[i])
}

/// The exact sum of the products of the words a row read at indices `1..=MAX_VECTOR_LEN`.
fn row_products_sum(local: &InnerProductCols<u32>) -> (sum: u128)
    ensures
        sum == products_sum(*local, 351),
{
    let w: u128 = 72340172804390655;
    let mut sum: u128 = 0;
    let mut i: usize = 1;
    while i < VECTOR_SLOTS
        invariant
            1 <= i <= 351,
            w == 72340172804390655,
            sum == products_sum(*local, i as int),
            sum <= i * (w * w),
        decreases 351 - i,
    {
        let x = crate::memory::word_to_u64(&local.a_memory[i].access.value) as u128;
        let y = crate::memory::word_to_u64(&local.b_memory[i].access.value) as u128;
        assert(x * y <= w * w) by (nonlinear_arith)
            requires x <= w, y <= w;
        assert((i + 1) * (w * w) == i * (w * w) + w * w) by (nonlinear_arith);
        assert((i + 1) * (w * w) <= 351 * (w * w)) by (nonlinear_arith)
            requires i + 1 <= 351;
        sum = sum + x * y;
        i = i + 1;
    }
    sum
}

impl Default for InnerProductChip {
    fn default() -> (chip: Self) {
        InnerProductChip
    }
}

impl InnerProductChip {
    pub fn new() -> (chip: Self) {
        InnerProductChip
    }

    /// The name of the chip, "InnerProduct".
    pub fn name(&self) -> (name: String)
        ensures
            name@ == inner_product_name(),
    {
        let s = "InnerProduct";
        proof {
            reveal_strlit("InnerProduct");
        }
        let name = s.to_owned();
        assert(name@ =~= inner_product_name());
        name
    }

    /// The number of cells in a row.
    pub fn width(&self) -> (w: usize)
        ensures
            w == NUM_COLS,
    {
        NUM_COLS
    }

    /// Whether the chip has a place in the trace of `shard`: where the shard has a fixed
    /// shape, whether the shape names the chip; else whether the shard holds inner-product events.
    pub fn included(&self, shard: &ExecutionRecord) -> (b: bool)
        ensures
            b == match shard.shape {
                Some(shape) => shape_lookup(shape@, inner_product_name()) is Some,
                None => has_code(shard.precompile_events@, SyscallCode::INNER_PRODUCT),
            },
    {
        match &shard.shape {
            Some(shape) => {
                let name = self.name();
                ExecutionRecord::shape_includes(shape, &name)
            },
            None => shard.has_precompile_events(SyscallCode::INNER_PRODUCT),
        }
    }

    /// Whether `generate_trace` can build the trace of `input` for a field of order `order`
    /// without a panic.
    pub fn can_generate_trace(&self, input: &ExecutionRecord, order: u32) -> (b: bool)
        ensures
            b == inner_product_trace_requires(*input, order as int),
    {
        let ghost all = input.precompile_events@;
        let ghost events = inner_product_events(all);
        if !input.is_wf_for(SyscallCode::INNER_PRODUCT) || order <= 1 {
            return false;
        }
        let n = input.precompile_events.len();
        let mut count: usize = 0;
        let mut i: usize = 0;
        assert(all.take(0) =~= Seq::<(SyscallCode, crate::events::SyscallEvent, PrecompileEvent)>::empty());
        while i < n
            invariant
                input.wf_for(SyscallCode::INNER_PRODUCT),
                all == input.precompile_events@,
                events == inner_product_events(all),
                n == all.len(),
                i <= n,
                count == inner_product_events(all.take(i as int)).len(),
                count <= i,
                forall|j: int|
                    0 <= j < count ==> inner_product_event_ok(
                        #[trigger] inner_product_events(all.take(i as int))[j],
                        order as int,
                    ),
            decreases n - i,
        {
            proof {
                lemma_inner_product_events_step(all, i as int);
                lemma_inner_product_events_prefix(all, i as int);
                lemma_inner_product_events_prefix(all, (i + 1) as int);
            }
            let entry = &input.precompile_events[i];
            if entry.0 == SyscallCode::INNER_PRODUCT {
                match &entry.2 {
                    PrecompileEvent::InnerProduct(event) => {
                        let ghost k = inner_product_events(all.take(i as int)).len();
                        assert(inner_product_events(all.take(i + 1))[k as int] == *event);
                        assert(events[k as int] == *event);
                        if !inner_product_event_can_be_row(event, order) {
                            return false;
                        }
                        proof {
                            let prev = inner_product_events(all.take(i as int));
                            let cur = inner_product_events(all.take(i + 1));
                            assert forall|j: int| 0 <= j < count + 1 implies inner_product_event_ok(
                                #[trigger] cur[j],
                                order as int,
                            ) by {
                                if j < count {
                                    assert(cur[j] == prev[j]);
                                }
                            }
                        }
                        count = count + 1;
                    },
                    PrecompileEvent::ADDMul(_) => {
                        assert(false);
                    },
                }
            }
            i = i + 1;
        }
        assert(all.take(n as int) =~= all);
        count <= 1024
    }

    /// A padding row: every cell zero.
    fn padding_row() -> (row: InnerProductCols<u32>)
        ensures
            is_inner_product_padding(row),
    {
        let zero = MemoryReadCols::zero();
        InnerProductCols {
            shard: 0,
            clk: 0,
            a_ptr: 0,
            b_ptr: 0,
            a_len_memory: zero,
            b_len_memory: zero,
            len: 0,
            a_memory: [zero; 351],
            b_memory: [zero; 351],
            result_memory: MemoryWriteCols::zero(),
            running_sum: 0,
            is_real: 0,
        }
    }

    /// Evaluates the chip on `local` in the field of order `order`: whether it meets the
    /// inner-product constraints, and the interactions it sends.
    pub fn eval(&self, local: &InnerProductCols<u32>, order: u32) -> (ev: RowEvaluation)
        requires
            order > 0,
        ensures
            ev.constraints_hold == inner_product_constraints(*local, order as int),
            ev.interactions@ == inner_product_interactions(*local, order as int),
    {
        let is_real = local.is_real as u128;
        assert(is_real * is_real - is_real == local.is_real * (local.is_real - 1)) by (nonlinear_arith)
            requires is_real == local.is_real;
        assert(is_real * is_real <= 0xffff_ffff * 0xffff_ffff) by (nonlinear_arith)
            requires is_real <= 0xffff_ffff;
        let is_bool = vanishes_difference(is_real * is_real, is_real, order);
        let w: u128 = 72340172804390655;
        let a_len = crate::memory::word_to_u64(&local.a_len_memory.access.value) as u128;
        let b_len = crate::memory::word_to_u64(&local.b_len_memory.access.value) as u128;
        let written = crate::memory::word_to_u64(&local.result_memory.access.value) as u128;
        let len = local.len as u128;
        let running_sum = local.running_sum as u128;
        assert(is_real * a_len <= 0xffff_ffff * w) by (nonlinear_arith)
            requires is_real <= 0xffff_ffff, a_len <= w;
        assert(is_real * b_len <= 0xffff_ffff * w) by (nonlinear_arith)
            requires is_real <= 0xffff_ffff, b_len <= w;
        assert(is_real * written <= 0xffff_ffff * w) by (nonlinear_arith)
            requires is_real <= 0xffff_ffff, written <= w;
        assert(is_real * len <= 0xffff_ffff * 0xffff_ffff) by (nonlinear_arith)
            requires is_real <= 0xffff_ffff, len <= 0xffff_ffff;
        assert(is_real * running_sum <= 0xffff_ffff * 0xffff_ffff) by (nonlinear_arith)
            requires is_real <= 0xffff_ffff, running_sum <= 0xffff_ffff;
        assert(is_real * a_len - is_real * b_len == local.is_real * (a_len - b_len)) by (nonlinear_arith)
            requires is_real == local.is_real;
        assert(is_real * a_len - is_real * len == local.is_real * (a_len - local.len)) by (nonlinear_arith)
            requires is_real == local.is_real, len == local.len;
        assert(is_real * written - is_real * running_sum == local.is_real * (written - local.running_sum))
            by (nonlinear_arith)
            requires is_real == local.is_real, running_sum == local.running_sum;
        let same_len = vanishes_difference(is_real * a_len, is_real * b_len, order);
        let len_ok = vanishes_difference(is_real * a_len, is_real * len, order);
        let written_ok = vanishes_difference(is_real * written, is_real * running_sum, order);
        let products = row_products_sum(local);
        let residue = products % (order as u128);
        proof {
            lemma_vanishes_scaled_residue(
                local.is_real as int,
                products as int,
                local.running_sum as int,
                order as int,
            );
        }
        assert(is_real * residue <= 0xffff_ffff * 0xffff_ffff) by (nonlinear_arith)
            requires is_real <= 0xffff_ffff, residue <= 0xffff_ffff;
        assert(is_real * residue - is_real * running_sum == local.is_real * (residue - local.running_sum))
            by (nonlinear_arith)
            requires is_real == local.is_real, running_sum == local.running_sum;
        let sum_ok = vanishes_difference(is_real * residue, is_real * running_sum, order);
        let a_len_access_ok = eval_access(&local.a_len_memory.access, local.shard, local.clk as u64, local.is_real, order);
        let b_len_access_ok = eval_access(&local.b_len_memory.access, local.shard, local.clk as u64, local.is_real, order);
        let vector_ok = vector_accesses_ok(local, order);
        let result_access_ok = eval_access(&local.result_memory.access, local.shard, local.clk as u64 + 1, local.is_real, order);
        let constraints_hold = is_bool && same_len && len_ok && sum_ok && written_ok && a_len_access_ok
            && b_len_access_ok && vector_ok && result_access_ok;
        let mut interactions = vec![
            Interaction::SyscallReceive {
                shard: local.shard,
                clk: local.clk,
                nonce: None,
                syscall_code: SyscallCode::INNER_PRODUCT,
                arg1: local.a_ptr,
                arg2: local.b_ptr,
                multiplicity: local.is_real,
            },
            Interaction::MemoryAccess {
                shard: local.shard,
                clk: local.clk,
                addr: local.a_ptr,
                prev_value: local.a_len_memory.access.value,
                access: local.a_len_memory.access,
                multiplicity: local.is_real,
            },
            Interaction::MemoryAccess {
                shard: local.shard,
                clk: local.clk,
                addr: local.b_ptr,
                prev_value: local.b_len_memory.access.value,
                access: local.b_len_memory.access,
                multiplicity: local.is_real,
            },
        ];
        let mut reads = vector_reads(local, order);
        interactions.append(&mut reads);
        interactions.push(Interaction::MemoryAccess {
            shard: local.shard,
            clk: add_in_field(local.clk, 1, order),
            addr: local.a_ptr,
            prev_value: local.result_memory.prev_value,
            access: local.result_memory.access,
            multiplicity: local.is_real,
        });
        assert(interactions@ =~= inner_product_interactions(*local, order as int));
        RowEvaluation { constraints_hold, interactions }
    }

    /// The trace of the inner-product events of `input`: one row per event, in order, then
    /// padding rows up to the fixed height of 2^10 rows. The range checks the memory columns
    /// need are appended to `output`. `order` is the order of the field of the cells.
    pub fn generate_trace(
        &self,
        input: &ExecutionRecord,
        output: &mut ExecutionRecord,
        order: u32,
    ) -> (rows: Vec<InnerProductCols<u32>>)
        requires
            inner_product_trace_requires(*input, order as int),
        ensures
            rows@.len() == 1024,
            is_inner_product_trace(rows@, inner_product_events(input.precompile_events@)),
            final(output).byte_lookups@ == old(output).byte_lookups@ + inner_product_lookups(
                inner_product_events(input.precompile_events@),
            ),
            final(output).precompile_events@ == old(output).precompile_events@,
            final(output).shape == old(output).shape,
    {
        let ghost all = input.precompile_events@;
        let ghost events = inner_product_events(all);
        let mut rows: Vec<InnerProductCols<u32>> = Vec::new();
        let n = input.precompile_events.len();
        let mut i: usize = 0;
        assert(all.take(0) =~= Seq::<(SyscallCode, crate::events::SyscallEvent, PrecompileEvent)>::empty());
        while i < n
            invariant
                input.wf_for(SyscallCode::INNER_PRODUCT),
                all == input.precompile_events@,
                events == inner_product_events(all),
                n == all.len(),
                i <= n,
                rows@.len() == inner_product_events(all.take(i as int)).len(),
                forall|j: int|
                    0 <= j < rows@.len() ==> is_inner_product_row(
                        #[trigger] rows@[j],
                        inner_product_events(all.take(i as int))[j],
                    ),
                output.byte_lookups@ == old(output).byte_lookups@ + inner_product_lookups(
                    inner_product_events(all.take(i as int)),
                ),
                output.precompile_events@ == old(output).precompile_events@,
                output.shape == old(output).shape,
                forall|j: int|
                    0 <= j < events.len() ==> inner_product_event_ok(#[trigger] events[j], order as int),
            decreases n - i,
        {
            proof {
                lemma_inner_product_events_step(all, i as int);
                lemma_inner_product_events_prefix(all, i as int);
                lemma_inner_product_events_prefix(all, (i + 1) as int);
            }
            let entry = &input.precompile_events[i];
            if entry.0 == SyscallCode::INNER_PRODUCT {
                match &entry.2 {
                    PrecompileEvent::InnerProduct(event) => {
                        let ghost k = inner_product_events(all.take(i as int)).len();
                        assert(inner_product_events(all.take(i + 1))[k as int] == *event);
                        assert(events[k as int] == *event);
                        let mut records = ExecutionRecord::new();
                        let mut new_byte_lookup_events: Vec<ByteLookupEvent> = Vec::new();
                        let row = Self::event_row(event, &mut new_byte_lookup_events);
                        rows.push(row);
                        records.add_byte_lookup_events(new_byte_lookup_events);
                        output.append(&mut records);
                        proof {
                            let prev = inner_product_events(all.take(i as int));
                            let cur = inner_product_events(all.take(i + 1));
                            assert(cur.drop_last() =~= prev);
                            assert(inner_product_event_lookups(*event) =~= Seq::empty() + inner_product_event_lookups(*event));
                            assert(output.byte_lookups@ =~= old(output).byte_lookups@ + inner_product_lookups(cur));
                            assert forall|j: int| 0 <= j < rows@.len() implies is_inner_product_row(
                                #[trigger] rows@[j],
                                cur[j],
                            ) by {
                                if j < prev.len() {
                                    assert(cur[j] == prev[j]);
                                }
                            }
                        }
                    },
                    PrecompileEvent::ADDMul(_) => {
                        assert(false);
                    },
                }
            }
            i = i + 1;
        }
        assert(all.take(n as int) =~= all);
        let ghost count = events.len();
        let ghost unpadded = rows@;
        proof {
            vstd::arithmetic::power2::lemma2_to64();
        }
        pad_rows_fixed(&mut rows, Self::padding_row(), Some(FIXED_LOG2_ROWS));
        assert forall|j: int| 0 <= j < count implies is_inner_product_row(#[trigger] rows@[j], events[j]) by {
            assert(rows@.subrange(0, count as int)[j] == unpadded[j]);
        }
        rows
    }
}

/// Extending the prefix by one entry adds at most that entry's inner-product event.
proof fn lemma_inner_product_events_step(s: Seq<(SyscallCode, crate::events::SyscallEvent, PrecompileEvent)>, i: int)
    requires
        0 <= i < s.len(),
    ensures
        s.take(i + 1).drop_last() == s.take(i),
        s.take(i + 1).last() == s[i],
{
    assert(s.take(i + 1).drop_last() =~= s.take(i));
}

/// The inner-product events of a prefix are a prefix of the inner-product events.
proof fn lemma_inner_product_events_prefix(s: Seq<(SyscallCode, crate::events::SyscallEvent, PrecompileEvent)>, i: int)
    requires
        0 <= i <= s.len(),
    ensures
        inner_product_events(s.take(i)).len() <= inner_product_events(s).len(),
        forall|j: int|
            0 <= j < inner_product_events(s.take(i)).len() ==> #[trigger] inner_product_events(s.take(i))[j]
                == inner_product_events(s)[j],
    decreases s.len(),
{
    if i == s.len() {
        assert(s.take(i) =~= s);
    } else {
        assert(s.drop_last().take(i) =~= s.take(i));
        lemma_inner_product_events_prefix(s.drop_last(), i);
    }
}

/// The words the event's records hold agree with its vectors: both length words hold the
/// length of `a`, the words a row reads at indices from 1 up to that length hold `a` and
/// `b`, past the length one of each pair of words is zero, the products past the last index
/// a row reads sum to zero, and the word written is the inner product.
pub open spec fn inner_product_event_consistent(e: InnerProductEvent) -> bool {
    let n = e.a@.len() as int;
    let m = if n <= 351 { n } else { 351 };
    &&& e.a_len_memory.value == n
    &&& e.b_len_memory.value == n
    &&& forall|i: int| 1 <= i < m ==> (#[trigger] e.a_memory_records@[i]).value == e.a@[i]
    &&& forall|i: int| 1 <= i < m ==> (#[trigger] e.b_memory_records@[i]).value == e.b@[i]
    &&& forall|i: int| n <= i < 351 ==> (#[trigger] e.a_memory_records@[i]).value == 0 || e.b_memory_records@[i].value == 0
    &&& dot_from_one(e.a@, e.b@, n) == dot_from_one(e.a@, e.b@, m)
    &&& e.result_memory_records.value == dot_from_one(e.a@, e.b@, n)
}

/// A read made in `shard` at `clk`, with a gap since the access before that fits in 24 bits.
pub open spec fn read_timed(r: MemoryReadRecord, shard: u32, clk: int) -> bool {
    &&& r.shard == shard
    &&& r.timestamp == clk
    &&& time_gap_minus_one(r.current(), r.previous()) < 0x100_0000
}

/// The event's accesses were made in its shard: the reads at its clock, the write one cycle
/// later; and each gap since the access before fits in 24 bits.
pub open spec fn inner_product_event_timed(e: InnerProductEvent) -> bool {
    &&& read_timed(e.a_len_memory, e.shard, e.clk as int)
    &&& read_timed(e.b_len_memory, e.shard, e.clk as int)
    &&& forall|i: int| 0 <= i < 351 ==> read_timed(#[trigger] e.a_memory_records@[i], e.shard, e.clk as int)
    &&& forall|i: int| 0 <= i < 351 ==> read_timed(#[trigger] e.b_memory_records@[i], e.shard, e.clk as int)
    &&& e.result_memory_records.shard == e.shard
    &&& e.result_memory_records.timestamp == e.clk + 1
    &&& time_gap_minus_one(e.result_memory_records.current(), e.result_memory_records.previous()) < 0x100_0000
}

proof fn lemma_products_sum_is_dot(row: InnerProductCols<u32>, e: InnerProductEvent, k: int)
    requires
        is_inner_product_row(row, e),
        inner_product_event_buildable(e),
        inner_product_event_consistent(e),
        0 <= k <= 351,
    ensures
        products_sum(row, k) == dot_from_one(e.a@, e.b@, if k <= e.a@.len() { k } else { e.a@.len() as int }),
    decreases k,
{
    if k > 1 {
        lemma_products_sum_is_dot(row, e, k - 1);
        let i = k - 1;
        crate::memory::lemma_word_value_of(e.a_memory_records@[i].value);
        crate::memory::lemma_word_value_of(e.b_memory_records@[i].value);
        assert(row.a_memory@[i] == read_cols_of(e.a_memory_records@[i]));
        assert(row.b_memory@[i] == read_cols_of(e.b_memory_records@[i]));
        let x = word_value(row.a_memory@[i].access.value);
        let y = word_value(row.b_memory@[i].access.value);
        assert(x == e.a_memory_records@[i].value);
        assert(y == e.b_memory_records@[i].value);
        if k > e.a@.len() {
            assert(x == 0 || y == 0);
            assert(x * y == 0) by (nonlinear_arith)
                requires x == 0 || y == 0;
        }
    }
}

/// The row of an event whose records agree with its vectors, and whose accesses are timed
/// as the row's, satisfies the inner-product constraints.
pub proof fn lemma_inner_product_row_satisfies_constraints(row: InnerProductCols<u32>, e: InnerProductEvent, order: int)
    requires
        is_inner_product_row(row, e),
        inner_product_event_buildable(e),
        inner_product_event_consistent(e),
        inner_product_event_timed(e),
        order > 0,
    ensures
        inner_product_constraints(row, order),
{
    lemma_access_cols_meet_constraints(e.a_len_memory.current(), e.a_len_memory.previous(), order);
    lemma_access_cols_meet_constraints(e.b_len_memory.current(), e.b_len_memory.previous(), order);
    lemma_access_cols_meet_constraints(
        e.result_memory_records.current(),
        e.result_memory_records.previous(),
        order,
    );
    assert forall|i: int| 0 <= i < 351 implies access_constraints(
        #[trigger] row.a_memory@[i].access,
        row.shard as int,
        row.clk as int,
        row.is_real as int,
        order,
    ) by {
        assert(read_timed(e.a_memory_records@[i], e.shard, e.clk as int));
        lemma_access_cols_meet_constraints(e.a_memory_records@[i].current(), e.a_memory_records@[i].previous(), order);
    }
    assert forall|i: int| 0 <= i < 351 implies access_constraints(
        #[trigger] row.b_memory@[i].access,
        row.shard as int,
        row.clk as int,
        row.is_real as int,
        order,
    ) by {
        assert(read_timed(e.b_memory_records@[i], e.shard, e.clk as int));
        lemma_access_cols_meet_constraints(e.b_memory_records@[i].current(), e.b_memory_records@[i].previous(), order);
    }
    lemma_products_sum_is_dot(row, e, 351);
    crate::memory::lemma_word_value_of(e.a_len_memory.value);
    crate::memory::lemma_word_value_of(e.b_len_memory.value);
    crate::memory::lemma_word_value_of(e.result_memory_records.value);
    let a_len = word_value(row.a_len_memory.access.value);
    let b_len = word_value(row.b_len_memory.access.value);
    assert(a_len == e.a@.len());
    assert(b_len == e.a@.len());
    assert(row.len == e.a@.len());
    assert(row.running_sum == dot_from_one(e.a@, e.b@, e.a@.len() as int));
    assert(word_value(row.result_memory.access.value) == row.running_sum);
    assert(row.is_real == 1);
    assert(row.is_real * (row.is_real - 1) == 0) by (nonlinear_arith)
        requires row.is_real == 1;
}

/// A padding row satisfies the inner-product constraints.
pub proof fn lemma_inner_product_padding_satisfies_constraints(row: InnerProductCols<u32>, order: int)
    requires
        is_inner_product_padding(row),
        order > 0,
    ensures
        inner_product_constraints(row, order),
{
}

/// Every row of the trace that `generate_trace` builds satisfies the inner-product
/// constraints, when each event's records agree with its vectors and are timed as its row.
pub proof fn lemma_inner_product_trace_satisfies_constraints(
    rows: Seq<InnerProductCols<u32>>,
    events: Seq<InnerProductEvent>,
    order: int,
)
    requires
        is_inner_product_trace(rows, events),
        events.len() <= rows.len(),
        forall|i: int| 0 <= i < events.len() ==> inner_product_event_buildable(#[trigger] events[i]),
        forall|i: int| 0 <= i < events.len() ==> inner_product_event_consistent(#[trigger] events[i]),
        forall|i: int| 0 <= i < events.len() ==> inner_product_event_timed(#[trigger] events[i]),
        order > 0,
    ensures
        forall|i: int| 0 <= i < rows.len() ==> inner_product_constraints(#[trigger] rows[i], order),
{
    assert forall|i: int| 0 <= i < rows.len() implies inner_product_constraints(#[trigger] rows[i], order) by {
        if i < events.len() {
            lemma_inner_product_row_satisfies_constraints(rows[i], events[i], order);
        } else {
            lemma_inner_product_padding_satisfies_constraints(rows[i], order);
        }
    }
}

/// The cells of a run of reads, one read after another.
pub open spec fn reads_cells(reads: Seq<MemoryReadCols<u32>>) -> Seq<u32>
    decreases reads.len(),
{
    if reads.len() == 0 {
        seq![]
    } else {
        reads_cells(reads.drop_last()) + read_cells(reads.last())
    }
}

proof fn lemma_reads_cells_len(reads: Seq<MemoryReadCols<u32>>)
    ensures
        reads_cells(reads).len() == reads.len() * 9,
    decreases reads.len(),
{
    if reads.len() > 0 {
        lemma_reads_cells_len(reads.drop_last());
    }
}

/// Appends the cells of the reads of one vector.
fn push_reads_cells(out: &mut Vec<u32>, reads: &[MemoryReadCols<u32>; 351])
    ensures
        final(out)@ == old(out)@ + reads_cells(reads@),
{
    let mut i: usize = 0;
    assert(reads@.take(0) =~= Seq::<MemoryReadCols<u32>>::empty());
    while i < VECTOR_SLOTS
        invariant
            i <= 351,
            reads@.len() == 351,
            out@ == old(out)@ + reads_cells(reads@.take(i as int)),
        decreases 351 - i,
    {
        reads[i].push_cells(out);
        assert(reads@.take(i + 1).drop_last() =~= reads@.take(i as int));
        assert(out@ =~= old(out)@ + reads_cells(reads@.take(i + 1)));
        i = i + 1;
    }
    assert(reads@.take(351) =~= reads@);
}

impl InnerProductCols<u32> {
    /// The cells of the row, in column order.
    pub open spec fn cells(self) -> Seq<u32> {
        seq![self.shard, self.clk, self.a_ptr, self.b_ptr] + read_cells(self.a_len_memory) + read_cells(
            self.b_len_memory,
        ) + seq![self.len] + reads_cells(self.a_memory@) + reads_cells(self.b_memory@) + write_cells(
            self.result_memory,
        ) + seq![self.running_sum, self.is_real]
    }

    /// The cells of the row, in column order.
    pub fn to_cells(&self) -> (cells: Vec<u32>)
        ensures
            cells@ == self.cells(),
            cells@.len() == NUM_COLS,
    {
        let mut out: Vec<u32> = Vec::new();
        out.push(self.shard);
        out.push(self.clk);
        out.push(self.a_ptr);
        out.push(self.b_ptr);
        self.a_len_memory.push_cells(&mut out);
        self.b_len_memory.push_cells(&mut out);
        out.push(self.len);
        push_reads_cells(&mut out, &self.a_memory);
        push_reads_cells(&mut out, &self.b_memory);
        self.result_memory.push_cells(&mut out);
        out.push(self.running_sum);
        out.push(self.is_real);
        proof {
            lemma_reads_cells_len(self.a_memory@);
            lemma_reads_cells_len(self.b_memory@);
        }
        assert(out@ =~= self.cells());
        out
    }
}

/// The cells of `rows`, row after row.
pub open spec fn inner_product_trace_cells(rows: Seq<InnerProductCols<u32>>) -> Seq<u32>
    decreases rows.len(),
{
    if rows.len() == 0 {
        seq![]
    } else {
        inner_product_trace_cells(rows.drop_last()) + rows.last().cells()
    }
}

/// The cells of the trace, row after row, as the prover's row-major matrix holds them.
pub fn inner_product_trace_values(rows: &Vec<InnerProductCols<u32>>) -> (values: Vec<u32>)
    ensures
        values@ == inner_product_trace_cells(rows@),
{
    let mut values: Vec<u32> = Vec::new();
    let mut i: usize = 0;
    assert(rows@.take(0) =~= Seq::<InnerProductCols<u32>>::empty());
    while i < rows.len()
        invariant
            i <= rows@.len(),
            values@ == inner_product_trace_cells(rows@.take(i as int)),
        decreases rows@.len() - i,
    {
        let mut cells = rows[i].to_cells();
        values.append(&mut cells);
        assert(rows@.take(i + 1).drop_last() =~= rows@.take(i as int));
        i = i + 1;
    }
    assert(rows@.take(rows@.len() as int) =~= rows@);
    values
}

/// The reads of the first `k` words of both vectors come in pairs: the `2i`-th reads word
/// `i` of `a` at `a_ptr + 4 + 4i` with the columns `a_memory[i]`, the next reads word `i` of
/// `b` at `b_ptr + 4 + 4i` with the columns `b_memory[i]`.
proof fn lemma_vector_interactions_index(local: InnerProductCols<u32>, k: int, order: int)
    requires
        0 <= k <= 351,
    ensures
        vector_interactions(local, k, order).len() == 2 * k,
        forall|i: int|
            0 <= i < k ==> is_read_of(
                #[trigger] vector_interactions(local, k, order)[2 * i],
                local.shard,
                local.clk,
                field_add(local.a_ptr as int, 4 + 4 * i, order),
                local.a_memory@[i],
                local.is_real,
            ),
        forall|i: int|
            0 <= i < k ==> is_read_of(
                #[trigger] vector_interactions(local, k, order)[2 * i + 1],
                local.shard,
                local.clk,
                field_add(local.b_ptr as int, 4 + 4 * i, order),
                local.b_memory@[i],
                local.is_real,
            ),
    decreases k,
{
    if k > 0 {
        lemma_vector_interactions_index(local, k - 1, order);
        let prev = vector_interactions(local, k - 1, order);
        let all = vector_interactions(local, k, order);
        assert forall|i: int| 0 <= i < k implies #[trigger] all[2 * i] == if i < k - 1 { prev[2 * i] } else { all[2 * k - 2] } by {}
        assert forall|i: int| 0 <= i < k implies #[trigger] all[2 * i + 1] == if i < k - 1 { prev[2 * i + 1] } else { all[2 * k - 1] } by {}
    }
}

/// Each memory access a row sends carries the columns of the access made at that address:
/// the reads of both lengths at `a_ptr` and `b_ptr` carry `a_len_memory` and
/// `b_len_memory`; the read of word `i` of `a` at `a_ptr + 4 + 4i` carries `a_memory[i]`,
/// that of word `i` of `b` at `b_ptr + 4 + 4i` carries `b_memory[i]`; the reads leave the
/// words as they were; and the write at `a_ptr` one cycle later carries `result_memory`.
/// The first message is the receipt of the syscall with `a_ptr` and `b_ptr`.
pub proof fn lemma_inner_product_interactions_carry_their_accesses(local: InnerProductCols<u32>, order: int)
    ensures
        inner_product_interactions(local, order).len() == 706,
        inner_product_interactions(local, order)[0] matches Interaction::SyscallReceive {
            shard,
            clk,
            nonce,
            syscall_code,
            arg1,
            arg2,
            multiplicity,
        } && shard == local.shard && clk == local.clk && nonce is None
            && syscall_code == SyscallCode::INNER_PRODUCT && arg1 == local.a_ptr && arg2 == local.b_ptr
            && multiplicity == local.is_real,
        is_read_of(inner_product_interactions(local, order)[1], local.shard, local.clk, local.a_ptr, local.a_len_memory, local.is_real),
        is_read_of(inner_product_interactions(local, order)[2], local.shard, local.clk, local.b_ptr, local.b_len_memory, local.is_real),
        forall|i: int|
            0 <= i < 351 ==> is_read_of(
                #[trigger] inner_product_interactions(local, order)[3 + 2 * i],
                local.shard,
                local.clk,
                field_add(local.a_ptr as int, 4 + 4 * i, order),
                local.a_memory@[i],
                local.is_real,
            ),
        forall|i: int|
            0 <= i < 351 ==> is_read_of(
                #[trigger] inner_product_interactions(local, order)[4 + 2 * i],
                local.shard,
                local.clk,
                field_add(local.b_ptr as int, 4 + 4 * i, order),
                local.b_memory@[i],
                local.is_real,
            ),
        is_write_of(
            inner_product_interactions(local, order)[705],
            local.shard,
            field_add(local.clk as int, 1, order),
            local.a_ptr,
            local.result_memory,
            local.is_real,
        ),
{
    lemma_vector_interactions_index(local, 351, order);
    let v = vector_interactions(local, 351, order);
    let all = inner_product_interactions(local, order);
    assert forall|i: int| 0 <= i < 351 implies #[trigger] all[3 + 2 * i] == v[2 * i] && all[4 + 2 * i] == v[2 * i + 1] by {}
    assert forall|i: int| 0 <= i < 351 implies is_read_of(
        #[trigger] all[3 + 2 * i],
        local.shard,
        local.clk,
        field_add(local.a_ptr as int, 4 + 4 * i, order),
        local.a_memory@[i],
        local.is_real,
    ) by {
        assert(all[3 + 2 * i] == v[2 * i]);
    }
    assert forall|i: int| 0 <= i < 351 implies is_read_of(
        #[trigger] all[4 + 2 * i],
        local.shard,
        local.clk,
        field_add(local.b_ptr as int, 4 + 4 * i, order),
        local.b_memory@[i],
        local.is_real,
    ) by {
        assert(all[4 + 2 * i] == v[2 * i + 1]);
    }
}

/// The row of an event holds in each group of memory columns the access the event made
/// there: the reads of both lengths, the reads of word `i` of each vector, and the write of
/// the result, each with the word it saw and the time of the access before it. It is a
/// real row of the event's shard, clock and pointers, whose `len` cell counts the elements
/// of `a` and whose running sum is `a[1] * b[1] + ... + a[n-1] * b[n-1]` when that fits in a
/// word.
pub proof fn lemma_inner_product_row_holds_its_accesses(row: InnerProductCols<u32>, e: InnerProductEvent)
    requires
        is_inner_product_row(row, e),
    ensures
        row.shard == e.shard && row.clk == e.clk && row.a_ptr == e.a_ptr && row.b_ptr == e.b_ptr,
        row.is_real == 1,
        e.a@.len() <= u32::MAX ==> row.len == e.a@.len(),
        0 <= dot_from_one(e.a@, e.b@, e.a@.len() as int) <= u32::MAX ==> row.running_sum == dot_from_one(
            e.a@,
            e.b@,
            e.a@.len() as int,
        ),
        read_holds(row.a_len_memory, e.a_len_memory),
        read_holds(row.b_len_memory, e.b_len_memory),
        forall|i: int| 0 <= i < 351 ==> read_holds(#[trigger] row.a_memory@[i], e.a_memory_records@[i]),
        forall|i: int| 0 <= i < 351 ==> read_holds(#[trigger] row.b_memory@[i], e.b_memory_records@[i]),
        write_holds(row.result_memory, e.result_memory_records),
{
    lemma_read_cols_hold(e.a_len_memory);
    lemma_read_cols_hold(e.b_len_memory);
    lemma_write_cols_hold(e.result_memory_records);
    assert forall|i: int| 0 <= i < 351 implies read_holds(#[trigger] row.a_memory@[i], e.a_memory_records@[i]) by {
        lemma_read_cols_hold(e.a_memory_records@[i]);
    }
    assert forall|i: int| 0 <= i < 351 implies read_holds(#[trigger] row.b_memory@[i], e.b_memory_records@[i]) by {
        lemma_read_cols_hold(e.b_memory_records@[i]);
    }
}

/// On the row of an event whose records agree with its vectors, the messages tell the
/// memory bus the event's words: the read at `a_ptr` sees the length of `a`; the read of
/// word `i` of `a` (of `b`), for `1 <= i` below both that length and 351, sees `a[i]`
/// (`b[i]`); and the write at `a_ptr` puts the inner product over the length of `a`.
pub proof fn lemma_inner_product_event_interactions(row: InnerProductCols<u32>, e: InnerProductEvent, order: int)
    requires
        is_inner_product_row(row, e),
        inner_product_event_consistent(e),
    ensures
        inner_product_interactions(row, order)[1] matches Interaction::MemoryAccess { addr, access, .. }
            && addr == e.a_ptr && word_value(access.value) == e.a@.len(),
        forall|i: int|
            1 <= i < e.a@.len() && i < 351 ==> (#[trigger] inner_product_interactions(row, order)[3 + 2 * i] matches Interaction::MemoryAccess {
                addr,
                access,
                ..
            } && addr == field_add(e.a_ptr as int, 4 + 4 * i, order) && word_value(access.value) == e.a@[i]),
        forall|i: int|
            1 <= i < e.a@.len() && i < 351 ==> (#[trigger] inner_product_interactions(row, order)[4 + 2 * i] matches Interaction::MemoryAccess {
                addr,
                access,
                ..
            } && addr == field_add(e.b_ptr as int, 4 + 4 * i, order) && word_value(access.value) == e.b@[i]),
        inner_product_interactions(row, order)[705] matches Interaction::MemoryAccess { addr, access, .. }
            && addr == e.a_ptr && word_value(access.value) == dot_from_one(e.a@, e.b@, e.a@.len() as int),
{
    lemma_inner_product_row_holds_its_accesses(row, e);
    lemma_inner_product_interactions_carry_their_accesses(row, order);
    let all = inner_product_interactions(row, order);
    assert forall|i: int| 1 <= i < e.a@.len() && i < 351 implies (#[trigger] all[3 + 2 * i] matches Interaction::MemoryAccess {
        addr,
        access,
        ..
    } && addr == field_add(e.a_ptr as int, 4 + 4 * i, order) && word_value(access.value) == e.a@[i]) by {
        assert(read_holds(row.a_memory@[i], e.a_memory_records@[i]));
    }
    assert forall|i: int| 1 <= i < e.a@.len() && i < 351 implies (#[trigger] all[4 + 2 * i] matches Interaction::MemoryAccess {
        addr,
        access,
        ..
    } && addr == field_add(e.b_ptr as int, 4 + 4 * i, order) && word_value(access.value) == e.b@[i]) by {
        assert(read_holds(row.b_memory@[i], e.b_memory_records@[i]));
    }
}

/// The cells of a run of reads: those of read `i` fill the nine cells from `9i` on.
proof fn lemma_reads_cells_index(reads: Seq<MemoryReadCols<u32>>)
    ensures
        reads_cells(reads).len() == reads.len() * 9,
        forall|i: int| 0 <= i < reads.len() ==> holds_access_at(reads_cells(reads), 9 * i, #[trigger] reads[i].access),
    decreases reads.len(),
{
    lemma_reads_cells_len(reads);
    if reads.len() > 0 {
        lemma_reads_cells_index(reads.drop_last());
        lemma_reads_cells_len(reads.drop_last());
        let prev = reads_cells(reads.drop_last());
        let all = reads_cells(reads);
        assert forall|i: int| 0 <= i < reads.len() implies holds_access_at(all, 9 * i, #[trigger] reads[i].access) by {
            if i < reads.len() - 1 {
                assert(reads[i] == reads.drop_last()[i]);
                assert(holds_access_at(prev, 9 * i, reads[i].access));
                assert forall|j: int| 0 <= j < 9 implies #[trigger] all[9 * i + j] == prev[9 * i + j] by {}
            } else {
                assert forall|j: int| 0 <= j < 9 implies #[trigger] all[9 * i + j] == read_cells(reads.last())[j] by {}
            }
        }
    }
}

/// The cells of a row follow its column layout: the shard, the clock and both pointers;
/// the reads of the two lengths, nine cells each; the `len` cell; the 351 reads of `a`,
/// then the 351 reads of `b`, nine cells each; the write of the result (the word it
/// replaced, then its access); then the running sum and `is_real`.
pub proof fn lemma_inner_product_cells_layout(row: InnerProductCols<u32>)
    ensures
        row.cells().len() == NUM_COLS,
        row.cells()[0] == row.shard && row.cells()[1] == row.clk,
        row.cells()[2] == row.a_ptr && row.cells()[3] == row.b_ptr,
        holds_access_at(row.cells(), 4, row.a_len_memory.access),
        holds_access_at(row.cells(), 13, row.b_len_memory.access),
        row.cells()[22] == row.len,
        forall|i: int| 0 <= i < 351 ==> holds_access_at(row.cells(), 23 + 9 * i, #[trigger] row.a_memory@[i].access),
        forall|i: int| 0 <= i < 351 ==> holds_access_at(row.cells(), 3182 + 9 * i, #[trigger] row.b_memory@[i].access),
        row.cells()[6341] == row.result_memory.prev_value.0[0] && row.cells()[6342] == row.result_memory.prev_value.0[1],
        row.cells()[6343] == row.result_memory.prev_value.0[2] && row.cells()[6344] == row.result_memory.prev_value.0[3],
        holds_access_at(row.cells(), 6345, row.result_memory.access),
        row.cells()[6354] == row.running_sum && row.cells()[6355] == row.is_real,
{
    lemma_reads_cells_index(row.a_memory@);
    lemma_reads_cells_index(row.b_memory@);
    let head = seq![row.shard, row.clk, row.a_ptr, row.b_ptr] + read_cells(row.a_len_memory) + read_cells(
        row.b_len_memory,
    ) + seq![row.len];
    let ra = reads_cells(row.a_memory@);
    let rb = reads_cells(row.b_memory@);
    let tail = write_cells(row.result_memory) + seq![row.running_sum, row.is_real];
    let c = row.cells();
    assert(c == head + ra + rb + tail);
    assert(head.len() == 23);
    assert forall|i: int| 0 <= i < 351 implies holds_access_at(c, 23 + 9 * i, #[trigger] row.a_memory@[i].access) by {
        assert(holds_access_at(ra, 9 * i, row.a_memory@[i].access));
        assert forall|j: int| 0 <= j < 9 implies #[trigger] c[23 + 9 * i + j] == ra[9 * i + j] by {}
    }
    assert forall|i: int| 0 <= i < 351 implies holds_access_at(c, 3182 + 9 * i, #[trigger] row.b_memory@[i].access) by {
        assert(holds_access_at(rb, 9 * i, row.b_memory@[i].access));
        assert forall|j: int| 0 <= j < 9 implies #[trigger] c[3182 + 9 * i + j] == rb[9 * i + j] by {}
    }
}

/// In the cells of a trace, cell `j` of row `i` stands at `i * NUM_COLS + j`.
pub proof fn lemma_inner_product_trace_cells_index(rows: Seq<InnerProductCols<u32>>, i: int, j: int)
    requires
        0 <= i < rows.len(),
        0 <= j < NUM_COLS,
    ensures
        inner_product_trace_cells(rows).len() == rows.len() * NUM_COLS,
        inner_product_trace_cells(rows)[i * NUM_COLS + j] == rows[i].cells()[j],
    decreases rows.len(),
{
    lemma_inner_product_trace_cells_len(rows);
    lemma_inner_product_trace_cells_len(rows.drop_last());
    lemma_inner_product_cells_layout(rows.last());
    if i < rows.len() - 1 {
        lemma_inner_product_trace_cells_index(rows.drop_last(), i, j);
        assert(i * NUM_COLS + j < (rows.len() - 1) * NUM_COLS) by (nonlinear_arith)
            requires i < rows.len() - 1, j < NUM_COLS;
    } else {
        assert(i * NUM_COLS == (rows.len() - 1) * NUM_COLS);
    }
}

proof fn lemma_inner_product_trace_cells_len(rows: Seq<InnerProductCols<u32>>)
    ensures
        inner_product_trace_cells(rows).len() == rows.len() * NUM_COLS,
    decreases rows.len(),
{
    if rows.len() > 0 {
        lemma_inner_product_trace_cells_len(rows.drop_last());
        lemma_inner_product_cells_layout(rows.last());
        assert(rows.len() * NUM_COLS == (rows.len() - 1) * NUM_COLS + NUM_COLS) by (nonlinear_arith);
    }
}

} // verus!
