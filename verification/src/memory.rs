//! Memory records of the executor and the memory columns of a trace row.

use vstd::prelude::*;
use crate::field::{vanishes, vanishes_difference};

verus! {

/// The state of one word of memory: its value and the time of its last access.
#[derive(Clone, Copy, Debug, PartialEq, Eq, Structural)]
pub struct MemoryRecord {
    pub shard: u32,
    pub timestamp: u32,
    pub value: u32,
}

/// A read of one word: the value read, when it was read, and when the word was last accessed before.
#[derive(Clone, Copy, Debug, PartialEq, Eq, Structural)]
pub struct MemoryReadRecord {
    pub value: u32,
    pub shard: u32,
    pub timestamp: u32,
    pub prev_shard: u32,
    pub prev_timestamp: u32,
}

/// A write of one word: the value written, the value it replaced, and both access times.
#[derive(Clone, Copy, Debug, PartialEq, Eq, Structural)]
pub struct MemoryWriteRecord {
    pub value: u32,
    pub shard: u32,
    pub timestamp: u32,
    pub prev_value: u32,
    pub prev_shard: u32,
    pub prev_timestamp: u32,
}

/// The first and the last state of one address touched during a syscall.
#[derive(Clone, Copy, Debug, PartialEq, Eq, Structural)]
pub struct MemoryLocalEvent {
    pub addr: u32,
    pub initial_mem_access: MemoryRecord,
    pub final_mem_access: MemoryRecord,
}

/// A range check that the trace hands to the byte lookup table.
#[derive(Clone, Copy, Debug, PartialEq, Eq, Structural)]
pub enum ByteLookupEvent {
    U16Range { shard: u32, value: u16 },
    U8Range { shard: u32, value: u8 },
}

/// The four little-endian bytes of a word.
#[derive(Clone, Copy, Debug)]
pub struct Word<T>(pub [T; 4]);

/// The columns of one memory access.
#[derive(Clone, Copy, Debug)]
pub struct MemoryAccessCols<T> {
    pub value: Word<T>,
    pub prev_shard: T,
    pub prev_clk: T,
    pub compare_clk: T,
    pub diff_16bit_limb: T,
    pub diff_8bit_limb: T,
}

/// The columns of one memory read.
#[derive(Clone, Copy, Debug)]
pub struct MemoryReadCols<T> {
    pub access: MemoryAccessCols<T>,
}

/// The columns of one memory write.
#[derive(Clone, Copy, Debug)]
pub struct MemoryWriteCols<T> {
    pub prev_value: Word<T>,
    pub access: MemoryAccessCols<T>,
}

/// Byte `i` (little-endian) of `v`.
pub open spec fn byte_of(v: u32, i: int) -> u32 {
    ((v as int / pow256(i)) % 256) as u32
}

pub open spec fn pow256(i: int) -> int {
    if i <= 0 {
        1
    } else if i == 1 {
        256
    } else if i == 2 {
        65536
    } else {
        16777216
    }
}

/// The little-endian bytes of `v`.
pub open spec fn word_spec(v: u32) -> Word<u32> {
    Word([byte_of(v, 0), byte_of(v, 1), byte_of(v, 2), byte_of(v, 3)])
}

/// The word of four zero bytes.
pub open spec fn zero_word() -> Word<u32> {
    Word([0u32, 0u32, 0u32, 0u32])
}

/// The value of a word of cells, as an integer.
pub open spec fn word_value(w: Word<u32>) -> int {
    w.0[0] + 256 * w.0[1] + 65536 * w.0[2] + 16777216 * w.0[3]
}

/// `cur` happens after `prev`: in a later shard, or later in the same shard.
pub open spec fn is_after(cur: MemoryRecord, prev: MemoryRecord) -> bool {
    prev.shard < cur.shard || (prev.shard == cur.shard && prev.timestamp < cur.timestamp)
}

/// The gap, less one, between two accesses: in clock cycles within a shard, in shards across shards.
pub open spec fn time_gap_minus_one(cur: MemoryRecord, prev: MemoryRecord) -> int {
    if prev.shard == cur.shard {
        cur.timestamp - prev.timestamp - 1
    } else {
        cur.shard - prev.shard - 1
    }
}

/// The access columns of an access at `cur` that follows an access at `prev`.
pub open spec fn access_cols_of(cur: MemoryRecord, prev: MemoryRecord) -> MemoryAccessCols<u32> {
    let d = time_gap_minus_one(cur, prev);
    MemoryAccessCols {
        value: word_spec(cur.value),
        prev_shard: prev.shard,
        prev_clk: prev.timestamp,
        compare_clk: if prev.shard == cur.shard { 1 } else { 0 },
        diff_16bit_limb: (d % 65536) as u32,
        diff_8bit_limb: ((d / 65536) % 256) as u32,
    }
}

/// The two limbs of an access's columns add back up to the gap, less one, since the access
/// before it, whenever that gap fits in 24 bits; and `compare_clk` is boolean.
pub proof fn lemma_access_limbs_encode_gap(cur: MemoryRecord, prev: MemoryRecord)
    requires
        is_after(cur, prev),
        time_gap_minus_one(cur, prev) < 0x100_0000,
    ensures
        access_cols_of(cur, prev).diff_16bit_limb + 65536 * access_cols_of(cur, prev).diff_8bit_limb
            == time_gap_minus_one(cur, prev),
        access_cols_of(cur, prev).compare_clk == 0 || access_cols_of(cur, prev).compare_clk == 1,
{
    let d = time_gap_minus_one(cur, prev);
    assert(d >= 0);
    assert((d / 65536) % 256 == d / 65536) by {
        vstd::arithmetic::div_mod::lemma_div_is_ordered(d, 0xff_ffff, 65536);
        vstd::arithmetic::div_mod::lemma_small_mod((d / 65536) as nat, 256);
    }
    vstd::arithmetic::div_mod::lemma_fundamental_div_mod(d, 65536);
}

/// The range checks an access at `cur` after `prev` asks of the byte table.
pub open spec fn access_lookups_of(cur: MemoryRecord, prev: MemoryRecord) -> Seq<ByteLookupEvent> {
    let d = time_gap_minus_one(cur, prev);
    seq![
        ByteLookupEvent::U16Range { shard: cur.shard, value: (d % 65536) as u16 },
        ByteLookupEvent::U8Range { shard: cur.shard, value: ((d / 65536) % 256) as u8 },
    ]
}

impl MemoryReadRecord {
    pub open spec fn current(self) -> MemoryRecord {
        MemoryRecord { shard: self.shard, timestamp: self.timestamp, value: self.value }
    }

    pub open spec fn previous(self) -> MemoryRecord {
        MemoryRecord { shard: self.prev_shard, timestamp: self.prev_timestamp, value: self.value }
    }

    /// The read happened after the access before it.
    pub open spec fn is_ordered(self) -> bool {
        is_after(self.current(), self.previous())
    }

    /// Whether the read happened after the access before it.
    pub fn ordered(&self) -> (b: bool)
        ensures
            b == self.is_ordered(),
    {
        self.prev_shard < self.shard || (self.prev_shard == self.shard && self.prev_timestamp < self.timestamp)
    }
}

impl MemoryWriteRecord {
    pub open spec fn current(self) -> MemoryRecord {
        MemoryRecord { shard: self.shard, timestamp: self.timestamp, value: self.value }
    }

    pub open spec fn previous(self) -> MemoryRecord {
        MemoryRecord { shard: self.prev_shard, timestamp: self.prev_timestamp, value: self.prev_value }
    }

    /// The write happened after the access before it.
    pub open spec fn is_ordered(self) -> bool {
        is_after(self.current(), self.previous())
    }

    /// Whether the write happened after the access before it.
    pub fn ordered(&self) -> (b: bool)
        ensures
            b == self.is_ordered(),
    {
        self.prev_shard < self.shard || (self.prev_shard == self.shard && self.prev_timestamp < self.timestamp)
    }
}

/// The bytes of `v` add back up to `v`.
pub proof fn lemma_word_value_of(v: u32)
    ensures
        word_value(word_spec(v)) == v,
{
    assert(v % 256 + 256 * ((v / 256) % 256) + 65536 * ((v / 65536) % 256) + 16777216 * ((v / 16777216) % 256) == v)
        by (bit_vector);
    assert(pow256(0) == 1);
    assert(byte_of(v, 0) == v % 256);
    assert(byte_of(v, 1) == (v / 256) % 256);
    assert(byte_of(v, 2) == (v / 65536) % 256);
    assert(byte_of(v, 3) == (v / 16777216) % 256);
}

/// The value of a word of cells.
pub fn word_to_u64(w: &Word<u32>) -> (v: u64)
    ensures
        v == word_value(*w),
        v <= 72340172804390655,
{
    w.0[0] as u64 + 256 * (w.0[1] as u64) + 65536 * (w.0[2] as u64) + 16777216 * (w.0[3] as u64)
}

/// The little-endian bytes of `v`.
pub fn word_from_u32(v: u32) -> (w: Word<u32>)
    ensures
        w == word_spec(v),
        word_value(w) == v,
        forall|i: int| 0 <= i < 4 ==> #[trigger] w.0[i] < 256,
{
    let b0 = v & 0xff;
    let b1 = (v >> 8) & 0xff;
    let b2 = (v >> 16) & 0xff;
    let b3 = v >> 24;
    assert(b0 == v % 256) by (bit_vector)
        requires b0 == v & 0xff;
    assert(b1 == (v / 256) % 256) by (bit_vector)
        requires b1 == (v >> 8) & 0xff;
    assert(b2 == (v / 65536) % 256) by (bit_vector)
        requires b2 == (v >> 16) & 0xff;
    assert(b3 == (v / 16777216) % 256) by (bit_vector)
        requires b3 == v >> 24;
    assert(b0 + 256 * b1 + 65536 * b2 + 16777216 * b3 == v) by (bit_vector)
        requires
            b0 == v & 0xff,
            b1 == (v >> 8) & 0xff,
            b2 == (v >> 16) & 0xff,
            b3 == v >> 24;
    let w = Word([b0, b1, b2, b3]);
    assert(pow256(0) == 1);
    assert(w.0 =~= word_spec(v).0);
    w
}

/// The time-gap columns of an access at `cur` after `prev`, and the range checks they need.
fn populate_access(
    cols: &mut MemoryAccessCols<u32>,
    cur: MemoryRecord,
    prev: MemoryRecord,
    lookups: &mut Vec<ByteLookupEvent>,
)
    requires
        is_after(cur, prev),
    ensures
        *final(cols) == access_cols_of(cur, prev),
        final(lookups)@ == old(lookups)@ + access_lookups_of(cur, prev),
{
    cols.value = word_from_u32(cur.value);
    cols.prev_shard = prev.shard;
    cols.prev_clk = prev.timestamp;
    let use_clk_comparison = prev.shard == cur.shard;
    cols.compare_clk = if use_clk_comparison { 1 } else { 0 };
    let prev_time_value = if use_clk_comparison { prev.timestamp } else { prev.shard };
    let current_time_value = if use_clk_comparison { cur.timestamp } else { cur.shard };
    let diff_minus_one: u32 = current_time_value - prev_time_value - 1;
    let diff_16bit_limb: u32 = diff_minus_one & 0xffff;
    let diff_8bit_limb: u32 = (diff_minus_one >> 16) & 0xff;
    assert(diff_16bit_limb == diff_minus_one % 65536) by (bit_vector)
        requires diff_16bit_limb == diff_minus_one & 0xffff;
    assert(diff_8bit_limb == (diff_minus_one / 65536) % 256) by (bit_vector)
        requires diff_8bit_limb == (diff_minus_one >> 16) & 0xff;
    cols.diff_16bit_limb = diff_16bit_limb;
    cols.diff_8bit_limb = diff_8bit_limb;
    lookups.push(ByteLookupEvent::U16Range { shard: cur.shard, value: diff_16bit_limb as u16 });
    lookups.push(ByteLookupEvent::U8Range { shard: cur.shard, value: diff_8bit_limb as u8 });
    proof {
        let ghost expected = access_cols_of(cur, prev);
        assert(diff_minus_one == time_gap_minus_one(cur, prev));
        assert(lookups@ =~= old(lookups)@ + access_lookups_of(cur, prev));
    }
}

/// A memory access with every cell zero: the columns of a padding row.
pub fn zero_access_cols() -> (cols: MemoryAccessCols<u32>)
    ensures
        cols == zero_access_spec(),
{
    MemoryAccessCols {
        value: Word([0, 0, 0, 0]),
        prev_shard: 0,
        prev_clk: 0,
        compare_clk: 0,
        diff_16bit_limb: 0,
        diff_8bit_limb: 0,
    }
}

pub open spec fn zero_access_spec() -> MemoryAccessCols<u32> {
    MemoryAccessCols {
        value: zero_word(),
        prev_shard: 0,
        prev_clk: 0,
        compare_clk: 0,
        diff_16bit_limb: 0,
        diff_8bit_limb: 0,
    }
}

impl MemoryReadCols<u32> {
    /// The columns of a read: its value and the gap since the access before it.
    pub fn populate(&mut self, record: MemoryReadRecord, lookups: &mut Vec<ByteLookupEvent>)
        requires
            record.is_ordered(),
        ensures
            final(self).access == access_cols_of(record.current(), record.previous()),
            final(lookups)@ == old(lookups)@ + access_lookups_of(record.current(), record.previous()),
    {
        let cur = MemoryRecord { shard: record.shard, timestamp: record.timestamp, value: record.value };
        let prev = MemoryRecord {
            shard: record.prev_shard,
            timestamp: record.prev_timestamp,
            value: record.value,
        };
        populate_access(&mut self.access, cur, prev, lookups);
    }

    pub fn zero() -> (cols: Self)
        ensures
            cols.access == zero_access_spec(),
    {
        MemoryReadCols { access: zero_access_cols() }
    }
}

impl MemoryWriteCols<u32> {
    /// The columns of a write: the value it replaced, the value written and the gap since the access before it.
    pub fn populate(&mut self, record: MemoryWriteRecord, lookups: &mut Vec<ByteLookupEvent>)
        requires
            record.is_ordered(),
        ensures
            final(self).prev_value == word_spec(record.prev_value),
            final(self).access == access_cols_of(record.current(), record.previous()),
            final(lookups)@ == old(lookups)@ + access_lookups_of(record.current(), record.previous()),
    {
        let cur = MemoryRecord { shard: record.shard, timestamp: record.timestamp, value: record.value };
        let prev = MemoryRecord {
            shard: record.prev_shard,
            timestamp: record.prev_timestamp,
            value: record.prev_value,
        };
        self.prev_value = word_from_u32(record.prev_value);
        populate_access(&mut self.access, cur, prev, lookups);
    }

    pub fn zero() -> (cols: Self)
        ensures
            cols.prev_value == zero_word(),
            cols.access == zero_access_spec(),
    {
        let cols = MemoryWriteCols { prev_value: Word([0, 0, 0, 0]), access: zero_access_cols() };
        assert(cols.prev_value.0 =~= zero_word().0);
        cols
    }
}

/// The cells of an access, in column order.
pub open spec fn access_cells(a: MemoryAccessCols<u32>) -> Seq<u32> {
    a.value.0@ + seq![a.prev_shard, a.prev_clk, a.compare_clk, a.diff_16bit_limb, a.diff_8bit_limb]
}

/// The cells of a read, in column order.
pub open spec fn read_cells(r: MemoryReadCols<u32>) -> Seq<u32> {
    access_cells(r.access)
}

/// The cells of a write, in column order.
pub open spec fn write_cells(w: MemoryWriteCols<u32>) -> Seq<u32> {
    w.prev_value.0@ + access_cells(w.access)
}

/// Appends the cells of a word.
pub fn push_word_cells(out: &mut Vec<u32>, w: &Word<u32>)
    ensures
        final(out)@ == old(out)@ + w.0@,
{
    out.push(w.0[0]);
    out.push(w.0[1]);
    out.push(w.0[2]);
    out.push(w.0[3]);
    assert(out@ =~= old(out)@ + w.0@);
}

/// Appends the cells of an access.
pub fn push_access_cells(out: &mut Vec<u32>, a: &MemoryAccessCols<u32>)
    ensures
        final(out)@ == old(out)@ + access_cells(*a),
{
    push_word_cells(out, &a.value);
    out.push(a.prev_shard);
    out.push(a.prev_clk);
    out.push(a.compare_clk);
    out.push(a.diff_16bit_limb);
    out.push(a.diff_8bit_limb);
    assert(out@ =~= old(out)@ + access_cells(*a));
}

impl MemoryReadCols<u32> {
    /// Appends the cells of this read.
    pub fn push_cells(&self, out: &mut Vec<u32>)
        ensures
            final(out)@ == old(out)@ + read_cells(*self),
    {
        push_access_cells(out, &self.access);
    }
}

impl MemoryWriteCols<u32> {
    /// Appends the cells of this write.
    pub fn push_cells(&self, out: &mut Vec<u32>)
        ensures
            final(out)@ == old(out)@ + write_cells(*self),
    {
        push_word_cells(out, &self.prev_value);
        push_access_cells(out, &self.access);
        assert(out@ =~= old(out)@ + write_cells(*self));
    }
}

/// The columns `cols` describe the read `rec`: the word they hold is the value read, and
/// they hold the shard and clock of the access before it, comparing clocks exactly where
/// both accesses fall in one shard.
pub open spec fn read_holds(cols: MemoryReadCols<u32>, rec: MemoryReadRecord) -> bool {
    &&& word_value(cols.access.value) == rec.value
    &&& cols.access.prev_shard == rec.prev_shard
    &&& cols.access.prev_clk == rec.prev_timestamp
    &&& (cols.access.compare_clk == 1) == (rec.prev_shard == rec.shard)
}

/// The columns `cols` describe the write `rec`: the word before it is the value replaced,
/// the word after it is the value written, and they hold the time of the access before it.
pub open spec fn write_holds(cols: MemoryWriteCols<u32>, rec: MemoryWriteRecord) -> bool {
    &&& word_value(cols.prev_value) == rec.prev_value
    &&& word_value(cols.access.value) == rec.value
    &&& cols.access.prev_shard == rec.prev_shard
    &&& cols.access.prev_clk == rec.prev_timestamp
    &&& (cols.access.compare_clk == 1) == (rec.prev_shard == rec.shard)
}

/// The access columns of a read describe that read.
pub proof fn lemma_read_cols_hold(rec: MemoryReadRecord)
    ensures
        read_holds(MemoryReadCols { access: access_cols_of(rec.current(), rec.previous()) }, rec),
{
    lemma_word_value_of(rec.value);
}

/// The columns of a write describe that write.
pub proof fn lemma_write_cols_hold(rec: MemoryWriteRecord)
    ensures
        write_holds(
            MemoryWriteCols {
                prev_value: word_spec(rec.prev_value),
                access: access_cols_of(rec.current(), rec.previous()),
            },
            rec,
        ),
{
    lemma_word_value_of(rec.value);
    lemma_word_value_of(rec.prev_value);
}

/// From index `base` on, `cells` holds the columns of the access `a`: the four bytes of its
/// word, then the shard and clock of the access before, `compare_clk` and the two limbs.
pub open spec fn holds_access_at(cells: Seq<u32>, base: int, a: MemoryAccessCols<u32>) -> bool {
    &&& cells[base] == a.value.0[0]
    &&& cells[base + 1] == a.value.0[1]
    &&& cells[base + 2] == a.value.0[2]
    &&& cells[base + 3] == a.value.0[3]
    &&& cells[base + 4] == a.prev_shard
    &&& cells[base + 5] == a.prev_clk
    &&& cells[base + 6] == a.compare_clk
    &&& cells[base + 7] == a.diff_16bit_limb
    &&& cells[base + 8] == a.diff_8bit_limb
}

/// The checks on the columns of one memory access made at `(shard, clk)`, each multiplied by
/// `do_check`: `compare_clk` is boolean; where it is set, the access before was in the same
/// shard; and the two limbs add up to the gap, less one, between the two accesses, in clock
/// cycles where `compare_clk` is set and in shards where it is not.
pub open spec fn access_constraints(
    access: MemoryAccessCols<u32>,
    shard: int,
    clk: int,
    do_check: int,
    order: int,
) -> bool {
    let c = access.compare_clk as int;
    let prev_time = c * access.prev_clk + (1 - c) * access.prev_shard;
    let cur_time = c * clk + (1 - c) * shard;
    &&& vanishes(do_check * (c * (c - 1)), order)
    &&& vanishes(do_check * (c * (shard - access.prev_shard)), order)
    &&& vanishes(
        do_check * (cur_time - prev_time - 1 - (access.diff_16bit_limb + 65536 * access.diff_8bit_limb)),
        order,
    )
}

/// Whether the columns of a memory access made at `(shard, clk)` meet the access checks,
/// multiplied by `do_check`, in the field of order `order`.
pub fn eval_access(access: &MemoryAccessCols<u32>, shard: u32, clk: u64, do_check: u32, order: u32) -> (b: bool)
    requires
        order > 0,
        clk <= 0x1_0000_0000,
    ensures
        b == access_constraints(*access, shard as int, clk as int, do_check as int, order as int),
{
    let d = do_check as u128;
    let c = access.compare_clk as u128;
    let sh = shard as u128;
    let ck = clk as u128;
    let ps = access.prev_shard as u128;
    let pc = access.prev_clk as u128;
    let l16 = access.diff_16bit_limb as u128;
    let l8 = access.diff_8bit_limb as u128;
    let m: u128 = 0x1_0000_0000;
    assert(c * c <= m * m && c * sh <= m * m && c * ps <= m * m && c * pc <= m * m && c * ck <= m * m)
        by (nonlinear_arith)
        requires c < m, sh < m, ps < m, pc < m, ck <= m;
    assert(d * (c * c) <= m * (m * m) && d * c <= m * m && d * (c * sh) <= m * (m * m)
        && d * (c * ps) <= m * (m * m)) by (nonlinear_arith)
        requires d < m, c * c <= m * m, c < m, c * sh <= m * m, c * ps <= m * m;
    let bool_ok = vanishes_difference(d * (c * c), d * c, order);
    assert(d * (c * c) - d * c == d * (c * (c - 1))) by (nonlinear_arith);
    let shard_ok = vanishes_difference(d * (c * sh), d * (c * ps), order);
    assert(d * (c * sh) - d * (c * ps) == d * (c * (sh - ps))) by (nonlinear_arith);
    let pos_in = c * ck + sh + c * ps;
    let neg_in = c * sh + c * pc + ps + 1 + l16 + 65536 * l8;
    assert(pos_in <= 4 * m * m && neg_in <= 4 * m * m) by (nonlinear_arith)
        requires
            c * ck <= m * m, c * ps <= m * m, c * sh <= m * m, c * pc <= m * m,
            sh < m, ps < m, l16 < m, l8 < m, m == 0x1_0000_0000,
            pos_in == c * ck + sh + c * ps,
            neg_in == c * sh + c * pc + ps + 1 + l16 + 65536 * l8;
    assert(d * pos_in <= m * (4 * m * m) && d * neg_in <= m * (4 * m * m)) by (nonlinear_arith)
        requires d < m, pos_in <= 4 * m * m, neg_in <= 4 * m * m;
    let gap_ok = vanishes_difference(d * pos_in, d * neg_in, order);
    proof {
        let cur_time = c * ck + (1 - c) * sh;
        let prev_time = c * pc + (1 - c) * ps;
        assert(d * pos_in - d * neg_in == d * (cur_time - prev_time - 1 - (l16 + 65536 * l8)))
            by (nonlinear_arith)
            requires
                pos_in == c * ck + sh + c * ps,
                neg_in == c * sh + c * pc + ps + 1 + l16 + 65536 * l8,
                cur_time == c * ck + (1 - c) * sh,
                prev_time == c * pc + (1 - c) * ps;
    }
    bool_ok && shard_ok && gap_ok
}

/// The columns of an access after an earlier one meet the access checks, when the gap
/// between them fits in 24 bits.
pub proof fn lemma_access_cols_meet_constraints(cur: MemoryRecord, prev: MemoryRecord, order: int)
    requires
        is_after(cur, prev),
        time_gap_minus_one(cur, prev) < 0x100_0000,
        order > 0,
    ensures
        access_constraints(access_cols_of(cur, prev), cur.shard as int, cur.timestamp as int, 1, order),
{
    lemma_access_limbs_encode_gap(cur, prev);
    let a = access_cols_of(cur, prev);
    let c = a.compare_clk as int;
    if c == 1 {
        assert(c * (c - 1) == 0);
        assert(c * (cur.shard - a.prev_shard) == 0);
        assert(c * cur.timestamp + (1 - c) * cur.shard == cur.timestamp);
        assert(c * a.prev_clk + (1 - c) * a.prev_shard == prev.timestamp);
    } else {
        assert(c * (c - 1) == 0);
        assert(c * (cur.shard - a.prev_shard) == 0);
        assert(c * cur.timestamp + (1 - c) * cur.shard == cur.shard);
        assert(c * a.prev_clk + (1 - c) * a.prev_shard == prev.shard);
    }
}

} // verus!
