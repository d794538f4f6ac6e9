//! What a row sends to the buses that chips share, beside the constraints it must meet.

use vstd::prelude::*;
use crate::events::SyscallCode;
use crate::memory::{MemoryAccessCols, MemoryReadCols, MemoryWriteCols, Word};

verus! {

/// A message that a row sends to a bus that other chips balance, with a multiplicity.
#[derive(Clone, Copy, Debug)]
pub enum Interaction {
    /// An access to the word at `addr` at `(shard, clk)`: the value before the access, and
    /// the access columns (value after the access, time of the access before, time gap).
    MemoryAccess {
        shard: u32,
        clk: u32,
        addr: u32,
        prev_value: Word<u32>,
        access: MemoryAccessCols<u32>,
        multiplicity: u32,
    },
    /// The receipt, in the shard's local scope, of the syscall `syscall_code` with its two
    /// arguments, made at `(shard, clk)`.
    SyscallReceive {
        shard: u32,
        clk: u32,
        nonce: Option<u32>,
        syscall_code: SyscallCode,
        arg1: u32,
        arg2: u32,
        multiplicity: u32,
    },
}

/// What evaluating a chip on a row gives: whether the row meets the chip's constraints, and
/// the interactions the row sends.
pub struct RowEvaluation {
    pub constraints_hold: bool,
    pub interactions: Vec<Interaction>,
}

/// `it` is the access to `addr` at `(shard, clk)` that reads the word the columns `cols`
/// hold and leaves it as it was, with multiplicity `multiplicity`.
pub open spec fn is_read_of(it: Interaction, shard: u32, clk: u32, addr: u32, cols: MemoryReadCols<u32>, multiplicity: u32) -> bool {
    match it {
        Interaction::MemoryAccess { shard: s, clk: c, addr: a, prev_value, access, multiplicity: m } => {
            &&& s == shard
            &&& c == clk
            &&& a == addr
            &&& access == cols.access
            &&& prev_value == cols.access.value
            &&& m == multiplicity
        },
        _ => false,
    }
}

/// `it` is the access to `addr` at `(shard, clk)` that replaces the word `cols.prev_value`
/// by the word of `cols.access`, with multiplicity `multiplicity`.
pub open spec fn is_write_of(it: Interaction, shard: u32, clk: u32, addr: u32, cols: MemoryWriteCols<u32>, multiplicity: u32) -> bool {
    match it {
        Interaction::MemoryAccess { shard: s, clk: c, addr: a, prev_value, access, multiplicity: m } => {
            &&& s == shard
            &&& c == clk
            &&& a == addr
            &&& access == cols.access
            &&& prev_value == cols.prev_value
            &&& m == multiplicity
        },
        _ => false,
    }
}

/// The canonical cell of `x + k` in the field of order `order`.
pub open spec fn field_add(x: int, k: int, order: int) -> u32 {
    ((x + k) % order) as u32
}

/// The canonical cell of `x + k` in the field of order `order`.
pub fn add_in_field(x: u32, k: u32, order: u32) -> (r: u32)
    requires
        order > 0,
    ensures
        r == field_add(x as int, k as int, order as int),
{
    ((x as u64 + k as u64) % (order as u64)) as u32
}

} // verus!
