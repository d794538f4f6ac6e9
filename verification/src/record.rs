//! The record of an execution: precompile events, byte lookups, and the trace shape.

use vstd::prelude::*;
use crate::events::{
    code_matches, AddMulEvent, InnerProductEvent, PrecompileEvent, SyscallCode, SyscallEvent,
};
use crate::memory::ByteLookupEvent;

verus! {

/// What an execution recorded for trace generation.
pub struct ExecutionRecord {
    /// The precompile events, in the order of the calls.
    pub precompile_events: Vec<(SyscallCode, SyscallEvent, PrecompileEvent)>,
    /// The range checks that trace generation asked of the byte table.
    pub byte_lookups: Vec<ByteLookupEvent>,
    /// Where the trace has a fixed shape: each chip's name and the log2 of its height.
    pub shape: Option<Vec<(String, usize)>>,
}

/// The AddMul events of `s`, in order.
pub open spec fn addmul_events(s: Seq<(SyscallCode, SyscallEvent, PrecompileEvent)>) -> Seq<AddMulEvent>
    decreases s.len(),
{
    if s.len() == 0 {
        seq![]
    } else {
        let before = addmul_events(s.drop_last());
        match s.last().2 {
            PrecompileEvent::ADDMul(e) => if s.last().0 == SyscallCode::ADD_MUL {
                before.push(e)
            } else {
                before
            },
            _ => before,
        }
    }
}

/// The inner-product events of `s`, in order.
pub open spec fn inner_product_events(s: Seq<(SyscallCode, SyscallEvent, PrecompileEvent)>) -> Seq<InnerProductEvent>
    decreases s.len(),
{
    if s.len() == 0 {
        seq![]
    } else {
        let before = inner_product_events(s.drop_last());
        match s.last().2 {
            PrecompileEvent::InnerProduct(e) => if s.last().0 == SyscallCode::INNER_PRODUCT {
                before.push(e)
            } else {
                before
            },
            _ => before,
        }
    }
}

/// Some event of `s` was recorded under `code`.
pub open spec fn has_code(s: Seq<(SyscallCode, SyscallEvent, PrecompileEvent)>, code: SyscallCode) -> bool {
    exists|i: int| 0 <= i < s.len() && (#[trigger] s[i]).0 == code
}

/// The log2 height that `shape` gives the chip `name`: its first entry of that name.
pub open spec fn shape_lookup(shape: Seq<(String, usize)>, name: Seq<char>) -> Option<usize>
    decreases shape.len(),
{
    if shape.len() == 0 {
        None
    } else if shape[0].0@ == name {
        Some(shape[0].1)
    } else {
        shape_lookup(shape.drop_first(), name)
    }
}

impl ExecutionRecord {
    /// Each event recorded under `code` is of the kind of `code`.
    pub open spec fn wf_for(&self, code: SyscallCode) -> bool {
        forall|i: int|
            0 <= i < self.precompile_events@.len() && (#[trigger] self.precompile_events@[i]).0 == code
                ==> code_matches(code, self.precompile_events@[i].2)
    }

    /// Whether each event recorded under `code` is of the kind of `code`.
    pub fn is_wf_for(&self, code: SyscallCode) -> (b: bool)
        ensures
            b == self.wf_for(code),
    {
        let n = self.precompile_events.len();
        let mut i: usize = 0;
        while i < n
            invariant
                n == self.precompile_events@.len(),
                i <= n,
                forall|j: int|
                    0 <= j < i && (#[trigger] self.precompile_events@[j]).0 == code ==> code_matches(
                        code,
                        self.precompile_events@[j].2,
                    ),
            decreases n - i,
        {
            let entry = &self.precompile_events[i];
            if entry.0 == code {
                let matches = match &entry.2 {
                    PrecompileEvent::ADDMul(_) => code == SyscallCode::ADD_MUL,
                    PrecompileEvent::InnerProduct(_) => code == SyscallCode::INNER_PRODUCT,
                };
                if !matches {
                    assert(!code_matches(code, self.precompile_events@[i as int].2));
                    return false;
                }
            }
            i = i + 1;
        }
        true
    }

    /// An empty record with no fixed shape.
    pub fn new() -> (r: Self)
        ensures
            r.precompile_events@.len() == 0,
            r.byte_lookups@.len() == 0,
            r.shape is None,
    {
        ExecutionRecord { precompile_events: Vec::new(), byte_lookups: Vec::new(), shape: None }
    }

    /// Records the event of one precompile call.
    pub fn add_precompile_event(
        &mut self,
        syscall_code: SyscallCode,
        syscall_event: SyscallEvent,
        event: PrecompileEvent,
    )
        ensures
            final(self).precompile_events@ == old(self).precompile_events@.push(
                (syscall_code, syscall_event, event),
            ),
            final(self).byte_lookups@ == old(self).byte_lookups@,
            final(self).shape == old(self).shape,
    {
        self.precompile_events.push((syscall_code, syscall_event, event));
    }

    /// Adds range checks for the byte table.
    pub fn add_byte_lookup_events(&mut self, events: Vec<ByteLookupEvent>)
        ensures
            final(self).byte_lookups@ == old(self).byte_lookups@ + events@,
            final(self).precompile_events@ == old(self).precompile_events@,
            final(self).shape == old(self).shape,
    {
        let mut events = events;
        self.byte_lookups.append(&mut events);
    }

    /// Moves the events of `other` to the end of this record's.
    pub fn append(&mut self, other: &mut ExecutionRecord)
        ensures
            final(self).byte_lookups@ == old(self).byte_lookups@ + old(other).byte_lookups@,
            final(self).precompile_events@ == old(self).precompile_events@ + old(
                other,
            ).precompile_events@,
            final(self).shape == old(self).shape,
            final(other).byte_lookups@.len() == 0,
            final(other).precompile_events@.len() == 0,
            final(other).shape == old(other).shape,
    {
        self.byte_lookups.append(&mut other.byte_lookups);
        self.precompile_events.append(&mut other.precompile_events);
    }

    /// Whether some event was recorded under `code`.
    pub fn has_precompile_events(&self, code: SyscallCode) -> (b: bool)
        ensures
            b == has_code(self.precompile_events@, code),
    {
        let n = self.precompile_events.len();
        let mut i: usize = 0;
        while i < n
            invariant
                n == self.precompile_events@.len(),
                i <= n,
                forall|j: int| 0 <= j < i ==> (#[trigger] self.precompile_events@[j]).0 != code,
            decreases n - i,
        {
            if self.precompile_events[i].0 == code {
                assert(self.precompile_events@[i as int].0 == code);
                return true;
            }
            i = i + 1;
        }
        false
    }

    /// The log2 height the shape fixes for the chip `name`, if the record has a shape.
    pub fn fixed_log2_rows(&self, name: &String) -> (r: Option<usize>)
        requires
            self.shape matches Some(shape) ==> shape_lookup(shape@, name@) is Some,
        ensures
            r == match self.shape {
                Some(shape) => shape_lookup(shape@, name@),
                None => None,
            },
    {
        match &self.shape {
            None => None,
            Some(shape) => {
                let n = shape.len();
                let mut i: usize = 0;
                assert(shape@.skip(0) =~= shape@);
                while i < n
                    invariant
                        self.shape == Some(*shape),
                        n == shape@.len(),
                        i <= n,
                        shape_lookup(shape@, name@) == shape_lookup(shape@.skip(i as int), name@),
                    decreases n - i,
                {
                    assert(shape@.skip(i as int).drop_first() =~= shape@.skip(i + 1));
                    assert(shape@.skip(i as int)[0] == shape@[i as int]);
                    if shape[i].0 == *name {
                        assert(shape@[i as int].0@ == name@);
                        assert(shape_lookup(shape@.skip(i as int), name@) == Some(shape@[i as int].1));
                        return Some(shape[i].1);
                    }
                    i = i + 1;
                }
                assert(shape@.skip(n as int) =~= Seq::<(String, usize)>::empty());
                None
            },
        }
    }

    /// Whether the shape has an entry for the chip `name`.
    pub fn shape_includes(shape: &Vec<(String, usize)>, name: &String) -> (b: bool)
        ensures
            b == (shape_lookup(shape@, name@) is Some),
    {
        let n = shape.len();
        let mut i: usize = 0;
        assert(shape@.skip(0) =~= shape@);
        while i < n
            invariant
                n == shape@.len(),
                i <= n,
                shape_lookup(shape@, name@) == shape_lookup(shape@.skip(i as int), name@),
            decreases n - i,
        {
            assert(shape@.skip(i as int).drop_first() =~= shape@.skip(i + 1));
            assert(shape@.skip(i as int)[0] == shape@[i as int]);
            if shape[i].0 == *name {
                return true;
            }
            i = i + 1;
        }
        assert(shape@.skip(n as int) =~= Seq::<(String, usize)>::empty());
        false
    }
}

} // verus!
