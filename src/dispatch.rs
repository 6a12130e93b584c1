//! The server side: which handler serves which operation, and what a
//! request frame turns into.
use vstd::prelude::*;
use crate::opcode::OpCode;

verus! {

/// Number of operation codes.
pub const N_OPCODES: usize = 14;

/// The operations a server serves and the handler of each. It is filled
/// once, at start, and a second registration of one operation is refused.
pub struct HandlerTable<H> {
    slots: Vec<Option<H>>,
}

/// Registration as the contracts see it: `h` is added for `op`, unless `op`
/// already has a handler.
pub open spec fn spec_register<H>(m: Map<OpCode, H>, op: OpCode, h: H) -> Result<Map<OpCode, H>, ()> {
    if m.contains_key(op) {
        Err(())
    } else {
        Ok(m.insert(op, h))
    }
}

impl<H: Copy> HandlerTable<H> {
    pub closed spec fn view(&self) -> Map<OpCode, H> {
        Map::new(
            |op: OpCode| self.slots@[op.spec_code() as int] is Some,
            |op: OpCode| self.slots@[op.spec_code() as int]->Some_0,
        )
    }

    pub closed spec fn wf(&self) -> bool {
        self.slots@.len() == N_OPCODES
    }

    /// A table with no operation registered.
    pub fn new() -> (r: Self)
        ensures
            r.wf(),
            r@ == Map::<OpCode, H>::empty(),
    {
        let mut slots: Vec<Option<H>> = Vec::new();
        let mut i: usize = 0;
        while i < N_OPCODES
            invariant
                i <= N_OPCODES,
                slots@.len() == i,
                forall|j: int| 0 <= j < i ==> slots@[j] is None,
            decreases N_OPCODES - i,
        {
            slots.push(None);
            i = i + 1;
        }
        let r = HandlerTable { slots };
        assert(r@ =~= Map::<OpCode, H>::empty());
        r
    }

    /// Makes `h` the handler of `op`; fails, changing nothing, when `op`
    /// already has one.
    pub fn register(&mut self, op: OpCode, h: H) -> (r: Result<(), crate::frame::RpcError>)
        requires
            old(self).wf(),
        ensures
            final(self).wf(),
            match spec_register(old(self)@, op, h) {
                Ok(m) => r is Ok && final(self)@ == m,
                Err(_) => r == Err::<(), crate::frame::RpcError>(
                    crate::frame::RpcError::DuplicateRegistration,
                ) && final(self)@ == old(self)@,
            },
    {
        let i = op.code() as usize;
        if self.slots[i].is_some() {
            return Err(crate::frame::RpcError::DuplicateRegistration);
        }
        self.slots.set(i, Some(h));
        proof {
            assert forall|o: OpCode| #![auto] o.spec_code() == op.spec_code() ==> o == op by {
                crate::opcode::lemma_code_injective(o, op);
            }
            assert(self@ =~= old(self)@.insert(op, h));
        }
        Ok(())
    }

    /// The handler of `op`, if it has one.
    pub fn get(&self, op: OpCode) -> (r: Option<H>)
        requires
            self.wf(),
        ensures
            r == (if self@.contains_key(op) {
                Some(self@[op])
            } else {
                None
            }),
    {
        let i = op.code() as usize;
        self.slots[i]
    }
}

/// Registering one operation twice fails the second time, whatever the two
/// handlers are.
pub proof fn lemma_register_twice<H>(m: Map<OpCode, H>, op: OpCode, h1: H, h2: H)
    requires
        spec_register(m, op, h1) is Ok,
    ensures
        spec_register(spec_register(m, op, h1)->Ok_0, op, h2) is Err,
{
}

} // verus!
