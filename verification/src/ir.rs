//! Backend intermediate representation: functions as control-flow graphs of
//! basic blocks.
//!
//! A basic block is an ordered instruction sequence ending in exactly one
//! terminator; it is open until a terminator is appended and permanently
//! closed afterwards. The builder keeps one insertion point and refuses to
//! append to a closed block.

use vstd::prelude::*;
use crate::ast::{Operation, Type};

verus! {

/// A block's final control transfer.
pub enum Terminator {
    /// An unconditional jump.
    Branch { target: usize },
    /// A two-way branch on a boolean value.
    CondBranch { cond: usize, then_target: usize, else_target: usize },
    /// Function return, with a value unless the function produces none.
    Return { value: Option<usize> },
}

/// One instruction; `dst` names the value it defines.
pub enum Instruction {
    /// Reserves a stack slot of the given type; defines its address.
    Alloca { dst: usize, ty: Type },
    /// Reads a value of the given type from an address.
    Load { dst: usize, ty: Type, ptr: usize },
    /// Writes a value through an address.
    Store { ptr: usize, value: usize },
    /// A constant of the given primitive type, as raw bits.
    ConstInt { dst: usize, ty: Type, bits: u64 },
    /// Signed arithmetic or bitwise operation.
    Binary { dst: usize, op: Operation, lhs: usize, rhs: usize },
    /// An ordered signed or equality comparison; defines a boolean value.
    Compare { dst: usize, op: Operation, lhs: usize, rhs: usize },
    /// Arithmetic negation.
    Negate { dst: usize, src: usize },
    /// The address of one field inside a struct, from the struct's address.
    FieldPtr { dst: usize, struct_name: String, index: usize, base: usize },
    /// A direct call; `has_result` is false for void callees, whose `dst` is
    /// a never-read placeholder.
    Call { dst: usize, callee: String, args: Vec<usize>, has_result: bool },
}

/// A straight-line instruction sequence with one entry and at most one
/// terminator; closed once the terminator is set.
pub struct BasicBlock {
    pub instructions: Vec<Instruction>,
    pub terminator: Option<Terminator>,
}

/// One function body under construction: its control-flow graph, its value
/// numbering, and the current insertion point.
pub struct FunctionBuilder {
    pub name: String,
    pub params: Vec<Type>,
    pub return_type: Type,
    pub blocks: Vec<BasicBlock>,
    /// For every defined value id, whether it is an address.
    pub value_is_ptr: Vec<bool>,
    /// The block new instructions are appended to.
    pub current: usize,
}

/// Closed blocks never change again, and no block disappears.
pub open spec fn preserves_closed(pre: Seq<BasicBlock>, post: Seq<BasicBlock>) -> bool {
    &&& pre.len() <= post.len()
    &&& forall|b: int|
        0 <= b < pre.len() && (#[trigger] pre[b]).terminator is Some ==> post[b] == pre[b]
}

impl FunctionBuilder {
    /// The insertion point names a real block.
    pub open spec fn wf(&self) -> bool {
        self.current < self.blocks@.len()
    }

    /// Whether the insertion block is still open.
    pub open spec fn spec_open(&self) -> bool {
        self.blocks@[self.current as int].terminator is None
    }

    /// How many values have been defined.
    pub open spec fn value_count(&self) -> int {
        self.value_is_ptr@.len() as int
    }

    /// Whether a defined value is an address.
    pub open spec fn spec_is_ptr(&self, id: int) -> bool {
        self.value_is_ptr@[id]
    }

    /// Starts a function body: one open entry block, one value per
    /// parameter.
    pub fn new(name: String, params: Vec<Type>, return_type: Type) -> (r: Self)
        ensures
            r.wf(),
            r.spec_open(),
            r.blocks@.len() == 1,
            r.current == 0,
            r.blocks@[0].instructions@.len() == 0,
            r.value_count() == params@.len(),
            forall|id: int| 0 <= id < r.value_count() ==> !r.spec_is_ptr(id),
            r.name == name,
            r.params == params,
            r.return_type == return_type,
    {
        let mut blocks: Vec<BasicBlock> = Vec::new();
        blocks.push(BasicBlock { instructions: Vec::new(), terminator: Option::None });
        let mut value_is_ptr: Vec<bool> = Vec::new();
        let mut i: usize = 0;
        let np = params.len();
        while i < np
            invariant
                i <= np,
                value_is_ptr@.len() == i,
                forall|id: int| 0 <= id < i ==> !value_is_ptr@[id],
            decreases np - i,
        {
            value_is_ptr.push(false);
            i = i + 1;
        }
        FunctionBuilder { name, params, return_type, blocks, value_is_ptr, current: 0 }
    }

    /// Defines a fresh value id.
    pub fn fresh_value(&mut self, is_ptr: bool) -> (id: usize)
        ensures
            id as int == old(self).value_count(),
            final(self).value_count() == old(self).value_count() + 1,
            final(self).spec_is_ptr(id as int) == is_ptr,
            forall|v: int|
                0 <= v < old(self).value_count() ==> #[trigger] final(self).value_is_ptr@[v]
                    == old(self).value_is_ptr@[v],
            final(self).blocks == old(self).blocks,
            final(self).current == old(self).current,
            final(self).name == old(self).name,
            final(self).params == old(self).params,
            final(self).return_type == old(self).return_type,
    {
        let id = self.value_is_ptr.len();
        self.value_is_ptr.push(is_ptr);
        id
    }

    /// Whether a defined value is an address.
    pub fn is_pointer(&self, id: usize) -> (r: bool)
        requires
            (id as int) < self.value_count(),
        ensures
            r == self.spec_is_ptr(id as int),
    {
        self.value_is_ptr[id]
    }

    /// Allocates a new open block at the end of the function; the insertion
    /// point does not move.
    pub fn append_block(&mut self) -> (b: usize)
        ensures
            b == old(self).blocks@.len(),
            final(self).blocks@.len() == old(self).blocks@.len() + 1,
            forall|k: int|
                0 <= k < old(self).blocks@.len() ==> final(self).blocks@[k] == old(self).blocks@[k],
            final(self).blocks@.last().instructions@.len() == 0,
            final(self).blocks@.last().terminator is None,
            preserves_closed(old(self).blocks@, final(self).blocks@),
            final(self).current == old(self).current,
            final(self).value_is_ptr == old(self).value_is_ptr,
            final(self).name == old(self).name,
            final(self).params == old(self).params,
            final(self).return_type == old(self).return_type,
    {
        let b = self.blocks.len();
        self.blocks.push(BasicBlock { instructions: Vec::new(), terminator: Option::None });
        b
    }

    /// Moves the insertion point.
    pub fn position_at_end(&mut self, b: usize)
        requires
            b < old(self).blocks@.len(),
        ensures
            final(self).current == b,
            final(self).blocks == old(self).blocks,
            final(self).value_is_ptr == old(self).value_is_ptr,
            final(self).name == old(self).name,
            final(self).params == old(self).params,
            final(self).return_type == old(self).return_type,
    {
        self.current = b;
    }

    /// The insertion point.
    pub fn current_block(&self) -> (b: usize)
        ensures
            b == self.current,
    {
        self.current
    }

    /// Whether the insertion block is still open.
    pub fn is_open(&self) -> (r: bool)
        requires
            self.wf(),
        ensures
            r == self.spec_open(),
    {
        match &self.blocks[self.current].terminator {
            Option::None => true,
            Option::Some(_) => false,
        }
    }

    /// Appends one instruction to the insertion block, which must be open.
    pub fn emit(&mut self, instr: Instruction)
        requires
            old(self).wf(),
            old(self).spec_open(),
        ensures
            final(self).wf(),
            final(self).spec_open(),
            final(self).blocks@.len() == old(self).blocks@.len(),
            final(self).current == old(self).current,
            forall|k: int|
                0 <= k < old(self).blocks@.len() && k != old(self).current ==> final(self).blocks@[k] == old(self).blocks@[k],
            final(self).blocks@[old(self).current as int].instructions@
                == old(self).blocks@[old(self).current as int].instructions@.push(instr),
            final(self).blocks@[old(self).current as int].terminator is None,
            preserves_closed(old(self).blocks@, final(self).blocks@),
            final(self).value_is_ptr == old(self).value_is_ptr,
            final(self).name == old(self).name,
            final(self).params == old(self).params,
            final(self).return_type == old(self).return_type,
    {
        let cur = self.current;
        let mut b = self.blocks.remove(cur);
        b.instructions.push(instr);
        self.blocks.insert(cur, b);
        proof {
            assert(final(self).blocks@ =~= old(self).blocks@.update(
                cur as int,
                final(self).blocks@[cur as int],
            ));
        }
    }

    /// Closes the insertion block with its terminator.
    pub fn terminate(&mut self, term: Terminator)
        requires
            old(self).wf(),
            old(self).spec_open(),
        ensures
            final(self).wf(),
            !final(self).spec_open(),
            final(self).blocks@.len() == old(self).blocks@.len(),
            final(self).current == old(self).current,
            forall|k: int|
                0 <= k < old(self).blocks@.len() && k != old(self).current ==> final(self).blocks@[k] == old(self).blocks@[k],
            final(self).blocks@[old(self).current as int].instructions@
                == old(self).blocks@[old(self).current as int].instructions@,
            final(self).blocks@[old(self).current as int].terminator == Option::Some(term),
            preserves_closed(old(self).blocks@, final(self).blocks@),
            final(self).value_is_ptr == old(self).value_is_ptr,
            final(self).name == old(self).name,
            final(self).params == old(self).params,
            final(self).return_type == old(self).return_type,
    {
        let cur = self.current;
        let mut b = self.blocks.remove(cur);
        b.terminator = Option::Some(term);
        self.blocks.insert(cur, b);
        proof {
            assert(final(self).blocks@ =~= old(self).blocks@.update(
                cur as int,
                final(self).blocks@[cur as int],
            ));
        }
    }
}

impl FunctionBuilder {
    /// Whether every block of the body carries its terminator; structural
    /// verification requires it.
    pub fn all_terminated(&self) -> (r: bool)
        ensures
            r == (forall|b: int|
                0 <= b < self.blocks@.len() ==> (#[trigger] self.blocks@[b]).terminator is Some),
    {
        let mut b: usize = 0;
        while b < self.blocks.len()
            invariant
                b <= self.blocks@.len(),
                forall|k: int| 0 <= k < b ==> (#[trigger] self.blocks@[k]).terminator is Some,
            decreases self.blocks@.len() - b,
        {
            match &self.blocks[b].terminator {
                Option::None => {
                    return false;
                },
                Option::Some(_) => {},
            }
            b = b + 1;
        }
        true
    }
}

/// A finished function body.
pub struct IrFunction {
    pub name: String,
    pub params: Vec<Type>,
    pub return_type: Type,
    pub blocks: Vec<BasicBlock>,
    pub value_is_ptr: Vec<bool>,
}

impl FunctionBuilder {
    /// Finishes the body; every block of a finished function carries exactly
    /// one terminator.
    pub fn finish(self) -> (r: IrFunction)
        requires
            forall|b: int|
                0 <= b < self.blocks@.len() ==> (#[trigger] self.blocks@[b]).terminator is Some,
        ensures
            r.name == self.name,
            r.params == self.params,
            r.return_type == self.return_type,
            r.blocks == self.blocks,
            r.value_is_ptr == self.value_is_ptr,
            forall|b: int|
                0 <= b < r.blocks@.len() ==> (#[trigger] r.blocks@[b]).terminator is Some,
    {
        IrFunction {
            name: self.name,
            params: self.params,
            return_type: self.return_type,
            blocks: self.blocks,
            value_is_ptr: self.value_is_ptr,
        }
    }
}

/// A lowered program: every function and method body, plus the external
/// declarations the linker must resolve.
pub struct IrModule {
    pub functions: Vec<IrFunction>,
}

} // verus!
