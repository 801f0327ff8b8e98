//! The slice of the SSA intermediate representation that the
//! reference-count pass reads and rewrites.
//!
//! Values, instructions and types are opaque identifiers: indices into the
//! per-function tables. A block is an ordered list of instruction ids; the
//! function holds exactly its reachable blocks, with the entry block first
//! and a designated last block. All the pass ever asks of a type is whether
//! two types are equal and whether a type contains an array, so a type is
//! an index into a table recording that one attribute.

use vstd::prelude::*;

verus! {

/// Identifier of an SSA value, an index into `Function::value_types`.
pub type ValueId = usize;

/// Identifier of an instruction, an index into `Function::instructions`.
/// Blocks own their instruction ids; removal only ever drops ids from a
/// block's list, never entries from the instruction table, so ids stay
/// valid across the pass.
pub type InstructionId = usize;

/// Identifier of a type, an index into `Function::type_contains_array`.
pub type TypeId = usize;

/// The instruction shapes the pass distinguishes. Every other instruction
/// of the host IR is `Other`: the pass never inspects it and never
/// removes it.
#[derive(Clone, Copy, PartialEq, Eq, Structural, Debug)]
pub enum Instruction {
    /// The array value gains a reference-count holder.
    IncrementRc { value: ValueId },
    /// The array value loses a reference-count holder.
    DecrementRc { value: ValueId },
    /// A new array is produced by writing `new_value` at `index` into
    /// `array`; the backend may lower it to an in-place mutation, so it
    /// must be treated as a potential mutation of any array of the same
    /// type.
    ArraySet { array: ValueId, index: ValueId, new_value: ValueId },
    /// Any instruction the pass does not inspect.
    Other,
}

/// One SSA function: its parameters, the value and type tables, the
/// instruction table, and its reachable blocks in some enumeration order
/// with the entry block at position 0 and a designated last block.
#[derive(Clone, PartialEq, Eq, Debug)]
pub struct Function {
    /// The function's parameters, in declaration order.
    pub parameters: Vec<ValueId>,
    /// The type of each value, indexed by `ValueId`.
    pub value_types: Vec<TypeId>,
    /// Whether each type contains an array (directly or nested), indexed
    /// by `TypeId`.
    pub type_contains_array: Vec<bool>,
    /// Every instruction of the function, indexed by `InstructionId`.
    pub instructions: Vec<Instruction>,
    /// The reachable blocks. `blocks[0]` is the entry block; each block is
    /// its instruction ids in execution order.
    pub blocks: Vec<Vec<InstructionId>>,
    /// Index of the designated last block, assumed to hold the final
    /// parameter decrements.
    pub last_block: usize,
}

/// A program: its functions, transformed independently of one another.
#[derive(Clone, PartialEq, Eq, Debug)]
pub struct Ssa {
    pub functions: Vec<Function>,
}

impl Instruction {
    /// The values this instruction mentions stay inside the value table.
    pub open spec fn values_within(self, n_values: nat) -> bool {
        match self {
            Instruction::IncrementRc { value } => value < n_values,
            Instruction::DecrementRc { value } => value < n_values,
            Instruction::ArraySet { array, index, new_value } => {
                array < n_values && index < n_values && new_value < n_values
            },
            Instruction::Other => true,
        }
    }
}

impl Function {
    /// The instruction id sequence of the entry block.
    pub open spec fn entry_ids(self) -> Seq<InstructionId> {
        self.blocks@[0]@
    }

    /// The instruction id sequence of the designated last block.
    pub open spec fn last_ids(self) -> Seq<InstructionId> {
        self.blocks@[self.last_block as int]@
    }

    /// The instruction an id denotes.
    pub open spec fn inst(self, id: InstructionId) -> Instruction {
        self.instructions@[id as int]
    }

    /// The type of a value.
    pub open spec fn type_of(self, v: ValueId) -> TypeId {
        self.value_types@[v as int]
    }

    /// No instruction id occurs twice, across all blocks. Each id denotes
    /// one instruction occurrence of the function.
    pub open spec fn distinct_ids(self) -> bool {
        forall|b1: int, j1: int, b2: int, j2: int|
            0 <= b1 < self.blocks@.len() && 0 <= j1 < self.blocks@[b1]@.len() && 0 <= b2
                < self.blocks@.len() && 0 <= j2 < self.blocks@[b2]@.len() && #[trigger] self.blocks@[b1]@[j1]
                == #[trigger] self.blocks@[b2]@[j2] ==> b1 == b2 && j1 == j2
    }

    /// Well-formedness: every table index in range, at least one block,
    /// the last block designated, and instruction ids unique.
    pub open spec fn wf(self) -> bool {
        &&& self.blocks@.len() >= 1
        &&& self.last_block < self.blocks@.len()
        &&& forall|b: int, j: int|
            0 <= b < self.blocks@.len() && 0 <= j < self.blocks@[b]@.len()
                ==> #[trigger] self.blocks@[b]@[j] < self.instructions@.len()
        &&& forall|p: int|
            0 <= p < self.parameters@.len() ==> #[trigger] self.parameters@[p]
                < self.value_types@.len()
        &&& forall|i: int|
            0 <= i < self.instructions@.len() ==> (#[trigger] self.instructions@[i]).values_within(
                self.value_types@.len() as nat,
            )
        &&& forall|v: int|
            0 <= v < self.value_types@.len() ==> #[trigger] self.value_types@[v]
                < self.type_contains_array@.len()
        &&& self.distinct_ids()
    }

    /// Whether some parameter's type contains an array. Decrements are
    /// only ever emitted for parameters, so this is the guard under which
    /// the pass does any work at all.
    pub open spec fn has_array_parameter(self) -> bool {
        exists|p: int|
            0 <= p < self.parameters@.len() && self.type_contains_array@[self.value_types@[#[trigger] self.parameters@[p] as int] as int]
    }
}

impl Ssa {
    /// Well-formedness of a program: every function is well formed.
    pub open spec fn wf(self) -> bool {
        forall|i: int| 0 <= i < self.functions@.len() ==> (#[trigger] self.functions@[i]).wf()
    }
}

} // verus!
