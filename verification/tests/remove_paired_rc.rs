use rc_pass::ir::{Function, Instruction, Ssa};

fn count_inc_rcs(function: &Function, block: usize) -> usize {
    function.blocks[block]
        .iter()
        .filter(|id| matches!(function.instructions[**id], Instruction::IncrementRc { .. }))
        .count()
}

fn count_dec_rcs(function: &Function, block: usize) -> usize {
    function.blocks[block]
        .iter()
        .filter(|id| matches!(function.instructions[**id], Instruction::DecrementRc { .. }))
        .count()
}

/// The function behind the program
///   unconstrained fn foo(x: [Field; 2]) -> [[Field; 2]; 1] { [array] }
/// lowered to
///   b0(v0: [Field; 2]):
///     inc_rc v0
///     inc_rc v0
///     dec_rc v0
///     v1 = make_array [v0] : [[Field; 2]; 1]
///     return v1
/// Type 0 is [Field; 2], type 1 is [[Field; 2]; 1].
fn return_array_function() -> Function {
    Function {
        parameters: vec![0],
        value_types: vec![0, 1],
        type_contains_array: vec![true, true],
        instructions: vec![
            Instruction::IncrementRc { value: 0 },
            Instruction::IncrementRc { value: 0 },
            Instruction::DecrementRc { value: 0 },
            Instruction::Other,
        ],
        blocks: vec![vec![0, 1, 2, 3]],
        last_block: 0,
    }
}

#[test]
fn single_block_fn_return_array() {
    let ssa = Ssa { functions: vec![return_array_function()] };
    let ssa = ssa.remove_paired_rc();
    let main = &ssa.functions[0];
    let entry = 0;

    assert_eq!(count_inc_rcs(main, entry), 1);
    assert_eq!(count_dec_rcs(main, entry), 0);
}

/// The function behind the program
///   fn mutator(mut array: [Field; 2]) { array[0] = 5; }
/// lowered to
///   b0(v0: [Field; 2]):
///     v1 = allocate -> &mut [Field; 2]
///     store v0 at v1
///     inc_rc v0
///     v2 = load v1 -> [Field; 2]
///     v5 = array_set v2, index u32 0, value Field 5
///     store v5 at v1
///     dec_rc v0
///     return
/// Type 0 is [Field; 2], type 1 is &mut [Field; 2], type 2 is u32 and
/// type 3 is Field; values 3 and 4 are the constants u32 0 and Field 5.
fn mutator_function() -> Function {
    Function {
        parameters: vec![0],
        value_types: vec![0, 1, 0, 2, 3, 0],
        type_contains_array: vec![true, true, false, false],
        instructions: vec![
            Instruction::Other,
            Instruction::Other,
            Instruction::IncrementRc { value: 0 },
            Instruction::Other,
            Instruction::ArraySet { array: 2, index: 3, new_value: 4 },
            Instruction::Other,
            Instruction::DecrementRc { value: 0 },
        ],
        blocks: vec![vec![0, 1, 2, 3, 4, 5, 6]],
        last_block: 0,
    }
}

#[test]
fn single_block_mutation() {
    let ssa = Ssa { functions: vec![mutator_function()] };
    let ssa = ssa.remove_paired_rc();
    let main = &ssa.functions[0];
    let entry = 0;

    // No changes, the array is possibly mutated
    assert_eq!(count_inc_rcs(main, entry), 1);
    assert_eq!(count_dec_rcs(main, entry), 1);
}

// Similar to single_block_mutation but for a function which
// uses a mutable reference parameter.
#[test]
fn single_block_mutation_through_reference() {
    // The function behind the program
    //   fn mutator2(array: &mut [Field; 2]) { array[0] = 5; }
    // lowered to
    //   b0(v0: &mut [Field; 2]):
    //     v1 = load v0 -> [Field; 2]
    //     inc_rc v1
    //     store v1 at v0
    //     v2 = load v1 -> [Field; 2]
    //     v5 = array_set v2, index u32 0, value Field 5
    //     store v5 at v0
    //     v6 = load v0 -> [Field; 2]
    //     dec_rc v1
    //     store v6 at v0
    //     return
    // Type 0 is [Field; 2], type 1 is &mut [Field; 2], type 2 is u32 and
    // type 3 is Field.
    let function = Function {
        parameters: vec![0],
        value_types: vec![1, 0, 0, 2, 3, 0, 0],
        type_contains_array: vec![true, true, false, false],
        instructions: vec![
            Instruction::Other,
            Instruction::IncrementRc { value: 1 },
            Instruction::Other,
            Instruction::Other,
            Instruction::ArraySet { array: 2, index: 3, new_value: 4 },
            Instruction::Other,
            Instruction::Other,
            Instruction::DecrementRc { value: 1 },
            Instruction::Other,
        ],
        blocks: vec![vec![0, 1, 2, 3, 4, 5, 6, 7, 8]],
        last_block: 0,
    };

    let ssa = Ssa { functions: vec![function] };
    let ssa = ssa.remove_paired_rc();
    let main = &ssa.functions[0];
    let entry = 0;

    // No changes, the array is possibly mutated
    assert_eq!(count_inc_rcs(main, entry), 1);
    assert_eq!(count_dec_rcs(main, entry), 1);
}

// Of two increments of the same value, the first-recorded one is matched
// and removed together with the decrement; the second stays.
#[test]
fn first_increment_is_matched_first() {
    let ssa = Ssa { functions: vec![return_array_function()] };
    let ssa = ssa.remove_paired_rc();
    let main = &ssa.functions[0];

    assert_eq!(main.blocks[0], vec![1, 3]);
}

// A function without an array-typed parameter is skipped entirely, even
// when it holds a pair the matcher would otherwise remove.
#[test]
fn no_array_parameter_leaves_function_unchanged() {
    // b0(v0: Field):
    //   v1 = make_array ... : [Field; 2]
    //   inc_rc v1
    //   dec_rc v1
    //   return
    let function = Function {
        parameters: vec![0],
        value_types: vec![1, 0],
        type_contains_array: vec![true, false],
        instructions: vec![
            Instruction::Other,
            Instruction::IncrementRc { value: 1 },
            Instruction::DecrementRc { value: 1 },
        ],
        blocks: vec![vec![0, 1, 2]],
        last_block: 0,
    };
    let before = function.clone();

    let ssa = Ssa { functions: vec![function] };
    let ssa = ssa.remove_paired_rc();

    assert_eq!(ssa.functions[0], before);
}

// An array_set in any reachable block taints the pair, not only one in
// the entry or last block.
#[test]
fn mutation_in_middle_block_prevents_removal() {
    // b0(v0: [Field; 2]): inc_rc v0
    // b1: v1 = load ...; v4 = array_set v1, index u32 0, value Field 5
    // b2: dec_rc v0, return
    let function = Function {
        parameters: vec![0],
        value_types: vec![0, 0, 1, 2],
        type_contains_array: vec![true, false, false],
        instructions: vec![
            Instruction::IncrementRc { value: 0 },
            Instruction::Other,
            Instruction::ArraySet { array: 1, index: 2, new_value: 3 },
            Instruction::DecrementRc { value: 0 },
        ],
        blocks: vec![vec![0], vec![1, 2], vec![3]],
        last_block: 2,
    };

    let ssa = Ssa { functions: vec![function] };
    let ssa = ssa.remove_paired_rc();
    let main = &ssa.functions[0];

    assert_eq!(count_inc_rcs(main, 0), 1);
    assert_eq!(count_dec_rcs(main, 2), 1);
}

// A decrement matches only an increment of the identical value; the same
// array type is not enough.
#[test]
fn decrement_of_other_value_is_kept() {
    // b0(v0: [Field; 2], v1: [Field; 2]):
    //   inc_rc v0
    //   dec_rc v1
    //   return
    let function = Function {
        parameters: vec![0, 1],
        value_types: vec![0, 0],
        type_contains_array: vec![true],
        instructions: vec![
            Instruction::IncrementRc { value: 0 },
            Instruction::DecrementRc { value: 1 },
        ],
        blocks: vec![vec![0, 1]],
        last_block: 0,
    };
    let before = function.clone();

    let ssa = Ssa { functions: vec![function] };
    let ssa = ssa.remove_paired_rc();

    assert_eq!(ssa.functions[0], before);
}

// A second decrement of the same value finds its only record consumed and
// is left in place.
#[test]
fn second_decrement_of_value_is_kept() {
    // b0(v0: [Field; 2]): inc_rc v0, dec_rc v0, dec_rc v0
    let function = Function {
        parameters: vec![0],
        value_types: vec![0],
        type_contains_array: vec![true],
        instructions: vec![
            Instruction::IncrementRc { value: 0 },
            Instruction::DecrementRc { value: 0 },
            Instruction::DecrementRc { value: 0 },
        ],
        blocks: vec![vec![0, 1, 2]],
        last_block: 0,
    };

    let ssa = Ssa { functions: vec![function] };
    let ssa = ssa.remove_paired_rc();
    let main = &ssa.functions[0];

    assert_eq!(count_inc_rcs(main, 0), 0);
    assert_eq!(count_dec_rcs(main, 0), 1);
    assert_eq!(main.blocks[0], vec![2]);
}

// Increments outside the entry block are never tracked, so their pairs
// are never removed.
#[test]
fn increment_outside_entry_block_is_kept() {
    // b0(v0: [Field; 2]):
    // b1: inc_rc v0
    // b2: dec_rc v0, return
    let function = Function {
        parameters: vec![0],
        value_types: vec![0],
        type_contains_array: vec![true],
        instructions: vec![
            Instruction::IncrementRc { value: 0 },
            Instruction::DecrementRc { value: 0 },
        ],
        blocks: vec![vec![], vec![0], vec![1]],
        last_block: 2,
    };
    let before = function.clone();

    let ssa = Ssa { functions: vec![function] };
    let ssa = ssa.remove_paired_rc();

    assert_eq!(ssa.functions[0], before);
}

// Decrements outside the designated last block are never matched.
#[test]
fn decrement_outside_last_block_is_kept() {
    // b0(v0: [Field; 2]): inc_rc v0
    // b1: dec_rc v0
    // b2: return
    let function = Function {
        parameters: vec![0],
        value_types: vec![0],
        type_contains_array: vec![true],
        instructions: vec![
            Instruction::IncrementRc { value: 0 },
            Instruction::DecrementRc { value: 0 },
        ],
        blocks: vec![vec![0], vec![1], vec![]],
        last_block: 2,
    };
    let before = function.clone();

    let ssa = Ssa { functions: vec![function] };
    let ssa = ssa.remove_paired_rc();

    assert_eq!(ssa.functions[0], before);
}

// Running the pass twice gives the same program as running it once.
#[test]
fn pass_is_idempotent() {
    let ssa = Ssa {
        functions: vec![return_array_function(), mutator_function()],
    };
    let once = ssa.remove_paired_rc();
    let twice = once.clone().remove_paired_rc();

    assert_eq!(twice, once);
}

// Functions of a program are transformed independently: a mutation in one
// does not taint another's pairs.
#[test]
fn functions_are_independent() {
    let ssa = Ssa {
        functions: vec![mutator_function(), return_array_function()],
    };
    let ssa = ssa.remove_paired_rc();

    assert_eq!(count_inc_rcs(&ssa.functions[0], 0), 1);
    assert_eq!(count_dec_rcs(&ssa.functions[0], 0), 1);
    assert_eq!(count_inc_rcs(&ssa.functions[1], 0), 1);
    assert_eq!(count_dec_rcs(&ssa.functions[1], 0), 0);
}

// A program without functions passes through untouched.
#[test]
fn empty_program() {
    let ssa = Ssa { functions: vec![] };
    let ssa = ssa.remove_paired_rc();

    assert!(ssa.functions.is_empty());
}
