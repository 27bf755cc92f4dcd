use stackvm::interpreter::interpret;
use stackvm::interpreter::Instruction::{
    Add, CompareEQ, CompareGT, CompareGTE, CompareLT, CompareLTE, CompareNE, Div, Jump, JumpIf,
    Load, Mul, Read, Return, Sub, Write,
};
use stackvm::interpreter::InterpreterError;

#[test]
fn andrew_burger_load_val() {
    assert_eq!(interpret(vec![Load(1), Load(2), Load(-5), Return]).unwrap(), -5);
}

#[test]
fn andrew_burger_read_write_val() {
    assert_eq!(
        interpret(vec![Load(1), Write("x".into()), Load(5), Read("x".into()), Return]).unwrap(),
        1
    );
}

#[test]
fn andrew_burger_add_val() {
    assert_eq!(interpret(vec![Load(1), Load(3), Add, Return]).unwrap(), 4);
    assert_eq!(
        interpret(vec![
            Load(3),
            Write("x".into()),
            Load(7),
            Write("y".into()),
            Read("x".into()),
            Read("y".into()),
            Add,
            Return
        ])
        .unwrap(),
        10
    );
}

#[test]
fn andrew_burger_sub_val() {
    assert_eq!(interpret(vec![Load(1), Load(3), Sub, Return]).unwrap(), -2);
}

#[test]
fn andrew_burger_mul_val() {
    assert_eq!(interpret(vec![Load(2), Load(3), Mul, Return]).unwrap(), 6);
}

#[test]
fn andrew_burger_div_val() {
    assert_eq!(interpret(vec![Load(4), Load(2), Div, Return]).unwrap(), 2);
}

#[test]
fn andrew_burger_div_by_zero() {
    assert!(interpret(vec![Load(2), Load(0), Div, Return]).is_err());
}

#[test]
fn andrew_burger_test_from_assignment() {
    let assignment_byte_code = vec![
        Load(1),
        Write("x".into()),
        Load(3),
        Write("y".into()),
        Read("x".into()),
        Load(1),
        Add,
        Read("y".into()),
        Mul,
        Return,
    ];
    assert_eq!(interpret(assignment_byte_code).unwrap(), 6);
}

#[test]
fn andrew_burger_test_unconditional_jump() {
    assert_eq!(
        interpret(vec![Load(4), Jump(2), Load(5), Load(7), Add, Return]).unwrap(),
        11
    );
}

#[test]
fn andrew_burger_test_lt_loop() {
    /*
     i = 0
     while i < 3
        i += 1
     done
     */
    assert_eq!(
        interpret(vec![
            Load(0),
            Write("i".into()),
            Read("i".into()),
            Load(3),
            CompareLT,
            JumpIf(10),
            Read("i".into()),
            Load(1),
            Add,
            Write("i".into()),
            Jump(1),
            Read("i".into()),
            Return
        ])
        .unwrap(),
        3
    );
}

#[test]
fn lib_load_val() {
    assert_eq!(interpret(vec![Load(1), Load(2), Load(-5), Return]).unwrap(), -5);
}

#[test]
fn lib_read_write_val() {
    assert_eq!(
        interpret(vec![Load(1), Write("x".into()), Load(5), Read("x".into()), Return]).unwrap(),
        1
    );
}

#[test]
fn lib_add_val() {
    assert_eq!(interpret(vec![Load(1), Load(3), Add, Return]).unwrap(), 4);
    assert_eq!(
        interpret(vec![
            Load(3),
            Write("x".into()),
            Load(7),
            Write("y".into()),
            Read("x".into()),
            Read("y".into()),
            Add,
            Return
        ])
        .unwrap(),
        10
    );
}

#[test]
fn lib_sub_val() {
    assert_eq!(interpret(vec![Load(1), Load(3), Sub, Return]).unwrap(), -2);
}

#[test]
fn lib_mul_val() {
    assert_eq!(interpret(vec![Load(2), Load(3), Mul, Return]).unwrap(), 6);
}

#[test]
fn lib_div_val() {
    assert_eq!(interpret(vec![Load(4), Load(2), Div, Return]).unwrap(), 2);
}

#[test]
fn lib_div_by_zero() {
    assert!(interpret(vec![Load(2), Load(0), Div, Return]).is_err());
}

#[test]
fn lib_test_from_assignment() {
    let assignment_byte_code = vec![
        Load(1),
        Write("x".into()),
        Load(3),
        Write("y".into()),
        Read("x".into()),
        Load(1),
        Add,
        Read("y".into()),
        Mul,
        Return,
    ];
    assert_eq!(interpret(assignment_byte_code).unwrap(), 6);
}

#[test]
fn lib_test_unconditional_jump() {
    assert_eq!(
        interpret(vec![Load(4), Jump(2), Load(5), Load(7), Add, Return]).unwrap(),
        11
    );
}

#[test]
fn lib_test_lt_loop() {
    assert_eq!(
        interpret(vec![
            Load(0),
            Write("i".into()),
            Read("i".into()),
            Load(3),
            CompareLT,
            JumpIf(10),
            Read("i".into()),
            Load(1),
            Add,
            Write("i".into()),
            Jump(1),
            Read("i".into()),
            Return
        ])
        .unwrap(),
        3
    );
}

#[test]
fn read_of_unwritten_variable_is_a_fault() {
    assert_eq!(
        interpret(vec![Read("x".into()), Return]),
        Err(InterpreterError::UndefinedBehavior)
    );
}

#[test]
fn return_on_empty_stack_is_a_fault() {
    assert_eq!(interpret(vec![Return]), Err(InterpreterError::StackEmpty));
}

#[test]
fn div_by_zero_reports_divide_by_zero() {
    assert_eq!(
        interpret(vec![Load(2), Load(0), Div, Return]),
        Err(InterpreterError::DivideByZero)
    );
}

#[test]
fn div_with_one_operand_reports_stack_empty() {
    // Pop failures are checked before the zero check.
    assert_eq!(
        interpret(vec![Load(0), Div, Return]),
        Err(InterpreterError::StackEmpty)
    );
}

#[test]
fn jump_out_of_range_is_a_fault() {
    assert_eq!(
        interpret(vec![Jump(5), Return]),
        Err(InterpreterError::BadInstructionOffset)
    );
}

#[test]
fn running_off_the_end_is_a_fault() {
    assert_eq!(
        interpret(vec![Load(1)]),
        Err(InterpreterError::BadInstructionOffset)
    );
}

#[test]
fn jump_if_with_bad_target_faults_at_next_fetch() {
    // JumpIf does not check its target; the fault comes from the fetch after
    // the taken jump.
    assert_eq!(
        interpret(vec![Load(0), JumpIf(99), Return]),
        Err(InterpreterError::BadInstructionOffset)
    );
}

#[test]
fn jump_if_taken_on_zero_and_skipped_on_nonzero() {
    // Popped zero takes the jump: target 3 resumes at index 4, skipping the
    // Load(9), so the earlier 7 is returned.
    assert_eq!(
        interpret(vec![Load(7), Load(0), JumpIf(3), Load(9), Return]).unwrap(),
        7
    );
    // Popped nonzero falls through: the Load(9) runs and is returned.
    assert_eq!(
        interpret(vec![Load(7), Load(1), JumpIf(3), Load(9), Return]).unwrap(),
        9
    );
}

#[test]
fn write_read_round_trip_returns_the_value() {
    assert_eq!(
        interpret(vec![Load(-42), Write("x".into()), Read("x".into()), Return]).unwrap(),
        -42
    );
}

#[test]
fn second_write_shadows_the_first() {
    assert_eq!(
        interpret(vec![
            Load(1),
            Write("x".into()),
            Load(2),
            Write("x".into()),
            Read("x".into()),
            Return
        ])
        .unwrap(),
        2
    );
}

#[test]
fn addition_wraps_to_64_bits() {
    assert_eq!(
        interpret(vec![Load(i64::MAX), Load(1), Add, Return]).unwrap(),
        i64::MIN
    );
    assert_eq!(
        interpret(vec![Load(i64::MIN), Load(1), Sub, Return]).unwrap(),
        i64::MAX
    );
}

#[test]
fn division_truncates_toward_zero() {
    assert_eq!(interpret(vec![Load(-7), Load(2), Div, Return]).unwrap(), -3);
    assert_eq!(interpret(vec![Load(7), Load(-2), Div, Return]).unwrap(), -3);
    assert_eq!(interpret(vec![Load(-7), Load(-2), Div, Return]).unwrap(), 3);
}

#[test]
fn division_overflow_wraps() {
    assert_eq!(
        interpret(vec![Load(i64::MIN), Load(-1), Div, Return]).unwrap(),
        i64::MIN
    );
}

#[test]
fn comparisons_push_one_or_zero() {
    assert_eq!(interpret(vec![Load(2), Load(2), CompareEQ, Return]).unwrap(), 1);
    assert_eq!(interpret(vec![Load(2), Load(3), CompareEQ, Return]).unwrap(), 0);
    assert_eq!(interpret(vec![Load(2), Load(3), CompareNE, Return]).unwrap(), 1);
    assert_eq!(interpret(vec![Load(2), Load(2), CompareNE, Return]).unwrap(), 0);
    assert_eq!(interpret(vec![Load(3), Load(2), CompareGT, Return]).unwrap(), 1);
    assert_eq!(interpret(vec![Load(2), Load(2), CompareGT, Return]).unwrap(), 0);
    assert_eq!(interpret(vec![Load(2), Load(3), CompareLT, Return]).unwrap(), 1);
    assert_eq!(interpret(vec![Load(3), Load(2), CompareLT, Return]).unwrap(), 0);
    assert_eq!(interpret(vec![Load(2), Load(2), CompareLTE, Return]).unwrap(), 1);
    assert_eq!(interpret(vec![Load(3), Load(2), CompareLTE, Return]).unwrap(), 0);
    assert_eq!(interpret(vec![Load(2), Load(2), CompareGTE, Return]).unwrap(), 1);
    assert_eq!(interpret(vec![Load(2), Load(3), CompareGTE, Return]).unwrap(), 0);
}

#[test]
fn two_runs_of_the_same_program_agree() {
    let make_program = || {
        vec![
            Load(10),
            Write("acc".into()),
            Read("acc".into()),
            Load(4),
            Add,
            Return,
        ]
    };
    assert_eq!(interpret(make_program()), interpret(make_program()));
    assert_eq!(interpret(make_program()).unwrap(), 14);
}
