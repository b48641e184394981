//! Direct runs of single methods through `execute`: opcode semantics,
//! two's-complement wrapping, boundary immediates, and the fatal errors.

use minijvm::interp::{VmError, execute};
use minijvm::types::{ClassFile, Code, ConstantPool, Method};

const DEPTH: u64 = 16;
const BUDGET: u64 = 10_000;

fn method_of(max_stack: u16, max_locals: u16, code: Vec<u8>) -> Method {
    Method {
        name: b"f".to_vec(),
        descriptor: b"()I".to_vec(),
        code: Code {
            max_stack,
            max_locals,
            code_length: code.len() as u32,
            code,
        },
    }
}

fn empty_class() -> ClassFile {
    ClassFile {
        constant_pool: Vec::new(),
        method: Vec::new(),
    }
}

fn run(m: &Method, locals: Vec<i32>) -> Result<Option<i32>, VmError> {
    let class = empty_class();
    let mut out: Vec<i32> = Vec::new();
    execute(m, locals, &class, DEPTH, BUDGET, &mut out)
}

#[test]
fn iconst_3_returns_3_for_any_locals() {
    let m = method_of(1, 0, vec![6, 172]);
    assert_eq!(run(&m, vec![]), Ok(Some(3)));
    assert_eq!(run(&m, vec![7, -9, 123]), Ok(Some(3)));
}

#[test]
fn bipush_0xff_pushes_minus_1() {
    let m = method_of(1, 0, vec![16, 0xFF, 172]);
    assert_eq!(run(&m, vec![]), Ok(Some(-1)));
}

#[test]
fn sipush_is_sign_extended() {
    let m = method_of(1, 0, vec![17, 0x80, 0x00, 172]);
    assert_eq!(run(&m, vec![]), Ok(Some(-32768)));
    let m2 = method_of(1, 0, vec![17, 0x7F, 0xFF, 172]);
    assert_eq!(run(&m2, vec![]), Ok(Some(32767)));
}

#[test]
fn iinc_minus_128_decreases_local_by_128() {
    let m = method_of(1, 1, vec![132, 0, 0x80, 26, 172]);
    assert_eq!(run(&m, vec![5]), Ok(Some(5 - 128)));
}

#[test]
fn iadd_wraps_at_max() {
    // ldc of Integer i32::MAX, then + 1.
    let class = ClassFile {
        constant_pool: vec![ConstantPool::Integer { bytes: i32::MAX }],
        method: Vec::new(),
    };
    let m = method_of(2, 0, vec![18, 1, 4, 96, 172]);
    let mut out: Vec<i32> = Vec::new();
    assert_eq!(
        execute(&m, vec![], &class, DEPTH, BUDGET, &mut out),
        Ok(Some(i32::MIN))
    );
}

#[test]
fn isub_orders_operands_second_minus_top() {
    let m = method_of(2, 0, vec![16, 7, 16, 3, 100, 172]);
    assert_eq!(run(&m, vec![]), Ok(Some(4)));
}

#[test]
fn idiv_truncates_toward_zero() {
    let m = method_of(2, 0, vec![16, 0xF9, 16, 2, 108, 172]); // -7 / 2
    assert_eq!(run(&m, vec![]), Ok(Some(-3)));
}

#[test]
fn idiv_min_by_minus_1_wraps() {
    let class = ClassFile {
        constant_pool: vec![ConstantPool::Integer { bytes: i32::MIN }],
        method: Vec::new(),
    };
    let m = method_of(2, 0, vec![18, 1, 2, 108, 172]); // MIN / -1
    let mut out: Vec<i32> = Vec::new();
    assert_eq!(
        execute(&m, vec![], &class, DEPTH, BUDGET, &mut out),
        Ok(Some(i32::MIN))
    );
}

#[test]
fn irem_takes_dividend_sign() {
    let m = method_of(2, 0, vec![16, 0xF9, 16, 2, 112, 172]); // -7 % 2
    assert_eq!(run(&m, vec![]), Ok(Some(-1)));
}

#[test]
fn ineg_negates_and_wraps_min() {
    let m = method_of(1, 1, vec![26, 116, 172]);
    assert_eq!(run(&m, vec![5]), Ok(Some(-5)));
    assert_eq!(run(&m, vec![i32::MIN]), Ok(Some(i32::MIN)));
}

#[test]
fn division_by_zero_is_fatal() {
    let m = method_of(2, 0, vec![4, 3, 108, 172]);
    assert_eq!(run(&m, vec![]), Err(VmError::DivisionByZero));
}

#[test]
fn unknown_opcode_is_fatal() {
    let m = method_of(1, 0, vec![200]);
    assert_eq!(run(&m, vec![]), Err(VmError::UnknownOpcode));
}

#[test]
fn ldc_of_non_integer_is_fatal() {
    let class = ClassFile {
        constant_pool: vec![ConstantPool::Utf8(b"x".to_vec())],
        method: Vec::new(),
    };
    let m = method_of(1, 0, vec![18, 1, 172]);
    let mut out: Vec<i32> = Vec::new();
    assert_eq!(
        execute(&m, vec![], &class, DEPTH, BUDGET, &mut out),
        Err(VmError::ExpectedInteger)
    );
}

#[test]
fn ldc_of_out_of_range_index_is_fatal() {
    let m = method_of(1, 0, vec![18, 1, 172]);
    assert_eq!(run(&m, vec![]), Err(VmError::BadPoolIndex));
}

#[test]
fn push_past_max_stack_is_fatal() {
    let m = method_of(1, 0, vec![4, 4, 96, 172]);
    assert_eq!(run(&m, vec![]), Err(VmError::StackOverflow));
}

#[test]
fn pop_from_empty_stack_is_fatal() {
    let m = method_of(1, 0, vec![172]);
    assert_eq!(run(&m, vec![]), Err(VmError::StackUnderflow));
}

#[test]
fn bad_local_index_is_fatal() {
    let m = method_of(1, 1, vec![27, 172]); // iload_1 with one local
    assert_eq!(run(&m, vec![0]), Err(VmError::BadLocalIndex));
}

#[test]
fn operands_past_end_of_code_are_fatal() {
    let m = method_of(1, 0, vec![16]); // bipush with no operand byte
    assert_eq!(run(&m, vec![]), Err(VmError::TruncatedCode));
}

#[test]
fn falling_off_the_code_returns_void() {
    // A single getstatic skips three bytes and leaves the code array.
    let m = method_of(1, 0, vec![178, 0, 0]);
    assert_eq!(run(&m, vec![]), Ok(None));
}

#[test]
fn getstatic_is_a_no_op_and_invokevirtual_prints() {
    let m = method_of(1, 0, vec![178, 0, 0, 16, 9, 182, 0, 0, 177]);
    let class = empty_class();
    let mut out: Vec<i32> = Vec::new();
    assert_eq!(execute(&m, vec![], &class, DEPTH, BUDGET, &mut out), Ok(None));
    assert_eq!(out, vec![9]);
}

#[test]
fn goto_self_loop_exhausts_budget() {
    let m = method_of(1, 0, vec![167, 0, 0]);
    assert_eq!(run(&m, vec![]), Err(VmError::OutOfSteps));
}

#[test]
fn taken_comparison_with_zero_offset_is_a_self_loop() {
    // The branch re-executes itself; the second round underflows the
    // emptied stack.
    let m = method_of(2, 0, vec![3, 3, 159, 0, 0]);
    assert_eq!(run(&m, vec![]), Err(VmError::StackUnderflow));
}

#[test]
fn taken_comparison_with_offset_minus_3_lands_before_the_code() {
    // The target is three bytes before the opcode, not the opcode
    // itself: from address 2 the program counter leaves the code array
    // and the method ends as a void return.
    let m = method_of(2, 0, vec![3, 3, 159, 0xFF, 0xFD]);
    assert_eq!(run(&m, vec![]), Ok(None));
}

#[test]
fn branch_conditions_follow_the_opcode() {
    // ifle on 0 is taken: jump over the iconst_5 to return 1.
    let m = method_of(1, 0, vec![3, 158, 0, 5, 8, 172, 4, 172]);
    assert_eq!(run(&m, vec![]), Ok(Some(1)));
    // ifgt on 0 is not taken: fall through and return 5.
    let m2 = method_of(1, 0, vec![3, 157, 0, 5, 8, 172, 4, 172]);
    assert_eq!(run(&m2, vec![]), Ok(Some(5)));
}

#[test]
fn istore_and_iload_round_trip() {
    let m = method_of(1, 2, vec![16, 33, 54, 1, 21, 1, 172]);
    assert_eq!(run(&m, vec![0, 0]), Ok(Some(33)));
}
