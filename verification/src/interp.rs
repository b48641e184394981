//! The execution engine: a small-step specification of the stack machine
//! (`spec_step` / `spec_run`) and the executable interpreter `execute`,
//! proved to return exactly what the specification returns.

use vstd::prelude::*;
use vstd::wrapping::i32_specs;

use crate::types::{
    ClassFile, ConstantPool, Method, SpecClassFile, SpecConstant, SpecMethod, pool_at,
    pool_index_ok,
};

verus! {

/// A fatal execution error. The machine has no recovery: every variant
/// ends the whole run.
#[derive(Clone, Copy, Debug, PartialEq, Eq, Structural)]
pub enum VmError {
    /// The per-invocation instruction budget ran out.
    OutOfSteps,
    /// The call-depth bound ran out at an `invokestatic`.
    CallDepthExceeded,
    /// A push onto an operand stack already holding `max_stack` values.
    StackOverflow,
    /// A pop from an empty operand stack, or fewer stacked arguments than
    /// a callee's descriptor demands.
    StackUnderflow,
    /// A local-variable index at or past `max_locals`.
    BadLocalIndex,
    /// A constant-pool index outside `1 ..= pool len`.
    BadPoolIndex,
    /// `ldc` named a constant that is not an `Integer`.
    ExpectedInteger,
    /// A name or descriptor index named a constant that is not a `Utf8`.
    ExpectedUtf8,
    /// `invokestatic` named a constant that is not a method reference.
    ExpectedRef,
    /// A reference's `name_and_type_index` named a constant that is not a
    /// `NameAndType`.
    ExpectedNameAndType,
    /// No method carries the requested name and descriptor.
    MethodNotFound,
    /// A callee descriptor shorter than `"()X"`.
    BadDescriptor,
    /// `idiv` or `irem` with a zero divisor.
    DivisionByZero,
    /// An opcode outside the supported set.
    UnknownOpcode,
    /// The code array ends inside an instruction's operand bytes.
    TruncatedCode,
    /// `main` returned a value instead of void.
    MainReturnedValue,
}

pub const OP_ICONST_M1: u8 = 2;
pub const OP_ICONST_0: u8 = 3;
pub const OP_ICONST_5: u8 = 8;
pub const OP_BIPUSH: u8 = 16;
pub const OP_SIPUSH: u8 = 17;
pub const OP_LDC: u8 = 18;
pub const OP_ILOAD: u8 = 21;
pub const OP_ILOAD_0: u8 = 26;
pub const OP_ILOAD_3: u8 = 29;
pub const OP_ISTORE: u8 = 54;
pub const OP_ISTORE_0: u8 = 59;
pub const OP_ISTORE_3: u8 = 62;
pub const OP_IADD: u8 = 96;
pub const OP_ISUB: u8 = 100;
pub const OP_IMUL: u8 = 104;
pub const OP_IDIV: u8 = 108;
pub const OP_IREM: u8 = 112;
pub const OP_INEG: u8 = 116;
pub const OP_IINC: u8 = 132;
pub const OP_IFEQ: u8 = 153;
pub const OP_IFNE: u8 = 154;
pub const OP_IFLT: u8 = 155;
pub const OP_IFGE: u8 = 156;
pub const OP_IFGT: u8 = 157;
pub const OP_IFLE: u8 = 158;
pub const OP_IF_ICMPEQ: u8 = 159;
pub const OP_IF_ICMPNE: u8 = 160;
pub const OP_IF_ICMPLT: u8 = 161;
pub const OP_IF_ICMPGE: u8 = 162;
pub const OP_IF_ICMPGT: u8 = 163;
pub const OP_IF_ICMPLE: u8 = 164;
pub const OP_GOTO: u8 = 167;
pub const OP_IRETURN: u8 = 172;
pub const OP_RETURN: u8 = 177;
pub const OP_GETSTATIC: u8 = 178;
pub const OP_INVOKEVIRTUAL: u8 = 182;
pub const OP_INVOKESTATIC: u8 = 184;

/// The signed 32-bit value with the same residue as `x` modulo `2^32`.
pub open spec fn as_signed_32(x: int) -> int {
    let m = x % 0x1_0000_0000;
    if m >= 0x8000_0000 {
        m - 0x1_0000_0000
    } else {
        m
    }
}

/// A byte read as a signed 8-bit immediate.
pub open spec fn imm8(b: u8) -> int {
    if b >= 0x80 {
        b - 0x100
    } else {
        b as int
    }
}

/// Two big-endian bytes read as a signed 16-bit immediate.
pub open spec fn imm16(b1: u8, b2: u8) -> int {
    let v = (b1 as int) * 0x100 + b2;
    if v >= 0x8000 {
        v - 0x1_0000
    } else {
        v
    }
}

/// Two big-endian bytes read as an unsigned 16-bit index.
pub open spec fn idx16(b1: u8, b2: u8) -> u16 {
    ((b1 as int) * 0x100 + b2) as u16
}

pub open spec fn int_abs(x: int) -> int {
    if x < 0 {
        -x
    } else {
        x
    }
}

/// `idiv`: division truncated toward zero, with the one wrapping case
/// `i32::MIN / -1 == i32::MIN`. The divisor must not be zero.
pub open spec fn jdiv(a: i32, b: i32) -> i32 {
    if a == i32::MIN && b == -1 {
        i32::MIN
    } else {
        let q = int_abs(a as int) / int_abs(b as int);
        if (a < 0) == (b < 0) {
            q as i32
        } else {
            (-q) as i32
        }
    }
}

/// `irem`: the remainder matching `jdiv`, taking the dividend's sign,
/// with `i32::MIN % -1 == 0`. The divisor must not be zero.
pub open spec fn jrem(a: i32, b: i32) -> i32 {
    if a == i32::MIN && b == -1 {
        0
    } else {
        let r = int_abs(a as int) % int_abs(b as int);
        if a < 0 {
            (-r) as i32
        } else {
            r as i32
        }
    }
}

/// `ineg`: two's-complement negation; `i32::MIN` wraps to itself.
pub open spec fn jneg(a: i32) -> i32 {
    if a == i32::MIN {
        i32::MIN
    } else {
        (-(a as int)) as i32
    }
}

fn sign_extend_8(b: u8) -> (r: i32)
    ensures
        r as int == imm8(b),
{
    if b >= 0x80 {
        (b as i32) - 0x100
    } else {
        b as i32
    }
}

fn sign_extend_16(b1: u8, b2: u8) -> (r: i32)
    ensures
        r as int == imm16(b1, b2),
{
    let v: i32 = (b1 as i32) * 0x100 + (b2 as i32);
    if v >= 0x8000 {
        v - 0x1_0000
    } else {
        v
    }
}

fn index_16(b1: u8, b2: u8) -> (r: u16)
    ensures
        r == idx16(b1, b2),
{
    (b1 as u16) * 0x100 + (b2 as u16)
}

/// The magnitude of a signed 32-bit value, as unsigned.
fn magnitude_32(a: i32) -> (r: u32)
    ensures
        r as int == int_abs(a as int),
{
    if a >= 0 {
        a as u32
    } else {
        (-(a as i64)) as u32
    }
}

fn int_div(a: i32, b: i32) -> (r: i32)
    requires
        b != 0,
    ensures
        r == jdiv(a, b),
{
    if a == i32::MIN && b == -1 {
        return i32::MIN;
    }
    let au = magnitude_32(a);
    let bu = magnitude_32(b);
    let q: u32 = au / bu;
    assert(q <= au) by (nonlinear_arith)
        requires
            bu >= 1,
            q == au / bu,
    ;
    if (a < 0) == (b < 0) {
        assert(q < 0x8000_0000) by {
            if a == i32::MIN {
                assert(bu >= 2);
                assert(au / bu <= au / 2) by (nonlinear_arith)
                    requires
                        bu >= 2,
                        au >= 0,
                ;
            }
        }
        q as i32
    } else {
        (-(q as i64)) as i32
    }
}

fn int_rem(a: i32, b: i32) -> (r: i32)
    requires
        b != 0,
    ensures
        r == jrem(a, b),
{
    if a == i32::MIN && b == -1 {
        return 0;
    }
    let au = magnitude_32(a);
    let bu = magnitude_32(b);
    let m: u32 = au % bu;
    assert(0 <= m < bu) by (nonlinear_arith)
        requires
            bu >= 1,
            m == au % bu,
            au >= 0,
    ;
    if a < 0 {
        (-(m as i64)) as i32
    } else {
        m as i32
    }
}

fn int_neg(a: i32) -> (r: i32)
    ensures
        r == jneg(a),
{
    if a == i32::MIN {
        i32::MIN
    } else {
        -a
    }
}

/// Look up an external (1-based) constant-pool index.
pub open spec fn spec_get_constant(pool: Seq<SpecConstant>, index: u16) -> Result<
    SpecConstant,
    VmError,
> {
    if pool_index_ok(pool, index as int) {
        Ok(pool_at(pool, index as int))
    } else {
        Err(VmError::BadPoolIndex)
    }
}

/// The constant at the given 1-based index of the pool, or an error when
/// the index is out of range. Index 0 is never valid: the file format
/// reserves it.
pub fn get_constant(constant_pool: &Vec<ConstantPool>, index: u16) -> (r: Result<
    &ConstantPool,
    VmError,
>)
    ensures
        match r {
            Ok(c) => spec_get_constant(constant_pool.deep_view(), index) == Ok::<
                SpecConstant,
                VmError,
            >(c@),
            Err(e) => spec_get_constant(constant_pool.deep_view(), index) == Err::<
                SpecConstant,
                VmError,
            >(e),
        },
{
    if index >= 1 && (index as usize) <= constant_pool.len() {
        Ok(&constant_pool[(index as usize) - 1])
    } else {
        Err(VmError::BadPoolIndex)
    }
}

/// Resolve a method reference at `index` to the pair
/// `(name_index, descriptor_index)` of its `NameAndType`.
pub open spec fn spec_name_and_type(pool: Seq<SpecConstant>, index: u16) -> Result<
    (u16, u16),
    VmError,
> {
    match spec_get_constant(pool, index) {
        Err(e) => Err(e),
        Ok(c) => match c {
            SpecConstant::MethodOrFieldRef { name_and_type_index, .. } => {
                match spec_get_constant(pool, name_and_type_index) {
                    Err(e) => Err(e),
                    Ok(nt) => match nt {
                        SpecConstant::NameAndType { name_index, descriptor_index } => Ok(
                            (name_index, descriptor_index),
                        ),
                        _ => Err(VmError::ExpectedNameAndType),
                    },
                }
            },
            _ => Err(VmError::ExpectedRef),
        },
    }
}

/// Follow a method reference at the given pool index to the name and
/// descriptor indices of its `NameAndType` entry.
pub fn get_method_name_and_type(cp: &Vec<ConstantPool>, index: u16) -> (r: Result<
    (u16, u16),
    VmError,
>)
    ensures
        r == spec_name_and_type(cp.deep_view(), index),
{
    let c = match get_constant(cp, index) {
        Ok(c) => c,
        Err(e) => { return Err(e); },
    };
    match c {
        ConstantPool::MethodOrFieldRef { class_index: _, name_and_type_index } => {
            let nt = match get_constant(cp, *name_and_type_index) {
                Ok(nt) => nt,
                Err(e) => { return Err(e); },
            };
            match nt {
                ConstantPool::NameAndType { name_index, descriptor_index } => Ok(
                    (*name_index, *descriptor_index),
                ),
                _ => Err(VmError::ExpectedNameAndType),
            }
        },
        _ => Err(VmError::ExpectedRef),
    }
}

/// First method matching a name and descriptor, searching from `i`.
pub open spec fn find_from(methods: Seq<SpecMethod>, name: Seq<u8>, desc: Seq<u8>, i: int) -> Option<
    int,
>
    decreases methods.len() - i,
{
    if i < 0 || i >= methods.len() {
        None
    } else if methods[i].name == name && methods[i].descriptor == desc {
        Some(i)
    } else {
        find_from(methods, name, desc, i + 1)
    }
}

/// Index of the first method with the given name and descriptor.
pub open spec fn spec_find_method(methods: Seq<SpecMethod>, name: Seq<u8>, desc: Seq<u8>) -> Option<
    int,
> {
    find_from(methods, name, desc, 0)
}

fn bytes_eq(a: &Vec<u8>, b: &[u8]) -> (r: bool)
    ensures
        r == (a@ == b@),
{
    if a.len() != b.len() {
        assert(a@.len() != b@.len());
        return false;
    }
    let n = a.len();
    let mut i: usize = 0;
    while i < n
        invariant
            n == a@.len() == b@.len(),
            0 <= i <= n,
            forall|j: int| 0 <= j < i ==> a@[j] == b@[j],
        decreases n - i,
    {
        if a[i] != b[i] {
            return false;
        }
        i += 1;
    }
    assert(a@ =~= b@);
    true
}

/// Index of the first method whose name and descriptor both match, or
/// `None`. Both must match: the descriptor tells overloads apart.
pub fn find_method(name: &[u8], desc: &[u8], methods: &Vec<Method>) -> (r: Option<usize>)
    ensures
        match r {
            Some(i) => spec_find_method(methods.deep_view(), name@, desc@) == Some(i as int),
            None => spec_find_method(methods.deep_view(), name@, desc@) is None,
        },
{
    let ghost ms = methods.deep_view();
    let n = methods.len();
    let mut i: usize = 0;
    while i < n
        invariant
            n == methods@.len(),
            ms == methods.deep_view(),
            0 <= i <= n,
            spec_find_method(ms, name@, desc@) == find_from(ms, name@, desc@, i as int),
        decreases n - i,
    {
        let m = &methods[i];
        if bytes_eq(&m.name, name) && bytes_eq(&m.descriptor, desc) {
            return Some(i);
        }
        i += 1;
    }
    None
}

/// Full resolution of an `invokestatic` operand: reference, `NameAndType`,
/// the two `Utf8` entries, then the method table.
pub open spec fn spec_resolve_method(c: SpecClassFile, index: u16) -> Result<int, VmError> {
    match spec_name_and_type(c.constant_pool, index) {
        Err(e) => Err(e),
        Ok((ni, di)) => match spec_get_constant(c.constant_pool, ni) {
            Err(e) => Err(e),
            Ok(SpecConstant::Utf8 { bytes: name }) => match spec_get_constant(c.constant_pool, di) {
                Err(e) => Err(e),
                Ok(SpecConstant::Utf8 { bytes: desc }) => match spec_find_method(
                    c.methods,
                    name,
                    desc,
                ) {
                    Some(i) => Ok(i),
                    None => Err(VmError::MethodNotFound),
                },
                Ok(_) => Err(VmError::ExpectedUtf8),
            },
            Ok(_) => Err(VmError::ExpectedUtf8),
        },
    }
}

/// Find the method a method reference at the given pool index names.
pub fn find_method_from_index(index: u16, class: &ClassFile) -> (r: Result<usize, VmError>)
    ensures
        match r {
            Ok(i) => spec_resolve_method(class@, index) == Ok::<int, VmError>(i as int),
            Err(e) => spec_resolve_method(class@, index) == Err::<int, VmError>(e),
        },
{
    let (ni, di) = match get_method_name_and_type(&class.constant_pool, index) {
        Ok(p) => p,
        Err(e) => { return Err(e); },
    };
    let name = match get_constant(&class.constant_pool, ni) {
        Ok(ConstantPool::Utf8(n)) => n,
        Ok(_) => { return Err(VmError::ExpectedUtf8); },
        Err(e) => { return Err(e); },
    };
    let desc = match get_constant(&class.constant_pool, di) {
        Ok(ConstantPool::Utf8(d)) => d,
        Ok(_) => { return Err(VmError::ExpectedUtf8); },
        Err(e) => { return Err(e); },
    };
    match find_method(name.as_slice(), desc.as_slice(), &class.method) {
        Some(i) => Ok(i),
        None => Err(VmError::MethodNotFound),
    }
}

/// What one instruction does to a frame: advance, leave the method,
/// invoke another method, or fail.
pub enum StepRes {
    Next { pc: int, stack: Seq<i32>, locals: Seq<i32>, out: Seq<i32> },
    Leave { ret: Option<i32> },
    Call { callee: int, args: Seq<i32>, ret_pc: int, stack: Seq<i32> },
    Failed { err: VmError },
}

/// The condition a compare-with-zero branch tests.
pub open spec fn cond1(op: u8, v: i32) -> bool {
    if op == OP_IFEQ {
        v == 0
    } else if op == OP_IFNE {
        v != 0
    } else if op == OP_IFLT {
        v < 0
    } else if op == OP_IFGE {
        v >= 0
    } else if op == OP_IFGT {
        v > 0
    } else {
        v <= 0
    }
}

/// The condition a two-operand comparison branch tests, with `a` the
/// value below `b` on the stack.
pub open spec fn cond2(op: u8, a: i32, b: i32) -> bool {
    if op == OP_IF_ICMPEQ {
        a == b
    } else if op == OP_IF_ICMPNE {
        a != b
    } else if op == OP_IF_ICMPLT {
        a < b
    } else if op == OP_IF_ICMPGE {
        a >= b
    } else if op == OP_IF_ICMPGT {
        a > b
    } else {
        a <= b
    }
}

/// The result of a two-operand arithmetic opcode, with `a` the value
/// below `b` on the stack. Division and remainder assume `b != 0`.
pub open spec fn arith(op: u8, a: i32, b: i32) -> i32 {
    if op == OP_IADD {
        i32_specs::wrapping_add(a, b)
    } else if op == OP_ISUB {
        i32_specs::wrapping_sub(a, b)
    } else if op == OP_IMUL {
        i32_specs::wrapping_mul(a, b)
    } else if op == OP_IDIV {
        jdiv(a, b)
    } else {
        jrem(a, b)
    }
}

/// Push `v`, or fail when the operand stack is full.
pub open spec fn push_next(
    pc2: int,
    stack: Seq<i32>,
    v: i32,
    locals: Seq<i32>,
    out: Seq<i32>,
    max_stack: int,
) -> StepRes {
    if stack.len() >= max_stack {
        StepRes::Failed { err: VmError::StackOverflow }
    } else {
        StepRes::Next { pc: pc2, stack: stack.push(v), locals, out }
    }
}

/// Push the local at `idx`, or fail on a bad index or a full stack.
pub open spec fn load_next(
    idx: int,
    pc2: int,
    stack: Seq<i32>,
    locals: Seq<i32>,
    out: Seq<i32>,
    max_stack: int,
) -> StepRes {
    if idx >= locals.len() {
        StepRes::Failed { err: VmError::BadLocalIndex }
    } else {
        push_next(pc2, stack, locals[idx], locals, out, max_stack)
    }
}

/// Pop into the local at `idx`, or fail on an empty stack or bad index.
pub open spec fn store_next(
    idx: int,
    pc2: int,
    stack: Seq<i32>,
    locals: Seq<i32>,
    out: Seq<i32>,
) -> StepRes {
    if stack.len() < 1 {
        StepRes::Failed { err: VmError::StackUnderflow }
    } else if idx >= locals.len() {
        StepRes::Failed { err: VmError::BadLocalIndex }
    } else {
        StepRes::Next {
            pc: pc2,
            stack: stack.drop_last(),
            locals: locals.update(idx, stack.last()),
            out,
        }
    }
}

/// One instruction of `m` at `pc`, which must be in range. Branch
/// offsets are measured from the opcode's own address.
#[verifier::opaque]
pub open spec fn spec_step(
    c: SpecClassFile,
    m: SpecMethod,
    pc: int,
    stack: Seq<i32>,
    locals: Seq<i32>,
    out: Seq<i32>,
) -> StepRes {
    let code = m.code.code;
    let n = code.len() as int;
    let max = m.code.max_stack as int;
    let op = code[pc];
    if op == OP_IRETURN {
        if stack.len() >= 1 {
            StepRes::Leave { ret: Some(stack.last()) }
        } else {
            StepRes::Failed { err: VmError::StackUnderflow }
        }
    } else if op == OP_RETURN {
        StepRes::Leave { ret: None }
    } else if OP_ICONST_M1 <= op && op <= OP_ICONST_5 {
        push_next(pc + 1, stack, (op - OP_ICONST_0) as i32, locals, out, max)
    } else if op == OP_BIPUSH {
        if pc + 1 >= n {
            StepRes::Failed { err: VmError::TruncatedCode }
        } else {
            push_next(pc + 2, stack, imm8(code[pc + 1]) as i32, locals, out, max)
        }
    } else if op == OP_SIPUSH {
        if pc + 2 >= n {
            StepRes::Failed { err: VmError::TruncatedCode }
        } else {
            push_next(pc + 3, stack, imm16(code[pc + 1], code[pc + 2]) as i32, locals, out, max)
        }
    } else if op == OP_LDC {
        if pc + 1 >= n {
            StepRes::Failed { err: VmError::TruncatedCode }
        } else {
            match spec_get_constant(c.constant_pool, code[pc + 1] as u16) {
                Err(e) => StepRes::Failed { err: e },
                Ok(SpecConstant::Integer { value }) => push_next(
                    pc + 2,
                    stack,
                    value,
                    locals,
                    out,
                    max,
                ),
                Ok(_) => StepRes::Failed { err: VmError::ExpectedInteger },
            }
        }
    } else if op == OP_ILOAD {
        if pc + 1 >= n {
            StepRes::Failed { err: VmError::TruncatedCode }
        } else {
            load_next(code[pc + 1] as int, pc + 2, stack, locals, out, max)
        }
    } else if OP_ILOAD_0 <= op && op <= OP_ILOAD_3 {
        load_next((op - OP_ILOAD_0) as int, pc + 1, stack, locals, out, max)
    } else if op == OP_ISTORE {
        if pc + 1 >= n {
            StepRes::Failed { err: VmError::TruncatedCode }
        } else {
            store_next(code[pc + 1] as int, pc + 2, stack, locals, out)
        }
    } else if OP_ISTORE_0 <= op && op <= OP_ISTORE_3 {
        store_next((op - OP_ISTORE_0) as int, pc + 1, stack, locals, out)
    } else if op == OP_IINC {
        if pc + 2 >= n {
            StepRes::Failed { err: VmError::TruncatedCode }
        } else {
            let idx = code[pc + 1] as int;
            if idx >= locals.len() {
                StepRes::Failed { err: VmError::BadLocalIndex }
            } else {
                StepRes::Next {
                    pc: pc + 3,
                    stack,
                    locals: locals.update(
                        idx,
                        i32_specs::wrapping_add(locals[idx], imm8(code[pc + 2]) as i32),
                    ),
                    out,
                }
            }
        }
    } else if op == OP_IADD || op == OP_ISUB || op == OP_IMUL || op == OP_IDIV || op == OP_IREM {
        if stack.len() < 2 {
            StepRes::Failed { err: VmError::StackUnderflow }
        } else {
            let b = stack.last();
            let a = stack[stack.len() - 2];
            if (op == OP_IDIV || op == OP_IREM) && b == 0 {
                StepRes::Failed { err: VmError::DivisionByZero }
            } else {
                StepRes::Next {
                    pc: pc + 1,
                    stack: stack.drop_last().drop_last().push(arith(op, a, b)),
                    locals,
                    out,
                }
            }
        }
    } else if op == OP_INEG {
        if stack.len() < 1 {
            StepRes::Failed { err: VmError::StackUnderflow }
        } else {
            StepRes::Next {
                pc: pc + 1,
                stack: stack.update(stack.len() - 1, jneg(stack.last())),
                locals,
                out,
            }
        }
    } else if OP_IFEQ <= op && op <= OP_IFLE {
        if pc + 2 >= n {
            StepRes::Failed { err: VmError::TruncatedCode }
        } else if stack.len() < 1 {
            StepRes::Failed { err: VmError::StackUnderflow }
        } else {
            let target = if cond1(op, stack.last()) {
                pc + imm16(code[pc + 1], code[pc + 2])
            } else {
                pc + 3
            };
            StepRes::Next { pc: target, stack: stack.drop_last(), locals, out }
        }
    } else if OP_IF_ICMPEQ <= op && op <= OP_IF_ICMPLE {
        if pc + 2 >= n {
            StepRes::Failed { err: VmError::TruncatedCode }
        } else if stack.len() < 2 {
            StepRes::Failed { err: VmError::StackUnderflow }
        } else {
            let target = if cond2(op, stack[stack.len() - 2], stack.last()) {
                pc + imm16(code[pc + 1], code[pc + 2])
            } else {
                pc + 3
            };
            StepRes::Next { pc: target, stack: stack.drop_last().drop_last(), locals, out }
        }
    } else if op == OP_GOTO {
        if pc + 2 >= n {
            StepRes::Failed { err: VmError::TruncatedCode }
        } else {
            StepRes::Next { pc: pc + imm16(code[pc + 1], code[pc + 2]), stack, locals, out }
        }
    } else if op == OP_GETSTATIC {
        StepRes::Next { pc: pc + 3, stack, locals, out }
    } else if op == OP_INVOKEVIRTUAL {
        if stack.len() < 1 {
            StepRes::Failed { err: VmError::StackUnderflow }
        } else {
            StepRes::Next {
                pc: pc + 3,
                stack: stack.drop_last(),
                locals,
                out: out.push(stack.last()),
            }
        }
    } else if op == OP_INVOKESTATIC {
        if pc + 2 >= n {
            StepRes::Failed { err: VmError::TruncatedCode }
        } else {
            match spec_resolve_method(c, idx16(code[pc + 1], code[pc + 2])) {
                Err(e) => StepRes::Failed { err: e },
                Ok(mi) => {
                    let callee = c.methods[mi];
                    if callee.descriptor.len() < 3 {
                        StepRes::Failed { err: VmError::BadDescriptor }
                    } else {
                        let np = callee.descriptor.len() - 3;
                        if np > stack.len() {
                            StepRes::Failed { err: VmError::StackUnderflow }
                        } else if np > callee.code.max_locals {
                            StepRes::Failed { err: VmError::BadLocalIndex }
                        } else {
                            StepRes::Call {
                                callee: mi,
                                args: stack.subrange(stack.len() - np, stack.len() as int)
                                    + Seq::new((callee.code.max_locals - np) as nat, |i: int| 0i32),
                                ret_pc: pc + 3,
                                stack: stack.take(stack.len() - np),
                            }
                        }
                    }
                },
            }
        }
    } else {
        StepRes::Failed { err: VmError::UnknownOpcode }
    }
}

/// What a whole invocation produces: a return value (or void) and the
/// values printed so far, or a fatal error and the values printed up to
/// it.
pub enum Outcome {
    Done { ret: Option<i32>, out: Seq<i32> },
    Abort { err: VmError, out: Seq<i32> },
}

/// Run `m` from the given frame state. Execution ends with a void return
/// when `pc` leaves the code array (in particular after a branch to a
/// negative target, matching a program counter that wraps past the end).
/// `steps` bounds the instructions left in this invocation, `budget` is
/// the bound a fresh invocation starts from, and `depth` bounds nested
/// calls; exhausting one is the `OutOfSteps` or `CallDepthExceeded`
/// error.
#[verifier::opaque]
pub open spec fn spec_run(
    c: SpecClassFile,
    m: SpecMethod,
    pc: int,
    stack: Seq<i32>,
    locals: Seq<i32>,
    out: Seq<i32>,
    depth: nat,
    budget: nat,
    steps: nat,
) -> Outcome
    decreases depth, steps,
{
    if pc < 0 || pc >= m.code.code.len() {
        Outcome::Done { ret: None, out }
    } else if steps == 0 {
        Outcome::Abort { err: VmError::OutOfSteps, out }
    } else {
        match spec_step(c, m, pc, stack, locals, out) {
            StepRes::Next { pc: pc2, stack: st2, locals: lo2, out: out2 } => spec_run(
                c,
                m,
                pc2,
                st2,
                lo2,
                out2,
                depth,
                budget,
                (steps - 1) as nat,
            ),
            StepRes::Leave { ret } => Outcome::Done { ret, out },
            StepRes::Failed { err } => Outcome::Abort { err, out },
            StepRes::Call { callee, args, ret_pc, stack: st2 } => {
                if depth == 0 {
                    Outcome::Abort { err: VmError::CallDepthExceeded, out }
                } else {
                    match spec_run(
                        c,
                        c.methods[callee],
                        0,
                        Seq::empty(),
                        args,
                        out,
                        (depth - 1) as nat,
                        budget,
                        budget,
                    ) {
                        Outcome::Abort { err, out: out2 } => Outcome::Abort { err, out: out2 },
                        Outcome::Done { ret: None, out: out2 } => spec_run(
                            c,
                            m,
                            ret_pc,
                            st2,
                            locals,
                            out2,
                            depth,
                            budget,
                            (steps - 1) as nat,
                        ),
                        Outcome::Done { ret: Some(v), out: out2 } => {
                            if st2.len() >= m.code.max_stack {
                                Outcome::Abort { err: VmError::StackOverflow, out: out2 }
                            } else {
                                spec_run(
                                    c,
                                    m,
                                    ret_pc,
                                    st2.push(v),
                                    locals,
                                    out2,
                                    depth,
                                    budget,
                                    (steps - 1) as nat,
                                )
                            }
                        },
                    }
                }
            },
        }
    }
}

/// A found method index is in range.
pub proof fn lemma_find_from_range(methods: Seq<SpecMethod>, name: Seq<u8>, desc: Seq<u8>, i: int, j: int)
    requires
        find_from(methods, name, desc, i) == Some(j),
    ensures
        0 <= j < methods.len(),
    decreases methods.len() - i,
{
    if i < 0 || i >= methods.len() {
    } else if methods[i].name == name && methods[i].descriptor == desc {
    } else {
        lemma_find_from_range(methods, name, desc, i + 1, j);
    }
}

/// A resolved method index is in range of the method table.
pub proof fn lemma_resolve_in_range(c: SpecClassFile, index: u16, j: int)
    requires
        spec_resolve_method(c, index) == Ok::<int, VmError>(j),
    ensures
        0 <= j < c.methods.len(),
{
    match spec_name_and_type(c.constant_pool, index) {
        Err(_) => {},
        Ok((ni, di)) => match spec_get_constant(c.constant_pool, ni) {
            Ok(SpecConstant::Utf8 { bytes: name }) => match spec_get_constant(
                c.constant_pool,
                di,
            ) {
                Ok(SpecConstant::Utf8 { bytes: desc }) => {
                    lemma_find_from_range(c.methods, name, desc, 0, j);
                },
                _ => {},
            },
            _ => {},
        },
    }
}

proof fn lemma_run_unfold_call(
    c: SpecClassFile,
    m: SpecMethod,
    pc: int,
    stack: Seq<i32>,
    locals: Seq<i32>,
    out: Seq<i32>,
    depth: nat,
    budget: nat,
    steps: nat,
    callee: int,
    args: Seq<i32>,
    ret_pc: int,
    st2: Seq<i32>,
)
    requires
        0 <= pc < m.code.code.len(),
        steps > 0,
        spec_step(c, m, pc, stack, locals, out) == (StepRes::Call { callee, args, ret_pc, stack: st2 }),
    ensures
        depth == 0 ==> spec_run(c, m, pc, stack, locals, out, depth, budget, steps) == (Outcome::Abort {
            err: VmError::CallDepthExceeded,
            out,
        }),
        depth > 0 ==> spec_run(c, m, pc, stack, locals, out, depth, budget, steps) == ({
            match spec_run(
                c,
                c.methods[callee],
                0,
                Seq::empty(),
                args,
                out,
                (depth - 1) as nat,
                budget,
                budget,
            ) {
                Outcome::Abort { err, out: out2 } => Outcome::Abort { err, out: out2 },
                Outcome::Done { ret: None, out: out2 } => spec_run(
                    c,
                    m,
                    ret_pc,
                    st2,
                    locals,
                    out2,
                    depth,
                    budget,
                    (steps - 1) as nat,
                ),
                Outcome::Done { ret: Some(v), out: out2 } => {
                    if st2.len() >= m.code.max_stack {
                        Outcome::Abort { err: VmError::StackOverflow, out: out2 }
                    } else {
                        spec_run(
                            c,
                            m,
                            ret_pc,
                            st2.push(v),
                            locals,
                            out2,
                            depth,
                            budget,
                            (steps - 1) as nat,
                        )
                    }
                },
            }
        }),
{
    reveal(spec_step);
    reveal_with_fuel(spec_run, 1);
}

proof fn lemma_op_ireturn(c: SpecClassFile, m: SpecMethod, pc: int, stack: Seq<i32>, locals: Seq<i32>, out: Seq<i32>, d: nat, b: nat, s: nat)
    requires
        0 <= pc < m.code.code.len(),
        s > 0,
        m.code.code[pc] == OP_IRETURN,
    ensures
        stack.len() == 0 ==> spec_run(c, m, pc, stack, locals, out, d, b, s) == (Outcome::Abort { err: VmError::StackUnderflow, out }),
        stack.len() >= 1 ==> spec_run(c, m, pc, stack, locals, out, d, b, s) == (Outcome::Done { ret: Some(stack.last()), out }),
{
    reveal(spec_step);
    reveal_with_fuel(spec_run, 1);
}

proof fn lemma_op_return(c: SpecClassFile, m: SpecMethod, pc: int, stack: Seq<i32>, locals: Seq<i32>, out: Seq<i32>, d: nat, b: nat, s: nat)
    requires
        0 <= pc < m.code.code.len(),
        s > 0,
        m.code.code[pc] == OP_RETURN,
    ensures
        spec_run(c, m, pc, stack, locals, out, d, b, s) == (Outcome::Done { ret: None, out }),
{
    reveal(spec_step);
    reveal_with_fuel(spec_run, 1);
}

proof fn lemma_op_iconst(c: SpecClassFile, m: SpecMethod, pc: int, stack: Seq<i32>, locals: Seq<i32>, out: Seq<i32>, d: nat, b: nat, s: nat)
    requires
        0 <= pc < m.code.code.len(),
        s > 0,
        OP_ICONST_M1 <= m.code.code[pc] <= OP_ICONST_5,
    ensures
        stack.len() >= m.code.max_stack ==> spec_run(c, m, pc, stack, locals, out, d, b, s) == (Outcome::Abort { err: VmError::StackOverflow, out }),
        stack.len() < m.code.max_stack ==> spec_run(c, m, pc, stack, locals, out, d, b, s) == spec_run(c, m, pc + 1, stack.push((m.code.code[pc] - OP_ICONST_0) as i32), locals, out, d, b, (s - 1) as nat),
{
    reveal(spec_step);
    reveal_with_fuel(spec_run, 1);
}

proof fn lemma_op_bipush(c: SpecClassFile, m: SpecMethod, pc: int, stack: Seq<i32>, locals: Seq<i32>, out: Seq<i32>, d: nat, b: nat, s: nat)
    requires
        0 <= pc < m.code.code.len(),
        s > 0,
        m.code.code[pc] == OP_BIPUSH,
    ensures
        pc + 1 >= m.code.code.len() ==> spec_run(c, m, pc, stack, locals, out, d, b, s) == (Outcome::Abort { err: VmError::TruncatedCode, out }),
        pc + 1 < m.code.code.len() && stack.len() >= m.code.max_stack ==> spec_run(c, m, pc, stack, locals, out, d, b, s) == (Outcome::Abort { err: VmError::StackOverflow, out }),
        pc + 1 < m.code.code.len() && stack.len() < m.code.max_stack ==> spec_run(c, m, pc, stack, locals, out, d, b, s) == spec_run(c, m, pc + 2, stack.push(imm8(m.code.code[pc + 1]) as i32), locals, out, d, b, (s - 1) as nat),
{
    reveal(spec_step);
    reveal_with_fuel(spec_run, 1);
}

proof fn lemma_op_sipush(c: SpecClassFile, m: SpecMethod, pc: int, stack: Seq<i32>, locals: Seq<i32>, out: Seq<i32>, d: nat, b: nat, s: nat)
    requires
        0 <= pc < m.code.code.len(),
        s > 0,
        m.code.code[pc] == OP_SIPUSH,
    ensures
        pc + 2 >= m.code.code.len() ==> spec_run(c, m, pc, stack, locals, out, d, b, s) == (Outcome::Abort { err: VmError::TruncatedCode, out }),
        pc + 2 < m.code.code.len() && stack.len() >= m.code.max_stack ==> spec_run(c, m, pc, stack, locals, out, d, b, s) == (Outcome::Abort { err: VmError::StackOverflow, out }),
        pc + 2 < m.code.code.len() && stack.len() < m.code.max_stack ==> spec_run(c, m, pc, stack, locals, out, d, b, s) == spec_run(c, m, pc + 3, stack.push(imm16(m.code.code[pc + 1], m.code.code[pc + 2]) as i32), locals, out, d, b, (s - 1) as nat),
{
    reveal(spec_step);
    reveal_with_fuel(spec_run, 1);
}

proof fn lemma_op_ldc(c: SpecClassFile, m: SpecMethod, pc: int, stack: Seq<i32>, locals: Seq<i32>, out: Seq<i32>, d: nat, b: nat, s: nat)
    requires
        0 <= pc < m.code.code.len(),
        s > 0,
        m.code.code[pc] == OP_LDC,
    ensures
        pc + 1 >= m.code.code.len() ==> spec_run(c, m, pc, stack, locals, out, d, b, s) == (Outcome::Abort { err: VmError::TruncatedCode, out }),
        pc + 1 < m.code.code.len() ==> spec_run(c, m, pc, stack, locals, out, d, b, s) == ({
            match spec_get_constant(c.constant_pool, m.code.code[pc + 1] as u16) {
                Err(e) => Outcome::Abort { err: e, out },
                Ok(SpecConstant::Integer { value }) => {
                    if stack.len() >= m.code.max_stack {
                        Outcome::Abort { err: VmError::StackOverflow, out }
                    } else {
                        spec_run(c, m, pc + 2, stack.push(value), locals, out, d, b, (s - 1) as nat)
                    }
                },
                Ok(_) => Outcome::Abort { err: VmError::ExpectedInteger, out },
            }
        }),
{
    reveal(spec_step);
    reveal_with_fuel(spec_run, 1);
}

proof fn lemma_op_iload_imm(c: SpecClassFile, m: SpecMethod, pc: int, stack: Seq<i32>, locals: Seq<i32>, out: Seq<i32>, d: nat, b: nat, s: nat)
    requires
        0 <= pc < m.code.code.len(),
        s > 0,
        m.code.code[pc] == OP_ILOAD,
    ensures
        pc + 1 >= m.code.code.len() ==> spec_run(c, m, pc, stack, locals, out, d, b, s) == (Outcome::Abort { err: VmError::TruncatedCode, out }),
        pc + 1 < m.code.code.len() && m.code.code[pc + 1] >= locals.len() ==> spec_run(c, m, pc, stack, locals, out, d, b, s) == (Outcome::Abort { err: VmError::BadLocalIndex, out }),
        pc + 1 < m.code.code.len() && m.code.code[pc + 1] < locals.len() && stack.len() >= m.code.max_stack ==> spec_run(c, m, pc, stack, locals, out, d, b, s) == (Outcome::Abort { err: VmError::StackOverflow, out }),
        pc + 1 < m.code.code.len() && m.code.code[pc + 1] < locals.len() && stack.len() < m.code.max_stack ==> spec_run(c, m, pc, stack, locals, out, d, b, s) == spec_run(c, m, pc + 2, stack.push(locals[m.code.code[pc + 1] as int]), locals, out, d, b, (s - 1) as nat),
{
    reveal(spec_step);
    reveal_with_fuel(spec_run, 1);
}

proof fn lemma_op_iload_n(c: SpecClassFile, m: SpecMethod, pc: int, stack: Seq<i32>, locals: Seq<i32>, out: Seq<i32>, d: nat, b: nat, s: nat)
    requires
        0 <= pc < m.code.code.len(),
        s > 0,
        OP_ILOAD_0 <= m.code.code[pc] <= OP_ILOAD_3,
    ensures
        m.code.code[pc] - OP_ILOAD_0 >= locals.len() ==> spec_run(c, m, pc, stack, locals, out, d, b, s) == (Outcome::Abort { err: VmError::BadLocalIndex, out }),
        m.code.code[pc] - OP_ILOAD_0 < locals.len() && stack.len() >= m.code.max_stack ==> spec_run(c, m, pc, stack, locals, out, d, b, s) == (Outcome::Abort { err: VmError::StackOverflow, out }),
        m.code.code[pc] - OP_ILOAD_0 < locals.len() && stack.len() < m.code.max_stack ==> spec_run(c, m, pc, stack, locals, out, d, b, s) == spec_run(c, m, pc + 1, stack.push(locals[m.code.code[pc] - OP_ILOAD_0]), locals, out, d, b, (s - 1) as nat),
{
    reveal(spec_step);
    reveal_with_fuel(spec_run, 1);
}

proof fn lemma_op_istore_imm(c: SpecClassFile, m: SpecMethod, pc: int, stack: Seq<i32>, locals: Seq<i32>, out: Seq<i32>, d: nat, b: nat, s: nat)
    requires
        0 <= pc < m.code.code.len(),
        s > 0,
        m.code.code[pc] == OP_ISTORE,
    ensures
        pc + 1 >= m.code.code.len() ==> spec_run(c, m, pc, stack, locals, out, d, b, s) == (Outcome::Abort { err: VmError::TruncatedCode, out }),
        pc + 1 < m.code.code.len() && stack.len() == 0 ==> spec_run(c, m, pc, stack, locals, out, d, b, s) == (Outcome::Abort { err: VmError::StackUnderflow, out }),
        pc + 1 < m.code.code.len() && stack.len() >= 1 && m.code.code[pc + 1] >= locals.len() ==> spec_run(c, m, pc, stack, locals, out, d, b, s) == (Outcome::Abort { err: VmError::BadLocalIndex, out }),
        pc + 1 < m.code.code.len() && stack.len() >= 1 && m.code.code[pc + 1] < locals.len() ==> spec_run(c, m, pc, stack, locals, out, d, b, s) == spec_run(c, m, pc + 2, stack.drop_last(), locals.update(m.code.code[pc + 1] as int, stack.last()), out, d, b, (s - 1) as nat),
{
    reveal(spec_step);
    reveal_with_fuel(spec_run, 1);
}

proof fn lemma_op_istore_n(c: SpecClassFile, m: SpecMethod, pc: int, stack: Seq<i32>, locals: Seq<i32>, out: Seq<i32>, d: nat, b: nat, s: nat)
    requires
        0 <= pc < m.code.code.len(),
        s > 0,
        OP_ISTORE_0 <= m.code.code[pc] <= OP_ISTORE_3,
    ensures
        stack.len() == 0 ==> spec_run(c, m, pc, stack, locals, out, d, b, s) == (Outcome::Abort { err: VmError::StackUnderflow, out }),
        stack.len() >= 1 && m.code.code[pc] - OP_ISTORE_0 >= locals.len() ==> spec_run(c, m, pc, stack, locals, out, d, b, s) == (Outcome::Abort { err: VmError::BadLocalIndex, out }),
        stack.len() >= 1 && m.code.code[pc] - OP_ISTORE_0 < locals.len() ==> spec_run(c, m, pc, stack, locals, out, d, b, s) == spec_run(c, m, pc + 1, stack.drop_last(), locals.update(m.code.code[pc] - OP_ISTORE_0, stack.last()), out, d, b, (s - 1) as nat),
{
    reveal(spec_step);
    reveal_with_fuel(spec_run, 1);
}

proof fn lemma_op_iinc(c: SpecClassFile, m: SpecMethod, pc: int, stack: Seq<i32>, locals: Seq<i32>, out: Seq<i32>, d: nat, b: nat, s: nat)
    requires
        0 <= pc < m.code.code.len(),
        s > 0,
        m.code.code[pc] == OP_IINC,
    ensures
        pc + 2 >= m.code.code.len() ==> spec_run(c, m, pc, stack, locals, out, d, b, s) == (Outcome::Abort { err: VmError::TruncatedCode, out }),
        pc + 2 < m.code.code.len() && m.code.code[pc + 1] >= locals.len() ==> spec_run(c, m, pc, stack, locals, out, d, b, s) == (Outcome::Abort { err: VmError::BadLocalIndex, out }),
        pc + 2 < m.code.code.len() && m.code.code[pc + 1] < locals.len() ==> spec_run(c, m, pc, stack, locals, out, d, b, s) == spec_run(c, m, pc + 3, stack, locals.update(m.code.code[pc + 1] as int, i32_specs::wrapping_add(locals[m.code.code[pc + 1] as int], imm8(m.code.code[pc + 2]) as i32)), out, d, b, (s - 1) as nat),
{
    reveal(spec_step);
    reveal_with_fuel(spec_run, 1);
}

proof fn lemma_op_arith(c: SpecClassFile, m: SpecMethod, pc: int, stack: Seq<i32>, locals: Seq<i32>, out: Seq<i32>, d: nat, b: nat, s: nat)
    requires
        0 <= pc < m.code.code.len(),
        s > 0,
        m.code.code[pc] == OP_IADD || m.code.code[pc] == OP_ISUB || m.code.code[pc] == OP_IMUL
            || m.code.code[pc] == OP_IDIV || m.code.code[pc] == OP_IREM,
    ensures
        stack.len() < 2 ==> spec_run(c, m, pc, stack, locals, out, d, b, s) == (Outcome::Abort { err: VmError::StackUnderflow, out }),
        stack.len() >= 2 && (m.code.code[pc] == OP_IDIV || m.code.code[pc] == OP_IREM) && stack.last() == 0 ==> spec_run(c, m, pc, stack, locals, out, d, b, s) == (Outcome::Abort { err: VmError::DivisionByZero, out }),
        stack.len() >= 2 && !((m.code.code[pc] == OP_IDIV || m.code.code[pc] == OP_IREM) && stack.last() == 0) ==> spec_run(c, m, pc, stack, locals, out, d, b, s) == spec_run(c, m, pc + 1, stack.drop_last().drop_last().push(arith(m.code.code[pc], stack[stack.len() - 2], stack.last())), locals, out, d, b, (s - 1) as nat),
{
    reveal(spec_step);
    reveal_with_fuel(spec_run, 1);
}

proof fn lemma_op_ineg(c: SpecClassFile, m: SpecMethod, pc: int, stack: Seq<i32>, locals: Seq<i32>, out: Seq<i32>, d: nat, b: nat, s: nat)
    requires
        0 <= pc < m.code.code.len(),
        s > 0,
        m.code.code[pc] == OP_INEG,
    ensures
        stack.len() == 0 ==> spec_run(c, m, pc, stack, locals, out, d, b, s) == (Outcome::Abort { err: VmError::StackUnderflow, out }),
        stack.len() >= 1 ==> spec_run(c, m, pc, stack, locals, out, d, b, s) == spec_run(c, m, pc + 1, stack.update(stack.len() - 1, jneg(stack.last())), locals, out, d, b, (s - 1) as nat),
{
    reveal(spec_step);
    reveal_with_fuel(spec_run, 1);
}

proof fn lemma_op_if(c: SpecClassFile, m: SpecMethod, pc: int, stack: Seq<i32>, locals: Seq<i32>, out: Seq<i32>, d: nat, b: nat, s: nat)
    requires
        0 <= pc < m.code.code.len(),
        s > 0,
        OP_IFEQ <= m.code.code[pc] <= OP_IFLE,
    ensures
        pc + 2 >= m.code.code.len() ==> spec_run(c, m, pc, stack, locals, out, d, b, s) == (Outcome::Abort { err: VmError::TruncatedCode, out }),
        pc + 2 < m.code.code.len() && stack.len() == 0 ==> spec_run(c, m, pc, stack, locals, out, d, b, s) == (Outcome::Abort { err: VmError::StackUnderflow, out }),
        pc + 2 < m.code.code.len() && stack.len() >= 1 ==> spec_run(c, m, pc, stack, locals, out, d, b, s) == spec_run(c, m, if cond1(m.code.code[pc], stack.last()) { pc + imm16(m.code.code[pc + 1], m.code.code[pc + 2]) } else { pc + 3 }, stack.drop_last(), locals, out, d, b, (s - 1) as nat),
{
    reveal(spec_step);
    reveal_with_fuel(spec_run, 1);
}

proof fn lemma_op_ifcmp(c: SpecClassFile, m: SpecMethod, pc: int, stack: Seq<i32>, locals: Seq<i32>, out: Seq<i32>, d: nat, b: nat, s: nat)
    requires
        0 <= pc < m.code.code.len(),
        s > 0,
        OP_IF_ICMPEQ <= m.code.code[pc] <= OP_IF_ICMPLE,
    ensures
        pc + 2 >= m.code.code.len() ==> spec_run(c, m, pc, stack, locals, out, d, b, s) == (Outcome::Abort { err: VmError::TruncatedCode, out }),
        pc + 2 < m.code.code.len() && stack.len() < 2 ==> spec_run(c, m, pc, stack, locals, out, d, b, s) == (Outcome::Abort { err: VmError::StackUnderflow, out }),
        pc + 2 < m.code.code.len() && stack.len() >= 2 ==> spec_run(c, m, pc, stack, locals, out, d, b, s) == spec_run(c, m, if cond2(m.code.code[pc], stack[stack.len() - 2], stack.last()) { pc + imm16(m.code.code[pc + 1], m.code.code[pc + 2]) } else { pc + 3 }, stack.drop_last().drop_last(), locals, out, d, b, (s - 1) as nat),
{
    reveal(spec_step);
    reveal_with_fuel(spec_run, 1);
}

proof fn lemma_op_goto(c: SpecClassFile, m: SpecMethod, pc: int, stack: Seq<i32>, locals: Seq<i32>, out: Seq<i32>, d: nat, b: nat, s: nat)
    requires
        0 <= pc < m.code.code.len(),
        s > 0,
        m.code.code[pc] == OP_GOTO,
    ensures
        pc + 2 >= m.code.code.len() ==> spec_run(c, m, pc, stack, locals, out, d, b, s) == (Outcome::Abort { err: VmError::TruncatedCode, out }),
        pc + 2 < m.code.code.len() ==> spec_run(c, m, pc, stack, locals, out, d, b, s) == spec_run(c, m, pc + imm16(m.code.code[pc + 1], m.code.code[pc + 2]), stack, locals, out, d, b, (s - 1) as nat),
{
    reveal(spec_step);
    reveal_with_fuel(spec_run, 1);
}

proof fn lemma_op_getstatic(c: SpecClassFile, m: SpecMethod, pc: int, stack: Seq<i32>, locals: Seq<i32>, out: Seq<i32>, d: nat, b: nat, s: nat)
    requires
        0 <= pc < m.code.code.len(),
        s > 0,
        m.code.code[pc] == OP_GETSTATIC,
    ensures
        spec_run(c, m, pc, stack, locals, out, d, b, s) == spec_run(c, m, pc + 3, stack, locals, out, d, b, (s - 1) as nat),
{
    reveal(spec_step);
    reveal_with_fuel(spec_run, 1);
}

proof fn lemma_op_invokevirtual(c: SpecClassFile, m: SpecMethod, pc: int, stack: Seq<i32>, locals: Seq<i32>, out: Seq<i32>, d: nat, b: nat, s: nat)
    requires
        0 <= pc < m.code.code.len(),
        s > 0,
        m.code.code[pc] == OP_INVOKEVIRTUAL,
    ensures
        stack.len() == 0 ==> spec_run(c, m, pc, stack, locals, out, d, b, s) == (Outcome::Abort { err: VmError::StackUnderflow, out }),
        stack.len() >= 1 ==> spec_run(c, m, pc, stack, locals, out, d, b, s) == spec_run(c, m, pc + 3, stack.drop_last(), locals, out.push(stack.last()), d, b, (s - 1) as nat),
{
    reveal(spec_step);
    reveal_with_fuel(spec_run, 1);
}

proof fn lemma_op_unknown(c: SpecClassFile, m: SpecMethod, pc: int, stack: Seq<i32>, locals: Seq<i32>, out: Seq<i32>, d: nat, b: nat, s: nat)
    requires
        0 <= pc < m.code.code.len(),
        s > 0,
        !(OP_ICONST_M1 <= m.code.code[pc] <= OP_ICONST_5),
        !(OP_ILOAD_0 <= m.code.code[pc] <= OP_ILOAD_3),
        !(OP_ISTORE_0 <= m.code.code[pc] <= OP_ISTORE_3),
        !(OP_IFEQ <= m.code.code[pc] <= OP_IFLE),
        !(OP_IF_ICMPEQ <= m.code.code[pc] <= OP_IF_ICMPLE),
        m.code.code[pc] != OP_BIPUSH,
        m.code.code[pc] != OP_SIPUSH,
        m.code.code[pc] != OP_LDC,
        m.code.code[pc] != OP_ILOAD,
        m.code.code[pc] != OP_ISTORE,
        m.code.code[pc] != OP_IINC,
        m.code.code[pc] != OP_IADD,
        m.code.code[pc] != OP_ISUB,
        m.code.code[pc] != OP_IMUL,
        m.code.code[pc] != OP_IDIV,
        m.code.code[pc] != OP_IREM,
        m.code.code[pc] != OP_INEG,
        m.code.code[pc] != OP_GOTO,
        m.code.code[pc] != OP_IRETURN,
        m.code.code[pc] != OP_RETURN,
        m.code.code[pc] != OP_GETSTATIC,
        m.code.code[pc] != OP_INVOKEVIRTUAL,
        m.code.code[pc] != OP_INVOKESTATIC,
    ensures
        spec_run(c, m, pc, stack, locals, out, d, b, s) == (Outcome::Abort { err: VmError::UnknownOpcode, out }),
{
    reveal(spec_step);
    reveal_with_fuel(spec_run, 1);
}

/// The arguments an `invokestatic` hands its callee: the top `np` stack
/// values, deepest first, then zeroed locals.
pub open spec fn call_args(stack: Seq<i32>, np: int, max_locals: int) -> Seq<i32> {
    stack.subrange(stack.len() - np, stack.len() as int) + Seq::new(
        (max_locals - np) as nat,
        |i: int| 0i32,
    )
}

/// Everything an `invokestatic` at `pc` produces once its two operand
/// bytes are in range: the resolution errors, the frame-shape errors, the
/// depth check, and the callee run followed by the caller's continuation.
pub open spec fn invoke_static_outcome(
    c: SpecClassFile,
    m: SpecMethod,
    pc: int,
    stack: Seq<i32>,
    locals: Seq<i32>,
    out: Seq<i32>,
    d: nat,
    b: nat,
    s: nat,
) -> Outcome {
    match spec_resolve_method(c, idx16(m.code.code[pc + 1], m.code.code[pc + 2])) {
        Err(e) => Outcome::Abort { err: e, out },
        Ok(mi) => {
            let callee = c.methods[mi];
            if callee.descriptor.len() < 3 {
                Outcome::Abort { err: VmError::BadDescriptor, out }
            } else {
                let np = callee.descriptor.len() - 3;
                if np > stack.len() {
                    Outcome::Abort { err: VmError::StackUnderflow, out }
                } else if np > callee.code.max_locals {
                    Outcome::Abort { err: VmError::BadLocalIndex, out }
                } else if d == 0 {
                    Outcome::Abort { err: VmError::CallDepthExceeded, out }
                } else {
                    let st2 = stack.take(stack.len() - np);
                    match spec_run(
                        c,
                        callee,
                        0,
                        Seq::empty(),
                        call_args(stack, np as int, callee.code.max_locals as int),
                        out,
                        (d - 1) as nat,
                        b,
                        b,
                    ) {
                        Outcome::Abort { err, out: out2 } => Outcome::Abort { err, out: out2 },
                        Outcome::Done { ret: None, out: out2 } => spec_run(
                            c,
                            m,
                            pc + 3,
                            st2,
                            locals,
                            out2,
                            d,
                            b,
                            (s - 1) as nat,
                        ),
                        Outcome::Done { ret: Some(v), out: out2 } => {
                            if st2.len() >= m.code.max_stack {
                                Outcome::Abort { err: VmError::StackOverflow, out: out2 }
                            } else {
                                spec_run(c, m, pc + 3, st2.push(v), locals, out2, d, b, (s - 1) as nat)
                            }
                        },
                    }
                }
            }
        },
    }
}

proof fn lemma_op_invokestatic(c: SpecClassFile, m: SpecMethod, pc: int, stack: Seq<i32>, locals: Seq<i32>, out: Seq<i32>, d: nat, b: nat, s: nat)
    requires
        0 <= pc < m.code.code.len(),
        s > 0,
        m.code.code[pc] == OP_INVOKESTATIC,
    ensures
        pc + 2 >= m.code.code.len() ==> spec_run(c, m, pc, stack, locals, out, d, b, s) == (Outcome::Abort { err: VmError::TruncatedCode, out }),
        pc + 2 < m.code.code.len() ==> spec_run(c, m, pc, stack, locals, out, d, b, s) == invoke_static_outcome(c, m, pc, stack, locals, out, d, b, s),
{
    reveal(spec_step);
    reveal_with_fuel(spec_run, 1);
    if pc + 2 < m.code.code.len() {
        match spec_resolve_method(c, idx16(m.code.code[pc + 1], m.code.code[pc + 2])) {
            Err(e) => {},
            Ok(mi) => {
                let callee = c.methods[mi];
                if callee.descriptor.len() >= 3 {
                    let np = callee.descriptor.len() - 3;
                    if np <= stack.len() && np <= callee.code.max_locals && d > 0 {
                        assert(spec_step(c, m, pc, stack, locals, out) == (StepRes::Call {
                            callee: mi,
                            args: call_args(stack, np as int, callee.code.max_locals as int),
                            ret_pc: pc + 3,
                            stack: stack.take(stack.len() - np),
                        }));
                        lemma_run_unfold_call(c, m, pc, stack, locals, out, d, b, s, mi, call_args(stack, np as int, callee.code.max_locals as int), pc + 3, stack.take(stack.len() - np));
                    }
                }
            },
        }
    }
}

proof fn lemma_run_done(c: SpecClassFile, m: SpecMethod, pc: int, stack: Seq<i32>, locals: Seq<i32>, out: Seq<i32>, d: nat, b: nat, s: nat)
    requires
        pc < 0 || pc >= m.code.code.len(),
    ensures
        spec_run(c, m, pc, stack, locals, out, d, b, s) == (Outcome::Done { ret: None, out }),
{
    reveal_with_fuel(spec_run, 1);
}

proof fn lemma_run_out_of_steps(c: SpecClassFile, m: SpecMethod, pc: int, stack: Seq<i32>, locals: Seq<i32>, out: Seq<i32>, d: nat, b: nat)
    requires
        0 <= pc < m.code.code.len(),
    ensures
        spec_run(c, m, pc, stack, locals, out, d, b, 0) == (Outcome::Abort {
            err: VmError::OutOfSteps,
            out,
        }),
{
    reveal_with_fuel(spec_run, 1);
}

/// Every method's code array fits the file format's 32-bit length field.
pub open spec fn class_code_bounded(c: SpecClassFile) -> bool {
    forall|i: int|
        0 <= i < c.methods.len() ==> (#[trigger] c.methods[i]).code.code.len() < 0x1_0000_0000
}

/// Execute `method` to completion: exactly the `spec_run` outcome, with
/// every printed value appended to `out`. The caller supplies the locals
/// (parameter slots filled, the rest zero), a call-depth bound and a
/// per-invocation instruction budget.
#[verifier::loop_isolation(false)]
#[verifier::rlimit(60)]
#[verifier::spinoff_prover]
pub fn execute(
    method: &Method,
    locals: Vec<i32>,
    class: &ClassFile,
    depth: u64,
    budget: u64,
    out: &mut Vec<i32>,
) -> (r: Result<Option<i32>, VmError>)
    requires
        method.code.code@.len() < 0x1_0000_0000,
        class_code_bounded(class@),
    ensures
        ({
            let o = spec_run(
                class@,
                method@,
                0,
                Seq::empty(),
                locals@,
                old(out)@,
                depth as nat,
                budget as nat,
                budget as nat,
            );
            match r {
                Ok(ret) => o == (Outcome::Done { ret, out: final(out)@ }),
                Err(e) => o == (Outcome::Abort { err: e, out: final(out)@ }),
            }
        }),
    decreases depth,
{
    let ghost c = class@;
    let ghost mv = method@;
    let ghost locals0 = locals@;
    let ghost out0 = out@;
    let mut locals = locals;
    let mut stack: Vec<i32> = Vec::new();
    let max_stack = method.code.max_stack;
    let code = &method.code.code;
    let n = code.len();
    let mut pc: u64 = 0;
    let mut steps_left: u64 = budget;
    while pc < n as u64
        invariant
            stack@.len() <= max_stack as int,
            spec_run(c, mv, 0, Seq::empty(), locals0, out0, depth as nat, budget as nat, budget as nat)
                == spec_run(
                c,
                mv,
                pc as int,
                stack@,
                locals@,
                out@,
                depth as nat,
                budget as nat,
                steps_left as nat,
            ),
        decreases steps_left,
    {
        if steps_left == 0 {
            proof {
                lemma_run_out_of_steps(c, mv, pc as int, stack@, locals@, out@, depth as nat, budget as nat);
            }
            return Err(VmError::OutOfSteps);
        }
        let ghost pc0 = pc as int;
        let ghost st0 = stack@;
        let ghost lo0 = locals@;
        let ghost ot0 = out@;
        let ghost steps0 = steps_left as nat;
        let current = code[pc as usize];
        match current {
            OP_IRETURN => {
                proof {
                    lemma_op_ireturn(c, mv, pc0, st0, lo0, ot0, depth as nat, budget as nat, steps0);
                }
                if stack.len() == 0 {
                    return Err(VmError::StackUnderflow);
                }
                let v = stack[stack.len() - 1];
                return Ok(Some(v));
            },
            OP_RETURN => {
                proof {
                    lemma_op_return(c, mv, pc0, st0, lo0, ot0, depth as nat, budget as nat, steps0);
                }
                return Ok(None);
            },
            OP_ICONST_M1..=OP_ICONST_5 => {
                proof {
                    lemma_op_iconst(c, mv, pc0, st0, lo0, ot0, depth as nat, budget as nat, steps0);
                }
                if stack.len() >= max_stack as usize {
                    return Err(VmError::StackOverflow);
                }
                let v: i32 = (current as i32) - (OP_ICONST_0 as i32);
                stack.push(v);
                pc = pc + 1;
                steps_left = steps_left - 1;
            },
            OP_BIPUSH => {
                proof {
                    lemma_op_bipush(c, mv, pc0, st0, lo0, ot0, depth as nat, budget as nat, steps0);
                }
                if pc + 1 >= n as u64 {
                    return Err(VmError::TruncatedCode);
                }
                if stack.len() >= max_stack as usize {
                    return Err(VmError::StackOverflow);
                }
                let v = sign_extend_8(code[(pc + 1) as usize]);
                stack.push(v);
                pc = pc + 2;
                steps_left = steps_left - 1;
            },
            OP_SIPUSH => {
                proof {
                    lemma_op_sipush(c, mv, pc0, st0, lo0, ot0, depth as nat, budget as nat, steps0);
                }
                if pc + 2 >= n as u64 {
                    return Err(VmError::TruncatedCode);
                }
                if stack.len() >= max_stack as usize {
                    return Err(VmError::StackOverflow);
                }
                let v = sign_extend_16(code[(pc + 1) as usize], code[(pc + 2) as usize]);
                stack.push(v);
                pc = pc + 3;
                steps_left = steps_left - 1;
            },
            OP_LDC => {
                proof {
                    lemma_op_ldc(c, mv, pc0, st0, lo0, ot0, depth as nat, budget as nat, steps0);
                }
                if pc + 1 >= n as u64 {
                    return Err(VmError::TruncatedCode);
                }
                let pool_index = code[(pc + 1) as usize] as u16;
                let v = match get_constant(&class.constant_pool, pool_index) {
                    Ok(ConstantPool::Integer { bytes }) => *bytes,
                    Ok(_) => {
                        return Err(VmError::ExpectedInteger);
                    },
                    Err(e) => {
                        return Err(e);
                    },
                };
                if stack.len() >= max_stack as usize {
                    return Err(VmError::StackOverflow);
                }
                stack.push(v);
                pc = pc + 2;
                steps_left = steps_left - 1;
            },
            OP_ILOAD => {
                proof {
                    lemma_op_iload_imm(c, mv, pc0, st0, lo0, ot0, depth as nat, budget as nat, steps0);
                }
                if pc + 1 >= n as u64 {
                    return Err(VmError::TruncatedCode);
                }
                let idx = code[(pc + 1) as usize] as usize;
                if idx >= locals.len() {
                    return Err(VmError::BadLocalIndex);
                }
                if stack.len() >= max_stack as usize {
                    return Err(VmError::StackOverflow);
                }
                let v = locals[idx];
                stack.push(v);
                pc = pc + 2;
                steps_left = steps_left - 1;
            },
            OP_ILOAD_0..=OP_ILOAD_3 => {
                proof {
                    lemma_op_iload_n(c, mv, pc0, st0, lo0, ot0, depth as nat, budget as nat, steps0);
                }
                let idx = (current - OP_ILOAD_0) as usize;
                if idx >= locals.len() {
                    return Err(VmError::BadLocalIndex);
                }
                if stack.len() >= max_stack as usize {
                    return Err(VmError::StackOverflow);
                }
                let v = locals[idx];
                stack.push(v);
                pc = pc + 1;
                steps_left = steps_left - 1;
            },
            OP_ISTORE => {
                proof {
                    lemma_op_istore_imm(c, mv, pc0, st0, lo0, ot0, depth as nat, budget as nat, steps0);
                }
                if pc + 1 >= n as u64 {
                    return Err(VmError::TruncatedCode);
                }
                let idx = code[(pc + 1) as usize] as usize;
                if stack.len() == 0 {
                    return Err(VmError::StackUnderflow);
                }
                if idx >= locals.len() {
                    return Err(VmError::BadLocalIndex);
                }
                let v = match stack.pop() {
                    Some(v) => v,
                    None => {
                        return Err(VmError::StackUnderflow);
                    },
                };
                locals[idx] = v;
                pc = pc + 2;
                steps_left = steps_left - 1;
            },
            OP_ISTORE_0..=OP_ISTORE_3 => {
                proof {
                    lemma_op_istore_n(c, mv, pc0, st0, lo0, ot0, depth as nat, budget as nat, steps0);
                }
                let idx = (current - OP_ISTORE_0) as usize;
                if stack.len() == 0 {
                    return Err(VmError::StackUnderflow);
                }
                if idx >= locals.len() {
                    return Err(VmError::BadLocalIndex);
                }
                let v = match stack.pop() {
                    Some(v) => v,
                    None => {
                        return Err(VmError::StackUnderflow);
                    },
                };
                locals[idx] = v;
                pc = pc + 1;
                steps_left = steps_left - 1;
            },
            OP_IINC => {
                proof {
                    lemma_op_iinc(c, mv, pc0, st0, lo0, ot0, depth as nat, budget as nat, steps0);
                }
                if pc + 2 >= n as u64 {
                    return Err(VmError::TruncatedCode);
                }
                let idx = code[(pc + 1) as usize] as usize;
                if idx >= locals.len() {
                    return Err(VmError::BadLocalIndex);
                }
                let delta = sign_extend_8(code[(pc + 2) as usize]);
                let v = locals[idx].wrapping_add(delta);
                locals[idx] = v;
                pc = pc + 3;
                steps_left = steps_left - 1;
            },
            OP_IADD | OP_ISUB | OP_IMUL | OP_IDIV | OP_IREM => {
                proof {
                    lemma_op_arith(c, mv, pc0, st0, lo0, ot0, depth as nat, budget as nat, steps0);
                }
                if stack.len() < 2 {
                    return Err(VmError::StackUnderflow);
                }
                let b = stack[stack.len() - 1];
                let a = stack[stack.len() - 2];
                if (current == OP_IDIV || current == OP_IREM) && b == 0 {
                    return Err(VmError::DivisionByZero);
                }
                let v = if current == OP_IADD {
                    a.wrapping_add(b)
                } else if current == OP_ISUB {
                    a.wrapping_sub(b)
                } else if current == OP_IMUL {
                    a.wrapping_mul(b)
                } else if current == OP_IDIV {
                    int_div(a, b)
                } else {
                    int_rem(a, b)
                };
                let _ = stack.pop();
                let _ = stack.pop();
                stack.push(v);
                pc = pc + 1;
                steps_left = steps_left - 1;
                proof {
                    assert(stack@ =~= st0.drop_last().drop_last().push(v));
                }
            },
            OP_INEG => {
                proof {
                    lemma_op_ineg(c, mv, pc0, st0, lo0, ot0, depth as nat, budget as nat, steps0);
                }
                if stack.len() == 0 {
                    return Err(VmError::StackUnderflow);
                }
                let top = stack.len() - 1;
                let v = int_neg(stack[top]);
                stack[top] = v;
                pc = pc + 1;
                steps_left = steps_left - 1;
            },
            OP_IFEQ..=OP_IFLE => {
                proof {
                    lemma_op_if(c, mv, pc0, st0, lo0, ot0, depth as nat, budget as nat, steps0);
                }
                if pc + 2 >= n as u64 {
                    return Err(VmError::TruncatedCode);
                }
                if stack.len() == 0 {
                    return Err(VmError::StackUnderflow);
                }
                let b1 = code[(pc + 1) as usize];
                let b2 = code[(pc + 2) as usize];
                let v = match stack.pop() {
                    Some(v) => v,
                    None => {
                        return Err(VmError::StackUnderflow);
                    },
                };
                let taken = if current == OP_IFEQ {
                    v == 0
                } else if current == OP_IFNE {
                    v != 0
                } else if current == OP_IFLT {
                    v < 0
                } else if current == OP_IFGE {
                    v >= 0
                } else if current == OP_IFGT {
                    v > 0
                } else {
                    v <= 0
                };
                let ghost tgt: int = if cond1(current, v) {
                    pc0 + imm16(b1, b2)
                } else {
                    pc0 + 3
                };
                proof {
                    assert(taken == cond1(current, v));
                }
                if taken {
                    let off = sign_extend_16(b1, b2);
                    let target: i64 = (pc as i64) + (off as i64);
                    if target < 0 {
                        proof {
                            lemma_run_done(c, mv, tgt, st0.drop_last(), lo0, ot0, depth as nat, budget as nat, (steps0 - 1) as nat);
                        }
                        return Ok(None);
                    }
                    pc = target as u64;
                } else {
                    pc = pc + 3;
                }
                steps_left = steps_left - 1;
            },
            OP_IF_ICMPEQ..=OP_IF_ICMPLE => {
                proof {
                    lemma_op_ifcmp(c, mv, pc0, st0, lo0, ot0, depth as nat, budget as nat, steps0);
                }
                if pc + 2 >= n as u64 {
                    return Err(VmError::TruncatedCode);
                }
                if stack.len() < 2 {
                    return Err(VmError::StackUnderflow);
                }
                let b1 = code[(pc + 1) as usize];
                let b2 = code[(pc + 2) as usize];
                let vb = match stack.pop() {
                    Some(v) => v,
                    None => {
                        return Err(VmError::StackUnderflow);
                    },
                };
                let va = match stack.pop() {
                    Some(v) => v,
                    None => {
                        return Err(VmError::StackUnderflow);
                    },
                };
                let taken = if current == OP_IF_ICMPEQ {
                    va == vb
                } else if current == OP_IF_ICMPNE {
                    va != vb
                } else if current == OP_IF_ICMPLT {
                    va < vb
                } else if current == OP_IF_ICMPGE {
                    va >= vb
                } else if current == OP_IF_ICMPGT {
                    va > vb
                } else {
                    va <= vb
                };
                let ghost tgt: int = if cond2(current, va, vb) {
                    pc0 + imm16(b1, b2)
                } else {
                    pc0 + 3
                };
                proof {
                    assert(taken == cond2(current, va, vb));
                }
                if taken {
                    let off = sign_extend_16(b1, b2);
                    let target: i64 = (pc as i64) + (off as i64);
                    if target < 0 {
                        proof {
                            lemma_run_done(c, mv, tgt, st0.drop_last().drop_last(), lo0, ot0, depth as nat, budget as nat, (steps0 - 1) as nat);
                        }
                        return Ok(None);
                    }
                    pc = target as u64;
                } else {
                    pc = pc + 3;
                }
                steps_left = steps_left - 1;
            },
            OP_GOTO => {
                proof {
                    lemma_op_goto(c, mv, pc0, st0, lo0, ot0, depth as nat, budget as nat, steps0);
                }
                if pc + 2 >= n as u64 {
                    return Err(VmError::TruncatedCode);
                }
                let b1 = code[(pc + 1) as usize];
                let b2 = code[(pc + 2) as usize];
                let ghost tgt: int = pc0 + imm16(b1, b2);
                let off = sign_extend_16(b1, b2);
                let target: i64 = (pc as i64) + (off as i64);
                if target < 0 {
                    proof {
                        lemma_run_done(c, mv, tgt, st0, lo0, ot0, depth as nat, budget as nat, (steps0 - 1) as nat);
                    }
                    return Ok(None);
                }
                pc = target as u64;
                steps_left = steps_left - 1;
            },
            OP_GETSTATIC => {
                proof {
                    lemma_op_getstatic(c, mv, pc0, st0, lo0, ot0, depth as nat, budget as nat, steps0);
                }
                pc = pc + 3;
                steps_left = steps_left - 1;
            },
            OP_INVOKEVIRTUAL => {
                proof {
                    lemma_op_invokevirtual(c, mv, pc0, st0, lo0, ot0, depth as nat, budget as nat, steps0);
                }
                if stack.len() == 0 {
                    return Err(VmError::StackUnderflow);
                }
                let v = match stack.pop() {
                    Some(v) => v,
                    None => {
                        return Err(VmError::StackUnderflow);
                    },
                };
                out.push(v);
                pc = pc + 3;
                steps_left = steps_left - 1;
            },
            OP_INVOKESTATIC => {
                proof {
                    lemma_op_invokestatic(c, mv, pc0, st0, lo0, ot0, depth as nat, budget as nat, steps0);
                }
                if pc + 2 >= n as u64 {
                    return Err(VmError::TruncatedCode);
                }
                let b1 = code[(pc + 1) as usize];
                let b2 = code[(pc + 2) as usize];
                let index = index_16(b1, b2);
                let midx = match find_method_from_index(index, class) {
                    Ok(i) => i,
                    Err(e) => {
                        return Err(e);
                    },
                };
                proof {
                    lemma_resolve_in_range(c, index, midx as int);
                }
                let callee = &class.method[midx];
                if callee.descriptor.len() < 3 {
                    return Err(VmError::BadDescriptor);
                }
                let np = callee.descriptor.len() - 3;
                if np > stack.len() {
                    return Err(VmError::StackUnderflow);
                }
                let ml = callee.code.max_locals as usize;
                if np > ml {
                    return Err(VmError::BadLocalIndex);
                }
                let ghost spec_args = call_args(st0, np as int, ml as int);
                let base = stack.len() - np;
                let mut args: Vec<i32> = Vec::new();
                let mut i: usize = 0;
                while i < np
                    invariant
                        stack@ == st0,
                        0 <= i <= np,
                        args@ == st0.subrange(base as int, base + i),
                    decreases np - i,
                {
                    let x = stack[base + i];
                    args.push(x);
                    proof {
                        assert(st0.subrange(base as int, base + i).push(x) =~= st0.subrange(
                            base as int,
                            base + i + 1,
                        ));
                    }
                    i = i + 1;
                }
                proof {
                    assert(args@.subrange(0, np as int) =~= args@);
                }
                while args.len() < ml
                    invariant
                        np <= args@.len() <= ml,
                        args@.subrange(0, np as int) == st0.subrange(
                            st0.len() - np,
                            st0.len() as int,
                        ),
                        forall|j: int| np <= j < args@.len() ==> args@[j] == 0i32,
                    decreases ml - args@.len(),
                {
                    args.push(0);
                    proof {
                        assert(args@.subrange(0, np as int) =~= args@.drop_last().subrange(
                            0,
                            np as int,
                        ));
                    }
                }
                proof {
                    assert(args@ =~= spec_args);
                }
                stack.truncate(base);
                if depth == 0 {
                    return Err(VmError::CallDepthExceeded);
                }
                let sub = execute(callee, args, class, depth - 1, budget, out);
                match sub {
                    Err(e) => {
                        return Err(e);
                    },
                    Ok(None) => {
                        pc = pc + 3;
                        steps_left = steps_left - 1;
                    },
                    Ok(Some(v)) => {
                        if stack.len() >= max_stack as usize {
                            return Err(VmError::StackOverflow);
                        }
                        stack.push(v);
                        pc = pc + 3;
                        steps_left = steps_left - 1;
                    },
                }
            },
            _ => {
                proof {
                    lemma_op_unknown(c, mv, pc0, st0, lo0, ot0, depth as nat, budget as nat, steps0);
                }
                return Err(VmError::UnknownOpcode);
            },
        }
    }
    proof {
        lemma_run_done(c, mv, pc as int, stack@, locals@, out@, depth as nat, budget as nat, steps_left as nat);
    }
    Ok(None)
}

/// The bytes of the name `main`.
pub open spec fn spec_main_name() -> Seq<u8> {
    seq![0x6du8, 0x61u8, 0x69u8, 0x6eu8]
}

/// The bytes of the descriptor `([Ljava/lang/String;)V`.
pub open spec fn spec_main_descriptor() -> Seq<u8> {
    seq![
        0x28u8, 0x5bu8, 0x4cu8, 0x6au8, 0x61u8, 0x76u8, 0x61u8, 0x2fu8, 0x6cu8, 0x61u8, 0x6eu8,
        0x67u8, 0x2fu8, 0x53u8, 0x74u8, 0x72u8, 0x69u8, 0x6eu8, 0x67u8, 0x3bu8, 0x29u8, 0x56u8,
    ]
}

fn main_name() -> (r: Vec<u8>)
    ensures
        r@ == spec_main_name(),
{
    let mut v: Vec<u8> = Vec::new();
    v.push(0x6d);
    v.push(0x61);
    v.push(0x69);
    v.push(0x6e);
    proof {
        assert(v@ =~= spec_main_name());
    }
    v
}

fn main_descriptor() -> (r: Vec<u8>)
    ensures
        r@ == spec_main_descriptor(),
{
    let mut v: Vec<u8> = Vec::new();
    v.push(0x28);
    v.push(0x5b);
    v.push(0x4c);
    v.push(0x6a);
    v.push(0x61);
    v.push(0x76);
    v.push(0x61);
    v.push(0x2f);
    v.push(0x6c);
    v.push(0x61);
    v.push(0x6e);
    v.push(0x67);
    v.push(0x2f);
    v.push(0x53);
    v.push(0x74);
    v.push(0x72);
    v.push(0x69);
    v.push(0x6e);
    v.push(0x67);
    v.push(0x3b);
    v.push(0x29);
    v.push(0x56);
    proof {
        assert(v@ =~= spec_main_descriptor());
    }
    v
}

/// The run of a whole class: find `main`, give it zeroed locals, run it,
/// and demand that it returns void.
pub open spec fn spec_run_class(c: SpecClassFile, depth: nat, budget: nat) -> Outcome {
    match spec_find_method(c.methods, spec_main_name(), spec_main_descriptor()) {
        None => Outcome::Abort { err: VmError::MethodNotFound, out: Seq::empty() },
        Some(i) => {
            let m = c.methods[i];
            match spec_run(
                c,
                m,
                0,
                Seq::empty(),
                Seq::new(m.code.max_locals as nat, |j: int| 0i32),
                Seq::empty(),
                depth,
                budget,
                budget,
            ) {
                Outcome::Done { ret: Some(_), out } => Outcome::Abort {
                    err: VmError::MainReturnedValue,
                    out,
                },
                Outcome::Done { ret: None, out } => Outcome::Done { ret: None, out },
                Outcome::Abort { err, out } => Outcome::Abort { err, out },
            }
        },
    }
}

/// Look up `main` with descriptor `([Ljava/lang/String;)V` and execute
/// it. On success `out` holds every printed value, in order; on an error
/// it holds the values printed before the failure.
pub fn run_class(class: &ClassFile, depth: u64, budget: u64, out: &mut Vec<i32>) -> (r: Result<
    (),
    VmError,
>)
    requires
        old(out)@ == Seq::<i32>::empty(),
        class_code_bounded(class@),
    ensures
        match r {
            Ok(()) => spec_run_class(class@, depth as nat, budget as nat) == (Outcome::Done {
                ret: None,
                out: final(out)@,
            }),
            Err(e) => spec_run_class(class@, depth as nat, budget as nat) == (Outcome::Abort {
                err: e,
                out: final(out)@,
            }),
        },
{
    let name = main_name();
    let desc = main_descriptor();
    let midx = match find_method(name.as_slice(), desc.as_slice(), &class.method) {
        Some(i) => i,
        None => {
            return Err(VmError::MethodNotFound);
        },
    };
    proof {
        lemma_find_from_range(class@.methods, spec_main_name(), spec_main_descriptor(), 0, midx as int);
    }
    let m = &class.method[midx];
    let ml = m.code.max_locals as usize;
    let mut locals: Vec<i32> = Vec::new();
    while locals.len() < ml
        invariant
            locals@.len() <= ml,
            forall|j: int| 0 <= j < locals@.len() ==> locals@[j] == 0i32,
        decreases ml - locals@.len(),
    {
        locals.push(0);
    }
    proof {
        assert(locals@ =~= Seq::new(class@.methods[midx as int].code.max_locals as nat, |j: int| 0i32));
    }
    match execute(m, locals, class, depth, budget, out) {
        Err(e) => Err(e),
        Ok(Some(_)) => Err(VmError::MainReturnedValue),
        Ok(None) => Ok(()),
    }
}

} // verus!

