//! The laws of the machine: what the arithmetic opcodes compute, what a
//! taken branch does to the program counter, how the operand stack is
//! bounded, what a constant-returning method yields, and how a decoded
//! code array relates to the file's bytes.

use vstd::arithmetic::div_mod::{lemma_mod_bound, lemma_mod_multiples_vanish, lemma_small_mod};
use vstd::prelude::*;
use vstd::wrapping::i32_specs;

use crate::interp::{
    OP_BIPUSH, OP_IF_ICMPEQ, OP_IF_ICMPLE, OP_IFEQ, OP_IFLE, OP_IINC, OP_IMUL, OP_INVOKESTATIC,
    OP_INVOKEVIRTUAL, OP_IRETURN, OP_LDC, OP_RETURN, Outcome, StepRes, VmError, as_signed_32,
    cond1, cond2, idx16, imm8,
    imm16, int_abs, jdiv, jneg, jrem, lemma_find_from_range, spec_find_method, spec_main_descriptor,
    spec_main_name, spec_resolve_method, spec_run, spec_step,
};
use crate::parser::{
    ParseError, parse_attribute, parse_attributes, parse_class, parse_class_info,
    parse_constant_pool, parse_header, parse_method, parse_methods, r_u16, r_u32,
};
use crate::types::{SpecClassFile, SpecCode, SpecConstant, SpecMethod};

verus! {

/// The signed reading of any residue is a 32-bit value.
pub proof fn lemma_as_signed_32_range(x: int)
    ensures
        -0x8000_0000 <= as_signed_32(x) < 0x8000_0000,
{
    lemma_mod_bound(x, 0x1_0000_0000);
}

/// For `x` within one wrap of the 32-bit range, the signed residue is
/// `x` itself, shifted by one period when `x` lies outside the range.
proof fn lemma_as_signed_32_cases(x: int)
    requires
        -0x1_0000_0000 <= x < 0x1_0000_0000,
    ensures
        as_signed_32(x) == if x >= 0x8000_0000 {
            x - 0x1_0000_0000
        } else if x < -0x8000_0000 {
            x + 0x1_0000_0000
        } else {
            x
        },
{
    if 0 <= x {
        lemma_small_mod(x as nat, 0x1_0000_0000nat);
    } else {
        lemma_mod_multiples_vanish(1, x, 0x1_0000_0000);
        lemma_small_mod((x + 0x1_0000_0000) as nat, 0x1_0000_0000nat);
    }
}

/// `iadd` is addition modulo `2^32`, read as a signed 32-bit value.
pub proof fn lemma_iadd_wraps(a: i32, b: i32)
    ensures
        i32_specs::wrapping_add(a, b) as int == as_signed_32(a + b),
{
    lemma_as_signed_32_cases(a + b);
}

/// `isub` is subtraction modulo `2^32`, read as a signed 32-bit value.
pub proof fn lemma_isub_wraps(a: i32, b: i32)
    ensures
        i32_specs::wrapping_sub(a, b) as int == as_signed_32(a - b),
{
    lemma_as_signed_32_cases(a - b);
}

/// `imul` is multiplication modulo `2^32`, read as a signed 32-bit
/// value.
pub proof fn lemma_imul_wraps(a: i32, b: i32)
    ensures
        i32_specs::wrapping_mul(a, b) as int == as_signed_32(a * b),
{
}

/// `ineg` is negation modulo `2^32`, read as a signed 32-bit value; in
/// particular the minimum value is its own negation.
pub proof fn lemma_ineg_wraps(a: i32)
    ensures
        jneg(a) as int == as_signed_32(-(a as int)),
{
    lemma_as_signed_32_cases(-(a as int));
}

/// `idiv` is division truncated toward zero, modulo `2^32` read as a
/// signed 32-bit value: the one quotient outside the range, that of the
/// minimum value by `-1`, wraps back to the minimum value.
pub proof fn lemma_idiv_wraps(a: i32, b: i32)
    requires
        b != 0,
    ensures
        jdiv(a, b) as int == as_signed_32(
            if (a < 0) == (b < 0) {
                int_abs(a as int) / int_abs(b as int)
            } else {
                -(int_abs(a as int) / int_abs(b as int))
            },
        ),
{
    let q = int_abs(a as int) / int_abs(b as int);
    assert(0 <= q <= int_abs(a as int)) by (nonlinear_arith)
        requires
            int_abs(b as int) >= 1,
            int_abs(a as int) >= 0,
            q == int_abs(a as int) / int_abs(b as int),
    ;
    if a == i32::MIN && b == -1 {
        assert(q == 0x8000_0000) by (nonlinear_arith)
            requires
                q == int_abs(a as int) / int_abs(b as int),
                int_abs(a as int) == 0x8000_0000,
                int_abs(b as int) == 1,
        ;
        lemma_as_signed_32_cases(q);
    } else if (a < 0) == (b < 0) {
        if a == i32::MIN {
            assert(q <= 0x4000_0000) by (nonlinear_arith)
                requires
                    q == int_abs(a as int) / int_abs(b as int),
                    int_abs(a as int) == 0x8000_0000,
                    int_abs(b as int) >= 2,
            ;
        }
        lemma_as_signed_32_cases(q);
    } else {
        lemma_as_signed_32_cases(-q);
    }
}

/// `irem` takes the dividend's sign and satisfies the truncated-division
/// identity; the remainder of the minimum value by `-1` is zero.
pub proof fn lemma_irem_wraps(a: i32, b: i32)
    requires
        b != 0,
    ensures
        jrem(a, b) as int == as_signed_32(
            if a < 0 {
                -(int_abs(a as int) % int_abs(b as int))
            } else {
                int_abs(a as int) % int_abs(b as int)
            },
        ),
{
    lemma_mod_bound(int_abs(a as int), int_abs(b as int));
    let r = int_abs(a as int) % int_abs(b as int);
    if a < 0 {
        lemma_as_signed_32_cases(-r);
    } else {
        lemma_as_signed_32_cases(r);
    }
    if a == i32::MIN && b == -1 {
        lemma_small_mod(0nat, 1nat);
    }
}

/// One step never grows the operand stack past `max_stack`: every push
/// is guarded by the overflow check, so each reachable frame state keeps
/// the stack within bounds; an `invokestatic` only removes arguments.
pub proof fn lemma_step_stack_bounded(
    c: SpecClassFile,
    m: SpecMethod,
    pc: int,
    stack: Seq<i32>,
    locals: Seq<i32>,
    out: Seq<i32>,
)
    requires
        stack.len() <= m.code.max_stack,
    ensures
        spec_step(c, m, pc, stack, locals, out) matches StepRes::Next { stack: st2, .. }
            ==> st2.len() <= m.code.max_stack,
        spec_step(c, m, pc, stack, locals, out) matches StepRes::Call { stack: st2, .. }
            ==> st2.len() <= stack.len(),
{
    reveal(spec_step);
}

/// Every state a run passes through keeps its operand stack within
/// `0 ..= max_stack`: the bound holds of the entry state, after each
/// step, in every frame a nested call creates (against that callee's own
/// `max_stack`), and after each return.
pub open spec fn run_stack_bounded(
    c: SpecClassFile,
    m: SpecMethod,
    pc: int,
    stack: Seq<i32>,
    locals: Seq<i32>,
    out: Seq<i32>,
    d: nat,
    b: nat,
    s: nat,
) -> bool
    decreases d, s,
{
    stack.len() <= m.code.max_stack && (if pc < 0 || pc >= m.code.code.len() {
        true
    } else if s == 0 {
        true
    } else {
        match spec_step(c, m, pc, stack, locals, out) {
            StepRes::Next { pc: pc2, stack: st2, locals: lo2, out: out2 } => run_stack_bounded(
                c,
                m,
                pc2,
                st2,
                lo2,
                out2,
                d,
                b,
                (s - 1) as nat,
            ),
            StepRes::Leave { .. } => true,
            StepRes::Failed { .. } => true,
            StepRes::Call { callee, args, ret_pc, stack: st2 } => {
                if d == 0 {
                    true
                } else {
                    run_stack_bounded(
                        c,
                        c.methods[callee],
                        0,
                        Seq::empty(),
                        args,
                        out,
                        (d - 1) as nat,
                        b,
                        b,
                    ) && match spec_run(
                        c,
                        c.methods[callee],
                        0,
                        Seq::empty(),
                        args,
                        out,
                        (d - 1) as nat,
                        b,
                        b,
                    ) {
                        Outcome::Abort { .. } => true,
                        Outcome::Done { ret: None, out: out2 } => run_stack_bounded(
                            c,
                            m,
                            ret_pc,
                            st2,
                            locals,
                            out2,
                            d,
                            b,
                            (s - 1) as nat,
                        ),
                        Outcome::Done { ret: Some(v), out: out2 } => {
                            if st2.len() >= m.code.max_stack {
                                true
                            } else {
                                run_stack_bounded(
                                    c,
                                    m,
                                    ret_pc,
                                    st2.push(v),
                                    locals,
                                    out2,
                                    d,
                                    b,
                                    (s - 1) as nat,
                                )
                            }
                        },
                    }
                }
            },
        }
    })
}

/// Starting from a frame whose operand stack is within bounds — in
/// particular from the empty stack an invocation begins with — the whole
/// run keeps every frame's stack within its method's `max_stack`.
pub proof fn lemma_run_stack_bounded(
    c: SpecClassFile,
    m: SpecMethod,
    pc: int,
    stack: Seq<i32>,
    locals: Seq<i32>,
    out: Seq<i32>,
    d: nat,
    b: nat,
    s: nat,
)
    requires
        stack.len() <= m.code.max_stack,
    ensures
        run_stack_bounded(c, m, pc, stack, locals, out, d, b, s),
    decreases d, s,
{
    if 0 <= pc < m.code.code.len() && s > 0 {
        lemma_step_stack_bounded(c, m, pc, stack, locals, out);
        match spec_step(c, m, pc, stack, locals, out) {
            StepRes::Next { pc: pc2, stack: st2, locals: lo2, out: out2 } => {
                lemma_run_stack_bounded(c, m, pc2, st2, lo2, out2, d, b, (s - 1) as nat);
            },
            StepRes::Call { callee, args, ret_pc, stack: st2 } => {
                if d > 0 {
                    lemma_run_stack_bounded(
                        c,
                        c.methods[callee],
                        0,
                        Seq::empty(),
                        args,
                        out,
                        (d - 1) as nat,
                        b,
                        b,
                    );
                    match spec_run(
                        c,
                        c.methods[callee],
                        0,
                        Seq::empty(),
                        args,
                        out,
                        (d - 1) as nat,
                        b,
                        b,
                    ) {
                        Outcome::Abort { .. } => {},
                        Outcome::Done { ret: None, out: out2 } => {
                            lemma_run_stack_bounded(c, m, ret_pc, st2, locals, out2, d, b, (s - 1) as nat);
                        },
                        Outcome::Done { ret: Some(v), out: out2 } => {
                            if st2.len() < m.code.max_stack {
                                lemma_run_stack_bounded(
                                    c,
                                    m,
                                    ret_pc,
                                    st2.push(v),
                                    locals,
                                    out2,
                                    d,
                                    b,
                                    (s - 1) as nat,
                                );
                            }
                        },
                    }
                }
            },
            _ => {},
        }
    }
}

/// A method whose code is exactly `iconst_3; ireturn` returns 3,
/// whatever the caller put into the locals.
pub proof fn lemma_const_three_returns(
    c: SpecClassFile,
    m: SpecMethod,
    locals: Seq<i32>,
    out: Seq<i32>,
    depth: nat,
    budget: nat,
    steps: nat,
)
    requires
        m.code.code == seq![6u8, 172u8],
        m.code.max_stack >= 1,
        steps >= 2,
    ensures
        spec_run(c, m, 0, Seq::empty(), locals, out, depth, budget, steps) == (Outcome::Done {
            ret: Some(3i32),
            out,
        }),
{
    reveal(spec_step);
    reveal_with_fuel(spec_run, 3);
    let st1 = Seq::<i32>::empty().push(3i32);
    assert(spec_step(c, m, 0, Seq::empty(), locals, out) == (StepRes::Next {
        pc: 1,
        stack: st1,
        locals,
        out,
    }));
    assert(spec_step(c, m, 1, st1, locals, out) == (StepRes::Leave { ret: Some(3i32) }));
}

/// A method whose code is `bipush k; ireturn` returns the sign-extended
/// immediate, whatever the locals: `bipush 0xFF` yields `-1`, not 255.
pub proof fn lemma_bipush_return(
    c: SpecClassFile,
    m: SpecMethod,
    locals: Seq<i32>,
    out: Seq<i32>,
    d: nat,
    b: nat,
    s: nat,
    k: u8,
)
    requires
        m.code.code == seq![OP_BIPUSH, k, OP_IRETURN],
        m.code.max_stack >= 1,
        s >= 2,
    ensures
        spec_run(c, m, 0, Seq::empty(), locals, out, d, b, s) == (Outcome::Done {
            ret: Some(imm8(k) as i32),
            out,
        }),
{
    reveal(spec_step);
    reveal_with_fuel(spec_run, 3);
    let st1 = Seq::<i32>::empty().push(imm8(k) as i32);
    assert(spec_step(c, m, 0, Seq::empty(), locals, out) == (StepRes::Next {
        pc: 2,
        stack: st1,
        locals,
        out,
    }));
    assert(spec_step(c, m, 2, st1, locals, out) == (StepRes::Leave { ret: Some(imm8(k) as i32) }));
}

/// A `main` of the shape `invokestatic; invokevirtual; return` invokes
/// the resolved parameterless method on zeroed locals, pushes the value
/// it returns, prints it, and ends: the whole run emits exactly that one
/// value.
#[verifier::rlimit(100)]
#[verifier::spinoff_prover]
pub proof fn lemma_call_print_return(
    c: SpecClassFile,
    m: SpecMethod,
    locals: Seq<i32>,
    out: Seq<i32>,
    d: nat,
    b: nat,
    s: nat,
    b1: u8,
    b2: u8,
    o1: u8,
    o2: u8,
    mi: int,
    v: i32,
)
    requires
        m.code.code == seq![OP_INVOKESTATIC, b1, b2, OP_INVOKEVIRTUAL, o1, o2, OP_RETURN],
        m.code.max_stack >= 1,
        s >= 3,
        d >= 1,
        spec_resolve_method(c, idx16(b1, b2)) == Ok::<int, VmError>(mi),
        c.methods[mi].descriptor.len() == 3,
        spec_run(
            c,
            c.methods[mi],
            0,
            Seq::empty(),
            Seq::new(c.methods[mi].code.max_locals as nat, |j: int| 0i32),
            out,
            (d - 1) as nat,
            b,
            b,
        ) == (Outcome::Done { ret: Some(v), out }),
    ensures
        spec_run(c, m, 0, Seq::empty(), locals, out, d, b, s) == (Outcome::Done {
            ret: None,
            out: out.push(v),
        }),
{
    reveal(spec_step);
    reveal_with_fuel(spec_run, 5);
    let callee = c.methods[mi];
    let zeros = Seq::new(callee.code.max_locals as nat, |j: int| 0i32);
    assert(Seq::<i32>::empty().subrange(0, 0) + Seq::new(
        (callee.code.max_locals - 0) as nat,
        |j: int| 0i32,
    ) =~= zeros);
    assert(Seq::<i32>::empty().take(0) =~= Seq::<i32>::empty());
    assert(spec_step(c, m, 0, Seq::empty(), locals, out) == (StepRes::Call {
        callee: mi,
        args: zeros,
        ret_pc: 3,
        stack: Seq::<i32>::empty(),
    }));
    let st1 = Seq::<i32>::empty().push(v);
    assert(spec_step(c, m, 3, st1, locals, out) == (StepRes::Next {
        pc: 6,
        stack: Seq::<i32>::empty().push(v).drop_last(),
        locals,
        out: out.push(v),
    }));
    assert(Seq::<i32>::empty().push(v).drop_last() =~= Seq::<i32>::empty());
    assert(spec_step(c, m, 6, Seq::<i32>::empty(), locals, out.push(v)) == (StepRes::Leave {
        ret: None,
    }));
}

/// The constant-return scenario, end to end at the machine level: a
/// `main` of the shape `invokestatic f; invokevirtual; return` whose `f`
/// is `bipush k; ireturn` runs to a void return and prints exactly the
/// one value `k` (sign-extended) — for `k` of 42, the sequence `[42]`.
pub proof fn lemma_constant_return_scenario(
    c: SpecClassFile,
    m: SpecMethod,
    locals: Seq<i32>,
    out: Seq<i32>,
    d: nat,
    b: nat,
    s: nat,
    b1: u8,
    b2: u8,
    o1: u8,
    o2: u8,
    mi: int,
    k: u8,
)
    requires
        m.code.code == seq![OP_INVOKESTATIC, b1, b2, OP_INVOKEVIRTUAL, o1, o2, OP_RETURN],
        m.code.max_stack >= 1,
        s >= 3,
        d >= 1,
        b >= 2,
        spec_resolve_method(c, idx16(b1, b2)) == Ok::<int, VmError>(mi),
        c.methods[mi].descriptor.len() == 3,
        c.methods[mi].code.code == seq![OP_BIPUSH, k, OP_IRETURN],
        c.methods[mi].code.max_stack >= 1,
    ensures
        spec_run(c, m, 0, Seq::empty(), locals, out, d, b, s) == (Outcome::Done {
            ret: None,
            out: out.push(imm8(k) as i32),
        }),
{
    let callee = c.methods[mi];
    lemma_bipush_return(
        c,
        callee,
        Seq::new(callee.code.max_locals as nat, |j: int| 0i32),
        out,
        (d - 1) as nat,
        b,
        b,
        k,
    );
    lemma_call_print_return(c, m, locals, out, d, b, s, b1, b2, o1, o2, mi, imm8(k) as i32);
}

/// A method that loads the `Integer` constant 65536 twice and
/// multiplies returns zero: `65536 * 65536` is `2^32`, which wraps to 0
/// in signed 32-bit two's-complement arithmetic.
pub proof fn lemma_overflow_square_returns_zero(
    c: SpecClassFile,
    m: SpecMethod,
    locals: Seq<i32>,
    out: Seq<i32>,
    d: nat,
    b: nat,
    s: nat,
)
    requires
        c.constant_pool == seq![SpecConstant::Integer { value: 65536i32 }],
        m.code.code == seq![OP_LDC, 1u8, OP_LDC, 1u8, OP_IMUL, OP_IRETURN],
        m.code.max_stack >= 2,
        s >= 4,
    ensures
        spec_run(c, m, 0, Seq::empty(), locals, out, d, b, s) == (Outcome::Done {
            ret: Some(0i32),
            out,
        }),
{
    reveal(spec_step);
    reveal_with_fuel(spec_run, 5);
    let k = 65536i32;
    let st1 = Seq::<i32>::empty().push(k);
    let st2 = st1.push(k);
    assert(spec_step(c, m, 0, Seq::empty(), locals, out) == (StepRes::Next {
        pc: 2,
        stack: st1,
        locals,
        out,
    }));
    assert(spec_step(c, m, 2, st1, locals, out) == (StepRes::Next {
        pc: 4,
        stack: st2,
        locals,
        out,
    }));
    assert(i32_specs::wrapping_mul(k, k) == 0i32) by {
        assert(65536int * 65536int == 0x1_0000_0000int) by (nonlinear_arith);
        lemma_small_mod(0nat, 0x1_0000_0000nat);
    }
    assert(st2.drop_last().drop_last().push(0i32) =~= st1.drop_last().push(0i32));
    assert(spec_step(c, m, 4, st2, locals, out) == (StepRes::Next {
        pc: 5,
        stack: st1.drop_last().push(0i32),
        locals,
        out,
    }));
    assert(spec_step(c, m, 5, st1.drop_last().push(0i32), locals, out) == (StepRes::Leave {
        ret: Some(0i32),
    }));
}

/// One `iinc` step with immediate byte `0x80` sign-extends it to `-128`:
/// the named local decreases by 128 (wrapping) and the operand stack is
/// untouched.
pub proof fn lemma_iinc_minus_128(
    c: SpecClassFile,
    m: SpecMethod,
    pc: int,
    stack: Seq<i32>,
    locals: Seq<i32>,
    out: Seq<i32>,
    d: nat,
    b: nat,
    s: nat,
    idx: u8,
)
    requires
        0 <= pc,
        pc + 2 < m.code.code.len(),
        m.code.code[pc] == OP_IINC,
        m.code.code[pc + 1] == idx,
        m.code.code[pc + 2] == 0x80,
        (idx as int) < locals.len(),
        s > 0,
    ensures
        spec_run(c, m, pc, stack, locals, out, d, b, s) == spec_run(
            c,
            m,
            pc + 3,
            stack,
            locals.update(idx as int, i32_specs::wrapping_add(locals[idx as int], -128i32)),
            out,
            d,
            b,
            (s - 1) as nat,
        ),
{
    reveal(spec_step);
    reveal_with_fuel(spec_run, 1);
    assert(imm8(0x80) == -128);
}

/// A taken two-operand comparison transfers control to the opcode's own
/// address plus the signed 16-bit offset, and consumes its two operands.
/// An offset of zero is therefore a self-loop; a negative offset lands
/// that many bytes before the opcode.
pub proof fn lemma_cmp_branch_target(
    c: SpecClassFile,
    m: SpecMethod,
    pc: int,
    stack: Seq<i32>,
    locals: Seq<i32>,
    out: Seq<i32>,
    d: nat,
    b: nat,
    s: nat,
)
    requires
        0 <= pc,
        pc + 2 < m.code.code.len(),
        s > 0,
        OP_IF_ICMPEQ <= m.code.code[pc] <= OP_IF_ICMPLE,
        stack.len() >= 2,
        cond2(m.code.code[pc], stack[stack.len() - 2], stack.last()),
    ensures
        spec_run(c, m, pc, stack, locals, out, d, b, s) == spec_run(
            c,
            m,
            pc + imm16(m.code.code[pc + 1], m.code.code[pc + 2]),
            stack.drop_last().drop_last(),
            locals,
            out,
            d,
            b,
            (s - 1) as nat,
        ),
{
    reveal(spec_step);
    reveal_with_fuel(spec_run, 1);
}

/// A taken compare-with-zero branch transfers control to the opcode's
/// own address plus the signed 16-bit offset, and consumes its operand.
pub proof fn lemma_if_branch_target(
    c: SpecClassFile,
    m: SpecMethod,
    pc: int,
    stack: Seq<i32>,
    locals: Seq<i32>,
    out: Seq<i32>,
    d: nat,
    b: nat,
    s: nat,
)
    requires
        0 <= pc,
        pc + 2 < m.code.code.len(),
        s > 0,
        OP_IFEQ <= m.code.code[pc] <= OP_IFLE,
        stack.len() >= 1,
        cond1(m.code.code[pc], stack.last()),
    ensures
        spec_run(c, m, pc, stack, locals, out, d, b, s) == spec_run(
            c,
            m,
            pc + imm16(m.code.code[pc + 1], m.code.code[pc + 2]),
            stack.drop_last(),
            locals,
            out,
            d,
            b,
            (s - 1) as nat,
        ),
{
    reveal(spec_step);
    reveal_with_fuel(spec_run, 1);
}

/// A taken comparison whose offset bytes encode zero re-executes the
/// same opcode: the program counter does not move.
pub proof fn lemma_cmp_branch_zero_offset_self_loop(
    c: SpecClassFile,
    m: SpecMethod,
    pc: int,
    stack: Seq<i32>,
    locals: Seq<i32>,
    out: Seq<i32>,
    d: nat,
    b: nat,
    s: nat,
)
    requires
        0 <= pc,
        pc + 2 < m.code.code.len(),
        s > 0,
        OP_IF_ICMPEQ <= m.code.code[pc] <= OP_IF_ICMPLE,
        stack.len() >= 2,
        cond2(m.code.code[pc], stack[stack.len() - 2], stack.last()),
        imm16(m.code.code[pc + 1], m.code.code[pc + 2]) == 0,
    ensures
        spec_run(c, m, pc, stack, locals, out, d, b, s) == spec_run(
            c,
            m,
            pc,
            stack.drop_last().drop_last(),
            locals,
            out,
            d,
            b,
            (s - 1) as nat,
        ),
{
    lemma_cmp_branch_target(c, m, pc, stack, locals, out, d, b, s);
}

/// The code array of `code` stands somewhere in the file, byte for
/// byte.
pub open spec fn code_is_file_range(s: Seq<u8>, code: SpecCode) -> bool {
    exists|a: int|
        0 <= a && a + code.code.len() <= s.len() && code.code == #[trigger] s.subrange(
            a,
            a + code.code.len(),
        )
}

proof fn lemma_attr_code_range(s: Seq<u8>, p: int, pool: Seq<SpecConstant>, acc: Option<SpecCode>)
    requires
        acc matches Some(code0) ==> code_is_file_range(s, code0),
    ensures
        parse_attribute(s, p, pool, acc) matches Ok((Some(code), _)) ==> code_is_file_range(
            s,
            code,
        ),
{
    match parse_attribute(s, p, pool, acc) {
        Err(_) => {},
        Ok((None, _)) => {},
        Ok((Some(code), _)) => {
            if acc == Some(code) {
            } else {
                assert(code.code == s.subrange(p + 14, p + 14 + code.code.len()));
            }
        },
    }
}

proof fn lemma_attrs_code_range(
    s: Seq<u8>,
    p: int,
    pool: Seq<SpecConstant>,
    k: nat,
    acc: Option<SpecCode>,
)
    requires
        acc matches Some(code0) ==> code_is_file_range(s, code0),
    ensures
        parse_attributes(s, p, pool, k, acc) matches Ok((Some(code), _)) ==> code_is_file_range(
            s,
            code,
        ),
    decreases k,
{
    if k > 0 {
        match parse_attribute(s, p, pool, acc) {
            Err(_) => {},
            Ok((acc2, p2)) => {
                lemma_attr_code_range(s, p, pool, acc);
                lemma_attrs_code_range(s, p2, pool, (k - 1) as nat, acc2);
            },
        }
    }
}

proof fn lemma_method_code_range(s: Seq<u8>, p: int, pool: Seq<SpecConstant>)
    ensures
        parse_method(s, p, pool) matches Ok((m2, _)) ==> code_is_file_range(s, m2.code),
{
    match r_u16(s, p) {
        Err(_) => {},
        Ok((_, p1)) => match r_u16(s, p1) {
            Err(_) => {},
            Ok((_, p2)) => match r_u16(s, p2) {
                Err(_) => {},
                Ok((_, p3)) => match r_u16(s, p3) {
                    Err(_) => {},
                    Ok((attributes_count, p4)) => {
                        lemma_attrs_code_range(s, p4, pool, attributes_count as nat, None);
                    },
                },
            },
        },
    }
}

proof fn lemma_methods_code_range(
    s: Seq<u8>,
    p: int,
    pool: Seq<SpecConstant>,
    k: nat,
    acc: Seq<SpecMethod>,
)
    requires
        forall|j: int| 0 <= j < acc.len() ==> code_is_file_range(s, (#[trigger] acc[j]).code),
    ensures
        parse_methods(s, p, pool, k, acc) matches Ok((ms, _)) ==> forall|j: int|
            0 <= j < ms.len() ==> code_is_file_range(s, (#[trigger] ms[j]).code),
    decreases k,
{
    if k > 0 {
        match parse_method(s, p, pool) {
            Err(_) => {},
            Ok((m2, p1)) => {
                lemma_method_code_range(s, p, pool);
                assert(forall|j: int|
                    0 <= j < acc.push(m2).len() ==> code_is_file_range(
                        s,
                        (#[trigger] acc.push(m2)[j]).code,
                    ));
                lemma_methods_code_range(s, p1, pool, (k - 1) as nat, acc.push(m2));
            },
        }
    }
}

/// Parsing preserves bytecode exactly: every method of a parsed class
/// carries, byte for byte, a range of the input file as its code array.
pub proof fn lemma_parse_preserves_code_bytes(s: Seq<u8>, c: SpecClassFile)
    requires
        parse_class(s) == Ok::<SpecClassFile, ParseError>(c),
    ensures
        forall|i: int|
            0 <= i < c.methods.len() ==> code_is_file_range(s, (#[trigger] c.methods[i]).code),
{
    match parse_header(s, 0) {
        Err(_) => {},
        Ok((_, p1)) => match parse_constant_pool(s, p1) {
            Err(_) => {},
            Ok((pool, p2)) => match parse_class_info(s, p2) {
                Err(_) => {},
                Ok((_, p3)) => match r_u16(s, p3) {
                    Err(_) => {},
                    Ok((mc, p4)) => {
                        lemma_methods_code_range(s, p4, pool, mc as nat, Seq::empty());
                    },
                },
            },
        },
    }
}

/// After parsing, the method that `main` with descriptor
/// `([Ljava/lang/String;)V` resolves to holds exactly the bytecode bytes
/// of its `Code` attribute in the file.
pub proof fn lemma_main_code_from_file(s: Seq<u8>, c: SpecClassFile, i: int)
    requires
        parse_class(s) == Ok::<SpecClassFile, ParseError>(c),
        spec_find_method(c.methods, spec_main_name(), spec_main_descriptor()) == Some(i),
    ensures
        0 <= i < c.methods.len(),
        code_is_file_range(s, c.methods[i].code),
{
    lemma_find_from_range(c.methods, spec_main_name(), spec_main_descriptor(), 0, i);
    lemma_parse_preserves_code_bytes(s, c);
}

/// The code array a `Code` attribute decodes to is exactly the matching
/// byte range of the file — fourteen bytes past the attribute record's
/// start, for the declared length — and that length fits inside the
/// attribute: `code_length + 8 <= attribute_length`.
pub proof fn lemma_code_attr_roundtrip(s: Seq<u8>, p: int, pool: Seq<SpecConstant>)
    requires
        parse_attribute(s, p, pool, None) matches Ok((Some(_), _)),
    ensures
        parse_attribute(s, p, pool, None) matches Ok((Some(code), _)) ==> {
            &&& code.code == s.subrange(p + 14, p + 14 + code.code_length)
            &&& code.code.len() == code.code_length
            &&& r_u32(s, p + 2) matches Ok((alen, _)) && code.code_length + 8 <= alen
        },
{
}

} // verus!
