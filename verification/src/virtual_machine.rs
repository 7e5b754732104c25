//! The stack virtual machine: executes a compiled chunk with an instruction
//! pointer cursor and an operand stack.
//!
//! Arithmetic on numbers is the one thing the machine does not compute
//! itself: the caller supplies it as a function on IEEE-754 bit patterns,
//! keyed by the opcode byte. The contracts state everything else exactly:
//! `s_run_rel` relates a chunk to every outcome the machine may produce,
//! with each numeric result tied, through `call_ensures`, to what the
//! supplied arithmetic may return for its operands.

use vstd::prelude::*;
use crate::chunk::Chunk;
use crate::error::{InterpreterError, RuntimeError, RuntimeErrorKind};
use crate::op_code::OpCode;
use crate::value::{Value, ValueKind};
use crate::compiler::compile;

verus! {

/// How a whole `interpret` call ended, for embedders that only branch on
/// the kind of outcome.
#[derive(Clone, Copy, Debug, PartialEq, Eq, Structural)]
pub enum InterpretResult {
    Success,
    CompileError,
    RuntimeError,
}

/// A cursor into a chunk's code supporting "read next byte and advance".
#[derive(Clone, Copy, Debug, PartialEq, Eq, Structural)]
pub struct InstructionPointer {
    pub pos: usize,
}

impl InstructionPointer {
    /// A cursor at the start of `code`.
    pub fn new(code: &Vec<u8>) -> (ip: InstructionPointer)
        ensures
            ip.pos == 0,
    {
        let _ = code.len();
        InstructionPointer { pos: 0 }
    }

    /// Read the byte under the cursor and advance past it.
    pub fn next(&mut self, code: &Vec<u8>) -> (b: u8)
        requires
            old(self).pos < code@.len(),
        ensures
            b == code@[old(self).pos as int],
            final(self).pos == old(self).pos + 1,
    {
        let n = code.len();
        let b = code[self.pos];
        self.pos = self.pos + 1;
        b
    }

    /// The current offset of the cursor within the code.
    pub fn address(&self) -> (a: usize)
        ensures
            a == self.pos,
    {
        self.pos
    }
}

/// The opcode of a binary arithmetic instruction byte.
pub open spec fn s_bin_op_of(b: u8) -> OpCode {
    if b == 3 {
        OpCode::OpAdd
    } else if b == 4 {
        OpCode::OpSubtract
    } else if b == 5 {
        OpCode::OpMultiply
    } else {
        OpCode::OpDivide
    }
}

/// Simulate the stack arity of the straight-line code `code[i..j)`, from
/// depth `depth`: the depth at `j`, or `None` when a byte does not decode,
/// a `CONSTANT` index leaves the pool, an operand is missing, or a `RETURN`
/// stands inside the range.
pub open spec fn s_stack_sim(code: Seq<u8>, nconsts: int, i: int, j: int, depth: int) -> Option<
    int,
>
    decreases j - i,
{
    if !(0 <= i && i <= j && j <= code.len()) {
        None
    } else if i == j {
        Some(depth)
    } else {
        let b = code[i];
        if b == 1 {
            // CONSTANT idx
            if i + 2 <= j && (code[i + 1] as int) < nconsts {
                s_stack_sim(code, nconsts, i + 2, j, depth + 1)
            } else {
                None
            }
        } else if b == 7 || b == 8 || b == 9 {
            // NIL, TRUE, FALSE
            s_stack_sim(code, nconsts, i + 1, j, depth + 1)
        } else if b == 2 {
            // NEGATE
            if depth >= 1 {
                s_stack_sim(code, nconsts, i + 1, j, depth)
            } else {
                None
            }
        } else if b == 3 || b == 4 || b == 5 || b == 6 {
            // ADD, SUBTRACT, MULTIPLY, DIVIDE
            if depth >= 2 {
                s_stack_sim(code, nconsts, i + 1, j, depth - 1)
            } else {
                None
            }
        } else {
            None
        }
    }
}

/// Stack-arity simulation reads only the bytes of its range: extending the
/// code past `j` changes nothing.
pub proof fn lemma_sim_extend(code1: Seq<u8>, code2: Seq<u8>, n: int, i: int, j: int, d: int)
    requires
        code1.len() <= code2.len(),
        code2.take(code1.len() as int) == code1,
        j <= code1.len(),
    ensures
        s_stack_sim(code2, n, i, j, d) == s_stack_sim(code1, n, i, j, d),
    decreases j - i,
{
    if 0 <= i && i < j && j <= code1.len() {
        assert(code2[i] == code2.take(code1.len() as int)[i]);
        assert(code2[i] == code1[i]);
        if i + 1 < code1.len() {
            assert(code2[i + 1] == code2.take(code1.len() as int)[i + 1]);
            assert(code2[i + 1] == code1[i + 1]);
        }
        let b = code1[i];
        if b == 1 {
            if i + 2 <= j && (code1[i + 1] as int) < n {
                lemma_sim_extend(code1, code2, n, i + 2, j, d + 1);
            }
        } else if b == 7 || b == 8 || b == 9 {
            lemma_sim_extend(code1, code2, n, i + 1, j, d + 1);
        } else if b == 2 {
            if d >= 1 {
                lemma_sim_extend(code1, code2, n, i + 1, j, d);
            }
        } else if b == 3 || b == 4 || b == 5 || b == 6 {
            if d >= 2 {
                lemma_sim_extend(code1, code2, n, i + 1, j, d - 1);
            }
        }
    }
}

/// A fragment that simulates under some pool size also simulates under any
/// larger one.
pub proof fn lemma_sim_consts_mono(code: Seq<u8>, n1: int, n2: int, i: int, j: int, d: int)
    requires
        n1 <= n2,
        s_stack_sim(code, n1, i, j, d) is Some,
    ensures
        s_stack_sim(code, n2, i, j, d) == s_stack_sim(code, n1, i, j, d),
    decreases j - i,
{
    if 0 <= i && i < j && j <= code.len() {
        let b = code[i];
        if b == 1 {
            lemma_sim_consts_mono(code, n1, n2, i + 2, j, d + 1);
        } else if b == 7 || b == 8 || b == 9 {
            lemma_sim_consts_mono(code, n1, n2, i + 1, j, d + 1);
        } else if b == 2 {
            lemma_sim_consts_mono(code, n1, n2, i + 1, j, d);
        } else if b == 3 || b == 4 || b == 5 || b == 6 {
            lemma_sim_consts_mono(code, n1, n2, i + 1, j, d - 1);
        }
    }
}

/// Simulation composes across an instruction boundary `j`.
pub proof fn lemma_sim_compose(code: Seq<u8>, n: int, i: int, j: int, k: int, d: int, dm: int)
    requires
        s_stack_sim(code, n, i, j, d) == Some(dm),
        j <= k,
    ensures
        s_stack_sim(code, n, i, k, d) == s_stack_sim(code, n, j, k, dm),
    decreases j - i,
{
    if 0 <= i && i < j && j <= code.len() {
        let b = code[i];
        if b == 1 {
            lemma_sim_compose(code, n, i + 2, j, k, d + 1, dm);
        } else if b == 7 || b == 8 || b == 9 {
            lemma_sim_compose(code, n, i + 1, j, k, d + 1, dm);
        } else if b == 2 {
            lemma_sim_compose(code, n, i + 1, j, k, d, dm);
        } else if b == 3 || b == 4 || b == 5 || b == 6 {
            lemma_sim_compose(code, n, i + 1, j, k, d - 1, dm);
        }
    }
}

/// Code on which the machine can run safely from an empty stack: nonempty,
/// ending in `RETURN`, with every instruction before it decodable, its
/// constants in the pool, and its operands present — exactly one value
/// left for the `RETURN`. The compiler's output satisfies this.
pub open spec fn code_ok(code: Seq<u8>, nconsts: int) -> bool {
    &&& code.len() >= 1
    &&& code.last() == 0
    &&& s_stack_sim(code, nconsts, 0, code.len() - 1, 0) == Some(1int)
}

/// The machine's internal invariants hold from offset `i` at operand depth
/// `depth` until it halts: every `CONSTANT` has its operand byte and its
/// pool entry, every operation has its operands, and the code does not run
/// out before a `RETURN` — or an undecodable byte, which halts the run
/// with its exact runtime failure. Weaker than `code_ok`: it admits chunks
/// whose run ends in the `UndecodableOpcode` failure the machine reports.
pub open spec fn run_safe(code: Seq<u8>, nconsts: int, i: int, depth: int) -> bool
    decreases code.len() - i,
{
    &&& 0 <= i < code.len()
    &&& {
        let b = code[i];
        if b == 0 {
            // RETURN: pops one value and halts
            depth >= 1
        } else if b == 1 {
            &&& i + 2 <= code.len()
            &&& (code[i + 1] as int) < nconsts
            &&& run_safe(code, nconsts, i + 2, depth + 1)
        } else if b == 7 || b == 8 || b == 9 {
            run_safe(code, nconsts, i + 1, depth + 1)
        } else if b == 2 {
            depth >= 1 && run_safe(code, nconsts, i + 1, depth)
        } else if b == 3 || b == 4 || b == 5 || b == 6 {
            depth >= 2 && run_safe(code, nconsts, i + 1, depth - 1)
        } else {
            // an undecodable byte: the machine halts here with its failure
            true
        }
    }
}

/// Safe-to-run code in the strong sense is safe in the weak one: a chunk
/// that simulates to depth one at its final `RETURN` violates no machine
/// invariant along the way.
pub proof fn lemma_code_ok_implies_run_safe(code: Seq<u8>, nconsts: int, i: int, depth: int)
    requires
        code.len() >= 1,
        code.last() == 0,
        s_stack_sim(code, nconsts, i, code.len() - 1, depth) == Some(1int),
    ensures
        run_safe(code, nconsts, i, depth),
    decreases code.len() - i,
{
    if i == code.len() - 1 {
        assert(depth == 1);
    } else {
        let b = code[i];
        if b == 1 {
            lemma_code_ok_implies_run_safe(code, nconsts, i + 2, depth + 1);
        } else if b == 7 || b == 8 || b == 9 {
            lemma_code_ok_implies_run_safe(code, nconsts, i + 1, depth + 1);
        } else if b == 2 {
            lemma_code_ok_implies_run_safe(code, nconsts, i + 1, depth);
        } else if b == 3 || b == 4 || b == 5 || b == 6 {
            lemma_code_ok_implies_run_safe(code, nconsts, i + 1, depth - 1);
        }
    }
}

/// Everything the machine may produce, related to the chunk it runs and
/// the arithmetic it was given: from instruction offset `i` with operand
/// stack `stack`, outcome `out` is possible. Every push, pop, type check,
/// error, and the line attached to a failure are pinned exactly; each
/// numeric result of `NEGATE` or a binary operator is some value the
/// supplied arithmetic may return for exactly those operands, left operand
/// first (`call_ensures`). For a failed binary operation, `operand` is the
/// tag of the left operand when that one is not a number, else of the
/// right.
pub open spec fn s_run_rel<F: Fn(u8, u64, u64) -> u64>(
    arith: F,
    code: Seq<u8>,
    consts: Seq<Value>,
    lines: Seq<usize>,
    i: int,
    stack: Seq<Value>,
    out: Result<Value, RuntimeError>,
) -> bool
    decreases code.len() - i,
{
    &&& 0 <= i < code.len()
    &&& {
        let b = code[i];
        if b == 0 {
            // RETURN: pop and halt.
            stack.len() >= 1 && out == Ok::<Value, RuntimeError>(stack.last())
        } else if b == 1 {
            // CONSTANT idx: push the pool entry.
            &&& i + 1 < code.len()
            &&& (code[i + 1] as int) < consts.len()
            &&& s_run_rel(
                arith,
                code,
                consts,
                lines,
                i + 2,
                stack.push(consts[code[i + 1] as int]),
                out,
            )
        } else if b == 7 {
            s_run_rel(arith, code, consts, lines, i + 1, stack.push(Value::Nil), out)
        } else if b == 8 {
            s_run_rel(arith, code, consts, lines, i + 1, stack.push(Value::Boolean(true)), out)
        } else if b == 9 {
            s_run_rel(arith, code, consts, lines, i + 1, stack.push(Value::Boolean(false)), out)
        } else if b == 2 {
            // NEGATE: replace the top number with what the arithmetic
            // returns for it.
            &&& stack.len() >= 1
            &&& match stack.last() {
                Value::Number(x) => exists|rv: u64|
                    call_ensures(arith, (b, x, 0u64), rv) && s_run_rel(
                        arith,
                        code,
                        consts,
                        lines,
                        i + 1,
                        stack.update(stack.len() - 1, Value::Number(rv)),
                        out,
                    ),
                _ => out == Err::<Value, RuntimeError>(
                    RuntimeError {
                        kind: RuntimeErrorKind::TypeMismatch {
                            op: OpCode::OpNegate,
                            operand: stack.last().spec_kind(),
                        },
                        offset: i as usize,
                        line: lines[i],
                    },
                ),
            }
        } else if b == 3 || b == 4 || b == 5 || b == 6 {
            // Binary arithmetic: pop two numbers, push what the arithmetic
            // returns for them — the left operand is the deeper slot.
            &&& stack.len() >= 2
            &&& {
                let lhs = stack[stack.len() - 2];
                let rhs = stack.last();
                match (lhs, rhs) {
                    (Value::Number(x), Value::Number(y)) => exists|rv: u64|
                        call_ensures(arith, (b, x, y), rv) && s_run_rel(
                            arith,
                            code,
                            consts,
                            lines,
                            i + 1,
                            stack.drop_last().drop_last().push(Value::Number(rv)),
                            out,
                        ),
                    _ => out == Err::<Value, RuntimeError>(
                        RuntimeError {
                            kind: RuntimeErrorKind::TypeMismatch {
                                op: s_bin_op_of(b),
                                operand: (if !(lhs is Number) {
                                    lhs.spec_kind()
                                } else {
                                    rhs.spec_kind()
                                }),
                            },
                            offset: i as usize,
                            line: lines[i],
                        },
                    ),
                }
            }
        } else {
            out == Err::<Value, RuntimeError>(
                RuntimeError {
                    kind: RuntimeErrorKind::UndecodableOpcode { byte: b },
                    offset: i as usize,
                    line: lines[i],
                },
            )
        }
    }
}

/// What one dispatch step produced: the machine is still running, or it
/// halted with the program's value, or it failed — the machine's
/// `Running`, `Halted-Ok`, `Halted-Err` states.
#[derive(Clone, Copy, Debug, PartialEq, Eq, Structural)]
pub enum StepOutcome {
    Running,
    Halted(Value),
    Failed(RuntimeError),
}

/// The stack machine: a growable operand stack and a debug flag. (The spec
/// of this machine allows a growable stack in place of a fixed 256-slot
/// array, the observable semantics being the same.)
#[derive(Debug)]
pub struct VirtualMachine {
    pub stack: Vec<Value>,
    pub debug: bool,
}

impl VirtualMachine {
    /// A machine with an empty stack.
    pub fn new(debug: bool) -> (vm: VirtualMachine)
        ensures
            vm.stack@.len() == 0,
            vm.debug == debug,
    {
        VirtualMachine { stack: Vec::new(), debug }
    }

    /// Reset the operand stack, making the machine ready for a run.
    pub fn init(&mut self)
        ensures
            final(self).stack@.len() == 0,
            final(self).debug == old(self).debug,
    {
        self.stack = Vec::new();
    }

    /// Push a value onto the operand stack.
    pub fn push(&mut self, value: Value)
        ensures
            final(self).stack@ == old(self).stack@.push(value),
            final(self).debug == old(self).debug,
    {
        self.stack.push(value);
    }

    /// Pop the top of the operand stack.
    pub fn pop(&mut self) -> (v: Value)
        requires
            old(self).stack@.len() >= 1,
        ensures
            v == old(self).stack@.last(),
            final(self).stack@ == old(self).stack@.drop_last(),
            final(self).debug == old(self).debug,
    {
        let v = self.stack[self.stack.len() - 1];
        self.stack.pop();
        v
    }

    /// The value `distance` slots below the top of the stack.
    pub fn peek(&self, distance: usize) -> (v: Value)
        requires
            distance < self.stack@.len(),
        ensures
            v == self.stack@[self.stack@.len() - 1 - distance],
    {
        self.stack[self.stack.len() - 1 - distance]
    }

    /// Pop two number operands and push the caller's arithmetic result for
    /// the binary instruction byte `op_byte` — the left operand is the
    /// deeper slot, and it is passed to the arithmetic first. On a
    /// non-number operand leave the stack alone and report the offending
    /// operand's tag (the left one first).
    pub fn binary_operation<F: Fn(u8, u64, u64) -> u64 + Copy>(
        &mut self,
        op_byte: u8,
        arith: F,
    ) -> (r: Result<(), ValueKind>)
        requires
            old(self).stack@.len() >= 2,
            forall|args: (u8, u64, u64)| #[trigger] call_requires(arith, args),
        ensures
            final(self).debug == old(self).debug,
            ({
                let lhs = old(self).stack@[old(self).stack@.len() - 2];
                let rhs = old(self).stack@.last();
                match r {
                    Ok(_) => lhs is Number && rhs is Number && final(self).stack@ == old(self).stack@.drop_last().drop_last().push(final(self).stack@.last()) && final(self).stack@.last() is Number && call_ensures(
                        arith,
                        (op_byte, lhs->Number_0, rhs->Number_0),
                        final(self).stack@.last()->Number_0,
                    ),
                    Err(k) => !(lhs is Number && rhs is Number) && final(self).stack@ == old(self).stack@ && k == (if !(lhs is Number) {
                        lhs.spec_kind()
                    } else {
                        rhs.spec_kind()
                    }),
                }
            }),
    {
        let rhs = self.peek(0);
        let lhs = self.peek(1);
        match (lhs, rhs) {
            (Value::Number(x), Value::Number(y)) => {
                let rv = arith(op_byte, x, y);
                self.pop();
                self.pop();
                self.push(Value::Number(rv));
                Ok(())
            },
            _ => {
                let k = if !lhs.is_number() {
                    lhs.kind()
                } else {
                    rhs.kind()
                };
                Err(k)
            },
        }
    }

    /// Execute the single instruction under the cursor: one step of the
    /// dispatch, exposed so the embedding program can trace a run
    /// instruction by instruction. A `Running` step preserves the safety
    /// premise, advances the cursor, shifts the stack depth by exactly the
    /// instruction's arity, and carries every possible outcome backwards
    /// through `s_run_rel`; `Halted` and `Failed` pin the outcome itself.
    pub fn step<F: Fn(u8, u64, u64) -> u64 + Copy>(
        &mut self,
        ip: &mut InstructionPointer,
        chunk: &Chunk,
        arith: F,
    ) -> (r: StepOutcome)
        requires
            chunk.wf(),
            run_safe(
                chunk.code@,
                chunk.constants@.len() as int,
                old(ip).pos as int,
                old(self).stack@.len() as int,
            ),
            forall|args: (u8, u64, u64)| #[trigger] call_requires(arith, args),
        ensures
            final(self).debug == old(self).debug,
            match r {
                StepOutcome::Running => {
                    &&& run_safe(
                        chunk.code@,
                        chunk.constants@.len() as int,
                        final(ip).pos as int,
                        final(self).stack@.len() as int,
                    )
                    &&& final(ip).pos > old(ip).pos
                    &&& s_stack_sim(
                        chunk.code@,
                        chunk.constants@.len() as int,
                        old(ip).pos as int,
                        final(ip).pos as int,
                        old(self).stack@.len() as int,
                    ) == Some(final(self).stack@.len() as int)
                    &&& forall|out: Result<Value, RuntimeError>|
                        #[trigger] s_run_rel(
                            arith,
                            chunk.code@,
                            chunk.constants@,
                            chunk.flat_lines(),
                            final(ip).pos as int,
                            final(self).stack@,
                            out,
                        ) ==> s_run_rel(
                            arith,
                            chunk.code@,
                            chunk.constants@,
                            chunk.flat_lines(),
                            old(ip).pos as int,
                            old(self).stack@,
                            out,
                        )
                },
                StepOutcome::Halted(v) => {
                    &&& s_run_rel(
                        arith,
                        chunk.code@,
                        chunk.constants@,
                        chunk.flat_lines(),
                        old(ip).pos as int,
                        old(self).stack@,
                        Ok::<Value, RuntimeError>(v),
                    )
                    &&& chunk.code@[old(ip).pos as int] == 0
                    &&& old(self).stack@.len() >= 1
                    &&& v == old(self).stack@.last()
                    &&& final(self).stack@ == old(self).stack@.drop_last()
                },
                StepOutcome::Failed(e) => {
                    &&& s_run_rel(
                        arith,
                        chunk.code@,
                        chunk.constants@,
                        chunk.flat_lines(),
                        old(ip).pos as int,
                        old(self).stack@,
                        Err::<Value, RuntimeError>(e),
                    )
                    &&& final(self).stack@ == old(self).stack@
                },
            },
    {
        let ghost code = chunk.code@;
        let ghost consts = chunk.constants@;
        let ghost lines = chunk.flat_lines();
        let ghost n = consts.len() as int;
        let ghost pos_i = ip.pos as int;
        let ghost stack_i = self.stack@;
        let b = ip.next(&chunk.code);
        if b == 0 {
            // RETURN: pop the result and halt.
            let v = self.pop();
            proof {
                assert(s_run_rel(arith, code, consts, lines, pos_i, stack_i, Ok::<
                    Value,
                    RuntimeError,
                >(v)));
            }
            StepOutcome::Halted(v)
        } else if b == 1 {
            // CONSTANT idx: push the pool entry.
            let idx = ip.next(&chunk.code);
            let v = chunk.constants[idx as usize];
            self.push(v);
            proof {
                assert(self.stack@ == stack_i.push(consts[idx as int]));
                assert(s_stack_sim(code, n, pos_i + 2, pos_i + 2, stack_i.len() as int + 1) == Some(
                    stack_i.len() as int + 1,
                ));
                assert forall|out: Result<Value, RuntimeError>|
                    #[trigger] s_run_rel(
                        arith,
                        code,
                        consts,
                        lines,
                        ip.pos as int,
                        self.stack@,
                        out,
                    ) implies s_run_rel(arith, code, consts, lines, pos_i, stack_i, out) by {
                    assert(s_run_rel(arith, code, consts, lines, pos_i, stack_i, out));
                }
            }
            StepOutcome::Running
        } else if b == 7 || b == 8 || b == 9 {
            // NIL, TRUE, FALSE: push the literal.
            if b == 7 {
                self.push(Value::Nil);
            } else if b == 8 {
                self.push(Value::Boolean(true));
            } else {
                self.push(Value::Boolean(false));
            }
            proof {
                assert(s_stack_sim(code, n, pos_i + 1, pos_i + 1, stack_i.len() as int + 1) == Some(
                    stack_i.len() as int + 1,
                ));
                assert forall|out: Result<Value, RuntimeError>|
                    #[trigger] s_run_rel(
                        arith,
                        code,
                        consts,
                        lines,
                        ip.pos as int,
                        self.stack@,
                        out,
                    ) implies s_run_rel(arith, code, consts, lines, pos_i, stack_i, out) by {
                    assert(s_run_rel(arith, code, consts, lines, pos_i, stack_i, out));
                }
            }
            StepOutcome::Running
        } else if b == 2 {
            // NEGATE: replace the top number with the arithmetic's result.
            let top = self.peek(0);
            match top.as_number() {
                Some(x) => {
                    let rv = arith(b, x, 0);
                    self.pop();
                    self.push(Value::Number(rv));
                    proof {
                        assert(self.stack@ =~= stack_i.update(
                            stack_i.len() - 1,
                            Value::Number(rv),
                        ));
                        assert(s_stack_sim(code, n, pos_i + 1, pos_i + 1, stack_i.len() as int)
                            == Some(stack_i.len() as int));
                        assert forall|out: Result<Value, RuntimeError>|
                            #[trigger] s_run_rel(
                                arith,
                                code,
                                consts,
                                lines,
                                ip.pos as int,
                                self.stack@,
                                out,
                            ) implies s_run_rel(arith, code, consts, lines, pos_i, stack_i, out) by {
                            assert(call_ensures(arith, (b, x, 0u64), rv) && s_run_rel(
                                arith,
                                code,
                                consts,
                                lines,
                                pos_i + 1,
                                stack_i.update(stack_i.len() - 1, Value::Number(rv)),
                                out,
                            ));
                            assert(s_run_rel(arith, code, consts, lines, pos_i, stack_i, out));
                        }
                    }
                    StepOutcome::Running
                },
                None => {
                    let off = ip.address() - 1;
                    let line = chunk.get_line(off);
                    let e = RuntimeError::new(
                        RuntimeErrorKind::TypeMismatch {
                            op: OpCode::OpNegate,
                            operand: top.kind(),
                        },
                        off,
                        line,
                    );
                    proof {
                        assert(s_run_rel(arith, code, consts, lines, pos_i, stack_i, Err::<
                            Value,
                            RuntimeError,
                        >(e)));
                    }
                    StepOutcome::Failed(e)
                },
            }
        } else if b == 3 || b == 4 || b == 5 || b == 6 {
            match self.binary_operation(b, arith) {
                Ok(_) => {
                    proof {
                        let rv = self.stack@.last()->Number_0;
                        assert(self.stack@ == stack_i.drop_last().drop_last().push(
                            Value::Number(rv),
                        ));
                        assert(s_stack_sim(code, n, pos_i + 1, pos_i + 1, stack_i.len() as int - 1)
                            == Some(stack_i.len() as int - 1));
                        assert forall|out: Result<Value, RuntimeError>|
                            #[trigger] s_run_rel(
                                arith,
                                code,
                                consts,
                                lines,
                                ip.pos as int,
                                self.stack@,
                                out,
                            ) implies s_run_rel(arith, code, consts, lines, pos_i, stack_i, out) by {
                            assert(call_ensures(
                                arith,
                                (
                                    b,
                                    stack_i[stack_i.len() - 2]->Number_0,
                                    stack_i.last()->Number_0,
                                ),
                                rv,
                            ) && s_run_rel(
                                arith,
                                code,
                                consts,
                                lines,
                                pos_i + 1,
                                stack_i.drop_last().drop_last().push(Value::Number(rv)),
                                out,
                            ));
                            assert(s_run_rel(arith, code, consts, lines, pos_i, stack_i, out));
                        }
                    }
                    StepOutcome::Running
                },
                Err(k) => {
                    let off = ip.address() - 1;
                    let line = chunk.get_line(off);
                    let op = if b == 3 {
                        OpCode::OpAdd
                    } else if b == 4 {
                        OpCode::OpSubtract
                    } else if b == 5 {
                        OpCode::OpMultiply
                    } else {
                        OpCode::OpDivide
                    };
                    let e = RuntimeError::new(
                        RuntimeErrorKind::TypeMismatch { op, operand: k },
                        off,
                        line,
                    );
                    proof {
                        assert(s_run_rel(arith, code, consts, lines, pos_i, stack_i, Err::<
                            Value,
                            RuntimeError,
                        >(e)));
                    }
                    StepOutcome::Failed(e)
                },
            }
        } else {
            // An undecodable byte: the machine halts with its exact failure.
            let off = ip.address() - 1;
            let line = chunk.get_line(off);
            let e = RuntimeError::new(RuntimeErrorKind::UndecodableOpcode { byte: b }, off, line);
            proof {
                assert(s_run_rel(arith, code, consts, lines, pos_i, stack_i, Err::<
                    Value,
                    RuntimeError,
                >(e)));
            }
            StepOutcome::Failed(e)
        }
    }

    /// Execute the chunk from the cursor until it halts, with `arith`
    /// computing the numeric operations on bit patterns, keyed by the
    /// opcode byte: the dispatch loop over `step`. Returns the value the
    /// `RETURN` pops, or the first runtime failure; either way `s_run_rel`
    /// ties the outcome to the chunk, the starting stack and the supplied
    /// arithmetic. On compiler output (the strong `s_stack_sim` premise)
    /// a successful run leaves the stack empty.
    #[verifier::loop_isolation(false)]
    pub fn run<F: Fn(u8, u64, u64) -> u64 + Copy>(
        &mut self,
        ip: &mut InstructionPointer,
        chunk: &Chunk,
        arith: F,
    ) -> (r: Result<Value, RuntimeError>)
        requires
            chunk.wf(),
            run_safe(
                chunk.code@,
                chunk.constants@.len() as int,
                old(ip).pos as int,
                old(self).stack@.len() as int,
            ),
            forall|args: (u8, u64, u64)| #[trigger] call_requires(arith, args),
        ensures
            final(self).debug == old(self).debug,
            s_run_rel(
                arith,
                chunk.code@,
                chunk.constants@,
                chunk.flat_lines(),
                old(ip).pos as int,
                old(self).stack@,
                r,
            ),
            ({
                r is Ok && chunk.code@.len() >= 1 && chunk.code@.last() == 0 && s_stack_sim(
                    chunk.code@,
                    chunk.constants@.len() as int,
                    old(ip).pos as int,
                    chunk.code@.len() - 1,
                    old(self).stack@.len() as int,
                ) == Some(1int)
            }) ==> final(self).stack@.len() == 0,
    {
        let ghost code = chunk.code@;
        let ghost consts = chunk.constants@;
        let ghost lines = chunk.flat_lines();
        let ghost n = consts.len() as int;
        let ghost pos0 = ip.pos as int;
        let ghost stack0 = self.stack@;
        let ghost strong = code.len() >= 1 && code.last() == 0 && s_stack_sim(
            code,
            n,
            pos0,
            code.len() - 1,
            stack0.len() as int,
        ) == Some(1int);
        loop
            invariant
                self.debug == old(self).debug,
                run_safe(code, n, ip.pos as int, self.stack@.len() as int),
                strong ==> s_stack_sim(
                    code,
                    n,
                    ip.pos as int,
                    code.len() - 1,
                    self.stack@.len() as int,
                ) == Some(1int),
                forall|out: Result<Value, RuntimeError>|
                    #[trigger] s_run_rel(arith, code, consts, lines, ip.pos as int, self.stack@, out)
                        ==> s_run_rel(arith, code, consts, lines, pos0, stack0, out),
            decreases code.len() - ip.pos,
        {
            let ghost pos_i = ip.pos as int;
            let ghost stack_i = self.stack@;
            match self.step(ip, chunk, arith) {
                StepOutcome::Running => {
                    proof {
                        if strong {
                            // compose the step's arity effect with the
                            // run-long simulation
                            lemma_sim_compose(
                                code,
                                n,
                                pos_i,
                                ip.pos as int,
                                code.len() - 1,
                                stack_i.len() as int,
                                self.stack@.len() as int,
                            );
                        }
                        assert forall|out: Result<Value, RuntimeError>|
                            #[trigger] s_run_rel(
                                arith,
                                code,
                                consts,
                                lines,
                                ip.pos as int,
                                self.stack@,
                                out,
                            ) implies s_run_rel(arith, code, consts, lines, pos0, stack0, out) by {
                            assert(s_run_rel(arith, code, consts, lines, pos_i, stack_i, out));
                        }
                    }
                },
                StepOutcome::Halted(v) => {
                    proof {
                        if strong {
                            // the RETURN byte stands only at the end, at
                            // depth one
                            if pos_i < code.len() - 1 {
                                assert(s_stack_sim(
                                    code,
                                    n,
                                    pos_i,
                                    code.len() - 1,
                                    stack_i.len() as int,
                                ) is None);
                            }
                            assert(pos_i == code.len() - 1);
                            assert(stack_i.len() == 1);
                        }
                    }
                    return Ok(v);
                },
                StepOutcome::Failed(e) => {
                    return Err(e);
                },
            }
        }
    }
}

impl VirtualMachine {
    /// Interpret a whole source string: compile it (with `numbers` the
    /// pre-parsed bits of its number literals, in order) and run the chunk.
    /// Success hands back the value the program left — tied to the supplied
    /// arithmetic through the run relation — with the operand stack empty
    /// again; either failure is pinned by the compilation spec and the run
    /// relation.
    pub fn interpret<F: Fn(u8, u64, u64) -> u64 + Copy>(
        &mut self,
        source: &[u8],
        numbers: Vec<u64>,
        arith: F,
    ) -> (r: Result<Value, InterpreterError>)
        requires
            source@.len() < usize::MAX,
            crate::compiler::numbers_cover(source@, numbers@),
            forall|args: (u8, u64, u64)| #[trigger] call_requires(arith, args),
        ensures
            final(self).debug == old(self).debug,
            r is Ok ==> final(self).stack@.len() == 0,
            ({
                let cs = crate::compiler::s_compile_source(source@, numbers@);
                match r {
                    Ok(v) => cs.err is None && s_run_rel(
                        arith,
                        cs.code,
                        cs.consts,
                        cs.lines,
                        0,
                        Seq::empty(),
                        Ok::<Value, RuntimeError>(v),
                    ),
                    Err(InterpreterError::Compile(e)) => cs.err == Some(e),
                    Err(InterpreterError::Runtime(e)) => cs.err is None && s_run_rel(
                        arith,
                        cs.code,
                        cs.consts,
                        cs.lines,
                        0,
                        Seq::empty(),
                        Err::<Value, RuntimeError>(e),
                    ),
                }
            }),
    {
        self.init();
        let ghost nums_seq = numbers@;
        let chunk = match compile(source, numbers) {
            Ok(c) => c,
            Err(e) => {
                return Err(InterpreterError::Compile(e));
            },
        };
        proof {
            crate::laws::lemma_compile_source_code_ok(source@, nums_seq);
            lemma_code_ok_implies_run_safe(chunk.code@, chunk.constants@.len() as int, 0, 0);
            assert(self.stack@ =~= Seq::<Value>::empty());
        }
        let mut ip = InstructionPointer::new(&chunk.code);
        match self.run(&mut ip, &chunk, arith) {
            Ok(v) => Ok(v),
            Err(e) => Err(InterpreterError::Runtime(e)),
        }
    }
}

} // verus!
