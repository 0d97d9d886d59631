//! The virtual machine: a loop that fetches, decodes and executes the
//! instructions of a chunk over a stack of numbers.
//!
//! What a run does is a function on a model of the machine
//! ([`VmView::run`]); the loop is proved to compute it.

use crate::chunk::{init_chunk, Chunk, ChunkView};
use crate::common::{decode, encode, u8_to_opcode, InterpretResult, OpCode};
use crate::compiler::{init_compiler, CompilerView, Diagnostic, Parser};
use crate::value::Value;
use vstd::prelude::*;

verus! {

/// The machine: the chunk it runs, the offset of the next instruction, the
/// stack, and what its last interpretation left behind for the embedding
/// program: the diagnostics of the compilation, the number that the return
/// instruction handed out, and the offsets of the instructions that were
/// listed on the way.
pub struct VirtualMachine {
    chunk: Chunk,
    ip: usize,
    stack: Vec<Value>,
    diagnostics: Vec<Diagnostic>,
    printed: Option<Value>,
    trace: Vec<usize>,
}

/// What a machine holds.
pub struct VmView {
    pub chunk: ChunkView,
    pub ip: int,
    pub stack: Seq<Value>,
    pub diagnostics: Seq<Diagnostic>,
    pub printed: Option<Value>,
    pub trace: Seq<usize>,
}

/// What one instruction does to the offset and the stack.
pub enum Step {
    /// Execution goes on at the offset with the stack.
    Next(int, Seq<Value>),
    /// A return: the number handed out, and the stack that is left.
    Return(Value, Seq<Value>),
    /// A runtime error: no instruction at the offset, or too few operands
    /// on the stack.
    Fault,
}

/// The stack after a unary instruction: its top replaced by the negation
/// of the top.
pub open spec fn negate_top(stack: Seq<Value>) -> Seq<Value> {
    stack.drop_last().push(Value::Negate(Box::new(stack.last())))
}

/// The result of a binary instruction on a left and a right operand.
pub open spec fn apply_binary(op: OpCode, left: Value, right: Value) -> Value {
    match op {
        OpCode::OpAdd => Value::Add(Box::new(left), Box::new(right)),
        OpCode::OpSubtract => Value::Subtract(Box::new(left), Box::new(right)),
        OpCode::OpMultiply => Value::Multiply(Box::new(left), Box::new(right)),
        _ => Value::Divide(Box::new(left), Box::new(right)),
    }
}

/// The stack after a binary instruction: the right operand is popped
/// first, the left operand second, and the result is pushed.
pub open spec fn combine_top(op: OpCode, stack: Seq<Value>) -> Seq<Value> {
    stack.drop_last().drop_last().push(
        apply_binary(op, stack[stack.len() - 2], stack[stack.len() - 1]),
    )
}

/// What the instruction at `ip` does.
pub open spec fn step(chunk: ChunkView, ip: int, stack: Seq<Value>) -> Step {
    if !chunk.instruction_at(ip) {
        Step::Fault
    } else {
        match decode(chunk.code[ip]) {
            Some(OpCode::OpConstant) => Step::Next(
                ip + 2,
                stack.push(chunk.constants[chunk.code[ip + 1] as int]),
            ),
            Some(OpCode::OpNegate) => if stack.len() < 1 {
                Step::Fault
            } else {
                Step::Next(ip + 1, negate_top(stack))
            },
            Some(OpCode::OpReturn) => if stack.len() < 1 {
                Step::Return(Value::Zero, stack)
            } else {
                Step::Return(stack.last(), stack.drop_last())
            },
            Some(op) => if stack.len() < 2 {
                Step::Fault
            } else {
                Step::Next(ip + 1, combine_top(op, stack))
            },
            None => Step::Fault,
        }
    }
}

impl VmView {
    /// Every byte of code has its line, the code is no longer than a
    /// `usize` can count, and from the next instruction on it is whole
    /// instructions.
    pub open spec fn wf(self) -> bool {
        &&& self.chunk.aligned()
        &&& self.chunk.code.len() <= usize::MAX
        &&& 0 <= self.ip <= self.chunk.code.len()
        &&& self.chunk.instructions_from(self.ip)
    }

    /// A machine with nothing loaded.
    pub open spec fn initial() -> VmView {
        VmView {
            chunk: ChunkView::empty(),
            ip: 0,
            stack: Seq::empty(),
            diagnostics: Seq::empty(),
            printed: None,
            trace: Seq::empty(),
        }
    }

    /// The machine with the offset of an instruction that decodes noted in
    /// its trace, if instructions are listed.
    pub open spec fn traced(self, disassemble: bool) -> VmView {
        if disassemble && 0 <= self.ip < self.chunk.code.len() && decode(
            self.chunk.code[self.ip],
        ) is Some {
            VmView { trace: self.trace.push(self.ip as usize), ..self }
        } else {
            self
        }
    }

    /// Runs the machine from where it stands: instruction after
    /// instruction, up to a return or a runtime error. At a return the
    /// machine has popped the number it hands out, or hands out zero from
    /// an empty stack. At a runtime error the machine stands at the
    /// instruction that failed, with the stack as that instruction found
    /// it.
    pub open spec fn run(self, disassemble: bool) -> (VmView, InterpretResult)
        decreases self.chunk.code.len() - self.ip,
    {
        let noted = self.traced(disassemble);
        match step(self.chunk, self.ip, self.stack) {
            Step::Fault => (noted, InterpretResult::InterpretRuntimeError),
            Step::Return(value, stack) => (
                VmView { stack, printed: Some(value), ..noted },
                InterpretResult::InterpretOk,
            ),
            Step::Next(ip, stack) => VmView { ip, stack, ..noted }.run(disassemble),
        }
    }

    /// Compiles a source and, if that succeeds, runs the chunk from its
    /// start on an empty stack. A failed compilation leaves the machine at
    /// the start of the chunk, which is not run.
    pub open spec fn interpret(self, source: Seq<u8>, disassemble: bool) -> (
        VmView,
        InterpretResult,
    ) {
        let compiled = CompilerView::initial(source).compile(ChunkView::empty());
        let loaded = VmView {
            chunk: compiled.chunk,
            ip: 0,
            stack: Seq::empty(),
            diagnostics: compiled.diagnostics,
            printed: None,
            trace: Seq::empty(),
        };
        if compiled.had_error {
            (loaded, InterpretResult::InterpretCompilerError)
        } else {
            loaded.run(disassemble)
        }
    }
}

/// The stack after the instructions from `ip` up to `to`, if execution
/// from `ip` reaches `to` exactly, with no runtime error and no return on
/// the way.
pub open spec fn execute(chunk: ChunkView, ip: int, to: int, stack: Seq<Value>) -> Option<
    Seq<Value>,
>
    decreases to + 1 - ip,
{
    if ip == to {
        Some(stack)
    } else if ip > to {
        None
    } else {
        match step(chunk, ip, stack) {
            Step::Next(next, after) => execute(chunk, next, to, after),
            _ => None,
        }
    }
}

/// One chunk continues another: its code and its pool begin with those of
/// the other.
pub open spec fn continues(before: ChunkView, after: ChunkView) -> bool {
    before.code.is_prefix_of(after.code) && before.constants.is_prefix_of(after.constants)
}

/// Execution reaches `b` from `a` and `c` from `b`: it reaches `c` from
/// `a`.
pub proof fn lemma_execute_compose(
    chunk: ChunkView,
    a: int,
    b: int,
    c: int,
    stack: Seq<Value>,
)
    requires
        b <= c,
        execute(chunk, a, b, stack) is Some,
        execute(chunk, b, c, execute(chunk, a, b, stack)->0) is Some,
    ensures
        execute(chunk, a, c, stack) == execute(chunk, b, c, execute(chunk, a, b, stack)->0),
    decreases b + 1 - a,
{
    if a < b {
        match step(chunk, a, stack) {
            Step::Next(next, after) => {
                lemma_execute_compose(chunk, next, b, c, after);
            },
            _ => {},
        }
    }
}

/// What was executed within a chunk is executed in the same way within a
/// chunk that continues it.
pub proof fn lemma_execute_continues(
    before: ChunkView,
    after: ChunkView,
    a: int,
    b: int,
    stack: Seq<Value>,
)
    requires
        continues(before, after),
        0 <= a,
        execute(before, a, b, stack) is Some,
    ensures
        execute(after, a, b, stack) == execute(before, a, b, stack),
    decreases b + 1 - a,
{
    if a < b {
        match step(before, a, stack) {
            Step::Next(next, pushed) => {
                assert(before.instruction_at(a));
                assert(after.code[a] == before.code[a]);
                if decode(before.code[a]) == Some(OpCode::OpConstant) {
                    assert(after.code[a + 1] == before.code[a + 1]);
                    assert(after.constants[before.code[a + 1] as int]
                        == before.constants[before.code[a + 1] as int]);
                }
                assert(step(after, a, stack) == step(before, a, stack));
                lemma_execute_continues(before, after, next, b, pushed);
            },
            _ => {},
        }
    }
}

/// A load at the end of the code pushes the constant that its operand
/// addresses.
pub proof fn lemma_execute_constant(chunk: ChunkView, at: int, stack: Seq<Value>)
    requires
        0 <= at,
        at + 2 == chunk.code.len(),
        chunk.code[at] == encode(OpCode::OpConstant),
        chunk.code[at + 1] < chunk.constants.len(),
    ensures
        execute(chunk, at, at + 2, stack) == Some(
            stack.push(chunk.constants[chunk.code[at + 1] as int]),
        ),
{
    assert(chunk.instruction_at(at));
    let pushed = stack.push(chunk.constants[chunk.code[at + 1] as int]);
    assert(step(chunk, at, stack) == Step::Next(at + 2, pushed));
    assert(execute(chunk, at + 2, at + 2, pushed) == Some(pushed));
}

/// A negation at the end of the code replaces the top of the stack by
/// its negation.
pub proof fn lemma_execute_negate(chunk: ChunkView, at: int, stack: Seq<Value>, value: Value)
    requires
        0 <= at,
        at + 1 == chunk.code.len(),
        chunk.code[at] == encode(OpCode::OpNegate),
    ensures
        execute(chunk, at, at + 1, stack.push(value)) == Some(
            stack.push(Value::Negate(Box::new(value))),
        ),
{
    assert(chunk.instruction_at(at));
    let before = stack.push(value);
    assert(before.drop_last() =~= stack);
    let after = stack.push(Value::Negate(Box::new(value)));
    assert(step(chunk, at, before) == Step::Next(at + 1, after));
    assert(execute(chunk, at + 1, at + 1, after) == Some(after));
}

/// A binary instruction at the end of the code replaces the two numbers
/// on top of the stack, the left operand below the right one, by its
/// result.
pub proof fn lemma_execute_binary(
    chunk: ChunkView,
    at: int,
    op: OpCode,
    stack: Seq<Value>,
    left: Value,
    right: Value,
)
    requires
        0 <= at,
        at + 1 == chunk.code.len(),
        chunk.code[at] == encode(op),
        op == OpCode::OpAdd || op == OpCode::OpSubtract || op == OpCode::OpMultiply || op
            == OpCode::OpDivide,
    ensures
        execute(chunk, at, at + 1, stack.push(left).push(right)) == Some(
            stack.push(apply_binary(op, left, right)),
        ),
{
    assert(chunk.instruction_at(at));
    let before = stack.push(left).push(right);
    assert(before.drop_last().drop_last() =~= stack);
    let after = stack.push(apply_binary(op, left, right));
    assert(decode(chunk.code[at]) == Some(op));
    assert(step(chunk, at, before) == Step::Next(at + 1, after));
    assert(execute(chunk, at + 1, at + 1, after) == Some(after));
}

/// A machine that executes up to a return hands out the top of the stack
/// that it has built, and runs without error.
pub proof fn lemma_run_to_return(vm: VmView, to: int, value: Value, disassemble: bool)
    requires
        0 <= vm.ip,
        to + 1 == vm.chunk.code.len(),
        vm.chunk.code[to] == encode(OpCode::OpReturn),
        execute(vm.chunk, vm.ip, to, vm.stack) == Some(Seq::<Value>::empty().push(value)),
    ensures
        vm.run(disassemble).1 == InterpretResult::InterpretOk,
        vm.run(disassemble).0.printed == Some(value),
        vm.run(disassemble).0.stack == Seq::<Value>::empty(),
        vm.run(disassemble).0.ip == to,
    decreases to + 1 - vm.ip,
{
    if vm.ip == to {
        assert(vm.chunk.instruction_at(to));
        assert(vm.stack.drop_last() =~= Seq::<Value>::empty());
    } else {
        match step(vm.chunk, vm.ip, vm.stack) {
            Step::Next(ip, stack) => {
                lemma_run_to_return(
                    VmView { ip, stack, ..vm.traced(disassemble) },
                    to,
                    value,
                    disassemble,
                );
            },
            _ => {},
        }
    }
}

/// A run keeps a machine well formed, and leaves all but the offset, the
/// stack, the number handed out and the trace as they were. The trace
/// only grows, and each offset that a run adds to it is that of a whole
/// instruction of the chunk.
pub proof fn lemma_run_wf(vm: VmView, disassemble: bool)
    requires
        vm.wf(),
    ensures
        ({
            let after = vm.run(disassemble).0;
            &&& after.wf()
            &&& after.chunk == vm.chunk
            &&& after.diagnostics == vm.diagnostics
            &&& vm.trace.is_prefix_of(after.trace)
            &&& !disassemble ==> after.trace == vm.trace
            &&& forall|k: int|
                vm.trace.len() <= k < after.trace.len() ==> after.chunk.instruction_at(
                    #[trigger] after.trace[k] as int,
                )
        }),
    decreases vm.chunk.code.len() - vm.ip,
{
    let noted = vm.traced(disassemble);
    assert(vm.trace.is_prefix_of(noted.trace));
    if vm.ip < vm.chunk.code.len() {
        assert(vm.chunk.instruction_at(vm.ip));
    }
    match step(vm.chunk, vm.ip, vm.stack) {
        Step::Next(ip, stack) => {
            let next = VmView { ip, stack, ..noted };
            assert(ip == vm.chunk.next_offset(vm.ip));
            lemma_run_wf(next, disassemble);
            let after = next.run(disassemble).0;
            assert(vm.trace.is_prefix_of(after.trace));
            assert forall|k: int| vm.trace.len() <= k < after.trace.len() implies
                after.chunk.instruction_at(#[trigger] after.trace[k] as int) by {
                if k < noted.trace.len() {
                    assert(after.trace[k] == noted.trace[k]);
                }
            }
        },
        _ => {},
    }
}

impl View for VirtualMachine {
    type V = VmView;

    closed spec fn view(&self) -> VmView {
        VmView {
            chunk: self.chunk@,
            ip: self.ip as int,
            stack: self.stack@,
            diagnostics: self.diagnostics@,
            printed: self.printed,
            trace: self.trace@,
        }
    }
}

/// What a machine does: it interprets a source text, and it runs the
/// chunk that it holds.
pub trait Interpreter {
    /// Compiles a source, no longer than a `usize` can count, and runs it
    /// if it compiled.
    fn interpret(&mut self, source: String, disassemble: bool) -> InterpretResult
        requires
            vstd::utf8::encode_utf8(source@).len() < usize::MAX,
    ;

    /// Runs the machine from where it stands.
    fn run(&mut self, disassemble: bool) -> InterpretResult;
}

impl Interpreter for VirtualMachine {
    /// Compiles the source and, if no error was reported, runs the chunk
    /// from its start on an empty stack. The result is a compile error
    /// without a run if the compilation failed, and else what the run
    /// gives.
    fn interpret(&mut self, source: String, disassemble: bool) -> (result: InterpretResult)
        ensures
            (final(self)@, result) == old(self)@.interpret(
                vstd::utf8::encode_utf8(source@),
                disassemble,
            ),
            final(self)@.wf(),
            result == InterpretResult::InterpretCompilerError <==> final(self)@.diagnostics.len()
                > 0,
            result == InterpretResult::InterpretOk <==> final(self)@.printed is Some,
            result == InterpretResult::InterpretOk ==> final(self)@.printed
                == crate::grammar::denotation(vstd::utf8::encode_utf8(source@)),
            result == InterpretResult::InterpretOk ==> crate::grammar::spelled(
                vstd::utf8::encode_utf8(source@),
                final(self)@.printed->0,
            ),
            result != InterpretResult::InterpretRuntimeError,
            result == InterpretResult::InterpretOk <==> crate::acceptance::accepted(
                vstd::utf8::encode_utf8(source@),
            ),
    {
        proof {
            crate::acceptance::lemma_compile_succeeds_iff(vstd::utf8::encode_utf8(source@));
            crate::grammar::lemma_denotation_spelled(vstd::utf8::encode_utf8(source@));
            crate::soundness::lemma_interpret_denotes(
                old(self)@,
                vstd::utf8::encode_utf8(source@),
                disassemble,
            );
        }
        let chunk = init_chunk();
        let mut compiler = init_compiler(source);
        let ghost before = compiler@;
        proof {
            compiler.lemma_wf();
            crate::compiler::lemma_compile(before, chunk@);
        }
        let compiled = compiler.compile(chunk);
        self.chunk = compiled.chunk;
        self.ip = 0;
        self.stack = Vec::new();
        self.diagnostics = compiled.diagnostics;
        self.printed = None;
        self.trace = Vec::new();
        // The length of the code is that of a vector, which a `usize` counts.
        let size: usize = self.chunk.code.len();
        assert(size <= usize::MAX);
        if !compiled.success {
            return InterpretResult::InterpretCompilerError;
        }
        proof {
            lemma_run_wf(self@, disassemble);
        }
        self.run(disassemble)
    }

    /// Runs the machine from where it stands, up to a return or a runtime
    /// error. With `disassemble` the offset of each instruction is noted
    /// in the trace before the instruction is executed.
    fn run(&mut self, disassemble: bool) -> (result: InterpretResult)
        ensures
            (final(self)@, result) == old(self)@.run(disassemble),
            old(self)@.wf() ==> final(self)@.wf(),
    {
        proof {
            if old(self)@.wf() {
                lemma_run_wf(old(self)@, disassemble);
            }
        }
        loop
            invariant
                self@.run(disassemble) == old(self)@.run(disassemble),
                old(self)@.wf() ==> old(self)@.run(disassemble).0.wf(),
            decreases self@.chunk.code.len() - self@.ip,
        {
            if self.ip >= self.chunk.code.len() {
                return InterpretResult::InterpretRuntimeError;
            }
            let instruction = match u8_to_opcode(self.chunk.code[self.ip]) {
                Some(op) => op,
                None => {
                    return InterpretResult::InterpretRuntimeError;
                },
            };
            if disassemble {
                self.trace.push(self.ip);
            }
            match instruction {
                OpCode::OpConstant => {
                    if self.ip + 1 >= self.chunk.code.len() {
                        return InterpretResult::InterpretRuntimeError;
                    }
                    let index = self.chunk.code[self.ip + 1] as usize;
                    if index >= self.chunk.constants.values.len() {
                        return InterpretResult::InterpretRuntimeError;
                    }
                    let constant = self.chunk.constants.values[index].duplicate();
                    self.stack.push(constant);
                    self.ip += 1;
                },
                OpCode::OpNegate => {
                    if self.stack.len() < 1 {
                        return InterpretResult::InterpretRuntimeError;
                    }
                    let value = self.stack.pop().unwrap();
                    self.stack.push(Value::Negate(Box::new(value)));
                },
                OpCode::OpAdd => {
                    if self.stack.len() < 2 {
                        return InterpretResult::InterpretRuntimeError;
                    }
                    let right = self.stack.pop().unwrap();
                    let left = self.stack.pop().unwrap();
                    self.stack.push(Value::Add(Box::new(left), Box::new(right)));
                },
                OpCode::OpSubtract => {
                    if self.stack.len() < 2 {
                        return InterpretResult::InterpretRuntimeError;
                    }
                    let right = self.stack.pop().unwrap();
                    let left = self.stack.pop().unwrap();
                    self.stack.push(Value::Subtract(Box::new(left), Box::new(right)));
                },
                OpCode::OpMultiply => {
                    if self.stack.len() < 2 {
                        return InterpretResult::InterpretRuntimeError;
                    }
                    let right = self.stack.pop().unwrap();
                    let left = self.stack.pop().unwrap();
                    self.stack.push(Value::Multiply(Box::new(left), Box::new(right)));
                },
                OpCode::OpDivide => {
                    if self.stack.len() < 2 {
                        return InterpretResult::InterpretRuntimeError;
                    }
                    let right = self.stack.pop().unwrap();
                    let left = self.stack.pop().unwrap();
                    self.stack.push(Value::Divide(Box::new(left), Box::new(right)));
                },
                OpCode::OpReturn => {
                    let value = match self.stack.pop() {
                        Some(value) => value,
                        None => Value::Zero,
                    };
                    self.printed = Some(value);
                    return InterpretResult::InterpretOk;
                },
            }
            self.ip += 1;
        }
    }
}

impl VirtualMachine {
    /// The chunk that the machine holds.
    pub fn chunk(&self) -> (chunk: &Chunk)
        ensures
            chunk@ == self@.chunk,
    {
        &self.chunk
    }

    /// The diagnostics of the last compilation, in the order of their
    /// reports.
    pub fn diagnostics(&self) -> (diagnostics: &Vec<Diagnostic>)
        ensures
            diagnostics@ == self@.diagnostics,
    {
        &self.diagnostics
    }

    /// The number that the last return handed out, for the embedding
    /// program to print.
    pub fn printed(&self) -> (printed: &Option<Value>)
        ensures
            *printed == self@.printed,
    {
        &self.printed
    }

    /// The offsets of the instructions that the last run listed, in the
    /// order of their execution.
    pub fn trace(&self) -> (trace: &Vec<usize>)
        ensures
            trace@ == self@.trace,
    {
        &self.trace
    }
}

/// A machine with nothing loaded.
pub fn init_vm() -> (vm: VirtualMachine)
    ensures
        vm@ == VmView::initial(),
{
    VirtualMachine {
        chunk: init_chunk(),
        ip: 0,
        stack: Vec::new(),
        diagnostics: Vec::new(),
        printed: None,
        trace: Vec::new(),
    }
}

} // verus!
