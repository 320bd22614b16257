use crate::bytecode::{Bytecode, Instruction};
use vstd::prelude::*;

verus! {

broadcast use vstd::std_specs::vec::group_vec_axioms, vstd::seq::group_seq_axioms;

/// The status of a run that executed every instruction.
pub const SUCCESS: i32 = 0;

/// The status of a run that popped from an empty stack.
pub const STACK_UNDERFLOW: i32 = -1;

/// The status of a run whose arithmetic divided by zero or left the range of
/// `i32`.
pub const ARITHMETIC_FAULT: i32 = -2;

/// `a <op> b`, where `a` is the value popped first and `b` the value popped
/// second; `None` on division by zero or a result outside `i32`.
pub open spec fn arithmetic(ins: Instruction, a: i32, b: i32) -> Option<i32> {
    match ins {
        Instruction::Add => a.checked_add(b),
        Instruction::Sub => a.checked_sub(b),
        Instruction::Mul => a.checked_mul(b),
        Instruction::Div => a.checked_div(b),
        _ => None,
    }
}

/// One instruction on a stack (top last): the new stack, or the status that
/// stops the run. A failing instruction leaves the stack as it was.
pub open spec fn step(ins: Instruction, stack: Seq<i32>) -> Result<Seq<i32>, i32> {
    match ins {
        Instruction::Push(n) => Ok(stack.push(n)),
        Instruction::Pop => if stack.len() == 0 {
            Err(STACK_UNDERFLOW)
        } else {
            Ok(stack.drop_last())
        },
        _ => if stack.len() < 2 {
            Err(STACK_UNDERFLOW)
        } else {
            let a = stack[stack.len() - 1];
            let b = stack[stack.len() - 2];
            match arithmetic(ins, a, b) {
                Some(v) => Ok(stack.subrange(0, stack.len() - 2).push(v)),
                None => Err(ARITHMETIC_FAULT),
            }
        },
    }
}

/// Running instructions in order from a stack: the status, and the stack at
/// the end (or as the failing instruction found it).
pub open spec fn run_from(program: Seq<Instruction>, stack: Seq<i32>) -> (i32, Seq<i32>)
    decreases program.len(),
{
    if program.len() == 0 {
        (SUCCESS, stack)
    } else {
        match step(program[0], stack) {
            Ok(next) => run_from(program.drop_first(), next),
            Err(status) => (status, stack),
        }
    }
}

/// A stack machine that runs one buffer of bytecode.
pub struct Interpreter {
    bytecode: Bytecode,
    stack: Vec<i32>,
}

impl Interpreter {
    pub closed spec fn program(&self) -> Seq<Instruction> {
        self.bytecode@
    }

    pub closed spec fn stack_view(&self) -> Seq<i32> {
        self.stack@
    }

    pub closed spec fn wf(&self) -> bool {
        self.bytecode.wf()
    }

    pub fn new(bytecode: Bytecode) -> (r: Interpreter)
        requires
            bytecode.wf(),
        ensures
            r.wf(),
            r.program() == bytecode@,
            r.stack_view() == Seq::<i32>::empty(),
    {
        Interpreter { bytecode, stack: Vec::new() }
    }

    /// The operand stack, top last.
    pub fn stack(&self) -> (r: &Vec<i32>)
        ensures
            r@ == self.stack_view(),
    {
        &self.stack
    }

    /// Executes every instruction in order. Returns `SUCCESS`, or the status
    /// of the first instruction that fails, which ends the run. The values
    /// the run leaves are read with `stack`.
    pub fn run(&mut self) -> (r: i32)
        requires
            old(self).wf(),
        ensures
            final(self).wf(),
            final(self).program() == old(self).program(),
            (r, final(self).stack_view()) == run_from(old(self).program(), old(self).stack_view()),
    {
        let mut it = self.bytecode.iter();
        let ghost program = self.bytecode@;
        let ghost start = self.stack@;
        assert(program.subrange(0, program.len() as int) == program);
        loop
            invariant
                it.wf(),
                run_from(program, start) == run_from(it.remaining(), self.stack@),
                self.bytecode@ == program,
                self.bytecode.wf(),
                program == old(self).program(),
                start == old(self).stack_view(),
            ensures
                run_from(program, start) == (SUCCESS, self.stack@),
                self.bytecode@ == program,
                self.bytecode.wf(),
            decreases it.remaining().len(),
        {
            let ghost rem = it.remaining();
            let ins = match it.next() {
                Some(i) => i,
                None => {
                    break ;
                },
            };
            let outcome = execute(&mut self.stack, ins);
            if outcome != SUCCESS {
                return outcome;
            }
        }
        SUCCESS
    }
}

/// Executes one instruction on `stack`: `SUCCESS` with the stack changed, or
/// the failure status with the stack unchanged.
fn execute(stack: &mut Vec<i32>, ins: Instruction) -> (r: i32)
    ensures
        match step(ins, old(stack)@) {
            Ok(next) => r == SUCCESS && final(stack)@ == next,
            Err(status) => r == status && final(stack)@ == old(stack)@,
        },
{
    match ins {
        Instruction::Push(n) => {
            stack.push(n);
            SUCCESS
        },
        Instruction::Pop => {
            match stack.pop() {
                Some(_) => SUCCESS,
                None => STACK_UNDERFLOW,
            }
        },
        _ => {
            let len = stack.len();
            if len < 2 {
                return STACK_UNDERFLOW;
            }
            let a = stack[len - 1];
            let b = stack[len - 2];
            let result = match ins {
                Instruction::Add => a.checked_add(b),
                Instruction::Sub => a.checked_sub(b),
                Instruction::Mul => a.checked_mul(b),
                _ => a.checked_div(b),
            };
            match result {
                Some(v) => {
                    stack.pop();
                    stack.pop();
                    stack.push(v);
                    assert(stack@ == old(stack)@.subrange(0, len - 2).push(v));
                    SUCCESS
                },
                None => ARITHMETIC_FAULT,
            }
        },
    }
}

/// Runs a buffer of bytecode on an empty stack and returns the status.
pub fn interpret_bytecode(bytecode: Bytecode) -> (r: i32)
    requires
        bytecode.wf(),
    ensures
        r == run_from(bytecode@, Seq::empty()).0,
{
    let mut interpreter = Interpreter::new(bytecode);
    interpreter.run()
}

} // verus!
