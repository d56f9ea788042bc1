//! The execution engine: the interpreter state and the verified operations
//! on it. Every public operation's contract is stated over the abstract
//! `Machine` of `crate::semantics`.

use vstd::prelude::*;

use crate::semantics::{
    advance, byte_dec, byte_inc, dispatch, init_machine, jump_to_marker, lemma_inv_preserved,
    machine_inv, move_left, move_right, pop_marker, push_marker, run, write_cell, ExecError,
    Machine, Outcome, SpecStep, NEWLINE, TAPE_LEN,
};

verus! {

/// What a single call of `Interpreter::step` reports.
#[derive(Clone, Copy, Debug, PartialEq, Eq, Structural)]
pub enum StepEvent {
    /// One instruction was dispatched and the cursor moved on.
    Advanced,
    /// An output instruction emitted this byte.
    Emitted(u8),
    /// An input instruction is waiting for a line; feed one with
    /// `Interpreter::feed_input` before stepping on.
    AwaitingInput,
    /// The cursor is past the last token: the run is over.
    Halted,
    /// Dispatch failed; the engine is unchanged.
    Failed(ExecError),
}

/// The execution engine. It owns the tape, the pointer, the cached value of
/// the active cell, the instruction stream with its cursor, and the jump
/// stack, for the duration of one run.
pub struct Interpreter {
    mem: Vec<u8>,
    current_value: u8,
    pointer: usize,
    index: usize,
    tokens: Vec<char>,
    loop_starts: Vec<usize>,
}

impl View for Interpreter {
    type V = Machine;

    closed spec fn view(&self) -> Machine {
        Machine {
            mem: self.mem@,
            current_value: self.current_value,
            pointer: self.pointer as int,
            index: self.index as int,
            tokens: self.tokens@,
            loop_starts: self.loop_starts@,
        }
    }
}

/// How `Interpreter::step` relates the engine before the call, the engine
/// after it, and the reported event: exactly as the dispatch table says.
pub open spec fn step_matches(m: Machine, m2: Machine, r: StepEvent) -> bool {
    match dispatch(m) {
        SpecStep::Halt => m2 == m && r == StepEvent::Halted,
        SpecStep::Step(n) => m2 == n && r == StepEvent::Advanced,
        SpecStep::Emit(n, b) => m2 == n && r == StepEvent::Emitted(b),
        SpecStep::Read => m2 == m && r == StepEvent::AwaitingInput,
        SpecStep::Stuck(e) => m2 == m && r == StepEvent::Failed(e),
    }
}

impl Interpreter {
    /// The engine's internal invariant; `new` establishes it and every
    /// operation preserves it.
    pub open spec fn wf(&self) -> bool {
        machine_inv(self@)
    }

    /// A fresh engine for the given program text: tape all zero, pointer and
    /// cursor at zero, cached value zero, jump stack empty.
    pub fn new(tokens: Vec<char>) -> (r: Interpreter)
        ensures
            r.wf(),
            r@ == init_machine(tokens@),
    {
        // The stream's length is a machine word, which the invariant's
        // bound on it needs.
        let token_count = tokens.len();
        proof {
            assert(tokens@.len() == token_count);
        }
        let mut mem: Vec<u8> = Vec::new();
        let mut i: usize = 0;
        while i < TAPE_LEN
            invariant
                i <= TAPE_LEN,
                mem@.len() == i,
                forall|k: int| 0 <= k < i ==> mem@[k] == 0u8,
            decreases TAPE_LEN - i,
        {
            mem.push(0u8);
            i = i + 1;
        }
        proof {
            assert(mem@ =~= Seq::new(TAPE_LEN as nat, |k: int| 0u8));
        }
        Interpreter {
            mem,
            current_value: 0,
            pointer: 0,
            index: 0,
            tokens,
            loop_starts: Vec::new(),
        }
    }

    /// Pointer one cell right, wrapping past the last cell to cell zero; the
    /// cached value is refreshed from the new active cell.
    pub fn increment_pointer(&mut self)
        requires
            old(self).wf(),
        ensures
            final(self).wf(),
            final(self)@ == move_right(old(self)@),
    {
        self.pointer = (self.pointer + 1) % TAPE_LEN;
        self.current_value = self.mem[self.pointer];
        proof {
            lemma_inv_preserved(old(self)@, self@);
        }
    }

    /// Pointer one cell left, wrapping past cell zero to the last cell; the
    /// cached value is refreshed from the new active cell.
    pub fn decrement_pointer(&mut self)
        requires
            old(self).wf(),
        ensures
            final(self).wf(),
            final(self)@ == move_left(old(self)@),
    {
        if self.pointer == 0 {
            self.pointer = TAPE_LEN - 1;
        } else {
            self.pointer = self.pointer - 1;
        }
        self.current_value = self.mem[self.pointer];
        proof {
            lemma_inv_preserved(old(self)@, self@);
        }
    }

    /// The active cell incremented by one, wrapping 255 to 0.
    pub fn increment_value(&mut self)
        requires
            old(self).wf(),
        ensures
            final(self).wf(),
            final(self)@ == write_cell(old(self)@, byte_inc(old(self)@.mem[old(self)@.pointer])),
    {
        let v = self.mem[self.pointer];
        let nv: u8 = if v == 255 { 0 } else { v + 1 };
        self.mem[self.pointer] = nv;
        proof {
            lemma_inv_preserved(old(self)@, self@);
        }
    }

    /// The active cell decremented by one, wrapping 0 to 255.
    pub fn decrement_value(&mut self)
        requires
            old(self).wf(),
        ensures
            final(self).wf(),
            final(self)@ == write_cell(old(self)@, byte_dec(old(self)@.mem[old(self)@.pointer])),
    {
        let v = self.mem[self.pointer];
        let nv: u8 = if v == 0 { 255 } else { v - 1 };
        self.mem[self.pointer] = nv;
        proof {
            lemma_inv_preserved(old(self)@, self@);
        }
    }

    /// The value of the active cell, read from the tape itself.
    pub fn get_current_value(&mut self) -> (r: u8)
        requires
            old(self).wf(),
        ensures
            final(self).wf(),
            final(self)@ == old(self)@,
            r == old(self)@.mem[old(self)@.pointer],
    {
        self.mem[self.pointer]
    }

    /// The active cell overwritten with `value`.
    pub fn input_current_value(&mut self, value: u8)
        requires
            old(self).wf(),
        ensures
            final(self).wf(),
            final(self)@ == write_cell(old(self)@, value),
    {
        self.mem[self.pointer] = value;
        proof {
            lemma_inv_preserved(old(self)@, self@);
        }
    }

    /// The current cursor position pushed onto the jump stack; dispatched
    /// unconditionally for every loop-open instruction.
    pub fn push_loop_marker(&mut self)
        requires
            old(self).wf(),
            old(self)@.index < old(self)@.tokens.len(),
        ensures
            final(self).wf(),
            final(self)@ == push_marker(old(self)@),
    {
        self.loop_starts.push(self.index);
    }

    /// The top of the jump stack discarded; an empty stack is left alone.
    pub fn pop_loop_marker(&mut self)
        requires
            old(self).wf(),
        ensures
            final(self).wf(),
            final(self)@ == pop_marker(old(self)@),
    {
        self.loop_starts.pop();
    }

    /// The cursor set back to the position recorded by the top of the jump
    /// stack, for a repeating loop-close. An empty stack is the fatal
    /// unmatched-loop-close condition and leaves the engine unchanged.
    pub fn jumpto_last_marker(&mut self) -> (r: Result<(), ExecError>)
        requires
            old(self).wf(),
        ensures
            final(self).wf(),
            old(self)@.loop_starts.len() == 0 ==> r == Err::<(), ExecError>(
                ExecError::UnmatchedLoopClose,
            ) && final(self)@ == old(self)@,
            old(self)@.loop_starts.len() > 0 ==> r == Ok::<(), ExecError>(()) && final(self)@
                == jump_to_marker(old(self)@),
    {
        if self.loop_starts.len() == 0 {
            Err(ExecError::UnmatchedLoopClose)
        } else {
            let top = self.loop_starts.len() - 1;
            proof {
                assert(old(self)@.loop_starts[top as int] < old(self)@.tokens.len());
            }
            self.index = self.loop_starts[top];
            proof {
                lemma_inv_preserved(old(self)@, self@);
            }
            Ok(())
        }
    }

    /// Whether the cursor stands on an input instruction, so that
    /// `feed_input` may be called.
    pub fn at_input_instruction(&self) -> (r: bool)
        requires
            self.wf(),
        ensures
            r == (self@.index < self@.tokens.len() && self@.tokens[self@.index] == ','),
    {
        self.index < self.tokens.len() && self.tokens[self.index] == ','
    }

    /// One fetch-decode-execute cycle, exactly as the dispatch table says.
    /// An input instruction is not consumed here: the caller must feed a
    /// line with `feed_input`, then step on.
    pub fn step(&mut self) -> (r: StepEvent)
        requires
            old(self).wf(),
        ensures
            final(self).wf(),
            step_matches(old(self)@, final(self)@, r),
    {
        if self.index >= self.tokens.len() {
            return StepEvent::Halted;
        }
        let c = self.tokens[self.index];
        match c {
            '\n' | '\t' | ' ' => {
                self.index = self.index + 1;
                StepEvent::Advanced
            },
            '>' => {
                self.increment_pointer();
                self.index = self.index + 1;
                StepEvent::Advanced
            },
            '<' => {
                self.decrement_pointer();
                self.index = self.index + 1;
                StepEvent::Advanced
            },
            '+' => {
                self.increment_value();
                self.index = self.index + 1;
                StepEvent::Advanced
            },
            '-' => {
                self.decrement_value();
                self.index = self.index + 1;
                StepEvent::Advanced
            },
            ',' => StepEvent::AwaitingInput,
            '.' => {
                let b = self.get_current_value();
                self.index = self.index + 1;
                StepEvent::Emitted(b)
            },
            '[' => {
                self.push_loop_marker();
                self.index = self.index + 1;
                StepEvent::Advanced
            },
            ']' => {
                if self.get_current_value() == 0 {
                    self.pop_loop_marker();
                    self.index = self.index + 1;
                    StepEvent::Advanced
                } else {
                    match self.jumpto_last_marker() {
                        Ok(_) => {
                            self.index = self.index + 1;
                            StepEvent::Advanced
                        },
                        Err(e) => StepEvent::Failed(e),
                    }
                }
            },
            _ => StepEvent::Failed(ExecError::InvalidToken(self.index)),
        }
    }

    /// The fetch-decode-execute loop, run to completion against a supplied
    /// sequence of input lines (one line per input instruction, in order;
    /// running out of lines is a read failure) and a budget of `fuel`
    /// dispatch cycles, blanks free. Returns the bytes written — with the
    /// trailing newline a normal halt emits — and how the run ended,
    /// exactly as the `run` semantics says.
    pub fn execute(&mut self, inputs: &Vec<Vec<u8>>, fuel: u64) -> (r: (Vec<u8>, Outcome))
        requires
            old(self).wf(),
        ensures
            final(self).wf(),
            ({
                let t = run(old(self)@, inputs.deep_view(), 0, Seq::empty(), fuel as nat);
                final(self)@ == t.state && r.0@ == t.output && r.1 == t.outcome
            }),
    {
        let ghost goal = run(old(self)@, inputs.deep_view(), 0, Seq::empty(), fuel as nat);
        let mut out: Vec<u8> = Vec::new();
        let mut cursor: usize = 0;
        let mut fuel_left: u64 = fuel;
        loop
            invariant
                self.wf(),
                cursor <= inputs.len(),
                goal == run(old(self)@, inputs.deep_view(), 0, Seq::empty(), fuel as nat),
                run(self@, inputs.deep_view(), cursor as int, out@, fuel_left as nat) == goal,
            decreases fuel_left, self@.tokens.len() - self@.index,
        {
            if self.index >= self.tokens.len() {
                out.push(NEWLINE);
                return (out, Outcome::Success);
            }
            let c = self.tokens[self.index];
            if c == '\n' || c == '\t' || c == ' ' {
                self.index = self.index + 1;
            } else if fuel_left == 0 {
                return (out, Outcome::OutOfFuel);
            } else {
                fuel_left = fuel_left - 1;
                match c {
                    '>' => {
                        self.increment_pointer();
                        self.index = self.index + 1;
                    },
                    '<' => {
                        self.decrement_pointer();
                        self.index = self.index + 1;
                    },
                    '+' => {
                        self.increment_value();
                        self.index = self.index + 1;
                    },
                    '-' => {
                        self.decrement_value();
                        self.index = self.index + 1;
                    },
                    ',' => {
                        if cursor >= inputs.len() {
                            return (out, Outcome::Failure(ExecError::InputReadFailure));
                        }
                        let line = &inputs[cursor];
                        proof {
                            assert(inputs.deep_view()[cursor as int] == line@);
                        }
                        if line.len() == 0 {
                            return (out, Outcome::Failure(ExecError::EmptyInputLine));
                        }
                        let b = line[0];
                        self.input_current_value(b);
                        self.index = self.index + 1;
                        cursor = cursor + 1;
                    },
                    '.' => {
                        let b = self.get_current_value();
                        out.push(b);
                        self.index = self.index + 1;
                    },
                    '[' => {
                        self.push_loop_marker();
                        self.index = self.index + 1;
                    },
                    ']' => {
                        if self.get_current_value() == 0 {
                            self.pop_loop_marker();
                            self.index = self.index + 1;
                        } else {
                            match self.jumpto_last_marker() {
                                Ok(_) => {
                                    self.index = self.index + 1;
                                },
                                Err(e) => {
                                    return (out, Outcome::Failure(e));
                                },
                            }
                        }
                    },
                    _ => {
                        return (out, Outcome::Failure(ExecError::InvalidToken(self.index)));
                    },
                }
            }
        }
    }

    /// The whole input instruction, given what the console read: `None` for
    /// a failed read, otherwise the raw bytes of the line. A non-empty line
    /// stores its first byte into the active cell and moves the cursor on;
    /// the two error cases leave the engine unchanged.
    pub fn feed_input(&mut self, line: Option<&Vec<u8>>) -> (r: Result<(), ExecError>)
        requires
            old(self).wf(),
            old(self)@.index < old(self)@.tokens.len(),
            old(self)@.tokens[old(self)@.index] == ',',
        ensures
            final(self).wf(),
            match line {
                None => final(self)@ == old(self)@ && r == Err::<(), ExecError>(
                    ExecError::InputReadFailure,
                ),
                Some(l) => {
                    if l@.len() == 0 {
                        final(self)@ == old(self)@ && r == Err::<(), ExecError>(
                            ExecError::EmptyInputLine,
                        )
                    } else {
                        final(self)@ == advance(write_cell(old(self)@, l@[0])) && r == Ok::<
                            (),
                            ExecError,
                        >(())
                    }
                },
            },
    {
        match line {
            None => Err(ExecError::InputReadFailure),
            Some(l) => {
                if l.len() == 0 {
                    Err(ExecError::EmptyInputLine)
                } else {
                    self.input_current_value(l[0]);
                    self.index = self.index + 1;
                    Ok(())
                }
            },
        }
    }
}

} // verus!
