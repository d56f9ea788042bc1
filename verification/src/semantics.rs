//! Mathematical model of the execution engine.
//!
//! The model has three layers: `Machine`, the abstract state of the engine;
//! `dispatch`, the meaning of a single fetch-decode-execute cycle; and `run`,
//! the meaning of a whole run over a supplied sequence of input lines with a
//! bounded budget of dispatch cycles.

use vstd::prelude::*;

verus! {

/// Number of cells on the tape.
pub const TAPE_LEN: usize = 4000;

/// The byte the engine writes to the output after a run halts normally.
pub const NEWLINE: u8 = 10;

/// The abstract state of the execution engine.
pub ghost struct Machine {
    /// The tape: a fixed-length sequence of byte cells.
    pub mem: Seq<u8>,
    /// Redundant copy of the active cell, refreshed whenever the pointer moves.
    pub current_value: u8,
    /// Index of the active tape cell.
    pub pointer: int,
    /// Cursor into the instruction stream.
    pub index: int,
    /// The program text, one character per instruction.
    pub tokens: Seq<char>,
    /// LIFO record of loop-open positions.
    pub loop_starts: Seq<usize>,
}

/// The errors that abort a run.
#[derive(Clone, Copy, Debug, PartialEq, Eq, Structural)]
pub enum ExecError {
    /// An unrecognized character stood at this position of the instruction stream.
    InvalidToken(usize),
    /// A repeating loop-close was dispatched while the jump stack was empty.
    UnmatchedLoopClose,
    /// The console read for an input instruction failed.
    InputReadFailure,
    /// The line read for an input instruction held no bytes.
    EmptyInputLine,
}

/// How a bounded run ends.
#[derive(Clone, Copy, Debug, PartialEq, Eq, Structural)]
pub enum Outcome {
    /// The instruction index exhausted the stream.
    Success,
    /// The budget of dispatch cycles ran out while the machine was still running.
    OutOfFuel,
    /// A fatal error aborted the run.
    Failure(ExecError),
}

/// The state a freshly constructed engine holds for a program.
pub open spec fn init_machine(tokens: Seq<char>) -> Machine {
    Machine {
        mem: Seq::new(TAPE_LEN as nat, |i: int| 0u8),
        current_value: 0u8,
        pointer: 0,
        index: 0,
        tokens: tokens,
        loop_starts: Seq::empty(),
    }
}

/// The engine's internal invariant: the tape has its fixed length, the
/// pointer is a tape index, the cursor never passes one past the stream's
/// end, and every recorded loop-open position lies inside the stream.
pub open spec fn machine_inv(m: Machine) -> bool {
    &&& m.mem.len() == TAPE_LEN
    &&& 0 <= m.pointer < TAPE_LEN
    &&& 0 <= m.index <= m.tokens.len()
    &&& m.tokens.len() <= usize::MAX
    &&& forall|k: int|
        0 <= k < m.loop_starts.len() ==> (#[trigger] m.loop_starts[k]) < m.tokens.len()
}

/// The characters that dispatch as no-ops.
pub open spec fn is_blank(c: char) -> bool {
    c == '\n' || c == '\t' || c == ' '
}

/// The machine after the cursor advances by one.
pub open spec fn advance(m: Machine) -> Machine {
    Machine { index: m.index + 1, ..m }
}

/// The machine after the pointer moves one cell right, wrapping past the
/// last cell to cell zero; the cached value is refreshed.
pub open spec fn move_right(m: Machine) -> Machine {
    let p = (m.pointer + 1) % (TAPE_LEN as int);
    Machine { pointer: p, current_value: m.mem[p], ..m }
}

/// The machine after the pointer moves one cell left, wrapping past cell
/// zero to the last cell; the cached value is refreshed.
pub open spec fn move_left(m: Machine) -> Machine {
    let p = (m.pointer + (TAPE_LEN as int) - 1) % (TAPE_LEN as int);
    Machine { pointer: p, current_value: m.mem[p], ..m }
}

/// A byte incremented by one, wrapping 255 to 0.
pub open spec fn byte_inc(b: u8) -> u8 {
    ((b + 1) % 256) as u8
}

/// A byte decremented by one, wrapping 0 to 255.
pub open spec fn byte_dec(b: u8) -> u8 {
    ((b + 255) % 256) as u8
}

/// The machine after the active cell is overwritten with `v`.
pub open spec fn write_cell(m: Machine, v: u8) -> Machine {
    Machine { mem: m.mem.update(m.pointer, v), ..m }
}

/// The machine after the current cursor position is pushed onto the jump stack.
pub open spec fn push_marker(m: Machine) -> Machine {
    Machine { loop_starts: m.loop_starts.push(m.index as usize), ..m }
}

/// The machine after the jump stack's top is discarded; an empty stack is
/// left as it is.
pub open spec fn pop_marker(m: Machine) -> Machine {
    if m.loop_starts.len() == 0 {
        m
    } else {
        Machine { loop_starts: m.loop_starts.drop_last(), ..m }
    }
}

/// The machine after the cursor is set back to the top entry of the jump
/// stack (the position of the loop-open instruction).
pub open spec fn jump_to_marker(m: Machine) -> Machine {
    Machine { index: m.loop_starts.last() as int, ..m }
}

/// The invariant carries over to any machine that keeps the same stream and
/// jump stack and stays inside the tape and the stream.
pub proof fn lemma_inv_preserved(m: Machine, m2: Machine)
    requires
        machine_inv(m),
        m2.tokens == m.tokens,
        m2.loop_starts == m.loop_starts,
        m2.mem.len() == m.mem.len(),
        0 <= m2.pointer < TAPE_LEN,
        0 <= m2.index <= m2.tokens.len(),
    ensures
        machine_inv(m2),
{
}

/// What a single dispatch cycle does to the machine.
pub ghost enum SpecStep {
    /// The cursor is past the last token: the run is over.
    Halt,
    /// An ordinary instruction produced this machine.
    Step(Machine),
    /// An output instruction: the machine afterwards, and the emitted byte.
    Emit(Machine, u8),
    /// An input instruction is waiting for a line; the machine is unchanged.
    Read,
    /// Dispatch failed; the machine is unchanged.
    Stuck(ExecError),
}

/// The dispatch table: the single-cycle meaning of every token. A repeating
/// loop-close sets the cursor onto the matching loop-open and then, like any
/// other dispatch, the cursor advances by one, so the cycle after it executes
/// the token that follows the loop-open.
pub open spec fn dispatch(m: Machine) -> SpecStep {
    if m.index >= m.tokens.len() {
        SpecStep::Halt
    } else {
        let c = m.tokens[m.index];
        if is_blank(c) {
            SpecStep::Step(advance(m))
        } else if c == '>' {
            SpecStep::Step(advance(move_right(m)))
        } else if c == '<' {
            SpecStep::Step(advance(move_left(m)))
        } else if c == '+' {
            SpecStep::Step(advance(write_cell(m, byte_inc(m.mem[m.pointer]))))
        } else if c == '-' {
            SpecStep::Step(advance(write_cell(m, byte_dec(m.mem[m.pointer]))))
        } else if c == '.' {
            SpecStep::Emit(advance(m), m.mem[m.pointer])
        } else if c == ',' {
            SpecStep::Read
        } else if c == '[' {
            SpecStep::Step(advance(push_marker(m)))
        } else if c == ']' {
            if m.mem[m.pointer] == 0 {
                SpecStep::Step(advance(pop_marker(m)))
            } else if m.loop_starts.len() == 0 {
                SpecStep::Stuck(ExecError::UnmatchedLoopClose)
            } else {
                SpecStep::Step(advance(jump_to_marker(m)))
            }
        } else {
            SpecStep::Stuck(ExecError::InvalidToken(m.index as usize))
        }
    }
}

/// Everything a bounded run yields: the machine it leaves behind, the bytes
/// it wrote, and how it ended.
pub ghost struct RunTrace {
    pub state: Machine,
    pub output: Seq<u8>,
    pub outcome: Outcome,
}

/// The meaning of a whole run from machine `m`: `inputs[cursor..]` are the
/// lines the console will yield (running out of them is a read failure), and
/// `out` are the bytes written so far. Every dispatch but a halt or a blank
/// costs one unit of `fuel`; a run still in progress when the fuel is gone
/// ends as `OutOfFuel`. A normal halt appends one trailing newline byte.
pub open spec fn run(
    m: Machine,
    inputs: Seq<Seq<u8>>,
    cursor: int,
    out: Seq<u8>,
    fuel: nat,
) -> RunTrace
    decreases fuel, m.tokens.len() - m.index,
{
    match dispatch(m) {
        SpecStep::Halt => RunTrace {
            state: m,
            output: out.push(NEWLINE),
            outcome: Outcome::Success,
        },
        SpecStep::Step(m2) => {
            if m.index < m.tokens.len() && is_blank(m.tokens[m.index]) {
                run(m2, inputs, cursor, out, fuel)
            } else if fuel == 0 {
                RunTrace { state: m, output: out, outcome: Outcome::OutOfFuel }
            } else {
                run(m2, inputs, cursor, out, (fuel - 1) as nat)
            }
        },
        SpecStep::Emit(m2, b) => {
            if fuel == 0 {
                RunTrace { state: m, output: out, outcome: Outcome::OutOfFuel }
            } else {
                run(m2, inputs, cursor, out.push(b), (fuel - 1) as nat)
            }
        },
        SpecStep::Read => {
            if fuel == 0 {
                RunTrace { state: m, output: out, outcome: Outcome::OutOfFuel }
            } else if cursor < 0 || cursor >= inputs.len() {
                RunTrace {
                    state: m,
                    output: out,
                    outcome: Outcome::Failure(ExecError::InputReadFailure),
                }
            } else if inputs[cursor].len() == 0 {
                RunTrace {
                    state: m,
                    output: out,
                    outcome: Outcome::Failure(ExecError::EmptyInputLine),
                }
            } else {
                run(
                    advance(write_cell(m, inputs[cursor][0])),
                    inputs,
                    cursor + 1,
                    out,
                    (fuel - 1) as nat,
                )
            }
        },
        SpecStep::Stuck(e) => {
            if fuel == 0 {
                RunTrace { state: m, output: out, outcome: Outcome::OutOfFuel }
            } else {
                RunTrace { state: m, output: out, outcome: Outcome::Failure(e) }
            }
        },
    }
}

} // verus!
