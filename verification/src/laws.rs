//! Laws of the execution engine, proved once over the mathematical model of
//! `crate::semantics`.

use vstd::arithmetic::div_mod::{lemma_add_mod_noop, lemma_mod_multiples_vanish, lemma_small_mod};
use vstd::prelude::*;

use crate::semantics::{
    advance, byte_dec, byte_inc, init_machine, is_blank, jump_to_marker, lemma_inv_preserved,
    machine_inv, move_left, move_right, pop_marker, push_marker, run, write_cell, ExecError,
    Machine, Outcome, TAPE_LEN,
};

verus! {

/// The machine after `n` successive right moves of the pointer.
pub open spec fn rights(m: Machine, n: nat) -> Machine
    decreases n,
{
    if n == 0 {
        m
    } else {
        move_right(rights(m, (n - 1) as nat))
    }
}

/// The machine after `n` successive left moves of the pointer.
pub open spec fn lefts(m: Machine, n: nat) -> Machine
    decreases n,
{
    if n == 0 {
        m
    } else {
        move_left(lefts(m, (n - 1) as nat))
    }
}

/// Law: pointer moves wrap modulo the tape length, however many there are.
/// `n` right moves from pointer `p` land on `(p + n) mod TAPE_LEN`, and `n`
/// left moves land on `(p - n) mod TAPE_LEN` — so one move right from the
/// last cell lands on cell zero, and one move left from cell zero lands on
/// the last cell. Moves touch neither the tape nor the stream, and after
/// any move the cached value equals the active cell.
pub proof fn lemma_pointer_wraparound(m: Machine, n: nat)
    requires
        machine_inv(m),
    ensures
        rights(m, n).pointer == (m.pointer + n) % (TAPE_LEN as int),
        lefts(m, n).pointer == (m.pointer - n) % (TAPE_LEN as int),
        rights(m, n).mem == m.mem,
        lefts(m, n).mem == m.mem,
        n > 0 ==> rights(m, n).current_value == m.mem[rights(m, n).pointer],
        n > 0 ==> lefts(m, n).current_value == m.mem[lefts(m, n).pointer],
    decreases n,
{
    let len = TAPE_LEN as int;
    if n == 0 {
        lemma_small_mod(m.pointer as nat, TAPE_LEN as nat);
        lemma_mod_multiples_vanish(0, m.pointer, len);
    } else {
        lemma_pointer_wraparound(m, (n - 1) as nat);
        lemma_small_mod(1nat, TAPE_LEN as nat);
        lemma_small_mod((TAPE_LEN - 1) as nat, TAPE_LEN as nat);
        lemma_add_mod_noop(m.pointer + n - 1, 1, len);
        lemma_add_mod_noop(m.pointer - (n - 1), len - 1, len);
        lemma_mod_multiples_vanish(1, m.pointer - n, len);
    }
}

/// Position `j` of a stream, as it stands after one character is inserted
/// at position `i`.
pub open spec fn shift_at(j: int, i: int) -> int {
    if j < i {
        j
    } else {
        j + 1
    }
}

/// The padded machine `w` mirrors `m`: `w`'s stream is `m`'s with the blank
/// `c` inserted at `i`, tape, pointer and cached value agree, and the cursor
/// and every recorded loop-open position are shifted accordingly. The
/// padded cursor may also still stand on the inserted blank itself while
/// `m`'s cursor stands at the insertion point.
pub open spec fn mirrors(m: Machine, w: Machine, i: int, c: char) -> bool {
    &&& is_blank(c)
    &&& 0 <= i <= m.tokens.len()
    &&& w.tokens == m.tokens.insert(i, c)
    &&& w.mem == m.mem
    &&& w.current_value == m.current_value
    &&& w.pointer == m.pointer
    &&& (w.index == shift_at(m.index, i) || (m.index == i && w.index == i))
    &&& w.loop_starts.len() == m.loop_starts.len()
    &&& forall|k: int|
        0 <= k < m.loop_starts.len() ==> (#[trigger] w.loop_starts[k]) as int == shift_at(
            m.loop_starts[k] as int,
            i,
        )
}

/// Outcomes agree, except that an invalid-token error carries the shifted
/// position in the padded run.
pub open spec fn outcome_mirrors(o: Outcome, o2: Outcome, i: int) -> bool {
    match (o, o2) {
        (
            Outcome::Failure(ExecError::InvalidToken(j)),
            Outcome::Failure(ExecError::InvalidToken(j2)),
        ) => j2 as int == shift_at(j as int, i),
        _ => o2 == o,
    }
}

/// How many free dispatches the padded machine still owes before the two
/// cursors correspond again: one while both stand at the insertion point.
pub open spec fn sync_debt(m: Machine, w: Machine, i: int) -> int {
    if m.index == i && w.index == i {
        1
    } else {
        0
    }
}

/// The simulation behind `lemma_blank_insertion`: from any pair of mirrored
/// machines, the two runs write the same bytes, end the same way up to the
/// shifted error position, and leave mirrored machines behind.
proof fn lemma_blank_insertion_sim(
    m: Machine,
    w: Machine,
    i: int,
    c: char,
    inputs: Seq<Seq<u8>>,
    cursor: int,
    out: Seq<u8>,
    fuel: nat,
)
    requires
        machine_inv(m),
        machine_inv(w),
        mirrors(m, w, i, c),
    ensures
        ({
            let t = run(m, inputs, cursor, out, fuel);
            let t2 = run(w, inputs, cursor, out, fuel);
            &&& t2.output == t.output
            &&& outcome_mirrors(t.outcome, t2.outcome, i)
            &&& mirrors(t.state, t2.state, i, c)
        }),
    decreases fuel, m.tokens.len() - m.index, sync_debt(m, w, i),
{
    m.tokens.insert_ensures(i, c);
    if m.index == i && w.index == i {
        // The padded machine stands on the inserted blank: one free dispatch
        // moves it past, and the two cursors correspond again.
        assert(w.tokens[i] == c);
        let w2 = advance(w);
        lemma_inv_preserved(w, w2);
        assert(mirrors(m, w2, i, c));
        lemma_blank_insertion_sim(m, w2, i, c, inputs, cursor, out, fuel);
        assert(run(w, inputs, cursor, out, fuel) == run(w2, inputs, cursor, out, fuel));
    } else {
        assert(w.index == shift_at(m.index, i));
        if m.index >= m.tokens.len() {
            // Both runs halt and append the trailing newline.
            assert(w.index >= w.tokens.len());
        } else {
            let t = m.tokens[m.index];
            assert(w.index < w.tokens.len());
            assert(w.tokens[w.index] == t);
            if is_blank(t) {
                let m2 = advance(m);
                let w2 = advance(w);
                lemma_inv_preserved(m, m2);
                lemma_inv_preserved(w, w2);
                assert(mirrors(m2, w2, i, c));
                lemma_blank_insertion_sim(m2, w2, i, c, inputs, cursor, out, fuel);
            } else if fuel == 0 {
                // Both runs stop with the budget exhausted and the machines
                // untouched.
            } else {
                let f2 = (fuel - 1) as nat;
                if t == '>' {
                    let m2 = advance(move_right(m));
                    let w2 = advance(move_right(w));
                    lemma_inv_preserved(m, m2);
                    lemma_inv_preserved(w, w2);
                    assert(mirrors(m2, w2, i, c));
                    lemma_blank_insertion_sim(m2, w2, i, c, inputs, cursor, out, f2);
                } else if t == '<' {
                    let m2 = advance(move_left(m));
                    let w2 = advance(move_left(w));
                    lemma_inv_preserved(m, m2);
                    lemma_inv_preserved(w, w2);
                    assert(mirrors(m2, w2, i, c));
                    lemma_blank_insertion_sim(m2, w2, i, c, inputs, cursor, out, f2);
                } else if t == '+' {
                    let m2 = advance(write_cell(m, byte_inc(m.mem[m.pointer])));
                    let w2 = advance(write_cell(w, byte_inc(w.mem[w.pointer])));
                    lemma_inv_preserved(m, m2);
                    lemma_inv_preserved(w, w2);
                    assert(mirrors(m2, w2, i, c));
                    lemma_blank_insertion_sim(m2, w2, i, c, inputs, cursor, out, f2);
                } else if t == '-' {
                    let m2 = advance(write_cell(m, byte_dec(m.mem[m.pointer])));
                    let w2 = advance(write_cell(w, byte_dec(w.mem[w.pointer])));
                    lemma_inv_preserved(m, m2);
                    lemma_inv_preserved(w, w2);
                    assert(mirrors(m2, w2, i, c));
                    lemma_blank_insertion_sim(m2, w2, i, c, inputs, cursor, out, f2);
                } else if t == '.' {
                    let m2 = advance(m);
                    let w2 = advance(w);
                    lemma_inv_preserved(m, m2);
                    lemma_inv_preserved(w, w2);
                    assert(mirrors(m2, w2, i, c));
                    lemma_blank_insertion_sim(
                        m2,
                        w2,
                        i,
                        c,
                        inputs,
                        cursor,
                        out.push(m.mem[m.pointer]),
                        f2,
                    );
                } else if t == ',' {
                    if 0 <= cursor < inputs.len() && inputs[cursor].len() > 0 {
                        let b = inputs[cursor][0];
                        let m2 = advance(write_cell(m, b));
                        let w2 = advance(write_cell(w, b));
                        lemma_inv_preserved(m, m2);
                        lemma_inv_preserved(w, w2);
                        assert(mirrors(m2, w2, i, c));
                        lemma_blank_insertion_sim(m2, w2, i, c, inputs, cursor + 1, out, f2);
                    }
                    // Otherwise both runs fail the same way with the
                    // machines untouched.
                } else if t == '[' {
                    let m2 = advance(push_marker(m));
                    let w2 = advance(push_marker(w));
                    assert forall|k: int| 0 <= k < m2.loop_starts.len() implies (
                    #[trigger] m2.loop_starts[k]) < m2.tokens.len() by {
                        if k < m.loop_starts.len() {
                            assert(m.loop_starts[k] < m.tokens.len());
                        } else {
                            assert(m2.loop_starts[k] == m.index as usize);
                        }
                    }
                    assert forall|k: int| 0 <= k < w2.loop_starts.len() implies (
                    #[trigger] w2.loop_starts[k]) < w2.tokens.len() by {
                        if k < w.loop_starts.len() {
                            assert(w.loop_starts[k] < w.tokens.len());
                        } else {
                            assert(w2.loop_starts[k] == w.index as usize);
                        }
                    }
                    assert(machine_inv(m2));
                    assert(machine_inv(w2));
                    assert forall|k: int| 0 <= k < m2.loop_starts.len() implies (
                    #[trigger] w2.loop_starts[k]) as int == shift_at(m2.loop_starts[k] as int, i) by {
                        if k < m.loop_starts.len() {
                            assert(w.loop_starts[k] as int == shift_at(m.loop_starts[k] as int, i));
                        } else {
                            assert(m2.loop_starts[k] == m.index as usize);
                            assert(w2.loop_starts[k] == w.index as usize);
                        }
                    }
                    assert(mirrors(m2, w2, i, c));
                    lemma_blank_insertion_sim(m2, w2, i, c, inputs, cursor, out, f2);
                } else if t == ']' {
                    if m.mem[m.pointer] == 0 {
                        let m2 = advance(pop_marker(m));
                        let w2 = advance(pop_marker(w));
                        assert forall|k: int| 0 <= k < m2.loop_starts.len() implies (
                        #[trigger] m2.loop_starts[k]) < m2.tokens.len() by {
                            assert(m2.loop_starts[k] == m.loop_starts[k]);
                            assert(m.loop_starts[k] < m.tokens.len());
                        }
                        assert forall|k: int| 0 <= k < w2.loop_starts.len() implies (
                        #[trigger] w2.loop_starts[k]) < w2.tokens.len() by {
                            assert(w2.loop_starts[k] == w.loop_starts[k]);
                            assert(w.loop_starts[k] < w.tokens.len());
                        }
                        assert(machine_inv(m2));
                        assert(machine_inv(w2));
                        assert forall|k: int| 0 <= k < m2.loop_starts.len() implies (
                        #[trigger] w2.loop_starts[k]) as int == shift_at(
                            m2.loop_starts[k] as int,
                            i,
                        ) by {
                            assert(m2.loop_starts[k] == m.loop_starts[k]);
                            assert(w2.loop_starts[k] == w.loop_starts[k]);
                            assert(w.loop_starts[k] as int == shift_at(m.loop_starts[k] as int, i));
                        }
                        assert(mirrors(m2, w2, i, c));
                        lemma_blank_insertion_sim(m2, w2, i, c, inputs, cursor, out, f2);
                    } else if m.loop_starts.len() == 0 {
                        // Both runs fail with the unmatched loop-close error.
                    } else {
                        let top = m.loop_starts.len() - 1;
                        assert(w.loop_starts[top] as int == shift_at(m.loop_starts[top] as int, i));
                        assert(m.loop_starts[top] < m.tokens.len());
                        let m2 = advance(jump_to_marker(m));
                        let w2 = advance(jump_to_marker(w));
                        lemma_inv_preserved(m, m2);
                        lemma_inv_preserved(w, w2);
                        assert(mirrors(m2, w2, i, c));
                        lemma_blank_insertion_sim(m2, w2, i, c, inputs, cursor, out, f2);
                    }
                } else {
                    // Both runs fail with an invalid-token error; the padded
                    // one carries the shifted position.
                    assert(m.index as usize as int == m.index);
                    assert(w.index as usize as int == w.index);
                }
            }
        }
    }
}

/// Law: blanks are inert wherever they stand. Inserting a newline, tab or
/// space at any position of a program changes neither the bytes a run
/// writes nor how it ends, except that an invalid-token error reports the
/// shifted position of the same offending character.
pub proof fn lemma_blank_insertion(
    tokens: Seq<char>,
    i: int,
    c: char,
    inputs: Seq<Seq<u8>>,
    fuel: nat,
)
    requires
        0 <= i <= tokens.len(),
        is_blank(c),
        tokens.len() < usize::MAX,
    ensures
        ({
            let t = run(init_machine(tokens), inputs, 0, Seq::empty(), fuel);
            let t2 = run(init_machine(tokens.insert(i, c)), inputs, 0, Seq::empty(), fuel);
            &&& t2.output == t.output
            &&& outcome_mirrors(t.outcome, t2.outcome, i)
        }),
{
    let m = init_machine(tokens);
    let w = init_machine(tokens.insert(i, c));
    tokens.insert_ensures(i, c);
    assert(machine_inv(m));
    assert(machine_inv(w));
    assert(mirrors(m, w, i, c));
    lemma_blank_insertion_sim(m, w, i, c, inputs, 0, Seq::empty(), fuel);
}

} // verus!
