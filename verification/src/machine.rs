//! The small-step execution model of a command stream: one abstract machine
//! configuration per moment of a run, a total transition function over it,
//! and the rule by which a provided input text lands in the current cell.
//!
//! The interpreter's contracts are stated against this model: every run is a
//! chain of `step` transitions, with an `input_step` transition wherever an
//! input text was consumed.

use vstd::prelude::*;
use crate::memory_tape::{FINAL_POS, wrapping_inc, wrapping_dec};

verus! {

/// One configuration of the abstract machine: the tape cells, the head
/// index, the command index, and the output accumulated so far.
#[verifier::ext_equal]
pub ghost struct MachineState {
    pub tape: Seq<u8>,
    pub head: int,
    pub pos: int,
    pub out: Seq<u8>,
}

/// A machine configuration paired with the input texts not yet consumed.
#[verifier::ext_equal]
pub ghost struct ExtState {
    pub core: MachineState,
    pub ins: Seq<Seq<u8>>,
}

/// Whether the machine stands on the input command and waits for a text.
pub open spec fn at_input(s: Seq<char>, st: MachineState) -> bool {
    0 <= st.pos < s.len() && s[st.pos] == ','
}

/// One execution step. Movement clamps at the tape boundaries, cell
/// arithmetic wraps modulo 256, brackets jump through the table, the output
/// command appends the current cell, and every unrecognized character is
/// skipped. On the input command the machine waits: input arrives through
/// `input_step`. Past the end of the stream nothing changes.
pub open spec fn step(s: Seq<char>, table: Seq<usize>, st: MachineState) -> MachineState {
    if !(0 <= st.pos < s.len()) {
        st
    } else {
        let c = s[st.pos];
        if c == '>' {
            MachineState {
                head: if st.head == FINAL_POS {
                    st.head
                } else {
                    st.head + 1
                },
                pos: st.pos + 1,
                ..st
            }
        } else if c == '<' {
            MachineState {
                head: if st.head == 0 {
                    0
                } else {
                    st.head - 1
                },
                pos: st.pos + 1,
                ..st
            }
        } else if c == '+' {
            MachineState {
                tape: st.tape.update(st.head, wrapping_inc(st.tape[st.head])),
                pos: st.pos + 1,
                ..st
            }
        } else if c == '-' {
            MachineState {
                tape: st.tape.update(st.head, wrapping_dec(st.tape[st.head])),
                pos: st.pos + 1,
                ..st
            }
        } else if c == '[' {
            if st.tape[st.head] == 0 {
                MachineState { pos: table[st.pos] + 1, ..st }
            } else {
                MachineState { pos: st.pos + 1, ..st }
            }
        } else if c == ']' {
            if st.tape[st.head] != 0 {
                MachineState { pos: table[st.pos] + 1, ..st }
            } else {
                MachineState { pos: st.pos + 1, ..st }
            }
        } else if c == '.' {
            MachineState { out: st.out.push(st.tape[st.head]), pos: st.pos + 1, ..st }
        } else if c == ',' {
            st
        } else {
            MachineState { pos: st.pos + 1, ..st }
        }
    }
}

/// The machine after `n` execution steps.
pub open spec fn iterate(s: Seq<char>, table: Seq<usize>, st: MachineState, n: nat) -> MachineState
    decreases n,
{
    if n == 0 {
        st
    } else {
        step(s, table, iterate(s, table, st, (n - 1) as nat))
    }
}

/// An ASCII whitespace byte, as stripped before decimal decoding.
pub open spec fn is_ascii_whitespace(b: u8) -> bool {
    b == 32 || b == 9 || b == 10 || b == 11 || b == 12 || b == 13
}

pub open spec fn trim_start(t: Seq<u8>) -> Seq<u8>
    decreases t.len(),
{
    if t.len() > 0 && is_ascii_whitespace(t[0]) {
        trim_start(t.drop_first())
    } else {
        t
    }
}

pub open spec fn trim_end(t: Seq<u8>) -> Seq<u8>
    decreases t.len(),
{
    if t.len() > 0 && is_ascii_whitespace(t.last()) {
        trim_end(t.drop_last())
    } else {
        t
    }
}

/// `t` with leading and trailing ASCII whitespace removed.
pub open spec fn trimmed(t: Seq<u8>) -> Seq<u8> {
    trim_end(trim_start(t))
}

pub open spec fn is_digit(b: u8) -> bool {
    48 <= b <= 57
}

pub open spec fn all_digits(t: Seq<u8>) -> bool {
    forall|i: int| 0 <= i < t.len() ==> is_digit(#[trigger] t[i])
}

/// The number written by a sequence of digit bytes.
pub open spec fn dec_value(t: Seq<u8>) -> nat
    decreases t.len(),
{
    if t.len() == 0 {
        0
    } else {
        (dec_value(t.drop_last()) * 10 + (t.last() - 48)) as nat
    }
}

/// `t` without its optional leading plus sign.
pub open spec fn digits_part(t: Seq<u8>) -> Seq<u8> {
    if t.len() > 0 && t[0] == 43 {
        t.drop_first()
    } else {
        t
    }
}

/// Whether `t` is a decimal byte value: an optional plus sign, then one or
/// more digits naming a number below 256.
pub open spec fn parses_as_byte(t: Seq<u8>) -> bool {
    let d = digits_part(t);
    d.len() > 0 && all_digits(d) && dec_value(d) < 256
}

/// The cell value an input text decodes to: its decimal value when the
/// trimmed text names one, otherwise its first raw byte; an empty text
/// stores zero.
pub open spec fn decode_input(t: Seq<u8>) -> u8 {
    if parses_as_byte(trimmed(t)) {
        dec_value(digits_part(trimmed(t))) as u8
    } else if t.len() > 0 {
        t[0]
    } else {
        0
    }
}

/// The transition taken when an input text is consumed at the input command.
pub open spec fn input_step(st: MachineState, text: Seq<u8>) -> MachineState
    recommends
        0 <= st.head < st.tape.len(),
{
    MachineState { tape: st.tape.update(st.head, decode_input(text)), pos: st.pos + 1, ..st }
}

/// One step of the machine extended with a queue of input texts: at the
/// input command the next text is consumed, everywhere else the core machine
/// steps on its own. With the queue empty the machine waits at the input
/// command.
pub open spec fn ext_step(s: Seq<char>, table: Seq<usize>, e: ExtState) -> ExtState {
    if at_input(s, e.core) && e.ins.len() > 0 {
        ExtState { core: input_step(e.core, e.ins[0]), ins: e.ins.drop_first() }
    } else {
        ExtState { core: step(s, table, e.core), ins: e.ins }
    }
}

/// The extended machine after `n` steps.
pub open spec fn ext_iterate(s: Seq<char>, table: Seq<usize>, e: ExtState, n: nat) -> ExtState
    decreases n,
{
    if n == 0 {
        e
    } else {
        ext_step(s, table, ext_iterate(s, table, e, (n - 1) as nat))
    }
}

/// Whether the extended machine can go from `e0` to `e1` in some number of
/// steps.
pub open spec fn ext_reaches(s: Seq<char>, table: Seq<usize>, e0: ExtState, e1: ExtState) -> bool {
    exists|n: nat| ext_iterate(s, table, e0, n) == e1
}

} // verus!
