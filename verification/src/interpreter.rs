//! The interpreter: executes a command stream left to right against a tape,
//! branching on loop brackets through the jump table built by the resolver.
//! Every run is proved to follow the small-step model in `machine`.
//!
//! Because nothing bounds how long a command stream may loop, every public
//! driver takes a step budget; the caller decides how much work one call may
//! do and simply calls again when the budget ran out.

use vstd::prelude::*;
use crate::errors::Error;
use crate::jump_resolver::{balanced, table_matches, is_match, build_jump_table};
use crate::machine::{
    MachineState, ExtState, at_input, step, iterate, input_step, ext_step, ext_iterate,
    ext_reaches, decode_input, is_ascii_whitespace, trim_start, trim_end, trimmed, is_digit,
    all_digits, dec_value, digits_part, parses_as_byte,
};
use crate::memory_tape::{MemoryTape, TAPE_SIZE};

verus! {

/// How a bounded run ended: the stream was executed to its end, the machine
/// waits for an input text, or the step budget ran out first.
#[derive(Clone, Copy, Debug, PartialEq, Eq, Structural)]
pub enum StepOutcome {
    Finished,
    NeedInput,
    StepLimit,
}

pub struct Interpreter {
    pub tape: MemoryTape,
    pub command: Vec<char>,
    pub jump_table: Vec<usize>,
    pub command_pos: usize,
    pub output: Vec<u8>,
}

impl Interpreter {
    /// The loaded command stream is well-bracketed, the jump table belongs
    /// to it, and the command index never runs past the end.
    pub open spec fn wf(&self) -> bool {
        &&& self.tape.wf()
        &&& balanced(self.command@)
        &&& table_matches(self.command@, self.jump_table@)
        &&& self.command_pos <= self.command@.len()
    }

    /// The abstract machine configuration this interpreter is in.
    pub open spec fn state(&self) -> MachineState {
        MachineState {
            tape: self.tape.cells(),
            head: self.tape.head_position as int,
            pos: self.command_pos as int,
            out: self.output@,
        }
    }

    pub fn new() -> (r: Interpreter)
        ensures
            r.wf(),
            r.command@.len() == 0,
            r.command_pos == 0,
            r.output@.len() == 0,
            r.tape.head_position == 0,
            forall|i: int| 0 <= i < TAPE_SIZE ==> r.tape.cells()[i] == 0u8,
    {
        Interpreter {
            tape: MemoryTape::new(),
            command: Vec::new(),
            jump_table: Vec::new(),
            command_pos: 0,
            output: Vec::new(),
        }
    }

    /// Resolves the brackets of `command` and loads it for execution from
    /// the start. The tape and the output accumulator are kept as they are;
    /// an unbalanced stream is rejected eagerly and changes nothing.
    pub fn load_command(&mut self, command: &Vec<char>) -> (r: Result<(), Error>)
        requires
            old(self).tape.wf(),
        ensures
            match r {
                Ok(()) => {
                    &&& final(self).wf()
                    &&& balanced(command@)
                    &&& final(self).command@ == command@
                    &&& final(self).tape == old(self).tape
                    &&& final(self).output == old(self).output
                    &&& final(self).command_pos == 0
                },
                Err(e) => {
                    &&& e == Error::UnbalancedBrackets
                    &&& !balanced(command@)
                    &&& *final(self) == *old(self)
                },
            },
    {
        let table = match build_jump_table(command) {
            Ok(t) => t,
            Err(e) => {
                return Err(e);
            },
        };
        let mut cmd: Vec<char> = Vec::new();
        let mut i: usize = 0;
        while i < command.len()
            invariant
                i <= command.len(),
                cmd@ == command@.subrange(0, i as int),
            decreases command.len() - i,
        {
            cmd.push(command[i]);
            proof {
                assert(cmd@ =~= command@.subrange(0, i + 1));
            }
            i += 1;
        }
        proof {
            assert(cmd@ =~= command@);
        }
        self.command = cmd;
        self.jump_table = table;
        self.command_pos = 0;
        Ok(())
    }

    /// Handles the loop-open command: a zero cell jumps past the matching
    /// close, a nonzero cell falls through into the loop body.
    fn act_on_lbracket(&mut self)
        requires
            old(self).wf(),
            old(self).command_pos < old(self).command@.len(),
            old(self).command@[old(self).command_pos as int] == '[',
        ensures
            final(self).wf(),
            final(self).command == old(self).command,
            final(self).jump_table == old(self).jump_table,
            final(self).state() == step(old(self).command@, old(self).jump_table@, old(self).state()),
    {
        let n = self.command.len();
        if self.tape.get_current_value() == 0 {
            let target = self.jump_table[self.command_pos];
            proof {
                assert(is_match(self.command@, self.command_pos as int, target as int));
                assert(target < n);
            }
            self.command_pos = target + 1;
        } else {
            self.command_pos = self.command_pos + 1;
        }
    }

    /// Handles the loop-close command: a nonzero cell jumps back behind the
    /// matching open, a zero cell leaves the loop.
    fn act_on_rbracket(&mut self)
        requires
            old(self).wf(),
            old(self).command_pos < old(self).command@.len(),
            old(self).command@[old(self).command_pos as int] == ']',
        ensures
            final(self).wf(),
            final(self).command == old(self).command,
            final(self).jump_table == old(self).jump_table,
            final(self).state() == step(old(self).command@, old(self).jump_table@, old(self).state()),
    {
        let n = self.command.len();
        if self.tape.get_current_value() != 0 {
            let target = self.jump_table[self.command_pos];
            proof {
                assert(is_match(self.command@, target as int, self.command_pos as int));
                assert(target < n);
            }
            self.command_pos = target + 1;
        } else {
            self.command_pos = self.command_pos + 1;
        }
    }

    /// Executes the command under the command index, which must not be the
    /// input command; the new configuration is exactly one `step` further.
    fn step_command(&mut self)
        requires
            old(self).wf(),
            old(self).command_pos < old(self).command@.len(),
            old(self).command@[old(self).command_pos as int] != ',',
        ensures
            final(self).wf(),
            final(self).command == old(self).command,
            final(self).jump_table == old(self).jump_table,
            final(self).state() == step(old(self).command@, old(self).jump_table@, old(self).state()),
    {
        let n = self.command.len();
        let c = self.command[self.command_pos];
        if c == '>' {
            self.tape.move_right();
            self.command_pos = self.command_pos + 1;
        } else if c == '<' {
            self.tape.move_left();
            self.command_pos = self.command_pos + 1;
        } else if c == '+' {
            self.tape.increment();
            self.command_pos = self.command_pos + 1;
        } else if c == '-' {
            self.tape.decrement();
            self.command_pos = self.command_pos + 1;
        } else if c == '[' {
            self.act_on_lbracket();
        } else if c == ']' {
            self.act_on_rbracket();
        } else if c == '.' {
            let value = self.tape.get_current_value();
            self.output.push(value);
            self.command_pos = self.command_pos + 1;
        } else {
            self.command_pos = self.command_pos + 1;
        }
    }

    /// Stores a provided input text into the current cell, as the input
    /// command asks: the decoded value per `decode_input`.
    pub fn provide_input(&mut self, text: &Vec<u8>)
        requires
            old(self).wf(),
            at_input(old(self).command@, old(self).state()),
        ensures
            final(self).wf(),
            final(self).command == old(self).command,
            final(self).jump_table == old(self).jump_table,
            final(self).state() == input_step(old(self).state(), text@),
    {
        let n = self.command.len();
        let value = decode_input_value(text);
        self.tape.set_cell_value(value);
        self.command_pos = self.command_pos + 1;
    }

    /// Executes up to `max_steps` commands, stopping early at the end of the
    /// stream or at the input command. The configuration reached is a chain
    /// of `step` transitions from the starting one.
    pub fn run(&mut self, max_steps: usize) -> (r: StepOutcome)
        requires
            old(self).wf(),
        ensures
            final(self).wf(),
            final(self).command == old(self).command,
            final(self).jump_table == old(self).jump_table,
            exists|n: nat|
                final(self).state() == iterate(
                    old(self).command@,
                    old(self).jump_table@,
                    old(self).state(),
                    n,
                ),
            r == StepOutcome::Finished ==> final(self).command_pos == final(self).command@.len(),
            r == StepOutcome::NeedInput ==> at_input(final(self).command@, final(self).state()),
            r == StepOutcome::StepLimit ==> final(self).state() == iterate(
                old(self).command@,
                old(self).jump_table@,
                old(self).state(),
                max_steps as nat,
            ),
    {
        let ghost s = self.command@;
        let ghost table = self.jump_table@;
        let ghost st0 = self.state();
        let ghost mut n: nat = 0;
        let mut steps: usize = 0;
        while steps < max_steps
            invariant
                self.wf(),
                self.command@ == s,
                self.command == old(self).command,
                self.jump_table == old(self).jump_table,
                self.jump_table@ == table,
                st0 == old(self).state(),
                steps <= max_steps,
                n == steps,
                self.state() == iterate(s, table, st0, n),
            decreases max_steps - steps,
        {
            if self.command_pos >= self.command.len() {
                return StepOutcome::Finished;
            }
            let c = self.command[self.command_pos];
            if c == ',' {
                return StepOutcome::NeedInput;
            }
            self.step_command();
            proof {
                n = n + 1;
            }
            steps += 1;
        }
        StepOutcome::StepLimit
    }

    /// Resolves, loads and executes `command` from the start, consuming the
    /// texts of `inputs` in order at each input command, for at most
    /// `max_steps` commands. The run follows the extended machine: its
    /// configuration is reachable by `ext_step` transitions from the
    /// starting one, and the outcome says how it stopped.
    pub fn interpret(&mut self, command: &Vec<char>, inputs: &Vec<Vec<u8>>, max_steps: usize) -> (r:
        Result<StepOutcome, Error>)
        requires
            old(self).tape.wf(),
        ensures
            match r {
                Ok(outcome) => {
                    &&& balanced(command@)
                    &&& final(self).wf()
                    &&& final(self).command@ == command@
                    &&& table_matches(command@, final(self).jump_table@)
                    &&& exists|e: ExtState|
                        {
                            &&& #[trigger] ext_reaches(
                                command@,
                                final(self).jump_table@,
                                (ExtState {
                                    core: (MachineState {
                                        tape: old(self).tape.cells(),
                                        head: old(self).tape.head_position as int,
                                        pos: 0,
                                        out: old(self).output@,
                                    }),
                                    ins: inputs.deep_view(),
                                }),
                                e,
                            )
                            &&& final(self).state() == e.core
                            &&& (outcome == StepOutcome::Finished ==> e.core.pos
                                == command@.len())
                            &&& (outcome == StepOutcome::NeedInput ==> at_input(command@, e.core)
                                && e.ins.len() == 0)
                            &&& (outcome == StepOutcome::StepLimit ==> e == ext_iterate(
                                command@,
                                final(self).jump_table@,
                                (ExtState {
                                    core: (MachineState {
                                        tape: old(self).tape.cells(),
                                        head: old(self).tape.head_position as int,
                                        pos: 0,
                                        out: old(self).output@,
                                    }),
                                    ins: inputs.deep_view(),
                                }),
                                max_steps as nat,
                            ))
                        }
                },
                Err(err) => {
                    &&& err == Error::UnbalancedBrackets
                    &&& !balanced(command@)
                    &&& *final(self) == *old(self)
                },
            },
    {
        match self.load_command(command) {
            Ok(()) => (),
            Err(e) => {
                return Err(e);
            },
        }
        let ghost s = command@;
        let ghost tbl = self.jump_table@;
        let ghost e0 = ExtState { core: self.state(), ins: inputs.deep_view() };
        proof {
            assert(e0 == (ExtState {
                core: (MachineState {
                    tape: old(self).tape.cells(),
                    head: old(self).tape.head_position as int,
                    pos: 0,
                    out: old(self).output@,
                }),
                ins: inputs.deep_view(),
            }));
        }
        let ghost mut n: nat = 0;
        let mut input_idx: usize = 0;
        let mut steps: usize = 0;
        while steps < max_steps
            invariant
                self.wf(),
                s == command@,
                self.command@ == s,
                self.jump_table@ == tbl,
                e0 == (ExtState {
                    core: (MachineState {
                        tape: old(self).tape.cells(),
                        head: old(self).tape.head_position as int,
                        pos: 0,
                        out: old(self).output@,
                    }),
                    ins: inputs.deep_view(),
                }),
                input_idx <= inputs@.len(),
                inputs.deep_view().len() == inputs@.len(),
                n == steps,
                ext_iterate(s, tbl, e0, n) == (ExtState {
                    core: self.state(),
                    ins: inputs.deep_view().skip(input_idx as int),
                }),
                steps <= max_steps,
            decreases max_steps - steps,
        {
            if self.command_pos >= self.command.len() {
                proof {
                    let e_wit = ExtState {
                        core: self.state(),
                        ins: inputs.deep_view().skip(input_idx as int),
                    };
                    assert(ext_iterate(s, tbl, e0, n) == e_wit);
                    assert(ext_reaches(s, tbl, e0, e_wit));
                    assert(e_wit.core.pos == s.len());
                }
                return Ok(StepOutcome::Finished);
            }
            let c = self.command[self.command_pos];
            if c == ',' {
                if input_idx < inputs.len() {
                    let ghost pre = self.state();
                    self.provide_input(&inputs[input_idx]);
                    proof {
                        let ins_now = inputs.deep_view().skip(input_idx as int);
                        assert(ins_now[0] == inputs@[input_idx as int].deep_view());
                        assert(inputs@[input_idx as int].deep_view() =~= inputs@[input_idx as int]@);
                        assert(ins_now.drop_first() =~= inputs.deep_view().skip(input_idx + 1));
                        assert(ext_step(s, tbl, ext_iterate(s, tbl, e0, n)) == (ExtState {
                            core: input_step(pre, inputs@[input_idx as int]@),
                            ins: inputs.deep_view().skip(input_idx + 1),
                        }));
                        n = n + 1;
                    }
                    input_idx += 1;
                } else {
                    proof {
                        let e_wit = ExtState {
                            core: self.state(),
                            ins: inputs.deep_view().skip(input_idx as int),
                        };
                        assert(e_wit.ins.len() == 0);
                        assert(ext_iterate(s, tbl, e0, n) == e_wit);
                        assert(ext_reaches(s, tbl, e0, e_wit));
                        assert(at_input(s, e_wit.core));
                    }
                    return Ok(StepOutcome::NeedInput);
                }
            } else {
                let ghost pre = ext_iterate(s, tbl, e0, n);
                self.step_command();
                proof {
                    assert(!at_input(s, pre.core));
                    assert(ext_step(s, tbl, pre) == (ExtState {
                        core: step(s, tbl, pre.core),
                        ins: pre.ins,
                    }));
                    n = n + 1;
                }
            }
            steps += 1;
        }
        proof {
            let e_wit = ExtState {
                core: self.state(),
                ins: inputs.deep_view().skip(input_idx as int),
            };
            assert(ext_iterate(s, tbl, e0, n) == e_wit);
            assert(ext_reaches(s, tbl, e0, e_wit));
        }
        Ok(StepOutcome::StepLimit)
    }
}

/// Whether `b` is an ASCII whitespace byte.
fn is_ws_byte(b: u8) -> (r: bool)
    ensures
        r == is_ascii_whitespace(b),
{
    b == 32 || b == 9 || b == 10 || b == 11 || b == 12 || b == 13
}

/// The first raw byte of a text that does not decode as a decimal value.
fn fallback_value(text: &Vec<u8>) -> (v: u8)
    requires
        !parses_as_byte(trimmed(text@)),
    ensures
        v == decode_input(text@),
{
    if text.len() > 0 {
        text[0]
    } else {
        0
    }
}

/// Longer digit strings name numbers at least as large.
proof fn lemma_dec_value_monotone(t: Seq<u8>, k: int)
    requires
        0 <= k <= t.len(),
        all_digits(t),
    ensures
        dec_value(t) >= dec_value(t.subrange(0, k)),
    decreases t.len(),
{
    if k == t.len() {
        assert(t.subrange(0, k) =~= t);
    } else {
        let prefix = t.drop_last();
        assert(all_digits(prefix));
        assert(is_digit(t.last()));
        lemma_dec_value_monotone(prefix, k);
        assert(prefix.subrange(0, k) =~= t.subrange(0, k));
    }
}

/// Decodes an input text as the input command stores it: the decimal value
/// of the trimmed text when it names a byte, otherwise the first raw byte
/// (zero for an empty text).
pub fn decode_input_value(text: &Vec<u8>) -> (v: u8)
    ensures
        v == decode_input(text@),
{
    let n = text.len();
    let ghost tv = text@;

    proof {
        assert(tv.subrange(0, n as int) =~= tv);
    }
    let mut start: usize = 0;
    while start < n && is_ws_byte(text[start])
        invariant
            start <= n,
            n == tv.len(),
            tv == text@,
            trim_start(tv) == trim_start(tv.subrange(start as int, n as int)),
        decreases n - start,
    {
        proof {
            assert(tv.subrange(start as int, n as int).drop_first() =~= tv.subrange(
                start + 1,
                n as int,
            ));
        }
        start += 1;
    }
    proof {
        if start == n {
            assert(tv.subrange(start as int, n as int) =~= Seq::<u8>::empty());
        }
        assert(trim_start(tv) == tv.subrange(start as int, n as int));
    }

    let mut end: usize = n;
    while end > start && is_ws_byte(text[end - 1])
        invariant
            start <= end <= n,
            n == tv.len(),
            tv == text@,
            trim_start(tv) == tv.subrange(start as int, n as int),
            trimmed(tv) == trim_end(tv.subrange(start as int, end as int)),
        decreases end,
    {
        proof {
            assert(tv.subrange(start as int, end as int).drop_last() =~= tv.subrange(
                start as int,
                end - 1,
            ));
        }
        end -= 1;
    }
    proof {
        if end == start {
            assert(tv.subrange(start as int, end as int) =~= Seq::<u8>::empty());
        }
        assert(trimmed(tv) == tv.subrange(start as int, end as int));
    }
    let ghost tr = tv.subrange(start as int, end as int);

    let mut ds = start;
    if end > start && text[start] == 43 {
        ds = start + 1;
        proof {
            assert(digits_part(tr) =~= tv.subrange(ds as int, end as int));
        }
    } else {
        proof {
            assert(digits_part(tr) =~= tv.subrange(ds as int, end as int));
        }
    }
    let ghost d = tv.subrange(ds as int, end as int);

    if ds == end {
        proof {
            assert(d.len() == 0);
        }
        return fallback_value(text);
    }

    let mut val: u32 = 0;
    let mut j = ds;
    while j < end
        invariant
            ds <= j <= end <= n,
            n == tv.len(),
            tv == text@,
            trimmed(tv) == tr,
            digits_part(tr) == d,
            d == tv.subrange(ds as int, end as int),
            d.len() == end - ds,
            all_digits(d.subrange(0, j - ds)),
            val == dec_value(d.subrange(0, j - ds)),
            val < 256,
        decreases end - j,
    {
        let b = text[j];
        proof {
            assert(d[j - ds] == b);
        }
        if !(48 <= b && b <= 57) {
            proof {
                assert(!is_digit(d[j - ds]));
                assert(!all_digits(d));
            }
            return fallback_value(text);
        }
        let nv = val * 10 + (b - 48) as u32;
        proof {
            assert(d.subrange(0, j - ds + 1).drop_last() =~= d.subrange(0, j - ds));
            assert(d.subrange(0, j - ds + 1).last() == b);
            assert(all_digits(d.subrange(0, j - ds + 1)));
            assert(nv == dec_value(d.subrange(0, j - ds + 1)));
        }
        if nv > 255 {
            proof {
                if all_digits(d) {
                    lemma_dec_value_monotone(d, j - ds + 1);
                    assert(dec_value(d) >= nv);
                }
                assert(!parses_as_byte(tr));
            }
            return fallback_value(text);
        }
        val = nv;
        j += 1;
    }
    proof {
        assert(d.subrange(0, end - ds) =~= d);
        assert(parses_as_byte(tr));
    }
    val as u8
}

} // verus!
