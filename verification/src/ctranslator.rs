//! The statement emitter and the translation pipeline: folds each maximal
//! run of identical movement/arithmetic commands into one counted statement,
//! emits one line pair per loop bracket, then hands the line list to the
//! partitioner and renders the final program text.

use vstd::prelude::*;
use vstd::string::*;
use crate::code_parser::{
    parse, line_while, line_open, line_close, count_while_from, partitioned, generated_program,
};
use crate::decimal::dec_str;
use crate::errors::Error;
use crate::jump_resolver::{balanced, build_jump_table};

verus! {

/// The rendered arithmetic suffix: the doubled-operator form for a single
/// occurrence, the compound-assignment form with the count for a run.
pub open spec fn arith_str_of(op: Seq<char>, n: nat) -> Seq<char> {
    if n == 1 {
        op + op
    } else {
        seq![' '] + op + seq!['=', ' '] + dec_str(n)
    }
}

/// The statement for a run of `n` head moves to the right.
pub open spec fn line_right_move(n: nat) -> Seq<char> {
    "ptr"@ + arith_str_of("+"@, n) + ";"@
}

/// The statement for a run of `n` head moves to the left.
pub open spec fn line_left_move(n: nat) -> Seq<char> {
    "ptr"@ + arith_str_of("-"@, n) + ";"@
}

/// The statement for a run of `n` cell increments.
pub open spec fn line_increment(n: nat) -> Seq<char> {
    "*ptr"@ + arith_str_of("+"@, n) + ";"@
}

/// The statement for a run of `n` cell decrements.
pub open spec fn line_decrement(n: nat) -> Seq<char> {
    "*ptr"@ + arith_str_of("-"@, n) + ";"@
}

/// The statement for the input command.
pub open spec fn line_input() -> Seq<char> {
    "*ptr = getchar();"@
}

/// The statement for the output command.
pub open spec fn line_print() -> Seq<char> {
    "putchar(*ptr);"@
}

/// The length of the maximal run of the character at `i`.
pub open spec fn run_len(s: Seq<char>, i: int) -> nat
    decreases s.len() - i,
{
    if 0 <= i && i + 1 < s.len() && s[i + 1] == s[i] {
        (1 + run_len(s, i + 1)) as nat
    } else {
        1
    }
}

/// A run covers at least its own character, stays inside the stream, is
/// uniform, and stops right before the first different character.
pub proof fn lemma_run_len_props(s: Seq<char>, i: int)
    requires
        0 <= i < s.len(),
    ensures
        1 <= run_len(s, i),
        i + run_len(s, i) <= s.len(),
        forall|j: int| i <= j < i + run_len(s, i) ==> s[j] == s[i],
        i + run_len(s, i) == s.len() || s[i + run_len(s, i)] != s[i],
    decreases s.len() - i,
{
    if i + 1 < s.len() && s[i + 1] == s[i] {
        lemma_run_len_props(s, i + 1);
    }
}

/// A uniform block of length `cnt` that ends at the stream's end or right
/// before a different character is exactly the maximal run.
pub proof fn lemma_run_len_is(s: Seq<char>, i: int, cnt: int)
    requires
        0 <= i < s.len(),
        1 <= cnt,
        i + cnt <= s.len(),
        forall|j: int| i <= j < i + cnt ==> s[j] == s[i],
        i + cnt == s.len() || s[i + cnt] != s[i],
    ensures
        run_len(s, i) == cnt,
    decreases cnt,
{
    if cnt == 1 {
    } else {
        assert(s[i + 1] == s[i]);
        lemma_run_len_is(s, i + 1, cnt - 1);
    }
}

/// The emitted line list for the command stream from position `i` on: one
/// counted statement per maximal movement/arithmetic run, a marker/brace
/// pair per loop-open, a closing brace per loop-close, one fixed statement
/// per input or output command, nothing for any other character.
pub open spec fn emit_lines(s: Seq<char>, i: int) -> Seq<Seq<char>>
    decreases s.len() - i via emit_lines_decreases
{
    if !(0 <= i < s.len()) {
        Seq::empty()
    } else {
        let c = s[i];
        if c == '>' {
            seq![line_right_move(run_len(s, i))] + emit_lines(s, i + run_len(s, i))
        } else if c == '<' {
            seq![line_left_move(run_len(s, i))] + emit_lines(s, i + run_len(s, i))
        } else if c == '+' {
            seq![line_increment(run_len(s, i))] + emit_lines(s, i + run_len(s, i))
        } else if c == '-' {
            seq![line_decrement(run_len(s, i))] + emit_lines(s, i + run_len(s, i))
        } else if c == '[' {
            seq![line_while(), line_open()] + emit_lines(s, i + 1)
        } else if c == ']' {
            seq![line_close()] + emit_lines(s, i + 1)
        } else if c == ',' {
            seq![line_input()] + emit_lines(s, i + 1)
        } else if c == '.' {
            seq![line_print()] + emit_lines(s, i + 1)
        } else {
            emit_lines(s, i + 1)
        }
    }
}

#[via_fn]
proof fn emit_lines_decreases(s: Seq<char>, i: int) {
    if 0 <= i < s.len() {
        let c = s[i];
        if c == '>' || c == '<' || c == '+' || c == '-' {
            lemma_run_len_props(s, i);
        }
    }
}

/// None of the emitted statement lines is the loop-open marker line.
proof fn lemma_lines_not_while()
    ensures
        line_open() != line_while(),
        line_close() != line_while(),
        line_input() != line_while(),
        line_print() != line_while(),
        forall|n: nat| #[trigger] line_right_move(n) != line_while(),
        forall|n: nat| #[trigger] line_left_move(n) != line_while(),
        forall|n: nat| #[trigger] line_increment(n) != line_while(),
        forall|n: nat| #[trigger] line_decrement(n) != line_while(),
{
    reveal_strlit("while (*ptr)");
    reveal_strlit("{");
    reveal_strlit("}");
    reveal_strlit("*ptr = getchar();");
    reveal_strlit("putchar(*ptr);");
    reveal_strlit("ptr");
    reveal_strlit("*ptr");
    assert(line_while().len() == 12);
    assert(line_open().len() == 1);
    assert(line_close().len() == 1);
    assert(line_input().len() == 17);
    assert(line_print().len() == 14);
    assert forall|n: nat| #[trigger] line_right_move(n) != line_while() by {
        assert(line_right_move(n)[0] == 'p');
        assert(line_while()[0] == 'w');
    }
    assert forall|n: nat| #[trigger] line_left_move(n) != line_while() by {
        assert(line_left_move(n)[0] == 'p');
        assert(line_while()[0] == 'w');
    }
    assert forall|n: nat| #[trigger] line_increment(n) != line_while() by {
        assert(line_increment(n)[0] == '*');
        assert(line_while()[0] == 'w');
    }
    assert forall|n: nat| #[trigger] line_decrement(n) != line_while() by {
        assert(line_decrement(n)[0] == '*');
        assert(line_while()[0] == 'w');
    }
}

/// Appending one line changes the loop-open marker count by one exactly
/// when the line is the marker.
proof fn lemma_count_while_snoc(rows: Seq<Seq<char>>, x: Seq<char>, i: int)
    requires
        0 <= i <= rows.len(),
    ensures
        count_while_from(rows.push(x), i) == count_while_from(rows, i) + (if x == line_while() {
            1nat
        } else {
            0nat
        }),
    decreases rows.len() - i,
{
    if i < rows.len() {
        lemma_count_while_snoc(rows, x, i + 1);
        assert(rows.push(x)[i] == rows[i]);
    } else {
        assert(rows.push(x)[i] == x);
        assert(count_while_from(rows, i) == 0);
        assert(count_while_from(rows.push(x), i + 1) == 0);
    }
}

/// Folding renders a lone arithmetic command in the doubled-operator form
/// and a longer run as one compound statement carrying the run's count:
/// `line_increment(1)` is exactly `*ptr++;`, and for every count above one
/// the statement is `*ptr += ` followed by the count.
pub proof fn lemma_emitter_folding(n: nat)
    requires
        n >= 1,
    ensures
        n == 1 ==> line_increment(n) == "*ptr++;"@,
        n > 1 ==> line_increment(n) == "*ptr += "@ + dec_str(n) + ";"@,
{
    reveal_strlit("*ptr");
    reveal_strlit("+");
    reveal_strlit(";");
    reveal_strlit("*ptr++;");
    reveal_strlit("*ptr += ");
    if n == 1 {
        assert(line_increment(n) =~= "*ptr++;"@);
    } else {
        assert(line_increment(n) =~= "*ptr += "@ + dec_str(n) + ";"@);
    }
}

/// Renders the arithmetic tail of a folded statement: the doubled operator
/// for a count of one, the compound form with the count otherwise.
pub fn get_arithmetic_str(operation: &str, number: usize) -> (r: String)
    ensures
        r@ == arith_str_of(operation@, number as nat),
{
    if number == 1 {
        let mut s = String::from_str(operation);
        s.append(operation);
        s
    } else {
        let mut s = String::from_str(" ");
        s.append(operation);
        s.append("= ");
        let num = crate::decimal::usize_to_string(number);
        s.append(num.as_str());
        proof {
            reveal_strlit(" ");
            reveal_strlit("= ");
            assert(" "@ =~= seq![' ']);
            assert("= "@ =~= seq!['=', ' ']);
            assert(s@ =~= seq![' '] + operation@ + seq!['=', ' '] + dec_str(number as nat));
        }
        s
    }
}

/// The translator: scans the command stream, accumulates the emitted
/// statement lines and the loop count, and renders the partitioned program.
pub struct CTranslator {
    pub command: Vec<char>,
    pub command_pos: usize,
    pub whiles_count: usize,
    pub code_lines: Vec<String>,
}

impl CTranslator {
    pub fn new() -> (r: CTranslator)
        ensures
            r.command@.len() == 0,
            r.command_pos == 0,
            r.whiles_count == 0,
            r.code_lines@.len() == 0,
    {
        CTranslator {
            command: Vec::new(),
            command_pos: 0,
            whiles_count: 0,
            code_lines: Vec::new(),
        }
    }

    /// Counts the maximal run of `symbl` starting at the command index and
    /// leaves the index on the run's last character, or just past the end
    /// when the run reaches it.
    fn count_symblol(&mut self, symbl: char) -> (cnt: usize)
        requires
            old(self).command_pos < old(self).command@.len(),
            old(self).command@[old(self).command_pos as int] == symbl,
        ensures
            final(self).command == old(self).command,
            final(self).whiles_count == old(self).whiles_count,
            final(self).code_lines == old(self).code_lines,
            cnt == run_len(old(self).command@, old(self).command_pos as int),
            1 <= cnt,
            old(self).command_pos + cnt <= old(self).command@.len(),
            old(self).command_pos + cnt == old(self).command@.len() ==> final(self).command_pos
                == old(self).command@.len(),
            old(self).command_pos + cnt < old(self).command@.len() ==> final(self).command_pos
                == old(self).command_pos + cnt - 1,
    {
        let ghost s = self.command@;
        let ghost p0 = self.command_pos as int;
        let n = self.command.len();
        let mut cnt: usize = 1;
        self.command_pos = self.command_pos + 1;
        loop
            invariant
                s == self.command@,
                n == s.len(),
                self.command == old(self).command,
                self.whiles_count == old(self).whiles_count,
                self.code_lines == old(self).code_lines,
                0 <= p0 < n,
                p0 == old(self).command_pos as int,
                p0 + cnt == self.command_pos,
                1 <= cnt,
                self.command_pos <= n,
                s[p0] == symbl,
                forall|j: int| p0 <= j < self.command_pos ==> s[j] == symbl,
            decreases n - self.command_pos,
        {
            if self.command_pos > n - 1 {
                proof {
                    lemma_run_len_is(s, p0, cnt as int);
                }
                return cnt;
            }
            let ch = self.command[self.command_pos];
            if ch != symbl {
                proof {
                    lemma_run_len_is(s, p0, cnt as int);
                }
                self.command_pos = self.command_pos - 1;
                return cnt;
            }
            cnt = cnt + 1;
            self.command_pos = self.command_pos + 1;
        }
    }

    /// Emits the folded statement for a run of right moves.
    fn act_on_right_move(&mut self)
        requires
            old(self).command_pos < old(self).command@.len(),
            old(self).command@[old(self).command_pos as int] == '>',
        ensures
            final(self).command == old(self).command,
            final(self).whiles_count == old(self).whiles_count,
            final(self).code_lines.deep_view() == old(self).code_lines.deep_view().push(
                line_right_move(run_len(old(self).command@, old(self).command_pos as int)),
            ),
            old(self).command_pos + run_len(old(self).command@, old(self).command_pos as int)
                == old(self).command@.len() ==> final(self).command_pos == old(
                self,
            ).command@.len(),
            old(self).command_pos + run_len(old(self).command@, old(self).command_pos as int) < old(
                self,
            ).command@.len() ==> final(self).command_pos == old(self).command_pos + run_len(
                old(self).command@,
                old(self).command_pos as int,
            ) - 1,
    {
        let ghost dv = self.code_lines.deep_view();
        let move_count = self.count_symblol('>');
        let arith = get_arithmetic_str("+", move_count);
        let mut ptr_increment = String::from_str("ptr");
        ptr_increment.append(arith.as_str());
        ptr_increment.append(";");
        proof {
            assert(ptr_increment@ == line_right_move(move_count as nat));
        }
        self.code_lines.push(ptr_increment);
        proof {
            assert(self.code_lines.deep_view() =~~= dv.push(
                line_right_move(run_len(old(self).command@, old(self).command_pos as int)),
            ));
        }
    }

    /// Emits the folded statement for a run of left moves.
    fn act_on_left_move(&mut self)
        requires
            old(self).command_pos < old(self).command@.len(),
            old(self).command@[old(self).command_pos as int] == '<',
        ensures
            final(self).command == old(self).command,
            final(self).whiles_count == old(self).whiles_count,
            final(self).code_lines.deep_view() == old(self).code_lines.deep_view().push(
                line_left_move(run_len(old(self).command@, old(self).command_pos as int)),
            ),
            old(self).command_pos + run_len(old(self).command@, old(self).command_pos as int)
                == old(self).command@.len() ==> final(self).command_pos == old(
                self,
            ).command@.len(),
            old(self).command_pos + run_len(old(self).command@, old(self).command_pos as int) < old(
                self,
            ).command@.len() ==> final(self).command_pos == old(self).command_pos + run_len(
                old(self).command@,
                old(self).command_pos as int,
            ) - 1,
    {
        let ghost dv = self.code_lines.deep_view();
        let move_count = self.count_symblol('<');
        let arith = get_arithmetic_str("-", move_count);
        let mut ptr_decrement = String::from_str("ptr");
        ptr_decrement.append(arith.as_str());
        ptr_decrement.append(";");
        proof {
            assert(ptr_decrement@ == line_left_move(move_count as nat));
        }
        self.code_lines.push(ptr_decrement);
        proof {
            assert(self.code_lines.deep_view() =~~= dv.push(
                line_left_move(run_len(old(self).command@, old(self).command_pos as int)),
            ));
        }
    }

    /// Emits the folded statement for a run of cell increments.
    fn act_on_increment(&mut self)
        requires
            old(self).command_pos < old(self).command@.len(),
            old(self).command@[old(self).command_pos as int] == '+',
        ensures
            final(self).command == old(self).command,
            final(self).whiles_count == old(self).whiles_count,
            final(self).code_lines.deep_view() == old(self).code_lines.deep_view().push(
                line_increment(run_len(old(self).command@, old(self).command_pos as int)),
            ),
            old(self).command_pos + run_len(old(self).command@, old(self).command_pos as int)
                == old(self).command@.len() ==> final(self).command_pos == old(
                self,
            ).command@.len(),
            old(self).command_pos + run_len(old(self).command@, old(self).command_pos as int) < old(
                self,
            ).command@.len() ==> final(self).command_pos == old(self).command_pos + run_len(
                old(self).command@,
                old(self).command_pos as int,
            ) - 1,
    {
        let ghost dv = self.code_lines.deep_view();
        let incr_count = self.count_symblol('+');
        let arith = get_arithmetic_str("+", incr_count);
        let mut ptr_increment = String::from_str("*ptr");
        ptr_increment.append(arith.as_str());
        ptr_increment.append(";");
        proof {
            assert(ptr_increment@ == line_increment(incr_count as nat));
        }
        self.code_lines.push(ptr_increment);
        proof {
            assert(self.code_lines.deep_view() =~~= dv.push(
                line_increment(run_len(old(self).command@, old(self).command_pos as int)),
            ));
        }
    }

    /// Emits the folded statement for a run of cell decrements.
    fn act_on_decrement(&mut self)
        requires
            old(self).command_pos < old(self).command@.len(),
            old(self).command@[old(self).command_pos as int] == '-',
        ensures
            final(self).command == old(self).command,
            final(self).whiles_count == old(self).whiles_count,
            final(self).code_lines.deep_view() == old(self).code_lines.deep_view().push(
                line_decrement(run_len(old(self).command@, old(self).command_pos as int)),
            ),
            old(self).command_pos + run_len(old(self).command@, old(self).command_pos as int)
                == old(self).command@.len() ==> final(self).command_pos == old(
                self,
            ).command@.len(),
            old(self).command_pos + run_len(old(self).command@, old(self).command_pos as int) < old(
                self,
            ).command@.len() ==> final(self).command_pos == old(self).command_pos + run_len(
                old(self).command@,
                old(self).command_pos as int,
            ) - 1,
    {
        let ghost dv = self.code_lines.deep_view();
        let decr_count = self.count_symblol('-');
        let arith = get_arithmetic_str("-", decr_count);
        let mut ptr_decrement = String::from_str("*ptr");
        ptr_decrement.append(arith.as_str());
        ptr_decrement.append(";");
        proof {
            assert(ptr_decrement@ == line_decrement(decr_count as nat));
        }
        self.code_lines.push(ptr_decrement);
        proof {
            assert(self.code_lines.deep_view() =~~= dv.push(
                line_decrement(run_len(old(self).command@, old(self).command_pos as int)),
            ));
        }
    }

    /// Emits the loop-open marker line and the opening brace, and counts the
    /// loop.
    fn act_on_lbracket(&mut self)
        requires
            old(self).whiles_count < usize::MAX,
        ensures
            final(self).command == old(self).command,
            final(self).command_pos == old(self).command_pos,
            final(self).whiles_count == old(self).whiles_count + 1,
            final(self).code_lines.deep_view() == old(self).code_lines.deep_view().push(
                line_while(),
            ).push(line_open()),
    {
        let ghost dv = self.code_lines.deep_view();
        let while_str = String::from_str("while (*ptr)");
        self.code_lines.push(while_str);
        proof {
            assert(self.code_lines.deep_view() =~~= dv.push(line_while()));
        }
        let ghost dv1 = self.code_lines.deep_view();
        self.code_lines.push(String::from_str("{"));
        proof {
            assert(self.code_lines.deep_view() =~~= dv1.push(line_open()));
        }
        self.whiles_count = self.whiles_count + 1;
    }

    /// Emits the closing brace.
    fn act_on_rbracket(&mut self)
        ensures
            final(self).command == old(self).command,
            final(self).command_pos == old(self).command_pos,
            final(self).whiles_count == old(self).whiles_count,
            final(self).code_lines.deep_view() == old(self).code_lines.deep_view().push(
                line_close(),
            ),
    {
        let ghost dv = self.code_lines.deep_view();
        self.code_lines.push(String::from_str("}"));
        proof {
            assert(self.code_lines.deep_view() =~~= dv.push(line_close()));
        }
    }

    /// Emits the statement for the input command.
    fn act_on_input(&mut self)
        ensures
            final(self).command == old(self).command,
            final(self).command_pos == old(self).command_pos,
            final(self).whiles_count == old(self).whiles_count,
            final(self).code_lines.deep_view() == old(self).code_lines.deep_view().push(
                line_input(),
            ),
    {
        let ghost dv = self.code_lines.deep_view();
        self.code_lines.push(String::from_str("*ptr = getchar();"));
        proof {
            assert(self.code_lines.deep_view() =~~= dv.push(line_input()));
        }
    }

    /// Emits the statement for the output command.
    fn act_on_print(&mut self)
        ensures
            final(self).command == old(self).command,
            final(self).command_pos == old(self).command_pos,
            final(self).whiles_count == old(self).whiles_count,
            final(self).code_lines.deep_view() == old(self).code_lines.deep_view().push(
                line_print(),
            ),
    {
        let ghost dv = self.code_lines.deep_view();
        self.code_lines.push(String::from_str("putchar(*ptr);"));
        proof {
            assert(self.code_lines.deep_view() =~~= dv.push(line_print()));
        }
    }

    /// Translates `command`: validates its brackets, emits the folded
    /// statement lines, partitions them into the function forest and renders
    /// the program text. An unbalanced stream is rejected before any line is
    /// emitted.
    pub fn translate(&mut self, command: &Vec<char>) -> (r: Result<String, Error>)
        requires
            command@.len() < usize::MAX,
        ensures
            match r {
                Ok(text) => {
                    &&& balanced(command@)
                    &&& text@ == generated_program(
                        partitioned(
                            emit_lines(command@, 0),
                            (count_while_from(emit_lines(command@, 0), 0) + 1) as int,
                        ),
                    )
                },
                Err(e) => {
                    &&& e == Error::UnbalancedBrackets
                    &&& !balanced(command@)
                },
            },
    {
        match build_jump_table(command) {
            Ok(_) => (),
            Err(e) => {
                return Err(e);
            },
        }

        let ghost s = command@;
        let mut cmd: Vec<char> = Vec::new();
        let mut i: usize = 0;
        while i < command.len()
            invariant
                i <= command.len(),
                cmd@ == command@.subrange(0, i as int),
            decreases command.len() - i,
        {
            cmd.push(command[i]);
            proof {
                assert(cmd@ =~= command@.subrange(0, i + 1));
            }
            i += 1;
        }
        proof {
            assert(cmd@ =~= command@);
        }
        self.command = cmd;
        self.command_pos = 0;
        self.whiles_count = 0;
        self.code_lines = Vec::new();

        let n = self.command.len();
        while self.command_pos < n
            invariant
                s == command@,
                self.command@ == s,
                n == s.len(),
                n < usize::MAX,
                self.command_pos <= n + 1,
                self.whiles_count <= n,
                self.whiles_count <= self.command_pos,
                emit_lines(s, 0) == self.code_lines.deep_view() + emit_lines(
                    s,
                    self.command_pos as int,
                ),
                self.whiles_count == count_while_from(self.code_lines.deep_view(), 0),
            decreases n + 1 - self.command_pos,
        {
            let ghost p0 = self.command_pos as int;
            let ghost done = self.code_lines.deep_view();
            let ch = self.command[self.command_pos];

            proof {
                lemma_lines_not_while();
            }
            if ch == '>' {
                proof {
                    lemma_run_len_props(s, p0);
                }
                self.act_on_right_move();
                proof {
                    lemma_count_while_snoc(done, line_right_move(run_len(s, p0)), 0);
                    assert(done + emit_lines(s, p0) =~= (done.push(
                        line_right_move(run_len(s, p0)),
                    )) + emit_lines(s, p0 + run_len(s, p0)));
                }
            } else if ch == '<' {
                proof {
                    lemma_run_len_props(s, p0);
                }
                self.act_on_left_move();
                proof {
                    lemma_count_while_snoc(done, line_left_move(run_len(s, p0)), 0);
                    assert(done + emit_lines(s, p0) =~= (done.push(
                        line_left_move(run_len(s, p0)),
                    )) + emit_lines(s, p0 + run_len(s, p0)));
                }
            } else if ch == '+' {
                proof {
                    lemma_run_len_props(s, p0);
                }
                self.act_on_increment();
                proof {
                    lemma_count_while_snoc(done, line_increment(run_len(s, p0)), 0);
                    assert(done + emit_lines(s, p0) =~= (done.push(
                        line_increment(run_len(s, p0)),
                    )) + emit_lines(s, p0 + run_len(s, p0)));
                }
            } else if ch == '-' {
                proof {
                    lemma_run_len_props(s, p0);
                }
                self.act_on_decrement();
                proof {
                    lemma_count_while_snoc(done, line_decrement(run_len(s, p0)), 0);
                    assert(done + emit_lines(s, p0) =~= (done.push(
                        line_decrement(run_len(s, p0)),
                    )) + emit_lines(s, p0 + run_len(s, p0)));
                }
            } else if ch == '[' {
                self.act_on_lbracket();
                proof {
                    lemma_count_while_snoc(done, line_while(), 0);
                    lemma_count_while_snoc(done.push(line_while()), line_open(), 0);
                    assert(done + emit_lines(s, p0) =~= (done.push(line_while()).push(
                        line_open(),
                    )) + emit_lines(s, p0 + 1));
                }
            } else if ch == ']' {
                self.act_on_rbracket();
                proof {
                    lemma_count_while_snoc(done, line_close(), 0);
                    assert(done + emit_lines(s, p0) =~= (done.push(line_close())) + emit_lines(
                        s,
                        p0 + 1,
                    ));
                }
            } else if ch == '.' {
                self.act_on_print();
                proof {
                    lemma_count_while_snoc(done, line_print(), 0);
                    assert(done + emit_lines(s, p0) =~= (done.push(line_print())) + emit_lines(
                        s,
                        p0 + 1,
                    ));
                }
            } else if ch == ',' {
                self.act_on_input();
                proof {
                    lemma_count_while_snoc(done, line_input(), 0);
                    assert(done + emit_lines(s, p0) =~= (done.push(line_input())) + emit_lines(
                        s,
                        p0 + 1,
                    ));
                }
            } else {
                proof {
                    assert(emit_lines(s, p0) == emit_lines(s, p0 + 1));
                }
            }

            self.command_pos = self.command_pos + 1;
        }

        proof {
            assert(emit_lines(s, self.command_pos as int) =~= Seq::<Seq<char>>::empty());
            assert(self.code_lines.deep_view() =~= emit_lines(s, 0));
        }
        let text = parse(&self.code_lines, self.whiles_count + 1);
        Ok(text)
    }
}

} // verus!
