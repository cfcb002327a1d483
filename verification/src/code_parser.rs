//! Scope partitioning and code generation: walks an emitted line list,
//! splits it at loop boundaries into a forest of numbered function bodies
//! (a call statement stands where each loop began), and renders the forest
//! as one program text.

use vstd::prelude::*;
use vstd::string::*;
use vstd::seq_lib::lemma_concat_associative;
use crate::decimal::{dec_str, usize_to_string};

verus! {

/// The loop-open marker line.
pub open spec fn line_while() -> Seq<char> {
    "while (*ptr)"@
}

/// The opening-brace line.
pub open spec fn line_open() -> Seq<char> {
    "{"@
}

/// The closing-brace line.
pub open spec fn line_close() -> Seq<char> {
    "}"@
}

/// The call statement to function `n`.
pub open spec fn call_line(n: nat) -> Seq<char> {
    "fun"@ + dec_str(n) + "();"@
}

/// How many loop-open marker lines `rows` holds from position `i` on.
pub open spec fn count_while_from(rows: Seq<Seq<char>>, i: int) -> nat
    decreases rows.len() - i,
{
    if i < 0 || i >= rows.len() {
        0
    } else {
        (if rows[i] == line_while() {
            1nat
        } else {
            0nat
        }) + count_while_from(rows, i + 1)
    }
}

/// The partitioner's walk state: the stack of function numbers whose bodies
/// are still open (the current function on top), the highest function number
/// allocated so far, the accumulated bodies, and whether the line at hand
/// follows a loop-open marker (it is then taken verbatim into the new
/// function, as the line after the marker always is).
#[verifier::ext_equal]
pub ghost struct PartState {
    pub stack: Seq<int>,
    pub next: int,
    pub funs: Seq<Seq<Seq<char>>>,
    pub pending: bool,
}

/// One line of the walk. A closing brace completes the current function; a
/// loop-open marker allocates the next function number, leaves a call to it
/// in the current function and opens the new one; every other line is
/// appended to the current function. With no function open, the rest of the
/// lines are ignored.
pub open spec fn part_step(st: PartState, row: Seq<char>) -> PartState {
    if st.stack.len() == 0 {
        st
    } else {
        let cur = st.stack.last();
        if st.pending {
            PartState { funs: st.funs.update(cur, st.funs[cur].push(row)), pending: false, ..st }
        } else if row == line_close() {
            PartState {
                funs: st.funs.update(cur, st.funs[cur].push(row)),
                stack: st.stack.drop_last(),
                ..st
            }
        } else if row == line_while() {
            let nf = st.next + 1;
            let funs1 = st.funs.update(cur, st.funs[cur].push(call_line(nf as nat)));
            let funs2 = funs1.update(nf, funs1[nf].push(row));
            PartState { stack: st.stack.push(nf), next: nf, funs: funs2, pending: true }
        } else {
            PartState { funs: st.funs.update(cur, st.funs[cur].push(row)), ..st }
        }
    }
}

/// The walk over the lines from position `i` on.
pub open spec fn part_fold(rows: Seq<Seq<char>>, i: int, st: PartState) -> PartState
    decreases rows.len() - i,
{
    if i < 0 || i >= rows.len() {
        st
    } else {
        part_fold(rows, i + 1, part_step(st, rows[i]))
    }
}

/// With no function open, the rest of the walk changes nothing.
proof fn lemma_part_fold_stuck(rows: Seq<Seq<char>>, i: int, st: PartState)
    requires
        st.stack.len() == 0,
    ensures
        part_fold(rows, i, st) == st,
    decreases rows.len() - i,
{
    if 0 <= i < rows.len() {
        lemma_part_fold_stuck(rows, i + 1, st);
    }
}

/// The function forest of `rows`, walked from a table of `whiles_number`
/// empty bodies with function 0 current.
pub open spec fn partitioned(rows: Seq<Seq<char>>, whiles_number: int) -> Seq<Seq<Seq<char>>> {
    part_fold(
        rows,
        0,
        PartState {
            stack: seq![0],
            next: 0,
            funs: Seq::new(whiles_number as nat, |i: int| Seq::<Seq<char>>::empty()),
            pending: false,
        },
    ).funs
}

/// The exec stack of function numbers, as the walk state sees it.
pub open spec fn stack_view(stack: Seq<usize>) -> Seq<int> {
    stack.map_values(|x: usize| x as int)
}

/// Renders the call statement to function `n`.
fn make_call_line(n: usize) -> (r: String)
    ensures
        r@ == call_line(n as nat),
{
    let mut s = String::from_str("fun");
    let num = usize_to_string(n);
    s.append(num.as_str());
    s.append("();");
    proof {
        assert(s@ =~= "fun"@ + dec_str(n as nat) + "();"@);
    }
    s
}

/// Walks `rows` and splits it into function bodies appended to `functions`,
/// exactly as the `part_fold` walk describes: lines go to the function on
/// top of the stack of open loops, and each loop-open marker allocates the
/// next function number.
///
/// The table must be large enough for every function the walk can allocate;
/// `parse` sizes it from the emitter's loop count.
pub fn divide_into_function(
    rows: &Vec<String>,
    next_fun_num: &mut usize,
    current_fun_num: usize,
    functions: &mut Vec<Vec<String>>,
)
    requires
        current_fun_num < old(functions)@.len(),
        *old(next_fun_num) + count_while_from(rows.deep_view(), 0) < old(functions)@.len(),
    ensures
        final(functions)@.len() == old(functions)@.len(),
        ({
            let end = part_fold(
                rows.deep_view(),
                0,
                PartState {
                    stack: seq![current_fun_num as int],
                    next: *old(next_fun_num) as int,
                    funs: old(functions).deep_view(),
                    pending: false,
                },
            );
            &&& final(functions).deep_view() == end.funs
            &&& *final(next_fun_num) == end.next
        }),
{
    let ghost rws = rows.deep_view();
    let ghost st0 = PartState {
        stack: seq![current_fun_num as int],
        next: *next_fun_num as int,
        funs: functions.deep_view(),
        pending: false,
    };
    let flen_exec = functions.len();
    let ghost flen = flen_exec as int;

    let close_line = String::from_str("}");
    let while_line = String::from_str("while (*ptr)");

    let mut stack: Vec<usize> = Vec::new();
    stack.push(current_fun_num);
    proof {
        assert(stack_view(stack@) =~= seq![current_fun_num as int]);
    }
    let mut pending: bool = false;
    let mut i: usize = 0;
    let n = rows.len();
    while i < n && stack.len() > 0
        invariant
            n == rws.len(),
            rws == rows.deep_view(),
            rows@.len() == n,
            i <= n,
            functions@.len() == flen,
            functions.deep_view().len() == flen,
            close_line@ == line_close(),
            while_line@ == line_while(),
            forall|k: int| 0 <= k < stack@.len() ==> #[trigger] stack@[k] < flen,
            flen <= usize::MAX,
            *next_fun_num + count_while_from(rws, i as int) < flen,
            part_fold(rws, 0, st0) == part_fold(
                rws,
                i as int,
                PartState {
                    stack: stack_view(stack@),
                    next: *next_fun_num as int,
                    funs: functions.deep_view(),
                    pending: pending,
                },
            ),
        decreases n - i,
    {
        let ghost cur_st = PartState {
            stack: stack_view(stack@),
            next: *next_fun_num as int,
            funs: functions.deep_view(),
            pending: pending,
        };
        let ghost dv = functions.deep_view();
        let cur = stack[stack.len() - 1];
        proof {
            assert(stack_view(stack@).last() == stack@.last() as int);
            assert(cur_st.stack.last() == cur as int);
        }
        let row = &rows[i];
        proof {
            assert(rws[i as int] == rows@[i as int]@);
        }
        if pending {
            functions[cur].push(row.clone());
            pending = false;
            proof {
                assert(functions.deep_view() =~~= dv.update(
                    cur as int,
                    dv[cur as int].push(rws[i as int]),
                ));
                assert(part_step(cur_st, rws[i as int]) == (PartState {
                    stack: stack_view(stack@),
                    next: *next_fun_num as int,
                    funs: functions.deep_view(),
                    pending: pending,
                }));
            }
        } else if row.eq(&close_line) {
            functions[cur].push(row.clone());
            stack.pop();
            proof {
                assert(functions.deep_view() =~~= dv.update(
                    cur as int,
                    dv[cur as int].push(rws[i as int]),
                ));
                assert(stack_view(stack@) =~= cur_st.stack.drop_last());
                assert(part_step(cur_st, rws[i as int]) == (PartState {
                    stack: stack_view(stack@),
                    next: *next_fun_num as int,
                    funs: functions.deep_view(),
                    pending: pending,
                }));
            }
        } else if row.eq(&while_line) {
            proof {
                assert(count_while_from(rws, i as int) >= 1);
            }
            *next_fun_num = *next_fun_num + 1;
            let nf = *next_fun_num;
            let call = make_call_line(nf);
            let ghost callv = call@;
            functions[cur].push(call);
            let ghost dv1 = functions.deep_view();
            functions[nf].push(row.clone());
            stack.push(nf);
            pending = true;
            proof {
                assert(dv1 =~~= dv.update(cur as int, dv[cur as int].push(callv)));
                assert(functions.deep_view() =~~= dv1.update(
                    nf as int,
                    dv1[nf as int].push(rws[i as int]),
                ));
                assert(stack_view(stack@) =~= cur_st.stack.push(nf as int));
                assert(part_step(cur_st, rws[i as int]) == (PartState {
                    stack: stack_view(stack@),
                    next: *next_fun_num as int,
                    funs: functions.deep_view(),
                    pending: pending,
                }));
            }
        } else {
            functions[cur].push(row.clone());
            proof {
                assert(functions.deep_view() =~~= dv.update(
                    cur as int,
                    dv[cur as int].push(rws[i as int]),
                ));
                assert(part_step(cur_st, rws[i as int]) == (PartState {
                    stack: stack_view(stack@),
                    next: *next_fun_num as int,
                    funs: functions.deep_view(),
                    pending: pending,
                }));
            }
        }
        i += 1;
    }
    proof {
        let cur_st = PartState {
            stack: stack_view(stack@),
            next: *next_fun_num as int,
            funs: functions.deep_view(),
            pending: pending,
        };
        if i < n {
            assert(stack@.len() == 0);
            lemma_part_fold_stuck(rws, i as int, cur_st);
        }
        assert(part_fold(rws, 0, st0) == cur_st);
    }
}

/// One forward declaration line per function number in `[k, funs_len)`.
pub open spec fn decl_block(funs_len: int, k: int) -> Seq<char>
    decreases funs_len - k,
{
    if !(1 <= k < funs_len) {
        Seq::empty()
    } else {
        "void fun"@ + dec_str(k as nat) + "();\n"@ + decl_block(funs_len, k + 1)
    }
}

/// The lines of one function body, each indented one level.
pub open spec fn indented_block(rows: Seq<Seq<char>>, j: int) -> Seq<char>
    decreases rows.len() - j,
{
    if !(0 <= j < rows.len()) {
        Seq::empty()
    } else {
        seq!['\t'] + rows[j] + seq!['\n'] + indented_block(rows, j + 1)
    }
}

/// One routine definition per function number in `[k, funs.len())`.
pub open spec fn defs_block(funs: Seq<Seq<Seq<char>>>, k: int) -> Seq<char>
    decreases funs.len() - k,
{
    if !(1 <= k < funs.len()) {
        Seq::empty()
    } else {
        "void fun"@ + dec_str(k as nat) + "()\n{\n"@ + indented_block(funs[k], 0) + "}\n\n"@
            + defs_block(funs, k + 1)
    }
}

/// The whole generated program: the include preamble, one forward
/// declaration per function, the entry routine holding the tape and head
/// declarations and function 0's lines, and one routine per remaining
/// function.
pub open spec fn generated_program(funs: Seq<Seq<Seq<char>>>) -> Seq<char>
    recommends
        funs.len() >= 1,
{
    "#include <stdio.h>\n\n"@ + decl_block(funs.len() as int, 1)
        + "\nchar array[30000] = {0};\nchar* ptr = array;\n\nint main()\n{\n"@ + indented_block(
        funs[0],
        0,
    ) + "\n\treturn 0;\n}\n\n"@ + defs_block(funs, 1)
}

proof fn lemma_append3(s0: Seq<char>, a: Seq<char>, b: Seq<char>, c: Seq<char>)
    ensures
        ((s0 + a) + b) + c == s0 + (a + b + c),
{
    assert(((s0 + a) + b) + c =~= s0 + (a + b + c));
}

/// Appends every line of `rows`, indented one level.
fn append_indented(s: &mut String, rows: &Vec<String>)
    ensures
        final(s)@ == old(s)@ + indented_block(rows.deep_view(), 0),
{
    let ghost rws = rows.deep_view();
    let ghost s_enter = s@;
    let n = rows.len();
    let mut j: usize = 0;
    while j < n
        invariant
            j <= n,
            n == rws.len(),
            rws == rows.deep_view(),
            rows@.len() == n,
            s@ + indented_block(rws, j as int) == s_enter + indented_block(rws, 0),
        decreases n - j,
    {
        let ghost s_pre = s@;
        s.append("\t");
        s.append(rows[j].as_str());
        s.append("\n");
        proof {
            reveal_strlit("\t");
            reveal_strlit("\n");
            assert("\t"@ =~= seq!['\t']);
            assert("\n"@ =~= seq!['\n']);
            assert(rws[j as int] == rows@[j as int]@);
            lemma_append3(s_pre, seq!['\t'], rws[j as int], seq!['\n']);
            lemma_concat_associative(
                s_pre,
                seq!['\t'] + rws[j as int] + seq!['\n'],
                indented_block(rws, j + 1),
            );
        }
        j += 1;
    }
    proof {
        assert(s@ + Seq::<char>::empty() =~= s@);
    }
}

/// Renders the function forest as the final program text: preamble, forward
/// declarations, the entry routine with function 0's lines, then one
/// routine per function number from 1 up.
pub fn write_program(functions: &Vec<Vec<String>>) -> (r: String)
    requires
        functions@.len() >= 1,
    ensures
        r@ == generated_program(functions.deep_view()),
{
    let ghost dv = functions.deep_view();
    let n = functions.len();
    let ghost header = "#include <stdio.h>\n\n"@;

    let mut s = String::from_str("#include <stdio.h>\n\n");
    let mut i: usize = 1;
    while i < n
        invariant
            1 <= i <= n || (n <= 1 && i == 1),
            n == dv.len(),
            dv == functions.deep_view(),
            s@ + decl_block(n as int, i as int) == header + decl_block(n as int, 1),
        decreases n - i,
    {
        let ghost s_pre = s@;
        s.append("void fun");
        let num = usize_to_string(i);
        s.append(num.as_str());
        s.append("();\n");
        proof {
            lemma_append3(s_pre, "void fun"@, dec_str(i as nat), "();\n"@);
            lemma_concat_associative(
                s_pre,
                "void fun"@ + dec_str(i as nat) + "();\n"@,
                decl_block(n as int, i + 1),
            );
        }
        i += 1;
    }
    proof {
        assert(decl_block(n as int, i as int) =~= Seq::<char>::empty());
        assert(s@ + Seq::<char>::empty() =~= s@);
        assert(s@ == header + decl_block(n as int, 1));
    }

    let ghost s1 = s@;
    s.append("\nchar array[30000] = {0};\nchar* ptr = array;\n\nint main()\n{\n");
    append_indented(&mut s, &functions[0]);
    proof {
        assert(functions@[0].deep_view() == dv[0]);
        lemma_concat_associative(
            s1,
            "\nchar array[30000] = {0};\nchar* ptr = array;\n\nint main()\n{\n"@,
            indented_block(dv[0], 0),
        );
    }
    s.append("\n\treturn 0;\n}\n\n");
    let ghost s2 = s@;
    proof {
        assert(s2 == ((header + decl_block(n as int, 1)
            + "\nchar array[30000] = {0};\nchar* ptr = array;\n\nint main()\n{\n"@) + indented_block(
            dv[0],
            0,
        )) + "\n\treturn 0;\n}\n\n"@);
    }

    let mut k: usize = 1;
    while k < n
        invariant
            1 <= k <= n || (n <= 1 && k == 1),
            n == dv.len(),
            dv == functions.deep_view(),
            functions@.len() == n,
            s@ + defs_block(dv, k as int) == s2 + defs_block(dv, 1),
        decreases n - k,
    {
        let ghost s_pre = s@;
        s.append("void fun");
        let num = usize_to_string(k);
        s.append(num.as_str());
        s.append("()\n{\n");
        append_indented(&mut s, &functions[k]);
        s.append("}\n\n");
        proof {
            assert(functions@[k as int].deep_view() == dv[k as int]);
            lemma_append3(s_pre, "void fun"@, dec_str(k as nat), "()\n{\n"@);
            let head_part = "void fun"@ + dec_str(k as nat) + "()\n{\n"@;
            lemma_append3(Seq::<char>::empty(), head_part, indented_block(dv[k as int], 0), "}\n\n"@);
            assert((s_pre + head_part) + indented_block(dv[k as int], 0) + "}\n\n"@ =~= s_pre + (
            head_part + indented_block(dv[k as int], 0) + "}\n\n"@));
            lemma_concat_associative(
                s_pre,
                head_part + indented_block(dv[k as int], 0) + "}\n\n"@,
                defs_block(dv, k + 1),
            );
        }
        k += 1;
    }
    proof {
        assert(defs_block(dv, k as int) =~= Seq::<char>::empty());
        assert(s@ + Seq::<char>::empty() =~= s@);
        assert(s@ == generated_program(dv));
    }
    s
}

/// Partitions the emitted lines into `whiles_number` function bodies and
/// renders the program text. The table size must leave room for every loop:
/// the caller passes one more than the number of loop-open markers.
pub fn parse(rows: &Vec<String>, whiles_number: usize) -> (r: String)
    requires
        whiles_number >= 1,
        count_while_from(rows.deep_view(), 0) < whiles_number,
    ensures
        r@ == generated_program(partitioned(rows.deep_view(), whiles_number as int)),
{
    let mut functions: Vec<Vec<String>> = Vec::new();
    proof {
        assert(functions.deep_view() =~~= Seq::new(0nat, |i: int| Seq::<Seq<char>>::empty()));
    }
    let mut k: usize = 0;
    while k < whiles_number
        invariant
            k <= whiles_number,
            functions@.len() == k,
            functions.deep_view() == Seq::new(k as nat, |i: int| Seq::<Seq<char>>::empty()),
        decreases whiles_number - k,
    {
        let ghost dvp = functions.deep_view();
        let empty_fun: Vec<String> = Vec::new();
        let ghost evd = empty_fun.deep_view();
        functions.push(empty_fun);
        proof {
            assert(evd =~~= Seq::<Seq<char>>::empty());
            assert forall|j: int| 0 <= j < k + 1 implies functions.deep_view()[j] == Seq::<
                Seq<char>,
            >::empty() by {
                if j < k {
                    assert(functions.deep_view()[j] == dvp[j]);
                } else {
                    assert(functions.deep_view()[j] == evd);
                }
            }
            assert(functions.deep_view() =~= Seq::new(
                (k + 1) as nat,
                |i: int| Seq::<Seq<char>>::empty(),
            ));
        }
        k += 1;
    }
    let mut fun_number: usize = 0;
    divide_into_function(rows, &mut fun_number, 0, &mut functions);
    write_program(&functions)
}

} // verus!
